//! Format-neutral event wire records exchanged through shared memory.
//!
//! An [`EventRecord`] is a fixed 40-byte POD: a `kind` tag, a block-relative `sample_offset` and a
//! 32-byte payload whose layout depends on the kind. A crashed child may leave arbitrary bytes in
//! a record, so the tag (and any nested enum inside the payload) is validated by
//! [`EventRecord::decode`] before a [`NeutralEvent`] is built. Floating-point fields travel as
//! their IEEE-754 bit patterns; every multi-byte field is little-endian.

use vstd::bytes::*;
use vstd::prelude::*;

verus! {

/// Per-voice / per-event address (`-1` = wildcard).
#[derive(Clone, Copy, Debug, PartialEq, Eq)]
pub struct VoiceAddr {
    pub note_id: i32,
    pub port_index: i16,
    pub channel: i16,
    pub key: i16,
    pub _pad: i16,
}

/// The all-wildcard address.
pub open spec fn wildcard_addr() -> VoiceAddr {
    VoiceAddr { note_id: -1i32, port_index: -1i16, channel: -1i16, key: -1i16, _pad: 0i16 }
}

impl VoiceAddr {
    /// Every field wildcard (global target).
    pub fn wildcard() -> (r: VoiceAddr)
        ensures
            r == wildcard_addr(),
    {
        VoiceAddr { note_id: -1, port_index: -1, channel: -1, key: -1, _pad: 0 }
    }
}

pub const KIND_NOTE_ON: u32 = 0;
pub const KIND_NOTE_OFF: u32 = 1;
pub const KIND_NOTE_CHOKE: u32 = 2;
pub const KIND_NOTE_END: u32 = 3;
pub const KIND_POLY_PRESSURE: u32 = 4;
pub const KIND_NOTE_EXPRESSION: u32 = 5;
pub const KIND_PARAM_VALUE: u32 = 6;
pub const KIND_PARAM_MOD: u32 = 7;
pub const KIND_PARAM_GESTURE_BEGIN: u32 = 8;
pub const KIND_PARAM_GESTURE_END: u32 = 9;
pub const KIND_MIDI_RAW: u32 = 10;
pub const KIND_MIDI2: u32 = 11;
pub const KIND_LEGACY_MIDI_CC_OUT: u32 = 12;

/// Size in bytes of the payload of one record.
pub const PAYLOAD_BYTES: usize = 32;

/// Semantic id of a note expression.
#[derive(Clone, Copy, Debug, PartialEq, Eq)]
pub enum NeutralExpressionId {
    Volume,
    Pan,
    Tuning,
    Vibrato,
    Expression,
    Brightness,
    Pressure,
}

pub open spec fn expression_id_code(id: NeutralExpressionId) -> u32 {
    match id {
        NeutralExpressionId::Volume => 0,
        NeutralExpressionId::Pan => 1,
        NeutralExpressionId::Tuning => 2,
        NeutralExpressionId::Vibrato => 3,
        NeutralExpressionId::Expression => 4,
        NeutralExpressionId::Brightness => 5,
        NeutralExpressionId::Pressure => 6,
    }
}

pub open spec fn expression_id_of(v: u32) -> Option<NeutralExpressionId> {
    if v == 0 {
        Some(NeutralExpressionId::Volume)
    } else if v == 1 {
        Some(NeutralExpressionId::Pan)
    } else if v == 2 {
        Some(NeutralExpressionId::Tuning)
    } else if v == 3 {
        Some(NeutralExpressionId::Vibrato)
    } else if v == 4 {
        Some(NeutralExpressionId::Expression)
    } else if v == 5 {
        Some(NeutralExpressionId::Brightness)
    } else if v == 6 {
        Some(NeutralExpressionId::Pressure)
    } else {
        None
    }
}

impl NeutralExpressionId {
    /// Wire code of the id.
    pub fn to_u32(self) -> (r: u32)
        ensures
            r == expression_id_code(self),
    {
        match self {
            NeutralExpressionId::Volume => 0,
            NeutralExpressionId::Pan => 1,
            NeutralExpressionId::Tuning => 2,
            NeutralExpressionId::Vibrato => 3,
            NeutralExpressionId::Expression => 4,
            NeutralExpressionId::Brightness => 5,
            NeutralExpressionId::Pressure => 6,
        }
    }

    /// Out-of-range codes are `None` (nested enum validation used by `decode`).
    pub fn from_u32(v: u32) -> (r: Option<Self>)
        ensures
            r == expression_id_of(v),
    {
        match v {
            0 => Some(NeutralExpressionId::Volume),
            1 => Some(NeutralExpressionId::Pan),
            2 => Some(NeutralExpressionId::Tuning),
            3 => Some(NeutralExpressionId::Vibrato),
            4 => Some(NeutralExpressionId::Expression),
            5 => Some(NeutralExpressionId::Brightness),
            6 => Some(NeutralExpressionId::Pressure),
            _ => None,
        }
    }
}

/// Ergonomic event form used by host and child logic (never placed in shared memory directly).
///
/// `velocity`, `pressure`, `value` and `amount` are `f64` bit patterns; `tuning_cents` is an `f32`
/// bit pattern.
#[derive(Clone, Copy, Debug, PartialEq)]
#[allow(inconsistent_fields)]
pub enum NeutralEvent {
    NoteOn { sample_offset: u32, addr: VoiceAddr, velocity: u64, tuning_cents: u32, length_frames: i32 },
    NoteOff { sample_offset: u32, addr: VoiceAddr, velocity: u64 },
    NoteChoke { sample_offset: u32, addr: VoiceAddr },
    /// Child → host direction.
    NoteEnd { sample_offset: u32, addr: VoiceAddr },
    PolyPressure { sample_offset: u32, addr: VoiceAddr, pressure: u64 },
    NoteExpression { sample_offset: u32, addr: VoiceAddr, expression_id: NeutralExpressionId, value: u64 },
    ParamValue { sample_offset: u32, param_id: u64, addr: VoiceAddr, value: u64 },
    ParamMod { sample_offset: u32, param_id: u64, addr: VoiceAddr, amount: u64 },
    ParamGestureBegin { sample_offset: u32, param_id: u64 },
    ParamGestureEnd { sample_offset: u32, param_id: u64 },
    MidiRaw { sample_offset: u32, port_index: u16, data: [u8; 3] },
    Midi2 { sample_offset: u32, port_index: u16, words: [u32; 4] },
    /// Child → host direction.
    LegacyMidiCcOut { sample_offset: u32, control_number: u8, channel: i8, value: i8, value2: i8 },
}

/// One fixed-length event record as it lies in shared memory.
#[derive(Clone, Copy, Debug)]
pub struct EventRecord {
    /// Raw kind tag; unknown values decode to `None`.
    pub kind: u32,
    /// Offset inside the block (common header).
    pub sample_offset: u32,
    /// Kind-dependent body, little-endian.
    pub payload: [u8; 32],
}

// ---------------------------------------------------------------------------------------------
// Wire layout, stated over byte sequences.

pub open spec fn zeros(n: nat) -> Seq<u8> {
    Seq::new(n, |i: int| 0u8)
}

pub open spec fn addr_bytes(a: VoiceAddr) -> Seq<u8> {
    spec_u32_to_le_bytes(a.note_id as u32) + spec_u16_to_le_bytes(a.port_index as u16)
        + spec_u16_to_le_bytes(a.channel as u16) + spec_u16_to_le_bytes(a.key as u16)
        + spec_u16_to_le_bytes(a._pad as u16)
}

pub open spec fn event_kind(e: NeutralEvent) -> u32 {
    match e {
        NeutralEvent::NoteOn { .. } => KIND_NOTE_ON,
        NeutralEvent::NoteOff { .. } => KIND_NOTE_OFF,
        NeutralEvent::NoteChoke { .. } => KIND_NOTE_CHOKE,
        NeutralEvent::NoteEnd { .. } => KIND_NOTE_END,
        NeutralEvent::PolyPressure { .. } => KIND_POLY_PRESSURE,
        NeutralEvent::NoteExpression { .. } => KIND_NOTE_EXPRESSION,
        NeutralEvent::ParamValue { .. } => KIND_PARAM_VALUE,
        NeutralEvent::ParamMod { .. } => KIND_PARAM_MOD,
        NeutralEvent::ParamGestureBegin { .. } => KIND_PARAM_GESTURE_BEGIN,
        NeutralEvent::ParamGestureEnd { .. } => KIND_PARAM_GESTURE_END,
        NeutralEvent::MidiRaw { .. } => KIND_MIDI_RAW,
        NeutralEvent::Midi2 { .. } => KIND_MIDI2,
        NeutralEvent::LegacyMidiCcOut { .. } => KIND_LEGACY_MIDI_CC_OUT,
    }
}

pub open spec fn event_offset(e: NeutralEvent) -> u32 {
    match e {
        NeutralEvent::NoteOn { sample_offset, .. } => sample_offset,
        NeutralEvent::NoteOff { sample_offset, .. } => sample_offset,
        NeutralEvent::NoteChoke { sample_offset, .. } => sample_offset,
        NeutralEvent::NoteEnd { sample_offset, .. } => sample_offset,
        NeutralEvent::PolyPressure { sample_offset, .. } => sample_offset,
        NeutralEvent::NoteExpression { sample_offset, .. } => sample_offset,
        NeutralEvent::ParamValue { sample_offset, .. } => sample_offset,
        NeutralEvent::ParamMod { sample_offset, .. } => sample_offset,
        NeutralEvent::ParamGestureBegin { sample_offset, .. } => sample_offset,
        NeutralEvent::ParamGestureEnd { sample_offset, .. } => sample_offset,
        NeutralEvent::MidiRaw { sample_offset, .. } => sample_offset,
        NeutralEvent::Midi2 { sample_offset, .. } => sample_offset,
        NeutralEvent::LegacyMidiCcOut { sample_offset, .. } => sample_offset,
    }
}

/// Note body: address, 4 padding bytes, `f64` velocity, `f32` tuning, `i32` length.
pub open spec fn note_body(addr: VoiceAddr, velocity: u64, tuning: u32, length: i32) -> Seq<u8> {
    addr_bytes(addr) + zeros(4) + spec_u64_to_le_bytes(velocity) + spec_u32_to_le_bytes(tuning)
        + spec_u32_to_le_bytes(length as u32)
}

/// Address-only body.
pub open spec fn addr_body(addr: VoiceAddr) -> Seq<u8> {
    addr_bytes(addr) + zeros(20)
}

/// Expression body: address, padding, `f64` value, `u32` expression id, padding.
pub open spec fn expr_body(addr: VoiceAddr, value: u64, expression_id: u32) -> Seq<u8> {
    addr_bytes(addr) + zeros(4) + spec_u64_to_le_bytes(value) + spec_u32_to_le_bytes(expression_id)
        + zeros(4)
}

/// Parameter body: address, padding, `f64` value, `u64` parameter id.
pub open spec fn param_body(addr: VoiceAddr, value: u64, param_id: u64) -> Seq<u8> {
    addr_bytes(addr) + zeros(4) + spec_u64_to_le_bytes(value) + spec_u64_to_le_bytes(param_id)
}

/// Gesture body: `u64` parameter id.
pub open spec fn gesture_body(param_id: u64) -> Seq<u8> {
    spec_u64_to_le_bytes(param_id) + zeros(24)
}

/// Raw MIDI body: 3 data bytes, padding, `u16` port.
pub open spec fn midi_body(data: [u8; 3], port_index: u16) -> Seq<u8> {
    data@ + zeros(1) + spec_u16_to_le_bytes(port_index) + zeros(26)
}

/// MIDI 2 body: four `u32` words, `u16` port.
pub open spec fn midi2_body(words: [u32; 4], port_index: u16) -> Seq<u8> {
    spec_u32_to_le_bytes(words[0]) + spec_u32_to_le_bytes(words[1]) + spec_u32_to_le_bytes(words[2])
        + spec_u32_to_le_bytes(words[3]) + spec_u16_to_le_bytes(port_index) + zeros(14)
}

/// Legacy CC out body: four signed/unsigned bytes, `u16` port (always written as 0).
pub open spec fn cc_out_body(control_number: u8, channel: i8, value: i8, value2: i8) -> Seq<u8> {
    seq![control_number, channel as u8, value as u8, value2 as u8] + zeros(28)
}

/// The payload bytes that encoding an event writes.
pub open spec fn event_payload(e: NeutralEvent) -> Seq<u8> {
    match e {
        NeutralEvent::NoteOn { addr, velocity, tuning_cents, length_frames, .. } => note_body(
            addr,
            velocity,
            tuning_cents,
            length_frames,
        ),
        NeutralEvent::NoteOff { addr, velocity, .. } => note_body(addr, velocity, 0, 0),
        NeutralEvent::NoteChoke { addr, .. } => addr_body(addr),
        NeutralEvent::NoteEnd { addr, .. } => addr_body(addr),
        NeutralEvent::PolyPressure { addr, pressure, .. } => expr_body(addr, pressure, 0),
        NeutralEvent::NoteExpression { addr, expression_id, value, .. } => expr_body(
            addr,
            value,
            expression_id_code(expression_id),
        ),
        NeutralEvent::ParamValue { param_id, addr, value, .. } => param_body(addr, value, param_id),
        NeutralEvent::ParamMod { param_id, addr, amount, .. } => param_body(addr, amount, param_id),
        NeutralEvent::ParamGestureBegin { param_id, .. } => gesture_body(param_id),
        NeutralEvent::ParamGestureEnd { param_id, .. } => gesture_body(param_id),
        NeutralEvent::MidiRaw { port_index, data, .. } => midi_body(data, port_index),
        NeutralEvent::Midi2 { port_index, words, .. } => midi2_body(words, port_index),
        NeutralEvent::LegacyMidiCcOut { control_number, channel, value, value2, .. } => cc_out_body(
            control_number,
            channel,
            value,
            value2,
        ),
    }
}

pub open spec fn u16_at(p: Seq<u8>, off: int) -> u16 {
    spec_u16_from_le_bytes(p.subrange(off, off + 2))
}

pub open spec fn u32_at(p: Seq<u8>, off: int) -> u32 {
    spec_u32_from_le_bytes(p.subrange(off, off + 4))
}

pub open spec fn u64_at(p: Seq<u8>, off: int) -> u64 {
    spec_u64_from_le_bytes(p.subrange(off, off + 8))
}

/// The address stored in the first 12 payload bytes.
pub open spec fn addr_at(p: Seq<u8>) -> VoiceAddr {
    VoiceAddr {
        note_id: u32_at(p, 0) as i32,
        port_index: u16_at(p, 4) as i16,
        channel: u16_at(p, 6) as i16,
        key: u16_at(p, 8) as i16,
        _pad: u16_at(p, 10) as i16,
    }
}

/// What a record with this kind, offset and payload decodes to.
pub open spec fn decode_parts(kind: u32, so: u32, p: Seq<u8>) -> Option<NeutralEvent> {
    if kind == KIND_NOTE_ON {
        Some(
            NeutralEvent::NoteOn {
                sample_offset: so,
                addr: addr_at(p),
                velocity: u64_at(p, 16),
                tuning_cents: u32_at(p, 24),
                length_frames: u32_at(p, 28) as i32,
            },
        )
    } else if kind == KIND_NOTE_OFF {
        Some(NeutralEvent::NoteOff { sample_offset: so, addr: addr_at(p), velocity: u64_at(p, 16) })
    } else if kind == KIND_NOTE_CHOKE {
        Some(NeutralEvent::NoteChoke { sample_offset: so, addr: addr_at(p) })
    } else if kind == KIND_NOTE_END {
        Some(NeutralEvent::NoteEnd { sample_offset: so, addr: addr_at(p) })
    } else if kind == KIND_POLY_PRESSURE {
        Some(NeutralEvent::PolyPressure { sample_offset: so, addr: addr_at(p), pressure: u64_at(p, 16) })
    } else if kind == KIND_NOTE_EXPRESSION {
        match expression_id_of(u32_at(p, 24)) {
            Some(id) => Some(
                NeutralEvent::NoteExpression {
                    sample_offset: so,
                    addr: addr_at(p),
                    expression_id: id,
                    value: u64_at(p, 16),
                },
            ),
            None => None,
        }
    } else if kind == KIND_PARAM_VALUE {
        Some(
            NeutralEvent::ParamValue {
                sample_offset: so,
                param_id: u64_at(p, 24),
                addr: addr_at(p),
                value: u64_at(p, 16),
            },
        )
    } else if kind == KIND_PARAM_MOD {
        Some(
            NeutralEvent::ParamMod {
                sample_offset: so,
                param_id: u64_at(p, 24),
                addr: addr_at(p),
                amount: u64_at(p, 16),
            },
        )
    } else if kind == KIND_PARAM_GESTURE_BEGIN {
        Some(NeutralEvent::ParamGestureBegin { sample_offset: so, param_id: u64_at(p, 0) })
    } else if kind == KIND_PARAM_GESTURE_END {
        Some(NeutralEvent::ParamGestureEnd { sample_offset: so, param_id: u64_at(p, 0) })
    } else if kind == KIND_MIDI_RAW {
        Some(NeutralEvent::MidiRaw { sample_offset: so, port_index: u16_at(p, 4), data: [p[0], p[1], p[2]] })
    } else if kind == KIND_MIDI2 {
        Some(
            NeutralEvent::Midi2 {
                sample_offset: so,
                port_index: u16_at(p, 16),
                words: [u32_at(p, 0), u32_at(p, 4), u32_at(p, 8), u32_at(p, 12)],
            },
        )
    } else if kind == KIND_LEGACY_MIDI_CC_OUT {
        Some(
            NeutralEvent::LegacyMidiCcOut {
                sample_offset: so,
                control_number: p[0],
                channel: p[1] as i8,
                value: p[2] as i8,
                value2: p[3] as i8,
            },
        )
    } else {
        None
    }
}

/// What a record decodes to.
pub open spec fn record_decodes_to(r: EventRecord) -> Option<NeutralEvent> {
    decode_parts(r.kind, r.sample_offset, r.payload@)
}

/// The record that encoding `e` produces.
pub open spec fn record_encodes(r: EventRecord, e: NeutralEvent) -> bool {
    &&& r.kind == event_kind(e)
    &&& r.sample_offset == event_offset(e)
    &&& r.payload@ == event_payload(e)
}

// ---------------------------------------------------------------------------------------------
// Byte helpers.

pub(crate) fn push_u16(v: &mut Vec<u8>, x: u16)
    ensures
        final(v)@ == old(v)@ + spec_u16_to_le_bytes(x),
{
    let b = u16_to_le_bytes(x);
    v.push(b[0]);
    v.push(b[1]);
    proof {
        assert(final(v)@ =~= old(v)@ + b@);
    }
}

pub(crate) fn push_u32(v: &mut Vec<u8>, x: u32)
    ensures
        final(v)@ == old(v)@ + spec_u32_to_le_bytes(x),
{
    let b = u32_to_le_bytes(x);
    let mut i: usize = 0;
    while i < 4
        invariant
            0 <= i <= 4,
            b@.len() == 4,
            v@ == old(v)@ + b@.subrange(0, i as int),
        decreases 4 - i,
    {
        v.push(b[i]);
        proof {
            assert(b@.subrange(0, i + 1) =~= b@.subrange(0, i as int).push(b@[i as int]));
        }
        i += 1;
    }
    proof {
        assert(b@.subrange(0, 4) =~= b@);
    }
}

fn push_u64(v: &mut Vec<u8>, x: u64)
    ensures
        final(v)@ == old(v)@ + spec_u64_to_le_bytes(x),
{
    let b = u64_to_le_bytes(x);
    let mut i: usize = 0;
    while i < 8
        invariant
            0 <= i <= 8,
            b@.len() == 8,
            v@ == old(v)@ + b@.subrange(0, i as int),
        decreases 8 - i,
    {
        v.push(b[i]);
        proof {
            assert(b@.subrange(0, i + 1) =~= b@.subrange(0, i as int).push(b@[i as int]));
        }
        i += 1;
    }
    proof {
        assert(b@.subrange(0, 8) =~= b@);
    }
}

fn push_zeros(v: &mut Vec<u8>, n: usize)
    ensures
        final(v)@ == old(v)@ + zeros(n as nat),
{
    let mut i: usize = 0;
    while i < n
        invariant
            0 <= i <= n,
            v@ == old(v)@ + zeros(i as nat),
        decreases n - i,
    {
        v.push(0u8);
        proof {
            assert(zeros((i + 1) as nat) =~= zeros(i as nat).push(0u8));
        }
        i += 1;
    }
}

fn push_addr(v: &mut Vec<u8>, a: VoiceAddr)
    ensures
        final(v)@ == old(v)@ + addr_bytes(a),
{
    push_u32(v, a.note_id as u32);
    push_u16(v, a.port_index as u16);
    push_u16(v, a.channel as u16);
    push_u16(v, a.key as u16);
    push_u16(v, a._pad as u16);
    proof {
        assert(final(v)@ =~= old(v)@ + addr_bytes(a));
    }
}

fn read_u16(p: &[u8; 32], off: usize) -> (r: u16)
    requires
        off + 2 <= 32,
    ensures
        r == u16_at(p@, off as int),
{
    let mut t: Vec<u8> = Vec::new();
    t.push(p[off]);
    t.push(p[off + 1]);
    proof {
        assert(t@ =~= p@.subrange(off as int, off + 2));
    }
    u16_from_le_bytes(t.as_slice())
}

fn read_u32(p: &[u8; 32], off: usize) -> (r: u32)
    requires
        off + 4 <= 32,
    ensures
        r == u32_at(p@, off as int),
{
    let mut t: Vec<u8> = Vec::new();
    let mut i: usize = 0;
    while i < 4
        invariant
            0 <= i <= 4,
            off + 4 <= 32,
            t@ == p@.subrange(off as int, off + i),
        decreases 4 - i,
    {
        t.push(p[off + i]);
        proof {
            assert(p@.subrange(off as int, off + i + 1) =~= p@.subrange(off as int, off + i).push(
                p@[off + i],
            ));
        }
        i += 1;
    }
    u32_from_le_bytes(t.as_slice())
}

fn read_u64(p: &[u8; 32], off: usize) -> (r: u64)
    requires
        off + 8 <= 32,
    ensures
        r == u64_at(p@, off as int),
{
    let mut t: Vec<u8> = Vec::new();
    let mut i: usize = 0;
    while i < 8
        invariant
            0 <= i <= 8,
            off + 8 <= 32,
            t@ == p@.subrange(off as int, off + i),
        decreases 8 - i,
    {
        t.push(p[off + i]);
        proof {
            assert(p@.subrange(off as int, off + i + 1) =~= p@.subrange(off as int, off + i).push(
                p@[off + i],
            ));
        }
        i += 1;
    }
    u64_from_le_bytes(t.as_slice())
}

fn read_addr(p: &[u8; 32]) -> (r: VoiceAddr)
    ensures
        r == addr_at(p@),
{
    VoiceAddr {
        note_id: read_u32(p, 0) as i32,
        port_index: read_u16(p, 4) as i16,
        channel: read_u16(p, 6) as i16,
        key: read_u16(p, 8) as i16,
        _pad: read_u16(p, 10) as i16,
    }
}

fn to_payload(v: &Vec<u8>) -> (r: [u8; 32])
    requires
        v@.len() == 32,
    ensures
        r@ == v@,
{
    let mut p = [0u8; 32];
    let mut i: usize = 0;
    while i < 32
        invariant
            0 <= i <= 32,
            v@.len() == 32,
            forall|j: int| 0 <= j < i ==> p@[j] == v@[j],
        decreases 32 - i,
    {
        p[i] = v[i];
        i += 1;
    }
    proof {
        assert(p@ =~= v@);
    }
    p
}

proof fn lemma_byte_lengths()
    ensures
        forall|x: u16| #[trigger] spec_u16_to_le_bytes(x).len() == 2,
        forall|x: u32| #[trigger] spec_u32_to_le_bytes(x).len() == 4,
        forall|x: u64| #[trigger] spec_u64_to_le_bytes(x).len() == 8,
{
    lemma_auto_spec_u16_to_from_le_bytes();
    lemma_auto_spec_u32_to_from_le_bytes();
    lemma_auto_spec_u64_to_from_le_bytes();
}

impl EventRecord {
    /// Validate `kind` (and nested enum fields) and read only the matching body.
    pub fn decode(&self) -> (r: Option<NeutralEvent>)
        ensures
            r == record_decodes_to(*self),
    {
        let so = self.sample_offset;
        let p = &self.payload;
        match self.kind {
            KIND_NOTE_ON => Some(
                NeutralEvent::NoteOn {
                    sample_offset: so,
                    addr: read_addr(p),
                    velocity: read_u64(p, 16),
                    tuning_cents: read_u32(p, 24),
                    length_frames: read_u32(p, 28) as i32,
                },
            ),
            KIND_NOTE_OFF => Some(
                NeutralEvent::NoteOff { sample_offset: so, addr: read_addr(p), velocity: read_u64(p, 16) },
            ),
            KIND_NOTE_CHOKE => Some(NeutralEvent::NoteChoke { sample_offset: so, addr: read_addr(p) }),
            KIND_NOTE_END => Some(NeutralEvent::NoteEnd { sample_offset: so, addr: read_addr(p) }),
            KIND_POLY_PRESSURE => Some(
                NeutralEvent::PolyPressure {
                    sample_offset: so,
                    addr: read_addr(p),
                    pressure: read_u64(p, 16),
                },
            ),
            KIND_NOTE_EXPRESSION => {
                let id = NeutralExpressionId::from_u32(read_u32(p, 24));
                match id {
                    Some(expression_id) => Some(
                        NeutralEvent::NoteExpression {
                            sample_offset: so,
                            addr: read_addr(p),
                            expression_id,
                            value: read_u64(p, 16),
                        },
                    ),
                    None => None,
                }
            },
            KIND_PARAM_VALUE => Some(
                NeutralEvent::ParamValue {
                    sample_offset: so,
                    param_id: read_u64(p, 24),
                    addr: read_addr(p),
                    value: read_u64(p, 16),
                },
            ),
            KIND_PARAM_MOD => Some(
                NeutralEvent::ParamMod {
                    sample_offset: so,
                    param_id: read_u64(p, 24),
                    addr: read_addr(p),
                    amount: read_u64(p, 16),
                },
            ),
            KIND_PARAM_GESTURE_BEGIN => Some(
                NeutralEvent::ParamGestureBegin { sample_offset: so, param_id: read_u64(p, 0) },
            ),
            KIND_PARAM_GESTURE_END => Some(
                NeutralEvent::ParamGestureEnd { sample_offset: so, param_id: read_u64(p, 0) },
            ),
            KIND_MIDI_RAW => Some(
                NeutralEvent::MidiRaw {
                    sample_offset: so,
                    port_index: read_u16(p, 4),
                    data: [p[0], p[1], p[2]],
                },
            ),
            KIND_MIDI2 => Some(
                NeutralEvent::Midi2 {
                    sample_offset: so,
                    port_index: read_u16(p, 16),
                    words: [read_u32(p, 0), read_u32(p, 4), read_u32(p, 8), read_u32(p, 12)],
                },
            ),
            KIND_LEGACY_MIDI_CC_OUT => Some(
                NeutralEvent::LegacyMidiCcOut {
                    sample_offset: so,
                    control_number: p[0],
                    channel: p[1] as i8,
                    value: p[2] as i8,
                    value2: p[3] as i8,
                },
            ),
            _ => None,
        }
    }

    /// Encode an event into its wire record (host-side event generation / child-side responses).
    pub fn encode(ev: &NeutralEvent) -> (r: EventRecord)
        ensures
            record_encodes(r, *ev),
    {
        proof {
            lemma_byte_lengths();
        }
        let mut v: Vec<u8> = Vec::new();
        let (kind, sample_offset) = match *ev {
            NeutralEvent::NoteOn { sample_offset, addr, velocity, tuning_cents, length_frames } => {
                push_addr(&mut v, addr);
                push_zeros(&mut v, 4);
                push_u64(&mut v, velocity);
                push_u32(&mut v, tuning_cents);
                push_u32(&mut v, length_frames as u32);
                (KIND_NOTE_ON, sample_offset)
            },
        NeutralEvent::NoteOff { sample_offset, addr, velocity } => {
                push_addr(&mut v, addr);
                push_zeros(&mut v, 4);
                push_u64(&mut v, velocity);
                push_u32(&mut v, 0);
                push_u32(&mut v, 0);
                (KIND_NOTE_OFF, sample_offset)
            },
            NeutralEvent::NoteChoke { sample_offset, addr } => {
                push_addr(&mut v, addr);
                push_zeros(&mut v, 20);
                (KIND_NOTE_CHOKE, sample_offset)
            },
            NeutralEvent::NoteEnd { sample_offset, addr } => {
                push_addr(&mut v, addr);
                push_zeros(&mut v, 20);
                (KIND_NOTE_END, sample_offset)
            },
            NeutralEvent::PolyPressure { sample_offset, addr, pressure } => {
                push_addr(&mut v, addr);
                push_zeros(&mut v, 4);
                push_u64(&mut v, pressure);
                push_u32(&mut v, 0);
                push_zeros(&mut v, 4);
                (KIND_POLY_PRESSURE, sample_offset)
            },
            NeutralEvent::NoteExpression { sample_offset, addr, expression_id, value } => {
                push_addr(&mut v, addr);
                push_zeros(&mut v, 4);
                push_u64(&mut v, value);
                push_u32(&mut v, expression_id.to_u32());
                push_zeros(&mut v, 4);
                (KIND_NOTE_EXPRESSION, sample_offset)
            },
            NeutralEvent::ParamValue { sample_offset, param_id, addr, value } => {
                push_addr(&mut v, addr);
                push_zeros(&mut v, 4);
                push_u64(&mut v, value);
                push_u64(&mut v, param_id);
                (KIND_PARAM_VALUE, sample_offset)
            },
            NeutralEvent::ParamMod { sample_offset, param_id, addr, amount } => {
                push_addr(&mut v, addr);
                push_zeros(&mut v, 4);
                push_u64(&mut v, amount);
                push_u64(&mut v, param_id);
                (KIND_PARAM_MOD, sample_offset)
            },
            NeutralEvent::ParamGestureBegin { sample_offset, param_id } => {
                push_u64(&mut v, param_id);
                push_zeros(&mut v, 24);
                (KIND_PARAM_GESTURE_BEGIN, sample_offset)
            },
            NeutralEvent::ParamGestureEnd { sample_offset, param_id } => {
                push_u64(&mut v, param_id);
                push_zeros(&mut v, 24);
                (KIND_PARAM_GESTURE_END, sample_offset)
            },
            NeutralEvent::MidiRaw { sample_offset, port_index, data } => {
                v.push(data[0]);
                v.push(data[1]);
                v.push(data[2]);
                proof {
                    assert(v@ =~= data@);
                }
                push_zeros(&mut v, 1);
                push_u16(&mut v, port_index);
                push_zeros(&mut v, 26);
                (KIND_MIDI_RAW, sample_offset)
            },
            NeutralEvent::Midi2 { sample_offset, port_index, words } => {
                push_u32(&mut v, words[0]);
                push_u32(&mut v, words[1]);
                push_u32(&mut v, words[2]);
                push_u32(&mut v, words[3]);
                push_u16(&mut v, port_index);
                push_zeros(&mut v, 14);
                (KIND_MIDI2, sample_offset)
            },
            NeutralEvent::LegacyMidiCcOut { sample_offset, control_number, channel, value, value2 } => {
                v.push(control_number);
                v.push(channel as u8);
                v.push(value as u8);
                v.push(value2 as u8);
                proof {
                    assert(v@ =~= seq![control_number, channel as u8, value as u8, value2 as u8]);
                }
                push_zeros(&mut v, 28);
                (KIND_LEGACY_MIDI_CC_OUT, sample_offset)
            },
        };
        proof {
            assert(v@ =~= event_payload(*ev));
        }
        EventRecord { kind, sample_offset, payload: to_payload(&v) }
    }
}

proof fn lemma_signed_round_trips(a: i32, b: i16, c: i8)
    ensures
        (a as u32) as i32 == a,
        (b as u16) as i16 == b,
        (c as u8) as i8 == c,
{
    assert((a as u32) as i32 == a) by (bit_vector);
    assert((b as u16) as i16 == b) by (bit_vector);
    assert((c as u8) as i8 == c) by (bit_vector);
}

proof fn lemma_addr_round_trip(a: VoiceAddr, rest: Seq<u8>)
    ensures
        addr_at(addr_bytes(a) + rest) == a,
{
    lemma_auto_spec_u16_to_from_le_bytes();
    lemma_auto_spec_u32_to_from_le_bytes();
    let p = addr_bytes(a) + rest;
    let b0 = spec_u32_to_le_bytes(a.note_id as u32);
    let b1 = spec_u16_to_le_bytes(a.port_index as u16);
    let b2 = spec_u16_to_le_bytes(a.channel as u16);
    let b3 = spec_u16_to_le_bytes(a.key as u16);
    let b4 = spec_u16_to_le_bytes(a._pad as u16);
    assert(p.subrange(0, 4) =~= b0);
    assert(p.subrange(4, 6) =~= b1);
    assert(p.subrange(6, 8) =~= b2);
    assert(p.subrange(8, 10) =~= b3);
    assert(p.subrange(10, 12) =~= b4);
    lemma_signed_round_trips(a.note_id, a.port_index, 0);
    lemma_signed_round_trips(0, a.channel, 0);
    lemma_signed_round_trips(0, a.key, 0);
    lemma_signed_round_trips(0, a._pad, 0);
}

proof fn lemma_expression_id_round_trip(id: NeutralExpressionId)
    ensures
        expression_id_of(expression_id_code(id)) == Some(id),
{
}

proof fn lemma_note_on_round_trip(
    sample_offset: u32,
    addr: VoiceAddr,
    velocity: u64,
    tuning_cents: u32,
    length_frames: i32,
)
    ensures
        decode_parts(KIND_NOTE_ON, sample_offset, note_body(addr, velocity, tuning_cents, length_frames))
            == Some(NeutralEvent::NoteOn { sample_offset, addr, velocity, tuning_cents, length_frames }),
{
    lemma_auto_spec_u16_to_from_le_bytes();
    lemma_auto_spec_u32_to_from_le_bytes();
    lemma_auto_spec_u64_to_from_le_bytes();
    let p = note_body(addr, velocity, tuning_cents, length_frames);
    lemma_addr_round_trip(addr, p.subrange(12, 32));
    assert(p =~= addr_bytes(addr) + p.subrange(12, 32));
    assert(p.subrange(16, 24) =~= spec_u64_to_le_bytes(velocity));
    assert(p.subrange(24, 28) =~= spec_u32_to_le_bytes(tuning_cents));
    assert(p.subrange(28, 32) =~= spec_u32_to_le_bytes(length_frames as u32));
    lemma_signed_round_trips(length_frames, 0, 0);
}

/// The wire codes of the expression ids are fixed: `Volume` 0, `Pan` 1, `Tuning` 2, `Vibrato` 3,
/// `Expression` 4, `Brightness` 5, `Pressure` 6 (what `to_u32` returns and `from_u32` accepts);
/// every other code names no id.
pub proof fn lemma_expression_id_wire_codes()
    ensures
        expression_id_code(NeutralExpressionId::Volume) == 0,
        expression_id_code(NeutralExpressionId::Pan) == 1,
        expression_id_code(NeutralExpressionId::Tuning) == 2,
        expression_id_code(NeutralExpressionId::Vibrato) == 3,
        expression_id_code(NeutralExpressionId::Expression) == 4,
        expression_id_code(NeutralExpressionId::Brightness) == 5,
        expression_id_code(NeutralExpressionId::Pressure) == 6,
        expression_id_of(0) == Some(NeutralExpressionId::Volume),
        expression_id_of(1) == Some(NeutralExpressionId::Pan),
        expression_id_of(2) == Some(NeutralExpressionId::Tuning),
        expression_id_of(3) == Some(NeutralExpressionId::Vibrato),
        expression_id_of(4) == Some(NeutralExpressionId::Expression),
        expression_id_of(5) == Some(NeutralExpressionId::Brightness),
        expression_id_of(6) == Some(NeutralExpressionId::Pressure),
        forall|v: u32| v > 6 ==> #[trigger] expression_id_of(v) is None,
{
}

/// A note-expression record names its expression by the little-endian `u32` at payload bytes
/// 24..28, in the fixed wire codes (0 `Volume`, 1 `Pan`, 2 `Tuning`, 3 `Vibrato`, 4 `Expression`,
/// 5 `Brightness`, 6 `Pressure`); with any other code the record does not decode. Encoding a note
/// expression writes its id's code there.
pub proof fn lemma_note_expression_wire_id(r: EventRecord, e: NeutralEvent)
    ensures
        r.kind == KIND_NOTE_EXPRESSION ==> {
            let c = spec_u32_from_le_bytes(r.payload@.subrange(24, 28));
            let d = record_decodes_to(r);
            &&& c == 0 ==> (d matches Some(NeutralEvent::NoteExpression { expression_id: NeutralExpressionId::Volume, .. }))
            &&& c == 1 ==> (d matches Some(NeutralEvent::NoteExpression { expression_id: NeutralExpressionId::Pan, .. }))
            &&& c == 2 ==> (d matches Some(NeutralEvent::NoteExpression { expression_id: NeutralExpressionId::Tuning, .. }))
            &&& c == 3 ==> (d matches Some(NeutralEvent::NoteExpression { expression_id: NeutralExpressionId::Vibrato, .. }))
            &&& c == 4 ==> (d matches Some(NeutralEvent::NoteExpression { expression_id: NeutralExpressionId::Expression, .. }))
            &&& c == 5 ==> (d matches Some(NeutralEvent::NoteExpression { expression_id: NeutralExpressionId::Brightness, .. }))
            &&& c == 6 ==> (d matches Some(NeutralEvent::NoteExpression { expression_id: NeutralExpressionId::Pressure, .. }))
            &&& c > 6 ==> d is None
        },
        (e matches NeutralEvent::NoteExpression { .. }) && record_encodes(r, e) ==> {
            let c = spec_u32_from_le_bytes(r.payload@.subrange(24, 28));
            &&& r.kind == KIND_NOTE_EXPRESSION
            &&& (e matches NeutralEvent::NoteExpression { expression_id: NeutralExpressionId::Volume, .. }) ==> c == 0
            &&& (e matches NeutralEvent::NoteExpression { expression_id: NeutralExpressionId::Pan, .. }) ==> c == 1
            &&& (e matches NeutralEvent::NoteExpression { expression_id: NeutralExpressionId::Tuning, .. }) ==> c == 2
            &&& (e matches NeutralEvent::NoteExpression { expression_id: NeutralExpressionId::Vibrato, .. }) ==> c == 3
            &&& (e matches NeutralEvent::NoteExpression { expression_id: NeutralExpressionId::Expression, .. }) ==> c == 4
            &&& (e matches NeutralEvent::NoteExpression { expression_id: NeutralExpressionId::Brightness, .. }) ==> c == 5
            &&& (e matches NeutralEvent::NoteExpression { expression_id: NeutralExpressionId::Pressure, .. }) ==> c == 6
        },
{
    if e matches NeutralEvent::NoteExpression { .. } && record_encodes(r, e) {
        lemma_decode_inverts_encode(e);
        assert(record_decodes_to(r) == Some(e));
    }
}

/// Decoding the record that encoding produced gives back the original event, for every event.
pub proof fn lemma_decode_inverts_encode(e: NeutralEvent)
    ensures
        decode_parts(event_kind(e), event_offset(e), event_payload(e)) == Some(e),
{
    lemma_auto_spec_u16_to_from_le_bytes();
    lemma_auto_spec_u32_to_from_le_bytes();
    lemma_auto_spec_u64_to_from_le_bytes();
    let p = event_payload(e);
    match e {
        NeutralEvent::NoteOn { sample_offset, addr, velocity, tuning_cents, length_frames } => {
            lemma_note_on_round_trip(sample_offset, addr, velocity, tuning_cents, length_frames);
        },
        NeutralEvent::NoteOff { addr, velocity, .. } => {
            lemma_addr_round_trip(addr, p.subrange(12, 32));
            assert(p =~= addr_bytes(addr) + p.subrange(12, 32));
            assert(p.subrange(16, 24) =~= spec_u64_to_le_bytes(velocity));
        },
        NeutralEvent::NoteChoke { addr, .. } => {
            lemma_addr_round_trip(addr, p.subrange(12, 32));
            assert(p =~= addr_bytes(addr) + p.subrange(12, 32));
        },
        NeutralEvent::NoteEnd { addr, .. } => {
            lemma_addr_round_trip(addr, p.subrange(12, 32));
            assert(p =~= addr_bytes(addr) + p.subrange(12, 32));
        },
        NeutralEvent::PolyPressure { addr, pressure, .. } => {
            lemma_addr_round_trip(addr, p.subrange(12, 32));
            assert(p =~= addr_bytes(addr) + p.subrange(12, 32));
            assert(p.subrange(16, 24) =~= spec_u64_to_le_bytes(pressure));
        },
        NeutralEvent::NoteExpression { addr, expression_id, value, .. } => {
            lemma_addr_round_trip(addr, p.subrange(12, 32));
            assert(p =~= addr_bytes(addr) + p.subrange(12, 32));
            assert(p.subrange(16, 24) =~= spec_u64_to_le_bytes(value));
            assert(p.subrange(24, 28) =~= spec_u32_to_le_bytes(expression_id_code(expression_id)));
            lemma_expression_id_round_trip(expression_id);
        },
        NeutralEvent::ParamValue { param_id, addr, value, .. } => {
            lemma_addr_round_trip(addr, p.subrange(12, 32));
            assert(p =~= addr_bytes(addr) + p.subrange(12, 32));
            assert(p.subrange(16, 24) =~= spec_u64_to_le_bytes(value));
            assert(p.subrange(24, 32) =~= spec_u64_to_le_bytes(param_id));
        },
        NeutralEvent::ParamMod { param_id, addr, amount, .. } => {
            lemma_addr_round_trip(addr, p.subrange(12, 32));
            assert(p =~= addr_bytes(addr) + p.subrange(12, 32));
            assert(p.subrange(16, 24) =~= spec_u64_to_le_bytes(amount));
            assert(p.subrange(24, 32) =~= spec_u64_to_le_bytes(param_id));
        },
        NeutralEvent::ParamGestureBegin { param_id, .. } => {
            assert(p.subrange(0, 8) =~= spec_u64_to_le_bytes(param_id));
        },
        NeutralEvent::ParamGestureEnd { param_id, .. } => {
            assert(p.subrange(0, 8) =~= spec_u64_to_le_bytes(param_id));
        },
        NeutralEvent::MidiRaw { port_index, data, .. } => {
            assert(p.subrange(4, 6) =~= spec_u16_to_le_bytes(port_index));
            broadcast use vstd::array::axiom_array_ext_equal;
            assert([p[0], p[1], p[2]] =~= data);
        },
        NeutralEvent::Midi2 { port_index, words, .. } => {
            assert(p.subrange(0, 4) =~= spec_u32_to_le_bytes(words[0]));
            assert(p.subrange(4, 8) =~= spec_u32_to_le_bytes(words[1]));
            assert(p.subrange(8, 12) =~= spec_u32_to_le_bytes(words[2]));
            assert(p.subrange(12, 16) =~= spec_u32_to_le_bytes(words[3]));
            assert(p.subrange(16, 18) =~= spec_u16_to_le_bytes(port_index));
            broadcast use vstd::array::axiom_array_ext_equal;
            assert([u32_at(p, 0), u32_at(p, 4), u32_at(p, 8), u32_at(p, 12)] =~= words);
        },
        NeutralEvent::LegacyMidiCcOut { channel, value, value2, .. } => {
            lemma_signed_round_trips(0, 0, channel);
            lemma_signed_round_trips(0, 0, value);
            lemma_signed_round_trips(0, 0, value2);
        },
    }
}

} // verus!
