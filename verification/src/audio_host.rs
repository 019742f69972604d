//! Pipelined host side of the audio transfer: each real-time callback submits one block to the
//! child and reads back the block submitted one callback earlier.
//!
//! Audio samples are carried as the bit patterns of their `f32` values: the host only copies
//! them, never computes with them (silence is the bit pattern 0). A slot is reused for sequence
//! `s` only after the child finished `s - SLOTS`; until then the host stalls instead of
//! submitting. A block that is not back in time is replaced by the last good block (or silence
//! before the first one).

use crate::event_rings::{at_block_start, is_note_off_or_end, EventBackingRing, EVENT_BACKING_CAPACITY};
use crate::events::{record_decodes_to, record_encodes, wildcard_addr, EventRecord, NeutralEvent, VoiceAddr};
use crate::layout::{slot_index, slot_offset, BUF_LEN, CHANNELS, MAX_EVENTS_PER_BLOCK, MAX_FRAMES, SLOTS};
use crate::voice_table::{addr_matches, has_wildcard, in_table, key_indices, VoiceKey, VoiceTable};
use vstd::prelude::*;

verus! {

/// Musical transport of one block; `f64` values as bit patterns.
#[derive(Debug, Clone, Copy, PartialEq, Eq)]
pub struct TransportContext {
    pub tempo_bpm_bits: u64,
    pub time_sig_numerator: u16,
    pub time_sig_denominator: u16,
    pub is_playing: u8,
    pub is_looping: u8,
    pub song_position_beats_bits: u64,
}

/// Plain model of the audio and event transfer part of the shared region. `input` and `output`
/// hold `SLOTS` slots of `BUF_LEN` samples; `input_events` and `output_events` hold `SLOTS`
/// windows of `MAX_EVENTS_PER_BLOCK` records.
pub struct AudioShared {
    /// Host → child: latest submitted sequence.
    pub seq_request: u64,
    /// Child → host: latest processed sequence.
    pub seq_done: u64,
    /// Child → host: the sequence whose output each slot holds.
    pub seq_tag: [u64; 2],
    /// Host → child: frames of the block in each slot.
    pub n_frames: [u32; 2],
    pub input: Vec<u32>,
    pub output: Vec<u32>,
    pub input_events: Vec<EventRecord>,
    pub input_event_count: [u32; 2],
    pub output_events: Vec<EventRecord>,
    pub output_event_count: [u32; 2],
    pub input_event_dropped_count: u64,
    pub input_event_spilled_count: u64,
    pub output_note_end_dropped_count: u64,
    pub event_decode_error_count: u64,
    pub transport_context: [TransportContext; 2],
}

impl AudioShared {
    /// Buffer sizes as laid out in the region.
    pub open spec fn wf(&self) -> bool {
        &&& self.input@.len() == BUF_LEN * SLOTS
        &&& self.output@.len() == BUF_LEN * SLOTS
        &&& self.input_events@.len() == MAX_EVENTS_PER_BLOCK * SLOTS
        &&& self.output_events@.len() == MAX_EVENTS_PER_BLOCK * SLOTS
    }

    /// A zero-initialised transfer area (the state of a freshly truncated region).
    pub fn new() -> (r: Self)
        ensures
            r.wf(),
            r.seq_request == 0 && r.seq_done == 0,
            r.seq_tag[0] == 0 && r.seq_tag[1] == 0,
            r.input@ == Seq::new((BUF_LEN * SLOTS) as nat, |i: int| 0u32),
            r.output@ == Seq::new((BUF_LEN * SLOTS) as nat, |i: int| 0u32),
            r.input_event_dropped_count == 0 && r.input_event_spilled_count == 0,
            r.output_note_end_dropped_count == 0 && r.event_decode_error_count == 0,
    {
        let zero_record = EventRecord { kind: 0, sample_offset: 0, payload: [0u8; 32] };
        let zero_transport = TransportContext {
            tempo_bpm_bits: 0,
            time_sig_numerator: 0,
            time_sig_denominator: 0,
            is_playing: 0,
            is_looping: 0,
            song_position_beats_bits: 0,
        };
        let input = vec![0u32; BUF_LEN * SLOTS];
        let output = vec![0u32; BUF_LEN * SLOTS];
        proof {
            assert(input@ =~= Seq::new((BUF_LEN * SLOTS) as nat, |i: int| 0u32));
            assert(output@ =~= Seq::new((BUF_LEN * SLOTS) as nat, |i: int| 0u32));
        }
        AudioShared {
            seq_request: 0,
            seq_done: 0,
            seq_tag: [0, 0],
            n_frames: [0, 0],
            input,
            output,
            input_events: vec![zero_record; MAX_EVENTS_PER_BLOCK * SLOTS],
            input_event_count: [0, 0],
            output_events: vec![zero_record; MAX_EVENTS_PER_BLOCK * SLOTS],
            output_event_count: [0, 0],
            input_event_dropped_count: 0,
            input_event_spilled_count: 0,
            output_note_end_dropped_count: 0,
            event_decode_error_count: 0,
            transport_context: [zero_transport, zero_transport],
        }
    }
}

/// Interleaved samples of the block carried by a callback buffer of `raw` samples (whole frames,
/// at most one slot).
pub open spec fn block_count(raw: nat) -> nat {
    let clamped = if raw < BUF_LEN { raw } else { BUF_LEN as nat };
    ((clamped / (CHANNELS as nat)) * (CHANNELS as nat)) as nat
}

/// First sample of the slot of `seq`.
pub open spec fn slot_base(seq: u64) -> int {
    (seq % (SLOTS as u64)) as int * BUF_LEN
}

/// Whether the slot of `seq` may be written: its previous occupant `seq - SLOTS` is done.
pub open spec fn slot_free(seq: int, seq_done: u64) -> bool {
    seq <= SLOTS || seq_done >= seq - SLOTS
}

/// `x - 1`, saturating at 0.
pub open spec fn previous(x: u64) -> u64 {
    if x == 0 {
        0
    } else {
        (x - 1) as u64
    }
}

/// `samples` with `count` samples starting at `at` replaced by `src[0..count]`.
pub open spec fn spliced(samples: Seq<u32>, at: int, src: Seq<u32>, count: int) -> Seq<u32> {
    Seq::new(samples.len(), |i: int| if at <= i < at + count { src[i - at] } else { samples[i] })
}

/// Pipelined effect host.
pub struct PipelinedEffectHost {
    /// Last block read back from the child (repeated while the child is late).
    pub last_good: Vec<u32>,
    pub submitted: u64,
    pub primed: bool,
    pub fresh: u64,
    pub stale: u64,
    pub stall: u64,
    pub frames_clamped: u64,
}

/// Copy `count` samples from `src[from..]` into `dst[..count]`.
fn copy_from_region(dst: &mut [u32], src: &Vec<u32>, from: usize, count: usize)
    requires
        count <= old(dst)@.len(),
        from + count <= src@.len(),
    ensures
        final(dst)@.len() == old(dst)@.len(),
        forall|i: int| 0 <= i < count ==> final(dst)@[i] == src@[from + i],
        forall|i: int| count <= i < old(dst)@.len() ==> final(dst)@[i] == old(dst)@[i],
{
    let src_len = src.len();
    let mut i: usize = 0;
    while i < count
        invariant
            0 <= i <= count,
            count <= dst@.len(),
            from + count <= src@.len(),
            src@.len() == src_len,
            dst@.len() == old(dst)@.len(),
            forall|j: int| 0 <= j < i ==> dst@[j] == src@[from + j],
            forall|j: int| i <= j < dst@.len() ==> dst@[j] == old(dst)@[j],
        decreases count - i,
    {
        dst[i] = src[from + i];
        i += 1;
    }
}

/// Write `value` into `dst[from..to]`.
fn fill_range(dst: &mut [u32], from: usize, to: usize, value: u32)
    requires
        from <= to <= old(dst)@.len(),
    ensures
        final(dst)@.len() == old(dst)@.len(),
        forall|i: int| from <= i < to ==> final(dst)@[i] == value,
        forall|i: int| 0 <= i < from || to <= i < old(dst)@.len() ==> final(dst)@[i] == old(dst)@[i],
{
    let mut i: usize = from;
    while i < to
        invariant
            from <= i <= to,
            to <= dst@.len(),
            dst@.len() == old(dst)@.len(),
            forall|j: int| from <= j < i ==> dst@[j] == value,
            forall|j: int| 0 <= j < from || i <= j < dst@.len() ==> dst@[j] == old(dst)@[j],
        decreases to - i,
    {
        dst[i] = value;
        i += 1;
    }
}

/// Copy `src[..count]` into `dst[at..at + count]`.
fn store_into(dst: &mut Vec<u32>, at: usize, src: &[u32], count: usize)
    requires
        count <= src@.len(),
        at + count <= old(dst)@.len(),
    ensures
        final(dst)@ == spliced(old(dst)@, at as int, src@, count as int),
{
    let dst_len = dst.len();
    let mut i: usize = 0;
    while i < count
        invariant
            0 <= i <= count,
            count <= src@.len(),
            at + count <= dst@.len(),
            dst@.len() == dst_len,
            dst@.len() == old(dst)@.len(),
            forall|j: int| 0 <= j < dst@.len() ==> dst@[j] == if at <= j < at + i {
                src@[j - at]
            } else {
                old(dst)@[j]
            },
        decreases count - i,
    {
        dst.set(at + i, src[i]);
        i += 1;
    }
    proof {
        assert(dst@ =~= spliced(old(dst)@, at as int, src@, count as int));
    }
}

/// Copy `src[..count]` into `dst[..count]`.
fn copy_prefix(dst: &mut Vec<u32>, src: &[u32], count: usize)
    requires
        count <= src@.len(),
        count <= old(dst)@.len(),
    ensures
        final(dst)@ == spliced(old(dst)@, 0, src@, count as int),
{
    store_into(dst, 0, src, count);
}

impl PipelinedEffectHost {
    pub open spec fn wf(&self) -> bool {
        self.last_good@.len() == BUF_LEN
    }

    /// A host that has submitted nothing yet.
    pub fn new() -> (r: Self)
        ensures
            r.wf(),
            r.last_good@ == Seq::new(BUF_LEN as nat, |i: int| 0u32),
            r.submitted == 0,
            !r.primed,
            r.fresh == 0 && r.stale == 0 && r.stall == 0 && r.frames_clamped == 0,
    {
        let last_good = vec![0u32; BUF_LEN];
        proof {
            assert(last_good@ =~= Seq::new(BUF_LEN as nat, |i: int| 0u32));
        }
        PipelinedEffectHost { last_good, submitted: 0, primed: false, fresh: 0, stale: 0, stall: 0, frames_clamped: 0 }
    }

    /// One callback: submit `data` (whole frames, at most one slot) under the next sequence when
    /// its slot is free, else count a stall; then replace the block by the child's output for the
    /// previous sequence when that slot's tag says the child wrote it for that very sequence (the
    /// global done counter alone does not: the child may have skipped it), else by the last good
    /// block (silence before any).
    pub fn process_block(&mut self, region: &mut AudioShared, data: &mut [u32])
        requires
            old(self).wf(),
            old(region).wf(),
            old(self).submitted < u64::MAX,
            old(self).fresh < u64::MAX,
            old(self).stale < u64::MAX,
            old(self).stall < u64::MAX,
            old(self).frames_clamped < u64::MAX,
        ensures
            final(self).wf(),
            final(region).wf(),
            ({
                let raw = old(data)@.len();
                let count = block_count(raw) as int;
                let new_seq = old(self).submitted + 1;
                let free = slot_free(new_seq, old(region).seq_done);
                let submitted = if free { new_seq as u64 } else { old(self).submitted };
                let target = previous(submitted);
                let done = target >= 1 && old(region).seq_tag[(target % 2) as int] == target;
                &&& final(self).frames_clamped == old(self).frames_clamped + if raw > BUF_LEN { 1int } else { 0int }
                &&& final(self).submitted == submitted
                &&& final(region).seq_done == old(region).seq_done
                &&& final(region).seq_tag == old(region).seq_tag
                &&& final(region).output == old(region).output
                &&& if free {
                    &&& final(region).input@ == spliced(old(region).input@, slot_base(new_seq as u64), old(data)@, count)
                    &&& final(region).n_frames[(new_seq % 2) as int] == count / 2
                    &&& final(region).n_frames[((new_seq + 1) % 2) as int] == old(region).n_frames[((new_seq + 1) % 2) as int]
                    &&& final(region).seq_request == new_seq
                    &&& final(self).stall == old(self).stall
                } else {
                    &&& final(region).input == old(region).input
                    &&& final(region).n_frames == old(region).n_frames
                    &&& final(region).seq_request == old(region).seq_request
                    &&& final(self).stall == old(self).stall + 1
                }
                &&& final(data)@.len() == raw
                &&& forall|i: int| count <= i < raw ==> final(data)@[i] == old(data)@[i]
                &&& if done {
                    &&& forall|i: int| 0 <= i < count ==> final(data)@[i] == old(region).output@[slot_base(target) + i]
                    &&& final(self).last_good@ == spliced(old(self).last_good@, 0, final(data)@, count)
                    &&& final(self).primed
                    &&& final(self).fresh == old(self).fresh + 1
                    &&& final(self).stale == old(self).stale
                } else if old(self).primed {
                    &&& forall|i: int| 0 <= i < count ==> final(data)@[i] == old(self).last_good@[i]
                    &&& final(self).last_good == old(self).last_good
                    &&& final(self).primed
                    &&& final(self).stale == old(self).stale + 1
                    &&& final(self).fresh == old(self).fresh
                } else {
                    &&& forall|i: int| 0 <= i < count ==> final(data)@[i] == 0
                    &&& final(self).last_good == old(self).last_good
                    &&& !final(self).primed
                    &&& final(self).stale == old(self).stale
                    &&& final(self).fresh == old(self).fresh
                }
            }),
    {
        let raw = data.len();
        if raw > BUF_LEN {
            self.frames_clamped += 1;
        }
        let clamped = if raw < BUF_LEN {
            raw
        } else {
            BUF_LEN
        };
        let n_frames = clamped / CHANNELS;
        let count = n_frames * CHANNELS;
        let new_seq = self.submitted + 1;
        let free = new_seq <= SLOTS as u64 || region.seq_done >= new_seq - SLOTS as u64;
        if free {
            let base = slot_offset(new_seq);
            store_into(&mut region.input, base, data, count);
            let slot = slot_index(new_seq);
            region.n_frames[slot] = n_frames as u32;
            region.seq_request = new_seq;
            self.submitted = new_seq;
        } else {
            self.stall += 1;
        }
        let target = self.submitted.saturating_sub(1);
        let done = target >= 1 && region.seq_tag[slot_index(target)] == target;
        if done {
            let base = slot_offset(target);
            copy_from_region(data, &region.output, base, count);
            copy_prefix(&mut self.last_good, data, count);
            self.primed = true;
            self.fresh += 1;
        } else if self.primed {
            copy_from_region(data, &self.last_good, 0, count);
            self.stale += 1;
        } else {
            fill_range(data, 0, count, 0);
        }
    }
}

// ---------------------------------------------------------------------------------------------
// Instrument host.

/// What one instrument callback did.
#[derive(Debug, Clone, Copy, PartialEq, Eq)]
pub struct InstrumentBlockOutcome {
    pub submitted: bool,
    /// A wildcard choke was put at the front of the window because a note-off or note-end had
    /// been dropped earlier.
    pub sticky_note_choke_injected: bool,
}

impl Default for InstrumentBlockOutcome {
    fn default() -> (r: Self)
        ensures
            !r.submitted && !r.sticky_note_choke_injected,
    {
        InstrumentBlockOutcome { submitted: false, sticky_note_choke_injected: false }
    }
}

/// Whether an event is a note-off or a note-end.
pub open spec fn ends_note(e: NeutralEvent) -> bool {
    e is NoteOff || e is NoteEnd
}

/// `v + 1`, saturating.
pub open spec fn sat_inc(v: u16) -> u16 {
    if v == u16::MAX {
        v
    } else {
        (v + 1) as u16
    }
}

/// The voice key an address names.
pub open spec fn voice_key_of(addr: VoiceAddr) -> VoiceKey {
    VoiceKey { port_index: addr.port_index, channel: addr.channel, key: addr.key }
}

/// Count of voice `(p, c, n)` after submitting record `r`: a note-on of that voice adds one.
pub open spec fn note_on_count(r: EventRecord, p: int, c: int, n: int, v: u16) -> u16 {
    match record_decodes_to(r) {
        Some(NeutralEvent::NoteOn { addr, .. }) => if key_indices(voice_key_of(addr)) == Some((p, c, n)) {
            sat_inc(v)
        } else {
            v
        },
        _ => v,
    }
}

/// Count of voice `(p, c, n)` after submitting `rs` in order.
pub open spec fn note_on_counts(rs: Seq<EventRecord>, p: int, c: int, n: int, v: u16) -> u16
    decreases rs.len(),
{
    if rs.len() == 0 {
        v
    } else {
        note_on_count(rs.last(), p, c, n, note_on_counts(rs.drop_last(), p, c, n, v))
    }
}

/// Count of voice `(p, c, n)` after the child reported record `r`: a note-end releases one voice
/// (all matching ones for a wildcard address), a choke clears the matching voices.
pub open spec fn reported_count(r: EventRecord, p: int, c: int, n: int, v: u16) -> u16 {
    match record_decodes_to(r) {
        Some(NeutralEvent::NoteEnd { addr, .. }) => if has_wildcard(addr) {
            if addr_matches(addr, p, c, n) {
                0
            } else {
                v
            }
        } else if addr_matches(addr, p, c, n) {
            if v == 0 {
                0
            } else {
                (v - 1) as u16
            }
        } else {
            v
        },
        Some(NeutralEvent::NoteChoke { addr, .. }) => if addr_matches(addr, p, c, n) {
            0
        } else {
            v
        },
        _ => v,
    }
}

/// Count of voice `(p, c, n)` after the child reported `rs` in order.
pub open spec fn reported_counts(rs: Seq<EventRecord>, p: int, c: int, n: int, v: u16) -> u16
    decreases rs.len(),
{
    if rs.len() == 0 {
        v
    } else {
        reported_count(rs.last(), p, c, n, reported_counts(rs.drop_last(), p, c, n, v))
    }
}

/// Number of records that do not decode.
pub open spec fn undecodable(rs: Seq<EventRecord>) -> nat
    decreases rs.len(),
{
    if rs.len() == 0 {
        0
    } else {
        undecodable(rs.drop_last()) + if record_decodes_to(rs.last()) is None {
            1nat
        } else {
            0nat
        }
    }
}

/// The submitted window's records taken from the ring: the first `d` queued records, those that
/// were already queued before this callback (`backlog`) moved to the block start.
pub open spec fn drained_window(queued: Seq<EventRecord>, backlog: int, d: int) -> Seq<EventRecord> {
    Seq::new(d as nat, |j: int| if j < backlog { at_block_start(queued[j]) } else { queued[j] })
}

/// The output records the child reported for `seq` (its slot's window, at most a full window).
pub open spec fn output_window(region: AudioShared, seq: u64) -> Seq<EventRecord> {
    let slot = (seq % 2) as int;
    let count = region.output_event_count[slot];
    let n = if count < MAX_EVENTS_PER_BLOCK { count as int } else { MAX_EVENTS_PER_BLOCK as int };
    region.output_events@.subrange(slot * MAX_EVENTS_PER_BLOCK, slot * MAX_EVENTS_PER_BLOCK + n)
}

/// Whether the child has published the output of sequence `cursor + 1` (and it was submitted).
pub open spec fn next_completed(region: AudioShared, cursor: u64, submitted: u64) -> bool {
    cursor < submitted && region.seq_tag[((cursor + 1) % 2) as int] == cursor + 1
}

/// The sequences completed in order after `cursor`.
pub open spec fn completed_after(region: AudioShared, cursor: u64, submitted: u64) -> nat
    decreases submitted - cursor,
{
    if next_completed(region, cursor, submitted) {
        1 + completed_after(region, (cursor + 1) as u64, submitted)
    } else {
        0
    }
}

/// Their output records, in order.
pub open spec fn completed_records(region: AudioShared, cursor: u64, submitted: u64) -> Seq<EventRecord>
    decreases submitted - cursor,
{
    if next_completed(region, cursor, submitted) {
        output_window(region, (cursor + 1) as u64) + completed_records(region, (cursor + 1) as u64, submitted)
    } else {
        Seq::empty()
    }
}

proof fn lemma_note_on_counts_append(a: Seq<EventRecord>, b: Seq<EventRecord>, p: int, c: int, n: int, v: u16)
    ensures
        note_on_counts(a + b, p, c, n, v) == note_on_counts(b, p, c, n, note_on_counts(a, p, c, n, v)),
    decreases b.len(),
{
    if b.len() > 0 {
        lemma_note_on_counts_append(a, b.drop_last(), p, c, n, v);
        assert((a + b).drop_last() =~= a + b.drop_last());
    } else {
        assert(a + b =~= a);
    }
}

proof fn lemma_reported_counts_append(a: Seq<EventRecord>, b: Seq<EventRecord>, p: int, c: int, n: int, v: u16)
    ensures
        reported_counts(a + b, p, c, n, v) == reported_counts(b, p, c, n, reported_counts(a, p, c, n, v)),
    decreases b.len(),
{
    if b.len() > 0 {
        lemma_reported_counts_append(a, b.drop_last(), p, c, n, v);
        assert((a + b).drop_last() =~= a + b.drop_last());
    } else {
        assert(a + b =~= a);
    }
}

proof fn lemma_undecodable_append(a: Seq<EventRecord>, b: Seq<EventRecord>)
    ensures
        undecodable(a + b) == undecodable(a) + undecodable(b),
    decreases b.len(),
{
    if b.len() > 0 {
        lemma_undecodable_append(a, b.drop_last());
        assert((a + b).drop_last() =~= a + b.drop_last());
    } else {
        assert(a + b =~= a);
    }
}

/// Pipelined instrument host: submits events and transport with each block, reads audio one
/// block behind, and keeps observational voice counts from the note-ons it sends and the
/// note-ends and chokes the child reports.
pub struct PipelinedInstrumentHost {
    pub event_ring: EventBackingRing,
    pub voices: VoiceTable,
    pub last_output_note_end_dropped: u64,
    pub last_good: Vec<u32>,
    pub submitted: u64,
    /// Latest sequence whose output events were consumed (every sequence is consumed in order).
    pub event_cursor: u64,
    pub primed: bool,
    pub fresh: u64,
    pub stale: u64,
    pub stall: u64,
    pub frames_clamped: u64,
}

/// Whether `new_host` and `new_out` are `old_host` and `old_out` after reading back the block of
/// `count` samples.
pub open spec fn output_read(
    old_host: PipelinedInstrumentHost,
    new_host: PipelinedInstrumentHost,
    region: AudioShared,
    old_out: Seq<u32>,
    new_out: Seq<u32>,
    count: int,
) -> bool {
    let target = previous(old_host.submitted);
    let ready = target >= 1 && region.seq_tag[(target % 2) as int] == target;
    if ready {
        let frames = region.n_frames[(target % 2) as int];
        let target_count = (if frames < MAX_FRAMES { frames as int } else { MAX_FRAMES as int }) * CHANNELS;
        let copy = if target_count < count { target_count } else { count };
        &&& forall|i: int| 0 <= i < copy ==> new_out[i] == region.output@[slot_base(target) + i]
        &&& forall|i: int| copy <= i < count ==> new_out[i] == 0
        &&& new_host.last_good@ == spliced(old_host.last_good@, 0, new_out, count)
        &&& new_host.primed
        &&& new_host.fresh == old_host.fresh + 1
        &&& new_host.stale == old_host.stale
    } else if old_host.primed {
        &&& forall|i: int| 0 <= i < count ==> new_out[i] == old_host.last_good@[i]
        &&& new_host.last_good == old_host.last_good
        &&& new_host.primed
        &&& new_host.stale == old_host.stale + 1
        &&& new_host.fresh == old_host.fresh
    } else {
        &&& forall|i: int| 0 <= i < count ==> new_out[i] == 0
        &&& new_host.last_good == old_host.last_good
        &&& !new_host.primed
        &&& new_host.stale == old_host.stale
        &&& new_host.fresh == old_host.fresh
    }
}

/// Whether, from the state after queueing (`host1`, `region1`, queued records `q`, of which
/// `backlog` were queued before this callback), `host2` and `region2` are the state after the
/// submit decision, with outcome `outcome`.
pub open spec fn stage_submitted(
    host1: PipelinedInstrumentHost,
    host2: PipelinedInstrumentHost,
    region1: AudioShared,
    region2: AudioShared,
    q: Seq<EventRecord>,
    backlog: int,
    events: Seq<NeutralEvent>,
    transport: TransportContext,
    outcome: InstrumentBlockOutcome,
) -> bool {
    let new_seq = host1.submitted + 1;
    if slot_free(new_seq, region1.seq_done) {
        let slot = (new_seq % 2) as int;
        let inject = host1.event_ring.flush_pending();
        let d = drained_count(q.len(), inject);
        let off: int = if inject { 1 } else { 0 };
        let base = slot * MAX_EVENTS_PER_BLOCK;
        &&& outcome == InstrumentBlockOutcome { submitted: true, sticky_note_choke_injected: inject }
        &&& host2.submitted == new_seq
        &&& host2.stall == host1.stall
        &&& host2.event_ring.contents() == q.subrange(d, q.len() as int)
        &&& !host2.event_ring.flush_pending()
        &&& inject ==> record_encodes(
            region2.input_events@[base],
            NeutralEvent::NoteChoke { sample_offset: 0, addr: wildcard_addr() },
        )
        &&& forall|k: int| 0 <= k < d ==> region2.input_events@[base + off + k] == #[trigger] drained_window(q, backlog, d)[k]
        &&& forall|i: int|
            0 <= i < region2.input_events@.len() && !(base <= i < base + off + d) ==> #[trigger] region2.input_events@[i]
                == region1.input_events@[i]
        &&& region2.input_event_count[slot] == off + d
        &&& region2.input_event_count[1 - slot] == region1.input_event_count[1 - slot]
        &&& region2.input_event_spilled_count == wrapping_plus(region1.input_event_spilled_count, q.len() - d)
        &&& region2.transport_context[slot] == transport
        &&& region2.transport_context[1 - slot] == region1.transport_context[1 - slot]
        &&& region2.seq_request == new_seq
        &&& forall|p: int, c: int, n: int| in_table(p, c, n) ==> #[trigger] host2.voices.count(p, c, n)
            == note_on_counts(drained_window(q, backlog, d), p, c, n, host1.voices.count(p, c, n))
    } else {
        &&& outcome == InstrumentBlockOutcome { submitted: false, sticky_note_choke_injected: false }
        &&& host2.submitted == host1.submitted
        &&& host2.stall == host1.stall + 1
        &&& host2.event_ring == host1.event_ring
        &&& host2.voices == host1.voices
        &&& region2 == region1
    }
}

/// Whether one callback went from (`h0`, `r0`, `out0`) to (`h`, `r`, `out`) with outcome
/// `outcome`, given the records `q` queued after the callback's events were added, the host
/// `h1` after queueing, the host `h2` and region `r2` after the submit decision, and the host
/// `h4` after the completed output events were consumed.
pub open spec fn block_processed_with(
    h0: PipelinedInstrumentHost,
    h: PipelinedInstrumentHost,
    r0: AudioShared,
    r: AudioShared,
    out0: Seq<u32>,
    out: Seq<u32>,
    events: Seq<NeutralEvent>,
    transport: TransportContext,
    outcome: InstrumentBlockOutcome,
    q: Seq<EventRecord>,
    h1: PipelinedInstrumentHost,
    h2: PipelinedInstrumentHost,
    r2: AudioShared,
    h4: PipelinedInstrumentHost,
) -> bool {
    let raw = out0.len();
    let count = block_count(raw) as int;
    let kept = kept_count(h0.event_ring.contents().len(), events.len());
    let r1 = AudioShared {
        input_event_dropped_count: wrapping_plus(r0.input_event_dropped_count, events.len() - kept),
        ..r0
    };
    &&& h.frames_clamped == h0.frames_clamped + if raw > BUF_LEN { 1int } else { 0int }
    &&& pushed(h0.event_ring.contents(), q, events)
    &&& h1.event_ring.contents() == q
    &&& h1.event_ring.flush_pending() == (h0.event_ring.flush_pending() || exists|j: int|
        kept <= j < events.len() && ends_note(#[trigger] events[j]))
    &&& h1.voices == h0.voices
    &&& h1.submitted == h0.submitted
    &&& h1.stall == h0.stall
    &&& stage_submitted(h1, h2, r1, r2, q, h0.event_ring.contents().len() as int, events, transport, outcome)
    &&& (outcome.submitted ==> r2.n_frames[((h0.submitted + 1) % 2) as int] == count / 2
        && r2.n_frames[((h0.submitted + 2) % 2) as int] == r0.n_frames[((h0.submitted + 2) % 2) as int])
    &&& (!outcome.submitted ==> r2.n_frames == r0.n_frames)
    &&& r2.output == r0.output && r2.seq_tag == r0.seq_tag && r2.seq_done == r0.seq_done
    &&& output_read(
        PipelinedInstrumentHost { submitted: h2.submitted, ..h0 },
        h,
        r2,
        out0,
        out,
        count,
    )
    &&& out.len() == raw
    &&& forall|i: int| count <= i < raw ==> out[i] == 0
    &&& h.submitted == h2.submitted
    &&& h.stall == h2.stall
    &&& h.event_ring == h2.event_ring
    &&& h.event_cursor == h0.event_cursor + completed_after(r2, h0.event_cursor, h2.submitted)
    &&& r == (AudioShared {
        event_decode_error_count: wrapping_plus(
            r2.event_decode_error_count,
            undecodable(completed_records(r2, h0.event_cursor, h2.submitted)) as int,
        ),
        ..r2
    })
    &&& forall|p: int, c: int, n: int| in_table(p, c, n) ==> #[trigger] h4.voices.count(p, c, n)
        == reported_counts(completed_records(r2, h0.event_cursor, h2.submitted), p, c, n, h2.voices.count(p, c, n))
    &&& h.last_output_note_end_dropped == r.output_note_end_dropped_count
    &&& forall|p: int, c: int, n: int| in_table(p, c, n) ==> #[trigger] h.voices.count(p, c, n) == if r.output_note_end_dropped_count
        > h0.last_output_note_end_dropped {
        0
    } else {
        h4.voices.count(p, c, n)
    }
}

/// Whether one callback went from (`h0`, `r0`, `out0`) to (`h`, `r`, `out`) with outcome
/// `outcome` (see [`block_processed_with`] for the intermediate states).
pub open spec fn block_processed(
    h0: PipelinedInstrumentHost,
    h: PipelinedInstrumentHost,
    r0: AudioShared,
    r: AudioShared,
    out0: Seq<u32>,
    out: Seq<u32>,
    events: Seq<NeutralEvent>,
    transport: TransportContext,
    outcome: InstrumentBlockOutcome,
) -> bool {
    exists|q: Seq<EventRecord>, h1: PipelinedInstrumentHost, h2: PipelinedInstrumentHost, r2: AudioShared, h4: PipelinedInstrumentHost|
        block_processed_with(h0, h, r0, r, out0, out, events, transport, outcome, q, h1, h2, r2, h4)
}

proof fn lemma_output_read_transfer(
    a: PipelinedInstrumentHost,
    a2: PipelinedInstrumentHost,
    b: PipelinedInstrumentHost,
    b2: PipelinedInstrumentHost,
    region: AudioShared,
    o0: Seq<u32>,
    o1: Seq<u32>,
    o2: Seq<u32>,
    count: int,
)
    requires
        output_read(a, b, region, o0, o1, count),
        a2.submitted == a.submitted && a2.last_good == a.last_good && a2.primed == a.primed && a2.fresh == a.fresh
            && a2.stale == a.stale,
        b2.last_good == b.last_good && b2.primed == b.primed && b2.fresh == b.fresh && b2.stale == b.stale,
        forall|i: int| 0 <= i < count ==> o2[i] == o1[i],
    ensures
        output_read(a2, b2, region, o0, o2, count),
{
    assert(spliced(a.last_good@, 0, o1, count) =~= spliced(a.last_good@, 0, o2, count));
}

/// Number of events kept by a ring holding `len` records when `n` more are pushed.
pub open spec fn kept_count(len: nat, n: nat) -> nat {
    let room = (EVENT_BACKING_CAPACITY - len) as nat;
    if n < room {
        n
    } else {
        room
    }
}

/// Whether `after` is `before` with the first events of `events` appended, encoded, as far as
/// the ring has room.
pub open spec fn pushed(before: Seq<EventRecord>, after: Seq<EventRecord>, events: Seq<NeutralEvent>) -> bool {
    let kept = kept_count(before.len(), events.len());
    &&& after.len() == before.len() + kept
    &&& after.subrange(0, before.len() as int) == before
    &&& forall|i: int| 0 <= i < kept ==> record_encodes(#[trigger] after[before.len() + i], events[i])
}

/// `x + k` wrapping at 2^64.
pub open spec fn wrapping_plus(x: u64, k: int) -> u64 {
    ((x + k) % 0x1_0000_0000_0000_0000) as u64
}

/// Events the window can take after an optional injected choke.
pub open spec fn window_room(inject: bool) -> int {
    if inject {
        MAX_EVENTS_PER_BLOCK - 1
    } else {
        MAX_EVENTS_PER_BLOCK as int
    }
}

/// Number of queued records a window takes.
pub open spec fn drained_count(queued: nat, inject: bool) -> int {
    if queued < window_room(inject) {
        queued as int
    } else {
        window_room(inject)
    }
}

impl PipelinedInstrumentHost {
    pub open spec fn wf(&self) -> bool {
        &&& self.event_ring.wf()
        &&& self.voices.wf()
        &&& self.last_good@.len() == BUF_LEN
        &&& self.event_cursor <= self.submitted
    }

    /// A host on a region whose child has reported `output_note_end_dropped_count` dropped
    /// note-ends so far.
    pub fn new(region: &AudioShared) -> (r: Self)
        ensures
            r.wf(),
            r.event_ring.contents() == Seq::<EventRecord>::empty(),
            !r.event_ring.flush_pending(),
            forall|p: int, c: int, n: int| in_table(p, c, n) ==> #[trigger] r.voices.count(p, c, n) == 0,
            r.last_output_note_end_dropped == region.output_note_end_dropped_count,
            r.last_good@ == Seq::new(BUF_LEN as nat, |i: int| 0u32),
            r.submitted == 0 && r.event_cursor == 0 && !r.primed,
            r.fresh == 0 && r.stale == 0 && r.stall == 0 && r.frames_clamped == 0,
    {
        let last_good = vec![0u32; BUF_LEN];
        proof {
            assert(last_good@ =~= Seq::new(BUF_LEN as nat, |i: int| 0u32));
        }
        PipelinedInstrumentHost {
            event_ring: EventBackingRing::new(),
            voices: VoiceTable::new(),
            last_output_note_end_dropped: region.output_note_end_dropped_count,
            last_good,
            submitted: 0,
            event_cursor: 0,
            primed: false,
            fresh: 0,
            stale: 0,
            stall: 0,
            frames_clamped: 0,
        }
    }

    /// Live voices of `key` (untracked keys report zero).
    pub fn live_count(&self, key: VoiceKey) -> (r: u16)
        requires
            self.wf(),
        ensures
            r == match key_indices(key) {
                Some((p, c, n)) => self.voices.count(p, c, n),
                None => 0u16,
            },
    {
        self.voices.live_count(key)
    }

    /// The child was respawned: no voice survives.
    pub fn on_child_respawned(&mut self)
        requires
            old(self).wf(),
        ensures
            final(self).wf(),
            forall|p: int, c: int, n: int| in_table(p, c, n) ==> #[trigger] final(self).voices.count(p, c, n) == 0,
            final(self).event_ring == old(self).event_ring,
            final(self).submitted == old(self).submitted,
            final(self).event_cursor == old(self).event_cursor,
    {
        self.voices.reset_all();
    }

    /// One callback. Queue the callback's events (dropping and counting those that do not fit).
    /// When the slot of the next sequence is free, submit: the event window (a wildcard choke
    /// first after a dropped note-off or note-end, then the queued events that fit), the transport
    /// and the frame count, counting submitted note-ons as live voices; otherwise count a stall.
    /// Then read back the previous sequence's block (or repeat the last good one), consume the
    /// output events of every completed sequence in order, and forget every voice when the child
    /// reports newly dropped note-ends.
    pub fn process_block(
        &mut self,
        region: &mut AudioShared,
        out: &mut [u32],
        events: &[NeutralEvent],
        transport: TransportContext,
    ) -> (outcome: InstrumentBlockOutcome)
        requires
            old(self).wf(),
            old(region).wf(),
            old(self).submitted < u64::MAX,
            old(self).fresh < u64::MAX,
            old(self).stale < u64::MAX,
            old(self).stall < u64::MAX,
            old(self).frames_clamped < u64::MAX,
        ensures
            final(self).wf(),
            final(region).wf(),
            block_processed(
                *old(self),
                *final(self),
                *old(region),
                *final(region),
                old(out)@,
                final(out)@,
                events@,
                transport,
                outcome,
            ),
    {
        let ghost host0 = *self;
        let ghost region0 = *region;
        let raw = out.len();
        if raw > BUF_LEN {
            self.frames_clamped += 1;
        }
        let clamped = if raw < BUF_LEN {
            raw
        } else {
            BUF_LEN
        };
        let n_frames = clamped / CHANNELS;
        let count = n_frames * CHANNELS;
        let backlog = self.event_ring.len();
        self.push_events(region, events);
        let ghost q = self.event_ring.contents();
        let ghost host1 = *self;
        let ghost region1 = *region;
        let new_seq = self.submitted + 1;
        let free = new_seq <= SLOTS as u64 || region.seq_done >= new_seq - SLOTS as u64;
        let mut outcome = InstrumentBlockOutcome { submitted: false, sticky_note_choke_injected: false };
        if free {
            let slot = slot_index(new_seq);
            let inject = self.submit_window(region, slot, backlog);
            region.transport_context[slot] = transport;
            region.n_frames[slot] = n_frames as u32;
            region.seq_request = new_seq;
            self.submitted = new_seq;
            outcome = InstrumentBlockOutcome { submitted: true, sticky_note_choke_injected: inject };
            proof {
                let d = drained_count(q.len(), inject);
                let off: int = if inject { 1 } else { 0 };
                assert(stage_submitted(host1, *self, region1, *region, q, backlog as int, events@, transport, outcome));
            }
        } else {
            self.stall += 1;
            proof {
                assert(stage_submitted(host1, *self, region1, *region, q, backlog as int, events@, transport, outcome));
            }
        }
        let ghost host2 = *self;
        let ghost region2 = *region;
        self.read_output(region, out, count);
        let ghost host3 = *self;
        let ghost out1 = out@;
        self.consume_output_events(region);
        let ghost host4 = *self;
        let dropped = region.output_note_end_dropped_count;
        if dropped > self.last_output_note_end_dropped {
            self.voices.reset_all();
        }
        self.last_output_note_end_dropped = dropped;
        let ghost out_before_tail = out@;
        if count < raw {
            fill_range(out, count, raw, 0);
        }
        proof {
            lemma_output_read_transfer(
                host2,
                PipelinedInstrumentHost { submitted: host2.submitted, ..host0 },
                host3,
                *self,
                region2,
                old(out)@,
                out1,
                out@,
                count as int,
            );
            assert(pushed(host0.event_ring.contents(), q, events@));
            assert(stage_submitted(host1, host2, region1, region2, q, backlog as int, events@, transport, outcome));
            assert(block_processed_with(host0, *self, region0, *region, old(out)@, out@, events@, transport, outcome, q, host1, host2, region2, host4));
        }
        outcome
    }

    /// Fill the input window of `slot`: a wildcard choke first when a note-off or note-end was
    /// dropped earlier, then as many queued events as fit, those queued before this callback
    /// (`backlog`) moved to the block start. Events left over stay queued and are counted as
    /// spilled; submitted note-ons are counted as live voices. Returns whether the choke was put.
    fn submit_window(&mut self, region: &mut AudioShared, slot: usize, backlog: usize) -> (inject: bool)
        requires
            old(self).wf(),
            old(region).wf(),
            slot < SLOTS,
        ensures
            final(self).wf(),
            final(region).wf(),
            inject == old(self).event_ring.flush_pending(),
            !final(self).event_ring.flush_pending(),
            ({
                let q = old(self).event_ring.contents();
                let d = drained_count(q.len(), inject);
                let off: int = if inject { 1 } else { 0 };
                let base = slot * MAX_EVENTS_PER_BLOCK;
                &&& final(self).event_ring.contents() == q.subrange(d, q.len() as int)
                &&& inject ==> record_encodes(
                    final(region).input_events@[base],
                    NeutralEvent::NoteChoke { sample_offset: 0, addr: wildcard_addr() },
                )
                &&& forall|k: int| 0 <= k < d ==> final(region).input_events@[base + off + k]
                    == #[trigger] drained_window(q, backlog as int, d)[k]
                &&& forall|i: int|
                    0 <= i < final(region).input_events@.len() && !(base <= i < base + off + d)
                        ==> #[trigger] final(region).input_events@[i] == old(region).input_events@[i]
                &&& final(region).input_event_count[slot as int] == off + d
                &&& final(region).input_event_count[1 - slot] == old(region).input_event_count[1 - slot]
                &&& final(region).input_event_spilled_count == wrapping_plus(old(region).input_event_spilled_count, q.len() - d)
                &&& forall|p: int, c: int, n: int| in_table(p, c, n) ==> #[trigger] final(self).voices.count(p, c, n)
                    == note_on_counts(drained_window(q, backlog as int, d), p, c, n, old(self).voices.count(p, c, n))
            }),
            final(region).seq_request == old(region).seq_request,
            final(region).seq_done == old(region).seq_done,
            final(region).seq_tag == old(region).seq_tag,
            final(region).n_frames == old(region).n_frames,
            final(region).input == old(region).input,
            final(region).output == old(region).output,
            final(region).output_events == old(region).output_events,
            final(region).output_event_count == old(region).output_event_count,
            final(region).input_event_dropped_count == old(region).input_event_dropped_count,
            final(region).output_note_end_dropped_count == old(region).output_note_end_dropped_count,
            final(region).event_decode_error_count == old(region).event_decode_error_count,
            final(region).transport_context == old(region).transport_context,
            *final(self) == (PipelinedInstrumentHost {
                event_ring: final(self).event_ring,
                voices: final(self).voices,
                ..*old(self)
            }),
    {
        let ghost q = self.event_ring.contents();
        let ghost old_events = region.input_events@;
        let ghost counts0 = self.voices;
        let inject = self.event_ring.take_note_flush_pending();
        let base = slot * MAX_EVENTS_PER_BLOCK;
        if inject {
            let choke = EventRecord::encode(&NeutralEvent::NoteChoke { sample_offset: 0, addr: VoiceAddr::wildcard() });
            region.input_events.set(base, choke);
        }
        let off: usize = if inject {
            1
        } else {
            0
        };
        let placeholder = EventRecord { kind: 0, sample_offset: 0, payload: [0u8; 32] };
        let room = MAX_EVENTS_PER_BLOCK - off;
        let mut drained: Vec<EventRecord> = vec![placeholder; room];
        let d = self.event_ring.drain_into(drained.as_mut_slice());
        let ghost window = drained_window(q, backlog as int, d as int);
        let ghost after_choke = region.input_events@;
        let ghost region1 = *region;
        let ghost ring1 = self.event_ring;
        let mut k: usize = 0;
        while k < d
            invariant
                0 <= k <= d,
                d <= drained@.len(),
                d as int == drained_count(q.len(), inject),
                drained@.subrange(0, d as int) == q.subrange(0, d as int),
                window == drained_window(q, backlog as int, d as int),
                region.wf(),
                base == slot * MAX_EVENTS_PER_BLOCK,
                slot < SLOTS,
                off as int == if inject { 1int } else { 0int },
                off + d <= MAX_EVENTS_PER_BLOCK,
                self.voices.wf(),
                after_choke.len() == region.input_events@.len(),
                *region == (AudioShared { input_events: region.input_events, ..region1 }),
                self.event_ring == ring1,
                *self == (PipelinedInstrumentHost { event_ring: self.event_ring, voices: self.voices, ..*old(self) }),
                forall|j: int| 0 <= j < k ==> #[trigger] region.input_events@[base + off + j] == window[j],
                forall|i: int|
                    0 <= i < region.input_events@.len() && !(base + off <= i < base + off + k) ==> #[trigger] region.input_events@[i]
                        == after_choke[i],
                forall|p: int, c: int, n: int| in_table(p, c, n) ==> #[trigger] self.voices.count(p, c, n)
                    == note_on_counts(window.subrange(0, k as int), p, c, n, counts0.count(p, c, n)),
            decreases d - k,
        {
            let mut rec = drained[k];
            proof {
                assert(drained@[k as int] == drained@.subrange(0, d as int)[k as int]);
            }
            if k < backlog {
                rec.sample_offset = 0;
            }
            region.input_events.set(base + off + k, rec);
            let ghost voices_before = self.voices;
            match rec.decode() {
                Some(NeutralEvent::NoteOn { addr, .. }) => {
                    self.voices.increment(VoiceKey { port_index: addr.port_index, channel: addr.channel, key: addr.key });
                },
                _ => {},
            }
            proof {
                assert(rec == window[k as int]);
                assert(window.subrange(0, k + 1).drop_last() =~= window.subrange(0, k as int));
                assert forall|p: int, c: int, n: int| in_table(p, c, n) implies #[trigger] self.voices.count(p, c, n)
                    == note_on_counts(window.subrange(0, k + 1), p, c, n, counts0.count(p, c, n)) by {
                    assert(self.voices.count(p, c, n) == note_on_count(rec, p, c, n, voices_before.count(p, c, n)));
                }
            }
            k += 1;
        }
        proof {
            assert(window.subrange(0, d as int) =~= window);
        }
        let spilled = self.event_ring.len();
        if spilled != 0 {
            region.input_event_spilled_count = region.input_event_spilled_count.wrapping_add(spilled as u64);
        }
        region.input_event_count[slot] = (off + d) as u32;
        inject
    }

    /// Read back the block of the previous sequence when the child published it (zero-filling
    /// what it rendered short of `count`), else repeat the last good block (silence before any).
    fn read_output(&mut self, region: &AudioShared, out: &mut [u32], count: usize)
        requires
            old(self).wf(),
            region.wf(),
            count <= BUF_LEN,
            count <= old(out)@.len(),
            old(self).fresh < u64::MAX,
            old(self).stale < u64::MAX,
        ensures
            final(self).wf(),
            final(out)@.len() == old(out)@.len(),
            forall|i: int| count <= i < old(out)@.len() ==> final(out)@[i] == old(out)@[i],
            final(self).event_ring == old(self).event_ring,
            final(self).voices == old(self).voices,
            final(self).submitted == old(self).submitted,
            final(self).event_cursor == old(self).event_cursor,
            final(self).stall == old(self).stall,
            final(self).frames_clamped == old(self).frames_clamped,
            final(self).last_output_note_end_dropped == old(self).last_output_note_end_dropped,
            output_read(*old(self), *final(self), *region, old(out)@, final(out)@, count as int),
    {
        let target = self.submitted.saturating_sub(1);
        let ready = target >= 1 && region.seq_tag[slot_index(target)] == target;
        if ready {
            let slot = slot_index(target);
            let frames = region.n_frames[slot] as usize;
            let target_frames = if frames < MAX_FRAMES {
                frames
            } else {
                MAX_FRAMES
            };
            let target_count = target_frames * CHANNELS;
            let copy = if target_count < count {
                target_count
            } else {
                count
            };
            copy_from_region(out, &region.output, slot_offset(target), copy);
            fill_range(out, copy, count, 0);
            copy_prefix(&mut self.last_good, out, count);
            self.primed = true;
            self.fresh += 1;
        } else if self.primed {
            copy_from_region(out, &self.last_good, 0, count);
            self.stale += 1;
        } else {
            fill_range(out, 0, count, 0);
        }
    }

    /// Consume, in order, the output events of every submitted sequence the child has completed:
    /// note-ends release voices, chokes clear them, undecodable records are counted.
    fn consume_output_events(&mut self, region: &mut AudioShared)
        requires
            old(self).wf(),
            old(region).wf(),
        ensures
            final(self).wf(),
            final(self).event_cursor == old(self).event_cursor + completed_after(
                *old(region),
                old(self).event_cursor,
                old(self).submitted,
            ),
            forall|p: int, c: int, n: int| in_table(p, c, n) ==> #[trigger] final(self).voices.count(p, c, n)
                == reported_counts(
                    completed_records(*old(region), old(self).event_cursor, old(self).submitted),
                    p,
                    c,
                    n,
                    old(self).voices.count(p, c, n),
                ),
            *final(region) == (AudioShared {
                event_decode_error_count: wrapping_plus(
                    old(region).event_decode_error_count,
                    undecodable(completed_records(*old(region), old(self).event_cursor, old(self).submitted)) as int,
                ),
                ..*old(region)
            }),
            final(self).event_ring == old(self).event_ring,
            final(self).submitted == old(self).submitted,
            final(self).last_good == old(self).last_good,
            final(self).primed == old(self).primed,
            final(self).fresh == old(self).fresh,
            final(self).stale == old(self).stale,
            final(self).stall == old(self).stall,
            final(self).frames_clamped == old(self).frames_clamped,
            final(self).last_output_note_end_dropped == old(self).last_output_note_end_dropped,
    {
        let ghost region0 = *region;
        let ghost voices0 = self.voices;
        let ghost cursor0 = self.event_cursor;
        let ghost all = completed_records(region0, cursor0, self.submitted);
        let ghost mut done_records: Seq<EventRecord> = Seq::empty();
        while self.event_cursor < self.submitted
            invariant_except_break
                self.voices.wf(),
                region.wf(),
                region0 == *old(region),
                voices0 == old(self).voices,
                cursor0 == old(self).event_cursor,
                self.submitted == old(self).submitted,
                self.event_ring == old(self).event_ring,
                self.last_good == old(self).last_good,
                self.primed == old(self).primed,
                self.fresh == old(self).fresh,
                self.stale == old(self).stale,
                self.stall == old(self).stall,
                self.frames_clamped == old(self).frames_clamped,
                self.last_output_note_end_dropped == old(self).last_output_note_end_dropped,
                all == completed_records(region0, cursor0, self.submitted),
                cursor0 <= self.event_cursor <= self.submitted,
                self.event_cursor - cursor0 + completed_after(region0, self.event_cursor, self.submitted)
                    == completed_after(region0, cursor0, self.submitted),
                done_records + completed_records(region0, self.event_cursor, self.submitted) == all,
                *region == (AudioShared {
                    event_decode_error_count: wrapping_plus(region0.event_decode_error_count, undecodable(done_records) as int),
                    ..region0
                }),
                forall|p: int, c: int, n: int| in_table(p, c, n) ==> #[trigger] self.voices.count(p, c, n)
                    == reported_counts(done_records, p, c, n, voices0.count(p, c, n)),
            ensures
                self.voices.wf(),
                region.wf(),
                self.event_cursor <= self.submitted,
                self.event_cursor == cursor0 + completed_after(region0, cursor0, self.submitted),
                done_records == all,
                *region == (AudioShared {
                    event_decode_error_count: wrapping_plus(region0.event_decode_error_count, undecodable(done_records) as int),
                    ..region0
                }),
                forall|p: int, c: int, n: int| in_table(p, c, n) ==> #[trigger] self.voices.count(p, c, n)
                    == reported_counts(done_records, p, c, n, voices0.count(p, c, n)),
                self.submitted == old(self).submitted,
                self.event_ring == old(self).event_ring,
                self.last_good == old(self).last_good,
                self.primed == old(self).primed,
                self.fresh == old(self).fresh,
                self.stale == old(self).stale,
                self.stall == old(self).stall,
                self.frames_clamped == old(self).frames_clamped,
                self.last_output_note_end_dropped == old(self).last_output_note_end_dropped,
            decreases self.submitted - self.event_cursor,
        {
            let next = self.event_cursor + 1;
            let slot = slot_index(next);
            if region.seq_tag[slot] != next {
                proof {
                    assert(!next_completed(region0, self.event_cursor, self.submitted));
                    assert(completed_records(region0, self.event_cursor, self.submitted) =~= Seq::<EventRecord>::empty());
                    assert(done_records =~= all);
                }
                break;
            }
            let raw_count = region.output_event_count[slot] as usize;
            let event_count = if raw_count < MAX_EVENTS_PER_BLOCK {
                raw_count
            } else {
                MAX_EVENTS_PER_BLOCK
            };
            let base = slot * MAX_EVENTS_PER_BLOCK;
            let ghost window = output_window(region0, next);
            proof {
                assert(next_completed(region0, self.event_cursor, self.submitted));
                assert(window =~= region0.output_events@.subrange(base as int, base + event_count));
            }
            let ghost done_before = done_records;
            let mut j: usize = 0;
            while j < event_count
                invariant
                    0 <= j <= event_count,
                    event_count <= MAX_EVENTS_PER_BLOCK,
                    base + event_count <= region.output_events@.len(),
                    window == region0.output_events@.subrange(base as int, base + event_count),
                    region.output_events == region0.output_events,
                    self.voices.wf(),
                    region.wf(),
                    *region == (AudioShared {
                        event_decode_error_count: wrapping_plus(
                            region0.event_decode_error_count,
                            undecodable(done_before + window.subrange(0, j as int)) as int,
                        ),
                        ..region0
                    }),
                    forall|p: int, c: int, n: int| in_table(p, c, n) ==> #[trigger] self.voices.count(p, c, n)
                        == reported_counts(done_before + window.subrange(0, j as int), p, c, n, voices0.count(p, c, n)),
                    self.submitted == old(self).submitted,
                    self.event_ring == old(self).event_ring,
                    self.last_good == old(self).last_good,
                    self.primed == old(self).primed,
                    self.fresh == old(self).fresh,
                    self.stale == old(self).stale,
                    self.stall == old(self).stall,
                    self.frames_clamped == old(self).frames_clamped,
                    self.last_output_note_end_dropped == old(self).last_output_note_end_dropped,
                    self.event_cursor == next - 1,
                decreases event_count - j,
            {
                let record = region.output_events[base + j];
                let ghost voices_before = self.voices;
                let ghost prefix = done_before + window.subrange(0, j as int);
                proof {
                    assert(record == window[j as int]);
                    assert((done_before + window.subrange(0, j + 1)).drop_last() =~= prefix);
                }
                match record.decode() {
                    Some(NeutralEvent::NoteEnd { addr, .. }) => {
                        self.voices.note_end(addr);
                    },
                    Some(NeutralEvent::NoteChoke { addr, .. }) => {
                        self.voices.choke(addr);
                    },
                    Some(_) => {},
                    None => {
                        region.event_decode_error_count = region.event_decode_error_count.wrapping_add(1);
                    },
                }
                proof {
                    assert forall|p: int, c: int, n: int| in_table(p, c, n) implies #[trigger] self.voices.count(p, c, n)
                        == reported_counts(done_before + window.subrange(0, j + 1), p, c, n, voices0.count(p, c, n)) by {
                        assert(self.voices.count(p, c, n) == reported_count(record, p, c, n, voices_before.count(p, c, n)));
                    }
                }
                j += 1;
            }
            proof {
                assert(window.subrange(0, event_count as int) =~= window);
                done_records = done_before + window;
                assert(done_before + window + completed_records(region0, next, self.submitted) =~= done_before + (window
                    + completed_records(region0, next, self.submitted)));
            }
            self.event_cursor = next;
        }
    }

    /// Queue the callback's events; those that do not fit are dropped and counted.
    fn push_events(&mut self, region: &mut AudioShared, events: &[NeutralEvent])
        requires
            old(self).wf(),
        ensures
            final(self).wf(),
            *final(self) == (PipelinedInstrumentHost { event_ring: final(self).event_ring, ..*old(self) }),
            pushed(old(self).event_ring.contents(), final(self).event_ring.contents(), events@),
            final(self).event_ring.flush_pending() == (old(self).event_ring.flush_pending() || exists|j: int|
                kept_count(old(self).event_ring.contents().len(), events@.len()) <= j < events@.len()
                    && ends_note(#[trigger] events@[j])),
            *final(region) == (AudioShared {
                input_event_dropped_count: wrapping_plus(
                    old(region).input_event_dropped_count,
                    events@.len() - kept_count(old(self).event_ring.contents().len(), events@.len()),
                ),
                ..*old(region)
            }),
    {
        let ghost before = self.event_ring.contents();
        proof {
            self.event_ring.lemma_capacity();
        }
        let ghost room = (EVENT_BACKING_CAPACITY - before.len()) as nat;
        let ghost flush0 = self.event_ring.flush_pending();
        let ghost dropped0 = region.input_event_dropped_count;
        let mut i: usize = 0;
        while i < events.len()
            invariant
                0 <= i <= events@.len(),
                self.event_ring.wf(),
                self.voices == old(self).voices,
                before == old(self).event_ring.contents(),
                flush0 == old(self).event_ring.flush_pending(),
                dropped0 == old(region).input_event_dropped_count,
                room == EVENT_BACKING_CAPACITY - before.len(),
                before.len() <= EVENT_BACKING_CAPACITY,
                self.event_ring.contents().len() == before.len() + kept_count(before.len(), i as nat),
                self.event_ring.contents().subrange(0, before.len() as int) == before,
                forall|k: int|
                    0 <= k < kept_count(before.len(), i as nat) ==> record_encodes(
                        #[trigger] self.event_ring.contents()[before.len() + k],
                        events@[k],
                    ),
                self.event_ring.flush_pending() == (flush0 || exists|j: int| room <= j < i && ends_note(#[trigger] events@[j])),
                *region == (AudioShared {
                    input_event_dropped_count: wrapping_plus(dropped0, i - kept_count(before.len(), i as nat)),
                    ..*old(region)
                }),
                *self == (PipelinedInstrumentHost { event_ring: self.event_ring, ..*old(self) }),
            decreases events@.len() - i,
        {
            let ghost c0 = self.event_ring.contents();
            let rec = EventRecord::encode(&events[i]);
            proof {
                crate::events::lemma_decode_inverts_encode(events@[i as int]);
                assert(record_decodes_to(rec) == Some(events@[i as int]));
            }
            if !self.event_ring.push(rec) {
                proof {
                    assert(is_note_off_or_end(rec) == ends_note(events@[i as int]));
                    assert(wrapping_plus(dropped0, i - kept_count(before.len(), i as nat)) < 0x1_0000_0000_0000_0000);
                }
                region.input_event_dropped_count = region.input_event_dropped_count.wrapping_add(1);
                proof {
                    assert(kept_count(before.len(), (i + 1) as nat) == kept_count(before.len(), i as nat));
                    assert(self.event_ring.flush_pending() == (flush0 || exists|j: int|
                        room <= j < i + 1 && ends_note(#[trigger] events@[j])));
                }
            } else {
                proof {
                    assert(kept_count(before.len(), (i + 1) as nat) == kept_count(before.len(), i as nat) + 1);
                    assert(self.event_ring.contents().subrange(0, before.len() as int) =~= before);
                    assert(self.event_ring.flush_pending() == (flush0 || exists|j: int|
                        room <= j < i + 1 && ends_note(#[trigger] events@[j])));
                }
            }
            i += 1;
        }
    }
}

} // verus!
