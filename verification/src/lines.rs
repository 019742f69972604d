//! Output routing: source destinations and their encoding, bus routing sentinels, and line
//! programs (the ordered rack / gain / pan / output operations of a bus or of the master line)
//! with their validation.
//!
//! Gains and pans are carried as the bit patterns of their `f32` values (`f32::to_bits`): the
//! routing rules never look at their numeric value.

use crate::output::OutputError;
use crate::stage_vec::{
    feed_items, new_feeds, new_flags, new_positions, push_feed, push_flag, push_position, set_flag, stage_flags,
    stage_positions,
};
use arrayvec::ArrayVec;
use crate::text::{ascii_string, decimal_digits, is_ascii_bytes, is_digit, lemma_decimal_digits, push_decimal, push_str_bytes};
use vstd::prelude::*;
use vstd::string::{StringExecFns, StringSliceAdditionalSpecFns};
use vstd::utf8::encode_utf8;

verus! {

/// Bit pattern of `1.0f32`.
pub const UNITY_GAIN_BITS: u32 = 1065353216;

/// Maximum number of link egress channels.
pub const MAX_LINK_CHANNELS: usize = 64;

/// Maximum number of insert bus stages.
pub const MAX_INSERT_BUS_STAGES: usize = 64;

/// Maximum number of source slots.
pub const MAX_SOURCE_SLOTS: usize = 32;

/// Maximum number of output units of one source slot.
pub const MAX_SOURCE_UNITS: usize = 16;

/// Maximum number of source feeds of one block: every unit of every slot.
pub const MAX_SOURCE_FEEDS: usize = MAX_SOURCE_SLOTS * MAX_SOURCE_UNITS;

/// Position of a rendered block on the output timeline.
#[derive(Debug, Clone, Copy)]
pub struct BlockTransport {
    pub cursor_frames: u64,
    pub sample_rate: u32,
}

/// Where one output unit of a source goes.
#[derive(Debug, Clone, Copy, PartialEq, Eq, Structural)]
pub enum SourceDest {
    /// Rendered but not routed anywhere.
    Silence,
    Master,
    Bus(usize),
    Link(usize),
}

impl Default for SourceDest {
    fn default() -> (r: Self)
        ensures
            r == SourceDest::Silence,
    {
        SourceDest::Silence
    }
}

/// Encoded value of the master destination.
pub const DEST_MASTER: usize = 0;
/// Encoded value of bus 0.
pub const DEST_BUS_BASE: usize = 1;
/// Encoded value of link channel 0.
pub const DEST_LINK_BASE: usize = 65;
/// First value past the link channels; also the encoding of `Silence`.
pub const DEST_END: usize = 129;

/// The encoding of a destination; an index past its limit (never validated) encodes silence.
pub open spec fn encode_dest_spec(dest: SourceDest) -> usize {
    match dest {
        SourceDest::Silence => DEST_END,
        SourceDest::Master => DEST_MASTER,
        SourceDest::Bus(i) => if i < MAX_INSERT_BUS_STAGES {
            (DEST_BUS_BASE + i) as usize
        } else {
            DEST_END
        },
        SourceDest::Link(i) => if i < MAX_LINK_CHANNELS {
            (DEST_LINK_BASE + i) as usize
        } else {
            DEST_END
        },
    }
}

/// The destination an encoded value stands for; values out of range decode as silence.
pub open spec fn decode_dest_spec(value: usize) -> SourceDest {
    if value == DEST_MASTER {
        SourceDest::Master
    } else if value < DEST_LINK_BASE {
        SourceDest::Bus((value - DEST_BUS_BASE) as usize)
    } else if value < DEST_END {
        SourceDest::Link((value - DEST_LINK_BASE) as usize)
    } else {
        SourceDest::Silence
    }
}

/// Whether a destination is within its limits.
pub open spec fn dest_in_range(dest: SourceDest) -> bool {
    match dest {
        SourceDest::Bus(i) => i < MAX_INSERT_BUS_STAGES,
        SourceDest::Link(i) => i < MAX_LINK_CHANNELS,
        _ => true,
    }
}

/// A source unit's destination, stored as one machine word so that the audio thread can read it
/// without locking.
#[derive(Debug, Clone)]
pub struct SourceDestCell {
    pub value: usize,
}

impl SourceDestCell {
    /// A cell holding `dest`.
    pub fn new(dest: SourceDest) -> (r: Self)
        ensures
            r.value == encode_dest_spec(dest),
    {
        SourceDestCell { value: Self::encode(dest) }
    }

    /// The destination held.
    pub fn load(&self) -> (r: SourceDest)
        ensures
            r == decode_dest_spec(self.value),
    {
        Self::decode(self.value)
    }

    /// Replace the destination held.
    pub fn store(&mut self, dest: SourceDest)
        ensures
            final(self).value == encode_dest_spec(dest),
    {
        self.value = Self::encode(dest);
    }

    /// Encode a destination (see [`encode_dest_spec`]).
    pub fn encode(dest: SourceDest) -> (r: usize)
        ensures
            r == encode_dest_spec(dest),
    {
        match dest {
            SourceDest::Silence => DEST_END,
            SourceDest::Master => DEST_MASTER,
            SourceDest::Bus(index) => if index < MAX_INSERT_BUS_STAGES {
                DEST_BUS_BASE + index
            } else {
                DEST_END
            },
            SourceDest::Link(index) => if index < MAX_LINK_CHANNELS {
                DEST_LINK_BASE + index
            } else {
                DEST_END
            },
        }
    }

    /// Decode a stored value (see [`decode_dest_spec`]).
    pub fn decode(value: usize) -> (r: SourceDest)
        ensures
            r == decode_dest_spec(value),
    {
        if value == DEST_MASTER {
            SourceDest::Master
        } else if value < DEST_LINK_BASE {
            SourceDest::Bus(value - DEST_BUS_BASE)
        } else if value < DEST_END {
            SourceDest::Link(value - DEST_LINK_BASE)
        } else {
            SourceDest::Silence
        }
    }
}

impl Default for SourceDestCell {
    fn default() -> (r: Self)
        ensures
            r.value == encode_dest_spec(SourceDest::Silence),
    {
        SourceDestCell::new(SourceDest::Silence)
    }
}

/// Every destination within its limits survives a store and a load unchanged; every other one
/// reads back as silence.
pub proof fn lemma_source_dest_round_trip(dest: SourceDest)
    ensures
        dest_in_range(dest) ==> decode_dest_spec(encode_dest_spec(dest)) == dest,
        !dest_in_range(dest) ==> decode_dest_spec(encode_dest_spec(dest)) == SourceDest::Silence,
{
}

/// Where a bus stage's output goes.
#[derive(Debug, Clone, Copy, PartialEq, Eq, Structural)]
pub enum BusTarget {
    Master,
    Bus(usize),
}

impl Default for BusTarget {
    fn default() -> (r: Self)
        ensures
            r == BusTarget::Master,
    {
        BusTarget::Master
    }
}

/// Decode a routing override word: 0 = no override, 1 = master, `n >= 2` = bus `n - 2`.
pub fn decode_bus_routing_sentinel(encoded: usize) -> (r: Option<BusTarget>)
    ensures
        encoded == 0 ==> r is None,
        encoded == 1 ==> r == Some(BusTarget::Master),
        encoded >= 2 ==> r == Some(BusTarget::Bus((encoded - 2) as usize)),
{
    if encoded == 0 {
        None
    } else if encoded == 1 {
        Some(BusTarget::Master)
    } else {
        Some(BusTarget::Bus(encoded - 2))
    }
}

/// A send from a bus stage to a later bus with a gain.
#[derive(Debug, Clone, Copy)]
pub struct BusSend {
    pub target: usize,
    pub gain_bits: u32,
}

/// Destination of a line output operation.
#[derive(Debug, Clone, Copy, PartialEq, Eq, Structural)]
pub enum OutputDest {
    Master,
    Bus(usize),
    Device { left: usize, right: Option<usize> },
    Render(usize),
    Link(usize),
}

/// A line output: destination, whether the signal also continues down the line, and its gain.
#[derive(Debug, Clone, Copy, PartialEq, Eq, Structural)]
pub struct LineOutput {
    pub dest: OutputDest,
    pub thru: bool,
    pub gain_bits: u32,
}

/// One operation of a line program.
#[derive(Debug, Clone, Copy, PartialEq, Eq, Structural)]
pub enum LineOp {
    /// The stage's rack (effect chain) position.
    Rack,
    Gain(u32),
    Pan(u32),
    Output(LineOutput),
}

/// The master line's default program: rack, unity gain, then the device's first channel pair
/// (left only on a mono device).
pub fn default_master_line_ops(output_channels: u16) -> (r: Vec<LineOp>)
    ensures
        r@ == seq![
            LineOp::Rack,
            LineOp::Gain(UNITY_GAIN_BITS),
            LineOp::Output(LineOutput {
                dest: OutputDest::Device {
                    left: 0,
                    right: if output_channels > 1 { Some(1usize) } else { None },
                },
                thru: false,
                gain_bits: UNITY_GAIN_BITS,
            }),
        ],
{
    let right = if output_channels > 1 {
        Some(1usize)
    } else {
        None
    };
    let mut ops: Vec<LineOp> = Vec::new();
    ops.push(LineOp::Rack);
    ops.push(LineOp::Gain(UNITY_GAIN_BITS));
    ops.push(LineOp::Output(LineOutput { dest: OutputDest::Device { left: 0, right }, thru: false, gain_bits: UNITY_GAIN_BITS }));
    proof {
        assert(ops@ =~= seq![
            LineOp::Rack,
            LineOp::Gain(UNITY_GAIN_BITS),
            LineOp::Output(LineOutput { dest: OutputDest::Device { left: 0, right }, thru: false, gain_bits: UNITY_GAIN_BITS }),
        ]);
    }
    ops
}

/// A bus line's default program: just the rack (output handled by the routing).
pub fn default_bus_line_ops() -> (r: Vec<LineOp>)
    ensures
        r@ == seq![LineOp::Rack],
{
    let mut ops: Vec<LineOp> = Vec::new();
    ops.push(LineOp::Rack);
    proof {
        assert(ops@ =~= seq![LineOp::Rack]);
    }
    ops
}

/// The line output for a routing target.
pub open spec fn target_dest(target: BusTarget) -> OutputDest {
    match target {
        BusTarget::Master => OutputDest::Master,
        BusTarget::Bus(i) => OutputDest::Bus(i),
    }
}

/// The program equivalent to a legacy routing: rack, the output to `target` (continuing down
/// the line when sends follow), then one output per send, each but the last continuing.
pub open spec fn legacy_ops_spec(target: BusTarget, sends: Seq<BusSend>) -> Seq<LineOp> {
    seq![
        LineOp::Rack,
        LineOp::Output(LineOutput { dest: target_dest(target), thru: sends.len() > 0, gain_bits: UNITY_GAIN_BITS }),
    ] + Seq::new(
        sends.len(),
        |i: int| LineOp::Output(LineOutput { dest: OutputDest::Bus(sends[i].target), thru: i + 1 != sends.len(), gain_bits: sends[i].gain_bits }),
    )
}

/// The line program equivalent to a legacy output target and sends.
pub fn legacy_line_ops(output_target: BusTarget, sends: &[BusSend]) -> (r: Vec<LineOp>)
    ensures
        r@ == legacy_ops_spec(output_target, sends@),
{
    let mut ops: Vec<LineOp> = Vec::new();
    ops.push(LineOp::Rack);
    let dest = match output_target {
        BusTarget::Master => OutputDest::Master,
        BusTarget::Bus(index) => OutputDest::Bus(index),
    };
    ops.push(LineOp::Output(LineOutput { dest, thru: sends.len() != 0, gain_bits: UNITY_GAIN_BITS }));
    let mut index: usize = 0;
    while index < sends.len()
        invariant
            0 <= index <= sends@.len(),
            ops@ =~= legacy_ops_spec(output_target, sends@).take(index + 2),
        decreases sends@.len() - index,
    {
        let send = sends[index];
        ops.push(LineOp::Output(LineOutput { dest: OutputDest::Bus(send.target), thru: index + 1 != sends.len(), gain_bits: send.gain_bits }));
        index += 1;
        proof {
            assert(ops@ =~= legacy_ops_spec(output_target, sends@).take(index + 2));
        }
    }
    proof {
        assert(legacy_ops_spec(output_target, sends@).take(index + 2) =~= legacy_ops_spec(output_target, sends@));
    }
    ops
}

/// The send outputs appended after a stage's primary output: one per send, each but the last
/// continuing down the line.
pub open spec fn send_outputs(sends: Seq<BusSend>) -> Seq<LineOp> {
    Seq::new(
        sends.len(),
        |i: int| LineOp::Output(LineOutput { dest: OutputDest::Bus(sends[i].target), thru: i + 1 != sends.len(), gain_bits: sends[i].gain_bits }),
    )
}

/// The operations with the primary (first) output sent to `target`.
pub open spec fn retarget_ops(ops: Seq<LineOp>, target: BusTarget) -> Seq<LineOp> {
    Seq::new(
        ops.len(),
        |i: int|
            match ops[i] {
                LineOp::Output(o) => if no_output_before(ops, i) {
                    LineOp::Output(LineOutput { dest: target_dest(target), ..o })
                } else {
                    ops[i]
                },
                _ => ops[i],
            },
    )
}

/// Whether `p` is the position of the primary (first) output.
pub open spec fn is_primary_output(ops: Seq<LineOp>, p: int) -> bool {
    0 <= p < ops.len() && ops[p] is Output && no_output_before(ops, p)
}

/// The position of the primary output (meaningful when there is an output).
pub open spec fn primary_output(ops: Seq<LineOp>) -> int {
    choose|p: int| is_primary_output(ops, p)
}

/// The operations up to the primary output, which continues exactly when sends follow, then
/// one output per send.
pub open spec fn with_sends_ops(ops: Seq<LineOp>, sends: Seq<BusSend>) -> Seq<LineOp> {
    let p = primary_output(ops);
    match ops[p] {
        LineOp::Output(o) => ops.take(p) + seq![LineOp::Output(LineOutput { thru: sends.len() > 0, ..o })]
            + send_outputs(sends),
        _ => ops,
    }
}

proof fn lemma_primary_output_unique(ops: Seq<LineOp>, p: int, q: int)
    requires
        is_primary_output(ops, p),
        is_primary_output(ops, q),
    ensures
        p == q,
{
    if p < q {
        assert(!(ops[p] is Output));
    } else if q < p {
        assert(!(ops[q] is Output));
    }
}

/// The stage's operations with the primary (first) output sent to `target`; without an output
/// they are unchanged.
pub fn ops_with_output_target(ops: &[LineOp], target: BusTarget) -> (r: Vec<LineOp>)
    ensures
        r@ == retarget_ops(ops@, target),
{
    let dest = match target {
        BusTarget::Master => OutputDest::Master,
        BusTarget::Bus(index) => OutputDest::Bus(index),
    };
    let mut r: Vec<LineOp> = Vec::new();
    let mut seen = false;
    let mut i: usize = 0;
    while i < ops.len()
        invariant
            0 <= i <= ops@.len(),
            r@.len() == i,
            dest == target_dest(target),
            seen == !no_output_before(ops@, i as int),
            forall|j: int|
                0 <= j < i ==> #[trigger] r@[j] == match ops@[j] {
                    LineOp::Output(o) => if no_output_before(ops@, j) {
                        LineOp::Output(LineOutput { dest: target_dest(target), ..o })
                    } else {
                        ops@[j]
                    },
                    _ => ops@[j],
                },
        decreases ops@.len() - i,
    {
        let op = ops[i];
        match op {
            LineOp::Output(o) => {
                if seen {
                    r.push(op);
                } else {
                    r.push(LineOp::Output(LineOutput { dest, thru: o.thru, gain_bits: o.gain_bits }));
                }
                proof {
                    assert(!no_output_before(ops@, i + 1)) by {
                        assert(ops@[i as int] is Output);
                    }
                }
                seen = true;
            },
            _ => {
                r.push(op);
                proof {
                    assert(no_output_before(ops@, i + 1) == no_output_before(ops@, i as int)) by {
                        assert(!(ops@[i as int] is Output));
                    }
                }
            },
        }
        i += 1;
    }
    proof {
        assert(r@ =~= retarget_ops(ops@, target));
    }
    r
}

fn is_output_op(op: LineOp) -> (r: bool)
    ensures
        r == op is Output,
{
    match op {
        LineOp::Output(_) => true,
        _ => false,
    }
}

/// The stage's operations up to and including the primary output, which continues down the line
/// exactly when sends follow, then one output per send. The operations must hold an output.
pub fn ops_with_sends(ops: &[LineOp], sends: &[BusSend]) -> (r: Vec<LineOp>)
    requires
        exists|k: int| 0 <= k < ops@.len() && #[trigger] ops@[k] is Output,
    ensures
        r@ == with_sends_ops(ops@, sends@),
{
    let mut p: usize = 0;
    while p < ops.len() && !is_output_op(ops[p])
        invariant
            0 <= p <= ops@.len(),
            no_output_before(ops@, p as int),
            exists|k: int| 0 <= k < ops@.len() && #[trigger] ops@[k] is Output,
        decreases ops@.len() - p,
    {
        p += 1;
    }
    proof {
        if p == ops@.len() {
            let k = choose|k: int| 0 <= k < ops@.len() && #[trigger] ops@[k] is Output;
            assert(!(ops@[k] is Output));
        }
    }
    let mut r: Vec<LineOp> = Vec::new();
    let mut i: usize = 0;
    while i < p
        invariant
            0 <= i <= p,
            p < ops@.len(),
            r@ == ops@.take(i as int),
        decreases p - i,
    {
        r.push(ops[i]);
        i += 1;
        proof {
            assert(r@ =~= ops@.take(i as int));
        }
    }
    let primary = match ops[p] {
        LineOp::Output(o) => LineOutput { dest: o.dest, thru: sends.len() != 0, gain_bits: o.gain_bits },
        _ => LineOutput { dest: OutputDest::Master, thru: false, gain_bits: UNITY_GAIN_BITS },
    };
    r.push(LineOp::Output(primary));
    let ghost head = r@;
    let mut index: usize = 0;
    while index < sends.len()
        invariant
            0 <= index <= sends@.len(),
            r@ == head + send_outputs(sends@).take(index as int),
        decreases sends@.len() - index,
    {
        let send = sends[index];
        r.push(LineOp::Output(LineOutput { dest: OutputDest::Bus(send.target), thru: index + 1 != sends.len(), gain_bits: send.gain_bits }));
        index += 1;
        proof {
            assert(r@ =~= head + send_outputs(sends@).take(index as int));
        }
    }
    proof {
        assert(send_outputs(sends@).take(index as int) =~= send_outputs(sends@));
        assert(is_primary_output(ops@, p as int));
        lemma_primary_output_unique(ops@, p as int, primary_output(ops@));
        match ops@[p as int] {
            LineOp::Output(o) => {
                assert(r@ =~= ops@.take(p as int) + seq![LineOp::Output(LineOutput { thru: sends@.len() > 0, ..o })]
                    + send_outputs(sends@));
            },
            _ => {},
        }
    }
    r
}

/// The stage's operations with every output continuing down the line (so that per-send gain
/// overrides reach every later output).
pub fn ops_with_all_outputs_thru(ops: &[LineOp]) -> (r: Vec<LineOp>)
    ensures
        r@.len() == ops@.len(),
        forall|i: int|
            0 <= i < ops@.len() ==> #[trigger] r@[i] == match ops@[i] {
                LineOp::Output(o) => LineOp::Output(LineOutput { thru: true, ..o }),
                _ => ops@[i],
            },
{
    let mut r: Vec<LineOp> = Vec::new();
    let mut i: usize = 0;
    while i < ops.len()
        invariant
            0 <= i <= ops@.len(),
            r@.len() == i,
            forall|j: int|
                0 <= j < i ==> #[trigger] r@[j] == match ops@[j] {
                    LineOp::Output(o) => LineOp::Output(LineOutput { thru: true, ..o }),
                    _ => ops@[j],
                },
        decreases ops@.len() - i,
    {
        let op = ops[i];
        match op {
            LineOp::Output(o) => r.push(LineOp::Output(LineOutput { dest: o.dest, thru: true, gain_bits: o.gain_bits })),
            _ => r.push(op),
        }
        i += 1;
    }
    r
}

/// Building a stage from an explicit master line, then sending its primary output to `target`
/// and adding `sends`, gives exactly the program of the legacy routing (`target`, `sends`).
pub proof fn lemma_stage_builders_match_legacy(target: BusTarget, sends: Seq<BusSend>)
    ensures
        with_sends_ops(retarget_ops(legacy_ops_spec(BusTarget::Master, Seq::empty()), target), sends)
            == legacy_ops_spec(target, sends),
{
    let base = legacy_ops_spec(BusTarget::Master, Seq::empty());
    let ops = retarget_ops(base, target);
    assert(send_outputs(Seq::<BusSend>::empty()) =~= Seq::<LineOp>::empty());
    assert(no_output_before(base, 1)) by {
        assert(!(base[0] is Output));
    }
    assert(is_primary_output(ops, 1)) by {
        assert(!(ops[0] is Output));
    }
    lemma_primary_output_unique(ops, 1, primary_output(ops));
    assert(with_sends_ops(ops, sends) =~= legacy_ops_spec(target, sends));
}

/// A published line program: its operations and, per operation, the gain the audio thread is
/// currently at (bit patterns).
#[derive(Debug)]
pub struct LineProgram {
    pub ops: Vec<LineOp>,
    pub current_gain: Vec<u32>,
}

/// The gain an operation settles at.
pub open spec fn settled_gain(op: LineOp) -> u32 {
    match op {
        LineOp::Gain(g) => g,
        LineOp::Pan(g) => g,
        LineOp::Output(o) => o.gain_bits,
        LineOp::Rack => UNITY_GAIN_BITS,
    }
}

impl LineProgram {
    /// A program whose gains start at unity and ramp to their targets.
    pub fn new(ops: Vec<LineOp>) -> (r: Self)
        ensures
            r.ops@ == ops@,
            r.current_gain@ == Seq::new(ops@.len(), |i: int| UNITY_GAIN_BITS),
    {
        let mut seeds: Vec<u32> = Vec::new();
        let mut i: usize = 0;
        while i < ops.len()
            invariant
                0 <= i <= ops@.len(),
                seeds@ =~= Seq::new(i as nat, |j: int| UNITY_GAIN_BITS),
            decreases ops@.len() - i,
        {
            seeds.push(UNITY_GAIN_BITS);
            i += 1;
        }
        Self::with_seeds(ops, seeds)
    }

    /// A program whose gains start at the given values.
    pub fn with_seeds(ops: Vec<LineOp>, seeds: Vec<u32>) -> (r: Self)
        ensures
            r.ops@ == ops@,
            r.current_gain@ == seeds@,
    {
        LineProgram { ops, current_gain: seeds }
    }

    /// A program already at every target.
    pub fn settled(ops: Vec<LineOp>) -> (r: Self)
        ensures
            r.ops@ == ops@,
            r.current_gain@ == Seq::new(ops@.len(), |i: int| settled_gain(ops@[i])),
    {
        let mut seeds: Vec<u32> = Vec::new();
        let mut i: usize = 0;
        while i < ops.len()
            invariant
                0 <= i <= ops@.len(),
                seeds@ =~= Seq::new(i as nat, |j: int| settled_gain(ops@[j])),
            decreases ops@.len() - i,
        {
            let seed = match ops[i] {
                LineOp::Gain(g) => g,
                LineOp::Pan(g) => g,
                LineOp::Output(o) => o.gain_bits,
                LineOp::Rack => UNITY_GAIN_BITS,
            };
            seeds.push(seed);
            i += 1;
        }
        Self::with_seeds(ops, seeds)
    }

    /// The settled program of a legacy routing.
    pub fn legacy(output_target: BusTarget, sends: &[BusSend]) -> (r: Self)
        ensures
            r.ops@ == legacy_ops_spec(output_target, sends@),
            r.current_gain@ == Seq::new(r.ops@.len(), |i: int| settled_gain(r.ops@[i])),
    {
        Self::settled(legacy_line_ops(output_target, sends))
    }

    /// One gain cell per operation.
    pub fn validate_shape(&self) -> (r: Result<(), OutputError>)
        ensures
            r is Ok <==> self.ops@.len() == self.current_gain@.len(),
            r is Err ==> (r matches Err(OutputError::NoConfig(m)) && encode_utf8(m@) == shape_message(
                self.ops@.len() as nat,
                self.current_gain@.len() as nat,
            )),
    {
        if self.ops.len() != self.current_gain.len() {
            let mut b: Vec<u8> = Vec::new();
            push_str_bytes(&mut b, "line program has ");
            push_decimal(&mut b, self.ops.len() as u64);
            push_str_bytes(&mut b, " ops but ");
            push_decimal(&mut b, self.current_gain.len() as u64);
            push_str_bytes(&mut b, " gain cells");
            proof {
                reveal_strlit("line program has ");
                lemma_ascii_parts("line program has ");
                reveal_strlit(" ops but ");
                lemma_ascii_parts(" ops but ");
                reveal_strlit(" gain cells");
                lemma_ascii_parts(" gain cells");
                lemma_decimal_ascii(self.ops@.len() as nat);
                lemma_decimal_ascii(self.current_gain@.len() as nat);
                assert(b@ =~= shape_message(self.ops@.len() as nat, self.current_gain@.len() as nat));
                lemma_concat_ascii5(
                    "line program has ".spec_bytes(),
                    decimal_digits(self.ops@.len() as nat),
                    " ops but ".spec_bytes(),
                    decimal_digits(self.current_gain@.len() as nat),
                    " gain cells".spec_bytes(),
                );
            }
            return Err(OutputError::NoConfig(ascii_string(&b)));
        }
        Ok(())
    }
}

/// Message of a shape mismatch.
pub open spec fn shape_message(ops: nat, cells: nat) -> Seq<u8> {
    "line program has ".spec_bytes() + decimal_digits(ops) + " ops but ".spec_bytes() + decimal_digits(cells)
        + " gain cells".spec_bytes()
}

/// Message of an output to a bus that is not a later stage.
pub open spec fn later_stage_message(bus_index: nat, target: nat) -> Seq<u8> {
    "insert bus index ".spec_bytes() + decimal_digits(bus_index) + " output Bus(".spec_bytes() + decimal_digits(target)
        + ") must be a later stage".spec_bytes()
}

proof fn lemma_ascii_parts(s: &str)
    requires
        vstd::utf8::is_ascii_chars(s@),
    ensures
        is_ascii_bytes(s.spec_bytes()),
{
    crate::text::lemma_ascii_str_bytes(s);
    assert forall|i: int| 0 <= i < s.spec_bytes().len() implies #[trigger] s.spec_bytes()[i] < 128 by {
        assert(s.spec_bytes()[i] == s@[i] as u8);
    }
}

proof fn lemma_decimal_ascii(n: nat)
    ensures
        is_ascii_bytes(decimal_digits(n)),
{
    lemma_decimal_digits(n);
    assert forall|i: int| 0 <= i < decimal_digits(n).len() implies #[trigger] decimal_digits(n)[i] < 128 by {
        assert(is_digit(decimal_digits(n)[i]));
    }
}

proof fn lemma_concat_ascii5(a: Seq<u8>, b: Seq<u8>, c: Seq<u8>, d: Seq<u8>, e: Seq<u8>)
    requires
        is_ascii_bytes(a),
        is_ascii_bytes(b),
        is_ascii_bytes(c),
        is_ascii_bytes(d),
        is_ascii_bytes(e),
    ensures
        is_ascii_bytes(a + b + c + d + e),
{
    let s = a + b + c + d + e;
    assert forall|i: int| 0 <= i < s.len() implies #[trigger] s[i] < 128 by {
        if i < a.len() {
            assert(s[i] == a[i]);
        } else if i < a.len() + b.len() {
            assert(s[i] == b[i - a.len()]);
        } else if i < a.len() + b.len() + c.len() {
            assert(s[i] == c[i - a.len() - b.len()]);
        } else if i < a.len() + b.len() + c.len() + d.len() {
            assert(s[i] == d[i - a.len() - b.len() - c.len()]);
        } else {
            assert(s[i] == e[i - a.len() - b.len() - c.len() - d.len()]);
        }
    }
}

/// Why an operation makes a program invalid for insert bus `bus_index` of `bus_count`, if it does.
pub open spec fn op_rejected(op: LineOp, bus_index: usize, bus_count: usize) -> bool {
    match op {
        LineOp::Output(o) => match o.dest {
            OutputDest::Render(_) => true,
            OutputDest::Link(_) => true,
            OutputDest::Bus(t) => t <= bus_index || t >= bus_count,
            _ => false,
        },
        _ => false,
    }
}

/// The message for the first rejected operation.
pub open spec fn rejection_message(op: LineOp, bus_index: usize) -> Seq<char> {
    match op {
        LineOp::Output(o) => match o.dest {
            OutputDest::Render(_) => "line program Output destination Render is not wired into RT execution"@,
            OutputDest::Link(_) => "line program Output destination Link is not wired into RT execution"@,
            _ => Seq::empty(),
        },
        _ => Seq::empty(),
    }
}

/// Whether a program is valid for insert bus `bus_index` of `bus_count`.
pub open spec fn line_program_valid(program: LineProgram, bus_index: usize, bus_count: usize) -> bool {
    &&& program.ops@.len() == program.current_gain@.len()
    &&& forall|i: int| 0 <= i < program.ops@.len() ==> !op_rejected(#[trigger] program.ops@[i], bus_index, bus_count)
}

/// `m` is the message reported for an invalid program: the shape mismatch, else the first
/// rejected operation (in operation order).
pub open spec fn line_program_rejection(program: LineProgram, bus_index: usize, bus_count: usize, m: Seq<char>) -> bool {
    if program.ops@.len() != program.current_gain@.len() {
        encode_utf8(m) == shape_message(program.ops@.len() as nat, program.current_gain@.len() as nat)
    } else {
        exists|i: int|
            0 <= i < program.ops@.len() && op_rejected(#[trigger] program.ops@[i], bus_index, bus_count) && (forall|j: int|
                0 <= j < i ==> !op_rejected(#[trigger] program.ops@[j], bus_index, bus_count)) && match program.ops@[i] {
                LineOp::Output(LineOutput { dest: OutputDest::Bus(t), .. }) => encode_utf8(m) == later_stage_message(
                    bus_index as nat,
                    t as nat,
                ),
                _ => m == rejection_message(program.ops@[i], bus_index),
            }
    }
}

/// Validate a program for insert bus `bus_index` of `bus_count`: one gain cell per operation; no
/// output to a render or link destination (not wired into the audio thread yet); every bus output
/// to a later stage. The first violation (in operation order) is reported.
pub fn validate_line_program(program: &LineProgram, bus_index: usize, bus_count: usize) -> (r: Result<(), OutputError>)
    ensures
        r is Ok <==> line_program_valid(*program, bus_index, bus_count),
        r is Err ==> (r matches Err(OutputError::NoConfig(m)) && line_program_rejection(*program, bus_index, bus_count, m@)),
{
    let shape = program.validate_shape();
    match shape {
        Ok(()) => {},
        Err(e) => {
            return Err(e);
        },
    }
    let mut i: usize = 0;
    while i < program.ops.len()
        invariant
            0 <= i <= program.ops@.len(),
            program.ops@.len() == program.current_gain@.len(),
            forall|j: int| 0 <= j < i ==> !op_rejected(#[trigger] program.ops@[j], bus_index, bus_count),
        decreases program.ops@.len() - i,
    {
        match program.ops[i] {
            LineOp::Output(o) => match o.dest {
                OutputDest::Render(_) => {
                    return Err(OutputError::NoConfig(String::from_str("line program Output destination Render is not wired into RT execution")));
                },
                OutputDest::Link(_) => {
                    return Err(OutputError::NoConfig(String::from_str("line program Output destination Link is not wired into RT execution")));
                },
                OutputDest::Bus(target) => {
                    if target <= bus_index || target >= bus_count {
                        let mut b: Vec<u8> = Vec::new();
                        push_str_bytes(&mut b, "insert bus index ");
                        push_decimal(&mut b, bus_index as u64);
                        push_str_bytes(&mut b, " output Bus(");
                        push_decimal(&mut b, target as u64);
                        push_str_bytes(&mut b, ") must be a later stage");
                        proof {
                            reveal_strlit("insert bus index ");
                            lemma_ascii_parts("insert bus index ");
                            reveal_strlit(" output Bus(");
                            lemma_ascii_parts(" output Bus(");
                            reveal_strlit(") must be a later stage");
                            lemma_ascii_parts(") must be a later stage");
                            lemma_decimal_ascii(bus_index as nat);
                            lemma_decimal_ascii(target as nat);
                            assert(b@ =~= later_stage_message(bus_index as nat, target as nat));
                            lemma_concat_ascii5(
                                "insert bus index ".spec_bytes(),
                                decimal_digits(bus_index as nat),
                                " output Bus(".spec_bytes(),
                                decimal_digits(target as nat),
                                ") must be a later stage".spec_bytes(),
                            );
                        }
                        return Err(OutputError::NoConfig(ascii_string(&b)));
                    }
                },
                _ => {},
            },
            _ => {},
        }
        i += 1;
    }
    Ok(())
}

/// What the topology check reads of one insert bus stage: its name and its live line program.
#[derive(Debug)]
pub struct BusStageLine {
    pub name: String,
    pub program: Option<LineProgram>,
}

/// Whether stage `index` of `count` has a program that is valid there.
pub open spec fn stage_line_valid(stage: BusStageLine, index: usize, count: usize) -> bool {
    stage.program matches Some(p) && line_program_valid(p, index, count)
}

/// `m` is the message reported for stage `index` of `count`: the missing program, or the
/// program's own rejection prefixed with the stage's name.
pub open spec fn stage_rejection(stage: BusStageLine, index: usize, count: usize, m: Seq<char>) -> bool {
    match stage.program {
        None => m == "insert bus '"@ + stage.name@ + "' has no line program"@,
        Some(p) => exists|inner: Seq<char>|
            line_program_rejection(p, index, count, inner) && m == "insert bus '"@ + stage.name@
                + "': no supported output config: "@ + inner,
    }
}

/// Check every insert bus stage's line program against the whole stage array (outputs and sends
/// only to later stages). The first invalid stage (in array order) is reported.
pub fn validate_bus_topology(stages: &[BusStageLine]) -> (r: Result<(), OutputError>)
    ensures
        r is Ok <==> forall|i: int| 0 <= i < stages@.len() ==> stage_line_valid(#[trigger] stages@[i], i as usize, stages@.len() as usize),
        r is Err ==> exists|i: int|
            0 <= i < stages@.len() && !stage_line_valid(#[trigger] stages@[i], i as usize, stages@.len() as usize) && (forall|j: int|
                0 <= j < i ==> stage_line_valid(#[trigger] stages@[j], j as usize, stages@.len() as usize)) && (r matches Err(
                OutputError::NoConfig(m),
            ) && stage_rejection(stages@[i], i as usize, stages@.len() as usize, m@)),
{
    let count = stages.len();
    let mut i: usize = 0;
    while i < count
        invariant
            0 <= i <= count,
            count == stages@.len(),
            forall|j: int| 0 <= j < i ==> stage_line_valid(#[trigger] stages@[j], j as usize, count),
        decreases count - i,
    {
        let stage = &stages[i];
        match &stage.program {
            None => {
                let mut m = String::from_str("insert bus '");
                m.append(stage.name.as_str());
                m.append("' has no line program");
                proof {
                    assert(stage_rejection(stages@[i as int], i, count, m@));
                }
                return Err(OutputError::NoConfig(m));
            },
            Some(program) => {
                let checked = validate_line_program(program, i, count);
                match checked {
                    Ok(()) => {},
                    Err(e) => {
                        let inner = match e {
                            OutputError::NoConfig(inner) => inner,
                            _ => String::new(),
                        };
                        let mut m = String::from_str("insert bus '");
                        m.append(stage.name.as_str());
                        m.append("': no supported output config: ");
                        m.append(inner.as_str());
                        proof {
                            assert(line_program_rejection(*program, i, count, inner@));
                            assert(stage_rejection(stages@[i as int], i, count, m@));
                        }
                        return Err(OutputError::NoConfig(m));
                    },
                }
            },
        }
        i += 1;
    }
    Ok(())
}

/// The destination of a line output: the first output of a program takes the legacy override
/// when one is set; later outputs keep their own.
pub fn effective_line_output_dest(first_output: &mut bool, legacy_target: Option<OutputDest>, program_target: OutputDest) -> (r: OutputDest)
    ensures
        !*final(first_output),
        *old(first_output) ==> r == match legacy_target {
            Some(t) => t,
            None => program_target,
        },
        !*old(first_output) ==> r == program_target,
{
    if *first_output {
        *first_output = false;
        match legacy_target {
            Some(t) => t,
            None => program_target,
        }
    } else {
        program_target
    }
}

/// Whether an operation ends the line: an output that does not continue down the line.
pub open spec fn stops_line(op: LineOp) -> bool {
    op matches LineOp::Output(o) && !o.thru
}

/// Whether operation `k` is reached: no earlier operation ends the line.
pub open spec fn line_reaches(ops: Seq<LineOp>, k: int) -> bool {
    forall|m: int| 0 <= m < k ==> !stops_line(#[trigger] ops[m])
}

/// Whether no output comes before operation `k`.
pub open spec fn no_output_before(ops: Seq<LineOp>, k: int) -> bool {
    forall|m: int| 0 <= m < k ==> !(#[trigger] ops[m] is Output)
}

/// The destination of output operation `k`: the legacy override, when set, replaces the first
/// output's own destination.
pub open spec fn output_dest_at(ops: Seq<LineOp>, legacy: Option<OutputDest>, k: int) -> OutputDest {
    match ops[k] {
        LineOp::Output(o) => if no_output_before(ops, k) {
            match legacy {
                Some(t) => t,
                None => o.dest,
            }
        } else {
            o.dest
        },
        _ => OutputDest::Master,
    }
}

/// Whether output operation `k` of the line is reached and sends to bus `t`.
pub open spec fn output_marks(ops: Seq<LineOp>, legacy: Option<OutputDest>, k: int, t: int) -> bool {
    &&& 0 <= k < ops.len()
    &&& ops[k] is Output
    &&& line_reaches(ops, k)
    &&& output_dest_at(ops, legacy, k) == OutputDest::Bus(t as usize)
}

/// Whether one of the first `k` operations of the line is a reached output to bus `t`.
pub open spec fn outputs_reach_bus(ops: Seq<LineOp>, legacy: Option<OutputDest>, k: int, t: int) -> bool
    decreases k,
{
    if k <= 0 {
        false
    } else {
        outputs_reach_bus(ops, legacy, k - 1, t) || output_marks(ops, legacy, k - 1, t)
    }
}

/// Whether active stage `i` feeds stage `j` in a block: a reached output of its line goes to
/// bus `j`, or its line runs to the end and its legacy send to `j` has a nonzero gain
/// (`sends[i][j - i - 1]`).
pub open spec fn feeds(
    active: Seq<bool>,
    programs: Seq<LineProgram>,
    legacy: Seq<Option<OutputDest>>,
    sends: Seq<Vec<bool>>,
    i: int,
    j: int,
) -> bool {
    let ops = programs[i].ops@;
    &&& active[i]
    &&& {
        ||| outputs_reach_bus(ops, legacy[i], ops.len() as int, j)
        ||| line_reaches(ops, ops.len() as int) && i < j && j - i - 1 < sends[i]@.len() && sends[i]@[j - i - 1]
    }
}

/// Whether one of the first `i` stages feeds stage `j`.
pub open spec fn fed_by_first(
    active: Seq<bool>,
    programs: Seq<LineProgram>,
    legacy: Seq<Option<OutputDest>>,
    sends: Seq<Vec<bool>>,
    i: int,
    j: int,
) -> bool
    decreases i,
{
    if i <= 0 {
        false
    } else {
        fed_by_first(active, programs, legacy, sends, i - 1, j) || feeds(active, programs, legacy, sends, i - 1, j)
    }
}

/// Whether stage `j` is rendered in a block: it is active, or an active stage feeds it.
pub open spec fn render_target(
    active: Seq<bool>,
    programs: Seq<LineProgram>,
    legacy: Seq<Option<OutputDest>>,
    sends: Seq<Vec<bool>>,
    j: int,
) -> bool {
    active[j] || fed_by_first(active, programs, legacy, sends, active.len() as int, j)
}

/// An output that ends the line hides every later output.
proof fn lemma_reach_stops(ops: Seq<LineOp>, legacy: Option<OutputDest>, k: int, m: int, t: int)
    requires
        0 < k <= m,
        stops_line(ops[k - 1]),
    ensures
        outputs_reach_bus(ops, legacy, m, t) == outputs_reach_bus(ops, legacy, k, t),
    decreases m - k,
{
    if m > k {
        lemma_reach_stops(ops, legacy, k, m - 1, t);
        if output_marks(ops, legacy, m - 1, t) {
            assert(!stops_line(ops[k - 1]));
        }
    }
}

/// The stages a block renders (the marking pass before execution): every active stage, and every
/// stage that an active stage feeds through a reached bus output of its line (the legacy override
/// replacing the first output's destination) or, when its line runs to the end, through a legacy
/// send with a nonzero gain. `sends[i][o]` tells whether stage `i`'s send to stage `i + 1 + o`
/// is nonzero. Every bus that an active stage feeds must be a stage.
pub fn mark_render_targets(
    active: &[bool],
    programs: &[LineProgram],
    legacy: &[Option<OutputDest>],
    sends: &[Vec<bool>],
) -> (r: ArrayVec<bool, MAX_INSERT_BUS_STAGES>)
    requires
        active@.len() <= MAX_INSERT_BUS_STAGES,
        programs@.len() == active@.len(),
        legacy@.len() == active@.len(),
        sends@.len() == active@.len(),
        forall|i: int, k: int, t: int|
            0 <= i < active@.len() && active@[i] && #[trigger] output_marks(programs@[i].ops@, legacy@[i], k, t) ==> t
                < active@.len(),
        forall|i: int| 0 <= i < active@.len() && active@[i] ==> i + 1 + (#[trigger] sends@[i])@.len() <= active@.len(),
    ensures
        stage_flags(r).len() == active@.len(),
        forall|j: int| 0 <= j < active@.len() ==> stage_flags(r)[j] == render_target(active@, programs@, legacy@, sends@, j),
{
    let n = active.len();
    let mut targets = new_flags();
    let mut c: usize = 0;
    while c < n
        invariant
            0 <= c <= n,
            n == active@.len(),
            n <= MAX_INSERT_BUS_STAGES,
            stage_flags(targets) == active@.subrange(0, c as int),
        decreases n - c,
    {
        push_flag(&mut targets, active[c]);
        c += 1;
        proof {
            assert(stage_flags(targets) =~= active@.subrange(0, c as int));
        }
    }
    let mut i: usize = 0;
    while i < n
        invariant
            0 <= i <= n,
            n == active@.len(),
            programs@.len() == n,
            legacy@.len() == n,
            sends@.len() == n,
            stage_flags(targets).len() == n,
            forall|i2: int, k: int, t: int|
                0 <= i2 < n && active@[i2] && #[trigger] output_marks(programs@[i2].ops@, legacy@[i2], k, t) ==> t < n,
            forall|i2: int| 0 <= i2 < n && active@[i2] ==> i2 + 1 + (#[trigger] sends@[i2])@.len() <= n,
            forall|j: int|
                0 <= j < n ==> #[trigger] stage_flags(targets)[j] == (active@[j] || fed_by_first(
                    active@,
                    programs@,
                    legacy@,
                    sends@,
                    i as int,
                    j,
                )),
        decreases n - i,
    {
        let ghost before = stage_flags(targets);
        if active[i] {
            let program = &programs[i];
            let ghost ops = program.ops@;
            let ghost lg = legacy@[i as int];
            let mut first = true;
            let mut reached = true;
            let mut k: usize = 0;
            while k < program.ops.len() && reached
                invariant
                    0 <= k <= ops.len(),
                    ops == program.ops@,
                    ops == programs@[i as int].ops@,
                    lg == legacy@[i as int],
                    active@[i as int],
                    n == active@.len(),
                    stage_flags(targets).len() == n,
                    i < n,
                    legacy@.len() == n,
                    forall|k2: int, t: int| #[trigger] output_marks(ops, lg, k2, t) ==> t < n,
                    first == no_output_before(ops, k as int),
                    reached ==> line_reaches(ops, k as int),
                    !reached ==> 0 < k && stops_line(ops[k - 1]),
                    forall|j: int| 0 <= j < n ==> #[trigger] stage_flags(targets)[j] == (before[j] || outputs_reach_bus(ops, lg, k as int, j)),
                decreases ops.len() - k,
            {
                let ghost t0 = stage_flags(targets);
                let op = program.ops[k];
                match op {
                    LineOp::Output(o) => {
                        let dest = effective_line_output_dest(&mut first, legacy[i], o.dest);
                        proof {
                            assert(dest == output_dest_at(ops, lg, k as int));
                        }
                        match dest {
                            OutputDest::Bus(t) => {
                                proof {
                                    assert(output_marks(ops, lg, k as int, t as int));
                                }
                                set_flag(&mut targets, t, true);
                                proof {
                                    assert forall|j: int| 0 <= j < n implies #[trigger] stage_flags(targets)[j] == (before[j]
                                        || outputs_reach_bus(ops, lg, k + 1, j)) by {
                                        assert(output_marks(ops, lg, k as int, j) <==> j == t);
                                    }
                                }
                            },
                            _ => {
                                proof {
                                    assert forall|j: int| 0 <= j < n implies #[trigger] stage_flags(targets)[j] == (before[j]
                                        || outputs_reach_bus(ops, lg, k + 1, j)) by {
                                        assert(!output_marks(ops, lg, k as int, j));
                                    }
                                }
                            },
                        }
                        if !o.thru {
                            reached = false;
                        }
                        proof {
                            assert(!no_output_before(ops, k + 1)) by {
                                assert(ops[k as int] is Output);
                            }
                        }
                    },
                    _ => {
                        proof {
                            assert forall|j: int| 0 <= j < n implies #[trigger] stage_flags(targets)[j] == (before[j]
                                || outputs_reach_bus(ops, lg, k + 1, j)) by {
                                assert(!output_marks(ops, lg, k as int, j));
                            }
                            assert(no_output_before(ops, k + 1) == no_output_before(ops, k as int)) by {
                                assert(!(ops[k as int] is Output));
                            }
                        }
                    },
                }
                proof {
                    if reached {
                        assert(!stops_line(ops[k as int]));
                        assert(line_reaches(ops, k + 1));
                    }
                }
                k += 1;
            }
            proof {
                assert forall|j: int| 0 <= j < n implies #[trigger] stage_flags(targets)[j] == (before[j] || outputs_reach_bus(
                    ops,
                    lg,
                    ops.len() as int,
                    j,
                )) by {
                    if !reached {
                        lemma_reach_stops(ops, lg, k as int, ops.len() as int, j);
                    }
                }
            }
            if reached {
                let row = &sends[i];
                let mut o: usize = 0;
                while o < row.len()
                    invariant
                        0 <= o <= row@.len(),
                        row@ == sends@[i as int]@,
                        i + 1 + row@.len() <= n,
                        stage_flags(targets).len() == n,
                        forall|j: int|
                            0 <= j < n ==> #[trigger] stage_flags(targets)[j] == (before[j] || outputs_reach_bus(
                                ops,
                                lg,
                                ops.len() as int,
                                j,
                            ) || (i < j && j - i - 1 < o && row@[j - i - 1])),
                    decreases row@.len() - o,
                {
                    if row[o] {
                        set_flag(&mut targets, i + 1 + o, true);
                    }
                    o += 1;
                }
            }
            proof {
                assert forall|j: int| 0 <= j < n implies #[trigger] stage_flags(targets)[j] == (before[j] || feeds(
                    active@,
                    programs@,
                    legacy@,
                    sends@,
                    i as int,
                    j,
                )) by {}
            }
        }
        proof {
            assert forall|j: int| 0 <= j < n implies #[trigger] stage_flags(targets)[j] == (active@[j] || fed_by_first(
                active@,
                programs@,
                legacy@,
                sends@,
                i + 1,
                j,
            )) by {}
        }
        i += 1;
    }
    targets
}

/// Where a rendered source unit's block goes.
#[derive(Debug, Clone, Copy, PartialEq, Eq, Structural)]
pub enum FeedRoute {
    Discard,
    Hardware,
    /// The render target at this position.
    Channel(usize),
}

/// The route of a unit sent to `dest`, given each bus's position among the render targets: a bus
/// that is not a render target, and every link destination (not wired yet), are silence.
pub open spec fn feed_route_spec(dest: SourceDest, positions: Seq<Option<usize>>) -> FeedRoute {
    match dest {
        SourceDest::Silence => FeedRoute::Discard,
        SourceDest::Master => FeedRoute::Hardware,
        SourceDest::Bus(i) => if i < positions.len() {
            match positions[i as int] {
                Some(p) => FeedRoute::Channel(p),
                None => FeedRoute::Discard,
            }
        } else {
            FeedRoute::Discard
        },
        SourceDest::Link(_) => FeedRoute::Discard,
    }
}

/// The route of a unit sent to `dest`.
pub fn source_feed_route(dest: SourceDest, bus_positions: &[Option<usize>]) -> (r: FeedRoute)
    ensures
        r == feed_route_spec(dest, bus_positions@),
{
    match dest {
        SourceDest::Silence => FeedRoute::Discard,
        SourceDest::Master => FeedRoute::Hardware,
        SourceDest::Bus(i) => {
            if i < bus_positions.len() {
                match bus_positions[i] {
                    Some(p) => FeedRoute::Channel(p),
                    None => FeedRoute::Discard,
                }
            } else {
                FeedRoute::Discard
            }
        },
        SourceDest::Link(_) => FeedRoute::Discard,
    }
}

/// Number of active stages among the first `i`.
pub open spec fn active_before(active: Seq<bool>, i: int) -> nat
    decreases i,
{
    if i <= 0 {
        0
    } else {
        active_before(active, i - 1) + if active[i - 1] {
            1nat
        } else {
            0nat
        }
    }
}

/// Each stage's position among the render targets of a block: the active stages take the first
/// positions in stage order; an inactive stage has none.
pub fn bus_target_positions(active: &[bool]) -> (r: ArrayVec<Option<usize>, MAX_INSERT_BUS_STAGES>)
    requires
        active@.len() <= MAX_INSERT_BUS_STAGES,
    ensures
        stage_positions(r).len() == active@.len(),
        forall|i: int|
            0 <= i < active@.len() ==> #[trigger] stage_positions(r)[i] == if active@[i] {
                Some(active_before(active@, i) as usize)
            } else {
                None
            },
{
    let mut positions = new_positions();
    let mut count: usize = 0;
    let mut i: usize = 0;
    while i < active.len()
        invariant
            0 <= i <= active@.len(),
            active@.len() <= MAX_INSERT_BUS_STAGES,
            stage_positions(positions).len() == i,
            count == active_before(active@, i as int),
            count <= i,
            forall|j: int|
                0 <= j < i ==> #[trigger] stage_positions(positions)[j] == if active@[j] {
                    Some(active_before(active@, j) as usize)
                } else {
                    None
                },
        decreases active@.len() - i,
    {
        if active[i] {
            push_position(&mut positions, Some(count));
            count += 1;
        } else {
            push_position(&mut positions, None);
        }
        i += 1;
    }
    positions
}

/// The units of a slot that take part in a block: what the source reported, at most the units
/// the output accepts and at most the destinations the slot has.
pub fn rendered_unit_count(reported: usize, dest_count: usize) -> (r: usize)
    ensures
        r <= reported,
        r <= MAX_SOURCE_UNITS,
        r <= dest_count,
        r == reported || r == MAX_SOURCE_UNITS || r == dest_count,
{
    let mut r = reported;
    if r > MAX_SOURCE_UNITS {
        r = MAX_SOURCE_UNITS;
    }
    if r > dest_count {
        r = dest_count;
    }
    r
}

/// The feeds of slot `slot` among its first `u` units, in unit order, without the discarded ones.
pub open spec fn unit_feeds(cells: Seq<SourceDestCell>, slot: int, positions: Seq<Option<usize>>, u: int) -> Seq<
    (usize, usize, FeedRoute),
>
    decreases u,
{
    if u <= 0 {
        Seq::empty()
    } else {
        let prev = unit_feeds(cells, slot, positions, u - 1);
        let route = feed_route_spec(decode_dest_spec(cells[u - 1].value), positions);
        if route == FeedRoute::Discard {
            prev
        } else {
            prev.push((slot as usize, (u - 1) as usize, route))
        }
    }
}

/// The feeds of the first `s` slots, slot by slot.
pub open spec fn source_feeds(
    dests: Seq<Vec<SourceDestCell>>,
    units: Seq<usize>,
    positions: Seq<Option<usize>>,
    s: int,
) -> Seq<(usize, usize, FeedRoute)>
    decreases s,
{
    if s <= 0 {
        Seq::empty()
    } else {
        source_feeds(dests, units, positions, s - 1) + unit_feeds(dests[s - 1]@, s - 1, positions, units[s - 1] as int)
    }
}

/// The feeds of a block as `(slot, unit, route)`: for every slot (paired with its rendered unit
/// count) and every rendered unit in order, the unit's route, discarded units left out.
pub fn collect_source_feeds(dests: &[Vec<SourceDestCell>], rendered_units: &[usize], bus_positions: &[Option<usize>]) -> (r:
    ArrayVec<(usize, usize, FeedRoute), MAX_SOURCE_FEEDS>)
    requires
        dests@.len() <= MAX_SOURCE_SLOTS || rendered_units@.len() <= MAX_SOURCE_SLOTS,
        forall|s: int| 0 <= s < rendered_units@.len() ==> #[trigger] rendered_units@[s] <= MAX_SOURCE_UNITS,
        forall|s: int|
            0 <= s < dests@.len() && 0 <= s < rendered_units@.len() ==> #[trigger] rendered_units@[s] <= dests@[s]@.len(),
    ensures
        feed_items(r) == source_feeds(
            dests@,
            rendered_units@,
            bus_positions@,
            if dests@.len() < rendered_units@.len() {
                dests@.len() as int
            } else {
                rendered_units@.len() as int
            },
        ),
{
    let slots = if dests.len() < rendered_units.len() {
        dests.len()
    } else {
        rendered_units.len()
    };
    let mut feeds = new_feeds();
    let mut s: usize = 0;
    while s < slots
        invariant
            0 <= s <= slots,
            slots <= dests@.len(),
            slots <= rendered_units@.len(),
            slots <= MAX_SOURCE_SLOTS,
            forall|s2: int| 0 <= s2 < rendered_units@.len() ==> #[trigger] rendered_units@[s2] <= MAX_SOURCE_UNITS,
            feed_items(feeds).len() <= s * MAX_SOURCE_UNITS,
            forall|s2: int|
                0 <= s2 < dests@.len() && 0 <= s2 < rendered_units@.len() ==> #[trigger] rendered_units@[s2] <= dests@[s2]@.len(),
            feed_items(feeds) == source_feeds(dests@, rendered_units@, bus_positions@, s as int),
        decreases slots - s,
    {
        let cells = &dests[s];
        let count = rendered_units[s];
        let ghost base = feed_items(feeds);
        let mut u: usize = 0;
        while u < count
            invariant
                0 <= u <= count,
                count <= cells@.len(),
                count <= MAX_SOURCE_UNITS,
                s < slots <= MAX_SOURCE_SLOTS,
                feed_items(feeds).len() <= s * MAX_SOURCE_UNITS + u,
                cells@ == dests@[s as int]@,
                feed_items(feeds) == base + unit_feeds(cells@, s as int, bus_positions@, u as int),
            decreases count - u,
        {
            let route = source_feed_route(cells[u].load(), bus_positions);
            match route {
                FeedRoute::Discard => {},
                _ => {
                    push_feed(&mut feeds, (s, u, route));
                },
            }
            proof {
                assert(feed_items(feeds) =~= base + unit_feeds(cells@, s as int, bus_positions@, u + 1));
            }
            u += 1;
        }
        s += 1;
    }
    proof {
        assert(s == slots);
    }
    feeds
}

/// Advance the block position by one callback of `frames` frames (saturating).
pub fn advance_block_transport(transport: &mut BlockTransport, frames: u64)
    ensures
        final(transport).sample_rate == old(transport).sample_rate,
        final(transport).cursor_frames == if old(transport).cursor_frames + frames > u64::MAX {
            u64::MAX as int
        } else {
            old(transport).cursor_frames + frames
        },
{
    transport.cursor_frames = transport.cursor_frames.saturating_add(frames);
}

/// Message of too many source slots.
pub open spec fn too_many_slots_message(n: nat) -> Seq<u8> {
    "too many source slots: ".spec_bytes() + decimal_digits(n) + " (max 32)".spec_bytes()
}

/// Message of too many output units in one slot.
pub open spec fn too_many_units_message(slot: nat, n: nat) -> Seq<u8> {
    "source slot ".spec_bytes() + decimal_digits(slot) + " has too many output units: ".spec_bytes() + decimal_digits(n)
        + " (max 16)".spec_bytes()
}

/// Reject more source slots, or more output units in one slot, than the output accepts.
/// `unit_counts` holds the number of output units of each slot; the first violation is reported.
pub fn validate_source_slots(unit_counts: &[usize]) -> (r: Result<(), OutputError>)
    ensures
        unit_counts@.len() > MAX_SOURCE_SLOTS ==> (r matches Err(OutputError::NoConfig(m)) && encode_utf8(m@)
            == too_many_slots_message(unit_counts@.len() as nat)),
        unit_counts@.len() <= MAX_SOURCE_SLOTS ==> {
            &&& r is Ok <==> forall|i: int| 0 <= i < unit_counts@.len() ==> #[trigger] unit_counts@[i] <= MAX_SOURCE_UNITS
            &&& r is Err ==> exists|i: int|
                0 <= i < unit_counts@.len() && #[trigger] unit_counts@[i] > MAX_SOURCE_UNITS && (forall|j: int|
                    0 <= j < i ==> #[trigger] unit_counts@[j] <= MAX_SOURCE_UNITS) && (r matches Err(OutputError::NoConfig(m))
                    && encode_utf8(m@) == too_many_units_message(i as nat, unit_counts@[i] as nat))
        },
{
    if unit_counts.len() > MAX_SOURCE_SLOTS {
        let mut b: Vec<u8> = Vec::new();
        push_str_bytes(&mut b, "too many source slots: ");
        push_decimal(&mut b, unit_counts.len() as u64);
        push_str_bytes(&mut b, " (max 32)");
        proof {
            reveal_strlit("too many source slots: ");
            lemma_ascii_parts("too many source slots: ");
            reveal_strlit(" (max 32)");
            lemma_ascii_parts(" (max 32)");
            lemma_decimal_ascii(unit_counts@.len() as nat);
            assert(b@ =~= too_many_slots_message(unit_counts@.len() as nat));
            lemma_concat_ascii5(
                "too many source slots: ".spec_bytes(),
                decimal_digits(unit_counts@.len() as nat),
                " (max 32)".spec_bytes(),
                Seq::empty(),
                Seq::empty(),
            );
            assert(b@ =~= "too many source slots: ".spec_bytes() + decimal_digits(unit_counts@.len() as nat)
                + " (max 32)".spec_bytes() + Seq::<u8>::empty() + Seq::<u8>::empty());
        }
        return Err(OutputError::NoConfig(ascii_string(&b)));
    }
    let mut slot: usize = 0;
    while slot < unit_counts.len()
        invariant
            0 <= slot <= unit_counts@.len(),
            unit_counts@.len() <= MAX_SOURCE_SLOTS,
            forall|i: int| 0 <= i < slot ==> #[trigger] unit_counts@[i] <= MAX_SOURCE_UNITS,
        decreases unit_counts@.len() - slot,
    {
        if unit_counts[slot] > MAX_SOURCE_UNITS {
            let mut b: Vec<u8> = Vec::new();
            push_str_bytes(&mut b, "source slot ");
            push_decimal(&mut b, slot as u64);
            push_str_bytes(&mut b, " has too many output units: ");
            push_decimal(&mut b, unit_counts[slot] as u64);
            push_str_bytes(&mut b, " (max 16)");
            proof {
                reveal_strlit("source slot ");
                lemma_ascii_parts("source slot ");
                reveal_strlit(" has too many output units: ");
                lemma_ascii_parts(" has too many output units: ");
                reveal_strlit(" (max 16)");
                lemma_ascii_parts(" (max 16)");
                lemma_decimal_ascii(slot as nat);
                lemma_decimal_ascii(unit_counts@[slot as int] as nat);
                assert(b@ =~= too_many_units_message(slot as nat, unit_counts@[slot as int] as nat));
                lemma_concat_ascii5(
                    "source slot ".spec_bytes(),
                    decimal_digits(slot as nat),
                    " has too many output units: ".spec_bytes(),
                    decimal_digits(unit_counts@[slot as int] as nat),
                    " (max 16)".spec_bytes(),
                );
            }
            return Err(OutputError::NoConfig(ascii_string(&b)));
        }
        slot += 1;
    }
    Ok(())
}

} // verus!
