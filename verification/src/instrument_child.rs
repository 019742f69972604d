//! The per-block decision of the fixture instrument child. The events that the spill FIFO
//! carried over go first; then every note-off the block was handed is answered by a note-end for
//! the same voice (the first note-off also by a configured burst of extra copies). Each note-end
//! goes into the block's output window while it has room, then into the spill FIFO, and is
//! dropped and counted when both are full.

use crate::event_rings::{at_block_start, is_note_end, push_output, EventSpillFifo, EVENT_SPILL_CAPACITY};
use crate::events::{lemma_decode_inverts_encode, record_decodes_to, record_encodes, EventRecord, NeutralEvent, VoiceAddr};
use vstd::prelude::*;

verus! {

/// What one block of the instrument child reports.
#[derive(Debug, Clone, Copy, PartialEq, Eq)]
pub struct ChildBlockReport {
    /// Output events the window holds.
    pub written: usize,
    /// Note-ends that fit neither the window nor the spill FIFO.
    pub dropped: u64,
    /// Dropped note-ends that the spill FIFO's sticky flag reported.
    pub note_end_dropped: u64,
    /// Input records that do not decode.
    pub decode_errors: u64,
}

/// The note-end that answers a note-off of `addr`.
pub open spec fn note_end_for(addr: VoiceAddr) -> NeutralEvent {
    NeutralEvent::NoteEnd { sample_offset: 0, addr }
}

/// Whether a record decodes to a note-off.
pub open spec fn is_note_off_record(r: EventRecord) -> bool {
    record_decodes_to(r) matches Some(NeutralEvent::NoteOff { .. })
}

/// Whether some record of `inputs` is a note-off.
pub open spec fn has_note_off(inputs: Seq<EventRecord>) -> bool {
    exists|i: int| 0 <= i < inputs.len() && is_note_off_record(#[trigger] inputs[i])
}

/// The note-ends a block answers `inputs` with, in order: one per note-off, and `burst` more
/// copies of the first.
pub open spec fn block_note_ends(inputs: Seq<EventRecord>, burst: nat) -> Seq<NeutralEvent>
    decreases inputs.len(),
{
    if inputs.len() == 0 {
        Seq::empty()
    } else {
        let prev = block_note_ends(inputs.drop_last(), burst);
        match record_decodes_to(inputs.last()) {
            Some(NeutralEvent::NoteOff { addr, .. }) => prev + Seq::new(
                if has_note_off(inputs.drop_last()) {
                    1nat
                } else {
                    burst + 1
                },
                |i: int| note_end_for(addr),
            ),
            _ => prev,
        }
    }
}

/// How many records of `inputs` do not decode.
pub open spec fn decode_failures(inputs: Seq<EventRecord>) -> nat
    decreases inputs.len(),
{
    if inputs.len() == 0 {
        0
    } else {
        decode_failures(inputs.drop_last()) + if record_decodes_to(inputs.last()) is None {
            1nat
        } else {
            0nat
        }
    }
}

/// How many of `p` events placed from position `w0` on fit a window of `len` records.
pub open spec fn into_window(len: int, w0: int, p: int) -> int {
    if len - w0 < p {
        len - w0
    } else {
        p
    }
}

/// How many of `rest` events fit a spill FIFO that holds `s0`.
pub open spec fn into_spill(s0: int, rest: int) -> int {
    if EVENT_SPILL_CAPACITY - s0 < rest {
        EVENT_SPILL_CAPACITY - s0
    } else {
        rest
    }
}

/// Whether placing `events` in order, from position `w0` of `window0` and behind `spill0`, gives
/// the window `window` holding `written` events, the spill `spill` and `dropped` drops: the window
/// takes the first ones while it has room, the spill the next ones while it has room, the rest is
/// dropped.
pub open spec fn placed(
    window0: Seq<EventRecord>,
    w0: int,
    spill0: Seq<EventRecord>,
    events: Seq<NeutralEvent>,
    window: Seq<EventRecord>,
    written: int,
    spill: Seq<EventRecord>,
    dropped: int,
) -> bool {
    let k = into_window(window0.len() as int, w0, events.len() as int);
    let m = into_spill(spill0.len() as int, events.len() - k);
    &&& 0 <= w0 <= window0.len()
    &&& spill0.len() <= EVENT_SPILL_CAPACITY
    &&& window.len() == window0.len()
    &&& written == w0 + k
    &&& forall|i: int| 0 <= i < window.len() && !(w0 <= i < w0 + k) ==> #[trigger] window[i] == window0[i]
    &&& forall|i: int| 0 <= i < k ==> record_encodes(#[trigger] window[w0 + i], events[i])
    &&& spill.len() == spill0.len() + m
    &&& spill.subrange(0, spill0.len() as int) == spill0
    &&& forall|j: int| 0 <= j < m ==> record_encodes(#[trigger] spill[spill0.len() + j], events[k + j])
    &&& dropped == events.len() - k - m
}

/// The window after the spill FIFO holding `carried` was drained into `window`.
pub open spec fn drained_window(window: Seq<EventRecord>, carried: Seq<EventRecord>) -> Seq<EventRecord> {
    Seq::new(
        window.len(),
        |j: int|
            if j < carried.len() {
                at_block_start(carried[j])
            } else {
                window[j]
            },
    )
}

/// How many carried events a window of `len` records takes.
pub open spec fn drained_count(len: int, carried: int) -> int {
    if carried < len {
        carried
    } else {
        len
    }
}

proof fn lemma_place_one(
    window0: Seq<EventRecord>,
    w0: int,
    spill0: Seq<EventRecord>,
    events: Seq<NeutralEvent>,
    e: NeutralEvent,
    record: EventRecord,
    window: Seq<EventRecord>,
    written: int,
    spill: Seq<EventRecord>,
    dropped: int,
    window2: Seq<EventRecord>,
    written2: int,
    spill2: Seq<EventRecord>,
    dropped2: int,
)
    requires
        placed(window0, w0, spill0, events, window, written, spill, dropped),
        record_encodes(record, e),
        written < window.len() ==> {
            &&& window2 == window.update(written, record)
            &&& written2 == written + 1
            &&& spill2 == spill
            &&& dropped2 == dropped
        },
        written >= window.len() ==> {
            &&& window2 == window
            &&& written2 == written
            &&& spill.len() < EVENT_SPILL_CAPACITY ==> spill2 == spill.push(record) && dropped2 == dropped
            &&& spill.len() >= EVENT_SPILL_CAPACITY ==> spill2 == spill && dropped2 == dropped + 1
        },
    ensures
        placed(window0, w0, spill0, events.push(e), window2, written2, spill2, dropped2),
{
    let p = events.len() as int;
    let k = into_window(window0.len() as int, w0, p);
    let m = into_spill(spill0.len() as int, p - k);
    let ev2 = events.push(e);
    let k2 = into_window(window0.len() as int, w0, p + 1);
    let m2 = into_spill(spill0.len() as int, p + 1 - k2);
    if written < window.len() {
        assert(k2 == k + 1 && k == p);
        assert(m == 0 && m2 == 0);
        assert forall|i: int| 0 <= i < k2 implies record_encodes(#[trigger] window2[w0 + i], ev2[i]) by {
            if i < k {
                assert(window2[w0 + i] == window[w0 + i]);
            }
        }
        assert forall|i: int| 0 <= i < window2.len() && !(w0 <= i < w0 + k2) implies #[trigger] window2[i] == window0[i] by {
            assert(window2[i] == window[i]);
        }
    } else {
        assert(k2 == k);
        assert forall|i: int| 0 <= i < k2 implies record_encodes(#[trigger] window2[w0 + i], ev2[i]) by {
            assert(window2[w0 + i] == window[w0 + i]);
        }
        if spill.len() < EVENT_SPILL_CAPACITY {
            assert(m == p - k);
            assert(m2 == m + 1);
            assert(spill2.subrange(0, spill0.len() as int) =~= spill.subrange(0, spill0.len() as int));
            assert forall|j: int| 0 <= j < m2 implies record_encodes(#[trigger] spill2[spill0.len() + j], ev2[k2 + j]) by {
                if j < m {
                    assert(spill2[spill0.len() + j] == spill[spill0.len() + j]);
                }
            }
        } else {
            assert(m == EVENT_SPILL_CAPACITY - spill0.len());
            assert(m2 == m);
            assert forall|j: int| 0 <= j < m2 implies record_encodes(#[trigger] spill2[spill0.len() + j], ev2[k2 + j]) by {
                assert(spill[spill0.len() + j] == spill2[spill0.len() + j]);
            }
        }
    }
}

proof fn lemma_note_ends_len(inputs: Seq<EventRecord>, burst: nat)
    ensures
        block_note_ends(inputs, burst).len() <= inputs.len() + if has_note_off(inputs) {
            burst
        } else {
            0
        },
    decreases inputs.len(),
{
    if inputs.len() > 0 {
        let prefix = inputs.drop_last();
        lemma_note_ends_len(prefix, burst);
        if has_note_off(prefix) {
            let i = choose|i: int| 0 <= i < prefix.len() && is_note_off_record(#[trigger] prefix[i]);
            assert(inputs[i] == prefix[i]);
        }
        if is_note_off_record(inputs.last()) {
            assert(is_note_off_record(inputs[inputs.len() - 1]));
        }
    }
}

proof fn lemma_take_push(inputs: Seq<EventRecord>, idx: int)
    requires
        0 <= idx < inputs.len(),
    ensures
        inputs.take(idx + 1).drop_last() == inputs.take(idx),
        inputs.take(idx + 1).last() == inputs[idx],
        has_note_off(inputs.take(idx + 1)) == (has_note_off(inputs.take(idx)) || is_note_off_record(inputs[idx])),
{
    assert(inputs.take(idx + 1).drop_last() =~= inputs.take(idx));
    let t = inputs.take(idx + 1);
    if has_note_off(inputs.take(idx)) {
        let i = choose|i: int| 0 <= i < idx && is_note_off_record(#[trigger] inputs.take(idx)[i]);
        assert(t[i] == inputs.take(idx)[i]);
    }
    if is_note_off_record(inputs[idx]) {
        assert(is_note_off_record(t[idx]));
    }
    if has_note_off(t) {
        let i = choose|i: int| 0 <= i < t.len() && is_note_off_record(#[trigger] t[i]);
        if i < idx {
            assert(inputs.take(idx)[i] == t[i]);
        }
    }
}

/// Place one note-end record (see [`push_output`]) and count a drop, with the note-end drop the
/// spill FIFO's flag reports.
fn place_note_end(
    spill: &mut EventSpillFifo,
    window: &mut [EventRecord],
    written: &mut usize,
    report: &mut ChildBlockReport,
    record: EventRecord,
)
    requires
        old(spill).wf(),
        is_note_end(record),
        old(report).dropped < u64::MAX,
        old(report).note_end_dropped < u64::MAX,
    ensures
        final(spill).wf(),
        final(window)@.len() == old(window)@.len(),
        final(report).written == old(report).written,
        final(report).decode_errors == old(report).decode_errors,
        *old(written) < old(window)@.len() ==> {
            &&& final(window)@ == old(window)@.update(*old(written) as int, record)
            &&& *final(written) == *old(written) + 1
            &&& final(spill).contents() == old(spill).contents()
            &&& final(spill).note_end_dropped_flag() == old(spill).note_end_dropped_flag()
            &&& final(report).dropped == old(report).dropped
            &&& final(report).note_end_dropped == old(report).note_end_dropped
        },
        *old(written) >= old(window)@.len() ==> {
            &&& final(window)@ == old(window)@
            &&& *final(written) == *old(written)
            &&& old(spill).contents().len() < EVENT_SPILL_CAPACITY ==> {
                &&& final(spill).contents() == old(spill).contents().push(record)
                &&& final(spill).note_end_dropped_flag() == old(spill).note_end_dropped_flag()
                &&& final(report).dropped == old(report).dropped
                &&& final(report).note_end_dropped == old(report).note_end_dropped
            }
            &&& old(spill).contents().len() >= EVENT_SPILL_CAPACITY ==> {
                &&& final(spill).contents() == old(spill).contents()
                &&& !final(spill).note_end_dropped_flag()
                &&& final(report).dropped == old(report).dropped + 1
                &&& final(report).note_end_dropped == old(report).note_end_dropped + 1
            }
        },
{
    if !push_output(spill, window, written, record) {
        report.dropped = report.dropped + 1;
        if spill.take_note_end_dropped() {
            report.note_end_dropped = report.note_end_dropped + 1;
        }
    }
}

/// One block of the instrument child. The spill FIFO is drained into the front of `window`;
/// then each note-off among `inputs` is answered, in order, by a note-end for its voice at the
/// block start, the first one `*burst_pending` more times (the burst is then used up). Each
/// note-end takes the next free position of the window, else a place in the spill FIFO, else it
/// is dropped: every drop is counted, and reported as a dropped note-end. Records that do not
/// decode are counted.
pub fn answer_block(
    spill: &mut EventSpillFifo,
    burst_pending: &mut usize,
    inputs: &[EventRecord],
    window: &mut [EventRecord],
) -> (r: ChildBlockReport)
    requires
        old(spill).wf(),
        inputs@.len() + *old(burst_pending) < u64::MAX,
    ensures
        final(spill).wf(),
        ({
            let carried = old(spill).contents();
            let n = drained_count(old(window)@.len() as int, carried.len() as int);
            let events = block_note_ends(inputs@, *old(burst_pending) as nat);
            &&& placed(
                drained_window(old(window)@, carried.subrange(0, n)),
                n,
                carried.subrange(n, carried.len() as int),
                events,
                final(window)@,
                r.written as int,
                final(spill).contents(),
                r.dropped as int,
            )
            &&& r.note_end_dropped == r.dropped
            &&& r.decode_errors == decode_failures(inputs@)
            &&& *final(burst_pending) == if has_note_off(inputs@) {
                0
            } else {
                *old(burst_pending)
            }
            &&& final(spill).note_end_dropped_flag() == if r.dropped > 0 {
                false
            } else {
                old(spill).note_end_dropped_flag()
            }
        }),
{
    let ghost carried = spill.contents();
    let ghost window_in = window@;
    let drained = spill.drain_into_window(window);
    let ghost window0 = window@;
    let ghost spill0 = spill.contents();
    let ghost flag0 = spill.note_end_dropped_flag();
    let ghost burst0 = *burst_pending;
    proof {
        assert(window0 =~= drained_window(window_in, carried.subrange(0, drained as int))) by {
            assert forall|j: int| drained <= j < window0.len() implies window0[j] == window_in[j] by {
                assert(window0.subrange(drained as int, window0.len() as int)[j - drained] == window_in.subrange(
                    drained as int,
                    window_in.len() as int,
                )[j - drained]);
            }
        }
        spill.lemma_capacity();
        assert(spill0.subrange(0, spill0.len() as int) =~= spill0);
        assert(inputs@.take(0) =~= Seq::<EventRecord>::empty());
    }
    let mut written = drained;
    let mut report = ChildBlockReport { written: 0, dropped: 0, note_end_dropped: 0, decode_errors: 0 };
    let ghost mut pushed: Seq<NeutralEvent> = Seq::empty();
    let mut idx: usize = 0;
    while idx < inputs.len()
        invariant
            spill.wf(),
            0 <= idx <= inputs@.len(),
            inputs@.len() + burst0 < u64::MAX,
            placed(window0, drained as int, spill0, pushed, window@, written as int, spill.contents(), report.dropped as int),
            pushed == block_note_ends(inputs@.take(idx as int), burst0 as nat),
            *burst_pending == if has_note_off(inputs@.take(idx as int)) {
                0
            } else {
                burst0
            },
            report.written == 0,
            report.note_end_dropped == report.dropped,
            report.decode_errors == decode_failures(inputs@.take(idx as int)),
            report.decode_errors <= idx,
            report.dropped > 0 ==> !spill.note_end_dropped_flag(),
            report.dropped == 0 ==> spill.note_end_dropped_flag() == flag0,
        decreases inputs@.len() - idx,
    {
        proof {
            lemma_take_push(inputs@, idx as int);
            lemma_note_ends_len(inputs@.take(idx as int), burst0 as nat);
        }
        let ghost before = pushed;
        let decoded = inputs[idx].decode();
        match decoded {
            Some(NeutralEvent::NoteOff { addr, .. }) => {
                let ghost e = note_end_for(addr);
                let record = EventRecord::encode(&NeutralEvent::NoteEnd { sample_offset: 0, addr });
                proof {
                    lemma_decode_inverts_encode(e);
                }
                let extra = *burst_pending;
                *burst_pending = 0;
                let ghost (w1, n1, s1, d1) = (window@, written as int, spill.contents(), report.dropped as int);
                place_note_end(spill, window, &mut written, &mut report, record);
                proof {
                    lemma_place_one(window0, drained as int, spill0, pushed, e, record, w1, n1, s1, d1, window@, written as int, spill.contents(), report.dropped as int);
                    pushed = pushed.push(e);
                    assert(pushed =~= before + Seq::new(1nat, |i: int| e));
                }
                let mut j: usize = 0;
                while j < extra
                    invariant
                        spill.wf(),
                        0 <= j <= extra,
                        extra == (if has_note_off(inputs@.take(idx as int)) { 0 } else { burst0 }),
                        before.len() + extra <= idx + burst0,
                        inputs@.len() + burst0 < u64::MAX,
                        idx < inputs@.len(),
                        record_encodes(record, e),
                        is_note_end(record),
                        pushed == before + Seq::new((j + 1) as nat, |i: int| e),
                        placed(window0, drained as int, spill0, pushed, window@, written as int, spill.contents(), report.dropped as int),
                        report.written == 0,
                        report.note_end_dropped == report.dropped,
                        report.decode_errors == decode_failures(inputs@.take(idx as int)),
                        report.decode_errors <= idx,
                        report.dropped > 0 ==> !spill.note_end_dropped_flag(),
                        report.dropped == 0 ==> spill.note_end_dropped_flag() == flag0,
                    decreases extra - j,
                {
                    let ghost (w1, n1, s1, d1) = (window@, written as int, spill.contents(), report.dropped as int);
                    place_note_end(spill, window, &mut written, &mut report, record);
                    proof {
                        lemma_place_one(window0, drained as int, spill0, pushed, e, record, w1, n1, s1, d1, window@, written as int, spill.contents(), report.dropped as int);
                        assert(pushed.push(e) =~= before + Seq::new((j + 2) as nat, |i: int| e));
                        pushed = pushed.push(e);
                    }
                    j += 1;
                }
                proof {
                    assert(pushed =~= block_note_ends(inputs@.take(idx + 1), burst0 as nat));
                }
            },
            Some(_) => {
                proof {
                    assert(pushed =~= block_note_ends(inputs@.take(idx + 1), burst0 as nat));
                }
            },
            None => {
                report.decode_errors = report.decode_errors + 1;
            },
        }
        idx += 1;
    }
    proof {
        assert(inputs@.take(idx as int) =~= inputs@);
    }
    report.written = written;
    report
}

} // verus!
