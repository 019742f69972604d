//! Fixed-capacity event queues behind the per-block event transfer windows.
//!
//! [`EventBackingRing`] holds host → child events that did not fit the current window;
//! [`EventSpillFifo`] holds child → host events that spilled out of a window. Both carry events
//! losslessly in arrival order while space remains and drop the newest event once full; a dropped
//! note-ending event raises a sticky flag so the caller can inject a corrective choke.

use crate::events::{record_decodes_to, record_encodes, wildcard_addr, EventRecord, NeutralEvent, VoiceAddr};
use vstd::prelude::*;

verus! {

/// Slot count of the host-side backing ring.
pub const EVENT_BACKING_CAPACITY: usize = 65536;
/// Slot count of the child-side spill FIFO.
pub const EVENT_SPILL_CAPACITY: usize = 65536;

/// Physical slot of logical position `i` for a ring whose oldest element sits at `head`.
pub open spec fn ring_slot(head: int, i: int, cap: int) -> int {
    if head + i < cap {
        head + i
    } else {
        head + i - cap
    }
}

/// The logically ordered contents of a ring.
pub open spec fn ring_contents(slots: Seq<EventRecord>, head: int, len: int, cap: int) -> Seq<EventRecord> {
    Seq::new(len as nat, |i: int| slots[ring_slot(head, i, cap)])
}

/// Whether a record decodes to a `NoteOff` or `NoteEnd`.
pub open spec fn is_note_off_or_end(r: EventRecord) -> bool {
    match record_decodes_to(r) {
        Some(NeutralEvent::NoteOff { .. }) => true,
        Some(NeutralEvent::NoteEnd { .. }) => true,
        _ => false,
    }
}

/// Whether a record decodes to a `NoteEnd`.
pub open spec fn is_note_end(r: EventRecord) -> bool {
    match record_decodes_to(r) {
        Some(NeutralEvent::NoteEnd { .. }) => true,
        _ => false,
    }
}

/// `r` with its sample offset moved to the block start.
pub open spec fn at_block_start(r: EventRecord) -> EventRecord {
    EventRecord { sample_offset: 0, ..r }
}

/// The filler of unused slots: a wildcard choke at the block start.
fn empty_record() -> (r: EventRecord)
    ensures
        record_encodes(r, NeutralEvent::NoteChoke { sample_offset: 0, addr: wildcard_addr() }),
{
    EventRecord::encode(&NeutralEvent::NoteChoke { sample_offset: 0, addr: VoiceAddr::wildcard() })
}

fn next_slot(pos: usize, cap: usize) -> (r: usize)
    requires
        0 < cap,
        pos < cap,
    ensures
        r == ring_slot(pos as int, 1, cap as int),
        r < cap,
{
    if pos + 1 < cap {
        pos + 1
    } else {
        pos + 1 - cap
    }
}

fn tail_slot(head: usize, len: usize, cap: usize) -> (r: usize)
    requires
        head < cap,
        len < cap,
        cap <= usize::MAX / 2,
    ensures
        r == ring_slot(head as int, len as int, cap as int),
        r < cap,
{
    if head + len < cap {
        head + len
    } else {
        head + len - cap
    }
}

/// Host-side fixed-capacity event backing ring.
pub struct EventBackingRing {
    slots: Vec<EventRecord>,
    head: usize,
    len: usize,
    note_flush_pending: bool,
}

impl EventBackingRing {
    /// Internal consistency of the ring (established by `new`, kept by every method).
    pub closed spec fn wf(self) -> bool {
        &&& self.slots.len() == EVENT_BACKING_CAPACITY
        &&& self.head < EVENT_BACKING_CAPACITY
        &&& self.len <= EVENT_BACKING_CAPACITY
    }

    /// The queued events, oldest first.
    pub closed spec fn contents(self) -> Seq<EventRecord> {
        ring_contents(self.slots@, self.head as int, self.len as int, EVENT_BACKING_CAPACITY as int)
    }

    /// Whether a dropped `NoteOff`/`NoteEnd` has not been reported yet.
    pub closed spec fn flush_pending(self) -> bool {
        self.note_flush_pending
    }

    /// Allocate every slot up front (non-real-time initialisation only).
    pub fn new() -> (r: Self)
        ensures
            r.wf(),
            r.contents() == Seq::<EventRecord>::empty(),
            !r.flush_pending(),
    {
        let empty = empty_record();
        let r = EventBackingRing {
            slots: vec![empty; EVENT_BACKING_CAPACITY],
            head: 0,
            len: 0,
            note_flush_pending: false,
        };
        proof {
            assert(r.contents() =~= Seq::<EventRecord>::empty());
        }
        r
    }

    /// Append an event. When the ring is full the newest event is dropped (`false`), and a dropped
    /// `NoteOff`/`NoteEnd` raises the note-flush flag.
    pub fn push(&mut self, ev: EventRecord) -> (r: bool)
        requires
            old(self).wf(),
        ensures
            final(self).wf(),
            r == (old(self).contents().len() < EVENT_BACKING_CAPACITY),
            r ==> final(self).contents() == old(self).contents().push(ev),
            r ==> final(self).flush_pending() == old(self).flush_pending(),
            !r ==> final(self).contents() == old(self).contents(),
            !r ==> final(self).flush_pending() == (old(self).flush_pending() || is_note_off_or_end(ev)),
    {
        if self.len == EVENT_BACKING_CAPACITY {
            let decoded = ev.decode();
            let note_end = match decoded {
                Some(NeutralEvent::NoteOff { .. }) => true,
                Some(NeutralEvent::NoteEnd { .. }) => true,
                _ => false,
            };
            if note_end {
                self.note_flush_pending = true;
            }
            return false;
        }
        let tail = tail_slot(self.head, self.len, EVENT_BACKING_CAPACITY);
        let ghost before = self.contents();
        self.slots.set(tail, ev);
        self.len = self.len + 1;
        proof {
            assert(self.contents() =~= before.push(ev));
        }
        true
    }

    /// Move up to `dst.len()` events from the front of the ring into `dst` and return how many.
    /// Events that do not fit stay queued for the next block.
    pub fn drain_into(&mut self, dst: &mut [EventRecord]) -> (count: usize)
        requires
            old(self).wf(),
        ensures
            final(self).wf(),
            count as int == if old(self).contents().len() < old(dst)@.len() {
                old(self).contents().len() as int
            } else {
                old(dst)@.len() as int
            },
            final(dst)@.len() == old(dst)@.len(),
            final(dst)@.subrange(0, count as int) == old(self).contents().subrange(0, count as int),
            final(dst)@.subrange(count as int, final(dst)@.len() as int) == old(dst)@.subrange(
                count as int,
                old(dst)@.len() as int,
            ),
            final(self).contents() == old(self).contents().subrange(
                count as int,
                old(self).contents().len() as int,
            ),
            final(self).flush_pending() == old(self).flush_pending(),
    {
        let count = if self.len < dst.len() {
            self.len
        } else {
            dst.len()
        };
        let ghost old_contents = self.contents();
        let ghost old_dst = dst@;
        let ghost head0 = self.head as int;
        let mut i: usize = 0;
        while i < count
            invariant
                0 <= i <= count,
                count <= self.len,
                count <= dst@.len(),
                dst@.len() == old_dst.len(),
                self.slots.len() == EVENT_BACKING_CAPACITY,
                self.note_flush_pending == old(self).note_flush_pending,
                self.len <= EVENT_BACKING_CAPACITY,
                self.head < EVENT_BACKING_CAPACITY,
                self.head == ring_slot(head0, i as int, EVENT_BACKING_CAPACITY as int),
                0 <= head0 < EVENT_BACKING_CAPACITY,
                old_contents == ring_contents(self.slots@, head0, self.len as int, EVENT_BACKING_CAPACITY as int),
                forall|j: int| 0 <= j < i ==> dst@[j] == old_contents[j],
                forall|j: int| i <= j < dst@.len() ==> dst@[j] == old_dst[j],
            decreases count - i,
        {
            dst[i] = self.slots[self.head];
            self.head = next_slot(self.head, EVENT_BACKING_CAPACITY);
            i += 1;
        }
        self.len = self.len - count;
        proof {
            assert(dst@.subrange(0, count as int) =~= old_contents.subrange(0, count as int));
            assert(dst@.subrange(count as int, dst@.len() as int) =~= old_dst.subrange(
                count as int,
                old_dst.len() as int,
            ));
            assert(self.contents() =~= old_contents.subrange(count as int, old_contents.len() as int));
        }
        count
    }

    /// A well-formed ring never holds more than its capacity.
    pub proof fn lemma_capacity(self)
        requires
            self.wf(),
        ensures
            self.contents().len() <= EVENT_BACKING_CAPACITY,
    {
    }

    /// Read and clear the sticky note-flush request.
    pub fn take_note_flush_pending(&mut self) -> (r: bool)
        requires
            old(self).wf(),
        ensures
            final(self).wf(),
            r == old(self).flush_pending(),
            !final(self).flush_pending(),
            final(self).contents() == old(self).contents(),
    {
        let r = self.note_flush_pending;
        self.note_flush_pending = false;
        r
    }

    /// Number of queued events.
    pub fn len(&self) -> (r: usize)
        ensures
            r == self.contents().len(),
    {
        self.len
    }

    /// Whether no event is queued.
    pub fn is_empty(&self) -> (r: bool)
        ensures
            r == (self.contents().len() == 0),
    {
        self.len == 0
    }
}

/// Child-side fixed-capacity spill FIFO for output events that did not fit a window.
pub struct EventSpillFifo {
    slots: Vec<EventRecord>,
    head: usize,
    len: usize,
    note_end_dropped: bool,
}

impl EventSpillFifo {
    /// Internal consistency of the ring (established by `new`, kept by every method).
    pub closed spec fn wf(self) -> bool {
        &&& self.slots.len() == EVENT_SPILL_CAPACITY
        &&& self.head < EVENT_SPILL_CAPACITY
        &&& self.len <= EVENT_SPILL_CAPACITY
    }

    /// The spilled events, oldest first.
    pub closed spec fn contents(self) -> Seq<EventRecord> {
        ring_contents(self.slots@, self.head as int, self.len as int, EVENT_SPILL_CAPACITY as int)
    }

    /// Whether a dropped `NoteEnd` has not been reported yet.
    pub closed spec fn note_end_dropped_flag(self) -> bool {
        self.note_end_dropped
    }

    /// Allocate every slot up front (non-real-time initialisation only).
    pub fn new() -> (r: Self)
        ensures
            r.wf(),
            r.contents() == Seq::<EventRecord>::empty(),
            !r.note_end_dropped_flag(),
    {
        let empty = empty_record();
        let r = EventSpillFifo {
            slots: vec![empty; EVENT_SPILL_CAPACITY],
            head: 0,
            len: 0,
            note_end_dropped: false,
        };
        proof {
            assert(r.contents() =~= Seq::<EventRecord>::empty());
        }
        r
    }

    /// Append an out-event that did not fit the window. When full the newest event is dropped
    /// (`false`), and a dropped `NoteEnd` raises the sticky flag.
    pub fn push(&mut self, ev: EventRecord) -> (r: bool)
        requires
            old(self).wf(),
        ensures
            final(self).wf(),
            r == (old(self).contents().len() < EVENT_SPILL_CAPACITY),
            r ==> final(self).contents() == old(self).contents().push(ev),
            r ==> final(self).note_end_dropped_flag() == old(self).note_end_dropped_flag(),
            !r ==> final(self).contents() == old(self).contents(),
            !r ==> final(self).note_end_dropped_flag() == (old(self).note_end_dropped_flag()
                || is_note_end(ev)),
    {
        if self.len == EVENT_SPILL_CAPACITY {
            let decoded = ev.decode();
            let note_end = match decoded {
                Some(NeutralEvent::NoteEnd { .. }) => true,
                _ => false,
            };
            if note_end {
                self.note_end_dropped = true;
            }
            return false;
        }
        let tail = tail_slot(self.head, self.len, EVENT_SPILL_CAPACITY);
        let ghost before = self.contents();
        self.slots.set(tail, ev);
        self.len = self.len + 1;
        proof {
            assert(self.contents() =~= before.push(ev));
        }
        true
    }

    /// Fill the front of the window with spilled events (oldest first), moving their offsets to the
    /// block start, and return how many were written.
    pub fn drain_into_window(&mut self, window: &mut [EventRecord]) -> (count: usize)
        requires
            old(self).wf(),
        ensures
            final(self).wf(),
            count as int == if old(self).contents().len() < old(window)@.len() {
                old(self).contents().len() as int
            } else {
                old(window)@.len() as int
            },
            final(window)@.len() == old(window)@.len(),
            forall|j: int|
                0 <= j < count ==> #[trigger] final(window)@[j] == at_block_start(old(self).contents()[j]),
            final(window)@.subrange(count as int, final(window)@.len() as int) == old(window)@.subrange(
                count as int,
                old(window)@.len() as int,
            ),
            final(self).contents() == old(self).contents().subrange(
                count as int,
                old(self).contents().len() as int,
            ),
            final(self).note_end_dropped_flag() == old(self).note_end_dropped_flag(),
    {
        let count = if self.len < window.len() {
            self.len
        } else {
            window.len()
        };
        let ghost old_contents = self.contents();
        let ghost old_window = window@;
        let ghost head0 = self.head as int;
        let mut i: usize = 0;
        while i < count
            invariant
                0 <= i <= count,
                count <= self.len,
                count <= window@.len(),
                window@.len() == old_window.len(),
                self.slots.len() == EVENT_SPILL_CAPACITY,
                self.note_end_dropped == old(self).note_end_dropped,
                self.len <= EVENT_SPILL_CAPACITY,
                self.head < EVENT_SPILL_CAPACITY,
                self.head == ring_slot(head0, i as int, EVENT_SPILL_CAPACITY as int),
                0 <= head0 < EVENT_SPILL_CAPACITY,
                old_contents == ring_contents(self.slots@, head0, self.len as int, EVENT_SPILL_CAPACITY as int),
                forall|j: int| 0 <= j < i ==> window@[j] == at_block_start(old_contents[j]),
                forall|j: int| i <= j < window@.len() ==> window@[j] == old_window[j],
            decreases count - i,
        {
            let mut out = self.slots[self.head];
            out.sample_offset = 0;
            window[i] = out;
            self.head = next_slot(self.head, EVENT_SPILL_CAPACITY);
            i += 1;
        }
        self.len = self.len - count;
        proof {
            assert(window@.subrange(count as int, window@.len() as int) =~= old_window.subrange(
                count as int,
                old_window.len() as int,
            ));
            assert(self.contents() =~= old_contents.subrange(count as int, old_contents.len() as int));
        }
        count
    }

    /// Read and clear the sticky `NoteEnd`-dropped flag.
    pub fn take_note_end_dropped(&mut self) -> (r: bool)
        requires
            old(self).wf(),
        ensures
            final(self).wf(),
            r == old(self).note_end_dropped_flag(),
            !final(self).note_end_dropped_flag(),
            final(self).contents() == old(self).contents(),
    {
        let r = self.note_end_dropped;
        self.note_end_dropped = false;
        r
    }

    /// Number of spilled events.
    pub fn len(&self) -> (r: usize)
        ensures
            r == self.contents().len(),
    {
        self.len
    }

    /// A well-formed FIFO never holds more than its capacity.
    pub proof fn lemma_capacity(self)
        requires
            self.wf(),
        ensures
            self.contents().len() <= EVENT_SPILL_CAPACITY,
    {
    }

    /// Whether the FIFO is empty.
    pub fn is_empty(&self) -> (r: bool)
        ensures
            r == (self.contents().len() == 0),
    {
        self.len == 0
    }
}

/// Place one output event of the instrument child: into the block's window while it has room
/// (`written` counts what the window holds), else into the spill FIFO for a later block. Returns
/// whether the event was kept.
pub fn push_output(spill: &mut EventSpillFifo, window: &mut [EventRecord], written: &mut usize, record: EventRecord) -> (r: bool)
    requires
        old(spill).wf(),
    ensures
        final(spill).wf(),
        final(window)@.len() == old(window)@.len(),
        *old(written) < old(window)@.len() ==> {
            &&& r
            &&& final(window)@ == old(window)@.update(*old(written) as int, record)
            &&& *final(written) == *old(written) + 1
            &&& final(spill).contents() == old(spill).contents()
            &&& final(spill).note_end_dropped_flag() == old(spill).note_end_dropped_flag()
        },
        *old(written) >= old(window)@.len() ==> {
            &&& final(window)@ == old(window)@
            &&& *final(written) == *old(written)
            &&& r == (old(spill).contents().len() < EVENT_SPILL_CAPACITY)
            &&& final(spill).contents() == if r {
                old(spill).contents().push(record)
            } else {
                old(spill).contents()
            }
            &&& final(spill).note_end_dropped_flag() == (old(spill).note_end_dropped_flag() || (!r && is_note_end(record)))
        },
{
    if *written < window.len() {
        window[*written] = record;
        *written = *written + 1;
        true
    } else {
        spill.push(record)
    }
}

} // verus!
