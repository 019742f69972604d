//! Host-side plugin UI event pump: per-window lifecycle, safepoint notifications and their acks,
//! abandonment after a child-side close timeout, respawn reset and teardown drain.
//!
//! The pump consumes the child → host event ring in sequence order. A `UI_CLOSED` event is a
//! safepoint: it stays unacknowledged until the engine reports (through [`UiEventPump::ack_safepoint`])
//! that the state was saved, unless the child has already published `timeout-without-save` for the
//! same window right behind it. A `UI_CLOSED_DONE` event is acknowledged once its notification is
//! delivered.

use crate::cstr::{cstr_text, read_cstr_field};
use crate::event_ring::{event_at, EventPollOutcome, EventRingEvent, EventRingHostError};
use crate::layout::{evt_slot_index, EVT_UI_CLOSED, EVT_UI_CLOSED_DONE};
use crate::mailbox::{CommandMailboxError, CommandMailboxHost, MailboxReset};
use crate::shared::{EventRingShared, SharedControl};
use crate::ui_codec::{
    decode_closed_done_spec, decode_closed_spec, decode_ui_closed_arg,
    decode_ui_closed_done_arg, UiArgError, UiCloseCompletion, UiWindowKey,
};
use vstd::prelude::*;

verus! {

/// Lifecycle of one plugin UI window.
#[derive(Debug, Clone, Copy, PartialEq, Eq, Structural)]
pub enum UiLifecycle {
    Closed,
    Opening,
    Open,
    Closing,
}

/// A safepoint notification delivered to the engine and waiting for its ack.
#[derive(Debug, Clone, Copy, PartialEq, Eq, Structural)]
pub struct PendingSafepoint {
    pub window: UiWindowKey,
    pub evt_seq: u64,
}

/// Per-window state: the lifecycle and the safepoint abandoned after a child close timeout (kept
/// so that a late ack is still accepted).
#[derive(Debug, Clone, Copy, PartialEq, Eq, Structural)]
pub struct UiWindowState {
    pub lifecycle: UiLifecycle,
    pub abandoned_safepoint: Option<u64>,
}

/// The pump's bookkeeping. `windows` is ordered by window key (`None` first, then tokens in
/// increasing order) and holds each key at most once.
#[derive(Debug)]
pub struct UiPumpState {
    pub generation: u64,
    /// The `UI_CLOSED` notified to the engine and waiting for `ack_safepoint`.
    pub pending_safepoint: Option<PendingSafepoint>,
    pub windows: Vec<(UiWindowKey, UiWindowState)>,
}

/// The mathematical view of the pump state.
pub struct UiPumpView {
    pub generation: u64,
    pub pending_safepoint: Option<PendingSafepoint>,
    pub windows: Map<UiWindowKey, UiWindowState>,
}

/// Order of window keys: `None` first, then tokens in increasing order.
pub open spec fn key_lt(a: UiWindowKey, b: UiWindowKey) -> bool {
    match (a, b) {
        (None, Some(_)) => true,
        (Some(x), Some(y)) => x < y,
        _ => false,
    }
}

/// Keys strictly increasing.
pub open spec fn windows_wf(v: Seq<(UiWindowKey, UiWindowState)>) -> bool {
    forall|i: int, j: int| 0 <= i < j < v.len() ==> key_lt(#[trigger] v[i].0, #[trigger] v[j].0)
}

/// The windows as a map.
pub open spec fn windows_map(v: Seq<(UiWindowKey, UiWindowState)>) -> Map<UiWindowKey, UiWindowState> {
    Map::new(
        |k: UiWindowKey| exists|i: int| 0 <= i < v.len() && v[i].0 == k,
        |k: UiWindowKey| v[choose|i: int| 0 <= i < v.len() && v[i].0 == k].1,
    )
}

/// Keys, in order, of the windows that are not closed.
pub open spec fn open_keys(v: Seq<(UiWindowKey, UiWindowState)>) -> Seq<UiWindowKey>
    decreases v.len(),
{
    if v.len() == 0 {
        Seq::empty()
    } else {
        let rest = open_keys(v.drop_last());
        if v.last().1.lifecycle != UiLifecycle::Closed {
            rest.push(v.last().0)
        } else {
            rest
        }
    }
}

/// A window entry created on demand.
pub open spec fn fresh_window(lifecycle: UiLifecycle) -> UiWindowState {
    UiWindowState { lifecycle, abandoned_safepoint: None }
}

/// The windows after setting the lifecycle of `k` (creating the entry when absent).
pub open spec fn with_lifecycle(
    m: Map<UiWindowKey, UiWindowState>,
    k: UiWindowKey,
    lifecycle: UiLifecycle,
) -> Map<UiWindowKey, UiWindowState> {
    if m.contains_key(k) {
        m.insert(k, UiWindowState { lifecycle, ..m[k] })
    } else {
        m.insert(k, fresh_window(lifecycle))
    }
}

/// Whether the entry of `k` carries nothing any more (closed, no abandoned safepoint).
pub open spec fn settled(m: Map<UiWindowKey, UiWindowState>, k: UiWindowKey) -> bool {
    m.contains_key(k) && m[k].lifecycle == UiLifecycle::Closed && m[k].abandoned_safepoint is None
}

/// The windows after dropping the entry of `k` when it is settled.
pub open spec fn without_settled(m: Map<UiWindowKey, UiWindowState>, k: UiWindowKey) -> Map<UiWindowKey, UiWindowState> {
    if settled(m, k) {
        m.remove(k)
    } else {
        m
    }
}

proof fn lemma_map_at(v: Seq<(UiWindowKey, UiWindowState)>, i: int)
    requires
        windows_wf(v),
        0 <= i < v.len(),
    ensures
        windows_map(v).contains_key(v[i].0),
        windows_map(v)[v[i].0] == v[i].1,
{
    let k = v[i].0;
    assert(exists|j: int| 0 <= j < v.len() && v[j].0 == k);
    let c = choose|j: int| 0 <= j < v.len() && v[j].0 == k;
    if c < i {
        assert(key_lt(v[c].0, v[i].0));
    } else if i < c {
        assert(key_lt(v[i].0, v[c].0));
    }
}

proof fn lemma_map_absent(v: Seq<(UiWindowKey, UiWindowState)>, k: UiWindowKey)
    requires
        forall|i: int| 0 <= i < v.len() ==> v[i].0 != k,
    ensures
        !windows_map(v).contains_key(k),
{
}

/// Every key of the map is the key of some entry.
proof fn lemma_map_keys(v: Seq<(UiWindowKey, UiWindowState)>, k: UiWindowKey)
    requires
        windows_map(v).contains_key(k),
    ensures
        exists|i: int| 0 <= i < v.len() && v[i].0 == k,
{
}

impl UiPumpState {
    /// The view of the bookkeeping.
    pub open spec fn view(&self) -> UiPumpView {
        UiPumpView {
            generation: self.generation,
            pending_safepoint: self.pending_safepoint,
            windows: windows_map(self.windows@),
        }
    }

    /// Structural well-formedness: window keys strictly increasing.
    pub open spec fn wf(&self) -> bool {
        windows_wf(self.windows@)
    }

    /// A fresh state: generation 0, nothing pending, no windows.
    pub fn new() -> (r: Self)
        ensures
            r.wf(),
            r@.generation == 0,
            r@.pending_safepoint is None,
            r@.windows == Map::<UiWindowKey, UiWindowState>::empty(),
    {
        let r = UiPumpState { generation: 0, pending_safepoint: None, windows: Vec::new() };
        proof {
            assert(r@.windows =~= Map::<UiWindowKey, UiWindowState>::empty());
        }
        r
    }

    /// Index of `k`, or the position where it would be inserted.
    fn find(&self, k: UiWindowKey) -> (r: Result<usize, usize>)
        requires
            self.wf(),
        ensures
            match r {
                Ok(i) => i < self.windows@.len() && self.windows@[i as int].0 == k,
                Err(p) => {
                    &&& p <= self.windows@.len()
                    &&& forall|i: int| 0 <= i < p ==> key_lt(#[trigger] self.windows@[i].0, k)
                    &&& forall|i: int| p <= i < self.windows@.len() ==> key_lt(k, #[trigger] self.windows@[i].0)
                },
            },
    {
        let mut i: usize = 0;
        while i < self.windows.len()
            invariant
                0 <= i <= self.windows@.len(),
                windows_wf(self.windows@),
                forall|j: int| 0 <= j < i ==> key_lt(#[trigger] self.windows@[j].0, k),
            decreases self.windows@.len() - i,
        {
            let key = self.windows[i].0;
            let before = match (key, k) {
                (None, Some(_)) => true,
                (Some(x), Some(y)) => x < y,
                _ => false,
            };
            if !before {
                let same = match (key, k) {
                    (None, None) => true,
                    (Some(x), Some(y)) => x == y,
                    _ => false,
                };
                if same {
                    return Ok(i);
                }
                proof {
                    assert forall|j: int| i <= j < self.windows@.len() implies key_lt(k, #[trigger] self.windows@[j].0) by {
                        if j > i {
                            assert(key_lt(self.windows@[i as int].0, self.windows@[j].0));
                        }
                    }
                }
                return Err(i);
            }
            i += 1;
        }
        Err(i)
    }

    /// The lifecycle of `k` (`Closed` when it has no entry).
    pub fn lifecycle_of(&self, k: UiWindowKey) -> (r: UiLifecycle)
        requires
            self.wf(),
        ensures
            r == if self@.windows.contains_key(k) {
                self@.windows[k].lifecycle
            } else {
                UiLifecycle::Closed
            },
    {
        match self.find(k) {
            Ok(i) => {
                proof {
                    lemma_map_at(self.windows@, i as int);
                }
                self.windows[i].1.lifecycle
            },
            Err(p) => {
                proof {
                    assert forall|i: int| 0 <= i < self.windows@.len() implies self.windows@[i].0 != k by {
                        if i < p {
                            assert(key_lt(self.windows@[i].0, k));
                        } else {
                            assert(key_lt(k, self.windows@[i].0));
                        }
                    }
                    lemma_map_absent(self.windows@, k);
                }
                UiLifecycle::Closed
            },
        }
    }

    /// The abandoned safepoint recorded for `k`, if any.
    pub fn abandoned_of(&self, k: UiWindowKey) -> (r: Option<u64>)
        requires
            self.wf(),
        ensures
            r == if self@.windows.contains_key(k) {
                self@.windows[k].abandoned_safepoint
            } else {
                None
            },
    {
        match self.find(k) {
            Ok(i) => {
                proof {
                    lemma_map_at(self.windows@, i as int);
                }
                self.windows[i].1.abandoned_safepoint
            },
            Err(p) => {
                proof {
                    assert forall|i: int| 0 <= i < self.windows@.len() implies self.windows@[i].0 != k by {
                        if i < p {
                            assert(key_lt(self.windows@[i].0, k));
                        } else {
                            assert(key_lt(k, self.windows@[i].0));
                        }
                    }
                    lemma_map_absent(self.windows@, k);
                }
                None
            },
        }
    }

    /// Replace the entry of `k` (inserting it in key order when absent).
    pub fn put(&mut self, k: UiWindowKey, w: UiWindowState)
        requires
            old(self).wf(),
        ensures
            final(self).wf(),
            final(self)@ == (UiPumpView { windows: old(self)@.windows.insert(k, w), ..old(self)@ }),
    {
        let ghost old_v = self.windows@;
        match self.find(k) {
            Ok(i) => {
                self.windows.set(i, (k, w));
                proof {
                    let v = self.windows@;
                    assert(v =~= old_v.update(i as int, (k, w)));
                    assert(windows_wf(v));
                    assert forall|key: UiWindowKey| #![auto] windows_map(v).contains_key(key) == windows_map(old_v).insert(k, w).contains_key(key) by {
                        if windows_map(old_v).contains_key(key) {
                            lemma_map_keys(old_v, key);
                            let j = choose|j: int| 0 <= j < old_v.len() && old_v[j].0 == key;
                            assert(v[j].0 == key);
                        }
                        if windows_map(v).contains_key(key) {
                            lemma_map_keys(v, key);
                            let j = choose|j: int| 0 <= j < v.len() && v[j].0 == key;
                            if j != i {
                                assert(old_v[j].0 == key);
                            }
                        }
                    }
                    assert forall|key: UiWindowKey| #[trigger] windows_map(v).contains_key(key) implies windows_map(v)[key] == windows_map(old_v).insert(k, w)[key] by {
                        lemma_map_keys(v, key);
                        let j = choose|j: int| 0 <= j < v.len() && v[j].0 == key;
                        lemma_map_at(v, j);
                        if j != i {
                            lemma_map_at(old_v, j);
                        }
                    }
                    assert(windows_map(v) =~= windows_map(old_v).insert(k, w));
                }
            },
            Err(p) => {
                self.windows.insert(p, (k, w));
                proof {
                    let v = self.windows@;
                    assert(v =~= old_v.insert(p as int, (k, w)));
                    assert forall|a: int, b: int| 0 <= a < b < v.len() implies key_lt(#[trigger] v[a].0, #[trigger] v[b].0) by {
                        if b < p {
                            assert(v[a] == old_v[a] && v[b] == old_v[b]);
                        } else if b == p {
                            assert(v[a] == old_v[a]);
                        } else if a < p {
                            assert(v[a] == old_v[a] && v[b] == old_v[b - 1]);
                            assert(key_lt(old_v[a].0, k));
                        } else if a == p {
                            assert(v[b] == old_v[b - 1]);
                        } else {
                            assert(v[a] == old_v[a - 1] && v[b] == old_v[b - 1]);
                        }
                    }
                    assert forall|key: UiWindowKey| #![auto] windows_map(v).contains_key(key) == windows_map(old_v).insert(k, w).contains_key(key) by {
                        if windows_map(old_v).contains_key(key) {
                            lemma_map_keys(old_v, key);
                            let j = choose|j: int| 0 <= j < old_v.len() && old_v[j].0 == key;
                            if j < p {
                                assert(v[j].0 == key);
                            } else {
                                assert(v[j + 1].0 == key);
                            }
                        }
                        if key == k {
                            assert(v[p as int].0 == key);
                        }
                        if windows_map(v).contains_key(key) {
                            lemma_map_keys(v, key);
                            let j = choose|j: int| 0 <= j < v.len() && v[j].0 == key;
                            if j < p {
                                assert(old_v[j].0 == key);
                            } else if j > p {
                                assert(old_v[j - 1].0 == key);
                            }
                        }
                    }
                    assert forall|key: UiWindowKey| #[trigger] windows_map(v).contains_key(key) implies windows_map(v)[key] == windows_map(old_v).insert(k, w)[key] by {
                        lemma_map_keys(v, key);
                        let j = choose|j: int| 0 <= j < v.len() && v[j].0 == key;
                        lemma_map_at(v, j);
                        if j < p {
                            lemma_map_at(old_v, j);
                        } else if j > p {
                            lemma_map_at(old_v, j - 1);
                        }
                    }
                    assert(windows_map(v) =~= windows_map(old_v).insert(k, w));
                }
            },
        }
    }

    /// Set the lifecycle of `k`, creating the entry (nothing abandoned) when absent.
    pub fn set_lifecycle(&mut self, k: UiWindowKey, lifecycle: UiLifecycle)
        requires
            old(self).wf(),
        ensures
            final(self).wf(),
            final(self)@ == (UiPumpView { windows: with_lifecycle(old(self)@.windows, k, lifecycle), ..old(self)@ }),
    {
        let abandoned = self.abandoned_of(k);
        self.put(k, UiWindowState { lifecycle, abandoned_safepoint: abandoned });
        proof {
            assert(final(self)@.windows =~= with_lifecycle(old(self)@.windows, k, lifecycle));
        }
    }

    /// Drop the entry of `k` when it is closed and carries no abandoned safepoint.
    pub fn remove_settled_window(&mut self, k: UiWindowKey)
        requires
            old(self).wf(),
        ensures
            final(self).wf(),
            final(self)@ == (UiPumpView { windows: without_settled(old(self)@.windows, k), ..old(self)@ }),
    {
        let ghost old_v = self.windows@;
        match self.find(k) {
            Ok(i) => {
                proof {
                    lemma_map_at(old_v, i as int);
                }
                let w = self.windows[i].1;
                let is_settled = match w.lifecycle {
                    UiLifecycle::Closed => w.abandoned_safepoint.is_none(),
                    _ => false,
                };
                if is_settled {
                    self.windows.remove(i);
                    proof {
                        let v = self.windows@;
                        assert(v =~= old_v.remove(i as int));
                        assert forall|a: int, b: int| 0 <= a < b < v.len() implies key_lt(#[trigger] v[a].0, #[trigger] v[b].0) by {
                            if b < i {
                                assert(v[a] == old_v[a] && v[b] == old_v[b]);
                            } else if a < i {
                                assert(v[a] == old_v[a] && v[b] == old_v[b + 1]);
                            } else {
                                assert(v[a] == old_v[a + 1] && v[b] == old_v[b + 1]);
                            }
                        }
                        assert forall|key: UiWindowKey| #![auto] windows_map(v).contains_key(key) == windows_map(old_v).remove(k).contains_key(key) by {
                            if windows_map(old_v).contains_key(key) && key != k {
                                lemma_map_keys(old_v, key);
                                let j = choose|j: int| 0 <= j < old_v.len() && old_v[j].0 == key;
                                if j < i {
                                    assert(v[j].0 == key);
                                } else {
                                    assert(v[j - 1].0 == key);
                                }
                            }
                            if windows_map(v).contains_key(key) {
                                lemma_map_keys(v, key);
                                let j = choose|j: int| 0 <= j < v.len() && v[j].0 == key;
                                if j < i {
                                    assert(old_v[j].0 == key);
                                    assert(key_lt(old_v[j].0, old_v[i as int].0));
                                } else {
                                    assert(old_v[j + 1].0 == key);
                                    assert(key_lt(old_v[i as int].0, old_v[j + 1].0));
                                }
                            }
                        }
                        assert forall|key: UiWindowKey| #[trigger] windows_map(v).contains_key(key) implies windows_map(v)[key] == windows_map(old_v).remove(k)[key] by {
                            lemma_map_keys(v, key);
                            let j = choose|j: int| 0 <= j < v.len() && v[j].0 == key;
                            lemma_map_at(v, j);
                            if j < i {
                                lemma_map_at(old_v, j);
                            } else {
                                lemma_map_at(old_v, j + 1);
                            }
                        }
                        assert(windows_map(v) =~= windows_map(old_v).remove(k));
                    }
                }
            },
            Err(p) => {
                proof {
                    assert forall|i: int| 0 <= i < old_v.len() implies old_v[i].0 != k by {
                        if i < p {
                            assert(key_lt(old_v[i].0, k));
                        } else {
                            assert(key_lt(k, old_v[i].0));
                        }
                    }
                    lemma_map_absent(old_v, k);
                }
            },
        }
    }
}

/// A notification handed to the engine's non-blocking sink.
#[derive(Debug, Clone, Copy, PartialEq, Eq)]
pub enum UiPumpNotification {
    /// A safepoint is waiting for the engine: save, then ack with this triplet.
    Safepoint { generation: u64, evt_seq: u64, window: UiWindowKey },
    /// A window finished closing.
    CloseDone { completion: UiCloseCompletion, window: UiWindowKey },
}

/// The engine side of the pump: enqueue a notification without blocking; `false` when it cannot
/// be enqueued now (the event then stays unacknowledged and is retried).
pub trait UiNotificationSink {
    /// Every notification handed to this sink so far, oldest first, with the sink's answer. A
    /// sink defines it to state what it was given; one that does not keeps this empty default,
    /// which its `deliver` cannot meet, so nothing proved of such a sink carries over to it. [`FnSink`] wraps a closure and defines it.
    closed spec fn log(&self) -> Seq<(UiPumpNotification, bool)> {
        Seq::empty()
    }

    /// Whether the sink can be handed a notification now (true unless a sink says otherwise).
    closed spec fn ready(&self) -> bool {
        true
    }

    fn deliver(&mut self, notification: UiPumpNotification) -> (r: bool)
        requires
            old(self).ready(),
        ensures
            final(self).ready(),
            final(self).log() == old(self).log().push((notification, r)),
    ;
}

/// A sink that hands each notification to a closure (the engine's non-blocking enqueue) and
/// records what it handed over and what the closure answered.
pub struct FnSink<F: FnMut(UiPumpNotification) -> bool> {
    f: F,
    delivered: Ghost<Seq<(UiPumpNotification, bool)>>,
}

impl<F: FnMut(UiPumpNotification) -> bool> FnSink<F> {
    /// A sink over `f`, with nothing handed over yet.
    pub fn new(f: F) -> (r: Self)
        requires
            forall|n: UiPumpNotification| call_requires(f, (n,)),
        ensures
            r.ready(),
            r.log() == Seq::<(UiPumpNotification, bool)>::empty(),
    {
        FnSink { f, delivered: Ghost(Seq::empty()) }
    }
}

impl<F: FnMut(UiPumpNotification) -> bool> UiNotificationSink for FnSink<F> {
    closed spec fn log(&self) -> Seq<(UiPumpNotification, bool)> {
        self.delivered@
    }

    /// The closure may be called with any notification.
    closed spec fn ready(&self) -> bool {
        forall|n: UiPumpNotification| call_requires(self.f, (n,))
    }

    fn deliver(&mut self, notification: UiPumpNotification) -> (r: bool) {
        let r = (self.f)(notification);
        self.delivered = Ghost(self.delivered@.push((notification, r)));
        r
    }
}

/// The log entries of one step: the notification handed over, if any, with the sink's answer.
pub open spec fn notice_entries(n: Option<UiPumpNotification>, answer: bool) -> Seq<(UiPumpNotification, bool)> {
    match n {
        Some(x) => seq![(x, answer)],
        None => Seq::empty(),
    }
}

/// Whether `log` is `log0` followed by exactly the notifications `notes`, in order, whatever the
/// sink answered to them.
pub open spec fn notified(
    log0: Seq<(UiPumpNotification, bool)>,
    log: Seq<(UiPumpNotification, bool)>,
    notes: Seq<UiPumpNotification>,
) -> bool {
    &&& log.len() == log0.len() + notes.len()
    &&& log.subrange(0, log0.len() as int) == log0
    &&& forall|i: int| 0 <= i < notes.len() ==> (#[trigger] log[log0.len() + i]).0 == notes[i]
}

proof fn lemma_notified_chain(
    l0: Seq<(UiPumpNotification, bool)>,
    l1: Seq<(UiPumpNotification, bool)>,
    l2: Seq<(UiPumpNotification, bool)>,
    a: Seq<UiPumpNotification>,
    b: Seq<UiPumpNotification>,
)
    requires
        notified(l0, l1, a),
        notified(l1, l2, b),
    ensures
        notified(l0, l2, a + b),
{
    assert(l2.subrange(0, l0.len() as int) =~= l1.subrange(0, l1.len() as int).subrange(0, l0.len() as int)) by {
        assert forall|i: int| 0 <= i < l0.len() implies l2[i] == l1[i] by {
            assert(l2.subrange(0, l1.len() as int)[i] == l1[i]);
        }
    }
    assert(l1.subrange(0, l1.len() as int) =~= l1);
    assert forall|i: int| 0 <= i < (a + b).len() implies (#[trigger] l2[l0.len() + i]).0 == (a + b)[i] by {
        if i < a.len() {
            assert(l2.subrange(0, l1.len() as int)[l0.len() + i] == l1[l0.len() + i]);
            assert(l1[l0.len() + i].0 == a[i]);
        } else {
            assert(l2[l1.len() + (i - a.len())].0 == b[i - a.len()]);
        }
    }
}

/// A protocol violation detected by the pump.
#[derive(Debug, Clone, PartialEq, Eq)]
pub enum UiProtocolError {
    /// `OPEN_UI` requested for a window whose lifecycle is not `Closed`.
    OpenWhileNotClosed { window: UiWindowKey, lifecycle: UiLifecycle },
    /// `UI_CLOSED` with an argument outside the grammar.
    InvalidClosedArg { seq: u64, error: UiArgError },
    /// `UI_CLOSED_DONE` with an argument outside the grammar.
    InvalidClosedDoneArg { seq: u64, error: UiArgError },
    /// An event of unknown kind.
    UnknownKind { seq: u64, kind: u32 },
    /// A safepoint ack that matches neither the pending safepoint nor a late abandoned one.
    SafepointMismatch { window: UiWindowKey, evt_seq: u64, pending: Option<PendingSafepoint> },
    /// A safepoint ack that is not for the in-order head of the ring.
    SafepointNotHead { evt_seq: u64, ack: u64, published: u64 },
}

/// Failure of a pump operation.
#[derive(Debug)]
pub enum UiEventPumpError {
    /// The shared region could not be mapped (the reason as text).
    Mapping(String),
    /// The mailbox reset failed.
    Mailbox(CommandMailboxError),
    /// The pump's lock was poisoned.
    CoordinatorPoisoned,
    /// A safepoint ack from another generation.
    GenerationMismatch { expected: u64, actual: u64 },
    Protocol(UiProtocolError),
    /// The event ring is inconsistent.
    Ring(EventRingHostError),
}

/// What a respawn reset did to the UI lifecycle: the windows that were not closed (in key order)
/// and the new generation.
#[derive(Debug)]
pub struct UiPumpResetOutcome {
    pub closed_windows: Vec<UiWindowKey>,
    pub generation: u64,
}

/// Host-side UI event pump.
#[derive(Debug)]
pub struct UiEventPump {
    pub state: UiPumpState,
}

/// Per-event outcome of the pump's handler.
#[derive(Debug)]
pub enum HandleOutcome {
    /// The event is complete: acknowledge it.
    Complete,
    /// Keep the event unacknowledged (retried on the next poll).
    Retain,
    /// The event violates the protocol.
    Fail(UiProtocolError),
}

/// Outcome of one handler step, without the error detail.
#[derive(PartialEq, Eq, Structural)]
pub enum StepResult {
    Complete,
    Retain,
    Fail,
}

pub open spec fn step_result(h: HandleOutcome) -> StepResult {
    match h {
        HandleOutcome::Complete => StepResult::Complete,
        HandleOutcome::Retain => StepResult::Retain,
        HandleOutcome::Fail(_) => StepResult::Fail,
    }
}

/// The sequence number after `seq` (saturating).
pub open spec fn next_seq(seq: u64) -> u64 {
    if seq == u64::MAX {
        seq
    } else {
        (seq + 1) as u64
    }
}

/// Whether the event `next` is published and is the child's `timeout-without-save` completion
/// for `window`.
pub open spec fn abandon_done_at(ring: EventRingShared, next: u64, window: UiWindowKey) -> bool {
    &&& ring.evt_seq.value >= next
    &&& ring.evt_kind[(next % 2) as int] == EVT_UI_CLOSED_DONE
    &&& decode_closed_done_spec(cstr_text(ring.evt_arg[(next % 2) as int]@)) == Some(
        (window, UiCloseCompletion::TimedOutWithoutSave),
    )
}

/// The notification the pump hands the sink when it handles `ev` from state `s`: a safepoint for
/// a well-formed `UI_CLOSED` that is neither abandoned right away nor already pending, a close
/// completion for a well-formed `UI_CLOSED_DONE`, nothing otherwise.
pub open spec fn step_notification(s: UiPumpView, ring: EventRingShared, ev: EventRingEvent) -> Option<UiPumpNotification> {
    if ev.kind == EVT_UI_CLOSED {
        match decode_closed_spec(cstr_text(ev.arg@)) {
            Some(w) => if abandon_done_at(ring, next_seq(ev.seq), w) || s.pending_safepoint == Some(
                PendingSafepoint { window: w, evt_seq: ev.seq },
            ) {
                None
            } else {
                Some(UiPumpNotification::Safepoint { generation: s.generation, evt_seq: ev.seq, window: w })
            },
            None => None,
        }
    } else if ev.kind == EVT_UI_CLOSED_DONE {
        match decode_closed_done_spec(cstr_text(ev.arg@)) {
            Some(d) => Some(UiPumpNotification::CloseDone { completion: d.1, window: d.0 }),
            None => None,
        }
    } else {
        None
    }
}

/// The sink's log entries while the events after `ack` are handled in order with the answers
/// `answers` (an answer counts only where a notification is handed over).
pub open spec fn run_log(s: UiPumpView, ring: EventRingShared, ack: u64, answers: Seq<bool>) -> Seq<(UiPumpNotification, bool)>
    decreases answers.len(),
{
    if answers.len() == 0 {
        Seq::empty()
    } else {
        run_log(s, ring, ack, answers.drop_last()) + notice_entries(
            step_notification(run(s, ring, ack, answers.drop_last()), ring, event_at(ring, (ack + answers.len()) as u64)),
            answers.last(),
        )
    }
}

/// A safepoint is offered until the sink takes it: once taken, handling the same event again
/// keeps it unacknowledged and hands nothing over; when refused, the next handling offers the
/// same notification again.
pub proof fn lemma_safepoint_offered_until_taken(s: UiPumpView, ring: EventRingShared, ev: EventRingEvent)
    requires
        step_notification(s, ring, ev) matches Some(UiPumpNotification::Safepoint { .. }),
    ensures
        event_step(s, ring, ev, true).1 == StepResult::Retain,
        step_notification(event_step(s, ring, ev, true).0, ring, ev) is None,
        event_step(event_step(s, ring, ev, true).0, ring, ev, true) == event_step(s, ring, ev, true),
        event_step(s, ring, ev, false).1 == StepResult::Retain,
        step_notification(event_step(s, ring, ev, false).0, ring, ev) == step_notification(s, ring, ev),
{
    let w = decode_closed_spec(cstr_text(ev.arg@)).unwrap();
    let m = with_lifecycle(s.windows, w, UiLifecycle::Closing);
    assert(with_lifecycle(m, w, UiLifecycle::Closing) =~= m);
}

proof fn lemma_all_complete_first(s: UiPumpView, ring: EventRingShared, ack: u64, answers: Seq<bool>)
    requires
        all_complete(s, ring, ack, answers),
        answers.len() >= 1,
    ensures
        event_step(s, ring, event_at(ring, (ack + 1) as u64), answers[0]).1 == StepResult::Complete,
    decreases answers.len(),
{
    if answers.len() > 1 {
        lemma_all_complete_first(s, ring, ack, answers.drop_last());
    }
}

/// Polling again after a poll that stopped at a `UI_CLOSED` safepoint, from the pump state and
/// acknowledgement that poll left and over the same ring: the second poll stops at the same
/// event, acknowledges nothing and asks the sink at most once. When the sink took the safepoint,
/// it is not offered again and nothing changes; when the sink refused it, the same notification
/// is offered again.
pub proof fn lemma_repoll_after_blocked_safepoint(
    s0: UiPumpView,
    s1: UiPumpView,
    s2: UiPumpView,
    ring: EventRingShared,
    ack0: u64,
    ack1: u64,
    ack2: u64,
    answers1: Seq<bool>,
    answers2: Seq<bool>,
    r1: Result<EventPollOutcome, UiEventPumpError>,
    r2: Result<EventPollOutcome, UiEventPumpError>,
)
    requires
        polled_with(s0, s1, ring, ack0, ack1, answers1, r1),
        r1 matches Ok(EventPollOutcome::Blocked { kind, .. }) && kind == EVT_UI_CLOSED,
        polled_with(s1, s2, ring, ack1, ack2, answers2, r2),
    ensures
        r2 matches Ok(EventPollOutcome::Blocked { handled, seq, kind }) && handled == 0 && seq == ack1 + 1 && kind
            == EVT_UI_CLOSED,
        ack2 == ack1,
        run_log(s1, ring, ack1, answers2) == notice_entries(
            step_notification(s1, ring, event_at(ring, (ack1 + 1) as u64)),
            answers2[0],
        ),
        step_notification(s1, ring, event_at(ring, (ack1 + 1) as u64)) == if answers1.last() {
            None
        } else {
            step_notification(run(s0, ring, ack0, answers1.drop_last()), ring, event_at(ring, (ack1 + 1) as u64))
        },
        answers1.last() ==> s2 == s1,
{
    let ev = event_at(ring, (ack1 + 1) as u64);
    let sb = run(s0, ring, ack0, answers1.drop_last());
    lemma_blocked_closed_poll(s0, s1, ring, ack0, ack1, answers1, r1);
    let w = decode_closed_spec(cstr_text(ev.arg@)).unwrap();
    lemma_poll_at_kept_closed(s1, s2, ring, ack1, ack2, answers2, r2, w);
    if step_notification(sb, ring, ev) is Some {
        lemma_safepoint_offered_until_taken(sb, ring, ev);
    } else {
        let m = with_lifecycle(sb.windows, w, UiLifecycle::Closing);
        assert(with_lifecycle(m, w, UiLifecycle::Closing) =~= m);
    }
    if answers1.last() {
        let m = with_lifecycle(s1.windows, w, UiLifecycle::Closing);
        assert(with_lifecycle(m, w, UiLifecycle::Closing) =~= m);
    }
}

/// What a poll that stopped at a `UI_CLOSED` shows of that event and of the state it left.
proof fn lemma_blocked_closed_poll(
    s0: UiPumpView,
    s1: UiPumpView,
    ring: EventRingShared,
    ack0: u64,
    ack1: u64,
    answers1: Seq<bool>,
    r1: Result<EventPollOutcome, UiEventPumpError>,
)
    requires
        polled_with(s0, s1, ring, ack0, ack1, answers1, r1),
        r1 matches Ok(EventPollOutcome::Blocked { kind, .. }) && kind == EVT_UI_CLOSED,
    ensures
        ack1 + 1 <= ring.evt_seq.value,
        answers1.len() >= 1,
        ({
            let ev = event_at(ring, (ack1 + 1) as u64);
            &&& ev.kind == EVT_UI_CLOSED
            &&& decode_closed_spec(cstr_text(ev.arg@)) matches Some(w) && !abandon_done_at(ring, next_seq(ev.seq), w)
            &&& s1 == event_step(run(s0, ring, ack0, answers1.drop_last()), ring, ev, answers1.last()).0
        }),
{
    let n1 = ack1 - ack0;
    assert(answers1.drop_last() =~= answers1.take(n1));
}

/// A poll from `s1` at acknowledgement `ack1`, whose next event is a well-formed `UI_CLOSED` that
/// is not abandoned right away, stops there at once with one sink answer.
proof fn lemma_poll_at_kept_closed(
    s1: UiPumpView,
    s2: UiPumpView,
    ring: EventRingShared,
    ack1: u64,
    ack2: u64,
    answers2: Seq<bool>,
    r2: Result<EventPollOutcome, UiEventPumpError>,
    w: UiWindowKey,
)
    requires
        polled_with(s1, s2, ring, ack1, ack2, answers2, r2),
        ack1 + 1 <= ring.evt_seq.value,
        event_at(ring, (ack1 + 1) as u64).kind == EVT_UI_CLOSED,
        decode_closed_spec(cstr_text(event_at(ring, (ack1 + 1) as u64).arg@)) == Some(w),
        !abandon_done_at(ring, next_seq((ack1 + 1) as u64), w),
    ensures
        r2 matches Ok(EventPollOutcome::Blocked { handled, seq, kind }) && handled == 0 && seq == ack1 + 1 && kind
            == EVT_UI_CLOSED,
        ack2 == ack1,
        answers2.len() == 1,
        s2 == event_step(s1, ring, event_at(ring, (ack1 + 1) as u64), answers2[0]).0,
        run_log(s1, ring, ack1, answers2) == notice_entries(
            step_notification(s1, ring, event_at(ring, (ack1 + 1) as u64)),
            answers2[0],
        ),
{
    let ev = event_at(ring, (ack1 + 1) as u64);
    let n2 = ack2 - ack1;
    lemma_kept_closed_retains(s1, ring, ev, w, true);
    lemma_kept_closed_retains(s1, ring, ev, w, false);
    if n2 >= 1 {
        lemma_all_complete_first(s1, ring, ack1, answers2.take(n2));
        assert(answers2.take(n2)[0] == answers2[0]);
    }
    assert(n2 == 0);
    assert(answers2.take(0) =~= Seq::<bool>::empty());
    assert(run(s1, ring, ack1, Seq::<bool>::empty()) == s1);
    match r2 {
        Ok(EventPollOutcome::Idle) => {},
        Ok(EventPollOutcome::Advanced { .. }) => {},
        Ok(EventPollOutcome::Blocked { .. }) => {},
        Err(_) => {},
    }
    assert(answers2.len() == 1);
    assert(answers2.drop_last() =~= Seq::<bool>::empty());
    assert(answers2.last() == answers2[0]);
    let entries = notice_entries(step_notification(s1, ring, ev), answers2[0]);
    assert(run_log(s1, ring, ack1, answers2.drop_last()) == Seq::<(UiPumpNotification, bool)>::empty());
    assert(Seq::<(UiPumpNotification, bool)>::empty() + entries =~= entries);
}

proof fn lemma_kept_closed_retains(s: UiPumpView, ring: EventRingShared, ev: EventRingEvent, w: UiWindowKey, a: bool)
    requires
        ev.kind == EVT_UI_CLOSED,
        decode_closed_spec(cstr_text(ev.arg@)) == Some(w),
        !abandon_done_at(ring, next_seq(ev.seq), w),
    ensures
        event_step(s, ring, ev, a).1 == StepResult::Retain,
{
}

#[verifier::spinoff_prover]
proof fn lemma_run_log_push(s: UiPumpView, ring: EventRingShared, ack: u64, answers: Seq<bool>, a: bool)
    ensures
        run_log(s, ring, ack, answers.push(a)) == run_log(s, ring, ack, answers) + notice_entries(
            step_notification(run(s, ring, ack, answers), ring, event_at(ring, (ack + answers.len() + 1) as u64)),
            a,
        ),
        run(s, ring, ack, answers.push(a)) == event_step(
            run(s, ring, ack, answers),
            ring,
            event_at(ring, (ack + answers.len() + 1) as u64),
            a,
        ).0,
{
    let b = answers.push(a);
    assert(b.drop_last() =~= answers);
    assert(b.last() == a);
    assert(run_log(s, ring, ack, b) == run_log(s, ring, ack, b.drop_last()) + notice_entries(
        step_notification(run(s, ring, ack, b.drop_last()), ring, event_at(ring, (ack + b.len()) as u64)),
        b.last(),
    ));
    assert(run(s, ring, ack, b) == event_step(
        run(s, ring, ack, b.drop_last()),
        ring,
        event_at(ring, (ack + b.len()) as u64),
        b.last(),
    ).0);
}

/// The pump's handling of `ev` from state `s`, the sink answering `answer` if it is asked.
///
/// `UI_CLOSED` marks the window closing. It completes only when the child already published
/// `timeout-without-save` for that window right behind it (the safepoint is then abandoned);
/// otherwise the safepoint is notified once and stays unacknowledged until the engine's ack.
/// `UI_CLOSED_DONE` completes once its notification is delivered, closing the window.
pub open spec fn event_step(s: UiPumpView, ring: EventRingShared, ev: EventRingEvent, answer: bool) -> (UiPumpView, StepResult) {
    if ev.kind == EVT_UI_CLOSED {
        match decode_closed_spec(cstr_text(ev.arg@)) {
            None => (s, StepResult::Fail),
            Some(w) => {
                let s1 = UiPumpView { windows: with_lifecycle(s.windows, w, UiLifecycle::Closing), ..s };
                let pending = PendingSafepoint { window: w, evt_seq: ev.seq };
                if abandon_done_at(ring, next_seq(ev.seq), w) {
                    (
                        UiPumpView {
                            pending_safepoint: None,
                            windows: s1.windows.insert(
                                w,
                                UiWindowState { lifecycle: UiLifecycle::Closing, abandoned_safepoint: Some(ev.seq) },
                            ),
                            ..s1
                        },
                        StepResult::Complete,
                    )
                } else if s1.pending_safepoint == Some(pending) {
                    (s1, StepResult::Retain)
                } else if answer {
                    (UiPumpView { pending_safepoint: Some(pending), ..s1 }, StepResult::Retain)
                } else {
                    (s1, StepResult::Retain)
                }
            },
        }
    } else if ev.kind == EVT_UI_CLOSED_DONE {
        match decode_closed_done_spec(cstr_text(ev.arg@)) {
            None => (s, StepResult::Fail),
            Some(d) => if answer {
                (
                    UiPumpView {
                        windows: without_settled(with_lifecycle(s.windows, d.0, UiLifecycle::Closed), d.0),
                        ..s
                    },
                    StepResult::Complete,
                )
            } else {
                (s, StepResult::Retain)
            },
        }
    } else {
        (s, StepResult::Fail)
    }
}

/// The state after handling, in order, the events after `ack` with the sink answers `answers`.
pub open spec fn run(s: UiPumpView, ring: EventRingShared, ack: u64, answers: Seq<bool>) -> UiPumpView
    decreases answers.len(),
{
    if answers.len() == 0 {
        s
    } else {
        event_step(
            run(s, ring, ack, answers.drop_last()),
            ring,
            event_at(ring, (ack + answers.len()) as u64),
            answers.last(),
        ).0
    }
}

/// Whether every one of those steps completed its event.
pub open spec fn all_complete(s: UiPumpView, ring: EventRingShared, ack: u64, answers: Seq<bool>) -> bool
    decreases answers.len(),
{
    if answers.len() == 0 {
        true
    } else {
        all_complete(s, ring, ack, answers.drop_last()) && event_step(
            run(s, ring, ack, answers.drop_last()),
            ring,
            event_at(ring, (ack + answers.len()) as u64),
            answers.last(),
        ).1 == StepResult::Complete
    }
}

/// The windows after the teardown drain handled the `n` events after `ack`: every well-formed
/// `UI_CLOSED` leaves its window closing with that safepoint abandoned.
pub open spec fn drain_windows(m: Map<UiWindowKey, UiWindowState>, ring: EventRingShared, ack: u64, n: nat) -> Map<UiWindowKey, UiWindowState>
    decreases n,
{
    if n == 0 {
        m
    } else {
        drain_step(drain_windows(m, ring, ack, (n - 1) as nat), event_at(ring, (ack + n) as u64))
    }
}

/// The windows after the teardown drain handled `ev`.
pub open spec fn drain_step(m: Map<UiWindowKey, UiWindowState>, ev: EventRingEvent) -> Map<UiWindowKey, UiWindowState> {
    if ev.kind == EVT_UI_CLOSED {
        match decode_closed_spec(cstr_text(ev.arg@)) {
            Some(w) => m.insert(
                w,
                UiWindowState { lifecycle: UiLifecycle::Closing, abandoned_safepoint: Some(ev.seq) },
            ),
            None => m,
        }
    } else {
        m
    }
}

/// Whether `ev` is a well-formed `UI_CLOSED`.
pub open spec fn is_closed_event(ev: EventRingEvent) -> bool {
    ev.kind == EVT_UI_CLOSED && decode_closed_spec(cstr_text(ev.arg@)) is Some
}

/// The pending safepoint after the teardown drain handled the `n` events after `ack`, starting
/// from `p0`: every well-formed `UI_CLOSED` clears it.
pub open spec fn drain_pending(p0: Option<PendingSafepoint>, ring: EventRingShared, ack: u64, n: nat) -> Option<PendingSafepoint>
    decreases n,
{
    if n == 0 {
        p0
    } else if is_closed_event(event_at(ring, (ack + n) as u64)) {
        None
    } else {
        drain_pending(p0, ring, ack, (n - 1) as nat)
    }
}

/// The notification the teardown drain hands over for `ev` with `pending` pending: a safepoint
/// for a well-formed `UI_CLOSED` unless it is the pending one (already notified), a close
/// completion for a well-formed `UI_CLOSED_DONE`, nothing otherwise.
pub open spec fn drain_notification(pending: Option<PendingSafepoint>, generation: u64, ev: EventRingEvent) -> Option<UiPumpNotification> {
    if ev.kind == EVT_UI_CLOSED {
        match decode_closed_spec(cstr_text(ev.arg@)) {
            Some(w) => if pending == Some(PendingSafepoint { window: w, evt_seq: ev.seq }) {
                None
            } else {
                Some(UiPumpNotification::Safepoint { generation, evt_seq: ev.seq, window: w })
            },
            None => None,
        }
    } else if ev.kind == EVT_UI_CLOSED_DONE {
        match decode_closed_done_spec(cstr_text(ev.arg@)) {
            Some(d) => Some(UiPumpNotification::CloseDone { completion: d.1, window: d.0 }),
            None => None,
        }
    } else {
        None
    }
}

/// `Some(x)` as the one-element sequence of `x`, `None` as the empty one.
pub open spec fn option_seq(n: Option<UiPumpNotification>) -> Seq<UiPumpNotification> {
    match n {
        Some(x) => seq![x],
        None => Seq::empty(),
    }
}

/// The notifications the teardown drain hands over, in order, for the `n` events after `ack`.
pub open spec fn drain_notifications(
    p0: Option<PendingSafepoint>,
    generation: u64,
    ring: EventRingShared,
    ack: u64,
    n: nat,
) -> Seq<UiPumpNotification>
    decreases n,
{
    if n == 0 {
        Seq::empty()
    } else {
        drain_notifications(p0, generation, ring, ack, (n - 1) as nat) + option_seq(
            drain_notification(
                drain_pending(p0, ring, ack, (n - 1) as nat),
                generation,
                event_at(ring, (ack + n) as u64),
            ),
        )
    }
}

/// Every window closed, abandoned safepoints kept.
pub open spec fn all_closed(m: Map<UiWindowKey, UiWindowState>) -> Map<UiWindowKey, UiWindowState> {
    Map::new(
        |k: UiWindowKey| m.contains_key(k),
        |k: UiWindowKey| UiWindowState { lifecycle: UiLifecycle::Closed, ..m[k] },
    )
}

/// Whether the ring fields a poll does not write are the same in both regions.
pub open spec fn same_ring_payload(a: EventRingShared, b: EventRingShared) -> bool {
    &&& a.evt_seq == b.evt_seq
    &&& a.evt_kind == b.evt_kind
    &&& a.evt_arg == b.evt_arg
    &&& a.dirty_epoch == b.dirty_epoch
}

/// Whether `r`, with the pump going from `old_view` to `new_view` and the acknowledged sequence
/// from `ack` to `new_ack` on the ring `ring`, is an outcome of [`UiEventPump::poll_step`] for the
/// sink answers `answers`.
pub open spec fn polled_with(
    old_view: UiPumpView,
    new_view: UiPumpView,
    ring: EventRingShared,
    ack: u64,
    new_ack: u64,
    answers: Seq<bool>,
    r: Result<EventPollOutcome, UiEventPumpError>,
) -> bool {
    let n = new_ack - ack;
    let done = answers.take(n);
    &&& 0 <= n <= answers.len() <= n + 1
    &&& all_complete(old_view, ring, ack, done)
    &&& match r {
        Ok(EventPollOutcome::Idle) => n == 0 && answers.len() == 0 && ack == ring.evt_seq.value && new_view == old_view,
        Ok(EventPollOutcome::Advanced { handled }) => {
            &&& handled == n && n >= 1 && answers.len() == n
            &&& new_ack == ring.evt_seq.value
            &&& new_view == run(old_view, ring, ack, answers)
        },
        Ok(EventPollOutcome::Blocked { handled, seq, kind }) => {
            let step = event_step(run(old_view, ring, ack, done), ring, event_at(ring, seq), answers[n]);
            &&& handled == n && answers.len() == n + 1
            &&& seq == new_ack + 1 && seq <= ring.evt_seq.value
            &&& kind == ring.evt_kind[(seq % 2) as int]
            &&& step.1 == StepResult::Retain && new_view == step.0
        },
        Err(UiEventPumpError::Protocol(_)) => {
            let seq = (new_ack + 1) as u64;
            let step = event_step(run(old_view, ring, ack, done), ring, event_at(ring, seq), answers[n]);
            &&& answers.len() == n + 1
            &&& new_ack + 1 <= ring.evt_seq.value
            &&& step.1 == StepResult::Fail && new_view == step.0
        },
        Err(_) => false,
    }
}

/// Whether `r`, with the pump going from `old_view` to `new_view` and the ring from `old_ring`
/// to `new_ring`, is the outcome of [`UiEventPump::ack_safepoint`] for (`generation`, `window`,
/// `evt_seq`).
pub open spec fn safepoint_acked(
    old_view: UiPumpView,
    new_view: UiPumpView,
    old_ring: EventRingShared,
    new_ring: EventRingShared,
    generation: u64,
    window: UiWindowKey,
    evt_seq: u64,
    r: Result<(), UiEventPumpError>,
) -> bool {
    let s = old_view;
    let ack = old_ring.evt_ack_seq.value;
    let published = old_ring.evt_seq.value;
    let late = s.windows.contains_key(window) && s.windows[window].abandoned_safepoint == Some(evt_seq);
    if generation != s.generation {
        &&& r matches Err(UiEventPumpError::GenerationMismatch { expected, actual })
            && expected == s.generation && actual == generation
        &&& new_view == s
        &&& new_ring.evt_ack_seq == old_ring.evt_ack_seq
    } else if late && ack >= evt_seq {
        &&& r is Ok
        &&& new_view == (UiPumpView {
            windows: without_settled(
                s.windows.insert(window, UiWindowState { abandoned_safepoint: None, ..s.windows[window] }),
                window,
            ),
            ..s
        })
        &&& new_ring.evt_ack_seq == old_ring.evt_ack_seq
    } else if s.pending_safepoint != Some(PendingSafepoint { window, evt_seq }) {
        &&& r matches Err(UiEventPumpError::Protocol(UiProtocolError::SafepointMismatch { window: w, evt_seq: e, pending }))
            && w == window && e == evt_seq && pending == s.pending_safepoint
        &&& new_view == s
        &&& new_ring.evt_ack_seq == old_ring.evt_ack_seq
    } else if next_seq(ack) != evt_seq || evt_seq > published {
        &&& r matches Err(UiEventPumpError::Protocol(UiProtocolError::SafepointNotHead { evt_seq: e, ack: a, published: p }))
            && e == evt_seq && a == ack && p == published
        &&& new_view == s
        &&& new_ring.evt_ack_seq == old_ring.evt_ack_seq
    } else {
        &&& r is Ok
        &&& new_view == (UiPumpView { pending_safepoint: None, ..s })
        &&& new_ring.evt_ack_seq.value == evt_seq
    }

}

/// Whether `pending` is exactly the safepoint (`window`, `seq`).
fn is_pending(pending: Option<PendingSafepoint>, window: UiWindowKey, seq: u64) -> (r: bool)
    ensures
        r == (pending == Some(PendingSafepoint { window, evt_seq: seq })),
{
    match pending {
        Some(p) => p.evt_seq == seq && same_key(p.window, window),
        None => false,
    }
}

/// Equality of window keys.
fn same_key(a: UiWindowKey, b: UiWindowKey) -> (r: bool)
    ensures
        r == (a == b),
{
    match (a, b) {
        (None, None) => true,
        (Some(x), Some(y)) => x == y,
        _ => false,
    }
}

/// Whether the event after a blocked safepoint is the child's `timeout-without-save` completion
/// for the same window (only then may the safepoint be abandoned).
pub fn is_abandon_done_published(region: &EventRingShared, next_seq: u64, window: UiWindowKey) -> (r: bool)
    ensures
        r == abandon_done_at(*region, next_seq, window),
{
    let published = region.evt_seq.read();
    if published < next_seq {
        return false;
    }
    let index = evt_slot_index(next_seq);
    let next_kind = region.evt_kind[index];
    let next_arg = read_cstr_field(&region.evt_arg[index]);
    if next_kind != EVT_UI_CLOSED_DONE {
        return false;
    }
    match decode_ui_closed_done_arg(next_arg) {
        Ok((w, completion)) => same_key(w, window) && match completion {
            UiCloseCompletion::TimedOutWithoutSave => true,
            UiCloseCompletion::SafepointCompleted => false,
        },
        Err(_) => false,
    }
}

impl UiEventPump {
    pub open spec fn view(&self) -> UiPumpView {
        self.state@
    }

    pub open spec fn wf(&self) -> bool {
        self.state.wf()
    }

    /// A pump at generation 0 with no windows and nothing pending.
    pub fn new() -> (r: Self)
        ensures
            r.wf(),
            r@.generation == 0,
            r@.pending_safepoint is None,
            r@.windows == Map::<UiWindowKey, UiWindowState>::empty(),
    {
        UiEventPump { state: UiPumpState::new() }
    }

    /// Reserve the lifecycle right before `OPEN_UI` is issued for `window`; refused (before
    /// anything reaches the child) when the window is not closed.
    pub fn begin_open(&mut self, window: UiWindowKey) -> (r: Result<(), UiEventPumpError>)
        requires
            old(self).wf(),
        ensures
            final(self).wf(),
            ({
                let lc = if old(self)@.windows.contains_key(window) {
                    old(self)@.windows[window].lifecycle
                } else {
                    UiLifecycle::Closed
                };
                if lc == UiLifecycle::Closed {
                    r is Ok && final(self)@ == (UiPumpView {
                        windows: old(self)@.windows.insert(window, fresh_window(UiLifecycle::Opening)),
                        ..old(self)@
                    })
                } else {
                    r matches Err(UiEventPumpError::Protocol(UiProtocolError::OpenWhileNotClosed { window: w, lifecycle }))
                        && w == window && lifecycle == lc && final(self)@ == old(self)@
                }
            }),
    {
        let lifecycle = self.state.lifecycle_of(window);
        match lifecycle {
            UiLifecycle::Closed => {},
            _ => {
                return Err(UiEventPumpError::Protocol(UiProtocolError::OpenWhileNotClosed { window, lifecycle }));
            },
        }
        self.state.put(window, UiWindowState { lifecycle: UiLifecycle::Opening, abandoned_safepoint: None });
        Ok(())
    }

    /// Settle a reservation once `OPEN_UI` finished: open on success, closed (and forgotten when
    /// nothing else is recorded) on failure. A window no longer opening is left as it is.
    pub fn finish_open(&mut self, window: UiWindowKey, succeeded: bool)
        requires
            old(self).wf(),
        ensures
            final(self).wf(),
            if old(self)@.windows.contains_key(window) && old(self)@.windows[window].lifecycle != UiLifecycle::Opening {
                final(self)@ == old(self)@
            } else if old(self)@.windows.contains_key(window) {
                final(self)@ == (UiPumpView {
                    windows: without_settled(
                        with_lifecycle(
                            old(self)@.windows,
                            window,
                            if succeeded { UiLifecycle::Open } else { UiLifecycle::Closed },
                        ),
                        window,
                    ),
                    ..old(self)@
                })
            } else {
                final(self)@ == old(self)@
            },
    {
        let lifecycle = self.state.lifecycle_of(window);
        let present = self.state.find(window).is_ok();
        proof {
            if present {
                let i = choose|i: int| 0 <= i < self.state.windows@.len() && self.state.windows@[i].0 == window;
                lemma_map_at(self.state.windows@, i);
            }
        }
        if present {
            match lifecycle {
                UiLifecycle::Opening => {},
                _ => {
                    return;
                },
            }
            let next = if succeeded {
                UiLifecycle::Open
            } else {
                UiLifecycle::Closed
            };
            self.state.set_lifecycle(window, next);
        }
        self.state.remove_settled_window(window);
    }

    /// One watchdog tick: handle the published events in order from `evt_ack_seq + 1`,
    /// acknowledging each completed one, and stop at the first event that is kept (a safepoint
    /// waiting for the engine, or a notification the sink could not take) or that violates the
    /// protocol (reported as an error after the earlier events were acknowledged). The sink is
    /// handed, in order, the notification of each handled event that has one
    /// ([`step_notification`]); a safepoint already pending is not handed over again.
    #[verifier::spinoff_prover]
    #[verifier::rlimit(40)]
    pub fn poll_step<S: UiNotificationSink>(&mut self, region: &mut EventRingShared, sink: &mut S) -> (r: Result<
        EventPollOutcome,
        UiEventPumpError,
    >)
        requires
            old(self).wf(),
            old(sink).ready(),
            old(region).evt_seq.value - old(region).evt_ack_seq.value <= usize::MAX,
        ensures
            final(self).wf(),
            final(sink).ready(),
            same_ring_payload(*final(region), *old(region)),
            old(region).evt_ack_seq.value > old(region).evt_seq.value ==> {
                &&& r == Err::<EventPollOutcome, UiEventPumpError>(
                    UiEventPumpError::Ring(
                        EventRingHostError::AckExceedsPublished {
                            ack: old(region).evt_ack_seq.value,
                            published: old(region).evt_seq.value,
                        },
                    ),
                )
                &&& final(region).evt_ack_seq == old(region).evt_ack_seq
                &&& final(self)@ == old(self)@
                &&& final(sink).log() == old(sink).log()
            },
            old(region).evt_ack_seq.value <= old(region).evt_seq.value ==> exists|answers: Seq<bool>|
                polled_with(
                    old(self)@,
                    final(self)@,
                    *old(region),
                    old(region).evt_ack_seq.value,
                    final(region).evt_ack_seq.value,
                    answers,
                    r,
                ) && final(sink).log() == old(sink).log() + run_log(
                    old(self)@,
                    *old(region),
                    old(region).evt_ack_seq.value,
                    answers,
                ),
    {
        let ghost s0 = self.state@;
        let ghost ring0 = *region;
        let ghost ack0 = region.evt_ack_seq.value;
        let ghost mut answers: Seq<bool> = Seq::empty();
        let ghost log0 = sink.log();
        let mut handled: usize = 0;
        proof {
            assert(log0 + run_log(s0, ring0, ack0, answers) =~= log0);
        }
        loop
            invariant
                self.wf(),
                sink.ready(),
                s0 == old(self)@,
                log0 == old(sink).log(),
                ack0 > ring0.evt_seq.value ==> sink.log() == log0,
                ack0 <= ring0.evt_seq.value ==> sink.log() == log0 + run_log(s0, ring0, ack0, answers),
                ring0 == *old(region),
                ack0 == ring0.evt_ack_seq.value,
                same_ring_payload(*region, ring0),
                ring0.evt_seq.value - ring0.evt_ack_seq.value <= usize::MAX,
                ack0 > ring0.evt_seq.value ==> handled == 0 && region.evt_ack_seq.value == ack0 && self@ == s0,
                ack0 <= ring0.evt_seq.value ==> {
                    &&& region.evt_ack_seq.value == ack0 + handled
                    &&& region.evt_ack_seq.value <= ring0.evt_seq.value
                    &&& answers.len() == handled
                    &&& all_complete(s0, ring0, ack0, answers)
                    &&& self@ == run(s0, ring0, ack0, answers)
                },
            decreases ring0.evt_seq.value - region.evt_ack_seq.value,
        {
            let ack = region.evt_ack_seq.load_own();
            let published = region.evt_seq.read();
            if ack > published {
                return Err(UiEventPumpError::Ring(EventRingHostError::AckExceedsPublished { ack, published }));
            }
            if ack == published {
                proof {
                    assert(answers.take(handled as int) =~= answers);
                    assert(polled_with(s0, self@, ring0, ack0, region.evt_ack_seq.value, answers, if handled == 0 {
                        Ok::<EventPollOutcome, UiEventPumpError>(EventPollOutcome::Idle)
                    } else {
                        Ok::<EventPollOutcome, UiEventPumpError>(EventPollOutcome::Advanced { handled })
                    }));
                }
                if handled == 0 {
                    return Ok(EventPollOutcome::Idle);
                } else {
                    return Ok(EventPollOutcome::Advanced { handled });
                }
            }
            let seq = ack + 1;
            let index = evt_slot_index(seq);
            let event = EventRingEvent { seq, kind: region.evt_kind[index], arg: region.evt_arg[index] };
            let kind = event.kind;
            let ghost before = self.state@;
            proof {
                assert(event == event_at(ring0, seq));
            }
            let ghost log_before = sink.log();
            let outcome = self.handle_event(region, event, sink);
            let ghost a = choose|a: bool|
                (self.state@, step_result(outcome)) == event_step(before, *region, event, a) && sink.log() == log_before
                    + notice_entries(step_notification(before, *region, event), a);
            proof {
                assert(event_step(before, *region, event, a) == event_step(before, ring0, event, a));
                assert(step_notification(before, *region, event) == step_notification(before, ring0, event));
                lemma_run_log_push(s0, ring0, ack0, answers, a);
                let entries = notice_entries(step_notification(before, ring0, event), a);
                assert(sink.log() =~= log0 + (run_log(s0, ring0, ack0, answers) + entries));
            }
            match outcome {
                HandleOutcome::Complete => {
                    region.evt_ack_seq.publish(seq);
                    proof {
                        let next = answers.push(a);
                        assert(next.drop_last() =~= answers);
                        answers = next;
                    }
                    handled = handled + 1;
                },
                HandleOutcome::Retain => {
                    proof {
                        let all = answers.push(a);
                        assert(all.take(handled as int) =~= answers);
                        assert(all[handled as int] == a);
                        assert(polled_with(s0, self@, ring0, ack0, region.evt_ack_seq.value, all,
                            Ok::<EventPollOutcome, UiEventPumpError>(EventPollOutcome::Blocked { handled, seq, kind })));
                    }
                    return Ok(EventPollOutcome::Blocked { handled, seq, kind });
                },
                HandleOutcome::Fail(error) => {
                    let r = Err(UiEventPumpError::Protocol(error));
                    proof {
                        let all = answers.push(a);
                        assert(all.take(handled as int) =~= answers);
                        assert(all[handled as int] == a);
                        assert(polled_with(s0, self@, ring0, ack0, region.evt_ack_seq.value, all, r));
                    }
                    return r;
                },
            }
        }
    }

    /// The engine finished the safepoint (`generation`, `window`, `evt_seq`): saved, renamed and
    /// registered. A late ack of a safepoint abandoned after the child's timeout is accepted once
    /// the ring has moved past it. Otherwise the triplet must be the pending safepoint of the
    /// current generation and the in-order head of the ring; only then is it acknowledged.
    pub fn ack_safepoint(&mut self, region: &mut EventRingShared, generation: u64, window: UiWindowKey, evt_seq: u64) -> (r: Result<
        (),
        UiEventPumpError,
    >)
        requires
            old(self).wf(),
        ensures
            final(self).wf(),
            same_ring_payload(*final(region), *old(region)),
            safepoint_acked(old(self)@, final(self)@, *old(region), *final(region), generation, window, evt_seq, r),
    {
        if generation != self.state.generation {
            return Err(UiEventPumpError::GenerationMismatch { expected: self.state.generation, actual: generation });
        }
        let ack = region.evt_ack_seq.load_own();
        let abandoned = self.state.abandoned_of(window);
        let late_abandoned = match abandoned {
            Some(a) => a == evt_seq,
            None => false,
        };
        if late_abandoned && ack >= evt_seq {
            let lifecycle = self.state.lifecycle_of(window);
            self.state.put(window, UiWindowState { lifecycle, abandoned_safepoint: None });
            self.state.remove_settled_window(window);
            proof {
                let s = old(self)@;
                assert(s.windows.insert(window, UiWindowState { abandoned_safepoint: None, ..s.windows[window] })
                    =~= s.windows.insert(window, UiWindowState { lifecycle, abandoned_safepoint: None }));
            }
            return Ok(());
        }
        if !is_pending(self.state.pending_safepoint, window, evt_seq) {
            return Err(
                UiEventPumpError::Protocol(
                    UiProtocolError::SafepointMismatch { window, evt_seq, pending: self.state.pending_safepoint },
                ),
            );
        }
        let published = region.evt_seq.read();
        if ack.saturating_add(1) != evt_seq || evt_seq > published {
            return Err(UiEventPumpError::Protocol(UiProtocolError::SafepointNotHead { evt_seq, ack, published }));
        }
        region.evt_ack_seq.publish(evt_seq);
        self.state.pending_safepoint = None;
        Ok(())
    }

    /// The only reset path after the old child is known to be dead and before a replacement is
    /// spawned: report the windows that were not closed (in key order), drop a pending safepoint,
    /// reset the mailbox and the region, hand what the mailbox released to `cleanup` (removing
    /// its sidecar), and — when that succeeded — start a new generation with no windows.
    pub fn reset_after_child_exit<P, F>(
        &mut self,
        mailbox: &mut CommandMailboxHost<P>,
        region: &mut SharedControl,
        cleanup: F,
    ) -> (r: Result<UiPumpResetOutcome, UiEventPumpError>)
        where
            F: FnOnce(MailboxReset<P>) -> Result<(), CommandMailboxError>,
        requires
            old(self).wf(),
            forall|m: MailboxReset<P>| call_requires(cleanup, (m,)),
        ensures
            final(self).wf(),
            crate::shared::reset_child_starting_post(*old(region), *final(region)),
            final(mailbox).in_flight is None,
            final(mailbox).generation == if old(mailbox).generation == u64::MAX {
                0
            } else {
                (old(mailbox).generation + 1) as u64
            },
            final(self)@.pending_safepoint is None,
            exists|released: MailboxReset<P>, cleaned: Result<(), CommandMailboxError>|
                #![trigger call_ensures(cleanup, (released,), cleaned)]
                released.released == old(mailbox).in_flight && call_ensures(cleanup, (released,), cleaned)
                    && match cleaned {
                    Ok(_) => {
                        &&& r matches Ok(outcome) && outcome.closed_windows@ == open_keys(old(self).state.windows@)
                            && outcome.generation == final(self)@.generation
                        &&& final(self)@.generation == if old(self)@.generation == u64::MAX {
                            0
                        } else {
                            (old(self)@.generation + 1) as u64
                        }
                        &&& final(self)@.windows == Map::<UiWindowKey, UiWindowState>::empty()
                    },
                    Err(e) => {
                        &&& r == Err::<UiPumpResetOutcome, UiEventPumpError>(UiEventPumpError::Mailbox(e))
                        &&& final(self)@.generation == old(self)@.generation
                        &&& final(self)@.windows == old(self)@.windows
                    },
                },
    {
        let closed_windows = self.open_windows();
        self.state.pending_safepoint = None;
        let released = mailbox.reset_after_child_exit(region);
        let ghost rel = released;
        let cleaned = cleanup(released);
        match cleaned {
            Ok(()) => {},
            Err(e) => {
                return Err(UiEventPumpError::Mailbox(e));
            },
        }
        self.state.generation = self.state.generation.wrapping_add(1);
        self.state.windows = Vec::new();
        proof {
            assert(self.state@.windows =~= Map::<UiWindowKey, UiWindowState>::empty());
        }
        Ok(UiPumpResetOutcome { closed_windows, generation: self.state.generation })
    }

    /// Keys of the windows that are not closed, in key order.
    fn open_windows(&self) -> (r: Vec<UiWindowKey>)
        ensures
            r@ == open_keys(self.state.windows@),
    {
        let mut keys: Vec<UiWindowKey> = Vec::new();
        let mut i: usize = 0;
        while i < self.state.windows.len()
            invariant
                0 <= i <= self.state.windows@.len(),
                keys@ == open_keys(self.state.windows@.take(i as int)),
            decreases self.state.windows@.len() - i,
        {
            let (key, w) = self.state.windows[i];
            proof {
                assert(self.state.windows@.take(i + 1).drop_last() =~= self.state.windows@.take(i as int));
            }
            match w.lifecycle {
                UiLifecycle::Closed => {},
                _ => {
                    keys.push(key);
                },
            }
            i += 1;
        }
        proof {
            assert(self.state.windows@.take(i as int) =~= self.state.windows@);
        }
        keys
    }

    /// Before a normal teardown's `QUIT`: handle every published event one last time and
    /// acknowledge all of them. Safepoints can no longer complete: each is notified if it had
    /// not been, then abandoned; close completions are notified; malformed or unknown events are
    /// discarded. Finally nothing is pending and every window is closed. The sink is handed, in
    /// order, the notifications of [`drain_notifications`]; its answers change nothing.
    pub fn final_drain<S: UiNotificationSink>(&mut self, region: &mut EventRingShared, sink: &mut S) -> (r: Result<
        EventPollOutcome,
        UiEventPumpError,
    >)
        requires
            old(self).wf(),
            old(sink).ready(),
            old(region).evt_seq.value - old(region).evt_ack_seq.value <= usize::MAX,
        ensures
            final(self).wf(),
            final(sink).ready(),
            same_ring_payload(*final(region), *old(region)),
            old(region).evt_ack_seq.value > old(region).evt_seq.value ==> {
                &&& r == Err::<EventPollOutcome, UiEventPumpError>(
                    UiEventPumpError::Ring(
                        EventRingHostError::AckExceedsPublished {
                            ack: old(region).evt_ack_seq.value,
                            published: old(region).evt_seq.value,
                        },
                    ),
                )
                &&& final(region).evt_ack_seq == old(region).evt_ack_seq
                &&& final(self)@ == old(self)@
                &&& final(sink).log() == old(sink).log()
            },
            old(region).evt_ack_seq.value <= old(region).evt_seq.value ==> {
                let n = old(region).evt_seq.value - old(region).evt_ack_seq.value;
                &&& final(region).evt_ack_seq.value == old(region).evt_seq.value
                &&& notified(
                    old(sink).log(),
                    final(sink).log(),
                    drain_notifications(
                        old(self)@.pending_safepoint,
                        old(self)@.generation,
                        *old(region),
                        old(region).evt_ack_seq.value,
                        n as nat,
                    ),
                )
                &&& r == Ok::<EventPollOutcome, UiEventPumpError>(
                    if n == 0 {
                        EventPollOutcome::Idle
                    } else {
                        EventPollOutcome::Advanced { handled: n as usize }
                    },
                )
                &&& final(self)@ == (UiPumpView {
                    generation: old(self)@.generation,
                    pending_safepoint: None,
                    windows: all_closed(
                        drain_windows(old(self)@.windows, *old(region), old(region).evt_ack_seq.value, n as nat),
                    ),
                })
            },
    {
        let ghost ring0 = *region;
        let ghost ack0 = region.evt_ack_seq.value;
        let ghost w0 = self.state@.windows;
        let ghost p0 = self.state@.pending_safepoint;
        let ghost log0 = sink.log();
        let mut handled: usize = 0;
        proof {
            assert(log0.subrange(0, log0.len() as int) =~= log0);
        }
        loop
            invariant
                self.wf(),
                sink.ready(),
                ring0 == *old(region),
                ack0 == ring0.evt_ack_seq.value,
                w0 == old(self)@.windows,
                p0 == old(self)@.pending_safepoint,
                log0 == old(sink).log(),
                ack0 > ring0.evt_seq.value ==> sink.log() == log0,
                ack0 <= ring0.evt_seq.value ==> {
                    &&& self@.pending_safepoint == drain_pending(p0, ring0, ack0, handled as nat)
                    &&& notified(log0, sink.log(), drain_notifications(p0, self@.generation, ring0, ack0, handled as nat))
                },
                same_ring_payload(*region, ring0),
                ring0.evt_seq.value - ring0.evt_ack_seq.value <= usize::MAX,
                self@.generation == old(self)@.generation,
                ack0 > ring0.evt_seq.value ==> handled == 0 && region.evt_ack_seq.value == ack0 && self@ == old(self)@,
                ack0 <= ring0.evt_seq.value ==> {
                    &&& region.evt_ack_seq.value == ack0 + handled
                    &&& region.evt_ack_seq.value <= ring0.evt_seq.value
                    &&& self@.windows == drain_windows(w0, ring0, ack0, handled as nat)
                },
            ensures
                ack0 <= ring0.evt_seq.value,
                notified(log0, sink.log(), drain_notifications(p0, self@.generation, ring0, ack0, handled as nat)),
                region.evt_ack_seq.value == ring0.evt_seq.value,
                region.evt_ack_seq.value == ack0 + handled,
                self@.windows == drain_windows(w0, ring0, ack0, handled as nat),
                self@.generation == old(self)@.generation,
            decreases ring0.evt_seq.value - region.evt_ack_seq.value,
        {
            let ack = region.evt_ack_seq.load_own();
            let published = region.evt_seq.read();
            if ack > published {
                return Err(UiEventPumpError::Ring(EventRingHostError::AckExceedsPublished { ack, published }));
            }
            if ack == published {
                break;
            }
            let seq = ack + 1;
            let index = evt_slot_index(seq);
            let event = EventRingEvent { seq, kind: region.evt_kind[index], arg: region.evt_arg[index] };
            proof {
                assert(event == event_at(ring0, seq));
            }
            let ghost log_before = sink.log();
            self.drain_event(event, sink);
            proof {
                assert(self@.windows == drain_windows(w0, ring0, ack0, (handled + 1) as nat));
                lemma_notified_chain(
                    log0,
                    log_before,
                    sink.log(),
                    drain_notifications(p0, self@.generation, ring0, ack0, handled as nat),
                    option_seq(drain_notification(drain_pending(p0, ring0, ack0, handled as nat), self@.generation, event)),
                );
            }
            region.evt_ack_seq.publish(seq);
            handled = handled + 1;
        }
        self.state.pending_safepoint = None;
        self.close_all_windows();
        if handled == 0 {
            Ok(EventPollOutcome::Idle)
        } else {
            Ok(EventPollOutcome::Advanced { handled })
        }
    }

    /// The teardown handling of one event.
    fn drain_event<S: UiNotificationSink>(&mut self, event: EventRingEvent, sink: &mut S)
        requires
            old(self).wf(),
            old(sink).ready(),
        ensures
            final(self).wf(),
            final(sink).ready(),
            final(self)@.windows == drain_step(old(self)@.windows, event),
            final(self)@.generation == old(self)@.generation,
            final(self)@.pending_safepoint == if is_closed_event(event) {
                None
            } else {
                old(self)@.pending_safepoint
            },
            notified(
                old(sink).log(),
                final(sink).log(),
                option_seq(drain_notification(old(self)@.pending_safepoint, old(self)@.generation, event)),
            ),
    {
        let ghost log0 = sink.log();
        proof {
            assert(log0.subrange(0, log0.len() as int) =~= log0);
        }
        let seq = event.seq;
        if event.kind == EVT_UI_CLOSED {
            match decode_ui_closed_arg(event.arg()) {
                Ok(window) => {
                    self.state.set_lifecycle(window, UiLifecycle::Closing);
                    if !is_pending(self.state.pending_safepoint, window, seq) {
                        let _ = sink.deliver(
                            UiPumpNotification::Safepoint { generation: self.state.generation, evt_seq: seq, window },
                        );
                        proof {
                            assert(sink.log().subrange(0, log0.len() as int) =~= log0);
                        }
                    }
                    self.state.pending_safepoint = None;
                    self.state.put(
                        window,
                        UiWindowState { lifecycle: UiLifecycle::Closing, abandoned_safepoint: Some(seq) },
                    );
                    proof {
                        assert(self@.windows =~= drain_step(old(self)@.windows, event));
                    }
                },
                Err(_) => {},
            }
        } else if event.kind == EVT_UI_CLOSED_DONE {
            match decode_ui_closed_done_arg(event.arg()) {
                Ok((window, completion)) => {
                    let _ = sink.deliver(UiPumpNotification::CloseDone { completion, window });
                    proof {
                        assert(sink.log().subrange(0, log0.len() as int) =~= log0);
                    }
                },
                Err(_) => {},
            }
        }
    }

    /// Mark every window closed, keeping the entries.
    fn close_all_windows(&mut self)
        requires
            old(self).wf(),
        ensures
            final(self).wf(),
            final(self)@ == (UiPumpView { windows: all_closed(old(self)@.windows), ..old(self)@ }),
    {
        let ghost old_v = self.state.windows@;
        let mut i: usize = 0;
        while i < self.state.windows.len()
            invariant
                0 <= i <= self.state.windows@.len(),
                self.state.windows@.len() == old_v.len(),
                windows_wf(old_v),
                forall|j: int| 0 <= j < old_v.len() ==> (#[trigger] self.state.windows@[j]).0 == old_v[j].0,
                forall|j: int|
                    0 <= j < i ==> (#[trigger] self.state.windows@[j]).1 == (UiWindowState {
                        lifecycle: UiLifecycle::Closed,
                        ..old_v[j].1
                    }),
                forall|j: int| i <= j < old_v.len() ==> (#[trigger] self.state.windows@[j]).1 == old_v[j].1,
                self.state.generation == old(self).state.generation,
                self.state.pending_safepoint == old(self).state.pending_safepoint,
            decreases old_v.len() - i,
        {
            let (key, w) = self.state.windows[i];
            self.state.windows.set(i, (key, UiWindowState { lifecycle: UiLifecycle::Closed, abandoned_safepoint: w.abandoned_safepoint }));
            i += 1;
        }
        proof {
            let v = self.state.windows@;
            assert forall|a: int, b: int| 0 <= a < b < v.len() implies key_lt(#[trigger] v[a].0, #[trigger] v[b].0) by {
                assert(key_lt(old_v[a].0, old_v[b].0));
            }
            let target = all_closed(windows_map(old_v));
            assert forall|k: UiWindowKey| #![auto] windows_map(v).contains_key(k) == target.contains_key(k) by {
                if windows_map(v).contains_key(k) {
                    lemma_map_keys(v, k);
                    let j = choose|j: int| 0 <= j < v.len() && v[j].0 == k;
                    assert(old_v[j].0 == k);
                }
                if windows_map(old_v).contains_key(k) {
                    lemma_map_keys(old_v, k);
                    let j = choose|j: int| 0 <= j < old_v.len() && old_v[j].0 == k;
                    assert(v[j].0 == k);
                }
            }
            assert forall|k: UiWindowKey| #[trigger] windows_map(v).contains_key(k) implies windows_map(v)[k] == target[k] by {
                lemma_map_keys(v, k);
                let j = choose|j: int| 0 <= j < v.len() && v[j].0 == k;
                lemma_map_at(v, j);
                lemma_map_at(old_v, j);
            }
            assert(windows_map(v) =~= target);
        }
    }

    /// Handle one event (see [`event_step`]).
    fn handle_event<S: UiNotificationSink>(&mut self, ring: &EventRingShared, event: EventRingEvent, sink: &mut S) -> (r: HandleOutcome)
        requires
            old(self).wf(),
            old(sink).ready(),
        ensures
            final(self).wf(),
            final(sink).ready(),
            exists|a: bool|
                (final(self)@, step_result(r)) == event_step(old(self)@, *ring, event, a) && final(sink).log()
                    == old(sink).log() + notice_entries(step_notification(old(self)@, *ring, event), a),
    {
        let ghost s0 = self.state@;
        let ghost log0 = sink.log();
        proof {
            assert(log0 + Seq::<(UiPumpNotification, bool)>::empty() =~= log0);
        }
        if event.kind == EVT_UI_CLOSED {
            let window = match decode_ui_closed_arg(event.arg()) {
                Ok(w) => w,
                Err(error) => {
                    proof {
                        assert(event_step(s0, *ring, event, true) == (s0, StepResult::Fail));
                    }
                    return HandleOutcome::Fail(UiProtocolError::InvalidClosedArg { seq: event.seq, error });
                },
            };
            self.state.set_lifecycle(window, UiLifecycle::Closing);
            let next = event.seq.saturating_add(1);
            if is_abandon_done_published(ring, next, window) {
                self.state.pending_safepoint = None;
                self.state.put(
                    window,
                    UiWindowState { lifecycle: UiLifecycle::Closing, abandoned_safepoint: Some(event.seq) },
                );
                proof {
                    assert(self.state@.windows =~= event_step(s0, *ring, event, true).0.windows);
                    assert((self.state@, StepResult::Complete) == event_step(s0, *ring, event, true));
                }
                return HandleOutcome::Complete;
            }
            if !is_pending(self.state.pending_safepoint, window, event.seq) {
                let notification = UiPumpNotification::Safepoint {
                    generation: self.state.generation,
                    evt_seq: event.seq,
                    window,
                };
                if !sink.deliver(notification) {
                    proof {
                        assert((self.state@, StepResult::Retain) == event_step(s0, *ring, event, false));
                        assert(sink.log() =~= log0 + notice_entries(step_notification(s0, *ring, event), false));
                    }
                    return HandleOutcome::Retain;
                }
                self.state.pending_safepoint = Some(PendingSafepoint { window, evt_seq: event.seq });
                proof {
                    assert(sink.log() =~= log0 + notice_entries(step_notification(s0, *ring, event), true));
                }
            }
            proof {
                assert((self.state@, StepResult::Retain) == event_step(s0, *ring, event, true));
                assert(sink.log() == log0 + notice_entries(step_notification(s0, *ring, event), true));
            }
            HandleOutcome::Retain
        } else if event.kind == EVT_UI_CLOSED_DONE {
            let (window, completion) = match decode_ui_closed_done_arg(event.arg()) {
                Ok(d) => d,
                Err(error) => {
                    proof {
                        assert(event_step(s0, *ring, event, true) == (s0, StepResult::Fail));
                    }
                    return HandleOutcome::Fail(UiProtocolError::InvalidClosedDoneArg { seq: event.seq, error });
                },
            };
            if sink.deliver(UiPumpNotification::CloseDone { completion, window }) {
                self.state.set_lifecycle(window, UiLifecycle::Closed);
                self.state.remove_settled_window(window);
                proof {
                    assert((self.state@, StepResult::Complete) == event_step(s0, *ring, event, true));
                    assert(sink.log() =~= log0 + notice_entries(step_notification(s0, *ring, event), true));
                }
                HandleOutcome::Complete
            } else {
                proof {
                    assert((self.state@, StepResult::Retain) == event_step(s0, *ring, event, false));
                    assert(sink.log() =~= log0 + notice_entries(step_notification(s0, *ring, event), false));
                }
                HandleOutcome::Retain
            }
        } else {
            proof {
                assert(event_step(s0, *ring, event, true) == (s0, StepResult::Fail));
            }
            HandleOutcome::Fail(UiProtocolError::UnknownKind { seq: event.seq, kind: event.kind })
        }
    }
}

/// The windows a respawn reset reports are exactly the windows that were not closed, each once,
/// in key order.
pub proof fn lemma_reset_reports_open_windows_in_key_order(v: Seq<(UiWindowKey, UiWindowState)>)
    requires
        windows_wf(v),
    ensures
        forall|i: int, j: int| 0 <= i < j < open_keys(v).len() ==> key_lt(open_keys(v)[i], open_keys(v)[j]),
        forall|k: UiWindowKey| open_keys(v).contains(k) <==> (windows_map(v).contains_key(k) && windows_map(v)[k].lifecycle != UiLifecycle::Closed),
    decreases v.len(),
{
    if v.len() > 0 {
        let init = v.drop_last();
        let last = v.last();
        assert(windows_wf(init));
        lemma_reset_reports_open_windows_in_key_order(init);
        lemma_map_push(v);
        let oi = open_keys(init);
        let ok = open_keys(v);
        assert forall|k: UiWindowKey| oi.contains(k) implies key_lt(k, last.0) by {
            lemma_map_keys(init, k);
            let j = choose|j: int| 0 <= j < init.len() && init[j].0 == k;
            assert(v[j] == init[j]);
        }
        assert forall|i: int, j: int| 0 <= i < j < ok.len() implies key_lt(ok[i], ok[j]) by {
            if j >= oi.len() {
                assert(oi.contains(oi[i]));
            }
        }
        assert(!windows_map(init).contains_key(last.0)) by {
            if windows_map(init).contains_key(last.0) {
                lemma_map_keys(init, last.0);
                let j = choose|j: int| 0 <= j < init.len() && init[j].0 == last.0;
                assert(v[j] == init[j]);
                assert(key_lt(v[j].0, v[v.len() - 1].0));
            }
        }
        assert forall|k: UiWindowKey| #![auto] ok.contains(k) <==> (windows_map(v).contains_key(k)
            && windows_map(v)[k].lifecycle != UiLifecycle::Closed) by {
            if last.1.lifecycle != UiLifecycle::Closed {
                assert(ok == oi.push(last.0));
                if ok.contains(k) {
                    let i = choose|i: int| 0 <= i < ok.len() && ok[i] == k;
                    if i < oi.len() {
                        assert(oi[i] == k);
                        assert(oi.contains(k));
                    }
                }
                if oi.contains(k) {
                    let i = choose|i: int| 0 <= i < oi.len() && oi[i] == k;
                    assert(ok[i] == k);
                }
                if k == last.0 {
                    assert(ok[oi.len() as int] == k);
                }
            } else {
                assert(ok == oi);
            }
            if k == last.0 {
                assert(!oi.contains(k));
            }
        }
    }
}

/// Appending an entry with the greatest key adds it to the map.
proof fn lemma_map_push(v: Seq<(UiWindowKey, UiWindowState)>)
    requires
        windows_wf(v),
        v.len() > 0,
    ensures
        windows_map(v) == windows_map(v.drop_last()).insert(v.last().0, v.last().1),
{
    let init = v.drop_last();
    let n = v.len() - 1;
    assert(windows_wf(init));
    lemma_map_at(v, n);
    assert forall|k: UiWindowKey| #![auto] windows_map(v).contains_key(k) == windows_map(init).insert(v.last().0, v.last().1).contains_key(k) by {
        if windows_map(init).contains_key(k) {
            lemma_map_keys(init, k);
            let j = choose|j: int| 0 <= j < init.len() && init[j].0 == k;
            assert(v[j] == init[j]);
        }
        if windows_map(v).contains_key(k) && k != v.last().0 {
            lemma_map_keys(v, k);
            let j = choose|j: int| 0 <= j < v.len() && v[j].0 == k;
            assert(init[j] == v[j]);
        }
    }
    assert forall|k: UiWindowKey| #[trigger] windows_map(v).contains_key(k) implies windows_map(v)[k] == windows_map(init).insert(v.last().0, v.last().1)[k] by {
        if k != v.last().0 {
            lemma_map_keys(v, k);
            let j = choose|j: int| 0 <= j < v.len() && v[j].0 == k;
            assert(j < n);
            assert(init[j] == v[j]);
            lemma_map_at(init, j);
            lemma_map_at(v, j);
        }
    }
    assert(windows_map(v) =~= windows_map(init).insert(v.last().0, v.last().1));
}

/// A `UI_CLOSED` safepoint is acknowledged by a poll only when the child already published
/// `timeout-without-save` for the same window right behind it; otherwise only the engine's
/// safepoint ack releases it.
pub proof fn lemma_safepoint_completes_only_when_abandoned(s: UiPumpView, ring: EventRingShared, ev: EventRingEvent, answer: bool)
    requires
        ev.kind == EVT_UI_CLOSED,
        event_step(s, ring, ev, answer).1 == StepResult::Complete,
    ensures
        decode_closed_spec(cstr_text(ev.arg@)) matches Some(w) && abandon_done_at(ring, next_seq(ev.seq), w),
        event_step(s, ring, ev, answer).0.pending_safepoint is None,
{
}

/// A safepoint already notified is not notified again: while it is pending, handling it again
/// does not depend on the sink and changes nothing but the window's closing lifecycle.
pub proof fn lemma_pending_safepoint_notified_once(s: UiPumpView, ring: EventRingShared, ev: EventRingEvent)
    requires
        ev.kind == EVT_UI_CLOSED,
        decode_closed_spec(cstr_text(ev.arg@)) matches Some(w) && s.pending_safepoint == Some(
            PendingSafepoint { window: w, evt_seq: ev.seq },
        ) && !abandon_done_at(ring, next_seq(ev.seq), w),
    ensures
        event_step(s, ring, ev, true) == event_step(s, ring, ev, false),
        event_step(s, ring, ev, true).1 == StepResult::Retain,
        event_step(s, ring, ev, true).0.pending_safepoint == s.pending_safepoint,
        step_notification(s, ring, ev) is None,
{
}

/// After a respawn reset, a safepoint ack carrying the previous generation is refused and changes
/// nothing, even when the ring's sequence numbers repeat.
pub proof fn lemma_reset_refuses_previous_generation(
    before_reset: UiPumpView,
    v: UiPumpView,
    v2: UiPumpView,
    ring: EventRingShared,
    ring2: EventRingShared,
    window: UiWindowKey,
    evt_seq: u64,
    r: Result<(), UiEventPumpError>,
)
    requires
        v.generation == if before_reset.generation == u64::MAX {
            0
        } else {
            (before_reset.generation + 1) as u64
        },
        safepoint_acked(v, v2, ring, ring2, before_reset.generation, window, evt_seq, r),
    ensures
        r matches Err(UiEventPumpError::GenerationMismatch { expected, actual }) && expected == v.generation
            && actual == before_reset.generation,
        v2 == v,
        ring2.evt_ack_seq == ring.evt_ack_seq,
{
}

} // verus!
