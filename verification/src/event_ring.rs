//! Child → host lossless event ring (`UI_CLOSED` / `UI_CLOSED_DONE`).
//!
//! The child queues events and publishes them in sequence order while a slot is free (an event
//! with sequence `s` may only reuse its slot once the host has acknowledged `s - EVT_SLOTS`).
//! The host handles events strictly in sequence order starting at `evt_ack_seq + 1` and
//! acknowledges only the events its handler completed; it keeps no cursor of its own.

use crate::cstr::{cstr_fits, cstr_stored, cstr_text, read_cstr_field, write_cstr_bytes};
use crate::layout::{evt_slot_index, EVT_ARG_BYTES, EVT_SLOTS, EVT_UI_CLOSED, EVT_UI_CLOSED_DONE};
use crate::shared::EventRingShared;
use crate::text::{decimal_digits, decimal_string, decimal_text, lemma_decimal_digits, push_decimal, push_str_bytes};
use vstd::prelude::*;
use std::collections::VecDeque;
use vstd::string::{StringExecFns, StringSliceAdditionalSpecFns};

verus! {

/// Prefix of the replacement argument used when an argument does not fit or holds a NUL. The full
/// replacement is `"{EVT_ARG_FALLBACK} (original len N)"` with `N` the original byte length.
pub const EVT_ARG_FALLBACK: &'static str = "arg too long or embedded NUL";

/// A sequence cursor published by one side and read by the other: the payload it covers is
/// written before [`Self::publish`], and read only after [`Self::read`] observed the sequence.
pub struct ReleaseAcquireSeq {
    pub value: u64,
}

impl ReleaseAcquireSeq {
    /// Publish `seq` after the payload it covers has been written.
    pub fn publish(&mut self, seq: u64)
        ensures
            final(self).value == seq,
    {
        self.value = seq;
    }

    /// Read the cursor published by the other side.
    pub fn read(&self) -> (r: u64)
        ensures
            r == self.value,
    {
        self.value
    }

    /// Read by the cursor's own (single) writer.
    pub fn load_own(&self) -> (r: u64)
        ensures
            r == self.value,
    {
        self.value
    }
}

/// A cumulative watermark that only moves forward (wrapping at `u64::MAX`).
pub struct MonotoneEpoch {
    pub value: u64,
}

impl MonotoneEpoch {
    /// Advance the watermark by one and return the new value.
    pub fn increment(&mut self) -> (r: u64)
        ensures
            final(self).value == if old(self).value == u64::MAX {
                0
            } else {
                (old(self).value + 1) as u64
            },
            r == final(self).value,
    {
        self.value = self.value.wrapping_add(1);
        self.value
    }

    /// Read the watermark.
    pub fn read(&self) -> (r: u64)
        ensures
            r == self.value,
    {
        self.value
    }
}

/// An event waiting to be published.
#[derive(Debug, Clone, Copy, PartialEq, Eq)]
pub struct PendingEvent {
    pub kind: u32,
    pub arg: [u8; 256],
}

/// Failure of the child-side ring.
#[derive(Debug, Clone, PartialEq, Eq)]
pub enum EventRingChildError {
    /// The caller asked for an event kind that does not exist; nothing is queued.
    UnknownKind(u32),
    /// The event sequence number cannot be advanced any more.
    SequenceExhausted,
}

impl EventRingChildError {
    /// The failure as a message for people.
    pub fn message(&self) -> (r: String)
        ensures
            r@ == match *self {
                EventRingChildError::UnknownKind(kind) => "unsupported child event kind "@ + decimal_text(kind as nat),
                EventRingChildError::SequenceExhausted => "event ring sequence exhausted"@,
            },
    {
        match self {
            EventRingChildError::UnknownKind(kind) => {
                let k = decimal_string(*kind as u64);
                String::from_str("unsupported child event kind ").concat(k.as_str())
            },
            EventRingChildError::SequenceExhausted => String::from_str("event ring sequence exhausted"),
        }
    }
}

/// Child-side event publisher. Queued events survive a full ring and are retried later.
pub struct EventRingChild {
    pub pending: VecDeque<PendingEvent>,
}

/// The bytes of the replacement argument for an original argument of `len` bytes.
pub open spec fn fallback_arg_text(len: nat) -> Seq<u8> {
    EVT_ARG_FALLBACK.spec_bytes() + " (original len ".spec_bytes() + decimal_digits(len) + ")".spec_bytes()
}

/// The argument field queued for `arg`: the argument itself when it fits, else the replacement.
pub open spec fn queued_arg_field(arg: Seq<u8>) -> Seq<u8> {
    let zero = Seq::new(EVT_ARG_BYTES as nat, |i: int| 0u8);
    if cstr_fits(arg, EVT_ARG_BYTES as int) {
        cstr_stored(zero, arg)
    } else {
        cstr_stored(zero, fallback_arg_text(arg.len()))
    }
}

/// Whether a kind is one of the ring's event kinds.
pub open spec fn is_event_kind(kind: u32) -> bool {
    kind == EVT_UI_CLOSED || kind == EVT_UI_CLOSED_DONE
}

/// Whether a service pass runs out of sequence numbers: some event it would publish, or the
/// next one it would try once the ring is full, needs a sequence number past `u64::MAX`.
pub open spec fn service_exhausts(pending: nat, seq: u64, ack: u64) -> bool {
    let k = publishable(pending, seq, ack);
    seq + k > u64::MAX || (seq + k == u64::MAX && k < pending)
}

/// How many of `pending` events a service pass can publish before the ring is full.
pub open spec fn publishable(pending: nat, seq: u64, ack: u64) -> int {
    let room = ack + EVT_SLOTS - seq;
    if room <= 0 {
        0
    } else if room < pending {
        room
    } else {
        pending as int
    }
}

/// What [`EventRingChild::queue`] does: a known kind is queued last with its argument field
/// (the fallback text when the argument does not fit); an unknown kind is refused and nothing is
/// queued.
pub open spec fn queue_outcome(
    before: Seq<PendingEvent>,
    after: Seq<PendingEvent>,
    kind: u32,
    arg: Seq<u8>,
    r: Result<(), EventRingChildError>,
) -> bool {
    if is_event_kind(kind) {
        &&& r is Ok
        &&& after == before.push(PendingEvent { kind, arg: after.last().arg })
        &&& after.last().arg@ == queued_arg_field(arg)
    } else {
        &&& r == Err::<(), EventRingChildError>(EventRingChildError::UnknownKind(kind))
        &&& after == before
    }
}

/// How many queued events a service pass publishes: all it can before the ring is full, or,
/// when the sequence runs out, those that still got a sequence number.
pub open spec fn service_published(pending: nat, seq: u64, ack: u64) -> int {
    if service_exhausts(pending, seq, ack) {
        u64::MAX - seq
    } else {
        publishable(pending, seq, ack)
    }
}

/// What [`EventRingChild::service`] does, from the queue `before` and the region `rb` to the
/// queue `after` and the region `ra`: the first `p` queued events are published in order under
/// the next sequence numbers, each written to its slot (a slot written twice holds the later
/// event), the other slot untouched when only one is written and the region untouched when none
/// is; the acknowledged sequence and the dirty watermark are never written.
pub open spec fn service_outcome(
    before: Seq<PendingEvent>,
    after: Seq<PendingEvent>,
    rb: EventRingShared,
    ra: EventRingShared,
    r: Result<usize, EventRingChildError>,
) -> bool {
    let n = before.len();
    let p = service_published(n, rb.evt_seq.value, rb.evt_ack_seq.value);
    &&& ra.evt_ack_seq.value == rb.evt_ack_seq.value
    &&& ra.dirty_epoch.value == rb.dirty_epoch.value
    &&& 0 <= p <= n
    &&& after == before.subrange(p, n as int)
    &&& ra.evt_seq.value == rb.evt_seq.value + p
    &&& forall|j: int|
        0 <= j < p && p - EVT_SLOTS <= j ==> {
            &&& ra.evt_kind[(rb.evt_seq.value + 1 + j) % 2] == (#[trigger] before[j]).kind
            &&& ra.evt_arg[(rb.evt_seq.value + 1 + j) % 2] == before[j].arg
        }
    &&& forall|s: int|
        0 <= s < 2 && p == 1 && s != (rb.evt_seq.value + 1) % 2 ==> {
            &&& #[trigger] ra.evt_kind[s] == rb.evt_kind[s]
            &&& ra.evt_arg[s] == rb.evt_arg[s]
        }
    &&& p == 0 ==> ra == rb
    &&& if service_exhausts(n, rb.evt_seq.value, rb.evt_ack_seq.value) {
        &&& r == Err::<usize, EventRingChildError>(EventRingChildError::SequenceExhausted)
        &&& ra.evt_seq.value == u64::MAX
    } else {
        &&& p <= usize::MAX
        &&& r == Ok::<usize, EventRingChildError>(p as usize)
    }
}

proof fn lemma_fallback_fits(len: nat)
    requires
        len <= u64::MAX,
    ensures
        cstr_fits(fallback_arg_text(len), EVT_ARG_BYTES as int),
{
    reveal_strlit("arg too long or embedded NUL");
    reveal_strlit(" (original len ");
    reveal_strlit(")");
    crate::text::lemma_ascii_str_bytes("arg too long or embedded NUL");
    crate::text::lemma_ascii_str_bytes(" (original len ");
    crate::text::lemma_ascii_str_bytes(")");
    lemma_decimal_digits(len);
    lemma_decimal_digits_short(len);
    let t = fallback_arg_text(len);
    assert forall|i: int| 0 <= i < t.len() implies t[i] != 0u8 by {
        let a = EVT_ARG_FALLBACK.spec_bytes();
        let b = " (original len ".spec_bytes();
        let d = decimal_digits(len);
        if i < a.len() {
        } else if i < a.len() + b.len() {
        } else if i < a.len() + b.len() + d.len() {
            assert(crate::text::is_digit(d[i - a.len() - b.len()]));
        } else {
        }
    }
}

/// Decimal forms of `u64` values have at most 20 digits.
proof fn lemma_decimal_digits_short(n: nat)
    requires
        n <= u64::MAX,
    ensures
        decimal_digits(n).len() <= 20,
{
    lemma_pow10_20();
    lemma_decimal_len_bound(n, 20);
}

proof fn lemma_decimal_len_bound(n: nat, k: nat)
    requires
        n < pow10(k),
        k >= 1,
    ensures
        decimal_digits(n).len() <= k,
    decreases k,
{
    if n >= 10 {
        assert(n / 10 < pow10((k - 1) as nat)) by {
            lemma_pow10_step(k);
        }
        lemma_decimal_len_bound(n / 10, (k - 1) as nat);
    }
}

spec fn pow10(k: nat) -> nat
    decreases k,
{
    if k == 0 {
        1
    } else {
        10 * pow10((k - 1) as nat)
    }
}

proof fn lemma_pow10_step(k: nat)
    requires
        k >= 1,
    ensures
        forall|n: nat| n < pow10(k) && n >= 10 ==> #[trigger] (n / 10) < pow10((k - 1) as nat),
{
    assert forall|n: nat| n < pow10(k) && n >= 10 implies #[trigger] (n / 10) < pow10((k - 1) as nat) by {
        let p = pow10((k - 1) as nat);
        assert(pow10(k) == 10 * p);
        assert(n / 10 < p) by (nonlinear_arith)
            requires
                n < 10 * p,
        ;
    }
}

proof fn lemma_pow10_20()
    ensures
        pow10(20) == 100000000000000000000,
{
    reveal_with_fuel(pow10, 21);
}

impl EventRingChild {
    /// The queued events, oldest first.
    pub open spec fn queued(self) -> Seq<PendingEvent> {
        self.pending@
    }

    /// An empty child publisher.
    pub fn new() -> (r: Self)
        ensures
            r.queued() == Seq::<PendingEvent>::empty(),
    {
        EventRingChild { pending: VecDeque::new() }
    }

    /// Queue a lossless event. An argument that does not fit or holds a NUL never drops the event:
    /// it is replaced by the fallback text carrying the original byte length. Only an unknown
    /// kind is an error (and queues nothing).
    pub fn queue(&mut self, kind: u32, arg: &str) -> (r: Result<(), EventRingChildError>)
        ensures
            queue_outcome(old(self).queued(), final(self).queued(), kind, arg.spec_bytes(), r),
    {
        if kind != EVT_UI_CLOSED && kind != EVT_UI_CLOSED_DONE {
            return Err(EventRingChildError::UnknownKind(kind));
        }
        let mut bytes = [0u8; 256];
        let ghost zero = bytes@;
        proof {
            assert(zero =~= Seq::new(EVT_ARG_BYTES as nat, |i: int| 0u8));
        }
        let raw = arg.as_bytes();
        if !write_cstr_bytes(&mut bytes, raw) {
            let mut text: Vec<u8> = Vec::new();
            push_str_bytes(&mut text, EVT_ARG_FALLBACK);
            push_str_bytes(&mut text, " (original len ");
            push_decimal(&mut text, raw.len() as u64);
            push_str_bytes(&mut text, ")");
            proof {
                assert(text@ =~= fallback_arg_text(raw@.len()));
                lemma_fallback_fits(raw@.len());
            }
            let _ = write_cstr_bytes(&mut bytes, text.as_slice());
        }
        self.pending.push_back(PendingEvent { kind, arg: bytes });
        Ok(())
    }

    /// Number of events not yet published.
    pub fn pending_len(&self) -> (r: usize)
        ensures
            r == self.queued().len(),
    {
        self.pending.len()
    }

    /// Whether the ring is drained: nothing queued and every published event acknowledged.
    pub fn is_drained(&self, region: &EventRingShared) -> (r: bool)
        ensures
            r == (self.queued().len() == 0 && region.evt_ack_seq.value == region.evt_seq.value),
    {
        self.pending.len() == 0 && region.evt_ack_seq.read() == region.evt_seq.load_own()
    }

    /// Publish queued events in order while slots are free; the payload is written before the
    /// sequence number. Returns how many were published. The head event stays queued when its
    /// slot is still occupied by an unacknowledged event.
    pub fn service(&mut self, region: &mut EventRingShared) -> (r: Result<usize, EventRingChildError>)
        ensures
            service_outcome(old(self).queued(), final(self).queued(), *old(region), *final(region), r),
    {
        let ghost old_q = self.pending@;
        let ghost old_region = *region;
        let ghost k = publishable(old_q.len(), old_region.evt_seq.value, old_region.evt_ack_seq.value);
        let total: usize = self.pending.len();
        let mut published: usize = 0;
        while self.pending.len() > 0
            invariant
                old_q == old(self).queued(),
                old_q.len() == total,
                old_region == *old(region),
                0 <= published <= k,
                k <= old_q.len(),
                self.pending@ == old_q.subrange(published as int, old_q.len() as int),
                region.evt_seq.value == old_region.evt_seq.value + published,
                region.evt_ack_seq.value == old_region.evt_ack_seq.value,
                region.dirty_epoch.value == old_region.dirty_epoch.value,
                k == publishable(old_q.len(), old_region.evt_seq.value, old_region.evt_ack_seq.value),
                forall|j: int|
                    0 <= j < published && published - EVT_SLOTS <= j ==> {
                        &&& region.evt_kind[(old_region.evt_seq.value + 1 + j) % 2] == (#[trigger] old_q[j]).kind
                        &&& region.evt_arg[(old_region.evt_seq.value + 1 + j) % 2] == old_q[j].arg
                    },
                forall|s: int|
                    0 <= s < 2 && published == 1 && s != (old_region.evt_seq.value + 1) % 2 ==> {
                        &&& #[trigger] region.evt_kind[s] == old_region.evt_kind[s]
                        &&& region.evt_arg[s] == old_region.evt_arg[s]
                    },
                published == 0 ==> *region == old_region,
            ensures
                published == k,
                !service_exhausts(old_q.len(), old_region.evt_seq.value, old_region.evt_ack_seq.value),
            decreases self.pending@.len(),
        {
            let previous = region.evt_seq.load_own();
            let seq = match previous.checked_add(1) {
                Some(s) => s,
                None => {
                    proof {
                        assert(old_region.evt_seq.value + published == u64::MAX);
                        assert(published < old_q.len());
                        assert(service_exhausts(old_q.len(), old_region.evt_seq.value, old_region.evt_ack_seq.value));
                        assert(service_outcome(old_q, self.pending@, old_region, *region,
                            Err::<usize, EventRingChildError>(EventRingChildError::SequenceExhausted)));
                    }
                    return Err(EventRingChildError::SequenceExhausted);
                },
            };
            let reusable_after = seq.saturating_sub(EVT_SLOTS as u64);
            if region.evt_ack_seq.read() < reusable_after {
                break;
            }
            assert(published < k);
            let index = evt_slot_index(seq);
            let event = self.pending[0];
            region.evt_kind[index] = event.kind;
            region.evt_arg[index] = event.arg;
            region.evt_seq.publish(seq);
            self.pending.pop_front();
            published += 1;
            proof {
                assert(self.pending@ =~= old_q.subrange(published as int, old_q.len() as int));
            }
        }
        Ok(published)
    }
}

/// One call made on a child publisher, with what it returned: `queue` of `kind` with the
/// argument's bytes, or `service` taking the region from `before` to `after`.
pub enum ChildCall {
    Queue { kind: u32, arg: Seq<u8>, result: Result<(), EventRingChildError> },
    Service { before: EventRingShared, after: EventRingShared, result: Result<usize, EventRingChildError> },
}

/// Whether `call` took the child from `before` to `after`, as the call's contract states.
pub open spec fn call_outcome(before: EventRingChild, after: EventRingChild, call: ChildCall) -> bool {
    match call {
        ChildCall::Queue { kind, arg, result } => queue_outcome(before.queued(), after.queued(), kind, arg, result),
        ChildCall::Service { before: rb, after: ra, result } => service_outcome(
            before.queued(),
            after.queued(),
            rb,
            ra,
            result,
        ),
    }
}

/// How many of `calls` were `queue` calls that returned `Ok`.
pub open spec fn accepted_queues(calls: Seq<ChildCall>) -> int
    decreases calls.len(),
{
    if calls.len() == 0 {
        0
    } else {
        accepted_queues(calls.drop_last()) + match calls.last() {
            ChildCall::Queue { result: Ok(_), .. } => 1int,
            _ => 0int,
        }
    }
}

/// How many events the `service` calls among `calls` published: `m` for one that returned
/// `Ok(m)`; for one that ran out of sequence numbers, those it published before that.
pub open spec fn published_events(calls: Seq<ChildCall>) -> int
    decreases calls.len(),
{
    if calls.len() == 0 {
        0
    } else {
        published_events(calls.drop_last()) + match calls.last() {
            ChildCall::Service { result: Ok(m), .. } => m as int,
            ChildCall::Service { before, after, result: Err(_) } => after.evt_seq.value - before.evt_seq.value,
            _ => 0int,
        }
    }
}

/// The pending count is the number of events queued and not yet published: from a new child,
/// after any sequence of calls, `pending_len` is the number of accepted `queue` calls minus the
/// events that the `service` calls published; a refused `queue` changes nothing.
pub proof fn lemma_pending_len_counts_unpublished(children: Seq<EventRingChild>, calls: Seq<ChildCall>)
    requires
        children.len() == calls.len() + 1,
        children[0].queued() == Seq::<PendingEvent>::empty(),
        forall|i: int| 0 <= i < calls.len() ==> call_outcome(#[trigger] children[i], children[i + 1], calls[i]),
    ensures
        children.last().queued().len() == accepted_queues(calls) - published_events(calls),
    decreases calls.len(),
{
    if calls.len() > 0 {
        let n = calls.len() - 1;
        let prefix = children.drop_last();
        assert forall|i: int| 0 <= i < calls.drop_last().len() implies call_outcome(
            #[trigger] prefix[i],
            prefix[i + 1],
            calls.drop_last()[i],
        ) by {
            assert(prefix[i] == children[i] && prefix[i + 1] == children[i + 1]);
        }
        lemma_pending_len_counts_unpublished(prefix, calls.drop_last());
        lemma_call_changes_len(children[n], children[n + 1], calls[n]);
    }
}

proof fn lemma_call_changes_len(before: EventRingChild, after: EventRingChild, call: ChildCall)
    requires
        call_outcome(before, after, call),
    ensures
        after.queued().len() == before.queued().len() + match call {
            ChildCall::Queue { result: Ok(_), .. } => 1int,
            ChildCall::Queue { result: Err(_), .. } => 0int,
            ChildCall::Service { result: Ok(m), .. } => -(m as int),
            ChildCall::Service { before, after, result: Err(_) } => before.evt_seq.value - after.evt_seq.value,
        },
{
    match call {
        ChildCall::Queue { kind, .. } => {
            if is_event_kind(kind) {
                assert(after.queued().len() == before.queued().len() + 1);
            }
        },
        ChildCall::Service { before: rb, after: ra, result } => {
            let n = before.queued().len();
            let p = service_published(n, rb.evt_seq.value, rb.evt_ack_seq.value);
            assert(after.queued().len() == n - p);
        },
    }
}

/// An event copied out of the ring for the host handler.
#[derive(Debug, Clone, Copy, PartialEq, Eq)]
pub struct EventRingEvent {
    pub seq: u64,
    pub kind: u32,
    pub arg: [u8; 256],
}

impl EventRingEvent {
    /// The event argument as text (`None` when unterminated or not UTF-8).
    pub fn arg(&self) -> (r: Option<&str>)
        ensures
            match cstr_text(self.arg@) {
                Some(t) => r matches Some(s) && s.spec_bytes() == t,
                None => r is None,
            },
    {
        read_cstr_field(&self.arg)
    }
}

/// Result of one host poll: nothing new, advanced over `handled >= 1` events, or stopped at the
/// head event (`seq`, `kind`) after acknowledging `handled` earlier events.
#[derive(Debug, Clone, Copy, PartialEq, Eq)]
pub enum EventPollOutcome {
    Idle,
    Advanced { handled: usize },
    Blocked { handled: usize, seq: u64, kind: u32 },
}

/// Host-side poll failure.
#[derive(Debug, Clone, Copy, PartialEq, Eq)]
pub enum EventRingHostError {
    /// The acknowledged sequence is ahead of the published one (corrupted region).
    AckExceedsPublished { ack: u64, published: u64 },
}

impl EventRingHostError {
    /// The failure as a message for people.
    pub fn message(&self) -> (r: String)
        ensures
            r@ == match *self {
                EventRingHostError::AckExceedsPublished { ack, published } => "event ring ack "@ + decimal_text(
                    ack as nat,
                ) + " exceeds published sequence "@ + decimal_text(published as nat),
            },
    {
        match self {
            EventRingHostError::AckExceedsPublished { ack, published } => {
                let a = decimal_string(*ack);
                let p = decimal_string(*published);
                String::from_str("event ring ack ").concat(a.as_str()).concat(" exceeds published sequence ").concat(
                    p.as_str(),
                )
            },
        }
    }
}

/// The host-side handling of one event: `true` when it is complete and may be acknowledged.
pub trait EventHandler {
    /// Every event handed to this handler so far, oldest first, with the handler's answer. A
    /// handler defines it to state what it was given; one that does not keeps this empty default,
    /// which its `handle` cannot meet, so nothing proved of such a handler carries over to it. [`FnHandler`] wraps a closure and defines it.
    closed spec fn log(&self) -> Seq<(EventRingEvent, bool)> {
        Seq::empty()
    }

    /// Whether the handler can be handed an event now (true unless a handler says otherwise).
    closed spec fn ready(&self) -> bool {
        true
    }

    fn handle(&mut self, event: EventRingEvent) -> (r: bool)
        requires
            old(self).ready(),
        ensures
            final(self).ready(),
            final(self).log() == old(self).log().push((event, r)),
    ;
}

/// A handler that hands each event to a closure and records what it handed over and what the
/// closure answered.
pub struct FnHandler<F: FnMut(EventRingEvent) -> bool> {
    f: F,
    handled: Ghost<Seq<(EventRingEvent, bool)>>,
}

impl<F: FnMut(EventRingEvent) -> bool> FnHandler<F> {
    /// A handler over `f`, with nothing handed over yet.
    pub fn new(f: F) -> (r: Self)
        requires
            forall|e: EventRingEvent| call_requires(f, (e,)),
        ensures
            r.ready(),
            r.log() == Seq::<(EventRingEvent, bool)>::empty(),
    {
        FnHandler { f, handled: Ghost(Seq::empty()) }
    }
}

impl<F: FnMut(EventRingEvent) -> bool> EventHandler for FnHandler<F> {
    closed spec fn log(&self) -> Seq<(EventRingEvent, bool)> {
        self.handled@
    }

    /// The closure may be called with any event.
    closed spec fn ready(&self) -> bool {
        forall|e: EventRingEvent| call_requires(self.f, (e,))
    }

    fn handle(&mut self, event: EventRingEvent) -> (r: bool) {
        let r = (self.f)(event);
        self.handled = Ghost(self.handled@.push((event, r)));
        r
    }
}

/// The event published under `seq`, as the ring's slot for it holds it.
pub open spec fn event_at(ring: EventRingShared, seq: u64) -> EventRingEvent {
    EventRingEvent { seq, kind: ring.evt_kind[(seq % 2) as int], arg: ring.evt_arg[(seq % 2) as int] }
}

/// Whether `log` is `log0` followed by the events after `ack` in sequence order, each with the
/// handler's answer, the first `accepted` of them answered `true`.
pub open spec fn handed_in_order(
    log0: Seq<(EventRingEvent, bool)>,
    log: Seq<(EventRingEvent, bool)>,
    ring: EventRingShared,
    ack: u64,
    accepted: int,
) -> bool {
    &&& log0.len() <= log.len()
    &&& log.subrange(0, log0.len() as int) == log0
    &&& 0 <= accepted <= log.len() - log0.len()
    &&& forall|i: int|
        0 <= i < log.len() - log0.len() ==> (#[trigger] log[log0.len() + i]).0 == event_at(ring, (ack + 1 + i) as u64)
    &&& forall|i: int| 0 <= i < accepted ==> (#[trigger] log[log0.len() + i]).1
}

/// Host-side in-order consumer and dirty-watermark observer. It keeps no event cursor: the next
/// event to handle is always `evt_ack_seq + 1` in the region.
pub struct EventRingHost {
    pub last_seen_dirty_epoch: u64,
}

impl EventRingHost {
    pub fn new() -> (r: Self)
        ensures
            r.last_seen_dirty_epoch == 0,
    {
        EventRingHost { last_seen_dirty_epoch: 0 }
    }

    /// Hand published events to `handler` from `evt_ack_seq + 1` on, in sequence order and as
    /// their slots hold them, acknowledging each completed event; stop at the first event the
    /// handler does not complete. An inconsistent region is reported before any call.
    pub fn poll<H: EventHandler>(&self, region: &mut EventRingShared, handler: &mut H) -> (r: Result<
        EventPollOutcome,
        EventRingHostError,
    >)
        requires
            old(handler).ready(),
            old(region).evt_seq.value - old(region).evt_ack_seq.value <= usize::MAX,
        ensures
            final(handler).ready(),
            final(region).evt_seq.value == old(region).evt_seq.value,
            final(region).evt_kind == old(region).evt_kind,
            final(region).evt_arg == old(region).evt_arg,
            final(region).dirty_epoch.value == old(region).dirty_epoch.value,
            old(region).evt_ack_seq.value > old(region).evt_seq.value ==> {
                &&& r == Err::<EventPollOutcome, EventRingHostError>(
                    EventRingHostError::AckExceedsPublished {
                        ack: old(region).evt_ack_seq.value,
                        published: old(region).evt_seq.value,
                    },
                )
                &&& final(region).evt_ack_seq.value == old(region).evt_ack_seq.value
                &&& final(handler).log() == old(handler).log()
            },
            old(region).evt_ack_seq.value <= old(region).evt_seq.value ==> {
                let log0 = old(handler).log();
                let log = final(handler).log();
                let ack = old(region).evt_ack_seq.value;
                match r {
                    Ok(EventPollOutcome::Idle) => {
                        &&& ack == old(region).evt_seq.value
                        &&& final(region).evt_ack_seq.value == ack
                        &&& log == log0
                    },
                    Ok(EventPollOutcome::Advanced { handled }) => {
                        &&& handled >= 1 && ack + handled == old(region).evt_seq.value
                        &&& final(region).evt_ack_seq.value == old(region).evt_seq.value
                        &&& log.len() == log0.len() + handled
                        &&& handed_in_order(log0, log, *old(region), ack, handled as int)
                    },
                    Ok(EventPollOutcome::Blocked { handled, seq, kind }) => {
                        &&& final(region).evt_ack_seq.value == ack + handled
                        &&& seq == final(region).evt_ack_seq.value + 1
                        &&& seq <= old(region).evt_seq.value
                        &&& kind == old(region).evt_kind[(seq % 2) as int]
                        &&& log.len() == log0.len() + handled + 1
                        &&& handed_in_order(log0, log, *old(region), ack, handled as int)
                        &&& !log.last().1
                    },
                    Err(_) => false,
                }
            },
    {
        let mut handled: usize = 0;
        let ghost old_region = *region;
        let ghost log0 = handler.log();
        proof {
            assert(log0.subrange(0, log0.len() as int) =~= log0);
        }
        loop
            invariant
                handler.ready(),
                old_region == *old(region),
                log0 == old(handler).log(),
                old_region.evt_ack_seq.value > old_region.evt_seq.value ==> handler.log() == log0,
                old_region.evt_ack_seq.value <= old_region.evt_seq.value ==> {
                    &&& handler.log().len() == log0.len() + handled
                    &&& handed_in_order(log0, handler.log(), old_region, old_region.evt_ack_seq.value, handled as int)
                },
                region.evt_seq.value == old_region.evt_seq.value,
                region.evt_kind == old_region.evt_kind,
                region.evt_arg == old_region.evt_arg,
                region.dirty_epoch.value == old_region.dirty_epoch.value,
                old_region.evt_seq.value - old_region.evt_ack_seq.value <= usize::MAX,
                old_region.evt_ack_seq.value <= old_region.evt_seq.value ==> region.evt_ack_seq.value == old_region.evt_ack_seq.value
                    + handled && region.evt_ack_seq.value <= region.evt_seq.value,
                old_region.evt_ack_seq.value > old_region.evt_seq.value ==> handled == 0 && region.evt_ack_seq.value
                    == old_region.evt_ack_seq.value,
            decreases region.evt_seq.value - region.evt_ack_seq.value,
        {
            let ack = region.evt_ack_seq.load_own();
            let published = region.evt_seq.read();
            if ack > published {
                return Err(EventRingHostError::AckExceedsPublished { ack, published });
            }
            if ack == published {
                if handled == 0 {
                    return Ok(EventPollOutcome::Idle);
                } else {
                    return Ok(EventPollOutcome::Advanced { handled });
                }
            }
            let seq = ack + 1;
            let index = evt_slot_index(seq);
            let event = EventRingEvent { seq, kind: region.evt_kind[index], arg: region.evt_arg[index] };
            let kind = event.kind;
            let ghost log_before = handler.log();
            proof {
                assert(event == event_at(old_region, seq));
            }
            let accepted = handler.handle(event);
            proof {
                let log = handler.log();
                assert(log.subrange(0, log0.len() as int) =~= log_before.subrange(0, log0.len() as int));
                assert forall|i: int| 0 <= i < log.len() - log0.len() implies (#[trigger] log[log0.len() + i]).0
                    == event_at(old_region, (old_region.evt_ack_seq.value + 1 + i) as u64) by {
                    if i < handled {
                        assert(log[log0.len() + i] == log_before[log0.len() + i]);
                    }
                }
                assert forall|i: int| 0 <= i < handled implies (#[trigger] log[log0.len() + i]).1 by {
                    assert(log[log0.len() + i] == log_before[log0.len() + i]);
                }
            }
            if !accepted {
                return Ok(EventPollOutcome::Blocked { handled, seq, kind });
            }
            region.evt_ack_seq.publish(seq);
            handled = handled + 1;
        }
    }

    /// The new dirty watermark when it advanced past the one this host last observed.
    pub fn observe_dirty_epoch(&mut self, region: &EventRingShared) -> (r: Option<u64>)
        ensures
            final(self).last_seen_dirty_epoch == if region.dirty_epoch.value > old(self).last_seen_dirty_epoch {
                region.dirty_epoch.value
            } else {
                old(self).last_seen_dirty_epoch
            },
            r == if region.dirty_epoch.value > old(self).last_seen_dirty_epoch {
                Some(region.dirty_epoch.value)
            } else {
                None
            },
    {
        let current = region.dirty_epoch.read();
        let previous = self.last_seen_dirty_epoch;
        if current > previous {
            self.last_seen_dirty_epoch = current;
            Some(current)
        } else {
            None
        }
    }
}

/// Advance the dirty watermark by one (wrapping) and return the new value.
pub fn increment_dirty_epoch(region: &mut EventRingShared) -> (r: u64)
    ensures
        r == final(region).dirty_epoch.value,
        final(region).dirty_epoch.value == if old(region).dirty_epoch.value == u64::MAX {
            0
        } else {
            (old(region).dirty_epoch.value + 1) as u64
        },
        final(region).evt_seq.value == old(region).evt_seq.value,
        final(region).evt_ack_seq.value == old(region).evt_ack_seq.value,
        final(region).evt_kind == old(region).evt_kind,
        final(region).evt_arg == old(region).evt_arg,
{
    region.dirty_epoch.increment()
}

} // verus!
