//! Output stream health counters and callback-duration statistics.
//!
//! Counters wrap at `u64::MAX` like the atomic counters they model; the audio thread records and
//! a reporting thread reads snapshots.

use vstd::prelude::*;

verus! {

/// Counters of one output stream.
#[derive(Debug)]
pub struct StreamStats {
    pub xruns: u64,
    pub buffer_underruns: u64,
    pub device_lost: bool,
    pub render_contentions: u64,
    pub callbacks: u64,
    pub last_frames: u32,
}

/// A copy of the counters.
#[derive(Debug, Clone, Copy)]
pub struct StreamStatsSnapshot {
    pub xruns: u64,
    pub buffer_underruns: u64,
    pub device_lost: bool,
    pub render_contentions: u64,
    pub callbacks: u64,
    pub last_frames: u32,
}

/// Kind of an error reported by the audio backend for a running stream.
#[derive(Debug, Clone, Copy, PartialEq, Eq)]
pub enum StreamErrorKind {
    /// The device went away.
    DeviceNotAvailable,
    /// Any other backend error (counted as an xrun).
    BackendSpecific,
}

/// `x + 1`, wrapping at `u64::MAX`.
pub open spec fn wrapping_inc(x: u64) -> u64 {
    if x == u64::MAX {
        0
    } else {
        (x + 1) as u64
    }
}

impl Default for StreamStats {
    fn default() -> (r: Self)
        ensures
            r.xruns == 0,
            r.buffer_underruns == 0,
            !r.device_lost,
            r.render_contentions == 0,
            r.callbacks == 0,
            r.last_frames == 0,
    {
        StreamStats {
            xruns: 0,
            buffer_underruns: 0,
            device_lost: false,
            render_contentions: 0,
            callbacks: 0,
            last_frames: 0,
        }
    }
}

impl StreamStats {
    /// Read all counters.
    pub fn snapshot(&self) -> (r: StreamStatsSnapshot)
        ensures
            r.xruns == self.xruns,
            r.buffer_underruns == self.buffer_underruns,
            r.device_lost == self.device_lost,
            r.render_contentions == self.render_contentions,
            r.callbacks == self.callbacks,
            r.last_frames == self.last_frames,
    {
        StreamStatsSnapshot {
            xruns: self.xruns,
            buffer_underruns: self.buffer_underruns,
            device_lost: self.device_lost,
            render_contentions: self.render_contentions,
            callbacks: self.callbacks,
            last_frames: self.last_frames,
        }
    }

    /// One render callback of `frames` frames.
    pub fn record_callback(&mut self, frames: u32)
        ensures
            final(self).callbacks == wrapping_inc(old(self).callbacks),
            final(self).last_frames == frames,
            final(self).xruns == old(self).xruns,
            final(self).buffer_underruns == old(self).buffer_underruns,
            final(self).device_lost == old(self).device_lost,
            final(self).render_contentions == old(self).render_contentions,
    {
        self.callbacks = self.callbacks.wrapping_add(1);
        self.last_frames = frames;
    }

    /// One xrun.
    pub fn record_xrun(&mut self)
        ensures
            final(self).xruns == wrapping_inc(old(self).xruns),
            final(self).callbacks == old(self).callbacks,
            final(self).last_frames == old(self).last_frames,
            final(self).buffer_underruns == old(self).buffer_underruns,
            final(self).device_lost == old(self).device_lost,
            final(self).render_contentions == old(self).render_contentions,
    {
        self.xruns = self.xruns.wrapping_add(1);
    }

    /// The device was lost (sticky).
    pub fn record_device_lost(&mut self)
        ensures
            final(self).device_lost,
            final(self).xruns == old(self).xruns,
            final(self).callbacks == old(self).callbacks,
            final(self).last_frames == old(self).last_frames,
            final(self).buffer_underruns == old(self).buffer_underruns,
            final(self).render_contentions == old(self).render_contentions,
    {
        self.device_lost = true;
    }

    /// A backend stream error: a lost device sets the flag, anything else counts as an xrun.
    pub fn record_error(&mut self, kind: StreamErrorKind)
        ensures
            kind == StreamErrorKind::DeviceNotAvailable ==> {
                &&& final(self).device_lost
                &&& final(self).xruns == old(self).xruns
            },
            kind == StreamErrorKind::BackendSpecific ==> {
                &&& final(self).xruns == wrapping_inc(old(self).xruns)
                &&& final(self).device_lost == old(self).device_lost
            },
            final(self).callbacks == old(self).callbacks,
            final(self).last_frames == old(self).last_frames,
            final(self).buffer_underruns == old(self).buffer_underruns,
            final(self).render_contentions == old(self).render_contentions,
    {
        match kind {
            StreamErrorKind::DeviceNotAvailable => self.record_device_lost(),
            StreamErrorKind::BackendSpecific => self.record_xrun(),
        }
    }

    /// The render state was busy when the callback needed it.
    pub fn record_render_contention(&mut self)
        ensures
            final(self).render_contentions == wrapping_inc(old(self).render_contentions),
            final(self).xruns == old(self).xruns,
            final(self).callbacks == old(self).callbacks,
            final(self).last_frames == old(self).last_frames,
            final(self).buffer_underruns == old(self).buffer_underruns,
            final(self).device_lost == old(self).device_lost,
    {
        self.render_contentions = self.render_contentions.wrapping_add(1);
    }
}

/// Number of histogram buckets.
pub const HIST_BUCKETS: usize = 1024;

/// Width of one histogram bucket in nanoseconds.
pub const BUCKET_NS: u64 = 50000;

/// Callback-duration statistics: count, min, max, sum and a histogram of `HIST_BUCKETS` buckets
/// of `BUCKET_NS` each, the last bucket collecting everything beyond.
#[derive(Debug)]
pub struct CallbackTimeStats {
    pub callback_count: u64,
    pub min_ns: u64,
    pub max_ns: u64,
    pub sum_ns: u64,
    pub hist: Vec<u64>,
}

/// A copy of the statistics.
#[derive(Debug, Clone, Copy)]
pub struct CallbackTimeSnapshot {
    pub callback_count: u64,
    pub min_ns: u64,
    pub max_ns: u64,
    pub mean_ns: u64,
    pub p99_ns: u64,
}

/// Sum of a sequence.
pub open spec fn seq_sum(s: Seq<u64>) -> int
    decreases s.len(),
{
    if s.len() == 0 {
        0
    } else {
        seq_sum(s.drop_last()) + s.last()
    }
}

/// The bucket of a duration.
pub open spec fn bucket_of(elapsed_ns: u64) -> int {
    let b = elapsed_ns / BUCKET_NS;
    if b < HIST_BUCKETS - 1 {
        b as int
    } else {
        HIST_BUCKETS - 1
    }
}

/// `ceil(99 * total / 100)`.
pub open spec fn p99_target(total: u64) -> int {
    (total * 99 + 99) / 100
}

/// The first bucket at or after `i` whose cumulative count reaches `target`.
pub open spec fn first_reaching(hist: Seq<u64>, target: int, i: int) -> Option<int>
    decreases hist.len() - i,
{
    if i < 0 || i >= hist.len() {
        None
    } else if seq_sum(hist.take(i + 1)) >= target {
        Some(i)
    } else {
        first_reaching(hist, target, i + 1)
    }
}

/// The 99th percentile: the lower bound (ns) of the bucket where the cumulative count first
/// reaches 99% of the callbacks; the overflow bucket's bound when never reached; none without
/// callbacks.
pub open spec fn p99_spec(hist: Seq<u64>, total: u64) -> Option<u64> {
    if total == 0 {
        None
    } else {
        match first_reaching(hist, p99_target(total), 0) {
            Some(i) => Some((i * BUCKET_NS) as u64),
            None => Some(((HIST_BUCKETS - 1) * BUCKET_NS) as u64),
        }
    }
}

proof fn lemma_sum_update(s: Seq<u64>, i: int, v: u64)
    requires
        0 <= i < s.len(),
    ensures
        seq_sum(s.update(i, v)) == seq_sum(s) - s[i] + v,
    decreases s.len(),
{
    let t = s.update(i, v);
    if i == s.len() - 1 {
        assert(t.drop_last() =~= s.drop_last());
    } else {
        lemma_sum_update(s.drop_last(), i, v);
        assert(t.drop_last() =~= s.drop_last().update(i, v));
    }
}

proof fn lemma_sum_nonneg(s: Seq<u64>)
    ensures
        seq_sum(s) >= 0,
    decreases s.len(),
{
    if s.len() > 0 {
        lemma_sum_nonneg(s.drop_last());
    }
}

/// A count reaches the rounded-up 99% of `total` exactly when a hundred times it is at least 99
/// times `total`.
proof fn lemma_p99_target_is_ceiling(total: u64, x: int)
    ensures
        x >= p99_target(total) <==> x * 100 >= total * 99,
{
    let q = p99_target(total);
    let t = total as int;
    assert(100 * q <= 99 * t + 99 && 99 * t + 99 < 100 * q + 100) by (nonlinear_arith)
        requires
            q == (t * 99 + 99) / 100,
            t >= 0,
    ;
    if x >= q {
        assert(x * 100 >= q * 100) by (nonlinear_arith)
            requires
                x >= q,
        ;
    } else {
        assert(x * 100 <= (q - 1) * 100) by (nonlinear_arith)
            requires
                x <= q - 1,
        ;
    }
}

proof fn lemma_first_reaching_found(hist: Seq<u64>, target: int, i: int)
    requires
        0 <= i < hist.len(),
        seq_sum(hist) >= target,
        forall|j: int| 0 <= j < i ==> seq_sum(#[trigger] hist.take(j + 1)) < target,
    ensures
        first_reaching(hist, target, i) matches Some(b) && i <= b < hist.len() && seq_sum(hist.take(b + 1)) >= target
            && forall|j: int| 0 <= j < b ==> seq_sum(#[trigger] hist.take(j + 1)) < target,
    decreases hist.len() - i,
{
    if seq_sum(hist.take(i + 1)) < target {
        if i + 1 == hist.len() {
            assert(hist.take(i + 1) =~= hist);
        } else {
            lemma_first_reaching_found(hist, target, i + 1);
        }
    }
}

/// The reported 99th percentile is the lower bound of the first bucket by which at least 99% of
/// the recorded callbacks have completed, rounded up (a hundred times the count through that
/// bucket is at least 99 times the total; through every earlier bucket it is less). With fewer
/// than a hundred callbacks it is therefore the bucket of the slowest one: every callback has
/// completed by it, and not by the bucket before.
pub proof fn lemma_p99_is_first_bucket_covering_99_percent(hist: Seq<u64>, total: u64)
    requires
        hist.len() == HIST_BUCKETS,
        seq_sum(hist) == total,
        total > 0,
    ensures
        p99_spec(hist, total) matches Some(ns) && ns % BUCKET_NS == 0 && ({
            let b = (ns / BUCKET_NS) as int;
            &&& 0 <= b < HIST_BUCKETS
            &&& seq_sum(hist.take(b + 1)) * 100 >= total * 99
            &&& forall|j: int| 0 <= j < b ==> seq_sum(#[trigger] hist.take(j + 1)) * 100 < total * 99
            &&& total < 100 ==> seq_sum(hist.take(b + 1)) == total && seq_sum(hist.take(b)) < total
        }),
{
    let target = p99_target(total);
    lemma_p99_target_is_ceiling(total, total as int);
    lemma_first_reaching_found(hist, target, 0);
    let b = first_reaching(hist, target, 0).unwrap();
    let ns = (b * BUCKET_NS) as u64;
    assert(p99_spec(hist, total) == Some(ns));
    assert(ns as int == b * BUCKET_NS) by (nonlinear_arith)
        requires
            0 <= b < 1024,
            ns == (b * 50000) as u64,
    ;
    assert(ns / BUCKET_NS == b && ns % BUCKET_NS == 0) by (nonlinear_arith)
        requires
            ns == b * 50000,
            0 <= b,
    ;
    lemma_p99_target_is_ceiling(total, seq_sum(hist.take(b + 1)));
    assert forall|j: int| 0 <= j < b implies seq_sum(#[trigger] hist.take(j + 1)) * 100 < total * 99 by {
        lemma_p99_target_is_ceiling(total, seq_sum(hist.take(j + 1)));
    }
    if total < 100 {
        let sb = seq_sum(hist.take(b + 1));
        lemma_sum_prefix_le(hist, b + 1);
        assert(sb >= total) by (nonlinear_arith)
            requires
                sb * 100 >= total * 99,
                total < 100,
                sb >= 0,
        ;
        if b > 0 {
            let sp = seq_sum(hist.take(b));
            assert(hist.take((b - 1) + 1) == hist.take(b));
            lemma_p99_target_is_ceiling(total, sp);
            assert(sp < total) by (nonlinear_arith)
                requires
                    sp * 100 < total * 99,
                    total > 0,
            ;
        } else {
            assert(hist.take(0) =~= Seq::<u64>::empty());
        }
    }
}

proof fn lemma_sum_prefix_le(s: Seq<u64>, k: int)
    requires
        0 <= k <= s.len(),
    ensures
        seq_sum(s.take(k)) <= seq_sum(s),
    decreases s.len() - k,
{
    if k < s.len() {
        lemma_sum_prefix_le(s, k + 1);
        assert(s.take(k + 1).drop_last() =~= s.take(k));
    } else {
        assert(s.take(k) =~= s);
    }
}

proof fn lemma_sum_zeros(n: nat)
    ensures
        seq_sum(Seq::new(n, |i: int| 0u64)) == 0,
    decreases n,
{
    if n > 0 {
        lemma_sum_zeros((n - 1) as nat);
        assert(Seq::new(n, |i: int| 0u64).drop_last() =~= Seq::new((n - 1) as nat, |i: int| 0u64));
    }
}

impl CallbackTimeStats {
    /// Structural invariant: the histogram has `HIST_BUCKETS` buckets counting every callback.
    pub open spec fn wf(&self) -> bool {
        &&& self.hist@.len() == HIST_BUCKETS
        &&& seq_sum(self.hist@) == self.callback_count
    }

    /// Empty statistics (`min_ns` starts at `u64::MAX`).
    pub fn new() -> (r: Self)
        ensures
            r.wf(),
            r.callback_count == 0,
            r.min_ns == u64::MAX,
            r.max_ns == 0,
            r.sum_ns == 0,
            r.hist@ == Seq::new(HIST_BUCKETS as nat, |i: int| 0u64),
    {
        let mut hist: Vec<u64> = Vec::new();
        let mut i: usize = 0;
        while i < HIST_BUCKETS
            invariant
                0 <= i <= HIST_BUCKETS,
                hist@ == Seq::new(i as nat, |j: int| 0u64),
            decreases HIST_BUCKETS - i,
        {
            hist.push(0);
            i += 1;
            proof {
                assert(hist@ =~= Seq::new(i as nat, |j: int| 0u64));
            }
        }
        proof {
            lemma_sum_zeros(HIST_BUCKETS as nat);
        }
        CallbackTimeStats { callback_count: 0, min_ns: u64::MAX, max_ns: 0, sum_ns: 0, hist }
    }

    /// Record one callback that took `elapsed_ns`.
    pub fn record(&mut self, elapsed_ns: u64)
        requires
            old(self).wf(),
            old(self).callback_count < u64::MAX,
        ensures
            final(self).wf(),
            final(self).callback_count == old(self).callback_count + 1,
            final(self).min_ns == if elapsed_ns < old(self).min_ns {
                elapsed_ns
            } else {
                old(self).min_ns
            },
            final(self).max_ns == if elapsed_ns > old(self).max_ns {
                elapsed_ns
            } else {
                old(self).max_ns
            },
            final(self).sum_ns == (old(self).sum_ns + elapsed_ns) % 0x1_0000_0000_0000_0000,
            final(self).hist@ == old(self).hist@.update(
                bucket_of(elapsed_ns),
                (old(self).hist@[bucket_of(elapsed_ns)] + 1) as u64,
            ),
    {
        self.callback_count = self.callback_count + 1;
        if elapsed_ns < self.min_ns {
            self.min_ns = elapsed_ns;
        }
        if elapsed_ns > self.max_ns {
            self.max_ns = elapsed_ns;
        }
        self.sum_ns = self.sum_ns.wrapping_add(elapsed_ns);
        let b64 = elapsed_ns / BUCKET_NS;
        let bucket: usize = if b64 < (HIST_BUCKETS - 1) as u64 {
            b64 as usize
        } else {
            HIST_BUCKETS - 1
        };
        proof {
            assert(old(self).hist@[bucket as int] <= seq_sum(old(self).hist@)) by {
                lemma_sum_update(old(self).hist@, bucket as int, 0);
                lemma_sum_nonneg(old(self).hist@.update(bucket as int, 0));
            }
        }
        let count = self.hist[bucket];
        self.hist.set(bucket, count + 1);
        proof {
            lemma_sum_update(old(self).hist@, bucket as int, (count + 1) as u64);
        }
    }

    /// The 99th percentile of the recorded durations (see [`p99_spec`]).
    pub fn p99_ns(&self) -> (r: Option<u64>)
        requires
            self.wf(),
            self.callback_count <= u64::MAX / 99,
        ensures
            r == p99_spec(self.hist@, self.callback_count),
    {
        let total = self.callback_count;
        if total == 0 {
            return None;
        }
        let product = total * 99;
        let target = product / 100 + if product % 100 == 0 {
            0
        } else {
            1
        };
        proof {
            assert(target == p99_target(total));
        }
        let mut cumulative: u64 = 0;
        let mut i: usize = 0;
        while i < HIST_BUCKETS
            invariant
                0 <= i <= HIST_BUCKETS,
                self.wf(),
                cumulative == seq_sum(self.hist@.take(i as int)),
                target == p99_target(total),
                total == self.callback_count,
                total > 0,
                first_reaching(self.hist@, target as int, 0) == first_reaching(self.hist@, target as int, i as int),
            decreases HIST_BUCKETS - i,
        {
            proof {
                lemma_sum_prefix_le(self.hist@, i + 1);
                assert(self.hist@.take(i + 1).drop_last() =~= self.hist@.take(i as int));
            }
            cumulative = cumulative + self.hist[i];
            if cumulative >= target {
                return Some(i as u64 * BUCKET_NS);
            }
            i += 1;
        }
        Some((HIST_BUCKETS - 1) as u64 * BUCKET_NS)
    }

    /// Read the statistics: `min_ns` and `mean_ns` are 0 without callbacks, `mean_ns` is the
    /// (wrapped) sum divided by the count, `p99_ns` 0 without callbacks.
    pub fn snapshot(&self) -> (r: CallbackTimeSnapshot)
        requires
            self.wf(),
            self.callback_count <= u64::MAX / 99,
        ensures
            r.callback_count == self.callback_count,
            r.min_ns == if self.callback_count == 0 {
                0
            } else {
                self.min_ns
            },
            r.max_ns == self.max_ns,
            r.mean_ns == if self.callback_count == 0 {
                0
            } else {
                self.sum_ns / self.callback_count
            },
            r.p99_ns == match p99_spec(self.hist@, self.callback_count) {
                Some(p) => p,
                None => 0,
            },
    {
        let count = self.callback_count;
        let min = self.min_ns;
        let mean = if count == 0 {
            0
        } else {
            self.sum_ns / count
        };
        let p99 = match self.p99_ns() {
            Some(p) => p,
            None => 0,
        };
        CallbackTimeSnapshot {
            callback_count: count,
            min_ns: if count == 0 {
                0
            } else {
                min
            },
            max_ns: self.max_ns,
            mean_ns: mean,
            p99_ns: p99,
        }
    }
}

} // verus!
