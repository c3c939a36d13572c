//! The token-bucket admission gate bounding calls to the embedding service.

use vstd::prelude::*;

verus! {

/// One admission costs this many token units: token counts are scaled by
/// the milliseconds in a minute, so a quota of n calls per minute refills
/// continuously at n units per millisecond.
pub const MS_PER_MINUTE: u64 = 60000;

/// The token-bucket admission gate in front of the embedding service:
/// bounds calls per minute, refilling continuously, shared by all
/// submitters.
pub struct TokenBucket {
    pub per_minute: u32,
    pub tokens: u64,
    pub last_ms: u64,
}

/// The mathematical shape of a bucket.
pub struct BucketView {
    pub per_minute: int,
    pub tokens: int,
    pub last_ms: int,
}

pub open spec fn bucket_view(b: TokenBucket) -> BucketView {
    BucketView {
        per_minute: b.per_minute as int,
        tokens: b.tokens as int,
        last_ms: b.last_ms as int,
    }
}

pub open spec fn bv_capacity(b: BucketView) -> int {
    b.per_minute * MS_PER_MINUTE
}

pub open spec fn bv_wf(b: BucketView) -> bool {
    &&& 1 <= b.per_minute <= u32::MAX
    &&& 0 <= b.tokens <= bv_capacity(b)
    &&& 0 <= b.last_ms <= u64::MAX
}

/// The tokens available at `now`: what was left, plus the continuous
/// refill since the last look, capped at one minute's burst.
pub open spec fn bv_refill(b: BucketView, now: int) -> int {
    let grown = b.tokens + (now - b.last_ms) * b.per_minute;
    if grown >= bv_capacity(b) {
        bv_capacity(b)
    } else {
        grown
    }
}

/// One admission attempt at `now`: admitted exactly when a whole token is
/// available, which then costs one token.
pub open spec fn bv_acquire(b: BucketView, now: int) -> (BucketView, bool) {
    let avail = bv_refill(b, now);
    if avail >= MS_PER_MINUTE {
        (
            BucketView {
                per_minute: b.per_minute,
                tokens: avail - MS_PER_MINUTE,
                last_ms: now,
            },
            true,
        )
    } else {
        (BucketView { per_minute: b.per_minute, tokens: avail, last_ms: now }, false)
    }
}

impl TokenBucket {
    pub open spec fn wf(&self) -> bool {
        bv_wf(bucket_view(*self))
    }

    /// A full bucket admitting `per_minute` calls per minute.
    pub fn new(per_minute: u32, now_ms: u64) -> (b: TokenBucket)
        requires
            per_minute >= 1,
        ensures
            b.wf(),
            b.per_minute == per_minute,
            b.tokens == bv_capacity(bucket_view(b)),
            b.last_ms == now_ms,
    {
        proof {
            assert((per_minute as u64) * MS_PER_MINUTE <= (u32::MAX as u64) * MS_PER_MINUTE)
                by (nonlinear_arith)
                requires
                    per_minute <= u32::MAX,
            ;
        }
        let tokens: u64 = (per_minute as u64) * MS_PER_MINUTE;
        TokenBucket { per_minute, tokens, last_ms: now_ms }
    }

    /// Try to admit one call at `now_ms` (a monotone clock reading): the
    /// call passes exactly when the bucket has a whole token at that
    /// instant.
    pub fn try_acquire(&mut self, now_ms: u64) -> (admitted: bool)
        requires
            old(self).wf(),
            now_ms >= old(self).last_ms,
        ensures
            final(self).wf(),
            (bucket_view(*final(self)), admitted) == bv_acquire(
                bucket_view(*old(self)),
                now_ms as int,
            ),
    {
        proof {
            assert((self.per_minute as u64) * MS_PER_MINUTE <= (u32::MAX as u64) * MS_PER_MINUTE)
                by (nonlinear_arith)
                requires
                    self.per_minute <= u32::MAX,
            ;
        }
        let cap: u64 = (self.per_minute as u64) * MS_PER_MINUTE;
        let delta: u64 = now_ms - self.last_ms;
        proof {
            assert((delta as u128) * (self.per_minute as u128) <= (u64::MAX as u128) * (
            u32::MAX as u128)) by (nonlinear_arith)
                requires
                    delta <= u64::MAX,
                    self.per_minute <= u32::MAX,
            ;
            assert((delta as u128) * (self.per_minute as u128) == (delta as int) * (
            self.per_minute as int)) by (nonlinear_arith);
        }
        let grown: u128 = (self.tokens as u128) + (delta as u128) * (self.per_minute as u128);
        let avail: u64 = if grown >= (cap as u128) {
            cap
        } else {
            grown as u64
        };
        self.last_ms = now_ms;
        if avail >= MS_PER_MINUTE {
            self.tokens = avail - MS_PER_MINUTE;
            true
        } else {
            self.tokens = avail;
            false
        }
    }
}

/// How far a given time sequence lies in the future of `start`, in order.
pub open spec fn times_sorted_from(start: int, times: Seq<int>) -> bool {
    &&& forall|i: int| 0 <= i < times.len() ==> start <= #[trigger] times[i] <= u64::MAX
    &&& forall|i: int, j: int| 0 <= i < j < times.len() ==> times[i] <= times[j]
}

/// When the window of attempts closes: the last attempt, or at once when
/// there is none.
pub open spec fn bv_end_time(b: BucketView, times: Seq<int>) -> int {
    if times.len() == 0 {
        b.last_ms
    } else {
        times.last()
    }
}

/// How many of a sequence of admission attempts pass.
pub open spec fn bv_admitted_count(b: BucketView, times: Seq<int>) -> int
    decreases times.len(),
{
    if times.len() == 0 {
        0
    } else {
        let step = bv_acquire(b, times[0]);
        (if step.1 {
            1int
        } else {
            0int
        }) + bv_admitted_count(step.0, times.drop_first())
    }
}

/// The bucket never exceeds the configured rate, however bursty the
/// submission: over any window of admission attempts, the calls admitted
/// cost no more than the tokens that were available at the start plus the
/// continuous refill over the window — at most one minute's burst plus
/// `per_minute` tokens per minute of elapsed time.
pub proof fn lemma_rate_bound(b: BucketView, times: Seq<int>)
    requires
        bv_wf(b),
        times_sorted_from(b.last_ms, times),
    ensures
        bv_admitted_count(b, times) * MS_PER_MINUTE <= b.tokens + (bv_end_time(b, times)
            - b.last_ms) * b.per_minute,
    decreases times.len(),
{
    if times.len() == 0 {
        assert((bv_end_time(b, times) - b.last_ms) * b.per_minute == 0) by (nonlinear_arith)
            requires
                bv_end_time(b, times) == b.last_ms,
        ;
    } else {
        let t0 = times[0];
        let step = bv_acquire(b, t0);
        let b2 = step.0;
        let admitted: int = if step.1 {
            1
        } else {
            0
        };
        let rest = times.drop_first();
        assert(bv_refill(b, t0) >= 0) by (nonlinear_arith)
            requires
                b.tokens >= 0,
                t0 >= b.last_ms,
                b.per_minute >= 1,
                bv_refill(b, t0) == if b.tokens + (t0 - b.last_ms) * b.per_minute >= bv_capacity(b) {
                    bv_capacity(b)
                } else {
                    b.tokens + (t0 - b.last_ms) * b.per_minute
                },
                bv_capacity(b) >= 0,
        ;
        assert(bv_wf(b2));
        assert(times_sorted_from(b2.last_ms, rest)) by {
            assert(forall|i: int| 0 <= i < rest.len() ==> rest[i] == times[i + 1]);
        }
        lemma_rate_bound(b2, rest);
        let end = bv_end_time(b, times);
        assert(bv_end_time(b2, rest) == if rest.len() == 0 {
            t0
        } else {
            end
        });
        assert(b2.tokens + admitted * MS_PER_MINUTE <= b.tokens + (t0 - b.last_ms) * b.per_minute);
        assert((t0 - b.last_ms) * b.per_minute + (end - t0) * b.per_minute == (end - b.last_ms)
            * b.per_minute) by (nonlinear_arith);
        assert((bv_admitted_count(b, times)) * MS_PER_MINUTE == admitted * MS_PER_MINUTE
            + bv_admitted_count(b2, rest) * MS_PER_MINUTE) by (nonlinear_arith)
            requires
                bv_admitted_count(b, times) == admitted + bv_admitted_count(b2, rest),
        ;
        if rest.len() == 0 {
            assert((end - t0) * b.per_minute == 0) by (nonlinear_arith)
                requires
                    end == t0,
            ;
        } else {
            assert((end - t0) * b.per_minute >= 0) by (nonlinear_arith)
                requires
                    end >= t0,
                    b.per_minute >= 1,
            ;
        }
    }
}

} // verus!
