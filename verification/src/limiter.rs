//! A sliding-window rate limiter.
//!
//! The limiter records the time of every request that it admits. Times are
//! ticks of a clock that the caller reads; a window is a number of the same
//! ticks.

use vstd::prelude::*;
use std::collections::VecDeque;

verus! {

/// Whether a request recorded at `hit` has left the window by `now`.
pub open spec fn is_expired(hit: u64, now: u64, window: u64) -> bool {
    now - hit > window
}

/// The number of expired times at the front of `hits`.
pub open spec fn expired_prefix(hits: Seq<u64>, now: u64, window: u64) -> nat
    decreases hits.len(),
{
    if hits.len() > 0 && is_expired(hits[0], now, window) {
        1 + expired_prefix(hits.drop_first(), now, window)
    } else {
        0
    }
}

/// What is left of `hits` once the expired times at its front are dropped.
pub open spec fn pruned(hits: Seq<u64>, now: u64, window: u64) -> Seq<u64> {
    hits.skip(expired_prefix(hits, now, window) as int)
}

/// Whether a request at `now` is admitted: fewer than `max` recorded
/// requests are left after pruning.
pub open spec fn admits(hits: Seq<u64>, now: u64, window: u64, max: nat) -> bool {
    pruned(hits, now, window).len() < max
}

/// The record after a request at `now`: pruned, and with `now` at its end
/// where the request is admitted.
pub open spec fn after_allow(hits: Seq<u64>, now: u64, window: u64, max: nat) -> Seq<u64> {
    if admits(hits, now, window, max) {
        pruned(hits, now, window).push(now)
    } else {
        pruned(hits, now, window)
    }
}

/// Whether the times in `hits` never go back.
pub open spec fn is_ordered(hits: Seq<u64>) -> bool {
    forall|i: int, j: int| 0 <= i <= j < hits.len() ==> hits[i] <= hits[j]
}

/// Whether `now` is no earlier than every time in `hits`.
pub open spec fn not_before(hits: Seq<u64>, now: u64) -> bool {
    forall|i: int| 0 <= i < hits.len() ==> hits[i] <= now
}

/// Whether every time in `hits` is within `window` of `now`.
pub open spec fn all_within(hits: Seq<u64>, now: u64, window: u64) -> bool {
    forall|i: int| 0 <= i < hits.len() ==> !is_expired(hits[i], now, window)
}

/// The expired times at the front of `hits` are no more than `hits` holds,
/// and the time behind them, if any, has not expired.
pub proof fn lemma_expired_prefix(hits: Seq<u64>, now: u64, window: u64)
    ensures
        expired_prefix(hits, now, window) <= hits.len(),
        forall|i: int|
            0 <= i < expired_prefix(hits, now, window) ==> is_expired(
                #[trigger] hits[i],
                now,
                window,
            ),
        expired_prefix(hits, now, window) < hits.len() ==> !is_expired(
            hits[expired_prefix(hits, now, window) as int],
            now,
            window,
        ),
    decreases hits.len(),
{
    if hits.len() > 0 && is_expired(hits[0], now, window) {
        let rest = hits.drop_first();
        lemma_expired_prefix(rest, now, window);
        assert forall|i: int| 0 <= i < expired_prefix(hits, now, window) implies is_expired(
            #[trigger] hits[i],
            now,
            window,
        ) by {
            if i > 0 {
                assert(hits[i] == rest[i - 1]);
            }
        }
        if expired_prefix(hits, now, window) < hits.len() {
            assert(hits[expired_prefix(hits, now, window) as int] == rest[expired_prefix(
                rest,
                now,
                window,
            ) as int]);
        }
    }
}

/// Pruning an ordered record drops exactly its expired times: what is left
/// is within the window, in the same order.
pub proof fn lemma_pruned_ordered(hits: Seq<u64>, now: u64, window: u64)
    requires
        is_ordered(hits),
    ensures
        is_ordered(pruned(hits, now, window)),
        all_within(pruned(hits, now, window), now, window),
        pruned(hits, now, window) == hits.filter(|hit: u64| !is_expired(hit, now, window)),
    decreases hits.len(),
{
    lemma_expired_prefix(hits, now, window);
    let k = expired_prefix(hits, now, window) as int;
    let left = pruned(hits, now, window);
    let live = |hit: u64| !is_expired(hit, now, window);
    assert forall|i: int| 0 <= i < left.len() implies !is_expired(#[trigger] left[i], now, window) by {
        assert(left[i] == hits[k + i]);
        assert(hits[k] <= hits[k + i]);
    }
    reveal(Seq::filter);
    if hits.len() == 0 {
        assert(left =~= hits.filter(live));
    } else {
        let front = hits.drop_last();
        assert(is_ordered(front)) by {
            assert forall|i: int, j: int| 0 <= i <= j < front.len() implies front[i] <= front[j] by {
                assert(front[i] == hits[i] && front[j] == hits[j]);
            }
        }
        lemma_pruned_ordered(front, now, window);
        lemma_expired_prefix(front, now, window);
        let kf = expired_prefix(front, now, window) as int;
        if k == hits.len() {
            assert(kf == front.len()) by {
                if kf < front.len() {
                    assert(front[kf] == hits[kf]);
                }
            }
            assert(left =~= hits.filter(live));
        } else {
            assert(!is_expired(hits.last(), now, window)) by {
                assert(hits[k] <= hits[hits.len() - 1]);
            }
            assert(kf == k) by {
                if kf < k {
                    assert(front[kf] == hits[kf]);
                }
                if k < kf {
                    assert(front[k] == hits[k]);
                }
            }
            assert(left =~= pruned(front, now, window).push(hits.last()));
        }
    }
}

/// A request made no earlier than those on record keeps an ordered record
/// ordered, leaves nothing on record that is outside the window, and is
/// itself no earlier than what is on record after it.
pub proof fn lemma_allow_keeps_order(hits: Seq<u64>, now: u64, window: u64, max: nat)
    requires
        is_ordered(hits),
        not_before(hits, now),
    ensures
        is_ordered(after_allow(hits, now, window, max)),
        all_within(after_allow(hits, now, window, max), now, window),
        not_before(after_allow(hits, now, window, max), now),
        after_allow(hits, now, window, max).len() <= hits.len() + 1,
        hits.len() <= max ==> after_allow(hits, now, window, max).len() <= max,
{
    lemma_pruned_ordered(hits, now, window);
    lemma_expired_prefix(hits, now, window);
    let k = expired_prefix(hits, now, window) as int;
    let left = pruned(hits, now, window);
    assert forall|i: int| 0 <= i < left.len() implies left[i] <= now by {
        assert(left[i] == hits[k + i]);
    }
}

/// The record after a request at each of `times` in turn.
pub open spec fn after_calls(hits: Seq<u64>, times: Seq<u64>, window: u64, max: nat) -> Seq<u64>
    decreases times.len(),
{
    if times.len() == 0 {
        hits
    } else {
        after_allow(after_calls(hits, times.drop_last(), window, max), times.last(), window, max)
    }
}

/// With a clock that never goes back, the record of a limiter that started
/// empty is always ordered, never longer than `max`, and after every request
/// wholly within the window that ends at that request.
pub proof fn lemma_record_invariant(times: Seq<u64>, window: u64, max: nat)
    requires
        is_ordered(times),
        max >= 1,
    ensures
        is_ordered(after_calls(Seq::empty(), times, window, max)),
        after_calls(Seq::empty(), times, window, max).len() <= max,
        times.len() > 0 ==> all_within(
            after_calls(Seq::empty(), times, window, max),
            times.last(),
            window,
        ) && not_before(after_calls(Seq::empty(), times, window, max), times.last()),
    decreases times.len(),
{
    if times.len() > 0 {
        let earlier = times.drop_last();
        let now = times.last();
        assert(is_ordered(earlier)) by {
            assert forall|i: int, j: int| 0 <= i <= j < earlier.len() implies earlier[i]
                <= earlier[j] by {
                assert(earlier[i] == times[i] && earlier[j] == times[j]);
            }
        }
        lemma_record_invariant(earlier, window, max);
        let record = after_calls(Seq::empty(), earlier, window, max);
        assert(not_before(record, now)) by {
            if earlier.len() > 0 {
                assert(earlier.last() == times[times.len() - 2]);
                assert(times[times.len() - 2] <= times[times.len() - 1]);
            }
        }
        lemma_allow_keeps_order(record, now, window, max);
    }
}

/// Once every recorded request has left the window, the next request is
/// admitted, and it is then the only one on record.
pub proof fn lemma_admitted_after_window(hits: Seq<u64>, now: u64, window: u64, max: nat)
    requires
        max >= 1,
        forall|i: int| 0 <= i < hits.len() ==> is_expired(#[trigger] hits[i], now, window),
    ensures
        admits(hits, now, window, max),
        after_allow(hits, now, window, max) == seq![now],
{
    lemma_expired_prefix(hits, now, window);
    let k = expired_prefix(hits, now, window);
    if k < hits.len() {
        assert(is_expired(hits[k as int], now, window));
    }
    assert(after_allow(hits, now, window, max) =~= seq![now]);
}

/// While the requests on record are all within the window, a request is
/// admitted exactly where fewer than `max` are on record; a request that is
/// denied leaves the record as it was.
pub proof fn lemma_quota_within_window(hits: Seq<u64>, now: u64, window: u64, max: nat)
    requires
        all_within(hits, now, window),
    ensures
        admits(hits, now, window, max) == (hits.len() < max),
        after_allow(hits, now, window, max) == if hits.len() < max {
            hits.push(now)
        } else {
            hits
        },
{
    lemma_expired_prefix(hits, now, window);
    assert(pruned(hits, now, window) =~= hits);
}

/// A limiter that admits at most `max` requests in any window.
pub struct RateLimiter {
    window: u64,
    max: usize,
    hits: VecDeque<u64>,
}

impl RateLimiter {
    /// The length of the window.
    pub closed spec fn window(&self) -> u64 {
        self.window
    }

    /// The number of requests admitted per window.
    pub closed spec fn max(&self) -> nat {
        self.max as nat
    }

    /// The times of the admitted requests that are on record, oldest first.
    pub closed spec fn hits(&self) -> Seq<u64> {
        self.hits@
    }

    /// The limiter admits at least one request per window and has no more
    /// requests on record than it admits.
    pub open spec fn wf(&self) -> bool {
        &&& self.max() >= 1
        &&& self.hits().len() <= self.max()
    }

    /// A limiter with nothing on record. A `max` of zero counts as one.
    pub fn new(window: u64, max: usize) -> (limiter: RateLimiter)
        ensures
            limiter.wf(),
            limiter.window() == window,
            limiter.max() == if max == 0 { 1 } else { max as nat },
            limiter.hits() == Seq::<u64>::empty(),
    {
        RateLimiter { window, max: if max == 0 { 1 } else { max }, hits: VecDeque::new() }
    }

    /// Decides on a request made at `now`.
    ///
    /// The expired times at the front of the record are dropped first. The
    /// request is then denied, and not recorded, where `max` requests are
    /// left on record; else it is recorded and admitted. With a clock that
    /// never goes back the record stays ordered, and all that it holds
    /// after the call lies within the window.
    pub fn allow(&mut self, now: u64) -> (admitted: bool)
        requires
            old(self).wf(),
        ensures
            final(self).wf(),
            final(self).window() == old(self).window(),
            final(self).max() == old(self).max(),
            admitted == admits(old(self).hits(), now, old(self).window(), old(self).max()),
            final(self).hits() == after_allow(
                old(self).hits(),
                now,
                old(self).window(),
                old(self).max(),
            ),
            is_ordered(old(self).hits()) && not_before(old(self).hits(), now) ==> is_ordered(
                final(self).hits(),
            ) && all_within(final(self).hits(), now, old(self).window()),
    {
        let ghost before = self.hits@;
        let ghost mut dropped: int = 0;
        assert(before.skip(0) =~= before);
        while self.hits.len() > 0 && now > self.hits[0] && now - self.hits[0] > self.window
            invariant
                self.window == old(self).window,
                self.max == old(self).max,
                0 <= dropped <= before.len(),
                self.hits@ == before.skip(dropped),
                expired_prefix(before, now, self.window) == dropped + expired_prefix(
                    before.skip(dropped),
                    now,
                    self.window,
                ),
            decreases self.hits@.len(),
        {
            self.hits.pop_front();
            proof {
                assert(before.skip(dropped).drop_first() =~= before.skip(dropped + 1));
                dropped = dropped + 1;
            }
        }
        assert(self.hits@ == pruned(before, now, self.window));
        proof {
            if is_ordered(before) && not_before(before, now) {
                lemma_allow_keeps_order(before, now, self.window, self.max as nat);
            }
        }
        if self.hits.len() >= self.max {
            return false;
        }
        self.hits.push_back(now);
        true
    }
}

} // verus!
