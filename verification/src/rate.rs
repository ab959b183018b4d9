//! The sliding window that caps how many ticks are let through.
use std::collections::VecDeque;
use vstd::prelude::*;

verus! {

/// How many ticks one window lets through.
pub const RATE_LIMIT: usize = 60;

/// The length of the window, in nanoseconds.
pub const WINDOW_NANOS: u64 = 60_000_000_000;

/// Whether a tick let through at `stamp` has left the window by `now`. A clock
/// reading that lies before the stamp counts as no time passed.
pub open spec fn expired(stamp: u64, now: u64) -> bool {
    now > stamp && now - stamp > WINDOW_NANOS
}

/// The window once its expired front entries are dropped. Eviction stops at
/// the first entry that is still in the window.
pub open spec fn live(window: Seq<u64>, now: u64) -> Seq<u64>
    decreases window.len(),
{
    if window.len() > 0 && expired(window[0], now) {
        live(window.drop_first(), now)
    } else {
        window
    }
}

/// Whether a tick that arrives at `now` is let through.
pub open spec fn accepts(window: Seq<u64>, now: u64) -> bool {
    live(window, now).len() < RATE_LIMIT
}

/// The window after a tick has arrived at `now`: only a tick that is let
/// through is recorded.
pub open spec fn recorded(window: Seq<u64>, now: u64) -> Seq<u64> {
    if accepts(window, now) {
        live(window, now).push(now)
    } else {
        live(window, now)
    }
}

/// The window after the ticks have arrived one by one.
pub open spec fn window_after(window: Seq<u64>, ticks: Seq<u64>) -> Seq<u64>
    decreases ticks.len(),
{
    if ticks.len() == 0 {
        window
    } else {
        recorded(window_after(window, ticks.drop_last()), ticks.last())
    }
}

/// Whether the tick at place `i` is let through when the ticks arrive one by
/// one at a window that starts as `window`.
pub open spec fn passes(window: Seq<u64>, ticks: Seq<u64>, i: int) -> bool
    recommends
        0 <= i < ticks.len(),
{
    accepts(window_after(window, ticks.take(i)), ticks[i])
}

/// The times at which the ticks still counted against the limit were let
/// through, oldest first.
pub struct RateWindow {
    stamps: VecDeque<u64>,
}

impl View for RateWindow {
    type V = Seq<u64>;

    closed spec fn view(&self) -> Seq<u64> {
        self.stamps@
    }
}

impl RateWindow {
    /// A window holds no more entries than the limit.
    pub open spec fn wf(&self) -> bool {
        self@.len() <= RATE_LIMIT
    }

    /// An empty window.
    pub fn new() -> (window: Self)
        ensures
            window@ == Seq::<u64>::empty(),
            window.wf(),
    {
        RateWindow { stamps: VecDeque::new() }
    }

    /// How many ticks are counted against the limit: never more than the limit.
    pub fn len(&self) -> (n: usize)
        requires
            self.wf(),
        ensures
            n == self@.len(),
            n <= RATE_LIMIT,
    {
        self.stamps.len()
    }

    /// The time of the entry at place `i`, oldest first.
    pub fn stamp(&self, i: usize) -> (t: u64)
        requires
            i < self@.len(),
        ensures
            t == self@[i as int],
    {
        self.stamps[i]
    }

    /// Takes a tick that arrives at `now`, in nanoseconds of a clock that does
    /// not run backwards: drops the entries that have left the window, then
    /// lets the tick through and records it unless the window is full.
    pub fn accept(&mut self, now: u64) -> (ok: bool)
        requires
            old(self).wf(),
        ensures
            ok == accepts(old(self)@, now),
            final(self)@ == recorded(old(self)@, now),
            final(self).wf(),
    {
        while self.stamps.len() > 0 && is_expired(self.stamps[0], now)
            invariant
                self.stamps@.len() <= RATE_LIMIT,
                live(self.stamps@, now) == live(old(self).stamps@, now),
            decreases self.stamps@.len(),
        {
            proof {
                assert(self.stamps@.drop_first() == self.stamps@.subrange(
                    1,
                    self.stamps@.len() as int,
                ));
            }
            self.stamps.pop_front();
        }
        if self.stamps.len() < RATE_LIMIT {
            self.stamps.push_back(now);
            true
        } else {
            false
        }
    }
}

/// Computes `expired`.
pub fn is_expired(stamp: u64, now: u64) -> (r: bool)
    ensures
        r == expired(stamp, now),
{
    now > stamp && now - stamp > WINDOW_NANOS
}

/// A window whose oldest entry has not expired loses nothing.
pub proof fn lemma_live_keeps_fresh(window: Seq<u64>, now: u64)
    requires
        window.len() == 0 || !expired(window[0], now),
    ensures
        live(window, now) == window,
{
}

/// Of ticks that arrive in order within one window length at an empty window,
/// the first `RATE_LIMIT` are let through and every later one is dropped.
pub proof fn lemma_burst_passes_first(ticks: Seq<u64>, i: int)
    requires
        forall|a: int, b: int| 0 <= a <= b < ticks.len() ==> ticks[a] <= ticks[b],
        ticks.len() > 0 ==> ticks.last() - ticks.first() <= WINDOW_NANOS,
        0 <= i < ticks.len(),
    ensures
        passes(Seq::empty(), ticks, i) == (i < RATE_LIMIT),
{
    lemma_burst_window(ticks, i);
    let before = window_after(Seq::empty(), ticks.take(i));
    if before.len() > 0 {
        assert(before[0] == ticks[0]);
    }
    lemma_live_keeps_fresh(before, ticks[i]);
}

/// After the first `n` ticks of such a burst the window holds the first
/// `RATE_LIMIT` of them.
pub proof fn lemma_burst_window(ticks: Seq<u64>, n: int)
    requires
        forall|a: int, b: int| 0 <= a <= b < ticks.len() ==> ticks[a] <= ticks[b],
        ticks.len() > 0 ==> ticks.last() - ticks.first() <= WINDOW_NANOS,
        0 <= n <= ticks.len(),
    ensures
        window_after(Seq::empty(), ticks.take(n)) == ticks.take(
            if n < RATE_LIMIT {
                n
            } else {
                RATE_LIMIT as int
            },
        ),
    decreases n,
{
    if n == 0 {
        assert(ticks.take(0).len() == 0);
        assert(window_after(Seq::empty(), ticks.take(0)) == Seq::<u64>::empty());
        assert(ticks.take(0) == Seq::<u64>::empty());
    } else {
        lemma_burst_window(ticks, n - 1);
        let prefix = ticks.take(n);
        assert(prefix.drop_last() == ticks.take(n - 1));
        assert(prefix.last() == ticks[n - 1]);
        let before = window_after(Seq::empty(), ticks.take(n - 1));
        if before.len() > 0 {
            assert(before[0] == ticks[0]);
        }
        lemma_live_keeps_fresh(before, ticks[n - 1]);
        if n - 1 < RATE_LIMIT {
            assert(ticks.take(n - 1).push(ticks[n - 1]) == ticks.take(n));
        }
    }
}

} // verus!
