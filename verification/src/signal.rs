//! Signals, and how one is read off the last step of two lines.
use crate::number::{is_less, less_than};
use vstd::prelude::*;

verus! {

/// The side of a trend reversal.
#[derive(Clone, Copy, Debug, PartialEq, Eq, Structural)]
pub enum Signal {
    Buy,
    Sell,
}

/// The name of a side.
pub open spec fn name_of(side: Signal) -> Seq<char> {
    match side {
        Signal::Buy => "buy"@,
        Signal::Sell => "sell"@,
    }
}

impl Signal {
    /// The name of the side: `buy` or `sell`.
    pub fn name(&self) -> (text: &'static str)
        ensures
            text@ == name_of(*self),
    {
        match self {
            Signal::Buy => "buy",
            Signal::Sell => "sell",
        }
    }
}

/// How many of the signals call for `side`.
pub open spec fn count_of(signals: Seq<Option<Signal>>, side: Signal) -> nat
    decreases signals.len(),
{
    if signals.len() == 0 {
        0
    } else {
        count_of(signals.drop_last(), side) + if signals.last() == Some(side) {
            1nat
        } else {
            0nat
        }
    }
}

/// No more signals call for a side than there are signals.
pub proof fn lemma_count_of_bounded(signals: Seq<Option<Signal>>, side: Signal)
    ensures
        count_of(signals, side) <= signals.len(),
    decreases signals.len(),
{
    if signals.len() > 0 {
        lemma_count_of_bounded(signals.drop_last(), side);
    }
}

/// Counts the signals of a slice that call for `side`.
pub fn count_side(signals: &[Option<Signal>], side: Signal) -> (n: usize)
    ensures
        n == count_of(signals@, side),
{
    let mut n: usize = 0;
    let mut i: usize = 0;
    while i < signals.len()
        invariant
            i <= signals.len(),
            n <= i,
            n == count_of(signals@.take(i as int), side),
        decreases signals.len() - i,
    {
        proof {
            assert(signals@.take(i + 1).drop_last() == signals@.take(i as int));
        }
        let hit = match signals[i] {
            Some(s) => s == side,
            None => false,
        };
        if hit {
            n = n + 1;
        }
        i = i + 1;
    }
    proof {
        assert(signals@.take(i as int) == signals@);
    }
    n
}

/// The signal of one step of two lines, each a double given by its bits: buy
/// where the lead was below the lag and is now above it, sell where it was
/// above and is now below. A line that only touches the other gives nothing.
pub open spec fn crossing(prev_lead: u64, prev_lag: u64, last_lead: u64, last_lag: u64) -> Option<
    Signal,
> {
    if less_than(prev_lead, prev_lag) && less_than(last_lag, last_lead) {
        Some(Signal::Buy)
    } else if less_than(prev_lag, prev_lead) && less_than(last_lead, last_lag) {
        Some(Signal::Sell)
    } else {
        None
    }
}

/// The signal of two lines of at least `min_points` points each: that of their
/// last step. Shorter lines give nothing.
pub open spec fn crossover(lead: Seq<u64>, lag: Seq<u64>, min_points: nat) -> Option<Signal> {
    if lead.len() < min_points || lag.len() < min_points || lead.len() < 2 || lag.len() < 2 {
        None
    } else {
        crossing(lead[lead.len() - 2], lag[lag.len() - 2], lead[lead.len() - 1], lag[lag.len() - 1])
    }
}

/// Computes `crossing`.
pub fn detect_crossing(prev_lead: u64, prev_lag: u64, last_lead: u64, last_lag: u64) -> (r: Option<
    Signal,
>)
    ensures
        r == crossing(prev_lead, prev_lag, last_lead, last_lag),
{
    if is_less(prev_lead, prev_lag) && is_less(last_lag, last_lead) {
        Some(Signal::Buy)
    } else if is_less(prev_lag, prev_lead) && is_less(last_lead, last_lag) {
        Some(Signal::Sell)
    } else {
        None
    }
}

/// Computes `crossover`.
pub fn detect_crossover(lead: &[u64], lag: &[u64], min_points: usize) -> (r: Option<Signal>)
    ensures
        r == crossover(lead@, lag@, min_points as nat),
{
    let n = lead.len();
    let m = lag.len();
    if n < min_points || m < min_points || n < 2 || m < 2 {
        None
    } else {
        detect_crossing(lead[n - 2], lag[m - 2], lead[n - 1], lag[m - 1])
    }
}

/// Where the two lines are equal at the step before the last or at the last,
/// there is no signal.
pub proof fn lemma_tie_gives_nothing(prev_lead: u64, prev_lag: u64, last_lead: u64, last_lag: u64)
    requires
        !less_than(prev_lead, prev_lag) && !less_than(prev_lag, prev_lead) || !less_than(
            last_lead,
            last_lag,
        ) && !less_than(last_lag, last_lead),
    ensures
        crossing(prev_lead, prev_lag, last_lead, last_lag) is None,
{
}

/// A signal is given only by a crossing: the lead changes sides between the
/// two steps, upwards for a buy and downwards for a sell.
pub proof fn lemma_signal_is_crossing(lead: Seq<u64>, lag: Seq<u64>, min_points: nat)
    ensures
        crossover(lead, lag, min_points) == Some(Signal::Buy) ==> lead.len() >= min_points
            && lag.len() >= min_points && less_than(lead[lead.len() - 2], lag[lag.len() - 2])
            && less_than(lag[lag.len() - 1], lead[lead.len() - 1]),
        crossover(lead, lag, min_points) == Some(Signal::Sell) ==> lead.len() >= min_points
            && lag.len() >= min_points && less_than(lag[lag.len() - 2], lead[lead.len() - 2])
            && less_than(lead[lead.len() - 1], lag[lag.len() - 1]),
{
}

} // verus!
