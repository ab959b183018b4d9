//! Exponential averages of a series of prices, and the signals read off them.
//!
//! The prices are doubles, held by their bits, and every formula is computed
//! with the arithmetic that the caller hands in (see `number`). What is said
//! of a result is said in terms of what that arithmetic gave, step by step.
use crate::number::{
    apply, arith_defined, arith_functional, computes, lift_defined, lift_functional, lifts, Op,
    ONE_BITS, TWO_BITS,
};
use crate::scoring::{direction, AGREEMENT_POINTS, MIN_AGREEING, MIN_POINTS};
use crate::signal::{count_side, crossover, detect_crossover, Signal};
use vstd::prelude::*;

verus! {

/// The period of the fast average.
pub const FAST_PERIOD: usize = 12;

/// The period of the slow average.
pub const SLOW_PERIOD: usize = 26;

/// The period of the average of the momentum line.
pub const MOMENTUM_PERIOD: usize = 9;

/// The least number of points on which a crossing of the two averages is
/// looked for.
pub const EMA_MIN_POINTS: usize = 26;

/// The least number of points on which a crossing of the momentum line and its
/// average is looked for.
pub const MACD_MIN_POINTS: usize = 35;

/// Why an average could not be computed.
#[derive(Clone, Copy, Debug, PartialEq, Eq, Structural)]
pub enum EmaError {
    /// There are no values to average.
    InvalidInput,
}

/// Whether `k` is the weight of a new value in an average over `period`
/// points: `2 / (period + 1)`.
pub open spec fn is_weight<A: Fn(Op, u64, u64) -> u64, L: Fn(usize) -> u64>(
    k: u64,
    period: usize,
    arith: A,
    lift: L,
) -> bool {
    exists|points: u64, span: u64|
        #![trigger computes(arith, Op::Add, points, ONE_BITS, span)]
        lifts(lift, period, points) && computes(arith, Op::Add, points, ONE_BITS, span) && computes(
            arith,
            Op::Div,
            TWO_BITS,
            span,
            k,
        )
}

/// Whether `out` is a value blended with the point before it at the weight
/// `k`: `value * k + previous * (1 - k)`.
pub open spec fn is_blend<A: Fn(Op, u64, u64) -> u64>(
    out: u64,
    value: u64,
    previous: u64,
    k: u64,
    arith: A,
) -> bool {
    exists|rest: u64, fresh: u64, kept: u64|
        #![trigger computes(arith, Op::Mul, previous, rest, kept), computes(arith, Op::Add, fresh, kept, out)]
        computes(arith, Op::Sub, ONE_BITS, k, rest) && computes(arith, Op::Mul, value, k, fresh)
            && computes(arith, Op::Mul, previous, rest, kept) && computes(
            arith,
            Op::Add,
            fresh,
            kept,
            out,
        )
}

/// Whether the point of `out` at `t` is the value at `t` blended with the
/// point before.
pub open spec fn is_ema_step<A: Fn(Op, u64, u64) -> u64>(
    out: Seq<u64>,
    values: Seq<u64>,
    k: u64,
    arith: A,
    t: int,
) -> bool {
    is_blend(out[t], values[t], out[t - 1], k, arith)
}

/// Whether `out` is the exponential average of `values` at the weight `k`: as
/// long as the values, it starts with the first value, and each later point
/// is the value blended with the point before.
pub open spec fn is_ema_at<A: Fn(Op, u64, u64) -> u64>(
    out: Seq<u64>,
    values: Seq<u64>,
    k: u64,
    arith: A,
) -> bool {
    &&& out.len() == values.len()
    &&& values.len() > 0 ==> out[0] == values[0]
    &&& forall|t: int| 1 <= t < values.len() ==> #[trigger] is_ema_step(out, values, k, arith, t)
}

/// Whether `out` is the exponential average of `values` over `period` points.
pub open spec fn is_ema<A: Fn(Op, u64, u64) -> u64, L: Fn(usize) -> u64>(
    out: Seq<u64>,
    values: Seq<u64>,
    period: usize,
    arith: A,
    lift: L,
) -> bool {
    exists|k: u64| #[trigger] is_weight(k, period, arith, lift) && is_ema_at(out, values, k, arith)
}

/// Whether `out` is `a` less `b`, point for point.
pub open spec fn is_difference<A: Fn(Op, u64, u64) -> u64>(
    out: Seq<u64>,
    a: Seq<u64>,
    b: Seq<u64>,
    arith: A,
) -> bool {
    &&& out.len() == a.len()
    &&& out.len() == b.len()
    &&& forall|t: int| 0 <= t < out.len() ==> computes(arith, Op::Sub, a[t], b[t], #[trigger] out[t])
}

/// Whether `signal` is what the averages of the prices give: nothing on fewer
/// than `EMA_MIN_POINTS` prices, else the crossing of the average over
/// `FAST_PERIOD` and the one over `SLOW_PERIOD` at the last step.
pub open spec fn is_ema_signal<A: Fn(Op, u64, u64) -> u64, L: Fn(usize) -> u64>(
    signal: Option<Signal>,
    prices: Seq<u64>,
    arith: A,
    lift: L,
) -> bool {
    if prices.len() < EMA_MIN_POINTS {
        signal is None
    } else {
        exists|fast: Seq<u64>, slow: Seq<u64>|
            #![trigger is_ema(fast, prices, FAST_PERIOD, arith, lift), is_ema(slow, prices, SLOW_PERIOD, arith, lift)]
            is_ema(fast, prices, FAST_PERIOD, arith, lift) && is_ema(
                slow,
                prices,
                SLOW_PERIOD,
                arith,
                lift,
            ) && signal == crossover(fast, slow, EMA_MIN_POINTS as nat)
    }
}

/// Whether `line` is the momentum line of the prices: the average over
/// `FAST_PERIOD` less the one over `SLOW_PERIOD`.
pub open spec fn is_macd<A: Fn(Op, u64, u64) -> u64, L: Fn(usize) -> u64>(
    line: Seq<u64>,
    prices: Seq<u64>,
    arith: A,
    lift: L,
) -> bool {
    exists|fast: Seq<u64>, slow: Seq<u64>|
        #![trigger is_ema(fast, prices, FAST_PERIOD, arith, lift), is_ema(slow, prices, SLOW_PERIOD, arith, lift)]
        is_ema(fast, prices, FAST_PERIOD, arith, lift) && is_ema(
            slow,
            prices,
            SLOW_PERIOD,
            arith,
            lift,
        ) && is_difference(line, fast, slow, arith)
}

/// Whether `signal` is what the momentum of the prices gives: nothing on fewer
/// than `MACD_MIN_POINTS` prices, else the crossing of the momentum line and
/// its own average over `MOMENTUM_PERIOD` at the last step.
pub open spec fn is_macd_signal<A: Fn(Op, u64, u64) -> u64, L: Fn(usize) -> u64>(
    signal: Option<Signal>,
    prices: Seq<u64>,
    arith: A,
    lift: L,
) -> bool {
    if prices.len() < MACD_MIN_POINTS {
        signal is None
    } else {
        exists|line: Seq<u64>, smooth: Seq<u64>|
            #![trigger is_macd(line, prices, arith, lift), is_ema(smooth, line, MOMENTUM_PERIOD, arith, lift)]
            is_macd(line, prices, arith, lift) && is_ema(smooth, line, MOMENTUM_PERIOD, arith, lift)
                && signal == crossover(line, smooth, MACD_MIN_POINTS as nat)
    }
}

/// The weight of a new value in an average over `period` points.
pub fn weight<A: Fn(Op, u64, u64) -> u64, L: Fn(usize) -> u64>(period: usize, arith: &A, lift: &L) -> (k:
    u64)
    requires
        arith_defined(*arith),
        lift_defined(*lift),
    ensures
        is_weight(k, period, *arith, *lift),
{
    let points = lift(period);
    let span = apply(arith, Op::Add, points, ONE_BITS);
    let k = apply(arith, Op::Div, TWO_BITS, span);
    proof {
        assert(lifts(*lift, period, points));
    }
    k
}

/// A value blended with the point before it at the weight `k`.
pub fn blend<A: Fn(Op, u64, u64) -> u64>(value: u64, previous: u64, k: u64, arith: &A) -> (out: u64)
    requires
        arith_defined(*arith),
    ensures
        is_blend(out, value, previous, k, *arith),
{
    let fresh = apply(arith, Op::Mul, value, k);
    let rest = apply(arith, Op::Sub, ONE_BITS, k);
    let kept = apply(arith, Op::Mul, previous, rest);
    apply(arith, Op::Add, fresh, kept)
}

/// The exponential average of the prices over a period: the first point is
/// the first price, and each later point is `price * k + previous * (1 - k)`
/// with `k = 2 / (period + 1)`. Fails on no prices, and only then.
pub fn calculate_ema<A: Fn(Op, u64, u64) -> u64, L: Fn(usize) -> u64>(
    prices: &[u64],
    period: usize,
    arith: &A,
    lift: &L,
) -> (r: Result<Vec<u64>, EmaError>)
    requires
        arith_defined(*arith),
        lift_defined(*lift),
    ensures
        prices.len() == 0 <==> r is Err,
        r is Err ==> r == Err::<Vec<u64>, EmaError>(EmaError::InvalidInput),
        r is Ok ==> is_ema(r->Ok_0@, prices@, period, *arith, *lift),
        r is Ok ==> r->Ok_0@.len() == prices.len() && r->Ok_0@[0] == prices[0],
{
    if prices.len() == 0 {
        return Err(EmaError::InvalidInput);
    }
    let k = weight(period, arith, lift);
    let mut ema: Vec<u64> = Vec::new();
    let mut previous = prices[0];
    ema.push(previous);
    let mut t: usize = 1;
    while t < prices.len()
        invariant
            1 <= t <= prices.len(),
            ema.len() == t,
            ema[0] == prices[0],
            previous == ema[t - 1],
            arith_defined(*arith),
            forall|i: int| 1 <= i < t ==> #[trigger] is_ema_step(ema@, prices@, k, *arith, i),
        decreases prices.len() - t,
    {
        let next = blend(prices[t], previous, k, arith);
        let ghost before = ema@;
        ema.push(next);
        previous = next;
        proof {
            assert forall|i: int| 1 <= i < t + 1 implies #[trigger] is_ema_step(
                ema@,
                prices@,
                k,
                *arith,
                i,
            ) by {
                if i < t {
                    assert(is_ema_step(before, prices@, k, *arith, i));
                }
            }
        }
        t = t + 1;
    }
    proof {
        assert(is_ema_at(ema@, prices@, k, *arith));
    }
    Ok(ema)
}

/// The difference of two lines, point for point.
pub fn difference<A: Fn(Op, u64, u64) -> u64>(a: &[u64], b: &[u64], arith: &A) -> (out: Vec<u64>)
    requires
        a.len() == b.len(),
        arith_defined(*arith),
    ensures
        is_difference(out@, a@, b@, *arith),
{
    let mut out: Vec<u64> = Vec::new();
    let mut t: usize = 0;
    while t < a.len()
        invariant
            a.len() == b.len(),
            t <= a.len(),
            out.len() == t,
            arith_defined(*arith),
            forall|i: int| 0 <= i < t ==> computes(*arith, Op::Sub, a[i], b[i], #[trigger] out[i]),
        decreases a.len() - t,
    {
        let d = apply(arith, Op::Sub, a[t], b[t]);
        out.push(d);
        t = t + 1;
    }
    out
}

/// The signal of the averages of the prices: on at least `EMA_MIN_POINTS`
/// prices, buy where the fast average has just risen above the slow one, sell
/// where it has just fallen below it; else nothing.
pub fn detect_ema_signals<A: Fn(Op, u64, u64) -> u64, L: Fn(usize) -> u64>(
    prices: &[u64],
    arith: &A,
    lift: &L,
) -> (r: Option<Signal>)
    requires
        arith_defined(*arith),
        lift_defined(*lift),
    ensures
        is_ema_signal(r, prices@, *arith, *lift),
{
    if prices.len() < EMA_MIN_POINTS {
        return None;
    }
    let fast = match calculate_ema(prices, FAST_PERIOD, arith, lift) {
        Ok(fast) => fast,
        Err(_) => {
            return None;
        },
    };
    let slow = match calculate_ema(prices, SLOW_PERIOD, arith, lift) {
        Ok(slow) => slow,
        Err(_) => {
            return None;
        },
    };
    let r = detect_crossover(fast.as_slice(), slow.as_slice(), EMA_MIN_POINTS);
    proof {
        assert(is_ema(fast@, prices@, FAST_PERIOD, *arith, *lift) && is_ema(
            slow@,
            prices@,
            SLOW_PERIOD,
            *arith,
            *lift,
        ));
    }
    r
}

/// The side that the signals of the timeframes decide for: each timeframe
/// that calls for a side gives that side `AGREEMENT_POINTS`, and a side is
/// decided for with at least `MIN_AGREEING` timeframes and `MIN_POINTS`
/// points. The buy side is asked first.
pub fn points_based_signal(timeframe_signals: &[Option<Signal>]) -> (r: Option<Signal>)
    ensures
        r == direction(timeframe_signals@),
{
    let buys = count_side(timeframe_signals, Signal::Buy);
    let sells = count_side(timeframe_signals, Signal::Sell);
    if buys >= MIN_AGREEING && (buys as u128) * (AGREEMENT_POINTS as u128) >= MIN_POINTS as u128 {
        Some(Signal::Buy)
    } else if sells >= MIN_AGREEING && (sells as u128) * (AGREEMENT_POINTS as u128)
        >= MIN_POINTS as u128 {
        Some(Signal::Sell)
    } else {
        None
    }
}

/// The signal of the momentum of the prices: on at least `MACD_MIN_POINTS`
/// prices, buy where the momentum line has just risen above its average, sell
/// where it has just fallen below it; else nothing.
pub fn detect_macd_crossover<A: Fn(Op, u64, u64) -> u64, L: Fn(usize) -> u64>(
    prices: &[u64],
    arith: &A,
    lift: &L,
) -> (r: Option<Signal>)
    requires
        arith_defined(*arith),
        lift_defined(*lift),
    ensures
        is_macd_signal(r, prices@, *arith, *lift),
{
    if prices.len() < MACD_MIN_POINTS {
        return None;
    }
    let fast = match calculate_ema(prices, FAST_PERIOD, arith, lift) {
        Ok(fast) => fast,
        Err(_) => {
            return None;
        },
    };
    let slow = match calculate_ema(prices, SLOW_PERIOD, arith, lift) {
        Ok(slow) => slow,
        Err(_) => {
            return None;
        },
    };
    let line = difference(fast.as_slice(), slow.as_slice(), arith);
    let smooth = match calculate_ema(line.as_slice(), MOMENTUM_PERIOD, arith, lift) {
        Ok(smooth) => smooth,
        Err(_) => {
            return None;
        },
    };
    let r = detect_crossover(line.as_slice(), smooth.as_slice(), MACD_MIN_POINTS);
    proof {
        assert(is_ema(fast@, prices@, FAST_PERIOD, *arith, *lift) && is_ema(
            slow@,
            prices@,
            SLOW_PERIOD,
            *arith,
            *lift,
        ));
        assert(is_macd(line@, prices@, *arith, *lift));
        assert(is_ema(smooth@, line@, MOMENTUM_PERIOD, *arith, *lift));
    }
    r
}

/// With arithmetic that gives one result for each pair of operands, the
/// weight of a period is settled.
pub proof fn lemma_weight_unique<A: Fn(Op, u64, u64) -> u64, L: Fn(usize) -> u64>(
    first: u64,
    second: u64,
    period: usize,
    arith: A,
    lift: L,
)
    requires
        arith_functional(arith),
        lift_functional(lift),
        is_weight(first, period, arith, lift),
        is_weight(second, period, arith, lift),
    ensures
        first == second,
{
    let (p1, s1) = choose|points: u64, span: u64|
        #![trigger computes(arith, Op::Add, points, ONE_BITS, span)]
        lifts(lift, period, points) && computes(arith, Op::Add, points, ONE_BITS, span) && computes(
            arith,
            Op::Div,
            TWO_BITS,
            span,
            first,
        );
    let (p2, s2) = choose|points: u64, span: u64|
        #![trigger computes(arith, Op::Add, points, ONE_BITS, span)]
        lifts(lift, period, points) && computes(arith, Op::Add, points, ONE_BITS, span) && computes(
            arith,
            Op::Div,
            TWO_BITS,
            span,
            second,
        );
    assert(p1 == p2);
    assert(s1 == s2);
}

/// With such arithmetic, the blend of a value and the point before it is
/// settled.
pub proof fn lemma_blend_unique<A: Fn(Op, u64, u64) -> u64>(
    first: u64,
    second: u64,
    value: u64,
    previous: u64,
    k: u64,
    arith: A,
)
    requires
        arith_functional(arith),
        is_blend(first, value, previous, k, arith),
        is_blend(second, value, previous, k, arith),
    ensures
        first == second,
{
    let (r1, f1, k1) = choose|rest: u64, fresh: u64, kept: u64|
        #![trigger computes(arith, Op::Mul, previous, rest, kept), computes(arith, Op::Add, fresh, kept, first)]
        computes(arith, Op::Sub, ONE_BITS, k, rest) && computes(arith, Op::Mul, value, k, fresh)
            && computes(arith, Op::Mul, previous, rest, kept) && computes(
            arith,
            Op::Add,
            fresh,
            kept,
            first,
        );
    let (r2, f2, k2) = choose|rest: u64, fresh: u64, kept: u64|
        #![trigger computes(arith, Op::Mul, previous, rest, kept), computes(arith, Op::Add, fresh, kept, second)]
        computes(arith, Op::Sub, ONE_BITS, k, rest) && computes(arith, Op::Mul, value, k, fresh)
            && computes(arith, Op::Mul, previous, rest, kept) && computes(
            arith,
            Op::Add,
            fresh,
            kept,
            second,
        );
    assert(r1 == r2);
    assert(f1 == f2);
    assert(k1 == k2);
}

/// With such arithmetic, two averages of the same values at the same weight
/// agree up to the point `t`.
pub proof fn lemma_ema_at_agrees<A: Fn(Op, u64, u64) -> u64>(
    first: Seq<u64>,
    second: Seq<u64>,
    values: Seq<u64>,
    k: u64,
    arith: A,
    t: int,
)
    requires
        arith_functional(arith),
        is_ema_at(first, values, k, arith),
        is_ema_at(second, values, k, arith),
        0 <= t < values.len(),
    ensures
        first[t] == second[t],
    decreases t,
{
    if t > 0 {
        lemma_ema_at_agrees(first, second, values, k, arith, t - 1);
        assert(is_ema_step(first, values, k, arith, t));
        assert(is_ema_step(second, values, k, arith, t));
        lemma_blend_unique(first[t], second[t], values[t], first[t - 1], k, arith);
    }
}

/// With arithmetic that gives one result for each pair of operands and for
/// each count, the exponential average of the values over a period is
/// settled.
pub proof fn lemma_ema_unique<A: Fn(Op, u64, u64) -> u64, L: Fn(usize) -> u64>(
    first: Seq<u64>,
    second: Seq<u64>,
    values: Seq<u64>,
    period: usize,
    arith: A,
    lift: L,
)
    requires
        arith_functional(arith),
        lift_functional(lift),
        is_ema(first, values, period, arith, lift),
        is_ema(second, values, period, arith, lift),
    ensures
        first == second,
{
    let k1 = choose|k: u64| #[trigger] is_weight(k, period, arith, lift) && is_ema_at(first, values, k, arith);
    let k2 = choose|k: u64| #[trigger]
        is_weight(k, period, arith, lift) && is_ema_at(second, values, k, arith);
    lemma_weight_unique(k1, k2, period, arith, lift);
    assert forall|t: int| 0 <= t < first.len() implies first[t] == second[t] by {
        lemma_ema_at_agrees(first, second, values, k1, arith, t);
    }
    assert(first =~= second);
}

/// With such arithmetic, the difference of two lines is settled.
pub proof fn lemma_difference_unique<A: Fn(Op, u64, u64) -> u64>(
    first: Seq<u64>,
    second: Seq<u64>,
    a: Seq<u64>,
    b: Seq<u64>,
    arith: A,
)
    requires
        arith_functional(arith),
        is_difference(first, a, b, arith),
        is_difference(second, a, b, arith),
    ensures
        first == second,
{
    assert forall|t: int| 0 <= t < first.len() implies first[t] == second[t] by {
        assert(computes(arith, Op::Sub, a[t], b[t], first[t]));
        assert(computes(arith, Op::Sub, a[t], b[t], second[t]));
    }
    assert(first =~= second);
}

/// With such arithmetic, the signal of the averages of the prices is settled.
pub proof fn lemma_ema_signal_unique<A: Fn(Op, u64, u64) -> u64, L: Fn(usize) -> u64>(
    first: Option<Signal>,
    second: Option<Signal>,
    prices: Seq<u64>,
    arith: A,
    lift: L,
)
    requires
        arith_functional(arith),
        lift_functional(lift),
        is_ema_signal(first, prices, arith, lift),
        is_ema_signal(second, prices, arith, lift),
    ensures
        first == second,
{
    if prices.len() >= EMA_MIN_POINTS {
        let (f1, s1) = choose|fast: Seq<u64>, slow: Seq<u64>|
            #![trigger is_ema(fast, prices, FAST_PERIOD, arith, lift), is_ema(slow, prices, SLOW_PERIOD, arith, lift)]
            is_ema(fast, prices, FAST_PERIOD, arith, lift) && is_ema(
                slow,
                prices,
                SLOW_PERIOD,
                arith,
                lift,
            ) && first == crossover(fast, slow, EMA_MIN_POINTS as nat);
        let (f2, s2) = choose|fast: Seq<u64>, slow: Seq<u64>|
            #![trigger is_ema(fast, prices, FAST_PERIOD, arith, lift), is_ema(slow, prices, SLOW_PERIOD, arith, lift)]
            is_ema(fast, prices, FAST_PERIOD, arith, lift) && is_ema(
                slow,
                prices,
                SLOW_PERIOD,
                arith,
                lift,
            ) && second == crossover(fast, slow, EMA_MIN_POINTS as nat);
        lemma_ema_unique(f1, f2, prices, FAST_PERIOD, arith, lift);
        lemma_ema_unique(s1, s2, prices, SLOW_PERIOD, arith, lift);
    }
}

/// With such arithmetic, the momentum line of the prices is settled.
pub proof fn lemma_macd_unique<A: Fn(Op, u64, u64) -> u64, L: Fn(usize) -> u64>(
    first: Seq<u64>,
    second: Seq<u64>,
    prices: Seq<u64>,
    arith: A,
    lift: L,
)
    requires
        arith_functional(arith),
        lift_functional(lift),
        is_macd(first, prices, arith, lift),
        is_macd(second, prices, arith, lift),
    ensures
        first == second,
{
    let (f1, s1) = choose|fast: Seq<u64>, slow: Seq<u64>|
        #![trigger is_ema(fast, prices, FAST_PERIOD, arith, lift), is_ema(slow, prices, SLOW_PERIOD, arith, lift)]
        is_ema(fast, prices, FAST_PERIOD, arith, lift) && is_ema(
            slow,
            prices,
            SLOW_PERIOD,
            arith,
            lift,
        ) && is_difference(first, fast, slow, arith);
    let (f2, s2) = choose|fast: Seq<u64>, slow: Seq<u64>|
        #![trigger is_ema(fast, prices, FAST_PERIOD, arith, lift), is_ema(slow, prices, SLOW_PERIOD, arith, lift)]
        is_ema(fast, prices, FAST_PERIOD, arith, lift) && is_ema(
            slow,
            prices,
            SLOW_PERIOD,
            arith,
            lift,
        ) && is_difference(second, fast, slow, arith);
    lemma_ema_unique(f1, f2, prices, FAST_PERIOD, arith, lift);
    lemma_ema_unique(s1, s2, prices, SLOW_PERIOD, arith, lift);
    lemma_difference_unique(first, second, f1, s1, arith);
}

/// With such arithmetic, the signal of the momentum of the prices is settled.
pub proof fn lemma_macd_signal_unique<A: Fn(Op, u64, u64) -> u64, L: Fn(usize) -> u64>(
    first: Option<Signal>,
    second: Option<Signal>,
    prices: Seq<u64>,
    arith: A,
    lift: L,
)
    requires
        arith_functional(arith),
        lift_functional(lift),
        is_macd_signal(first, prices, arith, lift),
        is_macd_signal(second, prices, arith, lift),
    ensures
        first == second,
{
    if prices.len() >= MACD_MIN_POINTS {
        let (l1, s1) = choose|line: Seq<u64>, smooth: Seq<u64>|
            #![trigger is_macd(line, prices, arith, lift), is_ema(smooth, line, MOMENTUM_PERIOD, arith, lift)]
            is_macd(line, prices, arith, lift) && is_ema(smooth, line, MOMENTUM_PERIOD, arith, lift)
                && first == crossover(line, smooth, MACD_MIN_POINTS as nat);
        let (l2, s2) = choose|line: Seq<u64>, smooth: Seq<u64>|
            #![trigger is_macd(line, prices, arith, lift), is_ema(smooth, line, MOMENTUM_PERIOD, arith, lift)]
            is_macd(line, prices, arith, lift) && is_ema(smooth, line, MOMENTUM_PERIOD, arith, lift)
                && second == crossover(line, smooth, MACD_MIN_POINTS as nat);
        lemma_macd_unique(l1, l2, prices, arith, lift);
        lemma_ema_unique(s1, s2, l1, MOMENTUM_PERIOD, arith, lift);
    }
}

} // verus!
