//! Reading an instrument: from its trades to what the scoring rule is fed.
//!
//! Every formula is computed with the arithmetic that the caller hands in (see
//! `number`). What is settled here is what is computed from what, and in which
//! order.
use crate::candles::{
    aggregate_candles, candle_volumes, closes, closes_of, is_aggregate,
    lemma_aggregate_prices_unique, lemma_aggregate_unique, Candle, Trade,
};
use crate::ema::{
    detect_ema_signals, detect_macd_crossover, is_ema_signal, is_macd_signal,
    lemma_ema_signal_unique, lemma_macd_signal_unique,
};
use crate::number::{
    apply, arith_defined, arith_functional, computes, is_total, lemma_total_unique, lift_defined,
    lift_functional, round_defined, round_functional, rounds, total, Op, TWENTY_BITS,
};
use crate::scoring::{
    decide, decision_of, seconds_of, timeframe_at, volume_scale, volume_scale_of, Decision,
    Reading, Timeframe, TimeframeSignal, VolumeBoost, MAX_VOLUME_BOOST, TIMEFRAMES,
};
use crate::signal::Signal;
use vstd::prelude::*;
use vstd::string::StringExecFns;

verus! {

/// Whether `turnover` is the volume of all the candles: the sum of their
/// volumes, added in their order.
pub open spec fn is_turnover<A: Fn(Op, u64, u64) -> u64>(
    turnover: u64,
    candles: Seq<Candle>,
    arith: A,
) -> bool {
    is_total(turnover, candle_volumes(candles), arith)
}

/// Whether `reading` is what a timeframe of so many seconds says of the
/// trades: the signal of the averages of the closing prices of their candles,
/// and the volume of all those candles.
pub open spec fn is_timeframe_reading<A: Fn(Op, u64, u64) -> u64, L: Fn(usize) -> u64>(
    reading: TimeframeSignal,
    trades: Seq<Trade>,
    seconds: u64,
    arith: A,
    lift: L,
) -> bool {
    exists|candles: Seq<Candle>| #[trigger]
        is_aggregate(candles, trades, seconds, arith) && is_ema_signal(
            reading.signal,
            closes_of(candles),
            arith,
            lift,
        ) && is_turnover(reading.volume, candles, arith)
}

/// Whether `signal` is the momentum signal of the trades: that of the closing
/// prices of their candles on the finest timeframe.
pub open spec fn is_momentum_reading<A: Fn(Op, u64, u64) -> u64, L: Fn(usize) -> u64>(
    signal: Option<Signal>,
    trades: Seq<Trade>,
    arith: A,
    lift: L,
) -> bool {
    exists|candles: Seq<Candle>| #[trigger]
        is_aggregate(candles, trades, seconds_of(Timeframe::M5), arith) && is_macd_signal(
            signal,
            closes_of(candles),
            arith,
            lift,
        )
}

/// Whether `points` is the share of `part` in `whole`, in twentieths:
/// `part / whole * 20`, rounded.
pub open spec fn is_share<A: Fn(Op, u64, u64) -> u64, R: Fn(u64) -> i32>(
    points: i32,
    part: u64,
    whole: u64,
    arith: A,
    round: R,
) -> bool {
    exists|ratio: u64, scaled: u64|
        #![trigger computes(arith, Op::Mul, ratio, TWENTY_BITS, scaled)]
        computes(arith, Op::Div, part, whole, ratio) && computes(
            arith,
            Op::Mul,
            ratio,
            TWENTY_BITS,
            scaled,
        ) && rounds(round, scaled, points)
}

/// A number of points brought into the range of a volume boost.
pub open spec fn capped(points: i32) -> u32 {
    if points < 0 {
        0
    } else if points > MAX_VOLUME_BOOST {
        MAX_VOLUME_BOOST
    } else {
        points as u32
    }
}

/// Whether `boost` is the volume boost of the timeframes: the share of the
/// finest timeframe's volume in the greatest volume, in twentieths, brought
/// into range; zero where no volume is above zero.
pub open spec fn is_volume_boost<A: Fn(Op, u64, u64) -> u64, R: Fn(u64) -> i32>(
    boost: u32,
    timeframes: Seq<TimeframeSignal>,
    arith: A,
    round: R,
) -> bool {
    match volume_scale_of(timeframes) {
        Some(greatest) => exists|points: i32| #[trigger]
            is_share(points, timeframes[0].volume, greatest, arith, round) && boost == capped(
                points,
            ),
        None => boost == 0,
    }
}

/// Whether `reading` is what the trades of an instrument say: each timeframe
/// from the finest to the coarsest, the momentum signal of the finest, and the
/// volume boost.
pub open spec fn is_reading<
    A: Fn(Op, u64, u64) -> u64,
    L: Fn(usize) -> u64,
    R: Fn(u64) -> i32,
>(reading: Reading, instrument: Seq<char>, trades: Seq<Trade>, arith: A, lift: L, round: R) -> bool {
    &&& reading.instrument@ == instrument
    &&& forall|place: int|
        0 <= place < TIMEFRAMES ==> is_timeframe_reading(
            #[trigger] reading.timeframes@[place],
            trades,
            seconds_of(timeframe_at(place)),
            arith,
            lift,
        )
    &&& is_momentum_reading(reading.macd, trades, arith, lift)
    &&& is_volume_boost(reading.volume_boost.value(), reading.timeframes@, arith, round)
}

/// The volume of all the candles: their volumes, added up in their order.
pub fn turnover<A: Fn(Op, u64, u64) -> u64>(candles: &[Candle], arith: &A) -> (sum: u64)
    requires
        arith_defined(*arith),
    ensures
        is_turnover(sum, candles@, *arith),
{
    let mut volumes: Vec<u64> = Vec::new();
    let mut n: usize = 0;
    while n < candles.len()
        invariant
            n <= candles.len(),
            volumes@ == candle_volumes(candles@.take(n as int)),
        decreases candles.len() - n,
    {
        volumes.push(candles[n].volume);
        proof {
            assert(volumes@ =~= candle_volumes(candles@.take(n + 1)));
        }
        n = n + 1;
    }
    proof {
        assert(candles@.take(n as int) == candles@);
    }
    total(volumes.as_slice(), arith)
}

/// What one timeframe says of the trades.
pub fn read_timeframe<A: Fn(Op, u64, u64) -> u64, L: Fn(usize) -> u64>(
    trades: &[Trade],
    timeframe: Timeframe,
    arith: &A,
    lift: &L,
) -> (reading: TimeframeSignal)
    requires
        arith_defined(*arith),
        lift_defined(*lift),
    ensures
        is_timeframe_reading(reading, trades@, seconds_of(timeframe), *arith, *lift),
{
    let candles = aggregate_candles(trades, timeframe.seconds(), arith);
    let prices = closes(candles.as_slice());
    let signal = detect_ema_signals(prices.as_slice(), arith, lift);
    let volume = turnover(candles.as_slice(), arith);
    let reading = TimeframeSignal { signal, volume };
    proof {
        assert(is_aggregate(candles@, trades@, seconds_of(timeframe), *arith));
    }
    reading
}

/// The momentum signal of the trades.
pub fn read_momentum<A: Fn(Op, u64, u64) -> u64, L: Fn(usize) -> u64>(
    trades: &[Trade],
    arith: &A,
    lift: &L,
) -> (signal: Option<Signal>)
    requires
        arith_defined(*arith),
        lift_defined(*lift),
    ensures
        is_momentum_reading(signal, trades@, *arith, *lift),
{
    let candles = aggregate_candles(trades, Timeframe::M5.seconds(), arith);
    let prices = closes(candles.as_slice());
    let signal = detect_macd_crossover(prices.as_slice(), arith, lift);
    proof {
        assert(is_aggregate(candles@, trades@, seconds_of(Timeframe::M5), *arith));
    }
    signal
}

/// The share of `part` in `whole`, in twentieths.
pub fn share<A: Fn(Op, u64, u64) -> u64, R: Fn(u64) -> i32>(
    part: u64,
    whole: u64,
    arith: &A,
    round: &R,
) -> (points: i32)
    requires
        arith_defined(*arith),
        round_defined(*round),
    ensures
        is_share(points, part, whole, *arith, *round),
{
    let ratio = apply(arith, Op::Div, part, whole);
    let scaled = apply(arith, Op::Mul, ratio, TWENTY_BITS);
    let points = round(scaled);
    proof {
        assert(rounds(*round, scaled, points));
    }
    points
}

/// The volume boost of the timeframes.
pub fn read_volume_boost<A: Fn(Op, u64, u64) -> u64, R: Fn(u64) -> i32>(
    timeframes: &[TimeframeSignal; 5],
    arith: &A,
    round: &R,
) -> (boost: VolumeBoost)
    requires
        arith_defined(*arith),
        round_defined(*round),
    ensures
        is_volume_boost(boost.value(), timeframes@, *arith, *round),
{
    match volume_scale(timeframes.as_slice()) {
        Some(greatest) => {
            let points = share(timeframes[0].volume, greatest, arith, round);
            VolumeBoost::saturating(points)
        },
        None => VolumeBoost::none(),
    }
}

/// Reads an instrument off its trades: each timeframe from the finest to the
/// coarsest, the momentum signal of the finest, and the volume boost.
pub fn read_instrument<
    A: Fn(Op, u64, u64) -> u64,
    L: Fn(usize) -> u64,
    R: Fn(u64) -> i32,
>(instrument: &str, trades: &[Trade], arith: &A, lift: &L, round: &R) -> (reading: Reading)
    requires
        arith_defined(*arith),
        lift_defined(*lift),
        round_defined(*round),
    ensures
        is_reading(reading, instrument@, trades@, *arith, *lift, *round),
{
    let m5 = read_timeframe(trades, Timeframe::M5, arith, lift);
    let m15 = read_timeframe(trades, Timeframe::M15, arith, lift);
    let h1 = read_timeframe(trades, Timeframe::H1, arith, lift);
    let h4 = read_timeframe(trades, Timeframe::H4, arith, lift);
    let d1 = read_timeframe(trades, Timeframe::D1, arith, lift);
    let timeframes = [m5, m15, h1, h4, d1];
    let macd = read_momentum(trades, arith, lift);
    let volume_boost = read_volume_boost(&timeframes, arith, round);
    Reading { instrument: String::from_str(instrument), timeframes, macd, volume_boost }
}

/// Reads an instrument off its trades and decides on it at the time `now`.
pub fn evaluate<A: Fn(Op, u64, u64) -> u64, L: Fn(usize) -> u64, R: Fn(u64) -> i32>(
    instrument: &str,
    trades: &[Trade],
    arith: &A,
    lift: &L,
    round: &R,
    now: u64,
) -> (r: (Reading, Option<Decision>))
    requires
        arith_defined(*arith),
        lift_defined(*lift),
        round_defined(*round),
    ensures
        is_reading(r.0, instrument@, trades@, *arith, *lift, *round),
        match r.1 {
            Some(decision) => decision_of(r.0@, now) == Some(decision@),
            None => decision_of(r.0@, now) is None,
        },
{
    let reading = read_instrument(instrument, trades, arith, lift, round);
    let decision = decide(&reading, now);
    (reading, decision)
}

/// With arithmetic that gives one result for each pair of operands and for
/// each count, what a timeframe says of the trades is settled.
pub proof fn lemma_timeframe_reading_unique<A: Fn(Op, u64, u64) -> u64, L: Fn(usize) -> u64>(
    first: TimeframeSignal,
    second: TimeframeSignal,
    trades: Seq<Trade>,
    seconds: u64,
    arith: A,
    lift: L,
)
    requires
        arith_functional(arith),
        lift_functional(lift),
        is_timeframe_reading(first, trades, seconds, arith, lift),
        is_timeframe_reading(second, trades, seconds, arith, lift),
    ensures
        first == second,
{
    let a = choose|candles: Seq<Candle>| #[trigger]
        is_aggregate(candles, trades, seconds, arith) && is_ema_signal(
            first.signal,
            closes_of(candles),
            arith,
            lift,
        ) && is_turnover(first.volume, candles, arith);
    let b = choose|candles: Seq<Candle>| #[trigger]
        is_aggregate(candles, trades, seconds, arith) && is_ema_signal(
            second.signal,
            closes_of(candles),
            arith,
            lift,
        ) && is_turnover(second.volume, candles, arith);
    lemma_aggregate_unique(a, b, trades, seconds, arith);
    lemma_ema_signal_unique(first.signal, second.signal, closes_of(a), arith, lift);
    lemma_total_unique(first.volume, second.volume, candle_volumes(a), arith);
}

/// With such arithmetic, the momentum signal of the trades is settled.
pub proof fn lemma_momentum_reading_unique<A: Fn(Op, u64, u64) -> u64, L: Fn(usize) -> u64>(
    first: Option<Signal>,
    second: Option<Signal>,
    trades: Seq<Trade>,
    arith: A,
    lift: L,
)
    requires
        arith_functional(arith),
        lift_functional(lift),
        is_momentum_reading(first, trades, arith, lift),
        is_momentum_reading(second, trades, arith, lift),
    ensures
        first == second,
{
    let seconds = seconds_of(Timeframe::M5);
    let a = choose|candles: Seq<Candle>| #[trigger]
        is_aggregate(candles, trades, seconds, arith) && is_macd_signal(
            first,
            closes_of(candles),
            arith,
            lift,
        );
    let b = choose|candles: Seq<Candle>| #[trigger]
        is_aggregate(candles, trades, seconds, arith) && is_macd_signal(
            second,
            closes_of(candles),
            arith,
            lift,
        );
    lemma_aggregate_prices_unique(a, b, trades, seconds, arith);
    assert(closes_of(a) =~= closes_of(b));
    lemma_macd_signal_unique(first, second, closes_of(a), arith, lift);
}

/// With arithmetic and rounding that give one result each, the volume boost
/// of the timeframes is settled.
pub proof fn lemma_volume_boost_unique<A: Fn(Op, u64, u64) -> u64, R: Fn(u64) -> i32>(
    first: u32,
    second: u32,
    timeframes: Seq<TimeframeSignal>,
    arith: A,
    round: R,
)
    requires
        arith_functional(arith),
        round_functional(round),
        is_volume_boost(first, timeframes, arith, round),
        is_volume_boost(second, timeframes, arith, round),
    ensures
        first == second,
{
    match volume_scale_of(timeframes) {
        Some(greatest) => {
            let part = timeframes[0].volume;
            let p1 = choose|points: i32| #[trigger]
                is_share(points, part, greatest, arith, round) && first == capped(points);
            let p2 = choose|points: i32| #[trigger]
                is_share(points, part, greatest, arith, round) && second == capped(points);
            let (r1, s1) = choose|ratio: u64, scaled: u64|
                #![trigger computes(arith, Op::Mul, ratio, TWENTY_BITS, scaled)]
                computes(arith, Op::Div, part, greatest, ratio) && computes(
                    arith,
                    Op::Mul,
                    ratio,
                    TWENTY_BITS,
                    scaled,
                ) && rounds(round, scaled, p1);
            let (r2, s2) = choose|ratio: u64, scaled: u64|
                #![trigger computes(arith, Op::Mul, ratio, TWENTY_BITS, scaled)]
                computes(arith, Op::Div, part, greatest, ratio) && computes(
                    arith,
                    Op::Mul,
                    ratio,
                    TWENTY_BITS,
                    scaled,
                ) && rounds(round, scaled, p2);
            assert(r1 == r2);
            assert(s1 == s2);
            assert(p1 == p2);
        },
        None => {},
    }
}

/// Reading the same trades twice, with arithmetic that gives one result for
/// each input, gives the same reading, and so the same decision at the same
/// time.
pub proof fn lemma_reading_unique<
    A: Fn(Op, u64, u64) -> u64,
    L: Fn(usize) -> u64,
    R: Fn(u64) -> i32,
>(
    first: Reading,
    second: Reading,
    instrument: Seq<char>,
    trades: Seq<Trade>,
    arith: A,
    lift: L,
    round: R,
    now: u64,
)
    requires
        arith_functional(arith),
        lift_functional(lift),
        round_functional(round),
        is_reading(first, instrument, trades, arith, lift, round),
        is_reading(second, instrument, trades, arith, lift, round),
    ensures
        first@ == second@,
        decision_of(first@, now) == decision_of(second@, now),
{
    assert forall|place: int| 0 <= place < TIMEFRAMES implies first.timeframes@[place]
        == second.timeframes@[place] by {
        lemma_timeframe_reading_unique(
            first.timeframes@[place],
            second.timeframes@[place],
            trades,
            seconds_of(timeframe_at(place)),
            arith,
            lift,
        );
    }
    assert(first.timeframes@ =~= second.timeframes@);
    lemma_momentum_reading_unique(first.macd, second.macd, trades, arith, lift);
    lemma_volume_boost_unique(
        first.volume_boost.value(),
        second.volume_boost.value(),
        first.timeframes@,
        arith,
        round,
    );
}

} // verus!
