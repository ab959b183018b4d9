use trend_signals::ema::{
    blend, calculate_ema, detect_ema_signals, detect_macd_crossover, difference,
    points_based_signal, weight, EmaError, EMA_MIN_POINTS, FAST_PERIOD, MACD_MIN_POINTS,
    MOMENTUM_PERIOD, SLOW_PERIOD,
};
use trend_signals::number::{Op, ONE_BITS, TWENTY_BITS, TWO_BITS};
use trend_signals::scoring::{score, TimeframeSignal, VolumeBoost};
use trend_signals::signal::{count_side, detect_crossing, detect_crossover, Signal};

fn arith(op: Op, a: u64, b: u64) -> u64 {
    let (x, y) = (f64::from_bits(a), f64::from_bits(b));
    let r = match op {
        Op::Add => x + y,
        Op::Sub => x - y,
        Op::Mul => x * y,
        Op::Div => x / y,
    };
    r.to_bits()
}

fn lift(n: usize) -> u64 {
    (n as f64).to_bits()
}

fn average(values: &[f64], period: usize) -> Vec<f64> {
    let k = 2.0 / (period as f64 + 1.0);
    let mut out = vec![values[0]];
    for &v in &values[1..] {
        let prev = *out.last().unwrap();
        out.push(v * k + prev * (1.0 - k));
    }
    out
}

fn bits(values: &[f64]) -> Vec<u64> {
    values.iter().map(|v| v.to_bits()).collect()
}

fn doubles(values: &[u64]) -> Vec<f64> {
    values.iter().map(|v| f64::from_bits(*v)).collect()
}

fn ema_signal(closes: &[f64]) -> Option<Signal> {
    detect_ema_signals(&bits(closes), &arith, &lift)
}

fn macd_signal(closes: &[f64]) -> Option<Signal> {
    detect_macd_crossover(&bits(closes), &arith, &lift)
}

#[test]
fn an_average_starts_with_the_first_value_and_is_as_long_as_the_values() {
    let values = [10.0, 11.0, 12.0, 11.0, 9.5];
    for period in [1usize, 2, 9, 12, 26, 1000] {
        let ema = calculate_ema(&bits(&values), period, &arith, &lift).unwrap();
        assert_eq!(ema.len(), values.len());
        assert_eq!(ema[0], 10.0f64.to_bits());
        assert_eq!(doubles(&ema), average(&values, period));
    }
    assert_eq!(calculate_ema(&bits(&[7.25]), 12, &arith, &lift), Ok(vec![7.25f64.to_bits()]));
}

#[test]
fn each_point_of_an_average_blends_the_value_with_the_point_before() {
    let ema = calculate_ema(&bits(&[1.0, 2.0, 3.0, 3.0]), 3, &arith, &lift).unwrap();
    assert_eq!(doubles(&ema), vec![1.0, 1.5, 2.25, 2.625]);
    let ema = calculate_ema(&bits(&[8.0, 4.0, 4.0]), 1, &arith, &lift).unwrap();
    assert_eq!(doubles(&ema), vec![8.0, 4.0, 4.0]);
    let ema = calculate_ema(&bits(&[0.0, 13.0]), 12, &arith, &lift).unwrap();
    assert_eq!(doubles(&ema), vec![0.0, 13.0 * (2.0 / 13.0)]);
}

#[test]
fn the_weight_is_two_over_the_period_and_one() {
    assert_eq!(f64::from_bits(weight(1, &arith, &lift)), 1.0);
    assert_eq!(f64::from_bits(weight(3, &arith, &lift)), 0.5);
    assert_eq!(f64::from_bits(weight(9, &arith, &lift)), 0.2);
    assert_eq!(f64::from_bits(weight(12, &arith, &lift)), 2.0 / 13.0);
    assert_eq!(f64::from_bits(weight(26, &arith, &lift)), 2.0 / 27.0);
    assert_eq!(f64::from_bits(weight(0, &arith, &lift)), 2.0);
}

#[test]
fn a_blend_weighs_the_value_against_the_point_before() {
    let b = |value: f64, previous: f64, k: f64| {
        f64::from_bits(blend(value.to_bits(), previous.to_bits(), k.to_bits(), &arith))
    };
    assert_eq!(b(10.0, 20.0, 0.25), 17.5);
    assert_eq!(b(10.0, 20.0, 1.0), 10.0);
    assert_eq!(b(10.0, 20.0, 0.0), 20.0);
    assert_eq!(b(3.0, 7.0, 2.0 / 13.0), 3.0 * (2.0 / 13.0) + 7.0 * (1.0 - 2.0 / 13.0));
}

#[test]
fn the_constants_are_the_bits_of_one_two_and_twenty() {
    assert_eq!(ONE_BITS, 1.0f64.to_bits());
    assert_eq!(TWO_BITS, 2.0f64.to_bits());
    assert_eq!(TWENTY_BITS, 20.0f64.to_bits());
}

#[test]
fn an_average_of_nothing_is_refused() {
    assert_eq!(calculate_ema(&[], 12, &arith, &lift), Err(EmaError::InvalidInput));
    assert_eq!(calculate_ema(&[], 0, &arith, &lift), Err(EmaError::InvalidInput));
}

#[test]
fn a_difference_is_taken_point_for_point() {
    let d = difference(&bits(&[5.0, 1.0, -2.0]), &bits(&[3.0, 1.0, 2.5]), &arith);
    assert_eq!(doubles(&d), vec![2.0, 0.0, -4.5]);
    assert_eq!(difference(&[], &[], &arith), Vec::<u64>::new());
}

#[test]
fn two_timeframes_of_a_side_decide_for_it() {
    let b = Some(Signal::Buy);
    let s = Some(Signal::Sell);
    assert_eq!(points_based_signal(&[b, b, None, None, None]), Some(Signal::Buy));
    assert_eq!(points_based_signal(&[None, s, None, None, s]), Some(Signal::Sell));
    assert_eq!(points_based_signal(&[Some(Signal::Buy); 5]), Some(Signal::Buy));
    assert_eq!(points_based_signal(&[Some(Signal::Sell); 5]), Some(Signal::Sell));
    assert_eq!(points_based_signal(&[s, b, b, b, None]), Some(Signal::Buy));
    assert_eq!(points_based_signal(&[b, s, s, None, s]), Some(Signal::Sell));
}

#[test]
fn one_timeframe_of_a_side_decides_nothing() {
    let b = Some(Signal::Buy);
    let s = Some(Signal::Sell);
    assert_eq!(points_based_signal(&[b, None, None, None, None]), None);
    assert_eq!(points_based_signal(&[None, None, s, None, None]), None);
    assert_eq!(points_based_signal(&[b, s, None, None, None]), None);
    assert_eq!(points_based_signal(&[]), None);
    assert_eq!(points_based_signal(&[None; 5]), None);
    assert_eq!(points_based_signal(&[b]), None);
}

#[test]
fn the_buy_side_is_asked_first_by_the_rule() {
    let b = Some(Signal::Buy);
    let s = Some(Signal::Sell);
    assert_eq!(points_based_signal(&[s, s, s, b, b]), Some(Signal::Buy));
    assert_eq!(points_based_signal(&[s, s, b, b, None]), Some(Signal::Buy));
    assert_eq!(points_based_signal(&[s, s, s, s, b]), Some(Signal::Sell));
}

#[test]
fn the_rule_agrees_with_the_score_on_every_five_signals() {
    let sides = [Some(Signal::Buy), Some(Signal::Sell), None];
    for code in 0..243usize {
        let mut signals = [None; 5];
        let mut c = code;
        for s in signals.iter_mut() {
            *s = sides[c % 3];
            c /= 3;
        }
        let buys = signals.iter().filter(|s| **s == Some(Signal::Buy)).count();
        let sells = signals.iter().filter(|s| **s == Some(Signal::Sell)).count();
        let expected = if buys >= 2 {
            Some(Signal::Buy)
        } else if sells >= 2 {
            Some(Signal::Sell)
        } else {
            None
        };
        assert_eq!(points_based_signal(&signals), expected);
        let mut frames = [TimeframeSignal { signal: None, volume: 0 }; 5];
        for i in 0..5 {
            frames[i].signal = signals[i];
        }
        let scored = score(&frames, None, VolumeBoost::none()).map(|s| s.direction);
        assert_eq!(scored, expected);
    }
}

#[test]
fn count_side_counts_one_side_only() {
    let b = Some(Signal::Buy);
    let s = Some(Signal::Sell);
    assert_eq!(count_side(&[b, s, None, b, b], Signal::Buy), 3);
    assert_eq!(count_side(&[b, s, None, b, b], Signal::Sell), 1);
    assert_eq!(count_side(&[], Signal::Sell), 0);
}

#[test]
fn the_periods_and_minimum_lengths_are_those_of_the_averages() {
    assert_eq!(FAST_PERIOD, 12);
    assert_eq!(SLOW_PERIOD, 26);
    assert_eq!(MOMENTUM_PERIOD, 9);
    assert_eq!(EMA_MIN_POINTS, 26);
    assert_eq!(MACD_MIN_POINTS, 35);
}

#[test]
fn a_crossing_upwards_is_a_buy_and_downwards_a_sell() {
    let b = |x: f64| x.to_bits();
    assert_eq!(detect_crossing(b(1.0), b(2.0), b(3.0), b(2.5)), Some(Signal::Buy));
    assert_eq!(detect_crossing(b(2.0), b(1.0), b(2.5), b(3.0)), Some(Signal::Sell));
    assert_eq!(detect_crossing(b(1.0), b(2.0), b(2.0), b(3.0)), None);
    assert_eq!(detect_crossing(b(2.0), b(1.0), b(3.0), b(2.0)), None);
    assert_eq!(detect_crossing(b(-2.0), b(-1.0), b(0.5), b(-0.5)), Some(Signal::Buy));
}

#[test]
fn a_touch_is_no_crossing() {
    let b = |x: f64| x.to_bits();
    assert_eq!(detect_crossing(b(2.0), b(2.0), b(3.0), b(2.5)), None);
    assert_eq!(detect_crossing(b(1.0), b(2.0), b(2.5), b(2.5)), None);
    assert_eq!(detect_crossing(b(2.0), b(2.0), b(2.0), b(2.0)), None);
    assert_eq!(detect_crossing(b(-0.0), b(0.0), b(1.0), b(0.5)), None);
    assert_eq!(detect_crossing(b(-1.0), b(0.0), b(0.0), b(-0.0)), None);
    assert_eq!(detect_crossing(b(f64::NAN), b(0.0), b(1.0), b(0.5)), None);
}

#[test]
fn short_series_give_no_signal() {
    let mut closes: Vec<f64> = (0..24).map(|i| 200.0 - i as f64).collect();
    closes.push(400.0);
    assert_eq!(closes.len(), 25);
    assert_eq!(ema_signal(&closes), None);
    closes.insert(0, 201.0);
    assert_eq!(ema_signal(&closes), Some(Signal::Buy));
    assert_eq!(macd_signal(&closes), None);
    while closes.len() < 34 {
        closes.insert(0, closes[0] + 1.0);
    }
    assert_eq!(macd_signal(&closes), None);
    closes.insert(0, closes[0] + 1.0);
    assert_eq!(macd_signal(&closes), Some(Signal::Buy));
    assert_eq!(ema_signal(&[]), None);
    assert_eq!(macd_signal(&[]), None);
    assert_eq!(ema_signal(&[1.0]), None);
}

#[test]
fn detect_crossover_looks_at_the_last_step_only() {
    let b = |x: f64| x.to_bits();
    let lead = [b(5.0), b(1.0), b(1.0), b(4.0)];
    let lag = [b(1.0), b(5.0), b(2.0), b(3.0)];
    assert_eq!(detect_crossover(&lead, &lag, 4), Some(Signal::Buy));
    assert_eq!(detect_crossover(&lead, &lag, 5), None);
    assert_eq!(detect_crossover(&lead[..3], &lag[..3], 2), None);
    assert_eq!(detect_crossover(&lag, &lead, 0), Some(Signal::Sell));
    assert_eq!(detect_crossover(&lead[..1], &lag[..1], 0), None);
    assert_eq!(detect_crossover(&lead, &lag[..1], 1), None);
}

#[test]
fn six_closes_give_no_signal() {
    let closes = [104.0, 109.0, 114.0, 110.0, 105.0, 100.0];
    assert_eq!(ema_signal(&closes), None);
    assert_eq!(macd_signal(&closes), None);
}

#[test]
fn fast_average_overtaking_at_the_last_point_is_a_buy() {
    let mut closes: Vec<f64> = (0..25).map(|i| 200.0 - i as f64).collect();
    closes.push(400.0);
    assert_eq!(closes.len(), 26);
    assert_eq!(ema_signal(&closes), Some(Signal::Buy));
}

#[test]
fn fast_average_falling_below_at_the_last_point_is_a_sell() {
    let mut closes: Vec<f64> = (0..25).map(|i| 200.0 + i as f64).collect();
    closes.push(20.0);
    assert_eq!(closes.len(), 26);
    assert_eq!(ema_signal(&closes), Some(Signal::Sell));
}

#[test]
fn a_constant_series_gives_no_signal() {
    let closes = [100.0f64; 26];
    assert_eq!(ema_signal(&closes), None);
    let closes = [100.0f64; 40];
    assert_eq!(ema_signal(&closes), None);
    assert_eq!(macd_signal(&closes), None);
}

#[test]
fn a_steadily_rising_series_has_crossed_long_before_its_last_point() {
    let closes: Vec<f64> = (1..=26).map(|i| i as f64).collect();
    assert_eq!(ema_signal(&closes), None);
    let closes: Vec<f64> = (1..=26).map(|i| 100.0 - i as f64).collect();
    assert_eq!(ema_signal(&closes), None);
}

#[test]
fn momentum_crossing_at_the_last_point_is_a_signal() {
    let mut closes: Vec<f64> = (0..34).map(|i| 300.0 - i as f64).collect();
    closes.push(500.0);
    assert_eq!(closes.len(), 35);
    assert_eq!(macd_signal(&closes), Some(Signal::Buy));
    let mut closes: Vec<f64> = (0..34).map(|i| 300.0 + i as f64).collect();
    closes.push(100.0);
    assert_eq!(macd_signal(&closes), Some(Signal::Sell));
    assert_eq!(macd_signal(&closes[1..]), None);
}
