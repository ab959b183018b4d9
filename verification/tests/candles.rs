use trend_signals::candles::{aggregate_candles, bucket_of, closes, summarise, Candle, Trade};
use trend_signals::number::Op;

fn machine_arith(op: Op, a: u64, b: u64) -> u64 {
    let (x, y) = (f64::from_bits(a), f64::from_bits(b));
    let r = match op {
        Op::Add => x + y,
        Op::Sub => x - y,
        Op::Mul => x * y,
        Op::Div => x / y,
    };
    r.to_bits()
}

fn trade(price: f64, volume: f64, timestamp: u64) -> Trade {
    Trade { price: price.to_bits(), volume: volume.to_bits(), timestamp }
}

fn candles_of(trades: &[Trade], timeframe: u64) -> Vec<Candle> {
    aggregate_candles(trades, timeframe, &machine_arith)
}

#[test]
fn no_trades_give_no_candles() {
    assert!(candles_of(&[], 300).is_empty());
}

#[test]
fn a_single_trade_is_open_high_low_and_close() {
    let candles = candles_of(&[trade(101.5, 2.0, 1_000_123)], 300);
    assert_eq!(candles.len(), 1);
    let c = &candles[0];
    assert_eq!(c.timestamp, 1_000_123 - 1_000_123 % 300);
    assert_eq!(c.timestamp, 999_900);
    assert_eq!(f64::from_bits(c.open), 101.5);
    assert_eq!(f64::from_bits(c.high), 101.5);
    assert_eq!(f64::from_bits(c.low), 101.5);
    assert_eq!(f64::from_bits(c.close), 101.5);
    assert_eq!(f64::from_bits(c.volume), 2.0);
}

#[test]
fn bucket_starts_at_the_time_less_its_remainder() {
    assert_eq!(bucket_of(0, 300), 0);
    assert_eq!(bucket_of(299, 300), 0);
    assert_eq!(bucket_of(300, 300), 300);
    assert_eq!(bucket_of(901, 300), 900);
    assert_eq!(bucket_of(86_399, 86_400), 0);
    assert_eq!(bucket_of(u64::MAX, 1), u64::MAX);
    assert_eq!(bucket_of(u64::MAX, u64::MAX), u64::MAX);
    assert_eq!(bucket_of(7, 10), 0);
}

#[test]
fn a_bucket_sums_up_its_trades() {
    let trades = [
        trade(10.0, 1.0, 600),
        trade(12.0, 2.0, 650),
        trade(9.0, 0.5, 700),
        trade(11.0, 4.0, 899),
    ];
    let candles = candles_of(&trades, 300);
    assert_eq!(
        candles,
        vec![Candle {
            open: 10.0f64.to_bits(),
            high: 12.0f64.to_bits(),
            low: 9.0f64.to_bits(),
            close: 11.0f64.to_bits(),
            volume: 7.5f64.to_bits(),
            timestamp: 600,
        }]
    );
}

#[test]
fn the_volume_is_added_in_the_order_of_arrival() {
    let trades = [trade(1.0, 1e16, 0), trade(1.0, 1.0, 1), trade(1.0, -1e16, 2), trade(1.0, 1.0, 3)];
    let candles = candles_of(&trades, 60);
    assert_eq!(f64::from_bits(candles[0].volume), (((0.0 + 1e16) + 1.0) - 1e16) + 1.0);
    let raw = |volume: u64, timestamp: u64| Trade { price: 0, volume, timestamp };
    let digits = |_: Op, a: u64, b: u64| a * 10 + b;
    let candles = aggregate_candles(&[raw(1, 0), raw(3, 400), raw(2, 10), raw(4, 20)], 300, &digits);
    assert_eq!(candles[0].volume, 124);
    assert_eq!(candles[1].volume, 3);
}

#[test]
fn open_and_close_follow_arrival_not_time() {
    let trades = [trade(5.0, 1.0, 250), trade(7.0, 1.0, 10), trade(6.0, 1.0, 120)];
    let candles = candles_of(&trades, 300);
    assert_eq!(candles.len(), 1);
    assert_eq!(f64::from_bits(candles[0].open), 5.0);
    assert_eq!(f64::from_bits(candles[0].close), 6.0);
    assert_eq!(f64::from_bits(candles[0].high), 7.0);
    assert_eq!(f64::from_bits(candles[0].low), 5.0);
}

#[test]
fn candles_come_by_rising_bucket_whatever_the_arrival() {
    let trades = [
        trade(3.0, 1.0, 1900),
        trade(1.0, 1.0, 20),
        trade(2.0, 1.0, 700),
        trade(4.0, 1.0, 1950),
        trade(5.0, 1.0, 5),
    ];
    let candles = candles_of(&trades, 300);
    let stamps: Vec<u64> = candles.iter().map(|c| c.timestamp).collect();
    assert_eq!(stamps, vec![0, 600, 1800]);
    assert_eq!(f64::from_bits(candles[0].open), 1.0);
    assert_eq!(f64::from_bits(candles[0].close), 5.0);
    assert_eq!(f64::from_bits(candles[2].open), 3.0);
    assert_eq!(f64::from_bits(candles[2].close), 4.0);
    assert_eq!(closes(&candles), vec![5.0f64.to_bits(), 2.0f64.to_bits(), 4.0f64.to_bits()]);
}

#[test]
fn high_and_low_bound_open_and_close_in_every_candle() {
    let mut trades = Vec::new();
    let mut x: u64 = 12345;
    for i in 0..200u64 {
        x = x.wrapping_mul(6364136223846793005).wrapping_add(1442695040888963407);
        let price = 100.0 + ((x >> 40) % 1000) as f64 / 10.0;
        let ts = 1_700_000_000 + (x >> 20) % 7200;
        trades.push(trade(price, 1.0 + (i % 3) as f64, ts));
    }
    let all: f64 = trades.iter().map(|t| f64::from_bits(t.volume)).sum();
    for tf in [300u64, 900, 3600, 14400, 86400] {
        let candles = candles_of(&trades, tf);
        assert!(!candles.is_empty());
        assert!(candles.len() <= trades.len());
        for pair in candles.windows(2) {
            assert!(pair[0].timestamp < pair[1].timestamp);
        }
        let mut volume = 0.0;
        for c in &candles {
            assert_eq!(c.timestamp % tf, 0);
            let (o, h, l, cl) = (
                f64::from_bits(c.open),
                f64::from_bits(c.high),
                f64::from_bits(c.low),
                f64::from_bits(c.close),
            );
            assert!(h >= o && h >= cl);
            assert!(l <= o && l <= cl);
            let members: Vec<&Trade> =
                trades.iter().filter(|t| t.timestamp - t.timestamp % tf == c.timestamp).collect();
            assert_eq!(c.open, members[0].price);
            assert_eq!(c.close, members[members.len() - 1].price);
            let highest = members.iter().map(|t| f64::from_bits(t.price)).fold(f64::MIN, f64::max);
            let lowest = members.iter().map(|t| f64::from_bits(t.price)).fold(f64::MAX, f64::min);
            assert_eq!(h, highest);
            assert_eq!(l, lowest);
            let summed: f64 = members.iter().map(|t| f64::from_bits(t.volume)).sum();
            assert_eq!(f64::from_bits(c.volume), summed);
            volume += summed;
        }
        assert_eq!(volume, all);
    }
}

#[test]
fn negative_prices_are_ordered_as_numbers() {
    let trades = [trade(-1.0, 1.0, 0), trade(-3.0, 1.0, 1), trade(2.0, 1.0, 2), trade(-2.0, 1.0, 3)];
    let candles = candles_of(&trades, 60);
    assert_eq!(f64::from_bits(candles[0].high), 2.0);
    assert_eq!(f64::from_bits(candles[0].low), -3.0);
    let trades = [trade(-1.0, 1.0, 0), trade(-3.0, 1.0, 1), trade(-2.0, 1.0, 3)];
    let candles = candles_of(&trades, 60);
    assert_eq!(f64::from_bits(candles[0].high), -1.0);
    assert_eq!(f64::from_bits(candles[0].low), -3.0);
    let trades = [trade(f64::NEG_INFINITY, 1.0, 0), trade(f64::NEG_INFINITY, 1.0, 1)];
    let candles = candles_of(&trades, 60);
    assert_eq!(f64::from_bits(candles[0].high), f64::NEG_INFINITY);
    assert_eq!(f64::from_bits(candles[0].low), f64::NEG_INFINITY);
}

#[test]
fn a_price_that_is_no_number_is_passed_over() {
    let nan = f64::NAN;
    for trades in [
        [trade(nan, 1.0, 0), trade(5.0, 1.0, 1), trade(7.0, 1.0, 2), trade(6.0, 1.0, 3)],
        [trade(5.0, 1.0, 0), trade(nan, 1.0, 1), trade(7.0, 1.0, 2), trade(6.0, 1.0, 3)],
        [trade(6.0, 1.0, 0), trade(7.0, 1.0, 1), trade(5.0, 1.0, 2), trade(-nan, 1.0, 3)],
        [trade(-nan, 1.0, 0), trade(7.0, 1.0, 1), trade(nan, 1.0, 2), trade(5.0, 1.0, 3)],
    ] {
        let candles = candles_of(&trades, 60);
        assert_eq!(candles.len(), 1);
        assert_eq!(f64::from_bits(candles[0].high), 7.0);
        assert_eq!(f64::from_bits(candles[0].low), 5.0);
        assert_eq!(candles[0].open, trades[0].price);
        assert_eq!(candles[0].close, trades[3].price);
        let highest = trades.iter().map(|t| f64::from_bits(t.price)).fold(f64::MIN, f64::max);
        let lowest = trades.iter().map(|t| f64::from_bits(t.price)).fold(f64::MAX, f64::min);
        assert_eq!(f64::from_bits(candles[0].high), highest);
        assert_eq!(f64::from_bits(candles[0].low), lowest);
    }
}

#[test]
fn where_no_price_is_a_number_the_first_price_stands_for_high_and_low() {
    let first = f64::NAN.to_bits();
    let second = (-f64::NAN).to_bits();
    let trades = [
        Trade { price: first, volume: 0, timestamp: 0 },
        Trade { price: second, volume: 0, timestamp: 1 },
    ];
    let candles = candles_of(&trades, 60);
    assert_eq!(candles[0].open, first);
    assert_eq!(candles[0].high, first);
    assert_eq!(candles[0].low, first);
    assert_eq!(candles[0].close, second);
    let candles = candles_of(&trades[1..], 60);
    assert_eq!(candles[0].open, second);
    assert_eq!(candles[0].high, second);
    assert_eq!(candles[0].low, second);
    assert_eq!(candles[0].close, second);
}

#[test]
fn summarise_sums_up_the_entries_it_is_given() {
    let entries = [trade(9.0, 3.0, 400), trade(8.0, 4.0, 500), trade(9.5, 0.5, 450)];
    assert_eq!(
        summarise(&entries, 300, &machine_arith),
        Candle {
            open: 9.0f64.to_bits(),
            high: 9.5f64.to_bits(),
            low: 8.0f64.to_bits(),
            close: 9.5f64.to_bits(),
            volume: 7.5f64.to_bits(),
            timestamp: 300,
        }
    );
    let one = summarise(&entries[1..2], 77, &machine_arith);
    assert_eq!(one.timestamp, 77);
    assert_eq!(one.open, one.close);
    assert_eq!(one.high, one.low);
    assert_eq!(f64::from_bits(one.high), 8.0);
    assert_eq!(f64::from_bits(one.volume), 4.0);
}

#[test]
fn thirty_trades_over_thirty_minutes_make_six_five_minute_candles() {
    let start = 1_700_000_100u64;
    assert_eq!(start % 300, 0);
    let mut trades = Vec::new();
    for i in 0..30u64 {
        let price = if i < 15 { 100.0 + i as f64 } else { 129.0 - i as f64 };
        trades.push(trade(price, 1.0, start + 60 * i));
    }
    let candles = candles_of(&trades, 300);
    assert_eq!(candles.len(), 6);
    for (i, c) in candles.iter().enumerate() {
        assert_eq!(c.timestamp, start + 300 * i as u64);
        assert_eq!(f64::from_bits(c.volume), 5.0);
    }
    assert_eq!(f64::from_bits(candles[0].open), 100.0);
    assert_eq!(f64::from_bits(candles[0].close), 104.0);
    assert_eq!(f64::from_bits(candles[2].high), 114.0);
    assert_eq!(f64::from_bits(candles[5].close), 100.0);
    assert_eq!(candles_of(&trades, 900).len(), 2);
    assert_eq!(candles_of(&trades, 3600).len(), 1);
    assert_eq!(candles_of(&trades, 86400).len(), 1);
}
