//! Cutting a tape of trades into candles.
//!
//! Prices and volumes are doubles, held by their bits. Prices are ordered
//! here, by rank, and a price that is a NaN is passed over; volumes are added
//! up with the arithmetic that the caller hands in.
use crate::number::{
    arith_defined, arith_functional, is_nan, is_total, lemma_rank_injective, lemma_total_unique,
    less_than, nan, rank, rank_of, total, Op,
};
use crate::order::lemma_increasing_rises;
use std::collections::BTreeMap;
use vstd::prelude::*;
use vstd::std_specs::btree::*;
use vstd::std_specs::iter::IteratorSpec;

verus! {

/// One trade: price and volume are doubles, held by their bits; the time is in
/// seconds.
#[derive(Clone, Copy, Debug, PartialEq, Eq, Structural)]
pub struct Trade {
    pub price: u64,
    pub volume: u64,
    pub timestamp: u64,
}

/// The trades of one bucket of time, summed up. Prices and volume are doubles,
/// held by their bits; the time is the start of the bucket, in seconds.
#[derive(Clone, Copy, Debug, PartialEq, Eq, Structural)]
pub struct Candle {
    pub open: u64,
    pub high: u64,
    pub low: u64,
    pub close: u64,
    pub volume: u64,
    pub timestamp: u64,
}

/// The start of the bucket that a time falls into.
pub open spec fn bucket_start(timestamp: u64, timeframe: u64) -> u64
    recommends
        timeframe > 0,
{
    (timestamp - timestamp % timeframe) as u64
}

/// The trades that fall into the bucket that starts at `bucket`, in the order
/// in which they came.
pub open spec fn bucket_trades(trades: Seq<Trade>, timeframe: u64, bucket: u64) -> Seq<Trade>
    decreases trades.len(),
{
    if trades.len() == 0 {
        Seq::empty()
    } else {
        let before = bucket_trades(trades.drop_last(), timeframe, bucket);
        if bucket_start(trades.last().timestamp, timeframe) == bucket {
            before.push(trades.last())
        } else {
            before
        }
    }
}

/// The volumes of the trades, in their order.
pub open spec fn volumes_of(entries: Seq<Trade>) -> Seq<u64> {
    entries.map_values(|t: Trade| t.volume)
}

/// The closing prices of the candles, in their order.
pub open spec fn closes_of(candles: Seq<Candle>) -> Seq<u64> {
    candles.map_values(|c: Candle| c.close)
}

/// The volumes of the candles, in their order.
pub open spec fn candle_volumes(candles: Seq<Candle>) -> Seq<u64> {
    candles.map_values(|c: Candle| c.volume)
}

/// Whether one of the entries has a price that is a number.
pub open spec fn has_number(entries: Seq<Trade>) -> bool {
    exists|i: int| 0 <= i < entries.len() && !is_nan((#[trigger] entries[i]).price)
}

/// Whether `high` is the highest price of the entries: the price of the
/// greatest rank among those that are numbers. Where no price is a number,
/// the first price stands for it.
pub open spec fn is_high(high: u64, entries: Seq<Trade>) -> bool {
    if has_number(entries) {
        &&& !is_nan(high)
        &&& exists|i: int| 0 <= i < entries.len() && (#[trigger] entries[i]).price == high
        &&& forall|i: int|
            0 <= i < entries.len() && !is_nan((#[trigger] entries[i]).price) ==> rank(
                entries[i].price,
            ) <= rank(high)
    } else {
        high == entries.first().price
    }
}

/// Whether `low` is the lowest price of the entries: the price of the least
/// rank among those that are numbers. Where no price is a number, the first
/// price stands for it.
pub open spec fn is_low(low: u64, entries: Seq<Trade>) -> bool {
    if has_number(entries) {
        &&& !is_nan(low)
        &&& exists|i: int| 0 <= i < entries.len() && (#[trigger] entries[i]).price == low
        &&& forall|i: int|
            0 <= i < entries.len() && !is_nan((#[trigger] entries[i]).price) ==> rank(low) <= rank(
                entries[i].price,
            )
    } else {
        low == entries.first().price
    }
}

impl Candle {
    /// Whether the candle sums up the entries: it opens with the first and
    /// closes with the last price that came, its high and low are the
    /// highest and the lowest price, and its volume is the sum of the
    /// volumes, added in the order in which they came.
    pub open spec fn summarises<A: Fn(Op, u64, u64) -> u64>(
        &self,
        entries: Seq<Trade>,
        arith: A,
    ) -> bool {
        &&& entries.len() > 0
        &&& self.open == entries.first().price
        &&& self.close == entries.last().price
        &&& is_high(self.high, entries)
        &&& is_low(self.low, entries)
        &&& is_total(self.volume, volumes_of(entries), arith)
    }
}

/// Whether the candles are those of the trades at this timeframe: one candle
/// for each bucket that a trade falls into, by rising bucket, and each sums up
/// the trades of its bucket.
pub open spec fn is_aggregate<A: Fn(Op, u64, u64) -> u64>(
    candles: Seq<Candle>,
    trades: Seq<Trade>,
    timeframe: u64,
    arith: A,
) -> bool {
    &&& forall|i: int, j: int|
        0 <= i < j < candles.len() ==> (#[trigger] candles[i]).timestamp < (
        #[trigger] candles[j]).timestamp
    &&& forall|i: int|
        0 <= i < candles.len() ==> (#[trigger] candles[i]).summarises(
            bucket_trades(trades, timeframe, candles[i].timestamp),
            arith,
        )
    &&& forall|k: int|
        0 <= k < trades.len() ==> has_candle(
            candles,
            bucket_start((#[trigger] trades[k]).timestamp, timeframe),
        )
}

/// Whether one of the candles stands for the bucket that starts at `bucket`.
pub open spec fn has_candle(candles: Seq<Candle>, bucket: u64) -> bool {
    exists|i: int| 0 <= i < candles.len() && (#[trigger] candles[i]).timestamp == bucket
}

/// The highest price once a trade has joined the entries.
pub open spec fn raised(high: u64, entries: Seq<Trade>, price: u64) -> u64 {
    if is_nan(price) {
        high
    } else if !has_number(entries) || rank(high) < rank(price) {
        price
    } else {
        high
    }
}

/// The lowest price once a trade has joined the entries.
pub open spec fn lowered(low: u64, entries: Seq<Trade>, price: u64) -> u64 {
    if is_nan(price) {
        low
    } else if !has_number(entries) || rank(price) < rank(low) {
        price
    } else {
        low
    }
}

/// Computes `bucket_start`.
pub fn bucket_of(timestamp: u64, timeframe: u64) -> (bucket: u64)
    requires
        timeframe > 0,
    ensures
        bucket == bucket_start(timestamp, timeframe),
        bucket <= timestamp,
{
    assert(timestamp % timeframe <= timestamp) by (nonlinear_arith)
        requires
            timeframe > 0,
    ;
    timestamp - timestamp % timeframe
}

/// Every trade of a bucket is one of the trades and falls into the bucket.
pub proof fn lemma_bucket_trades_members(trades: Seq<Trade>, timeframe: u64, bucket: u64, i: int)
    requires
        0 <= i < bucket_trades(trades, timeframe, bucket).len(),
    ensures
        trades.contains(bucket_trades(trades, timeframe, bucket)[i]),
        bucket_start(bucket_trades(trades, timeframe, bucket)[i].timestamp, timeframe) == bucket,
    decreases trades.len(),
{
    let entries = bucket_trades(trades, timeframe, bucket);
    let before = bucket_trades(trades.drop_last(), timeframe, bucket);
    if i < before.len() {
        lemma_bucket_trades_members(trades.drop_last(), timeframe, bucket, i);
        let j = choose|j: int| 0 <= j < trades.drop_last().len() && trades.drop_last()[j] == before[i];
        assert(trades[j] == entries[i]);
    } else {
        assert(trades[trades.len() - 1] == entries[i]);
    }
}

/// A trade that joins the entries raises the high and lowers the low as
/// `raised` and `lowered` say.
pub proof fn lemma_extremes_follow(high: u64, low: u64, entries: Seq<Trade>, trade: Trade)
    requires
        entries.len() > 0,
        is_high(high, entries),
        is_low(low, entries),
    ensures
        is_high(raised(high, entries, trade.price), entries.push(trade)),
        is_low(lowered(low, entries, trade.price), entries.push(trade)),
        has_number(entries.push(trade)) == (has_number(entries) || !is_nan(trade.price)),
{
    let after = entries.push(trade);
    let last = entries.len() as int;
    assert(after[last] == trade);
    assert(after.first() == entries.first());
    assert forall|i: int| 0 <= i < entries.len() implies #[trigger] after[i] == entries[i] by {}
    if has_number(entries) {
        let w = choose|i: int| 0 <= i < entries.len() && !is_nan((#[trigger] entries[i]).price);
        assert(!is_nan(after[w].price));
        let h = choose|i: int| 0 <= i < entries.len() && (#[trigger] entries[i]).price == high;
        assert(after[h].price == high);
        let l = choose|i: int| 0 <= i < entries.len() && (#[trigger] entries[i]).price == low;
        assert(after[l].price == low);
        assert forall|i: int|
            0 <= i < after.len() && !is_nan((#[trigger] after[i]).price) implies rank(
            after[i].price,
        ) <= rank(raised(high, entries, trade.price)) && rank(
            lowered(low, entries, trade.price),
        ) <= rank(after[i].price) by {
            if i < entries.len() {
                assert(after[i] == entries[i]);
            }
        }
    } else {
        assert forall|i: int| 0 <= i < entries.len() implies is_nan(
            (#[trigger] entries[i]).price,
        ) by {}
        if !is_nan(trade.price) {
            assert(!is_nan(after[last].price));
            assert forall|i: int|
                0 <= i < after.len() && !is_nan((#[trigger] after[i]).price) implies i == last by {
                if i < entries.len() {
                    assert(after[i] == entries[i]);
                }
            }
        } else {
            assert forall|i: int| 0 <= i < after.len() implies is_nan(
                (#[trigger] after[i]).price,
            ) by {
                if i < entries.len() {
                    assert(after[i] == entries[i]);
                }
            }
        }
    }
}

/// Sums up the trades of one bucket, which are given in the order in which
/// they came.
pub fn summarise<A: Fn(Op, u64, u64) -> u64>(entries: &[Trade], bucket: u64, arith: &A) -> (candle:
    Candle)
    requires
        entries.len() > 0,
        arith_defined(*arith),
    ensures
        candle.timestamp == bucket,
        candle.summarises(entries@, *arith),
{
    let first = entries[0];
    let mut high = first.price;
    let mut low = first.price;
    let mut found = !nan(first.price);
    let mut volumes: Vec<u64> = Vec::new();
    volumes.push(first.volume);
    let mut n: usize = 1;
    proof {
        assert(entries@.take(1)[0] == first);
        assert(volumes@ =~= volumes_of(entries@.take(1)));
        if found {
            assert(!is_nan(entries@.take(1)[0].price));
        }
    }
    while n < entries.len()
        invariant
            1 <= n <= entries.len(),
            volumes@ == volumes_of(entries@.take(n as int)),
            found == has_number(entries@.take(n as int)),
            is_high(high, entries@.take(n as int)),
            is_low(low, entries@.take(n as int)),
        decreases entries.len() - n,
    {
        let trade = entries[n];
        proof {
            assert(entries@.take(n + 1) == entries@.take(n as int).push(trade));
            lemma_extremes_follow(high, low, entries@.take(n as int), trade);
        }
        if !nan(trade.price) {
            if !found || rank_of(high) < rank_of(trade.price) {
                high = trade.price;
            }
            if !found || rank_of(trade.price) < rank_of(low) {
                low = trade.price;
            }
            found = true;
        }
        volumes.push(trade.volume);
        proof {
            assert(volumes@ =~= volumes_of(entries@.take(n + 1)));
        }
        n = n + 1;
    }
    proof {
        assert(entries@.take(n as int) == entries@);
    }
    let volume = total(volumes.as_slice(), arith);
    Candle {
        open: first.price,
        high,
        low,
        close: entries[entries.len() - 1].price,
        volume,
        timestamp: bucket,
    }
}

/// Cuts the trades into candles of `timeframe_sec` seconds. A trade belongs to
/// the bucket that starts at its time less the remainder of that time by the
/// timeframe. There is one candle for each bucket that has a trade, by rising
/// bucket; it opens with the first and closes with the last trade that came,
/// whatever their times, its high and low are the highest and the lowest
/// price, and its volume is the sum of the volumes.
pub fn aggregate_candles<A: Fn(Op, u64, u64) -> u64>(
    trades: &[Trade],
    timeframe_sec: u64,
    arith: &A,
) -> (candles: Vec<Candle>)
    requires
        timeframe_sec > 0,
        arith_defined(*arith),
    ensures
        is_aggregate(candles@, trades@, timeframe_sec, *arith),
        candles.len() <= trades.len(),
{
    let mut buckets: BTreeMap<u64, Vec<Trade>> = BTreeMap::new();
    let mut n: usize = 0;
    while n < trades.len()
        invariant
            timeframe_sec > 0,
            n <= trades.len(),
            buckets@.dom().finite(),
            buckets@.dom().len() <= n,
            forall|key: u64| #[trigger]
                buckets@.contains_key(key) ==> buckets@[key]@ == bucket_trades(
                    trades@.take(n as int),
                    timeframe_sec,
                    key,
                ) && buckets@[key]@.len() > 0,
            forall|k: int|
                0 <= k < n ==> buckets@.contains_key(
                    bucket_start((#[trigger] trades[k]).timestamp, timeframe_sec),
                ),
        decreases trades.len() - n,
    {
        let trade = trades[n];
        let bucket = bucket_of(trade.timestamp, timeframe_sec);
        let ghost before = buckets@;
        let ghost prefix = trades@.take(n as int);
        let mut entries = match buckets.remove(&bucket) {
            Some(entries) => entries,
            None => Vec::new(),
        };
        proof {
            assert(trades@.take(n + 1).drop_last() == prefix);
            assert(trades@.take(n + 1).last() == trade);
            if !before.contains_key(bucket) {
                if bucket_trades(prefix, timeframe_sec, bucket).len() > 0 {
                    lemma_bucket_trades_members(prefix, timeframe_sec, bucket, 0);
                    let e = bucket_trades(prefix, timeframe_sec, bucket)[0];
                    let j = choose|j: int| 0 <= j < prefix.len() && prefix[j] == e;
                    assert(trades[j] == e);
                }
                assert(entries@ =~= bucket_trades(prefix, timeframe_sec, bucket));
            }
        }
        entries.push(trade);
        buckets.insert(bucket, entries);
        proof {
            assert(buckets@.dom() =~= before.dom().insert(bucket));
            assert forall|k: int| 0 <= k < n + 1 implies buckets@.contains_key(
                bucket_start((#[trigger] trades[k]).timestamp, timeframe_sec),
            ) by {
                if k < n {
                    assert(before.contains_key(bucket_start(trades[k].timestamp, timeframe_sec)));
                }
            }
            assert forall|key: u64| #[trigger] buckets@.contains_key(key) implies buckets@[key]@
                == bucket_trades(trades@.take(n + 1), timeframe_sec, key) && buckets@[key]@.len()
                > 0 by {
                if key != bucket {
                    assert(before.contains_key(key));
                }
            }
        }
        n = n + 1;
    }
    proof {
        assert(trades@.take(n as int) == trades@);
    }
    let mut candles: Vec<Candle> = Vec::new();
    let ghost all = spec_btree_map_iter(&buckets).remaining();
    for entry in it: buckets.iter()
        invariant
            it.seq() == all,
            all == spec_btree_map_iter(&buckets).remaining(),
            candles.len() == it.index(),
            arith_defined(*arith),
            forall|key: u64| #[trigger]
                buckets@.contains_key(key) ==> buckets@[key]@ == bucket_trades(
                    trades@,
                    timeframe_sec,
                    key,
                ) && buckets@[key]@.len() > 0,
            forall|i: int|
                0 <= i < it.index() ==> (#[trigger] candles[i]).timestamp == *all[i].0
                    && candles[i].summarises(
                    bucket_trades(trades@, timeframe_sec, candles[i].timestamp),
                    *arith,
                ),
    {
        proof {
            assert(buckets@.contains_key(*all[it.index()].0));
        }
        let candle = summarise(entry.1.as_slice(), *entry.0, arith);
        candles.push(candle);
    }
    proof {
        let keys = all.map_values(|kv: (&u64, &Vec<Trade>)| *kv.0);
        assert(increasing_seq(keys));
        lemma_increasing_rises(keys);
        assert forall|i: int, j: int| 0 <= i < j < candles.len() implies (
        #[trigger] candles[i]).timestamp < (#[trigger] candles[j]).timestamp by {
            assert(keys[i] == candles[i].timestamp);
            assert(keys[j] == candles[j].timestamp);
        }
        assert forall|k: int| 0 <= k < trades.len() implies has_candle(
            candles@,
            bucket_start((#[trigger] trades[k]).timestamp, timeframe_sec),
        ) by {
            let key = bucket_start(trades[k].timestamp, timeframe_sec);
            assert(buckets@.contains_key(key));
            assert(all.contains((&key, &buckets@[key])));
            let i = choose|i: int| 0 <= i < all.len() && all[i] == (&key, &buckets@[key]);
            assert(candles[i].timestamp == key);
        }
    }
    candles
}

/// The closing prices of the candles, in their order.
pub fn closes(candles: &[Candle]) -> (prices: Vec<u64>)
    ensures
        prices@ == closes_of(candles@),
{
    let mut prices: Vec<u64> = Vec::new();
    let mut n: usize = 0;
    while n < candles.len()
        invariant
            n <= candles.len(),
            prices@ == closes_of(candles@.take(n as int)),
        decreases candles.len() - n,
    {
        prices.push(candles[n].close);
        proof {
            assert(prices@ =~= closes_of(candles@.take(n + 1)));
        }
        n = n + 1;
    }
    proof {
        assert(candles@.take(n as int) == candles@);
    }
    prices
}

/// The candles come by rising time, and in each the high is not below and the
/// low not above the open and the close. Where the open or the close is a
/// number, it lies between the low and the high by rank too.
pub proof fn lemma_aggregate_ordered<A: Fn(Op, u64, u64) -> u64>(
    candles: Seq<Candle>,
    trades: Seq<Trade>,
    timeframe: u64,
    arith: A,
)
    requires
        is_aggregate(candles, trades, timeframe, arith),
    ensures
        forall|i: int, j: int|
            0 <= i < j < candles.len() ==> (#[trigger] candles[i]).timestamp < (
            #[trigger] candles[j]).timestamp,
        forall|i: int|
            0 <= i < candles.len() ==> {
                let c = #[trigger] candles[i];
                &&& !less_than(c.high, c.open) && !less_than(c.high, c.close)
                &&& !less_than(c.open, c.low) && !less_than(c.close, c.low)
                &&& !is_nan(c.open) ==> rank(c.low) <= rank(c.open) <= rank(c.high)
                &&& !is_nan(c.close) ==> rank(c.low) <= rank(c.close) <= rank(c.high)
            },
{
    assert forall|i: int| 0 <= i < candles.len() implies {
        let c = #[trigger] candles[i];
        &&& !less_than(c.high, c.open) && !less_than(c.high, c.close)
        &&& !less_than(c.open, c.low) && !less_than(c.close, c.low)
        &&& !is_nan(c.open) ==> rank(c.low) <= rank(c.open) <= rank(c.high)
        &&& !is_nan(c.close) ==> rank(c.low) <= rank(c.close) <= rank(c.high)
    } by {
        let c = candles[i];
        let entries = bucket_trades(trades, timeframe, c.timestamp);
        assert(c.summarises(entries, arith));
        assert(entries[0].price == c.open);
        assert(entries[entries.len() - 1].price == c.close);
    }
}

/// A candle of a single trade opens, peaks, bottoms and closes at the price
/// of that trade.
pub proof fn lemma_single_trade_candle<A: Fn(Op, u64, u64) -> u64>(
    candle: Candle,
    entries: Seq<Trade>,
    arith: A,
)
    requires
        candle.summarises(entries, arith),
        entries.len() == 1,
    ensures
        candle.open == entries[0].price,
        candle.high == entries[0].price,
        candle.low == entries[0].price,
        candle.close == entries[0].price,
{
}

/// No trades make no candles.
pub proof fn lemma_no_trades_no_candles<A: Fn(Op, u64, u64) -> u64>(
    candles: Seq<Candle>,
    timeframe: u64,
    arith: A,
)
    requires
        is_aggregate(candles, Seq::empty(), timeframe, arith),
    ensures
        candles.len() == 0,
{
    if candles.len() > 0 {
        assert(candles[0].summarises(
            bucket_trades(Seq::empty(), timeframe, candles[0].timestamp),
            arith,
        ));
    }
}

/// A candle of an aggregate stands for a bucket that a trade falls into, so
/// every other aggregate of the same trades has a candle for that bucket.
pub proof fn lemma_aggregate_covers<A: Fn(Op, u64, u64) -> u64>(
    a: Seq<Candle>,
    b: Seq<Candle>,
    trades: Seq<Trade>,
    timeframe: u64,
    arith: A,
    i: int,
)
    requires
        is_aggregate(a, trades, timeframe, arith),
        is_aggregate(b, trades, timeframe, arith),
        0 <= i < a.len(),
    ensures
        has_candle(b, a[i].timestamp),
{
    let bucket = a[i].timestamp;
    let entries = bucket_trades(trades, timeframe, bucket);
    assert(a[i].summarises(entries, arith));
    lemma_bucket_trades_members(trades, timeframe, bucket, 0);
    let k = choose|k: int| 0 <= k < trades.len() && trades[k] == entries[0];
    assert(bucket_start(trades[k].timestamp, timeframe) == bucket);
}

/// Two aggregates of the same trades agree on the buckets of their first `n`
/// candles.
pub proof fn lemma_aggregate_same_buckets<A: Fn(Op, u64, u64) -> u64>(
    a: Seq<Candle>,
    b: Seq<Candle>,
    trades: Seq<Trade>,
    timeframe: u64,
    arith: A,
    n: int,
)
    requires
        is_aggregate(a, trades, timeframe, arith),
        is_aggregate(b, trades, timeframe, arith),
        0 <= n <= a.len(),
    ensures
        n <= b.len(),
        forall|i: int| 0 <= i < n ==> (#[trigger] a[i]).timestamp == b[i].timestamp,
    decreases n,
{
    if n > 0 {
        lemma_aggregate_same_buckets(a, b, trades, timeframe, arith, n - 1);
        let m = n - 1;
        lemma_aggregate_covers(a, b, trades, timeframe, arith, m);
        let j = choose|j: int| 0 <= j < b.len() && (#[trigger] b[j]).timestamp == a[m].timestamp;
        if j < m {
            assert(a[j].timestamp == b[j].timestamp);
            assert(a[j].timestamp < a[m].timestamp);
        }
        assert(m < b.len());
        lemma_aggregate_covers(b, a, trades, timeframe, arith, m);
        let h = choose|h: int| 0 <= h < a.len() && (#[trigger] a[h]).timestamp == b[m].timestamp;
        if h < m {
            assert(a[h].timestamp == b[h].timestamp);
            assert(b[h].timestamp < b[m].timestamp);
        }
        if j > m {
            assert(b[m].timestamp < b[j].timestamp);
        }
        if h > m {
            assert(a[m].timestamp < a[h].timestamp);
        }
    }
}

/// The entries settle their highest and their lowest price.
pub proof fn lemma_extremes_unique(
    high: u64,
    other_high: u64,
    low: u64,
    other_low: u64,
    entries: Seq<Trade>,
)
    requires
        is_high(high, entries),
        is_high(other_high, entries),
        is_low(low, entries),
        is_low(other_low, entries),
    ensures
        high == other_high,
        low == other_low,
{
    if has_number(entries) {
        let ha = choose|k: int| 0 <= k < entries.len() && (#[trigger] entries[k]).price == high;
        let hb = choose|k: int| 0 <= k < entries.len() && (#[trigger] entries[k]).price == other_high;
        assert(rank(entries[ha].price) <= rank(other_high));
        assert(rank(entries[hb].price) <= rank(high));
        lemma_rank_injective(high, other_high);
        let la = choose|k: int| 0 <= k < entries.len() && (#[trigger] entries[k]).price == low;
        let lb = choose|k: int| 0 <= k < entries.len() && (#[trigger] entries[k]).price == other_low;
        assert(rank(other_low) <= rank(entries[la].price));
        assert(rank(low) <= rank(entries[lb].price));
        lemma_rank_injective(low, other_low);
    }
}

/// The trades and the timeframe settle the buckets and the prices of the
/// candles, whatever the arithmetic: two aggregates of the same trades are as
/// long as each other and agree on time, open, high, low and close.
pub proof fn lemma_aggregate_prices_unique<A: Fn(Op, u64, u64) -> u64>(
    a: Seq<Candle>,
    b: Seq<Candle>,
    trades: Seq<Trade>,
    timeframe: u64,
    arith: A,
)
    requires
        is_aggregate(a, trades, timeframe, arith),
        is_aggregate(b, trades, timeframe, arith),
    ensures
        a.len() == b.len(),
        forall|i: int|
            0 <= i < a.len() ==> {
                &&& (#[trigger] a[i]).timestamp == b[i].timestamp
                &&& a[i].open == b[i].open
                &&& a[i].high == b[i].high
                &&& a[i].low == b[i].low
                &&& a[i].close == b[i].close
            },
{
    lemma_aggregate_same_buckets(a, b, trades, timeframe, arith, a.len() as int);
    lemma_aggregate_same_buckets(b, a, trades, timeframe, arith, b.len() as int);
    assert forall|i: int| 0 <= i < a.len() implies {
        &&& (#[trigger] a[i]).timestamp == b[i].timestamp
        &&& a[i].open == b[i].open
        &&& a[i].high == b[i].high
        &&& a[i].low == b[i].low
        &&& a[i].close == b[i].close
    } by {
        let entries = bucket_trades(trades, timeframe, a[i].timestamp);
        assert(a[i].summarises(entries, arith));
        assert(b[i].summarises(entries, arith));
        lemma_extremes_unique(a[i].high, b[i].high, a[i].low, b[i].low, entries);
    }
}

/// With arithmetic that gives one result for each pair of operands, the
/// trades and the timeframe settle the candles.
pub proof fn lemma_aggregate_unique<A: Fn(Op, u64, u64) -> u64>(
    a: Seq<Candle>,
    b: Seq<Candle>,
    trades: Seq<Trade>,
    timeframe: u64,
    arith: A,
)
    requires
        arith_functional(arith),
        is_aggregate(a, trades, timeframe, arith),
        is_aggregate(b, trades, timeframe, arith),
    ensures
        a == b,
{
    lemma_aggregate_prices_unique(a, b, trades, timeframe, arith);
    assert forall|i: int| 0 <= i < a.len() implies a[i] == b[i] by {
        let entries = bucket_trades(trades, timeframe, a[i].timestamp);
        assert(a[i].summarises(entries, arith));
        assert(b[i].summarises(entries, arith));
        lemma_total_unique(a[i].volume, b[i].volume, volumes_of(entries), arith);
    }
    assert(a =~= b);
}

} // verus!
