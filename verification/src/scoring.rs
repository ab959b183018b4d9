//! Fusing the signals of the timeframes of one instrument into a decision.
use crate::number::{is_less, less_than, nan, is_nan, rank, rank_of, ZERO_BITS};
use crate::signal::{count_of, name_of, Signal};
use crate::text::{decimal, decimal_of};
use vstd::prelude::*;
use vstd::string::StringExecFns;

verus! {

/// How many timeframes are read per instrument.
pub const TIMEFRAMES: usize = 5;

/// The points that each timeframe which calls for a side gives that side.
pub const AGREEMENT_POINTS: u32 = 20;

/// The most points that volume can add.
pub const MAX_VOLUME_BOOST: u32 = 20;

/// The points that an agreeing momentum signal adds.
pub const MACD_BOOST: u32 = 20;

/// How many timeframes must call for a side before it is decided for.
pub const MIN_AGREEING: usize = 2;

/// How many points a side must have before it is decided for.
pub const MIN_POINTS: u32 = 40;

/// The greatest strength that a decision can have.
pub const MAX_STRENGTH: u32 = 140;

/// The seconds between two scoring cycles.
pub const CYCLE_SECONDS: u64 = 300;

/// The timeframes, from the finest to the coarsest.
#[derive(Clone, Copy, Debug, PartialEq, Eq, Structural)]
pub enum Timeframe {
    M5,
    M15,
    H1,
    H4,
    D1,
}

/// The length of a timeframe in seconds.
pub open spec fn seconds_of(timeframe: Timeframe) -> u64 {
    match timeframe {
        Timeframe::M5 => 300,
        Timeframe::M15 => 900,
        Timeframe::H1 => 3600,
        Timeframe::H4 => 14400,
        Timeframe::D1 => 86400,
    }
}

/// The timeframe at a place of the fixed order.
pub open spec fn timeframe_at(place: int) -> Timeframe {
    if place <= 0 {
        Timeframe::M5
    } else if place == 1 {
        Timeframe::M15
    } else if place == 2 {
        Timeframe::H1
    } else if place == 3 {
        Timeframe::H4
    } else {
        Timeframe::D1
    }
}

/// The label of a timeframe.
pub open spec fn label_of(timeframe: Timeframe) -> Seq<char> {
    match timeframe {
        Timeframe::M5 => "5m"@,
        Timeframe::M15 => "15m"@,
        Timeframe::H1 => "1h"@,
        Timeframe::H4 => "4h"@,
        Timeframe::D1 => "1d"@,
    }
}

impl Timeframe {
    /// The timeframe at a place of the fixed order, if there is one.
    pub fn at(place: usize) -> (r: Option<Timeframe>)
        ensures
            r == if place < TIMEFRAMES {
                Some(timeframe_at(place as int))
            } else {
                None
            },
    {
        if place == 0 {
            Some(Timeframe::M5)
        } else if place == 1 {
            Some(Timeframe::M15)
        } else if place == 2 {
            Some(Timeframe::H1)
        } else if place == 3 {
            Some(Timeframe::H4)
        } else if place == 4 {
            Some(Timeframe::D1)
        } else {
            None
        }
    }

    /// The length of the timeframe in seconds: never zero.
    pub fn seconds(&self) -> (s: u64)
        ensures
            s == seconds_of(*self),
            s > 0,
    {
        match self {
            Timeframe::M5 => 300,
            Timeframe::M15 => 900,
            Timeframe::H1 => 3600,
            Timeframe::H4 => 14400,
            Timeframe::D1 => 86400,
        }
    }

    /// The label of the timeframe.
    pub fn label(&self) -> (text: &'static str)
        ensures
            text@ == label_of(*self),
    {
        match self {
            Timeframe::M5 => "5m",
            Timeframe::M15 => "15m",
            Timeframe::H1 => "1h",
            Timeframe::H4 => "4h",
            Timeframe::D1 => "1d",
        }
    }
}

/// What one timeframe says of an instrument: the signal of its averages, and
/// the volume of all its candles, a double held by its bits.
#[derive(Clone, Copy, Debug, PartialEq, Eq, Structural)]
pub struct TimeframeSignal {
    pub signal: Option<Signal>,
    pub volume: u64,
}

/// The signals of the timeframes, in their order.
pub open spec fn signals_of(timeframes: Seq<TimeframeSignal>) -> Seq<Option<Signal>> {
    timeframes.map_values(|t: TimeframeSignal| t.signal)
}

/// The points of a side: `AGREEMENT_POINTS` for each timeframe that calls for
/// it.
pub open spec fn points_for(signals: Seq<Option<Signal>>, side: Signal) -> nat {
    count_of(signals, side) * (AGREEMENT_POINTS as nat)
}

/// Whether a side has the timeframes and the points to be decided for.
pub open spec fn side_wins(signals: Seq<Option<Signal>>, side: Signal) -> bool {
    count_of(signals, side) >= MIN_AGREEING && points_for(signals, side) >= MIN_POINTS
}

/// The side decided for, if any: the buy side is asked first.
pub open spec fn direction(signals: Seq<Option<Signal>>) -> Option<Signal> {
    if side_wins(signals, Signal::Buy) {
        Some(Signal::Buy)
    } else if side_wins(signals, Signal::Sell) {
        Some(Signal::Sell)
    } else {
        None
    }
}

/// The points that the momentum signal adds to a side: `MACD_BOOST` where it
/// calls for that side.
pub open spec fn macd_boost(side: Signal, macd: Option<Signal>) -> nat {
    if macd == Some(side) {
        MACD_BOOST as nat
    } else {
        0
    }
}

/// The strength of a decision for a side: its points, the volume boost and the
/// momentum boost.
pub open spec fn strength(
    signals: Seq<Option<Signal>>,
    side: Signal,
    volume_boost: nat,
    macd: Option<Signal>,
) -> nat {
    points_for(signals, side) + volume_boost + macd_boost(side, macd)
}

/// The strength never exceeds `MAX_STRENGTH`: no more than `TIMEFRAMES`
/// timeframes agree, and each boost has its cap.
pub proof fn lemma_strength_bounded(
    signals: Seq<Option<Signal>>,
    side: Signal,
    volume_boost: nat,
    macd: Option<Signal>,
)
    requires
        signals.len() <= TIMEFRAMES,
        volume_boost <= MAX_VOLUME_BOOST,
    ensures
        0 <= strength(signals, side, volume_boost, macd) <= MAX_STRENGTH,
{
    crate::signal::lemma_count_of_bounded(signals, side);
    assert(count_of(signals, side) * (AGREEMENT_POINTS as nat) <= 100) by (nonlinear_arith)
        requires
            count_of(signals, side) <= 5,
            AGREEMENT_POINTS == 20,
    ;
}

/// The points that volume adds: a number from 0 to `MAX_VOLUME_BOOST`.
#[derive(Clone, Copy, Debug, PartialEq, Eq)]
pub struct VolumeBoost {
    points: u32,
}

impl VolumeBoost {
    #[verifier::type_invariant]
    spec fn capped(&self) -> bool {
        self.points <= MAX_VOLUME_BOOST
    }

    /// The points.
    pub closed spec fn value(&self) -> u32 {
        self.points
    }

    /// The boost of so many points, if they are from 0 to `MAX_VOLUME_BOOST`.
    pub fn new(points: i32) -> (r: Option<VolumeBoost>)
        ensures
            r is Some <==> 0 <= points <= MAX_VOLUME_BOOST,
            r is Some ==> r->Some_0.value() == points,
    {
        if 0 <= points && points <= 20 {
            Some(VolumeBoost { points: points as u32 })
        } else {
            None
        }
    }

    /// The boost of so many points, cut off at 0 and at `MAX_VOLUME_BOOST`.
    pub fn saturating(points: i32) -> (r: VolumeBoost)
        ensures
            r.value() == if points < 0 {
                0
            } else if points > MAX_VOLUME_BOOST {
                MAX_VOLUME_BOOST
            } else {
                points as u32
            },
    {
        if points < 0 {
            VolumeBoost { points: 0 }
        } else if points > 20 {
            VolumeBoost { points: 20 }
        } else {
            VolumeBoost { points: points as u32 }
        }
    }

    /// No boost.
    pub fn none() -> (r: VolumeBoost)
        ensures
            r.value() == 0,
    {
        VolumeBoost { points: 0 }
    }

    /// The points: never more than `MAX_VOLUME_BOOST`.
    pub fn points(&self) -> (p: u32)
        ensures
            p == self.value(),
            p <= MAX_VOLUME_BOOST,
    {
        proof {
            use_type_invariant(self);
        }
        self.points
    }
}

/// The greatest of the volumes and zero. A volume that is a NaN is passed
/// over.
pub open spec fn greatest_volume(timeframes: Seq<TimeframeSignal>) -> u64
    decreases timeframes.len(),
{
    if timeframes.len() == 0 {
        ZERO_BITS
    } else {
        let before = greatest_volume(timeframes.drop_last());
        let volume = timeframes.last().volume;
        if !is_nan(volume) && rank(before) < rank(volume) {
            volume
        } else {
            before
        }
    }
}

/// The volume against which the finest timeframe's volume is measured: the
/// greatest of all, if that is above zero.
pub open spec fn volume_scale_of(timeframes: Seq<TimeframeSignal>) -> Option<u64> {
    if less_than(ZERO_BITS, greatest_volume(timeframes)) {
        Some(greatest_volume(timeframes))
    } else {
        None
    }
}

/// The volume against which the finest timeframe's volume is measured. Where
/// there is one, the volume boost is `MAX_VOLUME_BOOST` times the finest
/// timeframe's share of it, rounded; where there is none, the boost is zero.
pub fn volume_scale(timeframes: &[TimeframeSignal]) -> (r: Option<u64>)
    ensures
        r == volume_scale_of(timeframes@),
{
    let mut greatest: u64 = ZERO_BITS;
    let mut n: usize = 0;
    while n < timeframes.len()
        invariant
            n <= timeframes.len(),
            greatest == greatest_volume(timeframes@.take(n as int)),
        decreases timeframes.len() - n,
    {
        proof {
            assert(timeframes@.take(n + 1).drop_last() == timeframes@.take(n as int));
        }
        let volume = timeframes[n].volume;
        if !nan(volume) && rank_of(greatest) < rank_of(volume) {
            greatest = volume;
        }
        n = n + 1;
    }
    proof {
        assert(timeframes@.take(n as int) == timeframes@);
    }
    if is_less(ZERO_BITS, greatest) {
        Some(greatest)
    } else {
        None
    }
}

/// A side decided for, and the strength of the decision with its parts.
#[derive(Clone, Copy, Debug, PartialEq, Eq, Structural)]
pub struct Score {
    pub direction: Signal,
    pub points: u32,
    pub volume_boost: u32,
    pub macd_boost: u32,
    pub strength: u32,
}

/// The score of the signals of the timeframes, a momentum signal and a volume
/// boost: none where no side is decided for.
pub open spec fn score_of(
    signals: Seq<Option<Signal>>,
    macd: Option<Signal>,
    volume_boost: nat,
) -> Option<Score> {
    match direction(signals) {
        Some(side) => Some(
            Score {
                direction: side,
                points: points_for(signals, side) as u32,
                volume_boost: volume_boost as u32,
                macd_boost: macd_boost(side, macd) as u32,
                strength: strength(signals, side, volume_boost, macd) as u32,
            },
        ),
        None => None,
    }
}

/// The words that announce a score: the side, and in brackets the strength
/// and the two boosts.
pub open spec fn description_of(score: Score) -> Seq<char> {
    name_of(score.direction) + " (strength: "@ + decimal_of(score.strength as nat) + " points, volume boost: "@
        + decimal_of(score.volume_boost as nat) + ", macd boost: "@ + decimal_of(
        score.macd_boost as nat,
    ) + ")"@
}

impl Score {
    /// The words that announce the score.
    pub fn description(&self) -> (text: String)
        ensures
            text@ == description_of(*self),
    {
        let mut text = String::from_str(self.direction.name());
        text.append(" (strength: ");
        text.append(decimal(self.strength).as_str());
        text.append(" points, volume boost: ");
        text.append(decimal(self.volume_boost).as_str());
        text.append(", macd boost: ");
        text.append(decimal(self.macd_boost).as_str());
        text.append(")");
        text
    }
}

/// Counts the timeframes that call for `side`.
pub fn count_agreeing(timeframes: &[TimeframeSignal], side: Signal) -> (n: usize)
    ensures
        n == count_of(signals_of(timeframes@), side),
        n <= timeframes.len(),
{
    let mut count: usize = 0;
    let mut n: usize = 0;
    while n < timeframes.len()
        invariant
            n <= timeframes.len(),
            count <= n,
            count == count_of(signals_of(timeframes@.take(n as int)), side),
        decreases timeframes.len() - n,
    {
        proof {
            assert(signals_of(timeframes@.take(n + 1)).drop_last() =~= signals_of(
                timeframes@.take(n as int),
            ));
        }
        let hit = match timeframes[n].signal {
            Some(s) => s == side,
            None => false,
        };
        if hit {
            count = count + 1;
        }
        n = n + 1;
    }
    proof {
        assert(timeframes@.take(n as int) == timeframes@);
    }
    count
}

/// Scores one instrument: a side is decided for where at least `MIN_AGREEING`
/// timeframes call for it and give it `MIN_POINTS` points, the buy side being
/// asked first; the strength is the side's points, the volume boost, and
/// `MACD_BOOST` where the momentum signal calls for the same side.
pub fn score(timeframes: &[TimeframeSignal; 5], macd: Option<Signal>, volume_boost: VolumeBoost) -> (r:
    Option<Score>)
    ensures
        r == score_of(signals_of(timeframes@), macd, volume_boost.value() as nat),
        r is Some ==> r->Some_0.strength <= MAX_STRENGTH,
{
    let boost = volume_boost.points();
    let buys = count_agreeing(timeframes.as_slice(), Signal::Buy);
    let sells = count_agreeing(timeframes.as_slice(), Signal::Sell);
    let side = if buys >= MIN_AGREEING && (buys as u32) * AGREEMENT_POINTS >= MIN_POINTS {
        Signal::Buy
    } else if sells >= MIN_AGREEING && (sells as u32) * AGREEMENT_POINTS >= MIN_POINTS {
        Signal::Sell
    } else {
        return None;
    };
    let agreeing = match side {
        Signal::Buy => buys,
        Signal::Sell => sells,
    };
    let points = (agreeing as u32) * AGREEMENT_POINTS;
    let confirmed = match macd {
        Some(m) => m == side,
        None => false,
    };
    let extra = if confirmed {
        MACD_BOOST
    } else {
        0
    };
    Some(
        Score {
            direction: side,
            points,
            volume_boost: boost,
            macd_boost: extra,
            strength: points + boost + extra,
        },
    )
}

/// What one scoring cycle has read of an instrument: the timeframes from the
/// finest to the coarsest, the momentum signal of the finest, and the volume
/// boost.
#[derive(Clone, Debug)]
pub struct Reading {
    pub instrument: String,
    pub timeframes: [TimeframeSignal; 5],
    pub macd: Option<Signal>,
    pub volume_boost: VolumeBoost,
}

/// What a reading holds.
pub ghost struct ReadingView {
    pub instrument: Seq<char>,
    pub timeframes: Seq<TimeframeSignal>,
    pub macd: Option<Signal>,
    pub volume_boost: nat,
}

impl View for Reading {
    type V = ReadingView;

    open spec fn view(&self) -> ReadingView {
        ReadingView {
            instrument: self.instrument@,
            timeframes: self.timeframes@,
            macd: self.macd,
            volume_boost: self.volume_boost.value() as nat,
        }
    }
}

/// The call made for one instrument in one scoring cycle. The volume is that
/// of the finest timeframe, a double held by its bits; the time is that of
/// the cycle, in seconds.
#[derive(Clone, Debug, PartialEq, Eq)]
pub struct Decision {
    pub instrument: String,
    pub timeframe: Timeframe,
    pub direction: Signal,
    pub strength: u32,
    pub volume: u64,
    pub timestamp: u64,
}

/// What a decision holds.
pub ghost struct DecisionView {
    pub instrument: Seq<char>,
    pub timeframe: Timeframe,
    pub direction: Signal,
    pub strength: u32,
    pub volume: u64,
    pub timestamp: u64,
}

impl View for Decision {
    type V = DecisionView;

    open spec fn view(&self) -> DecisionView {
        DecisionView {
            instrument: self.instrument@,
            timeframe: self.timeframe,
            direction: self.direction,
            strength: self.strength,
            volume: self.volume,
            timestamp: self.timestamp,
        }
    }
}

/// What the decisions hold, in their order.
pub open spec fn decision_views(decisions: Seq<Decision>) -> Seq<DecisionView> {
    decisions.map_values(|d: Decision| d@)
}

/// What the readings hold, in their order.
pub open spec fn reading_views(readings: Seq<Reading>) -> Seq<ReadingView> {
    readings.map_values(|r: Reading| r@)
}

/// The decision that a reading leads to at the time `now`, if it leads to one:
/// it is made on the finest timeframe, for the side and with the strength of
/// the reading's score.
pub open spec fn decision_of(reading: ReadingView, now: u64) -> Option<DecisionView> {
    match score_of(signals_of(reading.timeframes), reading.macd, reading.volume_boost) {
        Some(score) => Some(
            DecisionView {
                instrument: reading.instrument,
                timeframe: Timeframe::M5,
                direction: score.direction,
                strength: score.strength,
                volume: reading.timeframes[0].volume,
                timestamp: now,
            },
        ),
        None => None,
    }
}

/// The decisions that the readings lead to, in the order of the readings.
pub open spec fn decisions_of(readings: Seq<ReadingView>, now: u64) -> Seq<DecisionView>
    decreases readings.len(),
{
    if readings.len() == 0 {
        Seq::empty()
    } else {
        let before = decisions_of(readings.drop_last(), now);
        match decision_of(readings.last(), now) {
            Some(decision) => before.push(decision),
            None => before,
        }
    }
}

/// The decision set that a cycle leaves: that of its readings alone, whatever
/// the set held before.
pub open spec fn published(previous: Seq<DecisionView>, readings: Seq<ReadingView>, now: u64) -> Seq<
    DecisionView,
> {
    decisions_of(readings, now)
}

/// Decides on one instrument at the time `now`.
pub fn decide(reading: &Reading, now: u64) -> (r: Option<Decision>)
    ensures
        match r {
            Some(decision) => decision_of(reading@, now) == Some(decision@),
            None => decision_of(reading@, now) is None,
        },
        r is Some ==> r->Some_0.strength <= MAX_STRENGTH,
{
    match score(&reading.timeframes, reading.macd, reading.volume_boost) {
        Some(score) => Some(
            Decision {
                instrument: reading.instrument.clone(),
                timeframe: Timeframe::M5,
                direction: score.direction,
                strength: score.strength,
                volume: reading.timeframes[0].volume,
                timestamp: now,
            },
        ),
        None => None,
    }
}

/// Runs one scoring cycle at the time `now`: one decision for each reading
/// that leads to one, in the order of the readings, each of a strength of at
/// most `MAX_STRENGTH`.
pub fn run_cycle(readings: &[Reading], now: u64) -> (decisions: Vec<Decision>)
    ensures
        decision_views(decisions@) == decisions_of(reading_views(readings@), now),
        forall|i: int| 0 <= i < decisions.len() ==> (#[trigger] decisions[i]).strength <= MAX_STRENGTH,
{
    let mut decisions: Vec<Decision> = Vec::new();
    let mut n: usize = 0;
    assert(decision_views(decisions@) =~= decisions_of(reading_views(readings@.take(0)), now));
    while n < readings.len()
        invariant
            n <= readings.len(),
            decision_views(decisions@) == decisions_of(reading_views(readings@.take(n as int)), now),
            forall|i: int|
                0 <= i < decisions.len() ==> (#[trigger] decisions[i]).strength <= MAX_STRENGTH,
        decreases readings.len() - n,
    {
        proof {
            assert(reading_views(readings@.take(n + 1)).drop_last() =~= reading_views(
                readings@.take(n as int),
            ));
            assert(reading_views(readings@.take(n + 1)).last() == readings[n as int]@);
        }
        let ghost before = decisions@;
        match decide(&readings[n], now) {
            Some(decision) => {
                decisions.push(decision);
                assert(decision_views(decisions@) =~= decision_views(before).push(decision@));
            },
            None => {},
        }
        n = n + 1;
    }
    proof {
        assert(readings@.take(n as int) == readings@);
    }
    decisions
}

/// The decisions of the latest scoring cycle.
pub struct DecisionSet {
    decisions: Vec<Decision>,
}

impl View for DecisionSet {
    type V = Seq<DecisionView>;

    closed spec fn view(&self) -> Seq<DecisionView> {
        decision_views(self.decisions@)
    }
}

impl DecisionSet {
    /// The set before the first cycle: empty.
    pub fn new() -> (set: Self)
        ensures
            set@ == Seq::<DecisionView>::empty(),
    {
        let set = DecisionSet { decisions: Vec::new() };
        assert(set@ =~= Seq::<DecisionView>::empty());
        set
    }

    /// Runs a scoring cycle at the time `now` and puts its decisions in the
    /// place of those held before.
    pub fn publish(&mut self, readings: &[Reading], now: u64)
        ensures
            final(self)@ == published(old(self)@, reading_views(readings@), now),
    {
        self.decisions = run_cycle(readings, now);
    }

    /// The decisions held, in the order of the readings they were made from.
    pub fn decisions(&self) -> (decisions: &[Decision])
        ensures
            decision_views(decisions@) == self@,
    {
        self.decisions.as_slice()
    }
}

/// A cycle run again on the same readings at the same time leaves the same
/// decision set, and what the set held before the cycle does not matter.
pub proof fn lemma_cycle_idempotent(
    previous: Seq<DecisionView>,
    other: Seq<DecisionView>,
    readings: Seq<ReadingView>,
    now: u64,
)
    ensures
        published(published(previous, readings, now), readings, now) == published(
            previous,
            readings,
            now,
        ),
        published(previous, readings, now) == published(other, readings, now),
{
}

/// Of readings of `TIMEFRAMES` timeframes each, with volume boosts within
/// their cap: every decision of a cycle has a strength of at most
/// `MAX_STRENGTH`, and there are no more decisions than readings.
pub proof fn lemma_decisions_bounded(readings: Seq<ReadingView>, now: u64)
    requires
        forall|i: int|
            0 <= i < readings.len() ==> (#[trigger] readings[i]).timeframes.len() == TIMEFRAMES
                && readings[i].volume_boost <= MAX_VOLUME_BOOST,
    ensures
        decisions_of(readings, now).len() <= readings.len(),
        forall|i: int|
            0 <= i < decisions_of(readings, now).len() ==> (#[trigger] decisions_of(
                readings,
                now,
            )[i]).strength <= MAX_STRENGTH,
    decreases readings.len(),
{
    if readings.len() > 0 {
        lemma_decisions_bounded(readings.drop_last(), now);
        let last = readings.last();
        let signals = signals_of(last.timeframes);
        lemma_strength_bounded(signals, Signal::Buy, last.volume_boost, last.macd);
        lemma_strength_bounded(signals, Signal::Sell, last.volume_boost, last.macd);
    }
}

} // verus!
