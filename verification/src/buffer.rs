//! The bounded buffer of the latest trades of one instrument.
use crate::candles::Trade;
use vstd::prelude::*;

verus! {

/// How many trades a buffer keeps.
pub const BUFFER_CAPACITY: usize = 500;

/// What is kept of a sequence that has just grown by one: all of it, or all
/// but the oldest where it is over the capacity.
pub open spec fn kept(trades: Seq<Trade>) -> Seq<Trade> {
    if trades.len() > BUFFER_CAPACITY {
        trades.drop_first()
    } else {
        trades
    }
}

/// The buffer after the trades have been recorded one by one.
pub open spec fn recorded_all(buffer: Seq<Trade>, trades: Seq<Trade>) -> Seq<Trade>
    decreases trades.len(),
{
    if trades.len() == 0 {
        buffer
    } else {
        kept(recorded_all(buffer, trades.drop_last()).push(trades.last()))
    }
}

/// Whether the times of the trades never fall.
pub open spec fn in_time_order(trades: Seq<Trade>) -> bool {
    forall|i: int, j: int|
        0 <= i <= j < trades.len() ==> (#[trigger] trades[i]).timestamp <= (
        #[trigger] trades[j]).timestamp
}

/// The latest trades of one instrument, oldest first.
pub struct TradeBuffer {
    trades: Vec<Trade>,
}

impl View for TradeBuffer {
    type V = Seq<Trade>;

    closed spec fn view(&self) -> Seq<Trade> {
        self.trades@
    }
}

impl TradeBuffer {
    /// A buffer holds no more trades than its capacity.
    pub open spec fn wf(&self) -> bool {
        self@.len() <= BUFFER_CAPACITY
    }

    /// An empty buffer.
    pub fn new() -> (buffer: Self)
        ensures
            buffer@ == Seq::<Trade>::empty(),
            buffer.wf(),
    {
        TradeBuffer { trades: Vec::new() }
    }

    /// How many trades the buffer holds.
    pub fn len(&self) -> (n: usize)
        ensures
            n == self@.len(),
    {
        self.trades.len()
    }

    /// The trades, oldest first.
    pub fn trades(&self) -> (trades: &[Trade])
        ensures
            trades@ == self@,
    {
        self.trades.as_slice()
    }

    /// A copy of the trades, oldest first, to work on while the buffer goes
    /// on filling.
    pub fn snapshot(&self) -> (trades: Vec<Trade>)
        ensures
            trades@ == self@,
    {
        let mut trades: Vec<Trade> = Vec::new();
        let mut n: usize = 0;
        while n < self.trades.len()
            invariant
                n <= self.trades.len(),
                trades@ == self.trades@.take(n as int),
            decreases self.trades.len() - n,
        {
            trades.push(self.trades[n]);
            proof {
                assert(trades@ =~= self.trades@.take(n + 1));
            }
            n = n + 1;
        }
        proof {
            assert(self.trades@.take(n as int) == self.trades@);
        }
        trades
    }

    /// Records a trade as the latest; over the capacity, the oldest trade
    /// leaves. Trades that come in time order leave the buffer in time order.
    pub fn push(&mut self, trade: Trade)
        requires
            old(self).wf(),
        ensures
            final(self)@ == kept(old(self)@.push(trade)),
            final(self).wf(),
            in_time_order(old(self)@) && (old(self)@.len() > 0 ==> old(self)@.last().timestamp
                <= trade.timestamp) ==> in_time_order(final(self)@),
    {
        self.trades.push(trade);
        if self.trades.len() > BUFFER_CAPACITY {
            self.trades.remove(0);
        }
        proof {
            assert(final(self)@ =~= kept(old(self)@.push(trade)));
        }
    }
}

/// A buffer that started empty holds the latest of the trades recorded, as
/// many as its capacity allows, in the order in which they came.
pub proof fn lemma_buffer_keeps_latest(trades: Seq<Trade>)
    ensures
        recorded_all(Seq::empty(), trades) == trades.subrange(
            if trades.len() > BUFFER_CAPACITY {
                trades.len() - BUFFER_CAPACITY
            } else {
                0
            },
            trades.len() as int,
        ),
    decreases trades.len(),
{
    if trades.len() == 0 {
        assert(trades.subrange(0, 0) =~= Seq::<Trade>::empty());
    } else {
        lemma_buffer_keeps_latest(trades.drop_last());
        let before = recorded_all(Seq::empty(), trades.drop_last());
        assert(recorded_all(Seq::empty(), trades) =~= trades.subrange(
            if trades.len() > BUFFER_CAPACITY {
                trades.len() - BUFFER_CAPACITY
            } else {
                0
            },
            trades.len() as int,
        ));
    }
}

} // verus!
