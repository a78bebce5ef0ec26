use vstd::prelude::*;

verus! {

/// A row of the back-testing price file: its opening price, as written.
#[derive(Clone, Debug)]
pub struct Record {
    pub open: String,
}

/// A price as the exchange reports it.
#[derive(Clone, Debug)]
pub struct SimpleRecord {
    pub price: String,
}

/// A stand-in for the exchange that replays recorded prices.
pub struct BackTest {
    data: Vec<Record>,
    current_index: usize,
}

/// Where a replay starts: the first prices serve as history.
pub const START_INDEX: usize = 25;

/// How many past prices the history shows at most.
pub const HISTORY_LEN: usize = 50;

/// The prices a replay at `position` shows as history: the last
/// `HISTORY_LEN` replayed prices at most, oldest first.
pub open spec fn replayed_history(prices: Seq<Seq<char>>, position: nat) -> Seq<Seq<char>> {
    let start = if position >= HISTORY_LEN { position - HISTORY_LEN } else { 0 };
    prices.subrange(start as int, position as int)
}

impl BackTest {
    /// The recorded opening prices, oldest first.
    pub closed spec fn prices(&self) -> Seq<Seq<char>> {
        Seq::new(self.data@.len(), |i: int| self.data@[i].open@)
    }

    /// The position of the next price to replay.
    pub closed spec fn position(&self) -> nat {
        self.current_index as nat
    }

    /// A replay of the recorded prices, starting at `START_INDEX`.
    pub fn new(data: Vec<Record>) -> (r: BackTest)
        ensures
            r.prices() == Seq::new(data@.len(), |i: int| data@[i].open@),
            r.position() == START_INDEX,
    {
        BackTest { data, current_index: START_INDEX }
    }

    /// The position of the next price to replay.
    pub fn current_index(&self) -> (r: usize)
        ensures
            r == self.position(),
    {
        self.current_index
    }

    /// How many prices were recorded.
    pub fn len(&self) -> (r: usize)
        ensures
            r == self.prices().len(),
    {
        self.data.len()
    }

    /// Replays the next price and moves on (there must be one left: at the
    /// end of the data the replay is over).
    pub fn get_ticker(&mut self, _market: &str) -> (r: SimpleRecord)
        requires
            old(self).position() < old(self).prices().len(),
        ensures
            r.price@ == old(self).prices()[old(self).position() as int],
            final(self).prices() == old(self).prices(),
            final(self).position() == old(self).position() + 1,
    {
        assert(self.prices().len() == self.data.len());
        let price = self.data[self.current_index].open.clone();
        self.current_index = self.current_index + 1;
        SimpleRecord { price }
    }

    /// The prices replayed so far, the last `HISTORY_LEN` of them at most,
    /// oldest first.
    pub fn get_history(&self, _market: &str) -> (r: Vec<SimpleRecord>)
        requires
            self.position() <= self.prices().len(),
        ensures
            r.len() == replayed_history(self.prices(), self.position()).len(),
            forall|i: int|
                0 <= i < r.len() ==> #[trigger] r[i].price@ == replayed_history(
                    self.prices(),
                    self.position(),
                )[i],
    {
        let start = if self.current_index >= HISTORY_LEN {
            self.current_index - HISTORY_LEN
        } else {
            0
        };
        let mut history: Vec<SimpleRecord> = Vec::new();
        let mut i = start;
        while i < self.current_index
            invariant
                start <= i <= self.current_index <= self.data.len(),
                start == if self.current_index >= HISTORY_LEN { self.current_index - HISTORY_LEN } else { 0 },
                history.len() == i - start,
                forall|j: int|
                    0 <= j < history.len() ==> #[trigger] history[j].price@ == self.data@[start + j].open@,
            decreases self.current_index - i,
        {
            history.push(SimpleRecord { price: self.data[i].open.clone() });
            i = i + 1;
        }
        history
    }
}

/// After a price is replayed, it is the newest price of the history, and
/// the history never shows more than `HISTORY_LEN` prices.
pub proof fn law_replayed_price_ends_history(prices: Seq<Seq<char>>, position: nat)
    requires
        position < prices.len(),
    ensures
        replayed_history(prices, position + 1).last() == prices[position as int],
        replayed_history(prices, position + 1).len() <= HISTORY_LEN,
{
}

} // verus!
