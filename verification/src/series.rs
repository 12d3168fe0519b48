//! One bounded time series: the most recent observations of one source for one
//! asset, oldest first.
use vstd::prelude::*;
use crate::types::PriceData;

verus! {

/// How many observations a series keeps.
pub const CAPACITY: usize = 10;

/// A series after one more observation: the newest goes to the end, and a full
/// series gives up its oldest first.
pub open spec fn push_bounded(s: Seq<PriceData>, r: PriceData) -> Seq<PriceData> {
    if s.len() >= CAPACITY {
        s.drop_first().push(r)
    } else {
        s.push(r)
    }
}

/// The last `n` observations of a series, or all of it where it has fewer.
pub open spec fn last_n(s: Seq<PriceData>, n: nat) -> Seq<PriceData> {
    if n >= s.len() {
        s
    } else {
        s.subrange(s.len() - n, s.len() as int)
    }
}

/// The test that a range query applies: the timestamp lies in `[start, end]`,
/// both ends included.
pub open spec fn within(start: u64, end: u64) -> spec_fn(PriceData) -> bool {
    |r: PriceData| start <= r.timestamp && r.timestamp <= end
}

/// The observations whose timestamp lies in `[start, end]`, in their order.
pub open spec fn in_range(s: Seq<PriceData>, start: u64, end: u64) -> Seq<PriceData> {
    s.filter(within(start, end))
}

/// The oldest observation made at exactly `timestamp`.
pub open spec fn first_at(s: Seq<PriceData>, timestamp: u64) -> Option<PriceData>
    decreases s.len(),
{
    if s.len() == 0 {
        None
    } else if s[0].timestamp == timestamp {
        Some(s[0])
    } else {
        first_at(s.drop_first(), timestamp)
    }
}

/// Whether a filtered delete with these bounds leaves an observation in place:
/// a lower bound that lies strictly below its timestamp keeps it, and so does an
/// upper bound that lies strictly above. With neither bound nothing is kept.
pub open spec fn survives(r: PriceData, start: Option<u64>, end: Option<u64>) -> bool {
    ||| (start is Some && start->0 < r.timestamp)
    ||| (end is Some && end->0 > r.timestamp)
}

/// [`survives`] as a test on observations.
pub open spec fn surviving(start: Option<u64>, end: Option<u64>) -> spec_fn(PriceData) -> bool {
    |r: PriceData| survives(r, start, end)
}

/// What a filtered delete with these bounds leaves of a series, in its order.
pub open spec fn survivors(s: Seq<PriceData>, start: Option<u64>, end: Option<u64>) -> Seq<
    PriceData,
> {
    s.filter(surviving(start, end))
}

/// A series: at most [`CAPACITY`] observations, in the order they were inserted.
#[derive(Debug)]
pub struct Series {
    records: Vec<PriceData>,
}

impl View for Series {
    type V = Seq<PriceData>;

    closed spec fn view(&self) -> Seq<PriceData> {
        self.records@
    }
}

impl Series {
    #[verifier::type_invariant]
    closed spec fn bounded(&self) -> bool {
        self.records@.len() <= CAPACITY
    }

    /// The empty series.
    pub fn new() -> (r: Self)
        ensures
            r@ == Seq::<PriceData>::empty(),
    {
        Series { records: Vec::new() }
    }

    /// How many observations the series holds.
    pub fn len(&self) -> (n: usize)
        ensures
            n == self@.len(),
            n <= CAPACITY,
    {
        proof {
            use_type_invariant(self);
        }
        self.records.len()
    }

    /// Whether the series holds nothing.
    pub fn is_empty(&self) -> (r: bool)
        ensures
            r == (self@.len() == 0),
    {
        self.records.len() == 0
    }

    /// The observations with a timestamp in `[start, end]`, oldest first.
    pub fn range_query(&self, start: u64, end: u64) -> (out: Vec<PriceData>)
        ensures
            out@ == in_range(self@, start, end),
    {
        let mut out: Vec<PriceData> = Vec::new();
        let mut i: usize = 0;
        while i < self.records.len()
            invariant
                i <= self.records@.len(),
                out@ == in_range(self.records@.take(i as int), start, end),
            decreases self.records@.len() - i,
        {
            let r = self.records[i];
            proof {
                self.records@.lemma_take_succ_push(i as int);
                self.records@.take(i as int).lemma_filter_push(r, within(start, end));
            }
            if start <= r.timestamp && r.timestamp <= end {
                out.push(r);
            }
            i += 1;
        }
        proof {
            self.records@.lemma_take_len();
        }
        out
    }

    /// The last `n` observations, oldest first; all of them where there are
    /// fewer than `n`.
    pub fn last_n_query(&self, n: u32) -> (out: Vec<PriceData>)
        ensures
            out@ == last_n(self@, n as nat),
    {
        let len = self.records.len();
        let first: usize = if n as usize >= len {
            0
        } else {
            len - n as usize
        };
        let mut out: Vec<PriceData> = Vec::new();
        let mut i: usize = first;
        while i < len
            invariant
                len == self.records@.len(),
                first <= i <= len,
                out@ == self.records@.subrange(first as int, i as int),
            decreases len - i,
        {
            out.push(self.records[i]);
            proof {
                assert(self.records@.subrange(first as int, i + 1) =~= self.records@.subrange(
                    first as int,
                    i as int,
                ).push(self.records@[i as int]));
            }
            i += 1;
        }
        proof {
            assert(self.records@.subrange(0, len as int) =~= self.records@);
        }
        out
    }

    /// The newest observation.
    pub fn last(&self) -> (r: Option<PriceData>)
        ensures
            r == (if self@.len() > 0 {
                Some(self@.last())
            } else {
                None
            }),
    {
        let len = self.records.len();
        if len == 0 {
            None
        } else {
            Some(self.records[len - 1])
        }
    }

    /// The oldest observation made at exactly `timestamp`.
    pub fn price_at(&self, timestamp: u64) -> (r: Option<PriceData>)
        ensures
            r == first_at(self@, timestamp),
    {
        let mut i: usize = 0;
        proof {
            assert(self.records@.skip(0) =~= self.records@);
        }
        while i < self.records.len()
            invariant
                i <= self.records@.len(),
                first_at(self.records@, timestamp) == first_at(
                    self.records@.skip(i as int),
                    timestamp,
                ),
            decreases self.records@.len() - i,
        {
            let r = self.records[i];
            proof {
                assert(self.records@.skip(i as int)[0] == r);
                assert(self.records@.skip(i as int).drop_first() =~= self.records@.skip(i + 1));
            }
            if r.timestamp == timestamp {
                return Some(r);
            }
            i += 1;
        }
        None
    }

    /// Every observation, oldest first.
    pub fn records(&self) -> (out: Vec<PriceData>)
        ensures
            out@ == self@,
    {
        self.records.clone()
    }

    /// Deletes what a filtered delete with these bounds takes away, leaving
    /// [`survivors`].
    pub fn retain_survivors(&mut self, start: Option<u64>, end: Option<u64>)
        ensures
            final(self)@ == survivors(old(self)@, start, end),
    {
        proof {
            use_type_invariant(&*self);
        }
        let mut kept: Vec<PriceData> = Vec::new();
        let mut i: usize = 0;
        while i < self.records.len()
            invariant
                i <= self.records@.len(),
                kept@ == survivors(self.records@.take(i as int), start, end),
            decreases self.records@.len() - i,
        {
            let r = self.records[i];
            proof {
                self.records@.lemma_take_succ_push(i as int);
                self.records@.take(i as int).lemma_filter_push(r, surviving(start, end));
            }
            let after_start = match start {
                Some(t) => t < r.timestamp,
                None => false,
            };
            let before_end = match end {
                Some(t) => t > r.timestamp,
                None => false,
            };
            if after_start || before_end {
                kept.push(r);
            }
            i += 1;
        }
        proof {
            self.records@.lemma_take_len();
            self.records@.lemma_filter_len(surviving(start, end));
        }
        self.records = kept;
    }

    /// Appends an observation, evicting the oldest one from a full series.
    pub fn insert(&mut self, r: PriceData)
        ensures
            final(self)@ == push_bounded(old(self)@, r),
            final(self)@.len() <= CAPACITY,
    {
        proof {
            use_type_invariant(&*self);
        }
        let mut records: Vec<PriceData> = Vec::new();
        std::mem::swap(&mut records, &mut self.records);
        if records.len() >= CAPACITY {
            records.remove(0);
        }
        records.push(r);
        proof {
            assert(old(self)@.drop_first() =~= old(self)@.remove(0));
        }
        self.records = records;
    }
}

impl Clone for Series {
    fn clone(&self) -> (r: Self)
        ensures
            r@ == self@,
    {
        proof {
            use_type_invariant(self);
        }
        Series { records: self.records.clone() }
    }
}

} // verus!
