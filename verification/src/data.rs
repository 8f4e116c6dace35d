//! Bar records and series validation.
//!
//! A [`Candle`] is one open/high/low/close/volume record with a calendar
//! date held as plain year, month and day fields. [`DataLoader::from_records`]
//! turns a batch of parsed records into a [`StockData`] series: it rejects an
//! empty batch and out-of-range records, and returns the records sorted by
//! date; reading a file and parsing its rows is the caller's concern.

use vstd::prelude::*;
use vstd::seq_lib::{to_multiset_contains, to_multiset_insert, to_multiset_remove};
use crate::fixed::{Fixed, MAX_BARS, MAX_PRICE, MIN_PRICE};

verus! {

/// A calendar date as plain fields. Field ranges are validated by
/// [`TradeDate::new`]; calendar rules beyond them (month lengths, leap
/// years) are the caller's concern.
#[derive(Clone, Copy, Debug, PartialEq, Eq, Structural, Hash)]
pub struct TradeDate {
    pub year: i32,
    pub month: u8,
    pub day: u8,
}

/// Total order on dates: later dates have larger keys.
pub open spec fn date_key(d: TradeDate) -> int {
    d.year * 10000 + d.month * 100 + d.day
}

impl TradeDate {
    /// Field ranges of a meaningful date.
    pub open spec fn wf(self) -> bool {
        1 <= self.month <= 12 && 1 <= self.day <= 31
    }

    /// Builds a date, rejecting out-of-range month or day fields.
    pub fn new(year: i32, month: u8, day: u8) -> (r: Option<TradeDate>)
        ensures
            r matches Some(d) ==> d == (TradeDate { year, month, day }) && d.wf(),
            r is Some <==> (1 <= month <= 12 && 1 <= day <= 31),
    {
        if 1 <= month && month <= 12 && 1 <= day && day <= 31 {
            Some(TradeDate { year, month, day })
        } else {
            None
        }
    }

    /// The sort key as a machine integer.
    pub fn key(self) -> (r: i64)
        ensures
            r == date_key(self),
    {
        (self.year as i64) * 10000 + (self.month as i64) * 100 + (self.day as i64)
    }

    /// `true` when `self` is on or before `other`.
    pub fn le(self, other: TradeDate) -> (r: bool)
        ensures
            r == (date_key(self) <= date_key(other)),
    {
        self.key() <= other.key()
    }
}

/// One open/high/low/close/volume record for a fixed time interval.
#[derive(Clone, Copy, Debug, PartialEq, Eq, Structural)]
pub struct Candle {
    pub date: TradeDate,
    pub open: Fixed,
    pub high: Fixed,
    pub low: Fixed,
    pub close: Fixed,
    pub volume: i64,
}

impl Candle {
    /// A record the engine can work on: prices within the machine bounds,
    /// a close the execution model accepts, and a non-negative volume.
    /// Only the close drives trading decisions and fills, so only it
    /// carries the positive floor.
    pub open spec fn wf(self) -> bool {
        &&& self.date.wf()
        &&& 0 <= self.open.m() <= MAX_PRICE
        &&& 0 <= self.high.m() <= MAX_PRICE
        &&& 0 <= self.low.m() <= MAX_PRICE
        &&& MIN_PRICE <= self.close.m() <= MAX_PRICE
        &&& self.volume >= 0
    }

    /// Decides [`Candle::wf`].
    pub fn is_valid(&self) -> (r: bool)
        ensures
            r == self.wf(),
    {
        1 <= self.date.month && self.date.month <= 12 && 1 <= self.date.day && self.date.day <= 31
            && 0 <= self.open.mantissa && self.open.mantissa <= MAX_PRICE && 0
            <= self.high.mantissa && self.high.mantissa <= MAX_PRICE && 0 <= self.low.mantissa
            && self.low.mantissa <= MAX_PRICE && MIN_PRICE <= self.close.mantissa
            && self.close.mantissa <= MAX_PRICE && self.volume >= 0
    }
}

/// Every record of the sequence is well-formed.
pub open spec fn candles_wf(s: Seq<Candle>) -> bool {
    forall|i: int| 0 <= i < s.len() ==> (#[trigger] s[i]).wf()
}

/// The records are in non-decreasing date order.
pub open spec fn candles_sorted(s: Seq<Candle>) -> bool {
    forall|i: int, j: int|
        0 <= i < j < s.len() ==> date_key((#[trigger] s[i]).date) <= date_key(
            (#[trigger] s[j]).date)
}

/// A named series of bars.
#[derive(Clone, Debug)]
pub struct StockData {
    pub symbol: String,
    pub candles: Vec<Candle>,
}

impl StockData {
    /// A series the engine accepts: bounded length, well-formed records.
    pub open spec fn wf(self) -> bool {
        candles_wf(self.candles@) && self.candles@.len() <= MAX_BARS
    }

    /// Number of bars in the series.
    pub fn len(&self) -> (r: usize)
        ensures
            r == self.candles@.len(),
    {
        self.candles.len()
    }

    /// `true` when the series holds no bars.
    pub fn is_empty(&self) -> (r: bool)
        ensures
            r == (self.candles@.len() == 0),
    {
        self.candles.len() == 0
    }
}

/// Why a batch of records was rejected.
#[derive(Clone, Copy, Debug, PartialEq, Eq, Structural)]
pub enum DataError {
    /// The batch holds no records at all.
    EmptyData,
    /// A record carries a price or volume outside the machine bounds.
    RecordOutOfRange,
    /// The batch holds more records than one series may.
    TooManyRecords,
}

/// Sorts a series in place by date, keeping exactly the same records.
fn sort_candles(v: &mut Vec<Candle>)
    ensures
        final(v)@.len() == old(v)@.len(),
        final(v)@.to_multiset() == old(v)@.to_multiset(),
        candles_sorted(final(v)@),
{
    let ghost orig = v@;
    let n = v.len();
    if n == 0 {
        return ;
    }
    let mut i: usize = 1;
    while i < n
        invariant
            1 <= i <= n,
            v@.len() == n,
            v@.to_multiset() == orig.to_multiset(),
            candles_sorted(v@.take(i as int)),
        decreases n - i,
    {
        let x = v[i];
        let mut j: usize = 0;
        while j < i && v[j].date.le(x.date)
            invariant
                0 <= j <= i < n,
                v@.len() == n,
                forall|k: int| 0 <= k < j ==> date_key((#[trigger] v@[k]).date) <= date_key(x.date),
            decreases i - j,
        {
            j += 1;
        }
        let ghost before = v@;
        v.remove(i);
        let ghost removed = v@;
        v.insert(j, x);
        proof {
            broadcast use vstd::multiset::group_multiset_axioms;

            assert(before[i as int] == x);
            assert(before.contains(x));
            to_multiset_contains(before, x);
            to_multiset_remove(before, i as int);
            assert(removed == before.remove(i as int));
            to_multiset_insert(removed, j as int, x);
            assert(v@.to_multiset() =~= before.to_multiset()) by {
                assert(v@.to_multiset() == before.to_multiset().remove(x).insert(x));
                assert(before.to_multiset().count(x) > 0);
            }
            // the prefix of length i + 1 is sorted again
            assert(forall|k: int|
                0 <= k < i ==> removed[k] == #[trigger] before[k]);
            assert(forall|k: int|
                0 <= k < j ==> v@[k] == #[trigger] removed[k]);
            assert(v@[j as int] == x);
            assert(forall|k: int|
                j < k <= i ==> v@[k] == #[trigger] removed[k - 1]);
            assert(j < i ==> date_key(before[j as int].date) > date_key(x.date));
            assert forall|p: int, q: int| 0 <= p < q < i + 1 implies date_key(
                (#[trigger] v@[p]).date) <= date_key((#[trigger] v@[q]).date) by {
                assert(candles_sorted(before.take(i as int)));
                if p < j && q < j {
                    assert(before.take(i as int)[p] == v@[p]);
                    assert(before.take(i as int)[q] == v@[q]);
                } else if p < j && q == j {
                    assert(date_key(v@[p].date) <= date_key(x.date));
                } else if p < j && q > j {
                    assert(before.take(i as int)[p] == v@[p]);
                    assert(before.take(i as int)[q - 1] == v@[q]);
                } else if p == j && q > j {
                    // x goes strictly before the record it displaced
                    assert(before.take(i as int)[j as int] == v@[j + 1]);
                    if q == j + 1 {
                        assert(date_key(x.date) <= date_key(v@[q].date));
                    } else {
                        assert(before.take(i as int)[q - 1] == v@[q]);
                    }
                } else {
                    assert(before.take(i as int)[p - 1] == v@[p]);
                    assert(before.take(i as int)[q - 1] == v@[q]);
                }
            }
            assert(candles_sorted(v@.take(i + 1)));
        }
        i += 1;
    }
    proof {
        assert(v@.take(n as int) =~= v@);
    }
}

/// Builds sorted, validated series out of parsed records.
pub struct DataLoader;

impl DataLoader {
    /// Turns a batch of parsed records into a series: rejects an empty
    /// batch, an over-long batch and out-of-range records, and sorts the
    /// rest by date. Exactly the given records come back, in date order.
    pub fn from_records(symbol: String, candles: Vec<Candle>) -> (r: Result<
        StockData,
        DataError,
    >)
        ensures
            match r {
                Ok(sd) => {
                    &&& 0 < candles@.len() <= MAX_BARS
                    &&& candles_wf(candles@)
                    &&& sd.symbol == symbol
                    &&& sd.candles@.len() == candles@.len()
                    &&& sd.candles@.to_multiset() == candles@.to_multiset()
                    &&& candles_sorted(sd.candles@)
                    &&& sd.wf()
                },
                Err(DataError::EmptyData) => candles@.len() == 0,
                Err(DataError::TooManyRecords) => candles@.len() > MAX_BARS,
                Err(DataError::RecordOutOfRange) => 0 < candles@.len() <= MAX_BARS && !candles_wf(
                    candles@,
                ),
            },
    {
        if candles.len() == 0 {
            return Err(DataError::EmptyData);
        }
        if candles.len() > MAX_BARS {
            return Err(DataError::TooManyRecords);
        }
        let n = candles.len();
        let mut k: usize = 0;
        while k < n
            invariant
                0 <= k <= n,
                n == candles@.len(),
                0 < n <= MAX_BARS,
                forall|t: int| 0 <= t < k ==> (#[trigger] candles@[t]).wf(),
            decreases n - k,
        {
            if !candles[k].is_valid() {
                proof {
                    assert(!candles@[k as int].wf());
                }
                return Err(DataError::RecordOutOfRange);
            }
            k += 1;
        }
        proof {
            assert(candles_wf(candles@));
        }
        let ghost orig = candles@;
        let mut sorted = candles;
        sort_candles(&mut sorted);
        proof {
            assert forall|t: int| 0 <= t < sorted@.len() implies (#[trigger] sorted@[t]).wf() by {
                let c = sorted@[t];
                assert(sorted@.contains(c));
                to_multiset_contains(sorted@, c);
                to_multiset_contains(orig, c);
                assert(orig.contains(c));
            }
        }
        Ok(StockData { symbol, candles: sorted })
    }
}

} // verus!
