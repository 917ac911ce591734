//! The in-memory market-data store: for each (symbol, timeframe) key an
//! ordered series of candles, strictly increasing by timestamp with no
//! duplicate timestamps.
//!
//! Merging new candles into a series is append-then-dedup with a pinned
//! winner: a record already stored at a timestamp always survives, and of
//! several new records sharing a timestamp the first offered survives.

use vstd::prelude::*;

use crate::candle::Candle;
use crate::candle::TimeFrame;
use crate::error::EngineError;
use crate::text::str_eq;

verus! {

/// Whether `s` is strictly increasing by timestamp (which also rules out
/// duplicate timestamps).
pub open spec fn sorted_unique(s: Seq<Candle>) -> bool {
    forall|i: int, j: int|
        0 <= i < j < s.len() ==> #[trigger] s[i].timestamp < #[trigger] s[j].timestamp
}

/// Whether some record of `s` carries timestamp `t`.
pub open spec fn has_ts(s: Seq<Candle>, t: i64) -> bool {
    exists|i: int| 0 <= i < s.len() && #[trigger] s[i].timestamp == t
}

/// One candle inserted into a sorted series: placed at its timestamp
/// position, or dropped when that timestamp is already present.
pub open spec fn insert_spec(s: Seq<Candle>, c: Candle) -> Seq<Candle>
    decreases s.len(),
{
    if s.len() == 0 {
        seq![c]
    } else if s[0].timestamp < c.timestamp {
        seq![s[0]] + insert_spec(s.drop_first(), c)
    } else if s[0].timestamp == c.timestamp {
        s
    } else {
        seq![c] + s
    }
}

/// New candles merged into a sorted series, first offered first.
pub open spec fn merge_spec(s: Seq<Candle>, cs: Seq<Candle>) -> Seq<Candle>
    decreases cs.len(),
{
    if cs.len() == 0 {
        s
    } else {
        merge_spec(insert_spec(s, cs[0]), cs.drop_first())
    }
}

/// Whether some candle of `cs` carries timestamp `t`.
pub open spec fn seq_has_ts(cs: Seq<Candle>, t: i64) -> bool {
    exists|i: int| 0 <= i < cs.len() && #[trigger] cs[i].timestamp == t
}

/// Whether `c` lies within the inclusive bounds, an omitted bound being
/// unbounded on that side.
pub open spec fn in_range(c: Candle, from: Option<i64>, to: Option<i64>) -> bool {
    &&& match from {
        Some(f) => c.timestamp >= f,
        None => true,
    }
    &&& match to {
        Some(t) => c.timestamp <= t,
        None => true,
    }
}

/// The records of `s` within the bounds, in order.
pub open spec fn filter_range(s: Seq<Candle>, from: Option<i64>, to: Option<i64>) -> Seq<
    Candle,
>
    decreases s.len(),
{
    if s.len() == 0 {
        Seq::empty()
    } else if in_range(s.last(), from, to) {
        filter_range(s.drop_last(), from, to).push(s.last())
    } else {
        filter_range(s.drop_last(), from, to)
    }
}

/// Inserting a candle keeps the series sorted, adds exactly its
/// timestamp, leaves the series unchanged when the timestamp is already
/// present, and introduces no record from elsewhere.
pub proof fn lemma_insert_spec(s: Seq<Candle>, c: Candle)
    requires
        sorted_unique(s),
    ensures
        sorted_unique(insert_spec(s, c)),
        forall|t: i64| has_ts(insert_spec(s, c), t) == (has_ts(s, t) || t == c.timestamp),
        has_ts(s, c.timestamp) ==> insert_spec(s, c) == s,
        forall|k: int|
            0 <= k < insert_spec(s, c).len() ==> #[trigger] insert_spec(s, c)[k] == c
                || exists|i: int| 0 <= i < s.len() && insert_spec(s, c)[k] == #[trigger] s[i],
{
    lemma_insert_sorted_mem(s, c);
    lemma_insert_ts(s, c);
}

/// Insertion keeps the series sorted and introduces no record from
/// elsewhere.
#[verifier::rlimit(60)]
proof fn lemma_insert_sorted_mem(s: Seq<Candle>, c: Candle)
    requires
        sorted_unique(s),
    ensures
        sorted_unique(insert_spec(s, c)),
        forall|k: int|
            0 <= k < insert_spec(s, c).len() ==> #[trigger] insert_spec(s, c)[k] == c
                || exists|i: int| 0 <= i < s.len() && insert_spec(s, c)[k] == #[trigger] s[i],
    decreases s.len(),
{
    let r = insert_spec(s, c);
    if s.len() == 0 {
        assert(r =~= seq![c]);
    } else if s[0].timestamp < c.timestamp {
        let rest = s.drop_first();
        assert(sorted_unique(rest)) by {
            assert(forall|i: int, j: int|
                0 <= i < j < rest.len() ==> rest[i] == s[i + 1] && rest[j] == s[j + 1]);
        }
        lemma_insert_sorted_mem(rest, c);
        let ir = insert_spec(rest, c);
        assert(r =~= seq![s[0]] + ir);
        // Every element of the tail insertion is later than the head.
        assert(forall|k: int| 0 <= k < ir.len() ==> #[trigger] ir[k].timestamp > s[0].timestamp)
            by {
            assert(forall|i: int| 0 <= i < rest.len() ==> #[trigger] rest[i].timestamp
                > s[0].timestamp) by {
                assert(forall|i: int| 0 <= i < rest.len() ==> rest[i] == s[i + 1]);
            }
        }
        assert(sorted_unique(r)) by {
            assert(forall|i: int, j: int|
                0 <= i < j < r.len() && i >= 1 ==> r[i] == ir[i - 1] && r[j] == ir[j - 1]);
        }
        assert forall|k: int| 0 <= k < r.len() implies #[trigger] r[k] == c || exists|i: int|
            0 <= i < s.len() && r[k] == #[trigger] s[i] by {
            if k == 0 {
                assert(r[k] == s[0]);
            } else {
                assert(r[k] == ir[k - 1]);
                if ir[k - 1] != c {
                    let i = choose|i: int| 0 <= i < rest.len() && ir[k - 1] == rest[i];
                    assert(r[k] == s[i + 1]);
                }
            }
        }
    } else if s[0].timestamp == c.timestamp {
    } else {
        assert(r =~= seq![c] + s);
        assert(sorted_unique(r)) by {
            assert(forall|i: int, j: int|
                0 <= i < j < r.len() && i >= 1 ==> r[i] == s[i - 1] && r[j] == s[j - 1]);
            assert(forall|j: int| 1 <= j < r.len() ==> #[trigger] r[j].timestamp
                >= s[0].timestamp);
        }
    }
}

/// Insertion adds exactly the candle's timestamp and is a no-op when
/// that timestamp is already present.
#[verifier::rlimit(60)]
proof fn lemma_insert_ts(s: Seq<Candle>, c: Candle)
    requires
        sorted_unique(s),
    ensures
        forall|t: i64| has_ts(insert_spec(s, c), t) == (has_ts(s, t) || t == c.timestamp),
        has_ts(s, c.timestamp) ==> insert_spec(s, c) == s,
    decreases s.len(),
{
    let r = insert_spec(s, c);
    if s.len() == 0 {
        assert(r =~= seq![c]);
        assert(forall|t: i64| has_ts(r, t) ==> r[choose|i: int| 0 <= i < r.len() && r[i].timestamp == t] == c);
        assert(has_ts(r, c.timestamp)) by {
            assert(r[0].timestamp == c.timestamp);
        }
    } else if s[0].timestamp < c.timestamp {
        let rest = s.drop_first();
        assert(sorted_unique(rest)) by {
            assert(forall|i: int, j: int|
                0 <= i < j < rest.len() ==> rest[i] == s[i + 1] && rest[j] == s[j + 1]);
        }
        lemma_insert_ts(rest, c);
        let ir = insert_spec(rest, c);
        assert(r =~= seq![s[0]] + ir);
        assert forall|t: i64| has_ts(r, t) == (has_ts(s, t) || t == c.timestamp) by {
            if has_ts(r, t) {
                let k = choose|k: int| 0 <= k < r.len() && r[k].timestamp == t;
                if k == 0 {
                    assert(s[0].timestamp == t);
                } else {
                    assert(ir[k - 1].timestamp == t);
                    assert(has_ts(ir, t));
                    if has_ts(rest, t) {
                        let i = choose|i: int| 0 <= i < rest.len() && rest[i].timestamp == t;
                        assert(s[i + 1].timestamp == t);
                    }
                }
            }
            if has_ts(s, t) {
                let i = choose|i: int| 0 <= i < s.len() && s[i].timestamp == t;
                if i == 0 {
                    assert(r[0].timestamp == t);
                } else {
                    assert(rest[i - 1].timestamp == t);
                    assert(has_ts(rest, t));
                    assert(has_ts(ir, t));
                    let k = choose|k: int| 0 <= k < ir.len() && ir[k].timestamp == t;
                    assert(r[k + 1].timestamp == t);
                }
            }
            if t == c.timestamp {
                assert(has_ts(ir, t));
                let k = choose|k: int| 0 <= k < ir.len() && ir[k].timestamp == t;
                assert(r[k + 1].timestamp == t);
            }
        }
        if has_ts(s, c.timestamp) {
            assert(has_ts(rest, c.timestamp)) by {
                let i = choose|i: int| 0 <= i < s.len() && s[i].timestamp == c.timestamp;
                assert(i != 0);
                assert(rest[i - 1].timestamp == c.timestamp);
            }
            assert(ir == rest);
            assert(r =~= s);
        }
    } else if s[0].timestamp == c.timestamp {
        assert(has_ts(s, c.timestamp)) by {
            assert(s[0].timestamp == c.timestamp);
        }
    } else {
        assert(r =~= seq![c] + s);
        assert forall|t: i64| has_ts(r, t) == (has_ts(s, t) || t == c.timestamp) by {
            if has_ts(r, t) {
                let k = choose|k: int| 0 <= k < r.len() && r[k].timestamp == t;
                if k > 0 {
                    assert(s[k - 1].timestamp == t);
                }
            }
            if has_ts(s, t) {
                let i = choose|i: int| 0 <= i < s.len() && s[i].timestamp == t;
                assert(r[i + 1].timestamp == t);
            }
            if t == c.timestamp {
                assert(r[0].timestamp == t);
            }
        }
        assert(!has_ts(s, c.timestamp)) by {
            assert(forall|i: int| 0 <= i < s.len() ==> #[trigger] s[i].timestamp
                >= s[0].timestamp);
        }
    }
}

/// Merging keeps the series sorted; the merged timestamps are exactly the
/// old ones and the new ones.
pub proof fn lemma_merge_spec(s: Seq<Candle>, cs: Seq<Candle>)
    requires
        sorted_unique(s),
    ensures
        sorted_unique(merge_spec(s, cs)),
        forall|t: i64| has_ts(merge_spec(s, cs), t) == (has_ts(s, t) || seq_has_ts(cs, t)),
    decreases cs.len(),
{
    if cs.len() > 0 {
        lemma_insert_spec(s, cs[0]);
        lemma_merge_spec(insert_spec(s, cs[0]), cs.drop_first());
        let rest = cs.drop_first();
        assert forall|t: i64| seq_has_ts(cs, t) == (t == cs[0].timestamp || seq_has_ts(
            rest,
            t,
        )) by {
            if seq_has_ts(cs, t) {
                let i = choose|i: int| 0 <= i < cs.len() && cs[i].timestamp == t;
                if i > 0 {
                    assert(rest[i - 1].timestamp == t);
                }
            }
            if seq_has_ts(rest, t) {
                let i = choose|i: int| 0 <= i < rest.len() && rest[i].timestamp == t;
                assert(cs[i + 1].timestamp == t);
            }
            if t == cs[0].timestamp {
                assert(cs[0].timestamp == t);
            }
        }
    }
}

/// Merging candles whose timestamps are all already present changes
/// nothing.
pub proof fn lemma_merge_noop(s: Seq<Candle>, cs: Seq<Candle>)
    requires
        sorted_unique(s),
        forall|i: int| 0 <= i < cs.len() ==> has_ts(s, #[trigger] cs[i].timestamp),
    ensures
        merge_spec(s, cs) == s,
    decreases cs.len(),
{
    if cs.len() > 0 {
        lemma_insert_spec(s, cs[0]);
        assert(has_ts(s, cs[0].timestamp));
        assert(insert_spec(s, cs[0]) == s);
        let rest = cs.drop_first();
        assert(forall|i: int| 0 <= i < rest.len() ==> rest[i] == cs[i + 1]);
        lemma_merge_noop(s, rest);
    }
}

/// Merging the same batch twice gives the same series as merging it once:
/// a record already stored at a timestamp always wins, so a repeated
/// insertion leaves exactly one record at that timestamp.
pub proof fn lemma_merge_idempotent(s: Seq<Candle>, cs: Seq<Candle>)
    requires
        sorted_unique(s),
    ensures
        merge_spec(merge_spec(s, cs), cs) == merge_spec(s, cs),
{
    lemma_merge_spec(s, cs);
    let m = merge_spec(s, cs);
    assert(forall|i: int| 0 <= i < cs.len() ==> has_ts(m, #[trigger] cs[i].timestamp)) by {
        assert(forall|i: int|
            0 <= i < cs.len() ==> seq_has_ts(cs, #[trigger] cs[i].timestamp));
    }
    lemma_merge_noop(m, cs);
}

/// In a sorted series at most one record carries any timestamp.
pub proof fn lemma_at_most_one_record(s: Seq<Candle>, i: int, j: int)
    requires
        sorted_unique(s),
        0 <= i < s.len(),
        0 <= j < s.len(),
        s[i].timestamp == s[j].timestamp,
    ensures
        i == j,
{
}

/// A range filter of a sorted series is sorted, and every record of it
/// comes from the series.
pub proof fn lemma_filter_range_sorted(s: Seq<Candle>, from: Option<i64>, to: Option<i64>)
    requires
        sorted_unique(s),
    ensures
        sorted_unique(filter_range(s, from, to)),
        forall|k: int|
            0 <= k < filter_range(s, from, to).len() ==> exists|i: int|
                0 <= i < s.len() && #[trigger] filter_range(s, from, to)[k] == s[i],
    decreases s.len(),
{
    let r = filter_range(s, from, to);
    if s.len() > 0 {
        let pre = s.drop_last();
        assert(sorted_unique(pre)) by {
            assert(forall|i: int, j: int|
                0 <= i < j < pre.len() ==> pre[i] == s[i] && pre[j] == s[j]);
        }
        lemma_filter_range_sorted(pre, from, to);
        let rp = filter_range(pre, from, to);
        assert forall|k: int| 0 <= k < r.len() implies exists|i: int|
            0 <= i < s.len() && #[trigger] r[k] == s[i] by {
            if in_range(s.last(), from, to) {
                if k < rp.len() {
                    assert(r[k] == rp[k]);
                    let i = choose|i: int| 0 <= i < pre.len() && rp[k] == pre[i];
                    assert(r[k] == s[i]);
                } else {
                    assert(r[k] == s[s.len() - 1]);
                }
            } else {
                assert(r[k] == rp[k]);
                let i = choose|i: int| 0 <= i < pre.len() && rp[k] == pre[i];
                assert(r[k] == s[i]);
            }
        }
        if in_range(s.last(), from, to) {
            assert(sorted_unique(r)) by {
                assert(forall|k: int| 0 <= k < rp.len() ==> #[trigger] rp[k].timestamp
                    < s.last().timestamp) by {
                    assert(forall|k: int|
                        0 <= k < rp.len() ==> exists|i: int|
                            0 <= i < pre.len() && #[trigger] rp[k] == pre[i]);
                    assert(forall|i: int| 0 <= i < pre.len() ==> #[trigger] pre[i].timestamp
                        < s.last().timestamp) by {
                        assert(forall|i: int|
                            0 <= i < pre.len() ==> pre[i] == s[i] && s[i].timestamp < s[s.len()
                                - 1].timestamp);
                    }
                }
                assert(forall|i: int, j: int|
                    0 <= i < j < r.len() && j < rp.len() ==> r[i] == rp[i] && r[j] == rp[j]);
                assert(forall|i: int| 0 <= i < rp.len() ==> r[i] == rp[i]);
            }
        }
    }
}

/// Law of ordering: a well-formed store answers any range query over
/// any of its series with a strictly timestamp-ascending sequence,
/// whatever merges built that series.
pub proof fn lemma_query_sorted(
    store: MarketDataStore,
    sym: Seq<char>,
    tf: TimeFrame,
    from: Option<i64>,
    to: Option<i64>,
)
    requires
        store.wf(),
    ensures
        sorted_unique(filter_range(store.series(sym, tf), from, to)),
{
    store.lemma_series_sorted(sym, tf);
    lemma_filter_range_sorted(store.series(sym, tf), from, to);
}

/// Without bounds the range filter returns the series whole.
pub proof fn lemma_filter_range_unbounded(s: Seq<Candle>)
    ensures
        filter_range(s, None, None) == s,
    decreases s.len(),
{
    if s.len() > 0 {
        lemma_filter_range_unbounded(s.drop_last());
        assert(filter_range(s, None, None) =~= s);
    }
}

/// One keyed series of the store.
struct SeriesEntry {
    symbol: String,
    timeframe: TimeFrame,
    candles: Vec<Candle>,
}

/// The in-memory store of candle series, keyed by symbol and timeframe.
pub struct MarketDataStore {
    entries: Vec<SeriesEntry>,
}

impl MarketDataStore {
    /// Well-formedness: keys are distinct and every series is strictly
    /// increasing by timestamp.
    pub closed spec fn wf(self) -> bool {
        &&& forall|i: int, j: int|
            0 <= i < j < self.entries.len() ==> !(#[trigger] self.entries[i].symbol@
                == #[trigger] self.entries[j].symbol@ && self.entries[i].timeframe
                == self.entries[j].timeframe)
        &&& forall|i: int|
            0 <= i < self.entries.len() ==> sorted_unique(
                #[trigger] self.entries[i].candles@,
            )
    }

    /// Whether the store holds a series under this key.
    pub closed spec fn has_series(self, sym: Seq<char>, tf: TimeFrame) -> bool {
        exists|i: int|
            0 <= i < self.entries.len() && #[trigger] self.entries[i].symbol@ == sym
                && self.entries[i].timeframe == tf
    }

    /// The series stored under this key, empty when the key is absent.
    pub closed spec fn series(self, sym: Seq<char>, tf: TimeFrame) -> Seq<Candle> {
        if self.has_series(sym, tf) {
            let i = choose|i: int|
                0 <= i < self.entries.len() && #[trigger] self.entries[i].symbol@ == sym
                    && self.entries[i].timeframe == tf;
            self.entries[i].candles@
        } else {
            Seq::empty()
        }
    }

    /// A well-formed store's series are sorted.
    pub proof fn lemma_series_sorted(self, sym: Seq<char>, tf: TimeFrame)
        requires
            self.wf(),
        ensures
            sorted_unique(self.series(sym, tf)),
    {
    }

    /// Creates an empty store.
    pub fn new() -> (r: Self)
        ensures
            r.wf(),
            forall|sym: Seq<char>, tf: TimeFrame| !r.has_series(sym, tf),
    {
        MarketDataStore { entries: Vec::new() }
    }

    /// The index of the entry with this key, if present.
    fn find_entry(&self, symbol: &str, timeframe: TimeFrame) -> (r: Option<usize>)
        ensures
            r matches Some(i) ==> i < self.entries.len() && self.entries[i as int].symbol@
                == symbol@ && self.entries[i as int].timeframe == timeframe,
            r is None ==> !self.has_series(symbol@, timeframe),
            r is Some <==> self.has_series(symbol@, timeframe),
    {
        let n = self.entries.len();
        let mut i: usize = 0;
        while i < n
            invariant
                i <= n,
                n == self.entries.len(),
                forall|j: int|
                    0 <= j < i ==> !(#[trigger] self.entries[j].symbol@ == symbol@
                        && self.entries[j].timeframe == timeframe),
            decreases n - i,
        {
            if str_eq(self.entries[i].symbol.as_str(), symbol) && self.entries[i].timeframe
                == timeframe {
                return Some(i);
            }
            i += 1;
        }
        None
    }

    /// Appends new candles to the series under the key, creating the key
    /// if absent. The resulting series is the deterministic merge: sorted
    /// by timestamp, one record per timestamp, stored records surviving
    /// over new ones. Series under other keys are untouched. Never fails.
    #[verifier::rlimit(80)]
    pub fn add_candles(
        &mut self,
        symbol: &str,
        timeframe: TimeFrame,
        new_candles: Vec<Candle>,
    ) -> (r: Result<(), EngineError>)
        requires
            old(self).wf(),
        ensures
            final(self).wf(),
            r is Ok,
            final(self).has_series(symbol@, timeframe),
            final(self).series(symbol@, timeframe) == merge_spec(
                old(self).series(symbol@, timeframe),
                new_candles@,
            ),
            forall|s2: Seq<char>, t2: TimeFrame|
                !(s2 == symbol@ && t2 == timeframe) ==> #[trigger] final(self).has_series(
                    s2,
                    t2,
                ) == old(self).has_series(s2, t2),
            forall|s2: Seq<char>, t2: TimeFrame|
                !(s2 == symbol@ && t2 == timeframe) ==> #[trigger] final(self).series(s2, t2)
                    == old(self).series(s2, t2),
    {
        let ghost orig = *self;
        let idx: usize;
        match self.find_entry(symbol, timeframe) {
            Some(i) => {
                idx = i;
            },
            None => {
                let e = SeriesEntry {
                    symbol: symbol.to_owned(),
                    timeframe,
                    candles: Vec::new(),
                };
                idx = self.entries.len();
                self.entries.push(e);
            },
        }
        let ghost pre = self.entries@;
        proof {
            // In either case `pre` holds distinct keys, sorted series, and
            // the target key exactly at `idx`.
            assert(idx < pre.len() && pre[idx as int].symbol@ == symbol@ && pre[
                idx as int
            ].timeframe == timeframe);
            assert(forall|i: int, j: int|
                0 <= i < j < pre.len() ==> !(#[trigger] pre[i].symbol@
                    == #[trigger] pre[j].symbol@ && pre[i].timeframe == pre[j].timeframe));
            assert(forall|i: int|
                0 <= i < pre.len() ==> sorted_unique(#[trigger] pre[i].candles@)) by {
                if !orig.has_series(symbol@, timeframe) {
                    assert(forall|i: int|
                        0 <= i < orig.entries.len() ==> pre[i] == orig.entries[i]);
                    assert(pre[pre.len() - 1].candles@ =~= Seq::<Candle>::empty());
                }
            }
            assert(orig.series(symbol@, timeframe) == pre[idx as int].candles@) by {
                if orig.has_series(symbol@, timeframe) {
                    let i = choose|i: int|
                        0 <= i < orig.entries.len() && #[trigger] orig.entries[i].symbol@
                            == symbol@ && orig.entries[i].timeframe == timeframe;
                    assert(i == idx);
                } else {
                    assert(pre[idx as int].candles@ =~= Seq::<Candle>::empty());
                }
            }
        }
        let ghost base = pre[idx as int].candles@;
        let mut entry = self.entries.remove(idx);
        proof {
            pre.remove_ensures(idx as int);
            assert(entry.candles@ == base);
            assert(new_candles@.skip(0) =~= new_candles@);
        }
        let n = new_candles.len();
        let mut k: usize = 0;
        while k < n
            invariant
                k <= n,
                n == new_candles@.len(),
                sorted_unique(entry.candles@),
                entry.symbol@ == symbol@ && entry.timeframe == timeframe,
                merge_spec(base, new_candles@) == merge_spec(
                    entry.candles@,
                    new_candles@.skip(k as int),
                ),
            decreases n - k,
        {
            let c = new_candles[k].clone();
            proof {
                let rem = new_candles@.skip(k as int);
                assert(rem[0] == new_candles@[k as int]);
                assert(rem.drop_first() =~= new_candles@.skip(k + 1));
                lemma_insert_spec(entry.candles@, c);
            }
            insert_candle(&mut entry.candles, c);
            k += 1;
        }
        proof {
            assert(new_candles@.skip(n as int) =~= Seq::<Candle>::empty());
        }
        let ghost merged = entry.candles@;
        let ghost mid = self.entries@;
        self.entries.push(entry);
        proof {
            let fin = self.entries@;
            assert(mid == pre.remove(idx as int));
            assert(fin[fin.len() - 1].symbol@ == symbol@ && fin[fin.len() - 1].timeframe
                == timeframe && fin[fin.len() - 1].candles@ == merged);
            // Entries other than the merged one keep their contents,
            // shifted down past the removed slot.
            assert(forall|j: int| 0 <= j < idx ==> #[trigger] fin[j] == pre[j]);
            assert(forall|j: int|
                idx <= j < fin.len() - 1 ==> #[trigger] fin[j] == pre[j + 1]);
            assert(forall|j: int|
                0 <= j < fin.len() - 1 ==> !(#[trigger] fin[j].symbol@ == symbol@
                    && fin[j].timeframe == timeframe));
            assert(self.wf());
            assert(self.has_series(symbol@, timeframe)) by {
                assert(fin[fin.len() - 1].symbol@ == symbol@ && fin[fin.len()
                    - 1].timeframe == timeframe);
            }
            assert(self.series(symbol@, timeframe) == merged) by {
                let i = choose|i: int|
                    0 <= i < fin.len() && #[trigger] fin[i].symbol@ == symbol@
                        && fin[i].timeframe == timeframe;
                assert(i == fin.len() - 1);
            }
            // The relation between `pre` and the original entries: equal,
            // or the original entries plus a fresh empty series.
            assert(forall|j: int|
                0 <= j < orig.entries.len() ==> #[trigger] orig.entries[j] == pre[j]);
            assert forall|s2: Seq<char>, t2: TimeFrame|
                !(s2 == symbol@ && t2 == timeframe) implies #[trigger] self.has_series(s2, t2)
                == orig.has_series(s2, t2) by {
                if orig.has_series(s2, t2) {
                    let i = choose|i: int|
                        0 <= i < orig.entries.len() && #[trigger] orig.entries[i].symbol@
                            == s2 && orig.entries[i].timeframe == t2;
                    assert(pre[i].symbol@ == s2 && pre[i].timeframe == t2);
                    assert(i != idx);
                    if i < idx {
                        assert(fin[i] == pre[i]);
                        assert(self.has_series(s2, t2));
                    } else {
                        assert(fin[i - 1] == pre[i]);
                        assert(self.has_series(s2, t2));
                    }
                }
                if self.has_series(s2, t2) {
                    let i = choose|i: int|
                        0 <= i < fin.len() && #[trigger] fin[i].symbol@ == s2
                            && fin[i].timeframe == t2;
                    assert(i != fin.len() - 1);
                    let oi: int = if i < idx {
                        i
                    } else {
                        i + 1
                    };
                    assert(fin[i] == pre[oi]);
                    assert(oi != idx);
                    assert(oi < orig.entries.len()) by {
                        if !orig.has_series(symbol@, timeframe) {
                            assert(idx == orig.entries.len());
                            assert(oi < pre.len());
                            if oi == orig.entries.len() {
                                assert(pre[oi].symbol@ == symbol@ && pre[oi].timeframe
                                    == timeframe);
                            }
                        }
                    }
                    assert(orig.entries[oi] == pre[oi]);
                    assert(orig.has_series(s2, t2));
                }
            }
            assert forall|s2: Seq<char>, t2: TimeFrame|
                !(s2 == symbol@ && t2 == timeframe) implies #[trigger] self.series(s2, t2)
                == orig.series(s2, t2) by {
                if orig.has_series(s2, t2) {
                    let i = choose|i: int|
                        0 <= i < orig.entries.len() && #[trigger] orig.entries[i].symbol@
                            == s2 && orig.entries[i].timeframe == t2;
                    assert(pre[i].symbol@ == s2 && pre[i].timeframe == t2);
                    assert(i != idx);
                    if i < idx {
                        assert(fin[i] == pre[i]);
                        assert(self.has_series(s2, t2));
                    } else {
                        assert(fin[i - 1] == pre[i]);
                        assert(self.has_series(s2, t2));
                    }
                }
                if self.has_series(s2, t2) {
                    let i = choose|i: int|
                        0 <= i < fin.len() && #[trigger] fin[i].symbol@ == s2
                            && fin[i].timeframe == t2;
                    assert(i != fin.len() - 1);
                    let oi: int = if i < idx {
                        i
                    } else {
                        i + 1
                    };
                    assert(fin[i] == pre[oi]);
                    assert(oi != idx);
                    assert(oi < orig.entries.len()) by {
                        if !orig.has_series(symbol@, timeframe) {
                            assert(idx == orig.entries.len());
                            assert(oi < pre.len());
                            if oi == orig.entries.len() {
                                assert(pre[oi].symbol@ == symbol@ && pre[oi].timeframe
                                    == timeframe);
                            }
                        }
                    }
                    assert(orig.entries[oi] == pre[oi]);
                    assert(orig.has_series(s2, t2));
                    // The matching entries coincide, so the series agree.
                    let i2 = choose|i2: int|
                        0 <= i2 < orig.entries.len() && #[trigger] orig.entries[i2].symbol@
                            == s2 && orig.entries[i2].timeframe == t2;
                    assert(i2 == oi) by {
                        if i2 != oi {
                            assert(pre[i2].symbol@ == s2 && pre[i2].timeframe == t2);
                        }
                    }
                    assert(orig.series(s2, t2) == orig.entries[oi].candles@);
                    assert(self.series(s2, t2) == fin[i].candles@);
                    assert(self.series(s2, t2) == orig.series(s2, t2));
                }
                if !self.has_series(s2, t2) && !orig.has_series(s2, t2) {
                    assert(self.series(s2, t2) =~= orig.series(s2, t2));
                }
            }
        }
        Ok(())
    }

    /// The series under the key, `None` when the key is unknown, filtered
    /// to the inclusive bounds; an omitted bound is unbounded on that
    /// side. A known key with no data in range gives `Some` of an empty
    /// sequence, which is a different outcome from an unknown key.
    pub fn get_candles(
        &self,
        symbol: &str,
        timeframe: TimeFrame,
        from: Option<i64>,
        to: Option<i64>,
    ) -> (r: Option<Vec<Candle>>)
        requires
            self.wf(),
        ensures
            r is Some <==> self.has_series(symbol@, timeframe),
            r matches Some(v) ==> v@ == filter_range(
                self.series(symbol@, timeframe),
                from,
                to,
            ),
    {
        let idx = match self.find_entry(symbol, timeframe) {
            Some(i) => i,
            None => {
                return None;
            },
        };
        let ghost ser = self.series(symbol@, timeframe);
        proof {
            let i = choose|i: int|
                0 <= i < self.entries.len() && #[trigger] self.entries[i].symbol@ == symbol@
                    && self.entries[i].timeframe == timeframe;
            assert(i == idx);
        }
        let candles = &self.entries[idx].candles;
        let n = candles.len();
        let mut out: Vec<Candle> = Vec::new();
        let mut i: usize = 0;
        proof {
            assert(ser.take(0) =~= Seq::<Candle>::empty());
        }
        while i < n
            invariant
                i <= n,
                n == candles@.len(),
                candles@ == ser,
                out@ == filter_range(ser.take(i as int), from, to),
            decreases n - i,
        {
            let c = &candles[i];
            let keep = (match from {
                Some(f) => c.timestamp >= f,
                None => true,
            }) && (match to {
                Some(t) => c.timestamp <= t,
                None => true,
            });
            proof {
                let p = ser.take(i + 1);
                assert(p.drop_last() =~= ser.take(i as int));
                assert(p.last() == ser[i as int]);
            }
            if keep {
                out.push(candles[i].clone());
            }
            i += 1;
        }
        proof {
            assert(ser.take(n as int) =~= ser);
        }
        Some(out)
    }
}

impl Default for MarketDataStore {
    /// The default store is empty.
    fn default() -> (r: Self)
        ensures
            r.wf(),
            forall|sym: Seq<char>, tf: TimeFrame| !r.has_series(sym, tf),
    {
        MarketDataStore::new()
    }
}

/// Inserts one candle into a sorted series, keeping it sorted; a candle
/// whose timestamp is already present is dropped.
fn insert_candle(v: &mut Vec<Candle>, c: Candle)
    requires
        sorted_unique(old(v)@),
    ensures
        final(v)@ == insert_spec(old(v)@, c),
        sorted_unique(final(v)@),
{
    proof {
        lemma_insert_spec(old(v)@, c);
    }
    let n = v.len();
    let mut i: usize = 0;
    while i < n && v[i].timestamp < c.timestamp
        invariant
            i <= n,
            n == v@.len(),
            v@ == old(v)@,
            forall|j: int| 0 <= j < i ==> #[trigger] v@[j].timestamp < c.timestamp,
        decreases n - i,
    {
        i += 1;
    }
    if i < n && v[i].timestamp == c.timestamp {
        proof {
            lemma_insert_spec_found(v@, c, i as int);
        }
        return;
    }
    proof {
        lemma_insert_spec_position(v@, c, i as int);
    }
    v.insert(i, c);
    proof {
        assert(v@ =~= old(v)@.take(i as int) + seq![c] + old(v)@.skip(i as int));
    }
}

proof fn lemma_insert_spec_position(s: Seq<Candle>, c: Candle, i: int)
    requires
        sorted_unique(s),
        0 <= i <= s.len(),
        forall|j: int| 0 <= j < i ==> #[trigger] s[j].timestamp < c.timestamp,
        i < s.len() ==> s[i].timestamp > c.timestamp,
    ensures
        insert_spec(s, c) == s.take(i) + seq![c] + s.skip(i),
    decreases i,
{
    if i == 0 {
        if s.len() == 0 {
            assert(insert_spec(s, c) =~= s.take(0) + seq![c] + s.skip(0));
        } else {
            assert(s[0].timestamp > c.timestamp);
            assert(insert_spec(s, c) =~= s.take(0) + seq![c] + s.skip(0));
        }
    } else {
        assert(s[0].timestamp < c.timestamp);
        let rest = s.drop_first();
        assert(sorted_unique(rest)) by {
            assert(forall|a: int, b: int|
                0 <= a < b < rest.len() ==> rest[a] == s[a + 1] && rest[b] == s[b + 1]);
        }
        assert(forall|j: int| 0 <= j < i - 1 ==> #[trigger] rest[j].timestamp < c.timestamp)
            by {
            assert(forall|j: int| 0 <= j < i - 1 ==> rest[j] == s[j + 1]);
        }
        assert(i - 1 < rest.len() ==> rest[i - 1].timestamp > c.timestamp) by {
            if i - 1 < rest.len() {
                assert(rest[i - 1] == s[i]);
            }
        }
        lemma_insert_spec_position(rest, c, i - 1);
        assert(insert_spec(s, c) == seq![s[0]] + insert_spec(rest, c));
        assert(seq![s[0]] + (rest.take(i - 1) + seq![c] + rest.skip(i - 1)) =~= s.take(i)
            + seq![c] + s.skip(i));
    }
}

proof fn lemma_insert_spec_found(s: Seq<Candle>, c: Candle, i: int)
    requires
        sorted_unique(s),
        0 <= i < s.len(),
        forall|j: int| 0 <= j < i ==> #[trigger] s[j].timestamp < c.timestamp,
        s[i].timestamp == c.timestamp,
    ensures
        insert_spec(s, c) == s,
    decreases i,
{
    if i == 0 {
    } else {
        assert(s[0].timestamp < c.timestamp);
        let rest = s.drop_first();
        assert(sorted_unique(rest)) by {
            assert(forall|a: int, b: int|
                0 <= a < b < rest.len() ==> rest[a] == s[a + 1] && rest[b] == s[b + 1]);
        }
        assert(forall|j: int| 0 <= j < i - 1 ==> #[trigger] rest[j].timestamp < c.timestamp)
            by {
            assert(forall|j: int| 0 <= j < i - 1 ==> rest[j] == s[j + 1]);
        }
        assert(rest[i - 1] == s[i]);
        lemma_insert_spec_found(rest, c, i - 1);
        assert(insert_spec(s, c) == seq![s[0]] + insert_spec(rest, c));
        assert(seq![s[0]] + rest =~= s);
    }
}

} // verus!
