//! What holds of the bounded series and of the store that keeps them, whatever
//! the observations are.
use vstd::prelude::*;
use crate::series::{in_range, last_n, push_bounded, survivors, surviving, within, CAPACITY};
use crate::store::{
    after_delete, asset_set, bounded, lemma_source_set_insert, selected, series_of, source_set,
    with_prices, with_record, SeriesKey, StoreView,
};
use crate::types::{AssetView, Price, PriceData};

verus! {

/// A series after the observations `rs` are inserted one by one.
pub open spec fn push_all(s: Seq<PriceData>, rs: Seq<PriceData>) -> Seq<PriceData>
    decreases rs.len(),
{
    if rs.len() == 0 {
        s
    } else {
        push_bounded(push_all(s, rs.drop_last()), rs.last())
    }
}

/// The observations of a batch that go to the series under `k`, in the order
/// of the batch.
pub open spec fn records_for(prices: Seq<Price>, k: SeriesKey) -> Seq<PriceData>
    decreases prices.len(),
{
    if prices.len() == 0 {
        Seq::empty()
    } else {
        let rest = records_for(prices.drop_last(), k);
        if prices.last().key() == k {
            rest.push(prices.last().record())
        } else {
            rest
        }
    }
}

/// After any sequence of inserts a series holds no more than [`CAPACITY`]
/// observations, and they are the newest ones of all that it ever held or was
/// given, in the order they came: the oldest are the ones evicted.
pub proof fn lemma_inserts_keep_newest(s: Seq<PriceData>, rs: Seq<PriceData>)
    requires
        s.len() <= CAPACITY,
    ensures
        push_all(s, rs) == last_n(s + rs, CAPACITY as nat),
        push_all(s, rs).len() <= CAPACITY,
    decreases rs.len(),
{
    if rs.len() == 0 {
        assert(s + rs =~= s);
    } else {
        let init = rs.drop_last();
        lemma_inserts_keep_newest(s, init);
        let before = push_all(s, init);
        assert(s + rs =~= (s + init).push(rs.last()));
        assert(push_bounded(before, rs.last()) =~= last_n(s + rs, CAPACITY as nat));
    }
}

/// After a batch is inserted into a store, the series under any key is what it
/// was with the batch's observations for that key inserted one by one: so it
/// holds the newest [`CAPACITY`] of them all, and never more.
pub proof fn lemma_series_after_inserts(m: StoreView, prices: Seq<Price>, k: SeriesKey)
    requires
        bounded(m),
    ensures
        series_of(with_prices(m, prices), k) == push_all(series_of(m, k), records_for(prices, k)),
        series_of(with_prices(m, prices), k) == last_n(
            series_of(m, k) + records_for(prices, k),
            CAPACITY as nat,
        ),
        series_of(with_prices(m, prices), k).len() <= CAPACITY,
    decreases prices.len(),
{
    if prices.len() > 0 {
        lemma_series_after_inserts(m, prices.drop_last(), k);
    }
    lemma_inserts_keep_newest(series_of(m, k), records_for(prices, k));
}

/// Asking for at least as many observations as a series holds gives the whole
/// series, in its order; asking for none gives none.
pub proof fn lemma_last_n_ends(s: Seq<PriceData>, n: nat)
    ensures
        n >= s.len() ==> last_n(s, n) == s,
        last_n(s, 0) == Seq::<PriceData>::empty(),
        last_n(s, n).len() == (if n >= s.len() {
            s.len()
        } else {
            n
        }),
{
    assert(last_n(s, 0) =~= Seq::<PriceData>::empty());
}

/// A range query includes both of its bounds: right after an observation is
/// inserted, the query for its timestamp alone ends with that observation.
pub proof fn lemma_range_includes_bounds(s: Seq<PriceData>, r: PriceData)
    ensures
        in_range(push_bounded(s, r), r.timestamp, r.timestamp).len() > 0,
        in_range(push_bounded(s, r), r.timestamp, r.timestamp).last() == r,
{
    let kept = if s.len() >= CAPACITY {
        s.drop_first()
    } else {
        s
    };
    kept.lemma_filter_push(r, within(r.timestamp, r.timestamp));
}

/// Where no other observation of the series was made at that timestamp, the
/// range query for the timestamp of the observation just inserted returns
/// exactly that observation.
pub proof fn lemma_range_exact(s: Seq<PriceData>, r: PriceData)
    requires
        forall|i: int| 0 <= i < s.len() ==> s[i].timestamp != r.timestamp,
    ensures
        in_range(push_bounded(s, r), r.timestamp, r.timestamp) == seq![r],
{
    let kept = if s.len() >= CAPACITY {
        s.drop_first()
    } else {
        s
    };
    let p = within(r.timestamp, r.timestamp);
    kept.lemma_filter_push(r, p);
    assert forall|i: int| 0 <= i < kept.len() implies !p(#[trigger] kept[i]) by {
        if s.len() >= CAPACITY {
            assert(kept[i] == s[i + 1]);
        }
    }
    kept.lemma_all_neg_filter_empty(p);
    assert(kept.filter(p).push(r) =~= seq![r]);
}

/// An observation that was just inserted is the last price of its series.
pub proof fn lemma_insert_then_last(m: StoreView, k: SeriesKey, r: PriceData)
    ensures
        with_record(m, k, r).contains_key(k),
        with_record(m, k, r)[k].last() == r,
        last_n(series_of(with_record(m, k, r), k), 1) == seq![r],
{
    let s = with_record(m, k, r)[k];
    assert(last_n(s, 1) =~= seq![r]);
}

/// After observations are inserted for two pairs of source and asset into an
/// empty store, the sources of the store are exactly the two sources and its
/// assets exactly the two assets.
pub proof fn lemma_enumeration_after_two(k1: SeriesKey, r1: PriceData, k2: SeriesKey, r2: PriceData)
    ensures
        source_set(with_record(with_record(Map::empty(), k1, r1), k2, r2)) == set![k1.0, k2.0],
        asset_set(with_record(with_record(Map::empty(), k1, r1), k2, r2)) == set![k1.1, k2.1],
{
    let m0: StoreView = Map::empty();
    let m1 = with_record(m0, k1, r1);
    lemma_source_set_insert(m0, k1, push_bounded(series_of(m0, k1), r1));
    lemma_source_set_insert(m1, k2, push_bounded(series_of(m1, k2), r2));
    assert(source_set(m0) =~= Set::<u32>::empty());
    assert(asset_set(m0) =~= Set::<AssetView>::empty());
    assert(source_set(m0).insert(k1.0).insert(k2.0) =~= set![k1.0, k2.0]);
    assert(asset_set(m0).insert(k1.1).insert(k2.1) =~= set![k1.1, k2.1]);
}

/// A filtered delete without bounds leaves nothing of a series.
pub proof fn lemma_no_bounds_no_survivors(s: Seq<PriceData>)
    ensures
        survivors(s, None, None) == Seq::<PriceData>::empty(),
{
    s.lemma_all_neg_filter_empty(surviving(None, None));
    assert(survivors(s, None, None) =~= Seq::<PriceData>::empty());
}

/// A filtered delete with no source filter, no asset filter and no bounds
/// empties the store.
pub proof fn lemma_delete_everything(m: StoreView)
    ensures
        after_delete(m, Seq::empty(), Seq::empty(), None, None) == Map::<
            SeriesKey,
            Seq<PriceData>,
        >::empty(),
{
    let d = after_delete(m, Seq::empty(), Seq::empty(), None, None);
    assert forall|k: SeriesKey| !d.contains_key(k) by {
        if m.contains_key(k) {
            lemma_no_bounds_no_survivors(m[k]);
        }
    }
    assert(d =~= Map::<SeriesKey, Seq<PriceData>>::empty());
}

/// A filtered delete for one source, with no asset filter and no bounds,
/// removes every series of that source and nothing else: the series of every
/// other source are as they were, and the sources of the store are the ones it
/// had but for that one.
pub proof fn lemma_delete_one_source(m: StoreView, source: u32)
    ensures
        forall|k: SeriesKey|
            after_delete(m, seq![source], Seq::empty(), None, None).contains_key(k) <==> (
            m.contains_key(k) && k.0 != source),
        forall|k: SeriesKey|
            m.contains_key(k) && k.0 != source ==> after_delete(
                m,
                seq![source],
                Seq::empty(),
                None,
                None,
            )[k] == m[k],
        source_set(after_delete(m, seq![source], Seq::empty(), None, None)) == source_set(
            m,
        ).remove(source),
        asset_set(after_delete(m, seq![source], Seq::empty(), None, None)).subset_of(asset_set(m)),
{
    let srcs = seq![source];
    let none = Seq::<AssetView>::empty();
    let d = after_delete(m, srcs, none, None, None);
    assert forall|k: SeriesKey| selected(k, srcs, none) <==> k.0 == source by {
        if k.0 == source {
            assert(srcs[0] == k.0);
        }
    }
    assert forall|k: SeriesKey| d.contains_key(k) <==> (m.contains_key(k) && k.0 != source) by {
        if m.contains_key(k) {
            lemma_no_bounds_no_survivors(m[k]);
        }
    }
    assert forall|x: u32| source_set(d).contains(x) == source_set(m).remove(source).contains(
        x,
    ) by {
        if source_set(d).contains(x) {
            let a = choose|a: AssetView| d.contains_key((x, a));
            assert(m.contains_key((x, a)));
        }
        if source_set(m).contains(x) && x != source {
            let a = choose|a: AssetView| m.contains_key((x, a));
            assert(d.contains_key((x, a)));
        }
    }
    assert(source_set(d) =~= source_set(m).remove(source));
    assert forall|y: AssetView| asset_set(d).contains(y) implies asset_set(m).contains(y) by {
        let x = choose|x: u32| d.contains_key((x, y));
        assert(m.contains_key((x, y)));
    }
}

} // verus!
