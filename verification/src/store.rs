//! The time-series store that keeps one bounded series for every pair of
//! source and asset.
use vstd::prelude::*;
use crate::series::{in_range, last_n, first_at, push_bounded, survivors, Series, CAPACITY};
use crate::types::{Asset, AssetView, Price, PriceData};

verus! {

/// What names a series: the source that reports, and the asset that is priced.
pub type SeriesKey = (u32, AssetView);

/// What a store holds, as contracts speak of it: the series under each key.
/// A key that has no observation is not in the map.
pub type StoreView = Map<SeriesKey, Seq<PriceData>>;

/// The series under a key, empty where the key has none.
pub open spec fn series_of(m: StoreView, k: SeriesKey) -> Seq<PriceData> {
    if m.contains_key(k) {
        m[k]
    } else {
        Seq::empty()
    }
}

/// The store after one observation is inserted under `k`.
pub open spec fn with_record(m: StoreView, k: SeriesKey, r: PriceData) -> StoreView {
    m.insert(k, push_bounded(series_of(m, k), r))
}

/// The store after the observations of a batch are inserted one by one, in the
/// order of the batch.
pub open spec fn with_prices(m: StoreView, prices: Seq<Price>) -> StoreView
    decreases prices.len(),
{
    if prices.len() == 0 {
        m
    } else {
        with_record(
            with_prices(m, prices.drop_last()),
            prices.last().key(),
            prices.last().record(),
        )
    }
}

/// Whether a filtered delete with these filters looks at the series under `k`.
/// An empty list stands for every source, or every asset.
pub open spec fn selected(k: SeriesKey, sources: Seq<u32>, assets: Seq<AssetView>) -> bool {
    &&& (sources.len() == 0 || sources.contains(k.0))
    &&& (assets.len() == 0 || assets.contains(k.1))
}

/// The store after a filtered delete: a series that the filters select keeps
/// its [`survivors`], and leaves the store if none is left; every other series
/// stays as it is.
pub open spec fn after_delete(
    m: StoreView,
    sources: Seq<u32>,
    assets: Seq<AssetView>,
    start: Option<u64>,
    end: Option<u64>,
) -> StoreView {
    Map::new(
        |k: SeriesKey|
            m.contains_key(k) && (selected(k, sources, assets) ==> survivors(
                m[k],
                start,
                end,
            ).len() > 0),
        |k: SeriesKey|
            if selected(k, sources, assets) {
                survivors(m[k], start, end)
            } else {
                m[k]
            },
    )
}

/// The sources that have a series in the store.
pub open spec fn source_set(m: StoreView) -> Set<u32> {
    Set::new(|s: u32| exists|a: AssetView| m.contains_key((s, a)))
}

/// The assets that have a series in the store.
pub open spec fn asset_set(m: StoreView) -> Set<AssetView> {
    Set::new(|a: AssetView| exists|s: u32| m.contains_key((s, a)))
}

/// Whether `n` occurs in `vec`.
pub fn is_u32_in_vec(n: u32, vec: &Vec<u32>) -> (r: bool)
    ensures
        r == vec@.contains(n),
{
    let mut i: usize = 0;
    while i < vec.len()
        invariant
            i <= vec@.len(),
            forall|j: int| 0 <= j < i ==> vec@[j] != n,
        decreases vec@.len() - i,
    {
        if vec[i] == n {
            return true;
        }
        i += 1;
    }
    false
}

/// Whether `asset` occurs in `vec`.
pub fn is_asset_in_vec(asset: &Asset, vec: &Vec<Asset>) -> (r: bool)
    ensures
        r == vec.deep_view().contains(asset@),
{
    let mut i: usize = 0;
    while i < vec.len()
        invariant
            i <= vec@.len(),
            forall|j: int| 0 <= j < i ==> vec.deep_view()[j] != asset@,
        decreases vec@.len() - i,
    {
        if vec[i] == *asset {
            assert(vec.deep_view()[i as int] == asset@);
            return true;
        }
        i += 1;
    }
    false
}

/// Every series in the store holds at least one observation and at most
/// [`CAPACITY`].
pub open spec fn bounded(m: StoreView) -> bool {
    forall|k: SeriesKey| #[trigger] m.contains_key(k) ==> 0 < m[k].len() <= CAPACITY
}

struct Entry {
    source: u32,
    asset: Asset,
    series: Series,
}

spec fn key_of(e: Entry) -> SeriesKey {
    (e.source, e.asset@)
}

spec fn distinct_keys(es: Seq<Entry>) -> bool {
    forall|i: int, j: int| 0 <= i < j < es.len() ==> key_of(es[i]) != key_of(es[j])
}

spec fn all_bounded(es: Seq<Entry>) -> bool {
    forall|i: int| 0 <= i < es.len() ==> 0 < (#[trigger] es[i]).series@.len() <= CAPACITY
}

spec fn model(es: Seq<Entry>) -> StoreView
    decreases es.len(),
{
    if es.len() == 0 {
        Map::empty()
    } else {
        model(es.drop_last()).insert(key_of(es.last()), es.last().series@)
    }
}

proof fn lemma_model_push(es: Seq<Entry>, e: Entry)
    ensures
        model(es.push(e)) == model(es).insert(key_of(e), e.series@),
{
    assert(es.push(e).drop_last() =~= es);
}

proof fn lemma_model_keys(es: Seq<Entry>, k: SeriesKey)
    ensures
        model(es).contains_key(k) <==> exists|i: int| 0 <= i < es.len() && key_of(es[i]) == k,
    decreases es.len(),
{
    if es.len() > 0 {
        lemma_model_keys(es.drop_last(), k);
        if model(es).contains_key(k) {
            if key_of(es.last()) == k {
                assert(key_of(es[es.len() - 1]) == k);
            } else {
                let i = choose|i: int| 0 <= i < es.drop_last().len() && key_of(es.drop_last()[i]) == k;
                assert(key_of(es[i]) == k);
            }
        }
        if exists|i: int| 0 <= i < es.len() && key_of(es[i]) == k {
            let i = choose|i: int| 0 <= i < es.len() && key_of(es[i]) == k;
            if i < es.len() - 1 {
                assert(key_of(es.drop_last()[i]) == k);
            }
        }
    }
}

proof fn lemma_model_at(es: Seq<Entry>, i: int)
    requires
        distinct_keys(es),
        0 <= i < es.len(),
    ensures
        model(es).contains_key(key_of(es[i])),
        model(es)[key_of(es[i])] == es[i].series@,
    decreases es.len(),
{
    if i < es.len() - 1 {
        assert(distinct_keys(es.drop_last())) by {
            assert forall|a: int, b: int| 0 <= a < b < es.drop_last().len() implies key_of(
                es.drop_last()[a],
            ) != key_of(es.drop_last()[b]) by {
                assert(key_of(es[a]) != key_of(es[b]));
            }
        }
        lemma_model_at(es.drop_last(), i);
        assert(key_of(es[i]) != key_of(es[es.len() - 1]));
    }
}

proof fn lemma_model_absent(es: Seq<Entry>, k: SeriesKey)
    requires
        forall|i: int| 0 <= i < es.len() ==> key_of(#[trigger] es[i]) != k,
    ensures
        !model(es).contains_key(k),
{
    lemma_model_keys(es, k);
}

proof fn lemma_model_update(es: Seq<Entry>, i: int, e: Entry)
    requires
        distinct_keys(es),
        0 <= i < es.len(),
        key_of(e) == key_of(es[i]),
    ensures
        model(es.update(i, e)) == model(es).insert(key_of(e), e.series@),
        distinct_keys(es.update(i, e)),
    decreases es.len(),
{
    let k = key_of(e);
    let dl = es.drop_last();
    if i == es.len() - 1 {
        assert(es.update(i, e).drop_last() =~= dl);
        assert(model(dl).insert(k, es[i].series@).insert(k, e.series@) =~= model(dl).insert(
            k,
            e.series@,
        ));
    } else {
        assert(distinct_keys(dl)) by {
            assert forall|a: int, b: int| 0 <= a < b < dl.len() implies key_of(dl[a]) != key_of(
                dl[b],
            ) by {
                assert(key_of(es[a]) != key_of(es[b]));
            }
        }
        lemma_model_update(dl, i, e);
        assert(es.update(i, e).drop_last() =~= dl.update(i, e));
        let l = es.last();
        assert(key_of(es[i]) != key_of(es[es.len() - 1]));
        assert(model(dl).insert(k, e.series@).insert(key_of(l), l.series@) =~= model(dl).insert(
            key_of(l),
            l.series@,
        ).insert(k, e.series@));
    }
    assert forall|a: int, b: int| 0 <= a < b < es.len() implies key_of(es.update(i, e)[a])
        != key_of(es.update(i, e)[b]) by {
        assert(key_of(es[a]) != key_of(es[b]));
    }
}

proof fn lemma_model_bounded(es: Seq<Entry>)
    requires
        distinct_keys(es),
        all_bounded(es),
    ensures
        bounded(model(es)),
{
    assert forall|k: SeriesKey| #[trigger] model(es).contains_key(k) implies 0 < model(es)[k].len()
        <= CAPACITY by {
        lemma_model_keys(es, k);
        let i = choose|i: int| 0 <= i < es.len() && key_of(es[i]) == k;
        lemma_model_at(es, i);
    }
}

proof fn lemma_take_distinct(es: Seq<Entry>, i: int)
    requires
        distinct_keys(es),
        0 <= i < es.len(),
    ensures
        distinct_keys(es.take(i)),
        !model(es.take(i)).contains_key(key_of(es[i])),
        model(es.take(i + 1)) == model(es.take(i)).insert(key_of(es[i]), es[i].series@),
{
    assert forall|a: int, b: int| 0 <= a < b < es.take(i).len() implies key_of(es.take(i)[a])
        != key_of(es.take(i)[b]) by {
        assert(key_of(es[a]) != key_of(es[b]));
    }
    assert forall|a: int| 0 <= a < es.take(i).len() implies key_of(#[trigger] es.take(i)[a])
        != key_of(es[i]) by {
        assert(key_of(es[a]) != key_of(es[i]));
    }
    lemma_model_absent(es.take(i), key_of(es[i]));
    es.lemma_take_succ_push(i);
    lemma_model_push(es.take(i), es[i]);
}

proof fn lemma_push_distinct(es: Seq<Entry>, e: Entry)
    requires
        distinct_keys(es),
        !model(es).contains_key(key_of(e)),
    ensures
        distinct_keys(es.push(e)),
{
    assert forall|a: int, b: int| 0 <= a < b < es.push(e).len() implies key_of(es.push(e)[a])
        != key_of(es.push(e)[b]) by {
        if b == es.len() {
            lemma_model_keys(es, key_of(e));
            assert(key_of(es[a]) != key_of(e));
        } else {
            assert(key_of(es[a]) != key_of(es[b]));
        }
    }
}

proof fn lemma_after_delete_insert(
    m: StoreView,
    k: SeriesKey,
    s: Seq<PriceData>,
    sources: Seq<u32>,
    assets: Seq<AssetView>,
    start: Option<u64>,
    end: Option<u64>,
)
    requires
        !m.contains_key(k),
    ensures
        after_delete(m.insert(k, s), sources, assets, start, end) == (if !selected(
            k,
            sources,
            assets,
        ) {
            after_delete(m, sources, assets, start, end).insert(k, s)
        } else if survivors(s, start, end).len() > 0 {
            after_delete(m, sources, assets, start, end).insert(k, survivors(s, start, end))
        } else {
            after_delete(m, sources, assets, start, end)
        }),
        !after_delete(m, sources, assets, start, end).contains_key(k),
{
    let lhs = after_delete(m.insert(k, s), sources, assets, start, end);
    let base = after_delete(m, sources, assets, start, end);
    if !selected(k, sources, assets) {
        assert(lhs =~= base.insert(k, s));
    } else if survivors(s, start, end).len() > 0 {
        assert(lhs =~= base.insert(k, survivors(s, start, end)));
    } else {
        assert(lhs =~= base);
    }
}

/// Writing a series under a key adds the key's source to the sources of the
/// store and its asset to the assets, and changes neither set otherwise.
pub proof fn lemma_source_set_insert(m: StoreView, k: SeriesKey, s: Seq<PriceData>)
    ensures
        source_set(m.insert(k, s)) == source_set(m).insert(k.0),
        asset_set(m.insert(k, s)) == asset_set(m).insert(k.1),
{
    let m2 = m.insert(k, s);
    assert forall|x: u32| source_set(m2).contains(x) == source_set(m).insert(k.0).contains(
        x,
    ) by {
        if source_set(m2).contains(x) {
            let a = choose|a: AssetView| m2.contains_key((x, a));
            if (x, a) != k {
                assert(m.contains_key((x, a)));
            }
        }
        if source_set(m).contains(x) {
            let a = choose|a: AssetView| m.contains_key((x, a));
            assert(m2.contains_key((x, a)));
        }
        if x == k.0 {
            assert(m2.contains_key((x, k.1)));
        }
    }
    assert(source_set(m2) =~= source_set(m).insert(k.0));
    assert forall|y: AssetView| asset_set(m2).contains(y) == asset_set(m).insert(k.1).contains(
        y,
    ) by {
        if asset_set(m2).contains(y) {
            let x = choose|x: u32| m2.contains_key((x, y));
            if (x, y) != k {
                assert(m.contains_key((x, y)));
            }
        }
        if asset_set(m).contains(y) {
            let x = choose|x: u32| m.contains_key((x, y));
            assert(m2.contains_key((x, y)));
        }
        if y == k.1 {
            assert(m2.contains_key((k.0, y)));
        }
    }
    assert(asset_set(m2) =~= asset_set(m).insert(k.1));
}

/// The time-series store: for every pair of source and asset that has been
/// written to, the most recent observations, oldest first.
pub struct PriceStore {
    entries: Vec<Entry>,
}

impl View for PriceStore {
    type V = StoreView;

    closed spec fn view(&self) -> StoreView {
        model(self.entries@)
    }
}

impl PriceStore {
    #[verifier::type_invariant]
    closed spec fn wf(&self) -> bool {
        &&& distinct_keys(self.entries@)
        &&& all_bounded(self.entries@)
    }

    /// The store that holds nothing.
    pub fn new() -> (r: Self)
        ensures
            r@ == Map::<SeriesKey, Seq<PriceData>>::empty(),
    {
        PriceStore { entries: Vec::new() }
    }

    fn find(entries: &Vec<Entry>, source: u32, asset: &Asset) -> (r: Option<usize>)
        ensures
            match r {
                Some(i) => i < entries@.len() && key_of(entries@[i as int]) == (source, asset@),
                None => forall|i: int|
                    0 <= i < entries@.len() ==> key_of(#[trigger] entries@[i]) != (source, asset@),
            },
    {
        let mut i: usize = 0;
        while i < entries.len()
            invariant
                i <= entries@.len(),
                forall|j: int| 0 <= j < i ==> key_of(#[trigger] entries@[j]) != (source, asset@),
            decreases entries@.len() - i,
        {
            if entries[i].source == source && entries[i].asset == *asset {
                return Some(i);
            }
            i += 1;
        }
        None
    }

    /// The observations of `asset` by `source` whose timestamp lies in
    /// `[start, end]`, both ends included, oldest first. Empty where the pair
    /// has no series.
    pub fn range_query(&self, source: u32, asset: &Asset, start: u64, end: u64) -> (out: Vec<
        PriceData,
    >)
        ensures
            out@ == in_range(series_of(self@, (source, asset@)), start, end),
    {
        proof {
            use_type_invariant(self);
        }
        match Self::find(&self.entries, source, asset) {
            Some(i) => {
                proof {
                    lemma_model_at(self.entries@, i as int);
                }
                self.entries[i].series.range_query(start, end)
            },
            None => {
                proof {
                    lemma_model_absent(self.entries@, (source, asset@));
                    reveal(Seq::filter);
                }
                Vec::new()
            },
        }
    }

    /// The last `n` observations of `asset` by `source`, oldest first: the
    /// whole series where it holds no more than `n`. Empty where the pair has
    /// no series.
    pub fn last_n_query(&self, source: u32, asset: &Asset, n: u32) -> (out: Vec<PriceData>)
        ensures
            out@ == last_n(series_of(self@, (source, asset@)), n as nat),
            n == 0 ==> out@.len() == 0,
            n >= series_of(self@, (source, asset@)).len() ==> out@ == series_of(
                self@,
                (source, asset@),
            ),
            out@.len() <= CAPACITY,
            bounded(self@),
    {
        proof {
            use_type_invariant(self);
            lemma_model_bounded(self.entries@);
        }
        match Self::find(&self.entries, source, asset) {
            Some(i) => {
                proof {
                    lemma_model_at(self.entries@, i as int);
                }
                self.entries[i].series.last_n_query(n)
            },
            None => {
                proof {
                    lemma_model_absent(self.entries@, (source, asset@));
                }
                Vec::new()
            },
        }
    }

    /// The newest observation of `asset` by `source`, if the pair has a series.
    pub fn last_price(&self, source: u32, asset: &Asset) -> (r: Option<PriceData>)
        ensures
            r == (if self@.contains_key((source, asset@)) {
                Some(self@[(source, asset@)].last())
            } else {
                None
            }),
    {
        proof {
            use_type_invariant(self);
        }
        match Self::find(&self.entries, source, asset) {
            Some(i) => {
                proof {
                    lemma_model_at(self.entries@, i as int);
                }
                self.entries[i].series.last()
            },
            None => {
                proof {
                    lemma_model_absent(self.entries@, (source, asset@));
                }
                None
            },
        }
    }

    /// The oldest retained observation of `asset` by `source` that was made at
    /// exactly `timestamp`.
    pub fn price_at(&self, source: u32, asset: &Asset, timestamp: u64) -> (r: Option<PriceData>)
        ensures
            r == first_at(series_of(self@, (source, asset@)), timestamp),
    {
        proof {
            use_type_invariant(self);
        }
        match Self::find(&self.entries, source, asset) {
            Some(i) => {
                proof {
                    lemma_model_at(self.entries@, i as int);
                }
                self.entries[i].series.price_at(timestamp)
            },
            None => {
                proof {
                    lemma_model_absent(self.entries@, (source, asset@));
                }
                None
            },
        }
    }

    /// The sources that have a series, each once.
    pub fn sources(&self) -> (out: Vec<u32>)
        ensures
            out@.no_duplicates(),
            out@.to_set() == source_set(self@),
    {
        let mut out: Vec<u32> = Vec::new();
        let mut i: usize = 0;
        proof {
            assert(out@.to_set() =~= source_set(model(self.entries@.take(0))));
        }
        while i < self.entries.len()
            invariant
                i <= self.entries@.len(),
                out@.no_duplicates(),
                out@.to_set() == source_set(model(self.entries@.take(i as int))),
            decreases self.entries@.len() - i,
        {
            let source = self.entries[i].source;
            proof {
                let es = self.entries@;
                es.lemma_take_succ_push(i as int);
                lemma_model_push(es.take(i as int), es[i as int]);
                lemma_source_set_insert(
                    model(es.take(i as int)),
                    key_of(es[i as int]),
                    es[i as int].series@,
                );
                out@.lemma_push_to_set_commute(source);
            }
            if !is_u32_in_vec(source, &out) {
                out.push(source);
            } else {
                assert(out@.to_set().insert(source) =~= out@.to_set());
            }
            i += 1;
        }
        proof {
            self.entries@.lemma_take_len();
        }
        out
    }

    /// The assets that have a series, each once.
    pub fn assets(&self) -> (out: Vec<Asset>)
        ensures
            out.deep_view().no_duplicates(),
            out.deep_view().to_set() == asset_set(self@),
    {
        let mut out: Vec<Asset> = Vec::new();
        let mut i: usize = 0;
        proof {
            assert(out.deep_view().to_set() =~= asset_set(model(self.entries@.take(0))));
        }
        while i < self.entries.len()
            invariant
                i <= self.entries@.len(),
                out.deep_view().no_duplicates(),
                out.deep_view().to_set() == asset_set(model(self.entries@.take(i as int))),
            decreases self.entries@.len() - i,
        {
            let ghost before = out.deep_view();
            proof {
                let es = self.entries@;
                es.lemma_take_succ_push(i as int);
                lemma_model_push(es.take(i as int), es[i as int]);
                lemma_source_set_insert(
                    model(es.take(i as int)),
                    key_of(es[i as int]),
                    es[i as int].series@,
                );
                before.lemma_push_to_set_commute(es[i as int].asset@);
            }
            if !is_asset_in_vec(&self.entries[i].asset, &out) {
                let asset = self.entries[i].asset.clone();
                out.push(asset);
                assert(out.deep_view() =~= before.push(asset@));
            } else {
                assert(before.to_set().insert(self.entries@[i as int].asset@) =~= before.to_set());
            }
            i += 1;
        }
        proof {
            self.entries@.lemma_take_len();
        }
        out
    }

    /// Records one observation of `asset` by `source`. The series is created if
    /// this is its first observation; a series that is full gives up its oldest
    /// observation first.
    pub fn insert(&mut self, source: u32, asset: Asset, price: i128, timestamp: u64)
        ensures
            final(self)@ == with_record(
                old(self)@,
                (source, asset@),
                PriceData { price, timestamp },
            ),
            bounded(final(self)@),
    {
        proof {
            use_type_invariant(&*self);
        }
        let r = PriceData::new(price, timestamp);
        let ghost k = (source, asset@);
        let mut entries: Vec<Entry> = Vec::new();
        std::mem::swap(&mut entries, &mut self.entries);
        let ghost es = entries@;
        match Self::find(&entries, source, &asset) {
            Some(i) => {
                let mut e = entries.remove(i);
                e.series.insert(r);
                proof {
                    lemma_model_at(es, i as int);
                    lemma_model_update(es, i as int, e);
                }
                entries.insert(i, e);
                assert(entries@ =~= es.update(i as int, e));
            },
            None => {
                let mut series = Series::new();
                series.insert(r);
                let e = Entry { source, asset, series };
                proof {
                    lemma_model_absent(es, k);
                    lemma_model_push(es, e);
                }
                entries.push(e);
            },
        }
        proof {
            lemma_model_bounded(entries@);
        }
        self.entries = entries;
    }
}

impl PriceStore {
    /// Records a batch of observations, one by one in the order of the batch.
    /// Observations of one call that go to the same series can push each other
    /// out once the series is full.
    pub fn insert_bulk(&mut self, prices: &Vec<Price>)
        ensures
            final(self)@ == with_prices(old(self)@, prices@),
            bounded(final(self)@),
    {
        let mut i: usize = 0;
        proof {
            use_type_invariant(&*self);
            lemma_model_bounded(self.entries@);
        }
        while i < prices.len()
            invariant
                i <= prices@.len(),
                self@ == with_prices(old(self)@, prices@.take(i as int)),
                bounded(self@),
            decreases prices@.len() - i,
        {
            let p = &prices[i];
            proof {
                prices@.lemma_take_succ_push(i as int);
                assert(prices@.take(i + 1).drop_last() =~= prices@.take(i as int));
            }
            self.insert(p.source, p.asset.clone(), p.price, p.timestamp);
            i += 1;
        }
        proof {
            prices@.lemma_take_len();
        }
    }

    /// Deletes observations by filter. `sources` and `assets` choose the series
    /// to look at, an empty list standing for all of them. In a chosen series an
    /// observation stays only where `start` is given and lies strictly below its
    /// timestamp, or `end` is given and lies strictly above it; so with neither
    /// bound every chosen series is deleted whole. A series that loses all its
    /// observations leaves the store; a series that is not chosen is untouched.
    pub fn filtered_delete(
        &mut self,
        sources: &Vec<u32>,
        assets: &Vec<Asset>,
        start: Option<u64>,
        end: Option<u64>,
    )
        ensures
            final(self)@ == after_delete(old(self)@, sources@, assets.deep_view(), start, end),
            bounded(final(self)@),
    {
        proof {
            use_type_invariant(&*self);
        }
        let mut entries: Vec<Entry> = Vec::new();
        std::mem::swap(&mut entries, &mut self.entries);
        let ghost es = entries@;
        let mut kept: Vec<Entry> = Vec::new();
        let mut i: usize = 0;
        proof {
            assert(model(kept@) =~= after_delete(
                model(es.take(0)),
                sources@,
                assets.deep_view(),
                start,
                end,
            ));
        }
        while i < entries.len()
            invariant
                entries@ == es,
                distinct_keys(es),
                all_bounded(es),
                i <= es.len(),
                distinct_keys(kept@),
                all_bounded(kept@),
                model(kept@) == after_delete(
                    model(es.take(i as int)),
                    sources@,
                    assets.deep_view(),
                    start,
                    end,
                ),
            decreases es.len() - i,
        {
            let e = &entries[i];
            let ghost k = key_of(es[i as int]);
            proof {
                lemma_take_distinct(es, i as int);
                lemma_after_delete_insert(
                    model(es.take(i as int)),
                    k,
                    es[i as int].series@,
                    sources@,
                    assets.deep_view(),
                    start,
                    end,
                );
            }
            let source_chosen = sources.len() == 0 || is_u32_in_vec(e.source, sources);
            let asset_chosen = assets.len() == 0 || is_asset_in_vec(&e.asset, assets);
            proof {
                assert(assets.deep_view().len() == assets@.len());
                assert((source_chosen && asset_chosen) == selected(
                    k,
                    sources@,
                    assets.deep_view(),
                ));
            }
            let mut series = e.series.clone();
            if source_chosen && asset_chosen {
                series.retain_survivors(start, end);
            }
            if !series.is_empty() {
                let n = Entry { source: e.source, asset: e.asset.clone(), series };
                proof {
                    lemma_push_distinct(kept@, n);
                    lemma_model_push(kept@, n);
                    assert(all_bounded(kept@.push(n))) by {
                        assert forall|a: int| 0 <= a < kept@.push(n).len() implies 0 < (
                        #[trigger] kept@.push(n)[a]).series@.len() <= CAPACITY by {
                            if a < kept@.len() {
                                assert(kept@.push(n)[a] == kept@[a]);
                            }
                        }
                    }
                }
                kept.push(n);
            }
            i += 1;
        }
        proof {
            es.lemma_take_len();
            lemma_model_bounded(kept@);
        }
        self.entries = kept;
    }
}

} // verus!
