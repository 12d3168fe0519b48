//! The oracle that keeps every observation under a key of its own.
//!
//! Nothing is rewritten as a whole here: a write touches the key of the
//! observation and the small registries of the instance, and a read probes
//! single keys. There is no index by time, so a query for the latest prices
//! starts at the newest timestamp written and steps back by the resolution.
//! It finds an observation only where one was written on exactly such a step.
use std::collections::HashMap;
use vstd::prelude::*;
use vstd::std_specs::hash::group_hash_axioms;
use crate::contract::{check_admin, gate};
use crate::metadata::{self, MetadataStore, MetadataView};
use crate::store::{is_asset_in_vec, is_u32_in_vec};
use crate::types::{Address, Asset, AssetView, InternalAsset, InternalPrice, OracleError, PriceData};
use crate::utils::{
    clone_assets, distinct_assets, distinct_u32, lemma_push_contains, lemma_push_no_duplicates,
    lemma_take_lacks, number_of, price_data_key, to_price_data_key, with_member, AssetTable,
    MAX_ASSETS,
};

verus! {

/// The most observations that one query for the latest prices probes for.
pub const MAX_RECORDS: u32 = 20;

/// What a [`LightOracle`] holds, as contracts speak of it.
pub struct LightView {
    pub metadata: MetadataView,
    /// The highest timestamp of the last batch written.
    pub last_timestamp: u64,
    /// The registry of sources, in the order they were first seen.
    pub sources: Seq<u32>,
    /// The registry of assets, in the order they were first seen.
    pub assets: Seq<AssetView>,
    /// The asset table: the asset at place `n` has the number `n`.
    pub numbers: Seq<AssetView>,
    /// The observations, each under its key.
    pub records: Map<u128, PriceData>,
}

/// What is kept under a key, if anything.
pub open spec fn recorded(records: Map<u128, PriceData>, key: u128) -> Option<PriceData> {
    if records.contains_key(key) {
        Some(records[key])
    } else {
        None
    }
}

/// What a walk back in time collects: the observations of `source` for the
/// asset numbered `number`, found at `timestamp`, then one `resolution`
/// earlier, and so on for `steps` probes, newest first. A probe that finds
/// nothing does not end the walk; the walk ends early only where the next
/// step would go below zero.
pub open spec fn walk(
    records: Map<u128, PriceData>,
    source: u32,
    number: u32,
    timestamp: u64,
    resolution: u64,
    steps: nat,
) -> Seq<PriceData>
    decreases steps,
{
    if steps == 0 {
        Seq::empty()
    } else {
        let key = price_data_key(source, number, timestamp);
        let here = if records.contains_key(key) {
            seq![records[key]]
        } else {
            Seq::empty()
        };
        if timestamp < resolution {
            here
        } else {
            here + walk(
                records,
                source,
                number,
                (timestamp - resolution) as u64,
                resolution,
                (steps - 1) as nat,
            )
        }
    }
}

/// The keys that a walk probes, in the order it probes them.
pub open spec fn walk_keys(
    source: u32,
    number: u32,
    timestamp: u64,
    resolution: u64,
    steps: nat,
) -> Seq<u128>
    decreases steps,
{
    if steps == 0 {
        Seq::empty()
    } else if timestamp < resolution {
        seq![price_data_key(source, number, timestamp)]
    } else {
        seq![price_data_key(source, number, timestamp)] + walk_keys(
            source,
            number,
            (timestamp - resolution) as u64,
            resolution,
            (steps - 1) as nat,
        )
    }
}

/// What is kept under the keys of a list, in the order of the list; a key that
/// holds nothing adds nothing.
pub open spec fn found(records: Map<u128, PriceData>, keys: Seq<u128>) -> Seq<PriceData>
    decreases keys.len(),
{
    if keys.len() == 0 {
        Seq::empty()
    } else {
        let here = if records.contains_key(keys[0]) {
            seq![records[keys[0]]]
        } else {
            Seq::empty()
        };
        here + found(records, keys.drop_first())
    }
}

/// A walk collects exactly what is kept under the keys that it probes.
pub proof fn lemma_walk_finds_its_keys(
    records: Map<u128, PriceData>,
    source: u32,
    number: u32,
    timestamp: u64,
    resolution: u64,
    steps: nat,
)
    ensures
        walk(records, source, number, timestamp, resolution, steps) == found(
            records,
            walk_keys(source, number, timestamp, resolution, steps),
        ),
        walk_keys(source, number, timestamp, resolution, steps).len() <= steps,
    decreases steps,
{
    if steps > 0 {
        let key = price_data_key(source, number, timestamp);
        let keys = walk_keys(source, number, timestamp, resolution, steps);
        assert(keys[0] == key);
        if timestamp < resolution {
            assert(keys.drop_first() =~= Seq::<u128>::empty());
            assert(found(records, keys.drop_first()) =~= Seq::<PriceData>::empty());
            assert(walk(records, source, number, timestamp, resolution, steps) =~= found(
                records,
                keys,
            ));
        } else {
            let earlier = (timestamp - resolution) as u64;
            lemma_walk_finds_its_keys(
                records,
                source,
                number,
                earlier,
                resolution,
                (steps - 1) as nat,
            );
            assert(keys.drop_first() =~= walk_keys(
                source,
                number,
                earlier,
                resolution,
                (steps - 1) as nat,
            ));
        }
    }
}

/// How many probes a query for `records` observations makes.
pub open spec fn probes(records: u32) -> nat {
    if records > MAX_RECORDS {
        MAX_RECORDS as nat
    } else {
        records as nat
    }
}

/// What a query for the latest `records` observations finds: nothing is asked
/// of an instance without a resolution; a query for no observation probes
/// nothing; otherwise the asset must have a number, and the walk starts at the
/// newest timestamp.
pub open spec fn latest(v: LightView, source: u32, asset: AssetView, records: u32) -> Result<
    Seq<PriceData>,
    OracleError,
> {
    if v.metadata.resolution is None {
        Err(OracleError::NotInitialized)
    } else if records == 0 {
        Ok(Seq::empty())
    } else {
        match number_of(v.numbers, asset) {
            None => Err(OracleError::UnknownAsset),
            Some(n) => Ok(
                walk(
                    v.records,
                    source,
                    n,
                    v.last_timestamp,
                    v.metadata.resolution->0 as u64,
                    probes(records),
                ),
            ),
        }
    }
}

/// The instance after one observation of a batch is written: its asset gets a
/// number if it has none, asset and source enter the registries if they are
/// not in them, and the observation goes under its key, in place of what was
/// there. The number that the observation carries is not read: the key is
/// made with the number from the table.
pub open spec fn with_price(v: LightView, p: InternalPrice) -> LightView {
    let numbers = with_member(v.numbers, p.asset@);
    LightView {
        numbers,
        assets: with_member(v.assets, p.asset@),
        sources: with_member(v.sources, p.source),
        records: v.records.insert(
            price_data_key(p.source, numbers.index_of(p.asset@) as u32, p.timestamp),
            p.record(),
        ),
        ..v
    }
}

/// An observation that was just written is found again under its source, its
/// asset and its timestamp, and its asset and source are registered.
pub proof fn lemma_written_price_is_found(v: LightView, p: InternalPrice)
    ensures
        number_of(with_price(v, p).numbers, p.asset@) is Some,
        recorded(
            with_price(v, p).records,
            price_data_key(p.source, number_of(with_price(v, p).numbers, p.asset@)->0, p.timestamp),
        ) == Some(p.record()),
        with_price(v, p).assets.contains(p.asset@),
        with_price(v, p).sources.contains(p.source),
{
    lemma_push_contains(v.numbers, p.asset@, p.asset@);
    lemma_push_contains(v.assets, p.asset@, p.asset@);
    lemma_push_contains(v.sources, p.source, p.source);
}

/// The instance after the observations of a batch are written in order.
pub open spec fn with_prices(v: LightView, prices: Seq<InternalPrice>) -> LightView
    decreases prices.len(),
{
    if prices.len() == 0 {
        v
    } else {
        with_price(with_prices(v, prices.drop_last()), prices.last())
    }
}

/// The records after the observations of a batch are written in order, each
/// under the key made with the number that it carries.
pub open spec fn with_prices_light(records: Map<u128, PriceData>, prices: Seq<InternalPrice>) -> Map<
    u128,
    PriceData,
>
    decreases prices.len(),
{
    if prices.len() == 0 {
        records
    } else {
        let p = prices.last();
        with_prices_light(records, prices.drop_last()).insert(
            price_data_key(p.source, p.asset_u32, p.timestamp),
            p.record(),
        )
    }
}

/// The highest timestamp of a batch; 0 for the empty batch.
pub open spec fn highest_timestamp(prices: Seq<InternalPrice>) -> u64
    decreases prices.len(),
{
    if prices.len() == 0 {
        0
    } else {
        let rest = highest_timestamp(prices.drop_last());
        if prices.last().timestamp > rest {
            prices.last().timestamp
        } else {
            rest
        }
    }
}

/// The test that keeps what is not in `given`.
pub open spec fn not_in<T>(given: Seq<T>) -> spec_fn(T) -> bool {
    |x: T| !given.contains(x)
}

/// Whether a batch is written: only for the administrator, and only where the
/// asset table could number every asset of the batch even if all were new.
pub open spec fn batch_gate(v: LightView, caller: Seq<char>, batch: nat) -> Result<
    (),
    OracleError,
> {
    match gate(v.metadata, caller) {
        Err(e) => Err(e),
        Ok(()) => if v.numbers.len() + batch > MAX_ASSETS {
            Err(OracleError::TooManyAssets)
        } else {
            Ok(())
        },
    }
}

/// Walks back from `timestamp` as [`walk`] says, over the observations given.
pub fn collect_walk(
    records: &HashMap<u128, PriceData>,
    source: u32,
    number: u32,
    timestamp: u64,
    resolution: u64,
    steps: u32,
) -> (out: Vec<PriceData>)
    ensures
        out@ == walk(records@, source, number, timestamp, resolution, steps as nat),
{
    broadcast use group_hash_axioms;

    let mut out: Vec<PriceData> = Vec::new();
    let mut t: u64 = timestamp;
    let mut left: u32 = steps;
    while left > 0
        invariant
            out@ + walk(records@, source, number, t, resolution, left as nat) == walk(
                records@,
                source,
                number,
                timestamp,
                resolution,
                steps as nat,
            ),
        decreases left,
    {
        let key = to_price_data_key(source, number, t);
        let ghost before = out@;
        let ghost here = if records@.contains_key(key) {
            seq![records@[key]]
        } else {
            Seq::<PriceData>::empty()
        };
        match records.get(&key) {
            Some(r) => {
                out.push(*r);
            },
            None => {},
        }
        assert(out@ =~= before + here);
        if t < resolution {
            proof {
                assert(walk(records@, source, number, t, resolution, left as nat) == here);
                assert(before + here + walk(records@, source, number, t, resolution, 0) =~= before
                    + here);
            }
            left = 0;
        } else {
            proof {
                let rest = walk(
                    records@,
                    source,
                    number,
                    (t - resolution) as u64,
                    resolution,
                    (left - 1) as nat,
                );
                assert(before + (here + rest) =~= (before + here) + rest);
            }
            t = t - resolution;
            left = left - 1;
        }
    }
    proof {
        assert(out@ + Seq::<PriceData>::empty() =~= out@);
    }
    out
}

/// The keys that a walk back from `timestamp` probes, in order: for a caller
/// that keeps the observations elsewhere and has to fetch them key by key.
pub fn probe_keys(source: u32, number: u32, timestamp: u64, resolution: u64, steps: u32) -> (out:
    Vec<u128>)
    ensures
        out@ == walk_keys(source, number, timestamp, resolution, steps as nat),
{
    let mut out: Vec<u128> = Vec::new();
    let mut t: u64 = timestamp;
    let mut left: u32 = steps;
    while left > 0
        invariant
            out@ + walk_keys(source, number, t, resolution, left as nat) == walk_keys(
                source,
                number,
                timestamp,
                resolution,
                steps as nat,
            ),
        decreases left,
    {
        let ghost before = out@;
        let key = to_price_data_key(source, number, t);
        out.push(key);
        if t < resolution {
            proof {
                assert(before.push(key) + walk_keys(source, number, t, resolution, 0)
                    =~= before + seq![key]);
            }
            left = 0;
        } else {
            proof {
                let rest = walk_keys(
                    source,
                    number,
                    (t - resolution) as u64,
                    resolution,
                    (left - 1) as nat,
                );
                assert(before + (seq![key] + rest) =~= before.push(key) + rest);
            }
            t = t - resolution;
            left = left - 1;
        }
    }
    proof {
        assert(out@ + Seq::<u128>::empty() =~= out@);
    }
    out
}

/// One oracle instance of the kind that keeps each observation by itself.
pub struct LightOracle {
    metadata: MetadataStore,
    last_timestamp: u64,
    sources: Vec<u32>,
    assets: Vec<Asset>,
    numbers: AssetTable,
    records: HashMap<u128, PriceData>,
}

impl View for LightOracle {
    type V = LightView;

    closed spec fn view(&self) -> LightView {
        LightView {
            metadata: self.metadata@,
            last_timestamp: self.last_timestamp,
            sources: self.sources@,
            assets: self.assets.deep_view(),
            numbers: self.numbers@,
            records: self.records@,
        }
    }
}

/// The registries hold nothing twice, and every registered asset has a number.
pub open spec fn registries_valid(v: LightView) -> bool {
    &&& v.sources.no_duplicates()
    &&& v.assets.no_duplicates()
    &&& v.numbers.no_duplicates()
    &&& forall|a: AssetView| v.assets.contains(a) ==> v.numbers.contains(a)
}

impl LightOracle {
    #[verifier::type_invariant]
    closed spec fn wf(&self) -> bool {
        &&& self.sources@.no_duplicates()
        &&& self.assets.deep_view().no_duplicates()
        &&& forall|a: AssetView|
            self.assets.deep_view().contains(a) ==> self.numbers@.contains(a)
    }

    /// An instance as it is deployed: no metadata, nothing registered, nothing
    /// recorded.
    pub fn new() -> (r: Self)
        ensures
            r@ == (LightView {
                metadata: MetadataView { admin: None, base: None, decimals: None, resolution: None },
                last_timestamp: 0,
                sources: Seq::empty(),
                assets: Seq::empty(),
                numbers: Seq::empty(),
                records: Map::empty(),
            }),
    {
        let assets: Vec<Asset> = Vec::new();
        assert(assets.deep_view() =~= Seq::<AssetView>::empty());
        LightOracle {
            metadata: MetadataStore::new(),
            last_timestamp: 0,
            sources: Vec::new(),
            assets,
            numbers: AssetTable::new(),
            records: HashMap::new(),
        }
    }

    /// An instance put together from what was stored of it, with no
    /// observation loaded. `None` where the parts are not those of an instance:
    /// where a registry or the asset table holds something twice, a registered
    /// asset has no number, or the table is longer than [`MAX_ASSETS`].
    pub fn restore(
        metadata: MetadataStore,
        last_timestamp: u64,
        sources: Vec<u32>,
        assets: Vec<Asset>,
        numbers: Vec<Asset>,
    ) -> (r: Option<LightOracle>)
        ensures
            r is Some <==> registries_valid(
                LightView {
                    metadata: metadata@,
                    last_timestamp,
                    sources: sources@,
                    assets: assets.deep_view(),
                    numbers: numbers.deep_view(),
                    records: Map::empty(),
                },
            ) && numbers@.len() <= MAX_ASSETS,
            r is Some ==> r->0@ == (LightView {
                metadata: metadata@,
                last_timestamp,
                sources: sources@,
                assets: assets.deep_view(),
                numbers: numbers.deep_view(),
                records: Map::empty(),
            }),
    {
        if !distinct_u32(&sources) || !distinct_assets(&assets) {
            return None;
        }
        let table = match AssetTable::from_assets(numbers) {
            None => {
                return None;
            },
            Some(table) => table,
        };
        let mut i: usize = 0;
        while i < assets.len()
            invariant
                i <= assets@.len(),
                assets.deep_view().len() == assets@.len(),
                table@ == numbers.deep_view(),
                forall|j: int| 0 <= j < i ==> table@.contains(assets.deep_view()[j]),
            decreases assets@.len() - i,
        {
            if table.lookup(&assets[i]).is_none() {
                proof {
                    let a = assets.deep_view()[i as int];
                    assert(a == assets@[i as int]@);
                    assert(assets.deep_view().contains(a));
                    assert(!table@.contains(a));
                }
                return None;
            }
            i += 1;
        }
        assert forall|a: AssetView| assets.deep_view().contains(a) implies table@.contains(a) by {
            let j = assets.deep_view().index_of(a);
            assert(table@.contains(assets.deep_view()[j]));
        }
        Some(
            LightOracle {
                metadata,
                last_timestamp,
                sources,
                assets,
                numbers: table,
                records: HashMap::new(),
            },
        )
    }

    /// The newest timestamp: the highest of the last batch written.
    pub fn last_timestamp(&self) -> (r: u64)
        ensures
            r == self@.last_timestamp,
    {
        self.last_timestamp
    }

    /// The asset table: the asset at place `n` has the number `n`.
    pub fn numbers(&self) -> (out: Vec<Asset>)
        ensures
            out.deep_view() == self@.numbers,
    {
        self.numbers.assets()
    }

    /// Writes the metadata, once. An instance that has its metadata refuses a
    /// second initialization, whoever asks.
    pub fn initialize(&mut self, admin: Address, base: Asset, decimals: u32, resolution: u32) -> (r:
        Result<(), OracleError>)
        ensures
            r == (if old(self)@.metadata.admin is Some {
                Err(OracleError::AlreadyInitialized)
            } else {
                Ok(())
            }),
            r is Ok ==> final(self)@ == (LightView {
                metadata: MetadataView {
                    admin: Some(admin@),
                    base: Some(base@),
                    decimals: Some(decimals),
                    resolution: Some(resolution),
                },
                ..old(self)@
            }),
            r is Err ==> final(self)@ == old(self)@,
    {
        proof {
            use_type_invariant(&*self);
        }
        if metadata::has_admin(&self.metadata) {
            return Err(OracleError::AlreadyInitialized);
        }
        let mut store = MetadataStore::new();
        metadata::write_metadata(&mut store, &admin, &base, &decimals, &resolution);
        self.metadata = store;
        Ok(())
    }

    /// Makes `new_admin` the administrator, for the administrator in office.
    pub fn write_admin(&mut self, caller: &Address, new_admin: Address) -> (r: Result<
        (),
        OracleError,
    >)
        ensures
            r == gate(old(self)@.metadata, caller@),
            r is Ok ==> final(self)@ == (LightView {
                metadata: MetadataView { admin: Some(new_admin@), ..old(self)@.metadata },
                ..old(self)@
            }),
            r is Err ==> final(self)@ == old(self)@,
    {
        proof {
            use_type_invariant(&*self);
        }
        match check_admin(&self.metadata, caller) {
            Err(e) => Err(e),
            Ok(()) => {
                let mut store = MetadataStore::new();
                std::mem::swap(&mut store, &mut self.metadata);
                metadata::write_admin(&mut store, &new_admin);
                self.metadata = store;
                Ok(())
            },
        }
    }

    /// The administrator, once the instance is initialized.
    pub fn read_admin(&self) -> (r: Option<Address>)
        ensures
            r.deep_view() == self@.metadata.admin,
    {
        metadata::read_admin(&self.metadata)
    }

    /// The asset that prices are quoted in.
    pub fn base(&self) -> (r: Option<Asset>)
        ensures
            r.deep_view() == self@.metadata.base,
    {
        metadata::read_base(&self.metadata)
    }

    /// The number of decimals of every price.
    pub fn decimals(&self) -> (r: Option<u32>)
        ensures
            r == self@.metadata.decimals,
    {
        metadata::read_decimals(&self.metadata)
    }

    /// The interval, in seconds, at which prices are reported.
    pub fn resolution(&self) -> (r: Option<u32>)
        ensures
            r == self@.metadata.resolution,
    {
        metadata::read_resolution(&self.metadata)
    }

    /// The registry of sources, in the order they were first seen.
    pub fn sources(&self) -> (out: Vec<u32>)
        ensures
            out@ == self@.sources,
            registries_valid(self@),
    {
        proof {
            use_type_invariant(self);
        }
        let _numbered = self.numbers.len();
        self.sources.clone()
    }

    /// The registry of assets, in the order they were first seen.
    pub fn assets(&self) -> (out: Vec<Asset>)
        ensures
            out.deep_view() == self@.assets,
            registries_valid(self@),
    {
        proof {
            use_type_invariant(self);
        }
        let _numbered = self.numbers.len();
        clone_assets(&self.assets)
    }

    /// The number that stands for `asset` in keys, if it has one.
    pub fn get_asset_as_u32(&self, asset: &Asset) -> (r: Option<u32>)
        ensures
            r == number_of(self@.numbers, asset@),
    {
        self.numbers.lookup(asset)
    }

    /// The observation that `source` made of `asset` at exactly `timestamp`.
    /// An asset that has no number is an error, not an absence.
    pub fn price_by_source(&self, source: u32, asset: &Asset, timestamp: u64) -> (r: Result<
        Option<PriceData>,
        OracleError,
    >)
        ensures
            r == (match number_of(self@.numbers, asset@) {
                None => Err(OracleError::UnknownAsset),
                Some(n) => Ok(recorded(self@.records, price_data_key(source, n, timestamp))),
            }),
    {
        broadcast use group_hash_axioms;

        match self.numbers.lookup(asset) {
            None => Err(OracleError::UnknownAsset),
            Some(n) => {
                let key = to_price_data_key(source, n, timestamp);
                match self.records.get(&key) {
                    Some(r) => Ok(Some(*r)),
                    None => Ok(None),
                }
            },
        }
    }

    /// The observation that `source` made of `asset` at the newest timestamp of
    /// the last batch.
    pub fn lastprice_by_source(&self, source: u32, asset: &Asset) -> (r: Result<
        Option<PriceData>,
        OracleError,
    >)
        ensures
            r == (match number_of(self@.numbers, asset@) {
                None => Err(OracleError::UnknownAsset),
                Some(n) => Ok(
                    recorded(self@.records, price_data_key(source, n, self@.last_timestamp)),
                ),
            }),
    {
        self.price_by_source(source, asset, self.last_timestamp)
    }

    /// Up to `records` of the latest observations of `asset` by `source`,
    /// newest first, found by a [`walk`] back from the newest timestamp in
    /// steps of the resolution, with at most [`MAX_RECORDS`] probes. `None`
    /// where the walk finds nothing.
    pub fn prices_by_source(&self, source: u32, asset: &Asset, records: u32) -> (r: Result<
        Option<Vec<PriceData>>,
        OracleError,
    >)
        ensures
            match latest(self@, source, asset@, records) {
                Err(e) => r == Err::<Option<Vec<PriceData>>, OracleError>(e),
                Ok(found) => {
                    &&& r is Ok
                    &&& found.len() == 0 ==> r->Ok_0 is None
                    &&& found.len() > 0 ==> r->Ok_0 is Some && r->Ok_0->0@ == found
                },
            },
    {
        let resolution = match metadata::read_resolution(&self.metadata) {
            None => {
                return Err(OracleError::NotInitialized);
            },
            Some(resolution) => resolution as u64,
        };
        if records == 0 {
            return Ok(None);
        }
        let steps: u32 = if records > MAX_RECORDS {
            MAX_RECORDS
        } else {
            records
        };
        let number = match self.numbers.lookup(asset) {
            None => {
                return Err(OracleError::UnknownAsset);
            },
            Some(n) => n,
        };
        let out = collect_walk(
            &self.records,
            source,
            number,
            self.last_timestamp,
            resolution,
            steps,
        );
        if out.len() == 0 {
            Ok(None)
        } else {
            Ok(Some(out))
        }
    }

    /// The keys that [`LightOracle::prices_by_source`] probes for this query, in
    /// order: what is kept under them is what the query returns. It fails as
    /// the query does.
    pub fn latest_keys(&self, source: u32, asset: &Asset, records: u32) -> (r: Result<
        Vec<u128>,
        OracleError,
    >)
        ensures
            match latest(self@, source, asset@, records) {
                Err(e) => r == Err::<Vec<u128>, OracleError>(e),
                Ok(all) => {
                    &&& r is Ok
                    &&& all == found(self@.records, r->Ok_0@)
                    &&& records == 0 ==> r->Ok_0@.len() == 0
                    &&& records > 0 ==> r->Ok_0@ == walk_keys(
                        source,
                        number_of(self@.numbers, asset@)->0,
                        self@.last_timestamp,
                        self@.metadata.resolution->0 as u64,
                        probes(records),
                    )
                },
            },
    {
        let resolution = match metadata::read_resolution(&self.metadata) {
            None => {
                return Err(OracleError::NotInitialized);
            },
            Some(resolution) => resolution as u64,
        };
        if records == 0 {
            return Ok(Vec::new());
        }
        let steps: u32 = if records > MAX_RECORDS {
            MAX_RECORDS
        } else {
            records
        };
        let number = match self.numbers.lookup(asset) {
            None => {
                return Err(OracleError::UnknownAsset);
            },
            Some(n) => n,
        };
        proof {
            lemma_walk_finds_its_keys(
                self@.records,
                source,
                number,
                self.last_timestamp,
                resolution,
                steps as nat,
            );
        }
        Ok(probe_keys(source, number, self.last_timestamp, resolution, steps))
    }

    /// [`LightOracle::price_by_source`] for source 0.
    pub fn price(&self, asset: &Asset, timestamp: u64) -> (r: Result<
        Option<PriceData>,
        OracleError,
    >)
        ensures
            r == (match number_of(self@.numbers, asset@) {
                None => Err(OracleError::UnknownAsset),
                Some(n) => Ok(recorded(self@.records, price_data_key(0, n, timestamp))),
            }),
    {
        self.price_by_source(0, asset, timestamp)
    }

    /// [`LightOracle::prices_by_source`] for source 0.
    pub fn prices(&self, asset: &Asset, records: u32) -> (r: Result<
        Option<Vec<PriceData>>,
        OracleError,
    >)
        ensures
            match latest(self@, 0, asset@, records) {
                Err(e) => r == Err::<Option<Vec<PriceData>>, OracleError>(e),
                Ok(found) => {
                    &&& r is Ok
                    &&& found.len() == 0 ==> r->Ok_0 is None
                    &&& found.len() > 0 ==> r->Ok_0 is Some && r->Ok_0->0@ == found
                },
            },
    {
        self.prices_by_source(0, asset, records)
    }

    /// [`LightOracle::lastprice_by_source`] for source 0.
    pub fn lastprice(&self, asset: &Asset) -> (r: Result<Option<PriceData>, OracleError>)
        ensures
            r == (match number_of(self@.numbers, asset@) {
                None => Err(OracleError::UnknownAsset),
                Some(n) => Ok(recorded(self@.records, price_data_key(0, n, self@.last_timestamp))),
            }),
    {
        self.lastprice_by_source(0, asset)
    }
}

impl LightOracle {
    /// Writes a batch of observations, for the administrator. Assets and
    /// sources that are new are registered, and a new asset gets its number.
    /// The newest timestamp of the instance becomes the highest of this batch.
    /// A batch is written whole or not at all.
    pub fn add_prices(&mut self, caller: &Address, prices: &Vec<InternalPrice>) -> (r: Result<
        (),
        OracleError,
    >)
        ensures
            r == batch_gate(old(self)@, caller@, prices@.len()),
            r is Ok ==> final(self)@ == (LightView {
                last_timestamp: highest_timestamp(prices@),
                ..with_prices(old(self)@, prices@)
            }),
            r is Err ==> final(self)@ == old(self)@,
    {
        broadcast use group_hash_axioms;

        proof {
            use_type_invariant(&*self);
        }
        match check_admin(&self.metadata, caller) {
            Err(e) => {
                return Err(e);
            },
            Ok(()) => {},
        }
        let room = MAX_ASSETS - self.numbers.len();
        if prices.len() > room {
            return Err(OracleError::TooManyAssets);
        }
        let ghost start = self@;
        let mut sources: Vec<u32> = Vec::new();
        let mut assets: Vec<Asset> = Vec::new();
        let mut numbers = AssetTable::new();
        let mut records: HashMap<u128, PriceData> = HashMap::new();
        assert(assets.deep_view() =~= Seq::<AssetView>::empty());
        std::mem::swap(&mut sources, &mut self.sources);
        std::mem::swap(&mut assets, &mut self.assets);
        std::mem::swap(&mut numbers, &mut self.numbers);
        std::mem::swap(&mut records, &mut self.records);
        let mut highest: u64 = 0;
        let mut i: usize = 0;
        while i < prices.len()
            invariant
                i <= prices@.len(),
                start.numbers.len() + prices@.len() <= MAX_ASSETS,
                numbers@.len() <= start.numbers.len() + i,
                numbers@.no_duplicates(),
                sources@.no_duplicates(),
                assets.deep_view().no_duplicates(),
                forall|a: AssetView| assets.deep_view().contains(a) ==> numbers@.contains(a),
                highest == highest_timestamp(prices@.take(i as int)),
                with_prices(start, prices@.take(i as int)) == (LightView {
                    sources: sources@,
                    assets: assets.deep_view(),
                    numbers: numbers@,
                    records: records@,
                    ..start
                }),
            decreases prices@.len() - i,
        {
            let p = &prices[i];
            let ghost before_assets = assets.deep_view();
            let ghost before_numbers = numbers@;
            proof {
                prices@.lemma_take_succ_push(i as int);
                assert(prices@.take(i + 1).drop_last() =~= prices@.take(i as int));
            }
            let number = match numbers.intern(&p.asset) {
                Some(n) => n,
                None => {
                    assert(false);
                    0
                },
            };
            proof {
                assert forall|a: AssetView| before_numbers.contains(a) implies numbers@.contains(
                    a,
                ) by {
                    if numbers@ != before_numbers {
                        let j = before_numbers.index_of(a);
                        assert(numbers@[j] == a);
                    }
                }
                if before_numbers.contains(p.asset@) {
                } else {
                    assert(numbers@[before_numbers.len() as int] == p.asset@);
                }
                assert(numbers@.contains(p.asset@));
            }
            if !is_asset_in_vec(&p.asset, &assets) {
                assets.push(p.asset.clone());
                proof {
                    assert(assets.deep_view() =~= before_assets.push(p.asset@));
                    lemma_push_no_duplicates(before_assets, p.asset@);
                    assert forall|a: AssetView|
                        assets.deep_view().contains(a) implies numbers@.contains(a) by {
                        lemma_push_contains(before_assets, p.asset@, a);
                    }
                }
            }
            if !is_u32_in_vec(p.source, &sources) {
                sources.push(p.source);
            }
            let key = to_price_data_key(p.source, number, p.timestamp);
            records.insert(key, PriceData::new(p.price, p.timestamp));
            if p.timestamp > highest {
                highest = p.timestamp;
            }
            i += 1;
        }
        proof {
            prices@.lemma_take_len();
        }
        self.numbers = numbers;
        self.assets = assets;
        self.sources = sources;
        self.records = records;
        self.last_timestamp = highest;
        Ok(())
    }

    /// Writes a batch of observations, for the administrator, and touches
    /// nothing else: each goes under the key made with the number it carries,
    /// no asset is numbered and nothing is registered. The newest timestamp of
    /// the instance becomes the highest of this batch.
    pub fn add_prices_light(&mut self, caller: &Address, prices: &Vec<InternalPrice>) -> (r: Result<
        (),
        OracleError,
    >)
        ensures
            r == gate(old(self)@.metadata, caller@),
            r is Ok ==> final(self)@ == (LightView {
                last_timestamp: highest_timestamp(prices@),
                records: with_prices_light(old(self)@.records, prices@),
                ..old(self)@
            }),
            r is Err ==> final(self)@ == old(self)@,
    {
        broadcast use group_hash_axioms;

        proof {
            use_type_invariant(&*self);
        }
        match check_admin(&self.metadata, caller) {
            Err(e) => {
                return Err(e);
            },
            Ok(()) => {},
        }
        let ghost start = self@.records;
        let mut records: HashMap<u128, PriceData> = HashMap::new();
        std::mem::swap(&mut records, &mut self.records);
        let mut highest: u64 = 0;
        let mut i: usize = 0;
        while i < prices.len()
            invariant
                i <= prices@.len(),
                highest == highest_timestamp(prices@.take(i as int)),
                records@ == with_prices_light(start, prices@.take(i as int)),
            decreases prices@.len() - i,
        {
            let p = &prices[i];
            proof {
                prices@.lemma_take_succ_push(i as int);
                assert(prices@.take(i + 1).drop_last() =~= prices@.take(i as int));
            }
            let key = to_price_data_key(p.source, p.asset_u32, p.timestamp);
            records.insert(key, PriceData::new(p.price, p.timestamp));
            if p.timestamp > highest {
                highest = p.timestamp;
            }
            i += 1;
        }
        proof {
            prices@.lemma_take_len();
        }
        self.records = records;
        self.last_timestamp = highest;
        Ok(())
    }

    /// Takes assets out of the registry, for the administrator. Their numbers
    /// stay theirs, and what was recorded for them stays recorded.
    pub fn remove_assets(&mut self, caller: &Address, assets: &Vec<Asset>) -> (r: Result<
        (),
        OracleError,
    >)
        ensures
            r == gate(old(self)@.metadata, caller@),
            r is Ok ==> final(self)@ == (LightView {
                assets: old(self)@.assets.filter(not_in(assets.deep_view())),
                ..old(self)@
            }),
            r is Err ==> final(self)@ == old(self)@,
    {
        proof {
            use_type_invariant(&*self);
        }
        match check_admin(&self.metadata, caller) {
            Err(e) => {
                return Err(e);
            },
            Ok(()) => {},
        }
        let mut registered: Vec<Asset> = Vec::new();
        assert(registered.deep_view() =~= Seq::<AssetView>::empty());
        std::mem::swap(&mut registered, &mut self.assets);
        let ghost all = registered.deep_view();
        let ghost keep = not_in(assets.deep_view());
        let mut kept: Vec<Asset> = Vec::new();
        let mut i: usize = 0;
        proof {
            reveal(Seq::filter);
            assert(kept.deep_view() =~= all.take(0).filter(keep));
        }
        while i < registered.len()
            invariant
                i <= registered@.len(),
                all == registered.deep_view(),
                all.len() == registered@.len(),
                all.no_duplicates(),
                keep == not_in(assets.deep_view()),
                kept.deep_view() == all.take(i as int).filter(keep),
                kept.deep_view().no_duplicates(),
                forall|a: AssetView| kept.deep_view().contains(a) ==> all.take(i as int).contains(a),
            decreases registered@.len() - i,
        {
            let ghost before = kept.deep_view();
            proof {
                all.lemma_take_succ_push(i as int);
                all.take(i as int).lemma_filter_push(all[i as int], keep);
                lemma_take_lacks(all, i as int);
            }
            if !is_asset_in_vec(&registered[i], assets) {
                kept.push(registered[i].clone());
                proof {
                    assert(kept.deep_view() =~= before.push(all[i as int]));
                    lemma_push_no_duplicates(before, all[i as int]);
                    assert forall|a: AssetView| kept.deep_view().contains(a) implies all.take(
                        i + 1,
                    ).contains(a) by {
                        lemma_push_contains(before, all[i as int], a);
                    }
                }
            }
            i += 1;
        }
        proof {
            all.lemma_take_len();
            assert forall|a: AssetView| kept.deep_view().contains(a) implies self.numbers@.contains(
                a,
            ) by {
                assert(all.contains(a));
            }
        }
        self.assets = kept;
        Ok(())
    }

    /// Takes sources out of the registry, for the administrator. What was
    /// recorded for them stays recorded.
    pub fn remove_sources(&mut self, caller: &Address, sources: &Vec<u32>) -> (r: Result<
        (),
        OracleError,
    >)
        ensures
            r == gate(old(self)@.metadata, caller@),
            r is Ok ==> final(self)@ == (LightView {
                sources: old(self)@.sources.filter(not_in(sources@)),
                ..old(self)@
            }),
            r is Err ==> final(self)@ == old(self)@,
    {
        proof {
            use_type_invariant(&*self);
        }
        match check_admin(&self.metadata, caller) {
            Err(e) => {
                return Err(e);
            },
            Ok(()) => {},
        }
        let mut registered: Vec<u32> = Vec::new();
        std::mem::swap(&mut registered, &mut self.sources);
        let ghost all = registered@;
        let ghost keep = not_in(sources@);
        let mut kept: Vec<u32> = Vec::new();
        let mut i: usize = 0;
        proof {
            reveal(Seq::filter);
            assert(kept@ =~= all.take(0).filter(keep));
        }
        while i < registered.len()
            invariant
                i <= registered@.len(),
                all == registered@,
                all.no_duplicates(),
                keep == not_in(sources@),
                kept@ == all.take(i as int).filter(keep),
                kept@.no_duplicates(),
                forall|a: u32| kept@.contains(a) ==> all.take(i as int).contains(a),
            decreases registered@.len() - i,
        {
            let ghost before = kept@;
            proof {
                all.lemma_take_succ_push(i as int);
                all.take(i as int).lemma_filter_push(all[i as int], keep);
                lemma_take_lacks(all, i as int);
            }
            if !is_u32_in_vec(registered[i], sources) {
                kept.push(registered[i]);
                proof {
                    lemma_push_no_duplicates(before, all[i as int]);
                    assert forall|a: u32| kept@.contains(a) implies all.take(i + 1).contains(
                        a,
                    ) by {
                        lemma_push_contains(before, all[i as int], a);
                    }
                }
            }
            i += 1;
        }
        proof {
            all.lemma_take_len();
        }
        self.sources = kept;
        Ok(())
    }

    /// The registered assets, each with its number, in the order of the
    /// registry.
    pub fn get_internal_assets(&self) -> (out: Vec<InternalAsset>)
        ensures
            out@.len() == self@.assets.len(),
            forall|i: int|
                0 <= i < out@.len() ==> {
                    &&& (#[trigger] out@[i]).asset@ == self@.assets[i]
                    &&& number_of(self@.numbers, self@.assets[i]) == Some(out@[i].asset_u32)
                },
    {
        proof {
            use_type_invariant(self);
        }
        let mut out: Vec<InternalAsset> = Vec::new();
        let mut i: usize = 0;
        while i < self.assets.len()
            invariant
                i <= self.assets@.len(),
                self.assets.deep_view().len() == self.assets@.len(),
                forall|a: AssetView|
                    self.assets.deep_view().contains(a) ==> self.numbers@.contains(a),
                out@.len() == i,
                forall|j: int|
                    0 <= j < i ==> {
                        &&& (#[trigger] out@[j]).asset@ == self.assets.deep_view()[j]
                        &&& number_of(self.numbers@, self.assets.deep_view()[j]) == Some(
                            out@[j].asset_u32,
                        )
                    },
            decreases self.assets@.len() - i,
        {
            let asset = self.assets[i].clone();
            assert(self.assets.deep_view()[i as int] == asset@);
            assert(self.assets.deep_view().contains(asset@));
            let asset_u32 = match self.numbers.lookup(&asset) {
                Some(n) => n,
                None => {
                    assert(false);
                    0
                },
            };
            out.push(InternalAsset { asset, asset_u32 });
            i += 1;
        }
        out
    }
}

} // verus!
