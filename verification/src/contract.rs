//! The oracle that keeps its prices in bounded series: the public surface over
//! the metadata and the time-series store, with the administrator gate.
//!
//! Calls that change anything name the identity that the host authenticated
//! for them. They are carried out only for the administrator and are turned
//! down, with nothing changed, for anyone else. Reading needs no identity.
//! A query without a source asks for source 0.
use vstd::prelude::*;
use crate::metadata::{self, MetadataStore, MetadataView};
use crate::series::{first_at, in_range, last_n, CAPACITY};
use crate::store::{
    after_delete, asset_set, bounded, series_of, source_set, with_prices, with_record, PriceStore,
    StoreView,
};
use crate::types::{Address, Asset, OracleError, Price, PriceData};

verus! {

/// What an [`Oracle`] holds, as contracts speak of it.
pub struct OracleView {
    pub metadata: MetadataView,
    pub prices: StoreView,
}

/// Whether a change asked for by `caller` goes ahead: only on an initialized
/// instance, and only for its administrator.
pub open spec fn gate(metadata: MetadataView, caller: Seq<char>) -> Result<(), OracleError> {
    if metadata.admin is None {
        Err(OracleError::NotInitialized)
    } else if metadata.admin->0 != caller {
        Err(OracleError::Unauthorized)
    } else {
        Ok(())
    }
}

/// Decides [`gate`] for the metadata of an instance.
pub fn check_admin(store: &MetadataStore, caller: &Address) -> (r: Result<(), OracleError>)
    ensures
        r == gate(store@, caller@),
{
    match metadata::read_admin(store) {
        None => Err(OracleError::NotInitialized),
        Some(admin) => {
            if admin == *caller {
                Ok(())
            } else {
                Err(OracleError::Unauthorized)
            }
        },
    }
}

/// One oracle instance.
pub struct Oracle {
    metadata: MetadataStore,
    prices: PriceStore,
}

impl View for Oracle {
    type V = OracleView;

    closed spec fn view(&self) -> OracleView {
        OracleView { metadata: self.metadata@, prices: self.prices@ }
    }
}

/// The price store of an instance.
pub fn read_prices(oracle: &Oracle) -> (r: &PriceStore)
    ensures
        r@ == oracle@.prices,
{
    &oracle.prices
}

/// Records one observation, for the administrator.
pub fn add_price(
    oracle: &mut Oracle,
    caller: &Address,
    source: u32,
    asset: Asset,
    price: i128,
    timestamp: u64,
) -> (r: Result<(), OracleError>)
    ensures
        r == gate(old(oracle)@.metadata, caller@),
        r is Ok ==> final(oracle)@ == (OracleView {
            prices: with_record(
                old(oracle)@.prices,
                (source, asset@),
                PriceData { price, timestamp },
            ),
            ..old(oracle)@
        }),
        r is Err ==> final(oracle)@ == old(oracle)@,
        r is Ok ==> bounded(final(oracle)@.prices),
{
    match check_admin(&oracle.metadata, caller) {
        Err(e) => Err(e),
        Ok(()) => {
            oracle.prices.insert(source, asset, price, timestamp);
            Ok(())
        },
    }
}

/// Deletes observations by filter, for the administrator. See
/// [`PriceStore::filtered_delete`] for what the filters and bounds mean.
pub fn remove_prices(
    oracle: &mut Oracle,
    caller: &Address,
    sources: &Vec<u32>,
    assets: &Vec<Asset>,
    start_timestamp: &Option<u64>,
    end_timestamp: &Option<u64>,
) -> (r: Result<(), OracleError>)
    ensures
        r == gate(old(oracle)@.metadata, caller@),
        r is Ok ==> final(oracle)@ == (OracleView {
            prices: after_delete(
                old(oracle)@.prices,
                sources@,
                assets.deep_view(),
                *start_timestamp,
                *end_timestamp,
            ),
            ..old(oracle)@
        }),
        r is Err ==> final(oracle)@ == old(oracle)@,
{
    match check_admin(&oracle.metadata, caller) {
        Err(e) => Err(e),
        Ok(()) => {
            oracle.prices.filtered_delete(sources, assets, *start_timestamp, *end_timestamp);
            Ok(())
        },
    }
}

impl Oracle {
    /// An instance as it is deployed: no metadata, no prices.
    pub fn new() -> (r: Self)
        ensures
            r@.metadata == (MetadataView {
                admin: None,
                base: None,
                decimals: None,
                resolution: None,
            }),
            r@.prices == Map::<(u32, crate::types::AssetView), Seq<PriceData>>::empty(),
    {
        Oracle { metadata: MetadataStore::new(), prices: PriceStore::new() }
    }

    /// Writes the metadata, once. An instance that has its metadata refuses a
    /// second initialization, whoever asks.
    pub fn initialize(&mut self, admin: Address, base: Asset, decimals: u32, resolution: u32) -> (r:
        Result<(), OracleError>)
        ensures
            r == (if old(self)@.metadata.admin is Some {
                Err(OracleError::AlreadyInitialized)
            } else {
                Ok(())
            }),
            r is Ok ==> final(self)@ == (OracleView {
                metadata: MetadataView {
                    admin: Some(admin@),
                    base: Some(base@),
                    decimals: Some(decimals),
                    resolution: Some(resolution),
                },
                ..old(self)@
            }),
            r is Err ==> final(self)@ == old(self)@,
    {
        if metadata::has_admin(&self.metadata) {
            return Err(OracleError::AlreadyInitialized);
        }
        metadata::write_metadata(&mut self.metadata, &admin, &base, &decimals, &resolution);
        Ok(())
    }

    /// Whether the instance was initialized.
    pub fn has_admin(&self) -> (r: bool)
        ensures
            r == (self@.metadata.admin is Some),
    {
        metadata::has_admin(&self.metadata)
    }

    /// Makes `id` the administrator, for the administrator in office.
    pub fn write_admin(&mut self, caller: &Address, id: Address) -> (r: Result<(), OracleError>)
        ensures
            r == gate(old(self)@.metadata, caller@),
            r is Ok ==> final(self)@ == (OracleView {
                metadata: MetadataView { admin: Some(id@), ..old(self)@.metadata },
                ..old(self)@
            }),
            r is Err ==> final(self)@ == old(self)@,
    {
        match check_admin(&self.metadata, caller) {
            Err(e) => Err(e),
            Ok(()) => {
                metadata::write_admin(&mut self.metadata, &id);
                Ok(())
            },
        }
    }

    /// The administrator, once the instance is initialized.
    pub fn read_admin(&self) -> (r: Option<Address>)
        ensures
            r.deep_view() == self@.metadata.admin,
    {
        metadata::read_admin(&self.metadata)
    }

    /// The administrator, under the name that price feeds use for it.
    pub fn admin(&self) -> (r: Option<Address>)
        ensures
            r.deep_view() == self@.metadata.admin,
    {
        metadata::read_admin(&self.metadata)
    }

    /// The asset that prices are quoted in.
    pub fn base(&self) -> (r: Option<Asset>)
        ensures
            r.deep_view() == self@.metadata.base,
    {
        metadata::read_base(&self.metadata)
    }

    /// The number of decimals of every price.
    pub fn decimals(&self) -> (r: Option<u32>)
        ensures
            r == self@.metadata.decimals,
    {
        metadata::read_decimals(&self.metadata)
    }

    /// The interval, in seconds, at which prices are reported.
    pub fn resolution(&self) -> (r: Option<u32>)
        ensures
            r == self@.metadata.resolution,
    {
        metadata::read_resolution(&self.metadata)
    }

    /// The sources that have prices, each once.
    pub fn sources(&self) -> (out: Vec<u32>)
        ensures
            out@.no_duplicates(),
            out@.to_set() == source_set(self@.prices),
    {
        self.prices.sources()
    }

    /// The assets that have prices from any source, each once.
    pub fn assets(&self) -> (out: Vec<Asset>)
        ensures
            out.deep_view().no_duplicates(),
            out.deep_view().to_set() == asset_set(self@.prices),
    {
        self.prices.assets()
    }

    /// Records one observation, for the administrator. A series keeps its ten
    /// newest observations.
    pub fn add_price(
        &mut self,
        caller: &Address,
        source: u32,
        asset: Asset,
        price: i128,
        timestamp: u64,
    ) -> (r: Result<(), OracleError>)
        ensures
            r == gate(old(self)@.metadata, caller@),
            r is Ok ==> final(self)@ == (OracleView {
                prices: with_record(
                    old(self)@.prices,
                    (source, asset@),
                    PriceData { price, timestamp },
                ),
                ..old(self)@
            }),
            r is Err ==> final(self)@ == old(self)@,
            r is Ok ==> bounded(final(self)@.prices),
    {
        add_price(self, caller, source, asset, price, timestamp)
    }

    /// Records a batch of observations in the order given, for the
    /// administrator: all of them, or none where the caller is turned down.
    pub fn add_prices(&mut self, caller: &Address, prices: &Vec<Price>) -> (r: Result<
        (),
        OracleError,
    >)
        ensures
            r == gate(old(self)@.metadata, caller@),
            r is Ok ==> final(self)@ == (OracleView {
                prices: with_prices(old(self)@.prices, prices@),
                ..old(self)@
            }),
            r is Err ==> final(self)@ == old(self)@,
            r is Ok ==> bounded(final(self)@.prices),
    {
        match check_admin(&self.metadata, caller) {
            Err(e) => Err(e),
            Ok(()) => {
                self.prices.insert_bulk(prices);
                Ok(())
            },
        }
    }

    /// Deletes observations by filter, for the administrator. See
    /// [`PriceStore::filtered_delete`] for what the filters and bounds mean.
    pub fn remove_prices(
        &mut self,
        caller: &Address,
        sources: &Vec<u32>,
        assets: &Vec<Asset>,
        start_timestamp: Option<u64>,
        end_timestamp: Option<u64>,
    ) -> (r: Result<(), OracleError>)
        ensures
            r == gate(old(self)@.metadata, caller@),
            r is Ok ==> final(self)@ == (OracleView {
                prices: after_delete(
                    old(self)@.prices,
                    sources@,
                    assets.deep_view(),
                    start_timestamp,
                    end_timestamp,
                ),
                ..old(self)@
            }),
            r is Err ==> final(self)@ == old(self)@,
    {
        remove_prices(self, caller, sources, assets, &start_timestamp, &end_timestamp)
    }

    /// The oldest retained observation of `asset` by `source` made at exactly
    /// `timestamp`.
    pub fn price_by_source(&self, source: u32, asset: &Asset, timestamp: u64) -> (r: Option<
        PriceData,
    >)
        ensures
            r == first_at(series_of(self@.prices, (source, asset@)), timestamp),
    {
        self.prices.price_at(source, asset, timestamp)
    }

    /// The observations of `asset` by `source` with a timestamp in
    /// `[start_timestamp, end_timestamp]`, both ends included, oldest first.
    pub fn prices_by_source(
        &self,
        source: u32,
        asset: &Asset,
        start_timestamp: u64,
        end_timestamp: u64,
    ) -> (out: Vec<PriceData>)
        ensures
            out@ == in_range(
                series_of(self@.prices, (source, asset@)),
                start_timestamp,
                end_timestamp,
            ),
    {
        self.prices.range_query(source, asset, start_timestamp, end_timestamp)
    }

    /// The last `records` observations of `asset` by `source`, oldest first.
    pub fn lastprices_by_source(&self, source: u32, asset: &Asset, records: u32) -> (out: Vec<
        PriceData,
    >)
        ensures
            out@ == last_n(series_of(self@.prices, (source, asset@)), records as nat),
            out@.len() <= CAPACITY,
            bounded(self@.prices),
    {
        self.prices.last_n_query(source, asset, records)
    }

    /// The newest observation of `asset` by `source`.
    pub fn lastprice_by_source(&self, source: u32, asset: &Asset) -> (r: Option<PriceData>)
        ensures
            r == (if self@.prices.contains_key((source, asset@)) {
                Some(self@.prices[(source, asset@)].last())
            } else {
                None
            }),
    {
        self.prices.last_price(source, asset)
    }

    /// [`Oracle::price_by_source`] for source 0.
    pub fn price(&self, asset: &Asset, timestamp: u64) -> (r: Option<PriceData>)
        ensures
            r == first_at(series_of(self@.prices, (0u32, asset@)), timestamp),
    {
        self.price_by_source(0, asset, timestamp)
    }

    /// [`Oracle::prices_by_source`] for source 0.
    pub fn prices(&self, asset: &Asset, start_timestamp: u64, end_timestamp: u64) -> (out: Vec<
        PriceData,
    >)
        ensures
            out@ == in_range(
                series_of(self@.prices, (0u32, asset@)),
                start_timestamp,
                end_timestamp,
            ),
    {
        self.prices_by_source(0, asset, start_timestamp, end_timestamp)
    }

    /// [`Oracle::lastprices_by_source`] for source 0.
    pub fn lastprices(&self, asset: &Asset, records: u32) -> (out: Vec<PriceData>)
        ensures
            out@ == last_n(series_of(self@.prices, (0u32, asset@)), records as nat),
            out@.len() <= CAPACITY,
    {
        self.lastprices_by_source(0, asset, records)
    }

    /// [`Oracle::lastprice_by_source`] for source 0.
    pub fn lastprice(&self, asset: &Asset) -> (r: Option<PriceData>)
        ensures
            r == (if self@.prices.contains_key((0u32, asset@)) {
                Some(self@.prices[(0u32, asset@)].last())
            } else {
                None
            }),
    {
        self.lastprice_by_source(0, asset)
    }
}

} // verus!
