//! The metadata of an oracle instance: who administers it, and how its prices
//! are to be read.
use vstd::prelude::*;
use crate::types::{Address, Asset, AssetView, DataKey};

verus! {

/// What a [`MetadataStore`] holds, as contracts speak of it. A slot that was
/// never written is `None`.
pub struct MetadataView {
    pub admin: Option<Seq<char>>,
    pub base: Option<AssetView>,
    pub decimals: Option<u32>,
    pub resolution: Option<u32>,
}

/// The metadata slots of one instance: the administrator, the base asset that
/// prices are quoted in, the number of decimals of a price, and the resolution,
/// the interval in seconds at which prices are reported.
pub struct MetadataStore {
    admin: Option<Address>,
    base: Option<Asset>,
    decimals: Option<u32>,
    resolution: Option<u32>,
}

impl View for MetadataStore {
    type V = MetadataView;

    closed spec fn view(&self) -> MetadataView {
        MetadataView {
            admin: self.admin.deep_view(),
            base: self.base.deep_view(),
            decimals: self.decimals,
            resolution: self.resolution,
        }
    }
}

impl MetadataStore {
    /// The metadata of an instance that was not initialized: every slot empty.
    pub fn new() -> (r: Self)
        ensures
            r@ == (MetadataView { admin: None, base: None, decimals: None, resolution: None }),
    {
        MetadataStore { admin: None, base: None, decimals: None, resolution: None }
    }

    /// Whether the slot that `key` names holds a value. The price store is no
    /// metadata slot.
    pub fn has(&self, key: DataKey) -> (r: bool)
        ensures
            r == match key {
                DataKey::Admin => self@.admin is Some,
                DataKey::Base => self@.base is Some,
                DataKey::Decimals => self@.decimals is Some,
                DataKey::Resolution => self@.resolution is Some,
                DataKey::Prices => false,
            },
    {
        match key {
            DataKey::Admin => self.admin.is_some(),
            DataKey::Base => self.base.is_some(),
            DataKey::Decimals => self.decimals.is_some(),
            DataKey::Resolution => self.resolution.is_some(),
            DataKey::Prices => false,
        }
    }
}

/// Whether an administrator is set, which is so once the instance is
/// initialized.
pub fn has_admin(store: &MetadataStore) -> (r: bool)
    ensures
        r == (store@.admin is Some),
{
    store.admin.is_some()
}

/// The administrator.
pub fn read_admin(store: &MetadataStore) -> (r: Option<Address>)
    ensures
        r.deep_view() == store@.admin,
{
    match &store.admin {
        Some(a) => Some(a.clone()),
        None => None,
    }
}

/// Sets the administrator.
pub fn write_admin(store: &mut MetadataStore, id: &Address)
    ensures
        final(store)@ == (MetadataView { admin: Some(id@), ..old(store)@ }),
{
    store.admin = Some(id.clone());
}

/// Sets the base asset.
pub fn write_base(store: &mut MetadataStore, base: &Asset)
    ensures
        final(store)@ == (MetadataView { base: Some(base@), ..old(store)@ }),
{
    store.base = Some(base.clone());
}

/// The base asset.
pub fn read_base(store: &MetadataStore) -> (r: Option<Asset>)
    ensures
        r.deep_view() == store@.base,
{
    match &store.base {
        Some(a) => Some(a.clone()),
        None => None,
    }
}

/// Sets the number of decimals.
pub fn write_decimals(store: &mut MetadataStore, decimals: &u32)
    ensures
        final(store)@ == (MetadataView { decimals: Some(*decimals), ..old(store)@ }),
{
    store.decimals = Some(*decimals);
}

/// The number of decimals.
pub fn read_decimals(store: &MetadataStore) -> (r: Option<u32>)
    ensures
        r == store@.decimals,
{
    store.decimals
}

/// Sets the resolution.
pub fn write_resolution(store: &mut MetadataStore, resolution: &u32)
    ensures
        final(store)@ == (MetadataView { resolution: Some(*resolution), ..old(store)@ }),
{
    store.resolution = Some(*resolution);
}

/// The resolution.
pub fn read_resolution(store: &MetadataStore) -> (r: Option<u32>)
    ensures
        r == store@.resolution,
{
    store.resolution
}

/// Fills all four slots at once.
pub fn write_metadata(
    store: &mut MetadataStore,
    admin: &Address,
    base: &Asset,
    decimals: &u32,
    resolution: &u32,
)
    ensures
        final(store)@ == (MetadataView {
            admin: Some(admin@),
            base: Some(base@),
            decimals: Some(*decimals),
            resolution: Some(*resolution),
        }),
{
    write_admin(store, admin);
    write_base(store, base);
    write_decimals(store, decimals);
    write_resolution(store, resolution);
}

} // verus!
