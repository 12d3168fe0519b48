//! The values the oracle stores and exchanges with its callers.
use vstd::prelude::*;
use vstd::std_specs::cmp::PartialEqSpecImpl;

verus! {

/// One price observation: a price, and the time at which it was observed.
#[derive(Clone, Copy, Debug, PartialEq, Eq, Structural)]
pub struct PriceData {
    pub price: i128,
    pub timestamp: u64,
}

impl PriceData {
    /// The observation of `price` at `timestamp`.
    pub fn new(price: i128, timestamp: u64) -> (r: Self)
        ensures
            r == (PriceData { price, timestamp }),
    {
        Self { price, timestamp }
    }
}

/// The name of an account or a contract on the ledger, in its text form.
///
/// Two addresses are the same identity exactly when their text is the same.
#[derive(Debug)]
pub struct Address {
    pub strkey: String,
}

impl View for Address {
    type V = Seq<char>;

    open spec fn view(&self) -> Seq<char> {
        self.strkey@
    }
}

impl DeepView for Address {
    type V = Seq<char>;

    open spec fn deep_view(&self) -> Seq<char> {
        self@
    }
}

impl Address {
    /// The address whose text form is `strkey`.
    pub fn new(strkey: String) -> (r: Self)
        ensures
            r@ == strkey@,
    {
        Address { strkey }
    }
}

impl Clone for Address {
    fn clone(&self) -> (r: Self)
        ensures
            r@ == self@,
    {
        Address { strkey: self.strkey.clone() }
    }
}

impl PartialEq for Address {
    fn eq(&self, other: &Self) -> (r: bool) {
        self.strkey == other.strkey
    }
}

impl Eq for Address {

}

impl PartialEqSpecImpl for Address {
    open spec fn obeys_eq_spec() -> bool {
        true
    }

    open spec fn eq_spec(&self, other: &Self) -> bool {
        self@ == other@
    }
}

/// What an [`Asset`] is in contracts: its variant, and the text that names it.
pub enum AssetView {
    Stellar(Seq<char>),
    Other(Seq<char>),
}

/// An asset that prices are quoted for: either one native to the ledger, named
/// by the address that issues it, or any other, named by a symbolic code.
#[derive(Debug)]
pub enum Asset {
    Stellar(Address),
    Other(String),
}

impl View for Asset {
    type V = AssetView;

    open spec fn view(&self) -> AssetView {
        match self {
            Asset::Stellar(a) => AssetView::Stellar(a@),
            Asset::Other(code) => AssetView::Other(code@),
        }
    }
}

impl DeepView for Asset {
    type V = AssetView;

    open spec fn deep_view(&self) -> AssetView {
        self@
    }
}

impl Clone for Asset {
    fn clone(&self) -> (r: Self)
        ensures
            r@ == self@,
    {
        match self {
            Asset::Stellar(a) => Asset::Stellar(a.clone()),
            Asset::Other(code) => Asset::Other(code.clone()),
        }
    }
}

impl PartialEq for Asset {
    fn eq(&self, other: &Self) -> (r: bool) {
        match self {
            Asset::Stellar(a) => match other {
                Asset::Stellar(b) => a.strkey == b.strkey,
                Asset::Other(_) => false,
            },
            Asset::Other(a) => match other {
                Asset::Stellar(_) => false,
                Asset::Other(b) => *a == *b,
            },
        }
    }
}

impl Eq for Asset {

}

impl PartialEqSpecImpl for Asset {
    open spec fn obeys_eq_spec() -> bool {
        true
    }

    open spec fn eq_spec(&self, other: &Self) -> bool {
        self@ == other@
    }
}

/// One observation as a caller hands it in: whose it is, what it prices, and
/// the observation itself.
#[derive(Debug)]
pub struct Price {
    pub source: u32,
    pub asset: Asset,
    pub price: i128,
    pub timestamp: u64,
}

impl Price {
    /// The series that this observation belongs to.
    pub open spec fn key(&self) -> (u32, AssetView) {
        (self.source, self.asset@)
    }

    /// The observation itself.
    pub open spec fn record(&self) -> PriceData {
        PriceData { price: self.price, timestamp: self.timestamp }
    }
}

/// One observation as it is handed to the oracle that keeps each observation
/// under a key of its own. `asset_u32` is the number that the caller holds for
/// the asset.
#[derive(Debug)]
pub struct InternalPrice {
    pub source: u32,
    pub asset: Asset,
    pub asset_u32: u32,
    pub price: i128,
    pub timestamp: u64,
}

impl InternalPrice {
    /// The observation itself.
    pub open spec fn record(&self) -> PriceData {
        PriceData { price: self.price, timestamp: self.timestamp }
    }
}

/// An asset together with the number that stands for it in keys.
#[derive(Debug)]
pub struct InternalAsset {
    pub asset: Asset,
    pub asset_u32: u32,
}

/// One exchange rate of the oldest rate table: the rate, the number of
/// decimals it is written with, and the time it was set.
#[derive(Clone, Copy, Debug, PartialEq, Eq, Structural)]
pub struct RateEntry {
    pub rate: u128,
    pub decimals: u128,
    pub timestamp: u64,
}

impl RateEntry {
    /// The rate `rate`, written with `decimals` decimals, set at `timestamp`.
    pub fn new(rate: u128, decimals: u128, timestamp: u64) -> (r: Self)
        ensures
            r == (RateEntry { rate, decimals, timestamp }),
    {
        Self { rate, decimals, timestamp }
    }
}

/// The slots of an oracle instance's durable storage.
#[derive(Clone, Copy, Debug, PartialEq, Eq, Structural)]
pub enum DataKey {
    Admin,
    Base,
    Decimals,
    Resolution,
    Prices,
}

/// Why a call was turned down. A call that is turned down changes nothing.
#[derive(Clone, Copy, Debug, PartialEq, Eq, Structural)]
pub enum OracleError {
    /// `initialize` was called on an instance that already has its metadata.
    AlreadyInitialized,
    /// A call that needs the metadata came before `initialize`.
    NotInitialized,
    /// The caller is not the administrator.
    Unauthorized,
    /// A lookup named an asset that was never given a number.
    UnknownAsset,
    /// A batch could need more asset numbers than are left.
    TooManyAssets,
}

} // verus!
