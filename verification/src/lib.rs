//! A price oracle for a ledger: price observations from many sources for many
//! assets, kept as bounded time series, with the instance metadata and the
//! administrator gate around them.
//!
//! Two engines keep the observations. [`contract::Oracle`] holds one bounded
//! series for every pair of source and asset. [`contract_light::LightOracle`]
//! keeps every observation under a key of its own, packed from the source, the
//! number its asset was given and the timestamp, and answers queries by
//! stepping back in time from the newest observation.
pub mod contract;
pub mod contract_light;
pub mod laws;
pub mod metadata;
pub mod series;
pub mod store;
pub mod types;
pub mod utils;

pub use contract::Oracle;
pub use contract_light::LightOracle;
pub use types::{
    Address, Asset, AssetView, DataKey, InternalAsset, InternalPrice, OracleError, Price,
    PriceData, RateEntry,
};
pub use utils::to_price_data_key;
