use std::collections::HashMap;

use price_oracle::contract_light::{collect_walk, probe_keys, LightOracle, MAX_RECORDS};
use price_oracle::metadata::{write_metadata, MetadataStore};
use price_oracle::utils::{clone_assets, distinct_assets, distinct_u32, AssetTable};
use price_oracle::{to_price_data_key, Address, Asset, InternalPrice, OracleError, PriceData};

fn code(text: &str) -> Asset {
    Asset::Other(String::from(text))
}

fn admin() -> Address {
    Address::new(String::from("GADMIN"))
}

fn metadata(resolution: u32) -> MetadataStore {
    let mut m = MetadataStore::new();
    write_metadata(&mut m, &admin(), &code("USD"), &18, &resolution);
    m
}

#[test]
fn distinct_lists_are_told_from_repeating_ones() {
    assert!(distinct_u32(&vec![]));
    assert!(distinct_u32(&vec![3, 1, 2]));
    assert!(!distinct_u32(&vec![3, 1, 3]));
    assert!(distinct_assets(&vec![]));
    assert!(distinct_assets(&vec![code("A"), code("B")]));
    assert!(!distinct_assets(&vec![code("A"), code("B"), code("A")]));
    assert_eq!(clone_assets(&vec![code("A"), code("B")]), vec![code("A"), code("B")]);
}

#[test]
fn asset_table_from_assets_numbers_in_order() {
    let table = AssetTable::from_assets(vec![code("B"), code("A")]).unwrap();
    assert_eq!(table.lookup(&code("B")), Some(0));
    assert_eq!(table.lookup(&code("A")), Some(1));
    assert_eq!(table.assets(), vec![code("B"), code("A")]);
    assert!(AssetTable::from_assets(vec![code("A"), code("A")]).is_none());
}

#[test]
fn restore_gives_back_the_registries() {
    let oracle = LightOracle::restore(
        metadata(60),
        1234,
        vec![7, 3],
        vec![code("B")],
        vec![code("A"), code("B")],
    )
    .unwrap();
    assert_eq!(oracle.read_admin(), Some(admin()));
    assert_eq!(oracle.base(), Some(code("USD")));
    assert_eq!(oracle.decimals(), Some(18));
    assert_eq!(oracle.resolution(), Some(60));
    assert_eq!(oracle.last_timestamp(), 1234);
    assert_eq!(oracle.sources(), vec![7, 3]);
    assert_eq!(oracle.assets(), vec![code("B")]);
    assert_eq!(oracle.numbers(), vec![code("A"), code("B")]);
    assert_eq!(oracle.get_asset_as_u32(&code("B")), Some(1));
    assert_eq!(oracle.lastprice(&code("B")), Ok(None));
    let internal = oracle.get_internal_assets();
    assert_eq!(internal.len(), 1);
    assert_eq!(internal[0].asset_u32, 1);
}

#[test]
fn restore_refuses_what_is_no_instance() {
    assert!(LightOracle::restore(metadata(1), 0, vec![1, 1], vec![], vec![]).is_none());
    assert!(LightOracle::restore(metadata(1), 0, vec![], vec![code("A"), code("A")], vec![code("A")])
        .is_none());
    assert!(LightOracle::restore(metadata(1), 0, vec![], vec![], vec![code("A"), code("A")])
        .is_none());
    assert!(LightOracle::restore(metadata(1), 0, vec![], vec![code("B")], vec![code("A")]).is_none());
    assert!(LightOracle::restore(MetadataStore::new(), 0, vec![], vec![], vec![]).is_some());
}

#[test]
fn probe_keys_step_back_by_the_resolution() {
    let key = |t: u64| to_price_data_key(2, 5, t);
    assert_eq!(probe_keys(2, 5, 35, 10, 20), vec![key(35), key(25), key(15), key(5)]);
    assert_eq!(probe_keys(2, 5, 35, 10, 2), vec![key(35), key(25)]);
    assert_eq!(probe_keys(2, 5, 30, 10, 20), vec![key(30), key(20), key(10), key(0)]);
    assert_eq!(probe_keys(2, 5, 35, 10, 0), Vec::<u128>::new());
    assert_eq!(probe_keys(2, 5, 0, 1, 3), vec![key(0)]);
    // a resolution of zero never moves
    assert_eq!(probe_keys(2, 5, 9, 0, 3), vec![key(9), key(9), key(9)]);
}

#[test]
fn collect_walk_gathers_what_the_keys_hold() {
    let mut records: HashMap<u128, PriceData> = HashMap::new();
    records.insert(to_price_data_key(2, 5, 35), PriceData::new(1, 35));
    records.insert(to_price_data_key(2, 5, 15), PriceData::new(2, 15));
    records.insert(to_price_data_key(2, 6, 25), PriceData::new(3, 25));
    assert_eq!(
        collect_walk(&records, 2, 5, 35, 10, 20),
        vec![PriceData::new(1, 35), PriceData::new(2, 15)]
    );
    assert_eq!(collect_walk(&records, 2, 5, 35, 10, 1), vec![PriceData::new(1, 35)]);
    assert_eq!(collect_walk(&records, 2, 6, 35, 10, 20), vec![PriceData::new(3, 25)]);
    assert_eq!(collect_walk(&records, 2, 5, 34, 10, 20), vec![]);
}

#[test]
fn latest_keys_are_those_of_the_query() {
    let mut oracle = LightOracle::new();
    assert_eq!(oracle.latest_keys(0, &code("A"), 3), Err(OracleError::NotInitialized));
    oracle.initialize(admin(), code("USD"), 18, 10).unwrap();
    assert_eq!(oracle.latest_keys(0, &code("A"), 3), Err(OracleError::UnknownAsset));
    assert_eq!(oracle.latest_keys(0, &code("A"), 0), Ok(vec![]));
    let batch = vec![InternalPrice {
        source: 0,
        asset: code("A"),
        asset_u32: 0,
        price: 1,
        timestamp: 1000,
    }];
    oracle.add_prices(&admin(), &batch).unwrap();
    let keys = oracle.latest_keys(0, &code("A"), 3).unwrap();
    assert_eq!(
        keys,
        vec![
            to_price_data_key(0, 0, 1000),
            to_price_data_key(0, 0, 990),
            to_price_data_key(0, 0, 980)
        ]
    );
    assert_eq!(oracle.latest_keys(0, &code("A"), 500).unwrap().len(), MAX_RECORDS as usize);
}
