use price_oracle::contract_light::LightOracle;
use price_oracle::store::is_asset_in_vec;
use price_oracle::{Address, Asset, InternalPrice, OracleError, PriceData};

fn account(n: u32) -> Address {
    Address::new(format!("G{:0>55}", n))
}

fn stellar(n: u32) -> Asset {
    Asset::Stellar(account(n))
}

fn initialized(admin: &Address, resolution: u32) -> LightOracle {
    let mut oracle = LightOracle::new();
    oracle.initialize(admin.clone(), stellar(900), 18, resolution).unwrap();
    oracle
}

fn one(source: u32, asset: &Asset, asset_u32: u32, price: i128, timestamp: u64) -> InternalPrice {
    InternalPrice { source, asset: asset.clone(), asset_u32, price, timestamp }
}

#[test]
fn test_light_test_initialize() {
    let mut oracle = LightOracle::new();
    let admin = account(1);
    let base = stellar(2);
    let decimals = 18;
    let resolution = 1;
    oracle.initialize(admin, base, decimals, resolution).unwrap();
}

#[test]
#[should_panic]
fn test_light_test_initialize_bad_auth() {
    let mut oracle = LightOracle::new();
    let admin = account(1);
    let base = stellar(2);
    oracle.initialize(admin.clone(), base.clone(), 18, 1).unwrap();
    oracle.initialize(admin, base, 18, 1).unwrap();
}

#[test]
#[should_panic]
fn test_light_test_initialize_twice() {
    let mut oracle = LightOracle::new();
    let admin = account(1);
    let base = stellar(2);
    oracle.initialize(admin.clone(), base.clone(), 18, 1).unwrap();
    oracle.initialize(admin, base, 18, 1).unwrap();
}

#[test]
fn test_light_test_admin() {
    let admin = account(1);
    let oracle = initialized(&admin, 1);
    assert_eq!(oracle.read_admin().unwrap(), admin);
}

#[test]
fn test_light_test_lastprice() {
    let admin = account(1);
    let mut oracle = initialized(&admin, 1);
    let asset = stellar(11);
    let price: i128 = 12345678;
    let source: u32 = 0;
    let timestamp = 0;
    let prices = vec![one(source, &asset, 0, price, timestamp)];
    oracle.add_prices(&admin, &prices).unwrap();
    let lastprice = oracle.lastprice(&asset).unwrap();
    assert_eq!(lastprice.unwrap().price, price);
}

#[test]
fn test_light_test_lastprice_two_prices() {
    let admin = account(1);
    let mut oracle = initialized(&admin, 1);
    let asset1 = stellar(11);
    let price1: i128 = 13579;
    let price2: i128 = 2468;
    let source: u32 = 0;
    let timestamp = 0;
    let prices = vec![one(source, &asset1, 1, price1, timestamp)];
    oracle.add_prices(&admin, &prices).unwrap();
    let mut lastprice1 = oracle.lastprice(&asset1).unwrap();
    assert_eq!(lastprice1.unwrap().price, price1);
    let prices = vec![one(source, &asset1, 1, price2, timestamp)];
    oracle.add_prices(&admin, &prices).unwrap();
    lastprice1 = oracle.lastprice(&asset1).unwrap();
    assert_eq!(lastprice1.unwrap().price, price2);
}

#[test]
fn test_light_test_lastprice_two_assets() {
    let admin = account(1);
    let mut oracle = initialized(&admin, 1);
    let asset1 = stellar(11);
    let price1: i128 = 13579;
    let asset2 = stellar(12);
    let price2: i128 = 2468;
    let source: u32 = 0;
    let timestamp = 0;
    let prices =
        vec![one(source, &asset1, 1, price1, timestamp), one(source, &asset2, 2, price2, timestamp)];
    oracle.add_prices(&admin, &prices).unwrap();
    let lastprice1 = oracle.lastprice(&asset1).unwrap();
    assert_eq!(lastprice1.unwrap().price, price1);
    let lastprice2 = oracle.lastprice(&asset2).unwrap();
    assert_eq!(lastprice2.unwrap().price, price2);
}

#[test]
fn test_light_test_base() {
    let mut oracle = LightOracle::new();
    let base = stellar(2);
    oracle.initialize(account(1), base.clone(), 18, 1).unwrap();
    assert_eq!(oracle.base().unwrap(), base);
}

#[test]
fn test_light_test_assets() {
    let admin = account(1);
    let mut oracle = initialized(&admin, 1);
    assert_eq!(oracle.read_admin().unwrap(), admin);
    let asset1 = stellar(11);
    let asset2 = stellar(12);
    let price1: i128 = 13579;
    let price2: i128 = 912739812;
    let timestamp = 0;
    let mut source: u32 = 2;
    let prices = vec![one(source, &asset1, 1, price1, timestamp)];
    oracle.add_prices(&admin, &prices).unwrap();
    let mut assets = oracle.assets();
    assert_eq!(assets.len(), 1);
    for a in assets.iter() {
        assert_eq!(*a, asset1);
    }
    source = 3;
    let prices = vec![one(source, &asset2, 2, price2, timestamp)];
    oracle.add_prices(&admin, &prices).unwrap();
    assets = oracle.assets();
    assert_eq!(assets.len(), 2);
    assert_eq!(is_asset_in_vec(&asset1, &assets), true);
    assert_eq!(is_asset_in_vec(&asset2, &assets), true);
}

#[test]
fn test_light_test_decimals() {
    let mut oracle = LightOracle::new();
    let decimals = 18;
    oracle.initialize(account(1), stellar(2), decimals, 1).unwrap();
    assert_eq!(oracle.decimals().unwrap(), decimals);
}

#[test]
fn test_light_test_resolution() {
    let mut oracle = LightOracle::new();
    let resolution = 1;
    oracle.initialize(account(1), stellar(2), 18, resolution).unwrap();
    assert_eq!(oracle.resolution().unwrap(), resolution);
}

#[test]
fn test_light_test_prices() {
    let admin = account(1);
    let mut oracle = initialized(&admin, 1);
    let source = 0;
    let asset = stellar(11);
    let price: i128 = 918729481812938171823918237122;
    let timestamp = 0;
    let prices = vec![one(source, &asset, 0, price, timestamp)];
    oracle.add_prices(&admin, &prices).unwrap();

    let prices = oracle.prices(&asset, 1).unwrap();
    assert!(!prices.is_none());
    let prices = prices.unwrap();
    assert_eq!(prices.len(), 1);

    let price: i128 = 71821892379218;
    let timestamp = timestamp + 1;
    let prices = vec![one(source, &asset, 0, price, timestamp)];
    oracle.add_prices(&admin, &prices).unwrap();
    let prices = oracle.prices(&asset, 5).unwrap();
    assert!(!prices.is_none());
    let prices = prices.unwrap();
    assert_eq!(prices.len(), 2);
}

#[test]
fn test_light_test_add_prices() {
    let admin = account(1);
    let mut oracle = initialized(&admin, 1);
    let source0 = 0;
    let asset0 = stellar(11);
    let price0: i128 = 918729481812938171823918237122;
    let timestamp0 = 0;
    let price1: i128 = 918729481812938171823918237123;
    let timestamp1 = timestamp0 + 1;
    let prices = vec![
        one(source0, &asset0, 0, price0, timestamp0),
        one(source0, &asset0, 0, price1, timestamp1),
    ];
    oracle.add_prices(&admin, &prices).unwrap();
    let prices = oracle.prices_by_source(source0, &asset0, 5).unwrap();
    let prices = prices.unwrap();
    assert_eq!(prices.len(), 2);
    assert_eq!(prices[0], PriceData::new(price1, timestamp1));
    assert_eq!(prices[1], PriceData::new(price0, timestamp0));
}

#[test]
#[should_panic]
fn test_light_test_write_admin_without_initialize() {
    let mut oracle = LightOracle::new();
    let admin = account(1);
    oracle.write_admin(&admin, admin.clone()).unwrap();
}

#[test]
fn test_light_test_write_admin() {
    let admin = account(1);
    let mut oracle = initialized(&admin, 1);
    let existing_admin = oracle.read_admin();
    assert_eq!(admin, existing_admin.unwrap());
    let admin2 = account(2);
    oracle.write_admin(&admin, admin2.clone()).unwrap();
    let new_admin = oracle.read_admin();
    assert_eq!(admin2, new_admin.unwrap());
}

#[test]
fn light_sources_are_registered_once_in_order() {
    let admin = account(1);
    let mut oracle = initialized(&admin, 1);
    let a = stellar(11);
    let b = Asset::Other(String::from("USD"));
    oracle
        .add_prices(&admin, &vec![one(2, &a, 0, 13579, 0), one(3, &b, 0, 912739812, 1), one(2, &b, 0, 5, 1)])
        .unwrap();
    assert_eq!(oracle.sources(), vec![2, 3]);
    assert_eq!(oracle.assets(), vec![a.clone(), b.clone()]);
    assert_eq!(oracle.get_asset_as_u32(&a), Some(0));
    assert_eq!(oracle.get_asset_as_u32(&b), Some(1));
    assert_eq!(oracle.get_asset_as_u32(&stellar(12)), None);
    let internal = oracle.get_internal_assets();
    assert_eq!(internal.len(), 2);
    assert_eq!(internal[0].asset, a);
    assert_eq!(internal[0].asset_u32, 0);
    assert_eq!(internal[1].asset, b);
    assert_eq!(internal[1].asset_u32, 1);
}

#[test]
fn light_unknown_asset_is_an_error() {
    let admin = account(1);
    let oracle = initialized(&admin, 1);
    let a = stellar(11);
    assert_eq!(oracle.price_by_source(0, &a, 0), Err(OracleError::UnknownAsset));
    assert_eq!(oracle.lastprice(&a), Err(OracleError::UnknownAsset));
    assert_eq!(oracle.prices(&a, 3), Err(OracleError::UnknownAsset));
    assert_eq!(oracle.prices(&a, 0), Ok(None));
    let fresh = LightOracle::new();
    assert_eq!(fresh.prices(&a, 3), Err(OracleError::NotInitialized));
}

#[test]
fn light_walk_steps_over_gaps_and_stops_at_zero() {
    let admin = account(1);
    let mut oracle = initialized(&admin, 10);
    let a = stellar(11);
    oracle
        .add_prices(
            &admin,
            &vec![one(0, &a, 0, 1, 5), one(0, &a, 0, 2, 15), one(0, &a, 0, 3, 20), one(0, &a, 0, 4, 35)],
        )
        .unwrap();
    // 35, 25 (nothing), 15, 5; the next step would go below zero
    let found = oracle.prices(&a, 20).unwrap().unwrap();
    assert_eq!(
        found,
        vec![PriceData::new(4, 35), PriceData::new(2, 15), PriceData::new(1, 5)]
    );
    // two probes only: 35 and 25
    let found = oracle.prices(&a, 2).unwrap().unwrap();
    assert_eq!(found, vec![PriceData::new(4, 35)]);
    // the observation at 20 lies on no step of the walk
    assert_eq!(oracle.price(&a, 20), Ok(Some(PriceData::new(3, 20))));
    // another source has nothing on the walk
    assert_eq!(oracle.prices_by_source(7, &a, 20), Ok(None));
}

#[test]
fn light_walk_probes_at_most_twenty_times() {
    let admin = account(1);
    let mut oracle = initialized(&admin, 1);
    let a = stellar(11);
    let mut batch = Vec::new();
    for t in 1..=30u64 {
        batch.push(one(0, &a, 0, t as i128, t));
    }
    oracle.add_prices(&admin, &batch).unwrap();
    let found = oracle.prices(&a, 25).unwrap().unwrap();
    assert_eq!(found.len(), 20);
    assert_eq!(found[0], PriceData::new(30, 30));
    assert_eq!(found[19], PriceData::new(11, 11));
}

#[test]
fn light_last_timestamp_is_that_of_the_last_batch() {
    let admin = account(1);
    let mut oracle = initialized(&admin, 1);
    let a = stellar(11);
    oracle.add_prices(&admin, &vec![one(0, &a, 0, 1, 100)]).unwrap();
    oracle.add_prices(&admin, &vec![one(0, &a, 0, 2, 50)]).unwrap();
    assert_eq!(oracle.lastprice(&a), Ok(Some(PriceData::new(2, 50))));
    oracle.add_prices(&admin, &vec![]).unwrap();
    assert_eq!(oracle.lastprice(&a), Ok(None));
    assert_eq!(oracle.price(&a, 100), Ok(Some(PriceData::new(1, 100))));
}

#[test]
fn light_writes_are_for_the_admin_only() {
    let admin = account(1);
    let other = account(2);
    let mut oracle = initialized(&admin, 1);
    let a = stellar(11);
    let batch = vec![one(0, &a, 0, 1, 100)];
    assert_eq!(oracle.add_prices(&other, &batch), Err(OracleError::Unauthorized));
    assert_eq!(oracle.add_prices_light(&other, &batch), Err(OracleError::Unauthorized));
    assert_eq!(oracle.remove_assets(&other, &vec![a.clone()]), Err(OracleError::Unauthorized));
    assert_eq!(oracle.remove_sources(&other, &vec![0]), Err(OracleError::Unauthorized));
    assert_eq!(oracle.assets(), vec![]);
    assert_eq!(oracle.sources(), Vec::<u32>::new());
    assert_eq!(oracle.get_asset_as_u32(&a), None);
    let mut fresh = LightOracle::new();
    assert_eq!(fresh.add_prices(&admin, &batch), Err(OracleError::NotInitialized));
}

#[test]
fn light_add_prices_light_goes_by_the_number_given() {
    let admin = account(1);
    let mut oracle = initialized(&admin, 1);
    let a = stellar(11);
    let b = stellar(12);
    oracle.add_prices(&admin, &vec![one(0, &a, 0, 1, 7), one(0, &b, 0, 2, 7)]).unwrap();
    // written under number 1, which is b's
    oracle.add_prices_light(&admin, &vec![one(4, &a, 1, 99, 8)]).unwrap();
    assert_eq!(oracle.lastprice_by_source(4, &b), Ok(Some(PriceData::new(99, 8))));
    assert_eq!(oracle.lastprice_by_source(4, &a), Ok(None));
    // nothing was registered
    assert_eq!(oracle.sources(), vec![0]);
    assert_eq!(oracle.assets().len(), 2);
}

#[test]
fn light_removing_from_registries_keeps_numbers_and_records() {
    let admin = account(1);
    let mut oracle = initialized(&admin, 1);
    let a = stellar(11);
    let b = stellar(12);
    let c = stellar(13);
    oracle
        .add_prices(&admin, &vec![one(0, &a, 0, 1, 7), one(1, &b, 0, 2, 7), one(2, &c, 0, 3, 7)])
        .unwrap();
    oracle.remove_assets(&admin, &vec![b.clone(), stellar(99)]).unwrap();
    oracle.remove_sources(&admin, &vec![0, 2]).unwrap();
    assert_eq!(oracle.assets(), vec![a.clone(), c.clone()]);
    assert_eq!(oracle.sources(), vec![1]);
    assert_eq!(oracle.get_asset_as_u32(&b), Some(1));
    assert_eq!(oracle.lastprice_by_source(1, &b), Ok(Some(PriceData::new(2, 7))));
    // b comes back at the end of the registry, under its old number
    oracle.add_prices(&admin, &vec![one(1, &b, 0, 5, 9)]).unwrap();
    assert_eq!(oracle.assets(), vec![a, c, b.clone()]);
    assert_eq!(oracle.get_asset_as_u32(&b), Some(1));
}
