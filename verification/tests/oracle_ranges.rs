use price_oracle::contract::Oracle;
use price_oracle::store::is_asset_in_vec;
use price_oracle::{Address, Asset};

fn account(n: u32) -> Address {
    Address::new(format!("G{:0>55}", n))
}

fn stellar(n: u32) -> Asset {
    Asset::Stellar(account(n))
}

#[test]
fn test_initialize() {
    let mut oracle = Oracle::new();
    let admin = account(1);
    let base = stellar(2);
    let decimals = 18;
    let resolution = 1;
    oracle.initialize(admin, base, decimals, resolution).unwrap();
}

#[test]
fn test_admin() {
    let mut oracle = Oracle::new();
    let admin = account(1);
    oracle.initialize(admin.clone(), stellar(2), 18, 1).unwrap();
    assert_eq!(oracle.admin().unwrap(), admin);
}

#[test]
fn test_sources() {
    let mut oracle = Oracle::new();
    let admin = account(1);
    oracle.initialize(admin.clone(), stellar(2), 18, 1).unwrap();
    assert_eq!(oracle.admin().unwrap(), admin);
    let asset1 = stellar(11);
    let asset2 = stellar(12);
    let price1: i128 = 13579;
    let price2: i128 = 912739812;
    let mut source: u32 = 2;
    oracle.add_price(&admin, source, asset1, price1, 0).unwrap();
    let sources = oracle.sources();
    assert_eq!(sources.len(), 1);
    for s in sources.iter() {
        assert_eq!(*s, 2);
    }
    source = 3;
    oracle.add_price(&admin, source, asset2, price2, 0).unwrap();
    let sources = oracle.sources();
    assert_eq!(sources.len(), 2);
    for (index, s) in sources.iter().enumerate() {
        if index == 0 {
            assert_eq!(*s, 2);
        } else if index == 1 {
            assert_eq!(*s, 3);
        }
    }
}

#[test]
fn test_lastprices() {
    let mut oracle = Oracle::new();
    let admin = account(1);
    oracle.initialize(admin.clone(), stellar(2), 18, 1).unwrap();
    let source = 0;
    let asset = stellar(11);
    let price: i128 = 918729481812938171823918237122;
    oracle.add_price(&admin, source, asset.clone(), price, 0).unwrap();
    oracle.add_price(&admin, source, asset.clone(), price, 0).unwrap();
    oracle.add_price(&admin, source, asset.clone(), price, 0).unwrap();
    oracle.add_price(&admin, source, asset.clone(), price, 0).unwrap();

    let prices = oracle.lastprices(&asset, 10);
    assert_eq!(prices.len(), 4);
    for p in prices.iter() {
        assert_eq!(p.price, price);
        break;
    }
}

#[test]
fn test_lastprice() {
    let mut oracle = Oracle::new();
    let admin = account(1);
    oracle.initialize(admin.clone(), stellar(2), 18, 1).unwrap();
    let asset = stellar(11);
    let price: i128 = 12345678;
    let source: u32 = 0;
    oracle.add_price(&admin, source, asset.clone(), price, 0).unwrap();
    let lastprice = oracle.lastprice(&asset);
    assert_eq!(lastprice.unwrap().price, price);
}

#[test]
fn test_lastprice_two_prices() {
    let mut oracle = Oracle::new();
    let admin = account(1);
    oracle.initialize(admin.clone(), stellar(2), 18, 1).unwrap();
    let asset1 = stellar(11);
    let price1: i128 = 13579;
    let price2: i128 = 2468;
    let source: u32 = 0;
    oracle.add_price(&admin, source, asset1.clone(), price1, 0).unwrap();
    let mut lastprice1 = oracle.lastprice(&asset1);
    assert_eq!(lastprice1.unwrap().price, price1);
    oracle.add_price(&admin, source, asset1.clone(), price2, 0).unwrap();
    lastprice1 = oracle.lastprice(&asset1);
    assert_eq!(lastprice1.unwrap().price, price2);
}

#[test]
fn test_lastprice_two_assets() {
    let mut oracle = Oracle::new();
    let admin = account(1);
    oracle.initialize(admin.clone(), stellar(2), 18, 1).unwrap();
    let asset1 = stellar(11);
    let price1: i128 = 13579;
    let asset2 = stellar(12);
    let price2: i128 = 2468;
    let source: u32 = 0;
    oracle.add_price(&admin, source, asset1.clone(), price1, 0).unwrap();
    oracle.add_price(&admin, source, asset2.clone(), price2, 0).unwrap();
    let lastprice1 = oracle.lastprice(&asset1);
    assert_eq!(lastprice1.unwrap().price, price1);
    let lastprice2 = oracle.lastprice(&asset2);
    assert_eq!(lastprice2.unwrap().price, price2);
}

#[test]
fn test_lastprice_multiple_sources_assets_prices() {
    let mut oracle = Oracle::new();
    let admin = account(1);
    oracle.initialize(admin.clone(), stellar(2), 18, 1).unwrap();
    let source1: u32 = 0;
    let source2: u32 = 1;
    let asset1 = stellar(11);
    let asset2 = stellar(12);
    let asset3 = stellar(13);
    let asset4 = stellar(14);
    let price1: i128 = 912794;
    let price2: i128 = 76123918273;
    let price3: i128 = 871982739102837;
    let price4: i128 = 12039812309182;
    let price5: i128 = 9192837192837;
    let price6: i128 = 182;
    let price7: i128 = 1;
    let price8: i128 = 907812630891721023980129383;

    oracle.add_price(&admin, source1, asset1.clone(), price1, 0).unwrap();
    let mut lastprice = oracle.lastprice(&asset1);
    assert_eq!(lastprice.unwrap().price, price1);

    oracle.add_price(&admin, source1, asset1.clone(), price2, 0).unwrap();
    oracle.add_price(&admin, source1, asset2.clone(), price3, 0).unwrap();
    lastprice = oracle.lastprice(&asset1);
    assert_eq!(lastprice.unwrap().price, price2);
    lastprice = oracle.lastprice(&asset2);
    assert_eq!(lastprice.unwrap().price, price3);

    oracle.add_price(&admin, source2, asset2.clone(), price4, 0).unwrap();
    lastprice = oracle.lastprice_by_source(source2, &asset2);
    assert_eq!(lastprice.unwrap().price, price4);

    oracle.add_price(&admin, source2, asset3.clone(), price5, 0).unwrap();
    oracle.add_price(&admin, source2, asset3.clone(), price6, 0).unwrap();
    oracle.add_price(&admin, source2, asset4.clone(), price7, 0).unwrap();
    oracle.add_price(&admin, source2, asset4.clone(), price8, 0).unwrap();
    lastprice = oracle.lastprice_by_source(source2, &asset3);
    assert_eq!(lastprice.unwrap().price, price6);
    lastprice = oracle.lastprice_by_source(source2, &asset4);
    assert_eq!(lastprice.unwrap().price, price8);
}

#[test]
#[should_panic]
fn test_initialize_bad_auth() {
    let mut oracle = Oracle::new();
    let admin = account(1);
    let base = stellar(2);
    oracle.initialize(admin.clone(), base.clone(), 18, 1).unwrap();
    oracle.initialize(admin, base, 18, 1).unwrap();
}

#[test]
fn test_base() {
    let mut oracle = Oracle::new();
    let base = stellar(2);
    oracle.initialize(account(1), base.clone(), 18, 1).unwrap();
    assert_eq!(oracle.base().unwrap(), base);
}

#[test]
fn test_assets() {
    let mut oracle = Oracle::new();
    let admin = account(1);
    oracle.initialize(admin.clone(), stellar(2), 18, 1).unwrap();
    assert_eq!(oracle.admin().unwrap(), admin);
    let asset1 = stellar(11);
    let asset2 = stellar(12);
    let price1: i128 = 13579;
    let price2: i128 = 912739812;
    let mut source: u32 = 2;
    oracle.add_price(&admin, source, asset1.clone(), price1, 0).unwrap();
    let mut assets = oracle.assets();
    assert_eq!(assets.len(), 1);
    for a in assets.iter() {
        assert_eq!(*a, asset1);
    }
    source = 3;
    oracle.add_price(&admin, source, asset2.clone(), price2, 0).unwrap();
    assets = oracle.assets();
    assert_eq!(assets.len(), 2);
    assert_eq!(is_asset_in_vec(&asset1, &assets), true);
    assert_eq!(is_asset_in_vec(&asset2, &assets), true);
}

#[test]
fn test_decimals() {
    let mut oracle = Oracle::new();
    let decimals = 18;
    oracle.initialize(account(1), stellar(2), decimals, 1).unwrap();
    assert_eq!(oracle.decimals().unwrap(), decimals);
}

#[test]
fn test_resolution() {
    let mut oracle = Oracle::new();
    let resolution = 1;
    oracle.initialize(account(1), stellar(2), 18, resolution).unwrap();
    assert_eq!(oracle.resolution().unwrap(), resolution);
}

#[test]
fn test_prices() {
    let mut oracle = Oracle::new();
    let admin = account(1);
    oracle.initialize(admin.clone(), stellar(2), 18, 1).unwrap();
    let source = 0;
    let asset = stellar(11);
    let price: i128 = 918729481812938171823918237122;
    let now: u64 = 0;
    oracle.add_price(&admin, source, asset.clone(), price, now).unwrap();

    let start_timestamp = now + 2;
    let end_timestamp = now + 3;
    let prices = oracle.prices(&asset, start_timestamp, end_timestamp);
    assert_eq!(prices.len(), 0);

    let start_timestamp = now;
    let end_timestamp = start_timestamp;
    let prices = oracle.prices(&asset, start_timestamp, end_timestamp);
    assert_eq!(prices.len(), 1);
    for p in prices.iter() {
        assert_eq!(p.price, price);
        break;
    }

    let prices = oracle.prices_by_source(0, &asset, start_timestamp, end_timestamp);
    assert_eq!(prices.len(), 1);
    for p in prices.iter() {
        assert_eq!(p.price, price);
        break;
    }
}
