//! Compact keys: the numbers that stand for assets, and the key under which
//! one observation is kept.
use vstd::prelude::*;
use crate::store::{is_asset_in_vec, is_u32_in_vec};
use crate::types::{Asset, AssetView};

verus! {

/// The key of one observation: the source in the top 32 bits, the number of
/// the asset in the next 32, the timestamp in the low 64.
pub type PriceDataKey = u128;

/// The key of the observation that `source` made of the asset numbered `asset`
/// at `timestamp`.
pub open spec fn price_data_key(source: u32, asset: u32, timestamp: u64) -> u128 {
    (source * 0x1_0000_0000_0000_0000_0000_0000 + asset * 0x1_0000_0000_0000_0000
        + timestamp) as u128
}

/// Two observations share a key only if they agree in source, in asset number
/// and in timestamp.
pub proof fn lemma_price_data_key_injective(s1: u32, a1: u32, t1: u64, s2: u32, a2: u32, t2: u64)
    requires
        price_data_key(s1, a1, t1) == price_data_key(s2, a2, t2),
    ensures
        s1 == s2,
        a1 == a2,
        t1 == t2,
{
    let k1 = s1 * 0x1_0000_0000_0000_0000_0000_0000 + a1 * 0x1_0000_0000_0000_0000 + t1;
    let k2 = s2 * 0x1_0000_0000_0000_0000_0000_0000 + a2 * 0x1_0000_0000_0000_0000 + t2;
    assert(0 <= k1 < 0x1_0000_0000_0000_0000_0000_0000_0000_0000);
    assert(0 <= k2 < 0x1_0000_0000_0000_0000_0000_0000_0000_0000);
    assert(k1 == k2);
}

/// Packs a source, an asset number and a timestamp into the key of the
/// observation.
pub fn to_price_data_key(source_u32: u32, asset_u32: u32, timestamp_u64: u64) -> (key:
    PriceDataKey)
    ensures
        key == price_data_key(source_u32, asset_u32, timestamp_u64),
{
    let source: u128 = source_u32 as u128;
    let asset: u128 = asset_u32 as u128;
    let timestamp: u128 = timestamp_u64 as u128;
    assert(source < 0x1_0000_0000 && asset < 0x1_0000_0000 && timestamp < 0x1_0000_0000_0000_0000
        ==> ((source << 96) | (asset << 64) | timestamp) == source
        * 0x1_0000_0000_0000_0000_0000_0000 + asset * 0x1_0000_0000_0000_0000 + timestamp)
        by (bit_vector);
    let source_part = source << 96;
    let asset_part = asset << 64;
    source_part | asset_part | timestamp
}

/// A list with `x` appended unless it is in it already.
pub open spec fn with_member<T>(s: Seq<T>, x: T) -> Seq<T> {
    if s.contains(x) {
        s
    } else {
        s.push(x)
    }
}

/// What a list holds after one more item is appended.
pub proof fn lemma_push_contains<T>(s: Seq<T>, x: T, y: T)
    ensures
        s.push(x).contains(y) <==> (s.contains(y) || y == x),
{
    if s.contains(y) {
        let j = s.index_of(y);
        assert(s.push(x)[j] == y);
    }
    if y == x {
        assert(s.push(x)[s.len() as int] == y);
    }
    if s.push(x).contains(y) {
        let j = s.push(x).index_of(y);
        if j < s.len() {
            assert(s[j] == y);
        }
    }
}

/// A list without repetition stays so when an item that it lacks is appended.
pub proof fn lemma_push_no_duplicates<T>(s: Seq<T>, x: T)
    requires
        s.no_duplicates(),
        !s.contains(x),
    ensures
        s.push(x).no_duplicates(),
{
    assert forall|i: int, j: int| 0 <= i < s.push(x).len() && 0 <= j < s.push(x).len() && i
        != j implies s.push(x)[i] != s.push(x)[j] by {
        if i < s.len() && j < s.len() {
        } else if i < s.len() {
            assert(s[i] != x);
        } else {
            assert(s[j] != x);
        }
    }
}

/// In a list without repetition, the item at a place is not among those
/// before it.
pub proof fn lemma_take_lacks<T>(s: Seq<T>, i: int)
    requires
        s.no_duplicates(),
        0 <= i < s.len(),
    ensures
        !s.take(i).contains(s[i]),
        forall|y: T| s.take(i + 1).contains(y) <==> (s.take(i).contains(y) || y == s[i]),
{
    if s.take(i).contains(s[i]) {
        let j = s.take(i).index_of(s[i]);
        assert(s[j] == s[i]);
    }
    assert(s.take(i + 1) =~= s.take(i).push(s[i]));
    assert forall|y: T| s.take(i + 1).contains(y) <==> (s.take(i).contains(y) || y == s[i]) by {
        lemma_push_contains(s.take(i), s[i], y);
    }
}

/// A copy of a list of assets.
pub fn clone_assets(assets: &Vec<Asset>) -> (out: Vec<Asset>)
    ensures
        out.deep_view() == assets.deep_view(),
{
    let mut out: Vec<Asset> = Vec::new();
    let mut i: usize = 0;
    while i < assets.len()
        invariant
            i <= assets@.len(),
            out.deep_view() == assets.deep_view().take(i as int),
        decreases assets@.len() - i,
    {
        let ghost before = out.deep_view();
        out.push(assets[i].clone());
        assert(out.deep_view() =~= before.push(assets.deep_view()[i as int]));
        assert(assets.deep_view().take(i + 1) =~= assets.deep_view().take(i as int).push(
            assets.deep_view()[i as int],
        ));
        i += 1;
    }
    assert(assets.deep_view().take(assets@.len() as int) =~= assets.deep_view());
    out
}

/// Whether no number occurs twice in `v`.
pub fn distinct_u32(v: &Vec<u32>) -> (r: bool)
    ensures
        r == v@.no_duplicates(),
{
    let mut seen: Vec<u32> = Vec::new();
    let mut i: usize = 0;
    while i < v.len()
        invariant
            i <= v@.len(),
            seen@ == v@.take(i as int),
            seen@.no_duplicates(),
        decreases v@.len() - i,
    {
        if is_u32_in_vec(v[i], &seen) {
            proof {
                let j = v@.take(i as int).index_of(v@[i as int]);
                assert(v@[j] == v@[i as int]);
            }
            return false;
        }
        proof {
            lemma_push_no_duplicates(seen@, v@[i as int]);
            assert(v@.take(i + 1) =~= v@.take(i as int).push(v@[i as int]));
        }
        seen.push(v[i]);
        i += 1;
    }
    assert(v@.take(v@.len() as int) =~= v@);
    true
}

/// Whether no asset occurs twice in `v`.
pub fn distinct_assets(v: &Vec<Asset>) -> (r: bool)
    ensures
        r == v.deep_view().no_duplicates(),
{
    let ghost all = v.deep_view();
    let mut seen: Vec<Asset> = Vec::new();
    let mut i: usize = 0;
    assert(seen.deep_view() =~= all.take(0));
    while i < v.len()
        invariant
            i <= v@.len(),
            all == v.deep_view(),
            all.len() == v@.len(),
            seen.deep_view() == all.take(i as int),
            seen.deep_view().no_duplicates(),
        decreases v@.len() - i,
    {
        let ghost before = seen.deep_view();
        if is_asset_in_vec(&v[i], &seen) {
            proof {
                let j = all.take(i as int).index_of(all[i as int]);
                assert(all[j] == all[i as int]);
            }
            return false;
        }
        seen.push(v[i].clone());
        proof {
            lemma_push_no_duplicates(before, all[i as int]);
            assert(seen.deep_view() =~= before.push(all[i as int]));
            assert(all.take(i + 1) =~= all.take(i as int).push(all[i as int]));
        }
        i += 1;
    }
    assert(all.take(all.len() as int) =~= all);
    true
}

/// The number that a table gives to an asset: its place in the table.
pub open spec fn number_of(table: Seq<AssetView>, asset: AssetView) -> Option<u32> {
    if table.contains(asset) {
        Some(table.index_of(asset) as u32)
    } else {
        None
    }
}

/// The most assets that a table can number.
pub const MAX_ASSETS: usize = 0xFFFF_FFFF;

/// The table that gives every asset it has seen a small number. The first
/// asset gets 0, and each new one the lowest number not given yet. A number,
/// once given, is never taken back or given again.
pub struct AssetTable {
    assets: Vec<Asset>,
}

impl View for AssetTable {
    type V = Seq<AssetView>;

    closed spec fn view(&self) -> Seq<AssetView> {
        self.assets.deep_view()
    }
}

impl AssetTable {
    #[verifier::type_invariant]
    closed spec fn wf(&self) -> bool {
        &&& self.assets.deep_view().no_duplicates()
        &&& self.assets@.len() <= MAX_ASSETS
    }

    /// The table that has numbered nothing.
    pub fn new() -> (r: Self)
        ensures
            r@ == Seq::<AssetView>::empty(),
    {
        let assets: Vec<Asset> = Vec::new();
        assert(assets.deep_view() =~= Seq::<AssetView>::empty());
        AssetTable { assets }
    }

    /// The table that numbers `assets` in their order. `None` where an asset
    /// occurs twice or there are more than [`MAX_ASSETS`].
    pub fn from_assets(assets: Vec<Asset>) -> (r: Option<Self>)
        ensures
            r is Some <==> assets.deep_view().no_duplicates() && assets@.len() <= MAX_ASSETS,
            r is Some ==> r->0@ == assets.deep_view(),
    {
        if assets.len() > MAX_ASSETS || !distinct_assets(&assets) {
            return None;
        }
        Some(AssetTable { assets })
    }

    /// The assets that have a number, each at the place of its number.
    pub fn assets(&self) -> (out: Vec<Asset>)
        ensures
            out.deep_view() == self@,
    {
        clone_assets(&self.assets)
    }

    /// How many assets have a number.
    pub fn len(&self) -> (n: usize)
        ensures
            n == self@.len(),
            n <= MAX_ASSETS,
            self@.no_duplicates(),
    {
        proof {
            use_type_invariant(self);
        }
        self.assets.len()
    }

    /// The number of `asset`, if it was ever given one.
    pub fn lookup(&self, asset: &Asset) -> (r: Option<u32>)
        ensures
            r == number_of(self@, asset@),
            self@.no_duplicates(),
            r is Some ==> r->0 < self@.len() && self@[r->0 as int] == asset@,
    {
        proof {
            use_type_invariant(self);
        }
        let mut i: usize = 0;
        while i < self.assets.len()
            invariant
                i <= self.assets@.len(),
                self.assets@.len() <= MAX_ASSETS,
                self.assets.deep_view().len() == self.assets@.len(),
                self.assets.deep_view().no_duplicates(),
                forall|j: int| 0 <= j < i ==> self.assets.deep_view()[j] != asset@,
            decreases self.assets@.len() - i,
        {
            if self.assets[i] == *asset {
                proof {
                    let t = self.assets.deep_view();
                    assert(t[i as int] == asset@);
                    assert(t.contains(asset@));
                    let k = t.index_of(asset@);
                    assert(t[k] == asset@);
                    if k != i as int {
                        assert(false);
                    }
                }
                return Some(i as u32);
            }
            i += 1;
        }
        None
    }

    /// The number of `asset`, which gets the next free one if it has none.
    /// `None`, with nothing changed, where the asset is new and the numbers
    /// have run out.
    pub fn intern(&mut self, asset: &Asset) -> (r: Option<u32>)
        ensures
            old(self)@.contains(asset@) || old(self)@.len() < MAX_ASSETS ==> {
                &&& final(self)@ == with_member(old(self)@, asset@)
                &&& r == number_of(final(self)@, asset@)
                &&& r is Some
            },
            !old(self)@.contains(asset@) && old(self)@.len() >= MAX_ASSETS ==> {
                &&& final(self)@ == old(self)@
                &&& r is None
            },
            final(self)@.no_duplicates(),
    {
        proof {
            use_type_invariant(&*self);
        }
        match self.lookup(asset) {
            Some(n) => Some(n),
            None => {
                let len = self.assets.len();
                if len >= MAX_ASSETS {
                    return None;
                }
                let mut assets: Vec<Asset> = Vec::new();
                std::mem::swap(&mut assets, &mut self.assets);
                let ghost before = assets.deep_view();
                assets.push(asset.clone());
                proof {
                    let after = assets.deep_view();
                    assert(after =~= before.push(asset@));
                    assert(after.no_duplicates());
                    assert(after[len as int] == asset@);
                    assert(after.contains(asset@));
                    let k = after.index_of(asset@);
                    assert(after[k] == asset@);
                    if k != len as int {
                        assert(false);
                    }
                }
                self.assets = assets;
                Some(len as u32)
            },
        }
    }
}

/// The number that `table` gave to `asset`, if it gave one.
pub fn get_asset_as_u32(table: &AssetTable, asset: &Asset) -> (r: Option<u32>)
    ensures
        r == number_of(table@, asset@),
{
    table.lookup(asset)
}

} // verus!
