use xcm_fundamentals::asset::{Asset, AssetFilter, AssetId, AssetInstance, WildAsset};
use xcm_fundamentals::holding::AssetsInHolding;
use xcm_fundamentals::location::Location;

#[allow(non_snake_case)]
fn CF(amount: u128) -> Asset {
    Asset::fungible(Location::here(), amount)
}

#[allow(non_snake_case)]
fn CNF(instance_id: u8) -> Asset {
    Asset::non_fungible(Location::here(), AssetInstance::Array4([instance_id; 4]))
}

fn test_assets() -> AssetsInHolding {
    let mut assets = AssetsInHolding::new();
    assets.subsume(CF(300));
    assets.subsume(CNF(40));
    assets
}

fn here_id() -> AssetId {
    AssetId(Location::here())
}

#[test]
fn subsume_assets_works() {
    let mut t1 = test_assets();
    let mut t2 = AssetsInHolding::new();
    t2.subsume(CF(300));
    t2.subsume(CNF(50));
    t1.subsume_assets(t2.clone());

    let mut expected = AssetsInHolding::new();
    expected.subsume(CF(600));
    expected.subsume(CNF(40));
    expected.subsume(CNF(50));
    assert_eq!(t1.fungible_amount(&here_id()), Some(600));
    assert!(t1.contains_non_fungible(&here_id(), &AssetInstance::Array4([40; 4])));
    assert!(t1.contains_non_fungible(&here_id(), &AssetInstance::Array4([50; 4])));
    assert_eq!(t1.into_assets_iter(), expected.into_assets_iter());
}

#[test]
fn into_assets_iter_works() {
    let assets = test_assets();
    let mut iter = assets.into_assets_iter().into_iter();
    assert_eq!(Some(CF(300)), iter.next());
    assert_eq!(Some(CNF(40)), iter.next());
    assert_eq!(None, iter.next());
}

#[test]
fn assets_into_works() {
    let mut assets_vec: Vec<Asset> = Vec::new();
    assets_vec.push(CF(300));
    assets_vec.push(CNF(40));
    assets_vec.push(CF(300));
    assets_vec.push(CNF(40));

    let assets = AssetsInHolding::from_assets(assets_vec);
    let mut iter = assets.into_assets_iter().into_iter();
    assert_eq!(Some(CF(600)), iter.next());
    assert_eq!(Some(CNF(40)), iter.next());
    assert_eq!(None, iter.next());
}

#[test]
fn saturating_take_all_and_none_works() {
    let mut assets = test_assets();

    let taken_none = assets.saturating_take(AssetFilter::Definite(vec![]));
    assert_eq!(None, taken_none.into_assets_iter().into_iter().next());
    let taken_all = assets.saturating_take(AssetFilter::Wild(WildAsset::All));
    assert_eq!(None, assets.into_assets_iter().into_iter().next());
    assert!(taken_all.into_assets_iter() == test_assets().into_assets_iter());
}

#[test]
fn saturating_take_basic_works() {
    let mut assets1 = test_assets();

    let mut assets2 = AssetsInHolding::new();
    assets2.subsume(CF(600));
    assets2.subsume(CNF(40));
    let assets2: Vec<Asset> = assets2.into_assets_iter();

    let taken = assets1.saturating_take(AssetFilter::Definite(assets2));
    let taken = taken.into_assets_iter();
    assert_eq!(taken, vec![CF(300), CNF(40)]);
}

#[test]
fn subsume_saturates_at_the_largest_amount() {
    let mut h = AssetsInHolding::new();
    h.subsume(CF(u128::MAX - 5));
    h.subsume(CF(10));
    assert_eq!(h.fungible_amount(&here_id()), Some(u128::MAX));
    h.subsume(CNF(7));
    h.subsume(CNF(7));
    assert_eq!(h.into_assets_iter(), vec![CF(u128::MAX), CNF(7)]);
}

#[test]
fn subsume_assets_saturates_and_unites() {
    let mut a = AssetsInHolding::new();
    a.subsume(CF(u128::MAX));
    a.subsume(CNF(1));
    let mut b = AssetsInHolding::new();
    b.subsume(CF(1));
    b.subsume(CNF(1));
    b.subsume(CNF(2));
    a.subsume_assets(b);
    assert_eq!(a.into_assets_iter(), vec![CF(u128::MAX), CNF(1), CNF(2)]);
}

#[test]
fn partial_take_leaves_the_rest() {
    let mut h = test_assets();
    let taken = h.saturating_take(AssetFilter::Definite(vec![CF(120), CF(30), CNF(41)]));
    assert_eq!(taken.into_assets_iter(), vec![CF(150)]);
    assert_eq!(h.fungible_amount(&here_id()), Some(150));
    assert!(h.contains_non_fungible(&here_id(), &AssetInstance::Array4([40; 4])));
}

#[test]
fn take_to_zero_deletes_the_entry() {
    let mut h = test_assets();
    let taken = h.saturating_take(AssetFilter::Definite(vec![CF(300), CNF(40)]));
    assert_eq!(taken.into_assets_iter(), vec![CF(300), CNF(40)]);
    assert_eq!(h.fungible_amount(&here_id()), None);
    assert!(h.is_empty());
}

#[test]
fn take_of_an_absent_class_takes_nothing() {
    let mut h = test_assets();
    let other = Asset::fungible(Location::parent(), 10);
    let taken = h.saturating_take(AssetFilter::Definite(vec![other]));
    assert!(taken.is_empty());
    assert_eq!(h.into_assets_iter(), test_assets().into_assets_iter());
}

#[test]
fn duplicate_holds_the_same() {
    let h = test_assets();
    let d = h.duplicate();
    assert_eq!(d.into_assets_iter(), h.into_assets_iter());
}

#[test]
fn assets_come_out_in_ascending_order() {
    let mut h = AssetsInHolding::new();
    h.subsume(Asset::fungible(Location::parent(), 5));
    h.subsume(CNF(50));
    h.subsume(CF(7));
    h.subsume(CNF(40));
    h.subsume(Asset::non_fungible(Location::parent(), AssetInstance::Index(3)));
    assert_eq!(
        h.into_assets_iter(),
        vec![
            CF(7),
            Asset::fungible(Location::parent(), 5),
            CNF(40),
            CNF(50),
            Asset::non_fungible(Location::parent(), AssetInstance::Index(3)),
        ]
    );
}
