use xcm_fundamentals::asset::{
    all_assets_filter, dot_filter, dot_token, empty_assets, nft, nft_location, one_hundred_dot,
    one_hundred_usdt, usdt, usdt_filter, Asset, AssetFilter, AssetId, AssetInstance, WildAsset,
};
use xcm_fundamentals::location::{Junction, Junctions, Location};

#[test]
fn fungibles() {
    assert_eq!(empty_assets(), Vec::<Asset>::new());
    assert_eq!(
        usdt(),
        AssetId(Location::new(0, Junctions::X2(Junction::PalletInstance(50), Junction::GeneralIndex(1984))))
    );
    assert_eq!(dot_token(), AssetId(Location::new(1, Junctions::Here)));
    assert_eq!(one_hundred_usdt(), Asset::fungible(usdt().0, 100_000_000u128));
    assert_eq!(one_hundred_dot(), Asset::fungible(dot_token().0, 1_000_000_000_000u128));
}

#[test]
fn nonfungibles() {
    assert_eq!(
        nft_location(),
        Location::new(0, Junctions::X2(Junction::PalletInstance(52), Junction::GeneralIndex(3)))
    );
    assert_eq!(nft(), Asset::non_fungible(nft_location(), AssetInstance::Index(69)));
}

#[test]
fn filters() {
    assert_eq!(all_assets_filter(), AssetFilter::Wild(WildAsset::All));
    assert_eq!(dot_filter(), AssetFilter::Definite(vec![one_hundred_dot()]));
    assert_eq!(usdt_filter(), AssetFilter::Definite(vec![one_hundred_usdt()]));
}

#[test]
fn test_empty_assets() {
    let assets = empty_assets();
    assert_eq!(assets, Vec::new());
}

#[test]
fn instance_comparison() {
    assert!(AssetInstance::Array4([1, 2, 3, 4]).same_as(&AssetInstance::Array4([1, 2, 3, 4])));
    assert!(!AssetInstance::Array4([1, 2, 3, 4]).same_as(&AssetInstance::Array4([1, 2, 3, 5])));
    assert!(!AssetInstance::Index(4).same_as(&AssetInstance::Undefined));
}
