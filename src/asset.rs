//! Assets: identifiers, amounts or instances, and filters that select them.
use vstd::prelude::*;

use crate::location::{bytes_eq, Junction, Junctions, Location};

verus! {

/// Identifies a class of assets by the location that defines it.
#[derive(Clone, Copy, Debug, PartialEq, Eq)]
pub struct AssetId(pub Location);

/// One item of a non-fungible class.
#[derive(Clone, Copy, Debug, PartialEq, Eq)]
pub enum AssetInstance {
    Undefined,
    Index(u128),
    Array4([u8; 4]),
    Array8([u8; 8]),
    Array16([u8; 16]),
    Array32([u8; 32]),
}

/// How much of a class an asset is: an amount, or one instance.
#[derive(Clone, Copy, Debug, PartialEq, Eq)]
pub enum Fungibility {
    Fungible(u128),
    NonFungible(AssetInstance),
}

/// A definite asset: a class and an amount or instance of it.
#[derive(Clone, Copy, Debug, PartialEq, Eq)]
pub struct Asset {
    pub id: AssetId,
    pub fun: Fungibility,
}

/// Which fungibility a wildcard selects.
#[derive(Clone, Copy, Debug, PartialEq, Eq, Structural)]
pub enum WildFungibility {
    Fungible,
    NonFungible,
}

/// A wildcard over held assets.
#[derive(Clone, Copy, Debug, PartialEq, Eq)]
pub enum WildAsset {
    All,
    AllOf { id: AssetId, fun: WildFungibility },
    AllCounted(u32),
    AllOfCounted { id: AssetId, fun: WildFungibility, count: u32 },
}

/// A selection of assets: a definite list, or a wildcard.
#[derive(Clone, Debug, PartialEq, Eq)]
pub enum AssetFilter {
    Definite(Vec<Asset>),
    Wild(WildAsset),
}

impl AssetId {
    /// Whether two identifiers name the same class.
    pub fn same_as(&self, other: &AssetId) -> (r: bool)
        ensures
            r == (*self == *other),
    {
        self.0.same_as(&other.0)
    }
}

impl AssetInstance {
    /// Whether two instances are the same.
    pub fn same_as(&self, other: &AssetInstance) -> (r: bool)
        ensures
            r == (*self == *other),
    {
        match (self, other) {
            (AssetInstance::Undefined, AssetInstance::Undefined) => true,
            (AssetInstance::Index(a), AssetInstance::Index(b)) => *a == *b,
            (AssetInstance::Array4(a), AssetInstance::Array4(b)) => bytes_eq(a, b),
            (AssetInstance::Array8(a), AssetInstance::Array8(b)) => bytes_eq(a, b),
            (AssetInstance::Array16(a), AssetInstance::Array16(b)) => bytes_eq(a, b),
            (AssetInstance::Array32(a), AssetInstance::Array32(b)) => bytes_eq(a, b),
            _ => false,
        }
    }
}

impl Asset {
    /// `amount` of the fungible class at `id`.
    pub fn fungible(id: Location, amount: u128) -> (r: Asset)
        ensures
            r == (Asset { id: AssetId(id), fun: Fungibility::Fungible(amount) }),
    {
        Asset { id: AssetId(id), fun: Fungibility::Fungible(amount) }
    }

    /// The item `instance` of the non-fungible class at `id`.
    pub fn non_fungible(id: Location, instance: AssetInstance) -> (r: Asset)
        ensures
            r == (Asset { id: AssetId(id), fun: Fungibility::NonFungible(instance) }),
    {
        Asset { id: AssetId(id), fun: Fungibility::NonFungible(instance) }
    }
}

impl AssetFilter {
    /// Whether the holding register can take by this filter: a definite list,
    /// or the uncounted wildcard over everything.
    pub open spec fn is_supported(&self) -> bool {
        match *self {
            AssetFilter::Definite(_) => true,
            AssetFilter::Wild(WildAsset::All) => true,
            _ => false,
        }
    }

    /// Executable form of `is_supported`.
    pub fn supported(&self) -> (r: bool)
        ensures
            r == self.is_supported(),
    {
        match self {
            AssetFilter::Definite(_) => true,
            AssetFilter::Wild(WildAsset::All) => true,
            _ => false,
        }
    }
}

/// A list of no assets.
pub fn empty_assets() -> (r: Vec<Asset>)
    ensures
        r@ == Seq::<Asset>::empty(),
{
    Vec::new()
}

/// USDT, seen from the asset hub: asset 1984 of pallet 50.
pub fn usdt() -> (r: AssetId)
    ensures
        r == AssetId(Location {
            parents: 0,
            interior: Junctions::X2(Junction::PalletInstance(50), Junction::GeneralIndex(1984)),
        }),
{
    AssetId(Location::new(0, Junctions::X2(Junction::PalletInstance(50), Junction::GeneralIndex(1984))))
}

/// The relay chain's native token, one hop up.
pub fn dot_token() -> (r: AssetId)
    ensures
        r == AssetId(Location { parents: 1, interior: Junctions::Here }),
{
    AssetId(Location::parent())
}

/// One hundred USDT (six decimals).
pub fn one_hundred_usdt() -> (r: Asset)
    ensures
        r == (Asset { id: usdt_spec(), fun: Fungibility::Fungible(100_000_000) }),
{
    Asset { id: usdt(), fun: Fungibility::Fungible(100_000_000) }
}

/// One hundred DOT (ten decimals).
pub fn one_hundred_dot() -> (r: Asset)
    ensures
        r == (Asset { id: AssetId(Location { parents: 1, interior: Junctions::Here }), fun: Fungibility::Fungible(1_000_000_000_000) }),
{
    Asset { id: dot_token(), fun: Fungibility::Fungible(1_000_000_000_000) }
}

/// The identifier that `usdt` returns.
pub open spec fn usdt_spec() -> AssetId {
    AssetId(Location {
        parents: 0,
        interior: Junctions::X2(Junction::PalletInstance(50), Junction::GeneralIndex(1984)),
    })
}

/// NFT collection 3 of pallet 52, seen from the asset hub.
pub fn nft_location() -> (r: Location)
    ensures
        r == (Location { parents: 0, interior: Junctions::X2(Junction::PalletInstance(52), Junction::GeneralIndex(3)) }),
{
    Location::new(0, Junctions::X2(Junction::PalletInstance(52), Junction::GeneralIndex(3)))
}

/// Item 69 of that collection.
pub fn nft() -> (r: Asset)
    ensures
        r == (Asset {
            id: AssetId(Location { parents: 0, interior: Junctions::X2(Junction::PalletInstance(52), Junction::GeneralIndex(3)) }),
            fun: Fungibility::NonFungible(AssetInstance::Index(69)),
        }),
{
    Asset::non_fungible(nft_location(), AssetInstance::Index(69))
}

/// The filter that selects everything.
pub fn all_assets_filter() -> (r: AssetFilter)
    ensures
        r == AssetFilter::Wild(WildAsset::All),
{
    AssetFilter::Wild(WildAsset::All)
}

/// The filter that selects one hundred DOT.
pub fn dot_filter() -> (r: AssetFilter)
    ensures
        r matches AssetFilter::Definite(v) && v@ == seq![Asset {
            id: AssetId(Location { parents: 1, interior: Junctions::Here }),
            fun: Fungibility::Fungible(1_000_000_000_000),
        }],
{
    let r = AssetFilter::Definite(vec![one_hundred_dot()]);
    r
}

/// The filter that selects one hundred USDT.
pub fn usdt_filter() -> (r: AssetFilter)
    ensures
        r matches AssetFilter::Definite(v) && v@ == seq![Asset { id: usdt_spec(), fun: Fungibility::Fungible(100_000_000) }],
{
    AssetFilter::Definite(vec![one_hundred_usdt()])
}

} // verus!
