//! Predicates a host uses to decide whom it trusts: for free execution, as
//! teleporter, or as reserve of an asset.
use vstd::prelude::*;

use crate::asset::{Asset, AssetId, Fungibility};
use crate::location::{BodyId, Junction, Junctions, Location};

verus! {

/// The parent, or the parent's executive body.
pub struct ParentOrParentsExecutivePlurality;

impl ParentOrParentsExecutivePlurality {
    /// Whether `location` is the parent itself or its executive plurality.
    pub fn contains(location: &Location) -> (r: bool)
        ensures
            r == (location.parents == 1 && match location.interior {
                Junctions::Here => true,
                Junctions::X1(Junction::Plurality { id, .. }) => id == BodyId::Executive,
                _ => false,
            }),
    {
        match location {
            Location { parents: 1, interior: Junctions::Here } => true,
            Location { parents: 1, interior: Junctions::X1(Junction::Plurality { id: BodyId::Executive, .. }) } => true,
            _ => false,
        }
    }
}

/// Trusts one location, `from`, for fungible amounts of our native token.
pub struct NativeAssetFrom {
    pub from: Location,
}

impl NativeAssetFrom {
    /// Whether `asset` is a fungible amount of the native token (the class
    /// here) and `location` is the trusted one.
    pub fn contains(&self, asset: &Asset, location: &Location) -> (r: bool)
        ensures
            r == (self.from == *location && asset.fun is Fungible && asset.id == AssetId(
                Location { parents: 0, interior: Junctions::Here },
            )),
    {
        self.from.same_as(location) && match asset.fun {
            Fungibility::Fungible(_) => asset.id.0.same_as(&Location::here()),
            Fungibility::NonFungible(_) => false,
        }
    }
}

/// Trusts one location, `from`, for fungible amounts of the relay token.
pub struct RelayAssetFrom {
    pub from: Location,
}

impl RelayAssetFrom {
    /// Whether `asset` is a fungible amount of the relay token (the class one
    /// hop up) and `location` is the trusted one.
    pub fn contains(&self, asset: &Asset, location: &Location) -> (r: bool)
        ensures
            r == (self.from == *location && asset.fun is Fungible && asset.id == AssetId(
                Location { parents: 1, interior: Junctions::Here },
            )),
    {
        self.from.same_as(location) && match asset.fun {
            Fungibility::Fungible(_) => asset.id.0.same_as(&Location::parent()),
            Fungibility::NonFungible(_) => false,
        }
    }
}

/// Trusts one location, `from`, as reserve of any asset.
pub struct ReserveAssetsFrom {
    pub from: Location,
}

impl ReserveAssetsFrom {
    /// Whether `origin` is the trusted reserve.
    pub fn contains(&self, _asset: &Asset, origin: &Location) -> (r: bool)
        ensures
            r == (self.from == *origin),
    {
        self.from.same_as(origin)
    }
}

} // verus!
