use xcm_fundamentals::asset::Asset;
use xcm_fundamentals::error::XcmError;
use xcm_fundamentals::filters::{
    NativeAssetFrom, ParentOrParentsExecutivePlurality, RelayAssetFrom, ReserveAssetsFrom,
};
use xcm_fundamentals::location::{
    check_sibling_parachains, descend_origin, extract_last_account_id, BodyId, BodyPart, Junction,
    Junctions, Location, NetworkId,
};

const ALICE_BYTES: [u8; 32] = [1u8; 32];

fn alice_junction() -> Junction {
    Junction::AccountId32 { network: None, id: ALICE_BYTES }
}

#[test]
fn extract_last_account_id_works() {
    let tests: Vec<(Location, Option<[u8; 32]>)> = vec![
        (Location::here(), None),
        (
            Location::new(
                0,
                Junctions::X3(
                    Junction::GlobalConsensus(NetworkId::Polkadot),
                    Junction::Parachain(1000),
                    alice_junction(),
                ),
            ),
            Some(ALICE_BYTES),
        ),
    ];

    for (loc, res) in tests {
        assert_eq!(extract_last_account_id(loc), res);
    }
}

#[test]
fn check_sibling_parachains_works() {
    let tests: Vec<(Location, Option<u32>)> = vec![
        (Location::here(), None),
        (Location::new(0, Junctions::X1(Junction::Parachain(1000))), None),
        (Location::new(0, Junctions::X1(Junction::Parachain(1000))), None),
        (Location::new(1, Junctions::X1(Junction::Parachain(1000))), Some(1000)),
        (Location::new(0, Junctions::X2(Junction::Parachain(1000), alice_junction())), None),
    ];

    for (loc, res) in tests {
        assert_eq!(check_sibling_parachains(loc), res);
    }
}

#[test]
fn descend_origin_works() {
    let acc = Junction::AccountIndex64 { network: None, index: 23 };
    let mut m = Location { parents: 1, interior: Junctions::X2(Junction::Parachain(42), Junction::PalletInstance(3)) };
    assert_eq!(descend_origin(&mut m, Location::new(0, Junctions::X1(acc))), Ok(()));
    assert_eq!(
        m,
        Location {
            parents: 1,
            interior: Junctions::X3(Junction::Parachain(42), Junction::PalletInstance(3), acc),
        }
    );
}

#[test]
fn descend_origin_into_full_location_fails() {
    let full = Junctions::X8(
        Junction::Parachain(1),
        Junction::Parachain(2),
        Junction::Parachain(3),
        Junction::Parachain(4),
        Junction::Parachain(5),
        Junction::Parachain(6),
        Junction::Parachain(7),
        Junction::Parachain(8),
    );
    let mut m = Location::new(0, full);
    assert_eq!(descend_origin(&mut m, Location::new(0, Junctions::X1(Junction::OnlyChild))), Err(XcmError::LocationFull));
    assert_eq!(m, Location::new(0, full));
}

#[test]
fn append_with_cancels_parents() {
    let mut m = Location::new(1, Junctions::X2(Junction::Parachain(42), Junction::PalletInstance(3)));
    let suffix = Location::new(1, Junctions::X1(Junction::GeneralIndex(7)));
    assert_eq!(m.append_with(suffix), Ok(()));
    assert_eq!(m, Location::new(1, Junctions::X2(Junction::Parachain(42), Junction::GeneralIndex(7))));

    let mut h = Location::here();
    assert_eq!(h.append_with(Location::new(2, Junctions::Here)), Ok(()));
    assert_eq!(h, Location::new(2, Junctions::Here));

    let mut top = Location::new(255, Junctions::Here);
    assert_eq!(top.append_with(Location::parent()), Err(Location::parent()));
    assert_eq!(top, Location::new(255, Junctions::Here));
}

#[test]
fn reanchor_relay_token_for_sibling() {
    let context = Junctions::X2(Junction::GlobalConsensus(NetworkId::Polkadot), Junction::Parachain(1));
    let sibling = Location::new(1, Junctions::X1(Junction::Parachain(2)));

    let mut relay = Location::parent();
    assert_eq!(relay.reanchor(&sibling, &context), Ok(()));
    assert_eq!(relay, Location::parent());

    let mut native = Location::here();
    assert_eq!(native.reanchor(&sibling, &context), Ok(()));
    assert_eq!(native, Location::new(1, Junctions::X1(Junction::Parachain(1))));

    let mut sibling_token = Location::new(1, Junctions::X2(Junction::Parachain(2), Junction::PalletInstance(5)));
    assert_eq!(sibling_token.reanchor(&sibling, &context), Ok(()));
    assert_eq!(sibling_token, Location::new(0, Junctions::X1(Junction::PalletInstance(5))));
}

#[test]
fn invert_target_pads_with_only_child() {
    let context = Junctions::X1(Junction::Parachain(1));
    let up_two = Location::new(2, Junctions::Here);
    assert_eq!(
        context.invert_target(&up_two),
        Ok(Location::new(0, Junctions::X2(Junction::OnlyChild, Junction::Parachain(1))))
    );
    let too_far = Location::new(9, Junctions::Here);
    assert_eq!(context.invert_target(&too_far), Err(()));
}

#[test]
fn trust_filters() {
    assert!(ParentOrParentsExecutivePlurality::contains(&Location::parent()));
    assert!(ParentOrParentsExecutivePlurality::contains(&Location::new(
        1,
        Junctions::X1(Junction::Plurality { id: BodyId::Executive, part: BodyPart::Voice })
    )));
    assert!(!ParentOrParentsExecutivePlurality::contains(&Location::new(
        1,
        Junctions::X1(Junction::Plurality { id: BodyId::Technical, part: BodyPart::Voice })
    )));
    assert!(!ParentOrParentsExecutivePlurality::contains(&Location::here()));

    let asset_hub = Location::new(1, Junctions::X1(Junction::Parachain(1000)));
    let native = NativeAssetFrom { from: asset_hub };
    assert!(native.contains(&Asset::fungible(Location::here(), 5), &asset_hub));
    assert!(!native.contains(&Asset::fungible(Location::parent(), 5), &asset_hub));
    assert!(!native.contains(&Asset::fungible(Location::here(), 5), &Location::parent()));

    let relay = RelayAssetFrom { from: asset_hub };
    assert!(relay.contains(&Asset::fungible(Location::parent(), 5), &asset_hub));
    assert!(!relay.contains(&Asset::fungible(Location::here(), 5), &asset_hub));

    let reserve = ReserveAssetsFrom { from: asset_hub };
    assert!(reserve.contains(&Asset::fungible(Location::here(), 5), &asset_hub));
    assert!(!reserve.contains(&Asset::fungible(Location::here(), 5), &Location::parent()));
}
