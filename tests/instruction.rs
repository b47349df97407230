use xcm_fundamentals::asset::{Asset, AssetFilter, WildAsset};
use xcm_fundamentals::instruction::{
    clear_origin_message, withdraw_and_deposit, withdraw_and_deposit_paying_fees, withdraw_asset,
    Instruction, WeightLimit, Xcm,
};
use xcm_fundamentals::location::{Junction, Junctions, Location};

const ALICE: [u8; 32] = [1u8; 32];

fn alice_location() -> Location {
    Location::new(0, Junctions::X1(Junction::AccountId32 { id: ALICE, network: None }))
}

fn parent_amount(amount: u128) -> Asset {
    Asset::fungible(Location::parent(), amount)
}

#[test]
fn instruction_clear_origin_message_correct() {
    let message = clear_origin_message();

    assert_eq!(message, Xcm(vec![Instruction::ClearOrigin]));
}

#[test]
fn instruction_withdraw_asset_correct() {
    let message = withdraw_asset();

    assert_eq!(message, Xcm(vec![Instruction::WithdrawAsset(vec![parent_amount(100u128)])]));
}

#[test]
fn instruction_withdraw_and_deposit_correct() {
    let message = withdraw_and_deposit();

    assert_eq!(
        message,
        Xcm(vec![
            Instruction::WithdrawAsset(vec![parent_amount(100u128)]),
            Instruction::DepositAsset {
                assets: AssetFilter::Wild(WildAsset::All),
                beneficiary: alice_location()
            }
        ])
    );
}

#[test]
fn instruction_withdraw_and_deposit_paying_fees_correct() {
    let message = withdraw_and_deposit_paying_fees();

    assert_eq!(
        message,
        Xcm(vec![
            Instruction::WithdrawAsset(vec![parent_amount(100u128)]),
            Instruction::BuyExecution { fees: parent_amount(10u128), weight_limit: WeightLimit::Unlimited },
            Instruction::DepositAsset {
                assets: AssetFilter::Wild(WildAsset::All),
                beneficiary: alice_location()
            }
        ])
    );
}
