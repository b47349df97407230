//! Instructions of the virtual machine, messages, and a few built messages.
use vstd::prelude::*;

use crate::asset::{Asset, AssetFilter, AssetId, Fungibility, WildAsset};
use crate::location::{Junction, Junctions, Location};

verus! {

/// An amount of computation time and of proof size.
#[derive(Clone, Copy, Debug, PartialEq, Eq, Structural)]
pub struct Weight {
    pub ref_time: u64,
    pub proof_size: u64,
}

impl Weight {
    /// No weight.
    pub fn zero() -> (r: Weight)
        ensures
            r == (Weight { ref_time: 0, proof_size: 0 }),
    {
        Weight { ref_time: 0, proof_size: 0 }
    }
}

/// An optional limit on weight.
#[derive(Clone, Copy, Debug, PartialEq, Eq, Structural)]
pub enum WeightLimit {
    Unlimited,
    Limited(Weight),
}

/// The kind of origin with which a call is dispatched.
#[derive(Clone, Copy, Debug, PartialEq, Eq, Structural)]
pub enum OriginKind {
    Native,
    SovereignAccount,
    Superuser,
    Xcm,
}

/// One instruction; `Call` is the type of a dispatchable call that `Transact`
/// carries.
#[derive(Clone, Debug, PartialEq, Eq)]
pub enum Instruction<Call> {
    WithdrawAsset(Vec<Asset>),
    ReserveAssetDeposited(Vec<Asset>),
    ReceiveTeleportedAsset(Vec<Asset>),
    TransferAsset { assets: Vec<Asset>, beneficiary: Location },
    Transact { origin_kind: OriginKind, require_weight_at_most: Weight, call: Call },
    ClearOrigin,
    DescendOrigin(Junctions),
    DepositAsset { assets: AssetFilter, beneficiary: Location },
    BuyExecution { fees: Asset, weight_limit: WeightLimit },
    RefundSurplus,
    ClearError,
    BurnAsset(Vec<Asset>),
    ExpectAsset(Vec<Asset>),
    Trap(u64),
    SetTopic([u8; 32]),
    ClearTopic,
}

/// A message: instructions to run in order.
#[derive(Clone, Debug, PartialEq, Eq)]
pub struct Xcm<Call>(pub Vec<Instruction<Call>>);

/// The 32-byte account key of Alice: every byte is 1.
pub fn alice() -> (r: [u8; 32])
    ensures
        forall|i: int| 0 <= i < 32 ==> r[i] == 1u8,
{
    broadcast use vstd::array::group_array_axioms;
    [1u8; 32]
}

/// Whether `l` is Alice's account here, with no network.
pub open spec fn is_alice(l: Location) -> bool {
    l.parents == 0 && match l.interior {
        Junctions::X1(Junction::AccountId32 { network, id }) => network is None && forall|i: int|
            0 <= i < 32 ==> id[i] == 1u8,
        _ => false,
    }
}

/// Whether `instr` deposits everything held to Alice.
pub open spec fn deposits_all_to_alice(instr: Instruction<()>) -> bool {
    match instr {
        Instruction::DepositAsset { assets, beneficiary } => assets == AssetFilter::Wild(WildAsset::All)
            && is_alice(beneficiary),
        _ => false,
    }
}

/// Whether `instr` withdraws exactly `a`.
pub open spec fn withdraws_one(instr: Instruction<()>, a: Asset) -> bool {
    match instr {
        Instruction::WithdrawAsset(v) => v@ == seq![a],
        _ => false,
    }
}

/// Whether `instr` buys execution with `fees`, with no weight limit.
pub open spec fn buys_unlimited(instr: Instruction<()>, fees: Asset) -> bool {
    match instr {
        Instruction::BuyExecution { fees: f, weight_limit } => f == fees && weight_limit
            == WeightLimit::Unlimited,
        _ => false,
    }
}

/// The given amount of the parent's native token.
pub open spec fn from_parent(amount: u128) -> Asset {
    Asset {
        id: AssetId(Location { parents: 1, interior: Junctions::Here }),
        fun: Fungibility::Fungible(amount),
    }
}

/// The list of 100 units of the parent's native token.
fn withdrawn_hundred() -> (r: Vec<Asset>)
    ensures
        r@ == seq![from_parent(100)],
{
    let r = vec![Asset::fungible(Location::parent(), 100)];
    assert(r@ =~= seq![from_parent(100)]);
    r
}

/// A message holding one `ClearOrigin`.
pub fn clear_origin_message() -> (r: Xcm<()>)
    ensures
        r.0@ == seq![Instruction::<()>::ClearOrigin],
{
    Xcm(vec![Instruction::ClearOrigin])
}

/// A message that withdraws 100 units of the parent's native token.
pub fn withdraw_asset() -> (r: Xcm<()>)
    ensures
        r.0@.len() == 1,
        withdraws_one(r.0@[0], from_parent(100)),
{
    Xcm(vec![Instruction::WithdrawAsset(withdrawn_hundred())])
}

/// A message that withdraws 100 units of the parent's native token and
/// deposits everything held to Alice.
pub fn withdraw_and_deposit() -> (r: Xcm<()>)
    ensures
        r.0@.len() == 2,
        withdraws_one(r.0@[0], from_parent(100)),
        deposits_all_to_alice(r.0@[1]),
{
    let alice_account = Location::new(
        0,
        Junctions::X1(Junction::AccountId32 { network: None, id: alice() }),
    );
    Xcm(
        vec![
            Instruction::WithdrawAsset(withdrawn_hundred()),
            Instruction::DepositAsset { assets: AssetFilter::Wild(WildAsset::All), beneficiary: alice_account },
        ],
    )
}

/// Like `withdraw_and_deposit`, with a `BuyExecution` that pays up to 10 of
/// the withdrawn units in fees, with no weight limit.
pub fn withdraw_and_deposit_paying_fees() -> (r: Xcm<()>)
    ensures
        r.0@.len() == 3,
        withdraws_one(r.0@[0], from_parent(100)),
        buys_unlimited(r.0@[1], from_parent(10)),
        deposits_all_to_alice(r.0@[2]),
{
    let alice_bytes = alice();
    let alice_account = Location::new(
        0,
        Junctions::X1(Junction::AccountId32 { network: None, id: alice_bytes }),
    );
    Xcm(
        vec![
            Instruction::WithdrawAsset(withdrawn_hundred()),
            Instruction::BuyExecution {
                fees: Asset::fungible(Location::parent(), 10),
                weight_limit: WeightLimit::Unlimited,
            },
            Instruction::DepositAsset { assets: AssetFilter::Wild(WildAsset::All), beneficiary: alice_account },
        ],
    )
}

} // verus!
