use xcm_fundamentals::asset::{Asset, AssetFilter, AssetId, WildAsset};
use xcm_fundamentals::error::{ProcessMessageError, XcmError};
use xcm_fundamentals::executor::{
    admission_properties, HostRequest, Outcome, ProcessTransaction, Properties, ShouldExecute, TransactAsset, XcmConfig, XcmContext,
    XcmExecutor,
};
use xcm_fundamentals::instruction::{alice, Instruction, OriginKind, Weight, WeightLimit, Xcm};
use xcm_fundamentals::location::{Junction, Junctions, Location, NetworkId};
use xcm_fundamentals::pallet_xcm::{
    RouterEvent,
    message_for_send, send_interior, teleport_messages, Config, Error, Pallet, SendError, Versioned,
};

const ALICE: [u8; 32] = [1u8; 32];
const BOB: [u8; 32] = [2u8; 32];
const INITIAL_BALANCE: u128 = 1_000_000_000_000;

fn account(id: [u8; 32]) -> Location {
    Location::new(0, Junctions::X1(Junction::AccountId32 { network: None, id }))
}

fn relay_token(amount: u128) -> Asset {
    Asset::fungible(Location::parent(), amount)
}

#[derive(Clone, Debug, PartialEq)]
enum Caller {
    Root,
    Signed([u8; 32]),
}

/// A host with one token (the relay token) kept in balances per account.
#[derive(Clone, Debug, PartialEq)]
struct Ledger {
    balances: Vec<([u8; 32], u128)>,
    saved: Vec<Vec<([u8; 32], u128)>>,
    transactional: bool,
    transactor_calls: usize,
    admitted: Option<Location>,
    fail_deposits: bool,
    universal: Junctions,
    sent: Vec<(Location, Xcm<()>)>,
}

impl Ledger {
    fn new() -> Ledger {
        Ledger {
            balances: vec![(ALICE, INITIAL_BALANCE)],
            saved: Vec::new(),
            transactional: true,
            transactor_calls: 0,
            admitted: None,
            fail_deposits: false,
            universal: Junctions::X2(
                Junction::GlobalConsensus(NetworkId::Polkadot),
                Junction::Parachain(1),
            ),
            sent: Vec::new(),
        }
    }

    fn balance(&self, who: [u8; 32]) -> u128 {
        self.balances.iter().find(|(k, _)| *k == who).map(|(_, b)| *b).unwrap_or(0)
    }

    fn set_balance(&mut self, who: [u8; 32], amount: u128) {
        match self.balances.iter_mut().find(|(k, _)| *k == who) {
            Some(entry) => entry.1 = amount,
            None => self.balances.push((who, amount)),
        }
    }
}

fn account_of(location: &Location) -> Option<[u8; 32]> {
    match location.interior.last() {
        Some(Junction::AccountId32 { id, .. }) => Some(id),
        _ => None,
    }
}

fn relay_amount(asset: &Asset) -> Result<u128, XcmError> {
    match asset.fun {
        xcm_fundamentals::asset::Fungibility::Fungible(n) if asset.id == AssetId(Location::parent()) => Ok(n),
        _ => Err(XcmError::AssetNotFound),
    }
}

impl TransactAsset for Ledger {
    // Read by the verifier only; never called when the program runs.
    fn answered(&self) -> vstd::seq::Seq<(HostRequest, Result<(), XcmError>)> {
        unreachable!()
    }

    fn withdraw_asset(&mut self, what: &Asset, who: &Location, _context: &XcmContext) -> Result<(), XcmError> {
        self.transactor_calls += 1;
        let amount = relay_amount(what)?;
        let who = account_of(who).ok_or(XcmError::FailedToTransactAsset)?;
        let balance = self.balance(who);
        if balance < amount {
            return Err(XcmError::FailedToTransactAsset);
        }
        self.set_balance(who, balance - amount);
        Ok(())
    }

    fn deposit_asset(&mut self, what: &Asset, who: &Location, _context: &XcmContext) -> Result<(), XcmError> {
        self.transactor_calls += 1;
        if self.fail_deposits {
            return Err(XcmError::FailedToTransactAsset);
        }
        let amount = relay_amount(what)?;
        let who = account_of(who).ok_or(XcmError::FailedToTransactAsset)?;
        let balance = self.balance(who);
        self.set_balance(who, balance + amount);
        Ok(())
    }

    fn transfer_asset(
        &mut self,
        asset: &Asset,
        from: &Location,
        to: &Location,
        context: &XcmContext,
    ) -> Result<(), XcmError> {
        self.withdraw_asset(asset, from, context)?;
        self.deposit_asset(asset, to, context)
    }

    fn can_check_in(&mut self, _origin: &Location, what: &Asset, _context: &XcmContext) -> Result<(), XcmError> {
        self.transactor_calls += 1;
        relay_amount(what).map(|_| ())
    }

    fn check_in(&mut self, _origin: &Location, _what: &Asset, _context: &XcmContext) {
        self.transactor_calls += 1;
    }
}

impl ShouldExecute for Ledger {
    // Read by the verifier only; never called when the program runs.
    fn admits<Call>(
        &self,
        _origin: Location,
        _instructions: vstd::seq::Seq<Instruction<Call>>,
        _max_weight: Weight,
        _properties: Properties,
    ) -> bool {
        unreachable!()
    }

    fn should_execute<Call>(
        &self,
        origin: &Location,
        _instructions: &Vec<Instruction<Call>>,
        _max_weight: Weight,
        _properties: &mut Properties,
    ) -> Result<(), ProcessMessageError> {
        match &self.admitted {
            Some(only) if only != origin => Err(ProcessMessageError::Unsupported),
            _ => Ok(()),
        }
    }
}

impl ProcessTransaction for Ledger {
    fn is_transactional(&self) -> bool {
        self.transactional
    }

    fn begin_transaction(&mut self) {
        if self.transactional {
            self.saved.push(self.balances.clone());
        }
    }

    fn end_transaction(&mut self, commit: bool) {
        if self.transactional {
            let saved = self.saved.pop().unwrap();
            if !commit {
                self.balances = saved;
            }
        }
    }
}

impl XcmConfig for Ledger {}

impl Config for Ledger {
    type RuntimeOrigin = Caller;
    type Ticket = (Location, Xcm<()>);

    // The next four are read by the verifier only; never called when the
    // program runs.
    fn execute_origin_of(&self, _origin: Caller) -> Result<Location, ()> {
        unreachable!()
    }

    fn send_origin_of(&self, _origin: Caller) -> Result<Location, ()> {
        unreachable!()
    }

    fn universal(&self) -> Junctions {
        unreachable!()
    }

    fn routed(&self) -> vstd::seq::Seq<RouterEvent<(Location, Xcm<()>)>> {
        unreachable!()
    }

    fn ensure_execute_origin(&self, origin: &Caller) -> Result<Location, ()> {
        match origin {
            Caller::Root => Ok(Location::here()),
            Caller::Signed(id) => Ok(account(*id)),
        }
    }

    fn ensure_send_origin(&self, origin: &Caller) -> Result<Location, ()> {
        self.ensure_execute_origin(origin)
    }

    fn validate(&mut self, dest: &Location, message: &Xcm<()>) -> Result<((Location, Xcm<()>), Vec<Asset>), SendError> {
        if dest.parents > 1 {
            return Err(SendError::Unroutable);
        }
        Ok(((*dest, message.clone()), Vec::new()))
    }

    fn deliver(&mut self, ticket: (Location, Xcm<()>)) -> Result<[u8; 32], SendError> {
        self.sent.push(ticket);
        Ok([0u8; 32])
    }

    fn universal_location(&self) -> Junctions {
        self.universal
    }
}

fn message(instructions: Vec<Instruction<()>>) -> Xcm<()> {
    Xcm(instructions)
}

#[test]
fn xcm_executor_clear_origin_works() {
    let ledger = Ledger::new();
    let starting_origin = account(ALICE);
    let mut executor = XcmExecutor::new(starting_origin, &ledger);
    let mut ledger = ledger;

    assert_eq!(executor.context.origin, Some(starting_origin));
    assert_eq!(executor.process(&mut ledger, message(vec![Instruction::ClearOrigin])), Ok(()));
    assert_eq!(executor.context.origin, None);
}

#[test]
fn xcm_executor_withdraw_works() {
    let mut ledger = Ledger::new();
    let alice_starting_balance = ledger.balance(ALICE);
    let origin = account(ALICE);
    let mut executor = XcmExecutor::new(origin, &ledger);
    let msg = message(vec![Instruction::WithdrawAsset(vec![relay_token(100)])]);
    assert_eq!(executor.process(&mut ledger, msg), Ok(()));
    assert_eq!(executor.holding.fungible_amount(&AssetId(Location::parent())), Some(100));
    assert_eq!(ledger.balance(ALICE), alice_starting_balance - 100);
}

#[test]
fn xcm_executor_deposit_asset_works() {
    let mut ledger = Ledger::new();
    let alice_starting_balance = ledger.balance(ALICE);
    let filter = AssetFilter::Definite(vec![relay_token(100)]);
    let msg = message(vec![Instruction::DepositAsset { assets: filter, beneficiary: account(ALICE) }]);
    let mut executor = XcmExecutor::new(Location::parent(), &ledger);

    executor.holding.subsume(relay_token(100));
    assert_eq!(executor.holding.fungible_amount(&AssetId(Location::parent())), Some(100));

    assert_eq!(executor.process(&mut ledger, msg), Ok(()));
    assert_eq!(executor.holding.fungible_amount(&AssetId(Location::parent())), None);
    assert_eq!(ledger.balance(ALICE), alice_starting_balance + 100);
}

#[test]
fn xcm_executor_transfer_asset_works() {
    let mut ledger = Ledger::new();
    let alice_starting_balance = ledger.balance(ALICE);
    let bob_starting_balance = ledger.balance(BOB);
    let msg = message(vec![Instruction::TransferAsset { assets: vec![relay_token(100)], beneficiary: account(BOB) }]);
    let mut executor = XcmExecutor::new(account(ALICE), &ledger);

    assert_eq!(executor.process(&mut ledger, msg), Ok(()));
    assert_eq!(executor.holding.fungible_amount(&AssetId(Location::parent())), None);
    assert_eq!(ledger.balance(ALICE), alice_starting_balance - 100);
    assert_eq!(ledger.balance(BOB), bob_starting_balance + 100);
}

#[test]
fn withdraw_then_deposit_leaves_balance_unchanged() {
    let mut ledger = Ledger::new();
    let before = ledger.balance(ALICE);
    let msg = message(vec![
        Instruction::WithdrawAsset(vec![relay_token(100)]),
        Instruction::DepositAsset { assets: AssetFilter::Wild(WildAsset::All), beneficiary: account(ALICE) },
    ]);
    let mut executor = XcmExecutor::new(account(ALICE), &ledger);
    assert_eq!(executor.process(&mut ledger, msg), Ok(()));
    assert!(executor.holding.is_empty());
    assert_eq!(ledger.balance(ALICE), before);
}

#[test]
fn barrier_works() {
    let mut only_alice = Ledger::new();
    only_alice.admitted = Some(account(ALICE));
    let msg = message(vec![Instruction::ClearOrigin]);
    assert_eq!(
        XcmExecutor::execute(&mut only_alice, account(ALICE), msg.clone()).ensure_complete(),
        Ok(())
    );

    let outcome = XcmExecutor::execute(&mut only_alice, account(BOB), msg.clone());
    assert_eq!(outcome, Outcome::Error { error: XcmError::Barrier });
    assert_eq!(outcome.ensure_complete(), Err(XcmError::Barrier));

    let mut everyone = Ledger::new();
    assert_eq!(XcmExecutor::execute(&mut everyone, account(BOB), msg).ensure_complete(), Ok(()));
}

#[test]
fn barrier_rejection_makes_no_transactor_call() {
    let mut ledger = Ledger::new();
    ledger.admitted = Some(account(ALICE));
    let msg = message(vec![Instruction::WithdrawAsset(vec![relay_token(100)])]);
    let outcome = XcmExecutor::execute(&mut ledger, account(BOB), msg);
    assert_eq!(outcome, Outcome::Error { error: XcmError::Barrier });
    assert_eq!(outcome.weight_used(), Weight::zero());
    assert_eq!(outcome.ensure_execution(), Err(XcmError::Barrier));
    assert_eq!(ledger.transactor_calls, 0);
    assert_eq!(ledger.balance(ALICE), INITIAL_BALANCE);
}

#[test]
fn buy_execution_works() {
    let mut ledger = Ledger::new();
    let mut executor = XcmExecutor::new(account(ALICE), &ledger);
    let msg = message(vec![Instruction::BuyExecution { fees: relay_token(10), weight_limit: WeightLimit::Unlimited }]);
    assert_eq!(executor.process(&mut ledger, msg), Err(XcmError::Unimplemented));
    assert_eq!(ledger.transactor_calls, 0);
}

#[test]
fn transact_works() {
    let mut ledger = Ledger::new();
    let mut executor = XcmExecutor::new(account(ALICE), &ledger);
    let msg = message(vec![Instruction::Transact {
        origin_kind: OriginKind::SovereignAccount,
        require_weight_at_most: Weight { ref_time: u64::MAX, proof_size: u64::MAX },
        call: (),
    }]);
    assert_eq!(executor.process(&mut ledger, msg), Err(XcmError::Unimplemented));
}

#[test]
fn failing_instruction_stops_the_run() {
    let mut ledger = Ledger::new();
    let msg = message(vec![
        Instruction::WithdrawAsset(vec![relay_token(100)]),
        Instruction::RefundSurplus,
        Instruction::ClearOrigin,
    ]);
    let outcome = XcmExecutor::execute(&mut ledger, account(ALICE), msg);
    assert_eq!(outcome, Outcome::Incomplete { used: Weight::zero(), error: XcmError::Unimplemented });
    assert_eq!(outcome.ensure_execution(), Ok(Weight::zero()));
    assert_eq!(ledger.balance(ALICE), INITIAL_BALANCE - 100);
}

#[test]
fn cleared_origin_cannot_withdraw() {
    let mut ledger = Ledger::new();
    let mut executor = XcmExecutor::new(account(ALICE), &ledger);
    let msg = message(vec![Instruction::ClearOrigin, Instruction::WithdrawAsset(vec![relay_token(100)])]);
    assert_eq!(executor.process(&mut ledger, msg), Err(XcmError::BadOrigin));
    assert_eq!(ledger.transactor_calls, 0);
    assert!(executor.holding.is_empty());
}

#[test]
fn descend_origin_narrows_and_fills() {
    let mut ledger = Ledger::new();
    let mut executor = XcmExecutor::new(Location::new(1, Junctions::X1(Junction::Parachain(42))), &ledger);
    let msg = message(vec![Instruction::DescendOrigin(Junctions::X1(Junction::PalletInstance(3)))]);
    assert_eq!(executor.process(&mut ledger, msg), Ok(()));
    assert_eq!(
        executor.context.origin,
        Some(Location::new(1, Junctions::X2(Junction::Parachain(42), Junction::PalletInstance(3))))
    );

    let full = Junctions::X8(
        Junction::Parachain(1),
        Junction::Parachain(2),
        Junction::Parachain(3),
        Junction::Parachain(4),
        Junction::Parachain(5),
        Junction::Parachain(6),
        Junction::Parachain(7),
        Junction::Parachain(8),
    );
    let mut executor = XcmExecutor::new(Location::new(0, full), &ledger);
    let msg = message(vec![Instruction::DescendOrigin(Junctions::X1(Junction::PalletInstance(3)))]);
    assert_eq!(executor.process(&mut ledger, msg), Err(XcmError::LocationFull));
    assert_eq!(executor.context.origin, Some(Location::new(0, full)));
}

#[test]
fn failed_deposit_restores_holding_when_transactional() {
    let mut ledger = Ledger::new();
    ledger.fail_deposits = true;
    let mut executor = XcmExecutor::new(Location::parent(), &ledger);
    executor.holding.subsume(relay_token(100));
    let msg = message(vec![Instruction::DepositAsset { assets: AssetFilter::Wild(WildAsset::All), beneficiary: account(ALICE) }]);
    assert_eq!(executor.process(&mut ledger, msg), Err(XcmError::FailedToTransactAsset));
    assert_eq!(executor.holding.fungible_amount(&AssetId(Location::parent())), Some(100));
}

#[test]
fn failed_deposit_keeps_take_when_not_transactional() {
    let mut ledger = Ledger::new();
    ledger.fail_deposits = true;
    ledger.transactional = false;
    let mut executor = XcmExecutor::new(Location::parent(), &ledger);
    executor.holding.subsume(relay_token(100));
    let msg = message(vec![Instruction::DepositAsset { assets: AssetFilter::Wild(WildAsset::All), beneficiary: account(ALICE) }]);
    assert_eq!(executor.process(&mut ledger, msg), Err(XcmError::FailedToTransactAsset));
    assert!(executor.holding.is_empty());
}

#[test]
fn counted_wildcard_is_unimplemented() {
    let mut ledger = Ledger::new();
    let mut executor = XcmExecutor::new(Location::parent(), &ledger);
    executor.holding.subsume(relay_token(100));
    let msg = message(vec![Instruction::DepositAsset {
        assets: AssetFilter::Wild(WildAsset::AllCounted(1)),
        beneficiary: account(ALICE),
    }]);
    assert_eq!(executor.process(&mut ledger, msg), Err(XcmError::Unimplemented));
    assert_eq!(executor.holding.fungible_amount(&AssetId(Location::parent())), Some(100));
}

#[test]
fn burn_and_teleport_in() {
    let mut ledger = Ledger::new();
    let mut executor = XcmExecutor::new(Location::parent(), &ledger);
    let msg = message(vec![
        Instruction::ReceiveTeleportedAsset(vec![relay_token(70)]),
        Instruction::BurnAsset(vec![relay_token(30)]),
    ]);
    assert_eq!(executor.process(&mut ledger, msg), Ok(()));
    assert_eq!(executor.holding.fungible_amount(&AssetId(Location::parent())), Some(40));
    assert_eq!(ledger.transactor_calls, 2);
}

#[test]
fn outcome_helpers() {
    let used = Weight { ref_time: 5, proof_size: 6 };
    assert_eq!(Outcome::Complete { used }.ensure_complete(), Ok(()));
    assert_eq!(Outcome::Complete { used }.weight_used(), used);
    let incomplete = Outcome::Incomplete { used, error: XcmError::Overflow };
    assert_eq!(incomplete.ensure_complete(), Err(XcmError::Overflow));
    assert_eq!(incomplete.ensure_execution(), Ok(used));
    assert_eq!(incomplete.weight_used(), used);
}

#[test]
fn execute_works() {
    let mut ledger = Ledger::new();
    let alice_starting_balance = ledger.balance(ALICE);
    let bob_starting_balance = ledger.balance(BOB);
    let msg = message(vec![Instruction::TransferAsset { assets: vec![relay_token(100)], beneficiary: account(BOB) }]);
    assert_eq!(
        Pallet::execute(&mut ledger, &Caller::Signed(ALICE), Versioned::V4(msg), Weight::zero()),
        Ok(())
    );
    assert_eq!(ledger.balance(ALICE), alice_starting_balance - 100);
    assert_eq!(ledger.balance(BOB), bob_starting_balance + 100);
}

#[test]
fn execute_reports_executor_error() {
    let mut ledger = Ledger::new();
    let msg = message(vec![Instruction::TransferAsset { assets: vec![relay_token(INITIAL_BALANCE + 1)], beneficiary: account(BOB) }]);
    assert_eq!(
        Pallet::do_execute(&mut ledger, &Caller::Signed(ALICE), Versioned::V4(msg)),
        Err(Error::ExecutorError)
    );
    let other: Versioned<Xcm<()>> = Versioned::Other { version: 2 };
    assert_eq!(Pallet::do_execute(&mut ledger, &Caller::Signed(ALICE), other), Err(Error::BadVersion));
}

#[test]
fn do_teleport_works() {
    let mut para_a = Ledger::new();
    let mut para_b = Ledger::new();
    para_b.balances = Vec::new();
    let bob_starting_balance = para_b.balance(BOB);
    let alice_starting_balance = para_a.balance(ALICE);

    let dest = Location::new(1, Junctions::X1(Junction::Parachain(2)));
    let bob_dest = Location::new(
        1,
        Junctions::X2(Junction::Parachain(2), Junction::AccountId32 { network: None, id: BOB }),
    );
    assert_eq!(
        Pallet::teleport_assets(
            &mut para_a,
            &Caller::Signed(ALICE),
            Versioned::V4(dest),
            Versioned::V4(bob_dest),
            Versioned::V4(vec![relay_token(100)]),
            0
        ),
        Ok(())
    );
    assert_eq!(para_a.balance(ALICE), alice_starting_balance - 100);

    assert_eq!(para_a.sent.len(), 1);
    let (to, remote) = para_a.sent.pop().unwrap();
    assert_eq!(to, dest);
    assert_eq!(
        remote,
        Xcm(vec![
            Instruction::DescendOrigin(Junctions::X1(Junction::AccountId32 { network: None, id: ALICE })),
            Instruction::ReceiveTeleportedAsset(vec![relay_token(100)]),
            Instruction::ClearOrigin,
            Instruction::DepositAsset { assets: AssetFilter::Wild(WildAsset::All), beneficiary: bob_dest },
        ])
    );
    let sibling_a = Location::new(1, Junctions::X1(Junction::Parachain(1)));
    assert_eq!(XcmExecutor::execute(&mut para_b, sibling_a, remote).ensure_complete(), Ok(()));
    assert_eq!(para_b.balance(BOB), bob_starting_balance + 100);
}

#[test]
fn send_from_root_adds_no_descend() {
    let mut ledger = Ledger::new();
    let dest = Location::parent();
    let msg = message(vec![Instruction::ClearOrigin]);
    assert_eq!(Pallet::send(&mut ledger, &Caller::Root, Versioned::V4(dest), Versioned::V4(msg.clone())), Ok(()));
    assert_eq!(ledger.sent, vec![(dest, msg.clone())]);

    let far = Location::new(2, Junctions::Here);
    assert_eq!(
        Pallet::send(&mut ledger, &Caller::Root, Versioned::V4(far), Versioned::V4(msg)),
        Err(Error::RouterError)
    );
}

#[test]
fn reserve_transfer_is_unsupported() {
    let mut ledger = Ledger::new();
    assert_eq!(
        Pallet::reserve_transfer_assets(
            &mut ledger,
            &Caller::Signed(ALICE),
            Versioned::V4(Location::parent()),
            Versioned::V4(account(BOB)),
            Versioned::V4(vec![relay_token(1)]),
            0
        ),
        Err(Error::Unsupported)
    );
}

#[test]
fn alice_bytes_are_ones() {
    assert_eq!(alice(), ALICE);
}

#[test]
fn send_interior_requires_a_local_origin() {
    assert_eq!(send_interior(account(ALICE)), Ok(account(ALICE).interior));
    assert_eq!(send_interior(Location::parent()), Err(Error::InvalidOrigin));
}

#[test]
fn message_for_send_prefixes_descend_origin() {
    let msg = message(vec![Instruction::ClearOrigin]);
    assert_eq!(message_for_send(Junctions::Here, msg.clone()), msg.clone());
    let alice_interior = account(ALICE).interior;
    assert_eq!(
        message_for_send(alice_interior, msg),
        message(vec![Instruction::DescendOrigin(alice_interior), Instruction::ClearOrigin])
    );
}

#[test]
fn teleport_messages_reanchor_or_fail() {
    let context = Junctions::X1(Junction::Parachain(1));
    let sibling = Location::new(1, Junctions::X1(Junction::Parachain(2)));
    let native = Asset::fungible(Location::here(), 9);
    let (local, remote) = teleport_messages(&sibling, account(BOB), vec![native], &context).unwrap();
    assert_eq!(local, message(vec![Instruction::WithdrawAsset(vec![native]), Instruction::BurnAsset(vec![native])]));
    assert_eq!(
        remote,
        message(vec![
            Instruction::ReceiveTeleportedAsset(vec![Asset::fungible(Location::new(1, Junctions::X1(Junction::Parachain(1))), 9)]),
            Instruction::ClearOrigin,
            Instruction::DepositAsset { assets: AssetFilter::Wild(WildAsset::All), beneficiary: account(BOB) },
        ])
    );
    let too_far = Location::new(9, Junctions::Here);
    assert_eq!(teleport_messages(&too_far, account(BOB), vec![native], &context), Err(Error::CannotReanchor));
}

#[test]
fn send_with_unreadable_version_fails() {
    let mut ledger = Ledger::new();
    let other: Versioned<Location> = Versioned::Other { version: 3 };
    assert_eq!(
        Pallet::do_send(&mut ledger, &Caller::Root, other, Versioned::V4(message(vec![]))),
        Err(Error::BadVersion)
    );
    assert!(ledger.sent.is_empty());
    let other_assets: Versioned<Vec<Asset>> = Versioned::Other { version: 3 };
    assert_eq!(
        Pallet::do_teleport_assets(
            &mut ledger,
            &Caller::Signed(ALICE),
            Versioned::V4(Location::parent()),
            Versioned::V4(account(BOB)),
            other_assets,
            0
        ),
        Err(Error::BadVersion)
    );
    assert_eq!(ledger.balance(ALICE), INITIAL_BALANCE);
}

#[test]
fn execute_admitted_follows_the_answer() {
    let mut ledger = Ledger::new();
    let msg = message(vec![Instruction::WithdrawAsset(vec![relay_token(100)])]);
    let refused = XcmExecutor::execute_admitted(&mut ledger, account(ALICE), msg.clone(), Err(ProcessMessageError::Unsupported));
    assert_eq!(refused, Outcome::Error { error: XcmError::Barrier });
    assert_eq!(ledger.transactor_calls, 0);
    let admitted = XcmExecutor::execute_admitted(&mut ledger, account(ALICE), msg, Ok(()));
    assert_eq!(admitted, Outcome::Complete { used: Weight::zero() });
    assert_eq!(ledger.balance(ALICE), INITIAL_BALANCE - 100);
    assert_eq!(admission_properties(), Properties { weight_credit: Weight::zero(), message_id: None });
}

#[test]
fn withdraw_stops_at_the_first_refusal() {
    let mut ledger = Ledger::new();
    let mut executor = XcmExecutor::new(account(ALICE), &ledger);
    let msg = message(vec![Instruction::WithdrawAsset(vec![
        relay_token(10),
        relay_token(INITIAL_BALANCE),
        relay_token(1),
    ])]);
    assert_eq!(executor.process(&mut ledger, msg), Err(XcmError::FailedToTransactAsset));
    assert_eq!(ledger.transactor_calls, 2);
    assert_eq!(ledger.balance(ALICE), INITIAL_BALANCE);
    assert!(executor.holding.is_empty());
}

#[test]
fn facade_siblings_take_the_answers() {
    let mut ledger = Ledger::new();
    let msg = message(vec![Instruction::TransferAsset { assets: vec![relay_token(5)], beneficiary: account(BOB) }]);
    assert_eq!(Pallet::execute_as(&mut ledger, account(ALICE), msg), Ok(()));
    assert_eq!(ledger.balance(BOB), 5);
    assert_eq!(
        Pallet::send_as(&mut ledger, Location::parent(), Versioned::V4(Location::parent()), Versioned::V4(message(vec![]))),
        Err(Error::InvalidOrigin)
    );
    assert!(ledger.sent.is_empty());
    let context = Junctions::X1(Junction::Parachain(1));
    assert_eq!(
        Pallet::teleport_from(
            &mut ledger,
            &Caller::Signed(ALICE),
            Location::new(9, Junctions::Here),
            account(BOB),
            vec![relay_token(1)],
            context
        ),
        Err(Error::CannotReanchor)
    );
    assert_eq!(ledger.balance(ALICE), INITIAL_BALANCE - 5);
}
