//! A façade that composes instructions into user-facing operations: direct
//! execution, sending, and teleporting assets.
use vstd::prelude::*;

use crate::asset::{Asset, AssetFilter, AssetId, WildAsset};
use crate::executor::{executed, Outcome, XcmConfig, XcmExecutor};
use crate::instruction::{Instruction, Weight, Xcm};
use crate::location::{reanchored, Junction, Junctions, Location};

verus! {

/// Why a façade operation failed.
#[derive(Clone, Copy, Debug, PartialEq, Eq, Structural)]
pub enum Error {
    /// A versioned value is in a version this core does not read.
    BadVersion,
    /// The message did not run to completion.
    ExecutorError,
    /// The sending origin is not inside this system.
    InvalidOrigin,
    /// The router refused or failed to deliver.
    RouterError,
    /// An asset cannot be addressed from the destination.
    CannotReanchor,
    /// The caller may not do this.
    BadOrigin,
    /// The operation is outside this core.
    Unsupported,
}

/// Why a router did not send.
#[derive(Clone, Copy, Debug, PartialEq, Eq, Structural)]
pub enum SendError {
    NotApplicable,
    Transport,
    Unroutable,
    DestinationUnsupported,
    ExceedsMaxMessageSize,
    MissingArgument,
    Fees,
}

/// A value in a versioned envelope: in the version this core reads, or in
/// another one.
#[derive(Clone, Debug, PartialEq, Eq)]
pub enum Versioned<T> {
    V4(T),
    Other { version: u32 },
}

impl<T> Versioned<T> {
    /// The value, when it is in the version this core reads.
    pub fn into_current(self) -> (r: Result<T, Error>)
        ensures
            match self {
                Versioned::V4(t) => r == Ok::<T, Error>(t),
                Versioned::Other { .. } => r == Err::<T, Error>(Error::BadVersion),
            },
    {
        match self {
            Versioned::V4(t) => Ok(t),
            Versioned::Other { .. } => Err(Error::BadVersion),
        }
    }
}

/// What a router was asked, with its answers: a validation of `message`
/// for `dest` (with the ticket it gave, if it accepted), or a delivery of a
/// ticket (and whether it went out).
pub enum RouterEvent<Ticket> {
    Validate { dest: Location, message: Seq<Instruction<()>>, ticket: Option<Ticket> },
    Deliver { ticket: Ticket, delivered: bool },
}

/// What the façade needs from the host besides the virtual machine's own
/// capabilities: who callers are, a router, and where this system is. A
/// host keeps, as `routed`, what its router was asked, with the answers.
pub trait Config: XcmConfig {
    /// A caller as the host's dispatch sees it.
    type RuntimeOrigin;

    /// What a router hands from validation to delivery.
    type Ticket;

    /// The location a caller may execute messages as, if any.
    spec fn execute_origin_of(&self, origin: Self::RuntimeOrigin) -> Result<Location, ()>;

    /// The location a caller may send messages as, if any.
    spec fn send_origin_of(&self, origin: Self::RuntimeOrigin) -> Result<Location, ()>;

    /// The universal position of this system.
    spec fn universal(&self) -> Junctions;

    /// What the router was asked so far, oldest first.
    spec fn routed(&self) -> Seq<RouterEvent<Self::Ticket>>;

    /// The location a caller may execute messages as.
    fn ensure_execute_origin(&self, origin: &Self::RuntimeOrigin) -> (r: Result<Location, ()>)
        ensures
            r == self.execute_origin_of(*origin),
    ;

    /// The location a caller may send messages as.
    fn ensure_send_origin(&self, origin: &Self::RuntimeOrigin) -> (r: Result<Location, ()>)
        ensures
            r == self.send_origin_of(*origin),
    ;

    /// Checks that `message` can go to `dest`, and at what price.
    fn validate(&mut self, dest: &Location, message: &Xcm<()>) -> (r: Result<(Self::Ticket, Vec<Asset>), SendError>)
        ensures
            final(self).answered() == old(self).answered(),
            final(self).routed() == old(self).routed().push(
                RouterEvent::Validate {
                    dest: *dest,
                    message: message.0@,
                    ticket: match r {
                        Ok(v) => Some(v.0),
                        Err(_) => None,
                    },
                },
            ),
    ;

    /// Sends what `validate` approved; returns the message id.
    fn deliver(&mut self, ticket: Self::Ticket) -> (r: Result<[u8; 32], SendError>)
        ensures
            final(self).answered() == old(self).answered(),
            final(self).routed() == old(self).routed().push(RouterEvent::Deliver { ticket, delivered: r is Ok }),
    ;

    /// The universal position of this system.
    fn universal_location(&self) -> (r: Junctions)
        ensures
            r == self.universal(),
    ;
}

/// Whether `v` lists `a` re-anchored for `target` from universal position `ctx`.
pub open spec fn reanchored_list(a: Seq<Asset>, v: Seq<Asset>, target: Location, ctx: Seq<Junction>) -> bool {
    v.len() == a.len() && forall|i: int|
        0 <= i < a.len() ==> (#[trigger] reanchored(a[i].id.0, target, ctx) matches Some(l) && v[i] == (Asset {
            id: AssetId(l),
            fun: a[i].fun,
        }))
}

/// Whether every asset of `a` can be re-anchored for `target`.
pub open spec fn all_reanchor(a: Seq<Asset>, target: Location, ctx: Seq<Junction>) -> bool {
    forall|i: int| 0 <= i < a.len() ==> (#[trigger] reanchored(a[i].id.0, target, ctx)) is Some
}

/// Whether `instrs` is the message that burns `assets` here: withdraw, then burn.
pub open spec fn is_local_teleport(instrs: Seq<Instruction<()>>, assets: Seq<Asset>) -> bool {
    instrs.len() == 2 && (instrs[0] matches Instruction::WithdrawAsset(v) && v@ == assets) && (
    instrs[1] matches Instruction::BurnAsset(v) && v@ == assets)
}

/// Whether `instrs` is the message that mints `assets` at the destination for
/// `beneficiary`: receive the teleport, clear the origin, deposit everything.
pub open spec fn is_remote_teleport(instrs: Seq<Instruction<()>>, assets: Seq<Asset>, beneficiary: Location) -> bool {
    instrs.len() == 3 && (instrs[0] matches Instruction::ReceiveTeleportedAsset(v) && v@ == assets)
        && instrs[1] == Instruction::<()>::ClearOrigin && instrs[2] == Instruction::<()>::DepositAsset {
        assets: AssetFilter::Wild(WildAsset::All),
        beneficiary,
    }
}

/// Re-anchors each of `assets` for `target`, from universal position `context`.
pub fn reanchor_assets(assets: &Vec<Asset>, target: &Location, context: &Junctions) -> (r: Result<Vec<Asset>, ()>)
    ensures
        r is Ok == all_reanchor(assets@, *target, context@),
        r matches Ok(v) ==> reanchored_list(assets@, v@, *target, context@),
{
    let mut out: Vec<Asset> = Vec::new();
    let mut i: usize = 0;
    while i < assets.len()
        invariant
            i <= assets@.len(),
            reanchored_list(assets@.subrange(0, i as int), out@, *target, context@),
        decreases assets@.len() - i,
    {
        let a = assets[i];
        let mut id = a.id.0;
        match id.reanchor(target, context) {
            Ok(()) => {},
            Err(()) => {
                proof {
                    assert(!all_reanchor(assets@, *target, context@)) by {
                        assert(reanchored(assets@[i as int].id.0, *target, context@) is None);
                    }
                }
                return Err(());
            },
        }
        out.push(Asset { id: AssetId(id), fun: a.fun });
        proof {
            assert forall|k: int| 0 <= k < i + 1 implies (#[trigger] reanchored(assets@.subrange(0, i + 1)[k].id.0, *target, context@) matches Some(l)
                && out@[k] == (Asset { id: AssetId(l), fun: assets@.subrange(0, i + 1)[k].fun })) by {
                if k < i {
                    assert(assets@.subrange(0, i + 1)[k] == assets@.subrange(0, i as int)[k]);
                }
            }
        }
        i = i + 1;
    }
    proof {
        assert(i == assets@.len());
        assert(assets@.subrange(0, i as int) =~= assets@);
        assert(reanchored_list(assets@, out@, *target, context@));
    }
    Ok(out)
}

/// The instructions sent as `interior`: `instrs` from this system's root,
/// otherwise `instrs` after a `DescendOrigin` into `interior`.
pub open spec fn routed_message(interior: Junctions, instrs: Seq<Instruction<()>>) -> Seq<Instruction<()>> {
    if interior == Junctions::Here {
        instrs
    } else {
        seq![Instruction::<()>::DescendOrigin(interior)] + instrs
    }
}

/// The message to send as `interior`: `message` itself from this system's
/// root, otherwise `message` after a `DescendOrigin` into `interior`, so the
/// receiver knows which local entity speaks.
pub fn message_for_send(interior: Junctions, message: Xcm<()>) -> (r: Xcm<()>)
    ensures
        r.0@ == routed_message(interior, message.0@),
        interior == Junctions::Here ==> r.0@ == message.0@,
        interior != Junctions::Here ==> r.0@ == seq![Instruction::<()>::DescendOrigin(interior)] + message.0@,
{
    let mut instrs = message.0;
    if !(Location::new(0, interior).is_here()) {
        instrs.insert(0, Instruction::DescendOrigin(interior));
        proof {
            assert(instrs@ =~= seq![Instruction::<()>::DescendOrigin(interior)] + message.0@);
        }
    }
    Xcm(instrs)
}

/// The interior of a sending location, which must lie inside this system.
pub fn send_interior(origin_location: Location) -> (r: Result<Junctions, Error>)
    ensures
        origin_location.parents == 0 ==> r == Ok::<Junctions, Error>(origin_location.interior),
        origin_location.parents != 0 ==> r == Err::<Junctions, Error>(Error::InvalidOrigin),
{
    if origin_location.parents == 0 {
        Ok(origin_location.interior)
    } else {
        Err(Error::InvalidOrigin)
    }
}

/// The two messages of a teleport of `assets` to `dest` for `beneficiary`:
/// the local one withdraws and burns them; the remote one receives them,
/// re-anchored for `dest`, clears the origin and deposits everything to
/// `beneficiary`. Fails with `CannotReanchor` where an asset cannot be
/// addressed from `dest`.
pub fn teleport_messages(
    dest: &Location,
    beneficiary: Location,
    assets: Vec<Asset>,
    context: &Junctions,
) -> (r: Result<(Xcm<()>, Xcm<()>), Error>)
    ensures
        !all_reanchor(assets@, *dest, context@) ==> r == Err::<(Xcm<()>, Xcm<()>), Error>(Error::CannotReanchor),
        all_reanchor(assets@, *dest, context@) ==> (r matches Ok(m) && is_local_teleport(m.0.0@, assets@)
            && exists|v: Seq<Asset>| is_remote_teleport(m.1.0@, v, beneficiary) && reanchored_list(assets@, v, *dest, context@)),
{
    let reanchored_assets = match reanchor_assets(&assets, dest, context) {
        Ok(v) => v,
        Err(()) => {
            return Err(Error::CannotReanchor);
        },
    };
    let ghost re = reanchored_assets@;
    let mut burnt: Vec<Asset> = Vec::new();
    let mut i: usize = 0;
    while i < assets.len()
        invariant
            i <= assets@.len(),
            burnt@ == assets@.subrange(0, i as int),
        decreases assets@.len() - i,
    {
        burnt.push(assets[i]);
        i = i + 1;
        proof {
            assert(burnt@ =~= assets@.subrange(0, i as int));
        }
    }
    proof {
        assert(burnt@ =~= assets@);
    }
    let local = Xcm(vec![Instruction::WithdrawAsset(assets), Instruction::BurnAsset(burnt)]);
    let remote = Xcm(
        vec![
            Instruction::ReceiveTeleportedAsset(reanchored_assets),
            Instruction::ClearOrigin,
            Instruction::DepositAsset { assets: AssetFilter::Wild(WildAsset::All), beneficiary },
        ],
    );
    proof {
        assert(is_remote_teleport(remote.0@, re, beneficiary));
    }
    Ok((local, remote))
}

/// The façade's result for a message's outcome: success only when it ran to
/// completion.
pub fn execution_result(outcome: Outcome) -> (r: Result<(), Error>)
    ensures
        r == result_of_outcome(outcome),
{
    match outcome {
        Outcome::Complete { .. } => Ok(()),
        _ => Err(Error::ExecutorError),
    }
}

/// The façade's result for `execute` of a message with outcome `o`: success
/// only when it ran to completion.
pub open spec fn result_of_outcome(o: Outcome) -> Result<(), Error> {
    if o is Complete {
        Ok(())
    } else {
        Err::<(), Error>(Error::ExecutorError)
    }
}

/// What running `message` as `location` does to host `pre`, leaving it
/// `post`, with façade result `r`: `execute` with some outcome, and `r` is
/// what that outcome means to the façade.
pub open spec fn executed_as<Call, T: XcmConfig>(pre: T, post: T, location: Location, message: Xcm<Call>, r: Result<(), Error>) -> bool {
    exists|o: Outcome| #[trigger] executed(pre, post, location, message, o) && r == result_of_outcome(o)
}

/// What `do_execute` does for a caller `origin`: `BadOrigin` when the host
/// resolves it to no location, `BadVersion` for a message in another
/// version (nothing else happening in either case), and otherwise runs the
/// message as the resolved location.
pub open spec fn execution_by<Call, T: Config>(pre: T, post: T, origin: T::RuntimeOrigin, message: Versioned<Xcm<Call>>, r: Result<(), Error>) -> bool {
    match pre.execute_origin_of(origin) {
        Err(_) => r == Err::<(), Error>(Error::BadOrigin) && post == pre,
        Ok(l) => match message {
            Versioned::Other { .. } => r == Err::<(), Error>(Error::BadVersion) && post == pre,
            Versioned::V4(m) => executed_as(pre, post, l, m, r),
        },
    }
}

/// What the router is asked when `message` goes to `dest`: a validation and,
/// if it gave a ticket, the delivery of that ticket.
pub open spec fn route_events<Ticket>(dest: Location, message: Seq<Instruction<()>>, ticket: Option<Ticket>, delivered: bool) -> Seq<RouterEvent<Ticket>> {
    match ticket {
        None => seq![RouterEvent::Validate { dest, message, ticket: None }],
        Some(t) => seq![
            RouterEvent::Validate { dest, message, ticket: Some(t) },
            RouterEvent::Deliver { ticket: t, delivered },
        ],
    }
}

/// What sending as `origin_location` does: `InvalidOrigin` when it is not
/// inside this system, `BadVersion` for a destination or message in another
/// version (nothing else happening in either case); otherwise the router
/// validates `routed_message` of the interior and the message for the
/// destination and, only if it gave a ticket, delivers that ticket; the
/// result is `Ok` exactly when both succeeded, else `RouterError`.
pub open spec fn sent_as<T: Config>(pre: T, post: T, origin_location: Location, dest: Versioned<Location>, message: Versioned<Xcm<()>>, r: Result<(), Error>) -> bool {
    if origin_location.parents != 0 {
        r == Err::<(), Error>(Error::InvalidOrigin) && post == pre
    } else if dest is Other || message is Other {
        r == Err::<(), Error>(Error::BadVersion) && post == pre
    } else {
        &&& post.answered() == pre.answered()
        &&& exists|ticket: Option<T::Ticket>, delivered: bool|
            post.routed() == pre.routed() + #[trigger] route_events(
                dest->V4_0,
                routed_message(origin_location.interior, message->V4_0.0@),
                ticket,
                delivered,
            ) && (r is Ok <==> (ticket is Some && delivered)) && (r is Err ==> r == Err::<(), Error>(Error::RouterError))
    }
}

/// What `do_send` does for a caller `origin`: `BadOrigin` when the host
/// resolves it to no location (nothing else happening), otherwise sends as
/// the resolved location.
pub open spec fn sending_by<T: Config>(pre: T, post: T, origin: T::RuntimeOrigin, dest: Versioned<Location>, message: Versioned<Xcm<()>>, r: Result<(), Error>) -> bool {
    match pre.send_origin_of(origin) {
        Err(_) => r == Err::<(), Error>(Error::BadOrigin) && post == pre,
        Ok(l) => sent_as(pre, post, l, dest, message, r),
    }
}

/// What teleporting `assets` to `dest` for `beneficiary`, from universal
/// position `context`, does: `CannotReanchor` (nothing else happening)
/// when an asset cannot be addressed from `dest`; otherwise the local
/// message (withdraw, burn) is executed as the caller and, only if that
/// succeeded, the remote message (receive the re-anchored assets, clear
/// origin, deposit) is sent as the caller; the result is the first error,
/// or `Ok`.
pub open spec fn teleported<T: Config>(
    pre: T,
    post: T,
    origin: T::RuntimeOrigin,
    dest: Location,
    beneficiary: Location,
    assets: Seq<Asset>,
    context: Junctions,
    r: Result<(), Error>,
) -> bool {
    if !all_reanchor(assets, dest, context@) {
        r == Err::<(), Error>(Error::CannotReanchor) && post == pre
    } else {
        exists|mid: T, local: Xcm<()>, remote: Xcm<()>, v: Seq<Asset>, r1: Result<(), Error>|
            #![trigger execution_by(pre, mid, origin, Versioned::V4(local), r1), is_remote_teleport(remote.0@, v, beneficiary)]
            execution_by(pre, mid, origin, Versioned::V4(local), r1) && is_local_teleport(local.0@, assets)
                && is_remote_teleport(remote.0@, v, beneficiary) && reanchored_list(assets, v, dest, context@)
                && (r1 is Err ==> r == r1 && post == mid) && (r1 is Ok ==> sending_by(
                mid,
                post,
                origin,
                Versioned::V4(dest),
                Versioned::V4(remote),
                r,
            ))
    }
}

/// The façade's operations.
pub struct Pallet;

impl Pallet {
    /// Executes `message` as the location the caller resolves to.
    pub fn execute<Call, T: Config>(
        config: &mut T,
        origin: &T::RuntimeOrigin,
        message: Versioned<Xcm<Call>>,
        _max_weight: Weight,
    ) -> (r: Result<(), Error>)
        ensures
            execution_by(*old(config), *final(config), *origin, message, r),
    {
        Self::do_execute(config, origin, message)
    }

    /// Sends `message` to `dest` as the location the caller resolves to.
    pub fn send<T: Config>(
        config: &mut T,
        origin: &T::RuntimeOrigin,
        dest: Versioned<Location>,
        message: Versioned<Xcm<()>>,
    ) -> (r: Result<(), Error>)
        ensures
            sending_by(*old(config), *final(config), *origin, dest, message, r),
    {
        Self::do_send(config, origin, dest, message)
    }

    /// Teleports `assets` to `dest` for `beneficiary`.
    pub fn teleport_assets<T: Config>(
        config: &mut T,
        origin: &T::RuntimeOrigin,
        dest: Versioned<Location>,
        beneficiary: Versioned<Location>,
        assets: Versioned<Vec<Asset>>,
        fee_asset_item: u32,
    ) -> (r: Result<(), Error>)
        ensures
            teleport_request(*old(config), *final(config), *origin, dest, beneficiary, assets, r),
    {
        Self::do_teleport_assets(config, origin, dest, beneficiary, assets, fee_asset_item)
    }

    /// Reserve transfers are outside this core.
    pub fn reserve_transfer_assets<T: Config>(
        config: &mut T,
        origin: &T::RuntimeOrigin,
        dest: Versioned<Location>,
        beneficiary: Versioned<Location>,
        assets: Versioned<Vec<Asset>>,
        fee_asset_item: u32,
    ) -> (r: Result<(), Error>)
        ensures
            r == Err::<(), Error>(Error::Unsupported),
            *final(config) == *old(config),
    {
        Self::do_reserve_transfer_assets(config, origin, dest, beneficiary, assets, fee_asset_item)
    }

    /// Resolves the caller to a location, reads the message, and runs it as
    /// that location (see `execute_as`).
    pub fn do_execute<Call, T: Config>(
        config: &mut T,
        origin: &T::RuntimeOrigin,
        message: Versioned<Xcm<Call>>,
    ) -> (r: Result<(), Error>)
        ensures
            execution_by(*old(config), *final(config), *origin, message, r),
    {
        let execute_origin = match config.ensure_execute_origin(origin) {
            Ok(l) => l,
            Err(()) => {
                return Err(Error::BadOrigin);
            },
        };
        let message = match message.into_current() {
            Ok(m) => m,
            Err(e) => {
                return Err(e);
            },
        };
        Self::execute_as(config, execute_origin, message)
    }

    /// Runs `message` from `location`; anything short of a complete run is
    /// `ExecutorError`.
    pub fn execute_as<Call, T: XcmConfig>(config: &mut T, location: Location, message: Xcm<Call>) -> (r: Result<
        (),
        Error,
    >)
        ensures
            executed_as(*old(config), *final(config), location, message, r),
    {
        let ghost sent = message;
        let ghost pre = *config;
        let outcome = XcmExecutor::execute(config, location, message);
        let r = execution_result(outcome);
        proof {
            assert(executed(pre, *config, location, sent, outcome) && r == result_of_outcome(outcome));
        }
        r
    }

    /// Resolves the caller to a location and sends as it (see `send_as`).
    pub fn do_send<T: Config>(
        config: &mut T,
        origin: &T::RuntimeOrigin,
        dest: Versioned<Location>,
        message: Versioned<Xcm<()>>,
    ) -> (r: Result<(), Error>)
        ensures
            sending_by(*old(config), *final(config), *origin, dest, message, r),
    {
        let origin_location = match config.ensure_send_origin(origin) {
            Ok(l) => l,
            Err(()) => {
                return Err(Error::BadOrigin);
            },
        };
        Self::send_as(config, origin_location, dest, message)
    }

    /// Sends `message` to `dest` as `origin_location`, which must lie inside
    /// this system: the router validates `message_for_send` of its interior
    /// and the message, then delivers the ticket it gave.
    pub fn send_as<T: Config>(
        config: &mut T,
        origin_location: Location,
        dest: Versioned<Location>,
        message: Versioned<Xcm<()>>,
    ) -> (r: Result<(), Error>)
        ensures
            sent_as(*old(config), *final(config), origin_location, dest, message, r),
    {
        let ghost pre = *config;
        let interior = match send_interior(origin_location) {
            Ok(i) => i,
            Err(e) => {
                return Err(e);
            },
        };
        let dest = match dest.into_current() {
            Ok(d) => d,
            Err(e) => {
                return Err(e);
            },
        };
        let message = match message.into_current() {
            Ok(m) => m,
            Err(e) => {
                return Err(e);
            },
        };
        let ghost plain = message;
        let message = message_for_send(interior, message);
        let ticket = match config.validate(&dest, &message) {
            Ok((t, _price)) => t,
            Err(_) => {
                proof {
                    let events = route_events(dest, routed_message(interior, plain.0@), None::<T::Ticket>, false);
                    assert(config.routed() =~= pre.routed() + events);
                }
                return Err(Error::RouterError);
            },
        };
        let ghost mid = config.routed();
        let delivered = config.deliver(ticket);
        proof {
            let events = route_events(dest, routed_message(interior, plain.0@), Some(ticket), delivered is Ok);
            assert(config.routed() =~= pre.routed() + events);
        }
        match delivered {
            Ok(_message_id) => Ok(()),
            Err(_) => Err(Error::RouterError),
        }
    }

    /// Reads the destination, the beneficiary and the assets, asks where
    /// this system is, and teleports (see `teleport_from`). Which asset pays
    /// fees is not used by this core.
    pub fn do_teleport_assets<T: Config>(
        config: &mut T,
        origin: &T::RuntimeOrigin,
        dest: Versioned<Location>,
        beneficiary: Versioned<Location>,
        assets: Versioned<Vec<Asset>>,
        _fee_asset_item: u32,
    ) -> (r: Result<(), Error>)
        ensures
            teleport_request(*old(config), *final(config), *origin, dest, beneficiary, assets, r),
    {
        let dest = match dest.into_current() {
            Ok(d) => d,
            Err(e) => {
                return Err(e);
            },
        };
        let beneficiary = match beneficiary.into_current() {
            Ok(b) => b,
            Err(e) => {
                return Err(e);
            },
        };
        let assets = match assets.into_current() {
            Ok(a) => a,
            Err(e) => {
                return Err(e);
            },
        };
        let context = config.universal_location();
        Self::teleport_from(config, origin, dest, beneficiary, assets, context)
    }

    /// Teleports `assets` to `dest` for `beneficiary`, from a system at
    /// universal position `context`: builds the two messages
    /// (`teleport_messages`), executes the local one (withdraw, burn) as the
    /// caller, and only once it has run to completion sends the remote one
    /// (receive, clear origin, deposit). A local failure is returned and
    /// nothing is sent.
    pub fn teleport_from<T: Config>(
        config: &mut T,
        origin: &T::RuntimeOrigin,
        dest: Location,
        beneficiary: Location,
        assets: Vec<Asset>,
        context: Junctions,
    ) -> (r: Result<(), Error>)
        ensures
            teleported(*old(config), *final(config), *origin, dest, beneficiary, assets@, context, r),
    {
        let ghost pre = *config;
        let ghost wanted = assets@;
        let (local, remote) = match teleport_messages(&dest, beneficiary, assets, &context) {
            Ok(m) => m,
            Err(e) => {
                return Err(e);
            },
        };
        let ghost local_message = local;
        let ghost remote_message = remote;
        let ghost v = choose|v: Seq<Asset>| is_remote_teleport(remote_message.0@, v, beneficiary) && reanchored_list(wanted, v, dest, context@);
        let r1 = Self::do_execute(config, origin, Versioned::V4(local));
        let ghost mid = *config;
        match r1 {
            Ok(()) => {},
            Err(e) => {
                proof {
                    assert(execution_by(pre, mid, *origin, Versioned::V4(local_message), r1));
                }
                return Err(e);
            },
        }
        let r = Self::do_send(config, origin, Versioned::V4(dest), Versioned::V4(remote));
        proof {
            assert(execution_by(pre, mid, *origin, Versioned::V4(local_message), r1));
        }
        r
    }

    /// Reserve transfers are outside this core: always `Unsupported`.
    pub fn do_reserve_transfer_assets<T: Config>(
        config: &mut T,
        _origin: &T::RuntimeOrigin,
        _dest: Versioned<Location>,
        _beneficiary: Versioned<Location>,
        _assets: Versioned<Vec<Asset>>,
        _fee_asset_item: u32,
    ) -> (r: Result<(), Error>)
        ensures
            r == Err::<(), Error>(Error::Unsupported),
            *final(config) == *old(config),
    {
        Err(Error::Unsupported)
    }
}

/// What the teleport operation does: `BadVersion` (nothing else happening)
/// when the destination, beneficiary or assets are in another version;
/// otherwise a teleport from this system's universal position, as
/// `teleported` says. Which asset pays fees plays no part.
pub open spec fn teleport_request<T: Config>(
    pre: T,
    post: T,
    origin: T::RuntimeOrigin,
    dest: Versioned<Location>,
    beneficiary: Versioned<Location>,
    assets: Versioned<Vec<Asset>>,
    r: Result<(), Error>,
) -> bool {
    if dest is Other || beneficiary is Other || assets is Other {
        r == Err::<(), Error>(Error::BadVersion) && post == pre
    } else {
        teleported(pre, post, origin, dest->V4_0, beneficiary->V4_0, assets->V4_0@, pre.universal(), r)
    }
}

} // verus!
