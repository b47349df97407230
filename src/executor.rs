//! The virtual machine: runs a message's instructions against the holding
//! register, delegating ledger effects to capabilities supplied by the host.
use vstd::prelude::*;

use crate::asset::{Asset, AssetFilter};
use crate::error::{ProcessMessageError, XcmError};
use crate::holding::{lists, AssetsInHolding, HoldingView};
use crate::instruction::{Instruction, Weight, Xcm};
use crate::location::{appended, Location};

verus! {

/// Per-run state that instructions read and change.
#[derive(Clone, Copy, Debug, PartialEq, Eq)]
pub struct XcmContext {
    /// Who is currently authorized to act, if anyone.
    pub origin: Option<Location>,
    /// The identifier of the message.
    pub message_id: [u8; 32],
    /// The topic of the message, if any.
    pub topic: Option<[u8; 32]>,
}

/// What an admission check may read and update.
#[derive(Clone, Copy, Debug, PartialEq, Eq)]
pub struct Properties {
    pub weight_credit: Weight,
    pub message_id: Option<[u8; 32]>,
}

/// The bridge to the host's ledger. A host keeps, as `answered`, every
/// request made of it with its answer; each method adds its own.
pub trait TransactAsset {
    /// The requests answered so far, oldest first.
    spec fn answered(&self) -> Transcript;

    /// Removes `what` from the account at `who`.
    fn withdraw_asset(&mut self, what: &Asset, who: &Location, context: &XcmContext) -> (r: Result<(), XcmError>)
        ensures
            final(self).answered() == old(self).answered().push(
                (HostRequest::Withdraw { what: *what, who: *who, context: *context }, r),
            ),
    ;

    /// Credits `what` to the account at `who`.
    fn deposit_asset(&mut self, what: &Asset, who: &Location, context: &XcmContext) -> (r: Result<(), XcmError>)
        ensures
            final(self).answered() == old(self).answered().push(
                (HostRequest::Deposit { what: *what, who: *who, context: *context }, r),
            ),
    ;

    /// Moves `asset` from the account at `from` to the account at `to`.
    fn transfer_asset(
        &mut self,
        asset: &Asset,
        from: &Location,
        to: &Location,
        context: &XcmContext,
    ) -> (r: Result<(), XcmError>)
        ensures
            final(self).answered() == old(self).answered().push(
                (HostRequest::Transfer { what: *asset, from: *from, to: *to, context: *context }, r),
            ),
    ;

    /// Whether `origin` is trusted to teleport `what` in.
    fn can_check_in(&mut self, origin: &Location, what: &Asset, context: &XcmContext) -> (r: Result<(), XcmError>)
        ensures
            final(self).answered() == old(self).answered().push(
                (HostRequest::CanCheckIn { origin: *origin, what: *what, context: *context }, r),
            ),
    ;

    /// Records a teleport of `what` in from `origin`; `can_check_in` comes first.
    fn check_in(&mut self, origin: &Location, what: &Asset, context: &XcmContext)
        ensures
            final(self).answered() == old(self).answered().push(
                (HostRequest::CheckIn { origin: *origin, what: *what, context: *context }, Ok(())),
            ),
    ;
}

/// The admission check run before any instruction of a message.
pub trait ShouldExecute {
    /// Whether the host admits a message of `instructions` from `origin`,
    /// given `max_weight` and starting `properties`.
    spec fn admits<Call>(
        &self,
        origin: Location,
        instructions: Seq<Instruction<Call>>,
        max_weight: Weight,
        properties: Properties,
    ) -> bool;

    /// Whether a message of `instructions` from `origin` may run at all.
    fn should_execute<Call>(
        &self,
        origin: &Location,
        instructions: &Vec<Instruction<Call>>,
        max_weight: Weight,
        properties: &mut Properties,
    ) -> (r: Result<(), ProcessMessageError>)
        ensures
            r is Ok == self.admits(*origin, instructions@, max_weight, *old(properties)),
    ;
}

/// Brackets each unit of ledger work; a transactional host undoes the
/// ledger effects of a unit that ends without commit. Opening and closing a
/// unit are not requests: they leave `answered` as it is.
pub trait ProcessTransaction: TransactAsset {
    /// Whether failed units are rolled back.
    fn is_transactional(&self) -> bool;

    /// Opens a unit of work.
    fn begin_transaction(&mut self)
        ensures
            final(self).answered() == old(self).answered(),
    ;

    /// Closes the open unit, committing it or not.
    fn end_transaction(&mut self, commit: bool)
        ensures
            final(self).answered() == old(self).answered(),
    ;
}

/// The capabilities a host hands the virtual machine.
pub trait XcmConfig: TransactAsset + ShouldExecute + ProcessTransaction {

}

/// The result of running a message.
#[derive(Clone, Copy, Debug, PartialEq, Eq)]
pub enum Outcome {
    /// Every instruction ran.
    Complete { used: Weight },
    /// An instruction failed; the ones before it stand.
    Incomplete { used: Weight, error: XcmError },
    /// No instruction ran.
    Error { error: XcmError },
}

impl Outcome {
    /// The weight an outcome reports; none when no instruction ran.
    pub open spec fn weight_spec(&self) -> Weight {
        match *self {
            Outcome::Complete { used } => used,
            Outcome::Incomplete { used, .. } => used,
            Outcome::Error { .. } => Weight { ref_time: 0, proof_size: 0 },
        }
    }

    /// `Ok` only when every instruction ran.
    pub fn ensure_complete(&self) -> (r: Result<(), XcmError>)
        ensures
            r == (match *self {
                Outcome::Complete { .. } => Ok(()),
                Outcome::Incomplete { error, .. } => Err(error),
                Outcome::Error { error } => Err::<(), XcmError>(error),
            }),
    {
        match *self {
            Outcome::Complete { .. } => Ok(()),
            Outcome::Incomplete { error, .. } => Err(error),
            Outcome::Error { error } => Err(error),
        }
    }

    /// The weight used, when some instruction ran or none was meant to.
    pub fn ensure_execution(&self) -> (r: Result<Weight, XcmError>)
        ensures
            r == (match *self {
                Outcome::Complete { used } => Ok(used),
                Outcome::Incomplete { used, .. } => Ok(used),
                Outcome::Error { error } => Err::<Weight, XcmError>(error),
            }),
    {
        match *self {
            Outcome::Complete { used } => Ok(used),
            Outcome::Incomplete { used, .. } => Ok(used),
            Outcome::Error { error } => Err(error),
        }
    }

    /// The weight used; none when no instruction ran.
    pub fn weight_used(&self) -> (r: Weight)
        ensures
            r == (match *self {
                Outcome::Complete { used } => used,
                Outcome::Incomplete { used, .. } => used,
                Outcome::Error { .. } => Weight { ref_time: 0, proof_size: 0 },
            }),
    {
        match *self {
            Outcome::Complete { used } => used,
            Outcome::Incomplete { used, .. } => used,
            Outcome::Error { .. } => Weight::zero(),
        }
    }
}

/// A request the virtual machine makes of the host's asset transactor.
pub enum HostRequest {
    Withdraw { what: Asset, who: Location, context: XcmContext },
    Deposit { what: Asset, who: Location, context: XcmContext },
    Transfer { what: Asset, from: Location, to: Location, context: XcmContext },
    CanCheckIn { origin: Location, what: Asset, context: XcmContext },
    CheckIn { origin: Location, what: Asset, context: XcmContext },
}

/// A log of requests made of the host, each with its answer (`Ok` for a
/// check-in, which cannot fail).
pub type Transcript = Seq<(HostRequest, Result<(), XcmError>)>;

/// What the virtual machine's state is, as the contracts see it, together
/// with the host's log of answered requests.
pub struct VmState {
    pub holding: HoldingView,
    pub context: XcmContext,
    pub transactional: bool,
    pub transcript: Transcript,
}

/// Whether the answered requests `seg` are `reqs` made in order up to the
/// first refusal, and `r` is `Ok` when all of `reqs` were accepted and the
/// refusal otherwise.
pub open spec fn batch(reqs: Seq<HostRequest>, seg: Transcript, r: Result<(), XcmError>) -> bool {
    &&& seg.len() <= reqs.len()
    &&& forall|i: int| 0 <= i < seg.len() ==> (#[trigger] seg[i]).0 == reqs[i]
    &&& forall|i: int| 0 <= i < seg.len() - 1 ==> (#[trigger] seg[i]).1 is Ok
    &&& (r is Ok <==> (seg.len() == reqs.len() && (seg.len() == 0 || seg.last().1 is Ok)))
    &&& (r is Err ==> seg.len() > 0 && seg.last().1 == r)
}

/// A withdrawal of each of `assets` from `who`.
pub open spec fn withdraw_reqs(assets: Seq<Asset>, who: Location, context: XcmContext) -> Seq<HostRequest> {
    Seq::new(assets.len(), |i: int| HostRequest::Withdraw { what: assets[i], who, context })
}

/// A deposit of each of `assets` to `who`.
pub open spec fn deposit_reqs(assets: Seq<Asset>, who: Location, context: XcmContext) -> Seq<HostRequest> {
    Seq::new(assets.len(), |i: int| HostRequest::Deposit { what: assets[i], who, context })
}

/// A transfer of each of `assets` from `from` to `to`.
pub open spec fn transfer_reqs(assets: Seq<Asset>, from: Location, to: Location, context: XcmContext) -> Seq<
    HostRequest,
> {
    Seq::new(assets.len(), |i: int| HostRequest::Transfer { what: assets[i], from, to, context })
}

/// For each of `assets`: may `origin` teleport it in, then record that it did.
pub open spec fn check_in_reqs(assets: Seq<Asset>, origin: Location, context: XcmContext) -> Seq<HostRequest> {
    Seq::new(
        2 * assets.len(),
        |i: int|
            if i % 2 == 0 {
                HostRequest::CanCheckIn { origin, what: assets[i / 2], context }
            } else {
                HostRequest::CheckIn { origin, what: assets[i / 2], context }
            },
    )
}

/// The holding left after taking by a supported filter.
pub open spec fn left_after_take(h: HoldingView, filter: AssetFilter) -> HoldingView {
    match filter {
        AssetFilter::Definite(v) => h.take_seq(HoldingView::empty(), v@).0,
        AssetFilter::Wild(_) => HoldingView::empty(),
    }
}

/// What taking by a supported filter takes.
pub open spec fn taken_by(h: HoldingView, filter: AssetFilter) -> HoldingView {
    match filter {
        AssetFilter::Definite(v) => h.take_seq(HoldingView::empty(), v@).1,
        AssetFilter::Wild(_) => h,
    }
}

/// The same state with another holding.
pub open spec fn with_holding(s: VmState, h: HoldingView) -> VmState {
    VmState { holding: h, context: s.context, transactional: s.transactional, transcript: s.transcript }
}

/// The same state with another origin.
pub open spec fn with_origin(s: VmState, o: Option<Location>) -> VmState {
    VmState {
        holding: s.holding,
        context: XcmContext { origin: o, message_id: s.context.message_id, topic: s.context.topic },
        transactional: s.transactional,
        transcript: s.transcript,
    }
}

/// Whether log `t` is log `t0` with requests added.
pub open spec fn grows(t0: Transcript, t: Transcript) -> bool {
    t0.len() <= t.len() && t.subrange(0, t0.len() as int) == t0
}

/// The requests log `t` has beyond `t0`.
pub open spec fn since(t0: Transcript, t: Transcript) -> Transcript {
    t.subrange(t0.len() as int, t.len() as int)
}

/// The requests answered between `pre` and `post`.
pub open spec fn new_requests(pre: VmState, post: VmState) -> Transcript {
    since(pre.transcript, post.transcript)
}

/// Whether `post` only adds requests to `pre`'s transcript and keeps its
/// context and transactionality.
pub open spec fn extends(pre: VmState, post: VmState) -> bool {
    &&& grows(pre.transcript, post.transcript)
    &&& post.context == pre.context
    &&& post.transactional == pre.transactional
}

/// What running `instr` from state `pre` may lead to, for any answers of the
/// host: the state `post`, whose transcript is the host's log after the
/// instruction, and the result `r`.
pub open spec fn step<Call>(pre: VmState, instr: Instruction<Call>, post: VmState, r: Result<(), XcmError>) -> bool {
    match instr {
        Instruction::ClearOrigin => r is Ok && post == with_origin(pre, None),
        Instruction::DescendOrigin(who) => match pre.context.origin {
            None => r == Err::<(), XcmError>(XcmError::BadOrigin) && post == pre,
            Some(o) => match appended(o, Location { parents: 0, interior: who }) {
                Some(l) => r is Ok && post == with_origin(pre, Some(l)),
                None => r == Err::<(), XcmError>(XcmError::LocationFull) && post == pre,
            },
        },
        Instruction::WithdrawAsset(assets) => match pre.context.origin {
            None => r == Err::<(), XcmError>(XcmError::BadOrigin) && post == pre,
            Some(o) => {
                &&& extends(pre, post)
                &&& batch(withdraw_reqs(assets@, o, pre.context), new_requests(pre, post), r)
                &&& post.holding == if r is Ok {
                    pre.holding.subsume_seq(assets@)
                } else {
                    pre.holding
                }
            },
        },
        Instruction::ReceiveTeleportedAsset(assets) => match pre.context.origin {
            None => r == Err::<(), XcmError>(XcmError::BadOrigin) && post == pre,
            Some(o) => {
                &&& extends(pre, post)
                &&& batch(check_in_reqs(assets@, o, pre.context), new_requests(pre, post), r)
                &&& post.holding == if r is Ok {
                    pre.holding.subsume_seq(assets@)
                } else {
                    pre.holding
                }
            },
        },
        Instruction::TransferAsset { assets, beneficiary } => match pre.context.origin {
            None => r == Err::<(), XcmError>(XcmError::BadOrigin) && post == pre,
            Some(o) => {
                &&& extends(pre, post)
                &&& batch(transfer_reqs(assets@, o, beneficiary, pre.context), new_requests(pre, post), r)
                &&& post.holding == pre.holding
            },
        },
        Instruction::BurnAsset(assets) => r is Ok && post == with_holding(
            pre,
            pre.holding.take_seq(HoldingView::empty(), assets@).0,
        ),
        Instruction::DepositAsset { assets, beneficiary } => if !assets.is_supported() {
            r == Err::<(), XcmError>(XcmError::Unimplemented) && post == pre
        } else {
            &&& extends(pre, post)
            &&& exists|items: Seq<Asset>|
                lists(items, taken_by(pre.holding, assets)) && #[trigger] batch(
                    deposit_reqs(items, beneficiary, pre.context),
                    new_requests(pre, post),
                    r,
                )
            &&& post.holding == if r is Err && pre.transactional {
                pre.holding
            } else {
                left_after_take(pre.holding, assets)
            }
        },
        _ => r == Err::<(), XcmError>(XcmError::Unimplemented) && post == pre,
    }
}

/// Whether `instr`, from `pre`, is decided without the host: no request is
/// made and the host is left as it was.
pub open spec fn without_host<Call>(pre: VmState, instr: Instruction<Call>) -> bool {
    match instr {
        Instruction::WithdrawAsset(_) => pre.context.origin is None,
        Instruction::ReceiveTeleportedAsset(_) => pre.context.origin is None,
        Instruction::TransferAsset { .. } => pre.context.origin is None,
        Instruction::DepositAsset { assets, .. } => !assets.is_supported(),
        _ => true,
    }
}

/// What running `instrs` in order from `pre` may lead to: each instruction
/// steps as `step` says, and the first failure ends the run with its error.
pub open spec fn run<Call>(pre: VmState, instrs: Seq<Instruction<Call>>, post: VmState, r: Result<(), XcmError>) -> bool
    decreases instrs.len(),
{
    if instrs.len() == 0 {
        r is Ok && post == pre
    } else {
        exists|mid: VmState, r1: Result<(), XcmError>|
            #[trigger] step(pre, instrs[0], mid, r1) && match r1 {
                Ok(_) => run(mid, instrs.drop_first(), post, r),
                Err(e) => r == Err::<(), XcmError>(e) && post == mid,
            }
    }
}

proof fn lemma_run_cons<Call>(
    pre: VmState,
    instrs: Seq<Instruction<Call>>,
    mid: VmState,
    r1: Result<(), XcmError>,
    post: VmState,
    r: Result<(), XcmError>,
)
    requires
        instrs.len() > 0,
        step(pre, instrs[0], mid, r1),
        r1 is Ok ==> run(mid, instrs.drop_first(), post, r),
        r1 is Err ==> r == r1 && post == mid,
    ensures
        run(pre, instrs, post, r),
{
}

/// The virtual machine of one run: its holding register and its context.
pub struct XcmExecutor {
    pub holding: AssetsInHolding,
    pub context: XcmContext,
    /// Whether the host rolls back failed units of ledger work; read from
    /// the host when the run starts.
    pub transactional: bool,
}

impl XcmExecutor {
    /// The state of this virtual machine together with the host's log `log`.
    pub open spec fn vm(&self, log: Transcript) -> VmState {
        VmState { holding: self.holding@, context: self.context, transactional: self.transactional, transcript: log }
    }
}

/// The state a run from `origin` of message `id` starts in, the host's log
/// being `log`.
pub open spec fn initial_state(origin: Location, id: [u8; 32], transactional: bool, log: Transcript) -> VmState {
    VmState {
        holding: HoldingView::empty(),
        context: XcmContext { origin: Some(origin), message_id: id, topic: None },
        transactional,
        transcript: log,
    }
}

/// Whether outcome `o` reports a run that ended with result `r`.
pub open spec fn outcome_reports(o: Outcome, r: Result<(), XcmError>) -> bool {
    match o {
        Outcome::Complete { .. } => r is Ok,
        Outcome::Incomplete { error, .. } => r == Err::<(), XcmError>(error),
        Outcome::Error { .. } => false,
    }
}

/// Whether transcript `t` is `t0` followed by answers to the first `i` of
/// `reqs`, all accepted but perhaps the last, whose answer is `result`.
pub open spec fn batch_prefix(reqs: Seq<HostRequest>, t0: Transcript, t: Transcript, i: int, result: Result<(), XcmError>) -> bool {
    &&& 0 <= i <= reqs.len()
    &&& t.len() == t0.len() + i
    &&& t.subrange(0, t0.len() as int) == t0
    &&& forall|k: int| 0 <= k < i ==> (#[trigger] t[t0.len() + k]).0 == reqs[k]
    &&& forall|k: int| 0 <= k < i - 1 ==> (#[trigger] t[t0.len() + k]).1 is Ok
    &&& (i == 0 ==> result is Ok)
    &&& (i > 0 ==> result == t[t.len() - 1].1)
}

proof fn lemma_batch_prefix_push(
    reqs: Seq<HostRequest>,
    t0: Transcript,
    t: Transcript,
    i: int,
    result: Result<(), XcmError>,
    answer: Result<(), XcmError>,
)
    requires
        batch_prefix(reqs, t0, t, i, result),
        result is Ok,
        i < reqs.len(),
    ensures
        batch_prefix(reqs, t0, t.push((reqs[i], answer)), i + 1, answer),
{
    let t2 = t.push((reqs[i], answer));
    assert(t2.subrange(0, t0.len() as int) =~= t0) by {
        assert(t.subrange(0, t0.len() as int) == t0);
        assert forall|k: int| 0 <= k < t0.len() implies t2[k] == t[k] by {}
    }
    assert forall|k: int| 0 <= k < i + 1 implies (#[trigger] t2[t0.len() + k]).0 == reqs[k] by {
        if k < i {
            assert(t2[t0.len() + k] == t[t0.len() + k]);
        }
    }
    assert forall|k: int| 0 <= k < i implies (#[trigger] t2[t0.len() + k]).1 is Ok by {
        assert(t2[t0.len() + k] == t[t0.len() + k]);
        if k == i - 1 {
            assert(t[t.len() - 1] == t[t0.len() + k]);
        }
    }
}

proof fn lemma_batch_prefix_done(reqs: Seq<HostRequest>, t0: Transcript, t: Transcript, i: int, result: Result<(), XcmError>)
    requires
        batch_prefix(reqs, t0, t, i, result),
        i == reqs.len() || result is Err,
    ensures
        batch(reqs, t.subrange(t0.len() as int, t.len() as int), result),
{
    let seg = t.subrange(t0.len() as int, t.len() as int);
    assert forall|k: int| 0 <= k < seg.len() implies (#[trigger] seg[k]).0 == reqs[k] by {
        assert(seg[k] == t[t0.len() + k]);
    }
    assert forall|k: int| 0 <= k < seg.len() - 1 implies (#[trigger] seg[k]).1 is Ok by {
        assert(seg[k] == t[t0.len() + k]);
    }
    if seg.len() > 0 {
        assert(seg.last() == t[t.len() - 1]);
    }
}

proof fn lemma_grows(reqs: Seq<HostRequest>, t0: Transcript, t: Transcript, i: int, result: Result<(), XcmError>)
    requires
        batch_prefix(reqs, t0, t, i, result),
    ensures
        grows(t0, t),
{
}

/// Adds each of `assets` in turn to `holding`.
fn subsume_each(holding: &mut AssetsInHolding, assets: &Vec<Asset>)
    requires
        old(holding).wf(),
    ensures
        final(holding).wf(),
        final(holding)@ == old(holding)@.subsume_seq(assets@),
{
    let ghost start = holding@;
    let mut i: usize = 0;
    while i < assets.len()
        invariant
            holding.wf(),
            i <= assets@.len(),
            holding@ == start.subsume_seq(assets@.subrange(0, i as int)),
        decreases assets@.len() - i,
    {
        holding.subsume(assets[i]);
        proof {
            assert(assets@.subrange(0, i + 1).drop_last() =~= assets@.subrange(0, i as int));
        }
        i = i + 1;
    }
    proof {
        assert(assets@.subrange(0, assets@.len() as int) =~= assets@);
    }
}

impl XcmExecutor {
    /// A virtual machine for a run from `origin`: nothing held, message id
    /// zero, no topic; whether the host is transactional is read from `config`.
    pub fn new<C: ProcessTransaction>(origin: Location, config: &C) -> (r: XcmExecutor)
        ensures
            r.holding.wf(),
            r.vm(config.answered()) == initial_state(origin, r.context.message_id, r.transactional, config.answered()),
            forall|i: int| 0 <= i < 32 ==> r.context.message_id[i] == 0u8,
    {
        broadcast use vstd::array::group_array_axioms;
        let transactional = config.is_transactional();
        XcmExecutor {
            holding: AssetsInHolding::new(),
            context: XcmContext { origin: Some(origin), message_id: [0u8; 32], topic: None },
            transactional,
        }
    }

    /// The current origin, if any.
    pub fn origin_ref(&self) -> (r: Option<&Location>)
        ensures
            r == (match self.context.origin {
                Some(o) => Some(&o),
                None => None::<&Location>,
            }),
    {
        match &self.context.origin {
            Some(o) => Some(o),
            None => None,
        }
    }

    /// Asks the host to withdraw each of `assets` from `origin`, stopping at
    /// the first refusal.
    fn withdraw_each<C: XcmConfig>(&self, config: &mut C, assets: &Vec<Asset>, origin: &Location) -> (r: Result<(), XcmError>)
        ensures
            grows(old(config).answered(), final(config).answered()),
            batch(withdraw_reqs(assets@, *origin, self.context), since(old(config).answered(), final(config).answered()), r),
    {
        let ghost t0 = config.answered();
        let ghost reqs = withdraw_reqs(assets@, *origin, self.context);
        let mut result: Result<(), XcmError> = Ok(());
        let mut i: usize = 0;
        assert(t0.subrange(0, t0.len() as int) =~= t0);
        while i < assets.len() && result.is_ok()
            invariant
                t0 == old(config).answered(),
                reqs == withdraw_reqs(assets@, *origin, self.context),
                batch_prefix(reqs, t0, config.answered(), i as int, result),
            decreases assets@.len() - i,
        {
            let a = assets[i];
            let ghost before = config.answered();
            let answer = config.withdraw_asset(&a, origin, &self.context);
            proof {
                lemma_batch_prefix_push(reqs, t0, before, i as int, result, answer);
            }
            result = answer;
            i = i + 1;
        }
        proof {
            lemma_batch_prefix_done(reqs, t0, config.answered(), i as int, result);
            lemma_grows(reqs, t0, config.answered(), i as int, result);
        }
        result
    }

    /// Asks the host to deposit each of `assets` to `who`, stopping at the
    /// first refusal.
    fn deposit_each<C: XcmConfig>(&self, config: &mut C, assets: &Vec<Asset>, who: &Location) -> (r: Result<(), XcmError>)
        ensures
            grows(old(config).answered(), final(config).answered()),
            batch(deposit_reqs(assets@, *who, self.context), since(old(config).answered(), final(config).answered()), r),
    {
        let ghost t0 = config.answered();
        let ghost reqs = deposit_reqs(assets@, *who, self.context);
        let mut result: Result<(), XcmError> = Ok(());
        let mut i: usize = 0;
        assert(t0.subrange(0, t0.len() as int) =~= t0);
        while i < assets.len() && result.is_ok()
            invariant
                t0 == old(config).answered(),
                reqs == deposit_reqs(assets@, *who, self.context),
                batch_prefix(reqs, t0, config.answered(), i as int, result),
            decreases assets@.len() - i,
        {
            let a = assets[i];
            let ghost before = config.answered();
            let answer = config.deposit_asset(&a, who, &self.context);
            proof {
                lemma_batch_prefix_push(reqs, t0, before, i as int, result, answer);
            }
            result = answer;
            i = i + 1;
        }
        proof {
            lemma_batch_prefix_done(reqs, t0, config.answered(), i as int, result);
            lemma_grows(reqs, t0, config.answered(), i as int, result);
        }
        result
    }

    /// Asks the host to transfer each of `assets` from `from` to `to`,
    /// stopping at the first refusal.
    fn transfer_each<C: XcmConfig>(&self, config: &mut C, assets: &Vec<Asset>, from: &Location, to: &Location) -> (r: Result<(), XcmError>)
        ensures
            grows(old(config).answered(), final(config).answered()),
            batch(transfer_reqs(assets@, *from, *to, self.context), since(old(config).answered(), final(config).answered()), r),
    {
        let ghost t0 = config.answered();
        let ghost reqs = transfer_reqs(assets@, *from, *to, self.context);
        let mut result: Result<(), XcmError> = Ok(());
        let mut i: usize = 0;
        assert(t0.subrange(0, t0.len() as int) =~= t0);
        while i < assets.len() && result.is_ok()
            invariant
                t0 == old(config).answered(),
                reqs == transfer_reqs(assets@, *from, *to, self.context),
                batch_prefix(reqs, t0, config.answered(), i as int, result),
            decreases assets@.len() - i,
        {
            let a = assets[i];
            let ghost before = config.answered();
            let answer = config.transfer_asset(&a, from, to, &self.context);
            proof {
                lemma_batch_prefix_push(reqs, t0, before, i as int, result, answer);
            }
            result = answer;
            i = i + 1;
        }
        proof {
            lemma_batch_prefix_done(reqs, t0, config.answered(), i as int, result);
            lemma_grows(reqs, t0, config.answered(), i as int, result);
        }
        result
    }

    /// For each of `assets`: asks the host whether `origin` may teleport it
    /// in and, if so, records the check-in; stops at the first refusal.
    fn check_in_each<C: XcmConfig>(&self, config: &mut C, assets: &Vec<Asset>, origin: &Location) -> (r: Result<(), XcmError>)
        ensures
            grows(old(config).answered(), final(config).answered()),
            batch(check_in_reqs(assets@, *origin, self.context), since(old(config).answered(), final(config).answered()), r),
    {
        let ghost t0 = config.answered();
        let ghost reqs = check_in_reqs(assets@, *origin, self.context);
        let mut result: Result<(), XcmError> = Ok(());
        let mut j: usize = 0;
        let ghost mut i: int = 0;
        assert(t0.subrange(0, t0.len() as int) =~= t0);
        while j < assets.len() && result.is_ok()
            invariant
                t0 == old(config).answered(),
                reqs == check_in_reqs(assets@, *origin, self.context),
                reqs.len() == 2 * assets@.len(),
                j <= assets@.len(),
                i == 2 * j || (result is Err && i == 2 * j - 1),
                batch_prefix(reqs, t0, config.answered(), i, result),
            decreases assets@.len() - j,
        {
            let a = assets[j];
            let ghost before = config.answered();
            let answer = config.can_check_in(origin, &a, &self.context);
            proof {
                assert((2 * j) % 2 == 0 && (2 * j) / 2 == j) by (nonlinear_arith);
                lemma_batch_prefix_push(reqs, t0, before, i, result, answer);
                i = i + 1;
            }
            result = answer;
            if answer.is_ok() {
                let ghost before2 = config.answered();
                config.check_in(origin, &a, &self.context);
                proof {
                    assert((2 * j + 1) % 2 == 1 && (2 * j + 1) / 2 == j) by (nonlinear_arith);
                    lemma_batch_prefix_push(reqs, t0, before2, i, result, Ok(()));
                    i = i + 1;
                }
                result = Ok(());
            }
            j = j + 1;
        }
        proof {
            lemma_batch_prefix_done(reqs, t0, config.answered(), i, result);
            lemma_grows(reqs, t0, config.answered(), i, result);
        }
        result
    }

    /// Runs one instruction. The supported ones are `ClearOrigin`,
    /// `DescendOrigin`, `WithdrawAsset`, `BurnAsset`, `DepositAsset`,
    /// `TransferAsset` and `ReceiveTeleportedAsset`; any other fails with
    /// `Unimplemented`. The requests the host's asset transactor answers are
    /// those its log `answered` gains, as `step` states.
    pub fn process_instruction<Call, C: XcmConfig>(
        &mut self,
        config: &mut C,
        instr: Instruction<Call>,
    ) -> (r: Result<(), XcmError>)
        requires
            old(self).holding.wf(),
        ensures
            final(self).holding.wf(),
            step(old(self).vm(old(config).answered()), instr, final(self).vm(final(config).answered()), r),
            without_host(old(self).vm(old(config).answered()), instr) ==> *final(config) == *old(config),
    {
        let ghost pre = self.vm(config.answered());
        match instr {
            Instruction::ClearOrigin => {
                self.context.origin = None;
                Ok(())
            },
            Instruction::DescendOrigin(who) => {
                match self.context.origin {
                    None => Err(XcmError::BadOrigin),
                    Some(o) => {
                        let mut narrowed = o;
                        match narrowed.append_with(Location::new(0, who)) {
                            Ok(()) => {
                                self.context.origin = Some(narrowed);
                                Ok(())
                            },
                            Err(_) => Err(XcmError::LocationFull),
                        }
                    },
                }
            },
            Instruction::WithdrawAsset(assets) => {
                let origin = match self.context.origin {
                    Some(o) => o,
                    None => {
                        return Err(XcmError::BadOrigin);
                    },
                };
                config.begin_transaction();
                let result = self.withdraw_each(config, &assets, &origin);
                config.end_transaction(result.is_ok());
                if result.is_ok() {
                    subsume_each(&mut self.holding, &assets);
                }
                result
            },
            Instruction::BurnAsset(assets) => {
                let _ = self.holding.saturating_take(AssetFilter::Definite(assets));
                Ok(())
            },
            Instruction::DepositAsset { assets, beneficiary } => {
                if !assets.supported() {
                    return Err(XcmError::Unimplemented);
                }
                let ghost filter = assets;
                let old_holding = self.holding.duplicate();
                config.begin_transaction();
                let deposited = self.holding.saturating_take(assets);
                let ghost taken = deposited@;
                let items = deposited.into_assets_iter();
                let ghost mid = self.vm(config.answered());
                let result = self.deposit_each(config, &items, &beneficiary);
                config.end_transaction(result.is_ok());
                proof {
                    assert(taken == taken_by(pre.holding, filter));
                    assert(lists(items@, taken_by(pre.holding, filter)));
                }
                if self.transactional && result.is_err() {
                    self.holding = old_holding;
                }
                proof {
                    assert(batch(deposit_reqs(items@, beneficiary, pre.context), new_requests(pre, self.vm(config.answered())), result));
                }
                result
            },
            Instruction::TransferAsset { assets, beneficiary } => {
                let origin = match self.context.origin {
                    Some(o) => o,
                    None => {
                        return Err(XcmError::BadOrigin);
                    },
                };
                config.begin_transaction();
                let result = self.transfer_each(config, &assets, &origin, &beneficiary);
                config.end_transaction(result.is_ok());
                result
            },
            Instruction::ReceiveTeleportedAsset(assets) => {
                let origin = match self.context.origin {
                    Some(o) => o,
                    None => {
                        return Err(XcmError::BadOrigin);
                    },
                };
                config.begin_transaction();
                let result = self.check_in_each(config, &assets, &origin);
                config.end_transaction(result.is_ok());
                if result.is_ok() {
                    subsume_each(&mut self.holding, &assets);
                }
                result
            },
            _ => Err(XcmError::Unimplemented),
        }
    }

    /// Runs the instructions of `xcm` in order, stopping at the first that
    /// fails and returning its error; the effects of the ones before it stand.
    pub fn process<Call, C: XcmConfig>(&mut self, config: &mut C, xcm: Xcm<Call>) -> (r: Result<(), XcmError>)
        requires
            old(self).holding.wf(),
        ensures
            final(self).holding.wf(),
            run(old(self).vm(old(config).answered()), xcm.0@, final(self).vm(final(config).answered()), r),
    {
        let ghost start = self.vm(config.answered());
        let ghost all = xcm.0@;
        let mut rest = xcm.0;
        while rest.len() > 0
            invariant
                self.holding.wf(),
                start == old(self).vm(old(config).answered()),
                all == xcm.0@,
                forall|p: VmState, rr: Result<(), XcmError>| run(self.vm(config.answered()), rest@, p, rr) ==> run(start, all, p, rr),
            decreases rest@.len(),
        {
            let ghost pre = self.vm(config.answered());
            let ghost before = rest@;
            let instr = rest.remove(0);
            let r1 = self.process_instruction(config, instr);
            proof {
                assert(rest@ =~= before.drop_first());
            }
            match r1 {
                Err(e) => {
                    proof {
                        lemma_run_cons(pre, before, self.vm(config.answered()), r1, self.vm(config.answered()), r1);
                        assert(run(start, all, self.vm(config.answered()), r1));
                    }
                    return Err(e);
                },
                Ok(()) => {
                    proof {
                        assert forall|p: VmState, rr: Result<(), XcmError>| run(self.vm(config.answered()), rest@, p, rr) implies run(start, all, p, rr) by {
                            lemma_run_cons(pre, before, self.vm(config.answered()), r1, p, rr);
                        }
                    }
                },
            }
        }
        Ok(())
    }

    /// Runs a message from `origin`: asks the host's admission check, once
    /// and before anything else, about `origin` and the message's
    /// instructions with no weight and `admission_properties`; then goes on
    /// as `execute_admitted` says for the check's answer.
    pub fn execute<Call, C: XcmConfig>(config: &mut C, origin: Location, xcm: Xcm<Call>) -> (r: Outcome)
        ensures
            executed(*old(config), *final(config), origin, xcm, r),
    {
        let mut properties = admission_properties();
        let admitted = config.should_execute(&origin, &xcm.0, Weight::zero(), &mut properties);
        Self::execute_admitted(config, origin, xcm, admitted)
    }

    /// Runs a message from `origin` once the admission check has answered
    /// `admitted`: when it refused, nothing else happens and the outcome is
    /// an error; otherwise a fresh virtual machine processes the message, and
    /// the outcome reports that run: complete, or incomplete with the error
    /// of the first failing instruction.
    pub fn execute_admitted<Call, C: XcmConfig>(
        config: &mut C,
        origin: Location,
        xcm: Xcm<Call>,
        admitted: Result<(), ProcessMessageError>,
    ) -> (r: Outcome)
        ensures
            admitted is Err ==> r == (Outcome::Error { error: XcmError::Barrier }) && *final(config) == *old(config),
            admitted is Ok ==> ran(old(config).answered(), final(config).answered(), origin, xcm.0@, r),
    {
        if admitted.is_err() {
            return Outcome::Error { error: XcmError::Barrier };
        }
        let mut vm = XcmExecutor::new(origin, &*config);
        let ghost start = vm.vm(config.answered());
        let res = vm.process(config, xcm);
        proof {
            assert(start == initial_state(origin, start.context.message_id, start.transactional, start.transcript));
            assert(run(start, xcm.0@, vm.vm(config.answered()), res));
        }
        match res {
            Ok(()) => Outcome::Complete { used: Weight::zero() },
            Err(e) => Outcome::Incomplete { used: Weight::zero(), error: e },
        }
    }
}

/// Whether outcome `r` reports a run of `instrs` from `origin` that took the
/// host's log from `log0` to `log1`: a fresh virtual machine stepped through
/// the instructions as `run` says, making exactly the requests between the
/// two logs, and `r` is complete when the run ended `Ok`, incomplete with its
/// error otherwise; no weight is counted.
pub open spec fn ran<Call>(log0: Transcript, log1: Transcript, origin: Location, instrs: Seq<Instruction<Call>>, r: Outcome) -> bool {
    &&& !(r is Error)
    &&& r.weight_spec() == Weight { ref_time: 0, proof_size: 0 }
    &&& exists|id: [u8; 32], t: bool, post: VmState, res: Result<(), XcmError>|
        #[trigger] run(initial_state(origin, id, t, log0), instrs, post, res) && post.transcript == log1
            && outcome_reports(r, res)
}

/// What `execute` of `xcm` from `origin` does to a host `pre`, leaving it
/// `post`: when the host does not admit the message, the outcome is the
/// barrier error and nothing else happens; otherwise the outcome reports
/// the run, as `ran` says.
pub open spec fn executed<Call, C: XcmConfig>(pre: C, post: C, origin: Location, xcm: Xcm<Call>, r: Outcome) -> bool {
    if pre.admits(
        origin,
        xcm.0@,
        Weight { ref_time: 0, proof_size: 0 },
        Properties { weight_credit: Weight { ref_time: 0, proof_size: 0 }, message_id: None },
    ) {
        ran(pre.answered(), post.answered(), origin, xcm.0@, r)
    } else {
        r == (Outcome::Error { error: XcmError::Barrier }) && post == pre
    }
}

/// The properties an admission check starts from: no weight credit, no
/// message id.
pub fn admission_properties() -> (r: Properties)
    ensures
        r == (Properties { weight_credit: Weight { ref_time: 0, proof_size: 0 }, message_id: None }),
{
    Properties { weight_credit: Weight::zero(), message_id: None }
}

} // verus!
