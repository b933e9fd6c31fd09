//! Operations, the check of their shape, and their way into the pool.
//!
//! A batch of operations is submitted one operation at a time. The gateway
//! drops the malformed ones and hands the others out, in order, to be
//! forwarded to the pool; it is told what the pool answered to each, and in
//! the end replies with the identifiers that the pool gave. One operation
//! that fails does not fail the batch.

use std::collections::VecDeque;
use vstd::prelude::*;
use crate::error::ApiError;
use crate::ident::Address;
use crate::ident::OperationId;
use crate::model::copy_bytes;

verus! {

/// What an operation does.
#[derive(Clone, Copy, Debug, PartialEq, Eq, Structural)]
pub enum OperationKind {
    /// Moves `amount` coins to `recipient`.
    Transaction { recipient: Address, amount: u64 },
    /// Buys `roll_count` rolls.
    RollBuy { roll_count: u64 },
    /// Sells `roll_count` rolls.
    RollSell { roll_count: u64 },
}

impl OperationKind {
    /// The quantity that the operation moves.
    pub open spec fn spec_quantity(self) -> u64 {
        match self {
            OperationKind::Transaction { recipient, amount } => amount,
            OperationKind::RollBuy { roll_count } => roll_count,
            OperationKind::RollSell { roll_count } => roll_count,
        }
    }

    /// The quantity that the operation moves: coins or rolls.
    pub fn quantity(&self) -> (q: u64)
        ensures
            q == self.spec_quantity(),
    {
        match self {
            OperationKind::Transaction { recipient, amount } => *amount,
            OperationKind::RollBuy { roll_count } => *roll_count,
            OperationKind::RollSell { roll_count } => *roll_count,
        }
    }
}

/// An operation as a user submits it.
#[derive(Debug, PartialEq, Eq)]
pub struct Operation {
    /// The public key of the account that pays the fee.
    pub sender_public_key: Vec<u8>,
    pub fee: u64,
    /// The last period in which the operation may be included.
    pub expire_period: u64,
    pub kind: OperationKind,
    /// The sender's signature over the rest.
    pub signature: Vec<u8>,
}

/// Model of an [`Operation`].
pub struct OperationView {
    pub sender_public_key: Seq<u8>,
    pub fee: u64,
    pub expire_period: u64,
    pub kind: OperationKind,
    pub signature: Seq<u8>,
}

impl OperationView {
    /// An operation is well formed when it names a sender, carries a
    /// signature and moves a quantity that is not zero.
    pub open spec fn well_formed(self) -> bool {
        &&& self.sender_public_key.len() > 0
        &&& self.signature.len() > 0
        &&& self.kind.spec_quantity() > 0
    }
}

impl DeepView for Operation {
    type V = OperationView;

    open spec fn deep_view(&self) -> OperationView {
        OperationView {
            sender_public_key: self.sender_public_key@,
            fee: self.fee,
            expire_period: self.expire_period,
            kind: self.kind,
            signature: self.signature@,
        }
    }
}

impl Clone for Operation {
    fn clone(&self) -> (r: Self)
        ensures
            r.deep_view() == self.deep_view(),
    {
        Operation {
            sender_public_key: copy_bytes(&self.sender_public_key),
            fee: self.fee,
            expire_period: self.expire_period,
            kind: self.kind,
            signature: copy_bytes(&self.signature),
        }
    }
}

/// Checks the shape of one operation.
///
/// Fails with `ValidationError` exactly when the operation is not well formed.
pub fn validate_operation(operation: &Operation) -> (r: Result<(), ApiError>)
    ensures
        operation.deep_view().well_formed() ==> r is Ok,
        !operation.deep_view().well_formed() ==> (r matches Err(e) && e
            == ApiError::ValidationError),
{
    if operation.sender_public_key.len() == 0 {
        return Err(ApiError::ValidationError);
    }
    if operation.signature.len() == 0 {
        return Err(ApiError::ValidationError);
    }
    if operation.kind.quantity() == 0 {
        return Err(ApiError::ValidationError);
    }
    Ok(())
}

/// The test that keeps the well-formed operations of a batch.
pub open spec fn is_well_formed() -> spec_fn(OperationView) -> bool {
    |operation: OperationView| operation.well_formed()
}

/// A batch on its way: one operation has been handed out to be forwarded,
/// and the pool's answer to it is awaited.
pub struct Submission {
    waiting: VecDeque<Operation>,
    accepted: Vec<OperationId>,
}

/// Model of a [`Submission`].
pub struct SubmissionView {
    /// The well-formed operations that have not been handed out yet.
    pub waiting: Seq<OperationView>,
    /// The identifiers that the pool has given so far.
    pub accepted: Seq<OperationId>,
}

impl SubmissionView {
    /// Only well-formed operations wait to be forwarded.
    pub open spec fn wf(self) -> bool {
        forall|i: int| 0 <= i < self.waiting.len() ==> (#[trigger] self.waiting[i]).well_formed()
    }
}

impl View for Submission {
    type V = SubmissionView;

    closed spec fn view(&self) -> SubmissionView {
        SubmissionView { waiting: self.waiting.deep_view(), accepted: self.accepted@ }
    }
}

/// What the gateway asks for next.
pub enum SubmitStep {
    /// Forward the operation to the pool, then report the pool's answer to
    /// the submission.
    Forward(Submission, Operation),
    /// The batch is done: reply with these identifiers.
    Reply(Vec<OperationId>),
}

/// Model of a [`SubmitStep`].
pub enum SubmitStepView {
    Forward(SubmissionView, OperationView),
    Reply(Seq<OperationId>),
}

impl View for SubmitStep {
    type V = SubmitStepView;

    open spec fn view(&self) -> SubmitStepView {
        match self {
            SubmitStep::Forward(submission, operation) => SubmitStepView::Forward(
                submission@,
                operation.deep_view(),
            ),
            SubmitStep::Reply(ids) => SubmitStepView::Reply(ids@),
        }
    }
}

/// The step that follows when `waiting` is left to forward and `accepted`
/// was given so far: hand out the first operation that waits, or reply.
pub open spec fn next_step(waiting: Seq<OperationView>, accepted: Seq<OperationId>) -> SubmitStepView {
    if waiting.len() > 0 {
        SubmitStepView::Forward(
            SubmissionView { waiting: waiting.drop_first(), accepted },
            waiting[0],
        )
    } else {
        SubmitStepView::Reply(accepted)
    }
}

/// The first step of the submission of a batch.
pub open spec fn opened(batch: Seq<OperationView>) -> SubmitStepView {
    next_step(batch.filter(is_well_formed()), Seq::empty())
}

/// The identifiers so far, with the one that the pool just gave, if it gave one.
pub open spec fn with_outcome(
    accepted: Seq<OperationId>,
    outcome: Result<OperationId, ApiError>,
) -> Seq<OperationId> {
    match outcome {
        Ok(id) => accepted.push(id),
        Err(_) => accepted,
    }
}

/// The step that follows the pool's answer `outcome`.
pub open spec fn stepped(
    submission: SubmissionView,
    outcome: Result<OperationId, ApiError>,
) -> SubmitStepView {
    next_step(submission.waiting, with_outcome(submission.accepted, outcome))
}

impl Submission {
    /// Holds of every submission.
    #[verifier::type_invariant]
    pub open spec fn inv(&self) -> bool {
        self@.wf()
    }

    fn advance(waiting: VecDeque<Operation>, accepted: Vec<OperationId>) -> (step: SubmitStep)
        requires
            forall|i: int|
                0 <= i < waiting.len() ==> (#[trigger] waiting.deep_view()[i]).well_formed(),
        ensures
            step@ == next_step(waiting.deep_view(), accepted@),
    {
        let ghost before = waiting.deep_view();
        let mut waiting = waiting;
        match waiting.pop_front() {
            None => SubmitStep::Reply(accepted),
            Some(operation) => {
                proof {
                    assert(waiting.deep_view() =~= before.drop_first());
                    assert(operation.deep_view() == before[0]);
                    assert forall|i: int| 0 <= i < waiting.len() implies (
                    #[trigger] waiting.deep_view()[i]).well_formed() by {
                        assert(waiting.deep_view()[i] == before[i + 1]);
                    }
                }
                SubmitStep::Forward(Submission { waiting, accepted }, operation)
            },
        }
    }

    /// Takes a batch in: drops the malformed operations and asks for the
    /// first of the others to be forwarded, or replies at once when none is left.
    pub fn open(batch: Vec<Operation>) -> (step: SubmitStep)
        ensures
            step@ == opened(batch.deep_view()),
    {
        let ghost all = batch.deep_view();
        let mut waiting: VecDeque<Operation> = VecDeque::new();
        let mut i: usize = 0;
        while i < batch.len()
            invariant
                i <= batch.len(),
                all == batch.deep_view(),
                waiting.deep_view() == all.take(i as int).filter(is_well_formed()),
                forall|q: int|
                    0 <= q < waiting.len() ==> (#[trigger] waiting.deep_view()[q]).well_formed(),
            decreases batch.len() - i,
        {
            let ghost before = waiting.deep_view();
            proof {
                assert(all.take(i + 1) =~= all.take(i as int).push(all[i as int]));
                all.take(i as int).lemma_filter_push(all[i as int], is_well_formed());
                assert(all[i as int] == batch@[i as int].deep_view());
            }
            if validate_operation(&batch[i]).is_ok() {
                waiting.push_back(batch[i].clone());
                proof {
                    assert(waiting.deep_view() =~= before.push(all[i as int]));
                    assert forall|q: int| 0 <= q < waiting.len() implies (
                    #[trigger] waiting.deep_view()[q]).well_formed() by {
                        if q < before.len() {
                            assert(waiting.deep_view()[q] == before[q]);
                        }
                    }
                }
            }
            i += 1;
        }
        proof {
            assert(all.take(batch.len() as int) =~= all);
        }
        Submission::advance(waiting, Vec::new())
    }

    /// Takes the pool's answer to the operation that was handed out last,
    /// and asks for the next operation to be forwarded, or replies when none is left.
    pub fn step(self, outcome: Result<OperationId, ApiError>) -> (step: SubmitStep)
        ensures
            step@ == stepped(self@, outcome),
    {
        proof {
            use_type_invariant(&self);
        }
        let Submission { waiting, accepted } = self;
        let mut accepted = accepted;
        if let Ok(id) = outcome {
            accepted.push(id);
        }
        Submission::advance(waiting, accepted)
    }
}

/// Where a submission stands after the pool has given `outcomes`, one for
/// each operation handed out, in order.
pub open spec fn run(step: SubmitStepView, outcomes: Seq<Result<OperationId, ApiError>>) -> SubmitStepView
    decreases outcomes.len(),
{
    match step {
        SubmitStepView::Reply(_) => step,
        SubmitStepView::Forward(submission, _) => if outcomes.len() == 0 {
            step
        } else {
            run(stepped(submission, outcomes[0]), outcomes.drop_first())
        },
    }
}

/// The operations that are handed out while the pool gives `outcomes`.
pub open spec fn forwarded(
    step: SubmitStepView,
    outcomes: Seq<Result<OperationId, ApiError>>,
) -> Seq<OperationView>
    decreases outcomes.len(),
{
    match step {
        SubmitStepView::Reply(_) => Seq::empty(),
        SubmitStepView::Forward(submission, operation) => if outcomes.len() == 0 {
            seq![operation]
        } else {
            seq![operation] + forwarded(stepped(submission, outcomes[0]), outcomes.drop_first())
        },
    }
}

/// The identifiers among the pool's answers, in order.
pub open spec fn accepted_ids(outcomes: Seq<Result<OperationId, ApiError>>) -> Seq<OperationId>
    decreases outcomes.len(),
{
    if outcomes.len() == 0 {
        Seq::empty()
    } else {
        with_outcome(Seq::empty(), outcomes[0]) + accepted_ids(outcomes.drop_first())
    }
}

proof fn lemma_run_to_reply(
    waiting: Seq<OperationView>,
    accepted: Seq<OperationId>,
    outcomes: Seq<Result<OperationId, ApiError>>,
)
    requires
        outcomes.len() == waiting.len(),
    ensures
        run(next_step(waiting, accepted), outcomes) == SubmitStepView::Reply(
            accepted + accepted_ids(outcomes),
        ),
        forwarded(next_step(waiting, accepted), outcomes) == waiting,
    decreases outcomes.len(),
{
    if waiting.len() == 0 {
        assert(accepted + accepted_ids(outcomes) =~= accepted);
        assert(forwarded(next_step(waiting, accepted), outcomes) =~= waiting);
    } else {
        let rest = waiting.drop_first();
        let grown = with_outcome(accepted, outcomes[0]);
        lemma_run_to_reply(rest, grown, outcomes.drop_first());
        assert(grown + accepted_ids(outcomes.drop_first()) =~= accepted + accepted_ids(outcomes));
        if outcomes.len() == 1 {
            assert(rest.len() == 0);
            assert(outcomes.drop_first().len() == 0);
        }
        assert(forwarded(next_step(waiting, accepted), outcomes) =~= waiting) by {
            let tail = forwarded(next_step(rest, grown), outcomes.drop_first());
            assert(tail == rest);
            assert(forwarded(next_step(waiting, accepted), outcomes) == seq![waiting[0]] + tail);
        }
    }
}

/// A batch whose well-formed operations have all been answered by the pool
/// ends in a reply, and the reply holds the identifiers that the pool gave,
/// in the order of the batch. What was handed out to be forwarded are the
/// well-formed operations of the batch, in order, and no others.
pub proof fn law_batch_replies_with_accepted(
    batch: Seq<OperationView>,
    outcomes: Seq<Result<OperationId, ApiError>>,
)
    requires
        outcomes.len() == batch.filter(is_well_formed()).len(),
    ensures
        run(opened(batch), outcomes) == SubmitStepView::Reply(accepted_ids(outcomes)),
        forwarded(opened(batch), outcomes) == batch.filter(is_well_formed()),
{
    lemma_run_to_reply(batch.filter(is_well_formed()), Seq::empty(), outcomes);
    assert(Seq::<OperationId>::empty() + accepted_ids(outcomes) =~= accepted_ids(outcomes));
}

/// The reply never holds more identifiers than the batch holds operations.
pub proof fn law_reply_no_longer_than_batch(
    batch: Seq<OperationView>,
    outcomes: Seq<Result<OperationId, ApiError>>,
)
    requires
        outcomes.len() == batch.filter(is_well_formed()).len(),
    ensures
        accepted_ids(outcomes).len() <= batch.len(),
{
    batch.lemma_filter_len(is_well_formed());
    lemma_accepted_len(outcomes);
}

proof fn lemma_accepted_len(outcomes: Seq<Result<OperationId, ApiError>>)
    ensures
        accepted_ids(outcomes).len() <= outcomes.len(),
    decreases outcomes.len(),
{
    if outcomes.len() > 0 {
        lemma_accepted_len(outcomes.drop_first());
    }
}

} // verus!
