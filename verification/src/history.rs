//! The calls that change the contract's entries, and what they leave behind.
use crate::abort::Abort;
use crate::action::{apply, lemma_apply_push, ActionView, HaltView, ReplyView};
use crate::batch_create::batch_create_escrow_rule;
use crate::batch_settle::{batch_settle_rule, Settlement};
use crate::claim::{
    cancel_escrow_rule, cancelled, claim_escrow_partial_rule, claim_escrow_rule, partially_claimed,
    released,
};
use crate::create::{
    create_disputable_escrow_rule, create_escrow_rule, create_milestone_escrow_rule, index_full,
    milestone_escrow, numbered, plain_escrow, schedule_total,
};
use crate::dispute::{
    add_arbitrator_rule, dispute_rule, raise_dispute_rule, remove_arbitrator_rule,
    resolve_dispute_rule, resolved,
};
use crate::guard::searching;
use crate::milestone::{
    approval_rule, approve_milestone_rule, claim_milestone_rule, lemma_milestone_position,
    milestone_claim_rule,
};
use crate::soundness::{escrow_sound, lemma_lookup, scheduled};
use crate::store::StoreView;
use crate::types::{Address, BatchEscrowInputView, Context, EscrowStatus, EscrowView, Milestone};
use vstd::prelude::*;

verus! {

/// A call that can change the contract's entries, with its arguments.
pub enum Call {
    CreateEscrow {
        token: Address,
        from: Address,
        to: Address,
        amount: i128,
        release_ledger: u32,
        memo: Seq<char>,
    },
    CreateDisputableEscrow {
        token: Address,
        from: Address,
        to: Address,
        amount: i128,
        release_ledger: u32,
        arbitrator: Address,
    },
    CreateMilestoneEscrow {
        token: Address,
        from: Address,
        to: Address,
        agent: Address,
        milestones: Seq<Milestone>,
        deposit: i128,
    },
    BatchCreate { token: Address, from: Address, items: Seq<BatchEscrowInputView> },
    ClaimPartial { id: u32, amount: i128 },
    Claim { id: u32 },
    Cancel { id: u32 },
    ApproveMilestone { id: u32, milestone: u32, approver: Address },
    ClaimMilestone { id: u32, milestone: u32, recipient: Address },
    BatchSettle { kind: Settlement, ids: Seq<u32>, start_index: u32, max_items: u32 },
    AddArbitrator { admin: Address, arbitrator: Address },
    RemoveArbitrator { admin: Address, arbitrator: Address },
    RaiseDispute { id: u32, by: Address },
    ResolveDispute {
        id: u32,
        arbitrator: Address,
        resolution: Seq<char>,
        to: Address,
        amount: i128,
    },
}

/// What a call asked of the host, whether it completed or stopped.
pub open spec fn asked<T>(result: Result<ReplyView<T>, HaltView>) -> Result<
    Seq<ActionView>,
    HaltView,
> {
    match result {
        Ok(reply) => Ok(reply.trace),
        Err(halt) => Err(halt),
    }
}

/// How a call ends.
#[verifier::opaque]
pub open spec fn ending(store: StoreView, ctx: Context, call: Call) -> Result<
    Seq<ActionView>,
    HaltView,
> {
    match call {
        Call::CreateEscrow { token, from, to, amount, release_ledger, memo } => asked(
            create_escrow_rule(store, ctx, token, from, to, amount, release_ledger, memo),
        ),
        Call::CreateDisputableEscrow { token, from, to, amount, release_ledger, arbitrator } => {
            asked(
                create_disputable_escrow_rule(
                    store,
                    ctx,
                    token,
                    from,
                    to,
                    amount,
                    release_ledger,
                    arbitrator,
                ),
            )
        },
        Call::CreateMilestoneEscrow { token, from, to, agent, milestones, deposit } => asked(
            create_milestone_escrow_rule(store, ctx, token, from, to, agent, milestones, deposit),
        ),
        Call::BatchCreate { token, from, items } => asked(
            batch_create_escrow_rule(store, ctx, token, from, items),
        ),
        Call::ClaimPartial { id, amount } => asked(
            claim_escrow_partial_rule(store, ctx, id, amount),
        ),
        Call::Claim { id } => asked(claim_escrow_rule(store, ctx, id)),
        Call::Cancel { id } => asked(cancel_escrow_rule(store, ctx, id)),
        Call::ApproveMilestone { id, milestone, approver } => asked(
            approve_milestone_rule(store, ctx, id, milestone, approver),
        ),
        Call::ClaimMilestone { id, milestone, recipient } => asked(
            claim_milestone_rule(store, ctx, id, milestone, recipient),
        ),
        Call::BatchSettle { kind, ids, start_index, max_items } => asked(
            batch_settle_rule(kind, store, ctx, ids, start_index, max_items),
        ),
        Call::AddArbitrator { admin, arbitrator } => asked(
            add_arbitrator_rule(store, ctx, admin, arbitrator),
        ),
        Call::RemoveArbitrator { admin, arbitrator } => asked(
            remove_arbitrator_rule(store, ctx, admin, arbitrator),
        ),
        Call::RaiseDispute { id, by } => asked(raise_dispute_rule(store, ctx, id, by)),
        Call::ResolveDispute { id, arbitrator, resolution, to, amount } => asked(
            resolve_dispute_rule(store, ctx, id, arbitrator, resolution, to, amount),
        ),
    }
}

/// What a call asks of the host, if it completes.
pub open spec fn trace_of(store: StoreView, ctx: Context, call: Call) -> Option<Seq<ActionView>> {
    match ending(store, ctx, call) {
        Ok(trace) => Some(trace),
        Err(_) => None,
    }
}

/// The entries after a call. An aborted call leaves no trace.
pub open spec fn outcome(store: StoreView, ctx: Context, call: Call) -> StoreView {
    match trace_of(store, ctx, call) {
        Some(trace) => apply(store, trace),
        None => store,
    }
}

/// The entries after a series of calls, each made in its own context.
pub open spec fn after(store: StoreView, calls: Seq<(Context, Call)>) -> StoreView
    decreases calls.len(),
{
    if calls.len() == 0 {
        store
    } else {
        outcome(after(store, calls.drop_last()), calls.last().0, calls.last().1)
    }
}

/// The escrow that a call acts on, if it acts on a single existing one.
pub open spec fn target(call: Call) -> Option<u32> {
    match call {
        Call::ClaimPartial { id, .. } => Some(id),
        Call::Claim { id } => Some(id),
        Call::Cancel { id } => Some(id),
        Call::ApproveMilestone { id, .. } => Some(id),
        Call::ClaimMilestone { id, .. } => Some(id),
        Call::RaiseDispute { id, .. } => Some(id),
        Call::ResolveDispute { id, .. } => Some(id),
        _ => None,
    }
}

/// What the escrow that a call acts on becomes, if the call completes.
pub open spec fn next_state(ctx: Context, call: Call, e: EscrowView) -> EscrowView {
    match call {
        Call::ClaimPartial { amount, .. } => partially_claimed(e, amount),
        Call::Claim { .. } => released(e),
        Call::Cancel { .. } => cancelled(e),
        Call::ApproveMilestone { milestone, approver, .. } => approval_rule(
            ctx,
            e,
            milestone,
            approver,
        )->Ok_0,
        Call::ClaimMilestone { milestone, recipient, .. } => milestone_claim_rule(
            e,
            milestone,
            recipient,
        )->Ok_0.0,
        Call::RaiseDispute { by, .. } => dispute_rule(ctx, e, by)->Ok_0,
        Call::ResolveDispute { .. } => resolved(e),
        _ => e,
    }
}

/// The escrow that a creating call adds, if it adds one.
pub open spec fn added(store: StoreView, ctx: Context, call: Call) -> Option<EscrowView> {
    let id = store.next_id();
    match call {
        Call::CreateEscrow { token, from, to, amount, release_ledger, memo } => {
            if index_full(store, ctx, to) {
                None
            } else {
                Some(plain_escrow(id, token, from, to, amount, release_ledger, memo))
            }
        },
        Call::CreateDisputableEscrow { token, from, to, amount, release_ledger, arbitrator } => {
            if index_full(store, ctx, to) {
                None
            } else {
                Some(
                    EscrowView {
                        arbitrator: Some(arbitrator),
                        ..plain_escrow(id, token, from, to, amount, release_ledger, Seq::empty())
                    },
                )
            }
        },
        Call::CreateMilestoneEscrow { token, from, to, agent, milestones, deposit } => {
            if index_full(store, ctx, to) {
                None
            } else {
                Some(milestone_escrow(id, token, from, to, agent, milestones, deposit))
            }
        },
        _ => None,
    }
}

/// A search asks for no writes.
proof fn lemma_searching(store: StoreView, id: u32, before: Seq<ActionView>)
    requires
        apply(store, before) == store,
    ensures
        apply(store, searching(store, id, before)) == store,
{
    broadcast use lemma_apply_push;

}

/// An authorisation asks for no writes.
proof fn lemma_authorised(store: StoreView, who: Address)
    ensures
        apply(store, seq![ActionView::RequireAuth(who)]) == store,
        apply(store, Seq::empty()) == store,
{
    broadcast use lemma_apply_push;

    assert(seq![ActionView::RequireAuth(who)] =~= Seq::<ActionView>::empty().push(
        ActionView::RequireAuth(who),
    ));
}

/// A call that acts on a single escrow completes only where the escrow exists
/// and is pending, and replaces it.
#[verifier::rlimit(40)]
pub proof fn lemma_target(store: StoreView, ctx: Context, call: Call)
    requires
        target(call) is Some,
        trace_of(store, ctx, call) is Some,
    ensures
        store.locate(target(call)->0, Abort::RecipientNotFound) matches Ok(place) && {
            &&& place.escrow.status == EscrowStatus::Pending
            &&& outcome(store, ctx, call) == store.replace(
                place,
                next_state(ctx, call, place.escrow),
            )
        },
{
    reveal(ending);
    broadcast use lemma_apply_push;

    let id = target(call)->0;
    let trace = trace_of(store, ctx, call)->0;
    let place = store.locate(id, Abort::RecipientNotFound)->Ok_0;
    assert(store.locate(id, Abort::RecipientNotFound) is Ok);
    lemma_authorised(store, place.escrow.to);
    lemma_searching(store, id, Seq::empty());
    match call {
        Call::ApproveMilestone { approver, .. } => {
            lemma_authorised(store, approver);
            lemma_searching(store, id, seq![ActionView::RequireAuth(approver)]);
        },
        Call::ClaimMilestone { recipient, .. } => {
            lemma_authorised(store, recipient);
            lemma_searching(store, id, seq![ActionView::RequireAuth(recipient)]);
        },
        Call::RaiseDispute { by, .. } => {
            lemma_authorised(store, by);
            lemma_searching(store, id, seq![ActionView::RequireAuth(by)]);
        },
        Call::ResolveDispute { arbitrator, .. } => {
            lemma_authorised(store, arbitrator);
            lemma_searching(store, id, seq![ActionView::RequireAuth(arbitrator)]);
        },
        _ => {},
    }
}

/// The sum of a schedule depends only on its amounts.
proof fn lemma_scheduled_same(a: Seq<Milestone>, b: Seq<Milestone>)
    requires
        a.len() == b.len(),
        forall|i: int| 0 <= i < a.len() ==> (#[trigger] a[i]).amount == b[i].amount,
    ensures
        scheduled(a) == scheduled(b),
    decreases a.len(),
{
    if a.len() > 0 {
        assert(a[a.len() - 1].amount == b[b.len() - 1].amount);
        lemma_scheduled_same(a.drop_last(), b.drop_last());
    }
}

/// A schedule that is accepted has positive amounts, whose sum is the total.
pub proof fn lemma_schedule_total(ctx: Context, milestones: Seq<Milestone>)
    ensures
        schedule_total(ctx, milestones) matches Ok(total) ==> {
            &&& total == scheduled(milestones)
            &&& forall|i: int|
                0 <= i < milestones.len() ==> (#[trigger] milestones[i]).amount > 0
        },
    decreases milestones.len(),
{
    if milestones.len() > 0 {
        lemma_schedule_total(ctx, milestones.drop_last());
        if schedule_total(ctx, milestones) is Ok {
            assert forall|i: int| 0 <= i < milestones.len() implies (
            #[trigger] milestones[i]).amount > 0 by {
                if i < milestones.len() - 1 {
                    assert(milestones.drop_last()[i].amount > 0);
                }
            }
        }
    }
}

/// What a call makes of a sound escrow is sound, and keeps its identity.
#[verifier::rlimit(40)]
pub proof fn lemma_next_state(store: StoreView, ctx: Context, call: Call)
    requires
        store.sound(),
        target(call) is Some,
        trace_of(store, ctx, call) is Some,
    ensures
        store.lookup(target(call)->0) matches Some(e) && {
            &&& escrow_sound(next_state(ctx, call, e))
            &&& same_terms(e, next_state(ctx, call, e))
        },
{
    reveal(ending);
    let id = target(call)->0;
    lemma_target(store, ctx, call);
    lemma_lookup(store, id);
    let e = store.lookup(id)->0;
    let next = next_state(ctx, call, e);
    match call {
        Call::ApproveMilestone { milestone, .. } => {
            lemma_milestone_position(e.milestones, milestone);
            lemma_scheduled_same(e.milestones, next.milestones);
        },
        Call::ClaimMilestone { milestone, .. } => {
            lemma_milestone_position(e.milestones, milestone);
            lemma_scheduled_same(e.milestones, next.milestones);
        },
        _ => {},
    }
}

/// Whether two states of an escrow agree in what was settled when it was
/// created. The amount can only go down, and an approval or a claim of a
/// milestone is never taken back.
pub open spec fn same_terms(e: EscrowView, next: EscrowView) -> bool {
    &&& next.id == e.id
    &&& next.from == e.from
    &&& next.to == e.to
    &&& next.token == e.token
    &&& 0 <= next.amount <= e.amount
    &&& next.release_ledger == e.release_ledger
    &&& next.memo == e.memo
    &&& next.arbitrator == e.arbitrator
    &&& next.agent == e.agent
    &&& next.is_milestone_based == e.is_milestone_based
    &&& next.milestones.len() == e.milestones.len()
    &&& forall|i: int|
        0 <= i < e.milestones.len() ==> (#[trigger] next.milestones[i]).id == e.milestones[i].id
            && next.milestones[i].amount == e.milestones[i].amount
            && next.milestones[i].approval_deadline_ledger
            == e.milestones[i].approval_deadline_ledger
    &&& forall|i: int|
        0 <= i < e.milestones.len() && (#[trigger] e.milestones[i]).approved
            ==> next.milestones[i].approved
    &&& forall|i: int|
        0 <= i < e.milestones.len() && (#[trigger] e.milestones[i]).claimed
            ==> next.milestones[i].claimed
}

/// Whether a call is one that creates a single escrow.
pub open spec fn creates_one(call: Call) -> bool {
    call is CreateEscrow || call is CreateDisputableEscrow || call is CreateMilestoneEscrow
}

/// A creating call that completes either adds a sound escrow under the next id,
/// or changes nothing because the recipient's index is full.
#[verifier::rlimit(40)]
pub proof fn lemma_added(store: StoreView, ctx: Context, call: Call)
    requires
        creates_one(call),
        trace_of(store, ctx, call) is Some,
    ensures
        match added(store, ctx, call) {
            Some(e) => {
                &&& e.id == store.next_id() < u32::MAX
                &&& escrow_sound(e)
                &&& outcome(store, ctx, call) == store.append(e)
                &&& !index_full(store, ctx, e.to)
            },
            None => outcome(store, ctx, call) == store,
        },
{
    reveal(ending);
    broadcast use lemma_apply_push;

    match call {
        Call::CreateEscrow { from, .. } => {
            lemma_authorised(store, from);
        },
        Call::CreateDisputableEscrow { from, .. } => {
            lemma_authorised(store, from);
        },
        Call::CreateMilestoneEscrow { from, milestones, .. } => {
            lemma_authorised(store, from);
            lemma_schedule_total(ctx, milestones);
            lemma_scheduled_same(milestones, numbered(milestones));
        },
        _ => {},
    }
    if let Some(e) = added(store, ctx, call) {
        assert(outcome(store, ctx, call) =~= store.append(e));
    }
}

} // verus!
