//! What one call means for the calls after it.
use crate::abort::Abort;
use crate::batch_create::{addressed_to, batch_create_escrow_rule, draft, lemma_draft_ids};
use crate::batch_outcome::{
    lemma_append_all_entries, lemma_batch_create, lemma_batch_settle, lemma_draft_sound,
    lemma_settle_run,
};
use crate::batch_settle::{chunk_end, chunk_start};
use crate::create::{
    create_disputable_escrow_rule, create_escrow_rule, create_milestone_escrow_rule, plain_escrow,
};
use crate::dispute::{award_rule, registered};
use crate::flows::{inflow, lemma_create_moves};
use crate::guard::{creation_entry_rule, entry_rule};
use crate::history::{
    added, after, creates_one, ending, lemma_added, lemma_next_state, lemma_target, next_state,
    outcome, same_terms, target, trace_of, Call,
};
use crate::laws::{
    law_escrows_persist, law_settled_is_final, law_soundness_kept, lemma_arbitrators, lemma_chunk,
    lemma_push_contains, lemma_without,
};
use crate::milestone::{all_claimed, lemma_milestone_position, milestone_position};
use crate::query::{
    get_escrow_count_rule, get_escrow_rule, get_milestones_rule, get_user_escrows_rule, ids_of,
};
use crate::soundness::{lemma_append, lemma_append_all, lemma_listed, lemma_lookup, lemma_replace};
use crate::store::StoreView;
use crate::types::{
    Address, BatchEscrowInputView, BatchEscrowResult, Context, ContractError, EscrowStatus,
    EscrowView,
};
use vstd::prelude::*;

verus! {

/// What a creating call answers, if it completes.
pub open spec fn answer(store: StoreView, ctx: Context, call: Call) -> Option<
    Result<u32, ContractError>,
> {
    match call {
        Call::CreateEscrow { token, from, to, amount, release_ledger, memo } => {
            match create_escrow_rule(store, ctx, token, from, to, amount, release_ledger, memo) {
                Ok(reply) => Some(reply.value),
                Err(_) => None,
            }
        },
        Call::CreateDisputableEscrow { token, from, to, amount, release_ledger, arbitrator } => {
            match create_disputable_escrow_rule(
                store,
                ctx,
                token,
                from,
                to,
                amount,
                release_ledger,
                arbitrator,
            ) {
                Ok(reply) => Some(reply.value),
                Err(_) => None,
            }
        },
        Call::CreateMilestoneEscrow { token, from, to, agent, milestones, deposit } => {
            match create_milestone_escrow_rule(
                store,
                ctx,
                token,
                from,
                to,
                agent,
                milestones,
                deposit,
            ) {
                Ok(reply) => Some(reply.value),
                Err(_) => None,
            }
        },
        _ => None,
    }
}

/// A creating call that answers an id has recorded the new escrow under it: the
/// escrow can be looked up, stands last in its recipient's list, and is counted.
/// The id is the number of escrows created before.
pub proof fn law_created_escrow_is_found(store: StoreView, ctx: Context, call: Call, id: u32)
    requires
        store.sound(),
        creates_one(call),
        answer(store, ctx, call) == Some(Ok::<u32, ContractError>(id)),
    ensures
        added(store, ctx, call) matches Some(e) && {
            let next = outcome(store, ctx, call);
            &&& e.id == id
            &&& id == get_escrow_count_rule(store).value
            &&& get_escrow_rule(next, id).value == Ok::<EscrowView, ContractError>(e)
            &&& get_milestones_rule(next, id) matches Ok(reply) && reply.value == e.milestones
            &&& get_user_escrows_rule(next, e.to).value == get_user_escrows_rule(
                store,
                e.to,
            ).value.push(id)
            &&& get_escrow_count_rule(next).value == get_escrow_count_rule(store).value + 1
        },
{
    reveal(ending);
    lemma_added(store, ctx, call);
    let e = added(store, ctx, call)->0;
    lemma_append(store, e);
    let next = outcome(store, ctx, call);
    lemma_lookup(next, id);
    assert(next.list_of(e.to) == store.list_of(e.to).push(e));
    assert(ids_of(next.list_of(e.to)) =~= ids_of(store.list_of(e.to)).push(id));
}

/// Where the recipient's index is full, a creating call answers so, takes no
/// funds and changes nothing.
pub proof fn law_full_index_changes_nothing(
    store: StoreView,
    ctx: Context,
    call: Call,
    token: Address,
)
    requires
        creates_one(call),
        answer(store, ctx, call) == Some(Err::<u32, ContractError>(ContractError::IndexFull)),
    ensures
        outcome(store, ctx, call) == store,
        inflow(trace_of(store, ctx, call)->0, token) == 0,
{
    reveal(ending);
    lemma_added(store, ctx, call);
    lemma_create_moves(store, ctx, call, token);
}

/// What a batch answers for each item: an id under which the item's escrow is
/// drafted, or that the item was skipped.
proof fn lemma_draft_answers(
    store: StoreView,
    ctx: Context,
    token: Address,
    from: Address,
    items: Seq<BatchEscrowInputView>,
)
    requires
        items.len() <= u32::MAX,
    ensures
        draft(store, ctx, token, from, items) matches Ok(plan) ==> {
            &&& plan.results.len() == items.len()
            &&& forall|k: int|
                0 <= k < items.len() ==> match #[trigger] plan.results[k] {
                    BatchEscrowResult::Success(id) => exists|j: int|
                        0 <= j < plan.opened.len() && #[trigger] plan.opened[j] == plain_escrow(
                            id,
                            token,
                            from,
                            items[k].to,
                            items[k].amount,
                            items[k].release_ledger,
                            items[k].memo,
                        ),
                    BatchEscrowResult::Skipped(at) => at == k,
                }
        },
    decreases items.len(),
{
    if items.len() > 0 {
        let init = items.drop_last();
        lemma_draft_answers(store, ctx, token, from, init);
        if draft(store, ctx, token, from, items) is Ok {
            let before = draft(store, ctx, token, from, init)->Ok_0;
            let plan = draft(store, ctx, token, from, items)->Ok_0;
            assert forall|k: int| 0 <= k < items.len() implies match #[trigger] plan.results[k] {
                BatchEscrowResult::Success(id) => exists|j: int|
                    0 <= j < plan.opened.len() && #[trigger] plan.opened[j] == plain_escrow(
                        id,
                        token,
                        from,
                        items[k].to,
                        items[k].amount,
                        items[k].release_ledger,
                        items[k].memo,
                    ),
                BatchEscrowResult::Skipped(at) => at == k,
            } by {
                if k < init.len() {
                    assert(plan.results[k] == before.results[k]);
                    if let BatchEscrowResult::Success(id) = before.results[k] {
                        let j = choose|j: int|
                            0 <= j < before.opened.len() && #[trigger] before.opened[j]
                                == plain_escrow(
                                id,
                                token,
                                from,
                                init[k].to,
                                init[k].amount,
                                init[k].release_ledger,
                                init[k].memo,
                            );
                        assert(plan.opened[j] == before.opened[j]);
                    }
                } else if plan.results[k] is Success {
                    assert(plan.opened[plan.opened.len() - 1] == plan.opened.last());
                }
            }
        }
    }
}

/// A batch answers once for each item, in order. An id in the answers leads to
/// an escrow with that item's terms.
pub proof fn law_batch_escrows_are_found(
    store: StoreView,
    ctx: Context,
    token: Address,
    from: Address,
    items: Seq<BatchEscrowInputView>,
)
    requires
        store.sound(),
        batch_create_escrow_rule(store, ctx, token, from, items) is Ok,
    ensures
        ({
            let results = batch_create_escrow_rule(store, ctx, token, from, items)->Ok_0.value;
            let next = outcome(store, ctx, Call::BatchCreate { token, from, items });
            &&& results.len() == items.len()
            &&& forall|k: int|
                0 <= k < items.len() ==> match #[trigger] results[k] {
                    BatchEscrowResult::Success(id) => get_escrow_rule(next, id).value == Ok::<
                        EscrowView,
                        ContractError,
                    >(
                        plain_escrow(
                            id,
                            token,
                            from,
                            items[k].to,
                            items[k].amount,
                            items[k].release_ledger,
                            items[k].memo,
                        ),
                    ),
                    BatchEscrowResult::Skipped(at) => at == k,
                }
        }),
{
    reveal(ending);
    let results = batch_create_escrow_rule(store, ctx, token, from, items)->Ok_0.value;
    let next = outcome(store, ctx, Call::BatchCreate { token, from, items });
    let plan = draft(store, ctx, token, from, items)->Ok_0;
    lemma_draft_answers(store, ctx, token, from, items);
    lemma_batch_create(store, ctx, token, from, items);
    lemma_draft_sound(store, ctx, token, from, items);
    lemma_append_all(store, plan.opened);
    assert forall|k: int| 0 <= k < items.len() implies match #[trigger] results[k] {
        BatchEscrowResult::Success(id) => get_escrow_rule(next, id).value == Ok::<
            EscrowView,
            ContractError,
        >(
            plain_escrow(
                id,
                token,
                from,
                items[k].to,
                items[k].amount,
                items[k].release_ledger,
                items[k].memo,
            ),
        ),
        BatchEscrowResult::Skipped(at) => at == k,
    } by {
        if let BatchEscrowResult::Success(id) = results[k] {
            let j = choose|j: int|
                0 <= j < plan.opened.len() && #[trigger] plan.opened[j] == plain_escrow(
                    id,
                    token,
                    from,
                    items[k].to,
                    items[k].amount,
                    items[k].release_ledger,
                    items[k].memo,
                );
            assert(next.lookup(plan.opened[j].id) == Some(plan.opened[j]));
            lemma_lookup(next, id);
        }
    }
}

/// The single calls that a batch stands for, one for each item.
pub open spec fn single_calls(
    ctx: Context,
    token: Address,
    from: Address,
    items: Seq<BatchEscrowInputView>,
) -> Seq<(Context, Call)> {
    Seq::new(
        items.len(),
        |k: int|
            (
                ctx,
                Call::CreateEscrow {
                    token,
                    from,
                    to: items[k].to,
                    amount: items[k].amount,
                    release_ledger: items[k].release_ledger,
                    memo: items[k].memo,
                },
            ),
    )
}

/// Single calls leave behind what recording a batch's escrows one after the
/// other would.
#[verifier::rlimit(40)]
pub proof fn lemma_single_calls(
    store: StoreView,
    ctx: Context,
    token: Address,
    from: Address,
    items: Seq<BatchEscrowInputView>,
)
    requires
        creation_entry_rule(ctx) is Ok,
        draft(store, ctx, token, from, items) matches Ok(plan) && store.next_id()
            + plan.opened.len() <= u32::MAX,
    ensures
        after(store, single_calls(ctx, token, from, items)) == store.append_all(
            draft(store, ctx, token, from, items)->Ok_0.opened,
        ),
    decreases items.len(),
{
    reveal(ending);
    let calls = single_calls(ctx, token, from, items);
    if items.len() > 0 {
        let init = items.drop_last();
        let before = draft(store, ctx, token, from, init)->Ok_0;
        let plan = draft(store, ctx, token, from, items)->Ok_0;
        assert(calls.drop_last() =~= single_calls(ctx, token, from, init));
        assert(before.opened.len() <= plan.opened.len());
        lemma_single_calls(store, ctx, token, from, init);
        lemma_draft_ids(store, ctx, token, from, init);
        let state = store.append_all(before.opened);
        assert forall|j: int| 0 <= j < before.opened.len() implies (
        #[trigger] before.opened[j]).id == store.next_id() + j by {}
        lemma_append_all_entries(store, before.opened);
        let item = items.last();
        let call = calls.last().1;
        assert(state.next_id() == store.next_id() + before.opened.len());
        assert(state.list_of(item.to) == store.list_of(item.to) + addressed_to(
            before.opened,
            item.to,
        ));
        if trace_of(state, ctx, call) is Some {
            lemma_added(state, ctx, call);
        }
        if plan.opened != before.opened {
            assert(plan.opened.drop_last() =~= before.opened);
            assert(trace_of(state, ctx, call) is Some);
        }
    }
}

/// A batch that completes leaves behind exactly what creating its items one by
/// one, in order, would: an item that the batch skips is one that would be
/// refused.
pub proof fn law_batch_is_single_calls(
    store: StoreView,
    ctx: Context,
    token: Address,
    from: Address,
    items: Seq<BatchEscrowInputView>,
)
    requires
        trace_of(store, ctx, Call::BatchCreate { token, from, items }) is Some,
    ensures
        outcome(store, ctx, Call::BatchCreate { token, from, items }) == after(
            store,
            single_calls(ctx, token, from, items),
        ),
{
    reveal(ending);
    lemma_batch_create(store, ctx, token, from, items);
    lemma_single_calls(store, ctx, token, from, items);
}

/// Whether a call settles the escrow that it acts on for good.
pub open spec fn settles(call: Call) -> bool {
    call is Claim || call is Cancel || call is ResolveDispute
}

/// A settled escrow refuses every call.
pub proof fn law_settled_refuses(store: StoreView, ctx: Context, call: Call)
    requires
        store.sound(),
        target(call) matches Some(id) && (store.lookup(id) matches Some(e) ==> e.status
            != EscrowStatus::Pending),
    ensures
        trace_of(store, ctx, call) is None,
{
    if trace_of(store, ctx, call) is Some {
        lemma_target(store, ctx, call);
        lemma_lookup(store, target(call)->0);
    }
}

/// An escrow is settled once: after a claim, a cancellation or a resolution no
/// call on it completes any more, whatever happens in between.
#[verifier::rlimit(40)]
pub proof fn law_settled_once(
    store: StoreView,
    ctx: Context,
    call: Call,
    between: Seq<(Context, Call)>,
    later: Context,
    again: Call,
)
    requires
        store.sound(),
        settles(call),
        trace_of(store, ctx, call) is Some,
        target(again) == target(call),
    ensures
        trace_of(after(outcome(store, ctx, call), between), later, again) is None,
{
    let id = target(call)->0;
    lemma_target(store, ctx, call);
    lemma_next_state(store, ctx, call);
    lemma_lookup(store, id);
    let place = store.locate(id, Abort::RecipientNotFound)->Ok_0;
    lemma_replace(store, place, next_state(ctx, call, place.escrow));
    let next = outcome(store, ctx, call);
    law_settled_is_final(next, between, id);
    law_settled_refuses(after(next, between), later, again);
}

/// Of the calls that act on a single escrow, only its arbitrator's resolution
/// completes while the escrow is disputed. Batches do not look at disputes.
pub proof fn law_dispute_blocks(store: StoreView, ctx: Context, call: Call)
    requires
        store.sound(),
        target(call) matches Some(id) && (store.lookup(id) matches Some(e) && e.disputed),
        trace_of(store, ctx, call) is Some,
    ensures
        call matches Call::ResolveDispute { id, arbitrator, .. } && store.lookup(
            id,
        )->0.arbitrator == Some(arbitrator),
{
    reveal(ending);
    lemma_target(store, ctx, call);
    lemma_lookup(store, target(call)->0);
}

/// Once a dispute is raised, the escrow's arbitrator can resolve it with any
/// award that the escrow covers, and nobody else can.
pub proof fn law_raised_dispute_is_resolvable(
    store: StoreView,
    ctx: Context,
    id: u32,
    by: Address,
    later: Context,
    arbitrator: Address,
    resolution: Seq<char>,
    to: Address,
    amount: i128,
)
    requires
        store.sound(),
        trace_of(store, ctx, Call::RaiseDispute { id, by }) is Some,
    ensures
        store.lookup(id) matches Some(e) && (trace_of(
            outcome(store, ctx, Call::RaiseDispute { id, by }),
            later,
            Call::ResolveDispute { id, arbitrator, resolution, to, amount },
        ) is Some <==> {
            &&& entry_rule(later) is Ok
            &&& e.arbitrator == Some(arbitrator)
            &&& award_rule(e.amount, resolution, amount) is Ok
        }),
{
    reveal(ending);
    let call = Call::RaiseDispute { id, by };
    lemma_target(store, ctx, call);
    lemma_next_state(store, ctx, call);
    lemma_lookup(store, id);
    let place = store.locate(id, Abort::RecipientNotFound)->Ok_0;
    lemma_replace(store, place, next_state(ctx, call, place.escrow));
    lemma_lookup(outcome(store, ctx, call), id);
}

/// Partial claims add up: two of them leave the escrow as one claim of their sum
/// does, and the second completes exactly if the first left enough.
#[verifier::rlimit(40)]
pub proof fn law_partial_claims_add_up(
    store: StoreView,
    ctx: Context,
    id: u32,
    first: i128,
    second: i128,
)
    requires
        store.sound(),
        trace_of(store, ctx, Call::ClaimPartial { id, amount: first }) is Some,
        second > 0,
    ensures
        store.lookup(id) matches Some(e) && {
            let next = outcome(store, ctx, Call::ClaimPartial { id, amount: first });
            let last = Call::ClaimPartial { id, amount: second };
            &&& trace_of(next, ctx, last) is Some <==> first + second <= e.amount
            &&& trace_of(next, ctx, last) is Some ==> {
                let at_once = Call::ClaimPartial { id, amount: (first + second) as i128 };
                &&& trace_of(store, ctx, at_once) is Some
                &&& outcome(next, ctx, last).lookup(id) == outcome(store, ctx, at_once).lookup(id)
            }
        },
{
    reveal(ending);
    let call = Call::ClaimPartial { id, amount: first };
    lemma_target(store, ctx, call);
    lemma_next_state(store, ctx, call);
    lemma_lookup(store, id);
    let place = store.locate(id, Abort::RecipientNotFound)->Ok_0;
    let e = place.escrow;
    lemma_replace(store, place, next_state(ctx, call, e));
    let next = outcome(store, ctx, call);
    lemma_lookup(next, id);
    let last = Call::ClaimPartial { id, amount: second };
    if trace_of(next, ctx, last) is Some {
        lemma_target(next, ctx, last);
        lemma_next_state(next, ctx, last);
        let again = next.locate(id, Abort::RecipientNotFound)->Ok_0;
        lemma_replace(next, again, next_state(ctx, last, again.escrow));
        let at_once = Call::ClaimPartial { id, amount: (first + second) as i128 };
        assert(trace_of(store, ctx, at_once) is Some);
        lemma_target(store, ctx, at_once);
        lemma_next_state(store, ctx, at_once);
        lemma_replace(store, place, next_state(ctx, at_once, e));
    }
}

/// An approved milestone can be claimed by the escrow's recipient, unless it was
/// claimed before.
#[verifier::rlimit(40)]
pub proof fn law_approved_milestone_is_claimable(
    store: StoreView,
    ctx: Context,
    id: u32,
    milestone: u32,
    approver: Address,
    later: Context,
)
    requires
        store.sound(),
        trace_of(store, ctx, Call::ApproveMilestone { id, milestone, approver }) is Some,
        entry_rule(later) is Ok,
    ensures
        store.lookup(id) matches Some(e) && {
            &&& milestone < e.milestones.len()
            &&& trace_of(
                outcome(store, ctx, Call::ApproveMilestone { id, milestone, approver }),
                later,
                Call::ClaimMilestone { id, milestone, recipient: e.to },
            ) is Some <==> !e.milestones[milestone as int].claimed
        },
{
    reveal(ending);
    let call = Call::ApproveMilestone { id, milestone, approver };
    lemma_target(store, ctx, call);
    lemma_next_state(store, ctx, call);
    lemma_lookup(store, id);
    let place = store.locate(id, Abort::RecipientNotFound)->Ok_0;
    let e = place.escrow;
    let approved = next_state(ctx, call, e);
    lemma_replace(store, place, approved);
    lemma_lookup(outcome(store, ctx, call), id);
    lemma_milestone_position(e.milestones, milestone);
    lemma_milestone_position(approved.milestones, milestone);
    let i = milestone_position(e.milestones, milestone)->0;
    assert(e.milestones[i].id == i);
    assert(approved.milestones[i].id == i);
}

/// Whatever calls follow, an escrow stays available with the terms that it had,
/// and no approval or claim of a milestone is taken back.
#[verifier::rlimit(40)]
pub proof fn law_terms_last(store: StoreView, calls: Seq<(Context, Call)>, id: u32)
    requires
        store.sound(),
        store.lookup(id) is Some,
    ensures
        after(store, calls).sound(),
        after(store, calls).lookup(id) matches Some(next) && same_terms(
            store.lookup(id)->0,
            next,
        ),
    decreases calls.len(),
{
    reveal(ending);
    lemma_lookup(store, id);
    if calls.len() > 0 {
        law_terms_last(store, calls.drop_last(), id);
        let before = after(store, calls.drop_last());
        law_soundness_kept(before, calls.last().0, calls.last().1);
        law_escrows_persist(before, calls.last().0, calls.last().1, id);
        let e = store.lookup(id)->0;
        let middle = before.lookup(id)->0;
        let next = after(store, calls).lookup(id)->0;
        assert forall|i: int| 0 <= i < e.milestones.len() implies (
        #[trigger] next.milestones[i]).id == e.milestones[i].id && next.milestones[i].amount
            == e.milestones[i].amount && next.milestones[i].approval_deadline_ledger
            == e.milestones[i].approval_deadline_ledger by {
            assert(middle.milestones[i].id == e.milestones[i].id);
        }
        assert forall|i: int|
            0 <= i < e.milestones.len() && (#[trigger] e.milestones[i]).approved implies
        next.milestones[i].approved by {
            assert(middle.milestones[i].approved ==> next.milestones[i].approved);
        }
        assert forall|i: int|
            0 <= i < e.milestones.len() && (#[trigger] e.milestones[i]).claimed implies
        next.milestones[i].claimed by {
            assert(middle.milestones[i].claimed ==> next.milestones[i].claimed);
        }
    }
}

/// A milestone is claimed once: no later claim of it completes, whatever happens
/// in between. The claim that leaves no milestone unclaimed releases the escrow.
#[verifier::rlimit(40)]
pub proof fn law_milestone_claimed_once(
    store: StoreView,
    ctx: Context,
    id: u32,
    milestone: u32,
    recipient: Address,
    between: Seq<(Context, Call)>,
    later: Context,
    again: Address,
)
    requires
        store.sound(),
        trace_of(store, ctx, Call::ClaimMilestone { id, milestone, recipient }) is Some,
    ensures
        ({
            let next = outcome(store, ctx, Call::ClaimMilestone { id, milestone, recipient });
            &&& next.lookup(id) matches Some(e) && (e.status == EscrowStatus::Released
                <==> all_claimed(e.milestones))
            &&& trace_of(
                after(next, between),
                later,
                Call::ClaimMilestone { id, milestone, recipient: again },
            ) is None
        }),
{
    reveal(ending);
    let call = Call::ClaimMilestone { id, milestone, recipient };
    lemma_target(store, ctx, call);
    lemma_next_state(store, ctx, call);
    lemma_lookup(store, id);
    let place = store.locate(id, Abort::RecipientNotFound)->Ok_0;
    let e = place.escrow;
    let claimed = next_state(ctx, call, e);
    lemma_replace(store, place, claimed);
    let next = outcome(store, ctx, call);
    lemma_milestone_position(e.milestones, milestone);
    let i = milestone_position(e.milestones, milestone)->0;
    assert(claimed.milestones[i].claimed);
    law_terms_last(next, between, id);
    let last = after(next, between);
    lemma_lookup(last, id);
    let found = last.lookup(id)->0;
    lemma_milestone_position(found.milestones, milestone);
    assert(e.milestones[i].id == i);
    assert(found.milestones[i].id == i);
    if let Some(k) = milestone_position(found.milestones, milestone) {
        assert(found.milestones[k].id == k);
    }
}

/// A milestone escrow is released per approved milestone: no call changes it but
/// an approval, a cancellation, and a claim of a milestone that is approved.
pub proof fn law_milestones_gate_release(store: StoreView, ctx: Context, call: Call, id: u32)
    requires
        store.sound(),
        store.lookup(id) matches Some(e) && e.is_milestone_based,
    ensures
        ({
            let e = store.lookup(id)->0;
            outcome(store, ctx, call).lookup(id) == Some(e) || (target(call) == Some(id)
                && match call {
                Call::ApproveMilestone { .. } => true,
                Call::Cancel { .. } => true,
                Call::ClaimMilestone { milestone, .. } => milestone < e.milestones.len()
                    && e.milestones[milestone as int].approved,
                _ => false,
            })
        }),
{
    reveal(ending);
    law_escrows_persist(store, ctx, call, id);
    lemma_lookup(store, id);
    if trace_of(store, ctx, call) is Some {
        let e = store.lookup(id)->0;
        if target(call) == Some(id) {
            lemma_target(store, ctx, call);
            if let Call::ClaimMilestone { milestone, .. } = call {
                lemma_milestone_position(e.milestones, milestone);
                let i = milestone_position(e.milestones, milestone)->0;
                assert(e.milestones[i].id == i);
            }
        } else if let Call::BatchSettle { kind, ids, start_index, max_items } = call {
            lemma_batch_settle(kind, store, ctx, ids, start_index, max_items);
            lemma_chunk(ctx, ids.len(), start_index, max_items);
            let start = chunk_start(ids.len(), start_index);
            let n = (chunk_end(ctx, ids.len(), start_index, max_items) - start) as nat;
            lemma_settle_run(kind, store, ctx, ids, start, n);
        }
    }
}

/// The recipient of an escrow can never approve its milestones.
pub proof fn law_recipient_cannot_approve(
    store: StoreView,
    ctx: Context,
    id: u32,
    milestone: u32,
)
    requires
        store.sound(),
    ensures
        store.lookup(id) matches Some(e) ==> trace_of(
            store,
            ctx,
            Call::ApproveMilestone { id, milestone, approver: e.to },
        ) is None,
{
    reveal(ending);
    lemma_lookup(store, id);
}

/// A recipient's list names exactly the escrows that are addressed to the
/// recipient, each once, in the order in which they were created.
pub proof fn law_list_names_recipients_escrows(store: StoreView, recipient: Address)
    requires
        store.sound(),
    ensures
        ({
            let ids = get_user_escrows_rule(store, recipient).value;
            &&& forall|id: u32| #[trigger]
                ids.contains(id) <==> (store.lookup(id) matches Some(e) && e.to == recipient)
            &&& forall|i: int, j: int| 0 <= i < j < ids.len() ==> ids[i] < ids[j]
        }),
{
    let list = store.list_of(recipient);
    let ids = get_user_escrows_rule(store, recipient).value;
    assert forall|id: u32| #[trigger] ids.contains(id) <==> (store.lookup(id) matches Some(e)
        && e.to == recipient) by {
        if ids.contains(id) {
            let i = choose|i: int| 0 <= i < ids.len() && ids[i] == id;
            assert(list[i].id == id);
            lemma_listed(store, recipient, i);
            assert(store.list_sound(recipient));
        }
        lemma_lookup(store, id);
        if store.lookup(id) is Some && store.lookup(id)->0.to == recipient {
            let place = store.locate(id, Abort::RecipientNotFound)->Ok_0;
            assert(ids[place.index] == id);
        }
    }
    assert forall|i: int, j: int| 0 <= i < j < ids.len() implies ids[i] < ids[j] by {
        assert(store.lists.contains_key(recipient));
        assert(store.list_sound(recipient));
        assert(store.lists[recipient][i].id < store.lists[recipient][j].id);
    }
}

/// Removing an arbitrator takes back adding it: the others stay, in their order.
pub proof fn law_removing_undoes_adding(
    store: StoreView,
    ctx: Context,
    admin: Address,
    arbitrator: Address,
)
    requires
        store.sound(),
        trace_of(store, ctx, Call::AddArbitrator { admin, arbitrator }) is Some,
    ensures
        ({
            let next = outcome(store, ctx, Call::AddArbitrator { admin, arbitrator });
            let remove = Call::RemoveArbitrator { admin, arbitrator };
            &&& registered(next).contains(arbitrator)
            &&& trace_of(next, ctx, remove) is Some
            &&& registered(outcome(next, ctx, remove)) == registered(store)
        }),
{
    reveal(ending);
    let list = registered(store);
    let next = outcome(store, ctx, Call::AddArbitrator { admin, arbitrator });
    lemma_arbitrators(store, ctx, Call::AddArbitrator { admin, arbitrator });
    lemma_push_contains(list, arbitrator, arbitrator);
    assert(trace_of(next, ctx, Call::RemoveArbitrator { admin, arbitrator }) is Some);
    lemma_arbitrators(next, ctx, Call::RemoveArbitrator { admin, arbitrator });
    lemma_without(list, arbitrator);
    assert(list.push(arbitrator).drop_last() =~= list);
}

} // verus!
