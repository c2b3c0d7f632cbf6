//! What the escrows hold.
use crate::abort::Abort;
use crate::batch_create::draft;
use crate::batch_outcome::{
    lemma_batch_create, lemma_batch_settle, lemma_draft_sound, lemma_settle_one, lemma_settle_run,
};
use crate::batch_settle::{chunk_end, chunk_start, settle_one, settle_run, RunView, Settlement};
use crate::claim::{cancelled, refund_rule, released, unclaimed};
use crate::create::{index_full, numbered};
use crate::dispute::award_rule;
use crate::flows::{
    inflow, law_locked_matches_flow, lemma_arbitrators_still, lemma_batch_create_moves,
    lemma_batch_settle_moves, lemma_create_moves, lemma_inflow_push, lemma_target_moves, locking,
    moves, paid,
};
use crate::history::{
    added, after, creates_one, ending, lemma_added, lemma_next_state, lemma_target, next_state,
    outcome, target, trace_of, Call,
};
use crate::laws::{law_reachable_sound, lemma_arbitrators, lemma_chunk};
use crate::milestone::{lemma_milestone_position, milestone_position};
use crate::query::{approved_count, claimed_amount, claimed_count, remaining_amount, summary_rule};
use crate::soundness::{
    escrow_sound, lemma_append, lemma_append_all, lemma_lookup, lemma_replace, schedule_sound,
    scheduled,
};
use crate::store::StoreView;
use crate::types::{
    Address, BatchEscrowInputView, Context, EscrowStatus, EscrowView, Milestone, Resolution,
};
use vstd::prelude::*;

verus! {

/// What an escrow holds of a token.
pub open spec fn holding(e: Option<EscrowView>, token: Address) -> int {
    match e {
        Some(e) => if e.token == token {
            remaining_amount(e)
        } else {
            0
        },
        None => 0,
    }
}

/// What the first `n` escrows hold of a token.
pub open spec fn held(store: StoreView, token: Address, n: nat) -> int
    decreases n,
{
    if n == 0 {
        0
    } else {
        held(store, token, (n - 1) as nat) + holding(store.lookup((n - 1) as u32), token)
    }
}

/// What all escrows together hold of a token.
pub open spec fn total_held(store: StoreView, token: Address) -> int {
    held(store, token, store.next_id() as nat)
}

/// Holdings change where escrows do.
proof fn lemma_held_change(a: StoreView, b: StoreView, token: Address, n: nat, id: u32)
    requires
        n <= u32::MAX + 1,
        forall|other: u32|
            other < n && other != id ==> #[trigger] b.lookup(other) == a.lookup(other),
    ensures
        held(b, token, n) == held(a, token, n) + if id < n {
            holding(b.lookup(id), token) - holding(a.lookup(id), token)
        } else {
            0
        },
    decreases n,
{
    if n > 0 {
        lemma_held_change(a, b, token, (n - 1) as nat, id);
        let last = (n - 1) as u32;
        if last != id {
            assert(b.lookup(last) == a.lookup(last));
        }
    }
}

/// Every milestone is either claimed or not.
proof fn lemma_claimed_or_not(milestones: Seq<Milestone>)
    ensures
        claimed_amount(milestones) + unclaimed(milestones) == scheduled(milestones),
    decreases milestones.len(),
{
    if milestones.len() > 0 {
        lemma_claimed_or_not(milestones.drop_last());
    }
}

/// Where nothing is claimed, the claimed amount is 0.
proof fn lemma_none_claimed(milestones: Seq<Milestone>)
    requires
        forall|i: int| 0 <= i < milestones.len() ==> !(#[trigger] milestones[i]).claimed,
    ensures
        claimed_amount(milestones) == 0,
    decreases milestones.len(),
{
    if milestones.len() > 0 {
        lemma_none_claimed(milestones.drop_last());
        assert(!milestones[milestones.len() - 1].claimed);
    }
}

/// Sound milestones have no negative amounts to claim.
proof fn lemma_claimed_not_negative(milestones: Seq<Milestone>)
    requires
        schedule_sound(milestones),
    ensures
        claimed_amount(milestones) >= 0,
    decreases milestones.len(),
{
    if milestones.len() > 0 {
        let init = milestones.drop_last();
        assert forall|i: int| 0 <= i < init.len() implies (#[trigger] init[i]).id == i
            && init[i].amount > 0 by {
            assert(init[i] == milestones[i]);
        }
        lemma_claimed_not_negative(init);
        assert(milestones[milestones.len() - 1].amount > 0);
    }
}

/// The claimed amount depends only on amounts and claims.
proof fn lemma_claimed_same(a: Seq<Milestone>, b: Seq<Milestone>)
    requires
        a.len() == b.len(),
        forall|i: int|
            0 <= i < a.len() ==> (#[trigger] a[i]).amount == b[i].amount && a[i].claimed
                == b[i].claimed,
    ensures
        claimed_amount(a) == claimed_amount(b),
    decreases a.len(),
{
    if a.len() > 0 {
        assert(a[a.len() - 1].amount == b[b.len() - 1].amount);
        lemma_claimed_same(a.drop_last(), b.drop_last());
    }
}

/// Claiming a milestone raises the claimed amount by its own.
proof fn lemma_claimed_update(milestones: Seq<Milestone>, i: int, m: Milestone)
    requires
        0 <= i < milestones.len(),
        !milestones[i].claimed,
        m.claimed,
        m.amount == milestones[i].amount,
    ensures
        claimed_amount(milestones.update(i, m)) == claimed_amount(milestones) + m.amount,
    decreases milestones.len(),
{
    let init = milestones.drop_last();
    if i == milestones.len() - 1 {
        assert(milestones.update(i, m).drop_last() =~= init);
    } else {
        lemma_claimed_update(init, i, m);
        assert(milestones.update(i, m).drop_last() =~= init.update(i, m));
    }
}

/// What a number of escrows hold of a token.
pub open spec fn sum_holdings(escrows: Seq<EscrowView>, token: Address) -> int
    decreases escrows.len(),
{
    if escrows.len() == 0 {
        0
    } else {
        sum_holdings(escrows.drop_last(), token) + holding(Some(escrows.last()), token)
    }
}

/// Escrows that are recorded one after the other add what they hold.
proof fn lemma_held_append_all(store: StoreView, escrows: Seq<EscrowView>, token: Address)
    requires
        store.sound(),
        store.next_id() + escrows.len() <= u32::MAX,
        forall|i: int|
            0 <= i < escrows.len() ==> (#[trigger] escrows[i]).id == store.next_id() + i
                && escrow_sound(escrows[i]),
    ensures
        total_held(store.append_all(escrows), token) == total_held(store, token) + sum_holdings(
            escrows,
            token,
        ),
    decreases escrows.len(),
{
    if escrows.len() > 0 {
        let init = escrows.drop_last();
        let last = escrows.last();
        assert forall|i: int| 0 <= i < init.len() implies (#[trigger] init[i]).id
            == store.next_id() + i && escrow_sound(init[i]) by {
            assert(init[i] == escrows[i]);
        }
        assert(last == escrows[escrows.len() - 1]);
        lemma_held_append_all(store, init, token);
        lemma_append_all(store, init);
        let before = store.append_all(init);
        lemma_append(before, last);
        lemma_held_change(before, before.append(last), token, before.next_id() as nat, last.id);
    }
}

/// What a batch opens holds its total, in its token.
proof fn lemma_draft_holdings(
    store: StoreView,
    ctx: Context,
    t: Address,
    from: Address,
    items: Seq<BatchEscrowInputView>,
    token: Address,
)
    ensures
        draft(store, ctx, t, from, items) matches Ok(plan) ==> sum_holdings(plan.opened, token)
            == if t == token {
            plan.total
        } else {
            0
        },
    decreases items.len(),
{
    if items.len() > 0 {
        lemma_draft_holdings(store, ctx, t, from, items.drop_last(), token);
        if draft(store, ctx, t, from, items) is Ok {
            let before = draft(store, ctx, t, from, items.drop_last())->Ok_0;
            let plan = draft(store, ctx, t, from, items)->Ok_0;
            if plan.opened != before.opened {
                assert(plan.opened.drop_last() =~= before.opened);
            }
        }
    }
}

/// Whether a call leaves nothing locked that no escrow's record shows. Two calls
/// do: creating a milestone escrow with milestones that are marked as claimed
/// from the start, and releasing less than a disputed escrow holds.
pub open spec fn strands_nothing(store: StoreView, ctx: Context, call: Call) -> bool {
    match call {
        Call::CreateMilestoneEscrow { to, milestones, .. } => index_full(store, ctx, to)
            || forall|i: int|
            0 <= i < milestones.len() ==> !(#[trigger] milestones[i]).claimed,
        Call::ResolveDispute { id, resolution, amount, .. } => {
            (store.lookup(id) is Some && Resolution::named(resolution) == Some(
                Resolution::Release,
            )) ==> amount == store.lookup(id)->0.amount
        },
        _ => true,
    }
}

/// One step of a chunk pays out what its escrow held.
#[verifier::rlimit(40)]
#[verifier::spinoff_prover]
proof fn lemma_step_held(
    kind: Settlement,
    ctx: Context,
    run: RunView,
    id: u32,
    index: u32,
    token: Address,
)
    requires
        run.store.sound(),
        settle_one(kind, ctx, run, id, index) is Ok,
    ensures
        ({
            let next = settle_one(kind, ctx, run, id, index)->Ok_0;
            inflow(next.trace, token) - inflow(run.trace, token) == holding(
                next.store.lookup(id),
                token,
            ) - holding(run.store.lookup(id), token)
        }),
{
    lemma_settle_one(kind, ctx, run, id, index);
    lemma_lookup(run.store, id);
    broadcast use lemma_inflow_push;

}

/// What a chunk pays out is what its escrows held.
proof fn lemma_run_held(
    kind: Settlement,
    store: StoreView,
    ctx: Context,
    ids: Seq<u32>,
    start: int,
    n: nat,
    token: Address,
)
    requires
        store.sound(),
        0 <= start,
        start + n <= ids.len(),
        settle_run(kind, store, ctx, ids, start, n) is Ok,
    ensures
        ({
            let run = settle_run(kind, store, ctx, ids, start, n)->Ok_0;
            total_held(run.store, token) == total_held(store, token) + inflow(run.trace, token)
        }),
    decreases n,
{
    if n > 0 {
        let m = (n - 1) as nat;
        lemma_run_held(kind, store, ctx, ids, start, m, token);
        lemma_settle_run(kind, store, ctx, ids, start, m);
        let before = settle_run(kind, store, ctx, ids, start, m)->Ok_0;
        let id = ids[start + n - 1];
        let index = (start + n - 1) as u32;
        lemma_step_held(kind, ctx, before, id, index, token);
        lemma_settle_one(kind, ctx, before, id, index);
        let run = settle_one(kind, ctx, before, id, index)->Ok_0;
        lemma_held_change(before.store, run.store, token, before.store.next_id() as nat, id);
        lemma_lookup(before.store, id);
        lemma_lookup(run.store, id);
    }
}

/// A call on a single escrow pays out no more than the escrow holds less
/// afterwards.
#[verifier::rlimit(60)]
#[verifier::spinoff_prover]
proof fn lemma_target_held(store: StoreView, ctx: Context, call: Call)
    requires
        store.sound(),
        target(call) is Some,
        trace_of(store, ctx, call) is Some,
    ensures
        store.lookup(target(call)->0) matches Some(e) && {
            let rest = remaining_amount(e) - paid(ctx, call, e);
            &&& remaining_amount(next_state(ctx, call, e)) <= rest
            &&& strands_nothing(store, ctx, call) ==> remaining_amount(next_state(ctx, call, e))
                == rest
        },
{
    reveal(ending);
    let id = target(call)->0;
    lemma_target(store, ctx, call);
    lemma_lookup(store, id);
    let e = store.lookup(id)->0;
    let next = next_state(ctx, call, e);
    match call {
        Call::ApproveMilestone { milestone, .. } => {
            lemma_milestone_position(e.milestones, milestone);
            lemma_claimed_same(e.milestones, next.milestones);
        },
        Call::ClaimMilestone { milestone, .. } => {
            lemma_milestone_position(e.milestones, milestone);
            let i = milestone_position(e.milestones, milestone)->0;
            lemma_claimed_update(e.milestones, i, next.milestones[i]);
        },
        Call::Cancel { .. } => {
            law_refund_is_remaining(ctx, e);
        },
        _ => {},
    }
}

/// What all escrows together hold of a token, by their own records, goes up by no
/// more than a call brings in, and down by no less than it pays out. Where the
/// call strands nothing, it changes by exactly what moves.
#[verifier::rlimit(40)]
pub proof fn law_holdings_match_flow(store: StoreView, ctx: Context, call: Call, token: Address)
    requires
        store.sound(),
        trace_of(store, ctx, call) is Some,
    ensures
        ({
            let moved = inflow(trace_of(store, ctx, call)->0, token);
            &&& total_held(outcome(store, ctx, call), token) <= total_held(store, token) + moved
            &&& strands_nothing(store, ctx, call) ==> total_held(outcome(store, ctx, call), token)
                == total_held(store, token) + moved
        }),
{
    reveal(ending);
    let next = outcome(store, ctx, call);
    let n = store.next_id() as nat;
    if target(call) is Some {
        let id = target(call)->0;
        lemma_target_moves(store, ctx, call, token);
        lemma_target_held(store, ctx, call);
        lemma_target(store, ctx, call);
        lemma_next_state(store, ctx, call);
        lemma_lookup(store, id);
        let place = store.locate(id, Abort::RecipientNotFound)->Ok_0;
        lemma_replace(store, place, next_state(ctx, call, place.escrow));
        lemma_held_change(store, next, token, n, id);
    } else if creates_one(call) {
        lemma_create_moves(store, ctx, call, token);
        lemma_added(store, ctx, call);
        if let Some(e) = added(store, ctx, call) {
            lemma_append(store, e);
            lemma_held_change(store, next, token, n, e.id);
            lemma_claimed_not_negative(e.milestones);
            if let Call::CreateMilestoneEscrow { milestones, .. } = call {
                if strands_nothing(store, ctx, call) {
                    assert forall|i: int| 0 <= i < numbered(milestones).len() implies !(
                    #[trigger] numbered(milestones)[i]).claimed by {
                        assert(!milestones[i].claimed);
                    }
                    lemma_none_claimed(numbered(milestones));
                }
            }
            assert(remaining_amount(e) <= e.amount);
        }
    } else {
        match call {
            Call::BatchCreate { token: t, from, items } => {
                lemma_batch_create_moves(store, ctx, t, from, items, token);
                lemma_batch_create(store, ctx, t, from, items);
                lemma_draft_sound(store, ctx, t, from, items);
                let plan = draft(store, ctx, t, from, items)->Ok_0;
                lemma_held_append_all(store, plan.opened, token);
                lemma_draft_holdings(store, ctx, t, from, items, token);
            },
            Call::BatchSettle { kind, ids, start_index, max_items } => {
                lemma_batch_settle_moves(kind, store, ctx, ids, start_index, max_items, token);
                lemma_batch_settle(kind, store, ctx, ids, start_index, max_items);
                lemma_chunk(ctx, ids.len(), start_index, max_items);
                let start = chunk_start(ids.len(), start_index);
                let m = (chunk_end(ctx, ids.len(), start_index, max_items) - start) as nat;
                lemma_run_held(kind, store, ctx, ids, start, m, token);
            },
            _ => {
                lemma_arbitrators_still(store, ctx, call, token);
                lemma_arbitrators(store, ctx, call);
                lemma_same_held(store, next, token, n);
            },
        }
    }
}

/// Entries with the same escrows hold the same.
proof fn lemma_same_held(a: StoreView, b: StoreView, token: Address, n: nat)
    requires
        a.recipients == b.recipients,
        a.lists == b.lists,
    ensures
        held(a, token, n) == held(b, token, n),
    decreases n,
{
    if n > 0 {
        lemma_same_held(a, b, token, (n - 1) as nat);
        assert(a.lookup((n - 1) as u32) == b.lookup((n - 1) as u32));
    }
}

/// What a series of calls locks of a token, on balance.
pub open spec fn locked_by(store: StoreView, calls: Seq<(Context, Call)>, token: Address) -> int
    decreases calls.len(),
{
    if calls.len() == 0 {
        0
    } else {
        let before = after(store, calls.drop_last());
        locked_by(store, calls.drop_last(), token) + match trace_of(
            before,
            calls.last().0,
            calls.last().1,
        ) {
            Some(trace) => locking(trace, token),
            None => 0,
        }
    }
}

/// Whether no call of a series strands anything.
pub open spec fn all_strand_nothing(store: StoreView, calls: Seq<(Context, Call)>) -> bool
    decreases calls.len(),
{
    calls.len() > 0 ==> all_strand_nothing(store, calls.drop_last()) && strands_nothing(
        after(store, calls.drop_last()),
        calls.last().0,
        calls.last().1,
    )
}

/// Whatever calls are made from the start, the locked balance of every token
/// covers what the escrows hold of it, and is exactly that where nothing was
/// stranded.
pub proof fn law_locked_covers_holdings(calls: Seq<(Context, Call)>, token: Address)
    ensures
        total_held(after(StoreView::empty(), calls), token) <= locked_by(
            StoreView::empty(),
            calls,
            token,
        ),
        all_strand_nothing(StoreView::empty(), calls) ==> total_held(
            after(StoreView::empty(), calls),
            token,
        ) == locked_by(StoreView::empty(), calls, token),
    decreases calls.len(),
{
    if calls.len() > 0 {
        law_locked_covers_holdings(calls.drop_last(), token);
        law_reachable_sound(calls.drop_last());
        let before = after(StoreView::empty(), calls.drop_last());
        let (ctx, call) = calls.last();
        if trace_of(before, ctx, call) is Some {
            law_locked_matches_flow(before, ctx, call, token);
            law_holdings_match_flow(before, ctx, call, token);
        }
    }
}

/// A cancellation gives back exactly what the escrow's summary shows as remaining.
pub proof fn law_refund_is_remaining(ctx: Context, e: EscrowView)
    requires
        escrow_sound(e),
        e.status == EscrowStatus::Pending,
        refund_rule(ctx, e) is Ok,
    ensures
        refund_rule(ctx, e)->Ok_0 == remaining_amount(e),
{
    lemma_claimed_or_not(e.milestones);
    if e.is_milestone_based {
        assert(e.milestones.take(e.milestones.len() as int) =~= e.milestones);
        assert(i128::MIN <= unclaimed(e.milestones.take(e.milestones.len() as int)) <= i128::MAX);
    }
}

/// What is claimed of sound milestones is no more than they add up to.
proof fn lemma_claimed_covered(milestones: Seq<Milestone>, n: int)
    requires
        schedule_sound(milestones),
        0 <= n <= milestones.len(),
    ensures
        0 <= claimed_amount(milestones.take(n)) <= scheduled(milestones),
    decreases milestones.len(),
{
    let part = milestones.take(n);
    assert forall|i: int| 0 <= i < part.len() implies (#[trigger] part[i]).id == i
        && part[i].amount > 0 by {
        assert(part[i] == milestones[i]);
    }
    lemma_claimed_not_negative(part);
    if n == milestones.len() {
        assert(part =~= milestones);
        lemma_claimed_or_not(milestones);
        lemma_unclaimed_not_negative(milestones);
    } else {
        let init = milestones.drop_last();
        assert forall|i: int| 0 <= i < init.len() implies (#[trigger] init[i]).id == i
            && init[i].amount > 0 by {
            assert(init[i] == milestones[i]);
        }
        assert(init.take(n) =~= part);
        lemma_claimed_covered(init, n);
        assert(milestones[milestones.len() - 1].amount > 0);
    }
}

/// Sound milestones have no negative amounts left.
proof fn lemma_unclaimed_not_negative(milestones: Seq<Milestone>)
    requires
        schedule_sound(milestones),
    ensures
        unclaimed(milestones) >= 0,
    decreases milestones.len(),
{
    if milestones.len() > 0 {
        let init = milestones.drop_last();
        assert forall|i: int| 0 <= i < init.len() implies (#[trigger] init[i]).id == i
            && init[i].amount > 0 by {
            assert(init[i] == milestones[i]);
        }
        lemma_unclaimed_not_negative(init);
        assert(milestones[milestones.len() - 1].amount > 0);
    }
}

/// No more milestones are approved or claimed than there are.
pub proof fn lemma_counts_covered(milestones: Seq<Milestone>)
    ensures
        approved_count(milestones) <= milestones.len(),
        claimed_count(milestones) <= milestones.len(),
    decreases milestones.len(),
{
    if milestones.len() > 0 {
        lemma_counts_covered(milestones.drop_last());
    }
}

/// Every sound escrow has a summary. What it shows as released and as remaining
/// adds up to the total, but for a cancelled escrow, where nothing remains.
pub proof fn law_summary_adds_up(e: EscrowView)
    requires
        escrow_sound(e),
    ensures
        summary_rule(e) matches Ok(summary) && {
            &&& summary.total_amount == e.amount
            &&& 0 <= summary.released_amount <= summary.total_amount
            &&& 0 <= summary.remaining_amount <= summary.total_amount
            &&& e.status != EscrowStatus::Cancelled ==> summary.released_amount
                + summary.remaining_amount == summary.total_amount
            &&& e.status == EscrowStatus::Cancelled ==> summary.remaining_amount == 0
            &&& summary.approved_milestones <= summary.milestone_count
            &&& summary.claimed_milestones <= summary.milestone_count
        },
{
    if e.is_milestone_based {
        assert forall|n: int| 0 <= n <= e.milestones.len() implies i128::MIN
            <= #[trigger] claimed_amount(e.milestones.take(n)) <= i128::MAX by {
            lemma_claimed_covered(e.milestones, n);
        }
        lemma_claimed_covered(e.milestones, e.milestones.len() as int);
        assert(e.milestones.take(e.milestones.len() as int) =~= e.milestones);
        lemma_counts_covered(e.milestones);
    }
}

/// An award divides what it takes out of the escrow between the two sides, and
/// takes no more than the escrow holds. A refund and a split take everything.
pub proof fn law_award_divides(held: i128, resolution: Seq<char>, amount: i128)
    requires
        held >= 0,
    ensures
        award_rule(held, resolution, amount) matches Ok(award) ==> {
            &&& award.to_amount >= 0
            &&& award.sender_amount >= 0
            &&& award.to_amount + award.sender_amount == award.transferred
            &&& award.transferred <= held
            &&& award.resolution != Resolution::Release ==> award.transferred == held
        },
{
}

} // verus!
