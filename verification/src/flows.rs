//! What moves when a call is made, and what is locked.
use crate::abort::Abort;
use crate::action::{ActionView, Event};
use crate::batch_create::{
    batch_create_escrow_rule, batch_funding, draft, lemma_draft_sizes, record_lists,
    record_recipients, touched,
};
use crate::batch_outcome::chunk_run;
use crate::batch_settle::{
    batch_settle_rule, chunk_end, chunk_start, settle_run, settled_so_far, unlock_all, Settlement,
};
use crate::claim::{cancelled, partially_claimed, refund_rule, released, settlement};
use crate::create::recording;
use crate::dispute::{award_committed, award_paid, award_rule, Award};
use crate::guard::searching;
use crate::history::{added, after, creates_one, ending, target, trace_of, Call};
use crate::milestone::milestone_claim_rule;
use crate::soundness::lemma_lookup;
use crate::store::{DataKey, PlaceView, StoreView};
use crate::tally::{lemma_listing, lemma_listing_init, listing, lists_totals};
use crate::types::{Address, BatchEscrowInputView, Context, EscrowView};
use vstd::prelude::*;

verus! {

/// How much of a token an action brings into the contract; negative where it pays out.
pub open spec fn inflow_of(action: ActionView, token: Address) -> int {
    match action {
        ActionView::PullFunds { token: t, amount, .. } => if t == token {
            amount as int
        } else {
            0
        },
        ActionView::PayOut { token: t, amount, .. } => if t == token {
            -(amount as int)
        } else {
            0
        },
        ActionView::Transfer { token: t, amount, .. } => if t == token {
            -(amount as int)
        } else {
            0
        },
        _ => 0,
    }
}

/// How much of a token a series of actions brings into the contract.
pub open spec fn inflow(trace: Seq<ActionView>, token: Address) -> int
    decreases trace.len(),
{
    if trace.len() == 0 {
        0
    } else {
        inflow(trace.drop_last(), token) + inflow_of(trace.last(), token)
    }
}

/// By how much an action raises the locked balance of a token.
pub open spec fn locking_of(action: ActionView, token: Address) -> int {
    match action {
        ActionView::IncreaseLocked { token: t, amount } => if t == token {
            amount as int
        } else {
            0
        },
        ActionView::DecreaseLocked { token: t, amount } => if t == token {
            -(amount as int)
        } else {
            0
        },
        _ => 0,
    }
}

/// By how much a series of actions raises the locked balance of a token.
pub open spec fn locking(trace: Seq<ActionView>, token: Address) -> int
    decreases trace.len(),
{
    if trace.len() == 0 {
        0
    } else {
        locking(trace.drop_last(), token) + locking_of(trace.last(), token)
    }
}

/// Flows add up action by action.
pub broadcast proof fn lemma_inflow_push(trace: Seq<ActionView>, action: ActionView, token: Address)
    ensures
        #[trigger] inflow(trace.push(action), token) == inflow(trace, token) + inflow_of(
            action,
            token,
        ),
{
    assert(trace.push(action).drop_last() =~= trace);
}

/// Changes to the locked balance add up action by action.
pub broadcast proof fn lemma_locking_push(
    trace: Seq<ActionView>,
    action: ActionView,
    token: Address,
)
    ensures
        #[trigger] locking(trace.push(action), token) == locking(trace, token) + locking_of(
            action,
            token,
        ),
{
    assert(trace.push(action).drop_last() =~= trace);
}

/// An authorisation and a search move nothing.
proof fn lemma_still(store: StoreView, id: u32, who: Address, token: Address)
    ensures
        inflow(seq![ActionView::RequireAuth(who)], token) == 0,
        locking(seq![ActionView::RequireAuth(who)], token) == 0,
        inflow(searching(store, id, Seq::empty()), token) == 0,
        locking(searching(store, id, Seq::empty()), token) == 0,
        inflow(searching(store, id, seq![ActionView::RequireAuth(who)]), token) == 0,
        locking(searching(store, id, seq![ActionView::RequireAuth(who)]), token) == 0,
{
    broadcast use lemma_inflow_push, lemma_locking_push;

    assert(seq![ActionView::RequireAuth(who)] =~= Seq::<ActionView>::empty().push(
        ActionView::RequireAuth(who),
    ));
}

/// Recording recipients moves nothing.
proof fn lemma_recipients_still(before: Seq<ActionView>, opened: Seq<EscrowView>, token: Address)
    ensures
        inflow(record_recipients(before, opened), token) == inflow(before, token),
        locking(record_recipients(before, opened), token) == locking(before, token),
    decreases opened.len(),
{
    broadcast use lemma_inflow_push, lemma_locking_push;

    if opened.len() > 0 {
        lemma_recipients_still(before, opened.drop_last(), token);
    }
}

/// Recording lists moves nothing.
proof fn lemma_lists_still(
    before: Seq<ActionView>,
    store: StoreView,
    opened: Seq<EscrowView>,
    recipients: Seq<Address>,
    token: Address,
)
    ensures
        inflow(record_lists(before, store, opened, recipients), token) == inflow(before, token),
        locking(record_lists(before, store, opened, recipients), token) == locking(before, token),
    decreases recipients.len(),
{
    broadcast use lemma_inflow_push, lemma_locking_push;

    if recipients.len() > 0 {
        lemma_lists_still(before, store, opened, recipients.drop_last(), token);
    }
}

/// What a chunk pays out of a token is what its totals say, and finitely many
/// tokens have totals.
proof fn lemma_run_flow(
    kind: Settlement,
    store: StoreView,
    ctx: Context,
    ids: Seq<u32>,
    start: int,
    n: nat,
    token: Address,
)
    ensures
        settle_run(kind, store, ctx, ids, start, n) matches Ok(run) ==> {
            &&& inflow(run.trace, token) == -settled_so_far(run.totals, token)
            &&& locking(run.trace, token) == 0
            &&& run.totals.dom().finite()
        },
    decreases n,
{
    broadcast use lemma_inflow_push, lemma_locking_push;

    if n > 0 {
        lemma_run_flow(kind, store, ctx, ids, start, (n - 1) as nat, token);
    }
}

/// The amount that a listing has for a token.
pub open spec fn listed_amount(entries: Seq<(Address, i128)>, token: Address) -> int
    decreases entries.len(),
{
    if entries.len() == 0 {
        0
    } else {
        listed_amount(entries.drop_last(), token) + if entries.last().0 == token {
            entries.last().1 as int
        } else {
            0
        }
    }
}

/// A listing has each token's total.
pub proof fn lemma_listed_amount(
    entries: Seq<(Address, i128)>,
    totals: Map<Address, i128>,
    token: Address,
)
    requires
        lists_totals(entries, totals),
    ensures
        listed_amount(entries, token) == settled_so_far(totals, token),
    decreases entries.len(),
{
    if entries.len() == 0 {
        if totals.contains_key(token) {
            let i = choose|i: int| 0 <= i < entries.len() && (#[trigger] entries[i]).0 == token;
            assert(false);
        }
    } else {
        lemma_listing_init(entries, totals);
        lemma_listed_amount(entries.drop_last(), totals.remove(entries.last().0), token);
        assert(entries.last() == entries[entries.len() - 1]);
        assert(totals.contains_key(entries[entries.len() - 1].0));
    }
}

/// Unlocking a listing lowers each locked balance by the listed amount.
pub proof fn lemma_unlock_flow(
    before: Seq<ActionView>,
    entries: Seq<(Address, i128)>,
    token: Address,
)
    ensures
        unlock_all(before, entries) matches Ok(unlocked) ==> {
            &&& inflow(unlocked.trace, token) == inflow(before, token)
            &&& locking(unlocked.trace, token) == locking(before, token) - listed_amount(
                entries,
                token,
            )
        },
    decreases entries.len(),
{
    broadcast use lemma_inflow_push, lemma_locking_push;

    if entries.len() > 0 {
        lemma_unlock_flow(before, entries.drop_last(), token);
    }
}

/// Whether a series of actions brings this much of a token into the contract and
/// raises its locked balance by as much.
pub open spec fn moves(trace: Seq<ActionView>, token: Address, amount: int) -> bool {
    &&& inflow(trace, token) == amount
    &&& locking(trace, token) == amount
}

/// What an amount of one token is in another.
pub open spec fn in_token(amount: int, of: Address, token: Address) -> int {
    if of == token {
        amount
    } else {
        0
    }
}

/// An authorisation moves nothing.
proof fn lemma_still_push(before: Seq<ActionView>, who: Address, token: Address)
    requires
        moves(before, token, 0),
    ensures
        moves(before.push(ActionView::RequireAuth(who)), token, 0),
{
    broadcast use lemma_inflow_push, lemma_locking_push;

}

/// A settlement pays out what it unlocks.
proof fn lemma_settlement_moves(
    store: StoreView,
    before: Seq<ActionView>,
    place: PlaceView,
    after: EscrowView,
    payee: Address,
    amount: i128,
    event: Event,
    token: Address,
)
    requires
        moves(before, token, 0),
    ensures
        moves(
            settlement(store, before, place, after, payee, amount, event),
            token,
            -in_token(amount as int, place.escrow.token, token),
        ),
{
    broadcast use lemma_inflow_push, lemma_locking_push;

}

/// A resolution pays out what it unlocks.
proof fn lemma_award_moves(
    store: StoreView,
    before: Seq<ActionView>,
    place: PlaceView,
    award: Award,
    event: Event,
    token: Address,
)
    requires
        moves(before, token, 0),
        award.to_amount >= 0,
        award.sender_amount >= 0,
        award.to_amount + award.sender_amount == award.transferred,
    ensures
        moves(
            award_paid(
                award_committed(store, before, place, award),
                place.escrow,
                award,
            ).push(ActionView::Publish(event)),
            token,
            -in_token(award.transferred as int, place.escrow.token, token),
        ),
{
    broadcast use lemma_inflow_push, lemma_locking_push;

}

/// A recorded escrow is funded with what is locked for it.
proof fn lemma_recording_moves(
    store: StoreView,
    before: Seq<ActionView>,
    e: EscrowView,
    event: Event,
    token: Address,
)
    requires
        moves(before, token, 0),
    ensures
        moves(
            recording(store, before, e).push(ActionView::Publish(event)),
            token,
            in_token(e.amount as int, e.token, token),
        ),
{
    broadcast use lemma_inflow_push, lemma_locking_push;

}

/// What a call on a single escrow pays out of it, if the call completes.
pub open spec fn paid(ctx: Context, call: Call, e: EscrowView) -> int {
    match call {
        Call::ClaimPartial { amount, .. } => amount as int,
        Call::Claim { .. } => e.amount as int,
        Call::Cancel { .. } => refund_rule(ctx, e)->Ok_0 as int,
        Call::ClaimMilestone { milestone, recipient, .. } => milestone_claim_rule(
            e,
            milestone,
            recipient,
        )->Ok_0.1 as int,
        Call::ResolveDispute { resolution, amount, .. } => award_rule(
            e.amount,
            resolution,
            amount,
        )->Ok_0.transferred as int,
        _ => 0,
    }
}

/// What a call on a single escrow moves: what it pays out of the escrow.
#[verifier::rlimit(60)]
#[verifier::spinoff_prover]
pub proof fn lemma_target_moves(store: StoreView, ctx: Context, call: Call, token: Address)
    requires
        store.sound(),
        target(call) is Some,
        trace_of(store, ctx, call) is Some,
    ensures
        store.lookup(target(call)->0) matches Some(e) && moves(
            trace_of(store, ctx, call)->0,
            token,
            -in_token(paid(ctx, call, e), e.token, token),
        ),
{
    reveal(ending);
    let id = target(call)->0;
    lemma_lookup(store, id);
    let place = store.locate(id, Abort::RecipientNotFound)->Ok_0;
    assert(store.locate(id, Abort::RecipientNotFound) is Ok);
    let e = place.escrow;
    lemma_still(store, id, e.to, token);
    let found = searching(store, id, Seq::empty());
    match call {
        Call::ClaimPartial { amount, .. } => {
            let after = partially_claimed(e, amount);
            lemma_still_push(found, e.to, token);
            lemma_settlement_moves(
                store,
                found.push(ActionView::RequireAuth(e.to)),
                place,
                after,
                e.to,
                amount,
                Event::EscrowPartiallyClaimed {
                    id,
                    to: e.to,
                    claimed: amount,
                    remaining: after.amount,
                },
                token,
            );
        },
        Call::Claim { .. } => {
            lemma_still_push(found, e.to, token);
            lemma_settlement_moves(
                store,
                found.push(ActionView::RequireAuth(e.to)),
                place,
                released(e),
                e.to,
                e.amount,
                Event::EscrowClaimed { id, to: e.to, amount: e.amount },
                token,
            );
        },
        Call::Cancel { .. } => {
            let refund = refund_rule(ctx, e)->Ok_0;
            lemma_still_push(found, e.from, token);
            lemma_settlement_moves(
                store,
                found.push(ActionView::RequireAuth(e.from)),
                place,
                cancelled(e),
                e.from,
                refund,
                Event::EscrowCancelled { id, from: e.from, refund },
                token,
            );
        },
        Call::ApproveMilestone { approver, .. } => {
            lemma_still(store, id, approver, token);
            assert(moves(trace_of(store, ctx, call)->0, token, 0)) by {
                broadcast use lemma_inflow_push, lemma_locking_push;

            }
        },
        Call::ClaimMilestone { milestone, recipient, .. } => {
            lemma_still(store, id, recipient, token);
            let (after, amount) = milestone_claim_rule(e, milestone, recipient)->Ok_0;
            lemma_settlement_moves(
                store,
                searching(store, id, seq![ActionView::RequireAuth(recipient)]),
                place,
                after,
                recipient,
                amount,
                Event::MilestoneClaimed { escrow: id, milestone, amount },
                token,
            );
        },
        Call::RaiseDispute { by, .. } => {
            lemma_still(store, id, by, token);
            assert(moves(trace_of(store, ctx, call)->0, token, 0)) by {
                broadcast use lemma_inflow_push, lemma_locking_push;

            }
        },
        Call::ResolveDispute { arbitrator, resolution, to, amount, .. } => {
            lemma_still(store, id, arbitrator, token);
            let award = award_rule(e.amount, resolution, amount)->Ok_0;
            lemma_award_moves(
                store,
                searching(store, id, seq![ActionView::RequireAuth(arbitrator)]),
                place,
                award,
                Event::DisputeResolved { id, resolution: award.resolution, to, amount },
                token,
            );
        },
        _ => {},
    }
}

/// What a creating call moves: what the new escrow holds.
#[verifier::rlimit(60)]
#[verifier::spinoff_prover]
pub proof fn lemma_create_moves(store: StoreView, ctx: Context, call: Call, token: Address)
    requires
        creates_one(call),
        trace_of(store, ctx, call) is Some,
    ensures
        moves(
            trace_of(store, ctx, call)->0,
            token,
            match added(store, ctx, call) {
                Some(e) => in_token(e.amount as int, e.token, token),
                None => 0,
            },
        ),
{
    reveal(ending);
    let id = store.next_id();
    match call {
        Call::CreateEscrow { from, to, amount, release_ledger, .. } => {
            let authorised = seq![ActionView::RequireAuth(from)];
            lemma_still(store, 0, from, token);
            if let Some(e) = added(store, ctx, call) {
                lemma_recording_moves(
                    store,
                    authorised,
                    e,
                    Event::EscrowCreated { id, from, to, amount, release_ledger },
                    token,
                );
            }
        },
        Call::CreateDisputableEscrow { from, arbitrator, .. } => {
            let authorised = seq![ActionView::RequireAuth(from)];
            let looked_up = authorised.push(ActionView::Bump(DataKey::Arbitrators));
            lemma_still(store, 0, from, token);
            assert(moves(looked_up, token, 0)) by {
                broadcast use lemma_inflow_push, lemma_locking_push;

            }
            if let Some(e) = added(store, ctx, call) {
                lemma_recording_moves(
                    store,
                    looked_up,
                    e,
                    Event::DisputableEscrowCreated { id, arbitrator },
                    token,
                );
            }
        },
        Call::CreateMilestoneEscrow { from, milestones, .. } => {
            let authorised = seq![ActionView::RequireAuth(from)];
            lemma_still(store, 0, from, token);
            if let Some(e) = added(store, ctx, call) {
                lemma_recording_moves(
                    store,
                    authorised,
                    e,
                    Event::MilestoneEscrowCreated { id, milestones: milestones.len() as u32 },
                    token,
                );
            }
        },
        _ => {},
    }
}

/// What a batch creation moves: its total.
pub proof fn lemma_batch_create_moves(
    store: StoreView,
    ctx: Context,
    t: Address,
    from: Address,
    items: Seq<BatchEscrowInputView>,
    token: Address,
)
    requires
        batch_create_escrow_rule(store, ctx, t, from, items) is Ok,
    ensures
        moves(
            batch_create_escrow_rule(store, ctx, t, from, items)->Ok_0.trace,
            token,
            in_token(draft(store, ctx, t, from, items)->Ok_0.total, t, token),
        ),
{
    broadcast use lemma_inflow_push, lemma_locking_push;

    lemma_still(store, 0, from, token);
    lemma_draft_sizes(store, ctx, t, from, items);
    let plan = draft(store, ctx, t, from, items)->Ok_0;
    let funded = batch_funding(t, from, plan.total);
    lemma_recipients_still(funded, plan.opened, token);
    lemma_lists_still(
        record_recipients(funded, plan.opened),
        store,
        plan.opened,
        touched(plan.opened),
        token,
    );
}

/// What a batch claim or cancellation moves: what its chunk pays out.
pub proof fn lemma_batch_settle_moves(
    kind: Settlement,
    store: StoreView,
    ctx: Context,
    ids: Seq<u32>,
    start_index: u32,
    max_items: u32,
    token: Address,
)
    requires
        batch_settle_rule(kind, store, ctx, ids, start_index, max_items) is Ok,
    ensures
        moves(
            batch_settle_rule(kind, store, ctx, ids, start_index, max_items)->Ok_0.trace,
            token,
            inflow(
                chunk_run(kind, store, ctx, ids, start_index, max_items)->Ok_0.trace,
                token,
            ),
        ),
{
    broadcast use lemma_inflow_push, lemma_locking_push;

    let start = chunk_start(ids.len(), start_index);
    let n = (chunk_end(ctx, ids.len(), start_index, max_items) - start) as nat;
    lemma_run_flow(kind, store, ctx, ids, start, n, token);
    let run = settle_run(kind, store, ctx, ids, start, n)->Ok_0;
    lemma_listing(run.totals);
    lemma_unlock_flow(run.trace, listing(run.totals), token);
    lemma_listed_amount(listing(run.totals), run.totals, token);
}

/// Changing the arbitrators moves nothing.
pub proof fn lemma_arbitrators_still(store: StoreView, ctx: Context, call: Call, token: Address)
    requires
        call is AddArbitrator || call is RemoveArbitrator,
        trace_of(store, ctx, call) is Some,
    ensures
        moves(trace_of(store, ctx, call)->0, token, 0),
{
    reveal(ending);
    broadcast use lemma_inflow_push, lemma_locking_push;

    match call {
        Call::AddArbitrator { admin, .. } => {
            lemma_still(store, 0, admin, token);
        },
        Call::RemoveArbitrator { admin, .. } => {
            lemma_still(store, 0, admin, token);
        },
        _ => {},
    }
}

/// The locked balance of every token changes by exactly what moves: what a call
/// takes in is locked, and what it pays out is unlocked.
#[verifier::rlimit(40)]
pub proof fn law_locked_matches_flow(store: StoreView, ctx: Context, call: Call, token: Address)
    requires
        store.sound(),
        trace_of(store, ctx, call) is Some,
    ensures
        inflow(trace_of(store, ctx, call)->0, token) == locking(
            trace_of(store, ctx, call)->0,
            token,
        ),
{
    reveal(ending);
    if target(call) is Some {
        lemma_target_moves(store, ctx, call, token);
    } else if creates_one(call) {
        lemma_create_moves(store, ctx, call, token);
    } else {
        match call {
            Call::BatchCreate { token: t, from, items } => {
                lemma_batch_create_moves(store, ctx, t, from, items, token);
            },
            Call::BatchSettle { kind, ids, start_index, max_items } => {
                lemma_batch_settle_moves(kind, store, ctx, ids, start_index, max_items, token);
            },
            _ => {
                lemma_arbitrators_still(store, ctx, call, token);
            },
        }
    }
}

/// Raising a dispute and approving a milestone move no funds.
pub proof fn law_flags_move_nothing(store: StoreView, ctx: Context, call: Call, token: Address)
    requires
        store.sound(),
        call is RaiseDispute || call is ApproveMilestone,
        trace_of(store, ctx, call) is Some,
    ensures
        inflow(trace_of(store, ctx, call)->0, token) == 0,
{
    lemma_target_moves(store, ctx, call, token);
}

} // verus!
