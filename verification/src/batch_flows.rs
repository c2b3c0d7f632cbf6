//! How batches move funds: as seldom as possible.
use crate::action::ActionView;
use crate::batch_create::{
    batch_create_escrow_rule, batch_funding, draft, lemma_draft_sizes, record_lists,
    record_recipients, touched,
};
use crate::batch_settle::{
    batch_settle_rule, chunk_end, chunk_start, settle_run, unlock_all, Settlement,
};
use crate::store::StoreView;
use crate::tally::{lemma_listing, listing};
use crate::types::{Address, BatchEscrowInputView, Context, EscrowView};
use vstd::prelude::*;

verus! {

/// Whether an action only writes an entry or prolongs the life of one.
pub open spec fn only_writes(action: ActionView) -> bool {
    action is Write || action is BumpToFloor
}

/// Recording recipients comes after everything before, and only writes.
proof fn lemma_recipients_only_write(before: Seq<ActionView>, opened: Seq<EscrowView>)
    ensures
        ({
            let all = record_recipients(before, opened);
            &&& before.len() <= all.len()
            &&& forall|i: int| 0 <= i < before.len() ==> #[trigger] all[i] == before[i]
            &&& forall|i: int| before.len() <= i < all.len() ==> only_writes(#[trigger] all[i])
        }),
    decreases opened.len(),
{
    if opened.len() > 0 {
        lemma_recipients_only_write(before, opened.drop_last());
    }
}

/// Recording lists comes after everything before, and only writes.
proof fn lemma_lists_only_write(
    before: Seq<ActionView>,
    store: StoreView,
    opened: Seq<EscrowView>,
    recipients: Seq<Address>,
)
    ensures
        ({
            let all = record_lists(before, store, opened, recipients);
            &&& before.len() <= all.len()
            &&& forall|i: int| 0 <= i < before.len() ==> #[trigger] all[i] == before[i]
            &&& forall|i: int| before.len() <= i < all.len() ==> only_writes(#[trigger] all[i])
        }),
    decreases recipients.len(),
{
    if recipients.len() > 0 {
        lemma_lists_only_write(before, store, opened, recipients.drop_last());
    }
}

/// A batch creation takes the total of its escrows in a single transfer, right
/// after the authorisation and before anything is recorded, and locks it in a
/// single step after everything is recorded. Where nothing is created, nothing
/// moves.
pub proof fn law_batch_is_funded_once(
    store: StoreView,
    ctx: Context,
    token: Address,
    from: Address,
    items: Seq<BatchEscrowInputView>,
)
    requires
        batch_create_escrow_rule(store, ctx, token, from, items) is Ok,
    ensures
        ({
            let total = draft(store, ctx, token, from, items)->Ok_0.total as i128;
            let trace = batch_create_escrow_rule(store, ctx, token, from, items)->Ok_0.trace;
            &&& trace[0] == ActionView::RequireAuth(from)
            &&& forall|i: int|
                0 <= i < trace.len() ==> (#[trigger] trace[i] is PullFunds <==> total > 0 && i
                    == 1)
            &&& total > 0 ==> trace[1] == (ActionView::PullFunds { token, from, amount: total })
            &&& forall|i: int|
                0 <= i < trace.len() ==> (#[trigger] trace[i] is IncreaseLocked <==> total > 0
                    && i == trace.len() - 2)
            &&& total > 0 ==> trace[trace.len() - 2] == (ActionView::IncreaseLocked {
                token,
                amount: total,
            })
            &&& forall|i: int|
                0 <= i < trace.len() ==> !(#[trigger] trace[i] is PayOut || trace[i] is Transfer
                    || trace[i] is DecreaseLocked)
        }),
{
    let plan = draft(store, ctx, token, from, items)->Ok_0;
    let funded = batch_funding(token, from, plan.total);
    lemma_recipients_only_write(funded, plan.opened);
    let recorded = record_recipients(funded, plan.opened);
    lemma_lists_only_write(recorded, store, plan.opened, touched(plan.opened));
    lemma_draft_sizes(store, ctx, token, from, items);
    let listed = record_lists(recorded, store, plan.opened, touched(plan.opened));
    assert forall|i: int| 0 <= i < funded.len() implies #[trigger] listed[i] == funded[i] by {
        assert(recorded[i] == funded[i]);
    }
    assert forall|i: int| funded.len() <= i < listed.len() implies only_writes(
        #[trigger] listed[i],
    ) by {
        if i < recorded.len() {
            assert(only_writes(recorded[i]));
        }
    }
}

/// Unlocking appends one step for each entry of a listing.
proof fn lemma_unlock_steps(before: Seq<ActionView>, entries: Seq<(Address, i128)>)
    ensures
        unlock_all(before, entries) matches Ok(unlocked) ==> {
            &&& unlocked.trace.len() == before.len() + entries.len()
            &&& forall|i: int|
                0 <= i < before.len() ==> #[trigger] unlocked.trace[i] == before[i]
            &&& forall|i: int|
                before.len() <= i < unlocked.trace.len() ==> #[trigger] unlocked.trace[i] == (
                ActionView::DecreaseLocked {
                    token: entries[i - before.len()].0,
                    amount: entries[i - before.len()].1,
                })
        },
    decreases entries.len(),
{
    if entries.len() > 0 {
        lemma_unlock_steps(before, entries.drop_last());
    }
}

/// A chunk unlocks nothing while it goes on.
proof fn lemma_run_unlocks_nothing(
    kind: Settlement,
    store: StoreView,
    ctx: Context,
    ids: Seq<u32>,
    start: int,
    n: nat,
)
    ensures
        settle_run(kind, store, ctx, ids, start, n) matches Ok(run) ==> {
            &&& run.totals.dom().finite()
            &&& forall|i: int|
                0 <= i < run.trace.len() ==> !(#[trigger] run.trace[i] is DecreaseLocked)
        },
    decreases n,
{
    if n > 0 {
        lemma_run_unlocks_nothing(kind, store, ctx, ids, start, (n - 1) as nat);
    }
}

/// A batch claim or cancellation unlocks each token once, after everything is
/// paid.
pub proof fn law_batch_unlocks_each_token_once(
    kind: Settlement,
    store: StoreView,
    ctx: Context,
    ids: Seq<u32>,
    start_index: u32,
    max_items: u32,
)
    requires
        batch_settle_rule(kind, store, ctx, ids, start_index, max_items) is Ok,
    ensures
        ({
            let trace = batch_settle_rule(
                kind,
                store,
                ctx,
                ids,
                start_index,
                max_items,
            )->Ok_0.trace;
            forall|i: int, j: int|
                0 <= i < j < trace.len() && (#[trigger] trace[i] is DecreaseLocked) ==> !(
                #[trigger] trace[j] is PayOut) && (trace[j] is DecreaseLocked
                    ==> trace[i]->DecreaseLocked_token != trace[j]->DecreaseLocked_token)
        }),
{
    let start = chunk_start(ids.len(), start_index);
    let n = (chunk_end(ctx, ids.len(), start_index, max_items) - start) as nat;
    lemma_run_unlocks_nothing(kind, store, ctx, ids, start, n);
    let run = settle_run(kind, store, ctx, ids, start, n)->Ok_0;
    let entries = listing(run.totals);
    lemma_listing(run.totals);
    lemma_unlock_steps(run.trace, entries);
    let trace = batch_settle_rule(kind, store, ctx, ids, start_index, max_items)->Ok_0.trace;
    let len = run.trace.len();
    assert forall|i: int, j: int|
        0 <= i < j < trace.len() && (#[trigger] trace[i] is DecreaseLocked) implies !(
    #[trigger] trace[j] is PayOut) && (trace[j] is DecreaseLocked
        ==> trace[i]->DecreaseLocked_token != trace[j]->DecreaseLocked_token) by {
        assert(i >= len) by {
            if i < len {
                assert(trace[i] == run.trace[i]);
            }
        }
        if j < trace.len() - 1 {
            assert(entries[i - len].0.before(entries[j - len].0));
        }
    }
}

/// Asking for no number of items, or for more than a chunk can have, is asking
/// for as many as it can have.
pub proof fn law_step_defaults_to_the_maximum(
    kind: Settlement,
    store: StoreView,
    ctx: Context,
    ids: Seq<u32>,
    start_index: u32,
    max_items: u32,
)
    requires
        max_items == 0 || max_items >= ctx.limits.batch_escrow_cursor_step,
    ensures
        batch_settle_rule(kind, store, ctx, ids, start_index, max_items) == batch_settle_rule(
            kind,
            store,
            ctx,
            ids,
            start_index,
            ctx.limits.batch_escrow_cursor_step,
        ),
{
}

} // verus!
