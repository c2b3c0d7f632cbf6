//! What a batch of openings answers, and what is paid for it.
use crate::abort::Abort;
use crate::accounts::{announced, counted, group_accounts, lemma_asks, paid_out, signers, taken};
use crate::action::{ActionView, Event};
use crate::batch_create::{
    addressed_to, batch_create_escrow_rule, batch_funding, draft, lemma_draft_ids,
    lemma_draft_sizes, record_lists, record_recipients, touched,
};
use crate::batch_outcome::{lemma_append_all_entries, lemma_batch_create};
use crate::flows::locking;
use crate::guard::creation_entry_rule;
use crate::history::{after, ending, outcome, Call};
use crate::openings::open_for_business;
use crate::sequences::{answer, lemma_single_calls, single_calls};
use crate::store::StoreView;
use crate::types::{
    Address, BatchEscrowInputView, BatchEscrowResult, Context, ContractError, EscrowView,
};
use vstd::prelude::*;

verus! {

/// What the single call for an item of a batch answers, made after the single
/// calls for the items before it.
pub open spec fn single_answer(
    store: StoreView,
    ctx: Context,
    token: Address,
    from: Address,
    items: Seq<BatchEscrowInputView>,
    k: int,
) -> Option<Result<u32, ContractError>> {
    answer(
        after(store, single_calls(ctx, token, from, items.take(k))),
        ctx,
        Call::CreateEscrow {
            token,
            from,
            to: items[k].to,
            amount: items[k].amount,
            release_ledger: items[k].release_ledger,
            memo: items[k].memo,
        },
    )
}

/// Whether a batch answers for an item what the single call answers: the same id,
/// or, where that call gives none, that the item is skipped.
pub open spec fn answers_alike(
    store: StoreView,
    ctx: Context,
    token: Address,
    from: Address,
    items: Seq<BatchEscrowInputView>,
    k: int,
    result: BatchEscrowResult,
) -> bool {
    match single_answer(store, ctx, token, from, items, k) {
        Some(Ok(id)) => result == BatchEscrowResult::Success(id),
        _ => result == BatchEscrowResult::Skipped(k as u32),
    }
}

/// A draft answers as the single calls do.
#[verifier::rlimit(40)]
proof fn lemma_draft_answers_alike(
    store: StoreView,
    ctx: Context,
    token: Address,
    from: Address,
    items: Seq<BatchEscrowInputView>,
)
    requires
        creation_entry_rule(ctx) is Ok,
        draft(store, ctx, token, from, items) matches Ok(plan) && store.next_id()
            + plan.opened.len() <= u32::MAX,
    ensures
        ({
            let results = draft(store, ctx, token, from, items)->Ok_0.results;
            &&& results.len() == items.len()
            &&& forall|k: int|
                0 <= k < items.len() ==> answers_alike(
                    store,
                    ctx,
                    token,
                    from,
                    items,
                    k,
                    #[trigger] results[k],
                )
        }),
    decreases items.len(),
{
    if items.len() > 0 {
        let init = items.drop_last();
        let last = items.len() - 1;
        let before = draft(store, ctx, token, from, init)->Ok_0;
        let plan = draft(store, ctx, token, from, items)->Ok_0;
        assert(before.opened.len() <= plan.opened.len());
        lemma_draft_answers_alike(store, ctx, token, from, init);
        lemma_single_calls(store, ctx, token, from, init);
        lemma_draft_ids(store, ctx, token, from, init);
        assert forall|j: int| 0 <= j < before.opened.len() implies (
        #[trigger] before.opened[j]).id == store.next_id() + j by {}
        lemma_append_all_entries(store, before.opened);
        let state = store.append_all(before.opened);
        let item = items.last();
        assert(items.take(last) =~= init);
        assert(state.list_of(item.to) == store.list_of(item.to) + addressed_to(
            before.opened,
            item.to,
        ));
        assert(state.next_id() == store.next_id() + before.opened.len());
        assert forall|k: int| 0 <= k < items.len() implies answers_alike(
            store,
            ctx,
            token,
            from,
            items,
            k,
            #[trigger] plan.results[k],
        ) by {
            if k < last {
                assert(plan.results[k] == before.results[k]);
                assert(init[k] == items[k]);
                assert(init.take(k) =~= items.take(k));
            } else {
                assert(items[k] == item);
                assert(plan.results[k] == plan.results.last());
            }
        }
    }
}

/// How many items were accepted.
pub open spec fn accepted_count(results: Seq<BatchEscrowResult>) -> nat
    decreases results.len(),
{
    if results.len() == 0 {
        0
    } else {
        accepted_count(results.drop_last()) + if results.last() is Success {
            1nat
        } else {
            0nat
        }
    }
}

/// What the accepted items amount to.
pub open spec fn accepted_amount(
    items: Seq<BatchEscrowInputView>,
    results: Seq<BatchEscrowResult>,
) -> int
    decreases results.len(),
{
    if results.len() == 0 {
        0
    } else {
        accepted_amount(items.drop_last(), results.drop_last()) + if results.last() is Success {
            items.last().amount as int
        } else {
            0
        }
    }
}

/// What the positive amounts of a batch add up to.
pub open spec fn positive_amounts(items: Seq<BatchEscrowInputView>) -> int
    decreases items.len(),
{
    if items.len() == 0 {
        0
    } else {
        positive_amounts(items.drop_last()) + if items.last().amount > 0 {
            items.last().amount as int
        } else {
            0
        }
    }
}

/// What a draft accepts is what it opens and sums up; and why one fails.
proof fn lemma_draft_accepts(
    store: StoreView,
    ctx: Context,
    token: Address,
    from: Address,
    items: Seq<BatchEscrowInputView>,
)
    ensures
        positive_amounts(items) >= 0,
        match draft(store, ctx, token, from, items) {
            Ok(plan) => {
                &&& plan.results.len() == items.len()
                &&& plan.opened.len() == accepted_count(plan.results) <= items.len()
                &&& plan.total == accepted_amount(items, plan.results)
                &&& 0 <= plan.total <= positive_amounts(items)
            },
            Err(Abort::AdditionOverflow) => ctx.sequence + ctx.limits.max_escrow_ledgers > u32::MAX
                && exists|i: int|
                0 <= i < items.len() && (#[trigger] items[i]).release_ledger > ctx.sequence,
            Err(Abort::Overflow) => positive_amounts(items) > i128::MAX,
            Err(_) => false,
        },
    decreases items.len(),
{
    if items.len() > 0 {
        let init = items.drop_last();
        lemma_draft_accepts(store, ctx, token, from, init);
        if draft(store, ctx, token, from, items) is Ok {
            let before = draft(store, ctx, token, from, init)->Ok_0;
            let plan = draft(store, ctx, token, from, items)->Ok_0;
            assert(plan.results.drop_last() =~= before.results);
        } else if draft(store, ctx, token, from, items)->Err_0 == Abort::AdditionOverflow {
            if draft(store, ctx, token, from, init) is Ok {
                assert(items[items.len() - 1].release_ledger > ctx.sequence);
            } else {
                let i = choose|i: int|
                    0 <= i < init.len() && (#[trigger] init[i]).release_ledger > ctx.sequence;
                assert(items[i].release_ledger > ctx.sequence);
            }
        }
    }
}

/// Whether a series of actions asks this address, charges it this amount, not
/// locked yet, and does nothing else.
spec fn charged(trace: Seq<ActionView>, token: Address, from: Address, total: int) -> bool {
    &&& signers(trace) == seq![from]
    &&& announced(trace) == Seq::<Event>::empty()
    &&& forall|t: Address, who: Address| #[trigger]
        taken(trace, t, who) == if t == token && who == from {
            total
        } else {
            0
        }
    &&& forall|t: Address, who: Address| #[trigger] paid_out(trace, t, who) == 0
    &&& forall|t: Address| #[trigger] locking(trace, t) == 0
}

/// Recording recipients changes nothing of that.
proof fn lemma_recipients_charged(
    before: Seq<ActionView>,
    opened: Seq<EscrowView>,
    token: Address,
    from: Address,
    total: int,
)
    requires
        charged(before, token, from, total),
    ensures
        charged(record_recipients(before, opened), token, from, total),
    decreases opened.len(),
{
    broadcast use group_accounts;

    if opened.len() > 0 {
        lemma_recipients_charged(before, opened.drop_last(), token, from, total);
    }
}

/// Recording lists changes nothing of that.
proof fn lemma_lists_charged(
    before: Seq<ActionView>,
    store: StoreView,
    opened: Seq<EscrowView>,
    recipients: Seq<Address>,
    token: Address,
    from: Address,
    total: int,
)
    requires
        charged(before, token, from, total),
    ensures
        charged(record_lists(before, store, opened, recipients), token, from, total),
    decreases recipients.len(),
{
    broadcast use group_accounts;

    if recipients.len() > 0 {
        lemma_lists_charged(
            before,
            store,
            opened,
            recipients.drop_last(),
            token,
            from,
            total,
        );
    }
}

/// A batch answers for each item exactly what creating the items one by one, in
/// order, would: the same id, or that the item is skipped where no id would be
/// answered. The number of ids answered is by how much the count grows. The
/// payer, who alone is asked, pays exactly for the accepted items, which is
/// locked, and how many were accepted and skipped is announced.
#[verifier::rlimit(40)]
pub proof fn law_batch_answers_as_single_calls(
    store: StoreView,
    ctx: Context,
    token: Address,
    from: Address,
    items: Seq<BatchEscrowInputView>,
)
    requires
        batch_create_escrow_rule(store, ctx, token, from, items) is Ok,
    ensures
        ({
            let reply = batch_create_escrow_rule(store, ctx, token, from, items)->Ok_0;
            let results = reply.value;
            let next = outcome(store, ctx, Call::BatchCreate { token, from, items });
            let total = accepted_amount(items, results);
            &&& results.len() == items.len()
            &&& forall|k: int|
                0 <= k < items.len() ==> answers_alike(
                    store,
                    ctx,
                    token,
                    from,
                    items,
                    k,
                    #[trigger] results[k],
                )
            &&& counted(next) == counted(store) + accepted_count(results)
            &&& signers(reply.trace) == seq![from]
            &&& forall|t: Address, who: Address| #[trigger]
                taken(reply.trace, t, who) == if t == token && who == from {
                    total
                } else {
                    0
                }
            &&& forall|t: Address, who: Address| #[trigger] paid_out(reply.trace, t, who) == 0
            &&& forall|t: Address| #[trigger]
                locking(reply.trace, t) == if t == token {
                    total
                } else {
                    0
                }
            &&& announced(reply.trace) == seq![
                Event::BatchCreated {
                    from,
                    created: accepted_count(results) as u32,
                    skipped: (items.len() - accepted_count(results)) as u32,
                    total: total as i128,
                },
            ]
        }),
{
    reveal(ending);
    let reply = batch_create_escrow_rule(store, ctx, token, from, items)->Ok_0;
    let plan = draft(store, ctx, token, from, items)->Ok_0;
    lemma_draft_answers_alike(store, ctx, token, from, items);
    lemma_draft_accepts(store, ctx, token, from, items);
    lemma_draft_sizes(store, ctx, token, from, items);
    lemma_batch_create(store, ctx, token, from, items);
    lemma_append_all_entries(store, plan.opened);
    lemma_asks(store, 0, from);
    let funded = batch_funding(token, from, plan.total);
    assert(charged(funded, token, from, plan.total)) by {
        broadcast use group_accounts;

    }
    lemma_recipients_charged(funded, plan.opened, token, from, plan.total);
    let recorded = record_recipients(funded, plan.opened);
    lemma_lists_charged(
        recorded,
        store,
        plan.opened,
        touched(plan.opened),
        token,
        from,
        plan.total,
    );
    broadcast use group_accounts;

    let event = announced(reply.trace).last();
    assert(announced(reply.trace) =~= Seq::<Event>::empty().push(event));
}

/// A batch of at least one and at most the possible number of items completes
/// whenever calls that open escrows are let in, the latest release ledger exists
/// or no item needs it, there are ids for all items and their amounts can be
/// added up; and a refusal gives a reason that is true.
pub proof fn law_batch_is_let_in(
    store: StoreView,
    ctx: Context,
    token: Address,
    from: Address,
    items: Seq<BatchEscrowInputView>,
)
    ensures
        ({
            let result = batch_create_escrow_rule(store, ctx, token, from, items);
            &&& result is Ok ==> open_for_business(ctx) && 1 <= items.len()
                <= ctx.limits.max_batch_size
            &&& (open_for_business(ctx) && 1 <= items.len() <= ctx.limits.max_batch_size
                && (ctx.sequence + ctx.limits.max_escrow_ledgers <= u32::MAX || forall|i: int|
                0 <= i < items.len() ==> (#[trigger] items[i]).release_ledger <= ctx.sequence)
                && counted(store) + items.len() <= u32::MAX && positive_amounts(items)
                <= i128::MAX) ==> result is Ok
            &&& result matches Err(halt) ==> match halt.reason {
                Abort::Reentrant => ctx.guard_held,
                Abort::NotInitialized => !ctx.initialized,
                Abort::Paused => ctx.paused,
                Abort::BatchEmpty => items.len() == 0,
                Abort::BatchTooLarge => items.len() > ctx.limits.max_batch_size,
                Abort::AdditionOverflow => ctx.sequence + ctx.limits.max_escrow_ledgers
                    > u32::MAX,
                Abort::Overflow => positive_amounts(items) > i128::MAX || counted(store)
                    + items.len() > u32::MAX,
                _ => false,
            }
        }),
{
    lemma_draft_accepts(store, ctx, token, from, items);
}

} // verus!
