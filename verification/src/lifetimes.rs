//! Every entry that is written lives on.
use crate::action::ActionView;
use crate::batch_create::{batch_funding, draft, record_lists, record_recipients, touched};
use crate::batch_settle::{
    chunk_end, chunk_start, settle_one, settle_run, unlock_all, RunView, Settlement,
};
use crate::guard::searching;
use crate::history::{ending, target, trace_of, Call};
use crate::store::{DataKey, EntryView, StoreView};
use crate::tally::listing;
use crate::types::{Address, Context, EscrowView};
use vstd::prelude::*;

verus! {

/// The key of an entry.
pub open spec fn key_of(entry: EntryView) -> DataKey {
    match entry {
        EntryView::Recipient(id, _) => DataKey::EscrowRecipient(id),
        EntryView::List(to, _) => DataKey::EscrowByRecipient(to),
        EntryView::Count(_) => DataKey::EscrowCount,
        EntryView::Arbitrators(_) => DataKey::Arbitrators,
        EntryView::ArbitratorCount(_) => DataKey::ArbitratorCount,
    }
}

/// Whether an action prolongs the life of the entry with this key.
pub open spec fn prolongs(action: ActionView, key: DataKey) -> bool {
    action == ActionView::Bump(key) || action == ActionView::BumpToFloor(key)
}

/// Whether every entry that is written is prolonged right away.
pub open spec fn keeps_alive(trace: Seq<ActionView>) -> bool {
    forall|i: int|
        0 <= i < trace.len() ==> (#[trigger] trace[i] matches ActionView::Write(entry) ==> i + 1
            < trace.len() && prolongs(trace[i + 1], key_of(entry)))
}

/// Anything but a write may follow.
broadcast proof fn lemma_alive_push(trace: Seq<ActionView>, action: ActionView)
    requires
        keeps_alive(trace),
        !(action is Write),
    ensures
        #[trigger] keeps_alive(trace.push(action)),
{
    let longer = trace.push(action);
    assert forall|i: int| 0 <= i < longer.len() implies (
    #[trigger] longer[i] matches ActionView::Write(entry) ==> i + 1 < longer.len() && prolongs(
        longer[i + 1],
        key_of(entry),
    )) by {
        if i < trace.len() {
            assert(longer[i] == trace[i]);
            if i + 1 < trace.len() {
                assert(longer[i + 1] == trace[i + 1]);
            }
        }
    }
}

/// A write may follow if the entry is prolonged next.
broadcast proof fn lemma_alive_write(trace: Seq<ActionView>, entry: EntryView, action: ActionView)
    requires
        keeps_alive(trace),
        prolongs(action, key_of(entry)),
    ensures
        #[trigger] keeps_alive(trace.push(ActionView::Write(entry)).push(action)),
{
    let longer = trace.push(ActionView::Write(entry)).push(action);
    assert forall|i: int| 0 <= i < longer.len() implies (
    #[trigger] longer[i] matches ActionView::Write(x) ==> i + 1 < longer.len() && prolongs(
        longer[i + 1],
        key_of(x),
    )) by {
        if i < trace.len() {
            assert(longer[i] == trace[i]);
            if i + 1 < trace.len() {
                assert(longer[i + 1] == trace[i + 1]);
            }
        }
    }
}

/// Asking and searching write nothing.
proof fn lemma_alive_asks(store: StoreView, id: u32, who: Address)
    ensures
        keeps_alive(Seq::empty()),
        keeps_alive(seq![ActionView::RequireAuth(who)]),
        keeps_alive(searching(store, id, Seq::empty())),
        keeps_alive(searching(store, id, seq![ActionView::RequireAuth(who)])),
{
    broadcast use lemma_alive_push;

    assert(keeps_alive(Seq::<ActionView>::empty()));
    assert(keeps_alive(seq![ActionView::RequireAuth(who)]));
}

/// Recording recipients keeps them alive.
proof fn lemma_recipients_alive(before: Seq<ActionView>, opened: Seq<EscrowView>)
    requires
        keeps_alive(before),
    ensures
        keeps_alive(record_recipients(before, opened)),
    decreases opened.len(),
{
    broadcast use lemma_alive_write;

    if opened.len() > 0 {
        lemma_recipients_alive(before, opened.drop_last());
    }
}

/// Recording lists keeps them alive.
proof fn lemma_lists_alive(
    before: Seq<ActionView>,
    store: StoreView,
    opened: Seq<EscrowView>,
    recipients: Seq<Address>,
)
    requires
        keeps_alive(before),
    ensures
        keeps_alive(record_lists(before, store, opened, recipients)),
    decreases recipients.len(),
{
    broadcast use lemma_alive_write;

    if recipients.len() > 0 {
        lemma_lists_alive(before, store, opened, recipients.drop_last());
    }
}

/// A step of a chunk keeps what it writes alive.
proof fn lemma_step_alive(kind: Settlement, ctx: Context, run: RunView, id: u32, index: u32)
    requires
        keeps_alive(run.trace),
        settle_one(kind, ctx, run, id, index) is Ok,
    ensures
        keeps_alive(settle_one(kind, ctx, run, id, index)->Ok_0.trace),
{
    broadcast use lemma_alive_push, lemma_alive_write;

    assert(keeps_alive(searching(run.store, id, run.trace)));
}

/// A chunk keeps what it writes alive.
proof fn lemma_run_alive(
    kind: Settlement,
    store: StoreView,
    ctx: Context,
    ids: Seq<u32>,
    start: int,
    n: nat,
)
    ensures
        settle_run(kind, store, ctx, ids, start, n) matches Ok(run) ==> keeps_alive(run.trace),
    decreases n,
{
    if n > 0 {
        let m = (n - 1) as nat;
        lemma_run_alive(kind, store, ctx, ids, start, m);
        if settle_run(kind, store, ctx, ids, start, n) is Ok {
            let before = settle_run(kind, store, ctx, ids, start, m)->Ok_0;
            lemma_step_alive(kind, ctx, before, ids[start + n - 1], (start + n - 1) as u32);
        }
    }
}

/// Unlocking writes nothing.
proof fn lemma_unlock_alive(before: Seq<ActionView>, entries: Seq<(Address, i128)>)
    requires
        keeps_alive(before),
    ensures
        unlock_all(before, entries) matches Ok(unlocked) ==> keeps_alive(unlocked.trace),
    decreases entries.len(),
{
    broadcast use lemma_alive_push;

    if entries.len() > 0 {
        lemma_unlock_alive(before, entries.drop_last());
    }
}

/// Every entry that a call writes is prolonged right after it is written.
#[verifier::rlimit(60)]
#[verifier::spinoff_prover]
pub proof fn law_written_entries_live_on(store: StoreView, ctx: Context, call: Call)
    requires
        trace_of(store, ctx, call) is Some,
    ensures
        keeps_alive(trace_of(store, ctx, call)->0),
{
    broadcast use lemma_alive_push, lemma_alive_write;

    reveal(ending);
    let id = match target(call) {
        Some(id) => id,
        None => 0,
    };
    match call {
        Call::CreateEscrow { from, .. } => {
            lemma_alive_asks(store, id, from);
        },
        Call::CreateDisputableEscrow { from, .. } => {
            lemma_alive_asks(store, id, from);
        },
        Call::CreateMilestoneEscrow { from, .. } => {
            lemma_alive_asks(store, id, from);
        },
        Call::BatchCreate { token, from, items } => {
            lemma_alive_asks(store, id, from);
            let plan = draft(store, ctx, token, from, items)->Ok_0;
            let funded = batch_funding(token, from, plan.total);
            assert(keeps_alive(funded));
            lemma_recipients_alive(funded, plan.opened);
            lemma_lists_alive(
                record_recipients(funded, plan.opened),
                store,
                plan.opened,
                touched(plan.opened),
            );
        },
        Call::ApproveMilestone { approver, .. } => {
            lemma_alive_asks(store, id, approver);
        },
        Call::ClaimMilestone { recipient, .. } => {
            lemma_alive_asks(store, id, recipient);
        },
        Call::BatchSettle { kind, ids, start_index, max_items } => {
            let start = chunk_start(ids.len(), start_index);
            let n = (chunk_end(ctx, ids.len(), start_index, max_items) - start) as nat;
            lemma_run_alive(kind, store, ctx, ids, start, n);
            let run = settle_run(kind, store, ctx, ids, start, n)->Ok_0;
            lemma_unlock_alive(run.trace, listing(run.totals));
        },
        Call::AddArbitrator { admin, .. } => {
            lemma_alive_asks(store, id, admin);
        },
        Call::RemoveArbitrator { admin, .. } => {
            lemma_alive_asks(store, id, admin);
        },
        Call::RaiseDispute { by, .. } => {
            lemma_alive_asks(store, id, by);
        },
        Call::ResolveDispute { arbitrator, .. } => {
            lemma_alive_asks(store, id, arbitrator);
        },
        _ => {
            lemma_alive_asks(store, id, arbitrary());
        },
    }
}

} // verus!
