//! What every call keeps.
use crate::abort::Abort;
use crate::action::{apply, lemma_apply_push, ActionView};
use crate::batch_create::{addressed_to, draft};
use crate::batch_outcome::{
    lemma_append_all_entries, lemma_batch_create, lemma_batch_settle, lemma_draft_capped,
    lemma_draft_sound, lemma_settle_run,
};
use crate::batch_settle::{chunk_end, chunk_start};
use crate::dispute::{registered, without};
use crate::history::{
    added, after, creates_one, ending, lemma_added, lemma_next_state, lemma_target, next_state,
    outcome, same_terms, target, trace_of, Call,
};
use crate::soundness::{
    lemma_append, lemma_append_all, lemma_empty_sound, lemma_lookup, lemma_replace,
};
use crate::store::StoreView;
use crate::types::{Address, Context, EscrowStatus};
use vstd::prelude::*;

verus! {

/// Taking an address out of a list leaves the others, in order and as often as before.
pub proof fn lemma_without(list: Seq<Address>, address: Address)
    ensures
        !without(list, address).contains(address),
        forall|a: Address|
            a != address ==> (#[trigger] without(list, address).contains(a) <==> list.contains(a)),
        list.no_duplicates() ==> without(list, address).no_duplicates(),
        !list.contains(address) ==> without(list, address) == list,
    decreases list.len(),
{
    if list.len() > 0 {
        let init = list.drop_last();
        let last = list.last();
        let rest = without(init, address);
        let result = without(list, address);
        lemma_without(init, address);
        assert(list =~= init.push(last));
        assert forall|a: Address| #[trigger] list.contains(a) <==> init.contains(a) || a
            == last by {
            lemma_push_contains(init, last, a);
        }
        assert forall|a: Address| #[trigger] result.contains(a) <==> rest.contains(a) || (a == last
            && last != address) by {
            lemma_push_contains(rest, last, a);
        }
        if list.no_duplicates() {
            assert(init.no_duplicates()) by {
                assert forall|i: int, j: int|
                    0 <= i < init.len() && 0 <= j < init.len() && i != j implies init[i]
                    != init[j] by {
                    assert(list[i] != list[j]);
                }
            }
            assert(!init.contains(last)) by {
                if init.contains(last) {
                    let i = choose|i: int| 0 <= i < init.len() && init[i] == last;
                    assert(list[i] == list[list.len() - 1]);
                }
            }
            if last != address {
                assert(!rest.contains(last));
                lemma_push_distinct(rest, last);
            }
        }
        if !list.contains(address) {
            assert(result =~= list);
        }
    }
}

/// A longer list contains what it contained before and what was appended.
pub proof fn lemma_push_contains(list: Seq<Address>, last: Address, a: Address)
    ensures
        list.push(last).contains(a) <==> list.contains(a) || a == last,
{
    let longer = list.push(last);
    if longer.contains(a) {
        let i = choose|i: int| 0 <= i < longer.len() && longer[i] == a;
        if i < list.len() {
            assert(list[i] == a);
        }
    }
    if list.contains(a) {
        let i = choose|i: int| 0 <= i < list.len() && list[i] == a;
        assert(longer[i] == a);
    }
    assert(longer[list.len() as int] == last);
}

/// Appending something new to a list without repetitions repeats nothing.
proof fn lemma_push_distinct(list: Seq<Address>, last: Address)
    requires
        list.no_duplicates(),
        !list.contains(last),
    ensures
        list.push(last).no_duplicates(),
{
    let longer = list.push(last);
    assert forall|i: int, j: int|
        0 <= i < longer.len() && 0 <= j < longer.len() && i != j implies longer[i]
        != longer[j] by {
        if i == list.len() {
            assert(list.contains(list[j]));
        } else if j == list.len() {
            assert(list.contains(list[i]));
        }
    }
}

/// Changing the arbitrators changes nothing else.
pub proof fn lemma_arbitrators(store: StoreView, ctx: Context, call: Call)
    requires
        call is AddArbitrator || call is RemoveArbitrator,
        trace_of(store, ctx, call) is Some,
    ensures
        ({
            let list = match call {
                Call::AddArbitrator { arbitrator, .. } => registered(store).push(arbitrator),
                Call::RemoveArbitrator { arbitrator, .. } => without(
                    registered(store),
                    arbitrator,
                ),
                _ => registered(store),
            };
            outcome(store, ctx, call) == (StoreView {
                arbitrators: Some(list),
                arbitrator_count: Some(list.len() as u32),
                ..store
            })
        }),
{
    reveal(ending);
    broadcast use lemma_apply_push;

    let admin = match call {
        Call::AddArbitrator { admin, .. } => admin,
        Call::RemoveArbitrator { admin, .. } => admin,
        _ => arbitrary(),
    };
    assert(seq![ActionView::RequireAuth(admin)] =~= Seq::<ActionView>::empty().push(
        ActionView::RequireAuth(admin),
    ));
    assert(apply(store, Seq::<ActionView>::empty()) == store);
}

/// A chunk lies within its batch.
pub proof fn lemma_chunk(ctx: Context, len: nat, start_index: u32, max_items: u32)
    ensures
        0 <= chunk_start(len, start_index) <= chunk_end(ctx, len, start_index, max_items) <= len,
{
}

/// Every call keeps the entries sound: ids are given out without gaps, every
/// escrow stands in its recipient's list, oldest first, and is sound in
/// itself, and the arbitrators are listed once each and counted.
#[verifier::rlimit(40)]
pub proof fn law_soundness_kept(store: StoreView, ctx: Context, call: Call)
    requires
        store.sound(),
    ensures
        outcome(store, ctx, call).sound(),
{
    reveal(ending);
    if trace_of(store, ctx, call) is Some {
        if target(call) is Some {
            lemma_target(store, ctx, call);
            lemma_next_state(store, ctx, call);
            let id = target(call)->0;
            lemma_lookup(store, id);
            let place = store.locate(id, Abort::RecipientNotFound)->Ok_0;
            lemma_replace(store, place, next_state(ctx, call, place.escrow));
        } else if creates_one(call) {
            lemma_added(store, ctx, call);
            if let Some(e) = added(store, ctx, call) {
                lemma_append(store, e);
            }
        } else {
            match call {
                Call::BatchCreate { token, from, items } => {
                    lemma_batch_create(store, ctx, token, from, items);
                    lemma_draft_sound(store, ctx, token, from, items);
                    let plan = draft(store, ctx, token, from, items)->Ok_0;
                    lemma_append_all(store, plan.opened);
                },
                Call::BatchSettle { kind, ids, start_index, max_items } => {
                    lemma_batch_settle(kind, store, ctx, ids, start_index, max_items);
                    lemma_chunk(ctx, ids.len(), start_index, max_items);
                    let start = chunk_start(ids.len(), start_index);
                    let n = (chunk_end(ctx, ids.len(), start_index, max_items) - start) as nat;
                    lemma_settle_run(kind, store, ctx, ids, start, n);
                },
                Call::AddArbitrator { arbitrator, .. } => {
                    lemma_arbitrators(store, ctx, call);
                    lemma_push_distinct(registered(store), arbitrator);
                    lemma_same_escrows(store, outcome(store, ctx, call));
                },
                Call::RemoveArbitrator { arbitrator, .. } => {
                    lemma_arbitrators(store, ctx, call);
                    lemma_without(registered(store), arbitrator);
                    lemma_same_escrows(store, outcome(store, ctx, call));
                },
                _ => {},
            }
        }
    }
}

/// Entries that agree in everything about escrows lead to the same escrows.
proof fn lemma_same_escrows(a: StoreView, b: StoreView)
    requires
        a.sound(),
        b.recipients == a.recipients,
        b.lists == a.lists,
        b.count == a.count,
        b.arbitrators_sound(),
    ensures
        b.sound(),
        forall|id: u32| #[trigger] b.lookup(id) == a.lookup(id),
{
    assert forall|id: u32| #[trigger] b.lookup(id) == a.lookup(id) by {}
    assert forall|id: u32| #[trigger] b.recipients.contains_key(id) implies b.lookup(
        id,
    ) is Some by {
        assert(a.recipients.contains_key(id));
    }
    assert forall|to: Address| #[trigger] b.lists.contains_key(to) implies b.list_sound(to) by {
        assert(a.list_sound(to));
    }
    assert forall|id: u32| #[trigger] b.recipients.contains_key(id) <==> id < b.next_id() by {
        assert(a.recipients.contains_key(id) <==> id < a.next_id());
    }
}

/// Whatever calls are made, in whatever contexts, the entries that started out
/// empty are sound.
#[verifier::rlimit(40)]
pub proof fn law_reachable_sound(calls: Seq<(Context, Call)>)
    ensures
        after(StoreView::empty(), calls).sound(),
    decreases calls.len(),
{
    if calls.len() == 0 {
        lemma_empty_sound(arbitrary());
    } else {
        law_reachable_sound(calls.drop_last());
        law_soundness_kept(
            after(StoreView::empty(), calls.drop_last()),
            calls.last().0,
            calls.last().1,
        );
    }
}

/// No call lets a recipient have more escrows than its index can track.
#[verifier::rlimit(40)]
pub proof fn law_index_cap_kept(store: StoreView, ctx: Context, call: Call)
    requires
        store.sound(),
        store.capped(ctx.limits),
    ensures
        outcome(store, ctx, call).capped(ctx.limits),
{
    reveal(ending);
    if trace_of(store, ctx, call) is Some {
        let result = outcome(store, ctx, call);
        if target(call) is Some {
            lemma_target(store, ctx, call);
            lemma_next_state(store, ctx, call);
            let id = target(call)->0;
            lemma_lookup(store, id);
            let place = store.locate(id, Abort::RecipientNotFound)->Ok_0;
            lemma_replace(store, place, next_state(ctx, call, place.escrow));
            assert forall|to: Address| #[trigger]
                result.list_of(to).len() <= ctx.limits.max_user_escrows by {
                assert(store.list_of(to).len() <= ctx.limits.max_user_escrows);
            }
        } else if creates_one(call) {
            lemma_added(store, ctx, call);
            if let Some(e) = added(store, ctx, call) {
                lemma_append(store, e);
                assert forall|to: Address| #[trigger]
                    result.list_of(to).len() <= ctx.limits.max_user_escrows by {
                    assert(store.list_of(to).len() <= ctx.limits.max_user_escrows);
                }
            }
        } else {
            match call {
                Call::BatchCreate { token, from, items } => {
                    lemma_batch_create(store, ctx, token, from, items);
                    lemma_draft_capped(store, ctx, token, from, items);
                    let plan = draft(store, ctx, token, from, items)->Ok_0;
                    lemma_append_all_entries(store, plan.opened);
                    assert forall|to: Address| #[trigger]
                        result.list_of(to).len() <= ctx.limits.max_user_escrows by {
                        assert(addressed_to(plan.opened, to).len() >= 0);
                    }
                },
                Call::BatchSettle { kind, ids, start_index, max_items } => {
                    lemma_batch_settle(kind, store, ctx, ids, start_index, max_items);
                    lemma_chunk(ctx, ids.len(), start_index, max_items);
                    let start = chunk_start(ids.len(), start_index);
                    let n = (chunk_end(ctx, ids.len(), start_index, max_items) - start) as nat;
                    lemma_settle_run(kind, store, ctx, ids, start, n);
                    assert forall|to: Address| #[trigger]
                        result.list_of(to).len() <= ctx.limits.max_user_escrows by {
                        assert(store.list_of(to).len() <= ctx.limits.max_user_escrows);
                    }
                },
                _ => {
                    lemma_arbitrators(store, ctx, call);
                    assert forall|to: Address| #[trigger]
                        result.list_of(to).len() <= ctx.limits.max_user_escrows by {
                        assert(result.list_of(to) == store.list_of(to));
                        assert(store.list_of(to).len() <= ctx.limits.max_user_escrows);
                    }
                },
            }
        }
    }
}

/// Whether a call is about the escrow with this id.
pub open spec fn concerns(call: Call, id: u32) -> bool {
    match call {
        Call::BatchSettle { ids, .. } => ids.contains(id),
        _ => target(call) == Some(id),
    }
}

/// An escrow, once created, stays available under its id, with the terms that
/// were settled when it was created. Its amount never goes up, and no approval
/// or claim of a milestone is taken back. A call that is not about it leaves it
/// as it is, and once it is released or cancelled, so does every call.
#[verifier::rlimit(50)]
pub proof fn law_escrows_persist(store: StoreView, ctx: Context, call: Call, id: u32)
    requires
        store.sound(),
        store.lookup(id) is Some,
    ensures
        ({
            let e = store.lookup(id)->0;
            &&& outcome(store, ctx, call).lookup(id) matches Some(next) && {
                &&& same_terms(e, next)
                &&& e.status != EscrowStatus::Pending ==> next == e
                &&& !concerns(call, id) ==> next == e
            }
        }),
{
    reveal(ending);
    lemma_lookup(store, id);
    if trace_of(store, ctx, call) is Some {
        if target(call) is Some {
            lemma_target(store, ctx, call);
            lemma_next_state(store, ctx, call);
            let t = target(call)->0;
            lemma_lookup(store, t);
            let place = store.locate(t, Abort::RecipientNotFound)->Ok_0;
            lemma_replace(store, place, next_state(ctx, call, place.escrow));
        } else if creates_one(call) {
            lemma_added(store, ctx, call);
            if let Some(e) = added(store, ctx, call) {
                lemma_append(store, e);
            }
        } else {
            match call {
                Call::BatchCreate { token, from, items } => {
                    lemma_batch_create(store, ctx, token, from, items);
                    lemma_draft_sound(store, ctx, token, from, items);
                    let plan = draft(store, ctx, token, from, items)->Ok_0;
                    lemma_append_all(store, plan.opened);
                },
                Call::BatchSettle { kind, ids, start_index, max_items } => {
                    lemma_batch_settle(kind, store, ctx, ids, start_index, max_items);
                    lemma_chunk(ctx, ids.len(), start_index, max_items);
                    let start = chunk_start(ids.len(), start_index);
                    let end = chunk_end(ctx, ids.len(), start_index, max_items);
                    lemma_settle_run(kind, store, ctx, ids, start, (end - start) as nat);
                    let chunk = ids.subrange(start, end);
                    if chunk.contains(id) {
                        let i = choose|i: int| 0 <= i < chunk.len() && chunk[i] == id;
                        assert(ids[start + i] == id);
                    }
                },
                _ => {
                    lemma_arbitrators(store, ctx, call);
                    assert(outcome(store, ctx, call).lookup(id) == store.lookup(id));
                },
            }
        }
    }
}

/// Once an escrow is released or cancelled, no series of calls changes it.
pub proof fn law_settled_is_final(store: StoreView, calls: Seq<(Context, Call)>, id: u32)
    requires
        store.sound(),
        store.lookup(id) matches Some(e) && e.status != EscrowStatus::Pending,
    ensures
        after(store, calls).lookup(id) == store.lookup(id),
        after(store, calls).sound(),
    decreases calls.len(),
{
    if calls.len() > 0 {
        law_settled_is_final(store, calls.drop_last(), id);
        let before = after(store, calls.drop_last());
        law_soundness_kept(before, calls.last().0, calls.last().1);
        law_escrows_persist(before, calls.last().0, calls.last().1, id);
    }
}

/// The number of escrows ever created never goes down: it goes up by one for
/// each escrow that a call creates, and stays as it is for every other call.
#[verifier::rlimit(40)]
pub proof fn law_count_grows(store: StoreView, ctx: Context, call: Call)
    requires
        store.sound(),
    ensures
        outcome(store, ctx, call).next_id() == store.next_id() + match call {
            Call::BatchCreate { token, from, items } => if trace_of(store, ctx, call) is Some {
                draft(store, ctx, token, from, items)->Ok_0.opened.len() as int
            } else {
                0
            },
            _ => if trace_of(store, ctx, call) is Some && added(store, ctx, call) is Some {
                1
            } else {
                0
            },
        },
{
    reveal(ending);
    if trace_of(store, ctx, call) is Some {
        if target(call) is Some {
            lemma_target(store, ctx, call);
            lemma_next_state(store, ctx, call);
        } else if creates_one(call) {
            lemma_added(store, ctx, call);
        } else {
            match call {
                Call::BatchCreate { token, from, items } => {
                    lemma_batch_create(store, ctx, token, from, items);
                    let plan = draft(store, ctx, token, from, items)->Ok_0;
                    lemma_append_all_entries(store, plan.opened);
                },
                Call::BatchSettle { kind, ids, start_index, max_items } => {
                    lemma_batch_settle(kind, store, ctx, ids, start_index, max_items);
                    lemma_chunk(ctx, ids.len(), start_index, max_items);
                    let start = chunk_start(ids.len(), start_index);
                    let n = (chunk_end(ctx, ids.len(), start_index, max_items) - start) as nat;
                    lemma_settle_run(kind, store, ctx, ids, start, n);
                },
                _ => {
                    lemma_arbitrators(store, ctx, call);
                },
            }
        }
    }
}

} // verus!
