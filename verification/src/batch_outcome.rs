//! What batches leave behind.
use crate::abort::Abort;
use crate::action::{apply, lemma_apply_push, ActionView, HaltView};
use crate::batch_create::{
    addressed_to, batch_create_escrow_rule, batch_funding, batch_trace, counts, draft,
    lemma_addressed_push, lemma_draft_ids, lemma_draft_sizes, record_lists, record_recipients,
    touched,
};
use crate::batch_settle::{
    batch_settle_rule, chunk_end, chunk_start, settle_one, settle_run, unlock_all, RunView,
    Settlement,
};
use crate::soundness::{escrow_sound, lemma_lookup, lemma_replace};
use crate::store::StoreView;
use crate::tally::{lemma_listing, listing};
use crate::types::{Address, BatchEscrowInputView, Context, EscrowView};
use vstd::prelude::*;

verus! {

/// Finitely many recipients get escrows.
pub proof fn lemma_counts_finite(opened: Seq<EscrowView>)
    ensures
        counts(opened).dom().finite(),
    decreases opened.len(),
{
    if opened.len() == 0 {
        assert(counts(opened).dom() =~= Set::empty());
    } else {
        let init = opened.drop_last();
        lemma_counts_finite(init);
        assert forall|to: Address| #[trigger] addressed_to(opened, to).len() > 0 <==> (
        addressed_to(init, to).len() > 0 || to == opened.last().to) by {}
        assert(counts(opened).dom() =~= counts(init).dom().insert(opened.last().to));
    }
}

/// The recipients whose lists a batch writes are those that get escrows.
pub proof fn lemma_touched(opened: Seq<EscrowView>)
    ensures
        forall|to: Address| #[trigger]
            touched(opened).contains(to) <==> addressed_to(opened, to).len() > 0,
{
    lemma_counts_finite(opened);
    lemma_listing(counts(opened));
    let entries = listing(counts(opened));
    assert forall|to: Address| #[trigger] touched(opened).contains(to) <==> addressed_to(
        opened,
        to,
    ).len() > 0 by {
        if touched(opened).contains(to) {
            let i = choose|i: int| 0 <= i < touched(opened).len() && touched(opened)[i] == to;
            assert(counts(opened).contains_key(entries[i].0));
        }
        if addressed_to(opened, to).len() > 0 {
            assert(counts(opened).contains_key(to));
            let i = choose|i: int| 0 <= i < entries.len() && (#[trigger] entries[i]).0 == to;
            assert(touched(opened)[i] == to);
        }
    }
}

/// What recording several escrows one after the other leaves behind.
pub proof fn lemma_append_all_entries(store: StoreView, opened: Seq<EscrowView>)
    requires
        store.next_id() + opened.len() <= u32::MAX,
        forall|j: int|
            0 <= j < opened.len() ==> (#[trigger] opened[j]).id == store.next_id() + j,
    ensures
        store.append_all(opened).count == if opened.len() > 0 {
            Some((store.next_id() + opened.len()) as u32)
        } else {
            store.count
        },
        store.append_all(opened).arbitrators == store.arbitrators,
        store.append_all(opened).arbitrator_count == store.arbitrator_count,
        forall|to: Address| #[trigger]
            store.append_all(opened).lists.contains_key(to) <==> store.lists.contains_key(to)
                || addressed_to(opened, to).len() > 0,
        forall|to: Address| #[trigger]
            store.append_all(opened).list_of(to) == store.list_of(to) + addressed_to(opened, to),
    decreases opened.len(),
{
    if opened.len() == 0 {
        assert forall|to: Address| #[trigger] store.append_all(opened).list_of(to)
            == store.list_of(to) + addressed_to(opened, to) by {
            assert(store.list_of(to) + addressed_to(opened, to) =~= store.list_of(to));
        }
    } else {
        let init = opened.drop_last();
        let last = opened.last();
        assert forall|j: int| 0 <= j < init.len() implies (#[trigger] init[j]).id
            == store.next_id() + j by {
            assert(init[j] == opened[j]);
        }
        assert(last == opened[opened.len() - 1]);
        lemma_append_all_entries(store, init);
        let before = store.append_all(init);
        let all = store.append_all(opened);
        assert forall|to: Address| #[trigger] all.list_of(to) == store.list_of(to)
            + addressed_to(opened, to) by {
            if to == last.to {
                assert(all.list_of(to) =~= before.list_of(to).push(last));
                assert(all.list_of(to) =~= store.list_of(to) + addressed_to(opened, to));
            } else {
                assert(all.list_of(to) == before.list_of(to));
            }
        }
        assert forall|to: Address| #[trigger] all.lists.contains_key(to)
            <==> store.lists.contains_key(to) || addressed_to(opened, to).len() > 0 by {
            assert(before.lists.contains_key(to) <==> store.lists.contains_key(to)
                || addressed_to(init, to).len() > 0);
        }
    }
}

/// Recording recipients changes the recipients only.
proof fn lemma_record_recipients(store: StoreView, before: Seq<ActionView>, opened: Seq<EscrowView>)
    requires
        apply(store, before) == store,
    ensures
        apply(store, record_recipients(before, opened)) == (StoreView {
            recipients: store.append_all(opened).recipients,
            ..store
        }),
    decreases opened.len(),
{
    broadcast use lemma_apply_push;

    if opened.len() > 0 {
        lemma_record_recipients(store, before, opened.drop_last());
    }
}

/// Recording lists changes the lists of the given recipients only.
proof fn lemma_record_lists(
    store: StoreView,
    base: StoreView,
    before: Seq<ActionView>,
    opened: Seq<EscrowView>,
    recipients: Seq<Address>,
)
    requires
        apply(base, before).lists == store.lists,
    ensures
        ({
            let all = apply(base, record_lists(before, store, opened, recipients));
            &&& all.recipients == apply(base, before).recipients
            &&& all.count == apply(base, before).count
            &&& all.arbitrators == apply(base, before).arbitrators
            &&& all.arbitrator_count == apply(base, before).arbitrator_count
            &&& forall|to: Address| #[trigger]
                all.lists.contains_key(to) <==> store.lists.contains_key(to)
                    || recipients.contains(to)
            &&& forall|to: Address|
                recipients.contains(to) ==> #[trigger] all.lists[to] == store.list_of(to)
                    + addressed_to(opened, to)
            &&& forall|to: Address|
                !recipients.contains(to) && store.lists.contains_key(to)
                    ==> #[trigger] all.lists[to] == store.lists[to]
        }),
    decreases recipients.len(),
{
    broadcast use lemma_apply_push;

    if recipients.len() > 0 {
        let init = recipients.drop_last();
        let last = recipients.last();
        lemma_record_lists(store, base, before, opened, init);
        assert forall|to: Address| #[trigger] recipients.contains(to) <==> init.contains(to) || to
            == last by {
            if recipients.contains(to) {
                let i = choose|i: int| 0 <= i < recipients.len() && recipients[i] == to;
                if i < init.len() {
                    assert(init[i] == to);
                }
            }
            if init.contains(to) {
                let i = choose|i: int| 0 <= i < init.len() && init[i] == to;
                assert(recipients[i] == to);
            }
            assert(recipients[recipients.len() - 1] == last);
        }
    }
}

/// A batch creation that completes leaves behind what recording its escrows one
/// after the other would.
pub proof fn lemma_batch_create(
    store: StoreView,
    ctx: Context,
    token: Address,
    from: Address,
    items: Seq<BatchEscrowInputView>,
)
    requires
        batch_create_escrow_rule(store, ctx, token, from, items) is Ok,
    ensures
        draft(store, ctx, token, from, items) matches Ok(plan) && {
            &&& store.next_id() + plan.opened.len() <= u32::MAX
            &&& forall|j: int|
                0 <= j < plan.opened.len() ==> (#[trigger] plan.opened[j]).id == store.next_id()
                    + j
            &&& apply(
                store,
                batch_create_escrow_rule(store, ctx, token, from, items)->Ok_0.trace,
            ) == store.append_all(plan.opened)
        },
{
    broadcast use lemma_apply_push;

    let plan = draft(store, ctx, token, from, items)->Ok_0;
    let opened = plan.opened;
    lemma_draft_ids(store, ctx, token, from, items);
    lemma_draft_sizes(store, ctx, token, from, items);
    assert forall|j: int| 0 <= j < opened.len() implies (#[trigger] opened[j]).id
        == store.next_id() + j by {}
    let authorised = seq![ActionView::RequireAuth(from)];
    assert(authorised =~= Seq::<ActionView>::empty().push(ActionView::RequireAuth(from)));
    let funded = batch_funding(token, from, plan.total);
    assert(apply(store, Seq::<ActionView>::empty()) == store);
    assert(apply(store, funded) == store);
    lemma_record_recipients(store, funded, opened);
    lemma_record_lists(store, store, record_recipients(funded, opened), opened, touched(opened));
    lemma_touched(opened);
    lemma_append_all_entries(store, opened);
    let all = apply(store, batch_trace(store, token, from, items.len(), plan));
    let expected = store.append_all(opened);
    assert(all.lists =~= expected.lists) by {
        assert forall|to: Address| #[trigger] all.lists.contains_key(to) implies all.lists[to]
            == expected.lists[to] by {
            assert(expected.lists.contains_key(to));
            assert(expected.list_of(to) == expected.lists[to]);
            if !touched(opened).contains(to) {
                assert(expected.list_of(to) == store.list_of(to) + addressed_to(opened, to));
                assert(expected.list_of(to) =~= store.list_of(to));
            }
        }
        assert forall|to: Address| #[trigger] all.lists.contains_key(to)
            <==> expected.lists.contains_key(to) by {}
    }
    assert(all =~= expected);
}

/// The escrows that a batch opens are sound.
pub proof fn lemma_draft_sound(
    store: StoreView,
    ctx: Context,
    token: Address,
    from: Address,
    items: Seq<BatchEscrowInputView>,
)
    ensures
        draft(store, ctx, token, from, items) matches Ok(plan) ==> forall|j: int|
            0 <= j < plan.opened.len() ==> escrow_sound(#[trigger] plan.opened[j]),
    decreases items.len(),
{
    if items.len() > 0 {
        lemma_draft_sound(store, ctx, token, from, items.drop_last());
    }
}

/// A batch never fills a recipient's index beyond what it can track.
pub proof fn lemma_draft_capped(
    store: StoreView,
    ctx: Context,
    token: Address,
    from: Address,
    items: Seq<BatchEscrowInputView>,
)
    requires
        store.capped(ctx.limits),
    ensures
        draft(store, ctx, token, from, items) matches Ok(plan) ==> forall|to: Address|
            #![trigger addressed_to(plan.opened, to)]
            store.list_of(to).len() + addressed_to(plan.opened, to).len()
                <= ctx.limits.max_user_escrows,
    decreases items.len(),
{
    if items.len() == 0 {
        if draft(store, ctx, token, from, items) is Ok {
            let opened = draft(store, ctx, token, from, items)->Ok_0.opened;
            assert forall|to: Address|
                #![trigger addressed_to(opened, to)]
                store.list_of(to).len() + addressed_to(opened, to).len()
                    <= ctx.limits.max_user_escrows by {}
        }
    } else {
        lemma_draft_capped(store, ctx, token, from, items.drop_last());
        if draft(store, ctx, token, from, items) is Ok {
            let before = draft(store, ctx, token, from, items.drop_last())->Ok_0;
            let plan = draft(store, ctx, token, from, items)->Ok_0;
            assert forall|to: Address|
                #![trigger addressed_to(plan.opened, to)]
                store.list_of(to).len() + addressed_to(plan.opened, to).len()
                    <= ctx.limits.max_user_escrows by {
                assert(store.list_of(to).len() + addressed_to(before.opened, to).len()
                    <= ctx.limits.max_user_escrows);
                if plan.opened != before.opened {
                    lemma_addressed_push(before.opened, plan.opened.last(), to);
                    assert(plan.opened =~= before.opened.push(plan.opened.last()));
                }
            }
        }
    }
}

/// A chunk's actions leave behind the entries as they stand after it.
pub proof fn lemma_run_entries(
    kind: Settlement,
    store: StoreView,
    ctx: Context,
    ids: Seq<u32>,
    start: int,
    n: nat,
)
    ensures
        settle_run(kind, store, ctx, ids, start, n) matches Ok(run) ==> apply(store, run.trace)
            == run.store,
    decreases n,
{
    broadcast use lemma_apply_push;

    if n > 0 {
        lemma_run_entries(kind, store, ctx, ids, start, (n - 1) as nat);
    }
}

/// Unlocking changes no entries.
pub proof fn lemma_unlock_entries(
    store: StoreView,
    before: Seq<ActionView>,
    entries: Seq<(Address, i128)>,
)
    ensures
        unlock_all(before, entries) matches Ok(unlocked) ==> apply(store, unlocked.trace) == apply(
            store,
            before,
        ),
    decreases entries.len(),
{
    broadcast use lemma_apply_push;

    if entries.len() > 0 {
        lemma_unlock_entries(store, before, entries.drop_last());
    }
}

/// A whole chunk, id by id.
pub open spec fn chunk_run(
    kind: Settlement,
    store: StoreView,
    ctx: Context,
    ids: Seq<u32>,
    start_index: u32,
    max_items: u32,
) -> Result<RunView, HaltView> {
    settle_run(
        kind,
        store,
        ctx,
        ids,
        chunk_start(ids.len(), start_index),
        (chunk_end(ctx, ids.len(), start_index, max_items) - chunk_start(
            ids.len(),
            start_index,
        )) as nat,
    )
}

/// A batch claim or cancellation that completes leaves behind the entries as
/// they stand after its chunk.
pub proof fn lemma_batch_settle(
    kind: Settlement,
    store: StoreView,
    ctx: Context,
    ids: Seq<u32>,
    start_index: u32,
    max_items: u32,
)
    requires
        batch_settle_rule(kind, store, ctx, ids, start_index, max_items) is Ok,
    ensures
        chunk_run(kind, store, ctx, ids, start_index, max_items) matches Ok(run) && apply(
            store,
            batch_settle_rule(kind, store, ctx, ids, start_index, max_items)->Ok_0.trace,
        ) == run.store,
{
    broadcast use lemma_apply_push;

    let start = chunk_start(ids.len(), start_index);
    let n = (chunk_end(ctx, ids.len(), start_index, max_items) - start) as nat;
    lemma_run_entries(kind, store, ctx, ids, start, n);
    let run = settle_run(kind, store, ctx, ids, start, n)->Ok_0;
    lemma_unlock_entries(store, run.trace, listing(run.totals));
}

/// One step of a chunk keeps the entries sound, and changes nothing but the
/// status of an escrow that can be settled.
pub proof fn lemma_settle_one(kind: Settlement, ctx: Context, run: RunView, id: u32, index: u32)
    requires
        run.store.sound(),
        settle_one(kind, ctx, run, id, index) is Ok,
    ensures
        settle_one(kind, ctx, run, id, index)->Ok_0.store.sound(),
        settle_one(kind, ctx, run, id, index)->Ok_0.store.next_id() == run.store.next_id(),
        forall|to: Address| #[trigger]
            settle_one(kind, ctx, run, id, index)->Ok_0.store.list_of(to).len()
                == run.store.list_of(to).len(),
        forall|other: u32|
            other != id ==> #[trigger] settle_one(kind, ctx, run, id, index)->Ok_0.store.lookup(
                other,
            ) == run.store.lookup(other),
        settle_one(kind, ctx, run, id, index)->Ok_0.store.lookup(id) == match run.store.lookup(
            id,
        ) {
            Some(e) => if kind.due(e, ctx.sequence) {
                Some(kind.settled(e))
            } else {
                Some(e)
            },
            None => None,
        },
{
    lemma_lookup(run.store, id);
    if let Ok(place) = run.store.locate(id, Abort::RecipientNotFound) {
        let e = place.escrow;
        if kind.due(e, ctx.sequence) {
            lemma_replace(run.store, place, kind.settled(e));
        }
    }
}

/// A chunk keeps the entries sound. Of the escrows among its ids it settles
/// those that can be settled; all others it leaves as they are.
pub proof fn lemma_settle_run(
    kind: Settlement,
    store: StoreView,
    ctx: Context,
    ids: Seq<u32>,
    start: int,
    n: nat,
)
    requires
        store.sound(),
        0 <= start,
        start + n <= ids.len(),
        settle_run(kind, store, ctx, ids, start, n) is Ok,
    ensures
        ({
            let run = settle_run(kind, store, ctx, ids, start, n)->Ok_0;
            &&& run.store.sound()
            &&& run.store.next_id() == store.next_id()
            &&& run.results.len() == n
            &&& forall|to: Address| #[trigger]
                run.store.list_of(to).len() == store.list_of(to).len()
            &&& forall|id: u32| #[trigger]
                run.store.lookup(id) == match store.lookup(id) {
                    Some(e) => if ids.subrange(start, start + n).contains(id) && kind.due(
                        e,
                        ctx.sequence,
                    ) {
                        Some(kind.settled(e))
                    } else {
                        Some(e)
                    },
                    None => None,
                }
        }),
    decreases n,
{
    let run = settle_run(kind, store, ctx, ids, start, n)->Ok_0;
    if n == 0 {
        assert(ids.subrange(start, start + n) =~= Seq::empty());
    } else {
        let m = (n - 1) as nat;
        lemma_settle_run(kind, store, ctx, ids, start, m);
        let before = settle_run(kind, store, ctx, ids, start, m)->Ok_0;
        let last = ids[start + n - 1];
        let index = (start + n - 1) as u32;
        lemma_settle_one(kind, ctx, before, last, index);
        let earlier = ids.subrange(start, start + m);
        let chunk = ids.subrange(start, start + n);
        assert(chunk =~= earlier.push(last));
        assert forall|id: u32| #[trigger] chunk.contains(id) <==> earlier.contains(id) || id
            == last by {
            if chunk.contains(id) {
                let i = choose|i: int| 0 <= i < chunk.len() && chunk[i] == id;
                if i < earlier.len() {
                    assert(earlier[i] == id);
                }
            }
            if earlier.contains(id) {
                let i = choose|i: int| 0 <= i < earlier.len() && earlier[i] == id;
                assert(chunk[i] == id);
            }
            assert(chunk[chunk.len() - 1] == last);
        }
        assert forall|id: u32| #[trigger] run.store.lookup(id) == match store.lookup(id) {
            Some(e) => if chunk.contains(id) && kind.due(e, ctx.sequence) {
                Some(kind.settled(e))
            } else {
                Some(e)
            },
            None => None,
        } by {
            assert(chunk.contains(id) <==> earlier.contains(id) || id == last);
            assert(before.store.lookup(id) == match store.lookup(id) {
                Some(e) => if earlier.contains(id) && kind.due(e, ctx.sequence) {
                    Some(kind.settled(e))
                } else {
                    Some(e)
                },
                None => None,
            });
        }
        assert forall|to: Address| #[trigger] run.store.list_of(to).len() == store.list_of(
            to,
        ).len() by {
            assert(before.store.list_of(to).len() == store.list_of(to).len());
        }
    }
}

} // verus!
