//! Working through a batch chunk by chunk.
use crate::abort::Abort;
use crate::batch_outcome::lemma_settle_run;
use crate::batch_settle::{
    batch_settle_rule, chunk_end, chunk_start, settle_one, settle_run, settled_so_far, Settlement,
};
use crate::laws::lemma_chunk;
use crate::soundness::lemma_lookup;
use crate::store::StoreView;
use crate::types::{Address, BatchClaimResult, Context};
use vstd::prelude::*;

verus! {

/// A cursor starts where it was asked to, unless that lies beyond the batch,
/// covers its chunk once, id by id, and moves forward until the batch is done.
pub proof fn law_cursor_moves_on(
    kind: Settlement,
    store: StoreView,
    ctx: Context,
    ids: Seq<u32>,
    start_index: u32,
    max_items: u32,
)
    requires
        store.sound(),
        ids.len() <= u32::MAX,
        ctx.limits.batch_escrow_cursor_step > 0,
        batch_settle_rule(kind, store, ctx, ids, start_index, max_items) is Ok,
    ensures
        ({
            let cursor = batch_settle_rule(
                kind,
                store,
                ctx,
                ids,
                start_index,
                max_items,
            )->Ok_0.value;
            &&& start_index <= ids.len() ==> cursor.start_index == start_index
            &&& start_index > ids.len() ==> cursor.start_index == ids.len()
            &&& cursor.results.len() == cursor.next_index - cursor.start_index
            &&& cursor.next_index <= ids.len()
            &&& cursor.done <==> cursor.next_index == ids.len()
            &&& !cursor.done ==> cursor.next_index > cursor.start_index
            &&& 0 < max_items <= ctx.limits.batch_escrow_cursor_step ==> cursor.results.len()
                <= max_items
            &&& cursor.results.len() <= ctx.limits.batch_escrow_cursor_step
        }),
{
    lemma_chunk(ctx, ids.len(), start_index, max_items);
    let start = chunk_start(ids.len(), start_index);
    let n = (chunk_end(ctx, ids.len(), start_index, max_items) - start) as nat;
    lemma_settle_run(kind, store, ctx, ids, start, n);
}

/// What a chunk answers for an id: the amount paid, where its escrow could be
/// settled and had not been settled earlier in the chunk; else that the id was
/// skipped.
pub open spec fn chunk_answer(
    kind: Settlement,
    store: StoreView,
    ctx: Context,
    ids: Seq<u32>,
    start: int,
    i: int,
) -> BatchClaimResult {
    match store.lookup(ids[i]) {
        Some(e) => if kind.due(e, ctx.sequence) && !ids.subrange(start, i).contains(ids[i]) {
            BatchClaimResult::Success(e.amount)
        } else {
            BatchClaimResult::Skipped(i as u32)
        },
        None => BatchClaimResult::Skipped(i as u32),
    }
}

/// A chunk pays each id whose escrow can be settled, once however often the id
/// occurs, and skips all others.
pub proof fn law_chunk_answers(
    kind: Settlement,
    store: StoreView,
    ctx: Context,
    ids: Seq<u32>,
    start: int,
    n: nat,
)
    requires
        store.sound(),
        0 <= start,
        start + n <= ids.len(),
        settle_run(kind, store, ctx, ids, start, n) is Ok,
    ensures
        ({
            let results = settle_run(kind, store, ctx, ids, start, n)->Ok_0.results;
            &&& results.len() == n
            &&& forall|k: int|
                0 <= k < n ==> #[trigger] results[k] == chunk_answer(
                    kind,
                    store,
                    ctx,
                    ids,
                    start,
                    start + k,
                )
        }),
    decreases n,
{
    if n > 0 {
        let m = (n - 1) as nat;
        law_chunk_answers(kind, store, ctx, ids, start, m);
        lemma_settle_run(kind, store, ctx, ids, start, m);
        let before = settle_run(kind, store, ctx, ids, start, m)->Ok_0;
        let run = settle_run(kind, store, ctx, ids, start, n)->Ok_0;
        let id = ids[start + m];
        assert(before.store.lookup(id) == match store.lookup(id) {
            Some(e) => if ids.subrange(start, start + m).contains(id) && kind.due(
                e,
                ctx.sequence,
            ) {
                Some(kind.settled(e))
            } else {
                Some(e)
            },
            None => None,
        });
        lemma_lookup(before.store, id);
        assert forall|k: int| 0 <= k < n implies #[trigger] run.results[k] == chunk_answer(
            kind,
            store,
            ctx,
            ids,
            start,
            start + k,
        ) by {
            if k < m {
                assert(run.results[k] == before.results[k]);
            }
        }
    }
}

/// A chunk can be cut in two.
#[verifier::rlimit(40)]
proof fn lemma_chunk_split(
    kind: Settlement,
    store: StoreView,
    ctx: Context,
    ids: Seq<u32>,
    start: int,
    first: nat,
    second: nat,
)
    requires
        store.sound(),
        0 <= start,
        start + first + second <= ids.len(),
        settle_run(kind, store, ctx, ids, start, first + second) is Ok,
    ensures
        settle_run(kind, store, ctx, ids, start, first) matches Ok(one) && (settle_run(
            kind,
            one.store,
            ctx,
            ids,
            start + first,
            second,
        ) matches Ok(two) && {
            let whole = settle_run(kind, store, ctx, ids, start, first + second)->Ok_0;
            &&& one.store.sound()
            &&& two.store == whole.store
            &&& whole.results == one.results + two.results
            &&& forall|token: Address|
                0 <= settled_so_far(one.totals, token) && 0 <= settled_so_far(two.totals, token)
                    && #[trigger] settled_so_far(whole.totals, token) == settled_so_far(
                    one.totals,
                    token,
                ) + settled_so_far(two.totals, token)
        }),
    decreases second,
{
    if second == 0 {
        lemma_settle_run(kind, store, ctx, ids, start, first);
        lemma_totals(kind, store, ctx, ids, start, first);
        let one = settle_run(kind, store, ctx, ids, start, first)->Ok_0;
        assert(one.results + Seq::<BatchClaimResult>::empty() =~= one.results);
    } else {
        let m = (second - 1) as nat;
        assert(first + m == (first + second) - 1);
        lemma_chunk_split(kind, store, ctx, ids, start, first, m);
        let one = settle_run(kind, store, ctx, ids, start, first)->Ok_0;
        let two = settle_run(kind, one.store, ctx, ids, start + first, m)->Ok_0;
        let part = settle_run(kind, store, ctx, ids, start, first + m)->Ok_0;
        lemma_settle_run(kind, one.store, ctx, ids, start + first, m);
        let id = ids[start + first + m];
        let index = (start + first + m) as u32;
        lemma_lookup(two.store, id);
        if let Ok(place) = two.store.locate(id, Abort::RecipientNotFound) {
            assert(settled_so_far(part.totals, place.escrow.token) == settled_so_far(
                one.totals,
                place.escrow.token,
            ) + settled_so_far(two.totals, place.escrow.token));
        }
        let whole = settle_one(kind, ctx, part, id, index)->Ok_0;
        assert(settle_one(kind, ctx, two, id, index) is Ok);
        let last = settle_one(kind, ctx, two, id, index)->Ok_0;
        assert(whole.results =~= one.results + last.results);
        assert forall|token: Address|
            0 <= settled_so_far(one.totals, token) && 0 <= settled_so_far(last.totals, token)
                && #[trigger] settled_so_far(whole.totals, token) == settled_so_far(
                one.totals,
                token,
            ) + settled_so_far(last.totals, token) by {
            assert(settled_so_far(part.totals, token) == settled_so_far(one.totals, token)
                + settled_so_far(two.totals, token));
        }
    }
}

/// What a chunk pays of any token is not negative.
proof fn lemma_totals(
    kind: Settlement,
    store: StoreView,
    ctx: Context,
    ids: Seq<u32>,
    start: int,
    n: nat,
)
    requires
        store.sound(),
        0 <= start,
        start + n <= ids.len(),
        settle_run(kind, store, ctx, ids, start, n) is Ok,
    ensures
        forall|token: Address| #[trigger]
            settled_so_far(settle_run(kind, store, ctx, ids, start, n)->Ok_0.totals, token) >= 0,
    decreases n,
{
    if n > 0 {
        let m = (n - 1) as nat;
        lemma_totals(kind, store, ctx, ids, start, m);
        lemma_settle_run(kind, store, ctx, ids, start, m);
        let before = settle_run(kind, store, ctx, ids, start, m)->Ok_0;
        let run = settle_run(kind, store, ctx, ids, start, n)->Ok_0;
        lemma_lookup(before.store, ids[start + m]);
        assert forall|token: Address| #[trigger] settled_so_far(run.totals, token) >= 0 by {
            assert(settled_so_far(before.totals, token) >= 0);
        }
    }
}

/// How a batch is cut into chunks makes no difference: a chunk and the one after
/// it answer and leave behind what one chunk over both would.
pub proof fn law_chunks_join(
    kind: Settlement,
    store: StoreView,
    ctx: Context,
    ids: Seq<u32>,
    start: int,
    first: nat,
    second: nat,
)
    requires
        store.sound(),
        0 <= start,
        start + first + second <= ids.len(),
        settle_run(kind, store, ctx, ids, start, first + second) is Ok,
    ensures
        settle_run(kind, store, ctx, ids, start, first) matches Ok(one) && (settle_run(
            kind,
            one.store,
            ctx,
            ids,
            start + first,
            second,
        ) matches Ok(two) && {
            let whole = settle_run(kind, store, ctx, ids, start, first + second)->Ok_0;
            &&& two.store == whole.store
            &&& whole.results == one.results + two.results
        }),
{
    lemma_chunk_split(kind, store, ctx, ids, start, first, second);
}

} // verus!
