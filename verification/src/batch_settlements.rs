//! What a batch of claims or cancellations settles, and who gets what.
use crate::abort::Abort;
use crate::accounts::{
    announced, becomes, group_accounts, law_lookup_finds_the_listed, lemma_asks, lemma_becomes,
    paid_out, signers, taken,
};
use crate::action::{apply, ActionView, Event};
use crate::batch_outcome::{lemma_batch_settle, lemma_settle_run};
use crate::batch_settle::{
    batch_settle_rule, chunk_end, chunk_start, settle_one, settle_run, settled_so_far, unlock_all,
    RunView, Settlement,
};
use crate::flows::{lemma_listed_amount, lemma_unlock_flow, locking};
use crate::history::{trace_of, Call};
use crate::outcomes::{
    law_cancel_until_the_release_ledger, law_claim_from_the_release_ledger_on, switched_on,
};
use crate::soundness::lemma_lookup;
use crate::store::StoreView;
use crate::tally::{
    lemma_listing, lemma_listing_unique, lemma_with_entry, listing, lists_totals, with_entry,
};
use crate::types::{Address, BatchClaimResult, Context, EscrowStatus, EscrowView};
use vstd::prelude::*;

verus! {

/// Whether a batch settles an escrow: it claims a pending plain escrow from its
/// release ledger on, and cancels a pending one before its release ledger.
pub open spec fn settleable(kind: Settlement, e: EscrowView, sequence: u32) -> bool {
    &&& e.status == EscrowStatus::Pending
    &&& kind is Claim ==> !e.is_milestone_based && e.release_ledger <= sequence
    &&& kind is Cancel ==> sequence < e.release_ledger
}

/// Who gets the amount of a settled escrow: the recipient of a claimed one, the
/// payer of a cancelled one.
pub open spec fn beneficiary(kind: Settlement, e: EscrowView) -> Address {
    if kind is Claim {
        e.to
    } else {
        e.from
    }
}

/// What a settled escrow becomes.
pub open spec fn closed_state(kind: Settlement, e: EscrowView) -> EscrowView {
    if kind is Claim {
        EscrowView { status: EscrowStatus::Released, ..e }
    } else {
        EscrowView { status: EscrowStatus::Cancelled, ..e }
    }
}

/// What a chunk pays for an id of the batch: the whole amount of its escrow,
/// where it can be settled and the id did not occur earlier in the chunk.
pub open spec fn payment(
    kind: Settlement,
    store: StoreView,
    ctx: Context,
    ids: Seq<u32>,
    start: int,
    i: int,
) -> Option<EscrowView> {
    match store.lookup(ids[i]) {
        Some(e) => if settleable(kind, e, ctx.sequence) && !ids.subrange(start, i).contains(
            ids[i],
        ) {
            Some(e)
        } else {
            None
        },
        None => None,
    }
}

/// What the first `n` ids of a chunk are paid in all tokens together.
pub open spec fn chunk_total(
    kind: Settlement,
    store: StoreView,
    ctx: Context,
    ids: Seq<u32>,
    start: int,
    n: nat,
) -> int
    decreases n,
{
    if n == 0 {
        0
    } else {
        chunk_total(kind, store, ctx, ids, start, (n - 1) as nat) + match payment(
            kind,
            store,
            ctx,
            ids,
            start,
            start + n - 1,
        ) {
            Some(e) => e.amount as int,
            None => 0,
        }
    }
}

/// What the first `n` ids of a chunk are paid in a token.
pub open spec fn chunk_token(
    kind: Settlement,
    store: StoreView,
    ctx: Context,
    ids: Seq<u32>,
    start: int,
    n: nat,
    token: Address,
) -> int
    decreases n,
{
    if n == 0 {
        0
    } else {
        chunk_token(kind, store, ctx, ids, start, (n - 1) as nat, token) + match payment(
            kind,
            store,
            ctx,
            ids,
            start,
            start + n - 1,
        ) {
            Some(e) => if e.token == token {
                e.amount as int
            } else {
                0
            },
            None => 0,
        }
    }
}

/// What the first `n` ids of a chunk bring to an address in a token.
pub open spec fn chunk_party(
    kind: Settlement,
    store: StoreView,
    ctx: Context,
    ids: Seq<u32>,
    start: int,
    n: nat,
    token: Address,
    who: Address,
) -> int
    decreases n,
{
    if n == 0 {
        0
    } else {
        chunk_party(kind, store, ctx, ids, start, (n - 1) as nat, token, who) + match payment(
            kind,
            store,
            ctx,
            ids,
            start,
            start + n - 1,
        ) {
            Some(e) => if e.token == token && beneficiary(kind, e) == who {
                e.amount as int
            } else {
                0
            },
            None => 0,
        }
    }
}

/// Whom the first `n` ids of a chunk are paid to, in order.
pub open spec fn chunk_payees(
    kind: Settlement,
    store: StoreView,
    ctx: Context,
    ids: Seq<u32>,
    start: int,
    n: nat,
) -> Seq<Address>
    decreases n,
{
    if n == 0 {
        Seq::empty()
    } else {
        let before = chunk_payees(kind, store, ctx, ids, start, (n - 1) as nat);
        match payment(kind, store, ctx, ids, start, start + n - 1) {
            Some(e) => before.push(beneficiary(kind, e)),
            None => before,
        }
    }
}

/// Whether the entries differ in the settled escrows of a chunk only: of the
/// escrows with these ids, those that can be settled are closed, and everything
/// else is as it was.
pub open spec fn closes(
    kind: Settlement,
    store: StoreView,
    after: StoreView,
    sequence: u32,
    chunk: Seq<u32>,
) -> bool {
    &&& after.recipients == store.recipients
    &&& after.count == store.count
    &&& after.arbitrators == store.arbitrators
    &&& after.arbitrator_count == store.arbitrator_count
    &&& after.lists.dom() == store.lists.dom()
    &&& forall|to: Address|
        store.lists.contains_key(to) ==> (#[trigger] after.lists[to]).len()
            == store.lists[to].len()
    &&& forall|to: Address, i: int|
        store.lists.contains_key(to) && 0 <= i < store.lists[to].len()
            ==> #[trigger] after.lists[to][i] == (if chunk.contains(store.lists[to][i].id)
            && settleable(kind, store.lists[to][i], sequence) {
            closed_state(kind, store.lists[to][i])
        } else {
            store.lists[to][i]
        })
}

/// What the entries of a listing add up to.
pub open spec fn listing_sum(entries: Seq<(Address, i128)>) -> int
    decreases entries.len(),
{
    if entries.len() == 0 {
        0
    } else {
        listing_sum(entries.drop_last()) + entries.last().1
    }
}

/// Changing one entry changes the sum by as much.
proof fn lemma_sum_update(entries: Seq<(Address, i128)>, i: int, x: (Address, i128))
    requires
        0 <= i < entries.len(),
    ensures
        listing_sum(entries.update(i, x)) == listing_sum(entries) - entries[i].1 + x.1,
    decreases entries.len(),
{
    let init = entries.drop_last();
    if i == entries.len() - 1 {
        assert(entries.update(i, x).drop_last() =~= init);
    } else {
        lemma_sum_update(init, i, x);
        assert(entries.update(i, x).drop_last() =~= init.update(i, x));
    }
}

/// One more entry adds its amount to the sum.
proof fn lemma_sum_with_entry(s: Seq<(Address, i128)>, x: (Address, i128))
    ensures
        listing_sum(with_entry(s, x)) == listing_sum(s) + x.1,
    decreases s.len(),
{
    let t = with_entry(s, x);
    if s.len() == 0 || s.last().0.before(x.0) {
        assert(t.drop_last() =~= s);
    } else {
        lemma_sum_with_entry(s.drop_last(), x);
        assert(t.drop_last() =~= with_entry(s.drop_last(), x));
    }
}

/// Raising the total of one token raises the sum of all by as much.
proof fn lemma_sum_insert(totals: Map<Address, i128>, token: Address, total: i128)
    requires
        totals.dom().finite(),
    ensures
        listing_sum(listing(totals.insert(token, total))) == listing_sum(listing(totals))
            - settled_so_far(totals, token) + total,
{
    let s = listing(totals);
    let more = totals.insert(token, total);
    lemma_listing(totals);
    lemma_listing(more);
    if totals.contains_key(token) {
        let i = choose|i: int| 0 <= i < s.len() && (#[trigger] s[i]).0 == token;
        let t = s.update(i, (token, total));
        assert(lists_totals(t, more)) by {
            assert forall|j: int, k: int| 0 <= j < k < t.len() implies (#[trigger] t[j]).0.before(
                (#[trigger] t[k]).0,
            ) by {
                assert(s[j].0.before(s[k].0));
            }
            assert forall|j: int| 0 <= j < t.len() implies more.contains_key((#[trigger] t[j]).0)
                && more[t[j].0] == t[j].1 by {
                assert(totals.contains_key(s[j].0));
                if j < i {
                    assert(s[j].0.before(s[i].0));
                } else if i < j {
                    assert(s[i].0.before(s[j].0));
                }
            }
            assert forall|a: Address| #[trigger] more.contains_key(a) implies exists|j: int|
                0 <= j < t.len() && (#[trigger] t[j]).0 == a by {
                assert(totals.contains_key(a));
                let j = choose|j: int| 0 <= j < s.len() && (#[trigger] s[j]).0 == a;
                assert(t[j].0 == a);
            }
        }
        lemma_listing_unique(t, listing(more), more);
        lemma_sum_update(s, i, (token, total));
        assert(totals[s[i].0] == s[i].1);
    } else {
        lemma_with_entry(s, (token, total), totals);
        lemma_listing_unique(with_entry(s, (token, total)), listing(more), more);
        lemma_sum_with_entry(s, (token, total));
    }
}

/// What is paid in one token is not negative and no more than what is paid in all.
proof fn lemma_chunk_parts(
    kind: Settlement,
    store: StoreView,
    ctx: Context,
    ids: Seq<u32>,
    start: int,
    n: nat,
    token: Address,
)
    requires
        store.sound(),
        0 <= start,
        start + n <= ids.len(),
    ensures
        0 <= chunk_token(kind, store, ctx, ids, start, n, token) <= chunk_total(
            kind,
            store,
            ctx,
            ids,
            start,
            n,
        ),
    decreases n,
{
    if n > 0 {
        lemma_chunk_parts(kind, store, ctx, ids, start, (n - 1) as nat, token);
        lemma_lookup(store, ids[start + n - 1]);
    }
}

/// The step of a chunk for one more id: it pays and closes exactly where the
/// escrow can be settled.
#[verifier::rlimit(60)]
#[verifier::spinoff_prover]
proof fn lemma_step(
    kind: Settlement,
    ctx: Context,
    run: RunView,
    id: u32,
    index: u32,
)
    requires
        run.store.sound(),
        settle_one(kind, ctx, run, id, index) is Ok,
    ensures
        ({
            let next = settle_one(kind, ctx, run, id, index)->Ok_0;
            match run.store.lookup(id) {
                Some(e) if settleable(kind, e, ctx.sequence) => {
                    &&& next.results == run.results.push(BatchClaimResult::Success(e.amount))
                    &&& next.totals == run.totals.insert(
                        e.token,
                        (settled_so_far(run.totals, e.token) + e.amount) as i128,
                    )
                    &&& settled_so_far(run.totals, e.token) + e.amount <= i128::MAX
                    &&& becomes(run.store, next.store, id, closed_state(kind, e))
                    &&& signers(next.trace) == signers(run.trace).push(beneficiary(kind, e))
                    &&& forall|t: Address, who: Address| #[trigger]
                        paid_out(next.trace, t, who) == paid_out(run.trace, t, who) + if t
                            == e.token && who == beneficiary(kind, e) {
                            e.amount as int
                        } else {
                            0
                        }
                },
                _ => {
                    &&& next.results == run.results.push(BatchClaimResult::Skipped(index))
                    &&& next.totals == run.totals
                    &&& next.store == run.store
                    &&& signers(next.trace) == signers(run.trace)
                    &&& forall|t: Address, who: Address| #[trigger]
                        paid_out(next.trace, t, who) == paid_out(run.trace, t, who)
                },
            }
        }),
        ({
            let next = settle_one(kind, ctx, run, id, index)->Ok_0;
            &&& announced(next.trace) == announced(run.trace)
            &&& forall|t: Address, who: Address| #[trigger]
                taken(next.trace, t, who) == taken(run.trace, t, who)
            &&& forall|t: Address| #[trigger] locking(next.trace, t) == locking(run.trace, t)
        }),
{
    broadcast use group_accounts;

    lemma_lookup(run.store, id);
    if let Ok(place) = run.store.locate(id, Abort::RecipientNotFound) {
        lemma_becomes(run.store, id, closed_state(kind, place.escrow));
    }
}

/// What holds of a chunk that has gone through its first `n` ids.
spec fn accounted(
    kind: Settlement,
    store: StoreView,
    ctx: Context,
    ids: Seq<u32>,
    start: int,
    n: nat,
    run: RunView,
) -> bool {
    &&& run.results.len() == n
    &&& forall|k: int|
        0 <= k < n ==> #[trigger] run.results[k] == (match payment(
            kind,
            store,
            ctx,
            ids,
            start,
            start + k,
        ) {
            Some(e) => BatchClaimResult::Success(e.amount),
            None => BatchClaimResult::Skipped((start + k) as u32),
        })
    &&& closes(kind, store, run.store, ctx.sequence, ids.subrange(start, start + n))
    &&& signers(run.trace) == chunk_payees(kind, store, ctx, ids, start, n)
    &&& announced(run.trace) == Seq::<Event>::empty()
    &&& forall|t: Address, who: Address| #[trigger]
        paid_out(run.trace, t, who) == chunk_party(kind, store, ctx, ids, start, n, t, who)
    &&& forall|t: Address, who: Address| #[trigger] taken(run.trace, t, who) == 0
    &&& forall|t: Address| #[trigger] locking(run.trace, t) == 0
    &&& run.totals.dom().finite()
    &&& forall|t: Address| #[trigger]
        settled_so_far(run.totals, t) == chunk_token(kind, store, ctx, ids, start, n, t)
    &&& listing_sum(listing(run.totals)) == chunk_total(kind, store, ctx, ids, start, n)
}

/// Closing one more escrow keeps the account of what is closed.
proof fn lemma_closes_more(
    kind: Settlement,
    store: StoreView,
    before: StoreView,
    after: StoreView,
    sequence: u32,
    chunk: Seq<u32>,
    id: u32,
)
    requires
        store.sound(),
        before.sound(),
        closes(kind, store, before, sequence, chunk),
        match before.lookup(id) {
            Some(e) if settleable(kind, e, sequence) => becomes(
                before,
                after,
                id,
                closed_state(kind, e),
            ),
            _ => after == before,
        },
    ensures
        closes(kind, store, after, sequence, chunk.push(id)),
{
    let more = chunk.push(id);
    assert forall|x: u32| #[trigger] more.contains(x) <==> chunk.contains(x) || x == id by {
        if more.contains(x) {
            let j = choose|j: int| 0 <= j < more.len() && more[j] == x;
            if j < chunk.len() {
                assert(chunk[j] == x);
            }
        }
        if chunk.contains(x) {
            let j = choose|j: int| 0 <= j < chunk.len() && chunk[j] == x;
            assert(more[j] == x);
        }
        assert(more[chunk.len() as int] == id);
    }
    law_lookup_finds_the_listed(before, id);
    assert forall|to: Address| store.lists.contains_key(to) implies (
    #[trigger] after.lists[to]).len() == store.lists[to].len() by {
        assert(before.lists.dom().contains(to));
        assert(before.lists[to].len() == store.lists[to].len());
    }
    assert forall|to: Address, i: int|
        store.lists.contains_key(to) && 0 <= i
            < store.lists[to].len() implies #[trigger] after.lists[to][i]
        == (if more.contains(store.lists[to][i].id) && settleable(
        kind,
        store.lists[to][i],
        sequence,
    ) {
        closed_state(kind, store.lists[to][i])
    } else {
        store.lists[to][i]
    }) by {
        let x = store.lists[to][i];
        assert(before.lists.dom().contains(to));
        assert(before.lists[to].len() == store.lists[to].len());
        let y = before.lists[to][i];
        assert(y == (if chunk.contains(x.id) && settleable(kind, x, sequence) {
            closed_state(kind, x)
        } else {
            x
        }));
        assert(y.id == x.id);
        if y.id == id {
            assert(before.lookup(id) == Some(y));
        }
    }
}

/// A chunk that goes through keeps its accounts.
#[verifier::rlimit(60)]
#[verifier::spinoff_prover]
proof fn lemma_run_accounts(
    kind: Settlement,
    store: StoreView,
    ctx: Context,
    ids: Seq<u32>,
    start: int,
    n: nat,
)
    requires
        store.sound(),
        0 <= start,
        start + n <= ids.len() <= u32::MAX,
        settle_run(kind, store, ctx, ids, start, n) is Ok,
    ensures
        accounted(
            kind,
            store,
            ctx,
            ids,
            start,
            n,
            settle_run(kind, store, ctx, ids, start, n)->Ok_0,
        ),
    decreases n,
{
    let run = settle_run(kind, store, ctx, ids, start, n)->Ok_0;
    if n == 0 {
        assert(ids.subrange(start, start) =~= Seq::empty());
        lemma_listing(run.totals);
        let entries = listing(run.totals);
        if entries.len() > 0 {
            assert(run.totals.contains_key(entries[0].0));
        }
        lemma_asks(store, 0, arbitrary());
    } else {
        let m = (n - 1) as nat;
        lemma_run_accounts(kind, store, ctx, ids, start, m);
        lemma_settle_run(kind, store, ctx, ids, start, m);
        let before = settle_run(kind, store, ctx, ids, start, m)->Ok_0;
        let i = start + m;
        let id = ids[i];
        let earlier = ids.subrange(start, i);
        assert(ids.subrange(start, start + n) =~= earlier.push(id));
        lemma_step(kind, ctx, before, id, i as u32);
        lemma_closes_more(kind, store, before.store, run.store, ctx.sequence, earlier, id);
        lemma_lookup(store, id);
        let paid = payment(kind, store, ctx, ids, start, i);
        assert(before.store.lookup(id) == match store.lookup(id) {
            Some(e) => if earlier.contains(id) && kind.due(e, ctx.sequence) {
                Some(kind.settled(e))
            } else {
                Some(e)
            },
            None => None,
        });
        assert(paid == match before.store.lookup(id) {
            Some(e) if settleable(kind, e, ctx.sequence) => Some(e),
            _ => None,
        });
        if let Some(e) = paid {
            lemma_sum_insert(
                before.totals,
                e.token,
                (settled_so_far(before.totals, e.token) + e.amount) as i128,
            );
            lemma_chunk_parts(kind, store, ctx, ids, start, m, e.token);
            assert forall|t: Address| #[trigger] settled_so_far(run.totals, t) == chunk_token(
                kind,
                store,
                ctx,
                ids,
                start,
                n,
                t,
            ) by {
                assert(settled_so_far(before.totals, t) == chunk_token(
                    kind,
                    store,
                    ctx,
                    ids,
                    start,
                    m,
                    t,
                ));
            }
        }
        assert forall|k: int| 0 <= k < n implies #[trigger] run.results[k] == (match payment(
            kind,
            store,
            ctx,
            ids,
            start,
            start + k,
        ) {
            Some(e) => BatchClaimResult::Success(e.amount),
            None => BatchClaimResult::Skipped((start + k) as u32),
        }) by {
            if k < m {
                assert(run.results[k] == before.results[k]);
            }
        }
    }
}

/// A chunk goes through if what it pays can be added up.
proof fn lemma_run_completes(
    kind: Settlement,
    store: StoreView,
    ctx: Context,
    ids: Seq<u32>,
    start: int,
    n: nat,
)
    requires
        store.sound(),
        0 <= start,
        start + n <= ids.len() <= u32::MAX,
        chunk_total(kind, store, ctx, ids, start, n) <= i128::MAX,
    ensures
        settle_run(kind, store, ctx, ids, start, n) is Ok,
    decreases n,
{
    if n > 0 {
        let m = (n - 1) as nat;
        let i = start + m;
        let id = ids[i];
        lemma_lookup(store, id);
        lemma_run_completes(kind, store, ctx, ids, start, m);
        lemma_run_accounts(kind, store, ctx, ids, start, m);
        lemma_settle_run(kind, store, ctx, ids, start, m);
        let before = settle_run(kind, store, ctx, ids, start, m)->Ok_0;
        lemma_lookup(before.store, id);
        let earlier = ids.subrange(start, i);
        assert(before.store.lookup(id) == match store.lookup(id) {
            Some(e) => if earlier.contains(id) && kind.due(e, ctx.sequence) {
                Some(kind.settled(e))
            } else {
                Some(e)
            },
            None => None,
        });
        if let Some(e) = before.store.lookup(id) {
            lemma_chunk_parts(kind, store, ctx, ids, start, m, e.token);
            assert(settled_so_far(before.totals, e.token) == chunk_token(
                kind,
                store,
                ctx,
                ids,
                start,
                m,
                e.token,
            ));
        }
    }
}

/// Unlocking adds up the listed amounts, and asks, moves and announces nothing.
proof fn lemma_unlock_accounts(before: Seq<ActionView>, entries: Seq<(Address, i128)>)
    ensures
        unlock_all(before, entries) matches Ok(unlocked) ==> {
            &&& unlocked.value == listing_sum(entries)
            &&& unlocked.value <= i128::MAX
            &&& signers(unlocked.trace) == signers(before)
            &&& announced(unlocked.trace) == announced(before)
            &&& forall|t: Address, who: Address| #[trigger]
                paid_out(unlocked.trace, t, who) == paid_out(before, t, who)
            &&& forall|t: Address, who: Address| #[trigger]
                taken(unlocked.trace, t, who) == taken(before, t, who)
        },
        (forall|i: int| 0 <= i < entries.len() ==> (#[trigger] entries[i]).1 >= 0) ==> {
            &&& listing_sum(entries) >= 0
            &&& listing_sum(entries) <= i128::MAX ==> unlock_all(before, entries) is Ok
        },
    decreases entries.len(),
{
    broadcast use group_accounts;

    if entries.len() > 0 {
        let init = entries.drop_last();
        lemma_unlock_accounts(before, init);
        if forall|i: int| 0 <= i < entries.len() ==> (#[trigger] entries[i]).1 >= 0 {
            assert forall|i: int| 0 <= i < init.len() implies (#[trigger] init[i]).1 >= 0 by {
                assert(entries[i].1 >= 0);
            }
            assert(entries[entries.len() - 1].1 >= 0);
        }
    }
}

/// A chunk stops for one reason only.
proof fn lemma_run_stops(
    kind: Settlement,
    store: StoreView,
    ctx: Context,
    ids: Seq<u32>,
    start: int,
    n: nat,
)
    ensures
        settle_run(kind, store, ctx, ids, start, n) matches Err(halt) ==> halt.reason
            == Abort::Overflow,
    decreases n,
{
    if n > 0 {
        lemma_run_stops(kind, store, ctx, ids, start, (n - 1) as nat);
    }
}

/// So does unlocking.
proof fn lemma_unlock_stops(before: Seq<ActionView>, entries: Seq<(Address, i128)>)
    ensures
        unlock_all(before, entries) matches Err(halt) ==> halt.reason == Abort::Overflow,
    decreases entries.len(),
{
    if entries.len() > 0 {
        lemma_unlock_stops(before, entries.drop_last());
    }
}

/// The number of items that a chunk has at most.
pub open spec fn chunk_size(ctx: Context, max_items: u32) -> int {
    if 0 < max_items <= ctx.limits.batch_escrow_cursor_step {
        max_items as int
    } else {
        ctx.limits.batch_escrow_cursor_step as int
    }
}

/// Where a chunk begins.
pub open spec fn chunk_from(len: nat, start_index: u32) -> int {
    if start_index <= len {
        start_index as int
    } else {
        len as int
    }
}

/// Where a chunk ends.
pub open spec fn chunk_to(ctx: Context, len: nat, start_index: u32, max_items: u32) -> int {
    let end = chunk_from(len, start_index) + chunk_size(ctx, max_items);
    if end <= len {
        end
    } else {
        len as int
    }
}

/// A batch of claims or cancellations completes exactly where calls are let in,
/// the end of the chunk can be computed, and what it pays can be added up. It
/// answers for every id of the chunk, in order, the whole amount where the escrow
/// can be settled, once however often the id occurs, and else that the id is
/// skipped. Exactly the escrows that can be settled are closed. Their
/// beneficiaries are asked, one by one, and get exactly the amounts, which are
/// unlocked; and the chunk and its total are announced.
#[verifier::rlimit(60)]
#[verifier::spinoff_prover]
pub proof fn law_batch_settles_what_can_be_settled(
    kind: Settlement,
    store: StoreView,
    ctx: Context,
    ids: Seq<u32>,
    start_index: u32,
    max_items: u32,
)
    requires
        store.sound(),
        ids.len() <= u32::MAX,
    ensures
        ({
            let start = chunk_from(ids.len(), start_index);
            let end = chunk_to(ctx, ids.len(), start_index, max_items);
            let n = (end - start) as nat;
            let total = chunk_total(kind, store, ctx, ids, start, n);
            let result = batch_settle_rule(kind, store, ctx, ids, start_index, max_items);
            &&& result is Ok <==> switched_on(ctx) && start + chunk_size(ctx, max_items)
                <= u32::MAX && total <= i128::MAX
            &&& result matches Ok(reply) ==> {
                &&& reply.value.start_index == start
                &&& reply.value.next_index == end
                &&& reply.value.done <==> end == ids.len()
                &&& reply.value.results.len() == n
                &&& forall|k: int|
                    0 <= k < n ==> #[trigger] reply.value.results[k] == (match payment(
                        kind,
                        store,
                        ctx,
                        ids,
                        start,
                        start + k,
                    ) {
                        Some(e) => BatchClaimResult::Success(e.amount),
                        None => BatchClaimResult::Skipped((start + k) as u32),
                    })
                &&& closes(
                    kind,
                    store,
                    apply(store, reply.trace),
                    ctx.sequence,
                    ids.subrange(start, end),
                )
                &&& signers(reply.trace) == chunk_payees(kind, store, ctx, ids, start, n)
                &&& forall|t: Address, who: Address| #[trigger]
                    paid_out(reply.trace, t, who) == chunk_party(
                        kind,
                        store,
                        ctx,
                        ids,
                        start,
                        n,
                        t,
                        who,
                    )
                &&& forall|t: Address, who: Address| #[trigger] taken(reply.trace, t, who) == 0
                &&& forall|t: Address| #[trigger]
                    locking(reply.trace, t) == -chunk_token(kind, store, ctx, ids, start, n, t)
                &&& announced(reply.trace) == seq![
                    if kind is Claim {
                        Event::BatchClaimed {
                            start: start as u32,
                            end: end as u32,
                            total: total as i128,
                        }
                    } else {
                        Event::BatchCancelled {
                            start: start as u32,
                            end: end as u32,
                            total: total as i128,
                        }
                    },
                ]
            }
            &&& result matches Err(halt) ==> match halt.reason {
                Abort::Reentrant => ctx.guard_held,
                Abort::Paused => ctx.paused,
                Abort::AdditionOverflow => start + chunk_size(ctx, max_items) > u32::MAX,
                Abort::Overflow => total > i128::MAX,
                _ => false,
            }
        }),
{
    let start = chunk_from(ids.len(), start_index);
    let end = chunk_to(ctx, ids.len(), start_index, max_items);
    let n = (end - start) as nat;
    let total = chunk_total(kind, store, ctx, ids, start, n);
    let result = batch_settle_rule(kind, store, ctx, ids, start_index, max_items);
    assert(start == chunk_start(ids.len(), start_index));
    assert(end == chunk_end(ctx, ids.len(), start_index, max_items));
    if total <= i128::MAX {
        lemma_run_completes(kind, store, ctx, ids, start, n);
    }
    lemma_run_stops(kind, store, ctx, ids, start, n);
    if let Ok(run) = settle_run(kind, store, ctx, ids, start, n) {
        lemma_run_accounts(kind, store, ctx, ids, start, n);
        let entries = listing(run.totals);
        lemma_listing(run.totals);
        assert forall|i: int| 0 <= i < entries.len() implies (#[trigger] entries[i]).1 >= 0 by {
            let t = entries[i].0;
            lemma_chunk_parts(kind, store, ctx, ids, start, n, t);
            assert(settled_so_far(run.totals, t) == entries[i].1);
        }
        lemma_unlock_accounts(run.trace, entries);
        lemma_unlock_stops(run.trace, entries);
        if let Ok(reply) = result {
            lemma_batch_settle(kind, store, ctx, ids, start_index, max_items);
            let unlocked = unlock_all(run.trace, entries)->Ok_0;
            assert forall|t: Address| #[trigger] locking(reply.trace, t) == -chunk_token(
                kind,
                store,
                ctx,
                ids,
                start,
                n,
                t,
            ) by {
                broadcast use group_accounts;

                lemma_unlock_flow(run.trace, entries, t);
                lemma_listed_amount(entries, run.totals, t);
                assert(settled_so_far(run.totals, t) == chunk_token(
                    kind,
                    store,
                    ctx,
                    ids,
                    start,
                    n,
                    t,
                ));
            }
            broadcast use group_accounts;

            let event = announced(reply.trace).last();
            assert(announced(reply.trace) =~= Seq::<Event>::empty().push(event));
        }
    }
}

/// A batch settles a plain escrow exactly where the single call on it, on the
/// same ledger, completes or is held up by a dispute alone; and it never settles
/// a milestone escrow.
pub proof fn law_batch_agrees_with_single_calls(
    kind: Settlement,
    store: StoreView,
    ctx: Context,
    id: u32,
)
    requires
        store.sound(),
        switched_on(ctx),
    ensures
        store.lookup(id) matches Some(e) ==> {
            let single = if kind is Claim {
                Call::Claim { id }
            } else {
                Call::Cancel { id }
            };
            &&& e.is_milestone_based ==> !settleable(kind, e, ctx.sequence)
            &&& !e.is_milestone_based && !e.disputed ==> (settleable(kind, e, ctx.sequence)
                <==> trace_of(store, ctx, single) is Some)
        },
{
    law_claim_from_the_release_ledger_on(store, ctx, id);
    law_cancel_until_the_release_ledger(store, ctx, id);
    lemma_lookup(store, id);
}

} // verus!
