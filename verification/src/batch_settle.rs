//! Claiming or cancelling several escrows at once.
use crate::abort::Abort;
use crate::action::{
    follows_view, halt, Action, ActionView, Event, Halt, HaltView, Reply, ReplyView, Trace,
};
use crate::guard::{enter, entry_rule, search, searching};
use crate::store::{DataKey, Entry, EntryView, PlaceView, Store, StoreView};
use crate::tally::{listing, Tally};
use crate::types::{
    Address, BatchClaimCursor, BatchClaimCursorView, BatchClaimResult, Context, Escrow,
    EscrowStatus, EscrowView,
};
use vstd::prelude::*;

verus! {

/// The two ways in which a batch settles escrows.
#[derive(Clone, Copy, Debug, PartialEq, Eq, Structural)]
pub enum Settlement {
    /// Recipients claim escrows whose release ledger is reached. A milestone
    /// escrow has none: it is claimed milestone by milestone only.
    Claim,
    /// Payers cancel escrows whose release ledger is not reached.
    Cancel,
}

impl Settlement {
    /// Whether an escrow can be settled this way on this ledger.
    pub open spec fn due(self, e: EscrowView, sequence: u32) -> bool {
        &&& e.status == EscrowStatus::Pending
        &&& match self {
            Settlement::Claim => !e.is_milestone_based && e.release_ledger <= sequence,
            Settlement::Cancel => sequence < e.release_ledger,
        }
    }

    /// Who must authorise the settlement and is paid.
    pub open spec fn payee(self, e: EscrowView) -> Address {
        match self {
            Settlement::Claim => e.to,
            Settlement::Cancel => e.from,
        }
    }

    /// The escrow once settled.
    pub open spec fn settled(self, e: EscrowView) -> EscrowView {
        EscrowView {
            status: match self {
                Settlement::Claim => EscrowStatus::Released,
                Settlement::Cancel => EscrowStatus::Cancelled,
            },
            ..e
        }
    }

    /// What is announced of a chunk.
    pub open spec fn event(self, start: u32, end: u32, total: i128) -> Event {
        match self {
            Settlement::Claim => Event::BatchClaimed { start, end, total },
            Settlement::Cancel => Event::BatchCancelled { start, end, total },
        }
    }
}

/// How far a chunk has come.
#[verifier::ext_equal]
pub struct RunView {
    /// The entries as they stand.
    pub store: StoreView,
    /// What has been asked of the host.
    pub trace: Seq<ActionView>,
    /// What became of each id.
    pub results: Seq<BatchClaimResult>,
    /// The settled amounts per token.
    pub totals: Map<Address, i128>,
}

/// The amount that a token has settled so far.
pub open spec fn settled_so_far(totals: Map<Address, i128>, token: Address) -> i128 {
    if totals.contains_key(token) {
        totals[token]
    } else {
        0
    }
}

/// The chunk after an id that is left alone, at this position.
pub open spec fn skip(run: RunView, trace: Seq<ActionView>, index: u32) -> RunView {
    RunView { trace, results: run.results.push(BatchClaimResult::Skipped(index)), ..run }
}

/// The actions that mark the escrow found at a place as settled, after those in `before`.
pub open spec fn marking(
    kind: Settlement,
    store: StoreView,
    before: Seq<ActionView>,
    place: PlaceView,
) -> Seq<ActionView> {
    before.push(ActionView::RequireAuth(kind.payee(place.escrow))).push(
        ActionView::Write(
            EntryView::List(place.recipient, store.replaced(place, kind.settled(place.escrow))),
        ),
    ).push(ActionView::Bump(DataKey::EscrowByRecipient(place.recipient)))
}

/// Goes on to one more id, at this position. An id is left alone where it is
/// not recorded or listed, or where its escrow cannot be settled. Otherwise the
/// escrow is marked as settled before it is paid.
pub open spec fn settle_one(
    kind: Settlement,
    ctx: Context,
    run: RunView,
    id: u32,
    index: u32,
) -> Result<RunView, HaltView> {
    let found = searching(run.store, id, run.trace);
    match run.store.locate(id, Abort::RecipientNotFound) {
        Err(_) => Ok(skip(run, found, index)),
        Ok(place) => {
            let e = place.escrow;
            let sum = settled_so_far(run.totals, e.token) + e.amount;
            let marked = marking(kind, run.store, found, place);
            if !kind.due(e, ctx.sequence) {
                Ok(skip(run, found, index))
            } else if !(i128::MIN <= sum <= i128::MAX) {
                halt(Abort::Overflow, marked)
            } else {
                Ok(
                    RunView {
                        store: run.store.replace(place, kind.settled(e)),
                        trace: marked.push(
                            ActionView::PayOut {
                                token: e.token,
                                to: kind.payee(e),
                                amount: e.amount,
                            },
                        ),
                        results: run.results.push(BatchClaimResult::Success(e.amount)),
                        totals: run.totals.insert(e.token, sum as i128),
                    },
                )
            }
        },
    }
}

/// The first `n` ids of a chunk that begins at `start`.
pub open spec fn settle_run(
    kind: Settlement,
    store: StoreView,
    ctx: Context,
    ids: Seq<u32>,
    start: int,
    n: nat,
) -> Result<RunView, HaltView>
    decreases n,
{
    if n == 0 {
        Ok(
            RunView {
                store,
                trace: Seq::empty(),
                results: Seq::empty(),
                totals: Map::empty(),
            },
        )
    } else {
        match settle_run(kind, store, ctx, ids, start, (n - 1) as nat) {
            Err(halt) => Err(halt),
            Ok(run) => settle_one(
                kind,
                ctx,
                run,
                ids[start + n - 1],
                (start + n - 1) as u32,
            ),
        }
    }
}

/// Lowers the locked balance of each listed token, after the actions in
/// `before`, and adds up the amounts.
pub open spec fn unlock_all(
    before: Seq<ActionView>,
    entries: Seq<(Address, i128)>,
) -> Result<ReplyView<int>, HaltView>
    decreases entries.len(),
{
    if entries.len() == 0 {
        Ok(ReplyView { value: 0, trace: before })
    } else {
        match unlock_all(before, entries.drop_last()) {
            Err(halt) => Err(halt),
            Ok(so_far) => {
                let total = so_far.value + entries.last().1;
                if i128::MIN <= total <= i128::MAX {
                    Ok(
                        ReplyView {
                            value: total,
                            trace: so_far.trace.push(
                                ActionView::DecreaseLocked {
                                    token: entries.last().0,
                                    amount: entries.last().1,
                                },
                            ),
                        },
                    )
                } else {
                    halt(Abort::Overflow, so_far.trace)
                }
            },
        }
    }
}

/// Where a chunk begins: at the given index, at most at the end of the batch.
pub open spec fn chunk_start(len: nat, start_index: u32) -> int {
    if start_index < len {
        start_index as int
    } else {
        len as int
    }
}

/// How many ids a chunk has at most: the configured step, or what the caller
/// asks for if that is less; asking for 0 means the configured step.
pub open spec fn chunk_step(ctx: Context, max_items: u32) -> int {
    if max_items == 0 || max_items > ctx.limits.batch_escrow_cursor_step {
        ctx.limits.batch_escrow_cursor_step as int
    } else {
        max_items as int
    }
}

/// Where a chunk ends.
pub open spec fn chunk_end(ctx: Context, len: nat, start_index: u32, max_items: u32) -> int {
    let end = chunk_start(len, start_index) + chunk_step(ctx, max_items);
    if end < len {
        end
    } else {
        len as int
    }
}

/// What a batch claim or cancellation does.
pub open spec fn batch_settle_rule(
    kind: Settlement,
    store: StoreView,
    ctx: Context,
    ids: Seq<u32>,
    start_index: u32,
    max_items: u32,
) -> Result<ReplyView<BatchClaimCursorView>, HaltView> {
    let start = chunk_start(ids.len(), start_index);
    let end = chunk_end(ctx, ids.len(), start_index, max_items);
    if entry_rule(ctx) is Err {
        halt(entry_rule(ctx)->Err_0, Seq::empty())
    } else if start + chunk_step(ctx, max_items) > u32::MAX {
        halt(Abort::AdditionOverflow, Seq::empty())
    } else {
        match settle_run(kind, store, ctx, ids, start, (end - start) as nat) {
            Err(halt) => Err(halt),
            Ok(run) => match unlock_all(run.trace, listing(run.totals)) {
                Err(halt) => Err(halt),
                Ok(unlocked) => Ok(
                    ReplyView {
                        value: BatchClaimCursorView {
                            start_index: start as u32,
                            next_index: end as u32,
                            results: run.results,
                            done: end >= ids.len(),
                        },
                        trace: unlocked.trace.push(
                            ActionView::Publish(
                                kind.event(start as u32, end as u32, unlocked.value as i128),
                            ),
                        ),
                    },
                ),
            },
        }
    }
}

/// A chunk that aborts keeps aborting, for the same reason, however it goes on.
proof fn lemma_run_prefix(
    kind: Settlement,
    store: StoreView,
    ctx: Context,
    ids: Seq<u32>,
    start: int,
    m: nat,
    n: nat,
)
    requires
        m <= n,
        settle_run(kind, store, ctx, ids, start, m) is Err,
    ensures
        settle_run(kind, store, ctx, ids, start, n) == settle_run(
            kind,
            store,
            ctx,
            ids,
            start,
            m,
        ),
    decreases n,
{
    if m < n {
        lemma_run_prefix(kind, store, ctx, ids, start, m, (n - 1) as nat);
    }
}

/// A sum that leaves the range leaves it however it goes on.
proof fn lemma_unlock_prefix(before: Seq<ActionView>, entries: Seq<(Address, i128)>, n: int)
    requires
        0 <= n <= entries.len(),
        unlock_all(before, entries.take(n)) is Err,
    ensures
        unlock_all(before, entries) == unlock_all(before, entries.take(n)),
    decreases entries.len(),
{
    if n == entries.len() {
        assert(entries.take(n) =~= entries);
    } else {
        assert(entries.drop_last().take(n) =~= entries.take(n));
        lemma_unlock_prefix(before, entries.drop_last(), n);
    }
}

/// How far a chunk has come.
struct Run {
    store: Store,
    trace: Trace,
    results: Vec<BatchClaimResult>,
    totals: Tally,
}

impl View for Run {
    type V = RunView;

    closed spec fn view(&self) -> RunView {
        RunView {
            store: self.store@,
            trace: self.trace@,
            results: self.results@,
            totals: self.totals@,
        }
    }
}

/// Whether an escrow can be settled on this ledger.
fn is_due(kind: Settlement, e: &Escrow, sequence: u32) -> (due: bool)
    ensures
        due == kind.due(e@, sequence),
{
    if e.status != EscrowStatus::Pending {
        return false;
    }
    match kind {
        Settlement::Claim => !e.is_milestone_based && e.release_ledger <= sequence,
        Settlement::Cancel => sequence < e.release_ledger,
    }
}

impl Run {
    /// Goes on to one more id.
    fn settle(&mut self, kind: Settlement, ctx: &Context, id: u32, index: u32) -> (outcome: Result<
        (),
        Abort,
    >)
        requires
            old(self).totals.wf(),
            old(self).totals.size() < u32::MAX,
        ensures
            match settle_one(kind, *ctx, old(self)@, id, index) {
                Ok(run) => {
                    &&& outcome is Ok
                    &&& final(self)@ == run
                    &&& final(self).totals.wf()
                    &&& final(self).totals.size() <= old(self).totals.size() + 1
                },
                Err(halt) => {
                    &&& outcome matches Err(reason)
                    &&& reason == halt.reason
                    &&& final(self).trace@ == halt.trace
                },
            },
    {
        let (recipient, list, payee, token, amount) = match search(
            &self.store,
            id,
            Abort::RecipientNotFound,
            &mut self.trace,
        ) {
            Err(_) => {
                self.results.push(BatchClaimResult::Skipped(index));
                return Ok(());
            },
            Ok(place) => {
                let e = &place.list[place.index];
                if !is_due(kind, e, ctx.sequence) {
                    self.results.push(BatchClaimResult::Skipped(index));
                    return Ok(());
                }
                let payee = match kind {
                    Settlement::Claim => e.to,
                    Settlement::Cancel => e.from,
                };
                let mut settled = e.copy();
                settled.status = match kind {
                    Settlement::Claim => EscrowStatus::Released,
                    Settlement::Cancel => EscrowStatus::Cancelled,
                };
                assert(settled@ =~= kind.settled(e@));
                let token = e.token;
                let amount = e.amount;
                (place.recipient, place.replaced(settled), payee, token, amount)
            },
        };
        self.trace.record(Action::RequireAuth(payee));
        let entry = Entry::List(recipient, list);
        self.store.write(entry.copy());
        self.trace.record(Action::Write(entry));
        self.trace.record(Action::Bump(DataKey::EscrowByRecipient(recipient)));
        let before = match self.totals.get(token) {
            Some(total) => total,
            None => 0,
        };
        let total = match before.checked_add(amount) {
            Some(total) => total,
            None => {
                return Err(Abort::Overflow);
            },
        };
        self.totals.set(token, total);
        self.trace.record(Action::PayOut { token, to: payee, amount });
        self.results.push(BatchClaimResult::Success(amount));
        Ok(())
    }
}

/// Where a chunk of a batch of this length starts and ends, unless its end cannot
/// be computed.
pub fn chunk_bounds(ctx: &Context, len: u32, start_index: u32, max_items: u32) -> (bounds: Option<
    (u32, u32),
>)
    ensures
        match bounds {
            Some((start, end)) => {
                &&& start == chunk_start(len as nat, start_index)
                &&& end == chunk_end(*ctx, len as nat, start_index, max_items)
                &&& start + chunk_step(*ctx, max_items) <= u32::MAX
            },
            None => chunk_start(len as nat, start_index) + chunk_step(*ctx, max_items) > u32::MAX,
        },
{
    let start: u32 = if start_index < len {
        start_index
    } else {
        len
    };
    let limit = ctx.limits.batch_escrow_cursor_step;
    let step: u32 = if max_items == 0 || max_items > limit {
        limit
    } else {
        max_items
    };
    match start.checked_add(step) {
        Some(end) => if end < len {
            Some((start, end))
        } else {
            Some((start, len))
        },
        None => None,
    }
}

/// Settles a chunk of a batch.
#[verifier::loop_isolation(false)]
fn batch_settle(
    env: &soroban_sdk::Env,
    kind: Settlement,
    store: &Store,
    ctx: &Context,
    ids: &Vec<u32>,
    start_index: u32,
    max_items: u32,
) -> (outcome: Result<Reply<BatchClaimCursor>, Halt>)
    requires
        ids.len() <= u32::MAX,
    ensures
        follows_view(
            outcome,
            batch_settle_rule(kind, store@, *ctx, ids@, start_index, max_items),
        ),
{
    match enter(ctx) {
        Ok(_) => {},
        Err(reason) => {
            return Err(Halt { reason, trace: Trace::new() });
        },
    }
    let len: u32 = ids.len() as u32;
    let (start, end) = match chunk_bounds(ctx, len, start_index, max_items) {
        Some(bounds) => bounds,
        None => {
            return Err(Halt { reason: Abort::AdditionOverflow, trace: Trace::new() });
        },
    };
    let mut run = Run {
        store: store.copy(),
        trace: Trace::new(),
        results: Vec::new(),
        totals: Tally::new(env),
    };
    assert(run@ =~= settle_run(kind, store@, *ctx, ids@, start as int, 0)->Ok_0);
    let mut i: u32 = start;
    while i < end
        invariant
            start <= i <= end <= len == ids.len(),
            settle_run(kind, store@, *ctx, ids@, start as int, (i - start) as nat) == Ok::<
                RunView,
                HaltView,
            >(run@),
            run.totals.wf(),
            run.totals.size() <= i - start,
        decreases end - i,
    {
        match run.settle(kind, ctx, ids[i as usize], i) {
            Ok(_) => {},
            Err(reason) => {
                proof {
                    lemma_run_prefix(
                        kind,
                        store@,
                        *ctx,
                        ids@,
                        start as int,
                        (i + 1 - start) as nat,
                        (end - start) as nat,
                    );
                }
                return Err(Halt { reason, trace: run.trace });
            },
        }
        i = i + 1;
    }
    let ghost settled = run@;
    let mut trace = run.trace;
    let entries = run.totals.entries();
    assert(entries@.take(0) =~= Seq::empty());
    let mut total: i128 = 0;
    let mut k: usize = 0;
    while k < entries.len()
        invariant
            k <= entries.len(),
            entries@ == listing(settled.totals),
            unlock_all(settled.trace, entries@.take(k as int)) == Ok::<ReplyView<int>, HaltView>(
                ReplyView { value: total as int, trace: trace@ },
            ),
        decreases entries.len() - k,
    {
        let (token, amount) = entries[k];
        assert(entries@.take(k + 1).drop_last() =~= entries@.take(k as int));
        assert(entries@.take(k + 1).last() == entries@[k as int]);
        total = match total.checked_add(amount) {
            Some(total) => total,
            None => {
                proof {
                    lemma_unlock_prefix(settled.trace, entries@, k + 1);
                }
                return Err(Halt { reason: Abort::Overflow, trace });
            },
        };
        trace.record(Action::DecreaseLocked { token, amount });
        k = k + 1;
    }
    assert(entries@.take(k as int) =~= entries@);
    let event = match kind {
        Settlement::Claim => Event::BatchClaimed { start, end, total },
        Settlement::Cancel => Event::BatchCancelled { start, end, total },
    };
    trace.record(Action::Publish(event));
    let cursor = BatchClaimCursor {
        start_index: start,
        next_index: end,
        results: run.results,
        done: end >= len,
    };
    Ok(Reply { value: cursor, trace })
}

/// Claims a chunk of matured escrows, resuming from `start_index` into
/// `escrow_ids`. Each call returns a cursor; pass its `next_index` back as
/// `start_index`, with the same ids, to process the next chunk. A chunk has at
/// most the configured number of ids; `max_items` can ask for less, and 0 means
/// the configured number.
///
/// An id that is missing, not pending, or not yet matured is reported as
/// skipped, with its position, and never blocks the other ids. So is the id of a
/// milestone escrow, whose funds are released per approved milestone. The
/// recipient of every escrow that is paid must have authorised the call.
pub fn batch_claim_escrow(
    env: &soroban_sdk::Env,
    store: &Store,
    ctx: &Context,
    escrow_ids: &Vec<u32>,
    start_index: u32,
    max_items: u32,
) -> (outcome: Result<Reply<BatchClaimCursor>, Halt>)
    requires
        escrow_ids.len() <= u32::MAX,
    ensures
        follows_view(
            outcome,
            batch_settle_rule(
                Settlement::Claim,
                store@,
                *ctx,
                escrow_ids@,
                start_index,
                max_items,
            ),
        ),
{
    batch_settle(env, Settlement::Claim, store, ctx, escrow_ids, start_index, max_items)
}

/// Cancels a chunk of pending escrows, resuming from `start_index` into
/// `escrow_ids`. Works in chunks as [`batch_claim_escrow`] does.
///
/// Only the payer may cancel, so the payer of every escrow that is refunded must
/// have authorised the call. An id that is missing, not pending, or already past
/// its release ledger is reported as skipped, with its position, and never
/// blocks the other ids.
pub fn batch_cancel_escrow(
    env: &soroban_sdk::Env,
    store: &Store,
    ctx: &Context,
    escrow_ids: &Vec<u32>,
    start_index: u32,
    max_items: u32,
) -> (outcome: Result<Reply<BatchClaimCursor>, Halt>)
    requires
        escrow_ids.len() <= u32::MAX,
    ensures
        follows_view(
            outcome,
            batch_settle_rule(
                Settlement::Cancel,
                store@,
                *ctx,
                escrow_ids@,
                start_index,
                max_items,
            ),
        ),
{
    batch_settle(env, Settlement::Cancel, store, ctx, escrow_ids, start_index, max_items)
}

} // verus!
