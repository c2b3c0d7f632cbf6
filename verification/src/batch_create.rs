//! Creating several escrows at once.
use crate::abort::Abort;
use crate::action::{
    follows_view, halt, Action, ActionView, Event, Halt, HaltView, Reply, ReplyView, Trace,
};
use crate::create::{amount_rule, plain_escrow};
use crate::guard::{creation_entry_rule, enter_creation};
use crate::store::{DataKey, Entry, EntryView, Store, StoreView};
use crate::tally::{listing, Tally};
use crate::types::{
    inputs, records, Address, BatchEscrowInput, BatchEscrowInputView, BatchEscrowResult, Context,
    Escrow, EscrowStatus, EscrowView,
};
use vstd::prelude::*;

verus! {

/// Whether an item is valid in itself: not addressed to the payer, with an
/// amount within the bounds and a release ledger within reach.
pub open spec fn item_valid(ctx: Context, from: Address, item: BatchEscrowInputView) -> bool {
    &&& from != item.to
    &&& amount_rule(ctx, item.amount) is Ok
    &&& ctx.sequence < item.release_ledger <= ctx.sequence + ctx.limits.max_escrow_ledgers
}

/// The escrows of a sequence that are addressed to one recipient, in order.
pub open spec fn addressed_to(escrows: Seq<EscrowView>, to: Address) -> Seq<EscrowView>
    decreases escrows.len(),
{
    if escrows.len() == 0 {
        Seq::empty()
    } else if escrows.last().to == to {
        addressed_to(escrows.drop_last(), to).push(escrows.last())
    } else {
        addressed_to(escrows.drop_last(), to)
    }
}

/// What a batch amounts to before any funds move.
#[verifier::ext_equal]
pub struct DraftView {
    /// The escrows to create, in the order of their items.
    pub opened: Seq<EscrowView>,
    /// What becomes of each item.
    pub results: Seq<BatchEscrowResult>,
    /// The sum of the amounts of the escrows to create.
    pub total: int,
}

/// Goes through the items of a batch. An item is skipped where it is not valid
/// in itself, or where the recipient's index has no room left after the escrows
/// that earlier items of the batch open. All others open an escrow, with
/// consecutive ids.
pub open spec fn draft(
    store: StoreView,
    ctx: Context,
    token: Address,
    from: Address,
    items: Seq<BatchEscrowInputView>,
) -> Result<DraftView, Abort>
    decreases items.len(),
{
    if items.len() == 0 {
        Ok(DraftView { opened: Seq::empty(), results: Seq::empty(), total: 0 })
    } else {
        match draft(store, ctx, token, from, items.drop_last()) {
            Err(abort) => Err(abort),
            Ok(before) => draft_item(
                store,
                ctx,
                token,
                from,
                before,
                items.last(),
                (items.len() - 1) as u32,
            ),
        }
    }
}

/// Goes on to one more item of a batch, which stands at this position.
pub open spec fn draft_item(
    store: StoreView,
    ctx: Context,
    token: Address,
    from: Address,
    before: DraftView,
    item: BatchEscrowInputView,
    position: u32,
) -> Result<DraftView, Abort> {
    if item.release_ledger > ctx.sequence && ctx.sequence + ctx.limits.max_escrow_ledgers
        > u32::MAX {
        Err(Abort::AdditionOverflow)
    } else if !item_valid(ctx, from, item) || store.list_of(item.to).len() + addressed_to(
        before.opened,
        item.to,
    ).len() >= ctx.limits.max_user_escrows {
        Ok(
            DraftView {
                results: before.results.push(BatchEscrowResult::Skipped(position)),
                ..before
            },
        )
    } else if before.total + item.amount > i128::MAX {
        Err(Abort::Overflow)
    } else {
        let id = (store.next_id() + before.opened.len()) as u32;
        Ok(
            DraftView {
                opened: before.opened.push(
                    plain_escrow(
                        id,
                        token,
                        from,
                        item.to,
                        item.amount,
                        item.release_ledger,
                        item.memo,
                    ),
                ),
                results: before.results.push(BatchEscrowResult::Success(id)),
                total: before.total + item.amount,
            },
        )
    }
}

/// How many escrows of a sequence each recipient gets, for those that get any.
pub open spec fn counts(opened: Seq<EscrowView>) -> Map<Address, i128> {
    Map::new(
        |to: Address| addressed_to(opened, to).len() > 0,
        |to: Address| addressed_to(opened, to).len() as i128,
    )
}

/// The recipients of a sequence of escrows, each once, in the order of the addresses.
pub open spec fn touched(opened: Seq<EscrowView>) -> Seq<Address> {
    Seq::new(listing(counts(opened)).len(), |i: int| listing(counts(opened))[i].0)
}

/// Records who receives each of the opened escrows, after the actions in `before`.
pub open spec fn record_recipients(
    before: Seq<ActionView>,
    opened: Seq<EscrowView>,
) -> Seq<ActionView>
    decreases opened.len(),
{
    if opened.len() == 0 {
        before
    } else {
        let e = opened.last();
        record_recipients(before, opened.drop_last()).push(
            ActionView::Write(EntryView::Recipient(e.id, e.to)),
        ).push(ActionView::BumpToFloor(DataKey::EscrowRecipient(e.id)))
    }
}

/// Records the opened escrows in the lists of these recipients, after the
/// actions in `before`.
pub open spec fn record_lists(
    before: Seq<ActionView>,
    store: StoreView,
    opened: Seq<EscrowView>,
    recipients: Seq<Address>,
) -> Seq<ActionView>
    decreases recipients.len(),
{
    if recipients.len() == 0 {
        before
    } else {
        let to = recipients.last();
        record_lists(before, store, opened, recipients.drop_last()).push(
            ActionView::Write(
                EntryView::List(to, store.list_of(to) + addressed_to(opened, to)),
            ),
        ).push(ActionView::BumpToFloor(DataKey::EscrowByRecipient(to)))
    }
}

/// The authorisation of a batch and the one transfer for everything it opens.
pub open spec fn batch_funding(token: Address, from: Address, total: int) -> Seq<ActionView> {
    let authorised = seq![ActionView::RequireAuth(from)];
    if total > 0 {
        authorised.push(ActionView::PullFunds { token, from, amount: total as i128 })
    } else {
        authorised
    }
}

/// What a batch asks of the host: one transfer for everything it opens, then
/// the records, each entry written once, then the locked balance.
pub open spec fn batch_trace(
    store: StoreView,
    token: Address,
    from: Address,
    items: nat,
    plan: DraftView,
) -> Seq<ActionView> {
    let total = plan.total as i128;
    let created = plan.opened.len();
    let listed = record_lists(
        record_recipients(batch_funding(token, from, plan.total), plan.opened),
        store,
        plan.opened,
        touched(plan.opened),
    );
    let counted = if created > 0 {
        listed.push(
            ActionView::Write(EntryView::Count((store.next_id() + created) as u32)),
        ).push(ActionView::Bump(DataKey::EscrowCount))
    } else {
        listed
    };
    let locked = if total > 0 {
        counted.push(ActionView::IncreaseLocked { token, amount: total })
    } else {
        counted
    };
    locked.push(
        ActionView::Publish(
            Event::BatchCreated {
                from,
                created: created as u32,
                skipped: (items - created) as u32,
                total,
            },
        ),
    )
}

/// What [`batch_create_escrow`] does.
pub open spec fn batch_create_escrow_rule(
    store: StoreView,
    ctx: Context,
    token_address: Address,
    from: Address,
    recipients: Seq<BatchEscrowInputView>,
) -> Result<ReplyView<Seq<BatchEscrowResult>>, HaltView> {
    let authorised = seq![ActionView::RequireAuth(from)];
    if creation_entry_rule(ctx) is Err {
        halt(creation_entry_rule(ctx)->Err_0, Seq::empty())
    } else if recipients.len() == 0 {
        halt(Abort::BatchEmpty, authorised)
    } else if recipients.len() > ctx.limits.max_batch_size {
        halt(Abort::BatchTooLarge, authorised)
    } else {
        match draft(store, ctx, token_address, from, recipients) {
            Err(reason) => halt(reason, authorised),
            Ok(plan) => if store.next_id() + plan.opened.len() > u32::MAX {
                halt(
                    Abort::Overflow,
                    record_recipients(
                        batch_funding(token_address, from, plan.total),
                        plan.opened.take(u32::MAX - store.next_id() + 1),
                    ),
                )
            } else {
                Ok(
                    ReplyView {
                        value: plan.results,
                        trace: batch_trace(store, token_address, from, recipients.len(), plan),
                    },
                )
            },
        }
    }
}

/// A batch that aborts keeps aborting, for the same reason, however it goes on.
proof fn lemma_draft_prefix(
    store: StoreView,
    ctx: Context,
    token: Address,
    from: Address,
    items: Seq<BatchEscrowInputView>,
    n: int,
)
    requires
        0 <= n <= items.len(),
        draft(store, ctx, token, from, items.take(n)) is Err,
    ensures
        draft(store, ctx, token, from, items) == draft(store, ctx, token, from, items.take(n)),
    decreases items.len(),
{
    if n == items.len() {
        assert(items.take(n) =~= items);
    } else {
        assert(items.drop_last().take(n) =~= items.take(n));
        lemma_draft_prefix(store, ctx, token, from, items.drop_last(), n);
    }
}

/// A draft has a result for each item and opens at most one escrow for each.
pub proof fn lemma_draft_sizes(
    store: StoreView,
    ctx: Context,
    token: Address,
    from: Address,
    items: Seq<BatchEscrowInputView>,
)
    ensures
        draft(store, ctx, token, from, items) matches Ok(plan) ==> {
            &&& plan.results.len() == items.len()
            &&& plan.opened.len() <= items.len()
            &&& 0 <= plan.total <= i128::MAX
            &&& plan.total > 0 <==> plan.opened.len() > 0
        },
    decreases items.len(),
{
    if items.len() > 0 {
        lemma_draft_sizes(store, ctx, token, from, items.drop_last());
    }
}

/// The escrows that a draft opens get consecutive ids, from the next free one on.
pub proof fn lemma_draft_ids(
    store: StoreView,
    ctx: Context,
    token: Address,
    from: Address,
    items: Seq<BatchEscrowInputView>,
)
    ensures
        draft(store, ctx, token, from, items) matches Ok(plan) ==> forall|j: int|
            0 <= j < plan.opened.len() ==> (#[trigger] plan.opened[j]).id == (store.next_id()
                + j) as u32,
    decreases items.len(),
{
    if items.len() > 0 {
        lemma_draft_ids(store, ctx, token, from, items.drop_last());
    }
}

/// Appending an escrow changes the share of its own recipient only.
pub proof fn lemma_addressed_push(opened: Seq<EscrowView>, e: EscrowView, to: Address)
    ensures
        addressed_to(opened.push(e), to) == if e.to == to {
            addressed_to(opened, to).push(e)
        } else {
            addressed_to(opened, to)
        },
{
    assert(opened.push(e).drop_last() =~= opened);
}

/// A recipient's share is no larger than the whole.
pub proof fn lemma_addressed_len(opened: Seq<EscrowView>, to: Address)
    ensures
        addressed_to(opened, to).len() <= opened.len(),
    decreases opened.len(),
{
    if opened.len() > 0 {
        lemma_addressed_len(opened.drop_last(), to);
    }
}

/// What a batch amounts to before any funds move.
struct Draft {
    opened: Vec<Escrow>,
    results: Vec<BatchEscrowResult>,
    total: i128,
    /// How many escrows each recipient gets.
    projected: Tally,
}

impl View for Draft {
    type V = DraftView;

    closed spec fn view(&self) -> DraftView {
        DraftView {
            opened: records(self.opened@),
            results: self.results@,
            total: self.total as int,
        }
    }
}

impl Draft {
    /// Whether the counts agree with the escrows.
    spec fn wf(&self) -> bool {
        &&& self.projected.wf()
        &&& self.projected@ == counts(records(self.opened@))
        &&& self.projected.size() <= self.opened.len()
    }
}

/// Whether an item is valid in itself, on a ledger from which the latest
/// release ledger can be computed.
fn check_item(ctx: &Context, from: Address, item: &BatchEscrowInput) -> (valid: bool)
    requires
        item.release_ledger > ctx.sequence ==> ctx.sequence + ctx.limits.max_escrow_ledgers
            <= u32::MAX,
    ensures
        valid == item_valid(*ctx, from, item@),
{
    let mut valid: bool = true;
    if from == item.to {
        valid = false;
    }
    if item.amount <= 0 || item.amount > ctx.limits.max_escrow_amount || item.amount
        < ctx.limits.min_escrow_amount {
        valid = false;
    }
    if item.release_ledger <= ctx.sequence || item.release_ledger > ctx.sequence
        + ctx.limits.max_escrow_ledgers {
        valid = false;
    }
    valid
}

/// Goes through the items of a batch.
fn draft_batch(
    env: &soroban_sdk::Env,
    store: &Store,
    ctx: &Context,
    token: Address,
    from: Address,
    items: &Vec<BatchEscrowInput>,
) -> (outcome: Result<Draft, Abort>)
    requires
        items.len() <= u32::MAX,
    ensures
        match draft(store@, *ctx, token, from, inputs(items@)) {
            Ok(plan) => outcome matches Ok(d) && d.wf() && d@ == plan,
            Err(abort) => outcome matches Err(reason) && reason == abort,
        },
{
    let base = store.next_id();
    let ghost all = inputs(items@);
    let mut d = Draft {
        opened: Vec::new(),
        results: Vec::new(),
        total: 0,
        projected: Tally::new(env),
    };
    assert(records(d.opened@) =~= Seq::empty());
    assert(d.projected@ =~= counts(records(d.opened@)));
    assert(all.take(0) =~= Seq::empty());
    let mut i: usize = 0;
    while i < items.len()
        invariant
            i <= items.len() <= u32::MAX,
            all == inputs(items@),
            base == store@.next_id(),
            d.wf(),
            d.opened.len() <= i,
            draft(store@, *ctx, token, from, all.take(i as int)) == Ok::<DraftView, Abort>(d@),
        decreases items.len() - i,
    {
        let item = &items[i];
        let ghost before = d@;
        let ghost opened = records(d.opened@);
        assert(all.take(i + 1).drop_last() =~= all.take(i as int));
        assert(all.take(i + 1).last() == item@);
        if item.release_ledger > ctx.sequence && ctx.sequence.checked_add(
            ctx.limits.max_escrow_ledgers,
        ).is_none() {
            proof {
                lemma_draft_prefix(store@, *ctx, token, from, all, i + 1);
            }
            return Err(Abort::AdditionOverflow);
        }
        let mut accepted = check_item(ctx, from, item);
        let projected = match d.projected.get(item.to) {
            Some(count) => count,
            None => 0,
        };
        proof {
            lemma_addressed_len(opened, item.to);
        }
        assert(projected == addressed_to(opened, item.to).len());
        if accepted {
            let listed: usize = match store.list(item.to) {
                Some(list) => {
                    assert(records(list@).len() == list.len());
                    list.len()
                },
                None => 0,
            };
            assert(listed == store@.list_of(item.to).len());
            if listed as i128 + projected >= ctx.limits.max_user_escrows as i128 {
                accepted = false;
            }
        }
        if accepted {
            let id = (base as u64 + d.opened.len() as u64) as u32;
            match d.total.checked_add(item.amount) {
                Some(total) => {
                    d.total = total;
                },
                None => {
                    proof {
                        lemma_draft_prefix(store@, *ctx, token, from, all, i + 1);
                    }
                    return Err(Abort::Overflow);
                },
            }
            let escrow = Escrow {
                id,
                from,
                to: item.to,
                token,
                amount: item.amount,
                release_ledger: item.release_ledger,
                status: EscrowStatus::Pending,
                memo: item.memo.clone(),
                arbitrator: None,
                disputed: false,
                dispute_raised_by: None,
                dispute_raised_at: 0,
                agent: None,
                milestones: Vec::new(),
                is_milestone_based: false,
            };
            let ghost added = escrow@;
            d.opened.push(escrow);
            assert(records(d.opened@) =~= opened.push(added));
            d.results.push(BatchEscrowResult::Success(id));
            d.projected.set(item.to, projected + 1);
            proof {
                assert forall|to: Address| #[trigger]
                    addressed_to(opened.push(added), to) == if to == item.to {
                        addressed_to(opened, to).push(added)
                    } else {
                        addressed_to(opened, to)
                    } by {
                    lemma_addressed_push(opened, added, to);
                }
                assert(d.projected@ =~= counts(records(d.opened@)));
            }
        } else {
            d.results.push(BatchEscrowResult::Skipped(i as u32));
        }
        i = i + 1;
        assert(Ok::<DraftView, Abort>(d@) == draft(store@, *ctx, token, from, all.take(i as int)));
    }
    assert(all.take(i as int) =~= all);
    Ok(d)
}

/// A recipient's list, with its share of the opened escrows appended.
fn extended_list(store: &Store, opened: &Vec<Escrow>, to: Address) -> (list: Vec<Escrow>)
    ensures
        records(list@) == store@.list_of(to) + addressed_to(records(opened@), to),
{
    let mut list = store.list_of(to);
    let ghost listed = records(list@);
    let ghost all = records(opened@);
    assert(listed + addressed_to(all.take(0), to) =~= listed);
    let mut i: usize = 0;
    while i < opened.len()
        invariant
            i <= opened.len(),
            all == records(opened@),
            records(list@) == listed + addressed_to(all.take(i as int), to),
        decreases opened.len() - i,
    {
        assert(all.take(i + 1) =~= all.take(i as int).push(all[i as int]));
        proof {
            lemma_addressed_push(all.take(i as int), all[i as int], to);
        }
        if opened[i].to == to {
            let ghost before = records(list@);
            let escrow = opened[i].copy();
            let ghost added = escrow@;
            list.push(escrow);
            assert(records(list@) =~= before.push(added));
            assert(records(list@) =~= listed + addressed_to(all.take(i + 1), to));
        }
        i = i + 1;
    }
    assert(all.take(i as int) =~= all);
    list
}

/// Creates several escrows in a single call, at most as many as configured.
///
/// The total amount of all valid items is transferred from `from` to the
/// contract at once, before any escrow is recorded, and the locked balance is
/// raised once at the end. Items that are not acceptable (addressed to the
/// payer, amount out of bounds, release ledger out of range, recipient's index
/// full) are reported as skipped, with their position, and do not block the
/// rest of the batch.
#[verifier::loop_isolation(false)]
pub fn batch_create_escrow(
    env: &soroban_sdk::Env,
    store: &Store,
    ctx: &Context,
    token_address: Address,
    from: Address,
    recipients: &Vec<BatchEscrowInput>,
) -> (outcome: Result<Reply<Vec<BatchEscrowResult>>, Halt>)
    ensures
        follows_view(
            outcome,
            batch_create_escrow_rule(store@, *ctx, token_address, from, inputs(recipients@)),
        ),
{
    let mut trace = Trace::new();
    match enter_creation(ctx) {
        Ok(_) => {},
        Err(reason) => {
            return Err(Halt { reason, trace });
        },
    }
    trace.record(Action::RequireAuth(from));
    assert(trace@ =~= seq![ActionView::RequireAuth(from)]);
    if recipients.len() == 0 {
        return Err(Halt { reason: Abort::BatchEmpty, trace });
    }
    if recipients.len() > ctx.limits.max_batch_size as usize {
        return Err(Halt { reason: Abort::BatchTooLarge, trace });
    }
    let d = match draft_batch(env, store, ctx, token_address, from, recipients) {
        Ok(d) => d,
        Err(reason) => {
            return Err(Halt { reason, trace });
        },
    };
    let ghost opened = records(d.opened@);
    proof {
        lemma_draft_sizes(store@, *ctx, token_address, from, inputs(recipients@));
        lemma_draft_ids(store@, *ctx, token_address, from, inputs(recipients@));
    }
    assert(opened.len() == d.opened.len());
    let base = store.next_id();
    if d.total > 0 {
        trace.record(Action::PullFunds { token: token_address, from, amount: d.total });
    }
    let ghost funded = trace@;
    let mut next_id: u32 = base;
    let mut i: usize = 0;
    assert(opened.take(0) =~= Seq::empty());
    while i < d.opened.len()
        invariant
            i <= d.opened.len() == opened.len(),
            opened == records(d.opened@),
            next_id == base + i,
            trace@ == record_recipients(funded, opened.take(i as int)),
            forall|j: int|
                0 <= j < opened.len() ==> (#[trigger] opened[j]).id == (base + j) as u32,
        decreases d.opened.len() - i,
    {
        assert(opened.take(i + 1).drop_last() =~= opened.take(i as int));
        assert(opened.take(i + 1).last() == d.opened[i as int]@);
        assert(opened[i as int].id == next_id);
        trace.record(Action::Write(Entry::Recipient(next_id, d.opened[i].to)));
        trace.record(Action::BumpToFloor(DataKey::EscrowRecipient(next_id)));
        i = i + 1;
        next_id = match next_id.checked_add(1) {
            Some(next_id) => next_id,
            None => {
                return Err(Halt { reason: Abort::Overflow, trace });
            },
        };
    }
    assert(opened.take(i as int) =~= opened);
    let created: u32 = d.opened.len() as u32;
    let ghost recorded = trace@;
    let entries = d.projected.entries();
    let ghost order = touched(opened);
    assert(order.take(0) =~= Seq::empty());
    let mut k: usize = 0;
    while k < entries.len()
        invariant
            k <= entries.len(),
            opened == records(d.opened@),
            entries@ == listing(counts(opened)),
            order == touched(opened),
            trace@ == record_lists(recorded, store@, opened, order.take(k as int)),
        decreases entries.len() - k,
    {
        let to = entries[k].0;
        assert(order.take(k + 1).drop_last() =~= order.take(k as int));
        assert(order.take(k + 1).last() == to);
        let list = extended_list(store, &d.opened, to);
        trace.record(Action::Write(Entry::List(to, list)));
        trace.record(Action::BumpToFloor(DataKey::EscrowByRecipient(to)));
        k = k + 1;
    }
    assert(order.take(k as int) =~= order);
    if created > 0 {
        trace.record(Action::Write(Entry::Count(next_id)));
        trace.record(Action::Bump(DataKey::EscrowCount));
    }
    if d.total > 0 {
        trace.record(Action::IncreaseLocked { token: token_address, amount: d.total });
    }
    let skipped: u32 = recipients.len() as u32 - created;
    trace.record(Action::Publish(Event::BatchCreated { from, created, skipped, total: d.total }));
    Ok(Reply { value: d.results, trace })
}

} // verus!
