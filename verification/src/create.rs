//! Creating single escrows.
use crate::abort::Abort;
use crate::action::{
    follows, halt, Action, ActionView, Event, Halt, HaltView, Reply, ReplyView, Trace,
};
use crate::guard::{creation_entry_rule, enter_creation};
use crate::store::{DataKey, Entry, EntryView, Store, StoreView};
use crate::types::{
    records, Address, Context, ContractError, Escrow, EscrowStatus, EscrowView, Milestone,
};
use vstd::prelude::*;

verus! {

/// A pending escrow without arbitrator, agent or milestones.
pub open spec fn plain_escrow(
    id: u32,
    token: Address,
    from: Address,
    to: Address,
    amount: i128,
    release_ledger: u32,
    memo: Seq<char>,
) -> EscrowView {
    EscrowView {
        id,
        from,
        to,
        token,
        amount,
        release_ledger,
        status: EscrowStatus::Pending,
        memo,
        arbitrator: None,
        disputed: false,
        dispute_raised_by: None,
        dispute_raised_at: 0,
        agent: None,
        milestones: Seq::empty(),
        is_milestone_based: false,
    }
}

/// Whether a recipient's index cannot track another escrow.
pub open spec fn index_full(store: StoreView, ctx: Context, to: Address) -> bool {
    store.list_of(to).len() >= ctx.limits.max_user_escrows
}

/// The actions that take in an escrow's funds and record its recipient, after
/// those in `before`.
pub open spec fn funding(before: Seq<ActionView>, escrow: EscrowView) -> Seq<ActionView> {
    before.push(
        ActionView::PullFunds {
            token: escrow.token,
            from: escrow.from,
            amount: escrow.amount,
        },
    ).push(ActionView::IncreaseLocked { token: escrow.token, amount: escrow.amount }).push(
        ActionView::Write(EntryView::Recipient(escrow.id, escrow.to)),
    ).push(ActionView::BumpToFloor(DataKey::EscrowRecipient(escrow.id)))
}

/// The actions that take in an escrow's funds and record it, after those in `before`.
pub open spec fn recording(
    store: StoreView,
    before: Seq<ActionView>,
    escrow: EscrowView,
) -> Seq<ActionView> {
    funding(before, escrow).push(
        ActionView::Write(EntryView::Count((escrow.id + 1) as u32)),
    ).push(ActionView::Bump(DataKey::EscrowCount)).push(
        ActionView::Write(EntryView::List(escrow.to, store.list_of(escrow.to).push(escrow))),
    ).push(ActionView::BumpToFloor(DataKey::EscrowByRecipient(escrow.to)))
}

/// What happens once an escrow is found acceptable. Where the recipient's
/// index is full, nothing beyond `before` happens; otherwise the escrow, whose
/// id is the next free one, is recorded and announced. The last id of all can
/// not be given out, because the count would not fit its type.
pub open spec fn recording_rule(
    store: StoreView,
    ctx: Context,
    before: Seq<ActionView>,
    escrow: EscrowView,
    event: Event,
) -> Result<ReplyView<Result<u32, ContractError>>, HaltView> {
    if index_full(store, ctx, escrow.to) {
        Ok(ReplyView { value: Err(ContractError::IndexFull), trace: before })
    } else if store.next_id() == u32::MAX {
        halt(Abort::AdditionOverflow, funding(before, escrow))
    } else {
        Ok(
            ReplyView {
                value: Ok(escrow.id),
                trace: recording(store, before, escrow).push(ActionView::Publish(event)),
            },
        )
    }
}

/// Takes in an escrow's funds and records it.
fn record_escrow(
    store: &Store,
    ctx: &Context,
    trace: Trace,
    escrow: Escrow,
    event: Event,
) -> (outcome: Result<Reply<Result<u32, ContractError>>, Halt>)
    requires
        escrow.id == store@.next_id(),
    ensures
        follows(outcome, recording_rule(store@, *ctx, trace@, escrow@, event)),
{
    let mut trace = trace;
    let mut list = store.list_of(escrow.to);
    assert(records(list@).len() == list.len());
    if list.len() >= ctx.limits.max_user_escrows as usize {
        return Ok(Reply { value: Err(ContractError::IndexFull), trace });
    }
    let id = escrow.id;
    let token = escrow.token;
    let from = escrow.from;
    let to = escrow.to;
    let amount = escrow.amount;
    trace.record(Action::PullFunds { token, from, amount });
    trace.record(Action::IncreaseLocked { token, amount });
    trace.record(Action::Write(Entry::Recipient(id, to)));
    trace.record(Action::BumpToFloor(DataKey::EscrowRecipient(id)));
    if id == u32::MAX {
        return Err(Halt { reason: Abort::AdditionOverflow, trace });
    }
    trace.record(Action::Write(Entry::Count(id + 1)));
    trace.record(Action::Bump(DataKey::EscrowCount));
    let ghost before = records(list@);
    let ghost recorded = escrow@;
    list.push(escrow);
    assert(records(list@) =~= before.push(recorded));
    trace.record(Action::Write(Entry::List(to, list)));
    trace.record(Action::BumpToFloor(DataKey::EscrowByRecipient(to)));
    trace.record(Action::Publish(event));
    Ok(Reply { value: Ok(id), trace })
}

/// The bounds on the size of an escrow.
pub open spec fn amount_rule(ctx: Context, amount: i128) -> Result<(), Abort> {
    if amount <= 0 {
        Err(Abort::AmountNotPositive)
    } else if amount > ctx.limits.max_escrow_amount {
        Err(Abort::AmountTooLarge)
    } else if amount < ctx.limits.min_escrow_amount {
        Err(Abort::AmountTooSmall)
    } else {
        Ok(())
    }
}

/// Checks the bounds on the size of an escrow.
fn check_amount(ctx: &Context, amount: i128) -> (outcome: Result<(), Abort>)
    ensures
        outcome == amount_rule(*ctx, amount),
{
    if amount <= 0 {
        return Err(Abort::AmountNotPositive);
    }
    if amount > ctx.limits.max_escrow_amount {
        return Err(Abort::AmountTooLarge);
    }
    if amount < ctx.limits.min_escrow_amount {
        return Err(Abort::AmountTooSmall);
    }
    Ok(())
}

/// What [`create_escrow`] checks before it looks at the recipient's index.
pub open spec fn create_escrow_check(
    ctx: Context,
    from: Address,
    to: Address,
    amount: i128,
    release_ledger: u32,
) -> Result<(), Abort> {
    if from == to {
        Err(Abort::SelfEscrow)
    } else if amount_rule(ctx, amount) is Err {
        amount_rule(ctx, amount)
    } else if release_ledger <= ctx.sequence {
        Err(Abort::ReleaseNotInFuture)
    } else if ctx.sequence + ctx.limits.max_escrow_ledgers > u32::MAX {
        Err(Abort::AdditionOverflow)
    } else if release_ledger > ctx.sequence + ctx.limits.max_escrow_ledgers {
        Err(Abort::ReleaseTooFar)
    } else {
        Ok(())
    }
}

/// Checks what [`create_escrow`] is asked for.
fn check_create_escrow(
    ctx: &Context,
    from: Address,
    to: Address,
    amount: i128,
    release_ledger: u32,
) -> (outcome: Result<(), Abort>)
    ensures
        outcome == create_escrow_check(*ctx, from, to, amount, release_ledger),
{
    if from == to {
        return Err(Abort::SelfEscrow);
    }
    match check_amount(ctx, amount) {
        Ok(_) => {},
        Err(abort) => {
            return Err(abort);
        },
    }
    if release_ledger <= ctx.sequence {
        return Err(Abort::ReleaseNotInFuture);
    }
    match ctx.sequence.checked_add(ctx.limits.max_escrow_ledgers) {
        None => {
            return Err(Abort::AdditionOverflow);
        },
        Some(latest) => {
            if release_ledger > latest {
                return Err(Abort::ReleaseTooFar);
            }
        },
    }
    Ok(())
}

/// What [`create_escrow`] does.
pub open spec fn create_escrow_rule(
    store: StoreView,
    ctx: Context,
    token_address: Address,
    from: Address,
    to: Address,
    amount: i128,
    release_ledger: u32,
    memo: Seq<char>,
) -> Result<ReplyView<Result<u32, ContractError>>, HaltView> {
    let authorised = seq![ActionView::RequireAuth(from)];
    let id = store.next_id();
    if creation_entry_rule(ctx) is Err {
        halt(creation_entry_rule(ctx)->Err_0, Seq::empty())
    } else if let Err(reason) = create_escrow_check(ctx, from, to, amount, release_ledger) {
        halt(reason, authorised)
    } else {
        recording_rule(
            store,
            ctx,
            authorised,
            plain_escrow(id, token_address, from, to, amount, release_ledger, memo),
            Event::EscrowCreated { id, from, to, amount, release_ledger },
        )
    }
}

/// Locks `amount` tokens from `from` until `release_ledger`. Returns the escrow id.
///
/// Funds are held by the contract itself until they are claimed or cancelled.
/// Returns [`ContractError::IndexFull`], before any funds move, where `to`
/// already has as many escrows as its index can track.
pub fn create_escrow(
    store: &Store,
    ctx: &Context,
    token_address: Address,
    from: Address,
    to: Address,
    amount: i128,
    release_ledger: u32,
    memo: String,
) -> (outcome: Result<Reply<Result<u32, ContractError>>, Halt>)
    ensures
        follows(
            outcome,
            create_escrow_rule(
                store@,
                *ctx,
                token_address,
                from,
                to,
                amount,
                release_ledger,
                memo@,
            ),
        ),
{
    let mut trace = Trace::new();
    match enter_creation(ctx) {
        Ok(_) => {},
        Err(reason) => {
            return Err(Halt { reason, trace });
        },
    }
    trace.record(Action::RequireAuth(from));
    match check_create_escrow(ctx, from, to, amount, release_ledger) {
        Ok(_) => {},
        Err(reason) => {
            return Err(Halt { reason, trace });
        },
    }
    let id = store.next_id();
    let escrow = Escrow {
        id,
        from,
        to,
        token: token_address,
        amount,
        release_ledger,
        status: EscrowStatus::Pending,
        memo,
        arbitrator: None,
        disputed: false,
        dispute_raised_by: None,
        dispute_raised_at: 0,
        agent: None,
        milestones: Vec::new(),
        is_milestone_based: false,
    };
    record_escrow(
        store,
        ctx,
        trace,
        escrow,
        Event::EscrowCreated { id, from, to, amount, release_ledger },
    )
}

/// What [`create_disputable_escrow`] does.
pub open spec fn create_disputable_escrow_rule(
    store: StoreView,
    ctx: Context,
    token_address: Address,
    from: Address,
    to: Address,
    amount: i128,
    release_ledger: u32,
    arbitrator: Address,
) -> Result<ReplyView<Result<u32, ContractError>>, HaltView> {
    let authorised = seq![ActionView::RequireAuth(from)];
    let looked_up = authorised.push(ActionView::Bump(DataKey::Arbitrators));
    let id = store.next_id();
    if creation_entry_rule(ctx) is Err {
        halt(creation_entry_rule(ctx)->Err_0, Seq::empty())
    } else if let Err(reason) = create_escrow_check(ctx, from, to, amount, release_ledger) {
        halt(reason, authorised)
    } else if store.arbitrators is None {
        halt(Abort::NoArbitrators, authorised)
    } else if !store.arbitrators->0.contains(arbitrator) {
        halt(Abort::ArbitratorNotRegistered, looked_up)
    } else {
        recording_rule(
            store,
            ctx,
            looked_up,
            EscrowView {
                arbitrator: Some(arbitrator),
                ..plain_escrow(id, token_address, from, to, amount, release_ledger, Seq::empty())
            },
            Event::DisputableEscrowCreated { id, arbitrator },
        )
    }
}

/// Whether a list contains an address.
pub fn contains_address(list: &Vec<Address>, address: Address) -> (found: bool)
    ensures
        found == list@.contains(address),
{
    let mut i: usize = 0;
    while i < list.len()
        invariant
            i <= list.len(),
            forall|j: int| 0 <= j < i ==> list[j] != address,
        decreases list.len() - i,
    {
        if list[i] == address {
            assert(list@[i as int] == address);
            return true;
        }
        i = i + 1;
    }
    false
}

/// Creates an escrow with a designated arbitrator, who must be registered.
/// Same as [`create_escrow`], but either side can later raise a dispute.
pub fn create_disputable_escrow(
    store: &Store,
    ctx: &Context,
    token_address: Address,
    from: Address,
    to: Address,
    amount: i128,
    release_ledger: u32,
    arbitrator: Address,
) -> (outcome: Result<Reply<Result<u32, ContractError>>, Halt>)
    ensures
        follows(
            outcome,
            create_disputable_escrow_rule(
                store@,
                *ctx,
                token_address,
                from,
                to,
                amount,
                release_ledger,
                arbitrator,
            ),
        ),
{
    let mut trace = Trace::new();
    match enter_creation(ctx) {
        Ok(_) => {},
        Err(reason) => {
            return Err(Halt { reason, trace });
        },
    }
    trace.record(Action::RequireAuth(from));
    assert(trace@ =~= seq![ActionView::RequireAuth(from)]);
    match check_create_escrow(ctx, from, to, amount, release_ledger) {
        Ok(_) => {},
        Err(reason) => {
            return Err(Halt { reason, trace });
        },
    }
    let arbitrators = match store.arbitrators() {
        Some(arbitrators) => arbitrators,
        None => {
            return Err(Halt { reason: Abort::NoArbitrators, trace });
        },
    };
    trace.record(Action::Bump(DataKey::Arbitrators));
    if !contains_address(arbitrators, arbitrator) {
        return Err(Halt { reason: Abort::ArbitratorNotRegistered, trace });
    }
    let id = store.next_id();
    let escrow = Escrow {
        id,
        from,
        to,
        token: token_address,
        amount,
        release_ledger,
        status: EscrowStatus::Pending,
        memo: String::new(),
        arbitrator: Some(arbitrator),
        disputed: false,
        dispute_raised_by: None,
        dispute_raised_at: 0,
        agent: None,
        milestones: Vec::new(),
        is_milestone_based: false,
    };
    record_escrow(store, ctx, trace, escrow, Event::DisputableEscrowCreated { id, arbitrator })
}

/// What one milestone of a new escrow must satisfy.
pub open spec fn milestone_rule(ctx: Context, milestone: Milestone) -> Result<(), Abort> {
    if milestone.amount <= 0 {
        Err(Abort::MilestoneNotPositive)
    } else if 0 < milestone.approval_deadline_ledger <= ctx.sequence {
        Err(Abort::DeadlineNotInFuture)
    } else {
        Ok(())
    }
}

/// The sum of a new schedule's amounts, or the reason for which its first
/// unacceptable milestone is refused.
pub open spec fn schedule_total(ctx: Context, milestones: Seq<Milestone>) -> Result<int, Abort>
    decreases milestones.len(),
{
    if milestones.len() == 0 {
        Ok(0)
    } else {
        match schedule_total(ctx, milestones.drop_last()) {
            Err(abort) => Err(abort),
            Ok(total) => match milestone_rule(ctx, milestones.last()) {
                Err(abort) => Err(abort),
                Ok(_) => if total + milestones.last().amount > i128::MAX {
                    Err(Abort::Overflow)
                } else {
                    Ok(total + milestones.last().amount)
                },
            },
        }
    }
}

/// A schedule whose milestones are numbered from 0.
pub open spec fn numbered(milestones: Seq<Milestone>) -> Seq<Milestone> {
    Seq::new(
        milestones.len(),
        |i: int| Milestone { id: i as u32, ..milestones[i] },
    )
}

/// What [`create_milestone_escrow`] checks before it looks at the recipient's index.
pub open spec fn create_milestone_escrow_check(
    ctx: Context,
    from: Address,
    to: Address,
    agent: Address,
    milestones: Seq<Milestone>,
    deposit: i128,
) -> Result<(), Abort> {
    if from == to {
        Err(Abort::SelfEscrow)
    } else if agent == to {
        Err(Abort::AgentIsRecipient)
    } else if amount_rule(ctx, deposit) is Err {
        amount_rule(ctx, deposit)
    } else if milestones.len() == 0 {
        Err(Abort::NoMilestones)
    } else if milestones.len() > ctx.limits.max_milestones {
        Err(Abort::TooManyMilestones)
    } else {
        match schedule_total(ctx, milestones) {
            Err(abort) => Err(abort),
            Ok(total) => if total != deposit {
                Err(Abort::MilestoneSumMismatch)
            } else {
                Ok(())
            },
        }
    }
}

/// A pending escrow that is released by milestones.
pub open spec fn milestone_escrow(
    id: u32,
    token: Address,
    from: Address,
    to: Address,
    agent: Address,
    milestones: Seq<Milestone>,
    deposit: i128,
) -> EscrowView {
    EscrowView {
        agent: Some(agent),
        milestones: numbered(milestones),
        is_milestone_based: true,
        ..plain_escrow(id, token, from, to, deposit, 0, Seq::empty())
    }
}

/// What [`create_milestone_escrow`] does.
pub open spec fn create_milestone_escrow_rule(
    store: StoreView,
    ctx: Context,
    token_address: Address,
    from: Address,
    to: Address,
    agent: Address,
    milestones: Seq<Milestone>,
    deposit: i128,
) -> Result<ReplyView<Result<u32, ContractError>>, HaltView> {
    let authorised = seq![ActionView::RequireAuth(from)];
    let id = store.next_id();
    if creation_entry_rule(ctx) is Err {
        halt(creation_entry_rule(ctx)->Err_0, Seq::empty())
    } else if let Err(reason) = create_milestone_escrow_check(
        ctx,
        from,
        to,
        agent,
        milestones,
        deposit,
    ) {
        halt(reason, authorised)
    } else {
        recording_rule(
            store,
            ctx,
            authorised,
            milestone_escrow(id, token_address, from, to, agent, milestones, deposit),
            Event::MilestoneEscrowCreated { id, milestones: milestones.len() as u32 },
        )
    }
}

/// A refused schedule stays refused, for the same reason, however it goes on.
proof fn lemma_schedule_prefix(ctx: Context, milestones: Seq<Milestone>, n: int)
    requires
        0 <= n <= milestones.len(),
        schedule_total(ctx, milestones.take(n)) is Err,
    ensures
        schedule_total(ctx, milestones) == schedule_total(ctx, milestones.take(n)),
    decreases milestones.len(),
{
    if n == milestones.len() {
        assert(milestones.take(n) =~= milestones);
    } else {
        assert(milestones.drop_last().take(n) =~= milestones.take(n));
        lemma_schedule_prefix(ctx, milestones.drop_last(), n);
    }
}

/// Checks a new schedule and numbers its milestones.
fn check_schedule(ctx: &Context, milestones: &Vec<Milestone>) -> (outcome: Result<
    (i128, Vec<Milestone>),
    Abort,
>)
    requires
        milestones.len() <= u32::MAX,
    ensures
        match schedule_total(*ctx, milestones@) {
            Ok(total) => outcome matches Ok(checked) && checked.0 == total && checked.1@
                == numbered(milestones@),
            Err(abort) => outcome == Err::<(i128, Vec<Milestone>), Abort>(abort),
        },
{
    let mut total: i128 = 0;
    let mut schedule: Vec<Milestone> = Vec::new();
    let mut i: usize = 0;
    while i < milestones.len()
        invariant
            i <= milestones.len() <= u32::MAX,
            schedule_total(*ctx, milestones@.take(i as int)) == Ok::<int, Abort>(total as int),
            total >= 0,
            schedule@ == numbered(milestones@).take(i as int),
        decreases milestones.len() - i,
    {
        let milestone = milestones[i];
        assert(milestones@.take(i + 1).drop_last() =~= milestones@.take(i as int));
        assert(milestones@.take(i + 1).last() == milestone);
        if milestone.amount <= 0 {
            proof {
                lemma_schedule_prefix(*ctx, milestones@, i + 1);
            }
            return Err(Abort::MilestoneNotPositive);
        }
        if milestone.approval_deadline_ledger > 0 && milestone.approval_deadline_ledger
            <= ctx.sequence {
            proof {
                lemma_schedule_prefix(*ctx, milestones@, i + 1);
            }
            return Err(Abort::DeadlineNotInFuture);
        }
        match total.checked_add(milestone.amount) {
            Some(sum) => {
                total = sum;
            },
            None => {
                proof {
                    lemma_schedule_prefix(*ctx, milestones@, i + 1);
                }
                return Err(Abort::Overflow);
            },
        }
        schedule.push(
            Milestone {
                id: i as u32,
                amount: milestone.amount,
                approval_deadline_ledger: milestone.approval_deadline_ledger,
                approved: milestone.approved,
                claimed: milestone.claimed,
            },
        );
        i = i + 1;
        assert(schedule@ =~= numbered(milestones@).take(i as int));
    }
    assert(milestones@.take(i as int) =~= milestones@);
    assert(schedule@ =~= numbered(milestones@));
    Ok((total, schedule))
}

/// Checks what [`create_milestone_escrow`] is asked for and numbers the milestones.
fn check_create_milestone_escrow(
    ctx: &Context,
    from: Address,
    to: Address,
    agent: Address,
    milestones: &Vec<Milestone>,
    deposit: i128,
) -> (outcome: Result<Vec<Milestone>, Abort>)
    ensures
        match create_milestone_escrow_check(*ctx, from, to, agent, milestones@, deposit) {
            Ok(_) => outcome matches Ok(schedule) && schedule@ == numbered(milestones@)
                && milestones.len() <= u32::MAX,
            Err(abort) => outcome matches Err(reason) && reason == abort,
        },
{
    if from == to {
        return Err(Abort::SelfEscrow);
    }
    if agent == to {
        return Err(Abort::AgentIsRecipient);
    }
    match check_amount(ctx, deposit) {
        Ok(_) => {},
        Err(abort) => {
            return Err(abort);
        },
    }
    if milestones.len() == 0 {
        return Err(Abort::NoMilestones);
    }
    if milestones.len() > ctx.limits.max_milestones as usize {
        return Err(Abort::TooManyMilestones);
    }
    let (total, schedule) = match check_schedule(ctx, milestones) {
        Ok(checked) => checked,
        Err(abort) => {
            return Err(abort);
        },
    };
    if total != deposit {
        return Err(Abort::MilestoneSumMismatch);
    }
    Ok(schedule)
}

/// Creates an escrow whose funds release per approved milestone.
///
/// There must be at least one milestone and at most as many as configured,
/// every amount must be positive, and the amounts must sum to `deposit`.
/// Milestone ids are assigned in order from 0, whatever ids are supplied.
///
/// The `agent` is the designated approver; the client (`from`) may also
/// approve. The agent may not be the recipient, otherwise the recipient could
/// approve their own milestones.
pub fn create_milestone_escrow(
    store: &Store,
    ctx: &Context,
    token_address: Address,
    from: Address,
    to: Address,
    agent: Address,
    milestones: &Vec<Milestone>,
    deposit: i128,
) -> (outcome: Result<Reply<Result<u32, ContractError>>, Halt>)
    ensures
        follows(
            outcome,
            create_milestone_escrow_rule(
                store@,
                *ctx,
                token_address,
                from,
                to,
                agent,
                milestones@,
                deposit,
            ),
        ),
{
    let mut trace = Trace::new();
    match enter_creation(ctx) {
        Ok(_) => {},
        Err(reason) => {
            return Err(Halt { reason, trace });
        },
    }
    trace.record(Action::RequireAuth(from));
    assert(trace@ =~= seq![ActionView::RequireAuth(from)]);
    let schedule = match check_create_milestone_escrow(ctx, from, to, agent, milestones, deposit) {
        Ok(schedule) => schedule,
        Err(reason) => {
            return Err(Halt { reason, trace });
        },
    };
    let id = store.next_id();
    let count: u32 = milestones.len() as u32;
    let escrow = Escrow {
        id,
        from,
        to,
        token: token_address,
        amount: deposit,
        release_ledger: 0,
        status: EscrowStatus::Pending,
        memo: String::new(),
        arbitrator: None,
        disputed: false,
        dispute_raised_by: None,
        dispute_raised_at: 0,
        agent: Some(agent),
        milestones: schedule,
        is_milestone_based: true,
    };
    record_escrow(
        store,
        ctx,
        trace,
        escrow,
        Event::MilestoneEscrowCreated { id, milestones: count },
    )
}

} // verus!
