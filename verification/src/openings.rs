//! When an escrow is opened, what is recorded of it, and what is paid for it.
use crate::abort::Abort;
use crate::accounts::{charges_signer, counted, group_accounts, lemma_asks, listed, only_asks};
use crate::action::{ActionView, Event};
use crate::create::{numbered, recording, schedule_total};
use crate::history::{added, after, creates_one, ending, lemma_added, outcome, trace_of, Call};
use crate::sequences::answer;
use crate::soundness::scheduled;
use crate::store::{DataKey, StoreView};
use crate::types::{Address, Context, ContractError, EscrowStatus, EscrowView, Milestone};
use vstd::prelude::*;

verus! {

/// Whether calls that open escrows are let in.
pub open spec fn open_for_business(ctx: Context) -> bool {
    !ctx.guard_held && ctx.initialized && !ctx.paused
}

/// Whether an amount is positive and within the contract's bounds.
pub open spec fn within_bounds(ctx: Context, amount: i128) -> bool {
    0 < amount && ctx.limits.min_escrow_amount <= amount <= ctx.limits.max_escrow_amount
}

/// Whether a ledger lies ahead, and no further than the contract looks.
pub open spec fn within_reach(ctx: Context, ledger: u32) -> bool {
    ctx.sequence < ledger <= ctx.sequence + ctx.limits.max_escrow_ledgers <= u32::MAX
}

/// Whether a recipient has room for one more escrow.
pub open spec fn has_room(store: StoreView, ctx: Context, to: Address) -> bool {
    listed(store, to).len() < ctx.limits.max_user_escrows
}

/// Whether the entries differ by one new escrow: its recipient is recorded under
/// its id, it stands last in the recipient's list, and it is counted.
pub open spec fn gains(store: StoreView, after: StoreView, e: EscrowView) -> bool {
    &&& after.recipients == store.recipients.insert(e.id, e.to)
    &&& after.lists == store.lists.insert(e.to, listed(store, e.to).push(e))
    &&& after.count == Some((counted(store) + 1) as u32)
    &&& after.arbitrators == store.arbitrators
    &&& after.arbitrator_count == store.arbitrator_count
}

/// Whether the reason that is given for refusing to open an escrow is true.
pub open spec fn refusal_is_true(
    store: StoreView,
    ctx: Context,
    from: Address,
    to: Address,
    amount: i128,
    reason: Abort,
) -> bool {
    match reason {
        Abort::Reentrant => ctx.guard_held,
        Abort::NotInitialized => !ctx.initialized,
        Abort::Paused => ctx.paused,
        Abort::SelfEscrow => from == to,
        Abort::AmountNotPositive => amount <= 0,
        Abort::AmountTooLarge => amount > ctx.limits.max_escrow_amount,
        Abort::AmountTooSmall => amount < ctx.limits.min_escrow_amount,
        Abort::AdditionOverflow => ctx.sequence + ctx.limits.max_escrow_ledgers > u32::MAX
            || counted(store) == u32::MAX,
        _ => false,
    }
}

/// What recording an escrow amounts to.
proof fn lemma_recording_charges(
    store: StoreView,
    before: Seq<ActionView>,
    e: EscrowView,
    event: Event,
)
    requires
        only_asks(before, seq![e.from]),
    ensures
        charges_signer(
            recording(store, before, e).push(ActionView::Publish(event)),
            e.token,
            e.from,
            e.amount as int,
            event,
        ),
{
    broadcast use group_accounts;

    assert(Seq::<Event>::empty().push(event) =~= seq![event]);
}

/// An escrow can be opened exactly where the parties differ, the amount is within
/// bounds and the release ledger is within reach. If the recipient has no room,
/// the call says so and nothing moves. Else the next id is answered, the escrow
/// is recorded as pending with these terms, and the payer, who alone is asked,
/// pays exactly the amount, which is locked.
#[verifier::rlimit(40)]
pub proof fn law_create_opens_a_plain_escrow(
    store: StoreView,
    ctx: Context,
    token: Address,
    from: Address,
    to: Address,
    amount: i128,
    release_ledger: u32,
    memo: Seq<char>,
)
    ensures
        ({
            let call = Call::CreateEscrow { token, from, to, amount, release_ledger, memo };
            let id = counted(store) as u32;
            &&& trace_of(store, ctx, call) is Some <==> open_for_business(ctx) && from != to
                && within_bounds(ctx, amount) && within_reach(ctx, release_ledger) && (has_room(
                store,
                ctx,
                to,
            ) ==> counted(store) < u32::MAX)
            &&& trace_of(store, ctx, call) matches Some(trace) ==> if has_room(store, ctx, to) {
                &&& answer(store, ctx, call) == Some(Ok::<u32, ContractError>(id))
                &&& gains(
                    store,
                    outcome(store, ctx, call),
                    EscrowView {
                        id,
                        from,
                        to,
                        token,
                        amount,
                        release_ledger,
                        status: EscrowStatus::Pending,
                        memo,
                        arbitrator: None,
                        disputed: false,
                        dispute_raised_by: None,
                        dispute_raised_at: 0,
                        agent: None,
                        milestones: Seq::empty(),
                        is_milestone_based: false,
                    },
                )
                &&& charges_signer(
                    trace,
                    token,
                    from,
                    amount as int,
                    Event::EscrowCreated { id, from, to, amount, release_ledger },
                )
            } else {
                &&& answer(store, ctx, call) == Some(
                    Err::<u32, ContractError>(ContractError::IndexFull),
                )
                &&& outcome(store, ctx, call) == store
                &&& only_asks(trace, seq![from])
            }
            &&& ending(store, ctx, call) matches Err(halt) ==> match halt.reason {
                Abort::ReleaseNotInFuture => release_ledger <= ctx.sequence,
                Abort::ReleaseTooFar => release_ledger > ctx.sequence
                    + ctx.limits.max_escrow_ledgers,
                reason => refusal_is_true(store, ctx, from, to, amount, reason),
            }
        }),
{
    reveal(ending);
    let call = Call::CreateEscrow { token, from, to, amount, release_ledger, memo };
    if let Some(trace) = trace_of(store, ctx, call) {
        lemma_added(store, ctx, call);
        lemma_asks(store, 0, from);
        if let Some(e) = added(store, ctx, call) {
            lemma_recording_charges(
                store,
                seq![ActionView::RequireAuth(from)],
                e,
                Event::EscrowCreated { id: e.id, from, to, amount, release_ledger },
            );
        }
    }
}

/// A disputable escrow can be opened exactly where a plain one could and the
/// arbitrator is registered. It is recorded as a plain one would be, with the
/// arbitrator and without a memo, and paid for in the same way.
#[verifier::rlimit(40)]
pub proof fn law_create_opens_a_disputable_escrow(
    store: StoreView,
    ctx: Context,
    token: Address,
    from: Address,
    to: Address,
    amount: i128,
    release_ledger: u32,
    arbitrator: Address,
)
    ensures
        ({
            let call = Call::CreateDisputableEscrow {
                token,
                from,
                to,
                amount,
                release_ledger,
                arbitrator,
            };
            let id = counted(store) as u32;
            &&& trace_of(store, ctx, call) is Some <==> open_for_business(ctx) && from != to
                && within_bounds(ctx, amount) && within_reach(ctx, release_ledger) && (
            store.arbitrators matches Some(list) && list.contains(arbitrator)) && (has_room(
                store,
                ctx,
                to,
            ) ==> counted(store) < u32::MAX)
            &&& trace_of(store, ctx, call) matches Some(trace) ==> if has_room(store, ctx, to) {
                &&& answer(store, ctx, call) == Some(Ok::<u32, ContractError>(id))
                &&& gains(
                    store,
                    outcome(store, ctx, call),
                    EscrowView {
                        id,
                        from,
                        to,
                        token,
                        amount,
                        release_ledger,
                        status: EscrowStatus::Pending,
                        memo: Seq::empty(),
                        arbitrator: Some(arbitrator),
                        disputed: false,
                        dispute_raised_by: None,
                        dispute_raised_at: 0,
                        agent: None,
                        milestones: Seq::empty(),
                        is_milestone_based: false,
                    },
                )
                &&& charges_signer(
                    trace,
                    token,
                    from,
                    amount as int,
                    Event::DisputableEscrowCreated { id, arbitrator },
                )
            } else {
                &&& answer(store, ctx, call) == Some(
                    Err::<u32, ContractError>(ContractError::IndexFull),
                )
                &&& outcome(store, ctx, call) == store
                &&& only_asks(trace, seq![from])
            }
            &&& ending(store, ctx, call) matches Err(halt) ==> match halt.reason {
                Abort::ReleaseNotInFuture => release_ledger <= ctx.sequence,
                Abort::ReleaseTooFar => release_ledger > ctx.sequence
                    + ctx.limits.max_escrow_ledgers,
                Abort::NoArbitrators => store.arbitrators is None,
                Abort::ArbitratorNotRegistered => store.arbitrators matches Some(list)
                    && !list.contains(arbitrator),
                reason => refusal_is_true(store, ctx, from, to, amount, reason),
            }
        }),
{
    reveal(ending);
    let call = Call::CreateDisputableEscrow { token, from, to, amount, release_ledger, arbitrator };
    if let Some(trace) = trace_of(store, ctx, call) {
        lemma_added(store, ctx, call);
        lemma_asks(store, 0, from);
        let looked_up = seq![ActionView::RequireAuth(from)].push(
            ActionView::Bump(DataKey::Arbitrators),
        );
        assert(only_asks(looked_up, seq![from])) by {
            broadcast use group_accounts;

        }
        if let Some(e) = added(store, ctx, call) {
            lemma_recording_charges(
                store,
                looked_up,
                e,
                Event::DisputableEscrowCreated { id: e.id, arbitrator },
            );
        }
    }
}

/// Whether a milestone can be part of a new escrow: its amount is positive, and
/// its deadline, if it has one, lies ahead.
pub open spec fn acceptable(ctx: Context, m: Milestone) -> bool {
    m.amount > 0 && (m.approval_deadline_ledger == 0 || m.approval_deadline_ledger > ctx.sequence)
}

/// A schedule is accepted exactly where every milestone is acceptable and their
/// sum fits; and what is wrong with one that is not.
proof fn lemma_schedule(ctx: Context, milestones: Seq<Milestone>)
    ensures
        match schedule_total(ctx, milestones) {
            Ok(total) => {
                &&& total == scheduled(milestones)
                &&& 0 <= total <= i128::MAX
                &&& forall|i: int|
                    0 <= i < milestones.len() ==> acceptable(ctx, #[trigger] milestones[i])
            },
            Err(Abort::MilestoneNotPositive) => exists|i: int|
                0 <= i < milestones.len() && (#[trigger] milestones[i]).amount <= 0,
            Err(Abort::DeadlineNotInFuture) => exists|i: int|
                0 <= i < milestones.len() && 0 < (
                #[trigger] milestones[i]).approval_deadline_ledger <= ctx.sequence,
            Err(Abort::Overflow) => exists|n: int|
                0 <= n <= milestones.len() && #[trigger] scheduled(milestones.take(n)) > i128::MAX,
            Err(_) => false,
        },
    decreases milestones.len(),
{
    if milestones.len() > 0 {
        let init = milestones.drop_last();
        let last = milestones.len() - 1;
        lemma_schedule(ctx, init);
        match schedule_total(ctx, init) {
            Ok(total) => {
                assert(milestones[last] == milestones.last());
                if schedule_total(ctx, milestones) is Ok {
                    assert forall|i: int| 0 <= i < milestones.len() implies acceptable(
                        ctx,
                        #[trigger] milestones[i],
                    ) by {
                        if i < last {
                            assert(milestones[i] == init[i]);
                        }
                    }
                } else if schedule_total(ctx, milestones)->Err_0 == Abort::Overflow {
                    assert(milestones.take(last + 1) =~= milestones);
                    assert(scheduled(milestones.take(last + 1)) > i128::MAX);
                }
            },
            Err(Abort::MilestoneNotPositive) => {
                let i = choose|i: int|
                    0 <= i < init.len() && (#[trigger] init[i]).amount <= 0;
                assert(milestones[i] == init[i]);
            },
            Err(Abort::DeadlineNotInFuture) => {
                let i = choose|i: int|
                    0 <= i < init.len() && 0 < (#[trigger] init[i]).approval_deadline_ledger
                        <= ctx.sequence;
                assert(milestones[i] == init[i]);
            },
            Err(Abort::Overflow) => {
                let n = choose|n: int|
                    0 <= n <= init.len() && #[trigger] scheduled(init.take(n)) > i128::MAX;
                assert(milestones.take(n) =~= init.take(n));
                assert(scheduled(milestones.take(n)) > i128::MAX);
            },
            Err(_) => {},
        }
    }
}

/// The first parts of acceptable milestones add up to no more than all of them.
proof fn lemma_scheduled_part(ctx: Context, milestones: Seq<Milestone>, n: int)
    requires
        0 <= n <= milestones.len(),
        forall|i: int| 0 <= i < milestones.len() ==> acceptable(ctx, #[trigger] milestones[i]),
    ensures
        scheduled(milestones.take(n)) <= scheduled(milestones),
    decreases milestones.len(),
{
    if n == milestones.len() {
        assert(milestones.take(n) =~= milestones);
    } else {
        let init = milestones.drop_last();
        assert(milestones[milestones.len() - 1].amount > 0);
        assert forall|i: int| 0 <= i < init.len() implies acceptable(
            ctx,
            #[trigger] init[i],
        ) by {
            assert(init[i] == milestones[i]);
        }
        assert(init.take(n) =~= milestones.take(n));
        lemma_scheduled_part(ctx, init, n);
    }
}

/// A milestone escrow can be opened exactly where the parties differ, the agent
/// is not the recipient, the deposit is within bounds, and between one and the
/// most possible number of acceptable milestones add up to the deposit. It is
/// recorded with the milestones as given, numbered from 0 on, and paid for as any
/// other escrow.
#[verifier::rlimit(60)]
pub proof fn law_create_opens_a_milestone_escrow(
    store: StoreView,
    ctx: Context,
    token: Address,
    from: Address,
    to: Address,
    agent: Address,
    milestones: Seq<Milestone>,
    deposit: i128,
)
    ensures
        ({
            let call = Call::CreateMilestoneEscrow { token, from, to, agent, milestones, deposit };
            let id = counted(store) as u32;
            &&& trace_of(store, ctx, call) is Some <==> open_for_business(ctx) && from != to
                && agent != to && within_bounds(ctx, deposit) && 1 <= milestones.len()
                <= ctx.limits.max_milestones && (forall|i: int|
                0 <= i < milestones.len() ==> acceptable(ctx, #[trigger] milestones[i]))
                && scheduled(milestones) == deposit && (has_room(store, ctx, to) ==> counted(store)
                < u32::MAX)
            &&& trace_of(store, ctx, call) matches Some(trace) ==> if has_room(store, ctx, to) {
                &&& answer(store, ctx, call) == Some(Ok::<u32, ContractError>(id))
                &&& gains(
                    store,
                    outcome(store, ctx, call),
                    EscrowView {
                        id,
                        from,
                        to,
                        token,
                        amount: deposit,
                        release_ledger: 0,
                        status: EscrowStatus::Pending,
                        memo: Seq::empty(),
                        arbitrator: None,
                        disputed: false,
                        dispute_raised_by: None,
                        dispute_raised_at: 0,
                        agent: Some(agent),
                        milestones: milestones.map(
                            |i: int, m: Milestone| Milestone { id: i as u32, ..m },
                        ),
                        is_milestone_based: true,
                    },
                )
                &&& charges_signer(
                    trace,
                    token,
                    from,
                    deposit as int,
                    Event::MilestoneEscrowCreated { id, milestones: milestones.len() as u32 },
                )
            } else {
                &&& answer(store, ctx, call) == Some(
                    Err::<u32, ContractError>(ContractError::IndexFull),
                )
                &&& outcome(store, ctx, call) == store
                &&& only_asks(trace, seq![from])
            }
            &&& ending(store, ctx, call) matches Err(halt) ==> match halt.reason {
                Abort::AgentIsRecipient => agent == to,
                Abort::NoMilestones => milestones.len() == 0,
                Abort::TooManyMilestones => milestones.len() > ctx.limits.max_milestones,
                Abort::MilestoneNotPositive => exists|i: int|
                    0 <= i < milestones.len() && (#[trigger] milestones[i]).amount <= 0,
                Abort::DeadlineNotInFuture => exists|i: int|
                    0 <= i < milestones.len() && 0 < (
                    #[trigger] milestones[i]).approval_deadline_ledger <= ctx.sequence,
                Abort::Overflow => exists|n: int|
                    0 <= n <= milestones.len() && #[trigger] scheduled(milestones.take(n))
                        > i128::MAX,
                Abort::MilestoneSumMismatch => scheduled(milestones) != deposit,
                Abort::AdditionOverflow => counted(store) == u32::MAX,
                reason => refusal_is_true(store, ctx, from, to, deposit, reason),
            }
        }),
{
    reveal(ending);
    let call = Call::CreateMilestoneEscrow { token, from, to, agent, milestones, deposit };
    lemma_schedule(ctx, milestones);
    if (forall|i: int| 0 <= i < milestones.len() ==> acceptable(ctx, #[trigger] milestones[i]))
        && scheduled(milestones) == deposit {
        match schedule_total(ctx, milestones) {
            Err(Abort::MilestoneNotPositive) => {
                let i = choose|i: int|
                    0 <= i < milestones.len() && (#[trigger] milestones[i]).amount <= 0;
                assert(acceptable(ctx, milestones[i]));
            },
            Err(Abort::DeadlineNotInFuture) => {
                let i = choose|i: int|
                    0 <= i < milestones.len() && 0 < (
                    #[trigger] milestones[i]).approval_deadline_ledger <= ctx.sequence;
                assert(acceptable(ctx, milestones[i]));
            },
            Err(Abort::Overflow) => {
                let n = choose|n: int|
                    0 <= n <= milestones.len() && #[trigger] scheduled(milestones.take(n))
                        > i128::MAX;
                lemma_scheduled_part(ctx, milestones, n);
            },
            _ => {},
        }
        assert(schedule_total(ctx, milestones) is Ok);
    }
    if let Some(trace) = trace_of(store, ctx, call) {
        lemma_added(store, ctx, call);
        lemma_asks(store, 0, from);
        assert(numbered(milestones) =~= milestones.map(
            |i: int, m: Milestone| Milestone { id: i as u32, ..m },
        ));
        if let Some(e) = added(store, ctx, call) {
            lemma_recording_charges(
                store,
                seq![ActionView::RequireAuth(from)],
                e,
                Event::MilestoneEscrowCreated {
                    id: e.id,
                    milestones: milestones.len() as u32,
                },
            );
        }
    }
}

/// A call that opens an escrow asks its payer before anything else, and takes the
/// payment before it records anything.
#[verifier::rlimit(60)]
#[verifier::spinoff_prover]
pub proof fn law_paid_before_recorded(store: StoreView, ctx: Context, call: Call)
    requires
        creates_one(call),
        trace_of(store, ctx, call) is Some,
    ensures
        ({
            let trace = trace_of(store, ctx, call)->0;
            &&& trace.len() > 0
            &&& trace[0] == ActionView::RequireAuth(
                match call {
                    Call::CreateEscrow { from, .. } => from,
                    Call::CreateDisputableEscrow { from, .. } => from,
                    Call::CreateMilestoneEscrow { from, .. } => from,
                    _ => arbitrary(),
                },
            )
            &&& forall|i: int, j: int|
                0 <= i < j < trace.len() && (#[trigger] trace[i] is Write || trace[i] is Publish)
                    ==> !(#[trigger] trace[j] is PullFunds)
        }),
{
    reveal(ending);
}

} // verus!
