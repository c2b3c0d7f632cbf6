//! Claiming and cancelling single escrows.
use crate::abort::Abort;
use crate::action::{
    follows, halt, Action, ActionView, Event, Halt, HaltView, Reply, ReplyView, Trace,
};
use crate::guard::{enter, entry_rule, search, searching};
use crate::store::{DataKey, Entry, EntryView, Place, PlaceView, Store, StoreView};
use crate::types::{Address, Context, Escrow, EscrowStatus, EscrowView, Milestone};
use vstd::prelude::*;

verus! {

/// Whether the recipient can claim from an escrow on this ledger.
pub open spec fn claim_check(ctx: Context, e: EscrowView) -> Result<(), Abort> {
    if e.is_milestone_based {
        Err(Abort::MilestoneClaimOnly)
    } else if e.status != EscrowStatus::Pending {
        Err(Abort::NotPending)
    } else if e.disputed {
        Err(Abort::Disputed)
    } else if ctx.sequence < e.release_ledger {
        Err(Abort::ReleaseNotReached)
    } else {
        Ok(())
    }
}

/// Checks that the recipient can claim from an escrow on this ledger.
fn check_claim(ctx: &Context, e: &Escrow) -> (outcome: Result<(), Abort>)
    ensures
        outcome == claim_check(*ctx, e@),
{
    if e.is_milestone_based {
        return Err(Abort::MilestoneClaimOnly);
    }
    if e.status != EscrowStatus::Pending {
        return Err(Abort::NotPending);
    }
    if e.disputed {
        return Err(Abort::Disputed);
    }
    if ctx.sequence < e.release_ledger {
        return Err(Abort::ReleaseNotReached);
    }
    Ok(())
}

/// The actions that settle an escrow in whole or in part, after those in
/// `before`: the amount is unlocked, the escrow's new state is written, and
/// only then is the amount paid to `payee`.
pub open spec fn settlement(
    store: StoreView,
    before: Seq<ActionView>,
    place: PlaceView,
    after: EscrowView,
    payee: Address,
    amount: i128,
    event: Event,
) -> Seq<ActionView> {
    before.push(ActionView::DecreaseLocked { token: place.escrow.token, amount }).push(
        ActionView::Write(EntryView::List(place.recipient, store.replaced(place, after))),
    ).push(ActionView::Bump(DataKey::EscrowByRecipient(place.recipient))).push(
        ActionView::PayOut { token: place.escrow.token, to: payee, amount },
    ).push(ActionView::Publish(event))
}

/// Records the actions that settle the escrow found at a place.
pub fn record_settlement(
    trace: &mut Trace,
    place: &Place<'_>,
    after: Escrow,
    payee: Address,
    amount: i128,
    event: Event,
)
    requires
        place.index < place.list.len(),
    ensures
        forall|store: StoreView, found: PlaceView|
            place.is(found, store) ==> final(trace)@ == #[trigger] settlement(
                store,
                old(trace)@,
                found,
                after@,
                payee,
                amount,
                event,
            ),
{
    let token = place.list[place.index].token;
    let list = place.replaced(after);
    trace.record(Action::DecreaseLocked { token, amount });
    trace.record(Action::Write(Entry::List(place.recipient, list)));
    trace.record(Action::Bump(DataKey::EscrowByRecipient(place.recipient)));
    trace.record(Action::PayOut { token, to: payee, amount });
    trace.record(Action::Publish(event));
}

/// The escrow after its recipient claimed this much of it.
pub open spec fn partially_claimed(e: EscrowView, claim_amount: i128) -> EscrowView {
    let remaining = (e.amount - claim_amount) as i128;
    EscrowView {
        amount: remaining,
        status: if remaining == 0 {
            EscrowStatus::Released
        } else {
            e.status
        },
        ..e
    }
}

/// What [`claim_escrow_partial`] does.
pub open spec fn claim_escrow_partial_rule(
    store: StoreView,
    ctx: Context,
    id: u32,
    claim_amount: i128,
) -> Result<ReplyView<i128>, HaltView> {
    let found = searching(store, id, Seq::empty());
    if entry_rule(ctx) is Err {
        halt(entry_rule(ctx)->Err_0, Seq::empty())
    } else {
        match store.locate(id, Abort::RecipientNotFound) {
            Err(reason) => halt(reason, found),
            Ok(place) => {
                let e = place.escrow;
                let authorised = found.push(ActionView::RequireAuth(e.to));
                if claim_check(ctx, e) is Err {
                    halt(claim_check(ctx, e)->Err_0, found)
                } else if claim_amount <= 0 {
                    halt(Abort::ClaimNotPositive, authorised)
                } else if claim_amount > e.amount {
                    halt(Abort::ClaimTooLarge, authorised)
                } else {
                    let after = partially_claimed(e, claim_amount);
                    Ok(
                        ReplyView {
                            value: after.amount,
                            trace: settlement(
                                store,
                                authorised,
                                place,
                                after,
                                e.to,
                                claim_amount,
                                Event::EscrowPartiallyClaimed {
                                    id,
                                    to: e.to,
                                    claimed: claim_amount,
                                    remaining: after.amount,
                                },
                            ),
                        },
                    )
                }
            },
        }
    }
}

/// Claims a partial amount from the escrow. The recipient must authorise the
/// call and the release ledger must have passed. Returns what remains in the
/// escrow; when nothing does, the escrow is released.
pub fn claim_escrow_partial(store: &Store, ctx: &Context, id: u32, claim_amount: i128) -> (outcome:
    Result<Reply<i128>, Halt>)
    ensures
        follows(outcome, claim_escrow_partial_rule(store@, *ctx, id, claim_amount)),
{
    let mut trace = Trace::new();
    match enter(ctx) {
        Ok(_) => {},
        Err(reason) => {
            return Err(Halt { reason, trace });
        },
    }
    let place = match search(store, id, Abort::RecipientNotFound, &mut trace) {
        Ok(place) => place,
        Err(reason) => {
            return Err(Halt { reason, trace });
        },
    };
    let e = &place.list[place.index];
    match check_claim(ctx, e) {
        Ok(_) => {},
        Err(reason) => {
            return Err(Halt { reason, trace });
        },
    }
    trace.record(Action::RequireAuth(e.to));
    if claim_amount <= 0 {
        return Err(Halt { reason: Abort::ClaimNotPositive, trace });
    }
    if claim_amount > e.amount {
        return Err(Halt { reason: Abort::ClaimTooLarge, trace });
    }
    let remaining = e.amount - claim_amount;
    let mut after = e.copy();
    if remaining == 0 {
        after.status = EscrowStatus::Released;
    }
    after.amount = remaining;
    assert(after@ =~= partially_claimed(e@, claim_amount));
    let to = e.to;
    record_settlement(
        &mut trace,
        &place,
        after,
        to,
        claim_amount,
        Event::EscrowPartiallyClaimed { id, to, claimed: claim_amount, remaining },
    );
    Ok(Reply { value: remaining, trace })
}

/// The escrow once it is released.
pub open spec fn released(e: EscrowView) -> EscrowView {
    EscrowView { status: EscrowStatus::Released, ..e }
}

/// What [`claim_escrow`] does.
pub open spec fn claim_escrow_rule(store: StoreView, ctx: Context, id: u32) -> Result<
    ReplyView<()>,
    HaltView,
> {
    let found = searching(store, id, Seq::empty());
    if entry_rule(ctx) is Err {
        halt(entry_rule(ctx)->Err_0, Seq::empty())
    } else {
        match store.locate(id, Abort::RecipientNotFound) {
            Err(reason) => halt(reason, found),
            Ok(place) => {
                let e = place.escrow;
                if claim_check(ctx, e) is Err {
                    halt(claim_check(ctx, e)->Err_0, found)
                } else {
                    Ok(
                        ReplyView {
                            value: (),
                            trace: settlement(
                                store,
                                found.push(ActionView::RequireAuth(e.to)),
                                place,
                                released(e),
                                e.to,
                                e.amount,
                                Event::EscrowClaimed { id, to: e.to, amount: e.amount },
                            ),
                        },
                    )
                }
            },
        }
    }
}

/// The recipient claims the escrowed funds after the release ledger has passed.
pub fn claim_escrow(store: &Store, ctx: &Context, id: u32) -> (outcome: Result<Reply<()>, Halt>)
    ensures
        follows(outcome, claim_escrow_rule(store@, *ctx, id)),
{
    let mut trace = Trace::new();
    match enter(ctx) {
        Ok(_) => {},
        Err(reason) => {
            return Err(Halt { reason, trace });
        },
    }
    let place = match search(store, id, Abort::RecipientNotFound, &mut trace) {
        Ok(place) => place,
        Err(reason) => {
            return Err(Halt { reason, trace });
        },
    };
    let e = &place.list[place.index];
    match check_claim(ctx, e) {
        Ok(_) => {},
        Err(reason) => {
            return Err(Halt { reason, trace });
        },
    }
    trace.record(Action::RequireAuth(e.to));
    let mut after = e.copy();
    after.status = EscrowStatus::Released;
    assert(after@ =~= released(e@));
    let to = e.to;
    let amount = e.amount;
    record_settlement(
        &mut trace,
        &place,
        after,
        to,
        amount,
        Event::EscrowClaimed { id, to, amount },
    );
    Ok(Reply { value: (), trace })
}

/// What milestones that are not claimed yet add up to.
pub open spec fn unclaimed(milestones: Seq<Milestone>) -> int
    decreases milestones.len(),
{
    if milestones.len() == 0 {
        0
    } else {
        unclaimed(milestones.drop_last()) + if milestones.last().claimed {
            0
        } else {
            milestones.last().amount as int
        }
    }
}

/// Whether the unclaimed amounts can be added up one after the other without
/// leaving the range of their type.
pub open spec fn unclaimed_fits(milestones: Seq<Milestone>) -> bool {
    forall|n: int|
        0 <= n <= milestones.len() ==> i128::MIN <= #[trigger] unclaimed(milestones.take(n))
            <= i128::MAX
}

/// What milestones that are not claimed yet add up to.
fn sum_unclaimed(milestones: &Vec<Milestone>) -> (sum: Option<i128>)
    ensures
        match sum {
            Some(sum) => unclaimed_fits(milestones@) && sum == unclaimed(milestones@),
            None => !unclaimed_fits(milestones@),
        },
{
    let mut sum: i128 = 0;
    let mut i: usize = 0;
    while i < milestones.len()
        invariant
            i <= milestones.len(),
            sum == unclaimed(milestones@.take(i as int)),
            forall|n: int|
                0 <= n <= i ==> i128::MIN <= #[trigger] unclaimed(milestones@.take(n))
                    <= i128::MAX,
        decreases milestones.len() - i,
    {
        assert(milestones@.take(i + 1).drop_last() =~= milestones@.take(i as int));
        assert(milestones@.take(i + 1).last() == milestones@[i as int]);
        assert(unclaimed(milestones@.take(i + 1)) == sum + if milestones[i as int].claimed {
            0
        } else {
            milestones[i as int].amount as int
        });
        if !milestones[i].claimed {
            sum = match sum.checked_add(milestones[i].amount) {
                Some(sum) => sum,
                None => {
                    return None;
                },
            };
        }
        i = i + 1;
    }
    assert(milestones@.take(i as int) =~= milestones@);
    Some(sum)
}

/// Whether an escrow is in a state in which it can be cancelled.
pub open spec fn cancel_check(e: EscrowView) -> Result<(), Abort> {
    if e.status != EscrowStatus::Pending {
        Err(Abort::NotPending)
    } else if e.disputed {
        Err(Abort::Disputed)
    } else {
        Ok(())
    }
}

/// What the payer of a pending escrow gets back by cancelling it on this
/// ledger. A milestone escrow can be cancelled on any ledger and gives back
/// what is not claimed yet; any other gives back everything until its release
/// ledger.
pub open spec fn refund_rule(ctx: Context, e: EscrowView) -> Result<i128, Abort> {
    if e.is_milestone_based {
        if unclaimed_fits(e.milestones) {
            Ok(unclaimed(e.milestones) as i128)
        } else {
            Err(Abort::Overflow)
        }
    } else if ctx.sequence >= e.release_ledger {
        Err(Abort::ReleaseAlreadyReached)
    } else {
        Ok(e.amount)
    }
}

/// Determines what the payer of a pending escrow gets back by cancelling it.
fn refund(ctx: &Context, e: &Escrow) -> (outcome: Result<i128, Abort>)
    ensures
        outcome == refund_rule(*ctx, e@),
{
    if e.is_milestone_based {
        match sum_unclaimed(&e.milestones) {
            Some(sum) => {
                assert(e.milestones@.take(e.milestones@.len() as int) =~= e.milestones@);
                Ok(sum)
            },
            None => Err(Abort::Overflow),
        }
    } else {
        if ctx.sequence >= e.release_ledger {
            return Err(Abort::ReleaseAlreadyReached);
        }
        Ok(e.amount)
    }
}

/// The escrow once it is cancelled.
pub open spec fn cancelled(e: EscrowView) -> EscrowView {
    EscrowView { status: EscrowStatus::Cancelled, ..e }
}

/// What [`cancel_escrow`] does.
pub open spec fn cancel_escrow_rule(store: StoreView, ctx: Context, id: u32) -> Result<
    ReplyView<()>,
    HaltView,
> {
    let found = searching(store, id, Seq::empty());
    if entry_rule(ctx) is Err {
        halt(entry_rule(ctx)->Err_0, Seq::empty())
    } else {
        match store.locate(id, Abort::RecipientNotFound) {
            Err(reason) => halt(reason, found),
            Ok(place) => {
                let e = place.escrow;
                let authorised = found.push(ActionView::RequireAuth(e.from));
                if cancel_check(e) is Err {
                    halt(cancel_check(e)->Err_0, found)
                } else {
                    match refund_rule(ctx, e) {
                        Err(reason) => halt(reason, authorised),
                        Ok(refund) => Ok(
                            ReplyView {
                                value: (),
                                trace: settlement(
                                    store,
                                    authorised,
                                    place,
                                    cancelled(e),
                                    e.from,
                                    refund,
                                    Event::EscrowCancelled { id, from: e.from, refund },
                                ),
                            },
                        ),
                    }
                }
            },
        }
    }
}

/// The payer cancels the escrow before the release ledger; funds are returned.
/// A milestone escrow has no release ledger: it can be cancelled while it is
/// pending, and what was claimed stays with the recipient.
pub fn cancel_escrow(store: &Store, ctx: &Context, id: u32) -> (outcome: Result<Reply<()>, Halt>)
    ensures
        follows(outcome, cancel_escrow_rule(store@, *ctx, id)),
{
    let mut trace = Trace::new();
    match enter(ctx) {
        Ok(_) => {},
        Err(reason) => {
            return Err(Halt { reason, trace });
        },
    }
    let place = match search(store, id, Abort::RecipientNotFound, &mut trace) {
        Ok(place) => place,
        Err(reason) => {
            return Err(Halt { reason, trace });
        },
    };
    let e = &place.list[place.index];
    if e.status != EscrowStatus::Pending {
        return Err(Halt { reason: Abort::NotPending, trace });
    }
    if e.disputed {
        return Err(Halt { reason: Abort::Disputed, trace });
    }
    trace.record(Action::RequireAuth(e.from));
    let refund = match refund(ctx, e) {
        Ok(refund) => refund,
        Err(reason) => {
            return Err(Halt { reason, trace });
        },
    };
    let mut after = e.copy();
    after.status = EscrowStatus::Cancelled;
    assert(after@ =~= cancelled(e@));
    let from = e.from;
    record_settlement(
        &mut trace,
        &place,
        after,
        from,
        refund,
        Event::EscrowCancelled { id, from, refund },
    );
    Ok(Reply { value: (), trace })
}

} // verus!
