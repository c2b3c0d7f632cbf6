//! Approving and claiming milestones.
use crate::abort::Abort;
use crate::action::{
    follows, halt, Action, ActionView, Event, Halt, HaltView, Reply, ReplyView, Trace,
};
use crate::claim::{record_settlement, settlement};
use crate::guard::{enter, entry_rule, search, searching};
use crate::store::{DataKey, Entry, EntryView, Store, StoreView};
use crate::types::{Address, Context, Escrow, EscrowStatus, EscrowView, Milestone};
use vstd::prelude::*;

verus! {

/// The position of the first milestone with this id.
pub open spec fn milestone_position(milestones: Seq<Milestone>, id: u32) -> Option<int>
    decreases milestones.len(),
{
    if milestones.len() == 0 {
        None
    } else {
        match milestone_position(milestones.drop_last(), id) {
            Some(i) => Some(i),
            None => if milestones.last().id == id {
                Some(milestones.len() - 1)
            } else {
                None
            },
        }
    }
}

/// A found position lies in the schedule, holds the id and is the first that
/// does; where none is found, no milestone has the id.
pub proof fn lemma_milestone_position(milestones: Seq<Milestone>, id: u32)
    ensures
        match milestone_position(milestones, id) {
            Some(i) => {
                &&& 0 <= i < milestones.len()
                &&& milestones[i].id == id
                &&& forall|j: int| 0 <= j < i ==> (#[trigger] milestones[j]).id != id
            },
            None => forall|j: int|
                0 <= j < milestones.len() ==> (#[trigger] milestones[j]).id != id,
        },
    decreases milestones.len(),
{
    if milestones.len() > 0 {
        let init = milestones.drop_last();
        lemma_milestone_position(init, id);
        assert forall|j: int| 0 <= j < init.len() implies #[trigger] milestones[j] == init[j] by {}
    }
}

/// The position of the first milestone with this id.
fn find_milestone(milestones: &Vec<Milestone>, id: u32) -> (found: Option<usize>)
    ensures
        match found {
            Some(i) => milestone_position(milestones@, id) == Some(i as int) && i
                < milestones.len(),
            None => milestone_position(milestones@, id) is None,
        },
{
    let mut i: usize = 0;
    while i < milestones.len()
        invariant
            i <= milestones.len(),
            forall|j: int| 0 <= j < i ==> (#[trigger] milestones[j]).id != id,
        decreases milestones.len() - i,
    {
        if milestones[i].id == id {
            proof {
                lemma_milestone_position(milestones@, id);
            }
            return Some(i);
        }
        i = i + 1;
    }
    proof {
        lemma_milestone_position(milestones@, id);
    }
    None
}

/// Whether an address may approve milestones of an escrow: its agent or its payer.
pub open spec fn may_approve(e: EscrowView, approver: Address) -> bool {
    e.agent == Some(approver) || approver == e.from
}

/// The escrow after one of its milestones is approved on this ledger.
pub open spec fn approval_rule(
    ctx: Context,
    e: EscrowView,
    milestone_id: u32,
    approver: Address,
) -> Result<EscrowView, Abort> {
    if !e.is_milestone_based {
        Err(Abort::NotMilestoneBased)
    } else if e.status != EscrowStatus::Pending {
        Err(Abort::NotPending)
    } else if !may_approve(e, approver) {
        Err(Abort::Unauthorized)
    } else {
        match milestone_position(e.milestones, milestone_id) {
            None => Err(Abort::MilestoneNotFound),
            Some(i) => {
                let m = e.milestones[i];
                if m.approved {
                    Err(Abort::MilestoneAlreadyApproved)
                } else if 0 < m.approval_deadline_ledger < ctx.sequence {
                    Err(Abort::DeadlinePassed)
                } else {
                    Ok(
                        EscrowView {
                            milestones: e.milestones.update(i, Milestone { approved: true, ..m }),
                            ..e
                        },
                    )
                }
            },
        }
    }
}

/// Approves a milestone of an escrow.
fn approved(ctx: &Context, e: &Escrow, milestone_id: u32, approver: Address) -> (outcome: Result<
    Escrow,
    Abort,
>)
    ensures
        match approval_rule(*ctx, e@, milestone_id, approver) {
            Ok(after) => outcome matches Ok(escrow) && escrow@ == after,
            Err(abort) => outcome matches Err(reason) && reason == abort,
        },
{
    if !e.is_milestone_based {
        return Err(Abort::NotMilestoneBased);
    }
    if e.status != EscrowStatus::Pending {
        return Err(Abort::NotPending);
    }
    let is_agent = match e.agent {
        Some(agent) => agent == approver,
        None => false,
    };
    if !is_agent && approver != e.from {
        return Err(Abort::Unauthorized);
    }
    let i = match find_milestone(&e.milestones, milestone_id) {
        Some(i) => i,
        None => {
            return Err(Abort::MilestoneNotFound);
        },
    };
    let mut m = e.milestones[i];
    if m.approved {
        return Err(Abort::MilestoneAlreadyApproved);
    }
    if m.approval_deadline_ledger > 0 && ctx.sequence > m.approval_deadline_ledger {
        return Err(Abort::DeadlinePassed);
    }
    m.approved = true;
    let mut after = e.copy();
    after.milestones.set(i, m);
    assert(after@ =~= approval_rule(*ctx, e@, milestone_id, approver)->Ok_0);
    Ok(after)
}

/// What [`approve_milestone`] does.
pub open spec fn approve_milestone_rule(
    store: StoreView,
    ctx: Context,
    escrow_id: u32,
    milestone_id: u32,
    approver: Address,
) -> Result<ReplyView<()>, HaltView> {
    let found = searching(store, escrow_id, seq![ActionView::RequireAuth(approver)]);
    if entry_rule(ctx) is Err {
        halt(entry_rule(ctx)->Err_0, Seq::empty())
    } else {
        match store.locate(escrow_id, Abort::RecipientNotFound) {
            Err(reason) => halt(reason, found),
            Ok(place) => match approval_rule(ctx, place.escrow, milestone_id, approver) {
                Err(reason) => halt(reason, found),
                Ok(after) => Ok(
                    ReplyView {
                        value: (),
                        trace: found.push(
                            ActionView::Write(
                                EntryView::List(place.recipient, store.replaced(place, after)),
                            ),
                        ).push(ActionView::Bump(DataKey::EscrowByRecipient(place.recipient))).push(
                            ActionView::Publish(
                                Event::MilestoneApproved {
                                    escrow: escrow_id,
                                    milestone: milestone_id,
                                },
                            ),
                        ),
                    },
                ),
            },
        }
    }
}

/// Approves a milestone for release. Only the escrow's agent or the client
/// (`from`) may approve. Once approved, the milestone can be claimed by the
/// recipient.
pub fn approve_milestone(
    store: &Store,
    ctx: &Context,
    escrow_id: u32,
    milestone_id: u32,
    approver: Address,
) -> (outcome: Result<Reply<()>, Halt>)
    ensures
        follows(
            outcome,
            approve_milestone_rule(store@, *ctx, escrow_id, milestone_id, approver),
        ),
{
    let mut trace = Trace::new();
    match enter(ctx) {
        Ok(_) => {},
        Err(reason) => {
            return Err(Halt { reason, trace });
        },
    }
    trace.record(Action::RequireAuth(approver));
    assert(trace@ =~= seq![ActionView::RequireAuth(approver)]);
    let place = match search(store, escrow_id, Abort::RecipientNotFound, &mut trace) {
        Ok(place) => place,
        Err(reason) => {
            return Err(Halt { reason, trace });
        },
    };
    let e = &place.list[place.index];
    let after = match approved(ctx, e, milestone_id, approver) {
        Ok(after) => after,
        Err(reason) => {
            return Err(Halt { reason, trace });
        },
    };
    let recipient = place.recipient;
    let list = place.replaced(after);
    trace.record(Action::Write(Entry::List(recipient, list)));
    trace.record(Action::Bump(DataKey::EscrowByRecipient(recipient)));
    trace.record(
        Action::Publish(Event::MilestoneApproved { escrow: escrow_id, milestone: milestone_id }),
    );
    Ok(Reply { value: (), trace })
}

/// Whether all milestones are claimed.
pub open spec fn all_claimed(milestones: Seq<Milestone>) -> bool {
    forall|i: int| 0 <= i < milestones.len() ==> (#[trigger] milestones[i]).claimed
}

/// Whether all milestones are claimed.
fn is_all_claimed(milestones: &Vec<Milestone>) -> (all: bool)
    ensures
        all == all_claimed(milestones@),
{
    let mut i: usize = 0;
    while i < milestones.len()
        invariant
            i <= milestones.len(),
            forall|j: int| 0 <= j < i ==> (#[trigger] milestones[j]).claimed,
        decreases milestones.len() - i,
    {
        if !milestones[i].claimed {
            assert(!milestones@[i as int].claimed);
            return false;
        }
        i = i + 1;
    }
    true
}

/// The escrow after its recipient claimed one of its milestones, and the amount
/// of that milestone. Claiming the last one releases the escrow.
pub open spec fn milestone_claim_rule(
    e: EscrowView,
    milestone_id: u32,
    recipient: Address,
) -> Result<(EscrowView, i128), Abort> {
    if !e.is_milestone_based {
        Err(Abort::NotMilestoneBased)
    } else if e.status != EscrowStatus::Pending {
        Err(Abort::NotPending)
    } else if recipient != e.to {
        Err(Abort::Unauthorized)
    } else {
        match milestone_position(e.milestones, milestone_id) {
            None => Err(Abort::MilestoneNotFound),
            Some(i) => {
                let m = e.milestones[i];
                if !m.approved {
                    Err(Abort::MilestoneNotApproved)
                } else if m.claimed {
                    Err(Abort::MilestoneAlreadyClaimed)
                } else {
                    let milestones = e.milestones.update(i, Milestone { claimed: true, ..m });
                    let status = if all_claimed(milestones) {
                        EscrowStatus::Released
                    } else {
                        e.status
                    };
                    Ok((EscrowView { milestones, status, ..e }, m.amount))
                }
            },
        }
    }
}

/// Claims a milestone of an escrow.
fn milestone_claimed(e: &Escrow, milestone_id: u32, recipient: Address) -> (outcome: Result<
    (Escrow, i128),
    Abort,
>)
    ensures
        match milestone_claim_rule(e@, milestone_id, recipient) {
            Ok((after, amount)) => outcome matches Ok(claimed) && claimed.0@ == after && claimed.1
                == amount,
            Err(abort) => outcome matches Err(reason) && reason == abort,
        },
{
    if !e.is_milestone_based {
        return Err(Abort::NotMilestoneBased);
    }
    if e.status != EscrowStatus::Pending {
        return Err(Abort::NotPending);
    }
    if recipient != e.to {
        return Err(Abort::Unauthorized);
    }
    let i = match find_milestone(&e.milestones, milestone_id) {
        Some(i) => i,
        None => {
            return Err(Abort::MilestoneNotFound);
        },
    };
    let mut m = e.milestones[i];
    if !m.approved {
        return Err(Abort::MilestoneNotApproved);
    }
    if m.claimed {
        return Err(Abort::MilestoneAlreadyClaimed);
    }
    let amount = m.amount;
    m.claimed = true;
    let mut after = e.copy();
    after.milestones.set(i, m);
    if is_all_claimed(&after.milestones) {
        after.status = EscrowStatus::Released;
    }
    assert(after@ =~= milestone_claim_rule(e@, milestone_id, recipient)->Ok_0.0);
    Ok((after, amount))
}

/// What [`claim_milestone`] does.
pub open spec fn claim_milestone_rule(
    store: StoreView,
    ctx: Context,
    escrow_id: u32,
    milestone_id: u32,
    recipient: Address,
) -> Result<ReplyView<()>, HaltView> {
    let found = searching(store, escrow_id, seq![ActionView::RequireAuth(recipient)]);
    if entry_rule(ctx) is Err {
        halt(entry_rule(ctx)->Err_0, Seq::empty())
    } else {
        match store.locate(escrow_id, Abort::RecipientNotFound) {
            Err(reason) => halt(reason, found),
            Ok(place) => match milestone_claim_rule(place.escrow, milestone_id, recipient) {
                Err(reason) => halt(reason, found),
                Ok((after, amount)) => Ok(
                    ReplyView {
                        value: (),
                        trace: settlement(
                            store,
                            found,
                            place,
                            after,
                            recipient,
                            amount,
                            Event::MilestoneClaimed {
                                escrow: escrow_id,
                                milestone: milestone_id,
                                amount,
                            },
                        ),
                    },
                ),
            },
        }
    }
}

/// Claims an approved milestone. Only the escrow's recipient may claim. When
/// the last milestone is claimed the escrow is marked as released.
pub fn claim_milestone(
    store: &Store,
    ctx: &Context,
    escrow_id: u32,
    milestone_id: u32,
    recipient: Address,
) -> (outcome: Result<Reply<()>, Halt>)
    ensures
        follows(
            outcome,
            claim_milestone_rule(store@, *ctx, escrow_id, milestone_id, recipient),
        ),
{
    let mut trace = Trace::new();
    match enter(ctx) {
        Ok(_) => {},
        Err(reason) => {
            return Err(Halt { reason, trace });
        },
    }
    trace.record(Action::RequireAuth(recipient));
    assert(trace@ =~= seq![ActionView::RequireAuth(recipient)]);
    let place = match search(store, escrow_id, Abort::RecipientNotFound, &mut trace) {
        Ok(place) => place,
        Err(reason) => {
            return Err(Halt { reason, trace });
        },
    };
    let e = &place.list[place.index];
    let (after, amount) = match milestone_claimed(e, milestone_id, recipient) {
        Ok(claimed) => claimed,
        Err(reason) => {
            return Err(Halt { reason, trace });
        },
    };
    record_settlement(
        &mut trace,
        &place,
        after,
        recipient,
        amount,
        Event::MilestoneClaimed { escrow: escrow_id, milestone: milestone_id, amount },
    );
    Ok(Reply { value: (), trace })
}

} // verus!
