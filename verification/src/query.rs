//! Reading escrows.
use crate::abort::Abort;
use crate::action::{
    follows, follows_view, halt, Action, ActionView, Halt, HaltView, Reply, ReplyView, Trace,
};
use crate::store::{DataKey, Store, StoreView};
use crate::types::{
    records, Address, ContractError, Escrow, EscrowStatus, EscrowSummary, EscrowView, Milestone,
};
use vstd::prelude::*;

verus! {

/// The ids of a sequence of escrows.
pub open spec fn ids_of(list: Seq<EscrowView>) -> Seq<u32> {
    Seq::new(list.len(), |i: int| list[i].id)
}

/// What [`get_user_escrows`] does.
pub open spec fn get_user_escrows_rule(store: StoreView, recipient: Address) -> ReplyView<
    Seq<u32>,
> {
    ReplyView {
        value: ids_of(store.list_of(recipient)),
        trace: if store.lists.contains_key(recipient) {
            seq![ActionView::Bump(DataKey::EscrowByRecipient(recipient))]
        } else {
            Seq::empty()
        },
    }
}

/// The ids of the escrows of a recipient, oldest first.
pub fn get_user_escrows(store: &Store, recipient: Address) -> (reply: Reply<Vec<u32>>)
    ensures
        reply.value@ == get_user_escrows_rule(store@, recipient).value,
        reply.trace@ == get_user_escrows_rule(store@, recipient).trace,
{
    let mut ids: Vec<u32> = Vec::new();
    let mut trace = Trace::new();
    match store.list(recipient) {
        Some(list) => {
            trace.record(Action::Bump(DataKey::EscrowByRecipient(recipient)));
            let mut i: usize = 0;
            while i < list.len()
                invariant
                    i <= list.len(),
                    ids@ == ids_of(records(list@)).take(i as int),
                decreases list.len() - i,
            {
                ids.push(list[i].id);
                i = i + 1;
                assert(ids@ =~= ids_of(records(list@)).take(i as int));
            }
            assert(ids@ =~= ids_of(records(list@)));
            assert(trace@ =~= seq![ActionView::Bump(DataKey::EscrowByRecipient(recipient))]);
        },
        None => {
            assert(ids@ =~= ids_of(Seq::empty()));
        },
    }
    Reply { value: ids, trace }
}

/// What [`get_escrow`] does.
pub open spec fn get_escrow_rule(store: StoreView, id: u32) -> ReplyView<
    Result<EscrowView, ContractError>,
> {
    match store.locate(id, Abort::RecipientNotFound) {
        Err(_) => ReplyView { value: Err(ContractError::NotFound), trace: Seq::empty() },
        Ok(place) => ReplyView {
            value: Ok(place.escrow),
            trace: seq![
                ActionView::Bump(DataKey::EscrowRecipient(id)),
                ActionView::Bump(DataKey::EscrowByRecipient(place.recipient)),
            ],
        },
    }
}

/// The escrow with this id, or [`ContractError::NotFound`].
pub fn get_escrow(store: &Store, id: u32) -> (reply: Reply<Result<Escrow, ContractError>>)
    ensures
        match get_escrow_rule(store@, id).value {
            Ok(expected) => reply.value matches Ok(escrow) && escrow@ == expected,
            Err(error) => reply.value matches Err(e) && e == error,
        },
        reply.trace@ == get_escrow_rule(store@, id).trace,
{
    let mut trace = Trace::new();
    match store.locate(id, Abort::RecipientNotFound) {
        Err(_) => Reply { value: Err(ContractError::NotFound), trace },
        Ok(place) => {
            trace.record(Action::Bump(DataKey::EscrowRecipient(id)));
            trace.record(Action::Bump(DataKey::EscrowByRecipient(place.recipient)));
            assert(trace@ =~= get_escrow_rule(store@, id).trace);
            let escrow = place.list[place.index].copy();
            Reply { value: Ok(escrow), trace }
        },
    }
}

/// What [`get_milestones`] does.
pub open spec fn get_milestones_rule(store: StoreView, escrow_id: u32) -> Result<
    ReplyView<Seq<Milestone>>,
    HaltView,
> {
    let found = get_escrow_rule(store, escrow_id);
    match found.value {
        Err(_) => halt(Abort::EscrowNotFound, found.trace),
        Ok(e) => Ok(ReplyView { value: e.milestones, trace: found.trace }),
    }
}

/// The milestone schedule of a milestone escrow; empty for any other.
pub fn get_milestones(store: &Store, escrow_id: u32) -> (outcome: Result<
    Reply<Vec<Milestone>>,
    Halt,
>)
    ensures
        follows_view(outcome, get_milestones_rule(store@, escrow_id)),
{
    let reply = get_escrow(store, escrow_id);
    match reply.value {
        Err(_) => Err(Halt { reason: Abort::EscrowNotFound, trace: reply.trace }),
        Ok(escrow) => Ok(Reply { value: escrow.milestones, trace: reply.trace }),
    }
}

/// What the claimed milestones add up to.
pub open spec fn claimed_amount(milestones: Seq<Milestone>) -> int
    decreases milestones.len(),
{
    if milestones.len() == 0 {
        0
    } else {
        claimed_amount(milestones.drop_last()) + if milestones.last().claimed {
            milestones.last().amount as int
        } else {
            0
        }
    }
}

/// Whether the claimed amounts can be added up one after the other without
/// leaving the range of their type.
pub open spec fn claimed_fits(milestones: Seq<Milestone>) -> bool {
    forall|n: int|
        0 <= n <= milestones.len() ==> i128::MIN <= #[trigger] claimed_amount(milestones.take(n))
            <= i128::MAX
}

/// How many milestones are approved.
pub open spec fn approved_count(milestones: Seq<Milestone>) -> nat
    decreases milestones.len(),
{
    if milestones.len() == 0 {
        0
    } else {
        approved_count(milestones.drop_last()) + if milestones.last().approved {
            1nat
        } else {
            0nat
        }
    }
}

/// How many milestones are claimed.
pub open spec fn claimed_count(milestones: Seq<Milestone>) -> nat
    decreases milestones.len(),
{
    if milestones.len() == 0 {
        0
    } else {
        claimed_count(milestones.drop_last()) + if milestones.last().claimed {
            1nat
        } else {
            0nat
        }
    }
}

/// What an escrow has released to its recipient so far.
pub open spec fn released_amount(e: EscrowView) -> int {
    if e.is_milestone_based {
        claimed_amount(e.milestones)
    } else if e.status == EscrowStatus::Released {
        e.amount as int
    } else {
        0
    }
}

/// What an escrow still holds. A cancelled one has given back everything that
/// was not claimed.
pub open spec fn remaining_amount(e: EscrowView) -> int {
    if e.status == EscrowStatus::Cancelled {
        0
    } else {
        e.amount - released_amount(e)
    }
}

/// An escrow condensed.
pub open spec fn summary_rule(e: EscrowView) -> Result<EscrowSummary, Abort> {
    if e.is_milestone_based && !claimed_fits(e.milestones) {
        Err(Abort::Overflow)
    } else if !(i128::MIN <= remaining_amount(e) <= i128::MAX) {
        Err(Abort::SubtractionOverflow)
    } else {
        Ok(
            EscrowSummary {
                id: e.id,
                total_amount: e.amount,
                released_amount: released_amount(e) as i128,
                remaining_amount: remaining_amount(e) as i128,
                milestone_count: e.milestones.len() as u32,
                approved_milestones: if e.is_milestone_based {
                    approved_count(e.milestones) as u32
                } else {
                    0
                },
                claimed_milestones: if e.is_milestone_based {
                    claimed_count(e.milestones) as u32
                } else {
                    0
                },
                status: e.status,
                is_milestone_based: e.is_milestone_based,
            },
        )
    }
}

/// What [`get_escrow_summary`] does.
pub open spec fn get_escrow_summary_rule(store: StoreView, escrow_id: u32) -> Result<
    ReplyView<EscrowSummary>,
    HaltView,
> {
    let found = get_escrow_rule(store, escrow_id);
    match found.value {
        Err(_) => halt(Abort::EscrowNotFound, found.trace),
        Ok(e) => match summary_rule(e) {
            Err(reason) => halt(reason, found.trace),
            Ok(summary) => Ok(ReplyView { value: summary, trace: found.trace }),
        },
    }
}

/// The released amount and the numbers of approved and of claimed milestones.
fn tally_milestones(milestones: &Vec<Milestone>) -> (counted: Option<(i128, u32, u32)>)
    requires
        milestones.len() <= u32::MAX,
    ensures
        match counted {
            Some(c) => {
                &&& claimed_fits(milestones@)
                &&& c.0 == claimed_amount(milestones@)
                &&& c.1 == approved_count(milestones@)
                &&& c.2 == claimed_count(milestones@)
            },
            None => !claimed_fits(milestones@),
        },
{
    let mut released: i128 = 0;
    let mut approved: u32 = 0;
    let mut claimed: u32 = 0;
    let mut i: usize = 0;
    while i < milestones.len()
        invariant
            i <= milestones.len() <= u32::MAX,
            released == claimed_amount(milestones@.take(i as int)),
            approved == approved_count(milestones@.take(i as int)),
            claimed == claimed_count(milestones@.take(i as int)),
            approved <= i,
            claimed <= i,
            forall|n: int|
                0 <= n <= i ==> i128::MIN <= #[trigger] claimed_amount(milestones@.take(n))
                    <= i128::MAX,
        decreases milestones.len() - i,
    {
        assert(milestones@.take(i + 1).drop_last() =~= milestones@.take(i as int));
        assert(milestones@.take(i + 1).last() == milestones@[i as int]);
        assert(claimed_amount(milestones@.take(i + 1)) == released
            + if milestones[i as int].claimed {
            milestones[i as int].amount as int
        } else {
            0
        });
        if milestones[i].claimed {
            released = match released.checked_add(milestones[i].amount) {
                Some(sum) => sum,
                None => {
                    return None;
                },
            };
            claimed = claimed + 1;
        }
        if milestones[i].approved {
            approved = approved + 1;
        }
        i = i + 1;
    }
    assert(milestones@.take(i as int) =~= milestones@);
    Some((released, approved, claimed))
}

/// An aggregated summary of an escrow for dashboards and other off-chain consumers.
pub fn get_escrow_summary(store: &Store, escrow_id: u32) -> (outcome: Result<
    Reply<EscrowSummary>,
    Halt,
>)
    requires
        store@.lookup(escrow_id) matches Some(e) ==> e.milestones.len() <= u32::MAX,
    ensures
        follows(outcome, get_escrow_summary_rule(store@, escrow_id)),
{
    let reply = get_escrow(store, escrow_id);
    let escrow = match reply.value {
        Err(_) => {
            return Err(Halt { reason: Abort::EscrowNotFound, trace: reply.trace });
        },
        Ok(escrow) => escrow,
    };
    let mut released: i128 = 0;
    let mut approved: u32 = 0;
    let mut claimed: u32 = 0;
    if escrow.is_milestone_based {
        match tally_milestones(&escrow.milestones) {
            Some((r, a, c)) => {
                released = r;
                approved = a;
                claimed = c;
            },
            None => {
                return Err(Halt { reason: Abort::Overflow, trace: reply.trace });
            },
        }
    } else if escrow.status == EscrowStatus::Released {
        released = escrow.amount;
    }
    assert(released == released_amount(escrow@));
    let remaining: i128 = if escrow.status == EscrowStatus::Cancelled {
        0
    } else {
        match escrow.amount.checked_sub(released) {
            Some(remaining) => remaining,
            None => {
                return Err(Halt { reason: Abort::SubtractionOverflow, trace: reply.trace });
            },
        }
    };
    let summary = EscrowSummary {
        id: escrow.id,
        total_amount: escrow.amount,
        released_amount: released,
        remaining_amount: remaining,
        milestone_count: escrow.milestones.len() as u32,
        approved_milestones: approved,
        claimed_milestones: claimed,
        status: escrow.status,
        is_milestone_based: escrow.is_milestone_based,
    };
    Ok(Reply { value: summary, trace: reply.trace })
}

/// What [`get_escrow_count`] does.
pub open spec fn get_escrow_count_rule(store: StoreView) -> ReplyView<u32> {
    ReplyView {
        value: store.next_id(),
        trace: seq![ActionView::BumpIfPresent(DataKey::EscrowCount)],
    }
}

/// The total number of escrows ever created.
pub fn get_escrow_count(store: &Store) -> (reply: Reply<u32>)
    ensures
        reply.value == get_escrow_count_rule(store@).value,
        reply.trace@ == get_escrow_count_rule(store@).trace,
{
    let mut trace = Trace::new();
    trace.record(Action::BumpIfPresent(DataKey::EscrowCount));
    assert(trace@ =~= get_escrow_count_rule(store@).trace);
    Reply { value: store.next_id(), trace }
}

/// Stable alias for [`get_escrow_count`].
pub fn escrow_count(store: &Store) -> (reply: Reply<u32>)
    ensures
        reply.value == get_escrow_count_rule(store@).value,
        reply.trace@ == get_escrow_count_rule(store@).trace,
{
    get_escrow_count(store)
}

} // verus!
