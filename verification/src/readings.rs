//! What reads answer, and how the arbitrators are kept.
use crate::abort::Abort;
use crate::accounts::{announces, counted, group_accounts, lemma_asks, listed, only_asks};
use crate::action::{apply, lemma_apply_push, ActionView, Event};
use crate::dispute::{arbitrators_written, get_arbitrators_rule, registered, without};
use crate::funds::{law_summary_adds_up, lemma_counts_covered};
use crate::history::{ending, outcome, trace_of, Call};
use crate::laws::{lemma_arbitrators, lemma_without};
use crate::query::{
    approved_count, claimed_amount, claimed_count, claimed_fits, get_escrow_count_rule,
    get_escrow_rule, get_escrow_summary_rule, get_milestones_rule, get_user_escrows_rule,
    summary_rule,
};
use crate::soundness::{lemma_listed, lemma_lookup};
use crate::store::{DataKey, StoreView};
use crate::types::{Address, Context, ContractError, EscrowStatus, EscrowView, Milestone};
use vstd::prelude::*;

verus! {

/// Whether a series of actions leaves everything as it is: it asks, moves, locks,
/// announces and writes nothing.
pub open spec fn idle(store: StoreView, trace: Seq<ActionView>) -> bool {
    only_asks(trace, Seq::empty()) && apply(store, trace) == store
}

/// Up to two prolongations leave everything as it is.
proof fn lemma_idle(store: StoreView, first: ActionView, second: ActionView)
    requires
        first is Bump || first is BumpIfPresent,
        second is Bump || second is BumpIfPresent,
    ensures
        idle(store, Seq::empty()),
        idle(store, seq![first]),
        idle(store, seq![first, second]),
{
    broadcast use group_accounts, lemma_apply_push;

    lemma_asks(store, 0, arbitrary());
    assert(seq![first] =~= Seq::<ActionView>::empty().push(first));
    assert(seq![first, second] =~= seq![first].push(second));
    assert(apply(store, Seq::<ActionView>::empty()) == store);
}

/// Reading an id answers the escrow that is listed under it, and that there is
/// none exactly for ids that were not given out yet. Reading its milestones
/// answers those of the same escrow. The entries that were read live on.
pub proof fn law_reads_answer_what_is_listed(store: StoreView, id: u32)
    requires
        store.sound(),
    ensures
        ({
            let reply = get_escrow_rule(store, id);
            &&& reply.value == Err::<EscrowView, ContractError>(ContractError::NotFound) <==> id
                >= counted(store)
            &&& forall|to: Address, i: int|
                store.lists.contains_key(to) && 0 <= i < store.lists[to].len() && (
                #[trigger] store.lists[to][i]).id == id ==> {
                    &&& reply.value == Ok::<EscrowView, ContractError>(store.lists[to][i])
                    &&& reply.trace.contains(ActionView::Bump(DataKey::EscrowRecipient(id)))
                    &&& reply.trace.contains(ActionView::Bump(DataKey::EscrowByRecipient(to)))
                    &&& get_milestones_rule(store, id) matches Ok(schedule) && schedule.value
                        == store.lists[to][i].milestones && schedule.trace == reply.trace
                }
            &&& get_milestones_rule(store, id) matches Err(halt) ==> halt.reason
                == Abort::EscrowNotFound && id >= counted(store)
            &&& idle(store, reply.trace)
        }),
{
    lemma_lookup(store, id);
    let reply = get_escrow_rule(store, id);
    lemma_idle(
        store,
        ActionView::Bump(DataKey::EscrowRecipient(id)),
        ActionView::Bump(
            DataKey::EscrowByRecipient(store.locate(id, Abort::RecipientNotFound)->Ok_0.recipient),
        ),
    );
    assert forall|to: Address, i: int|
        store.lists.contains_key(to) && 0 <= i < store.lists[to].len() && (
        #[trigger] store.lists[to][i]).id == id implies {
        &&& reply.value == Ok::<EscrowView, ContractError>(store.lists[to][i])
        &&& reply.trace.contains(ActionView::Bump(DataKey::EscrowRecipient(id)))
        &&& reply.trace.contains(ActionView::Bump(DataKey::EscrowByRecipient(to)))
        &&& get_milestones_rule(store, id) matches Ok(schedule) && schedule.value
            == store.lists[to][i].milestones && schedule.trace == reply.trace
    } by {
        lemma_listed(store, to, i);
        assert(store.list_sound(to));
        assert(reply.trace[0] == ActionView::Bump(DataKey::EscrowRecipient(id)));
        assert(reply.trace[1] == ActionView::Bump(DataKey::EscrowByRecipient(to)));
    }
}

/// Reading a recipient's escrows answers the ids of those listed, in their order.
pub proof fn law_list_answers_every_id(store: StoreView, recipient: Address)
    ensures
        ({
            let reply = get_user_escrows_rule(store, recipient);
            &&& reply.value.len() == listed(store, recipient).len()
            &&& forall|i: int|
                0 <= i < reply.value.len() ==> #[trigger] reply.value[i] == listed(
                    store,
                    recipient,
                )[i].id
            &&& store.lists.contains_key(recipient) ==> reply.trace.contains(
                ActionView::Bump(DataKey::EscrowByRecipient(recipient)),
            )
            &&& idle(store, reply.trace)
        }),
{
    let bump = ActionView::Bump(DataKey::EscrowByRecipient(recipient));
    lemma_idle(store, bump, bump);
    assert(seq![bump][0] == bump);
}

/// Reading the count answers how many escrows were created, and reading the
/// arbitrators answers who is registered.
pub proof fn law_counts_and_arbitrators_are_answered(store: StoreView)
    ensures
        get_escrow_count_rule(store).value == counted(store),
        idle(store, get_escrow_count_rule(store).trace),
        get_arbitrators_rule(store).value == match store.arbitrators {
            Some(list) => list,
            None => Seq::empty(),
        },
        idle(store, get_arbitrators_rule(store).trace),
{
    lemma_idle(
        store,
        ActionView::BumpIfPresent(DataKey::EscrowCount),
        ActionView::BumpIfPresent(DataKey::EscrowCount),
    );
    lemma_idle(
        store,
        ActionView::BumpIfPresent(DataKey::Arbitrators),
        ActionView::BumpIfPresent(DataKey::Arbitrators),
    );
}

/// What the recipient has claimed of milestones.
pub open spec fn handed_out(milestones: Seq<Milestone>) -> int
    decreases milestones.len(),
{
    if milestones.len() == 0 {
        0
    } else if milestones.last().claimed {
        handed_out(milestones.drop_last()) + milestones.last().amount
    } else {
        handed_out(milestones.drop_last())
    }
}

/// The positions of the approved milestones.
pub open spec fn approved_ones(milestones: Seq<Milestone>) -> Set<int> {
    Set::new(|i: int| 0 <= i < milestones.len() && milestones[i].approved)
}

/// The positions of the claimed milestones.
pub open spec fn claimed_ones(milestones: Seq<Milestone>) -> Set<int> {
    Set::new(|i: int| 0 <= i < milestones.len() && milestones[i].claimed)
}

/// Milestones are counted and summed up right.
proof fn lemma_milestone_counts(milestones: Seq<Milestone>)
    ensures
        claimed_amount(milestones) == handed_out(milestones),
        approved_ones(milestones).finite(),
        claimed_ones(milestones).finite(),
        approved_count(milestones) == approved_ones(milestones).len(),
        claimed_count(milestones) == claimed_ones(milestones).len(),
    decreases milestones.len(),
{
    if milestones.len() == 0 {
        assert(approved_ones(milestones) =~= Set::empty());
        assert(claimed_ones(milestones) =~= Set::empty());
    } else {
        let init = milestones.drop_last();
        let last = milestones.len() - 1;
        lemma_milestone_counts(init);
        if milestones.last().approved {
            assert(approved_ones(milestones) =~= approved_ones(init).insert(last));
        } else {
            assert(approved_ones(milestones) =~= approved_ones(init));
        }
        if milestones.last().claimed {
            assert(claimed_ones(milestones) =~= claimed_ones(init).insert(last));
        } else {
            assert(claimed_ones(milestones) =~= claimed_ones(init));
        }
    }
}

/// A summary shows the escrow's own id, amount, status and kind; as released what
/// was claimed of its milestones, or the whole amount of a plain escrow once it
/// is released; as remaining the rest, or nothing once it is cancelled; and how
/// many milestones there are, are approved and are claimed.
pub proof fn law_summary_shows_the_escrow(store: StoreView, id: u32)
    requires
        store.sound(),
    ensures
        get_escrow_summary_rule(store, id) is Ok <==> store.lookup(id) is Some,
        get_escrow_summary_rule(store, id) matches Ok(reply) ==> {
            let e = store.lookup(id)->0;
            let s = reply.value;
            &&& s.id == id
            &&& s.total_amount == e.amount
            &&& s.released_amount == if e.is_milestone_based {
                handed_out(e.milestones)
            } else if e.status == EscrowStatus::Released {
                e.amount as int
            } else {
                0
            }
            &&& s.remaining_amount == if e.status == EscrowStatus::Cancelled {
                0
            } else {
                e.amount - s.released_amount
            }
            &&& s.milestone_count == e.milestones.len()
            &&& s.approved_milestones == approved_ones(e.milestones).len()
            &&& s.claimed_milestones == claimed_ones(e.milestones).len()
            &&& s.status == e.status
            &&& s.is_milestone_based == e.is_milestone_based
            &&& idle(store, reply.trace)
        },
        get_escrow_summary_rule(store, id) matches Err(halt) ==> halt.reason
            == Abort::EscrowNotFound,
{
    lemma_lookup(store, id);
    law_reads_answer_what_is_listed(store, id);
    if let Some(e) = store.lookup(id) {
        law_summary_adds_up(e);
        lemma_milestone_counts(e.milestones);
        lemma_counts_covered(e.milestones);
        let all = e.milestones.len() as int;
        assert(e.milestones.take(all) =~= e.milestones);
        assert(summary_rule(e) is Ok);
        if e.is_milestone_based {
            assert(claimed_fits(e.milestones));
            assert(i128::MIN <= claimed_amount(e.milestones.take(all)) <= i128::MAX);
        }
    }
}

/// The arbitrators after one is added or removed.
pub open spec fn arbitrators_become(
    store: StoreView,
    after: StoreView,
    list: Seq<Address>,
) -> bool {
    &&& after.arbitrators == Some(list)
    &&& after.arbitrator_count == Some(list.len() as u32)
    &&& after.recipients == store.recipients
    &&& after.lists == store.lists
    &&& after.count == store.count
}

/// What writing the arbitrators amounts to.
proof fn lemma_written_announces(admin: Address, list: Seq<Address>, event: Event)
    ensures
        announces(
            arbitrators_written(seq![ActionView::RequireAuth(admin)], list, event),
            admin,
            event,
        ),
{
    broadcast use group_accounts;

    lemma_asks(StoreView::empty(), 0, admin);
    assert(Seq::<Event>::empty().push(event) =~= seq![event]);
}

/// The admin, and nobody else, adds an arbitrator who is not registered yet. The
/// admin alone is asked, and the arbitrator stands last in the list, which is
/// counted anew.
pub proof fn law_admin_adds_arbitrators(
    store: StoreView,
    ctx: Context,
    admin: Address,
    arbitrator: Address,
)
    ensures
        ({
            let call = Call::AddArbitrator { admin, arbitrator };
            let list = match store.arbitrators {
                Some(list) => list,
                None => Seq::empty(),
            };
            &&& trace_of(store, ctx, call) is Some <==> ctx.admin == Some(admin) && !list.contains(
                arbitrator,
            )
            &&& trace_of(store, ctx, call) matches Some(trace) ==> {
                &&& arbitrators_become(store, outcome(store, ctx, call), list.push(arbitrator))
                &&& announces(trace, admin, Event::ArbitratorAdded { arbitrator })
            }
            &&& ending(store, ctx, call) matches Err(halt) ==> match halt.reason {
                Abort::AdminNotSet => ctx.admin is None,
                Abort::Unauthorized => ctx.admin is Some && ctx.admin != Some(admin),
                Abort::ArbitratorAlreadyRegistered => list.contains(arbitrator),
                _ => false,
            }
        }),
{
    reveal(ending);
    let call = Call::AddArbitrator { admin, arbitrator };
    if trace_of(store, ctx, call) is Some {
        lemma_arbitrators(store, ctx, call);
        lemma_written_announces(
            admin,
            registered(store).push(arbitrator),
            Event::ArbitratorAdded { arbitrator },
        );
    }
}

/// Taking out an address that occurs once is removing it at its position.
proof fn lemma_without_is_remove(list: Seq<Address>, address: Address, i: int)
    requires
        list.no_duplicates(),
        0 <= i < list.len(),
        list[i] == address,
    ensures
        without(list, address) == list.remove(i),
    decreases list.len(),
{
    let init = list.drop_last();
    assert forall|j: int, k: int|
        0 <= j < init.len() && 0 <= k < init.len() && j != k implies init[j] != init[k] by {
        assert(list[j] != list[k]);
    }
    if i == list.len() - 1 {
        assert(!init.contains(address)) by {
            if init.contains(address) {
                let j = choose|j: int| 0 <= j < init.len() && init[j] == address;
                assert(list[j] != list[i]);
            }
        }
        lemma_without(init, address);
        assert(list.remove(i) =~= init);
    } else {
        assert(list[i] != list[list.len() - 1]);
        lemma_without_is_remove(init, address, i);
        assert(list.remove(i) =~= init.remove(i).push(list.last()));
    }
}

/// The admin, and nobody else, removes a registered arbitrator. The admin alone
/// is asked, and the list loses the arbitrator's place and nothing else.
pub proof fn law_admin_removes_arbitrators(
    store: StoreView,
    ctx: Context,
    admin: Address,
    arbitrator: Address,
)
    requires
        store.sound(),
    ensures
        ({
            let call = Call::RemoveArbitrator { admin, arbitrator };
            &&& trace_of(store, ctx, call) is Some <==> ctx.admin == Some(admin) && (
            store.arbitrators matches Some(list) && list.contains(arbitrator))
            &&& trace_of(store, ctx, call) matches Some(trace) ==> {
                &&& forall|i: int|
                    0 <= i < store.arbitrators->0.len() && #[trigger] store.arbitrators->0[i]
                        == arbitrator ==> arbitrators_become(
                        store,
                        outcome(store, ctx, call),
                        store.arbitrators->0.remove(i),
                    )
                &&& announces(trace, admin, Event::ArbitratorRemoved { arbitrator })
            }
            &&& ending(store, ctx, call) matches Err(halt) ==> match halt.reason {
                Abort::AdminNotSet => ctx.admin is None,
                Abort::Unauthorized => ctx.admin is Some && ctx.admin != Some(admin),
                Abort::NoArbitrators => store.arbitrators is None,
                Abort::ArbitratorNotFound => store.arbitrators matches Some(list)
                    && !list.contains(arbitrator),
                _ => false,
            }
        }),
{
    reveal(ending);
    let call = Call::RemoveArbitrator { admin, arbitrator };
    if trace_of(store, ctx, call) is Some {
        lemma_arbitrators(store, ctx, call);
        lemma_written_announces(
            admin,
            without(registered(store), arbitrator),
            Event::ArbitratorRemoved { arbitrator },
        );
        assert forall|i: int|
            0 <= i < store.arbitrators->0.len() && #[trigger] store.arbitrators->0[i]
                == arbitrator implies arbitrators_become(
            store,
            outcome(store, ctx, call),
            store.arbitrators->0.remove(i),
        ) by {
            lemma_without_is_remove(store.arbitrators->0, arbitrator, i);
        }
    }
}

} // verus!
