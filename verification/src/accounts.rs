//! What a call amounts to: who is asked, who pays, who is paid, what is announced,
//! and how the entries differ afterwards.
use crate::abort::Abort;
use crate::action::{ActionView, Event};
use crate::claim::settlement;
use crate::flows::{lemma_locking_push, locking};
use crate::guard::searching;
use crate::soundness::{lemma_listed, lemma_lookup};
use crate::store::{PlaceView, StoreView};
use crate::types::{Address, EscrowView};
use vstd::prelude::*;

verus! {

/// How much of a token an action pays to an address.
pub open spec fn paid_by(action: ActionView, token: Address, who: Address) -> int {
    match action {
        ActionView::PayOut { token: t, to, amount } => if t == token && to == who {
            amount as int
        } else {
            0
        },
        ActionView::Transfer { token: t, to, amount } => if t == token && to == who {
            amount as int
        } else {
            0
        },
        _ => 0,
    }
}

/// How much of a token a series of actions pays to an address.
pub open spec fn paid_out(trace: Seq<ActionView>, token: Address, who: Address) -> int
    decreases trace.len(),
{
    if trace.len() == 0 {
        0
    } else {
        paid_out(trace.drop_last(), token, who) + paid_by(trace.last(), token, who)
    }
}

/// How much of a token an action takes from an address.
pub open spec fn taken_by(action: ActionView, token: Address, who: Address) -> int {
    match action {
        ActionView::PullFunds { token: t, from, amount } => if t == token && from == who {
            amount as int
        } else {
            0
        },
        _ => 0,
    }
}

/// How much of a token a series of actions takes from an address.
pub open spec fn taken(trace: Seq<ActionView>, token: Address, who: Address) -> int
    decreases trace.len(),
{
    if trace.len() == 0 {
        0
    } else {
        taken(trace.drop_last(), token, who) + taken_by(trace.last(), token, who)
    }
}

/// Whose authorisation a series of actions asks for, in order.
pub open spec fn signers(trace: Seq<ActionView>) -> Seq<Address>
    decreases trace.len(),
{
    if trace.len() == 0 {
        Seq::empty()
    } else {
        match trace.last() {
            ActionView::RequireAuth(who) => signers(trace.drop_last()).push(who),
            _ => signers(trace.drop_last()),
        }
    }
}

/// What a series of actions announces, in order.
pub open spec fn announced(trace: Seq<ActionView>) -> Seq<Event>
    decreases trace.len(),
{
    if trace.len() == 0 {
        Seq::empty()
    } else {
        match trace.last() {
            ActionView::Publish(event) => announced(trace.drop_last()).push(event),
            _ => announced(trace.drop_last()),
        }
    }
}

/// Payments add up action by action.
pub broadcast proof fn lemma_paid_push(
    trace: Seq<ActionView>,
    action: ActionView,
    token: Address,
    who: Address,
)
    ensures
        #[trigger] paid_out(trace.push(action), token, who) == paid_out(trace, token, who)
            + paid_by(action, token, who),
{
    assert(trace.push(action).drop_last() =~= trace);
}

/// What is taken adds up action by action.
pub broadcast proof fn lemma_taken_push(
    trace: Seq<ActionView>,
    action: ActionView,
    token: Address,
    who: Address,
)
    ensures
        #[trigger] taken(trace.push(action), token, who) == taken(trace, token, who) + taken_by(
            action,
            token,
            who,
        ),
{
    assert(trace.push(action).drop_last() =~= trace);
}

/// Signers are asked action by action.
pub broadcast proof fn lemma_signers_push(trace: Seq<ActionView>, action: ActionView)
    ensures
        #[trigger] signers(trace.push(action)) == match action {
            ActionView::RequireAuth(who) => signers(trace).push(who),
            _ => signers(trace),
        },
{
    assert(trace.push(action).drop_last() =~= trace);
}

/// Events are announced action by action.
pub broadcast proof fn lemma_announced_push(trace: Seq<ActionView>, action: ActionView)
    ensures
        #[trigger] announced(trace.push(action)) == match action {
            ActionView::Publish(event) => announced(trace).push(event),
            _ => announced(trace),
        },
{
    assert(trace.push(action).drop_last() =~= trace);
}

pub broadcast group group_accounts {
    lemma_paid_push,
    lemma_taken_push,
    lemma_signers_push,
    lemma_announced_push,
    lemma_locking_push,
}

/// Whether a series of actions asks for these authorisations and moves, locks and
/// announces nothing.
pub open spec fn only_asks(trace: Seq<ActionView>, asked: Seq<Address>) -> bool {
    &&& signers(trace) == asked
    &&& announced(trace) == Seq::<Event>::empty()
    &&& forall|token: Address, who: Address| #[trigger] paid_out(trace, token, who) == 0
    &&& forall|token: Address, who: Address| #[trigger] taken(trace, token, who) == 0
    &&& forall|token: Address| #[trigger] locking(trace, token) == 0
}

/// Whether a series of actions asks one address, pays and unlocks nothing, and
/// announces one event.
pub open spec fn announces(trace: Seq<ActionView>, signer: Address, event: Event) -> bool {
    &&& signers(trace) == seq![signer]
    &&& announced(trace) == seq![event]
    &&& forall|token: Address, who: Address| #[trigger] paid_out(trace, token, who) == 0
    &&& forall|token: Address, who: Address| #[trigger] taken(trace, token, who) == 0
    &&& forall|token: Address| #[trigger] locking(trace, token) == 0
}

/// Whether a series of actions asks one address, pays this amount to it and to
/// nobody else, unlocks as much, and announces one event.
pub open spec fn pays_signer(
    trace: Seq<ActionView>,
    token: Address,
    signer: Address,
    amount: int,
    event: Event,
) -> bool {
    &&& signers(trace) == seq![signer]
    &&& announced(trace) == seq![event]
    &&& forall|t: Address, who: Address| #[trigger]
        paid_out(trace, t, who) == if t == token && who == signer {
            amount
        } else {
            0
        }
    &&& forall|t: Address, who: Address| #[trigger] taken(trace, t, who) == 0
    &&& forall|t: Address| #[trigger]
        locking(trace, t) == if t == token {
            -amount
        } else {
            0
        }
}

/// Whether a series of actions asks one address, takes this amount from it and
/// from nobody else, locks as much, and announces one event.
pub open spec fn charges_signer(
    trace: Seq<ActionView>,
    token: Address,
    signer: Address,
    amount: int,
    event: Event,
) -> bool {
    &&& signers(trace) == seq![signer]
    &&& announced(trace) == seq![event]
    &&& forall|t: Address, who: Address| #[trigger]
        taken(trace, t, who) == if t == token && who == signer {
            amount
        } else {
            0
        }
    &&& forall|t: Address, who: Address| #[trigger] paid_out(trace, t, who) == 0
    &&& forall|t: Address| #[trigger]
        locking(trace, t) == if t == token {
            amount
        } else {
            0
        }
}

/// Asking someone is all that these actions do.
pub proof fn lemma_asks(store: StoreView, id: u32, who: Address)
    ensures
        only_asks(Seq::empty(), Seq::empty()),
        only_asks(seq![ActionView::RequireAuth(who)], seq![who]),
        only_asks(searching(store, id, Seq::empty()), Seq::empty()),
        only_asks(searching(store, id, seq![ActionView::RequireAuth(who)]), seq![who]),
        only_asks(
            searching(store, id, Seq::empty()).push(ActionView::RequireAuth(who)),
            seq![who],
        ),
{
    broadcast use group_accounts;

    assert(seq![ActionView::RequireAuth(who)] =~= Seq::<ActionView>::empty().push(
        ActionView::RequireAuth(who),
    ));
    assert(Seq::<Address>::empty().push(who) =~= seq![who]);
}

/// What a settlement amounts to.
pub proof fn lemma_settlement_pays(
    store: StoreView,
    before: Seq<ActionView>,
    place: PlaceView,
    after: EscrowView,
    payee: Address,
    amount: i128,
    event: Event,
)
    requires
        only_asks(before, seq![payee]),
    ensures
        pays_signer(
            settlement(store, before, place, after, payee, amount, event),
            place.escrow.token,
            payee,
            amount as int,
            event,
        ),
{
    broadcast use group_accounts;

    assert(Seq::<Event>::empty().push(event) =~= seq![event]);
}

/// Whether the entries differ in one escrow only: wherever the escrow with this
/// id was listed, the new one stands in its place.
pub open spec fn becomes(store: StoreView, after: StoreView, id: u32, e: EscrowView) -> bool {
    &&& after.recipients == store.recipients
    &&& after.count == store.count
    &&& after.arbitrators == store.arbitrators
    &&& after.arbitrator_count == store.arbitrator_count
    &&& after.lists.dom() == store.lists.dom()
    &&& forall|to: Address|
        store.lists.contains_key(to) ==> (#[trigger] after.lists[to]).len()
            == store.lists[to].len()
    &&& forall|to: Address, i: int|
        store.lists.contains_key(to) && 0 <= i < store.lists[to].len()
            ==> #[trigger] after.lists[to][i] == if store.lists[to][i].id == id {
            e
        } else {
            store.lists[to][i]
        }
}

/// Replacing an escrow that was found changes nothing else.
pub proof fn lemma_becomes(store: StoreView, id: u32, e: EscrowView)
    requires
        store.sound(),
        store.locate(id, Abort::RecipientNotFound) is Ok,
    ensures
        becomes(
            store,
            store.replace(store.locate(id, Abort::RecipientNotFound)->Ok_0, e),
            id,
            e,
        ),
{
    lemma_lookup(store, id);
    let place = store.locate(id, Abort::RecipientNotFound)->Ok_0;
    let after = store.replace(place, e);
    assert(after.lists.dom() =~= store.lists.dom());
    assert forall|to: Address, i: int|
        store.lists.contains_key(to) && 0 <= i
            < store.lists[to].len() implies #[trigger] after.lists[to][i]
        == if store.lists[to][i].id == id {
        e
    } else {
        store.lists[to][i]
    } by {
        assert(store.list_sound(to));
        let x = store.lists[to][i];
        assert(x.to == to && store.recipients[x.id] == to);
        if to == place.recipient && i != place.index {
            let p = store.lists[to][place.index];
            assert(p.id == id);
            if i < place.index {
                assert(store.lists[to][i].id < store.lists[to][place.index].id);
            } else {
                assert(store.lists[to][place.index].id < store.lists[to][i].id);
            }
        }
    }
}

/// How many escrows were created.
pub open spec fn counted(store: StoreView) -> int {
    match store.count {
        Some(count) => count as int,
        None => 0,
    }
}

/// What is listed for a recipient.
pub open spec fn listed(store: StoreView, to: Address) -> Seq<EscrowView> {
    if store.lists.contains_key(to) {
        store.lists[to]
    } else {
        Seq::empty()
    }
}

/// Looking up an id finds the escrow that is listed under it, and the ids that
/// lead to an escrow are those given out so far.
pub proof fn law_lookup_finds_the_listed(store: StoreView, id: u32)
    requires
        store.sound(),
    ensures
        store.lookup(id) is Some <==> id < counted(store),
        store.lookup(id) matches Some(e) ==> e.id == id && store.lists.contains_key(e.to)
            && store.lists[e.to].contains(e),
        forall|to: Address, i: int|
            store.lists.contains_key(to) && 0 <= i < store.lists[to].len()
                && (#[trigger] store.lists[to][i]).id == id ==> store.lookup(id) == Some(
                store.lists[to][i],
            ),
{
    lemma_lookup(store, id);
    if store.lookup(id) is Some {
        let place = store.locate(id, Abort::RecipientNotFound)->Ok_0;
        assert(store.lists[place.recipient][place.index] == place.escrow);
    }
    assert forall|to: Address, i: int|
        store.lists.contains_key(to) && 0 <= i < store.lists[to].len()
            && (#[trigger] store.lists[to][i]).id == id implies store.lookup(id) == Some(
        store.lists[to][i],
    ) by {
        lemma_listed(store, to, i);
    }
}

} // verus!
