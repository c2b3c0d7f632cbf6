//! What holds of the contract's entries at all times.
use crate::abort::Abort;
use crate::store::{lemma_position, lemma_position_is, position, PlaceView, StoreView};
use crate::types::{Address, EscrowStatus, EscrowView, Limits, Milestone};
use vstd::prelude::*;

verus! {

/// What milestones add up to.
pub open spec fn scheduled(milestones: Seq<Milestone>) -> int
    decreases milestones.len(),
{
    if milestones.len() == 0 {
        0
    } else {
        scheduled(milestones.drop_last()) + milestones.last().amount
    }
}

/// Whether milestones are numbered from 0 and have positive amounts.
pub open spec fn schedule_sound(milestones: Seq<Milestone>) -> bool {
    forall|i: int|
        0 <= i < milestones.len() ==> (#[trigger] milestones[i]).id == i && milestones[i].amount
            > 0
}

/// What holds of every escrow: its parties differ and its agent is not its
/// recipient; it is never overdrawn, and holds something while it is pending;
/// only an escrow with an arbitrator is disputed, by one of its parties; and
/// only a milestone escrow has milestones, which add up to its amount, and it
/// has no release ledger.
pub open spec fn escrow_sound(e: EscrowView) -> bool {
    &&& e.from != e.to
    &&& e.agent != Some(e.to)
    &&& e.amount >= 0
    &&& e.status == EscrowStatus::Pending ==> e.amount > 0
    &&& e.disputed ==> e.arbitrator is Some && (e.dispute_raised_by == Some(e.from)
        || e.dispute_raised_by == Some(e.to))
    &&& if e.is_milestone_based {
        &&& e.agent is Some
        &&& e.arbitrator is None
        &&& 0 < e.milestones.len() <= u32::MAX
        &&& schedule_sound(e.milestones)
        &&& scheduled(e.milestones) == e.amount
        &&& e.release_ledger == 0
    } else {
        &&& e.agent is None
        &&& e.milestones.len() == 0
    }
}

impl StoreView {
    /// Whether a recipient's list is sound: every escrow in it is addressed to
    /// the recipient, recorded as such and sound in itself, and they stand in
    /// the order in which they were created.
    pub open spec fn list_sound(self, to: Address) -> bool {
        &&& forall|i: int|
            0 <= i < self.lists[to].len() ==> {
                let e = #[trigger] self.lists[to][i];
                &&& e.to == to
                &&& escrow_sound(e)
                &&& self.recipients.contains_key(e.id)
                &&& self.recipients[e.id] == to
            }
        &&& forall|i: int, j: int|
            0 <= i < j < self.lists[to].len() ==> (#[trigger] self.lists[to][i]).id < (
            #[trigger] self.lists[to][j]).id
    }

    /// Whether the arbitrators are sound: listed once each, and counted.
    pub open spec fn arbitrators_sound(self) -> bool {
        match self.arbitrators {
            None => self.arbitrator_count is None,
            Some(list) => list.no_duplicates() && self.arbitrator_count == Some(
                list.len() as u32,
            ),
        }
    }

    /// Whether the entries belong together: a recipient is recorded for exactly
    /// the ids given out so far, each of these escrows stands in its
    /// recipient's list, and the lists and the arbitrators are sound.
    pub open spec fn sound(self) -> bool {
        &&& forall|id: u32| #[trigger]
            self.recipients.contains_key(id) <==> id < self.next_id()
        &&& forall|id: u32| #[trigger]
            self.recipients.contains_key(id) ==> self.lookup(id) is Some
        &&& forall|to: Address| #[trigger] self.lists.contains_key(to) ==> self.list_sound(to)
        &&& self.arbitrators_sound()
    }

    /// Whether no recipient has more escrows than its index can track.
    pub open spec fn capped(self, limits: Limits) -> bool {
        forall|to: Address| #[trigger]
            self.list_of(to).len() <= limits.max_user_escrows
    }

    /// The entries after one more escrow is recorded.
    pub open spec fn append(self, e: EscrowView) -> StoreView {
        StoreView {
            recipients: self.recipients.insert(e.id, e.to),
            lists: self.lists.insert(e.to, self.list_of(e.to).push(e)),
            count: Some((e.id + 1) as u32),
            ..self
        }
    }

    /// The entries after these escrows are recorded one after the other.
    pub open spec fn append_all(self, escrows: Seq<EscrowView>) -> StoreView
        decreases escrows.len(),
    {
        if escrows.len() == 0 {
            self
        } else {
            self.append_all(escrows.drop_last()).append(escrows.last())
        }
    }
}

/// There is nothing to be wrong with a store without entries.
pub proof fn lemma_empty_sound(limits: Limits)
    ensures
        StoreView::empty().sound(),
        StoreView::empty().capped(limits),
{
}

/// A search in sound entries finds the escrow with the id, in its recipient's list.
pub proof fn lemma_lookup(store: StoreView, id: u32)
    requires
        store.sound(),
    ensures
        store.lookup(id) is Some <==> id < store.next_id(),
        store.lookup(id) matches Some(e) ==> {
            &&& e.id == id
            &&& escrow_sound(e)
            &&& store.recipients.contains_key(id)
            &&& store.recipients[id] == e.to
            &&& store.lists.contains_key(e.to)
        },
        forall|missing: Abort|
            match #[trigger] store.locate(id, missing) {
                Ok(place) => {
                    &&& store.lookup(id) == Some(place.escrow)
                    &&& place.recipient == place.escrow.to
                    &&& 0 <= place.index < store.lists[place.recipient].len()
                    &&& store.lists[place.recipient][place.index] == place.escrow
                },
                Err(reason) => store.lookup(id) is None && reason == missing,
            },
{
    if store.recipients.contains_key(id) {
        let to = store.recipients[id];
        assert(store.lookup(id) is Some);
        lemma_position(store.lists[to], id);
        assert(store.list_sound(to));
    }
}

/// The escrow that stands at a position of a list is the one that its id leads to.
pub proof fn lemma_listed(store: StoreView, to: Address, i: int)
    requires
        store.sound(),
        store.lists.contains_key(to),
        0 <= i < store.lists[to].len(),
    ensures
        store.lookup(store.lists[to][i].id) == Some(store.lists[to][i]),
{
    assert(store.list_sound(to));
    let e = store.lists[to][i];
    assert forall|j: int| 0 <= j < i implies (#[trigger] store.lists[to][j]).id != e.id by {}
    lemma_position_is(store.lists[to], e.id, i);
}

/// Where an id leads depends only on its recipient's list.
proof fn lemma_lookup_same(a: StoreView, b: StoreView, id: u32)
    requires
        a.recipients.contains_key(id) == b.recipients.contains_key(id),
        a.recipients.contains_key(id) ==> {
            let to = a.recipients[id];
            &&& b.recipients[id] == to
            &&& a.lists.contains_key(to)
            &&& b.lists.contains_key(to)
            &&& position(a.lists[to], id) == position(b.lists[to], id)
            &&& position(a.lists[to], id) matches Some(i) ==> a.lists[to][i] == b.lists[to][i]
        },
    ensures
        a.lookup(id) == b.lookup(id),
{
}

/// Where an id stands in a list depends only on the ids in it.
proof fn lemma_position_same(a: Seq<EscrowView>, b: Seq<EscrowView>, id: u32)
    requires
        a.len() == b.len(),
        forall|i: int| 0 <= i < a.len() ==> (#[trigger] a[i]).id == b[i].id,
    ensures
        position(a, id) == position(b, id),
    decreases a.len(),
{
    if a.len() > 0 {
        lemma_position_same(a.drop_last(), b.drop_last(), id);
        assert(a[a.len() - 1].id == b[b.len() - 1].id);
    }
}

/// Recording an escrow under the next id keeps the entries sound, makes the
/// escrow available under its id and leaves all others as they were.
pub proof fn lemma_append(store: StoreView, e: EscrowView)
    requires
        store.sound(),
        e.id == store.next_id(),
        e.id < u32::MAX,
        escrow_sound(e),
    ensures
        store.append(e).sound(),
        store.append(e).next_id() == store.next_id() + 1,
        store.append(e).lookup(e.id) == Some(e),
        forall|id: u32| id != e.id ==> #[trigger] store.append(e).lookup(id) == store.lookup(id),
        forall|to: Address| #[trigger]
            store.append(e).list_of(to) == if to == e.to {
                store.list_of(to).push(e)
            } else {
                store.list_of(to)
            },
{
    let after = store.append(e);
    let old_list = store.list_of(e.to);
    let new_list = old_list.push(e);
    assert(!store.recipients.contains_key(e.id));
    assert forall|j: int| 0 <= j < old_list.len() implies (#[trigger] old_list[j]).id < e.id by {
        assert(store.lists.contains_key(e.to));
        assert(store.list_sound(e.to));
    }
    assert forall|j: int| 0 <= j < new_list.len() - 1 implies (#[trigger] new_list[j]).id
        != e.id by {
        assert(new_list[j] == old_list[j]);
    }
    lemma_position_is(new_list, e.id, new_list.len() - 1);
    assert(after.lookup(e.id) == Some(e));
    assert forall|id: u32| id != e.id implies #[trigger] after.lookup(id) == store.lookup(id) by {
        if store.recipients.contains_key(id) {
            assert(store.lookup(id) is Some);
            let to = store.recipients[id];
            if to == e.to {
                assert(new_list.drop_last() =~= old_list);
                lemma_position(old_list, id);
            }
            lemma_lookup_same(after, store, id);
        }
    }
    assert forall|to: Address| #[trigger] after.lists.contains_key(to) implies after.list_sound(
        to,
    ) by {
        if to == e.to {
            assert forall|i: int| 0 <= i < after.lists[to].len() implies {
                let x = #[trigger] after.lists[to][i];
                &&& x.to == to
                &&& escrow_sound(x)
                &&& after.recipients.contains_key(x.id)
                &&& after.recipients[x.id] == to
            } by {
                if i < old_list.len() {
                    assert(store.list_sound(to));
                    assert(store.lists[to][i] == after.lists[to][i]);
                }
            }
            assert forall|i: int, j: int| 0 <= i < j < after.lists[to].len() implies (
            #[trigger] after.lists[to][i]).id < (#[trigger] after.lists[to][j]).id by {
                assert(store.lists.contains_key(to));
                assert(store.list_sound(to));
                assert(old_list[i] == after.lists[to][i]);
                if j < old_list.len() {
                    assert(old_list[j] == after.lists[to][j]);
                }
            }
        } else {
            assert(store.list_sound(to));
            assert forall|i: int| 0 <= i < after.lists[to].len() implies {
                let x = #[trigger] after.lists[to][i];
                &&& after.recipients.contains_key(x.id)
                &&& after.recipients[x.id] == to
            } by {
                assert(store.lists[to][i] == after.lists[to][i]);
            }
        }
    }
    assert forall|id: u32| #[trigger] after.recipients.contains_key(id) implies after.lookup(
        id,
    ) is Some by {
        if id != e.id {
            assert(store.recipients.contains_key(id));
            assert(store.lookup(id) is Some);
        }
    }
    assert forall|id: u32| #[trigger] after.recipients.contains_key(id) <==> id
        < after.next_id() by {
        assert(store.recipients.contains_key(id) <==> id < store.next_id());
    }
}

/// Replacing an escrow by one with the same id and recipient keeps the entries
/// sound, makes the new state available under the id and leaves all other
/// escrows as they were.
pub proof fn lemma_replace(store: StoreView, place: PlaceView, e: EscrowView)
    requires
        store.sound(),
        store.lists.contains_key(place.recipient),
        0 <= place.index < store.lists[place.recipient].len(),
        store.lists[place.recipient][place.index] == place.escrow,
        e.id == place.escrow.id,
        e.to == place.escrow.to,
        escrow_sound(e),
    ensures
        store.replace(place, e).sound(),
        store.replace(place, e).next_id() == store.next_id(),
        store.replace(place, e).lookup(e.id) == Some(e),
        forall|id: u32|
            id != e.id ==> #[trigger] store.replace(place, e).lookup(id) == store.lookup(id),
        forall|to: Address| #[trigger]
            store.replace(place, e).list_of(to).len() == store.list_of(to).len(),
{
    let after = store.replace(place, e);
    let r = place.recipient;
    let old_list = store.lists[r];
    let new_list = after.lists[r];
    assert(store.list_sound(r));
    assert forall|j: int| 0 <= j < new_list.len() implies (#[trigger] new_list[j]).id
        == old_list[j].id by {}
    assert forall|id: u32| #[trigger] position(new_list, id) == position(old_list, id) by {
        lemma_position_same(new_list, old_list, id);
    }
    assert forall|j: int| 0 <= j < place.index implies (#[trigger] new_list[j]).id != e.id by {
        assert(old_list[j].id < old_list[place.index].id);
    }
    lemma_position_is(new_list, e.id, place.index);
    assert(after.lookup(e.id) == Some(e));
    assert forall|id: u32| id != e.id implies #[trigger] after.lookup(id) == store.lookup(id) by {
        if store.recipients.contains_key(id) {
            assert(store.lookup(id) is Some);
            lemma_position(old_list, id);
            lemma_lookup_same(after, store, id);
        }
    }
    assert forall|to: Address| #[trigger] after.lists.contains_key(to) implies after.list_sound(
        to,
    ) by {
        assert(store.lists.contains_key(to));
        assert(store.list_sound(to));
        if to == r {
            assert forall|i: int| 0 <= i < after.lists[to].len() implies {
                let x = #[trigger] after.lists[to][i];
                &&& x.to == to
                &&& escrow_sound(x)
                &&& after.recipients.contains_key(x.id)
                &&& after.recipients[x.id] == to
            } by {
                assert(old_list[i].id == new_list[i].id);
            }
        }
    }
    assert forall|id: u32| #[trigger] after.recipients.contains_key(id) implies after.lookup(
        id,
    ) is Some by {
        assert(store.recipients.contains_key(id));
        assert(store.lookup(id) is Some);
    }
    assert forall|id: u32| #[trigger] after.recipients.contains_key(id) <==> id
        < after.next_id() by {
        assert(store.recipients.contains_key(id) <==> id < store.next_id());
    }
}

/// Recording several escrows under consecutive ids keeps the entries sound,
/// makes each available under its id and leaves all others as they were.
pub proof fn lemma_append_all(store: StoreView, escrows: Seq<EscrowView>)
    requires
        store.sound(),
        store.next_id() + escrows.len() <= u32::MAX,
        forall|i: int|
            0 <= i < escrows.len() ==> (#[trigger] escrows[i]).id == store.next_id() + i
                && escrow_sound(escrows[i]),
    ensures
        store.append_all(escrows).sound(),
        store.append_all(escrows).next_id() == store.next_id() + escrows.len(),
        forall|i: int|
            0 <= i < escrows.len() ==> store.append_all(escrows).lookup(
                (#[trigger] escrows[i]).id,
            ) == Some(escrows[i]),
        forall|id: u32|
            id < store.next_id() ==> #[trigger] store.append_all(escrows).lookup(id)
                == store.lookup(id),
    decreases escrows.len(),
{
    if escrows.len() > 0 {
        let init = escrows.drop_last();
        assert forall|i: int| 0 <= i < init.len() implies (#[trigger] init[i]).id
            == store.next_id() + i && escrow_sound(init[i]) by {
            assert(init[i] == escrows[i]);
        }
        lemma_append_all(store, init);
        let last = escrows.last();
        assert(last == escrows[escrows.len() - 1]);
        lemma_append(store.append_all(init), last);
        assert forall|i: int| 0 <= i < escrows.len() implies store.append_all(escrows).lookup(
            (#[trigger] escrows[i]).id,
        ) == Some(escrows[i]) by {
            if i < init.len() {
                assert(init[i] == escrows[i]);
            }
        }
    }
}

} // verus!
