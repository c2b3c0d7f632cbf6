//! The contract's persistent entries.
use crate::abort::Abort;
use crate::types::{copy_list, records, Address, Escrow, EscrowView};
use vstd::prelude::*;

verus! {

/// Names a persistent entry.
#[derive(Clone, Copy, Debug, PartialEq, Eq, Structural)]
pub enum DataKey {
    /// The recipient of the escrow with this id.
    EscrowRecipient(u32),
    /// The escrows of this recipient, oldest first.
    EscrowByRecipient(Address),
    /// How many escrows were ever created.
    EscrowCount,
    /// The registered arbitrators, oldest first.
    Arbitrators,
    /// How many arbitrators are registered.
    ArbitratorCount,
}

/// A persistent entry together with its value.
#[derive(Debug)]
pub enum Entry {
    Recipient(u32, Address),
    List(Address, Vec<Escrow>),
    Count(u32),
    Arbitrators(Vec<Address>),
    ArbitratorCount(u32),
}

/// An [`Entry`] as a mathematical value.
#[verifier::ext_equal]
pub enum EntryView {
    Recipient(u32, Address),
    List(Address, Seq<EscrowView>),
    Count(u32),
    Arbitrators(Seq<Address>),
    ArbitratorCount(u32),
}

impl View for Entry {
    type V = EntryView;

    open spec fn view(&self) -> EntryView {
        match *self {
            Entry::Recipient(id, to) => EntryView::Recipient(id, to),
            Entry::List(to, list) => EntryView::List(to, records(list@)),
            Entry::Count(count) => EntryView::Count(count),
            Entry::Arbitrators(list) => EntryView::Arbitrators(list@),
            Entry::ArbitratorCount(count) => EntryView::ArbitratorCount(count),
        }
    }
}

/// The position of the first escrow with this id in a list.
pub open spec fn position(list: Seq<EscrowView>, id: u32) -> Option<int>
    decreases list.len(),
{
    if list.len() == 0 {
        None
    } else {
        match position(list.drop_last(), id) {
            Some(i) => Some(i),
            None => if list.last().id == id {
                Some(list.len() - 1)
            } else {
                None
            },
        }
    }
}

/// Where an escrow is kept.
pub struct PlaceView {
    /// The recipient under whose key the list is stored.
    pub recipient: Address,
    /// The position in that list.
    pub index: int,
    pub escrow: EscrowView,
}

/// The contract's persistent entries as mathematical maps.
#[verifier::ext_equal]
pub struct StoreView {
    pub recipients: Map<u32, Address>,
    pub lists: Map<Address, Seq<EscrowView>>,
    pub count: Option<u32>,
    pub arbitrators: Option<Seq<Address>>,
    pub arbitrator_count: Option<u32>,
}

impl StoreView {
    /// No entry at all.
    pub open spec fn empty() -> StoreView {
        StoreView {
            recipients: Map::empty(),
            lists: Map::empty(),
            count: None,
            arbitrators: None,
            arbitrator_count: None,
        }
    }

    /// The entries after one of them is written.
    pub open spec fn write(self, entry: EntryView) -> StoreView {
        match entry {
            EntryView::Recipient(id, to) => StoreView {
                recipients: self.recipients.insert(id, to),
                ..self
            },
            EntryView::List(to, list) => StoreView { lists: self.lists.insert(to, list), ..self },
            EntryView::Count(count) => StoreView { count: Some(count), ..self },
            EntryView::Arbitrators(list) => StoreView { arbitrators: Some(list), ..self },
            EntryView::ArbitratorCount(count) => StoreView {
                arbitrator_count: Some(count),
                ..self
            },
        }
    }

    /// A recipient's escrows; none if it never had one.
    pub open spec fn list_of(self, to: Address) -> Seq<EscrowView> {
        if self.lists.contains_key(to) {
            self.lists[to]
        } else {
            Seq::empty()
        }
    }

    /// The id that the next escrow gets.
    pub open spec fn next_id(self) -> u32 {
        match self.count {
            Some(count) => count,
            None => 0,
        }
    }

    /// Finds an escrow by its id; `missing` is the reason given where no
    /// recipient is recorded for it.
    pub open spec fn locate(self, id: u32, missing: Abort) -> Result<PlaceView, Abort> {
        if !self.recipients.contains_key(id) {
            Err(missing)
        } else {
            let recipient = self.recipients[id];
            if !self.lists.contains_key(recipient) {
                Err(Abort::ListNotFound)
            } else {
                match position(self.lists[recipient], id) {
                    None => Err(Abort::EscrowNotFound),
                    Some(index) => Ok(
                        PlaceView {
                            recipient,
                            index,
                            escrow: self.lists[recipient][index],
                        },
                    ),
                }
            }
        }
    }

    /// The escrow with this id, if it is recorded and listed.
    pub open spec fn lookup(self, id: u32) -> Option<EscrowView> {
        match self.locate(id, Abort::RecipientNotFound) {
            Ok(place) => Some(place.escrow),
            Err(_) => None,
        }
    }

    /// The list in which an escrow was found, with the escrow replaced.
    pub open spec fn replaced(self, place: PlaceView, escrow: EscrowView) -> Seq<EscrowView> {
        self.lists[place.recipient].update(place.index, escrow)
    }

    /// The entries with the escrow found at a place replaced.
    pub open spec fn replace(self, place: PlaceView, escrow: EscrowView) -> StoreView {
        self.write(EntryView::List(place.recipient, self.replaced(place, escrow)))
    }
}

/// A found position lies in the list, holds the id and is the first that does;
/// where none is found, no escrow of the list has the id.
pub proof fn lemma_position(list: Seq<EscrowView>, id: u32)
    ensures
        match position(list, id) {
            Some(i) => {
                &&& 0 <= i < list.len()
                &&& list[i].id == id
                &&& forall|j: int| 0 <= j < i ==> (#[trigger] list[j]).id != id
            },
            None => forall|j: int| 0 <= j < list.len() ==> (#[trigger] list[j]).id != id,
        },
    decreases list.len(),
{
    if list.len() > 0 {
        let init = list.drop_last();
        lemma_position(init, id);
        assert forall|j: int| 0 <= j < init.len() implies #[trigger] list[j] == init[j] by {}
    }
}

/// The position that [`lemma_position`] describes is the only one of its kind.
pub proof fn lemma_position_is(list: Seq<EscrowView>, id: u32, i: int)
    requires
        0 <= i < list.len(),
        list[i].id == id,
        forall|j: int| 0 <= j < i ==> (#[trigger] list[j]).id != id,
    ensures
        position(list, id) == Some(i),
{
    lemma_position(list, id);
}

/// The position of the first escrow with this id in a list.
pub fn find_position(list: &Vec<Escrow>, id: u32) -> (found: Option<usize>)
    ensures
        match found {
            Some(i) => position(records(list@), id) == Some(i as int) && i < list.len(),
            None => position(records(list@), id) is None,
        },
{
    let mut i: usize = 0;
    while i < list.len()
        invariant
            i <= list.len(),
            forall|j: int| 0 <= j < i ==> (#[trigger] list[j]).id != id,
        decreases list.len() - i,
    {
        if list[i].id == id {
            proof {
                lemma_position_is(records(list@), id, i as int);
            }
            return Some(i);
        }
        i = i + 1;
    }
    proof {
        lemma_position(records(list@), id);
    }
    None
}

/// The recipients that a journal of writes leaves: for each id the last one written.
pub open spec fn recipient_map(journal: Seq<(u32, Address)>) -> Map<u32, Address>
    decreases journal.len(),
{
    if journal.len() == 0 {
        Map::empty()
    } else {
        recipient_map(journal.drop_last()).insert(journal.last().0, journal.last().1)
    }
}

/// The lists that a journal of writes leaves: for each recipient the last one written.
pub open spec fn list_map(journal: Seq<(Address, Vec<Escrow>)>) -> Map<Address, Seq<EscrowView>>
    decreases journal.len(),
{
    if journal.len() == 0 {
        Map::empty()
    } else {
        list_map(journal.drop_last()).insert(journal.last().0, records(journal.last().1@))
    }
}

/// An optional list of addresses as an optional sequence.
pub open spec fn addresses(list: Option<Vec<Address>>) -> Option<Seq<Address>> {
    match list {
        Some(list) => Some(list@),
        None => None,
    }
}

/// A copy of a list of addresses.
pub fn copy_addresses(list: &Vec<Address>) -> (copy: Vec<Address>)
    ensures
        copy@ == list@,
{
    let mut copy: Vec<Address> = Vec::new();
    let mut i: usize = 0;
    while i < list.len()
        invariant
            i <= list.len(),
            copy@ == list@.take(i as int),
        decreases list.len() - i,
    {
        copy.push(list[i]);
        i = i + 1;
    }
    copy
}

/// Where an escrow is kept.
pub struct Place<'a> {
    /// The recipient under whose key the list is stored.
    pub recipient: Address,
    pub list: &'a Vec<Escrow>,
    /// The position in the list.
    pub index: usize,
}

impl<'a> Place<'a> {
    /// Whether this is the place that a search found.
    pub open spec fn is(&self, place: PlaceView, store: StoreView) -> bool {
        &&& self.recipient == place.recipient
        &&& self.index == place.index
        &&& self.index < self.list.len()
        &&& store.lists.contains_key(place.recipient)
        &&& records(self.list@) == store.lists[place.recipient]
        &&& self.list[self.index as int]@ == place.escrow
    }

    /// The list with this escrow in place of the one found.
    pub fn replaced(&self, escrow: Escrow) -> (list: Vec<Escrow>)
        requires
            self.index < self.list.len(),
        ensures
            records(list@) == records(self.list@).update(self.index as int, escrow@),
    {
        let mut list = copy_list(self.list);
        assert(records(list@).len() == list.len());
        list.set(self.index, escrow);
        assert(records(list@) =~= records(self.list@).update(self.index as int, escrow@)) by {
            assert forall|j: int| 0 <= j < list.len() && j != self.index implies (
            #[trigger] list[j])@ == records(self.list@)[j] by {}
        }
        list
    }
}

/// The contract's persistent entries, as far as a call needs them. The entries
/// are kept as journals: the last write to a key is the one that counts.
#[derive(Debug)]
pub struct Store {
    recipients: Vec<(u32, Address)>,
    lists: Vec<(Address, Vec<Escrow>)>,
    count: Option<u32>,
    arbitrators: Option<Vec<Address>>,
    arbitrator_count: Option<u32>,
}

impl View for Store {
    type V = StoreView;

    closed spec fn view(&self) -> StoreView {
        StoreView {
            recipients: recipient_map(self.recipients@),
            lists: list_map(self.lists@),
            count: self.count,
            arbitrators: addresses(self.arbitrators),
            arbitrator_count: self.arbitrator_count,
        }
    }
}

impl Store {
    /// A store without entries.
    pub fn new() -> (store: Store)
        ensures
            store@ == StoreView::empty(),
    {
        Store {
            recipients: Vec::new(),
            lists: Vec::new(),
            count: None,
            arbitrators: None,
            arbitrator_count: None,
        }
    }

    /// Writes an entry, replacing what the key held before.
    pub fn write(&mut self, entry: Entry)
        ensures
            final(self)@ == old(self)@.write(entry@),
    {
        match entry {
            Entry::Recipient(id, to) => {
                let ghost before = self.recipients@;
                self.recipients.push((id, to));
                assert(self.recipients@.drop_last() =~= before);
            },
            Entry::List(to, list) => {
                let ghost before = self.lists@;
                self.lists.push((to, list));
                assert(self.lists@.drop_last() =~= before);
            },
            Entry::Count(count) => {
                self.count = Some(count);
            },
            Entry::Arbitrators(list) => {
                self.arbitrators = Some(list);
            },
            Entry::ArbitratorCount(count) => {
                self.arbitrator_count = Some(count);
            },
        }
    }

    /// The recipient recorded for an escrow id.
    pub fn recipient(&self, id: u32) -> (recipient: Option<Address>)
        ensures
            match recipient {
                Some(to) => self@.recipients.contains_key(id) && self@.recipients[id] == to,
                None => !self@.recipients.contains_key(id),
            },
    {
        let ghost journal = self.recipients@;
        let mut i: usize = self.recipients.len();
        assert(journal.take(i as int) =~= journal);
        while i > 0
            invariant
                i <= self.recipients.len(),
                journal == self.recipients@,
                self@.recipients.contains_key(id) == recipient_map(
                    journal.take(i as int),
                ).contains_key(id),
                self@.recipients.contains_key(id) ==> self@.recipients[id] == recipient_map(
                    journal.take(i as int),
                )[id],
            decreases i,
        {
            i = i - 1;
            assert(journal.take(i + 1).drop_last() =~= journal.take(i as int));
            if self.recipients[i].0 == id {
                return Some(self.recipients[i].1);
            }
        }
        None
    }

    /// The escrows recorded for a recipient, if it ever had one.
    pub fn list(&self, to: Address) -> (list: Option<&Vec<Escrow>>)
        ensures
            match list {
                Some(list) => self@.lists.contains_key(to) && records(list@) == self@.lists[to],
                None => !self@.lists.contains_key(to),
            },
    {
        let ghost journal = self.lists@;
        let mut i: usize = self.lists.len();
        assert(journal.take(i as int) =~= journal);
        while i > 0
            invariant
                i <= self.lists.len(),
                journal == self.lists@,
                self@.lists.contains_key(to) == list_map(journal.take(i as int)).contains_key(to),
                self@.lists.contains_key(to) ==> self@.lists[to] == list_map(
                    journal.take(i as int),
                )[to],
            decreases i,
        {
            i = i - 1;
            assert(journal.take(i + 1).drop_last() =~= journal.take(i as int));
            if self.lists[i].0 == to {
                return Some(&self.lists[i].1);
            }
        }
        None
    }

    /// A copy of a recipient's escrows; none if it never had one.
    pub fn list_of(&self, to: Address) -> (list: Vec<Escrow>)
        ensures
            records(list@) == self@.list_of(to),
    {
        match self.list(to) {
            Some(list) => copy_list(list),
            None => {
                let list: Vec<Escrow> = Vec::new();
                assert(records(list@) =~= Seq::empty());
                list
            },
        }
    }

    /// How many escrows were ever created, if any was.
    pub fn count(&self) -> (count: Option<u32>)
        ensures
            count == self@.count,
    {
        self.count
    }

    /// The id that the next escrow gets.
    pub fn next_id(&self) -> (id: u32)
        ensures
            id == self@.next_id(),
    {
        match self.count {
            Some(count) => count,
            None => 0,
        }
    }

    /// The registered arbitrators, if the list was ever written.
    pub fn arbitrators(&self) -> (list: Option<&Vec<Address>>)
        ensures
            match list {
                Some(list) => self@.arbitrators == Some(list@),
                None => self@.arbitrators is None,
            },
    {
        match &self.arbitrators {
            Some(list) => Some(list),
            None => None,
        }
    }

    /// How many arbitrators are registered, if the number was ever written.
    pub fn arbitrator_count(&self) -> (count: Option<u32>)
        ensures
            count == self@.arbitrator_count,
    {
        self.arbitrator_count
    }

    /// Finds an escrow by its id; `missing` is the reason given where no
    /// recipient is recorded for it.
    pub fn locate(&self, id: u32, missing: Abort) -> (found: Result<Place<'_>, Abort>)
        ensures
            match self@.locate(id, missing) {
                Ok(place) => found matches Ok(p) && p.is(place, self@),
                Err(abort) => found == Err::<Place<'_>, Abort>(abort),
            },
    {
        let recipient = match self.recipient(id) {
            Some(recipient) => recipient,
            None => {
                return Err(missing);
            },
        };
        let list = match self.list(recipient) {
            Some(list) => list,
            None => {
                return Err(Abort::ListNotFound);
            },
        };
        match find_position(list, id) {
            Some(index) => Ok(Place { recipient, list, index }),
            None => Err(Abort::EscrowNotFound),
        }
    }

    /// A copy of the store.
    pub fn copy(&self) -> (copy: Store)
        ensures
            copy@ == self@,
    {
        let mut recipients: Vec<(u32, Address)> = Vec::new();
        let mut i: usize = 0;
        while i < self.recipients.len()
            invariant
                i <= self.recipients.len(),
                recipients@ == self.recipients@.take(i as int),
            decreases self.recipients.len() - i,
        {
            recipients.push(self.recipients[i]);
            i = i + 1;
        }
        assert(recipients@ =~= self.recipients@);
        let mut lists: Vec<(Address, Vec<Escrow>)> = Vec::new();
        let mut k: usize = 0;
        while k < self.lists.len()
            invariant
                k <= self.lists.len(),
                lists.len() == k,
                list_map(lists@) == list_map(self.lists@.take(k as int)),
            decreases self.lists.len() - k,
        {
            let ghost before = lists@;
            lists.push((self.lists[k].0, copy_list(&self.lists[k].1)));
            assert(lists@.drop_last() =~= before);
            assert(self.lists@.take(k + 1).drop_last() =~= self.lists@.take(k as int));
            k = k + 1;
        }
        assert(self.lists@.take(k as int) =~= self.lists@);
        let arbitrators = match &self.arbitrators {
            Some(list) => Some(copy_addresses(list)),
            None => None,
        };
        Store {
            recipients,
            lists,
            count: self.count,
            arbitrators,
            arbitrator_count: self.arbitrator_count,
        }
    }
}

} // verus!
