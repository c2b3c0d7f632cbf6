//! What a call asks of the host: authorisations, transfers, writes, events.
use crate::abort::Abort;
use crate::store::{copy_addresses, DataKey, Entry, EntryView, Store, StoreView};
use crate::types::{copy_list, Address, Resolution};
use vstd::prelude::*;

verus! {

/// What a call announces to observers.
#[derive(Clone, Copy, Debug, PartialEq, Eq, Structural)]
pub enum Event {
    EscrowCreated { id: u32, from: Address, to: Address, amount: i128, release_ledger: u32 },
    EscrowPartiallyClaimed { id: u32, to: Address, claimed: i128, remaining: i128 },
    EscrowClaimed { id: u32, to: Address, amount: i128 },
    EscrowCancelled { id: u32, from: Address, refund: i128 },
    MilestoneEscrowCreated { id: u32, milestones: u32 },
    MilestoneApproved { escrow: u32, milestone: u32 },
    MilestoneClaimed { escrow: u32, milestone: u32, amount: i128 },
    BatchCreated { from: Address, created: u32, skipped: u32, total: i128 },
    BatchClaimed { start: u32, end: u32, total: i128 },
    BatchCancelled { start: u32, end: u32, total: i128 },
    ArbitratorAdded { arbitrator: Address },
    ArbitratorRemoved { arbitrator: Address },
    DisputableEscrowCreated { id: u32, arbitrator: Address },
    DisputeRaised { id: u32, by: Address },
    DisputeResolved { id: u32, resolution: Resolution, to: Address, amount: i128 },
}

impl Event {
    /// The symbol that leads the event's topics.
    pub open spec fn topic_text(self) -> Seq<char> {
        match self {
            Event::EscrowCreated { .. } => "escrow_create"@,
            Event::EscrowPartiallyClaimed { .. } => "escrow_claim_partial"@,
            Event::EscrowClaimed { .. } => "escrow_claim"@,
            Event::EscrowCancelled { .. } => "escrow_cancelled"@,
            Event::MilestoneEscrowCreated { .. } => "milestone_escrow_created"@,
            Event::MilestoneApproved { .. } => "milestone_approved"@,
            Event::MilestoneClaimed { .. } => "milestone_claimed"@,
            Event::BatchCreated { .. } => "batch_escrow_created"@,
            Event::BatchClaimed { .. } => "batch_escrow_claimed"@,
            Event::BatchCancelled { .. } => "batch_escrow_cancelled"@,
            Event::ArbitratorAdded { .. } => "arbitrator_added"@,
            Event::ArbitratorRemoved { .. } => "arbitrator_removed"@,
            Event::DisputableEscrowCreated { .. } => "disputable_escrow_created"@,
            Event::DisputeRaised { .. } => "dispute_raised"@,
            Event::DisputeResolved { .. } => "dispute_resolved"@,
        }
    }

    /// The symbol that leads the event's topics.
    pub fn topic(&self) -> (topic: &'static str)
        ensures
            topic@ == self.topic_text(),
    {
        match self {
            Event::EscrowCreated { .. } => "escrow_create",
            Event::EscrowPartiallyClaimed { .. } => "escrow_claim_partial",
            Event::EscrowClaimed { .. } => "escrow_claim",
            Event::EscrowCancelled { .. } => "escrow_cancelled",
            Event::MilestoneEscrowCreated { .. } => "milestone_escrow_created",
            Event::MilestoneApproved { .. } => "milestone_approved",
            Event::MilestoneClaimed { .. } => "milestone_claimed",
            Event::BatchCreated { .. } => "batch_escrow_created",
            Event::BatchClaimed { .. } => "batch_escrow_claimed",
            Event::BatchCancelled { .. } => "batch_escrow_cancelled",
            Event::ArbitratorAdded { .. } => "arbitrator_added",
            Event::ArbitratorRemoved { .. } => "arbitrator_removed",
            Event::DisputableEscrowCreated { .. } => "disputable_escrow_created",
            Event::DisputeRaised { .. } => "dispute_raised",
            Event::DisputeResolved { .. } => "dispute_resolved",
        }
    }
}

/// One thing that a call asks of the host.
#[derive(Debug)]
pub enum Action {
    /// Roll back unless this address authorised the call.
    RequireAuth(Address),
    /// Move tokens from this address to the contract; roll back unless it succeeds.
    PullFunds { token: Address, from: Address, amount: i128 },
    /// Pay tokens from the contract to this address.
    PayOut { token: Address, to: Address, amount: i128 },
    /// Transfer tokens from the contract to this address by the token's own transfer.
    Transfer { token: Address, to: Address, amount: i128 },
    /// Count this amount of the token as locked in escrows.
    IncreaseLocked { token: Address, amount: i128 },
    /// Count this amount of the token as no longer locked.
    DecreaseLocked { token: Address, amount: i128 },
    /// Write a persistent entry.
    Write(Entry),
    /// Prolong the life of a persistent entry.
    Bump(DataKey),
    /// Prolong the life of a persistent entry to at least the configured floor.
    BumpToFloor(DataKey),
    /// Prolong the life of a persistent entry, if it exists.
    BumpIfPresent(DataKey),
    Publish(Event),
}

/// An [`Action`] as a mathematical value.
#[verifier::ext_equal]
pub enum ActionView {
    RequireAuth(Address),
    PullFunds { token: Address, from: Address, amount: i128 },
    PayOut { token: Address, to: Address, amount: i128 },
    Transfer { token: Address, to: Address, amount: i128 },
    IncreaseLocked { token: Address, amount: i128 },
    DecreaseLocked { token: Address, amount: i128 },
    Write(EntryView),
    Bump(DataKey),
    BumpToFloor(DataKey),
    BumpIfPresent(DataKey),
    Publish(Event),
}

impl View for Action {
    type V = ActionView;

    open spec fn view(&self) -> ActionView {
        match *self {
            Action::RequireAuth(a) => ActionView::RequireAuth(a),
            Action::PullFunds { token, from, amount } => ActionView::PullFunds {
                token,
                from,
                amount,
            },
            Action::PayOut { token, to, amount } => ActionView::PayOut { token, to, amount },
            Action::Transfer { token, to, amount } => ActionView::Transfer { token, to, amount },
            Action::IncreaseLocked { token, amount } => ActionView::IncreaseLocked {
                token,
                amount,
            },
            Action::DecreaseLocked { token, amount } => ActionView::DecreaseLocked {
                token,
                amount,
            },
            Action::Write(entry) => ActionView::Write(entry@),
            Action::Bump(key) => ActionView::Bump(key),
            Action::BumpToFloor(key) => ActionView::BumpToFloor(key),
            Action::BumpIfPresent(key) => ActionView::BumpIfPresent(key),
            Action::Publish(event) => ActionView::Publish(event),
        }
    }
}

/// The actions of a call, in the order in which the host performs them.
#[derive(Debug)]
pub struct Trace {
    pub actions: Vec<Action>,
}

impl View for Trace {
    type V = Seq<ActionView>;

    open spec fn view(&self) -> Seq<ActionView> {
        Seq::new(self.actions@.len(), |i: int| self.actions@[i]@)
    }
}

impl Trace {
    /// A trace without actions.
    pub fn new() -> (trace: Trace)
        ensures
            trace@ == Seq::<ActionView>::empty(),
    {
        let trace = Trace { actions: Vec::new() };
        assert(trace@ =~= Seq::<ActionView>::empty());
        trace
    }

    /// Appends an action.
    pub fn record(&mut self, action: Action)
        ensures
            final(self)@ == old(self)@.push(action@),
    {
        self.actions.push(action);
        assert(self@ =~= old(self)@.push(action@));
    }
}

/// What a completed call gives back: a value, and what it asks of the host.
#[derive(Debug)]
pub struct Reply<T> {
    pub value: T,
    pub trace: Trace,
}

/// A [`Reply`] as a mathematical value.
#[verifier::ext_equal]
pub struct ReplyView<T> {
    pub value: T,
    pub trace: Seq<ActionView>,
}

/// How an aborted call ends: for a reason, after what it asked of the host until
/// then. All of it is undone; what was asked decides only whether the host gave
/// up earlier, as it does where an authorisation is missing.
#[derive(Debug)]
pub struct Halt {
    pub reason: Abort,
    pub trace: Trace,
}

/// A [`Halt`] as a mathematical value.
#[verifier::ext_equal]
pub struct HaltView {
    pub reason: Abort,
    pub trace: Seq<ActionView>,
}

impl View for Halt {
    type V = HaltView;

    open spec fn view(&self) -> HaltView {
        HaltView { reason: self.reason, trace: self.trace@ }
    }
}

/// The end of an aborted call.
pub open spec fn halt<T>(reason: Abort, trace: Seq<ActionView>) -> Result<T, HaltView> {
    Err(HaltView { reason, trace })
}

/// Whether a call did what a rule says: complete with the same value and the
/// same actions, or abort for the same reason after the same actions.
pub open spec fn follows<T>(
    outcome: Result<Reply<T>, Halt>,
    rule: Result<ReplyView<T>, HaltView>,
) -> bool {
    match rule {
        Ok(expected) => {
            &&& outcome matches Ok(reply)
            &&& reply.value == expected.value
            &&& reply.trace@ == expected.trace
        },
        Err(expected) => outcome matches Err(halt) && halt@ == expected,
    }
}

/// The same for a value that stands for a mathematical one.
pub open spec fn follows_view<T: View>(
    outcome: Result<Reply<T>, Halt>,
    rule: Result<ReplyView<T::V>, HaltView>,
) -> bool {
    match rule {
        Ok(expected) => {
            &&& outcome matches Ok(reply)
            &&& reply.value@ == expected.value
            &&& reply.trace@ == expected.trace
        },
        Err(expected) => outcome matches Err(halt) && halt@ == expected,
    }
}

/// The entries after one action.
pub open spec fn apply_one(store: StoreView, action: ActionView) -> StoreView {
    match action {
        ActionView::Write(entry) => store.write(entry),
        _ => store,
    }
}

/// The entries after a series of actions.
pub open spec fn apply(store: StoreView, trace: Seq<ActionView>) -> StoreView
    decreases trace.len(),
{
    if trace.len() == 0 {
        store
    } else {
        apply_one(apply(store, trace.drop_last()), trace.last())
    }
}

/// Actions take effect one after the other.
pub broadcast proof fn lemma_apply_push(
    store: StoreView,
    trace: Seq<ActionView>,
    action: ActionView,
)
    ensures
        #[trigger] apply(store, trace.push(action)) == apply_one(apply(store, trace), action),
{
    assert(trace.push(action).drop_last() =~= trace);
}

impl Entry {
    /// A copy of the entry.
    pub fn copy(&self) -> (copy: Entry)
        ensures
            copy@ == self@,
    {
        match self {
            Entry::Recipient(id, to) => Entry::Recipient(*id, *to),
            Entry::List(to, list) => Entry::List(*to, copy_list(list)),
            Entry::Count(count) => Entry::Count(*count),
            Entry::Arbitrators(list) => Entry::Arbitrators(copy_addresses(list)),
            Entry::ArbitratorCount(count) => Entry::ArbitratorCount(*count),
        }
    }
}

impl Store {
    /// Performs the writes of a trace, in order.
    pub fn apply(&mut self, trace: &Trace)
        ensures
            final(self)@ == apply(old(self)@, trace@),
    {
        let ghost before = self@;
        let mut i: usize = 0;
        while i < trace.actions.len()
            invariant
                i <= trace.actions.len(),
                self@ == apply(before, trace@.take(i as int)),
            decreases trace.actions.len() - i,
        {
            assert(trace@.take(i + 1).drop_last() =~= trace@.take(i as int));
            assert(trace@.take(i + 1).last() == trace.actions[i as int]@);
            match &trace.actions[i] {
                Action::Write(entry) => {
                    self.write(entry.copy());
                },
                _ => {},
            }
            i = i + 1;
        }
        assert(trace@.take(i as int) =~= trace@);
    }
}

} // verus!
