//! The records the escrow contract keeps and the values its calls exchange.
use vstd::prelude::*;

verus! {

/// What an address stands for on the network.
#[derive(Clone, Copy, Debug, PartialEq, Eq, Structural)]
pub enum AddressKind {
    /// An account, identified by its 32-byte public key.
    Account,
    /// A contract, identified by its 32-byte hash.
    Contract,
}

/// An account or contract address: its kind and the two halves of its 32-byte
/// identifier, most significant half first. Two addresses are the same exactly
/// when all three fields agree.
#[derive(Clone, Copy, Debug, PartialEq, Eq, Structural)]
pub struct Address {
    pub kind: AddressKind,
    pub high: u128,
    pub low: u128,
}

/// Life cycle of an escrow: it starts pending and ends released or cancelled.
#[derive(Clone, Copy, Debug, PartialEq, Eq, Structural)]
pub enum EscrowStatus {
    Pending,
    Released,
    Cancelled,
}

/// One separately approved and claimed part of a milestone escrow.
#[derive(Clone, Copy, Debug, PartialEq, Eq, Structural)]
pub struct Milestone {
    pub id: u32,
    pub amount: i128,
    /// Last ledger on which the milestone can be approved; 0 means no deadline.
    pub approval_deadline_ledger: u32,
    pub approved: bool,
    pub claimed: bool,
}

/// Tokens held by the contract for `to`, paid in by `from`.
#[derive(Debug)]
pub struct Escrow {
    pub id: u32,
    pub from: Address,
    pub to: Address,
    pub token: Address,
    pub amount: i128,
    pub release_ledger: u32,
    pub status: EscrowStatus,
    pub memo: String,
    pub arbitrator: Option<Address>,
    pub disputed: bool,
    pub dispute_raised_by: Option<Address>,
    pub dispute_raised_at: u32,
    pub agent: Option<Address>,
    pub milestones: Vec<Milestone>,
    pub is_milestone_based: bool,
}

/// An [`Escrow`] as a mathematical value.
#[verifier::ext_equal]
pub struct EscrowView {
    pub id: u32,
    pub from: Address,
    pub to: Address,
    pub token: Address,
    pub amount: i128,
    pub release_ledger: u32,
    pub status: EscrowStatus,
    pub memo: Seq<char>,
    pub arbitrator: Option<Address>,
    pub disputed: bool,
    pub dispute_raised_by: Option<Address>,
    pub dispute_raised_at: u32,
    pub agent: Option<Address>,
    pub milestones: Seq<Milestone>,
    pub is_milestone_based: bool,
}

impl View for Escrow {
    type V = EscrowView;

    open spec fn view(&self) -> EscrowView {
        EscrowView {
            id: self.id,
            from: self.from,
            to: self.to,
            token: self.token,
            amount: self.amount,
            release_ledger: self.release_ledger,
            status: self.status,
            memo: self.memo@,
            arbitrator: self.arbitrator,
            disputed: self.disputed,
            dispute_raised_by: self.dispute_raised_by,
            dispute_raised_at: self.dispute_raised_at,
            agent: self.agent,
            milestones: self.milestones@,
            is_milestone_based: self.is_milestone_based,
        }
    }
}

/// A list of escrows as a mathematical sequence.
pub open spec fn records(list: Seq<Escrow>) -> Seq<EscrowView> {
    Seq::new(list.len(), |i: int| list[i]@)
}

/// A copy of a milestone schedule.
pub fn copy_milestones(milestones: &Vec<Milestone>) -> (copy: Vec<Milestone>)
    ensures
        copy@ == milestones@,
{
    let mut copy: Vec<Milestone> = Vec::new();
    let mut i: usize = 0;
    while i < milestones.len()
        invariant
            i <= milestones.len(),
            copy@ == milestones@.take(i as int),
        decreases milestones.len() - i,
    {
        copy.push(milestones[i]);
        i = i + 1;
    }
    copy
}

impl Escrow {
    /// A copy of the escrow.
    pub fn copy(&self) -> (copy: Escrow)
        ensures
            copy@ == self@,
    {
        Escrow {
            id: self.id,
            from: self.from,
            to: self.to,
            token: self.token,
            amount: self.amount,
            release_ledger: self.release_ledger,
            status: self.status,
            memo: self.memo.clone(),
            arbitrator: self.arbitrator,
            disputed: self.disputed,
            dispute_raised_by: self.dispute_raised_by,
            dispute_raised_at: self.dispute_raised_at,
            agent: self.agent,
            milestones: copy_milestones(&self.milestones),
            is_milestone_based: self.is_milestone_based,
        }
    }
}

/// A copy of a list of escrows.
pub fn copy_list(list: &Vec<Escrow>) -> (copy: Vec<Escrow>)
    ensures
        records(copy@) == records(list@),
{
    let mut copy: Vec<Escrow> = Vec::new();
    let mut i: usize = 0;
    while i < list.len()
        invariant
            i <= list.len(),
            copy.len() == i,
            forall|j: int| 0 <= j < i ==> (#[trigger] copy[j])@ == list[j]@,
        decreases list.len() - i,
    {
        copy.push(list[i].copy());
        i = i + 1;
    }
    copy
}

/// The errors that a call can return to its caller.
#[derive(Clone, Copy, Debug, PartialEq, Eq, Structural)]
pub enum ContractError {
    /// No escrow has the requested id.
    NotFound,
    /// The recipient already has as many escrows as its index can track.
    IndexFull,
}

/// An escrow condensed for dashboards.
#[derive(Clone, Copy, Debug, PartialEq, Eq, Structural)]
pub struct EscrowSummary {
    pub id: u32,
    pub total_amount: i128,
    pub released_amount: i128,
    pub remaining_amount: i128,
    pub milestone_count: u32,
    pub approved_milestones: u32,
    pub claimed_milestones: u32,
    pub status: EscrowStatus,
    pub is_milestone_based: bool,
}

/// One item of a batch creation.
#[derive(Debug)]
pub struct BatchEscrowInput {
    pub to: Address,
    pub amount: i128,
    pub release_ledger: u32,
    pub memo: String,
}

/// A [`BatchEscrowInput`] as a mathematical value.
#[verifier::ext_equal]
pub struct BatchEscrowInputView {
    pub to: Address,
    pub amount: i128,
    pub release_ledger: u32,
    pub memo: Seq<char>,
}

impl View for BatchEscrowInput {
    type V = BatchEscrowInputView;

    open spec fn view(&self) -> BatchEscrowInputView {
        BatchEscrowInputView {
            to: self.to,
            amount: self.amount,
            release_ledger: self.release_ledger,
            memo: self.memo@,
        }
    }
}

/// The items of a batch as a mathematical sequence.
pub open spec fn inputs(items: Seq<BatchEscrowInput>) -> Seq<BatchEscrowInputView> {
    Seq::new(items.len(), |i: int| items[i]@)
}

/// What became of one item of a batch creation.
#[derive(Clone, Copy, Debug, PartialEq, Eq, Structural)]
pub enum BatchEscrowResult {
    /// Created, with this escrow id.
    Success(u32),
    /// Rejected; carries the item's position in the batch.
    Skipped(u32),
}

/// What became of one id of a batch claim or cancellation.
#[derive(Clone, Copy, Debug, PartialEq, Eq, Structural)]
pub enum BatchClaimResult {
    /// Settled; carries the amount paid.
    Success(i128),
    /// Left alone; carries the id's position in the batch.
    Skipped(u32),
}

/// How far a batch claim or cancellation got.
#[derive(Debug)]
pub struct BatchClaimCursor {
    pub start_index: u32,
    /// Pass back as the start index to process the next chunk.
    pub next_index: u32,
    pub results: Vec<BatchClaimResult>,
    pub done: bool,
}

/// A [`BatchClaimCursor`] as a mathematical value.
#[verifier::ext_equal]
pub struct BatchClaimCursorView {
    pub start_index: u32,
    pub next_index: u32,
    pub results: Seq<BatchClaimResult>,
    pub done: bool,
}

impl View for BatchClaimCursor {
    type V = BatchClaimCursorView;

    open spec fn view(&self) -> BatchClaimCursorView {
        BatchClaimCursorView {
            start_index: self.start_index,
            next_index: self.next_index,
            results: self.results@,
            done: self.done,
        }
    }
}

/// The contract's configured bounds.
#[derive(Clone, Copy, Debug, PartialEq, Eq, Structural)]
pub struct Limits {
    pub min_escrow_amount: i128,
    pub max_escrow_amount: i128,
    /// How many ledgers ahead a release ledger can lie.
    pub max_escrow_ledgers: u32,
    /// How many escrows one recipient's index can track.
    pub max_user_escrows: u32,
    pub max_milestones: u32,
    pub max_batch_size: u32,
    /// How many ids one batch claim or cancellation processes at most.
    pub batch_escrow_cursor_step: u32,
}

/// What a call finds when it starts: the ledger it runs on and the contract's switches.
#[derive(Clone, Copy, Debug, PartialEq, Eq, Structural)]
pub struct Context {
    /// Sequence number of the current ledger.
    pub sequence: u32,
    pub initialized: bool,
    /// Whether the circuit breaker is engaged.
    pub paused: bool,
    /// Whether a call that holds the reentrancy guard is already running.
    pub guard_held: bool,
    /// The stored administrator, if one is set.
    pub admin: Option<Address>,
    pub limits: Limits,
}

/// How an arbitrator settles a dispute.
#[derive(Clone, Copy, Debug, PartialEq, Eq, Structural)]
pub enum Resolution {
    /// Pay an amount to the recipient.
    Release,
    /// Pay everything back to the sender.
    Refund,
    /// Pay an amount to the recipient, the rest to the sender.
    Split,
}

} // verus!
