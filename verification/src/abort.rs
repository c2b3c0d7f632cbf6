//! The reasons for which a call is rolled back.
use vstd::prelude::*;

verus! {

/// Why a call is rolled back. A call that aborts leaves no trace: the whole
/// transaction is undone.
#[derive(Clone, Copy, Debug, PartialEq, Eq, Structural)]
pub enum Abort {
    /// A guarded call is already running.
    Reentrant,
    NotInitialized,
    Paused,
    /// No administrator is stored.
    AdminNotSet,
    SelfEscrow,
    AmountNotPositive,
    AmountTooLarge,
    AmountTooSmall,
    ReleaseNotInFuture,
    ReleaseTooFar,
    /// No recipient is recorded for the escrow id.
    RecipientNotFound,
    /// No recipient is recorded for the id of the escrow in dispute.
    DisputedEscrowNotFound,
    ListNotFound,
    EscrowNotFound,
    MilestoneClaimOnly,
    NotPending,
    Disputed,
    ReleaseNotReached,
    ReleaseAlreadyReached,
    ClaimNotPositive,
    ClaimTooLarge,
    AgentIsRecipient,
    NoMilestones,
    TooManyMilestones,
    MilestoneNotPositive,
    DeadlineNotInFuture,
    MilestoneSumMismatch,
    NotMilestoneBased,
    Unauthorized,
    MilestoneAlreadyApproved,
    DeadlinePassed,
    MilestoneNotFound,
    MilestoneNotApproved,
    MilestoneAlreadyClaimed,
    BatchEmpty,
    BatchTooLarge,
    ArbitratorAlreadyRegistered,
    NoArbitrators,
    ArbitratorNotFound,
    ArbitratorNotRegistered,
    NotDisputable,
    DisputeNotPending,
    AlreadyDisputed,
    NotParticipant,
    ResolveNotPending,
    NotDisputed,
    NotDesignatedArbitrator,
    InvalidReleaseAmount,
    InvalidSplitAmount,
    InvalidResolution,
    /// A checked sum does not fit its type.
    Overflow,
    /// A plain addition does not fit its type.
    AdditionOverflow,
    /// A plain subtraction does not fit its type.
    SubtractionOverflow,
}

impl Abort {
    /// The text with which the contract panics for this reason.
    pub open spec fn text(self) -> Seq<char> {
        match self {
            Abort::Reentrant => "reentrant call"@,
            Abort::NotInitialized => "contract is not initialized"@,
            Abort::Paused => "contract is paused"@,
            Abort::AdminNotSet => "admin is not set"@,
            Abort::SelfEscrow => "cannot create escrow to yourself"@,
            Abort::AmountNotPositive => "amount must be positive"@,
            Abort::AmountTooLarge => "amount exceeds maximum escrow size"@,
            Abort::AmountTooSmall => "amount below minimum escrow size"@,
            Abort::ReleaseNotInFuture => "release_ledger must be in the future"@,
            Abort::ReleaseTooFar => "release_ledger is too far in the future"@,
            Abort::RecipientNotFound => "escrow recipient not found"@,
            Abort::DisputedEscrowNotFound => "Escrow not found"@,
            Abort::ListNotFound => "escrow list not found"@,
            Abort::EscrowNotFound => "escrow not found"@,
            Abort::MilestoneClaimOnly => "milestone escrow must be claimed via claim_milestone"@,
            Abort::NotPending => "escrow is not pending"@,
            Abort::Disputed => "escrow is disputed"@,
            Abort::ReleaseNotReached => "release_ledger not reached"@,
            Abort::ReleaseAlreadyReached =>
                "release_ledger already reached — cancellation is no longer allowed"@,
            Abort::ClaimNotPositive => "claim amount must be positive"@,
            Abort::ClaimTooLarge => "claim amount exceeds escrow balance"@,
            Abort::AgentIsRecipient => "agent cannot be the recipient"@,
            Abort::NoMilestones => "at least one milestone is required"@,
            Abort::TooManyMilestones => "too many milestones"@,
            Abort::MilestoneNotPositive => "milestone amount must be positive"@,
            Abort::DeadlineNotInFuture => "approval deadline must be in the future"@,
            Abort::MilestoneSumMismatch => "milestone amounts must sum to the deposit"@,
            Abort::NotMilestoneBased => "escrow is not milestone-based"@,
            Abort::Unauthorized => "Unauthorized"@,
            Abort::MilestoneAlreadyApproved => "milestone already approved"@,
            Abort::DeadlinePassed => "approval deadline passed"@,
            Abort::MilestoneNotFound => "milestone not found"@,
            Abort::MilestoneNotApproved => "milestone not approved"@,
            Abort::MilestoneAlreadyClaimed => "milestone already claimed"@,
            Abort::BatchEmpty => "recipients must not be empty"@,
            Abort::BatchTooLarge => "batch exceeds maximum size"@,
            Abort::ArbitratorAlreadyRegistered => "Arbitrator already registered"@,
            Abort::NoArbitrators => "No arbitrators registered"@,
            Abort::ArbitratorNotFound => "Arbitrator not found"@,
            Abort::ArbitratorNotRegistered => "Arbitrator is not registered"@,
            Abort::NotDisputable => "Escrow is not disputable"@,
            Abort::DisputeNotPending => "Escrow must be in pending status to dispute"@,
            Abort::AlreadyDisputed => "Escrow is already disputed"@,
            Abort::NotParticipant => "Only escrow participants can raise a dispute"@,
            Abort::ResolveNotPending => "Escrow is not pending"@,
            Abort::NotDisputed => "Escrow is not disputed"@,
            Abort::NotDesignatedArbitrator =>
                "Only the designated arbitrator can resolve this dispute"@,
            Abort::InvalidReleaseAmount => "Invalid release amount"@,
            Abort::InvalidSplitAmount => "Invalid split amount"@,
            Abort::InvalidResolution => "Invalid resolution type"@,
            Abort::Overflow => "overflow"@,
            Abort::AdditionOverflow => "attempt to add with overflow"@,
            Abort::SubtractionOverflow => "attempt to subtract with overflow"@,
        }
    }

    /// The text with which the contract panics for this reason.
    pub fn message(&self) -> (text: &'static str)
        ensures
            text@ == self.text(),
    {
        match self {
            Abort::Reentrant => "reentrant call",
            Abort::NotInitialized => "contract is not initialized",
            Abort::Paused => "contract is paused",
            Abort::AdminNotSet => "admin is not set",
            Abort::SelfEscrow => "cannot create escrow to yourself",
            Abort::AmountNotPositive => "amount must be positive",
            Abort::AmountTooLarge => "amount exceeds maximum escrow size",
            Abort::AmountTooSmall => "amount below minimum escrow size",
            Abort::ReleaseNotInFuture => "release_ledger must be in the future",
            Abort::ReleaseTooFar => "release_ledger is too far in the future",
            Abort::RecipientNotFound => "escrow recipient not found",
            Abort::DisputedEscrowNotFound => "Escrow not found",
            Abort::ListNotFound => "escrow list not found",
            Abort::EscrowNotFound => "escrow not found",
            Abort::MilestoneClaimOnly => "milestone escrow must be claimed via claim_milestone",
            Abort::NotPending => "escrow is not pending",
            Abort::Disputed => "escrow is disputed",
            Abort::ReleaseNotReached => "release_ledger not reached",
            Abort::ReleaseAlreadyReached =>
                "release_ledger already reached — cancellation is no longer allowed",
            Abort::ClaimNotPositive => "claim amount must be positive",
            Abort::ClaimTooLarge => "claim amount exceeds escrow balance",
            Abort::AgentIsRecipient => "agent cannot be the recipient",
            Abort::NoMilestones => "at least one milestone is required",
            Abort::TooManyMilestones => "too many milestones",
            Abort::MilestoneNotPositive => "milestone amount must be positive",
            Abort::DeadlineNotInFuture => "approval deadline must be in the future",
            Abort::MilestoneSumMismatch => "milestone amounts must sum to the deposit",
            Abort::NotMilestoneBased => "escrow is not milestone-based",
            Abort::Unauthorized => "Unauthorized",
            Abort::MilestoneAlreadyApproved => "milestone already approved",
            Abort::DeadlinePassed => "approval deadline passed",
            Abort::MilestoneNotFound => "milestone not found",
            Abort::MilestoneNotApproved => "milestone not approved",
            Abort::MilestoneAlreadyClaimed => "milestone already claimed",
            Abort::BatchEmpty => "recipients must not be empty",
            Abort::BatchTooLarge => "batch exceeds maximum size",
            Abort::ArbitratorAlreadyRegistered => "Arbitrator already registered",
            Abort::NoArbitrators => "No arbitrators registered",
            Abort::ArbitratorNotFound => "Arbitrator not found",
            Abort::ArbitratorNotRegistered => "Arbitrator is not registered",
            Abort::NotDisputable => "Escrow is not disputable",
            Abort::DisputeNotPending => "Escrow must be in pending status to dispute",
            Abort::AlreadyDisputed => "Escrow is already disputed",
            Abort::NotParticipant => "Only escrow participants can raise a dispute",
            Abort::ResolveNotPending => "Escrow is not pending",
            Abort::NotDisputed => "Escrow is not disputed",
            Abort::NotDesignatedArbitrator =>
                "Only the designated arbitrator can resolve this dispute",
            Abort::InvalidReleaseAmount => "Invalid release amount",
            Abort::InvalidSplitAmount => "Invalid split amount",
            Abort::InvalidResolution => "Invalid resolution type",
            Abort::Overflow => "overflow",
            Abort::AdditionOverflow => "attempt to add with overflow",
            Abort::SubtractionOverflow => "attempt to subtract with overflow",
        }
    }
}

} // verus!
