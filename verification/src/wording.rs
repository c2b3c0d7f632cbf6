//! What callers and observers read.
use crate::abort::Abort;
use crate::action::Event;
use vstd::prelude::*;

verus! {

/// Observers find the events under these topics.
pub proof fn law_topics(event: Event)
    ensures
        event is EscrowCreated ==> event.topic_text() == "escrow_create"@,
        event is EscrowPartiallyClaimed ==> event.topic_text() == "escrow_claim_partial"@,
        event is EscrowClaimed ==> event.topic_text() == "escrow_claim"@,
        event is EscrowCancelled ==> event.topic_text() == "escrow_cancelled"@,
        event is MilestoneEscrowCreated ==> event.topic_text() == "milestone_escrow_created"@,
        event is MilestoneApproved ==> event.topic_text() == "milestone_approved"@,
        event is MilestoneClaimed ==> event.topic_text() == "milestone_claimed"@,
        event is BatchCreated ==> event.topic_text() == "batch_escrow_created"@,
        event is BatchClaimed ==> event.topic_text() == "batch_escrow_claimed"@,
        event is BatchCancelled ==> event.topic_text() == "batch_escrow_cancelled"@,
        event is ArbitratorAdded ==> event.topic_text() == "arbitrator_added"@,
        event is ArbitratorRemoved ==> event.topic_text() == "arbitrator_removed"@,
        event is DisputableEscrowCreated ==> event.topic_text() == "disputable_escrow_created"@,
        event is DisputeRaised ==> event.topic_text() == "dispute_raised"@,
        event is DisputeResolved ==> event.topic_text() == "dispute_resolved"@,
{
}

/// Callers who are refused read these texts.
pub proof fn law_texts()
    ensures
        Abort::SelfEscrow.text() == "cannot create escrow to yourself"@,
        Abort::AmountNotPositive.text() == "amount must be positive"@,
        Abort::AmountTooLarge.text() == "amount exceeds maximum escrow size"@,
        Abort::AmountTooSmall.text() == "amount below minimum escrow size"@,
        Abort::ReleaseNotInFuture.text() == "release_ledger must be in the future"@,
        Abort::ReleaseTooFar.text() == "release_ledger is too far in the future"@,
        Abort::RecipientNotFound.text() == "escrow recipient not found"@,
        Abort::DisputedEscrowNotFound.text() == "Escrow not found"@,
        Abort::ListNotFound.text() == "escrow list not found"@,
        Abort::EscrowNotFound.text() == "escrow not found"@,
        Abort::MilestoneClaimOnly.text() == "milestone escrow must be claimed via claim_milestone"@,
        Abort::NotPending.text() == "escrow is not pending"@,
        Abort::Disputed.text() == "escrow is disputed"@,
        Abort::ReleaseNotReached.text() == "release_ledger not reached"@,
        Abort::ReleaseAlreadyReached.text()
            == "release_ledger already reached — cancellation is no longer allowed"@,
        Abort::ClaimNotPositive.text() == "claim amount must be positive"@,
        Abort::ClaimTooLarge.text() == "claim amount exceeds escrow balance"@,
        Abort::AgentIsRecipient.text() == "agent cannot be the recipient"@,
        Abort::NoMilestones.text() == "at least one milestone is required"@,
        Abort::TooManyMilestones.text() == "too many milestones"@,
        Abort::MilestoneNotPositive.text() == "milestone amount must be positive"@,
        Abort::DeadlineNotInFuture.text() == "approval deadline must be in the future"@,
        Abort::MilestoneSumMismatch.text() == "milestone amounts must sum to the deposit"@,
        Abort::NotMilestoneBased.text() == "escrow is not milestone-based"@,
        Abort::Unauthorized.text() == "Unauthorized"@,
        Abort::MilestoneAlreadyApproved.text() == "milestone already approved"@,
        Abort::DeadlinePassed.text() == "approval deadline passed"@,
        Abort::MilestoneNotFound.text() == "milestone not found"@,
        Abort::MilestoneNotApproved.text() == "milestone not approved"@,
        Abort::MilestoneAlreadyClaimed.text() == "milestone already claimed"@,
        Abort::BatchEmpty.text() == "recipients must not be empty"@,
        Abort::BatchTooLarge.text() == "batch exceeds maximum size"@,
        Abort::ArbitratorAlreadyRegistered.text() == "Arbitrator already registered"@,
        Abort::NoArbitrators.text() == "No arbitrators registered"@,
        Abort::ArbitratorNotFound.text() == "Arbitrator not found"@,
        Abort::ArbitratorNotRegistered.text() == "Arbitrator is not registered"@,
        Abort::NotDisputable.text() == "Escrow is not disputable"@,
        Abort::DisputeNotPending.text() == "Escrow must be in pending status to dispute"@,
        Abort::AlreadyDisputed.text() == "Escrow is already disputed"@,
        Abort::NotParticipant.text() == "Only escrow participants can raise a dispute"@,
        Abort::ResolveNotPending.text() == "Escrow is not pending"@,
        Abort::NotDisputed.text() == "Escrow is not disputed"@,
        Abort::NotDesignatedArbitrator.text()
            == "Only the designated arbitrator can resolve this dispute"@,
        Abort::InvalidReleaseAmount.text() == "Invalid release amount"@,
        Abort::InvalidSplitAmount.text() == "Invalid split amount"@,
        Abort::InvalidResolution.text() == "Invalid resolution type"@,
        Abort::Overflow.text() == "overflow"@,
        Abort::AdditionOverflow.text() == "attempt to add with overflow"@,
        Abort::SubtractionOverflow.text() == "attempt to subtract with overflow"@,
{
}

} // verus!
