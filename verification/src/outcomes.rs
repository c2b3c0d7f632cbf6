//! When a call on an escrow completes, what becomes of the escrow, and who gets
//! what.
use crate::abort::Abort;
use crate::accounts::{
    announced, announces, becomes, group_accounts, lemma_asks, lemma_becomes, lemma_settlement_pays,
    only_asks, paid_out, pays_signer, signers, taken,
};
use crate::action::{apply, lemma_apply_push, ActionView, Event};
use crate::claim::{
    cancelled, claim_escrow_partial_rule, partially_claimed, refund_rule, released, unclaimed,
    unclaimed_fits,
};
use crate::dispute::{award_committed, award_paid, award_rule, resolved, Award};
use crate::flows::locking;
use crate::guard::searching;
use crate::history::{ending, lemma_target, outcome, target, trace_of, Call};
use crate::milestone::{all_claimed, lemma_milestone_position, milestone_position};
use crate::soundness::{lemma_lookup, schedule_sound, scheduled};
use crate::store::{DataKey, EntryView, PlaceView, StoreView};
use crate::types::{Address, Context, EscrowStatus, EscrowView, Milestone, Resolution};
use vstd::prelude::*;

verus! {

/// Whether calls that move funds are let in: the contract is neither paused nor
/// already at work.
pub open spec fn switched_on(ctx: Context) -> bool {
    !ctx.guard_held && !ctx.paused
}

/// A claim completes exactly from the release ledger on, on a plain escrow that
/// is pending and not disputed. The recipient alone is asked and gets the whole
/// amount, and the escrow is released. A refusal gives a reason that is true.
#[verifier::rlimit(40)]
pub proof fn law_claim_from_the_release_ledger_on(store: StoreView, ctx: Context, id: u32)
    requires
        store.sound(),
    ensures
        ({
            let call = Call::Claim { id };
            &&& trace_of(store, ctx, call) is Some <==> switched_on(ctx) && (store.lookup(
                id,
            ) matches Some(e) && e.status == EscrowStatus::Pending && !e.disputed
                && !e.is_milestone_based && e.release_ledger <= ctx.sequence)
            &&& trace_of(store, ctx, call) matches Some(trace) ==> {
                let e = store.lookup(id)->0;
                &&& becomes(
                    store,
                    outcome(store, ctx, call),
                    id,
                    EscrowView { status: EscrowStatus::Released, ..e },
                )
                &&& pays_signer(
                    trace,
                    e.token,
                    e.to,
                    e.amount as int,
                    Event::EscrowClaimed { id, to: e.to, amount: e.amount },
                )
            }
            &&& ending(store, ctx, call) matches Err(halt) ==> claim_reason_is_true(
                store,
                ctx,
                id,
                halt.reason,
            )
        }),
{
    reveal(ending);
    lemma_lookup(store, id);
    if let Some(trace) = trace_of(store, ctx, Call::Claim { id }) {
        lemma_target(store, ctx, Call::Claim { id });
        let place = store.locate(id, Abort::RecipientNotFound)->Ok_0;
        let e = place.escrow;
        lemma_becomes(store, id, released(e));
        lemma_asks(store, id, e.to);
        lemma_settlement_pays(
            store,
            searching(store, id, Seq::empty()).push(ActionView::RequireAuth(e.to)),
            place,
            released(e),
            e.to,
            e.amount,
            Event::EscrowClaimed { id, to: e.to, amount: e.amount },
        );
    }
}

/// Whether the reason that is given for refusing a claim holds of the claim.
pub open spec fn claim_reason_is_true(
    store: StoreView,
    ctx: Context,
    id: u32,
    reason: Abort,
) -> bool {
    match reason {
        Abort::Reentrant => ctx.guard_held,
        Abort::Paused => ctx.paused,
        Abort::RecipientNotFound => store.lookup(id) is None,
        Abort::MilestoneClaimOnly => store.lookup(id) matches Some(e) && e.is_milestone_based,
        Abort::NotPending => store.lookup(id) matches Some(e) && e.status != EscrowStatus::Pending,
        Abort::Disputed => store.lookup(id) matches Some(e) && e.disputed,
        Abort::ReleaseNotReached => store.lookup(id) matches Some(e) && ctx.sequence
            < e.release_ledger,
        _ => false,
    }
}

/// A partial claim completes exactly where a whole claim would and the escrow
/// holds the amount. The recipient alone is asked and gets exactly that amount;
/// the rest is answered and stays, and an escrow with no rest is released.
#[verifier::rlimit(40)]
pub proof fn law_partial_claim_takes_its_amount(
    store: StoreView,
    ctx: Context,
    id: u32,
    amount: i128,
)
    requires
        store.sound(),
    ensures
        ({
            let call = Call::ClaimPartial { id, amount };
            &&& trace_of(store, ctx, call) is Some <==> switched_on(ctx) && (store.lookup(
                id,
            ) matches Some(e) && e.status == EscrowStatus::Pending && !e.disputed
                && !e.is_milestone_based && e.release_ledger <= ctx.sequence && 0 < amount
                <= e.amount)
            &&& trace_of(store, ctx, call) matches Some(trace) ==> {
                let e = store.lookup(id)->0;
                let rest = (e.amount - amount) as i128;
                &&& claim_escrow_partial_rule(store, ctx, id, amount)->Ok_0.value == e.amount
                    - amount
                &&& becomes(
                    store,
                    outcome(store, ctx, call),
                    id,
                    EscrowView {
                        amount: rest,
                        status: if amount == e.amount {
                            EscrowStatus::Released
                        } else {
                            EscrowStatus::Pending
                        },
                        ..e
                    },
                )
                &&& pays_signer(
                    trace,
                    e.token,
                    e.to,
                    amount as int,
                    Event::EscrowPartiallyClaimed {
                        id,
                        to: e.to,
                        claimed: amount,
                        remaining: rest,
                    },
                )
            }
            &&& ending(store, ctx, call) matches Err(halt) ==> match halt.reason {
                Abort::ClaimNotPositive => amount <= 0,
                Abort::ClaimTooLarge => store.lookup(id) matches Some(e) && amount > e.amount,
                reason => claim_reason_is_true(store, ctx, id, reason),
            }
        }),
{
    reveal(ending);
    lemma_lookup(store, id);
    let call = Call::ClaimPartial { id, amount };
    if let Some(trace) = trace_of(store, ctx, call) {
        lemma_target(store, ctx, call);
        let place = store.locate(id, Abort::RecipientNotFound)->Ok_0;
        let e = place.escrow;
        let after = partially_claimed(e, amount);
        lemma_becomes(store, id, after);
        lemma_asks(store, id, e.to);
        lemma_settlement_pays(
            store,
            searching(store, id, Seq::empty()).push(ActionView::RequireAuth(e.to)),
            place,
            after,
            e.to,
            amount,
            Event::EscrowPartiallyClaimed {
                id,
                to: e.to,
                claimed: amount,
                remaining: after.amount,
            },
        );
    }
}

/// What the milestones that nobody has claimed amount to.
pub open spec fn left_over(milestones: Seq<Milestone>) -> int
    decreases milestones.len(),
{
    if milestones.len() == 0 {
        0
    } else if milestones.last().claimed {
        left_over(milestones.drop_last())
    } else {
        left_over(milestones.drop_last()) + milestones.last().amount
    }
}

/// What is left over of sound milestones is what is unclaimed, of every first
/// part of them, and no more than they add up to.
proof fn lemma_left_over(milestones: Seq<Milestone>, n: int)
    requires
        schedule_sound(milestones),
        0 <= n <= milestones.len(),
    ensures
        unclaimed(milestones.take(n)) == left_over(milestones.take(n)),
        0 <= left_over(milestones.take(n)) <= scheduled(milestones.take(n)) <= scheduled(
            milestones,
        ),
    decreases milestones.len(),
{
    if milestones.len() == 0 {
        assert(milestones.take(n) =~= milestones);
    } else {
        let init = milestones.drop_last();
        assert forall|i: int| 0 <= i < init.len() implies (#[trigger] init[i]).id == i
            && init[i].amount > 0 by {
            assert(init[i] == milestones[i]);
        }
        assert(milestones[milestones.len() - 1].amount > 0);
        if n == milestones.len() {
            assert(milestones.take(n) =~= milestones);
            lemma_left_over(init, n - 1);
            assert(init.take(n - 1) =~= init);
        } else {
            assert(init.take(n) =~= milestones.take(n));
            lemma_left_over(init, n);
        }
    }
}

/// The payer can cancel a pending, undisputed escrow: a plain one exactly before
/// its release ledger, a milestone escrow on every ledger. The payer alone is
/// asked and gets back the whole amount, or what is left over of the milestones,
/// and the escrow is cancelled.
#[verifier::rlimit(40)]
pub proof fn law_cancel_until_the_release_ledger(store: StoreView, ctx: Context, id: u32)
    requires
        store.sound(),
    ensures
        ({
            let call = Call::Cancel { id };
            &&& trace_of(store, ctx, call) is Some <==> switched_on(ctx) && (store.lookup(
                id,
            ) matches Some(e) && e.status == EscrowStatus::Pending && !e.disputed && (
            e.is_milestone_based || ctx.sequence < e.release_ledger))
            &&& trace_of(store, ctx, call) matches Some(trace) ==> {
                let e = store.lookup(id)->0;
                let refund = if e.is_milestone_based {
                    left_over(e.milestones)
                } else {
                    e.amount as int
                };
                &&& becomes(
                    store,
                    outcome(store, ctx, call),
                    id,
                    EscrowView { status: EscrowStatus::Cancelled, ..e },
                )
                &&& pays_signer(
                    trace,
                    e.token,
                    e.from,
                    refund,
                    Event::EscrowCancelled { id, from: e.from, refund: refund as i128 },
                )
            }
            &&& ending(store, ctx, call) matches Err(halt) ==> match halt.reason {
                Abort::ReleaseAlreadyReached => store.lookup(id) matches Some(e)
                    && !e.is_milestone_based && e.release_ledger <= ctx.sequence,
                Abort::MilestoneClaimOnly => false,
                Abort::ReleaseNotReached => false,
                reason => claim_reason_is_true(store, ctx, id, reason),
            }
        }),
{
    reveal(ending);
    lemma_lookup(store, id);
    let call = Call::Cancel { id };
    if let Some(e) = store.lookup(id) {
        if e.is_milestone_based {
            assert(unclaimed_fits(e.milestones)) by {
                assert forall|n: int| 0 <= n <= e.milestones.len() implies i128::MIN
                    <= #[trigger] unclaimed(e.milestones.take(n)) <= i128::MAX by {
                    lemma_left_over(e.milestones, n);
                }
            }
            lemma_left_over(e.milestones, e.milestones.len() as int);
            assert(e.milestones.take(e.milestones.len() as int) =~= e.milestones);
        }
    }
    if let Some(trace) = trace_of(store, ctx, call) {
        lemma_target(store, ctx, call);
        let place = store.locate(id, Abort::RecipientNotFound)->Ok_0;
        let e = place.escrow;
        let refund = refund_rule(ctx, e)->Ok_0;
        lemma_becomes(store, id, cancelled(e));
        lemma_asks(store, id, e.from);
        lemma_settlement_pays(
            store,
            searching(store, id, Seq::empty()).push(ActionView::RequireAuth(e.from)),
            place,
            cancelled(e),
            e.from,
            refund,
            Event::EscrowCancelled { id, from: e.from, refund },
        );
    }
}

/// The position of a milestone in a sound schedule is its id.
proof fn lemma_milestone_at(milestones: Seq<Milestone>, id: u32)
    requires
        schedule_sound(milestones),
        milestones.len() <= u32::MAX,
    ensures
        milestone_position(milestones, id) == if id < milestones.len() {
            Some(id as int)
        } else {
            None
        },
{
    lemma_milestone_position(milestones, id);
    if let Some(i) = milestone_position(milestones, id) {
        assert(milestones[i].id == i);
    }
    if id < milestones.len() {
        assert(milestones[id as int].id == id);
    }
}

/// Writing an escrow in its place, without anything else.
proof fn lemma_flag_announces(
    before: Seq<ActionView>,
    signer: Address,
    recipient: Address,
    list: Seq<EscrowView>,
    event: Event,
)
    requires
        only_asks(before, seq![signer]),
    ensures
        announces(
            before.push(ActionView::Write(EntryView::List(recipient, list))).push(
                ActionView::Bump(DataKey::EscrowByRecipient(recipient)),
            ).push(ActionView::Publish(event)),
            signer,
            event,
        ),
{
    broadcast use group_accounts;

    assert(Seq::<Event>::empty().push(event) =~= seq![event]);
}

/// An approval completes exactly where the escrow's agent or payer gives it, to
/// an unapproved milestone of a pending escrow, no later than on the ledger of
/// its deadline if it has one. The approver alone is asked, nothing moves, and
/// that milestone becomes approved.
#[verifier::rlimit(40)]
pub proof fn law_approval_marks_the_milestone(
    store: StoreView,
    ctx: Context,
    id: u32,
    milestone: u32,
    approver: Address,
)
    requires
        store.sound(),
    ensures
        ({
            let call = Call::ApproveMilestone { id, milestone, approver };
            &&& trace_of(store, ctx, call) is Some <==> switched_on(ctx) && (store.lookup(
                id,
            ) matches Some(e) && e.status == EscrowStatus::Pending && e.is_milestone_based && (
            approver == e.from || e.agent == Some(approver)) && milestone < e.milestones.len()
                && !e.milestones[milestone as int].approved && (
            e.milestones[milestone as int].approval_deadline_ledger == 0 || ctx.sequence
                <= e.milestones[milestone as int].approval_deadline_ledger))
            &&& trace_of(store, ctx, call) matches Some(trace) ==> {
                let e = store.lookup(id)->0;
                let m = e.milestones[milestone as int];
                &&& becomes(
                    store,
                    outcome(store, ctx, call),
                    id,
                    EscrowView {
                        milestones: e.milestones.update(
                            milestone as int,
                            Milestone { approved: true, ..m },
                        ),
                        ..e
                    },
                )
                &&& announces(trace, approver, Event::MilestoneApproved { escrow: id, milestone })
            }
            &&& ending(store, ctx, call) matches Err(halt) ==> match halt.reason {
                Abort::NotMilestoneBased => store.lookup(id) matches Some(e)
                    && !e.is_milestone_based,
                Abort::Unauthorized => store.lookup(id) matches Some(e) && approver != e.from
                    && e.agent != Some(approver),
                Abort::MilestoneNotFound => store.lookup(id) matches Some(e) && milestone
                    >= e.milestones.len(),
                Abort::MilestoneAlreadyApproved => store.lookup(id) matches Some(e)
                    && e.milestones[milestone as int].approved,
                Abort::DeadlinePassed => store.lookup(id) matches Some(e)
                    && 0 < e.milestones[milestone as int].approval_deadline_ledger < ctx.sequence,
                Abort::MilestoneClaimOnly => false,
                Abort::Disputed => false,
                Abort::ReleaseNotReached => false,
                reason => claim_reason_is_true(store, ctx, id, reason),
            }
        }),
{
    reveal(ending);
    lemma_lookup(store, id);
    let call = Call::ApproveMilestone { id, milestone, approver };
    if let Some(e) = store.lookup(id) {
        if e.is_milestone_based {
            lemma_milestone_at(e.milestones, milestone);
        }
    }
    if let Some(trace) = trace_of(store, ctx, call) {
        lemma_target(store, ctx, call);
        let place = store.locate(id, Abort::RecipientNotFound)->Ok_0;
        let e = place.escrow;
        let m = e.milestones[milestone as int];
        let after = EscrowView {
            milestones: e.milestones.update(milestone as int, Milestone { approved: true, ..m }),
            ..e
        };
        lemma_becomes(store, id, after);
        lemma_asks(store, id, approver);
        lemma_flag_announces(
            searching(store, id, seq![ActionView::RequireAuth(approver)]),
            approver,
            place.recipient,
            store.replaced(place, after),
            Event::MilestoneApproved { escrow: id, milestone },
        );
    }
}

/// A claim of a milestone completes exactly where the escrow's recipient makes
/// it, of an approved and unclaimed milestone of a pending escrow. The recipient
/// alone is asked and gets the milestone's amount; the milestone becomes claimed,
/// and the escrow is released exactly if no unclaimed milestone is left.
#[verifier::rlimit(40)]
pub proof fn law_milestone_claim_pays_the_milestone(
    store: StoreView,
    ctx: Context,
    id: u32,
    milestone: u32,
    recipient: Address,
)
    requires
        store.sound(),
    ensures
        ({
            let call = Call::ClaimMilestone { id, milestone, recipient };
            &&& trace_of(store, ctx, call) is Some <==> switched_on(ctx) && (store.lookup(
                id,
            ) matches Some(e) && e.status == EscrowStatus::Pending && e.is_milestone_based
                && recipient == e.to && milestone < e.milestones.len()
                && e.milestones[milestone as int].approved
                && !e.milestones[milestone as int].claimed)
            &&& trace_of(store, ctx, call) matches Some(trace) ==> {
                let e = store.lookup(id)->0;
                let m = e.milestones[milestone as int];
                &&& becomes(
                    store,
                    outcome(store, ctx, call),
                    id,
                    EscrowView {
                        milestones: e.milestones.update(
                            milestone as int,
                            Milestone { claimed: true, ..m },
                        ),
                        status: if forall|i: int|
                            0 <= i < e.milestones.len() && i != milestone ==> (
                            #[trigger] e.milestones[i]).claimed {
                            EscrowStatus::Released
                        } else {
                            EscrowStatus::Pending
                        },
                        ..e
                    },
                )
                &&& pays_signer(
                    trace,
                    e.token,
                    e.to,
                    m.amount as int,
                    Event::MilestoneClaimed { escrow: id, milestone, amount: m.amount },
                )
            }
            &&& ending(store, ctx, call) matches Err(halt) ==> match halt.reason {
                Abort::NotMilestoneBased => store.lookup(id) matches Some(e)
                    && !e.is_milestone_based,
                Abort::Unauthorized => store.lookup(id) matches Some(e) && recipient != e.to,
                Abort::MilestoneNotFound => store.lookup(id) matches Some(e) && milestone
                    >= e.milestones.len(),
                Abort::MilestoneNotApproved => store.lookup(id) matches Some(e)
                    && !e.milestones[milestone as int].approved,
                Abort::MilestoneAlreadyClaimed => store.lookup(id) matches Some(e)
                    && e.milestones[milestone as int].claimed,
                Abort::MilestoneClaimOnly => false,
                Abort::Disputed => false,
                Abort::ReleaseNotReached => false,
                reason => claim_reason_is_true(store, ctx, id, reason),
            }
        }),
{
    reveal(ending);
    lemma_lookup(store, id);
    let call = Call::ClaimMilestone { id, milestone, recipient };
    if let Some(e) = store.lookup(id) {
        if e.is_milestone_based {
            lemma_milestone_at(e.milestones, milestone);
        }
    }
    if let Some(trace) = trace_of(store, ctx, call) {
        lemma_target(store, ctx, call);
        let place = store.locate(id, Abort::RecipientNotFound)->Ok_0;
        let e = place.escrow;
        let m = e.milestones[milestone as int];
        let milestones = e.milestones.update(milestone as int, Milestone { claimed: true, ..m });
        assert(all_claimed(milestones) <==> forall|i: int|
            0 <= i < e.milestones.len() && i != milestone ==> (
            #[trigger] e.milestones[i]).claimed) by {
            if all_claimed(milestones) {
                assert forall|i: int| 0 <= i < e.milestones.len() && i != milestone implies (
                #[trigger] e.milestones[i]).claimed by {
                    assert(milestones[i].claimed);
                }
            }
        }
        let after = EscrowView {
            milestones,
            status: if all_claimed(milestones) {
                EscrowStatus::Released
            } else {
                EscrowStatus::Pending
            },
            ..e
        };
        lemma_becomes(store, id, after);
        lemma_asks(store, id, recipient);
        lemma_settlement_pays(
            store,
            searching(store, id, seq![ActionView::RequireAuth(recipient)]),
            place,
            after,
            recipient,
            m.amount,
            Event::MilestoneClaimed { escrow: id, milestone, amount: m.amount },
        );
    }
}

/// A dispute can be raised exactly by a party of a pending escrow that has an
/// arbitrator and is not disputed yet. The party alone is asked, nothing moves,
/// and the escrow records who disputes it and since when.
#[verifier::rlimit(40)]
pub proof fn law_dispute_flags_the_escrow(store: StoreView, ctx: Context, id: u32, by: Address)
    requires
        store.sound(),
    ensures
        ({
            let call = Call::RaiseDispute { id, by };
            &&& trace_of(store, ctx, call) is Some <==> (store.lookup(id) matches Some(e)
                && e.status == EscrowStatus::Pending && e.arbitrator is Some && !e.disputed && (by
                == e.from || by == e.to))
            &&& trace_of(store, ctx, call) matches Some(trace) ==> {
                let e = store.lookup(id)->0;
                &&& becomes(
                    store,
                    outcome(store, ctx, call),
                    id,
                    EscrowView {
                        disputed: true,
                        dispute_raised_by: Some(by),
                        dispute_raised_at: ctx.sequence,
                        ..e
                    },
                )
                &&& announces(trace, by, Event::DisputeRaised { id, by })
            }
            &&& ending(store, ctx, call) matches Err(halt) ==> match halt.reason {
                Abort::DisputedEscrowNotFound => store.lookup(id) is None,
                Abort::NotDisputable => store.lookup(id) matches Some(e) && e.arbitrator is None,
                Abort::DisputeNotPending => store.lookup(id) matches Some(e) && e.status
                    != EscrowStatus::Pending,
                Abort::AlreadyDisputed => store.lookup(id) matches Some(e) && e.disputed,
                Abort::NotParticipant => store.lookup(id) matches Some(e) && by != e.from && by
                    != e.to,
                _ => false,
            }
        }),
{
    reveal(ending);
    lemma_lookup(store, id);
    let call = Call::RaiseDispute { id, by };
    if let Some(trace) = trace_of(store, ctx, call) {
        lemma_target(store, ctx, call);
        let place = store.locate(id, Abort::RecipientNotFound)->Ok_0;
        let e = place.escrow;
        let after = EscrowView {
            disputed: true,
            dispute_raised_by: Some(by),
            dispute_raised_at: ctx.sequence,
            ..e
        };
        lemma_becomes(store, id, after);
        lemma_asks(store, id, by);
        lemma_flag_announces(
            searching(store, id, seq![ActionView::RequireAuth(by)]),
            by,
            place.recipient,
            store.replaced(place, after),
            Event::DisputeRaised { id, by },
        );
    }
}

/// The symbols of the three resolutions differ.
pub proof fn lemma_symbols_differ()
    ensures
        "release"@ != "refund"@,
        "release"@ != "split"@,
        "refund"@ != "split"@,
{
    reveal_strlit("release");
    reveal_strlit("refund");
    reveal_strlit("split");
    assert("release"@.len() == 7);
    assert("refund"@.len() == 6);
    assert("split"@.len() == 5);
}

/// What an award amounts to.
proof fn lemma_award_accounts(
    store: StoreView,
    before: Seq<ActionView>,
    place: PlaceView,
    award: Award,
    event: Event,
    signer: Address,
)
    requires
        only_asks(before, seq![signer]),
        award.to_amount >= 0,
        award.sender_amount >= 0,
        place.escrow.from != place.escrow.to,
    ensures
        ({
            let e = place.escrow;
            let trace = award_paid(award_committed(store, before, place, award), e, award).push(
                ActionView::Publish(event),
            );
            &&& signers(trace) == seq![signer]
            &&& announced(trace) == seq![event]
            &&& forall|t: Address, who: Address| #[trigger]
                paid_out(trace, t, who) == if t != e.token {
                    0
                } else if who == e.to {
                    award.to_amount as int
                } else if who == e.from {
                    award.sender_amount as int
                } else {
                    0
                }
            &&& forall|t: Address, who: Address| #[trigger] taken(trace, t, who) == 0
            &&& forall|t: Address| #[trigger]
                locking(trace, t) == if t == e.token {
                    -award.transferred
                } else {
                    0
                }
        }),
{
    broadcast use group_accounts;

    assert(Seq::<Event>::empty().push(event) =~= seq![event]);
}

/// What the recipient of a disputed escrow gets by the arbitrator's decision: the
/// decided amount if it is released or split, nothing if it is refunded.
pub open spec fn recipients_share(resolution: Seq<char>, amount: i128) -> int {
    if resolution == "refund"@ {
        0
    } else {
        amount as int
    }
}

/// What the sender of a disputed escrow gets by the arbitrator's decision:
/// everything if it is refunded, what the recipient does not get if it is split,
/// and nothing if it is released.
pub open spec fn senders_share(held: i128, resolution: Seq<char>, amount: i128) -> int {
    if resolution == "refund"@ {
        held as int
    } else if resolution == "split"@ {
        held - amount
    } else {
        0
    }
}

/// A resolution completes exactly where the designated arbitrator of a pending,
/// disputed escrow makes it: a refund always, a release of some positive amount
/// up to what is held, a split where both sides get something. The arbitrator
/// alone is asked; the escrow's recipient and sender get their shares and nobody
/// else gets anything, whatever address is announced; and the escrow is released
/// and no longer disputed.
#[verifier::rlimit(60)]
pub proof fn law_resolution_pays_the_shares(
    store: StoreView,
    ctx: Context,
    id: u32,
    arbitrator: Address,
    resolution: Seq<char>,
    to: Address,
    amount: i128,
)
    requires
        store.sound(),
    ensures
        ({
            let call = Call::ResolveDispute { id, arbitrator, resolution, to, amount };
            &&& trace_of(store, ctx, call) is Some <==> switched_on(ctx) && (store.lookup(
                id,
            ) matches Some(e) && e.status == EscrowStatus::Pending && e.disputed && e.arbitrator
                == Some(arbitrator) && (resolution == "refund"@ || resolution == "release"@ && 0
                < amount <= e.amount || resolution == "split"@ && 0 < amount < e.amount))
            &&& trace_of(store, ctx, call) matches Some(trace) ==> {
                let e = store.lookup(id)->0;
                &&& becomes(
                    store,
                    outcome(store, ctx, call),
                    id,
                    EscrowView { status: EscrowStatus::Released, disputed: false, ..e },
                )
                &&& signers(trace) == seq![arbitrator]
                &&& forall|t: Address, who: Address| #[trigger]
                    paid_out(trace, t, who) == if t != e.token {
                        0
                    } else if who == e.to {
                        recipients_share(resolution, amount)
                    } else if who == e.from {
                        senders_share(e.amount, resolution, amount)
                    } else {
                        0
                    }
                &&& forall|t: Address, who: Address| #[trigger] taken(trace, t, who) == 0
                &&& forall|t: Address| #[trigger]
                    locking(trace, t) == if t == e.token {
                        -(recipients_share(resolution, amount) + senders_share(
                            e.amount,
                            resolution,
                            amount,
                        ))
                    } else {
                        0
                    }
                &&& announced(trace) == seq![
                    Event::DisputeResolved {
                        id,
                        resolution: if resolution == "refund"@ {
                            Resolution::Refund
                        } else if resolution == "split"@ {
                            Resolution::Split
                        } else {
                            Resolution::Release
                        },
                        to,
                        amount,
                    },
                ]
            }
            &&& ending(store, ctx, call) matches Err(halt) ==> match halt.reason {
                Abort::Reentrant => ctx.guard_held,
                Abort::Paused => ctx.paused,
                Abort::DisputedEscrowNotFound => store.lookup(id) is None,
                Abort::ResolveNotPending => store.lookup(id) matches Some(e) && e.status
                    != EscrowStatus::Pending,
                Abort::NotDisputed => store.lookup(id) matches Some(e) && !e.disputed,
                Abort::NotDesignatedArbitrator => store.lookup(id) matches Some(e) && e.arbitrator
                    != Some(arbitrator),
                Abort::InvalidReleaseAmount => resolution == "release"@,
                Abort::InvalidSplitAmount => resolution == "split"@,
                Abort::InvalidResolution => resolution != "release"@ && resolution != "refund"@
                    && resolution != "split"@,
                _ => false,
            }
        }),
{
    reveal(ending);
    lemma_lookup(store, id);
    lemma_symbols_differ();
    let call = Call::ResolveDispute { id, arbitrator, resolution, to, amount };
    if let Some(trace) = trace_of(store, ctx, call) {
        lemma_target(store, ctx, call);
        let place = store.locate(id, Abort::RecipientNotFound)->Ok_0;
        let e = place.escrow;
        let award = award_rule(e.amount, resolution, amount)->Ok_0;
        lemma_becomes(store, id, resolved(e));
        lemma_asks(store, id, arbitrator);
        lemma_award_accounts(
            store,
            searching(store, id, seq![ActionView::RequireAuth(arbitrator)]),
            place,
            award,
            Event::DisputeResolved { id, resolution: award.resolution, to, amount },
            arbitrator,
        );
    }
}

/// A call on an escrow that is refused has moved, locked, announced and written
/// nothing by then, and has asked its signer at most.
#[verifier::rlimit(60)]
#[verifier::spinoff_prover]
pub proof fn law_refusals_come_first(store: StoreView, ctx: Context, call: Call)
    requires
        store.sound(),
        target(call) is Some,
        ending(store, ctx, call) is Err,
    ensures
        ({
            let halt = ending(store, ctx, call)->Err_0;
            &&& apply(store, halt.trace) == store
            &&& only_asks(halt.trace, Seq::empty()) || match call {
                Call::ApproveMilestone { approver, .. } => only_asks(halt.trace, seq![approver]),
                Call::ClaimMilestone { recipient, .. } => only_asks(halt.trace, seq![recipient]),
                Call::RaiseDispute { by, .. } => only_asks(halt.trace, seq![by]),
                Call::ResolveDispute { arbitrator, .. } => only_asks(halt.trace, seq![arbitrator]),
                Call::Cancel { id } => only_asks(halt.trace, seq![store.lookup(id)->0.from]),
                Call::ClaimPartial { id, .. } => only_asks(
                    halt.trace,
                    seq![store.lookup(id)->0.to],
                ),
                _ => false,
            }
        }),
{
    broadcast use lemma_apply_push;

    reveal(ending);
    let id = target(call)->0;
    lemma_lookup(store, id);
    let who = match call {
        Call::ApproveMilestone { approver, .. } => approver,
        Call::ClaimMilestone { recipient, .. } => recipient,
        Call::RaiseDispute { by, .. } => by,
        Call::ResolveDispute { arbitrator, .. } => arbitrator,
        Call::Cancel { .. } => store.lookup(id)->0.from,
        _ => store.lookup(id)->0.to,
    };
    lemma_asks(store, id, who);
    assert(apply(store, Seq::<ActionView>::empty()) == store);
    assert(seq![ActionView::RequireAuth(who)] =~= Seq::<ActionView>::empty().push(
        ActionView::RequireAuth(who),
    ));
}

} // verus!
