//! How calls conduct themselves towards the host: whose authorisation they ask
//! for, when they pay, and what switches them off.
use crate::abort::Abort;
use crate::action::{apply, lemma_apply_push, ActionView, HaltView};
use crate::batch_create::{batch_funding, draft, record_lists, record_recipients, touched};
use crate::batch_settle::{
    chunk_end, chunk_start, marking, settle_one, settle_run, unlock_all, RunView, Settlement,
};
use crate::guard::searching;
use crate::history::{creates_one, ending, lemma_target, target, trace_of, Call};
use crate::milestone::may_approve;
use crate::soundness::{lemma_lookup, lemma_replace};
use crate::store::StoreView;
use crate::tally::listing;
use crate::types::{Address, BatchClaimResult, Context, EscrowView};
use vstd::prelude::*;

verus! {

/// Whose funds an action takes, or whose claim it pays.
pub open spec fn party_of(action: ActionView) -> Option<Address> {
    match action {
        ActionView::PullFunds { from, .. } => Some(from),
        ActionView::PayOut { to, .. } => Some(to),
        _ => None,
    }
}

/// Whether every party whose funds are taken or whose claim is paid has
/// authorised the call by then.
pub open spec fn authorised(trace: Seq<ActionView>) -> bool {
    forall|i: int|
        0 <= i < trace.len() ==> (party_of(#[trigger] trace[i]) matches Some(who) ==> trace.take(
            i,
        ).contains(ActionView::RequireAuth(who)))
}

/// An action whose party has authorised the call may follow.
proof fn lemma_authorised_push(trace: Seq<ActionView>, action: ActionView)
    requires
        authorised(trace),
        party_of(action) matches Some(who) ==> trace.contains(ActionView::RequireAuth(who)),
    ensures
        authorised(trace.push(action)),
{
    let longer = trace.push(action);
    assert forall|i: int| 0 <= i < longer.len() implies (party_of(
        #[trigger] longer[i],
    ) matches Some(who) ==> longer.take(i).contains(ActionView::RequireAuth(who))) by {
        if i < trace.len() {
            assert(longer.take(i) =~= trace.take(i));
            assert(longer[i] == trace[i]);
        } else {
            assert(longer.take(i) =~= trace);
        }
    }
}

/// A trace contains what it contained before, and the action that was added.
proof fn lemma_trace_push(trace: Seq<ActionView>, action: ActionView, x: ActionView)
    ensures
        trace.contains(x) ==> trace.push(action).contains(x),
        trace.push(action).contains(action),
{
    let longer = trace.push(action);
    if trace.contains(x) {
        let i = choose|i: int| 0 <= i < trace.len() && trace[i] == x;
        assert(longer[i] == x);
    }
    assert(longer[trace.len() as int] == action);
}

/// Whether a trace that is in order up to here has asked for this authorisation.
pub open spec fn asked_of(trace: Seq<ActionView>, who: Address) -> bool {
    authorised(trace) && trace.contains(ActionView::RequireAuth(who))
}

/// An action that takes and pays nothing keeps a trace in order.
broadcast proof fn lemma_asked_push(trace: Seq<ActionView>, action: ActionView, who: Address)
    requires
        #[trigger] asked_of(trace, who),
        party_of(action) matches Some(p) ==> p == who,
    ensures
        asked_of(#[trigger] trace.push(action), who),
{
    lemma_authorised_push(trace, action);
    lemma_trace_push(trace, action, ActionView::RequireAuth(who));
}

/// Asking first puts a trace in order.
proof fn lemma_asked_first(who: Address)
    ensures
        asked_of(seq![ActionView::RequireAuth(who)], who),
        authorised(Seq::<ActionView>::empty()),
{
    let trace = seq![ActionView::RequireAuth(who)];
    assert(trace[0] == ActionView::RequireAuth(who));
}

/// Asking at any point puts a trace in order from there on.
proof fn lemma_asked_now(trace: Seq<ActionView>, who: Address)
    requires
        authorised(trace),
    ensures
        asked_of(trace.push(ActionView::RequireAuth(who)), who),
{
    lemma_authorised_push(trace, ActionView::RequireAuth(who));
    lemma_trace_push(trace, ActionView::RequireAuth(who), ActionView::RequireAuth(who));
}

/// A search keeps a trace in order.
proof fn lemma_search_authorised(store: StoreView, id: u32, before: Seq<ActionView>)
    requires
        authorised(before),
    ensures
        authorised(searching(store, id, before)),
{
    if store.recipients.contains_key(id) {
        lemma_authorised_push(before, searching(store, id, before).last());
        assert(searching(store, id, before) =~= before.push(searching(store, id, before).last()));
    }
}

/// Recording recipients keeps a trace in order.
proof fn lemma_recipients_asked(before: Seq<ActionView>, opened: Seq<EscrowView>, who: Address)
    requires
        asked_of(before, who),
    ensures
        asked_of(record_recipients(before, opened), who),
    decreases opened.len(),
{
    broadcast use lemma_asked_push;

    if opened.len() > 0 {
        lemma_recipients_asked(before, opened.drop_last(), who);
    }
}

/// Recording lists keeps a trace in order.
proof fn lemma_lists_asked(
    before: Seq<ActionView>,
    store: StoreView,
    opened: Seq<EscrowView>,
    recipients: Seq<Address>,
    who: Address,
)
    requires
        asked_of(before, who),
    ensures
        asked_of(record_lists(before, store, opened, recipients), who),
    decreases recipients.len(),
{
    broadcast use lemma_asked_push;

    if recipients.len() > 0 {
        lemma_lists_asked(before, store, opened, recipients.drop_last(), who);
    }
}

/// A chunk asks each party before it pays it.
proof fn lemma_run_authorised(
    kind: Settlement,
    store: StoreView,
    ctx: Context,
    ids: Seq<u32>,
    start: int,
    n: nat,
)
    ensures
        settle_run(kind, store, ctx, ids, start, n) matches Ok(run) ==> authorised(run.trace),
    decreases n,
{
    if n == 0 {
        lemma_asked_first(arbitrary());
    } else {
        let m = (n - 1) as nat;
        lemma_run_authorised(kind, store, ctx, ids, start, m);
        if settle_run(kind, store, ctx, ids, start, n) is Ok {
            let before = settle_run(kind, store, ctx, ids, start, m)->Ok_0;
            lemma_step_authorised(kind, ctx, before, ids[start + n - 1], (start + n - 1) as u32);
        }
    }
}

/// A step of a chunk asks the party before it pays it.
proof fn lemma_step_authorised(
    kind: Settlement,
    ctx: Context,
    run: RunView,
    id: u32,
    index: u32,
)
    requires
        authorised(run.trace),
        settle_one(kind, ctx, run, id, index) is Ok,
    ensures
        authorised(settle_one(kind, ctx, run, id, index)->Ok_0.trace),
{
    broadcast use lemma_asked_push;

    let found = searching(run.store, id, run.trace);
    lemma_search_authorised(run.store, id, run.trace);
    if let Ok(place) = run.store.locate(id, Abort::RecipientNotFound) {
        lemma_asked_now(found, kind.payee(place.escrow));
    }
}

/// Unlocking keeps a trace in order.
proof fn lemma_unlock_authorised(before: Seq<ActionView>, entries: Seq<(Address, i128)>)
    requires
        authorised(before),
    ensures
        unlock_all(before, entries) matches Ok(unlocked) ==> authorised(unlocked.trace),
    decreases entries.len(),
{
    if entries.len() > 0 {
        lemma_unlock_authorised(before, entries.drop_last());
        if unlock_all(before, entries) is Ok {
            let init = unlock_all(before, entries.drop_last())->Ok_0.trace;
            let all = unlock_all(before, entries)->Ok_0.trace;
            if all != init {
                lemma_authorised_push(init, all.last());
                assert(all =~= init.push(all.last()));
            }
        }
    }
}

/// Who authorises a call on an escrow: a claim its recipient, a cancellation its
/// payer, and any other call the one who is named in it.
pub open spec fn signer(call: Call, e: EscrowView) -> Address {
    match call {
        Call::Cancel { .. } => e.from,
        Call::ApproveMilestone { approver, .. } => approver,
        Call::ClaimMilestone { recipient, .. } => recipient,
        Call::RaiseDispute { by, .. } => by,
        Call::ResolveDispute { arbitrator, .. } => arbitrator,
        _ => e.to,
    }
}

/// Whether the one who is named in a call on an escrow has a part in it: its
/// agent or its payer approves, its recipient claims, one of its parties raises
/// a dispute, and its arbitrator resolves it.
pub open spec fn entitled(call: Call, e: EscrowView) -> bool {
    match call {
        Call::ApproveMilestone { approver, .. } => may_approve(e, approver),
        Call::ClaimMilestone { recipient, .. } => recipient == e.to,
        Call::RaiseDispute { by, .. } => by == e.from || by == e.to,
        Call::ResolveDispute { arbitrator, .. } => e.arbitrator == Some(arbitrator),
        _ => true,
    }
}

/// A call on an escrow asks its signer before anything else moves.
#[verifier::rlimit(60)]
#[verifier::spinoff_prover]
proof fn lemma_target_asked(store: StoreView, ctx: Context, call: Call)
    requires
        store.sound(),
        target(call) is Some,
        trace_of(store, ctx, call) is Some,
    ensures
        store.lookup(target(call)->0) matches Some(e) && asked_of(
            trace_of(store, ctx, call)->0,
            signer(call, e),
        ),
{
    reveal(ending);
    broadcast use lemma_asked_push;

    let id = target(call)->0;
    lemma_target(store, ctx, call);
    lemma_lookup(store, id);
    let who = signer(call, store.lookup(id)->0);
    lemma_asked_first(who);
    lemma_search_authorised(store, id, Seq::empty());
    lemma_asked_now(searching(store, id, Seq::empty()), who);
    assert(asked_of(searching(store, id, seq![ActionView::RequireAuth(who)]), who));
}

/// A call on an escrow completes only if its signer is entitled to it, and asks
/// for the signer's authorisation.
#[verifier::rlimit(60)]
#[verifier::spinoff_prover]
pub proof fn law_entitled_party_signs(store: StoreView, ctx: Context, call: Call)
    requires
        store.sound(),
        target(call) is Some,
        trace_of(store, ctx, call) is Some,
    ensures
        store.lookup(target(call)->0) matches Some(e) && {
            &&& entitled(call, e)
            &&& trace_of(store, ctx, call)->0.contains(ActionView::RequireAuth(signer(call, e)))
        },
{
    reveal(ending);
    lemma_target_asked(store, ctx, call);
    lemma_target(store, ctx, call);
    lemma_lookup(store, target(call)->0);
}

/// No call takes funds from anyone, or pays anyone's claim, before asking for
/// their authorisation.
#[verifier::rlimit(60)]
pub proof fn law_funds_move_by_authority(store: StoreView, ctx: Context, call: Call)
    requires
        store.sound(),
        trace_of(store, ctx, call) is Some,
    ensures
        authorised(trace_of(store, ctx, call)->0),
{
    reveal(ending);
    let trace = trace_of(store, ctx, call)->0;
    if target(call) is Some {
        lemma_target_asked(store, ctx, call);
    } else if creates_one(call) {
        lemma_create_authorised(store, ctx, call);
    } else {
        match call {
            Call::BatchCreate { .. } => {
                lemma_batch_create_authorised(store, ctx, call);
            },
            Call::BatchSettle { kind, ids, start_index, max_items } => {
                let start = chunk_start(ids.len(), start_index);
                let n = (chunk_end(ctx, ids.len(), start_index, max_items) - start) as nat;
                lemma_run_authorised(kind, store, ctx, ids, start, n);
                let run = settle_run(kind, store, ctx, ids, start, n)->Ok_0;
                lemma_unlock_authorised(run.trace, listing(run.totals));
                let unlocked = unlock_all(run.trace, listing(run.totals))->Ok_0;
                lemma_authorised_push(unlocked.trace, trace.last());
                assert(trace =~= unlocked.trace.push(trace.last()));
            },
            _ => {
                lemma_arbitrators_authorised(store, ctx, call);
            },
        }
    }
}

/// A creating call asks the payer first.
proof fn lemma_create_authorised(store: StoreView, ctx: Context, call: Call)
    requires
        creates_one(call),
        trace_of(store, ctx, call) is Some,
    ensures
        authorised(trace_of(store, ctx, call)->0),
{
    reveal(ending);
    broadcast use lemma_asked_push;

    match call {
        Call::CreateEscrow { from, .. } => {
            lemma_asked_first(from);
            assert(asked_of(trace_of(store, ctx, call)->0, from));
        },
        Call::CreateDisputableEscrow { from, .. } => {
            lemma_asked_first(from);
            assert(asked_of(trace_of(store, ctx, call)->0, from));
        },
        Call::CreateMilestoneEscrow { from, .. } => {
            lemma_asked_first(from);
            assert(asked_of(trace_of(store, ctx, call)->0, from));
        },
        _ => {},
    }
}

/// A batch creation asks the payer first.
proof fn lemma_batch_create_authorised(store: StoreView, ctx: Context, call: Call)
    requires
        call is BatchCreate,
        trace_of(store, ctx, call) is Some,
    ensures
        authorised(trace_of(store, ctx, call)->0),
{
    reveal(ending);
    broadcast use lemma_asked_push;

    if let Call::BatchCreate { token, from, items } = call {
        let plan = draft(store, ctx, token, from, items)->Ok_0;
        let funded = batch_funding(token, from, plan.total);
        lemma_asked_first(from);
        assert(asked_of(funded, from));
        lemma_recipients_asked(funded, plan.opened, from);
        lemma_lists_asked(
            record_recipients(funded, plan.opened),
            store,
            plan.opened,
            touched(plan.opened),
            from,
        );
        assert(asked_of(trace_of(store, ctx, call)->0, from));
    }
}

/// A change of the arbitrators asks the admin first.
proof fn lemma_arbitrators_authorised(store: StoreView, ctx: Context, call: Call)
    requires
        call is AddArbitrator || call is RemoveArbitrator,
        trace_of(store, ctx, call) is Some,
    ensures
        authorised(trace_of(store, ctx, call)->0),
        ctx.admin matches Some(admin) && trace_of(store, ctx, call)->0.contains(
            ActionView::RequireAuth(admin),
        ),
{
    reveal(ending);
    broadcast use lemma_asked_push;

    let admin = match call {
        Call::AddArbitrator { admin, .. } => admin,
        Call::RemoveArbitrator { admin, .. } => admin,
        _ => arbitrary(),
    };
    lemma_asked_first(admin);
    assert(asked_of(trace_of(store, ctx, call)->0, admin));
}

/// Only the admin changes the arbitrators, and the admin's authorisation is asked for.
pub proof fn law_admin_keeps_arbitrators(store: StoreView, ctx: Context, call: Call)
    requires
        call is AddArbitrator || call is RemoveArbitrator,
        trace_of(store, ctx, call) is Some,
    ensures
        ctx.admin matches Some(admin) && trace_of(store, ctx, call)->0.contains(
            ActionView::RequireAuth(admin),
        ),
{
    lemma_arbitrators_authorised(store, ctx, call);
}

/// Whether an action pays funds out of the contract.
pub open spec fn pays(action: ActionView) -> bool {
    action is PayOut || action is Transfer
}

/// Whether an action changes what the contract records.
pub open spec fn records_change(action: ActionView) -> bool {
    action is Write || action is IncreaseLocked || action is DecreaseLocked
}

/// Whether every record is changed before anything is paid.
pub open spec fn recorded_first(trace: Seq<ActionView>) -> bool {
    forall|i: int, j: int|
        0 <= i < j < trace.len() && pays(#[trigger] trace[i]) ==> !records_change(
            #[trigger] trace[j],
        )
}

/// A call on an escrow pays only after every record is changed, so that nobody
/// who is paid can find the escrow as it was before.
#[verifier::rlimit(60)]
#[verifier::spinoff_prover]
pub proof fn law_records_change_before_payment(store: StoreView, ctx: Context, call: Call)
    requires
        target(call) is Some,
        trace_of(store, ctx, call) is Some,
    ensures
        recorded_first(trace_of(store, ctx, call)->0),
{
    reveal(ending);
}

/// Who an action pays, if it pays anyone.
pub open spec fn paid_to(action: ActionView) -> Option<Address> {
    match action {
        ActionView::PayOut { to, .. } => Some(to),
        ActionView::Transfer { to, .. } => Some(to),
        _ => None,
    }
}

/// A call on an escrow pays nobody but the escrow's two parties.
#[verifier::rlimit(60)]
#[verifier::spinoff_prover]
pub proof fn law_payments_go_to_the_parties(store: StoreView, ctx: Context, call: Call)
    requires
        store.sound(),
        target(call) is Some,
        trace_of(store, ctx, call) is Some,
    ensures
        store.lookup(target(call)->0) matches Some(e) && forall|i: int|
            0 <= i < trace_of(store, ctx, call)->0.len() ==> (paid_to(
                #[trigger] trace_of(store, ctx, call)->0[i],
            ) matches Some(to) ==> to == e.from || to == e.to),
{
    reveal(ending);
    lemma_target(store, ctx, call);
    lemma_lookup(store, target(call)->0);
}

/// A batch marks each escrow as settled before it pays it.
pub proof fn law_batch_marks_before_payment(
    kind: Settlement,
    ctx: Context,
    run: RunView,
    id: u32,
    index: u32,
)
    requires
        run.store.sound(),
        settle_one(kind, ctx, run, id, index) matches Ok(next) && next.results.last() is Success,
    ensures
        run.store.lookup(id) matches Some(e) && {
            let next = settle_one(kind, ctx, run, id, index)->Ok_0;
            &&& next.results.last() == BatchClaimResult::Success(e.amount)
            &&& next.trace.last() == (ActionView::PayOut {
                token: e.token,
                to: kind.payee(e),
                amount: e.amount,
            })
            &&& forall|base: StoreView|
                apply(base, run.trace) == run.store ==> #[trigger] apply(
                    base,
                    next.trace.drop_last(),
                ).lookup(id) == Some(kind.settled(e))
        },
{
    broadcast use lemma_apply_push;

    lemma_lookup(run.store, id);
    let next = settle_one(kind, ctx, run, id, index)->Ok_0;
    let place = run.store.locate(id, Abort::RecipientNotFound)->Ok_0;
    let e = place.escrow;
    lemma_replace(run.store, place, kind.settled(e));
    let found = searching(run.store, id, run.trace);
    let marked = marking(kind, run.store, found, place);
    assert(next.trace.drop_last() =~= marked);
    assert forall|base: StoreView| apply(base, run.trace) == run.store implies #[trigger] apply(
        base,
        next.trace.drop_last(),
    ).lookup(id) == Some(kind.settled(e)) by {
        assert(apply(base, marked) == run.store.replace(place, kind.settled(e)));
    }
}

/// Whether a call is held up while the contract is paused or at work.
pub open spec fn guarded(call: Call) -> bool {
    !(call is RaiseDispute || call is AddArbitrator || call is RemoveArbitrator)
}

/// Whether a call stops for a reason before it asks anything of the host.
pub open spec fn stops_at_once(
    store: StoreView,
    ctx: Context,
    call: Call,
    reason: Abort,
) -> bool {
    ending(store, ctx, call) == Err::<Seq<ActionView>, HaltView>(
        HaltView { reason, trace: Seq::empty() },
    )
}

/// While the contract is at work no guarded call completes, while it is paused
/// neither, and before it is initialised nothing is created. Such a call asks
/// nothing of the host.
pub proof fn law_switches_stop_calls(store: StoreView, ctx: Context, call: Call)
    requires
        guarded(call),
    ensures
        ctx.guard_held ==> stops_at_once(store, ctx, call, Abort::Reentrant),
        !ctx.guard_held && ctx.initialized && ctx.paused ==> stops_at_once(
            store,
            ctx,
            call,
            Abort::Paused,
        ),
        !ctx.guard_held && !ctx.initialized && (creates_one(call) || call is BatchCreate)
            ==> stops_at_once(store, ctx, call, Abort::NotInitialized),
        !ctx.guard_held && ctx.paused && !creates_one(call) && !(call is BatchCreate)
            ==> stops_at_once(store, ctx, call, Abort::Paused),
{
    reveal(ending);
}

/// Disputes can be raised, and arbitrators added and removed, whatever the
/// switches say.
pub proof fn law_unguarded_calls_go_on(store: StoreView, ctx: Context, other: Context, call: Call)
    requires
        !guarded(call),
        other.sequence == ctx.sequence,
        other.admin == ctx.admin,
    ensures
        ending(store, other, call) == ending(store, ctx, call),
{
    reveal(ending);
}

} // verus!
