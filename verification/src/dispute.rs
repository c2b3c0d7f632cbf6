//! Arbitrators and disputes.
use crate::abort::Abort;
use crate::action::{
    follows, halt, Action, ActionView, Event, Halt, HaltView, Reply, ReplyView, Trace,
};
use crate::create::contains_address;
use crate::guard::{enter, entry_rule, search, searching};
use crate::store::{copy_addresses, DataKey, Entry, EntryView, PlaceView, Store, StoreView};
use crate::types::{Address, Context, Escrow, EscrowStatus, EscrowView, Resolution};
use vstd::prelude::*;

verus! {

/// Whether a caller is the stored administrator.
pub open spec fn admin_rule(ctx: Context, admin: Address) -> Result<(), Abort> {
    match ctx.admin {
        None => Err(Abort::AdminNotSet),
        Some(stored) => if admin != stored {
            Err(Abort::Unauthorized)
        } else {
            Ok(())
        },
    }
}

/// Checks that a caller is the stored administrator.
fn check_admin(ctx: &Context, admin: Address) -> (outcome: Result<(), Abort>)
    ensures
        outcome == admin_rule(*ctx, admin),
{
    match ctx.admin {
        None => Err(Abort::AdminNotSet),
        Some(stored) => {
            if admin != stored {
                return Err(Abort::Unauthorized);
            }
            Ok(())
        },
    }
}

/// The actions that write a list of arbitrators and its length.
pub open spec fn arbitrators_written(
    before: Seq<ActionView>,
    list: Seq<Address>,
    event: Event,
) -> Seq<ActionView> {
    before.push(ActionView::Write(EntryView::Arbitrators(list))).push(
        ActionView::BumpToFloor(DataKey::Arbitrators),
    ).push(ActionView::Write(EntryView::ArbitratorCount(list.len() as u32))).push(
        ActionView::BumpToFloor(DataKey::ArbitratorCount),
    ).push(ActionView::Publish(event))
}

/// Records the actions that write a list of arbitrators and its length.
fn record_arbitrators(trace: &mut Trace, list: Vec<Address>, event: Event)
    ensures
        final(trace)@ == arbitrators_written(old(trace)@, list@, event),
{
    let count = list.len() as u32;
    trace.record(Action::Write(Entry::Arbitrators(list)));
    trace.record(Action::BumpToFloor(DataKey::Arbitrators));
    trace.record(Action::Write(Entry::ArbitratorCount(count)));
    trace.record(Action::BumpToFloor(DataKey::ArbitratorCount));
    trace.record(Action::Publish(event));
}

/// The registered arbitrators; none if the list was never written.
pub open spec fn registered(store: StoreView) -> Seq<Address> {
    match store.arbitrators {
        Some(list) => list,
        None => Seq::empty(),
    }
}

/// What [`add_arbitrator`] does.
pub open spec fn add_arbitrator_rule(
    store: StoreView,
    ctx: Context,
    admin: Address,
    arbitrator: Address,
) -> Result<ReplyView<()>, HaltView> {
    let authorised = seq![ActionView::RequireAuth(admin)];
    if admin_rule(ctx, admin) is Err {
        halt(admin_rule(ctx, admin)->Err_0, authorised)
    } else if registered(store).contains(arbitrator) {
        halt(Abort::ArbitratorAlreadyRegistered, authorised)
    } else {
        Ok(
            ReplyView {
                value: (),
                trace: arbitrators_written(
                    authorised,
                    registered(store).push(arbitrator),
                    Event::ArbitratorAdded { arbitrator },
                ),
            },
        )
    }
}

/// The administrator registers an arbitrator.
pub fn add_arbitrator(
    store: &Store,
    ctx: &Context,
    admin: Address,
    arbitrator: Address,
) -> (outcome: Result<Reply<()>, Halt>)
    requires
        registered(store@).len() < u32::MAX,
    ensures
        follows(outcome, add_arbitrator_rule(store@, *ctx, admin, arbitrator)),
{
    let mut trace = Trace::new();
    trace.record(Action::RequireAuth(admin));
    assert(trace@ =~= seq![ActionView::RequireAuth(admin)]);
    match check_admin(ctx, admin) {
        Ok(_) => {},
        Err(reason) => {
            return Err(Halt { reason, trace });
        },
    }
    let mut list = match store.arbitrators() {
        Some(list) => copy_addresses(list),
        None => Vec::new(),
    };
    assert(list@ =~= registered(store@));
    if contains_address(&list, arbitrator) {
        return Err(Halt { reason: Abort::ArbitratorAlreadyRegistered, trace });
    }
    list.push(arbitrator);
    record_arbitrators(&mut trace, list, Event::ArbitratorAdded { arbitrator });
    Ok(Reply { value: (), trace })
}

/// A list without the entries that equal an address.
pub open spec fn without(list: Seq<Address>, address: Address) -> Seq<Address>
    decreases list.len(),
{
    if list.len() == 0 {
        Seq::empty()
    } else if list.last() == address {
        without(list.drop_last(), address)
    } else {
        without(list.drop_last(), address).push(list.last())
    }
}

/// What [`remove_arbitrator`] does.
pub open spec fn remove_arbitrator_rule(
    store: StoreView,
    ctx: Context,
    admin: Address,
    arbitrator: Address,
) -> Result<ReplyView<()>, HaltView> {
    let authorised = seq![ActionView::RequireAuth(admin)];
    if admin_rule(ctx, admin) is Err {
        halt(admin_rule(ctx, admin)->Err_0, authorised)
    } else if store.arbitrators is None {
        halt(Abort::NoArbitrators, authorised)
    } else if !registered(store).contains(arbitrator) {
        halt(Abort::ArbitratorNotFound, authorised)
    } else {
        Ok(
            ReplyView {
                value: (),
                trace: arbitrators_written(
                    authorised,
                    without(registered(store), arbitrator),
                    Event::ArbitratorRemoved { arbitrator },
                ),
            },
        )
    }
}

/// The administrator removes an arbitrator from the list.
pub fn remove_arbitrator(
    store: &Store,
    ctx: &Context,
    admin: Address,
    arbitrator: Address,
) -> (outcome: Result<Reply<()>, Halt>)
    ensures
        follows(outcome, remove_arbitrator_rule(store@, *ctx, admin, arbitrator)),
{
    let mut trace = Trace::new();
    trace.record(Action::RequireAuth(admin));
    assert(trace@ =~= seq![ActionView::RequireAuth(admin)]);
    match check_admin(ctx, admin) {
        Ok(_) => {},
        Err(reason) => {
            return Err(Halt { reason, trace });
        },
    }
    let list = match store.arbitrators() {
        Some(list) => list,
        None => {
            return Err(Halt { reason: Abort::NoArbitrators, trace });
        },
    };
    if !contains_address(list, arbitrator) {
        return Err(Halt { reason: Abort::ArbitratorNotFound, trace });
    }
    let mut rest: Vec<Address> = Vec::new();
    let mut i: usize = 0;
    assert(list@.take(0) =~= Seq::empty());
    while i < list.len()
        invariant
            i <= list.len(),
            rest@ == without(list@.take(i as int), arbitrator),
        decreases list.len() - i,
    {
        assert(list@.take(i + 1).drop_last() =~= list@.take(i as int));
        if list[i] != arbitrator {
            rest.push(list[i]);
        }
        i = i + 1;
    }
    assert(list@.take(i as int) =~= list@);
    record_arbitrators(&mut trace, rest, Event::ArbitratorRemoved { arbitrator });
    Ok(Reply { value: (), trace })
}

/// The escrow after one of its parties raised a dispute on this ledger.
pub open spec fn dispute_rule(ctx: Context, e: EscrowView, by: Address) -> Result<
    EscrowView,
    Abort,
> {
    if e.arbitrator is None {
        Err(Abort::NotDisputable)
    } else if e.status != EscrowStatus::Pending {
        Err(Abort::DisputeNotPending)
    } else if e.disputed {
        Err(Abort::AlreadyDisputed)
    } else if by != e.from && by != e.to {
        Err(Abort::NotParticipant)
    } else {
        Ok(
            EscrowView {
                disputed: true,
                dispute_raised_by: Some(by),
                dispute_raised_at: ctx.sequence,
                ..e
            },
        )
    }
}

/// Raises a dispute on an escrow.
fn disputed(ctx: &Context, e: &Escrow, by: Address) -> (outcome: Result<Escrow, Abort>)
    ensures
        match dispute_rule(*ctx, e@, by) {
            Ok(after) => outcome matches Ok(escrow) && escrow@ == after,
            Err(abort) => outcome matches Err(reason) && reason == abort,
        },
{
    if e.arbitrator.is_none() {
        return Err(Abort::NotDisputable);
    }
    if e.status != EscrowStatus::Pending {
        return Err(Abort::DisputeNotPending);
    }
    if e.disputed {
        return Err(Abort::AlreadyDisputed);
    }
    if by != e.from && by != e.to {
        return Err(Abort::NotParticipant);
    }
    let mut after = e.copy();
    after.disputed = true;
    after.dispute_raised_by = Some(by);
    after.dispute_raised_at = ctx.sequence;
    assert(after@ =~= dispute_rule(*ctx, e@, by)->Ok_0);
    Ok(after)
}

/// What [`raise_dispute`] does.
pub open spec fn raise_dispute_rule(
    store: StoreView,
    ctx: Context,
    escrow_id: u32,
    by: Address,
) -> Result<ReplyView<()>, HaltView> {
    let found = searching(store, escrow_id, seq![ActionView::RequireAuth(by)]);
    match store.locate(escrow_id, Abort::DisputedEscrowNotFound) {
        Err(reason) => halt(reason, found),
        Ok(place) => match dispute_rule(ctx, place.escrow, by) {
            Err(reason) => halt(reason, found),
            Ok(after) => Ok(
                ReplyView {
                    value: (),
                    trace: found.push(
                        ActionView::Write(
                            EntryView::List(place.recipient, store.replaced(place, after)),
                        ),
                    ).push(ActionView::Bump(DataKey::EscrowByRecipient(place.recipient))).push(
                        ActionView::Publish(Event::DisputeRaised { id: escrow_id, by }),
                    ),
                },
            ),
        },
    }
}

/// Raises a dispute on a disputable escrow. Only the sender or recipient can
/// raise a dispute. No funds move, so this works while the contract is paused.
pub fn raise_dispute(store: &Store, ctx: &Context, escrow_id: u32, by: Address) -> (outcome: Result<
    Reply<()>,
    Halt,
>)
    ensures
        follows(outcome, raise_dispute_rule(store@, *ctx, escrow_id, by)),
{
    let mut trace = Trace::new();
    trace.record(Action::RequireAuth(by));
    assert(trace@ =~= seq![ActionView::RequireAuth(by)]);
    let place = match search(store, escrow_id, Abort::DisputedEscrowNotFound, &mut trace) {
        Ok(place) => place,
        Err(reason) => {
            return Err(Halt { reason, trace });
        },
    };
    let e = &place.list[place.index];
    let after = match disputed(ctx, e, by) {
        Ok(after) => after,
        Err(reason) => {
            return Err(Halt { reason, trace });
        },
    };
    let recipient = place.recipient;
    let list = place.replaced(after);
    trace.record(Action::Write(Entry::List(recipient, list)));
    trace.record(Action::Bump(DataKey::EscrowByRecipient(recipient)));
    trace.record(Action::Publish(Event::DisputeRaised { id: escrow_id, by }));
    Ok(Reply { value: (), trace })
}

impl Resolution {
    /// The symbol by which a caller names the resolution.
    pub open spec fn text(self) -> Seq<char> {
        match self {
            Resolution::Release => "release"@,
            Resolution::Refund => "refund"@,
            Resolution::Split => "split"@,
        }
    }

    /// The symbol by which a caller names the resolution.
    pub fn symbol(&self) -> (symbol: &'static str)
        ensures
            symbol@ == self.text(),
    {
        match self {
            Resolution::Release => "release",
            Resolution::Refund => "refund",
            Resolution::Split => "split",
        }
    }

    /// The resolution that a symbol names, if it names one.
    pub open spec fn named(symbol: Seq<char>) -> Option<Resolution> {
        if symbol == Resolution::Release.text() {
            Some(Resolution::Release)
        } else if symbol == Resolution::Refund.text() {
            Some(Resolution::Refund)
        } else if symbol == Resolution::Split.text() {
            Some(Resolution::Split)
        } else {
            None
        }
    }

    /// The resolution that a symbol names, if it names one.
    pub fn parse(symbol: &String) -> (resolution: Option<Resolution>)
        ensures
            resolution == Resolution::named(symbol@),
    {
        if *symbol == "release".to_owned() {
            return Some(Resolution::Release);
        }
        if *symbol == "refund".to_owned() {
            return Some(Resolution::Refund);
        }
        if *symbol == "split".to_owned() {
            return Some(Resolution::Split);
        }
        None
    }
}

/// How an arbitrator's decision divides an escrow.
#[derive(Clone, Copy, Debug, PartialEq, Eq, Structural)]
pub struct Award {
    pub resolution: Resolution,
    /// What the recipient gets.
    pub to_amount: i128,
    /// What the sender gets back.
    pub sender_amount: i128,
    /// What leaves the contract in all.
    pub transferred: i128,
}

/// How a decision divides an escrow that holds `held`.
pub open spec fn award_rule(held: i128, resolution: Seq<char>, amount: i128) -> Result<
    Award,
    Abort,
> {
    match Resolution::named(resolution) {
        None => Err(Abort::InvalidResolution),
        Some(Resolution::Release) => if amount <= 0 || amount > held {
            Err(Abort::InvalidReleaseAmount)
        } else {
            Ok(
                Award {
                    resolution: Resolution::Release,
                    to_amount: amount,
                    sender_amount: 0,
                    transferred: amount,
                },
            )
        },
        Some(Resolution::Refund) => Ok(
            Award {
                resolution: Resolution::Refund,
                to_amount: 0,
                sender_amount: held,
                transferred: held,
            },
        ),
        Some(Resolution::Split) => if amount <= 0 || amount >= held {
            Err(Abort::InvalidSplitAmount)
        } else {
            Ok(
                Award {
                    resolution: Resolution::Split,
                    to_amount: amount,
                    sender_amount: (held - amount) as i128,
                    transferred: held,
                },
            )
        },
    }
}

/// Divides an escrow that holds `held` as a decision says.
fn award(held: i128, resolution: &String, amount: i128) -> (outcome: Result<Award, Abort>)
    ensures
        outcome == award_rule(held, resolution@, amount),
{
    match Resolution::parse(resolution) {
        None => Err(Abort::InvalidResolution),
        Some(Resolution::Release) => {
            if amount <= 0 || amount > held {
                return Err(Abort::InvalidReleaseAmount);
            }
            Ok(
                Award {
                    resolution: Resolution::Release,
                    to_amount: amount,
                    sender_amount: 0,
                    transferred: amount,
                },
            )
        },
        Some(Resolution::Refund) => Ok(
            Award {
                resolution: Resolution::Refund,
                to_amount: 0,
                sender_amount: held,
                transferred: held,
            },
        ),
        Some(Resolution::Split) => {
            if amount <= 0 || amount >= held {
                return Err(Abort::InvalidSplitAmount);
            }
            Ok(
                Award {
                    resolution: Resolution::Split,
                    to_amount: amount,
                    sender_amount: held - amount,
                    transferred: held,
                },
            )
        },
    }
}

/// Whether an arbitrator can resolve an escrow's dispute.
pub open spec fn resolve_check(e: EscrowView, arbitrator: Address) -> Result<(), Abort> {
    if e.status != EscrowStatus::Pending {
        Err(Abort::ResolveNotPending)
    } else if !e.disputed {
        Err(Abort::NotDisputed)
    } else if e.arbitrator != Some(arbitrator) {
        Err(Abort::NotDesignatedArbitrator)
    } else {
        Ok(())
    }
}

/// The escrow once its dispute is resolved.
pub open spec fn resolved(e: EscrowView) -> EscrowView {
    EscrowView { status: EscrowStatus::Released, disputed: false, ..e }
}

/// The actions that commit an award, after those in `before`: what leaves the
/// contract is unlocked and the escrow's new state is written.
pub open spec fn award_committed(
    store: StoreView,
    before: Seq<ActionView>,
    place: PlaceView,
    award: Award,
) -> Seq<ActionView> {
    before.push(
        ActionView::DecreaseLocked { token: place.escrow.token, amount: award.transferred },
    ).push(
        ActionView::Write(
            EntryView::List(place.recipient, store.replaced(place, resolved(place.escrow))),
        ),
    ).push(ActionView::Bump(DataKey::EscrowByRecipient(place.recipient)))
}

/// The transfers that carry out an award, after the actions in `before`: the
/// recipient's share goes to the escrow's recipient, the rest to its sender.
pub open spec fn award_paid(
    before: Seq<ActionView>,
    e: EscrowView,
    award: Award,
) -> Seq<ActionView> {
    let first = if award.to_amount > 0 {
        before.push(
            ActionView::Transfer { token: e.token, to: e.to, amount: award.to_amount },
        )
    } else {
        before
    };
    if award.sender_amount > 0 {
        first.push(
            ActionView::Transfer { token: e.token, to: e.from, amount: award.sender_amount },
        )
    } else {
        first
    }
}

/// What [`resolve_dispute`] does.
pub open spec fn resolve_dispute_rule(
    store: StoreView,
    ctx: Context,
    escrow_id: u32,
    arbitrator: Address,
    resolution: Seq<char>,
    to: Address,
    amount: i128,
) -> Result<ReplyView<()>, HaltView> {
    let found = searching(store, escrow_id, seq![ActionView::RequireAuth(arbitrator)]);
    if entry_rule(ctx) is Err {
        halt(entry_rule(ctx)->Err_0, Seq::empty())
    } else {
        match store.locate(escrow_id, Abort::DisputedEscrowNotFound) {
            Err(reason) => halt(reason, found),
            Ok(place) => {
                let e = place.escrow;
                if resolve_check(e, arbitrator) is Err {
                    halt(resolve_check(e, arbitrator)->Err_0, found)
                } else {
                    match award_rule(e.amount, resolution, amount) {
                        Err(reason) => halt(reason, found),
                        Ok(award) => Ok(
                            ReplyView {
                                value: (),
                                trace: award_paid(
                                    award_committed(store, found, place, award),
                                    e,
                                    award,
                                ).push(
                                    ActionView::Publish(
                                        Event::DisputeResolved {
                                            id: escrow_id,
                                            resolution: award.resolution,
                                            to,
                                            amount,
                                        },
                                    ),
                                ),
                            },
                        ),
                    }
                }
            },
        }
    }
}

/// Resolves a dispute. Only the designated arbitrator can do so. Resolution
/// types: "release" (the amount to the recipient), "refund" (everything to the
/// sender), "split" (the amount to the recipient, the rest to the sender). The
/// address `to` is announced with the resolution and has no say in who is paid.
pub fn resolve_dispute(
    store: &Store,
    ctx: &Context,
    escrow_id: u32,
    arbitrator: Address,
    resolution: &String,
    to: Address,
    amount: i128,
) -> (outcome: Result<Reply<()>, Halt>)
    ensures
        follows(
            outcome,
            resolve_dispute_rule(
                store@,
                *ctx,
                escrow_id,
                arbitrator,
                resolution@,
                to,
                amount,
            ),
        ),
{
    let mut trace = Trace::new();
    match enter(ctx) {
        Ok(_) => {},
        Err(reason) => {
            return Err(Halt { reason, trace });
        },
    }
    trace.record(Action::RequireAuth(arbitrator));
    assert(trace@ =~= seq![ActionView::RequireAuth(arbitrator)]);
    let place = match search(store, escrow_id, Abort::DisputedEscrowNotFound, &mut trace) {
        Ok(place) => place,
        Err(reason) => {
            return Err(Halt { reason, trace });
        },
    };
    let e = &place.list[place.index];
    if e.status != EscrowStatus::Pending {
        return Err(Halt { reason: Abort::ResolveNotPending, trace });
    }
    if !e.disputed {
        return Err(Halt { reason: Abort::NotDisputed, trace });
    }
    let is_designated = match e.arbitrator {
        Some(designated) => designated == arbitrator,
        None => false,
    };
    if !is_designated {
        return Err(Halt { reason: Abort::NotDesignatedArbitrator, trace });
    }
    let award = match award(e.amount, resolution, amount) {
        Ok(award) => award,
        Err(reason) => {
            return Err(Halt { reason, trace });
        },
    };
    let token = e.token;
    let payee = e.to;
    let sender = e.from;
    let mut after = e.copy();
    after.status = EscrowStatus::Released;
    after.disputed = false;
    assert(after@ =~= resolved(e@));
    let recipient = place.recipient;
    let list = place.replaced(after);
    trace.record(Action::DecreaseLocked { token, amount: award.transferred });
    trace.record(Action::Write(Entry::List(recipient, list)));
    trace.record(Action::Bump(DataKey::EscrowByRecipient(recipient)));
    if award.to_amount > 0 {
        trace.record(Action::Transfer { token, to: payee, amount: award.to_amount });
    }
    if award.sender_amount > 0 {
        trace.record(Action::Transfer { token, to: sender, amount: award.sender_amount });
    }
    trace.record(
        Action::Publish(
            Event::DisputeResolved { id: escrow_id, resolution: award.resolution, to, amount },
        ),
    );
    Ok(Reply { value: (), trace })
}

/// What [`get_arbitrators`] does.
pub open spec fn get_arbitrators_rule(store: StoreView) -> ReplyView<Seq<Address>> {
    ReplyView {
        value: registered(store),
        trace: seq![ActionView::BumpIfPresent(DataKey::Arbitrators)],
    }
}

/// The registered arbitrators.
pub fn get_arbitrators(store: &Store) -> (reply: Reply<Vec<Address>>)
    ensures
        reply.value@ == get_arbitrators_rule(store@).value,
        reply.trace@ == get_arbitrators_rule(store@).trace,
{
    let list = match store.arbitrators() {
        Some(list) => copy_addresses(list),
        None => Vec::new(),
    };
    let mut trace = Trace::new();
    trace.record(Action::BumpIfPresent(DataKey::Arbitrators));
    assert(trace@ =~= seq![ActionView::BumpIfPresent(DataKey::Arbitrators)]);
    Reply { value: list, trace }
}

} // verus!
