//! The checks with which calls begin.
use crate::abort::Abort;
use crate::action::{Action, ActionView, Trace};
use crate::store::{DataKey, Place, Store, StoreView};
use crate::types::Context;
use vstd::prelude::*;

verus! {

/// What a call that moves funds checks first: that no guarded call is running
/// and that the contract is not paused.
pub open spec fn entry_rule(ctx: Context) -> Result<(), Abort> {
    if ctx.guard_held {
        Err(Abort::Reentrant)
    } else if ctx.paused {
        Err(Abort::Paused)
    } else {
        Ok(())
    }
}

/// What a call that creates escrows checks first: in addition, that the
/// contract is initialized.
pub open spec fn creation_entry_rule(ctx: Context) -> Result<(), Abort> {
    if ctx.guard_held {
        Err(Abort::Reentrant)
    } else if !ctx.initialized {
        Err(Abort::NotInitialized)
    } else if ctx.paused {
        Err(Abort::Paused)
    } else {
        Ok(())
    }
}

/// Checks that a call that moves funds may start.
pub fn enter(ctx: &Context) -> (outcome: Result<(), Abort>)
    ensures
        outcome == entry_rule(*ctx),
{
    if ctx.guard_held {
        return Err(Abort::Reentrant);
    }
    if ctx.paused {
        return Err(Abort::Paused);
    }
    Ok(())
}

/// Checks that a call that creates escrows may start.
pub fn enter_creation(ctx: &Context) -> (outcome: Result<(), Abort>)
    ensures
        outcome == creation_entry_rule(*ctx),
{
    if ctx.guard_held {
        return Err(Abort::Reentrant);
    }
    if !ctx.initialized {
        return Err(Abort::NotInitialized);
    }
    if ctx.paused {
        return Err(Abort::Paused);
    }
    Ok(())
}

/// The actions of a search for an escrow, after those in `before`: where a
/// recipient is recorded for the id, that entry's life is prolonged.
pub open spec fn searching(store: StoreView, id: u32, before: Seq<ActionView>) -> Seq<ActionView> {
    if store.recipients.contains_key(id) {
        before.push(ActionView::Bump(DataKey::EscrowRecipient(id)))
    } else {
        before
    }
}

/// Finds an escrow by its id; `missing` is the reason given where no recipient
/// is recorded for it.
pub fn search<'a>(store: &'a Store, id: u32, missing: Abort, trace: &mut Trace) -> (found: Result<
    Place<'a>,
    Abort,
>)
    ensures
        final(trace)@ == searching(store@, id, old(trace)@),
        match store@.locate(id, missing) {
            Ok(place) => found matches Ok(p) && p.is(place, store@),
            Err(abort) => found matches Err(reason) && reason == abort,
        },
{
    if store.recipient(id).is_some() {
        trace.record(Action::Bump(DataKey::EscrowRecipient(id)));
    }
    store.locate(id, missing)
}

} // verus!
