use finchippay_escrow::abort::Abort;
use finchippay_escrow::action::{Action, Event, Halt, Reply};
use finchippay_escrow::claim::{cancel_escrow, claim_escrow, claim_escrow_partial};
use finchippay_escrow::create::create_escrow;
use finchippay_escrow::query::{
    escrow_count, get_escrow, get_escrow_count, get_escrow_summary, get_milestones,
    get_user_escrows,
};
use finchippay_escrow::store::{DataKey, Entry, Store};
use finchippay_escrow::types::{
    Address, AddressKind, Context, ContractError, EscrowStatus, EscrowSummary, Limits,
};

fn account(n: u128) -> Address {
    Address { kind: AddressKind::Account, high: 0, low: n }
}

fn token(n: u128) -> Address {
    Address { kind: AddressKind::Contract, high: 0, low: n }
}

fn context(sequence: u32) -> Context {
    Context {
        sequence,
        initialized: true,
        paused: false,
        guard_held: false,
        admin: Some(account(99)),
        limits: Limits {
            min_escrow_amount: 10,
            max_escrow_amount: 1_000_000,
            max_escrow_ledgers: 1000,
            max_user_escrows: 3,
            max_milestones: 4,
            max_batch_size: 5,
            batch_escrow_cursor_step: 3,
        },
    }
}

fn perform<T>(store: &mut Store, outcome: Result<Reply<T>, Halt>) -> T {
    match outcome {
        Ok(reply) => {
            store.apply(&reply.trace);
            reply.value
        }
        Err(halt) => panic!("{}", halt.reason.message()),
    }
}

fn reason<T>(outcome: Result<Reply<T>, Halt>) -> Abort {
    match outcome {
        Ok(_) => panic!("the call completed"),
        Err(halt) => halt.reason,
    }
}

fn shown(actions: &Vec<Action>) -> String {
    format!("{:?}", actions)
}

fn open(store: &mut Store, to: u128, amount: i128, release_ledger: u32) -> u32 {
    let outcome = create_escrow(
        store,
        &context(100),
        token(1),
        account(1),
        account(to),
        amount,
        release_ledger,
        "rent".to_string(),
    );
    perform(store, outcome).unwrap()
}

fn attempt(ctx: &Context, from: u128, amount: i128, release_ledger: u32) -> Abort {
    reason(create_escrow(
        &Store::new(),
        ctx,
        token(1),
        account(from),
        account(2),
        amount,
        release_ledger,
        String::new(),
    ))
}

#[test]
fn created_escrow_can_be_read_back() {
    let mut store = Store::new();
    assert_eq!(open(&mut store, 2, 500, 200), 0);
    assert_eq!(open(&mut store, 3, 600, 300), 1);
    let e = get_escrow(&store, 1).value.unwrap();
    assert_eq!(e.id, 1);
    assert_eq!(e.from, account(1));
    assert_eq!(e.to, account(3));
    assert_eq!(e.token, token(1));
    assert_eq!(e.amount, 600);
    assert_eq!(e.release_ledger, 300);
    assert_eq!(e.status, EscrowStatus::Pending);
    assert_eq!(e.memo, "rent");
    assert_eq!(e.arbitrator, None);
    assert!(!e.disputed);
    assert_eq!(e.dispute_raised_by, None);
    assert_eq!(e.dispute_raised_at, 0);
    assert_eq!(e.agent, None);
    assert!(e.milestones.is_empty());
    assert!(!e.is_milestone_based);
    assert_eq!(get_escrow_count(&store).value, 2);
    assert_eq!(escrow_count(&store).value, 2);
    assert_eq!(store.count(), Some(2));
}

#[test]
fn creation_asks_the_host_in_order() {
    let store = Store::new();
    let reply = create_escrow(
        &store,
        &context(100),
        token(1),
        account(1),
        account(2),
        500,
        200,
        "rent".to_string(),
    )
    .unwrap();
    let mut written = Store::new();
    written.apply(&reply.trace);
    let list = written.list_of(account(2));
    let expected = vec![
        Action::RequireAuth(account(1)),
        Action::PullFunds { token: token(1), from: account(1), amount: 500 },
        Action::IncreaseLocked { token: token(1), amount: 500 },
        Action::Write(Entry::Recipient(0, account(2))),
        Action::BumpToFloor(DataKey::EscrowRecipient(0)),
        Action::Write(Entry::Count(1)),
        Action::Bump(DataKey::EscrowCount),
        Action::Write(Entry::List(account(2), list)),
        Action::BumpToFloor(DataKey::EscrowByRecipient(account(2))),
        Action::Publish(Event::EscrowCreated {
            id: 0,
            from: account(1),
            to: account(2),
            amount: 500,
            release_ledger: 200,
        }),
    ];
    assert_eq!(shown(&reply.trace.actions), shown(&expected));
}

#[test]
fn creation_checks_its_arguments() {
    let ctx = context(100);
    assert_eq!(attempt(&ctx, 2, 500, 200), Abort::SelfEscrow);
    assert_eq!(attempt(&ctx, 1, 0, 200), Abort::AmountNotPositive);
    assert_eq!(attempt(&ctx, 1, -5, 200), Abort::AmountNotPositive);
    assert_eq!(attempt(&ctx, 1, 1_000_001, 200), Abort::AmountTooLarge);
    assert_eq!(attempt(&ctx, 1, 9, 200), Abort::AmountTooSmall);
    assert_eq!(attempt(&ctx, 1, 500, 100), Abort::ReleaseNotInFuture);
    assert_eq!(attempt(&ctx, 1, 500, 1101), Abort::ReleaseTooFar);
    let mut late = context(u32::MAX - 1);
    assert_eq!(attempt(&late, 1, 500, u32::MAX), Abort::AdditionOverflow);
    late.limits.max_escrow_ledgers = 1;
    assert!(create_escrow(
        &Store::new(),
        &late,
        token(1),
        account(1),
        account(2),
        500,
        u32::MAX,
        String::new()
    )
    .is_ok());
}

#[test]
fn bounds_of_creation_are_inclusive() {
    let mut store = Store::new();
    for (amount, ledger) in [(10, 101), (1_000_000, 1100)] {
        let outcome = create_escrow(
            &store,
            &context(100),
            token(1),
            account(1),
            account(2),
            amount,
            ledger,
            String::new(),
        );
        assert!(perform(&mut store, outcome).is_ok());
    }
}

#[test]
fn switches_stop_creation_before_anything_is_asked() {
    let mut ctx = context(100);
    ctx.paused = true;
    assert_eq!(attempt(&ctx, 1, 500, 200), Abort::Paused);
    ctx.initialized = false;
    assert_eq!(attempt(&ctx, 1, 500, 200), Abort::NotInitialized);
    ctx.guard_held = true;
    assert_eq!(attempt(&ctx, 1, 500, 200), Abort::Reentrant);
    let halt = create_escrow(
        &Store::new(),
        &ctx,
        token(1),
        account(1),
        account(2),
        500,
        200,
        String::new(),
    )
    .err()
    .unwrap();
    assert!(halt.trace.actions.is_empty());
}

#[test]
fn refused_arguments_come_after_the_authorisation() {
    let halt = create_escrow(
        &Store::new(),
        &context(100),
        token(1),
        account(1),
        account(1),
        500,
        200,
        String::new(),
    )
    .err()
    .unwrap();
    assert_eq!(halt.reason.message(), "cannot create escrow to yourself");
    assert_eq!(shown(&halt.trace.actions), shown(&vec![Action::RequireAuth(account(1))]));
}

#[test]
fn full_index_refuses_without_moving_funds() {
    let mut store = Store::new();
    for _ in 0..3 {
        open(&mut store, 2, 500, 200);
    }
    let reply = create_escrow(
        &store,
        &context(100),
        token(1),
        account(1),
        account(2),
        500,
        200,
        String::new(),
    )
    .unwrap();
    assert_eq!(reply.value, Err(ContractError::IndexFull));
    assert_eq!(shown(&reply.trace.actions), shown(&vec![Action::RequireAuth(account(1))]));
    assert_eq!(open(&mut store, 3, 500, 200), 3);
}

#[test]
fn exhausted_counter_stops_after_funding() {
    let mut store = Store::new();
    store.write(Entry::Count(u32::MAX));
    let halt = create_escrow(
        &store,
        &context(100),
        token(1),
        account(1),
        account(2),
        500,
        200,
        String::new(),
    )
    .err()
    .unwrap();
    assert_eq!(halt.reason, Abort::AdditionOverflow);
    assert_eq!(halt.trace.actions.len(), 5);
}

#[test]
fn recipient_lists_are_kept_apart() {
    let mut store = Store::new();
    open(&mut store, 2, 500, 200);
    open(&mut store, 3, 500, 200);
    open(&mut store, 2, 500, 200);
    let reply = get_user_escrows(&store, account(2));
    assert_eq!(reply.value, vec![0, 2]);
    assert_eq!(
        shown(&reply.trace.actions),
        shown(&vec![Action::Bump(DataKey::EscrowByRecipient(account(2)))])
    );
    assert_eq!(get_user_escrows(&store, account(3)).value, vec![1]);
    let none = get_user_escrows(&store, account(4));
    assert!(none.value.is_empty());
    assert!(none.trace.actions.is_empty());
}

#[test]
fn missing_escrows_are_reported() {
    let store = Store::new();
    let reply = get_escrow(&store, 7);
    assert_eq!(reply.value.err(), Some(ContractError::NotFound));
    assert!(reply.trace.actions.is_empty());
    assert_eq!(reason(get_milestones(&store, 7)), Abort::EscrowNotFound);
    assert_eq!(reason(get_escrow_summary(&store, 7)), Abort::EscrowNotFound);
    assert_eq!(reason(claim_escrow(&store, &context(100), 7)), Abort::RecipientNotFound);
    assert_eq!(
        reason(claim_escrow_partial(&store, &context(100), 7, 1)),
        Abort::RecipientNotFound
    );
    assert_eq!(reason(cancel_escrow(&store, &context(100), 7)), Abort::RecipientNotFound);
    let reply = get_escrow_count(&store);
    assert_eq!(reply.value, 0);
    assert_eq!(
        shown(&reply.trace.actions),
        shown(&vec![Action::BumpIfPresent(DataKey::EscrowCount)])
    );
}

#[test]
fn broken_entries_are_told_apart() {
    let mut store = Store::new();
    store.write(Entry::Recipient(7, account(2)));
    let halt = claim_escrow(&store, &context(100), 7).err().unwrap();
    assert_eq!(halt.reason, Abort::ListNotFound);
    assert_eq!(
        shown(&halt.trace.actions),
        shown(&vec![Action::Bump(DataKey::EscrowRecipient(7))])
    );
    store.write(Entry::List(account(2), Vec::new()));
    assert_eq!(reason(claim_escrow(&store, &context(100), 7)), Abort::EscrowNotFound);
    assert_eq!(get_escrow(&store, 7).value.err(), Some(ContractError::NotFound));
}

#[test]
fn claim_pays_after_the_records_change() {
    let mut store = Store::new();
    open(&mut store, 2, 500, 200);
    let reply = claim_escrow(&store, &context(200), 0).unwrap();
    let mut written = store.copy();
    written.apply(&reply.trace);
    let expected = vec![
        Action::Bump(DataKey::EscrowRecipient(0)),
        Action::RequireAuth(account(2)),
        Action::DecreaseLocked { token: token(1), amount: 500 },
        Action::Write(Entry::List(account(2), written.list_of(account(2)))),
        Action::Bump(DataKey::EscrowByRecipient(account(2))),
        Action::PayOut { token: token(1), to: account(2), amount: 500 },
        Action::Publish(Event::EscrowClaimed { id: 0, to: account(2), amount: 500 }),
    ];
    assert_eq!(shown(&reply.trace.actions), shown(&expected));
    let e = get_escrow(&written, 0).value.unwrap();
    assert_eq!(e.status, EscrowStatus::Released);
    assert_eq!(e.amount, 500);
}

#[test]
fn claim_waits_for_the_release_ledger() {
    let mut store = Store::new();
    open(&mut store, 2, 500, 200);
    assert_eq!(reason(claim_escrow(&store, &context(199), 0)), Abort::ReleaseNotReached);
    assert_eq!(
        reason(claim_escrow_partial(&store, &context(199), 0, 5)),
        Abort::ReleaseNotReached
    );
}

#[test]
fn escrow_is_settled_once() {
    let mut store = Store::new();
    open(&mut store, 2, 500, 200);
    let outcome = claim_escrow(&store, &context(200), 0);
    perform(&mut store, outcome);
    assert_eq!(reason(claim_escrow(&store, &context(300), 0)), Abort::NotPending);
    assert_eq!(reason(claim_escrow_partial(&store, &context(300), 0, 5)), Abort::NotPending);
    assert_eq!(reason(cancel_escrow(&store, &context(150), 0)), Abort::NotPending);
}

#[test]
fn partial_claims_add_up() {
    let mut store = Store::new();
    open(&mut store, 2, 500, 200);
    let outcome = claim_escrow_partial(&store, &context(200), 0, 120);
    assert_eq!(perform(&mut store, outcome), 380);
    let e = get_escrow(&store, 0).value.unwrap();
    assert_eq!((e.amount, e.status), (380, EscrowStatus::Pending));
    let reply = claim_escrow_partial(&store, &context(201), 0, 380).unwrap();
    assert_eq!(
        format!("{:?}", reply.trace.actions.last().unwrap()),
        format!(
            "{:?}",
            Action::Publish(Event::EscrowPartiallyClaimed {
                id: 0,
                to: account(2),
                claimed: 380,
                remaining: 0,
            })
        )
    );
    assert_eq!(perform(&mut store, Ok(reply)), 0);
    let e = get_escrow(&store, 0).value.unwrap();
    assert_eq!((e.amount, e.status), (0, EscrowStatus::Released));
}

#[test]
fn partial_claims_are_bounded() {
    let mut store = Store::new();
    open(&mut store, 2, 500, 200);
    let ctx = context(200);
    assert_eq!(reason(claim_escrow_partial(&store, &ctx, 0, 0)), Abort::ClaimNotPositive);
    assert_eq!(reason(claim_escrow_partial(&store, &ctx, 0, -1)), Abort::ClaimNotPositive);
    assert_eq!(reason(claim_escrow_partial(&store, &ctx, 0, 501)), Abort::ClaimTooLarge);
    let halt = claim_escrow_partial(&store, &ctx, 0, 501).err().unwrap();
    assert_eq!(
        shown(&halt.trace.actions),
        shown(&vec![
            Action::Bump(DataKey::EscrowRecipient(0)),
            Action::RequireAuth(account(2)),
        ])
    );
}

#[test]
fn cancellation_returns_the_funds_before_release() {
    let mut store = Store::new();
    open(&mut store, 2, 500, 200);
    assert_eq!(reason(cancel_escrow(&store, &context(200), 0)), Abort::ReleaseAlreadyReached);
    let reply = cancel_escrow(&store, &context(199), 0).unwrap();
    let mut written = store.copy();
    written.apply(&reply.trace);
    let expected = vec![
        Action::Bump(DataKey::EscrowRecipient(0)),
        Action::RequireAuth(account(1)),
        Action::DecreaseLocked { token: token(1), amount: 500 },
        Action::Write(Entry::List(account(2), written.list_of(account(2)))),
        Action::Bump(DataKey::EscrowByRecipient(account(2))),
        Action::PayOut { token: token(1), to: account(1), amount: 500 },
        Action::Publish(Event::EscrowCancelled { id: 0, from: account(1), refund: 500 }),
    ];
    assert_eq!(shown(&reply.trace.actions), shown(&expected));
    assert_eq!(get_escrow(&written, 0).value.unwrap().status, EscrowStatus::Cancelled);
    assert_eq!(reason(cancel_escrow(&written, &context(150), 0)), Abort::NotPending);
}

#[test]
fn other_escrows_stay_as_they_are() {
    let mut store = Store::new();
    open(&mut store, 2, 500, 200);
    open(&mut store, 2, 600, 210);
    let outcome = claim_escrow(&store, &context(205), 0);
    perform(&mut store, outcome);
    let e = get_escrow(&store, 1).value.unwrap();
    assert_eq!((e.amount, e.status), (600, EscrowStatus::Pending));
    assert_eq!(get_user_escrows(&store, account(2)).value, vec![0, 1]);
}

#[test]
fn summary_of_a_plain_escrow() {
    let mut store = Store::new();
    open(&mut store, 2, 500, 200);
    let pending = EscrowSummary {
        id: 0,
        total_amount: 500,
        released_amount: 0,
        remaining_amount: 500,
        milestone_count: 0,
        approved_milestones: 0,
        claimed_milestones: 0,
        status: EscrowStatus::Pending,
        is_milestone_based: false,
    };
    let reply = get_escrow_summary(&store, 0).unwrap();
    assert_eq!(reply.value, pending);
    assert_eq!(
        shown(&reply.trace.actions),
        shown(&vec![
            Action::Bump(DataKey::EscrowRecipient(0)),
            Action::Bump(DataKey::EscrowByRecipient(account(2))),
        ])
    );
    let mut claimed = store.copy();
    let outcome = claim_escrow(&claimed, &context(200), 0);
    perform(&mut claimed, outcome);
    assert_eq!(
        get_escrow_summary(&claimed, 0).unwrap().value,
        EscrowSummary {
            released_amount: 500,
            remaining_amount: 0,
            status: EscrowStatus::Released,
            ..pending
        }
    );
    let outcome = cancel_escrow(&store, &context(150), 0);
    perform(&mut store, outcome);
    assert_eq!(
        get_escrow_summary(&store, 0).unwrap().value,
        EscrowSummary { remaining_amount: 0, status: EscrowStatus::Cancelled, ..pending }
    );
}

#[test]
fn pause_and_guard_stop_settlement() {
    let mut store = Store::new();
    open(&mut store, 2, 500, 200);
    let mut ctx = context(200);
    ctx.paused = true;
    assert_eq!(reason(claim_escrow(&store, &ctx, 0)), Abort::Paused);
    assert_eq!(reason(claim_escrow_partial(&store, &ctx, 0, 5)), Abort::Paused);
    assert_eq!(reason(cancel_escrow(&store, &ctx, 0)), Abort::Paused);
    ctx.guard_held = true;
    assert_eq!(reason(claim_escrow(&store, &ctx, 0)), Abort::Reentrant);
    assert!(get_escrow(&store, 0).value.is_ok());
}

#[test]
fn reasons_have_their_texts() {
    assert_eq!(Abort::NotPending.message(), "escrow is not pending");
    assert_eq!(Abort::ResolveNotPending.message(), "Escrow is not pending");
    assert_eq!(Abort::EscrowNotFound.message(), "escrow not found");
    assert_eq!(Abort::DisputedEscrowNotFound.message(), "Escrow not found");
    assert_eq!(
        Abort::ReleaseAlreadyReached.message(),
        "release_ledger already reached \u{2014} cancellation is no longer allowed"
    );
    assert_eq!(Abort::Overflow.message(), "overflow");
}
