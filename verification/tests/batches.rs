use finchippay_escrow::abort::Abort;
use finchippay_escrow::action::{Action, Event, Halt, Reply};
use finchippay_escrow::batch_create::batch_create_escrow;
use finchippay_escrow::batch_settle::{batch_cancel_escrow, batch_claim_escrow, chunk_bounds};
use finchippay_escrow::claim::claim_escrow;
use finchippay_escrow::create::create_escrow;
use finchippay_escrow::query::{get_escrow, get_escrow_count, get_user_escrows};
use finchippay_escrow::store::{DataKey, Entry, Store};
use finchippay_escrow::types::{
    Address, AddressKind, BatchClaimResult, BatchEscrowInput, BatchEscrowResult, Context,
    EscrowStatus, Limits,
};
use soroban_sdk::Env;

fn account(n: u128) -> Address {
    Address { kind: AddressKind::Account, high: 0, low: n }
}

fn token(n: u128) -> Address {
    Address { kind: AddressKind::Contract, high: 0, low: n }
}

fn context(sequence: u32) -> Context {
    Context {
        sequence,
        initialized: true,
        paused: false,
        guard_held: false,
        admin: Some(account(99)),
        limits: Limits {
            min_escrow_amount: 10,
            max_escrow_amount: 1_000_000,
            max_escrow_ledgers: 1000,
            max_user_escrows: 3,
            max_milestones: 4,
            max_batch_size: 5,
            batch_escrow_cursor_step: 3,
        },
    }
}

fn perform<T>(store: &mut Store, outcome: Result<Reply<T>, Halt>) -> T {
    match outcome {
        Ok(reply) => {
            store.apply(&reply.trace);
            reply.value
        }
        Err(halt) => panic!("{}", halt.reason.message()),
    }
}

fn reason<T>(outcome: Result<Reply<T>, Halt>) -> Abort {
    match outcome {
        Ok(_) => panic!("the call completed"),
        Err(halt) => halt.reason,
    }
}

fn shown(actions: &Vec<Action>) -> String {
    format!("{:?}", actions)
}

fn item(to: u128, amount: i128, release_ledger: u32) -> BatchEscrowInput {
    BatchEscrowInput { to: account(to), amount, release_ledger, memo: format!("for {}", to) }
}

fn create_all(
    store: &Store,
    ctx: &Context,
    items: Vec<BatchEscrowInput>,
) -> Result<Reply<Vec<BatchEscrowResult>>, Halt> {
    batch_create_escrow(&Env::default(), store, ctx, token(1), account(1), &items)
}

fn open(store: &mut Store, token_number: u128, to: u128, amount: i128, release_ledger: u32) {
    let outcome = create_escrow(
        store,
        &context(100),
        token(token_number),
        account(1),
        account(to),
        amount,
        release_ledger,
        String::new(),
    );
    perform(store, outcome).unwrap();
}

fn opened() -> Store {
    let mut store = Store::new();
    open(&mut store, 9, 2, 100, 200);
    open(&mut store, 4, 3, 200, 200);
    open(&mut store, 9, 2, 300, 400);
    open(&mut store, 9, 4, 400, 200);
    store
}

#[test]
fn batch_creates_valid_items_and_skips_others() {
    let mut store = Store::new();
    let items = vec![
        item(3, 100, 200),
        item(1, 100, 200),
        item(2, 5, 200),
        item(2, 300, 201),
        item(2, 100, 100),
    ];
    let outcome = create_all(&store, &context(100), items);
    let results = perform(&mut store, outcome);
    assert_eq!(
        results,
        vec![
            BatchEscrowResult::Success(0),
            BatchEscrowResult::Skipped(1),
            BatchEscrowResult::Skipped(2),
            BatchEscrowResult::Success(1),
            BatchEscrowResult::Skipped(4),
        ]
    );
    let e = get_escrow(&store, 1).value.unwrap();
    assert_eq!((e.to, e.amount, e.release_ledger), (account(2), 300, 201));
    assert_eq!(e.memo, "for 2");
    assert_eq!(e.token, token(1));
    assert_eq!(get_escrow_count(&store).value, 2);
}

#[test]
fn batch_creation_asks_the_host_in_order() {
    let store = Store::new();
    let items = vec![item(3, 100, 200), item(2, 50, 200), item(3, 70, 200), item(2, 1, 200)];
    let reply = create_all(&store, &context(100), items).unwrap();
    let mut written = Store::new();
    written.apply(&reply.trace);
    let expected = vec![
        Action::RequireAuth(account(1)),
        Action::PullFunds { token: token(1), from: account(1), amount: 220 },
        Action::Write(Entry::Recipient(0, account(3))),
        Action::BumpToFloor(DataKey::EscrowRecipient(0)),
        Action::Write(Entry::Recipient(1, account(2))),
        Action::BumpToFloor(DataKey::EscrowRecipient(1)),
        Action::Write(Entry::Recipient(2, account(3))),
        Action::BumpToFloor(DataKey::EscrowRecipient(2)),
        Action::Write(Entry::List(account(2), written.list_of(account(2)))),
        Action::BumpToFloor(DataKey::EscrowByRecipient(account(2))),
        Action::Write(Entry::List(account(3), written.list_of(account(3)))),
        Action::BumpToFloor(DataKey::EscrowByRecipient(account(3))),
        Action::Write(Entry::Count(3)),
        Action::Bump(DataKey::EscrowCount),
        Action::IncreaseLocked { token: token(1), amount: 220 },
        Action::Publish(Event::BatchCreated {
            from: account(1),
            created: 3,
            skipped: 1,
            total: 220,
        }),
    ];
    assert_eq!(shown(&reply.trace.actions), shown(&expected));
}

#[test]
fn batch_leaves_what_single_calls_leave() {
    let mut single = Store::new();
    open(&mut single, 1, 2, 500, 300);
    let mut batch = single.copy();
    let items = vec![item(2, 100, 200), item(3, 100, 5000), item(2, 70, 200), item(2, 90, 200)];
    for i in &items {
        if let Ok(reply) = create_escrow(
            &single,
            &context(100),
            token(1),
            account(1),
            i.to,
            i.amount,
            i.release_ledger,
            i.memo.clone(),
        ) {
            single.apply(&reply.trace);
        }
    }
    let outcome = create_all(&batch, &context(100), items);
    perform(&mut batch, outcome);
    assert_eq!(get_escrow_count(&batch).value, get_escrow_count(&single).value);
    assert_eq!(get_escrow_count(&batch).value, 3);
    for n in 2..4 {
        assert_eq!(
            format!("{:?}", batch.list_of(account(n))),
            format!("{:?}", single.list_of(account(n)))
        );
    }
}

#[test]
fn batch_counts_its_own_items_against_the_cap() {
    let mut store = Store::new();
    open(&mut store, 1, 2, 500, 200);
    let items = vec![
        item(2, 100, 200),
        item(2, 100, 200),
        item(2, 100, 200),
        item(3, 100, 200),
    ];
    let outcome = create_all(&store, &context(100), items);
    assert_eq!(
        perform(&mut store, outcome),
        vec![
            BatchEscrowResult::Success(1),
            BatchEscrowResult::Success(2),
            BatchEscrowResult::Skipped(2),
            BatchEscrowResult::Success(3),
        ]
    );
    assert_eq!(get_user_escrows(&store, account(2)).value, vec![0, 1, 2]);
}

#[test]
fn batch_without_valid_items_moves_nothing() {
    let reply = create_all(&Store::new(), &context(100), vec![item(1, 100, 200)]).unwrap();
    assert_eq!(reply.value, vec![BatchEscrowResult::Skipped(0)]);
    let expected = vec![
        Action::RequireAuth(account(1)),
        Action::Publish(Event::BatchCreated {
            from: account(1),
            created: 0,
            skipped: 1,
            total: 0,
        }),
    ];
    assert_eq!(shown(&reply.trace.actions), shown(&expected));
}

#[test]
fn batch_size_is_bounded() {
    let store = Store::new();
    assert_eq!(reason(create_all(&store, &context(100), Vec::new())), Abort::BatchEmpty);
    let items = (2..8).map(|n| item(n, 100, 200)).collect();
    assert_eq!(reason(create_all(&store, &context(100), items)), Abort::BatchTooLarge);
    let items = (2..7).map(|n| item(n, 100, 200)).collect();
    assert!(create_all(&store, &context(100), items).is_ok());
    let mut ctx = context(100);
    ctx.initialized = false;
    assert_eq!(reason(create_all(&store, &ctx, Vec::new())), Abort::NotInitialized);
}

#[test]
fn batch_totals_are_checked() {
    let mut ctx = context(100);
    ctx.limits.max_escrow_amount = i128::MAX;
    let items = vec![item(2, i128::MAX, 200), item(3, 10, 200)];
    let halt = create_all(&Store::new(), &ctx, items).err().unwrap();
    assert_eq!(halt.reason, Abort::Overflow);
    assert_eq!(shown(&halt.trace.actions), shown(&vec![Action::RequireAuth(account(1))]));
    let late = context(u32::MAX - 5);
    assert_eq!(
        reason(create_all(&Store::new(), &late, vec![item(2, 100, u32::MAX)])),
        Abort::AdditionOverflow
    );
    assert!(create_all(&Store::new(), &late, vec![item(2, 100, 7)]).is_ok());
}

#[test]
fn batch_stops_where_ids_run_out() {
    let mut store = Store::new();
    store.write(Entry::Count(u32::MAX - 1));
    let items = vec![item(2, 100, 200), item(3, 100, 200), item(4, 100, 200)];
    let halt = create_all(&store, &context(100), items).err().unwrap();
    assert_eq!(halt.reason, Abort::Overflow);
    let expected = vec![
        Action::RequireAuth(account(1)),
        Action::PullFunds { token: token(1), from: account(1), amount: 300 },
        Action::Write(Entry::Recipient(u32::MAX - 1, account(2))),
        Action::BumpToFloor(DataKey::EscrowRecipient(u32::MAX - 1)),
        Action::Write(Entry::Recipient(u32::MAX, account(3))),
        Action::BumpToFloor(DataKey::EscrowRecipient(u32::MAX)),
    ];
    assert_eq!(shown(&halt.trace.actions), shown(&expected));
}

#[test]
fn batch_claim_pays_matured_escrows() {
    let mut store = opened();
    let env = Env::default();
    let ids = vec![0, 1, 2, 7, 3];
    let reply = batch_claim_escrow(&env, &store, &context(250), &ids, 0, 0).unwrap();
    assert_eq!((reply.value.start_index, reply.value.next_index), (0, 3));
    assert!(!reply.value.done);
    assert_eq!(
        reply.value.results,
        vec![
            BatchClaimResult::Success(100),
            BatchClaimResult::Success(200),
            BatchClaimResult::Skipped(2),
        ]
    );
    let next = reply.value.next_index;
    perform(&mut store, Ok(reply));
    let reply = batch_claim_escrow(&env, &store, &context(250), &ids, next, 0).unwrap();
    assert_eq!((reply.value.start_index, reply.value.next_index), (3, 5));
    assert!(reply.value.done);
    assert_eq!(
        reply.value.results,
        vec![BatchClaimResult::Skipped(3), BatchClaimResult::Success(400)]
    );
    perform(&mut store, Ok(reply));
    for (id, status) in [
        (0, EscrowStatus::Released),
        (1, EscrowStatus::Released),
        (2, EscrowStatus::Pending),
        (3, EscrowStatus::Released),
    ] {
        assert_eq!(get_escrow(&store, id).value.unwrap().status, status);
    }
}

#[test]
fn batch_claim_asks_the_host_in_order() {
    let store = opened();
    let env = Env::default();
    let reply = batch_claim_escrow(&env, &store, &context(250), &vec![0, 5, 1], 0, 0).unwrap();
    let mut written = store.copy();
    written.apply(&reply.trace);
    let expected = vec![
        Action::Bump(DataKey::EscrowRecipient(0)),
        Action::RequireAuth(account(2)),
        Action::Write(Entry::List(account(2), written.list_of(account(2)))),
        Action::Bump(DataKey::EscrowByRecipient(account(2))),
        Action::PayOut { token: token(9), to: account(2), amount: 100 },
        Action::Bump(DataKey::EscrowRecipient(1)),
        Action::RequireAuth(account(3)),
        Action::Write(Entry::List(account(3), written.list_of(account(3)))),
        Action::Bump(DataKey::EscrowByRecipient(account(3))),
        Action::PayOut { token: token(4), to: account(3), amount: 200 },
        Action::DecreaseLocked { token: token(4), amount: 200 },
        Action::DecreaseLocked { token: token(9), amount: 100 },
        Action::Publish(Event::BatchClaimed { start: 0, end: 3, total: 300 }),
    ];
    assert_eq!(shown(&reply.trace.actions), shown(&expected));
}

#[test]
fn batch_unlocks_each_token_once() {
    let store = opened();
    let env = Env::default();
    let reply = batch_claim_escrow(&env, &store, &context(400), &vec![0, 2, 3], 0, 0).unwrap();
    let text = shown(&reply.trace.actions);
    assert_eq!(text.matches("DecreaseLocked").count(), 1);
    assert!(text.contains(&format!(
        "{:?}",
        Action::DecreaseLocked { token: token(9), amount: 800 }
    )));
}

#[test]
fn batch_pays_a_repeated_id_once() {
    let store = opened();
    let env = Env::default();
    let reply = batch_claim_escrow(&env, &store, &context(250), &vec![0, 0, 0], 0, 0).unwrap();
    assert_eq!(
        reply.value.results,
        vec![
            BatchClaimResult::Success(100),
            BatchClaimResult::Skipped(1),
            BatchClaimResult::Skipped(2),
        ]
    );
}

#[test]
fn cursor_step_is_bounded() {
    let store = opened();
    let env = Env::default();
    let ids = vec![0, 1, 2, 3];
    let ctx = context(250);
    let one = batch_claim_escrow(&env, &store, &ctx, &ids, 1, 1).unwrap().value;
    assert_eq!((one.start_index, one.next_index, one.done), (1, 2, false));
    let many = batch_claim_escrow(&env, &store, &ctx, &ids, 0, 50).unwrap().value;
    assert_eq!((many.start_index, many.next_index, many.done), (0, 3, false));
    let beyond = batch_claim_escrow(&env, &store, &ctx, &ids, 9, 2).unwrap();
    let cursor = beyond.value;
    assert_eq!((cursor.start_index, cursor.next_index, cursor.done), (4, 4, true));
    assert!(cursor.results.is_empty());
    assert_eq!(
        shown(&beyond.trace.actions),
        shown(&vec![Action::Publish(Event::BatchClaimed { start: 4, end: 4, total: 0 })])
    );
}

#[test]
fn cut_of_a_batch_makes_no_difference() {
    let env = Env::default();
    let ids = vec![0, 2, 3];
    let mut whole = opened();
    let outcome = batch_claim_escrow(&env, &whole, &context(250), &ids, 0, 3);
    let at_once = perform(&mut whole, outcome).results;
    let mut parts = opened();
    let mut answers = Vec::new();
    let mut start: u32 = 0;
    for _ in 0..3 {
        let outcome = batch_claim_escrow(&env, &parts, &context(250), &ids, start, 1);
        let cursor = perform(&mut parts, outcome);
        start = cursor.next_index;
        answers.extend(cursor.results);
    }
    assert_eq!(answers, at_once);
    for n in 2..5 {
        assert_eq!(
            format!("{:?}", parts.list_of(account(n))),
            format!("{:?}", whole.list_of(account(n)))
        );
    }
}

#[test]
fn batch_cancel_refunds_what_is_not_released_yet() {
    let mut store = opened();
    let env = Env::default();
    let outcome = claim_escrow(&store, &context(200), 1);
    perform(&mut store, outcome);
    let reply = batch_cancel_escrow(&env, &store, &context(250), &vec![2, 1, 0], 0, 0).unwrap();
    assert_eq!(
        reply.value.results,
        vec![
            BatchClaimResult::Success(300),
            BatchClaimResult::Skipped(1),
            BatchClaimResult::Skipped(2),
        ]
    );
    let text = shown(&reply.trace.actions);
    assert!(text.contains(&format!(
        "{:?}",
        Action::PayOut { token: token(9), to: account(1), amount: 300 }
    )));
    assert!(text.contains(&format!("{:?}", Action::RequireAuth(account(1)))));
    assert!(text.contains(&format!(
        "{:?}",
        Action::Publish(Event::BatchCancelled { start: 0, end: 3, total: 300 })
    )));
    perform(&mut store, Ok(reply));
    assert_eq!(get_escrow(&store, 2).value.unwrap().status, EscrowStatus::Cancelled);
    assert_eq!(get_escrow(&store, 0).value.unwrap().status, EscrowStatus::Pending);
}

#[test]
fn batch_settlement_is_guarded_and_bounded() {
    let store = opened();
    let env = Env::default();
    let mut ctx = context(250);
    ctx.limits.batch_escrow_cursor_step = u32::MAX;
    let halt = batch_claim_escrow(&env, &store, &ctx, &vec![0, 1], 1, 0).err().unwrap();
    assert_eq!(halt.reason, Abort::AdditionOverflow);
    assert!(halt.trace.actions.is_empty());
    ctx.paused = true;
    assert_eq!(
        reason(batch_claim_escrow(&env, &store, &ctx, &vec![0], 0, 0)),
        Abort::Paused
    );
    ctx.guard_held = true;
    assert_eq!(
        reason(batch_cancel_escrow(&env, &store, &ctx, &vec![0], 0, 0)),
        Abort::Reentrant
    );
}

#[test]
fn batch_sums_are_checked_per_token() {
    let mut store = Store::new();
    let mut ctx = context(100);
    ctx.limits.max_escrow_amount = i128::MAX;
    for (t, amount) in [(1, i128::MAX), (1, 10), (2, i128::MAX)] {
        let outcome = create_escrow(
            &store,
            &ctx,
            token(t),
            account(1),
            account(2),
            amount,
            200,
            String::new(),
        );
        perform(&mut store, outcome).unwrap();
    }
    let env = Env::default();
    let halt = batch_claim_escrow(&env, &store, &context(250), &vec![0, 1], 0, 0).err().unwrap();
    assert_eq!(halt.reason, Abort::Overflow);
    assert_eq!(
        format!("{:?}", halt.trace.actions.last().unwrap()),
        format!("{:?}", Action::Bump(DataKey::EscrowByRecipient(account(2))))
    );
    let halt = batch_claim_escrow(&env, &store, &context(250), &vec![0, 2], 0, 0).err().unwrap();
    assert_eq!(halt.reason, Abort::Overflow);
    assert_eq!(
        format!("{:?}", halt.trace.actions.last().unwrap()),
        format!("{:?}", Action::DecreaseLocked { token: token(1), amount: i128::MAX })
    );
}

#[test]
fn chunk_bounds_stay_within_the_batch() {
    let ctx = context(250);
    assert_eq!(chunk_bounds(&ctx, 8, 2, 0), Some((2, 5)));
    assert_eq!(chunk_bounds(&ctx, 8, 2, 2), Some((2, 4)));
    assert_eq!(chunk_bounds(&ctx, 8, 7, 9), Some((7, 8)));
    assert_eq!(chunk_bounds(&ctx, 8, 20, 1), Some((8, 8)));
    assert_eq!(chunk_bounds(&ctx, u32::MAX, u32::MAX - 1, 2), None);
}
