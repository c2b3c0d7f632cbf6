use finchippay_escrow::abort::Abort;
use finchippay_escrow::action::{Action, Halt, Reply, Trace};
use finchippay_escrow::batch_create::batch_create_escrow;
use finchippay_escrow::batch_settle::{batch_cancel_escrow, batch_claim_escrow};
use finchippay_escrow::claim::{cancel_escrow, claim_escrow, claim_escrow_partial};
use finchippay_escrow::create::{
    create_disputable_escrow, create_escrow, create_milestone_escrow,
};
use finchippay_escrow::dispute::{add_arbitrator, raise_dispute, resolve_dispute};
use finchippay_escrow::milestone::{approve_milestone, claim_milestone};
use finchippay_escrow::query::{get_escrow, get_escrow_count, get_escrow_summary};
use finchippay_escrow::store::Store;
use finchippay_escrow::types::{
    Address, AddressKind, BatchEscrowInput, Context, EscrowStatus, Limits, Milestone,
};
use soroban_sdk::Env;

fn account(n: u128) -> Address {
    Address { kind: AddressKind::Account, high: 0, low: n }
}

fn token(n: u128) -> Address {
    Address { kind: AddressKind::Contract, high: 0, low: n }
}

fn context(sequence: u32) -> Context {
    Context {
        sequence,
        initialized: true,
        paused: false,
        guard_held: false,
        admin: Some(account(99)),
        limits: Limits {
            min_escrow_amount: 10,
            max_escrow_amount: 1_000_000,
            max_escrow_ledgers: 1000,
            max_user_escrows: 8,
            max_milestones: 4,
            max_batch_size: 5,
            batch_escrow_cursor_step: 3,
        },
    }
}

struct Books {
    store: Store,
    locked: [i128; 2],
    balance: [i128; 2],
}

fn column(address: &Address) -> usize {
    if *address == token(0) {
        0
    } else {
        1
    }
}

fn held(store: &Store, t: Address) -> i128 {
    let mut sum: i128 = 0;
    for id in 0..get_escrow_count(store).value {
        if get_escrow(store, id).value.unwrap().token == t {
            sum += get_escrow_summary(store, id).unwrap().value.remaining_amount;
        }
    }
    sum
}

fn assert_authorised(trace: &Trace) {
    let mut asked: Vec<Address> = Vec::new();
    for action in &trace.actions {
        match action {
            Action::RequireAuth(who) => asked.push(*who),
            Action::PullFunds { from, .. } => assert!(asked.contains(from)),
            Action::PayOut { to, .. } => assert!(asked.contains(to)),
            _ => {}
        }
    }
}

fn enter<T>(books: &mut Books, outcome: Result<Reply<T>, Halt>) -> T {
    let reply = match outcome {
        Ok(reply) => reply,
        Err(halt) => panic!("{}", halt.reason.message()),
    };
    assert_authorised(&reply.trace);
    for action in &reply.trace.actions {
        match action {
            Action::PullFunds { token, amount, .. } => books.balance[column(token)] += amount,
            Action::PayOut { token, amount, .. } => books.balance[column(token)] -= amount,
            Action::Transfer { token, amount, .. } => books.balance[column(token)] -= amount,
            Action::IncreaseLocked { token, amount } => books.locked[column(token)] += amount,
            Action::DecreaseLocked { token, amount } => books.locked[column(token)] -= amount,
            _ => {}
        }
    }
    books.store.apply(&reply.trace);
    for n in 0..2 {
        assert_eq!(books.locked[n], books.balance[n]);
        assert_eq!(books.locked[n], held(&books.store, token(n as u128)));
    }
    reply.value
}

fn milestone(amount: i128) -> Milestone {
    Milestone {
        id: 0,
        amount,
        approval_deadline_ledger: 0,
        approved: false,
        claimed: false,
    }
}

#[test]
fn locked_balances_cover_what_the_escrows_hold() {
    let env = Env::default();
    let now = context(100);
    let later = context(250);
    let mut books = Books { store: Store::new(), locked: [0, 0], balance: [0, 0] };
    for (t, to, amount, release) in
        [(0, 2, 100, 200), (1, 3, 200, 200), (0, 2, 300, 400), (1, 2, 50, 300)]
    {
        let outcome = create_escrow(
            &books.store,
            &now,
            token(t),
            account(1),
            account(to),
            amount,
            release,
            String::new(),
        );
        enter(&mut books, outcome).unwrap();
    }
    let schedule = vec![milestone(40), milestone(60)];
    let outcome = create_milestone_escrow(
        &books.store,
        &now,
        token(0),
        account(1),
        account(4),
        account(5),
        &schedule,
        100,
    );
    assert_eq!(enter(&mut books, outcome), Ok(4));
    let outcome = add_arbitrator(&books.store, &now, account(99), account(50));
    enter(&mut books, outcome);
    let outcome = create_disputable_escrow(
        &books.store,
        &now,
        token(1),
        account(1),
        account(2),
        700,
        150,
        account(50),
    );
    assert_eq!(enter(&mut books, outcome), Ok(5));
    let items = vec![
        BatchEscrowInput {
            to: account(3),
            amount: 80,
            release_ledger: 500,
            memo: String::new(),
        },
        BatchEscrowInput { to: account(1), amount: 80, release_ledger: 500, memo: String::new() },
        BatchEscrowInput {
            to: account(2),
            amount: 20,
            release_ledger: 500,
            memo: String::new(),
        },
    ];
    let outcome =
        batch_create_escrow(&env, &books.store, &now, token(1), account(1), &items);
    enter(&mut books, outcome);
    assert_eq!(books.locked, [500, 1050]);

    let outcome = claim_escrow_partial(&books.store, &later, 0, 30);
    assert_eq!(enter(&mut books, outcome), 70);
    let outcome = approve_milestone(&books.store, &later, 4, 1, account(5));
    enter(&mut books, outcome);
    let outcome = claim_milestone(&books.store, &later, 4, 1, account(4));
    enter(&mut books, outcome);
    let outcome = raise_dispute(&books.store, &later, 5, account(2));
    enter(&mut books, outcome);
    let outcome = resolve_dispute(
        &books.store,
        &later,
        5,
        account(50),
        &"split".to_string(),
        account(2),
        250,
    );
    enter(&mut books, outcome);
    let outcome = batch_claim_escrow(&env, &books.store, &later, &vec![0, 1, 4], 0, 0);
    enter(&mut books, outcome);
    let outcome = batch_cancel_escrow(&env, &books.store, &later, &vec![2, 6, 1], 0, 0);
    enter(&mut books, outcome);
    let outcome = cancel_escrow(&books.store, &later, 4);
    enter(&mut books, outcome);
    let outcome = claim_escrow(&books.store, &context(300), 3);
    enter(&mut books, outcome);
    assert_eq!(books.locked, [0, 20]);
    let outcome = claim_escrow(&books.store, &context(500), 7);
    enter(&mut books, outcome);
    assert_eq!(books.locked, [0, 0]);
}

#[test]
fn release_of_less_leaves_the_rest_locked() {
    let now = context(100);
    let mut store = Store::new();
    let outcome = add_arbitrator(&store, &now, account(99), account(50)).unwrap();
    store.apply(&outcome.trace);
    let outcome = create_disputable_escrow(
        &store,
        &now,
        token(1),
        account(1),
        account(2),
        700,
        150,
        account(50),
    )
    .unwrap();
    store.apply(&outcome.trace);
    let outcome = raise_dispute(&store, &now, 0, account(1)).unwrap();
    store.apply(&outcome.trace);
    let reply = resolve_dispute(
        &store,
        &now,
        0,
        account(50),
        &"release".to_string(),
        account(2),
        300,
    )
    .unwrap();
    assert_eq!(
        format!("{:?}", reply.trace.actions[2]),
        format!("{:?}", Action::DecreaseLocked { token: token(1), amount: 300 })
    );
    store.apply(&reply.trace);
    assert_eq!(held(&store, token(1)), 0);
    assert_eq!(get_escrow(&store, 0).value.unwrap().status, EscrowStatus::Released);
}

#[test]
fn terms_last_through_later_calls() {
    let now = context(100);
    let mut store = Store::new();
    let reply = create_milestone_escrow(
        &store,
        &now,
        token(0),
        account(1),
        account(4),
        account(5),
        &vec![milestone(40), milestone(60)],
        100,
    )
    .unwrap();
    store.apply(&reply.trace);
    let reply = approve_milestone(&store, &now, 0, 0, account(1)).unwrap();
    store.apply(&reply.trace);
    let reply = claim_milestone(&store, &now, 0, 0, account(4)).unwrap();
    store.apply(&reply.trace);
    let reply = cancel_escrow(&store, &now, 0).unwrap();
    store.apply(&reply.trace);
    let e = get_escrow(&store, 0).value.unwrap();
    assert_eq!((e.from, e.to, e.token), (account(1), account(4), token(0)));
    assert_eq!(e.amount, 100);
    assert!(e.milestones[0].approved && e.milestones[0].claimed);
    assert!(!e.milestones[1].approved && !e.milestones[1].claimed);
    assert_eq!(
        claim_milestone(&store, &now, 0, 0, account(4)).err().map(|halt| halt.reason),
        Some(Abort::NotPending)
    );
}
