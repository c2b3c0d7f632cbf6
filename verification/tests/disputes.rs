use finchippay_escrow::abort::Abort;
use finchippay_escrow::action::{Action, Event, Halt, Reply};
use finchippay_escrow::claim::{cancel_escrow, claim_escrow, claim_escrow_partial};
use finchippay_escrow::create::{create_disputable_escrow, create_escrow};
use finchippay_escrow::dispute::{
    add_arbitrator, get_arbitrators, raise_dispute, remove_arbitrator, resolve_dispute,
};
use finchippay_escrow::query::get_escrow;
use finchippay_escrow::store::{DataKey, Entry, Store};
use finchippay_escrow::types::{
    Address, AddressKind, Context, ContractError, EscrowStatus, Limits, Resolution,
};

fn account(n: u128) -> Address {
    Address { kind: AddressKind::Account, high: 0, low: n }
}

fn token(n: u128) -> Address {
    Address { kind: AddressKind::Contract, high: 0, low: n }
}

fn context(sequence: u32) -> Context {
    Context {
        sequence,
        initialized: true,
        paused: false,
        guard_held: false,
        admin: Some(account(99)),
        limits: Limits {
            min_escrow_amount: 10,
            max_escrow_amount: 1_000_000,
            max_escrow_ledgers: 1000,
            max_user_escrows: 3,
            max_milestones: 4,
            max_batch_size: 5,
            batch_escrow_cursor_step: 3,
        },
    }
}

fn perform<T>(store: &mut Store, outcome: Result<Reply<T>, Halt>) -> T {
    match outcome {
        Ok(reply) => {
            store.apply(&reply.trace);
            reply.value
        }
        Err(halt) => panic!("{}", halt.reason.message()),
    }
}

fn reason<T>(outcome: Result<Reply<T>, Halt>) -> Abort {
    match outcome {
        Ok(_) => panic!("the call completed"),
        Err(halt) => halt.reason,
    }
}

fn shown(actions: &Vec<Action>) -> String {
    format!("{:?}", actions)
}

fn register(store: &mut Store, arbitrator: u128) {
    let outcome = add_arbitrator(store, &context(100), account(99), account(arbitrator));
    perform(store, outcome);
}

fn create(
    store: &Store,
    from: u128,
    amount: i128,
    release_ledger: u32,
    arbitrator: u128,
) -> Result<Reply<Result<u32, ContractError>>, Halt> {
    create_disputable_escrow(
        store,
        &context(100),
        token(1),
        account(from),
        account(2),
        amount,
        release_ledger,
        account(arbitrator),
    )
}

fn open(store: &mut Store) {
    register(store, 50);
    let outcome = create(store, 1, 500, 200, 50);
    assert_eq!(perform(store, outcome), Ok(0));
}

fn dispute(store: &mut Store, by: u128) {
    let outcome = raise_dispute(store, &context(150), 0, account(by));
    perform(store, outcome);
}

fn resolve(
    store: &Store,
    arbitrator: u128,
    resolution: &str,
    amount: i128,
) -> Result<Reply<()>, Halt> {
    resolve_dispute(
        store,
        &context(160),
        0,
        account(arbitrator),
        &resolution.to_string(),
        account(7),
        amount,
    )
}

#[test]
fn arbitrators_are_listed_and_counted() {
    let mut store = Store::new();
    assert!(get_arbitrators(&store).value.is_empty());
    register(&mut store, 50);
    register(&mut store, 51);
    register(&mut store, 52);
    let reply = get_arbitrators(&store);
    assert_eq!(reply.value, vec![account(50), account(51), account(52)]);
    assert_eq!(
        shown(&reply.trace.actions),
        shown(&vec![Action::BumpIfPresent(DataKey::Arbitrators)])
    );
    assert_eq!(store.arbitrator_count(), Some(3));
    let outcome = remove_arbitrator(&store, &context(100), account(99), account(51));
    perform(&mut store, outcome);
    assert_eq!(get_arbitrators(&store).value, vec![account(50), account(52)]);
    assert_eq!(store.arbitrator_count(), Some(2));
}

#[test]
fn adding_an_arbitrator_asks_the_host_in_order() {
    let store = Store::new();
    let reply = add_arbitrator(&store, &context(100), account(99), account(50)).unwrap();
    let expected = vec![
        Action::RequireAuth(account(99)),
        Action::Write(Entry::Arbitrators(vec![account(50)])),
        Action::BumpToFloor(DataKey::Arbitrators),
        Action::Write(Entry::ArbitratorCount(1)),
        Action::BumpToFloor(DataKey::ArbitratorCount),
        Action::Publish(Event::ArbitratorAdded { arbitrator: account(50) }),
    ];
    assert_eq!(shown(&reply.trace.actions), shown(&expected));
}

#[test]
fn removing_takes_back_adding() {
    let mut store = Store::new();
    register(&mut store, 50);
    register(&mut store, 51);
    let before = get_arbitrators(&store).value;
    register(&mut store, 52);
    let outcome = remove_arbitrator(&store, &context(100), account(99), account(52));
    perform(&mut store, outcome);
    assert_eq!(get_arbitrators(&store).value, before);
}

#[test]
fn only_the_admin_keeps_the_arbitrators() {
    let mut store = Store::new();
    let ctx = context(100);
    assert_eq!(
        reason(add_arbitrator(&store, &ctx, account(1), account(50))),
        Abort::Unauthorized
    );
    assert_eq!(
        reason(remove_arbitrator(&store, &ctx, account(1), account(50))),
        Abort::Unauthorized
    );
    assert_eq!(
        reason(remove_arbitrator(&store, &ctx, account(99), account(50))),
        Abort::NoArbitrators
    );
    register(&mut store, 50);
    assert_eq!(
        reason(add_arbitrator(&store, &ctx, account(99), account(50))),
        Abort::ArbitratorAlreadyRegistered
    );
    assert_eq!(
        reason(remove_arbitrator(&store, &ctx, account(99), account(51))),
        Abort::ArbitratorNotFound
    );
    let mut bare = ctx;
    bare.admin = None;
    let halt = add_arbitrator(&store, &bare, account(99), account(51)).err().unwrap();
    assert_eq!(halt.reason, Abort::AdminNotSet);
    assert_eq!(shown(&halt.trace.actions), shown(&vec![Action::RequireAuth(account(99))]));
}

#[test]
fn disputable_escrow_needs_a_registered_arbitrator() {
    let mut store = Store::new();
    assert_eq!(reason(create(&store, 1, 500, 200, 50)), Abort::NoArbitrators);
    register(&mut store, 50);
    let halt = create(&store, 1, 500, 200, 51).err().unwrap();
    assert_eq!(halt.reason, Abort::ArbitratorNotRegistered);
    assert_eq!(
        shown(&halt.trace.actions),
        shown(&vec![
            Action::RequireAuth(account(1)),
            Action::Bump(DataKey::Arbitrators),
        ])
    );
    let outcome = create(&store, 1, 500, 200, 50);
    assert_eq!(perform(&mut store, outcome), Ok(0));
    let e = get_escrow(&store, 0).value.unwrap();
    assert_eq!(e.arbitrator, Some(account(50)));
    assert_eq!(e.memo, "");
    assert!(!e.disputed);
}

#[test]
fn disputable_escrow_has_the_bounds_of_a_plain_one() {
    let mut store = Store::new();
    register(&mut store, 50);
    assert_eq!(reason(create(&store, 2, 500, 200, 50)), Abort::SelfEscrow);
    assert_eq!(reason(create(&store, 1, 0, 200, 50)), Abort::AmountNotPositive);
    assert_eq!(reason(create(&store, 1, 500, 100, 50)), Abort::ReleaseNotInFuture);
    assert_eq!(reason(create(&store, 1, 9, 200, 50)), Abort::AmountTooSmall);
    assert_eq!(reason(create(&store, 1, 1_000_001, 200, 50)), Abort::AmountTooLarge);
    let halt = create(&store, 1, 500, 1101, 50).err().unwrap();
    assert_eq!(halt.reason, Abort::ReleaseTooFar);
    assert_eq!(shown(&halt.trace.actions), shown(&vec![Action::RequireAuth(account(1))]));
    let reply = create(&store, 1, 10, 1100, 50).unwrap();
    assert_eq!(reply.value, Ok(0));
    assert_eq!(
        format!("{:?}", reply.trace.actions.last().unwrap()),
        format!(
            "{:?}",
            Action::Publish(Event::DisputableEscrowCreated { id: 0, arbitrator: account(50) })
        )
    );
    for _ in 0..3 {
        let outcome = create(&store, 1, 1_000_000, 101, 50);
        perform(&mut store, outcome).unwrap();
    }
    assert_eq!(create(&store, 1, 500, 200, 50).unwrap().value, Err(ContractError::IndexFull));
}

#[test]
fn either_party_raises_a_dispute() {
    for by in [1, 2] {
        let mut store = Store::new();
        open(&mut store);
        dispute(&mut store, by);
        let e = get_escrow(&store, 0).value.unwrap();
        assert!(e.disputed);
        assert_eq!(e.dispute_raised_by, Some(account(by)));
        assert_eq!(e.dispute_raised_at, 150);
        assert_eq!(e.status, EscrowStatus::Pending);
    }
}

#[test]
fn dispute_checks_the_escrow_and_the_party() {
    let mut store = Store::new();
    open(&mut store);
    let ctx = context(150);
    assert_eq!(reason(raise_dispute(&store, &ctx, 0, account(3))), Abort::NotParticipant);
    let halt = raise_dispute(&store, &ctx, 5, account(1)).err().unwrap();
    assert_eq!(halt.reason, Abort::DisputedEscrowNotFound);
    assert_eq!(shown(&halt.trace.actions), shown(&vec![Action::RequireAuth(account(1))]));
    let outcome = create_escrow(
        &store,
        &context(100),
        token(1),
        account(1),
        account(2),
        500,
        200,
        String::new(),
    );
    perform(&mut store, outcome).unwrap();
    assert_eq!(reason(raise_dispute(&store, &ctx, 1, account(1))), Abort::NotDisputable);
    dispute(&mut store, 1);
    assert_eq!(reason(raise_dispute(&store, &ctx, 0, account(2))), Abort::AlreadyDisputed);
}

#[test]
fn settled_escrow_cannot_be_disputed() {
    let mut store = Store::new();
    open(&mut store);
    let outcome = claim_escrow(&store, &context(200), 0);
    perform(&mut store, outcome);
    assert_eq!(
        reason(raise_dispute(&store, &context(210), 0, account(1))),
        Abort::DisputeNotPending
    );
}

#[test]
fn dispute_blocks_claims_and_cancellation() {
    let mut store = Store::new();
    open(&mut store);
    dispute(&mut store, 2);
    assert_eq!(reason(claim_escrow(&store, &context(300), 0)), Abort::Disputed);
    assert_eq!(reason(claim_escrow_partial(&store, &context(300), 0, 1)), Abort::Disputed);
    assert_eq!(reason(cancel_escrow(&store, &context(150), 0)), Abort::Disputed);
}

#[test]
fn disputes_are_raised_while_paused_but_not_resolved() {
    let mut store = Store::new();
    open(&mut store);
    let mut ctx = context(150);
    ctx.paused = true;
    ctx.guard_held = true;
    let outcome = raise_dispute(&store, &ctx, 0, account(1));
    perform(&mut store, outcome);
    ctx.guard_held = false;
    assert_eq!(
        reason(resolve_dispute(
            &store,
            &ctx,
            0,
            account(50),
            &"refund".to_string(),
            account(7),
            0
        )),
        Abort::Paused
    );
}

#[test]
fn release_pays_the_recipient_whatever_address_is_named() {
    let mut store = Store::new();
    open(&mut store);
    dispute(&mut store, 1);
    let reply = resolve(&store, 50, "release", 500).unwrap();
    let mut written = store.copy();
    written.apply(&reply.trace);
    let expected = vec![
        Action::RequireAuth(account(50)),
        Action::Bump(DataKey::EscrowRecipient(0)),
        Action::DecreaseLocked { token: token(1), amount: 500 },
        Action::Write(Entry::List(account(2), written.list_of(account(2)))),
        Action::Bump(DataKey::EscrowByRecipient(account(2))),
        Action::Transfer { token: token(1), to: account(2), amount: 500 },
        Action::Publish(Event::DisputeResolved {
            id: 0,
            resolution: Resolution::Release,
            to: account(7),
            amount: 500,
        }),
    ];
    assert_eq!(shown(&reply.trace.actions), shown(&expected));
    let e = get_escrow(&written, 0).value.unwrap();
    assert_eq!(e.status, EscrowStatus::Released);
    assert!(!e.disputed);
    assert_eq!(e.dispute_raised_by, Some(account(1)));
}

#[test]
fn split_divides_the_escrow() {
    let mut store = Store::new();
    open(&mut store);
    dispute(&mut store, 1);
    let reply = resolve(&store, 50, "split", 180).unwrap();
    assert_eq!(
        shown(&reply.trace.actions).matches("Transfer").count(),
        2
    );
    assert_eq!(
        format!("{:?}", reply.trace.actions[2]),
        format!("{:?}", Action::DecreaseLocked { token: token(1), amount: 500 })
    );
    assert_eq!(
        format!("{:?}", reply.trace.actions[5]),
        format!("{:?}", Action::Transfer { token: token(1), to: account(2), amount: 180 })
    );
    assert_eq!(
        format!("{:?}", reply.trace.actions[6]),
        format!("{:?}", Action::Transfer { token: token(1), to: account(1), amount: 320 })
    );
}

#[test]
fn refund_pays_everything_back() {
    let mut store = Store::new();
    open(&mut store);
    dispute(&mut store, 1);
    let reply = resolve(&store, 50, "refund", -3).unwrap();
    assert_eq!(
        format!("{:?}", reply.trace.actions[5]),
        format!("{:?}", Action::Transfer { token: token(1), to: account(1), amount: 500 })
    );
    assert_eq!(reply.trace.actions.len(), 7);
}

#[test]
fn awards_are_bounded() {
    let mut store = Store::new();
    open(&mut store);
    dispute(&mut store, 1);
    for amount in [0, -1, 501] {
        assert_eq!(
            reason(resolve(&store, 50, "release", amount)),
            Abort::InvalidReleaseAmount
        );
    }
    for amount in [0, -1, 500] {
        assert_eq!(reason(resolve(&store, 50, "split", amount)), Abort::InvalidSplitAmount);
    }
    assert_eq!(reason(resolve(&store, 50, "Refund", 1)), Abort::InvalidResolution);
    assert_eq!(reason(resolve(&store, 50, "", 1)), Abort::InvalidResolution);
    assert!(resolve(&store, 50, "release", 1).is_ok());
    assert!(resolve(&store, 50, "split", 499).is_ok());
}

#[test]
fn only_the_designated_arbitrator_resolves() {
    let mut store = Store::new();
    open(&mut store);
    register(&mut store, 51);
    assert_eq!(reason(resolve(&store, 50, "refund", 0)), Abort::NotDisputed);
    dispute(&mut store, 1);
    assert_eq!(
        reason(resolve(&store, 51, "refund", 0)),
        Abort::NotDesignatedArbitrator
    );
    let outcome = remove_arbitrator(&store, &context(155), account(99), account(50));
    perform(&mut store, outcome);
    let outcome = resolve(&store, 50, "refund", 0);
    perform(&mut store, outcome);
    assert_eq!(reason(resolve(&store, 50, "refund", 0)), Abort::ResolveNotPending);
    assert_eq!(
        reason(resolve_dispute(
            &store,
            &context(160),
            9,
            account(50),
            &"refund".to_string(),
            account(7),
            0
        )),
        Abort::DisputedEscrowNotFound
    );
}

#[test]
fn resolutions_have_symbols() {
    for resolution in [Resolution::Release, Resolution::Refund, Resolution::Split] {
        assert_eq!(Resolution::parse(&resolution.symbol().to_string()), Some(resolution));
    }
    assert_eq!(Resolution::Split.symbol(), "split");
    assert_eq!(Resolution::parse(&"splits".to_string()), None);
    assert_eq!(
        Event::DisputeRaised { id: 0, by: account(1) }.topic(),
        "dispute_raised"
    );
}
