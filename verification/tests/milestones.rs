use finchippay_escrow::abort::Abort;
use finchippay_escrow::action::{Action, Event, Halt, Reply};
use finchippay_escrow::batch_settle::{batch_cancel_escrow, batch_claim_escrow};
use finchippay_escrow::claim::{cancel_escrow, claim_escrow, claim_escrow_partial};
use finchippay_escrow::create::create_milestone_escrow;
use finchippay_escrow::milestone::{approve_milestone, claim_milestone};
use finchippay_escrow::query::{get_escrow, get_escrow_summary, get_milestones};
use finchippay_escrow::store::{DataKey, Store};
use finchippay_escrow::types::{
    Address, AddressKind, BatchClaimResult, Context, ContractError, EscrowStatus, EscrowSummary,
    Limits, Milestone,
};

fn account(n: u128) -> Address {
    Address { kind: AddressKind::Account, high: 0, low: n }
}

fn token(n: u128) -> Address {
    Address { kind: AddressKind::Contract, high: 0, low: n }
}

fn context(sequence: u32) -> Context {
    Context {
        sequence,
        initialized: true,
        paused: false,
        guard_held: false,
        admin: Some(account(99)),
        limits: Limits {
            min_escrow_amount: 10,
            max_escrow_amount: 1_000_000,
            max_escrow_ledgers: 1000,
            max_user_escrows: 3,
            max_milestones: 4,
            max_batch_size: 5,
            batch_escrow_cursor_step: 3,
        },
    }
}

fn perform<T>(store: &mut Store, outcome: Result<Reply<T>, Halt>) -> T {
    match outcome {
        Ok(reply) => {
            store.apply(&reply.trace);
            reply.value
        }
        Err(halt) => panic!("{}", halt.reason.message()),
    }
}

fn reason<T>(outcome: Result<Reply<T>, Halt>) -> Abort {
    match outcome {
        Ok(_) => panic!("the call completed"),
        Err(halt) => halt.reason,
    }
}

fn shown(actions: &Vec<Action>) -> String {
    format!("{:?}", actions)
}

fn milestone(id: u32, amount: i128, deadline: u32) -> Milestone {
    Milestone {
        id,
        amount,
        approval_deadline_ledger: deadline,
        approved: false,
        claimed: false,
    }
}

fn create(
    store: &Store,
    agent: u128,
    milestones: Vec<Milestone>,
    deposit: i128,
) -> Result<Reply<Result<u32, ContractError>>, Halt> {
    create_milestone_escrow(
        store,
        &context(100),
        token(1),
        account(1),
        account(2),
        account(agent),
        &milestones,
        deposit,
    )
}

fn open(store: &mut Store) -> u32 {
    let schedule = vec![milestone(7, 100, 150), milestone(7, 200, 0), milestone(9, 300, 0)];
    let outcome = create(store, 5, schedule, 600);
    perform(store, outcome).unwrap()
}

fn approve(store: &mut Store, milestone: u32) {
    let outcome = approve_milestone(store, &context(120), 0, milestone, account(5));
    perform(store, outcome);
}

fn claim(store: &mut Store, milestone: u32) {
    let outcome = claim_milestone(store, &context(130), 0, milestone, account(2));
    perform(store, outcome);
}

#[test]
fn milestones_are_numbered_in_order() {
    let mut store = Store::new();
    assert_eq!(open(&mut store), 0);
    let milestones = get_milestones(&store, 0).unwrap().value;
    assert_eq!(
        milestones,
        vec![milestone(0, 100, 150), milestone(1, 200, 0), milestone(2, 300, 0)]
    );
    let e = get_escrow(&store, 0).value.unwrap();
    assert_eq!(e.amount, 600);
    assert_eq!(e.release_ledger, 0);
    assert_eq!(e.agent, Some(account(5)));
    assert_eq!(e.memo, "");
    assert!(e.is_milestone_based);
}

#[test]
fn milestone_creation_announces_how_many() {
    let store = Store::new();
    let reply = create(&store, 5, vec![milestone(0, 10, 0), milestone(0, 20, 0)], 30).unwrap();
    assert_eq!(
        format!("{:?}", reply.trace.actions.last().unwrap()),
        format!(
            "{:?}",
            Action::Publish(Event::MilestoneEscrowCreated { id: 0, milestones: 2 })
        )
    );
    assert_eq!(
        Event::MilestoneEscrowCreated { id: 0, milestones: 2 }.topic(),
        "milestone_escrow_created"
    );
}

#[test]
fn milestone_creation_checks_its_arguments() {
    let store = Store::new();
    let one = |amount: i128, deadline: u32| vec![milestone(0, amount, deadline)];
    assert_eq!(reason(create(&store, 2, one(100, 0), 100)), Abort::AgentIsRecipient);
    assert_eq!(reason(create(&store, 5, one(100, 0), 0)), Abort::AmountNotPositive);
    assert_eq!(reason(create(&store, 5, one(100, 0), 1_000_001)), Abort::AmountTooLarge);
    assert_eq!(reason(create(&store, 5, one(100, 0), 9)), Abort::AmountTooSmall);
    assert_eq!(reason(create(&store, 5, Vec::new(), 100)), Abort::NoMilestones);
    let many = vec![milestone(0, 20, 0); 5];
    assert_eq!(reason(create(&store, 5, many, 100)), Abort::TooManyMilestones);
    assert_eq!(reason(create(&store, 5, one(0, 0), 100)), Abort::MilestoneNotPositive);
    assert_eq!(reason(create(&store, 5, one(100, 100), 100)), Abort::DeadlineNotInFuture);
    assert_eq!(reason(create(&store, 5, one(100, 0), 101)), Abort::MilestoneSumMismatch);
    let huge = vec![milestone(0, i128::MAX, 0), milestone(0, 1, 0)];
    assert_eq!(reason(create(&store, 5, huge, 100)), Abort::Overflow);
    assert_eq!(
        reason(create_milestone_escrow(
            &store,
            &context(100),
            token(1),
            account(2),
            account(2),
            account(5),
            &one(100, 0),
            100
        )),
        Abort::SelfEscrow
    );
    assert!(create(&store, 1, one(100, 101), 100).is_ok());
}

#[test]
fn first_fault_in_the_schedule_counts() {
    let store = Store::new();
    let schedule = vec![milestone(0, 10, 50), milestone(0, -10, 0)];
    assert_eq!(reason(create(&store, 5, schedule, 100)), Abort::DeadlineNotInFuture);
    let schedule = vec![milestone(0, -10, 50), milestone(0, 10, 0)];
    assert_eq!(reason(create(&store, 5, schedule, 100)), Abort::MilestoneNotPositive);
}

#[test]
fn full_index_refuses_milestone_escrows() {
    let mut store = Store::new();
    for _ in 0..3 {
        open(&mut store);
    }
    let reply = create(&store, 5, vec![milestone(0, 100, 0)], 100).unwrap();
    assert_eq!(reply.value, Err(ContractError::IndexFull));
    assert_eq!(shown(&reply.trace.actions), shown(&vec![Action::RequireAuth(account(1))]));
}

#[test]
fn approval_needs_the_agent_or_the_client() {
    let mut store = Store::new();
    open(&mut store);
    let ctx = context(120);
    assert_eq!(
        reason(approve_milestone(&store, &ctx, 0, 0, account(2))),
        Abort::Unauthorized
    );
    assert_eq!(
        reason(approve_milestone(&store, &ctx, 0, 0, account(8))),
        Abort::Unauthorized
    );
    assert!(approve_milestone(&store, &ctx, 0, 0, account(1)).is_ok());
    let reply = approve_milestone(&store, &ctx, 0, 1, account(5)).unwrap();
    assert_eq!(reply.trace.actions.len(), 5);
    assert_eq!(
        format!("{:?}", reply.trace.actions[4]),
        format!("{:?}", Action::Publish(Event::MilestoneApproved { escrow: 0, milestone: 1 }))
    );
    perform(&mut store, Ok(reply));
    let milestones = get_milestones(&store, 0).unwrap().value;
    assert!(milestones[1].approved);
    assert!(!milestones[0].approved);
    assert_eq!(
        reason(approve_milestone(&store, &ctx, 0, 1, account(5))),
        Abort::MilestoneAlreadyApproved
    );
}

#[test]
fn approval_keeps_to_the_deadline() {
    let mut store = Store::new();
    open(&mut store);
    assert!(approve_milestone(&store, &context(150), 0, 0, account(5)).is_ok());
    assert_eq!(
        reason(approve_milestone(&store, &context(151), 0, 0, account(5))),
        Abort::DeadlinePassed
    );
    assert!(approve_milestone(&store, &context(5000), 0, 1, account(5)).is_ok());
    assert_eq!(
        reason(approve_milestone(&store, &context(120), 0, 3, account(5))),
        Abort::MilestoneNotFound
    );
    assert_eq!(
        reason(approve_milestone(&store, &context(120), 1, 0, account(5))),
        Abort::RecipientNotFound
    );
}

#[test]
fn approved_milestone_is_claimed_once() {
    let mut store = Store::new();
    open(&mut store);
    let ctx = context(130);
    assert_eq!(
        reason(claim_milestone(&store, &ctx, 0, 1, account(2))),
        Abort::MilestoneNotApproved
    );
    approve(&mut store, 1);
    assert_eq!(
        reason(claim_milestone(&store, &ctx, 0, 1, account(1))),
        Abort::Unauthorized
    );
    assert_eq!(
        reason(claim_milestone(&store, &ctx, 0, 5, account(2))),
        Abort::MilestoneNotFound
    );
    let reply = claim_milestone(&store, &ctx, 0, 1, account(2)).unwrap();
    assert_eq!(
        format!("{:?}", reply.trace.actions[2]),
        format!("{:?}", Action::DecreaseLocked { token: token(1), amount: 200 })
    );
    assert_eq!(
        format!("{:?}", reply.trace.actions[5]),
        format!("{:?}", Action::PayOut { token: token(1), to: account(2), amount: 200 })
    );
    perform(&mut store, Ok(reply));
    assert_eq!(
        reason(claim_milestone(&store, &ctx, 0, 1, account(2))),
        Abort::MilestoneAlreadyClaimed
    );
    assert_eq!(get_escrow(&store, 0).value.unwrap().status, EscrowStatus::Pending);
}

#[test]
fn last_claim_releases_the_escrow() {
    let mut store = Store::new();
    open(&mut store);
    for m in [2, 0, 1] {
        approve(&mut store, m);
        assert_eq!(get_escrow(&store, 0).value.unwrap().status, EscrowStatus::Pending);
        claim(&mut store, m);
    }
    let e = get_escrow(&store, 0).value.unwrap();
    assert_eq!((e.status, e.amount), (EscrowStatus::Released, 600));
    assert_eq!(
        reason(claim_milestone(&store, &context(130), 0, 1, account(2))),
        Abort::NotPending
    );
    assert_eq!(
        reason(approve_milestone(&store, &context(130), 0, 1, account(5))),
        Abort::NotPending
    );
}

#[test]
fn milestone_summary_adds_up() {
    let mut store = Store::new();
    open(&mut store);
    approve(&mut store, 0);
    approve(&mut store, 2);
    claim(&mut store, 2);
    assert_eq!(
        get_escrow_summary(&store, 0).unwrap().value,
        EscrowSummary {
            id: 0,
            total_amount: 600,
            released_amount: 300,
            remaining_amount: 300,
            milestone_count: 3,
            approved_milestones: 2,
            claimed_milestones: 1,
            status: EscrowStatus::Pending,
            is_milestone_based: true,
        }
    );
}

#[test]
fn cancelling_refunds_what_is_unclaimed() {
    let mut store = Store::new();
    open(&mut store);
    approve(&mut store, 1);
    claim(&mut store, 1);
    let reply = cancel_escrow(&store, &context(9000), 0).unwrap();
    assert_eq!(
        format!("{:?}", reply.trace.actions.last().unwrap()),
        format!(
            "{:?}",
            Action::Publish(Event::EscrowCancelled { id: 0, from: account(1), refund: 400 })
        )
    );
    perform(&mut store, Ok(reply));
    let summary = get_escrow_summary(&store, 0).unwrap().value;
    assert_eq!(summary.released_amount, 200);
    assert_eq!(summary.remaining_amount, 0);
    assert_eq!(summary.status, EscrowStatus::Cancelled);
}

#[test]
fn milestone_escrows_are_claimed_by_milestone_only() {
    let mut store = Store::new();
    open(&mut store);
    assert_eq!(reason(claim_escrow(&store, &context(200), 0)), Abort::MilestoneClaimOnly);
    assert_eq!(
        reason(claim_escrow_partial(&store, &context(200), 0, 1)),
        Abort::MilestoneClaimOnly
    );
}

#[test]
fn milestone_calls_need_a_milestone_escrow() {
    let mut store = Store::new();
    let outcome = finchippay_escrow::create::create_escrow(
        &store,
        &context(100),
        token(1),
        account(1),
        account(2),
        500,
        200,
        String::new(),
    );
    perform(&mut store, outcome).unwrap();
    assert_eq!(
        reason(approve_milestone(&store, &context(120), 0, 0, account(1))),
        Abort::NotMilestoneBased
    );
    assert_eq!(
        reason(claim_milestone(&store, &context(120), 0, 0, account(2))),
        Abort::NotMilestoneBased
    );
    assert!(get_milestones(&store, 0).unwrap().value.is_empty());
}

#[test]
fn pause_stops_milestone_calls() {
    let mut store = Store::new();
    open(&mut store);
    let mut ctx = context(120);
    ctx.paused = true;
    assert_eq!(reason(approve_milestone(&store, &ctx, 0, 0, account(5))), Abort::Paused);
    assert_eq!(reason(claim_milestone(&store, &ctx, 0, 0, account(2))), Abort::Paused);
    ctx.paused = false;
    let halt = approve_milestone(&store, &ctx, 9, 0, account(5)).err().unwrap();
    assert_eq!(shown(&halt.trace.actions), shown(&vec![Action::RequireAuth(account(5))]));
    let halt = claim_milestone(&store, &ctx, 0, 9, account(2)).err().unwrap();
    assert_eq!(
        shown(&halt.trace.actions),
        shown(&vec![
            Action::RequireAuth(account(2)),
            Action::Bump(DataKey::EscrowRecipient(0)),
        ])
    );
}

#[test]
fn batches_leave_milestone_escrows_alone() {
    let mut store = Store::new();
    open(&mut store);
    let env = soroban_sdk::Env::default();
    for step in 0..3 {
        if step == 1 {
            approve(&mut store, 0);
        }
        if step == 2 {
            claim(&mut store, 0);
        }
        let before = format!("{:?}", get_escrow(&store, 0).value);
        let reply = batch_claim_escrow(&env, &store, &context(500), &vec![0], 0, 1).unwrap();
        assert_eq!(reply.value.results, vec![BatchClaimResult::Skipped(0)]);
        assert_eq!(
            shown(&reply.trace.actions),
            shown(&vec![
                Action::Bump(DataKey::EscrowRecipient(0)),
                Action::Publish(Event::BatchClaimed { start: 0, end: 1, total: 0 }),
            ])
        );
        perform(&mut store, Ok(reply));
        let outcome = batch_cancel_escrow(&env, &store, &context(120), &vec![0], 0, 1);
        let cursor = perform(&mut store, outcome);
        assert_eq!(cursor.results, vec![BatchClaimResult::Skipped(0)]);
        assert_eq!(format!("{:?}", get_escrow(&store, 0).value), before);
    }
}
