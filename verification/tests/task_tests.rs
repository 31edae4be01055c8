//! Task creation, funding, claims, exhaustion, and rollback.

use airdrop::errors::ErrorKind;
use airdrop::registry::TokenMetadata;
use airdrop::tasks::{TaskRef, TaskState};
use airdrop::Airdrop;

fn register(a: &mut Airdrop, address: &str) {
    assert_eq!(a.add_token(address.to_string()), Ok(()));
    let m = TokenMetadata::new("Token".to_string(), "TOK".to_string(), 18);
    assert_eq!(a.resolve_add_token(address.to_string(), Some(m)), Ok(()));
}

fn deposit(a: &mut Airdrop, sender: &str, token: &str, amount: u128) {
    let r = a.ft_on_transfer(
        sender.to_string(),
        token.to_string(),
        "airdrop.near".to_string(),
        amount,
        String::new(),
    );
    assert_eq!(r, Ok(0));
}

fn state(a: &Airdrop, tref: &TaskRef) -> TaskState {
    a.tasks.task_state(&tref.creator, tref.index).unwrap()
}

fn claimed(a: &Airdrop, tref: &TaskRef) -> u32 {
    a.tasks.claimed_count(&tref.creator, tref.index).unwrap()
}

#[test]
fn create_task_requires_registered_token() {
    let mut a = Airdrop::new();
    assert_eq!(
        a.add_task("funder.near".to_string(), 10, 100, "tok.near".to_string(), 1)
            .unwrap_err(),
        ErrorKind::UnregisteredToken
    );
}

#[test]
fn create_task_overflow_never_wraps() {
    let mut a = Airdrop::new();
    register(&mut a, "tok.near");
    assert_eq!(
        a.add_task(
            "funder.near".to_string(),
            u32::MAX,
            u128::MAX - 1,
            "tok.near".to_string(),
            1,
        )
        .unwrap_err(),
        ErrorKind::Overflow
    );
}

#[test]
fn create_task_requires_storage_deposit() {
    let mut a = Airdrop::new();
    register(&mut a, "tok.near");
    assert_eq!(
        a.add_task("funder.near".to_string(), 10, 100, "tok.near".to_string(), 0)
            .unwrap_err(),
        ErrorKind::InsufficientDeposit
    );
}

#[test]
fn task_indices_are_sequential_per_creator() {
    let mut a = Airdrop::new();
    register(&mut a, "tok.near");
    let t0 = a
        .add_task("funder.near".to_string(), 1, 1, "tok.near".to_string(), 1)
        .unwrap();
    let t1 = a
        .add_task("funder.near".to_string(), 1, 1, "tok.near".to_string(), 1)
        .unwrap();
    let other = a
        .add_task("other.near".to_string(), 1, 1, "tok.near".to_string(), 1)
        .unwrap();
    assert_eq!(t0.index, 0);
    assert_eq!(t1.index, 1);
    assert_eq!(other.index, 0);
}

#[test]
fn end_to_end_fund_claim_exhaust() {
    let mut a = Airdrop::new();
    register(&mut a, "t.near");
    let tref = a
        .add_task("funder.near".to_string(), 10, 100, "t.near".to_string(), 1)
        .unwrap();
    assert_eq!(state(&a, &tref), TaskState::Pending);
    deposit(&mut a, "funder.near", "t.near", 1000);
    assert_eq!(state(&a, &tref), TaskState::Active);
    assert_eq!(a.claim(&tref, "acct0.near".to_string()), Ok(()));
    assert_eq!(claimed(&a, &tref), 1);
    assert_eq!(
        a.claim(&tref, "acct0.near".to_string()),
        Err(ErrorKind::AlreadyClaimed)
    );
    for i in 1..10u32 {
        let account = format!("acct{}.near", i);
        assert_eq!(a.claim(&tref, account), Ok(()));
    }
    assert_eq!(claimed(&a, &tref), 10);
    assert_eq!(state(&a, &tref), TaskState::Exhausted);
    assert_eq!(
        a.claim(&tref, "late.near".to_string()),
        Err(ErrorKind::TaskExhausted)
    );
}

#[test]
fn pending_task_is_not_claimable_and_partial_funding_keeps_it_pending() {
    let mut a = Airdrop::new();
    register(&mut a, "t.near");
    let tref = a
        .add_task("funder.near".to_string(), 10, 100, "t.near".to_string(), 1)
        .unwrap();
    assert_eq!(
        a.claim(&tref, "acct.near".to_string()),
        Err(ErrorKind::UnknownTask)
    );
    deposit(&mut a, "funder.near", "t.near", 500);
    assert_eq!(state(&a, &tref), TaskState::Pending);
    deposit(&mut a, "funder.near", "t.near", 500);
    assert_eq!(state(&a, &tref), TaskState::Active);
}

#[test]
fn prefunded_task_opens_active() {
    let mut a = Airdrop::new();
    register(&mut a, "t.near");
    deposit(&mut a, "funder.near", "t.near", 1000);
    let tref = a
        .add_task("funder.near".to_string(), 10, 100, "t.near".to_string(), 1)
        .unwrap();
    assert_eq!(state(&a, &tref), TaskState::Active);
}

#[test]
fn funding_activates_tasks_in_creation_order() {
    let mut a = Airdrop::new();
    register(&mut a, "t.near");
    let first = a
        .add_task("funder.near".to_string(), 5, 100, "t.near".to_string(), 1)
        .unwrap();
    let second = a
        .add_task("funder.near".to_string(), 5, 100, "t.near".to_string(), 1)
        .unwrap();
    deposit(&mut a, "funder.near", "t.near", 600);
    assert_eq!(state(&a, &first), TaskState::Active);
    assert_eq!(state(&a, &second), TaskState::Pending);
    deposit(&mut a, "funder.near", "t.near", 400);
    assert_eq!(state(&a, &second), TaskState::Active);
}

#[test]
fn claim_on_unknown_task_fails() {
    let mut a = Airdrop::new();
    let tref = TaskRef {
        creator: "funder.near".to_string(),
        index: 0,
    };
    assert_eq!(
        a.claim(&tref, "acct.near".to_string()),
        Err(ErrorKind::UnknownTask)
    );
}

#[test]
fn failed_transfer_rolls_back_the_claim() {
    let mut a = Airdrop::new();
    register(&mut a, "t.near");
    deposit(&mut a, "funder.near", "t.near", 1000);
    let tref = a
        .add_task("funder.near".to_string(), 10, 100, "t.near".to_string(), 1)
        .unwrap();
    let before = claimed(&a, &tref);
    assert_eq!(a.claim(&tref, "b.near".to_string()), Ok(()));
    assert_eq!(claimed(&a, &tref), before + 1);
    a.resolve_transfer(&tref, &"b.near".to_string(), false);
    assert_eq!(claimed(&a, &tref), before);
    assert_eq!(a.claim(&tref, "b.near".to_string()), Ok(()));
    assert_eq!(claimed(&a, &tref), before + 1);
}

#[test]
fn successful_transfer_keeps_the_claim() {
    let mut a = Airdrop::new();
    register(&mut a, "t.near");
    deposit(&mut a, "funder.near", "t.near", 1000);
    let tref = a
        .add_task("funder.near".to_string(), 10, 100, "t.near".to_string(), 1)
        .unwrap();
    assert_eq!(a.claim(&tref, "b.near".to_string()), Ok(()));
    a.resolve_transfer(&tref, &"b.near".to_string(), true);
    assert_eq!(claimed(&a, &tref), 1);
    assert_eq!(
        a.claim(&tref, "b.near".to_string()),
        Err(ErrorKind::AlreadyClaimed)
    );
}

#[test]
fn duplicate_failure_confirmation_rolls_back_only_once() {
    let mut a = Airdrop::new();
    register(&mut a, "t.near");
    deposit(&mut a, "funder.near", "t.near", 1000);
    let tref = a
        .add_task("funder.near".to_string(), 10, 100, "t.near".to_string(), 1)
        .unwrap();
    assert_eq!(a.claim(&tref, "b.near".to_string()), Ok(()));
    a.resolve_transfer(&tref, &"b.near".to_string(), false);
    assert_eq!(claimed(&a, &tref), 0);
    assert_eq!(a.claim(&tref, "c.near".to_string()), Ok(()));
    a.resolve_transfer(&tref, &"b.near".to_string(), false);
    assert_eq!(claimed(&a, &tref), 1);
    assert_eq!(
        a.claim(&tref, "c.near".to_string()),
        Err(ErrorKind::AlreadyClaimed)
    );
}

#[test]
fn rollback_reopens_an_exhausted_task() {
    let mut a = Airdrop::new();
    register(&mut a, "t.near");
    deposit(&mut a, "funder.near", "t.near", 200);
    let tref = a
        .add_task("funder.near".to_string(), 2, 100, "t.near".to_string(), 1)
        .unwrap();
    assert_eq!(a.claim(&tref, "x.near".to_string()), Ok(()));
    assert_eq!(a.claim(&tref, "y.near".to_string()), Ok(()));
    assert_eq!(state(&a, &tref), TaskState::Exhausted);
    a.resolve_transfer(&tref, &"y.near".to_string(), false);
    assert_eq!(state(&a, &tref), TaskState::Active);
    assert_eq!(a.claim(&tref, "z.near".to_string()), Ok(()));
    assert_eq!(state(&a, &tref), TaskState::Exhausted);
}

#[test]
fn custody_is_debited_once_per_activation() {
    let mut a = Airdrop::new();
    register(&mut a, "t.near");
    deposit(&mut a, "funder.near", "t.near", 1000);
    let _ = a
        .add_task("funder.near".to_string(), 10, 100, "t.near".to_string(), 1)
        .unwrap();
    assert_eq!(
        a.tasks
            .available(&"funder.near".to_string(), &"t.near".to_string()),
        0
    );
    let second = a
        .add_task("funder.near".to_string(), 10, 100, "t.near".to_string(), 1)
        .unwrap();
    assert_eq!(state(&a, &second), TaskState::Pending);
}
