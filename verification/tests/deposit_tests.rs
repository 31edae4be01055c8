//! The inbound-transfer router and the deposit log.

use airdrop::errors::ErrorKind;
use airdrop::registry::TokenMetadata;
use airdrop::Airdrop;

fn register(a: &mut Airdrop, address: &str) {
    assert_eq!(a.add_token(address.to_string()), Ok(()));
    let m = TokenMetadata::new("Token".to_string(), "TOK".to_string(), 18);
    assert_eq!(a.resolve_add_token(address.to_string(), Some(m)), Ok(()));
}

fn deposit(a: &mut Airdrop, sender: &str, token: &str, amount: u128) -> Result<u128, ErrorKind> {
    a.ft_on_transfer(
        sender.to_string(),
        token.to_string(),
        "airdrop.near".to_string(),
        amount,
        String::new(),
    )
}

#[test]
fn empty_message_is_fully_consumed_and_appends_one_record() {
    let mut a = Airdrop::new();
    register(&mut a, "tok.near");
    assert_eq!(a.ledger.len(), 0);
    assert_eq!(deposit(&mut a, "alice.near", "tok.near", 250), Ok(0));
    assert_eq!(a.ledger.len(), 1);
    let rec = a.ledger.record_at(0);
    assert_eq!(rec.creator, "alice.near");
    assert_eq!(rec.receiver, "airdrop.near");
    assert_eq!(rec.token, "tok.near");
    assert_eq!(rec.amount, 250);
}

#[test]
fn non_empty_message_is_rejected_with_no_record() {
    let mut a = Airdrop::new();
    register(&mut a, "tok.near");
    let r = a.ft_on_transfer(
        "alice.near".to_string(),
        "tok.near".to_string(),
        "airdrop.near".to_string(),
        250,
        "{\"execute\":[]}".to_string(),
    );
    assert_eq!(r, Err(ErrorKind::FeatureDisabled));
    assert_eq!(a.ledger.records.len(), 0);
}

#[test]
fn unregistered_token_deposit_is_rejected() {
    let mut a = Airdrop::new();
    assert_eq!(
        deposit(&mut a, "alice.near", "tok.near", 250),
        Err(ErrorKind::UnregisteredToken)
    );
    assert_eq!(a.ledger.records.len(), 0);
}

#[test]
fn each_confirmed_transfer_gets_exactly_one_record() {
    let mut a = Airdrop::new();
    register(&mut a, "tok.near");
    assert_eq!(deposit(&mut a, "alice.near", "tok.near", 10), Ok(0));
    assert_eq!(deposit(&mut a, "alice.near", "tok.near", 10), Ok(0));
    assert_eq!(deposit(&mut a, "bob.near", "tok.near", 7), Ok(0));
    assert_eq!(a.ledger.records.len(), 3);
    let alice_sum: u128 = a
        .ledger
        .records
        .iter()
        .filter(|r| r.creator == "alice.near" && r.token == "tok.near")
        .map(|r| r.amount)
        .sum();
    assert_eq!(alice_sum, 20);
}

#[test]
fn custody_overflow_is_rejected_without_a_record() {
    let mut a = Airdrop::new();
    register(&mut a, "tok.near");
    assert_eq!(deposit(&mut a, "alice.near", "tok.near", u128::MAX), Ok(0));
    assert_eq!(
        deposit(&mut a, "alice.near", "tok.near", 1),
        Err(ErrorKind::Overflow)
    );
    assert_eq!(a.ledger.records.len(), 1);
}
