//! Token registration: the two-phase protocol, duplicates, retries, and
//! the listing.

use airdrop::errors::ErrorKind;
use airdrop::registry::TokenMetadata;
use airdrop::Airdrop;

fn meta(name: &str, symbol: &str, decimals: u8) -> TokenMetadata {
    TokenMetadata::new(name.to_string(), symbol.to_string(), decimals)
}

/// Registers `address` end to end: initiate, then confirm with metadata.
fn register(a: &mut Airdrop, address: &str, name: &str, symbol: &str, decimals: u8) {
    assert_eq!(a.add_token(address.to_string()), Ok(()));
    assert_eq!(
        a.resolve_add_token(address.to_string(), Some(meta(name, symbol, decimals))),
        Ok(())
    );
}

#[test]
fn register_then_list() {
    let mut a = Airdrop::new();
    register(&mut a, "usdt.near", "Tether", "USDT", 6);
    let list = a.get_token_list();
    assert_eq!(list.len(), 1);
    assert_eq!(list[0].name, "Tether");
    assert_eq!(list[0].symbol, "USDT");
    assert_eq!(list[0].decimals, 6);
}

#[test]
fn duplicate_registration_fails_second_time() {
    let mut a = Airdrop::new();
    register(&mut a, "tok.near", "Token", "TOK", 18);
    assert_eq!(
        a.add_token("tok.near".to_string()),
        Err(ErrorKind::DuplicateToken)
    );
    assert_eq!(
        a.resolve_add_token("tok.near".to_string(), Some(meta("Token", "TOK", 18))),
        Err(ErrorKind::DuplicateToken)
    );
    assert_eq!(a.get_token_list().len(), 1);
}

#[test]
fn list_matches_registrations_in_order() {
    let mut a = Airdrop::new();
    register(&mut a, "a.near", "Alpha", "A", 1);
    register(&mut a, "b.near", "Beta", "B", 2);
    register(&mut a, "c.near", "Gamma", "C", 3);
    let list = a.get_token_list();
    assert_eq!(list.len(), 3);
    assert_eq!(list[0].name, "Alpha");
    assert_eq!(list[1].name, "Beta");
    assert_eq!(list[2].name, "Gamma");
    assert_eq!(list[0].decimals, 1);
    assert_eq!(list[1].decimals, 2);
    assert_eq!(list[2].decimals, 3);
}

#[test]
fn metadata_fetch_failure_allows_retry() {
    let mut a = Airdrop::new();
    assert_eq!(a.add_token("tok.near".to_string()), Ok(()));
    assert_eq!(
        a.resolve_add_token("tok.near".to_string(), None),
        Err(ErrorKind::MetadataFetchFailed)
    );
    assert_eq!(a.get_token_list().len(), 0);
    register(&mut a, "tok.near", "Token", "TOK", 18);
    assert_eq!(a.get_token_list().len(), 1);
}

#[test]
fn stuck_registration_can_be_retried() {
    let mut a = Airdrop::new();
    assert_eq!(a.add_token("tok.near".to_string()), Ok(()));
    assert_eq!(a.add_token("tok.near".to_string()), Ok(()));
    assert_eq!(
        a.resolve_add_token("tok.near".to_string(), Some(meta("Token", "TOK", 18))),
        Ok(())
    );
    assert_eq!(a.get_token_list().len(), 1);
}

#[test]
fn confirmation_without_initiation_registers_nothing() {
    let mut a = Airdrop::new();
    assert_eq!(
        a.resolve_add_token("tok.near".to_string(), Some(meta("Token", "TOK", 18))),
        Err(ErrorKind::MetadataFetchFailed)
    );
    assert_eq!(a.get_token_list().len(), 0);
}
