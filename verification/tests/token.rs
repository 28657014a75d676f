use trusttrove::ledger::Address;
use trusttrove::token::{MockToken, TokenError};

fn account(n: u8) -> Address {
    let mut xdr = vec![0u8, 0, 0, 18, 0, 0, 0, 0, 0, 0, 0, 0];
    xdr.extend([n; 32]);
    Address::from_xdr(xdr)
}

#[test]
fn missing_balance_reads_as_zero() {
    let token = MockToken::new();
    assert_eq!(token.balance(&account(1)), 0);
}

#[test]
fn transfer_moves_the_amount_and_conserves_the_sum() {
    let mut token = MockToken::new();
    let (a, b) = (account(1), account(2));
    token.set_balance(&a, 1_000);
    token.transfer(&a, &b, 400).unwrap();
    assert_eq!(token.balance(&a), 600);
    assert_eq!(token.balance(&b), 400);
    assert_eq!(token.balance(&a) + token.balance(&b), 1_000);
}

#[test]
fn transfer_beyond_the_senders_balance_is_refused_and_changes_nothing() {
    let mut token = MockToken::new();
    let (a, b) = (account(1), account(2));
    token.set_balance(&a, 49);
    assert_eq!(token.transfer(&a, &b, 50), Err(TokenError::InsufficientBalance));
    assert_eq!(token.balance(&a), 49);
    assert_eq!(token.balance(&b), 0);
    assert_eq!(token.check_transfer(&a, &b, 50), Err(TokenError::InsufficientBalance));
    assert_eq!(token.check_transfer(&a, &b, 49), Ok(()));
}

#[test]
fn transfer_of_a_negative_amount_is_refused() {
    let mut token = MockToken::new();
    let (a, b) = (account(1), account(2));
    token.set_balance(&b, 10);
    assert_eq!(token.transfer(&a, &b, -5), Err(TokenError::NegativeAmount));
    assert_eq!(token.balance(&a), 0);
    assert_eq!(token.balance(&b), 10);
}

#[test]
fn transfer_to_oneself_leaves_the_balance() {
    let mut token = MockToken::new();
    let a = account(1);
    token.set_balance(&a, 70);
    token.transfer(&a, &a, 30).unwrap();
    assert_eq!(token.balance(&a), 70);
    assert_eq!(token.transfer(&a, &a, 71), Err(TokenError::InsufficientBalance));
}

#[test]
fn transfer_that_overflows_is_refused_and_changes_nothing() {
    let mut token = MockToken::new();
    let (a, b) = (account(1), account(2));
    token.set_balance(&a, 1);
    token.set_balance(&b, i128::MAX);
    assert_eq!(token.transfer(&a, &b, 1), Err(TokenError::Overflow));
    assert_eq!(token.balance(&a), 1);
    assert_eq!(token.balance(&b), i128::MAX);
    assert_eq!(token.check_transfer(&a, &b, 1), Err(TokenError::Overflow));
    assert_eq!(token.check_transfer(&b, &a, 1), Ok(()));
}
