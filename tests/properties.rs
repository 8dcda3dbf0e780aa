use erc20::{AccountId, Approval, Erc20, Error, Event, Transfer};

fn acct(b: u8) -> AccountId {
    AccountId::from([b; 32])
}

fn held(l: &Erc20, accounts: &[AccountId]) -> u128 {
    accounts.iter().map(|a| l.balance_of(*a)).sum()
}

#[test]
fn supply_is_conserved_across_operations() {
    let (a, b, c) = (acct(1), acct(2), acct(3));
    let all = [a, b, c];
    let mut l = Erc20::new(a, 1_000);
    assert_eq!(held(&l, &all), 1_000);
    assert_eq!(l.transfer(a, b, 300), Ok(()));
    assert_eq!(held(&l, &all), 1_000);
    assert_eq!(l.transfer(b, c, 301), Err(Error::InsufficientBalance));
    assert_eq!(held(&l, &all), 1_000);
    assert_eq!(l.approve(b, c, 500), Ok(()));
    assert_eq!(l.transfer_from(c, b, a, 120), Ok(()));
    assert_eq!(held(&l, &all), 1_000);
    assert_eq!(l.transfer(c, c, 0), Ok(()));
    assert_eq!(l.transfer(a, a, 820), Ok(()));
    assert_eq!(l.balance_of(a), 820);
    assert_eq!(held(&l, &all), 1_000);
    assert_eq!(l.total_supply(), 1_000);
}

#[test]
fn new_credits_only_the_maker() {
    let l = Erc20::new(acct(7), 42);
    assert_eq!(l.total_supply(), 42);
    assert_eq!(l.balance_of(acct(7)), 42);
    assert_eq!(l.balance_of(acct(8)), 0);
    assert_eq!(l.allowance(acct(7), acct(8)), 0);
}

#[test]
fn new_with_zero_supply() {
    let mut l = Erc20::new(acct(1), 0);
    assert_eq!(l.total_supply(), 0);
    assert_eq!(l.balance_of(acct(1)), 0);
    assert_eq!(l.transfer(acct(1), acct(2), 0), Ok(()));
    assert_eq!(l.transfer(acct(1), acct(2), 1), Err(Error::InsufficientBalance));
}

#[test]
fn transfer_of_whole_balance_empties_source() {
    let mut l = Erc20::new(acct(1), 100);
    assert_eq!(l.transfer(acct(1), acct(2), 40), Ok(()));
    assert_eq!(l.transfer(acct(2), acct(3), 40), Ok(()));
    assert_eq!(l.balance_of(acct(2)), 0);
    assert_eq!(l.balance_of(acct(3)), 40);
}

#[test]
fn transfer_beyond_balance_changes_nothing() {
    let mut l = Erc20::new(acct(1), 100);
    assert_eq!(l.transfer(acct(1), acct(2), 30), Ok(()));
    let _ = l.take_events();
    assert_eq!(l.transfer(acct(2), acct(1), 31), Err(Error::InsufficientBalance));
    assert_eq!(l.balance_of(acct(1)), 70);
    assert_eq!(l.balance_of(acct(2)), 30);
    assert!(l.take_events().is_empty());
}

#[test]
fn approve_overwrites_earlier_grant() {
    let mut l = Erc20::new(acct(1), 10);
    assert_eq!(l.approve(acct(1), acct(2), 500), Ok(()));
    assert_eq!(l.allowance(acct(1), acct(2)), 500);
    assert_eq!(l.approve(acct(1), acct(2), 3), Ok(()));
    assert_eq!(l.allowance(acct(1), acct(2)), 3);
    assert_eq!(l.allowance(acct(2), acct(1)), 0);
    assert_eq!(l.balance_of(acct(1)), 10);
}

#[test]
fn transfer_from_beyond_allowance_changes_nothing() {
    let mut l = Erc20::new(acct(1), 100);
    assert_eq!(l.approve(acct(1), acct(2), 5), Ok(()));
    assert_eq!(l.transfer_from(acct(2), acct(1), acct(3), 6), Err(Error::InsufficientAllowance));
    assert_eq!(l.balance_of(acct(1)), 100);
    assert_eq!(l.balance_of(acct(3)), 0);
    assert_eq!(l.allowance(acct(1), acct(2)), 5);
}

#[test]
fn transfer_from_reports_allowance_before_balance() {
    let mut l = Erc20::new(acct(1), 10);
    assert_eq!(l.approve(acct(1), acct(2), 5), Ok(()));
    assert_eq!(l.transfer_from(acct(2), acct(1), acct(3), 50), Err(Error::InsufficientAllowance));
}

#[test]
fn transfer_from_beyond_balance_keeps_allowance() {
    let mut l = Erc20::new(acct(1), 10);
    assert_eq!(l.approve(acct(1), acct(2), 50), Ok(()));
    assert_eq!(l.transfer_from(acct(2), acct(1), acct(3), 11), Err(Error::InsufficientBalance));
    assert_eq!(l.allowance(acct(1), acct(2)), 50);
    assert_eq!(l.balance_of(acct(1)), 10);
    assert_eq!(l.balance_of(acct(3)), 0);
}

#[test]
fn transfer_from_spends_allowance_like_transfer() {
    let mut spent = Erc20::new(acct(1), 100);
    let mut direct = Erc20::new(acct(1), 100);
    assert_eq!(spent.approve(acct(1), acct(2), 70), Ok(()));
    assert_eq!(spent.transfer_from(acct(2), acct(1), acct(3), 25), Ok(()));
    assert_eq!(direct.transfer(acct(1), acct(3), 25), Ok(()));
    assert_eq!(spent.allowance(acct(1), acct(2)), 45);
    for b in 0..5u8 {
        assert_eq!(spent.balance_of(acct(b)), direct.balance_of(acct(b)));
    }
}

#[test]
fn end_to_end_allowance_scenario() {
    let (a, b, c) = (acct(0xa), acct(0xb), acct(0xc));
    let mut l = Erc20::new(a, 100);
    assert_eq!(l.approve(a, b, 200), Ok(()));
    assert_eq!(l.transfer_from(b, a, c, 50), Ok(()));
    assert_eq!(l.balance_of(c), 50);
    assert_eq!(l.allowance(a, b), 150);
    assert_eq!(l.transfer_from(b, a, c, 300), Err(Error::InsufficientAllowance));
    assert_eq!(l.balance_of(a), 50);
    assert_eq!(l.balance_of(c), 50);
    assert_eq!(l.allowance(a, b), 150);
    assert_eq!(l.transfer_from(b, a, c, 100), Err(Error::InsufficientBalance));
    assert_eq!(l.balance_of(a), 50);
    assert_eq!(l.balance_of(c), 50);
    assert_eq!(l.allowance(a, b), 150);
}

#[test]
fn events_record_transfers_and_approvals_in_order() {
    let (a, b) = (acct(1), acct(2));
    let mut l = Erc20::new(a, 10);
    assert!(l.take_events().is_empty());
    assert_eq!(l.approve(a, b, 4), Ok(()));
    assert_eq!(l.transfer(a, b, 3), Ok(()));
    assert_eq!(l.transfer(b, a, 9), Err(Error::InsufficientBalance));
    let ev = l.take_events();
    assert_eq!(
        ev,
        vec![
            Event::Approval(Approval { owner: a, spender: b, value: 4 }),
            Event::Transfer(Transfer { from: Some(a), to: Some(b), value: 3 }),
        ]
    );
    assert!(l.take_events().is_empty());
}

#[test]
fn transfer_to_self_keeps_balance() {
    let mut l = Erc20::new(acct(1), 100);
    assert_eq!(l.transfer(acct(1), acct(1), 60), Ok(()));
    assert_eq!(l.balance_of(acct(1)), 100);
}

#[test]
fn largest_supply_moves_without_overflow() {
    let mut l = Erc20::new(acct(1), u128::MAX);
    assert_eq!(l.transfer(acct(1), acct(2), u128::MAX - 1), Ok(()));
    assert_eq!(l.transfer(acct(1), acct(2), 1), Ok(()));
    assert_eq!(l.balance_of(acct(2)), u128::MAX);
    assert_eq!(l.balance_of(acct(1)), 0);
}

#[test]
fn account_equality_is_bytewise() {
    let mut x = [7u8; 32];
    assert_eq!(AccountId::from(x), AccountId::from([7u8; 32]));
    x[31] = 8;
    assert_ne!(AccountId::from(x), AccountId::from([7u8; 32]));
    assert!(!AccountId::from(x).same(&AccountId::from([7u8; 32])));
}
