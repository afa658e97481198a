use erc20x::{AccountId, Event, ERC20x};

fn id(byte: u8) -> AccountId {
    AccountId::from([byte; 32])
}

fn sum_of(ledger: &ERC20x, accounts: &[AccountId]) -> u128 {
    accounts.iter().map(|a| ledger.balance_of(*a)).sum()
}

#[test]
fn creation_assigns_whole_supply_to_creator() {
    let a = id(0xa);
    let ledger = ERC20x::new(a, 500);
    assert_eq!(ledger.total_supply(), 500);
    assert_eq!(ledger.balance_of(a), 500);
    assert_eq!(ledger.balance_of(id(0xb)), 0);
    assert_eq!(ledger.allowance(a, id(0xb)), 0);
    assert_eq!(
        ledger.events().clone(),
        vec![Event::Transfer { from: None, to: Some(a), operator: Some(a), value: 500 }]
    );
}

#[test]
fn creation_with_zero_supply() {
    let a = id(0xa);
    let mut ledger = ERC20x::new(a, 0);
    assert_eq!(ledger.total_supply(), 0);
    assert_eq!(ledger.balance_of(a), 0);
    assert!(ledger.transfer(a, id(0xb), 0));
    assert!(!ledger.transfer(a, id(0xb), 1));
    assert_eq!(ledger.balance_of(id(0xb)), 0);
}

#[test]
fn creation_with_largest_supply() {
    let a = id(0xa);
    let b = id(0xb);
    let mut ledger = ERC20x::new(a, u128::MAX);
    assert!(ledger.transfer(a, b, u128::MAX - 1));
    assert!(ledger.transfer(b, a, 5));
    assert_eq!(ledger.balance_of(a), 6);
    assert_eq!(ledger.balance_of(b), u128::MAX - 6);
    assert_eq!(sum_of(&ledger, &[a, b]), u128::MAX);
}

#[test]
fn transfer_then_oversized_transfer() {
    let a = id(0xa);
    let b = id(0xb);
    let mut ledger = ERC20x::new(a, 100);
    assert!(ledger.transfer(a, b, 10));
    assert_eq!(ledger.balance_of(a), 90);
    assert_eq!(ledger.balance_of(b), 10);
    assert!(!ledger.transfer(a, b, 100));
    assert_eq!(ledger.balance_of(a), 90);
    assert_eq!(ledger.balance_of(b), 10);
    assert_eq!(ledger.total_supply(), 100);
}

#[test]
fn approve_then_delegated_transfer() {
    let a = id(0xa);
    let b = id(0xb);
    let c = id(0xc);
    let mut ledger = ERC20x::new(a, 100);
    assert!(ledger.approve(a, b, 0, 20));
    assert_eq!(ledger.allowance(a, b), 20);
    assert!(ledger.transfer_from(b, a, c, 10));
    assert_eq!(ledger.balance_of(c), 10);
    assert_eq!(ledger.balance_of(a), 90);
    assert_eq!(ledger.allowance(a, b), 10);
}

#[test]
fn balances_always_sum_to_supply() {
    let (a, b, c) = (id(1), id(2), id(3));
    let all = [a, b, c];
    let mut ledger = ERC20x::new(a, 1000);
    assert_eq!(sum_of(&ledger, &all), 1000);
    assert!(ledger.transfer(a, b, 300));
    assert_eq!(sum_of(&ledger, &all), 1000);
    assert!(ledger.approve(b, c, 0, 250));
    assert!(ledger.transfer_from(c, b, c, 200));
    assert_eq!(sum_of(&ledger, &all), 1000);
    assert!(!ledger.transfer(c, a, 201));
    assert!(!ledger.transfer_from(c, b, a, 51));
    assert_eq!(sum_of(&ledger, &all), 1000);
    assert_eq!(ledger.balance_of(a), 700);
    assert_eq!(ledger.balance_of(b), 100);
    assert_eq!(ledger.balance_of(c), 200);
}

#[test]
fn transfer_moves_exact_amount() {
    let (a, b) = (id(1), id(2));
    let mut ledger = ERC20x::new(a, 50);
    assert!(ledger.transfer(a, b, 17));
    assert_eq!(ledger.balance_of(a), 33);
    assert_eq!(ledger.balance_of(b), 17);
    assert_eq!(ledger.total_supply(), 50);
    assert_eq!(
        ledger.events()[1],
        Event::Transfer { from: Some(a), to: Some(b), operator: Some(a), value: 17 }
    );
}

#[test]
fn transfer_of_whole_balance() {
    let (a, b) = (id(1), id(2));
    let mut ledger = ERC20x::new(a, 50);
    assert!(ledger.transfer(a, b, 50));
    assert_eq!(ledger.balance_of(a), 0);
    assert_eq!(ledger.balance_of(b), 50);
}

#[test]
fn transfer_to_self_keeps_balance() {
    let a = id(1);
    let mut ledger = ERC20x::new(a, 50);
    assert!(ledger.transfer(a, a, 20));
    assert_eq!(ledger.balance_of(a), 50);
    assert!(!ledger.transfer(a, a, 51));
    assert_eq!(ledger.events().len(), 2);
}

#[test]
fn insufficient_transfer_changes_nothing() {
    let (a, b, c) = (id(1), id(2), id(3));
    let mut ledger = ERC20x::new(a, 40);
    assert!(ledger.transfer(a, b, 15));
    let before = ledger.events().len();
    assert!(!ledger.transfer(b, c, 16));
    assert_eq!(ledger.balance_of(a), 25);
    assert_eq!(ledger.balance_of(b), 15);
    assert_eq!(ledger.balance_of(c), 0);
    assert_eq!(ledger.events().len(), before);
}

#[test]
fn zero_transfer_from_unknown_account() {
    let (a, b, c) = (id(1), id(2), id(3));
    let mut ledger = ERC20x::new(a, 40);
    assert!(ledger.transfer(b, c, 0));
    assert_eq!(ledger.balance_of(b), 0);
    assert_eq!(ledger.balance_of(c), 0);
    assert_eq!(ledger.balance_of(a), 40);
}

#[test]
fn approve_with_stale_value_is_refused() {
    let (a, b) = (id(1), id(2));
    let mut ledger = ERC20x::new(a, 100);
    assert!(!ledger.approve(a, b, 5, 20));
    assert_eq!(ledger.allowance(a, b), 0);
    assert!(ledger.approve(a, b, 0, 20));
    assert!(!ledger.approve(a, b, 0, 30));
    assert_eq!(ledger.allowance(a, b), 20);
    assert!(ledger.approve(a, b, 20, 30));
    assert_eq!(ledger.allowance(a, b), 30);
    assert_eq!(ledger.allowance(b, a), 0);
    assert_eq!(ledger.events().len(), 3);
    assert_eq!(
        ledger.events()[2],
        Event::Approval { owner: Some(a), spender: Some(b), old_value: 20, value: 30 }
    );
}

#[test]
fn approve_to_zero() {
    let (a, b) = (id(1), id(2));
    let mut ledger = ERC20x::new(a, 100);
    assert!(ledger.approve(a, b, 0, 20));
    assert!(ledger.approve(a, b, 20, 0));
    assert_eq!(ledger.allowance(a, b), 0);
    assert!(!ledger.transfer_from(b, a, b, 1));
}

#[test]
fn delegated_transfer_beyond_allowance_is_refused() {
    let (a, b, c) = (id(1), id(2), id(3));
    let mut ledger = ERC20x::new(a, 100);
    assert!(ledger.approve(a, b, 0, 10));
    let before = ledger.events().len();
    assert!(!ledger.transfer_from(b, a, c, 11));
    assert_eq!(ledger.allowance(a, b), 10);
    assert_eq!(ledger.balance_of(a), 100);
    assert_eq!(ledger.balance_of(c), 0);
    assert_eq!(ledger.events().len(), before);
}

#[test]
fn delegated_transfer_beyond_balance_keeps_allowance() {
    let (a, b, c) = (id(1), id(2), id(3));
    let mut ledger = ERC20x::new(a, 100);
    assert!(ledger.transfer(a, c, 95));
    assert!(ledger.approve(a, b, 0, 50));
    assert!(!ledger.transfer_from(b, a, c, 6));
    assert_eq!(ledger.allowance(a, b), 50);
    assert_eq!(ledger.balance_of(a), 5);
    assert!(ledger.transfer_from(b, a, c, 5));
    assert_eq!(ledger.allowance(a, b), 45);
    assert_eq!(ledger.balance_of(a), 0);
    assert_eq!(ledger.balance_of(c), 100);
}

#[test]
fn delegated_transfer_uses_spender_allowance_only() {
    let (a, b, c) = (id(1), id(2), id(3));
    let mut ledger = ERC20x::new(a, 100);
    assert!(ledger.approve(a, b, 0, 30));
    assert!(!ledger.transfer_from(c, a, c, 1));
    assert!(ledger.transfer_from(b, a, b, 30));
    assert_eq!(ledger.allowance(a, b), 0);
    assert_eq!(ledger.balance_of(b), 30);
    assert_eq!(
        ledger.events()[2],
        Event::Transfer { from: Some(a), to: Some(b), operator: Some(a), value: 30 }
    );
}

#[test]
fn take_events_drains_the_log() {
    let (a, b) = (id(1), id(2));
    let mut ledger = ERC20x::new(a, 10);
    assert!(ledger.transfer(a, b, 4));
    let taken = ledger.take_events();
    assert_eq!(taken.len(), 2);
    assert_eq!(taken[1], Event::Transfer { from: Some(a), to: Some(b), operator: Some(a), value: 4 });
    assert!(ledger.events().is_empty());
    assert_eq!(ledger.balance_of(a), 6);
    assert_eq!(ledger.balance_of(b), 4);
    assert_eq!(ledger.total_supply(), 10);
}

#[test]
fn account_ids_compare_by_bytes() {
    let mut bytes = [7u8; 32];
    assert!(AccountId::from(bytes) == AccountId::new(bytes));
    bytes[31] = 8;
    assert!(AccountId::from(bytes) != id(7));
    assert_eq!(AccountId::from(bytes).bytes[31], 8);
}
