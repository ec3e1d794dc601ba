use tashi_token::address::{same_address, Address, AddressType};
use tashi_token::address_map::AddressMap;
use tashi_token::operations::{approve, approve_relative, transfer, transfer_from};
use tashi_token::token::{initialize, ContractContext, TokenError, TokenState};

fn addr(b: u8) -> Address {
    Address { address_type: AddressType::Account, identifier: [b; 20] }
}

fn ctx(b: u8) -> ContractContext {
    ContractContext { sender: addr(b) }
}

fn genesis(supply: u128) -> TokenState {
    initialize(ctx(1), supply, String::from("Token"), String::from("TOK"), 18)
}

#[test]
fn genesis_credits_creator() {
    let s = genesis(1000);
    assert_eq!(s.balance_of(&addr(1)), 1000);
    assert_eq!(s.balance_of(&addr(2)), 0);
    assert_eq!(s.total_supply(), 1000);
    assert_eq!(s.name(), "Token");
    assert_eq!(s.symbol(), "TOK");
    assert_eq!(s.decimals(), 18);
    assert!(same_address(&s.owner(), &addr(1)));
    assert_eq!(s.allowance(&addr(1), &addr(2)), 0);
}

#[test]
fn genesis_with_zero_supply_has_no_entry() {
    let s = genesis(0);
    assert_eq!(s.balance_of(&addr(1)), 0);
    assert!(!s.has_balance_entry(&addr(1)));
}

#[test]
fn transfer_moves_funds() {
    let mut s = genesis(1000);
    assert_eq!(transfer(ctx(1), &mut s, addr(2), 300), Ok(()));
    assert_eq!(s.balance_of(&addr(1)), 700);
    assert_eq!(s.balance_of(&addr(2)), 300);
}

#[test]
fn transfer_of_everything_prunes_sender() {
    let mut s = genesis(1000);
    assert_eq!(transfer(ctx(1), &mut s, addr(2), 1000), Ok(()));
    assert_eq!(s.balance_of(&addr(1)), 0);
    assert!(!s.has_balance_entry(&addr(1)));
    assert_eq!(s.balance_of(&addr(2)), 1000);
}

#[test]
fn transfer_over_balance_is_rejected_and_changes_nothing() {
    let mut s = genesis(1000);
    assert_eq!(transfer(ctx(1), &mut s, addr(2), 1001), Err(TokenError::InsufficientBalance));
    assert_eq!(s.balance_of(&addr(1)), 1000);
    assert_eq!(s.balance_of(&addr(2)), 0);
    assert!(!s.has_balance_entry(&addr(2)));
}

#[test]
fn transfer_from_empty_account_is_rejected() {
    let mut s = genesis(1000);
    assert_eq!(transfer(ctx(3), &mut s, addr(2), 1), Err(TokenError::InsufficientBalance));
    assert_eq!(s.balance_of(&addr(1)), 1000);
}

#[test]
fn transfer_to_self_is_neutral() {
    let mut s = genesis(1000);
    assert_eq!(transfer(ctx(1), &mut s, addr(1), 400), Ok(()));
    assert_eq!(s.balance_of(&addr(1)), 1000);
    assert_eq!(transfer(ctx(1), &mut s, addr(1), 1000), Ok(()));
    assert_eq!(s.balance_of(&addr(1)), 1000);
}

#[test]
fn transfer_to_self_at_maximum_does_not_overflow() {
    let mut s = genesis(u128::MAX);
    assert_eq!(transfer(ctx(1), &mut s, addr(1), u128::MAX), Ok(()));
    assert_eq!(s.balance_of(&addr(1)), u128::MAX);
}

#[test]
fn approve_then_transfer_from_draws_only_the_allowance() {
    let mut s = genesis(1000);
    assert_eq!(approve(ctx(1), &mut s, addr(2), 500), Ok(()));
    assert_eq!(s.balance_of(&addr(1)), 500);
    assert_eq!(s.allowance(&addr(1), &addr(2)), 500);
    assert_eq!(transfer_from(ctx(2), &mut s, addr(1), addr(3), 200), Ok(()));
    assert_eq!(s.allowance(&addr(1), &addr(2)), 300);
    assert_eq!(s.balance_of(&addr(3)), 200);
    assert_eq!(s.balance_of(&addr(1)), 500);
}

#[test]
fn transfer_from_over_allowance_is_rejected() {
    let mut s = genesis(1000);
    assert_eq!(approve(ctx(1), &mut s, addr(2), 100), Ok(()));
    assert_eq!(
        transfer_from(ctx(2), &mut s, addr(1), addr(3), 101),
        Err(TokenError::InsufficientAllowance)
    );
    assert_eq!(s.allowance(&addr(1), &addr(2)), 100);
    assert_eq!(s.balance_of(&addr(3)), 0);
    assert_eq!(
        transfer_from(ctx(3), &mut s, addr(1), addr(3), 1),
        Err(TokenError::InsufficientAllowance)
    );
}

#[test]
fn approve_over_balance_is_rejected() {
    let mut s = genesis(1000);
    assert_eq!(approve(ctx(1), &mut s, addr(2), 1001), Err(TokenError::InsufficientBalance));
    assert_eq!(s.balance_of(&addr(1)), 1000);
    assert_eq!(s.allowance(&addr(1), &addr(2)), 0);
}

#[test]
fn approve_twice_overwrites() {
    let mut s = genesis(1000);
    assert_eq!(approve(ctx(1), &mut s, addr(2), 300), Ok(()));
    assert_eq!(approve(ctx(1), &mut s, addr(2), 100), Ok(()));
    assert_eq!(s.allowance(&addr(1), &addr(2)), 100);
    assert_eq!(s.balance_of(&addr(1)), 600);
}

#[test]
fn approve_relative_clamps_a_large_decrease() {
    let mut s = genesis(1000);
    assert_eq!(approve(ctx(1), &mut s, addr(2), 100), Ok(()));
    assert_eq!(s.balance_of(&addr(1)), 900);
    assert_eq!(approve_relative(ctx(1), &mut s, addr(2), -150), Ok(()));
    assert_eq!(s.allowance(&addr(1), &addr(2)), 0);
    assert_eq!(s.balance_of(&addr(1)), 1000);
}

#[test]
fn approve_relative_clamps_the_minimum_delta() {
    let mut s = genesis(1000);
    assert_eq!(approve(ctx(1), &mut s, addr(2), 40), Ok(()));
    assert_eq!(approve_relative(ctx(1), &mut s, addr(2), i128::MIN), Ok(()));
    assert_eq!(s.allowance(&addr(1), &addr(2)), 0);
    assert_eq!(s.balance_of(&addr(1)), 1000);
}

#[test]
fn approve_relative_small_decrease() {
    let mut s = genesis(1000);
    assert_eq!(approve(ctx(1), &mut s, addr(2), 100), Ok(()));
    assert_eq!(approve_relative(ctx(1), &mut s, addr(2), -30), Ok(()));
    assert_eq!(s.allowance(&addr(1), &addr(2)), 70);
    assert_eq!(s.balance_of(&addr(1)), 930);
}

#[test]
fn approve_relative_increase_debits_caller() {
    let mut s = genesis(1000);
    assert_eq!(approve_relative(ctx(1), &mut s, addr(2), 250), Ok(()));
    assert_eq!(s.allowance(&addr(1), &addr(2)), 250);
    assert_eq!(s.balance_of(&addr(1)), 750);
}

#[test]
fn approve_relative_increase_beyond_balance_is_rejected() {
    let mut s = genesis(1000);
    assert_eq!(approve_relative(ctx(1), &mut s, addr(2), 1001), Err(TokenError::BalanceOverflow));
    assert_eq!(s.allowance(&addr(1), &addr(2)), 0);
    assert_eq!(s.balance_of(&addr(1)), 1000);
}

#[test]
fn approve_relative_large_balance_is_a_conversion_error() {
    let mut s = genesis(u128::MAX);
    assert_eq!(approve_relative(ctx(1), &mut s, addr(2), 1), Err(TokenError::ConversionError));
    assert_eq!(s.balance_of(&addr(1)), u128::MAX);
}

#[test]
fn approve_relative_large_allowance_is_a_conversion_error() {
    let mut s = genesis(u128::MAX);
    assert_eq!(approve(ctx(1), &mut s, addr(2), u128::MAX), Ok(()));
    assert_eq!(approve_relative(ctx(1), &mut s, addr(2), -1), Err(TokenError::ConversionError));
    assert_eq!(s.allowance(&addr(1), &addr(2)), u128::MAX);
}

#[test]
fn approve_relative_allowance_overflow() {
    let max = i128::MAX as u128;
    let mut s = genesis(max);
    assert_eq!(approve(ctx(1), &mut s, addr(2), max), Ok(()));
    assert_eq!(approve_relative(ctx(1), &mut s, addr(2), 1), Err(TokenError::AllowanceOverflow));
    assert_eq!(s.allowance(&addr(1), &addr(2)), max);
    assert_eq!(s.balance_of(&addr(1)), 0);
}


#[test]
fn approve_relative_balance_overflow_on_return() {
    let supply = i128::MAX as u128 + 10;
    let mut s = genesis(supply);
    assert_eq!(approve(ctx(1), &mut s, addr(2), 20), Ok(()));
    assert_eq!(s.balance_of(&addr(1)), i128::MAX as u128 - 10);
    assert_eq!(approve_relative(ctx(1), &mut s, addr(2), -15), Err(TokenError::BalanceOverflow));
    assert_eq!(s.allowance(&addr(1), &addr(2)), 20);
    assert_eq!(s.balance_of(&addr(1)), i128::MAX as u128 - 10);
}

#[test]
fn transfer_from_to_owner_credits_without_debit() {
    let mut s = genesis(1000);
    assert_eq!(approve(ctx(1), &mut s, addr(2), 100), Ok(()));
    assert_eq!(transfer_from(ctx(2), &mut s, addr(1), addr(1), 100), Ok(()));
    assert_eq!(s.balance_of(&addr(1)), 1000);
    assert_eq!(s.allowance(&addr(1), &addr(2)), 0);
}

#[test]
fn zero_balance_write_removes_entry() {
    let mut m: AddressMap<u128> = AddressMap::new();
    m.insert_balance(addr(1), 5);
    assert_eq!(m.amount_at(&addr(1)), 5);
    assert!(m.contains_key(&addr(1)));
    m.insert_balance(addr(1), 0);
    assert_eq!(m.amount_at(&addr(1)), 0);
    assert!(!m.contains_key(&addr(1)));
    assert_eq!(m.len(), 0);
}

#[test]
fn zero_balance_write_on_absent_key_adds_nothing() {
    let mut m: AddressMap<u128> = AddressMap::new();
    m.insert_balance(addr(2), 0);
    assert!(!m.contains_key(&addr(2)));
    assert_eq!(m.len(), 0);
}

#[test]
fn address_map_insert_get_remove() {
    let mut m: AddressMap<u8> = AddressMap::new();
    m.insert(addr(1), 7);
    m.insert(addr(2), 8);
    m.insert(addr(1), 9);
    assert_eq!(m.len(), 2);
    assert_eq!(m.get(&addr(1)), Some(&9));
    assert_eq!(m.remove(&addr(1)), Some(9));
    assert_eq!(m.remove(&addr(1)), None);
    assert_eq!(m.get(&addr(2)), Some(&8));
    assert_eq!(m.len(), 1);
}

#[test]
fn addresses_compare_by_kind_and_identifier() {
    let a = addr(1);
    let mut b = addr(1);
    assert!(same_address(&a, &b));
    b.identifier[19] = 2;
    assert!(!same_address(&a, &b));
    let c = Address { address_type: AddressType::PublicContract, identifier: [1; 20] };
    assert!(!same_address(&a, &c));
}

#[test]
fn update_allowance_sets_and_prunes() {
    let mut s = genesis(1000);
    s.update_allowance(addr(1), addr(2), 50);
    assert_eq!(s.allowance(&addr(1), &addr(2)), 50);
    s.update_allowance(addr(1), addr(2), 0);
    assert_eq!(s.allowance(&addr(1), &addr(2)), 0);
    assert_eq!(s.balance_of(&addr(1)), 1000);
}

#[test]
fn transfers_keep_the_supply() {
    let mut s = genesis(1000);
    assert_eq!(transfer(ctx(1), &mut s, addr(2), 300), Ok(()));
    assert_eq!(transfer(ctx(2), &mut s, addr(3), 120), Ok(()));
    assert_eq!(transfer(ctx(3), &mut s, addr(1), 20), Ok(()));
    assert_eq!(transfer(ctx(2), &mut s, addr(2), 180), Ok(()));
    let sum: u128 = (1..=3).map(|i| s.balance_of(&addr(i))).sum();
    assert_eq!(sum, s.total_supply());
    assert_eq!(s.balance_of(&addr(1)), 720);
    assert_eq!(s.balance_of(&addr(2)), 180);
    assert_eq!(s.balance_of(&addr(3)), 100);
}
