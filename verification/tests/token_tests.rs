use amm::errors::AmmError;
use amm::token::Contract;

const ROOT: u64 = 0;
const ACCOUNT_1: u64 = 1;
const ACCOUNT_2: u64 = 2;

const TOTAL_SUPPLY: u128 = 1_000_000_000_000_000;

fn to_yocto(value: u128) -> u128 {
    value * 10u128.pow(24)
}

#[test]
fn simulate_total_supply() {
    let initial_balance = to_yocto(100);
    let ft = Contract::new(ROOT, initial_balance);
    assert_eq!(initial_balance, ft.ft_total_supply());
}

#[test]
fn simulate_simple_transfer() {
    let transfer_amount = to_yocto(100);
    let initial_balance = to_yocto(100_000);
    let mut ft = Contract::new(ROOT, initial_balance);
    ft.create_account_if_not_exists(ACCOUNT_1);

    ft.ft_transfer(ROOT, ACCOUNT_1, transfer_amount).unwrap();

    assert_eq!(initial_balance - transfer_amount, ft.ft_balance_of(ROOT));
    assert_eq!(transfer_amount, ft.ft_balance_of(ACCOUNT_1));
}

#[test]
fn test_new() {
    let mut contract = Contract::new(ACCOUNT_1, TOTAL_SUPPLY);
    assert_eq!(contract.ft_total_supply(), TOTAL_SUPPLY);
    assert_eq!(contract.ft_balance_of(ACCOUNT_1), TOTAL_SUPPLY);
}

#[test]
fn test_transfer() {
    let mut contract = Contract::new(ACCOUNT_2, TOTAL_SUPPLY);
    // Paying for account registration, aka storage deposit.
    contract.create_account_if_not_exists(ACCOUNT_1);

    let transfer_amount = TOTAL_SUPPLY / 3;
    contract.ft_transfer(ACCOUNT_2, ACCOUNT_1, transfer_amount).unwrap();

    assert_eq!(contract.ft_balance_of(ACCOUNT_2), TOTAL_SUPPLY - transfer_amount);
    assert_eq!(contract.ft_balance_of(ACCOUNT_1), transfer_amount);
}

#[test]
fn add_tokens_registers_and_funds_the_caller() {
    let mut contract = Contract::new(ROOT, 1_000);
    contract.add_tokens(ACCOUNT_1, 250).unwrap();
    assert_eq!(contract.ft_balance_of(ACCOUNT_1), 250);
    assert_eq!(contract.ft_balance_of(ROOT), 750);
    // The supply is only moved, never changed.
    assert_eq!(contract.ft_total_supply(), 1_000);
}

#[test]
fn transfers_beyond_the_balance_are_refused() {
    let mut contract = Contract::new(ROOT, 100);
    contract.create_account_if_not_exists(ACCOUNT_1);
    assert_eq!(
        contract.ft_transfer(ROOT, ACCOUNT_1, 101),
        Err(AmmError::InsufficientBalance)
    );
    assert_eq!(contract.ft_balance_of(ROOT), 100);
    assert_eq!(contract.ft_balance_of(ACCOUNT_1), 0);
}

#[test]
fn unregistered_accounts_hold_zero() {
    let mut contract = Contract::new(ROOT, 100);
    assert_eq!(contract.ft_balance_of(ACCOUNT_1), 0);
}
