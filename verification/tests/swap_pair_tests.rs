use amm::errors::AmmError;
use amm::swap_pair::{calc_dy, Swap};

const OWNER: u64 = 0;
const CLIENT: u64 = 1;

#[test]
fn lib_test_full() {
    // The default pair starts with ten A-tokens and twenty B-tokens in
    // the owner's wallet.
    let mut contract = Swap::default();

    assert_eq!(contract.get_total_a_tokens(), 10);
    assert_eq!(contract.get_total_b_tokens(), 20);

    // Open the client's account and hand it tokens to trade with.
    contract.init_my_account(CLIENT);
    contract.get_some_tokens(CLIENT, 5, 5).unwrap();

    assert_eq!(contract.get_balance_a(CLIENT), 5);
    assert_eq!(contract.get_balance_b(CLIENT), 5);

    // Sell five A-tokens and receive seven B-tokens.
    contract.buy_b_tokens(CLIENT, 5).unwrap();
    assert_eq!(contract.get_balance_a(CLIENT), 0);
    assert_eq!(contract.get_balance_b(CLIENT), 12);

    // Return seven B-tokens and receive five A-tokens.
    contract.buy_a_tokens(CLIENT, 7).unwrap();
    assert_eq!(contract.get_balance_a(CLIENT), 5);
    assert_eq!(contract.get_balance_b(CLIENT), 5);
}

#[test]
fn check_calculator() {
    assert_eq!(calc_dy(0, 2000, 1000), 2000);
    // Check rounding: without round-to-nearest the result would be 3.
    assert_eq!(calc_dy(0, 4, 10), 4);
}

#[test]
fn main_check_calculator() {
    assert_eq!(calc_dy(0, 2000, 1000), 2000);
    // Check rounding: without round-to-nearest the result would be 3.
    assert_eq!(calc_dy(0, 4, 10), 4);
}

#[test]
fn selling_more_than_owned_is_refused() {
    let mut contract = Swap::default();
    contract.init_my_account(CLIENT);
    contract.get_some_tokens(CLIENT, 2, 2).unwrap();
    assert_eq!(contract.buy_b_tokens(CLIENT, 5), Err(AmmError::InsufficientBalance));
    // Nothing moved.
    assert_eq!(contract.get_balance_a(CLIENT), 2);
    assert_eq!(contract.get_balance_b(CLIENT), 2);
}

#[test]
fn handing_out_more_than_the_wallet_is_refused() {
    let mut contract = Swap::default();
    contract.init_my_account(CLIENT);
    assert_eq!(contract.get_some_tokens(CLIENT, 11, 5), Err(AmmError::InsufficientBalance));
    assert_eq!(contract.get_balance_a(CLIENT), 0);
    assert_eq!(contract.get_balance_b(CLIENT), 0);
}

#[test]
fn trading_against_an_empty_reserve_is_refused() {
    let mut contract = Swap::default();
    contract.init_my_account(CLIENT);
    contract.get_some_tokens(CLIENT, 10, 5).unwrap();
    // The owner's A-reserve is empty now.
    assert_eq!(contract.buy_a_tokens(CLIENT, 1), Err(AmmError::InvalidArguments));
}
