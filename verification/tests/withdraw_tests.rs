use amm::amm::{TokenMetadata, AMM};
use amm::errors::AmmError;
use amm::token::Contract;

const FT_A_ID: u64 = 1;
const FT_B_ID: u64 = 2;
const AMM_ID: u64 = 3;
const ROOT: u64 = 10;
const ALICE: u64 = 11;

fn meta(name: &str) -> TokenMetadata {
    TokenMetadata { decimals: 3, display_name: name.to_string() }
}

#[test]
fn send_tokens_to_amm_and_withdraw() {
    let transfer_to_alice_amount_a = 100_000u128;
    let transfer_to_amm_amount_a = 50_000u128;

    let transfer_to_alice_amount_b = 200_000u128;
    let transfer_to_amm_amount_b = 100_000u128;

    let initial_balance = 1_000_000u128;
    let mut ft_a = Contract::new(ROOT, initial_balance);
    let mut ft_b = Contract::new(ROOT, initial_balance);
    ft_a.create_account_if_not_exists(ALICE);
    ft_b.create_account_if_not_exists(ALICE);
    let mut pool = AMM::new(AMM_ID, FT_A_ID, FT_B_ID, meta("token a"), meta("token b"));

    // Transfer from root to Alice at the token contracts.
    ft_a.ft_transfer(ROOT, ALICE, transfer_to_alice_amount_a).unwrap();
    ft_b.ft_transfer(ROOT, ALICE, transfer_to_alice_amount_b).unwrap();

    // Open storage in the pool for Alice.
    pool.storage_deposit(FT_A_ID, ALICE).unwrap();
    pool.storage_deposit(FT_B_ID, ALICE).unwrap();

    // Send tokens to the pool.
    ft_a.ft_transfer_call(ALICE, AMM_ID, transfer_to_amm_amount_a).unwrap();
    pool.ft_on_transfer(FT_A_ID, ALICE, transfer_to_amm_amount_a).unwrap();
    ft_b.ft_transfer_call(ALICE, AMM_ID, transfer_to_amm_amount_b).unwrap();
    pool.ft_on_transfer(FT_B_ID, ALICE, transfer_to_amm_amount_b).unwrap();

    // Root's balance at the token contracts lost only the transfers.
    assert_eq!(
        ft_a.ft_balance_of(ROOT),
        initial_balance - transfer_to_alice_amount_a
    );
    assert_eq!(
        ft_b.ft_balance_of(ROOT),
        initial_balance - transfer_to_alice_amount_b
    );

    // Alice's balance at the token contracts.
    assert_eq!(
        ft_a.ft_balance_of(ALICE),
        transfer_to_alice_amount_a - transfer_to_amm_amount_a
    );
    assert_eq!(
        ft_b.ft_balance_of(ALICE),
        transfer_to_alice_amount_b - transfer_to_amm_amount_b
    );

    // Alice's internal balance in the pool.
    let alice_amm_a = pool.ft_balance_of(FT_A_ID, ALICE).unwrap();
    let alice_amm_b = pool.ft_balance_of(FT_B_ID, ALICE).unwrap();
    assert_eq!(alice_amm_a, transfer_to_amm_amount_a);
    assert_eq!(alice_amm_b, transfer_to_amm_amount_b);

    // Withdraw all tokens back: the pool issues the external transfer,
    // the token contract performs it, and the confirmation debits the
    // internal balance.
    let cmd_a = pool.withdraw_tokens(ALICE, FT_A_ID, alice_amm_a).unwrap();
    ft_a.ft_transfer(AMM_ID, ALICE, cmd_a.amount).unwrap();
    pool.withdraw_tokens_callback(cmd_a.request_id, true).unwrap();

    let cmd_b = pool.withdraw_tokens(ALICE, FT_B_ID, alice_amm_b).unwrap();
    ft_b.ft_transfer(AMM_ID, ALICE, cmd_b.amount).unwrap();
    pool.withdraw_tokens_callback(cmd_b.request_id, true).unwrap();

    // Alice's balance at the token contracts is restored.
    assert_eq!(ft_a.ft_balance_of(ALICE), transfer_to_alice_amount_a);
    assert_eq!(ft_b.ft_balance_of(ALICE), transfer_to_alice_amount_b);

    // Alice's internal balance in the pool is zero.
    assert_eq!(pool.ft_balance_of(FT_A_ID, ALICE).unwrap(), 0);
    assert_eq!(pool.ft_balance_of(FT_B_ID, ALICE).unwrap(), 0);
}

#[test]
fn withdrawal_request_skips_the_balance_check() {
    // The balance check is deferred: a request for more than the
    // requester's internal balance still becomes pending; only the
    // confirmation fails, leaving the ledger untouched.
    let mut pool = AMM::new(AMM_ID, FT_A_ID, FT_B_ID, meta("token a"), meta("token b"));
    pool.storage_deposit(FT_A_ID, ALICE).unwrap();
    pool.ft_on_transfer(FT_A_ID, ALICE, 50).unwrap();

    let cmd = pool.withdraw_tokens(ALICE, FT_A_ID, 1_000).unwrap();
    assert_eq!(cmd.requester, ALICE);
    assert_eq!(cmd.token_id, FT_A_ID);
    assert_eq!(cmd.amount, 1_000);

    assert_eq!(
        pool.withdraw_tokens_callback(cmd.request_id, true),
        Err(AmmError::InsufficientBalance)
    );
    assert_eq!(pool.ft_balance_of(FT_A_ID, ALICE).unwrap(), 50);
}

#[test]
fn failed_external_transfer_leaves_the_ledger_untouched() {
    let mut pool = AMM::new(AMM_ID, FT_A_ID, FT_B_ID, meta("token a"), meta("token b"));
    pool.storage_deposit(FT_A_ID, ALICE).unwrap();
    pool.ft_on_transfer(FT_A_ID, ALICE, 50).unwrap();

    let cmd = pool.withdraw_tokens(ALICE, FT_A_ID, 20).unwrap();
    assert_eq!(
        pool.withdraw_tokens_callback(cmd.request_id, false),
        Err(AmmError::ExternalTransferFailed)
    );
    assert_eq!(pool.ft_balance_of(FT_A_ID, ALICE).unwrap(), 50);
}

#[test]
fn withdrawal_of_an_unknown_asset_is_refused() {
    let mut pool = AMM::new(AMM_ID, FT_A_ID, FT_B_ID, meta("token a"), meta("token b"));
    assert_eq!(pool.withdraw_tokens(ALICE, 99, 5), Err(AmmError::UnknownAsset));
}
