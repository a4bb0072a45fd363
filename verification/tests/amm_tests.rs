use amm::amm::{TokenMetadata, AMM};
use amm::errors::AmmError;
use amm::token::Contract;

const FT_A_ID: u64 = 1;
const FT_B_ID: u64 = 2;
const AMM_ID: u64 = 3;
const ROOT: u64 = 10;
const ALICE: u64 = 11;

fn meta(name: &str) -> TokenMetadata {
    TokenMetadata { decimals: 3, display_name: name.to_string() }
}

/// Deploys two token contracts holding `initial_balance` each and a pool
/// over them, registers the participants, and funds Alice's internal
/// pool balances with the given amounts of each asset.
fn init(
    initial_balance: u128,
    to_alice_a: u128,
    to_amm_a: u128,
    to_alice_b: u128,
    to_amm_b: u128,
) -> (Contract, Contract, AMM) {
    let mut ft_a = Contract::new(ROOT, initial_balance);
    let mut ft_b = Contract::new(ROOT, initial_balance);
    ft_a.create_account_if_not_exists(ALICE);
    ft_b.create_account_if_not_exists(ALICE);

    let mut pool = AMM::new(AMM_ID, FT_A_ID, FT_B_ID, meta("token a"), meta("token b"));

    // Transfer from root to Alice at the token contracts.
    ft_a.ft_transfer(ROOT, ALICE, to_alice_a).unwrap();
    ft_b.ft_transfer(ROOT, ALICE, to_alice_b).unwrap();

    // Open storage in the pool for Alice.
    pool.storage_deposit(FT_A_ID, ALICE).unwrap();
    pool.storage_deposit(FT_B_ID, ALICE).unwrap();

    // Send tokens to the pool: the token contract moves them to the
    // pool's account and reports the deposit.
    ft_a.ft_transfer_call(ALICE, AMM_ID, to_amm_a).unwrap();
    assert_eq!(pool.ft_on_transfer(FT_A_ID, ALICE, to_amm_a).unwrap(), 0);
    ft_b.ft_transfer_call(ALICE, AMM_ID, to_amm_b).unwrap();
    assert_eq!(pool.ft_on_transfer(FT_B_ID, ALICE, to_amm_b).unwrap(), 0);

    (ft_a, ft_b, pool)
}

#[test]
fn test_add_and_exclude_from_pool() {
    let (_, _, mut pool) = init(1_000_000, 100_000, 50_000, 200_000, 100_000);

    let send_a_tokens_to_pool = 10_000u128;
    let send_b_tokens_to_pool = 20_000u128;
    pool.storage_deposit(AMM_ID, ALICE).unwrap();

    let alice_a_before = pool.ft_balance_of(FT_A_ID, ALICE).unwrap();
    let alice_b_before = pool.ft_balance_of(FT_B_ID, ALICE).unwrap();
    pool.add_tokens_to_pool(ALICE, FT_A_ID, send_a_tokens_to_pool, FT_B_ID, send_b_tokens_to_pool)
        .unwrap();

    let alice_a = pool.ft_balance_of(FT_A_ID, ALICE).unwrap();
    let alice_b = pool.ft_balance_of(FT_B_ID, ALICE).unwrap();
    let alice_share = pool.ft_balance_of(AMM_ID, ALICE).unwrap();
    let owner_a = pool.ft_balance_of(FT_A_ID, AMM_ID).unwrap();
    let owner_b = pool.ft_balance_of(FT_B_ID, AMM_ID).unwrap();

    assert_eq!(alice_share, send_a_tokens_to_pool + send_b_tokens_to_pool);
    assert_eq!(alice_a, alice_a_before - send_a_tokens_to_pool);
    assert_eq!(alice_b, alice_b_before - send_b_tokens_to_pool);
    assert_eq!(owner_a, send_a_tokens_to_pool);
    assert_eq!(owner_b, send_b_tokens_to_pool);

    pool.exclude_tokens_from_pool(ALICE, FT_A_ID, FT_B_ID).unwrap();

    let alice_a = pool.ft_balance_of(FT_A_ID, ALICE).unwrap();
    let alice_b = pool.ft_balance_of(FT_B_ID, ALICE).unwrap();
    let alice_share = pool.ft_balance_of(AMM_ID, ALICE).unwrap();
    let owner_a = pool.ft_balance_of(FT_A_ID, AMM_ID).unwrap();
    let owner_b = pool.ft_balance_of(FT_B_ID, AMM_ID).unwrap();

    assert_eq!(alice_share, 0);
    assert_eq!(alice_a, alice_a_before);
    assert_eq!(alice_b, alice_b_before);
    assert_eq!(owner_a, 0);
    assert_eq!(owner_b, 0);
}

#[test]
fn test_swap_tokens() {
    let (_, _, mut pool) = init(1_000_000, 100_000, 50_000, 200_000, 100_000);

    let send_a_tokens_to_pool = 30_000u128;
    let send_b_tokens_to_pool = 10_000u128;
    pool.storage_deposit(AMM_ID, ALICE).unwrap();

    let alice_a_before = pool.ft_balance_of(FT_A_ID, ALICE).unwrap();
    let alice_b_before = pool.ft_balance_of(FT_B_ID, ALICE).unwrap();
    pool.add_tokens_to_pool(ALICE, FT_A_ID, send_a_tokens_to_pool, FT_B_ID, send_b_tokens_to_pool)
        .unwrap();

    let alice_a = pool.ft_balance_of(FT_A_ID, ALICE).unwrap();
    let alice_b = pool.ft_balance_of(FT_B_ID, ALICE).unwrap();
    let alice_share = pool.ft_balance_of(AMM_ID, ALICE).unwrap();
    let owner_a = pool.ft_balance_of(FT_A_ID, AMM_ID).unwrap();
    let owner_b = pool.ft_balance_of(FT_B_ID, AMM_ID).unwrap();

    assert_eq!(alice_share, send_a_tokens_to_pool + send_b_tokens_to_pool);
    assert_eq!(alice_a, alice_a_before - send_a_tokens_to_pool);
    assert_eq!(alice_b, alice_b_before - send_b_tokens_to_pool);
    assert_eq!(owner_a, send_a_tokens_to_pool);
    assert_eq!(owner_b, send_b_tokens_to_pool);

    // Swap: sell A-tokens for B-tokens.
    let sell_token_amount = 10_000u128;
    let buy_amount = pool.swap(ALICE, FT_B_ID, FT_A_ID, sell_token_amount).unwrap();

    assert_eq!(
        pool.ft_balance_of(FT_A_ID, ALICE).unwrap(),
        alice_a - sell_token_amount
    );
    assert_eq!(pool.ft_balance_of(FT_B_ID, ALICE).unwrap(), alice_b + buy_amount);
    assert_eq!(pool.ft_balance_of(AMM_ID, ALICE).unwrap(), alice_share);
    assert_eq!(
        pool.ft_balance_of(FT_A_ID, AMM_ID).unwrap(),
        owner_a + sell_token_amount
    );
    assert_eq!(pool.ft_balance_of(FT_B_ID, AMM_ID).unwrap(), owner_b - buy_amount);
}

#[test]
fn swap_follows_the_constant_product_scenario() {
    // Reserves 10 A and 20 B, no decimal difference: selling 5 A must
    // yield 20 - floor(200 / 15) = 7 B.
    let (_, _, mut pool) = init(1_000, 100, 15, 100, 20);
    pool.storage_deposit(AMM_ID, ALICE).unwrap();
    pool.add_tokens_to_pool(ALICE, FT_A_ID, 10, FT_B_ID, 20).unwrap();

    let bought = pool.swap(ALICE, FT_B_ID, FT_A_ID, 5).unwrap();
    assert_eq!(bought, 7);
    assert_eq!(pool.ft_balance_of(FT_A_ID, AMM_ID).unwrap(), 15);
    assert_eq!(pool.ft_balance_of(FT_B_ID, AMM_ID).unwrap(), 13);
}

#[test]
fn proportion_is_checked_against_current_reserves() {
    // Into the empty pool, (1, 2) is accepted; (2, 4) still matches the
    // reserves (1, 2); (1, 1) no longer matches the reserves (3, 6).
    let (_, _, mut pool) = init(1_000, 100, 50, 100, 50);
    pool.storage_deposit(AMM_ID, ALICE).unwrap();

    pool.add_tokens_to_pool(ALICE, FT_A_ID, 1, FT_B_ID, 2).unwrap();
    pool.add_tokens_to_pool(ALICE, FT_A_ID, 2, FT_B_ID, 4).unwrap();
    assert_eq!(
        pool.add_tokens_to_pool(ALICE, FT_A_ID, 1, FT_B_ID, 1),
        Err(AmmError::ProportionMismatch)
    );
    // The refused deposit moved nothing.
    assert_eq!(pool.ft_balance_of(FT_A_ID, AMM_ID).unwrap(), 3);
    assert_eq!(pool.ft_balance_of(FT_B_ID, AMM_ID).unwrap(), 6);
    assert_eq!(pool.ft_balance_of(AMM_ID, ALICE).unwrap(), 9);
}

#[test]
fn swap_aligns_assets_of_different_precision() {
    // Asset A declares one decimal place, asset B three: reserves are
    // aligned to three places before pricing.
    let meta_a = TokenMetadata { decimals: 1, display_name: "token a".to_string() };
    let meta_b = TokenMetadata { decimals: 3, display_name: "token b".to_string() };
    let mut pool = AMM::new(AMM_ID, FT_A_ID, FT_B_ID, meta_a, meta_b);

    pool.storage_deposit(FT_A_ID, ALICE).unwrap();
    pool.storage_deposit(FT_B_ID, ALICE).unwrap();
    pool.storage_deposit(AMM_ID, ALICE).unwrap();
    pool.ft_on_transfer(FT_A_ID, ALICE, 100).unwrap();
    pool.ft_on_transfer(FT_B_ID, ALICE, 100).unwrap();

    pool.add_tokens_to_pool(ALICE, FT_A_ID, 10, FT_B_ID, 20).unwrap();
    // Shares count in normalized units: 10 * 10^2 + 20 * 10^0.
    assert_eq!(pool.ft_balance_of(AMM_ID, ALICE).unwrap(), 1_020);

    // Selling 5 raw A against reserves (10 A, 20 B): the A-reserve is
    // scaled to 1000, so the output is 20 - floor(20000 / 1005) = 1.
    let bought = pool.swap(ALICE, FT_B_ID, FT_A_ID, 5).unwrap();
    assert_eq!(bought, 1);
    assert_eq!(pool.ft_balance_of(FT_A_ID, AMM_ID).unwrap(), 15);
    assert_eq!(pool.ft_balance_of(FT_B_ID, AMM_ID).unwrap(), 19);
}

#[test]
fn equal_assets_are_refused() {
    let (_, _, mut pool) = init(1_000, 100, 50, 100, 50);
    assert_eq!(pool.swap(ALICE, FT_A_ID, FT_A_ID, 5), Err(AmmError::InvalidArguments));
    assert_eq!(
        pool.add_tokens_to_pool(ALICE, FT_B_ID, 1, FT_B_ID, 1),
        Err(AmmError::InvalidArguments)
    );
    assert_eq!(
        pool.exclude_tokens_from_pool(ALICE, FT_A_ID, FT_A_ID),
        Err(AmmError::InvalidArguments)
    );
}

#[test]
fn unknown_assets_are_refused() {
    let (_, _, mut pool) = init(1_000, 100, 50, 100, 50);
    assert_eq!(pool.swap(ALICE, 99, FT_A_ID, 5), Err(AmmError::UnknownAsset));
    assert_eq!(
        pool.add_tokens_to_pool(ALICE, FT_A_ID, 1, 99, 2),
        Err(AmmError::UnknownAsset)
    );
    assert_eq!(pool.exclude_tokens_from_pool(ALICE, 99, FT_B_ID), Err(AmmError::UnknownAsset));
    assert_eq!(pool.ft_balance_of(99, ALICE), Err(AmmError::UnknownAsset));
}

#[test]
fn redemption_without_shares_is_refused() {
    let (_, _, mut pool) = init(1_000, 100, 50, 100, 50);
    pool.storage_deposit(AMM_ID, ALICE).unwrap();
    assert_eq!(
        pool.exclude_tokens_from_pool(ALICE, FT_A_ID, FT_B_ID),
        Err(AmmError::ZeroShareBalance)
    );
}

#[test]
fn swapping_against_an_empty_pool_is_refused() {
    let (_, _, mut pool) = init(1_000, 100, 50, 100, 50);
    // Nothing was added to the pool's reserves yet.
    assert_eq!(pool.swap(ALICE, FT_B_ID, FT_A_ID, 5), Err(AmmError::InvalidArguments));
}

#[test]
fn swapping_more_than_the_internal_balance_is_refused() {
    let (_, _, mut pool) = init(1_000, 100, 50, 100, 50);
    pool.storage_deposit(AMM_ID, ALICE).unwrap();
    pool.add_tokens_to_pool(ALICE, FT_A_ID, 10, FT_B_ID, 10).unwrap();
    // Alice holds 40 A internally; selling 41 must be refused.
    assert_eq!(
        pool.swap(ALICE, FT_B_ID, FT_A_ID, 41),
        Err(AmmError::InsufficientBalance)
    );
}
