use crate::errors::AmmError;
use crate::ledger::{registers_account, Ledger};
use crate::utils::{
    add_decimals, calc_dy, lemma_pow10_fits_u128, lemma_pow10_pos, pow10, remove_decimals, spec_dy,
};
use vstd::arithmetic::div_mod::{
    lemma_div_by_multiple, lemma_div_is_ordered, lemma_div_multiples_vanish,
};
use vstd::arithmetic::mul::{
    lemma_mul_equality_converse, lemma_mul_inequality, lemma_mul_is_commutative,
};
use vstd::prelude::*;

verus! {

/// The largest decimal precision an asset may declare: `10^38` is the
/// largest power of ten that fits the 128-bit integer width.
pub const MAX_DECIMALS: u8 = 38;

/// Immutable description of one pooled asset.
pub struct TokenMetadata {
    /// The asset's decimal precision.
    pub decimals: u8,
    /// A human-readable name; the pool's arithmetic never reads it.
    pub display_name: String,
}

/// A withdrawal whose external transfer has been issued but not yet
/// confirmed. The requester's identity is captured when the request is
/// made, so that the asynchronous confirmation debits the right account.
#[derive(Clone, Copy, Debug, PartialEq, Eq, Structural)]
pub struct PendingWithdrawal {
    /// Correlates the eventual confirmation with this request.
    pub request_id: u64,
    /// The account whose internal balance is debited on confirmation.
    pub requester: u64,
    /// The asset being withdrawn.
    pub token_id: u64,
    /// The amount handed to the external transfer capability.
    pub amount: u128,
}

/// The common precision two assets are aligned to before cross-asset
/// arithmetic: the larger of their declared decimal counts.
pub open spec fn common_decimals(d1: u8, d2: u8) -> u8 {
    if d1 >= d2 {
        d1
    } else {
        d2
    }
}

/// The shares minted for one deposit: the two amounts, each rescaled to
/// the common precision of the two assets, added together. Shares thus
/// count deposited units at a common scale, weighing both assets
/// equally regardless of their relative price.
pub open spec fn spec_mint_share(amt_a: u128, amt_b: u128, da: u8, db: u8) -> int {
    let md = common_decimals(da, db);
    amt_a * pow10((md - da) as nat) + amt_b * pow10((md - db) as nat)
}

/// The whole-position redemption amount for one asset: the share supply
/// times the pool's reserve of that asset, divided by the redeeming
/// account's share balance.
pub open spec fn spec_entitlement(share_supply: int, pool_reserve: int, caller_shares: int) -> int {
    share_supply * pool_reserve / caller_shares
}

/// The output amount of one swap: both reserves aligned to the common
/// precision of the two assets, priced by the constant-product rule on
/// the raw input amount, and the result scaled back to the output
/// asset's native precision.
pub open spec fn spec_swap_output(x: u128, y: u128, dec_in: u8, dec_out: u8, dx: u128) -> int {
    let md = common_decimals(dec_in, dec_out);
    let xs = x * pow10((md - dec_in) as nat);
    let ys = y * pow10((md - dec_out) as nat);
    spec_dy(xs, ys, dx as int) / pow10((md - dec_out) as nat) as int
}

/// Prices and settles one swap between two ledgers: the caller pays
/// `sell_amount` into the pool's account on the sell side and receives
/// the constant-product output, computed on the reserves as they stood
/// before the sale was credited, on the buy side.
fn swap_ledgers(
    sell_ledger: &mut Ledger,
    buy_ledger: &mut Ledger,
    pool: u64,
    caller: u64,
    dec_in: u8,
    dec_out: u8,
    sell_amount: u128,
) -> (r: Result<u128, AmmError>)
    requires
        old(sell_ledger).wf(),
        old(buy_ledger).wf(),
        caller != pool,
        old(sell_ledger).registered(pool),
        old(sell_ledger).registered(caller),
        old(buy_ledger).registered(pool),
        old(buy_ledger).registered(caller),
        dec_in <= MAX_DECIMALS,
        dec_out <= MAX_DECIMALS,
        ({
            let md = common_decimals(dec_in, dec_out);
            let xs = old(sell_ledger)@[pool] * pow10((md - dec_in) as nat);
            let ys = old(buy_ledger)@[pool] * pow10((md - dec_out) as nat);
            &&& xs <= u128::MAX
            &&& ys <= u128::MAX
            &&& xs + sell_amount <= u128::MAX
            &&& xs * ys <= u128::MAX
        }),
    ensures
        final(sell_ledger).wf(),
        final(buy_ledger).wf(),
        final(sell_ledger).spec_total_supply() == old(sell_ledger).spec_total_supply(),
        final(buy_ledger).spec_total_supply() == old(buy_ledger).spec_total_supply(),
        match r {
            Ok(amount) => {
                let x = old(sell_ledger)@[pool];
                let y = old(buy_ledger)@[pool];
                &&& x > 0
                &&& y > 0
                &&& old(sell_ledger)@[caller] >= sell_amount
                &&& amount == spec_swap_output(x, y, dec_in, dec_out, sell_amount)
                &&& amount <= y
                &&& final(sell_ledger)@ == old(sell_ledger)@.insert(
                    caller,
                    (old(sell_ledger)@[caller] - sell_amount) as u128,
                ).insert(pool, (x + sell_amount) as u128)
                &&& final(buy_ledger)@ == old(buy_ledger)@.insert(pool, (y - amount) as u128).insert(
                    caller,
                    (old(buy_ledger)@[caller] + amount) as u128,
                )
            },
            Err(e) => {
                let x = old(sell_ledger)@[pool];
                let y = old(buy_ledger)@[pool];
                &&& *final(sell_ledger) == *old(sell_ledger)
                &&& *final(buy_ledger) == *old(buy_ledger)
                &&& ((e == AmmError::InvalidArguments && (x == 0 || y == 0)) || (e
                    == AmmError::InsufficientBalance && x > 0 && y > 0 && old(sell_ledger)@[caller]
                    < sell_amount))
            },
        },
{
    let x = sell_ledger.balance_of(pool);
    let y = buy_ledger.balance_of(pool);
    if x == 0 || y == 0 {
        return Err(AmmError::InvalidArguments);
    }
    if sell_ledger.balance_of(caller) < sell_amount {
        return Err(AmmError::InsufficientBalance);
    }
    sell_ledger.transfer(caller, pool, sell_amount);
    let md = if dec_in >= dec_out {
        dec_in
    } else {
        dec_out
    };
    let ghost e_in = (md - dec_in) as nat;
    let ghost e_out = (md - dec_out) as nat;
    proof {
        lemma_pow10_fits_u128(e_in);
        lemma_pow10_fits_u128(e_out);
        lemma_pow10_pos(e_in);
        lemma_pow10_pos(e_out);
        lemma_mul_inequality(1, pow10(e_in) as int, x as int);
        lemma_mul_is_commutative(pow10(e_in) as int, x as int);
    }
    let xs = add_decimals(x, md - dec_in);
    let ys = add_decimals(y, md - dec_out);
    let dy_scaled = calc_dy(xs, ys, sell_amount);
    let amount = remove_decimals(dy_scaled, md - dec_out);
    proof {
        lemma_div_is_ordered(dy_scaled as int, ys as int, pow10(e_out) as int);
        lemma_div_by_multiple(y as int, pow10(e_out) as int);
    }
    buy_ledger.transfer(pool, caller, amount);
    Ok(amount)
}

/// Settles a proportional deposit into the pool: after the exact
/// proportion check against the current reserves, both amounts move from
/// the caller to the pool's account and freshly minted shares are
/// credited to the caller.
fn add_to_pool(
    ledger_x: &mut Ledger,
    ledger_y: &mut Ledger,
    shares: &mut Ledger,
    pool: u64,
    caller: u64,
    dec_x: u8,
    dec_y: u8,
    amt_x: u128,
    amt_y: u128,
) -> (r: Result<(), AmmError>)
    requires
        old(ledger_x).wf(),
        old(ledger_y).wf(),
        old(shares).wf(),
        caller != pool,
        old(ledger_x).registered(pool),
        old(ledger_x).registered(caller),
        old(ledger_y).registered(pool),
        old(ledger_y).registered(caller),
        old(shares).registered(caller),
        dec_x <= MAX_DECIMALS,
        dec_y <= MAX_DECIMALS,
        old(ledger_x)@[pool] * amt_y <= u128::MAX,
        old(ledger_y)@[pool] * amt_x <= u128::MAX,
        ({
            let md = common_decimals(dec_x, dec_y);
            &&& amt_x * pow10((md - dec_x) as nat) <= u128::MAX
            &&& amt_y * pow10((md - dec_y) as nat) <= u128::MAX
            &&& old(shares).spec_total_supply() + spec_mint_share(amt_x, amt_y, dec_x, dec_y)
                <= u128::MAX
        }),
    ensures
        final(ledger_x).wf(),
        final(ledger_y).wf(),
        final(shares).wf(),
        final(ledger_x).spec_total_supply() == old(ledger_x).spec_total_supply(),
        final(ledger_y).spec_total_supply() == old(ledger_y).spec_total_supply(),
        match r {
            Ok(()) => {
                let rx = old(ledger_x)@[pool];
                let ry = old(ledger_y)@[pool];
                let mint = spec_mint_share(amt_x, amt_y, dec_x, dec_y);
                &&& rx * amt_y == ry * amt_x
                &&& old(ledger_x)@[caller] >= amt_x
                &&& old(ledger_y)@[caller] >= amt_y
                &&& final(ledger_x)@ == old(ledger_x)@.insert(
                    caller,
                    (old(ledger_x)@[caller] - amt_x) as u128,
                ).insert(pool, (rx + amt_x) as u128)
                &&& final(ledger_y)@ == old(ledger_y)@.insert(
                    caller,
                    (old(ledger_y)@[caller] - amt_y) as u128,
                ).insert(pool, (ry + amt_y) as u128)
                &&& final(shares)@ == old(shares)@.insert(
                    caller,
                    (old(shares)@[caller] + mint) as u128,
                )
                &&& final(shares).spec_total_supply() == old(shares).spec_total_supply() + mint
            },
            Err(e) => {
                let rx = old(ledger_x)@[pool];
                let ry = old(ledger_y)@[pool];
                &&& *final(ledger_x) == *old(ledger_x)
                &&& *final(ledger_y) == *old(ledger_y)
                &&& *final(shares) == *old(shares)
                &&& ((e == AmmError::ProportionMismatch && rx * amt_y != ry * amt_x) || (e
                    == AmmError::InsufficientBalance && rx * amt_y == ry * amt_x && (old(
                    ledger_x,
                )@[caller] < amt_x || old(ledger_y)@[caller] < amt_y)))
            },
        },
{
    let rx = ledger_x.balance_of(pool);
    let ry = ledger_y.balance_of(pool);
    if rx * amt_y != ry * amt_x {
        return Err(AmmError::ProportionMismatch);
    }
    if ledger_x.balance_of(caller) < amt_x || ledger_y.balance_of(caller) < amt_y {
        return Err(AmmError::InsufficientBalance);
    }
    ledger_x.transfer(caller, pool, amt_x);
    ledger_y.transfer(caller, pool, amt_y);
    let md = if dec_x >= dec_y {
        dec_x
    } else {
        dec_y
    };
    proof {
        lemma_pow10_fits_u128((md - dec_x) as nat);
        lemma_pow10_fits_u128((md - dec_y) as nat);
    }
    let mint = add_decimals(amt_x, md - dec_x) + add_decimals(amt_y, md - dec_y);
    shares.deposit(caller, mint);
    Ok(())
}

/// Settles a whole-position redemption: the caller's entire share
/// balance is burned and the entitled amount of each asset moves from
/// the pool's account back to the caller.
fn remove_from_pool(
    ledger_x: &mut Ledger,
    ledger_y: &mut Ledger,
    shares: &mut Ledger,
    pool: u64,
    caller: u64,
) -> (r: Result<(), AmmError>)
    requires
        old(ledger_x).wf(),
        old(ledger_y).wf(),
        old(shares).wf(),
        caller != pool,
        old(ledger_x).registered(pool),
        old(ledger_x).registered(caller),
        old(ledger_y).registered(pool),
        old(ledger_y).registered(caller),
        old(shares).spec_total_supply() * old(ledger_x)@[pool] <= u128::MAX,
        old(shares).spec_total_supply() * old(ledger_y)@[pool] <= u128::MAX,
    ensures
        final(ledger_x).wf(),
        final(ledger_y).wf(),
        final(shares).wf(),
        final(ledger_x).spec_total_supply() == old(ledger_x).spec_total_supply(),
        final(ledger_y).spec_total_supply() == old(ledger_y).spec_total_supply(),
        match r {
            Ok(()) => {
                let cs = old(shares).balance(caller);
                let s_total = old(shares).spec_total_supply();
                let rx = old(ledger_x)@[pool];
                let ry = old(ledger_y)@[pool];
                let x_out = spec_entitlement(s_total as int, rx as int, cs as int);
                let y_out = spec_entitlement(s_total as int, ry as int, cs as int);
                &&& cs > 0
                &&& x_out <= rx
                &&& y_out <= ry
                &&& final(shares)@ == old(shares)@.insert(caller, 0u128)
                &&& final(shares).spec_total_supply() == old(shares).spec_total_supply() - cs
                &&& final(ledger_x)@ == old(ledger_x)@.insert(pool, (rx - x_out) as u128).insert(
                    caller,
                    (old(ledger_x)@[caller] + x_out) as u128,
                )
                &&& final(ledger_y)@ == old(ledger_y)@.insert(pool, (ry - y_out) as u128).insert(
                    caller,
                    (old(ledger_y)@[caller] + y_out) as u128,
                )
            },
            Err(e) => {
                let cs = old(shares).balance(caller);
                let s_total = old(shares).spec_total_supply();
                let rx = old(ledger_x)@[pool];
                let ry = old(ledger_y)@[pool];
                &&& *final(ledger_x) == *old(ledger_x)
                &&& *final(ledger_y) == *old(ledger_y)
                &&& *final(shares) == *old(shares)
                &&& ((e == AmmError::ZeroShareBalance && cs == 0) || (e
                    == AmmError::InsufficientBalance && cs > 0 && (spec_entitlement(
                    s_total as int,
                    rx as int,
                    cs as int,
                ) > rx || spec_entitlement(s_total as int, ry as int, cs as int) > ry)))
            },
        },
{
    let cs = shares.ft_balance_of(caller);
    if cs == 0 {
        return Err(AmmError::ZeroShareBalance);
    }
    let s_total = shares.total_supply();
    let rx = ledger_x.balance_of(pool);
    let ry = ledger_y.balance_of(pool);
    let x_out = s_total * rx / cs;
    let y_out = s_total * ry / cs;
    if x_out > rx || y_out > ry {
        return Err(AmmError::InsufficientBalance);
    }
    shares.withdraw(caller, cs);
    ledger_x.transfer(pool, caller, x_out);
    ledger_y.transfer(pool, caller, y_out);
    Ok(())
}

/// Whether some pending withdrawal carries the correlation id `id`.
pub open spec fn has_pending(s: Seq<PendingWithdrawal>, id: u64) -> bool {
    exists|i: int| 0 <= i < s.len() && (#[trigger] s[i]).request_id == id
}

/// The position of the pending withdrawal carrying the correlation id
/// `id`; meaningful only while such a withdrawal exists, and unique
/// because a consistent pool never reissues an id.
pub open spec fn pending_index_of(s: Seq<PendingWithdrawal>, id: u64) -> int {
    choose|i: int| 0 <= i < s.len() && (#[trigger] s[i]).request_id == id
}

/// Consistency of the pending-withdrawal table: correlation ids are
/// pairwise distinct and not yet reissued, and every pending withdrawal
/// names one of the two pooled assets.
pub open spec fn pending_wf(
    s: Seq<PendingWithdrawal>,
    next_id: u64,
    a_id: u64,
    b_id: u64,
) -> bool {
    &&& forall|i: int, j: int|
        0 <= i < j < s.len() ==> (#[trigger] s[i]).request_id != (#[trigger] s[j]).request_id
    &&& forall|i: int| 0 <= i < s.len() ==> (#[trigger] s[i]).request_id < next_id
    &&& forall|i: int|
        0 <= i < s.len() ==> (#[trigger] s[i]).token_id == a_id || s[i].token_id == b_id
}

/// A two-asset constant-product pool. It owns one reserve ledger per
/// asset and the share ledger; the pool's own account holds the tradable
/// reserves inside the reserve ledgers.
pub struct AMM {
    pool_id: u64,
    token_a_id: u64,
    token_b_id: u64,
    meta_a: TokenMetadata,
    meta_b: TokenMetadata,
    token_a: Ledger,
    token_b: Ledger,
    token_amm: Ledger,
    pending: Vec<PendingWithdrawal>,
    next_request_id: u64,
}

impl AMM {
    /// The pool's own account, holding the tradable reserves.
    pub closed spec fn spec_pool_id(self) -> u64 {
        self.pool_id
    }

    /// The external identity of the first asset.
    pub closed spec fn spec_token_a_id(self) -> u64 {
        self.token_a_id
    }

    /// The external identity of the second asset.
    pub closed spec fn spec_token_b_id(self) -> u64 {
        self.token_b_id
    }

    /// The declared precision of the first asset.
    pub closed spec fn spec_decimals_a(self) -> u8 {
        self.meta_a.decimals
    }

    /// The declared precision of the second asset.
    pub closed spec fn spec_decimals_b(self) -> u8 {
        self.meta_b.decimals
    }

    /// The reserve ledger of the first asset.
    pub closed spec fn ledger_a(self) -> Ledger {
        self.token_a
    }

    /// The reserve ledger of the second asset.
    pub closed spec fn ledger_b(self) -> Ledger {
        self.token_b
    }

    /// The share ledger.
    pub closed spec fn shares(self) -> Ledger {
        self.token_amm
    }

    /// The withdrawals whose external transfer is still unconfirmed.
    pub closed spec fn spec_pending(self) -> Seq<PendingWithdrawal> {
        self.pending@
    }

    /// The correlation id the next withdrawal request will receive.
    pub closed spec fn spec_next_request_id(self) -> u64 {
        self.next_request_id
    }

    /// Whether `t` names one of the two pooled assets.
    pub open spec fn is_reserve_token(self, t: u64) -> bool {
        t == self.spec_token_a_id() || t == self.spec_token_b_id()
    }

    /// The reserve ledger of the asset named `t`.
    pub open spec fn reserve_ledger(self, t: u64) -> Ledger {
        if t == self.spec_token_a_id() {
            self.ledger_a()
        } else {
            self.ledger_b()
        }
    }

    /// The reserve ledger of the pooled asset other than `t`.
    pub open spec fn other_reserve_ledger(self, t: u64) -> Ledger {
        if t == self.spec_token_a_id() {
            self.ledger_b()
        } else {
            self.ledger_a()
        }
    }

    /// The declared precision of the asset named `t`.
    pub open spec fn reserve_decimals(self, t: u64) -> u8 {
        if t == self.spec_token_a_id() {
            self.spec_decimals_a()
        } else {
            self.spec_decimals_b()
        }
    }

    /// The immutable identity of the pool: its account, its two distinct
    /// assets and their precisions.
    pub open spec fn same_identity(self, other: AMM) -> bool {
        &&& self.spec_pool_id() == other.spec_pool_id()
        &&& self.spec_token_a_id() == other.spec_token_a_id()
        &&& self.spec_token_b_id() == other.spec_token_b_id()
        &&& self.spec_decimals_a() == other.spec_decimals_a()
        &&& self.spec_decimals_b() == other.spec_decimals_b()
    }

    /// Pool consistency: the three ledgers are consistent, the pool's own
    /// account is registered in each, the two assets are distinct from
    /// each other and from the pool's account, precisions are within the
    /// integer width, and pending withdrawals carry distinct, not yet
    /// reissued correlation ids for registered assets.
    pub open spec fn wf(self) -> bool {
        &&& self.ledger_a().wf()
        &&& self.ledger_b().wf()
        &&& self.shares().wf()
        &&& self.spec_token_a_id() != self.spec_token_b_id()
        &&& self.spec_pool_id() != self.spec_token_a_id()
        &&& self.spec_pool_id() != self.spec_token_b_id()
        &&& self.ledger_a().registered(self.spec_pool_id())
        &&& self.ledger_b().registered(self.spec_pool_id())
        &&& self.shares().registered(self.spec_pool_id())
        &&& self.spec_decimals_a() <= MAX_DECIMALS
        &&& self.spec_decimals_b() <= MAX_DECIMALS
        &&& pending_wf(
            self.spec_pending(),
            self.spec_next_request_id(),
            self.spec_token_a_id(),
            self.spec_token_b_id(),
        )
    }

    /// Creates a pool over two distinct assets. The pool's own account is
    /// registered in all three ledgers with a zero balance; reserves,
    /// share supply and pending withdrawals start empty.
    pub fn new(
        pool_id: u64,
        token_a_contract: u64,
        token_b_contract: u64,
        token_a_metadata: TokenMetadata,
        token_b_metadata: TokenMetadata,
    ) -> (r: AMM)
        requires
            token_a_contract != token_b_contract,
            pool_id != token_a_contract,
            pool_id != token_b_contract,
            token_a_metadata.decimals <= MAX_DECIMALS,
            token_b_metadata.decimals <= MAX_DECIMALS,
        ensures
            r.wf(),
            r.spec_pool_id() == pool_id,
            r.spec_token_a_id() == token_a_contract,
            r.spec_token_b_id() == token_b_contract,
            r.spec_decimals_a() == token_a_metadata.decimals,
            r.spec_decimals_b() == token_b_metadata.decimals,
            r.ledger_a()@ == Map::<u64, u128>::empty().insert(pool_id, 0u128),
            r.ledger_b()@ == Map::<u64, u128>::empty().insert(pool_id, 0u128),
            r.shares()@ == Map::<u64, u128>::empty().insert(pool_id, 0u128),
            r.ledger_a().spec_total_supply() == 0,
            r.ledger_b().spec_total_supply() == 0,
            r.shares().spec_total_supply() == 0,
            r.spec_pending() == Seq::<PendingWithdrawal>::empty(),
            r.spec_next_request_id() == 0,
    {
        let mut token_a = Ledger::new();
        token_a.register_account(pool_id);
        let mut token_b = Ledger::new();
        token_b.register_account(pool_id);
        let mut token_amm = Ledger::new();
        token_amm.register_account(pool_id);
        let r = AMM {
            pool_id,
            token_a_id: token_a_contract,
            token_b_id: token_b_contract,
            meta_a: token_a_metadata,
            meta_b: token_b_metadata,
            token_a,
            token_b,
            token_amm,
            pending: Vec::new(),
            next_request_id: 0,
        };
        proof {
            assert(r.spec_pending() =~= Seq::<PendingWithdrawal>::empty());
        }
        r
    }

    /// The balance `account_id` holds of `token_name`: its share balance
    /// when `token_name` is the pool's own account, its reserve balance
    /// when it names a pooled asset. Unregistered accounts hold zero.
    pub fn ft_balance_of(&self, token_name: u64, account_id: u64) -> (r: Result<u128, AmmError>)
        requires
            self.wf(),
        ensures
            match r {
                Ok(b) => {
                    &&& (token_name == self.spec_pool_id() || self.is_reserve_token(token_name))
                    &&& (token_name == self.spec_pool_id() ==> b == self.shares().balance(
                        account_id,
                    ))
                    &&& (token_name != self.spec_pool_id() && self.is_reserve_token(token_name)
                        ==> b == self.reserve_ledger(token_name).balance(account_id))
                },
                Err(e) => {
                    &&& e == AmmError::UnknownAsset
                    &&& token_name != self.spec_pool_id()
                    &&& !self.is_reserve_token(token_name)
                },
            },
    {
        if token_name == self.pool_id {
            Ok(self.token_amm.ft_balance_of(account_id))
        } else if token_name == self.token_a_id {
            Ok(self.token_a.ft_balance_of(account_id))
        } else if token_name == self.token_b_id {
            Ok(self.token_b.ft_balance_of(account_id))
        } else {
            Err(AmmError::UnknownAsset)
        }
    }

    /// Registers `account_id` with the ledger of `token_name` (the share
    /// ledger when `token_name` is the pool's own account), so that it
    /// may hold a balance there. An existing registration is kept as is.
    pub fn storage_deposit(&mut self, token_name: u64, account_id: u64) -> (r: Result<
        (),
        AmmError,
    >)
        requires
            old(self).wf(),
        ensures
            final(self).wf(),
            final(self).same_identity(*old(self)),
            final(self).spec_pending() == old(self).spec_pending(),
            final(self).spec_next_request_id() == old(self).spec_next_request_id(),
            match r {
                Ok(()) => {
                    &&& (token_name == old(self).spec_pool_id() || old(self).is_reserve_token(
                        token_name,
                    ))
                    &&& (token_name == old(self).spec_pool_id() ==> registers_account(
                        old(self).shares(),
                        final(self).shares(),
                        account_id,
                    ) && final(self).ledger_a() == old(self).ledger_a() && final(self).ledger_b()
                        == old(self).ledger_b())
                    &&& (token_name != old(self).spec_pool_id() && old(self).is_reserve_token(
                        token_name,
                    ) ==> registers_account(
                        old(self).reserve_ledger(token_name),
                        final(self).reserve_ledger(token_name),
                        account_id,
                    ) && final(self).other_reserve_ledger(token_name) == old(
                        self,
                    ).other_reserve_ledger(token_name) && final(self).shares() == old(
                        self,
                    ).shares())
                },
                Err(e) => {
                    &&& e == AmmError::UnknownAsset
                    &&& token_name != old(self).spec_pool_id()
                    &&& !old(self).is_reserve_token(token_name)
                    &&& final(self).ledger_a() == old(self).ledger_a()
                    &&& final(self).ledger_b() == old(self).ledger_b()
                    &&& final(self).shares() == old(self).shares()
                },
            },
    {
        if token_name == self.pool_id {
            self.token_amm.register_if_absent(account_id);
            Ok(())
        } else if token_name == self.token_a_id {
            self.token_a.register_if_absent(account_id);
            Ok(())
        } else if token_name == self.token_b_id {
            self.token_b.register_if_absent(account_id);
            Ok(())
        } else {
            Err(AmmError::UnknownAsset)
        }
    }

    /// Books an incoming deposit: the asset contract `token_name` reports
    /// that `sender_id` paid `amount` into the pool, and the sender's
    /// internal reserve balance is credited. Returns the unused amount,
    /// which is always zero.
    pub fn ft_on_transfer(&mut self, token_name: u64, sender_id: u64, amount: u128) -> (r: Result<
        u128,
        AmmError,
    >)
        requires
            old(self).wf(),
            old(self).is_reserve_token(token_name) ==> old(self).reserve_ledger(
                token_name,
            ).registered(sender_id) && old(self).reserve_ledger(token_name).spec_total_supply()
                + amount <= u128::MAX,
        ensures
            final(self).wf(),
            final(self).same_identity(*old(self)),
            final(self).shares() == old(self).shares(),
            final(self).spec_pending() == old(self).spec_pending(),
            final(self).spec_next_request_id() == old(self).spec_next_request_id(),
            match r {
                Ok(v) => {
                    let before = old(self).reserve_ledger(token_name);
                    &&& v == 0
                    &&& old(self).is_reserve_token(token_name)
                    &&& final(self).reserve_ledger(token_name)@ == before@.insert(
                        sender_id,
                        (before@[sender_id] + amount) as u128,
                    )
                    &&& final(self).reserve_ledger(token_name).spec_total_supply()
                        == before.spec_total_supply() + amount
                    &&& final(self).other_reserve_ledger(token_name) == old(
                        self,
                    ).other_reserve_ledger(token_name)
                },
                Err(e) => {
                    &&& e == AmmError::UnknownAsset
                    &&& !old(self).is_reserve_token(token_name)
                    &&& final(self).ledger_a() == old(self).ledger_a()
                    &&& final(self).ledger_b() == old(self).ledger_b()
                },
            },
    {
        if token_name == self.token_a_id {
            self.token_a.deposit(sender_id, amount);
            Ok(0)
        } else if token_name == self.token_b_id {
            self.token_b.deposit(sender_id, amount);
            Ok(0)
        } else {
            Err(AmmError::UnknownAsset)
        }
    }

    /// The intermediate values of pricing a swap of `dx` units of `sell`
    /// into `buy` fit the 128-bit integer width.
    pub open spec fn swap_fits(self, buy: u64, sell: u64, dx: u128) -> bool {
        let md = common_decimals(self.reserve_decimals(sell), self.reserve_decimals(buy));
        let xs = self.reserve_ledger(sell)@[self.spec_pool_id()] * pow10(
            (md - self.reserve_decimals(sell)) as nat,
        );
        let ys = self.reserve_ledger(buy)@[self.spec_pool_id()] * pow10(
            (md - self.reserve_decimals(buy)) as nat,
        );
        &&& xs <= u128::MAX
        &&& ys <= u128::MAX
        &&& xs + dx <= u128::MAX
        &&& xs * ys <= u128::MAX
    }

    /// Swaps `sell_amount` of `sell_token_name` for `buy_token_name`:
    /// the caller's sale is credited to the pool's reserve, the output
    /// is priced by the constant-product rule on the pre-sale reserves
    /// aligned to a common precision, and the output amount, rescaled to
    /// the buy asset's precision, is paid from the pool's reserve to the
    /// caller. Both reserve mutations happen together or not at all.
    pub fn swap(
        &mut self,
        caller: u64,
        buy_token_name: u64,
        sell_token_name: u64,
        sell_amount: u128,
    ) -> (r: Result<u128, AmmError>)
        requires
            old(self).wf(),
            caller != old(self).spec_pool_id(),
            old(self).ledger_a().registered(caller),
            old(self).ledger_b().registered(caller),
            (buy_token_name != sell_token_name && old(self).is_reserve_token(buy_token_name)
                && old(self).is_reserve_token(sell_token_name)) ==> old(self).swap_fits(
                buy_token_name,
                sell_token_name,
                sell_amount,
            ),
        ensures
            final(self).wf(),
            final(self).same_identity(*old(self)),
            final(self).shares() == old(self).shares(),
            final(self).spec_pending() == old(self).spec_pending(),
            final(self).spec_next_request_id() == old(self).spec_next_request_id(),
            match r {
                Ok(amount) => {
                    let pool = old(self).spec_pool_id();
                    let x = old(self).reserve_ledger(sell_token_name)@[pool];
                    let y = old(self).reserve_ledger(buy_token_name)@[pool];
                    &&& buy_token_name != sell_token_name
                    &&& old(self).is_reserve_token(buy_token_name)
                    &&& old(self).is_reserve_token(sell_token_name)
                    &&& x > 0
                    &&& y > 0
                    &&& old(self).reserve_ledger(sell_token_name)@[caller] >= sell_amount
                    &&& amount == spec_swap_output(
                        x,
                        y,
                        old(self).reserve_decimals(sell_token_name),
                        old(self).reserve_decimals(buy_token_name),
                        sell_amount,
                    )
                    &&& final(self).reserve_ledger(sell_token_name)@ == old(self).reserve_ledger(
                        sell_token_name,
                    )@.insert(
                        caller,
                        (old(self).reserve_ledger(sell_token_name)@[caller] - sell_amount) as u128,
                    ).insert(pool, (x + sell_amount) as u128)
                    &&& final(self).reserve_ledger(buy_token_name)@ == old(self).reserve_ledger(
                        buy_token_name,
                    )@.insert(pool, (y - amount) as u128).insert(
                        caller,
                        (old(self).reserve_ledger(buy_token_name)@[caller] + amount) as u128,
                    )
                    &&& final(self).ledger_a().spec_total_supply() == old(
                        self,
                    ).ledger_a().spec_total_supply()
                    &&& final(self).ledger_b().spec_total_supply() == old(
                        self,
                    ).ledger_b().spec_total_supply()
                },
                Err(e) => {
                    let pool = old(self).spec_pool_id();
                    let known = old(self).is_reserve_token(buy_token_name) && old(
                        self,
                    ).is_reserve_token(sell_token_name);
                    let x = old(self).reserve_ledger(sell_token_name)@[pool];
                    let y = old(self).reserve_ledger(buy_token_name)@[pool];
                    &&& final(self).ledger_a() == old(self).ledger_a()
                    &&& final(self).ledger_b() == old(self).ledger_b()
                    &&& ((e == AmmError::InvalidArguments && (buy_token_name == sell_token_name || (
                    known && (x == 0 || y == 0)))) || (e == AmmError::UnknownAsset
                        && buy_token_name != sell_token_name && !known) || (e
                        == AmmError::InsufficientBalance && buy_token_name != sell_token_name
                        && known && x > 0 && y > 0 && old(self).reserve_ledger(
                        sell_token_name,
                    )@[caller] < sell_amount))
                },
            },
    {
        if buy_token_name == sell_token_name {
            return Err(AmmError::InvalidArguments);
        }
        let known_buy = buy_token_name == self.token_a_id || buy_token_name == self.token_b_id;
        let known_sell = sell_token_name == self.token_a_id || sell_token_name == self.token_b_id;
        if !known_buy || !known_sell {
            return Err(AmmError::UnknownAsset);
        }
        if sell_token_name == self.token_a_id {
            swap_ledgers(
                &mut self.token_a,
                &mut self.token_b,
                self.pool_id,
                caller,
                self.meta_a.decimals,
                self.meta_b.decimals,
                sell_amount,
            )
        } else {
            swap_ledgers(
                &mut self.token_b,
                &mut self.token_a,
                self.pool_id,
                caller,
                self.meta_b.decimals,
                self.meta_a.decimals,
                sell_amount,
            )
        }
    }

    /// The intermediate values of a proportional deposit of `amt_a` of
    /// `ta` and `amt_b` of `tb` fit the 128-bit integer width.
    pub open spec fn add_fits(self, ta: u64, amt_a: u128, tb: u64, amt_b: u128) -> bool {
        let md = common_decimals(self.reserve_decimals(ta), self.reserve_decimals(tb));
        &&& self.reserve_ledger(ta)@[self.spec_pool_id()] * amt_b <= u128::MAX
        &&& self.reserve_ledger(tb)@[self.spec_pool_id()] * amt_a <= u128::MAX
        &&& amt_a * pow10((md - self.reserve_decimals(ta)) as nat) <= u128::MAX
        &&& amt_b * pow10((md - self.reserve_decimals(tb)) as nat) <= u128::MAX
        &&& self.shares().spec_total_supply() + spec_mint_share(
            amt_a,
            amt_b,
            self.reserve_decimals(ta),
            self.reserve_decimals(tb),
        ) <= u128::MAX
    }

    /// Deposits `token_a_amount` of `token_a_name` and `token_b_amount`
    /// of `token_b_name` into the pool. The amounts must match the
    /// current reserve ratio exactly; on success both amounts move from
    /// the caller to the pool's account, and the caller is credited with
    /// shares equal to the sum of the two amounts at the pool's common
    /// precision. Nothing moves on any failure.
    pub fn add_tokens_to_pool(
        &mut self,
        caller: u64,
        token_a_name: u64,
        token_a_amount: u128,
        token_b_name: u64,
        token_b_amount: u128,
    ) -> (r: Result<(), AmmError>)
        requires
            old(self).wf(),
            caller != old(self).spec_pool_id(),
            old(self).ledger_a().registered(caller),
            old(self).ledger_b().registered(caller),
            old(self).shares().registered(caller),
            (token_a_name != token_b_name && old(self).is_reserve_token(token_a_name) && old(
                self,
            ).is_reserve_token(token_b_name)) ==> old(self).add_fits(
                token_a_name,
                token_a_amount,
                token_b_name,
                token_b_amount,
            ),
        ensures
            final(self).wf(),
            final(self).same_identity(*old(self)),
            final(self).spec_pending() == old(self).spec_pending(),
            final(self).spec_next_request_id() == old(self).spec_next_request_id(),
            final(self).ledger_a().spec_total_supply() == old(self).ledger_a().spec_total_supply(),
            final(self).ledger_b().spec_total_supply() == old(self).ledger_b().spec_total_supply(),
            match r {
                Ok(()) => {
                    let pool = old(self).spec_pool_id();
                    let rx = old(self).reserve_ledger(token_a_name)@[pool];
                    let ry = old(self).reserve_ledger(token_b_name)@[pool];
                    let mint = spec_mint_share(
                        token_a_amount,
                        token_b_amount,
                        old(self).reserve_decimals(token_a_name),
                        old(self).reserve_decimals(token_b_name),
                    );
                    &&& token_a_name != token_b_name
                    &&& old(self).is_reserve_token(token_a_name)
                    &&& old(self).is_reserve_token(token_b_name)
                    &&& rx * token_b_amount == ry * token_a_amount
                    &&& old(self).reserve_ledger(token_a_name)@[caller] >= token_a_amount
                    &&& old(self).reserve_ledger(token_b_name)@[caller] >= token_b_amount
                    &&& final(self).reserve_ledger(token_a_name)@ == old(self).reserve_ledger(
                        token_a_name,
                    )@.insert(
                        caller,
                        (old(self).reserve_ledger(token_a_name)@[caller] - token_a_amount) as u128,
                    ).insert(pool, (rx + token_a_amount) as u128)
                    &&& final(self).reserve_ledger(token_b_name)@ == old(self).reserve_ledger(
                        token_b_name,
                    )@.insert(
                        caller,
                        (old(self).reserve_ledger(token_b_name)@[caller] - token_b_amount) as u128,
                    ).insert(pool, (ry + token_b_amount) as u128)
                    &&& final(self).shares()@ == old(self).shares()@.insert(
                        caller,
                        (old(self).shares()@[caller] + mint) as u128,
                    )
                    &&& final(self).shares().spec_total_supply() == old(
                        self,
                    ).shares().spec_total_supply() + mint
                },
                Err(e) => {
                    let pool = old(self).spec_pool_id();
                    let known = old(self).is_reserve_token(token_a_name) && old(
                        self,
                    ).is_reserve_token(token_b_name);
                    let rx = old(self).reserve_ledger(token_a_name)@[pool];
                    let ry = old(self).reserve_ledger(token_b_name)@[pool];
                    &&& final(self).ledger_a() == old(self).ledger_a()
                    &&& final(self).ledger_b() == old(self).ledger_b()
                    &&& final(self).shares() == old(self).shares()
                    &&& ((e == AmmError::InvalidArguments && token_a_name == token_b_name) || (e
                        == AmmError::UnknownAsset && token_a_name != token_b_name && !known) || (e
                        == AmmError::ProportionMismatch && token_a_name != token_b_name && known
                        && rx * token_b_amount != ry * token_a_amount) || (e
                        == AmmError::InsufficientBalance && token_a_name != token_b_name && known
                        && rx * token_b_amount == ry * token_a_amount && (old(self).reserve_ledger(
                        token_a_name,
                    )@[caller] < token_a_amount || old(self).reserve_ledger(token_b_name)@[caller]
                        < token_b_amount)))
                },
            },
    {
        if token_a_name == token_b_name {
            return Err(AmmError::InvalidArguments);
        }
        let known_a = token_a_name == self.token_a_id || token_a_name == self.token_b_id;
        let known_b = token_b_name == self.token_a_id || token_b_name == self.token_b_id;
        if !known_a || !known_b {
            return Err(AmmError::UnknownAsset);
        }
        if token_a_name == self.token_a_id {
            add_to_pool(
                &mut self.token_a,
                &mut self.token_b,
                &mut self.token_amm,
                self.pool_id,
                caller,
                self.meta_a.decimals,
                self.meta_b.decimals,
                token_a_amount,
                token_b_amount,
            )
        } else {
            add_to_pool(
                &mut self.token_b,
                &mut self.token_a,
                &mut self.token_amm,
                self.pool_id,
                caller,
                self.meta_b.decimals,
                self.meta_a.decimals,
                token_a_amount,
                token_b_amount,
            )
        }
    }

    /// The intermediate values of a whole-position redemption over the
    /// assets `ta` and `tb` fit the 128-bit integer width.
    pub open spec fn remove_fits(self, ta: u64, tb: u64) -> bool {
        &&& self.shares().spec_total_supply() * self.reserve_ledger(ta)@[self.spec_pool_id()]
            <= u128::MAX
        &&& self.shares().spec_total_supply() * self.reserve_ledger(tb)@[self.spec_pool_id()]
            <= u128::MAX
    }

    /// Redeems the caller's entire share position: the share balance is
    /// burned down to zero and, for each asset, the share supply times
    /// the pool's reserve divided by the caller's share balance moves
    /// from the pool's account back to the caller. Fails without moving
    /// anything when the caller holds no shares or the pool's reserves
    /// cannot cover the computed entitlement.
    pub fn exclude_tokens_from_pool(
        &mut self,
        caller: u64,
        token_a_name: u64,
        token_b_name: u64,
    ) -> (r: Result<(), AmmError>)
        requires
            old(self).wf(),
            caller != old(self).spec_pool_id(),
            old(self).ledger_a().registered(caller),
            old(self).ledger_b().registered(caller),
            (token_a_name != token_b_name && old(self).is_reserve_token(token_a_name) && old(
                self,
            ).is_reserve_token(token_b_name)) ==> old(self).remove_fits(
                token_a_name,
                token_b_name,
            ),
        ensures
            final(self).wf(),
            final(self).same_identity(*old(self)),
            final(self).spec_pending() == old(self).spec_pending(),
            final(self).spec_next_request_id() == old(self).spec_next_request_id(),
            final(self).ledger_a().spec_total_supply() == old(self).ledger_a().spec_total_supply(),
            final(self).ledger_b().spec_total_supply() == old(self).ledger_b().spec_total_supply(),
            match r {
                Ok(()) => {
                    let pool = old(self).spec_pool_id();
                    let cs = old(self).shares().balance(caller);
                    let s_total = old(self).shares().spec_total_supply();
                    let rx = old(self).reserve_ledger(token_a_name)@[pool];
                    let ry = old(self).reserve_ledger(token_b_name)@[pool];
                    let x_out = spec_entitlement(s_total as int, rx as int, cs as int);
                    let y_out = spec_entitlement(s_total as int, ry as int, cs as int);
                    &&& token_a_name != token_b_name
                    &&& old(self).is_reserve_token(token_a_name)
                    &&& old(self).is_reserve_token(token_b_name)
                    &&& cs > 0
                    &&& x_out <= rx
                    &&& y_out <= ry
                    &&& final(self).shares()@ == old(self).shares()@.insert(caller, 0u128)
                    &&& final(self).shares().spec_total_supply() == old(
                        self,
                    ).shares().spec_total_supply() - cs
                    &&& final(self).reserve_ledger(token_a_name)@ == old(self).reserve_ledger(
                        token_a_name,
                    )@.insert(pool, (rx - x_out) as u128).insert(
                        caller,
                        (old(self).reserve_ledger(token_a_name)@[caller] + x_out) as u128,
                    )
                    &&& final(self).reserve_ledger(token_b_name)@ == old(self).reserve_ledger(
                        token_b_name,
                    )@.insert(pool, (ry - y_out) as u128).insert(
                        caller,
                        (old(self).reserve_ledger(token_b_name)@[caller] + y_out) as u128,
                    )
                },
                Err(e) => {
                    let pool = old(self).spec_pool_id();
                    let known = old(self).is_reserve_token(token_a_name) && old(
                        self,
                    ).is_reserve_token(token_b_name);
                    let cs = old(self).shares().balance(caller);
                    let s_total = old(self).shares().spec_total_supply();
                    let rx = old(self).reserve_ledger(token_a_name)@[pool];
                    let ry = old(self).reserve_ledger(token_b_name)@[pool];
                    &&& final(self).ledger_a() == old(self).ledger_a()
                    &&& final(self).ledger_b() == old(self).ledger_b()
                    &&& final(self).shares() == old(self).shares()
                    &&& ((e == AmmError::InvalidArguments && token_a_name == token_b_name) || (e
                        == AmmError::UnknownAsset && token_a_name != token_b_name && !known) || (e
                        == AmmError::ZeroShareBalance && token_a_name != token_b_name && known
                        && cs == 0) || (e == AmmError::InsufficientBalance && token_a_name
                        != token_b_name && known && cs > 0 && (spec_entitlement(
                        s_total as int,
                        rx as int,
                        cs as int,
                    ) > rx || spec_entitlement(s_total as int, ry as int, cs as int) > ry)))
                },
            },
    {
        if token_a_name == token_b_name {
            return Err(AmmError::InvalidArguments);
        }
        let known_a = token_a_name == self.token_a_id || token_a_name == self.token_b_id;
        let known_b = token_b_name == self.token_a_id || token_b_name == self.token_b_id;
        if !known_a || !known_b {
            return Err(AmmError::UnknownAsset);
        }
        if token_a_name == self.token_a_id {
            remove_from_pool(
                &mut self.token_a,
                &mut self.token_b,
                &mut self.token_amm,
                self.pool_id,
                caller,
            )
        } else {
            remove_from_pool(
                &mut self.token_b,
                &mut self.token_a,
                &mut self.token_amm,
                self.pool_id,
                caller,
            )
        }
    }

    /// Opens a withdrawal of `amount` of `token_name` for `caller` and
    /// returns the record the surrounding layer must hand to the
    /// external transfer capability. The caller's internal balance is
    /// deliberately not checked here: the check is deferred until the
    /// transfer is confirmed, so a request larger than the balance still
    /// becomes pending.
    pub fn withdraw_tokens(&mut self, caller: u64, token_name: u64, amount: u128) -> (r: Result<
        PendingWithdrawal,
        AmmError,
    >)
        requires
            old(self).wf(),
            old(self).spec_next_request_id() < u64::MAX,
        ensures
            final(self).wf(),
            final(self).same_identity(*old(self)),
            final(self).ledger_a() == old(self).ledger_a(),
            final(self).ledger_b() == old(self).ledger_b(),
            final(self).shares() == old(self).shares(),
            match r {
                Ok(p) => {
                    &&& old(self).is_reserve_token(token_name)
                    &&& p.request_id == old(self).spec_next_request_id()
                    &&& p.requester == caller
                    &&& p.token_id == token_name
                    &&& p.amount == amount
                    &&& final(self).spec_pending() == old(self).spec_pending().push(p)
                    &&& final(self).spec_next_request_id() == old(self).spec_next_request_id() + 1
                },
                Err(e) => {
                    &&& e == AmmError::UnknownAsset
                    &&& !old(self).is_reserve_token(token_name)
                    &&& final(self).spec_pending() == old(self).spec_pending()
                    &&& final(self).spec_next_request_id() == old(self).spec_next_request_id()
                },
            },
    {
        if !(token_name == self.token_a_id || token_name == self.token_b_id) {
            return Err(AmmError::UnknownAsset);
        }
        let p = PendingWithdrawal {
            request_id: self.next_request_id,
            requester: caller,
            token_id: token_name,
            amount,
        };
        let ghost s0 = self.pending@;
        self.pending.push(p);
        self.next_request_id = self.next_request_id + 1;
        proof {
            let s1 = self.pending@;
            assert forall|i: int, j: int|
                0 <= i < j < s1.len() implies (#[trigger] s1[i]).request_id
                != (#[trigger] s1[j]).request_id by {
                if j == s0.len() {
                    assert(s1[i] == s0[i]);
                } else {
                    assert(s1[i] == s0[i]);
                    assert(s1[j] == s0[j]);
                }
            }
            assert forall|i: int|
                0 <= i < s1.len() implies (#[trigger] s1[i]).request_id
                < self.next_request_id by {
                if i < s0.len() {
                    assert(s1[i] == s0[i]);
                }
            }
            assert forall|i: int|
                0 <= i < s1.len() implies (#[trigger] s1[i]).token_id == self.token_a_id
                || s1[i].token_id == self.token_b_id by {
                if i < s0.len() {
                    assert(s1[i] == s0[i]);
                }
            }
        }
        Ok(p)
    }

    /// The position of the pending withdrawal carrying `request_id`.
    fn find_pending(&self, request_id: u64) -> (r: Option<usize>)
        ensures
            match r {
                Some(i) => i < self.spec_pending().len() && self.spec_pending()[i as int].request_id
                    == request_id,
                None => !has_pending(self.spec_pending(), request_id),
            },
    {
        let n = self.pending.len();
        let mut i: usize = 0;
        while i < n
            invariant
                i <= n,
                n == self.pending@.len(),
                forall|j: int| 0 <= j < i ==> (#[trigger] self.pending@[j]).request_id != request_id,
            decreases n - i,
        {
            if self.pending[i].request_id == request_id {
                return Some(i);
            }
            i = i + 1;
        }
        None
    }

    /// Settles the confirmation of the pending withdrawal `request_id`.
    /// The record leaves the pending table either way. On a reported
    /// success the requested amount is debited from the internal balance
    /// of the account captured at request time; a requester who cannot
    /// cover the amount makes the confirmation fail with the ledger
    /// untouched. On a reported failure no ledger is mutated.
    pub fn withdraw_tokens_callback(&mut self, request_id: u64, success: bool) -> (r: Result<
        (),
        AmmError,
    >)
        requires
            old(self).wf(),
            has_pending(old(self).spec_pending(), request_id),
        ensures
            final(self).wf(),
            final(self).same_identity(*old(self)),
            final(self).shares() == old(self).shares(),
            final(self).spec_next_request_id() == old(self).spec_next_request_id(),
            ({
                let i = pending_index_of(old(self).spec_pending(), request_id);
                let p = old(self).spec_pending()[i];
                let l = old(self).reserve_ledger(p.token_id);
                let can_pay = l.registered(p.requester) && l@[p.requester] >= p.amount;
                &&& final(self).spec_pending() == old(self).spec_pending().remove(i)
                &&& match r {
                    Ok(()) => {
                        &&& success
                        &&& can_pay
                        &&& final(self).reserve_ledger(p.token_id)@ == l@.insert(
                            p.requester,
                            (l@[p.requester] - p.amount) as u128,
                        )
                        &&& final(self).reserve_ledger(p.token_id).spec_total_supply()
                            == l.spec_total_supply() - p.amount
                        &&& final(self).other_reserve_ledger(p.token_id) == old(
                            self,
                        ).other_reserve_ledger(p.token_id)
                    },
                    Err(e) => {
                        &&& final(self).ledger_a() == old(self).ledger_a()
                        &&& final(self).ledger_b() == old(self).ledger_b()
                        &&& ((e == AmmError::ExternalTransferFailed && !success) || (e
                            == AmmError::InsufficientBalance && success && !can_pay))
                    },
                }
            }),
    {
        let idx = match self.find_pending(request_id) {
            Some(i) => i,
            None => {
                proof {
                    assert(false);
                }
                0
            },
        };
        let ghost s0 = self.pending@;
        let ghost ci = pending_index_of(s0, request_id);
        proof {
            assert(0 <= ci < s0.len() && s0[ci].request_id == request_id);
            if idx as int != ci {
                if (idx as int) < ci {
                    assert(s0[idx as int].request_id != s0[ci].request_id);
                } else {
                    assert(s0[ci].request_id != s0[idx as int].request_id);
                }
            }
        }
        let p = self.pending[idx];
        self.pending.remove(idx);
        proof {
            s0.remove_ensures(ci);
            let s1 = self.pending@;
            assert forall|i: int, j: int|
                0 <= i < j < s1.len() implies (#[trigger] s1[i]).request_id
                != (#[trigger] s1[j]).request_id by {
                let i0 = if i < ci {
                    i
                } else {
                    i + 1
                };
                let j0 = if j < ci {
                    j
                } else {
                    j + 1
                };
                assert(s1[i] == s0[i0]);
                assert(s1[j] == s0[j0]);
            }
            assert forall|i: int|
                0 <= i < s1.len() implies (#[trigger] s1[i]).request_id
                < self.next_request_id by {
                if i < ci {
                    assert(s1[i] == s0[i]);
                } else {
                    assert(s1[i] == s0[i + 1]);
                }
            }
            assert forall|i: int|
                0 <= i < s1.len() implies (#[trigger] s1[i]).token_id == self.token_a_id
                || s1[i].token_id == self.token_b_id by {
                if i < ci {
                    assert(s1[i] == s0[i]);
                } else {
                    assert(s1[i] == s0[i + 1]);
                }
            }
        }
        if !success {
            return Err(AmmError::ExternalTransferFailed);
        }
        if p.token_id == self.token_a_id {
            if !self.token_a.contains_account(p.requester) || self.token_a.ft_balance_of(
                p.requester,
            ) < p.amount {
                return Err(AmmError::InsufficientBalance);
            }
            self.token_a.withdraw(p.requester, p.amount);
            Ok(())
        } else {
            proof {
                assert(s0[ci].token_id == old(self).spec_token_a_id() || s0[ci].token_id == old(
                    self,
                ).spec_token_b_id());
            }
            if !self.token_b.contains_account(p.requester) || self.token_b.ft_balance_of(
                p.requester,
            ) < p.amount {
                return Err(AmmError::InsufficientBalance);
            }
            self.token_b.withdraw(p.requester, p.amount);
            Ok(())
        }
    }
}

/// Rescaling both sides of the proportion check to a common precision
/// never changes its outcome: with positive scale factors `pa` and `pb`,
/// the cross products of the scaled reserves and amounts are equal
/// exactly when the cross products of the raw values are.
pub proof fn lemma_proportion_scale_invariant(ra: int, rb: int, a: int, b: int, pa: int, pb: int)
    requires
        0 < pa,
        0 < pb,
    ensures
        ((ra * pa) * (b * pb) == (rb * pb) * (a * pa)) <==> (ra * b == rb * a),
{
    assert((ra * pa) * (b * pb) == (pa * pb) * (ra * b)) by (nonlinear_arith);
    assert((rb * pb) * (a * pa) == (pa * pb) * (rb * a)) by (nonlinear_arith);
    assert(pa * pb > 0) by (nonlinear_arith)
        requires
            0 < pa,
            0 < pb,
    ;
    if (ra * pa) * (b * pb) == (rb * pb) * (a * pa) {
        lemma_mul_equality_converse(pa * pb, ra * b, rb * a);
    }
}

/// The proportion check is judged against the current reserves, not the
/// amounts of an earlier deposit: an accepted deposit `(a1, b1)` into a
/// funded pool with reserves `(ra, rb)` keeps the reserve ratio, so a
/// following deposit `(a2, b2)` passes the check against the updated
/// reserves exactly when it matches the original reserve ratio.
pub proof fn lemma_proportion_is_reserve_relative(
    ra: int,
    rb: int,
    a1: int,
    b1: int,
    a2: int,
    b2: int,
)
    requires
        0 <= ra,
        0 < rb,
        0 <= a1,
        0 <= b1,
        ra * b1 == rb * a1,
    ensures
        (ra + a1) * rb == (rb + b1) * ra,
        ((ra + a1) * b2 == (rb + b1) * a2) <==> (ra * b2 == rb * a2),
{
    assert((ra + a1) * rb == (rb + b1) * ra) by (nonlinear_arith)
        requires
            ra * b1 == rb * a1,
    ;
    if (ra + a1) * b2 == (rb + b1) * a2 {
        assert(ra * b2 == rb * a2) by (nonlinear_arith)
            requires
                (ra + a1) * b2 == (rb + b1) * a2,
                (ra + a1) * rb == (rb + b1) * ra,
                0 < rb,
                0 <= b1,
        ;
    }
    if ra * b2 == rb * a2 {
        assert((ra + a1) * b2 == (rb + b1) * a2) by (nonlinear_arith)
            requires
                ra * b2 == rb * a2,
                (ra + a1) * rb == (rb + b1) * ra,
                0 < rb,
        ;
    }
}

/// Redeeming the entire share supply pays the whole pool back: when one
/// deposit of `(amt_a, amt_b)` into an empty pool minted every
/// outstanding share, the redemption entitlement of the holder of all
/// those shares is exactly the deposited amount of each asset, and the
/// burned share balance leaves the position closed.
pub proof fn lemma_full_redemption_closes_position(amt_a: u128, amt_b: u128, da: u8, db: u8)
    requires
        amt_a > 0 || amt_b > 0,
    ensures
        ({
            let s = spec_mint_share(amt_a, amt_b, da, db);
            &&& s > 0
            &&& spec_entitlement(s, amt_a as int, s) == amt_a
            &&& spec_entitlement(s, amt_b as int, s) == amt_b
        }),
{
    let md = common_decimals(da, db);
    lemma_pow10_pos((md - da) as nat);
    lemma_pow10_pos((md - db) as nat);
    let s = spec_mint_share(amt_a, amt_b, da, db);
    assert(amt_a * pow10((md - da) as nat) >= amt_a * 1) by (nonlinear_arith)
        requires
            pow10((md - da) as nat) >= 1,
    ;
    assert(amt_b * pow10((md - db) as nat) >= amt_b * 1) by (nonlinear_arith)
        requires
            pow10((md - db) as nat) >= 1,
    ;
    lemma_div_multiples_vanish(amt_a as int, s);
    lemma_div_multiples_vanish(amt_b as int, s);
}

} // verus!
