use crate::errors::AmmError;
use crate::ledger::Ledger;
use vstd::arithmetic::div_mod::lemma_multiply_divide_lt;
use vstd::arithmetic::mul::{lemma_mul_inequality, lemma_mul_is_distributive_add};
use vstd::prelude::*;

verus! {

/// The constant-product swap output with the quotient rounded to the
/// nearest integer: half of the new input reserve is added to the
/// numerator before the truncating division.
pub open spec fn spec_dy_round(x: int, y: int, dx: int) -> int {
    y - (x * y + (x + dx) / 2) / (x + dx)
}

/// The constant-product swap output on executable integers, rounding the
/// quotient to the nearest integer. The input reserve `x` and the input
/// amount `dx` may not both be zero, and the intermediate values must fit
/// the integer width.
pub fn calc_dy(x: u128, y: u128, dx: u128) -> (r: u128)
    requires
        x + dx > 0,
        x + dx <= u128::MAX,
        x * y + (x + dx) / 2 <= u128::MAX,
    ensures
        r == spec_dy_round(x as int, y as int, dx as int),
        r <= y,
{
    let s = x + dx;
    let h = s >> 1;
    proof {
        assert(s >> 1 == s / 2) by (bit_vector);
    }
    let q = (x * y + h) / s;
    proof {
        lemma_mul_inequality(x as int, s as int, y as int);
        lemma_mul_is_distributive_add(s as int, y as int, 1);
        lemma_multiply_divide_lt((x * y + h) as int, s as int, y as int + 1);
    }
    y - q
}

fn init_wallets(account_id: u64, balance: u128) -> (r: Ledger)
    ensures
        r.wf(),
        r@ == Map::<u64, u128>::empty().insert(account_id, balance),
        r.spec_total_supply() == balance,
{
    let mut a = Ledger::new();
    a.register_account(account_id);
    a.deposit(account_id, balance);
    proof {
        assert(a@ =~= Map::<u64, u128>::empty().insert(account_id, balance));
    }
    a
}

/// A fixed pair of token ledgers owned by one account, traded against
/// each other at the constant-product price with rounding to nearest.
pub struct Swap {
    owner_id: u64,
    token_a: Ledger,
    token_b: Ledger,
}

impl Default for Swap {
    /// A fresh pair owned by account `0`, whose wallet starts with ten
    /// A-tokens and twenty B-tokens.
    fn default() -> (r: Swap)
        ensures
            r.wf(),
            r.spec_owner() == 0,
            r.ledger_a()@ == Map::<u64, u128>::empty().insert(0u64, 10u128),
            r.ledger_b()@ == Map::<u64, u128>::empty().insert(0u64, 20u128),
            r.ledger_a().spec_total_supply() == 10,
            r.ledger_b().spec_total_supply() == 20,
    {
        let token_a = init_wallets(0, 10);
        let token_b = init_wallets(0, 20);
        Swap { owner_id: 0, token_a, token_b }
    }
}

impl Swap {
    /// The account holding the tradable reserves.
    pub closed spec fn spec_owner(self) -> u64 {
        self.owner_id
    }

    /// The A-token ledger.
    pub closed spec fn ledger_a(self) -> Ledger {
        self.token_a
    }

    /// The B-token ledger.
    pub closed spec fn ledger_b(self) -> Ledger {
        self.token_b
    }

    /// Both ledgers are consistent and the owner is registered in each.
    pub open spec fn wf(self) -> bool {
        &&& self.ledger_a().wf()
        &&& self.ledger_b().wf()
        &&& self.ledger_a().registered(self.spec_owner())
        &&& self.ledger_b().registered(self.spec_owner())
    }

    /// The A-token balance of a registered account.
    pub fn get_balance_a(&self, account_id: u64) -> (r: u128)
        requires
            self.wf(),
            self.ledger_a().registered(account_id),
        ensures
            r == self.ledger_a()@[account_id],
    {
        self.token_a.balance_of(account_id)
    }

    /// The B-token balance of a registered account.
    pub fn get_balance_b(&self, account_id: u64) -> (r: u128)
        requires
            self.wf(),
            self.ledger_b().registered(account_id),
        ensures
            r == self.ledger_b()@[account_id],
    {
        self.token_b.balance_of(account_id)
    }

    /// The owner's A-token reserve.
    pub fn get_total_a_tokens(&self) -> (r: u128)
        requires
            self.wf(),
        ensures
            r == self.ledger_a()@[self.spec_owner()],
    {
        self.token_a.balance_of(self.owner_id)
    }

    /// The owner's B-token reserve.
    pub fn get_total_b_tokens(&self) -> (r: u128)
        requires
            self.wf(),
        ensures
            r == self.ledger_b()@[self.spec_owner()],
    {
        self.token_b.balance_of(self.owner_id)
    }

    /// Registers the caller in both ledgers; existing balances are kept.
    pub fn init_my_account(&mut self, caller: u64)
        requires
            old(self).wf(),
        ensures
            final(self).wf(),
            final(self).spec_owner() == old(self).spec_owner(),
            final(self).ledger_a().registered(caller),
            final(self).ledger_b().registered(caller),
            old(self).ledger_a().registered(caller) ==> final(self).ledger_a()@ == old(
                self,
            ).ledger_a()@,
            !old(self).ledger_a().registered(caller) ==> final(self).ledger_a()@ == old(
                self,
            ).ledger_a()@.insert(caller, 0u128),
            old(self).ledger_b().registered(caller) ==> final(self).ledger_b()@ == old(
                self,
            ).ledger_b()@,
            !old(self).ledger_b().registered(caller) ==> final(self).ledger_b()@ == old(
                self,
            ).ledger_b()@.insert(caller, 0u128),
            final(self).ledger_a().spec_total_supply() == old(self).ledger_a().spec_total_supply(),
            final(self).ledger_b().spec_total_supply() == old(self).ledger_b().spec_total_supply(),
    {
        self.token_a.register_if_absent(caller);
        self.token_b.register_if_absent(caller);
    }

    /// Hands the caller `x` A-tokens and `y` B-tokens out of the owner's
    /// wallet, or refuses without any transfer when the owner is short on
    /// either side.
    pub fn get_some_tokens(&mut self, caller: u64, x: u128, y: u128) -> (r: Result<(), AmmError>)
        requires
            old(self).wf(),
            caller != old(self).spec_owner(),
            old(self).ledger_a().registered(caller),
            old(self).ledger_b().registered(caller),
        ensures
            final(self).wf(),
            final(self).spec_owner() == old(self).spec_owner(),
            final(self).ledger_a().spec_total_supply() == old(self).ledger_a().spec_total_supply(),
            final(self).ledger_b().spec_total_supply() == old(self).ledger_b().spec_total_supply(),
            match r {
                Ok(()) => {
                    let owner = old(self).spec_owner();
                    &&& old(self).ledger_a()@[owner] >= x
                    &&& old(self).ledger_b()@[owner] >= y
                    &&& final(self).ledger_a()@ == old(self).ledger_a()@.insert(
                        owner,
                        (old(self).ledger_a()@[owner] - x) as u128,
                    ).insert(caller, (old(self).ledger_a()@[caller] + x) as u128)
                    &&& final(self).ledger_b()@ == old(self).ledger_b()@.insert(
                        owner,
                        (old(self).ledger_b()@[owner] - y) as u128,
                    ).insert(caller, (old(self).ledger_b()@[caller] + y) as u128)
                },
                Err(e) => {
                    let owner = old(self).spec_owner();
                    &&& e == AmmError::InsufficientBalance
                    &&& (old(self).ledger_a()@[owner] < x || old(self).ledger_b()@[owner] < y)
                    &&& final(self).ledger_a()@ == old(self).ledger_a()@
                    &&& final(self).ledger_b()@ == old(self).ledger_b()@
                },
            },
    {
        let owner = self.owner_id;
        if self.token_a.balance_of(owner) < x || self.token_b.balance_of(owner) < y {
            return Err(AmmError::InsufficientBalance);
        }
        self.token_a.transfer(owner, caller, x);
        self.token_b.transfer(owner, caller, y);
        Ok(())
    }

    /// Sells `sell_amount` A-tokens to the owner's reserves and credits
    /// the caller with B-tokens at the constant-product price, computed
    /// on the reserves as they stood before the sale was credited.
    pub fn buy_b_tokens(&mut self, caller: u64, sell_amount: u128) -> (r: Result<(), AmmError>)
        requires
            old(self).wf(),
            caller != old(self).spec_owner(),
            old(self).ledger_a().registered(caller),
            old(self).ledger_b().registered(caller),
            old(self).ledger_a()@[old(self).spec_owner()] + sell_amount <= u128::MAX,
            old(self).ledger_a()@[old(self).spec_owner()] * old(self).ledger_b()@[old(
                self,
            ).spec_owner()] + (old(self).ledger_a()@[old(self).spec_owner()] + sell_amount) / 2
                <= u128::MAX,
        ensures
            final(self).wf(),
            final(self).spec_owner() == old(self).spec_owner(),
            final(self).ledger_a().spec_total_supply() == old(self).ledger_a().spec_total_supply(),
            final(self).ledger_b().spec_total_supply() == old(self).ledger_b().spec_total_supply(),
            match r {
                Ok(()) => {
                    let owner = old(self).spec_owner();
                    let x = old(self).ledger_a()@[owner];
                    let y = old(self).ledger_b()@[owner];
                    let dy = spec_dy_round(x as int, y as int, sell_amount as int);
                    &&& x > 0
                    &&& y > 0
                    &&& old(self).ledger_a()@[caller] >= sell_amount
                    &&& final(self).ledger_a()@ == old(self).ledger_a()@.insert(
                        caller,
                        (old(self).ledger_a()@[caller] - sell_amount) as u128,
                    ).insert(owner, (x + sell_amount) as u128)
                    &&& final(self).ledger_b()@ == old(self).ledger_b()@.insert(
                        owner,
                        (y - dy) as u128,
                    ).insert(caller, (old(self).ledger_b()@[caller] + dy) as u128)
                },
                Err(e) => {
                    let owner = old(self).spec_owner();
                    let x = old(self).ledger_a()@[owner];
                    let y = old(self).ledger_b()@[owner];
                    &&& final(self).ledger_a()@ == old(self).ledger_a()@
                    &&& final(self).ledger_b()@ == old(self).ledger_b()@
                    &&& ((e == AmmError::InvalidArguments && (x == 0 || y == 0)) || (e
                        == AmmError::InsufficientBalance && x > 0 && y > 0 && old(
                        self,
                    ).ledger_a()@[caller] < sell_amount))
                },
            },
    {
        let owner = self.owner_id;
        let x = self.token_a.balance_of(owner);
        let y = self.token_b.balance_of(owner);
        if x == 0 || y == 0 {
            return Err(AmmError::InvalidArguments);
        }
        if self.token_a.balance_of(caller) < sell_amount {
            return Err(AmmError::InsufficientBalance);
        }
        self.token_a.transfer(caller, owner, sell_amount);
        let dy = calc_dy(x, y, sell_amount);
        self.token_b.transfer(owner, caller, dy);
        Ok(())
    }

    /// Sells `sell_amount` B-tokens to the owner's reserves and credits
    /// the caller with A-tokens at the constant-product price, computed
    /// on the reserves as they stood before the sale was credited.
    pub fn buy_a_tokens(&mut self, caller: u64, sell_amount: u128) -> (r: Result<(), AmmError>)
        requires
            old(self).wf(),
            caller != old(self).spec_owner(),
            old(self).ledger_a().registered(caller),
            old(self).ledger_b().registered(caller),
            old(self).ledger_b()@[old(self).spec_owner()] + sell_amount <= u128::MAX,
            old(self).ledger_b()@[old(self).spec_owner()] * old(self).ledger_a()@[old(
                self,
            ).spec_owner()] + (old(self).ledger_b()@[old(self).spec_owner()] + sell_amount) / 2
                <= u128::MAX,
        ensures
            final(self).wf(),
            final(self).spec_owner() == old(self).spec_owner(),
            final(self).ledger_a().spec_total_supply() == old(self).ledger_a().spec_total_supply(),
            final(self).ledger_b().spec_total_supply() == old(self).ledger_b().spec_total_supply(),
            match r {
                Ok(()) => {
                    let owner = old(self).spec_owner();
                    let x = old(self).ledger_b()@[owner];
                    let y = old(self).ledger_a()@[owner];
                    let dy = spec_dy_round(x as int, y as int, sell_amount as int);
                    &&& x > 0
                    &&& y > 0
                    &&& old(self).ledger_b()@[caller] >= sell_amount
                    &&& final(self).ledger_b()@ == old(self).ledger_b()@.insert(
                        caller,
                        (old(self).ledger_b()@[caller] - sell_amount) as u128,
                    ).insert(owner, (x + sell_amount) as u128)
                    &&& final(self).ledger_a()@ == old(self).ledger_a()@.insert(
                        owner,
                        (y - dy) as u128,
                    ).insert(caller, (old(self).ledger_a()@[caller] + dy) as u128)
                },
                Err(e) => {
                    let owner = old(self).spec_owner();
                    let x = old(self).ledger_b()@[owner];
                    let y = old(self).ledger_a()@[owner];
                    &&& final(self).ledger_a()@ == old(self).ledger_a()@
                    &&& final(self).ledger_b()@ == old(self).ledger_b()@
                    &&& ((e == AmmError::InvalidArguments && (x == 0 || y == 0)) || (e
                        == AmmError::InsufficientBalance && x > 0 && y > 0 && old(
                        self,
                    ).ledger_b()@[caller] < sell_amount))
                },
            },
    {
        let owner = self.owner_id;
        let x = self.token_b.balance_of(owner);
        let y = self.token_a.balance_of(owner);
        if x == 0 || y == 0 {
            return Err(AmmError::InvalidArguments);
        }
        if self.token_b.balance_of(caller) < sell_amount {
            return Err(AmmError::InsufficientBalance);
        }
        self.token_b.transfer(caller, owner, sell_amount);
        let buy_amount = calc_dy(x, y, sell_amount);
        self.token_a.transfer(owner, caller, buy_amount);
        Ok(())
    }
}

} // verus!
