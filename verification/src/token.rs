use crate::errors::AmmError;
use crate::ledger::Ledger;
use vstd::prelude::*;

verus! {

/// A stand-alone fungible token: one ledger whose whole supply is minted
/// to the owning account at creation, with transfers between registered
/// accounts.
pub struct Contract {
    owner_id: u64,
    token: Ledger,
}

impl Contract {
    /// The account the initial supply was minted to.
    pub closed spec fn spec_owner(self) -> u64 {
        self.owner_id
    }

    /// The token ledger.
    pub closed spec fn ledger(self) -> Ledger {
        self.token
    }

    /// The ledger is consistent and the owner is registered.
    pub open spec fn wf(self) -> bool {
        &&& self.ledger().wf()
        &&& self.ledger().registered(self.spec_owner())
    }

    /// Creates the token and mints the whole supply to `owner_id`.
    pub fn new(owner_id: u64, total_supply: u128) -> (r: Contract)
        ensures
            r.wf(),
            r.spec_owner() == owner_id,
            r.ledger()@ == Map::<u64, u128>::empty().insert(owner_id, total_supply),
            r.ledger().spec_total_supply() == total_supply,
    {
        let mut token = Ledger::new();
        token.register_account(owner_id);
        token.deposit(owner_id, total_supply);
        proof {
            assert(token@ =~= Map::<u64, u128>::empty().insert(owner_id, total_supply));
        }
        Contract { owner_id, token }
    }

    /// The total minted supply.
    pub fn ft_total_supply(&self) -> (r: u128)
        requires
            self.wf(),
        ensures
            r == self.ledger().spec_total_supply(),
    {
        self.token.total_supply()
    }

    /// The balance of `account_id`, zero when unregistered.
    pub fn ft_balance_of(&mut self, account_id: u64) -> (r: u128)
        requires
            old(self).wf(),
        ensures
            *final(self) == *old(self),
            r == old(self).ledger().balance(account_id),
    {
        self.token.ft_balance_of(account_id)
    }

    /// Registers `account_id` so that it may hold a balance; an existing
    /// registration and balance are kept.
    pub fn create_account_if_not_exists(&mut self, account_id: u64)
        requires
            old(self).wf(),
        ensures
            final(self).wf(),
            final(self).spec_owner() == old(self).spec_owner(),
            crate::ledger::registers_account(old(self).ledger(), final(self).ledger(), account_id),
    {
        self.token.register_if_absent(account_id);
    }

    /// Moves `amount` from `sender_id` to `receiver_id`.
    pub fn ft_transfer(&mut self, sender_id: u64, receiver_id: u64, amount: u128) -> (r: Result<
        (),
        AmmError,
    >)
        requires
            old(self).wf(),
            sender_id != receiver_id,
            old(self).ledger().registered(sender_id),
            old(self).ledger().registered(receiver_id),
        ensures
            final(self).wf(),
            final(self).spec_owner() == old(self).spec_owner(),
            final(self).ledger().spec_total_supply() == old(self).ledger().spec_total_supply(),
            match r {
                Ok(()) => {
                    &&& old(self).ledger()@[sender_id] >= amount
                    &&& final(self).ledger()@ == old(self).ledger()@.insert(
                        sender_id,
                        (old(self).ledger()@[sender_id] - amount) as u128,
                    ).insert(receiver_id, (old(self).ledger()@[receiver_id] + amount) as u128)
                },
                Err(e) => {
                    &&& e == AmmError::InsufficientBalance
                    &&& old(self).ledger()@[sender_id] < amount
                    &&& final(self).ledger()@ == old(self).ledger()@
                },
            },
    {
        if self.token.balance_of(sender_id) < amount {
            return Err(AmmError::InsufficientBalance);
        }
        self.token.transfer(sender_id, receiver_id, amount);
        Ok(())
    }

    /// Hands `amount` from the owner's supply to the caller, registering
    /// the caller first if needed.
    pub fn add_tokens(&mut self, caller: u64, amount: u128) -> (r: Result<(), AmmError>)
        requires
            old(self).wf(),
            caller != old(self).spec_owner(),
        ensures
            final(self).wf(),
            final(self).spec_owner() == old(self).spec_owner(),
            final(self).ledger().spec_total_supply() == old(self).ledger().spec_total_supply(),
            final(self).ledger().registered(caller),
            match r {
                Ok(()) => {
                    let owner = old(self).spec_owner();
                    let registered = if old(self).ledger().registered(caller) {
                        old(self).ledger()@
                    } else {
                        old(self).ledger()@.insert(caller, 0u128)
                    };
                    &&& old(self).ledger()@[owner] >= amount
                    &&& final(self).ledger()@ == registered.insert(
                        owner,
                        (old(self).ledger()@[owner] - amount) as u128,
                    ).insert(caller, (registered[caller] + amount) as u128)
                },
                Err(e) => {
                    &&& e == AmmError::InsufficientBalance
                    &&& old(self).ledger()@[old(self).spec_owner()] < amount
                },
            },
    {
        self.token.register_if_absent(caller);
        let owner = self.owner_id;
        if self.token.balance_of(owner) < amount {
            return Err(AmmError::InsufficientBalance);
        }
        self.token.transfer(owner, caller, amount);
        Ok(())
    }

    /// Moves `amount` from the caller to `receiver_id`, registering the
    /// receiver first if needed; the surrounding layer then notifies the
    /// receiving contract.
    pub fn ft_transfer_call(&mut self, caller: u64, receiver_id: u64, amount: u128) -> (r: Result<
        (),
        AmmError,
    >)
        requires
            old(self).wf(),
            caller != receiver_id,
            old(self).ledger().registered(caller),
        ensures
            final(self).wf(),
            final(self).spec_owner() == old(self).spec_owner(),
            final(self).ledger().spec_total_supply() == old(self).ledger().spec_total_supply(),
            final(self).ledger().registered(receiver_id),
            match r {
                Ok(()) => {
                    let registered = if old(self).ledger().registered(receiver_id) {
                        old(self).ledger()@
                    } else {
                        old(self).ledger()@.insert(receiver_id, 0u128)
                    };
                    &&& old(self).ledger()@[caller] >= amount
                    &&& final(self).ledger()@ == registered.insert(
                        caller,
                        (old(self).ledger()@[caller] - amount) as u128,
                    ).insert(receiver_id, (registered[receiver_id] + amount) as u128)
                },
                Err(e) => {
                    &&& e == AmmError::InsufficientBalance
                    &&& old(self).ledger()@[caller] < amount
                },
            },
    {
        self.token.register_if_absent(receiver_id);
        if self.token.balance_of(caller) < amount {
            return Err(AmmError::InsufficientBalance);
        }
        self.token.transfer(caller, receiver_id, amount);
        Ok(())
    }

    /// Books a transfer reported by another token holder: `amount` moves
    /// from the reporting account `caller` to `sender_id`.
    pub fn ft_on_transfer(&mut self, caller: u64, sender_id: u64, amount: u128) -> (r: Result<
        (),
        AmmError,
    >)
        requires
            old(self).wf(),
            caller != sender_id,
            old(self).ledger().registered(caller),
            old(self).ledger().registered(sender_id),
        ensures
            final(self).wf(),
            final(self).spec_owner() == old(self).spec_owner(),
            final(self).ledger().spec_total_supply() == old(self).ledger().spec_total_supply(),
            match r {
                Ok(()) => {
                    &&& old(self).ledger()@[caller] >= amount
                    &&& final(self).ledger()@ == old(self).ledger()@.insert(
                        caller,
                        (old(self).ledger()@[caller] - amount) as u128,
                    ).insert(sender_id, (old(self).ledger()@[sender_id] + amount) as u128)
                },
                Err(e) => {
                    &&& e == AmmError::InsufficientBalance
                    &&& old(self).ledger()@[caller] < amount
                    &&& final(self).ledger()@ == old(self).ledger()@
                },
            },
    {
        if self.token.balance_of(caller) < amount {
            return Err(AmmError::InsufficientBalance);
        }
        self.token.transfer(caller, sender_id, amount);
        Ok(())
    }
}

} // verus!
