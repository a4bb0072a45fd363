use vstd::prelude::*;

verus! {

/// The entries of a balance table carry pairwise distinct account keys.
pub open spec fn keys_unique(s: Seq<(u64, u128)>) -> bool {
    forall|i: int, j: int| 0 <= i < j < s.len() ==> s[i].0 != s[j].0
}

/// Whether some entry of a balance table carries `account` as its key.
pub open spec fn has_key(s: Seq<(u64, u128)>, account: u64) -> bool {
    exists|i: int| 0 <= i < s.len() && (#[trigger] s[i]).0 == account
}

/// The sum of all balances of a balance table.
pub open spec fn sum_of(s: Seq<(u64, u128)>) -> int
    decreases s.len(),
{
    if s.len() == 0 {
        0
    } else {
        sum_of(s.drop_last()) + s.last().1
    }
}

/// A balance table read as a map from account to balance.
pub open spec fn map_of(s: Seq<(u64, u128)>) -> Map<u64, u128>
    decreases s.len(),
{
    if s.len() == 0 {
        Map::empty()
    } else {
        map_of(s.drop_last()).insert(s.last().0, s.last().1)
    }
}

proof fn lemma_keys_unique_prefix(s: Seq<(u64, u128)>)
    requires
        keys_unique(s),
        s.len() > 0,
    ensures
        keys_unique(s.drop_last()),
{
    let prefix = s.drop_last();
    assert forall|i: int, j: int| 0 <= i < j < prefix.len() implies prefix[i].0 != prefix[j].0 by {
        assert(prefix[i] == s[i]);
        assert(prefix[j] == s[j]);
    }
}

proof fn lemma_map_of_domain(s: Seq<(u64, u128)>)
    ensures
        forall|k: u64| #[trigger] map_of(s).contains_key(k) <==> has_key(s, k),
    decreases s.len(),
{
    if s.len() > 0 {
        let prefix = s.drop_last();
        lemma_map_of_domain(prefix);
        assert forall|k: u64| #[trigger] map_of(s).contains_key(k) implies has_key(s, k) by {
            if k == s.last().0 {
                assert((#[trigger] s[s.len() - 1]).0 == k);
            } else {
                assert(map_of(prefix).contains_key(k));
                assert(has_key(prefix, k));
                let i = choose|i: int| 0 <= i < prefix.len() && (#[trigger] prefix[i]).0 == k;
                assert((#[trigger] s[i]) == prefix[i]);
            }
        }
        assert forall|k: u64| has_key(s, k) implies #[trigger] map_of(s).contains_key(k) by {
            let i = choose|i: int| 0 <= i < s.len() && (#[trigger] s[i]).0 == k;
            if i < s.len() - 1 {
                assert((#[trigger] prefix[i]) == s[i]);
                assert(has_key(prefix, k));
                assert(map_of(prefix).contains_key(k));
                assert(map_of(s) == map_of(prefix).insert(s.last().0, s.last().1));
            } else {
                assert(k == s.last().0);
            }
        }
    }
}

proof fn lemma_map_of_index(s: Seq<(u64, u128)>, i: int)
    requires
        keys_unique(s),
        0 <= i < s.len(),
    ensures
        map_of(s).contains_key(s[i].0),
        map_of(s)[s[i].0] == s[i].1,
    decreases s.len(),
{
    if i < s.len() - 1 {
        let prefix = s.drop_last();
        lemma_keys_unique_prefix(s);
        assert(prefix[i] == s[i]);
        lemma_map_of_index(prefix, i);
        assert(s.last().0 != s[i].0);
    }
}

proof fn lemma_map_of_update(s: Seq<(u64, u128)>, i: int, v: (u64, u128))
    requires
        keys_unique(s),
        0 <= i < s.len(),
        v.0 == s[i].0,
    ensures
        map_of(s.update(i, v)) == map_of(s).insert(v.0, v.1),
        keys_unique(s.update(i, v)),
    decreases s.len(),
{
    let t = s.update(i, v);
    let prefix = s.drop_last();
    assert forall|a: int, b: int| 0 <= a < b < t.len() implies t[a].0 != t[b].0 by {
        assert(s[a].0 != s[b].0);
    }
    if i == s.len() - 1 {
        assert(t.drop_last() =~= prefix);
        assert(t.last() == v);
        assert(map_of(prefix).insert(s.last().0, s.last().1).insert(v.0, v.1) =~= map_of(
            prefix,
        ).insert(v.0, v.1));
    } else {
        lemma_keys_unique_prefix(s);
        assert(t.drop_last() =~= prefix.update(i, v));
        assert(t.last() == s.last());
        assert(prefix[i] == s[i]);
        lemma_map_of_update(prefix, i, v);
        assert(s.last().0 != v.0);
        assert(map_of(prefix).insert(v.0, v.1).insert(s.last().0, s.last().1) =~= map_of(
            prefix,
        ).insert(s.last().0, s.last().1).insert(v.0, v.1));
    }
}

proof fn lemma_map_of_push(s: Seq<(u64, u128)>, p: (u64, u128))
    ensures
        map_of(s.push(p)) == map_of(s).insert(p.0, p.1),
{
    assert(s.push(p).drop_last() =~= s);
    assert(s.push(p).last() == p);
}

proof fn lemma_sum_nonneg(s: Seq<(u64, u128)>)
    ensures
        sum_of(s) >= 0,
    decreases s.len(),
{
    if s.len() > 0 {
        lemma_sum_nonneg(s.drop_last());
    }
}

proof fn lemma_sum_element(s: Seq<(u64, u128)>, i: int)
    requires
        0 <= i < s.len(),
    ensures
        s[i].1 <= sum_of(s),
    decreases s.len(),
{
    let prefix = s.drop_last();
    if i == s.len() - 1 {
        lemma_sum_nonneg(prefix);
    } else {
        assert(prefix[i] == s[i]);
        lemma_sum_element(prefix, i);
    }
}

proof fn lemma_sum_update(s: Seq<(u64, u128)>, i: int, v: (u64, u128))
    requires
        0 <= i < s.len(),
    ensures
        sum_of(s.update(i, v)) == sum_of(s) - s[i].1 + v.1,
    decreases s.len(),
{
    let t = s.update(i, v);
    let prefix = s.drop_last();
    if i == s.len() - 1 {
        assert(t.drop_last() =~= prefix);
        assert(t.last() == v);
    } else {
        assert(t.drop_last() =~= prefix.update(i, v));
        assert(t.last() == s.last());
        assert(prefix[i] == s[i]);
        lemma_sum_update(prefix, i, v);
    }
}

proof fn lemma_sum_push(s: Seq<(u64, u128)>, p: (u64, u128))
    ensures
        sum_of(s.push(p)) == sum_of(s) + p.1,
{
    assert(s.push(p).drop_last() =~= s);
    assert(s.push(p).last() == p);
}

/// How a ledger looks after `account` has been registered on demand: the
/// account holds an entry, the total supply is unchanged, and an already
/// existing balance was kept.
pub open spec fn registers_account(before: Ledger, after: Ledger, account: u64) -> bool {
    &&& after.registered(account)
    &&& after.spec_total_supply() == before.spec_total_supply()
    &&& (before.registered(account) ==> after@ == before@)
    &&& (!before.registered(account) ==> after@ == before@.insert(account, 0u128))
}

/// One fungible ledger: the registered accounts with their balances, and
/// the tracked total supply. Viewed abstractly as a map from account to
/// balance; an account holds a balance only once registered.
pub struct Ledger {
    accounts: Vec<(u64, u128)>,
    total_supply: u128,
}

impl View for Ledger {
    type V = Map<u64, u128>;

    closed spec fn view(&self) -> Map<u64, u128> {
        map_of(self.accounts@)
    }
}

impl Ledger {
    /// Internal consistency: account keys are distinct, and the balances
    /// sum to the tracked total supply.
    pub closed spec fn wf(self) -> bool {
        &&& keys_unique(self.accounts@)
        &&& sum_of(self.accounts@) == self.total_supply
    }

    pub closed spec fn spec_total_supply(self) -> u128 {
        self.total_supply
    }

    /// Whether `account` may hold a balance.
    pub open spec fn registered(self, account: u64) -> bool {
        self@.contains_key(account)
    }

    /// The balance of `account`; zero when the account is not registered.
    pub open spec fn balance(self, account: u64) -> u128 {
        if self@.contains_key(account) {
            self@[account]
        } else {
            0
        }
    }

    /// A consequence of the supply invariant: the balances of a
    /// consistent ledger sum to its total supply, so no single account
    /// can hold more than the tracked total.
    pub proof fn lemma_balance_bounded_by_supply(self, account: u64)
        requires
            self.wf(),
            self.registered(account),
        ensures
            self@[account] <= self.spec_total_supply(),
    {
        lemma_map_of_domain(self.accounts@);
        let i = choose|i: int|
            0 <= i < self.accounts@.len() && (#[trigger] self.accounts@[i]).0 == account;
        lemma_map_of_index(self.accounts@, i);
        lemma_sum_element(self.accounts@, i);
    }

    /// An empty ledger: no accounts, no supply.
    pub fn new() -> (r: Ledger)
        ensures
            r.wf(),
            r@ == Map::<u64, u128>::empty(),
            r.spec_total_supply() == 0,
    {
        let r = Ledger { accounts: Vec::new(), total_supply: 0 };
        proof {
            assert(r.accounts@.len() == 0);
        }
        r
    }

    /// The index of the entry holding `account`, if any.
    fn position(&self, account: u64) -> (r: Option<usize>)
        ensures
            match r {
                Some(i) => i < self.accounts@.len() && self.accounts@[i as int].0 == account,
                None => !has_key(self.accounts@, account),
            },
    {
        let n = self.accounts.len();
        let mut i: usize = 0;
        while i < n
            invariant
                i <= n,
                n == self.accounts@.len(),
                forall|j: int| 0 <= j < i ==> (#[trigger] self.accounts@[j]).0 != account,
            decreases n - i,
        {
            if self.accounts[i].0 == account {
                return Some(i);
            }
            i = i + 1;
        }
        None
    }

    /// Whether `account` is registered.
    pub fn contains_account(&self, account: u64) -> (r: bool)
        ensures
            r == self.registered(account),
    {
        proof {
            lemma_map_of_domain(self.accounts@);
        }
        self.position(account).is_some()
    }

    /// The tracked total supply.
    pub fn total_supply(&self) -> (r: u128)
        ensures
            r == self.spec_total_supply(),
    {
        self.total_supply
    }

    /// Registers a fresh account with a zero balance.
    pub fn register_account(&mut self, account: u64)
        requires
            old(self).wf(),
            !old(self).registered(account),
        ensures
            final(self).wf(),
            final(self)@ == old(self)@.insert(account, 0u128),
            final(self).spec_total_supply() == old(self).spec_total_supply(),
    {
        let ghost s0 = self.accounts@;
        proof {
            lemma_map_of_domain(s0);
        }
        self.accounts.push((account, 0));
        proof {
            lemma_map_of_push(s0, (account, 0u128));
            lemma_sum_push(s0, (account, 0u128));
            assert forall|i: int, j: int|
                0 <= i < j < self.accounts@.len() implies self.accounts@[i].0
                != self.accounts@[j].0 by {
                if j == s0.len() {
                    if s0[i].0 == account {
                        assert(has_key(s0, account));
                    }
                } else {
                    assert(s0[i].0 != s0[j].0);
                }
            }
        }
    }

    /// Registers `account` unless it already holds an entry; an existing
    /// balance is left untouched.
    pub fn register_if_absent(&mut self, account: u64)
        requires
            old(self).wf(),
        ensures
            final(self).wf(),
            final(self).registered(account),
            old(self).registered(account) ==> final(self)@ == old(self)@,
            !old(self).registered(account) ==> final(self)@ == old(self)@.insert(account, 0u128),
            final(self).spec_total_supply() == old(self).spec_total_supply(),
    {
        if !self.contains_account(account) {
            self.register_account(account);
        }
    }

    /// The balance of a registered account.
    pub fn balance_of(&self, account: u64) -> (r: u128)
        requires
            self.wf(),
            self.registered(account),
        ensures
            r == self@[account],
    {
        proof {
            lemma_map_of_domain(self.accounts@);
        }
        match self.position(account) {
            Some(i) => {
                proof {
                    lemma_map_of_index(self.accounts@, i as int);
                }
                self.accounts[i].1
            },
            None => {
                proof {
                    assert(false);
                }
                0
            },
        }
    }

    /// The balance of any account, zero when unregistered.
    pub fn ft_balance_of(&self, account: u64) -> (r: u128)
        requires
            self.wf(),
        ensures
            r == self.balance(account),
    {
        proof {
            lemma_map_of_domain(self.accounts@);
        }
        match self.position(account) {
            Some(i) => {
                proof {
                    lemma_map_of_index(self.accounts@, i as int);
                }
                self.accounts[i].1
            },
            None => 0,
        }
    }

    /// Credits `amount` to a registered account and raises the total
    /// supply by the same amount.
    pub fn deposit(&mut self, account: u64, amount: u128)
        requires
            old(self).wf(),
            old(self).registered(account),
            old(self).spec_total_supply() + amount <= u128::MAX,
        ensures
            final(self).wf(),
            final(self)@ == old(self)@.insert(account, (old(self)@[account] + amount) as u128),
            final(self).spec_total_supply() == old(self).spec_total_supply() + amount,
    {
        let ghost s0 = self.accounts@;
        proof {
            lemma_map_of_domain(s0);
        }
        let i = match self.position(account) {
            Some(i) => i,
            None => {
                proof {
                    assert(false);
                }
                0
            },
        };
        proof {
            lemma_map_of_index(s0, i as int);
            lemma_sum_element(s0, i as int);
        }
        let entry = self.accounts[i];
        let updated = (entry.0, entry.1 + amount);
        self.accounts[i] = updated;
        self.total_supply = self.total_supply + amount;
        proof {
            lemma_map_of_update(s0, i as int, updated);
            lemma_sum_update(s0, i as int, updated);
        }
    }

    /// Debits `amount` from a registered account holding at least that
    /// much, lowering the total supply by the same amount.
    pub fn withdraw(&mut self, account: u64, amount: u128)
        requires
            old(self).wf(),
            old(self).registered(account),
            amount <= old(self)@[account],
        ensures
            final(self).wf(),
            final(self)@ == old(self)@.insert(account, (old(self)@[account] - amount) as u128),
            final(self).spec_total_supply() == old(self).spec_total_supply() - amount,
    {
        let ghost s0 = self.accounts@;
        proof {
            lemma_map_of_domain(s0);
        }
        let i = match self.position(account) {
            Some(i) => i,
            None => {
                proof {
                    assert(false);
                }
                0
            },
        };
        proof {
            lemma_map_of_index(s0, i as int);
            lemma_sum_element(s0, i as int);
        }
        let entry = self.accounts[i];
        let updated = (entry.0, entry.1 - amount);
        self.accounts[i] = updated;
        self.total_supply = self.total_supply - amount;
        proof {
            lemma_map_of_update(s0, i as int, updated);
            lemma_sum_update(s0, i as int, updated);
        }
    }

    /// Moves `amount` from `sender` to `receiver` inside this ledger; the
    /// total supply is unchanged. The consistency invariant rules out any
    /// overflow of the receiving balance.
    pub fn transfer(&mut self, sender: u64, receiver: u64, amount: u128)
        requires
            old(self).wf(),
            sender != receiver,
            old(self).registered(sender),
            old(self).registered(receiver),
            amount <= old(self)@[sender],
        ensures
            final(self).wf(),
            final(self)@ == old(self)@.insert(sender, (old(self)@[sender] - amount) as u128).insert(
                receiver,
                (old(self)@[receiver] + amount) as u128,
            ),
            final(self).spec_total_supply() == old(self).spec_total_supply(),
    {
        self.withdraw(sender, amount);
        self.deposit(receiver, amount);
    }
}

} // verus!
