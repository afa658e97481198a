use vstd::prelude::*;

use crate::account::AccountId;
use crate::entries::{
    amount_of, has_key, keys, keys_unique, lemma_amount_at, lemma_entry_le_sum, lemma_push,
    lemma_sum_over_keys, lemma_update, sum_amounts, sum_at,
};
use crate::event::Event;

verus! {

/// Finds the entry of `a` in a balance list.
fn find_account(entries: &Vec<(AccountId, u128)>, a: &AccountId) -> (r: Option<usize>)
    ensures
        match r {
            Some(i) => i < entries.len() && entries@[i as int].0 == *a,
            None => !has_key(entries@, *a),
        },
{
    let mut i: usize = 0;
    while i < entries.len()
        invariant
            0 <= i <= entries.len(),
            forall|j: int| 0 <= j < i ==> entries@[j].0 != *a,
        decreases entries.len() - i,
    {
        if entries[i].0 == *a {
            return Some(i);
        }
        i = i + 1;
    }
    None
}

/// Finds the entry of the pair (`owner`, `spender`) in an allowance list.
fn find_pair(entries: &Vec<((AccountId, AccountId), u128)>, owner: &AccountId, spender: &AccountId) -> (r: Option<usize>)
    ensures
        match r {
            Some(i) => i < entries.len() && entries@[i as int].0 == (*owner, *spender),
            None => !has_key(entries@, (*owner, *spender)),
        },
{
    let mut i: usize = 0;
    while i < entries.len()
        invariant
            0 <= i <= entries.len(),
            forall|j: int| 0 <= j < i ==> entries@[j].0 != (*owner, *spender),
        decreases entries.len() - i,
    {
        let key = &entries[i].0;
        if key.0 == *owner && key.1 == *spender {
            return Some(i);
        }
        i = i + 1;
    }
    None
}

/// A token ledger: balances, allowances and a total supply fixed at creation,
/// together with the log of events it has emitted and not yet handed out.
pub struct ERC20x {
    total_supply: u128,
    balances: Vec<(AccountId, u128)>,
    allowances: Vec<((AccountId, AccountId), u128)>,
    events: Vec<Event>,
}

impl ERC20x {
    /// The total supply.
    pub closed spec fn supply(self) -> nat {
        self.total_supply as nat
    }

    /// The balance of `a`; zero for an account never written.
    pub closed spec fn balance(self, a: AccountId) -> nat {
        amount_of(self.balances@, a)
    }

    /// What `spender` may still move out of `owner`'s balance.
    pub closed spec fn allowed(self, owner: AccountId, spender: AccountId) -> nat {
        amount_of(self.allowances@, (owner, spender))
    }

    /// The accounts that have a stored balance entry, each once.
    pub closed spec fn accounts(self) -> Seq<AccountId> {
        keys(self.balances@)
    }

    /// The events emitted and not yet taken, oldest first.
    pub closed spec fn emitted(self) -> Seq<Event> {
        self.events@
    }

    /// Well-formedness: each key is stored once, and the stored balances add
    /// up to the total supply.
    pub closed spec fn wf(self) -> bool {
        &&& keys_unique(self.balances@)
        &&& keys_unique(self.allowances@)
        &&& sum_amounts(self.balances@) == self.total_supply
    }

    /// The sum of the balances of the accounts in `accts`.
    pub open spec fn balance_sum(self, accts: Seq<AccountId>) -> int
        decreases accts.len(),
    {
        if accts.len() == 0 {
            0
        } else {
            self.balance_sum(accts.drop_last()) + self.balance(accts.last())
        }
    }

    proof fn lemma_balance_sum_stored(self, accts: Seq<AccountId>)
        ensures
            self.balance_sum(accts) == sum_at(self.balances@, accts),
        decreases accts.len(),
    {
        if accts.len() > 0 {
            self.lemma_balance_sum_stored(accts.drop_last());
        }
    }

    /// Conservation: in a well-formed ledger, and so in every state that
    /// creation and the operations reach, the balances of all accounts add up
    /// to the total supply. The accounts with a stored entry are listed once
    /// each, and every other account holds zero.
    pub proof fn lemma_balances_sum_to_supply(self)
        requires
            self.wf(),
        ensures
            self.accounts().no_duplicates(),
            forall|a: AccountId| !self.accounts().contains(a) ==> self.balance(a) == 0,
            self.balance_sum(self.accounts()) == self.supply(),
    {
        lemma_sum_over_keys(self.balances@);
        self.lemma_balance_sum_stored(self.accounts());
    }

    /// The balance of `a` after `value` moves from `from` to `to`.
    pub open spec fn moved(self, from: AccountId, to: AccountId, value: nat, a: AccountId) -> int {
        self.balance(a) - (if a == from { value } else { 0 }) + (if a == to { value } else { 0 })
    }

    /// A transfer between two distinct accounts takes exactly `value` from
    /// the sender, gives exactly `value` to the recipient, and leaves every
    /// other account as it was.
    pub proof fn lemma_moved_between_distinct(self, from: AccountId, to: AccountId, value: nat)
        requires
            from != to,
        ensures
            self.moved(from, to, value, from) == self.balance(from) - value,
            self.moved(from, to, value, to) == self.balance(to) + value,
            forall|a: AccountId| a != from && a != to ==> #[trigger] self.moved(from, to, value, a) == self.balance(a),
    {
    }

    /// Creates a ledger whose whole `initial_supply` belongs to `caller`, and
    /// records the issuance as a transfer from no account.
    pub fn new(caller: AccountId, initial_supply: u128) -> (r: ERC20x)
        ensures
            r.wf(),
            r.supply() == initial_supply,
            forall|a: AccountId| #[trigger] r.balance(a) == if a == caller { initial_supply as nat } else { 0 },
            forall|o: AccountId, s: AccountId| #[trigger] r.allowed(o, s) == 0,
            r.emitted() == seq![Event::Transfer { from: None, to: Some(caller), operator: Some(caller), value: initial_supply }],
    {
        let mut balances: Vec<(AccountId, u128)> = Vec::new();
        balances.push((caller, initial_supply));
        let mut events: Vec<Event> = Vec::new();
        events.push(Event::Transfer { from: None, to: Some(caller), operator: Some(caller), value: initial_supply });
        let r = ERC20x { total_supply: initial_supply, balances, allowances: Vec::new(), events };
        proof {
            let empty = Seq::<(AccountId, u128)>::empty();
            assert(empty.push((caller, initial_supply)) =~= r.balances@);
            lemma_push(empty, caller, initial_supply);
            assert(sum_amounts(empty) == 0);
        }
        r
    }

    /// The total supply fixed at creation.
    pub fn total_supply(&self) -> (r: u128)
        ensures
            r == self.supply(),
    {
        self.total_supply
    }

    /// The balance of `owner`; zero for an account never written.
    pub fn balance_of(&self, owner: AccountId) -> (r: u128)
        requires
            self.wf(),
        ensures
            r == self.balance(owner),
    {
        self.balance_of_or_zero(&owner)
    }

    /// What `spender` may still move out of `owner`'s balance; zero when never
    /// approved.
    pub fn allowance(&self, owner: AccountId, spender: AccountId) -> (r: u128)
        requires
            self.wf(),
        ensures
            r == self.allowed(owner, spender),
    {
        self.allowance_of_or_zero(&owner, &spender)
    }

    fn balance_of_or_zero(&self, owner: &AccountId) -> (r: u128)
        requires
            self.wf(),
        ensures
            r == self.balance(*owner),
    {
        match find_account(&self.balances, owner) {
            Some(i) => {
                proof {
                    lemma_amount_at(self.balances@, i as int);
                }
                self.balances[i].1
            },
            None => 0,
        }
    }

    fn allowance_of_or_zero(&self, owner: &AccountId, spender: &AccountId) -> (r: u128)
        requires
            self.wf(),
        ensures
            r == self.allowed(*owner, *spender),
    {
        match find_pair(&self.allowances, owner, spender) {
            Some(i) => {
                proof {
                    lemma_amount_at(self.allowances@, i as int);
                }
                self.allowances[i].1
            },
            None => 0,
        }
    }

    /// Stores `value` as what `spender` may move out of `owner`'s balance,
    /// creating the entry on first write.
    fn set_allowance(&mut self, owner: AccountId, spender: AccountId, value: u128)
        requires
            old(self).wf(),
        ensures
            final(self).wf(),
            final(self).total_supply == old(self).total_supply,
            final(self).balances == old(self).balances,
            final(self).events == old(self).events,
            forall|o: AccountId, s: AccountId|
                #[trigger] final(self).allowed(o, s) == if o == owner && s == spender {
                    value as nat
                } else {
                    old(self).allowed(o, s)
                },
    {
        match find_pair(&self.allowances, &owner, &spender) {
            Some(i) => {
                proof {
                    lemma_update(self.allowances@, i as int, value);
                }
                self.allowances.set(i, ((owner, spender), value));
            },
            None => {
                proof {
                    lemma_push(self.allowances@, (owner, spender), value);
                }
                self.allowances.push(((owner, spender), value));
            },
        }
    }

    /// The index of the balance entry of `a`, which is created holding zero
    /// where there was none; no balance changes.
    fn ensure_account(&mut self, a: &AccountId) -> (i: usize)
        requires
            old(self).wf(),
        ensures
            final(self).wf(),
            i < final(self).balances.len(),
            final(self).balances@[i as int].0 == *a,
            forall|x: AccountId| has_key(old(self).balances@, x) ==> has_key(final(self).balances@, x),
            forall|x: AccountId| #[trigger] final(self).balance(x) == old(self).balance(x),
            final(self).total_supply == old(self).total_supply,
            final(self).allowances == old(self).allowances,
            final(self).events == old(self).events,
    {
        match find_account(&self.balances, a) {
            Some(i) => i,
            None => {
                proof {
                    lemma_push(self.balances@, *a, 0);
                }
                self.balances.push((*a, 0));
                self.balances.len() - 1
            },
        }
    }

    /// Moves `value` from `from` to `to`, both of which have balance entries,
    /// and records the transfer.
    fn transfer_from_to(&mut self, from: AccountId, to: AccountId, value: u128)
        requires
            old(self).wf(),
            has_key(old(self).balances@, from),
            has_key(old(self).balances@, to),
            old(self).balance(from) >= value,
        ensures
            final(self).wf(),
            forall|a: AccountId| #[trigger] final(self).balance(a) == old(self).moved(from, to, value as nat, a),
            final(self).total_supply == old(self).total_supply,
            final(self).allowances == old(self).allowances,
            final(self).events@ == old(self).events@.push(
                Event::Transfer { from: Some(from), to: Some(to), operator: Some(from), value },
            ),
    {
        let i = find_account(&self.balances, &from).unwrap();
        let from_balance = self.balances[i].1;
        proof {
            lemma_amount_at(self.balances@, i as int);
            lemma_update(self.balances@, i as int, (from_balance - value) as u128);
        }
        self.balances.set(i, (from, from_balance - value));
        let j = find_account(&self.balances, &to).unwrap();
        let to_balance = self.balances[j].1;
        proof {
            lemma_amount_at(self.balances@, j as int);
            lemma_entry_le_sum(self.balances@, j as int);
            lemma_update(self.balances@, j as int, (to_balance + value) as u128);
        }
        self.balances.set(j, (to, to_balance + value));
        self.events.push(Event::Transfer { from: Some(from), to: Some(to), operator: Some(from), value });
    }

    /// Moves `value` from `from` to `to` when `from` holds at least `value`;
    /// otherwise changes nothing and returns false.
    fn transfer_from_to_safely(&mut self, from: AccountId, to: AccountId, value: u128) -> (r: bool)
        requires
            old(self).wf(),
        ensures
            final(self).wf(),
            r == (old(self).balance(from) >= value),
            r ==> forall|a: AccountId| #[trigger] final(self).balance(a) == old(self).moved(from, to, value as nat, a),
            r ==> final(self).total_supply == old(self).total_supply,
            r ==> final(self).allowances == old(self).allowances,
            r ==> final(self).events@ == old(self).events@.push(
                Event::Transfer { from: Some(from), to: Some(to), operator: Some(from), value },
            ),
            !r ==> *final(self) == *old(self),
    {
        let from_balance = self.balance_of_or_zero(&from);
        if from_balance < value {
            return false;
        }
        self.ensure_account(&to);
        self.ensure_account(&from);
        self.transfer_from_to(from, to, value);
        true
    }

    /// Moves `value` from the caller to `to`. Returns false, with nothing
    /// changed, when the caller holds less than `value`; otherwise records a
    /// transfer event and returns true.
    pub fn transfer(&mut self, caller: AccountId, to: AccountId, value: u128) -> (r: bool)
        requires
            old(self).wf(),
        ensures
            final(self).wf(),
            r == (old(self).balance(caller) >= value),
            r ==> final(self).supply() == old(self).supply(),
            r ==> forall|a: AccountId| #[trigger] final(self).balance(a) == old(self).moved(caller, to, value as nat, a),
            r ==> forall|o: AccountId, s: AccountId| #[trigger] final(self).allowed(o, s) == old(self).allowed(o, s),
            r ==> final(self).emitted() == old(self).emitted().push(
                Event::Transfer { from: Some(caller), to: Some(to), operator: Some(caller), value },
            ),
            !r ==> *final(self) == *old(self),
    {
        self.transfer_from_to_safely(caller, to, value)
    }

    /// Sets what `spender` may move out of the caller's balance to `value`,
    /// provided the current allowance equals `old_value`. On a mismatch nothing
    /// changes and false is returned; on a match an approval event is recorded
    /// and true is returned.
    pub fn approve(&mut self, caller: AccountId, spender: AccountId, old_value: u128, value: u128) -> (r: bool)
        requires
            old(self).wf(),
        ensures
            final(self).wf(),
            r == (old(self).allowed(caller, spender) == old_value),
            r ==> final(self).supply() == old(self).supply(),
            r ==> forall|a: AccountId| #[trigger] final(self).balance(a) == old(self).balance(a),
            r ==> forall|o: AccountId, s: AccountId|
                #[trigger] final(self).allowed(o, s) == if o == caller && s == spender {
                    value as nat
                } else {
                    old(self).allowed(o, s)
                },
            r ==> final(self).emitted() == old(self).emitted().push(
                Event::Approval { owner: Some(caller), spender: Some(spender), old_value, value },
            ),
            !r ==> *final(self) == *old(self),
    {
        let current = self.allowance_of_or_zero(&caller, &spender);
        if current != old_value {
            return false;
        }
        self.set_allowance(caller, spender, value);
        let ghost approved = *self;
        self.events.push(Event::Approval { owner: Some(caller), spender: Some(spender), old_value, value });
        assert(forall|o: AccountId, s: AccountId| #[trigger] self.allowed(o, s) == approved.allowed(o, s));
        true
    }

    /// Moves `value` from `from` to `to` on `from`'s behalf, spending the
    /// caller's allowance. Both the allowance and `from`'s balance are checked
    /// before anything changes: when either is less than `value`, nothing
    /// changes and false is returned. Otherwise the allowance drops by
    /// `value`, the tokens move, a transfer event is recorded and true is
    /// returned.
    pub fn transfer_from(&mut self, caller: AccountId, from: AccountId, to: AccountId, value: u128) -> (r: bool)
        requires
            old(self).wf(),
        ensures
            final(self).wf(),
            r == (old(self).allowed(from, caller) >= value && old(self).balance(from) >= value),
            r ==> final(self).supply() == old(self).supply(),
            r ==> forall|a: AccountId| #[trigger] final(self).balance(a) == old(self).moved(from, to, value as nat, a),
            r ==> forall|o: AccountId, s: AccountId|
                #[trigger] final(self).allowed(o, s) == if o == from && s == caller {
                    old(self).allowed(o, s) - value
                } else {
                    old(self).allowed(o, s) as int
                },
            r ==> final(self).emitted() == old(self).emitted().push(
                Event::Transfer { from: Some(from), to: Some(to), operator: Some(from), value },
            ),
            !r ==> *final(self) == *old(self),
    {
        let allowance = self.allowance_of_or_zero(&from, &caller);
        if allowance < value {
            return false;
        }
        let from_balance = self.balance_of_or_zero(&from);
        if from_balance < value {
            return false;
        }
        self.set_allowance(from, caller, allowance - value);
        let ghost spent = *self;
        let r = self.transfer_from_to_safely(from, to, value);
        assert(forall|o: AccountId, s: AccountId| #[trigger] self.allowed(o, s) == spent.allowed(o, s));
        r
    }

    /// The events emitted and not yet taken, oldest first.
    pub fn events(&self) -> (r: &Vec<Event>)
        ensures
            r@ == self.emitted(),
    {
        &self.events
    }

    /// Hands out the events emitted so far, oldest first, and empties the log;
    /// balances, allowances and supply stay as they are.
    pub fn take_events(&mut self) -> (r: Vec<Event>)
        ensures
            r@ == old(self).emitted(),
            final(self).emitted() == Seq::<Event>::empty(),
            old(self).wf() ==> final(self).wf(),
            final(self).supply() == old(self).supply(),
            final(self).accounts() == old(self).accounts(),
            forall|a: AccountId| #[trigger] final(self).balance(a) == old(self).balance(a),
            forall|o: AccountId, s: AccountId| #[trigger] final(self).allowed(o, s) == old(self).allowed(o, s),
    {
        let mut taken: Vec<Event> = Vec::new();
        std::mem::swap(&mut taken, &mut self.events);
        taken
    }
}

} // verus!
