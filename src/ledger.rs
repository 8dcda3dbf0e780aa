//! The ledger: a fixed total supply, per-account balances and per-pair
//! allowances, changed only by transfers and approvals.
use vstd::prelude::*;

use crate::account::AccountId;
use crate::table::{
    absent, distinct, lemma_lookup_absent, lemma_lookup_found, lemma_lookup_le_total,
    lemma_lookup_push, lemma_lookup_update, lookup, total,
};

verus! {

/// Why a transfer was refused.
#[derive(Clone, Copy, Debug, PartialEq, Eq, Structural)]
pub enum Error {
    /// The source account holds less than the amount asked for.
    InsufficientBalance,
    /// The spender was granted less than the amount asked for.
    InsufficientAllowance,
}

/// Notice that `value` units moved from one account to another.
#[derive(Clone, Copy, Debug, PartialEq, Eq)]
pub struct Transfer {
    pub from: Option<AccountId>,
    pub to: Option<AccountId>,
    pub value: u128,
}

/// Notice that `owner` allowed `spender` to move up to `value` units.
#[derive(Clone, Copy, Debug, PartialEq, Eq)]
pub struct Approval {
    pub owner: AccountId,
    pub spender: AccountId,
    pub value: u128,
}

/// A notice for outside observers, recorded in order of occurrence.
#[derive(Clone, Copy, Debug, PartialEq, Eq)]
pub enum Event {
    Transfer(Transfer),
    Approval(Approval),
}

/// Where `a` stands among the entries, if anywhere.
fn position(entries: &Vec<(AccountId, u128)>, a: &AccountId) -> (r: Option<usize>)
    ensures
        match r {
            Some(i) => i < entries@.len() && entries@[i as int].0@ == a@,
            None => absent(entries@, a@),
        },
{
    let mut i: usize = 0;
    while i < entries.len()
        invariant
            0 <= i <= entries@.len(),
            forall|j: int| 0 <= j < i ==> entries@[j].0@ != a@,
        decreases entries@.len() - i,
    {
        if entries[i].0.same(a) {
            return Some(i);
        }
        i = i + 1;
    }
    None
}

/// Where the pair `(owner, spender)` stands among the entries, if anywhere.
fn pair_position(
    entries: &Vec<((AccountId, AccountId), u128)>,
    owner: &AccountId,
    spender: &AccountId,
) -> (r: Option<usize>)
    ensures
        match r {
            Some(i) => i < entries@.len() && entries@[i as int].0@ == (owner@, spender@),
            None => absent(entries@, (owner@, spender@)),
        },
{
    let mut i: usize = 0;
    while i < entries.len()
        invariant
            0 <= i <= entries@.len(),
            forall|j: int| 0 <= j < i ==> entries@[j].0@ != (owner@, spender@),
        decreases entries@.len() - i,
    {
        if entries[i].0.0.same(owner) && entries[i].0.1.same(spender) {
            return Some(i);
        }
        i = i + 1;
    }
    None
}

/// The amount recorded for `a`, zero where there is none.
fn read(entries: &Vec<(AccountId, u128)>, a: &AccountId) -> (r: u128)
    requires
        distinct(entries@),
    ensures
        r == lookup(entries@, a@),
{
    match position(entries, a) {
        Some(i) => {
            proof {
                lemma_lookup_found(entries@, i as int);
            }
            entries[i].1
        },
        None => {
            proof {
                lemma_lookup_absent(entries@, a@);
            }
            0
        },
    }
}

/// The amount recorded for `(owner, spender)`, zero where there is none.
fn read_pair(
    entries: &Vec<((AccountId, AccountId), u128)>,
    owner: &AccountId,
    spender: &AccountId,
) -> (r: u128)
    requires
        distinct(entries@),
    ensures
        r == lookup(entries@, (owner@, spender@)),
{
    match pair_position(entries, owner, spender) {
        Some(i) => {
            proof {
                lemma_lookup_found(entries@, i as int);
            }
            entries[i].1
        },
        None => {
            proof {
                lemma_lookup_absent(entries@, (owner@, spender@));
            }
            0
        },
    }
}

/// Records `v` for `a`, replacing what was there.
fn store(entries: &mut Vec<(AccountId, u128)>, a: &AccountId, v: u128)
    requires
        distinct(old(entries)@),
    ensures
        distinct(final(entries)@),
        forall|k: Seq<u8>| #[trigger]
            lookup(final(entries)@, k) == if k == a@ {
                v as nat
            } else {
                lookup(old(entries)@, k)
            },
        total(final(entries)@) + lookup(old(entries)@, a@) == total(old(entries)@) + v,
{
    match position(entries, a) {
        Some(i) => {
            proof {
                lemma_lookup_found(entries@, i as int);
                assert forall|k: Seq<u8>| #[trigger]
                    lookup(entries@.update(i as int, (*a, v)), k) == if k == a@ {
                        v as nat
                    } else {
                        lookup(entries@, k)
                    } by {
                    lemma_lookup_update(entries@, i as int, (*a, v), k);
                }
                lemma_lookup_update(entries@, i as int, (*a, v), a@);
            }
            entries.set(i, (*a, v));
        },
        None => {
            proof {
                lemma_lookup_absent(entries@, a@);
                assert forall|k: Seq<u8>| #[trigger]
                    lookup(entries@.push((*a, v)), k) == if k == a@ {
                        v as nat
                    } else {
                        lookup(entries@, k)
                    } by {
                    lemma_lookup_push(entries@, (*a, v), k);
                }
                lemma_lookup_push(entries@, (*a, v), a@);
            }
            entries.push((*a, v));
        },
    }
}

/// Records `v` for `(owner, spender)`, replacing what was there.
fn store_pair(
    entries: &mut Vec<((AccountId, AccountId), u128)>,
    owner: &AccountId,
    spender: &AccountId,
    v: u128,
)
    requires
        distinct(old(entries)@),
    ensures
        distinct(final(entries)@),
        forall|k: (Seq<u8>, Seq<u8>)| #[trigger]
            lookup(final(entries)@, k) == if k == (owner@, spender@) {
                v as nat
            } else {
                lookup(old(entries)@, k)
            },
{
    let e = ((*owner, *spender), v);
    match pair_position(entries, owner, spender) {
        Some(i) => {
            proof {
                assert forall|k: (Seq<u8>, Seq<u8>)| #[trigger]
                    lookup(entries@.update(i as int, e), k) == if k == (owner@, spender@) {
                        v as nat
                    } else {
                        lookup(entries@, k)
                    } by {
                    lemma_lookup_update(entries@, i as int, e, k);
                }
            }
            entries.set(i, e);
        },
        None => {
            proof {
                assert forall|k: (Seq<u8>, Seq<u8>)| #[trigger]
                    lookup(entries@.push(e), k) == if k == (owner@, spender@) {
                        v as nat
                    } else {
                        lookup(entries@, k)
                    } by {
                    lemma_lookup_push(entries@, e, k);
                }
            }
            entries.push(e);
        },
    }
}

/// A token ledger. The whole supply is credited to one account when the
/// ledger is made; afterwards units only move between accounts.
pub struct Erc20 {
    total_supply: u128,
    balances: Vec<(AccountId, u128)>,
    allowances: Vec<((AccountId, AccountId), u128)>,
    events: Vec<Event>,
}

impl Erc20 {
    /// The total supply, fixed when the ledger was made.
    pub closed spec fn supply(&self) -> nat {
        self.total_supply as nat
    }

    /// The balance of account `a`; zero for an account never credited.
    pub closed spec fn balance(&self, a: Seq<u8>) -> nat {
        lookup(self.balances@, a)
    }

    /// What `owner` allows `spender` to move; zero where nothing was granted.
    pub closed spec fn allowed(&self, owner: Seq<u8>, spender: Seq<u8>) -> nat {
        lookup(self.allowances@, (owner, spender))
    }

    /// The sum of the balances of all accounts.
    pub closed spec fn held(&self) -> nat {
        total(self.balances@)
    }

    /// The notices recorded so far and not yet taken, oldest first.
    pub closed spec fn emitted(&self) -> Seq<Event> {
        self.events@
    }

    /// Each account and each pair has one entry at most, and the balances add
    /// up to the total supply.
    pub closed spec fn wf(&self) -> bool {
        &&& distinct(self.balances@)
        &&& distinct(self.allowances@)
        &&& total(self.balances@) == self.total_supply
    }

    /// The balance of `a` after `value` units moved from `from` to `to`.
    pub open spec fn balance_after_move(
        &self,
        from: Seq<u8>,
        to: Seq<u8>,
        value: nat,
        a: Seq<u8>,
    ) -> nat {
        if from == to {
            self.balance(a)
        } else if a == from {
            (self.balance(a) - value) as nat
        } else if a == to {
            self.balance(a) + value
        } else {
            self.balance(a)
        }
    }

    /// The total supply is the sum of all balances: the stored invariant
    /// says no less.
    pub proof fn lemma_supply_is_held(&self)
        requires
            self.wf(),
        ensures
            self.held() == self.supply(),
    {
    }

    /// What a transfer of `value` units from `from` to `to` does, taking the
    /// ledger from `before` to `after` with outcome `r`. Where `from` holds
    /// less than `value` it is refused with `InsufficientBalance` and nothing
    /// changes; else the units move, the transfer is recorded, and all else
    /// stays.
    pub open spec fn moved(
        before: Erc20,
        after: Erc20,
        from: AccountId,
        to: AccountId,
        value: u128,
        r: Result<(), Error>,
    ) -> bool {
        &&& after.wf()
        &&& before.balance(from@) < value ==> {
            &&& r == Err::<(), Error>(Error::InsufficientBalance)
            &&& after == before
        }
        &&& before.balance(from@) >= value ==> {
            &&& r == Ok::<(), Error>(())
            &&& after.supply() == before.supply()
            &&& forall|a: Seq<u8>| #[trigger]
                after.balance(a) == before.balance_after_move(from@, to@, value as nat, a)
            &&& forall|o: Seq<u8>, s: Seq<u8>| #[trigger]
                after.allowed(o, s) == before.allowed(o, s)
            &&& after.emitted() == before.emitted().push(
                Event::Transfer(Transfer { from: Some(from), to: Some(to), value }),
            )
        }
    }

    /// What an approval by `owner` of `value` units for `spender` does: that
    /// pair's allowance becomes `value`, whatever it was, the approval is
    /// recorded, and all else stays.
    pub open spec fn approved(
        before: Erc20,
        after: Erc20,
        owner: AccountId,
        spender: AccountId,
        value: u128,
    ) -> bool {
        &&& after.wf()
        &&& after.supply() == before.supply()
        &&& forall|a: Seq<u8>| #[trigger] after.balance(a) == before.balance(a)
        &&& forall|o: Seq<u8>, s: Seq<u8>| #[trigger]
            after.allowed(o, s) == if o == owner@ && s == spender@ {
                value as nat
            } else {
                before.allowed(o, s)
            }
        &&& after.emitted() == before.emitted().push(
            Event::Approval(Approval { owner, spender, value }),
        )
    }

    /// What a transfer by `caller` of `value` units from `from` to `to`
    /// under `from`'s allowance does. A short allowance is refused with
    /// `InsufficientAllowance`, else a short balance with
    /// `InsufficientBalance`, and then nothing changes. Else the units move
    /// as in a transfer and the allowance shrinks by `value`.
    pub open spec fn spent(
        before: Erc20,
        after: Erc20,
        caller: AccountId,
        from: AccountId,
        to: AccountId,
        value: u128,
        r: Result<(), Error>,
    ) -> bool {
        &&& after.wf()
        &&& before.allowed(from@, caller@) < value ==> {
            &&& r == Err::<(), Error>(Error::InsufficientAllowance)
            &&& after == before
        }
        &&& before.allowed(from@, caller@) >= value && before.balance(from@) < value ==> {
            &&& r == Err::<(), Error>(Error::InsufficientBalance)
            &&& after == before
        }
        &&& before.allowed(from@, caller@) >= value && before.balance(from@) >= value ==> {
            &&& r == Ok::<(), Error>(())
            &&& after.supply() == before.supply()
            &&& forall|a: Seq<u8>| #[trigger]
                after.balance(a) == before.balance_after_move(from@, to@, value as nat, a)
            &&& forall|o: Seq<u8>, s: Seq<u8>| #[trigger]
                after.allowed(o, s) == if o == from@ && s == caller@ {
                    (before.allowed(o, s) - value) as nat
                } else {
                    before.allowed(o, s)
                }
            &&& after.emitted() == before.emitted().push(
                Event::Transfer(Transfer { from: Some(from), to: Some(to), value }),
            )
        }
    }

    /// Makes a ledger whose whole supply `initial_supply` is held by
    /// `caller`; no allowance is granted and no notice recorded.
    pub fn new(caller: AccountId, initial_supply: u128) -> (r: Self)
        ensures
            r.wf(),
            r.supply() == initial_supply,
            forall|a: Seq<u8>| #[trigger]
                r.balance(a) == if a == caller@ {
                    initial_supply as nat
                } else {
                    0
                },
            forall|o: Seq<u8>, s: Seq<u8>| #[trigger] r.allowed(o, s) == 0,
            r.emitted() == Seq::<Event>::empty(),
    {
        let mut balances: Vec<(AccountId, u128)> = Vec::new();
        balances.push((caller, initial_supply));
        let allowances: Vec<((AccountId, AccountId), u128)> = Vec::new();
        let r = Erc20 { total_supply: initial_supply, balances, allowances, events: Vec::new() };
        proof {
            let empty = Seq::<(AccountId, u128)>::empty();
            assert(balances@ == empty.push((caller, initial_supply)));
            assert forall|a: Seq<u8>| #[trigger]
                r.balance(a) == if a == caller@ {
                    initial_supply as nat
                } else {
                    0
                } by {
                lemma_lookup_push(empty, (caller, initial_supply), a);
            }
            lemma_lookup_push(empty, (caller, initial_supply), caller@);
        }
        r
    }

    /// The total supply.
    pub fn total_supply(&self) -> (r: u128)
        ensures
            r == self.supply(),
    {
        self.total_supply
    }

    /// The balance of `owner`.
    pub fn balance_of(&self, owner: AccountId) -> (r: u128)
        requires
            self.wf(),
        ensures
            r == self.balance(owner@),
    {
        self.balance_of_impl(&owner)
    }

    /// The balance of `account`, read by reference.
    pub fn balance_of_impl(&self, account: &AccountId) -> (r: u128)
        requires
            self.wf(),
        ensures
            r == self.balance(account@),
    {
        read(&self.balances, account)
    }

    /// What `owner` allows `spender` to move.
    pub fn allowance(&self, owner: AccountId, spender: AccountId) -> (r: u128)
        requires
            self.wf(),
        ensures
            r == self.allowed(owner@, spender@),
    {
        self.allowance_impl(&owner, &spender)
    }

    /// What `owner` allows `spender` to move, read by reference.
    pub fn allowance_impl(&self, owner: &AccountId, spender: &AccountId) -> (r: u128)
        requires
            self.wf(),
        ensures
            r == self.allowed(owner@, spender@),
    {
        read_pair(&self.allowances, owner, spender)
    }

    /// `caller` moves `value` of its own units to `to`; nothing changes
    /// where it holds less than `value`.
    pub fn transfer(
        &mut self,
        caller: AccountId,
        to: AccountId,
        value: u128,
    ) -> (r: Result<(), Error>)
        requires
            old(self).wf(),
        ensures
            Self::moved(*old(self), *final(self), caller, to, value, r),
    {
        self.transfer_from_to(&caller, &to, value)
    }

    /// `caller` allows `spender` to move up to `value` of its units,
    /// replacing any earlier grant; this always succeeds.
    pub fn approve(
        &mut self,
        caller: AccountId,
        spender: AccountId,
        value: u128,
    ) -> (r: Result<(), Error>)
        requires
            old(self).wf(),
        ensures
            r == Ok::<(), Error>(()),
            Self::approved(*old(self), *final(self), caller, spender, value),
    {
        store_pair(&mut self.allowances, &caller, &spender, value);
        self.events.push(Event::Approval(Approval { owner: caller, spender, value }));
        Ok(())
    }

    /// `caller` moves `value` units from `from` to `to` under the allowance
    /// that `from` granted it, which shrinks by `value`. The allowance is
    /// checked first; nothing changes on either refusal.
    pub fn transfer_from(
        &mut self,
        caller: AccountId,
        from: AccountId,
        to: AccountId,
        value: u128,
    ) -> (r: Result<(), Error>)
        requires
            old(self).wf(),
        ensures
            Self::spent(*old(self), *final(self), caller, from, to, value, r),
    {
        let allowance = self.allowance_impl(&from, &caller);
        if allowance < value {
            return Err(Error::InsufficientAllowance);
        }
        match self.transfer_from_to(&from, &to, value) {
            Ok(()) => {},
            Err(e) => {
                return Err(e);
            },
        }
        let ghost transferred = *self;
        store_pair(&mut self.allowances, &from, &caller, allowance - value);
        proof {
            assert forall|a: Seq<u8>| #[trigger] self.balance(a) == transferred.balance(a) by {}
            assert forall|o: Seq<u8>, s: Seq<u8>| #[trigger]
                self.allowed(o, s) == if o == from@ && s == caller@ {
                    (transferred.allowed(o, s) - value) as nat
                } else {
                    transferred.allowed(o, s)
                } by {
                assert(lookup(self.allowances@, (o, s)) == if (o, s) == (from@, caller@) {
                    (allowance - value) as nat
                } else {
                    lookup(transferred.allowances@, (o, s))
                });
            }
        }
        Ok(())
    }

    /// Hands out the recorded notices, oldest first, and forgets them.
    pub fn take_events(&mut self) -> (r: Vec<Event>)
        requires
            old(self).wf(),
        ensures
            final(self).wf(),
            r@ == old(self).emitted(),
            final(self).emitted() == Seq::<Event>::empty(),
            final(self).supply() == old(self).supply(),
            forall|a: Seq<u8>| #[trigger] final(self).balance(a) == old(self).balance(a),
            forall|o: Seq<u8>, s: Seq<u8>| #[trigger] final(self).allowed(o, s) == old(self).allowed(o, s),
    {
        let mut out: Vec<Event> = Vec::new();
        std::mem::swap(&mut self.events, &mut out);
        out
    }

    /// Moves `value` units from `from` to `to` and records the transfer, or
    /// changes nothing where `from` holds less than `value`.
    pub fn transfer_from_to(
        &mut self,
        from: &AccountId,
        to: &AccountId,
        value: u128,
    ) -> (r: Result<(), Error>)
        requires
            old(self).wf(),
        ensures
            Self::moved(*old(self), *final(self), *from, *to, value, r),
    {
        let from_balance = read(&self.balances, from);
        if from_balance < value {
            return Err(Error::InsufficientBalance);
        }
        store(&mut self.balances, from, from_balance - value);
        let to_balance = read(&self.balances, to);
        proof {
            lemma_lookup_le_total(self.balances@, to@);
        }
        store(&mut self.balances, to, to_balance + value);
        self.events.push(Event::Transfer(Transfer { from: Some(*from), to: Some(*to), value }));
        Ok(())
    }
}

} // verus!
