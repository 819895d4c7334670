//! A token ledger: the balance held of each registered token.

use crate::assoc::{
    distinct_keys, has_key, key_index, lemma_key_absent, lemma_key_found, lemma_with_entry, lookup,
    with_entry,
};
use crate::sub::copy_amounts;
use vstd::prelude::*;

verus! {

/// Balances by token, in the order in which the tokens were registered. A
/// registered token may hold a zero balance.
#[derive(Debug)]
pub struct TokenBalances {
    pub token_ids: Vec<String>,
    pub amounts: Vec<u128>,
}

impl View for TokenBalances {
    type V = Seq<(Seq<char>, nat)>;

    open spec fn view(&self) -> Seq<(Seq<char>, nat)> {
        Seq::new(self.token_ids.len() as nat, |i: int| (self.token_ids[i]@, self.amounts[i] as nat))
    }
}

/// The first place in `names` at which `name` stands.
pub fn find_name(names: &Vec<String>, name: &String) -> (r: Option<usize>)
    ensures
        match r {
            Some(i) => i < names.len() && names[i as int]@ == name@ && forall|j: int|
                0 <= j < i ==> (#[trigger] names[j])@ != name@,
            None => forall|j: int| 0 <= j < names.len() ==> (#[trigger] names[j])@ != name@,
        },
{
    let mut i: usize = 0;
    while i < names.len()
        invariant
            i <= names.len(),
            forall|j: int| 0 <= j < i ==> (#[trigger] names[j])@ != name@,
        decreases names.len() - i,
    {
        if names[i] == *name {
            return Some(i);
        }
        i += 1;
    }
    None
}

/// Whether no name stands twice in `names`.
pub fn distinct_names(names: &Vec<String>) -> (r: bool)
    ensures
        r == forall|i: int, j: int|
            0 <= i < j < names.len() ==> (#[trigger] names[i])@ != (#[trigger] names[j])@,
{
    let n = names.len();
    let mut j: usize = 0;
    while j < n
        invariant
            j <= n,
            n == names.len(),
            forall|a: int, b: int|
                0 <= a < b < j ==> (#[trigger] names[a])@ != (#[trigger] names[b])@,
        decreases n - j,
    {
        let mut i: usize = 0;
        while i < j
            invariant
                i <= j < n,
                n == names.len(),
                forall|a: int| 0 <= a < i ==> (#[trigger] names[a])@ != names[j as int]@,
            decreases j - i,
        {
            if names[i] == names[j] {
                return false;
            }
            i += 1;
        }
        j += 1;
    }
    true
}

/// A copy of a vector of names.
pub fn copy_names(names: &Vec<String>) -> (r: Vec<String>)
    ensures
        r.len() == names.len(),
        forall|i: int| 0 <= i < names.len() ==> (#[trigger] r[i])@ == names[i]@,
{
    let mut r: Vec<String> = Vec::new();
    let mut i: usize = 0;
    while i < names.len()
        invariant
            i <= names.len(),
            r.len() == i,
            forall|j: int| 0 <= j < i ==> (#[trigger] r[j])@ == names[j]@,
        decreases names.len() - i,
    {
        r.push(names[i].clone());
        i += 1;
    }
    r
}

impl TokenBalances {
    /// A copy of this ledger.
    pub fn duplicate(&self) -> (r: Self)
        requires
            self.wf(),
        ensures
            r@ == self@,
            r.wf(),
    {
        let r = TokenBalances {
            token_ids: copy_names(&self.token_ids),
            amounts: copy_amounts(&self.amounts),
        };
        assert(r@ =~= self@);
        r
    }

    /// Whether this ledger is well formed.
    pub fn is_wf(&self) -> (r: bool)
        ensures
            r == self.wf(),
    {
        if self.token_ids.len() != self.amounts.len() {
            return false;
        }
        let distinct = distinct_names(&self.token_ids);
        proof {
            if distinct {
                assert forall|i: int, j: int| 0 <= i < j < self@.len() implies (#[trigger] self@[i]).0
                    != (#[trigger] self@[j]).0 by {
                    assert(self.token_ids[i]@ != self.token_ids[j]@);
                }
            } else {
                let (i, j) = choose|i: int, j: int|
                    0 <= i < j < self.token_ids.len() && (#[trigger] self.token_ids[i])@ == (
                    #[trigger] self.token_ids[j])@;
                assert(self@[i].0 == self@[j].0);
            }
        }
        distinct
    }

    /// Every token has one amount and stands once.
    pub open spec fn wf(&self) -> bool {
        &&& self.token_ids.len() == self.amounts.len()
        &&& distinct_keys(self@)
    }

    /// A ledger without tokens.
    pub fn new() -> (r: Self)
        ensures
            r@ == Seq::<(Seq<char>, nat)>::empty(),
            r.wf(),
    {
        let r = TokenBalances { token_ids: Vec::new(), amounts: Vec::new() };
        assert(r@ =~= Seq::<(Seq<char>, nat)>::empty());
        r
    }

    /// The number of registered tokens.
    pub fn len(&self) -> (r: usize)
        ensures
            r == self@.len(),
    {
        self.token_ids.len()
    }

    /// The place of `token_id` in the ledger.
    pub fn find(&self, token_id: &String) -> (r: Option<usize>)
        requires
            self.wf(),
        ensures
            match r {
                Some(i) => i < self@.len() && has_key(self@, token_id@) && key_index(
                    self@,
                    token_id@,
                ) == i,
                None => !has_key(self@, token_id@),
            },
    {
        let r = find_name(&self.token_ids, token_id);
        proof {
            match r {
                Some(i) => {
                    assert(self@[i as int].0 == token_id@);
                    lemma_key_found(self@, token_id@, i as int);
                },
                None => {
                    assert forall|j: int| 0 <= j < self@.len() implies (#[trigger] self@[j]).0
                        != token_id@ by {
                        assert(self.token_ids[j]@ != token_id@);
                    }
                    lemma_key_absent(self@, token_id@);
                },
            }
        }
        r
    }

    /// The balance of `token_id`, if the token is registered.
    pub fn get(&self, token_id: &String) -> (r: Option<u128>)
        requires
            self.wf(),
        ensures
            match r {
                Some(amount) => lookup(self@, token_id@) == Some(amount as nat),
                None => lookup(self@, token_id@) == None::<nat>,
            },
    {
        match self.find(token_id) {
            Some(i) => Some(self.amounts[i]),
            None => None,
        }
    }

    /// Sets the balance of `token_id`, registering the token if need be.
    pub fn insert(&mut self, token_id: &String, amount: u128)
        requires
            old(self).wf(),
        ensures
            final(self)@ == with_entry(old(self)@, token_id@, amount as nat),
            final(self).wf(),
    {
        proof {
            lemma_with_entry(self@, token_id@, amount as nat);
        }
        match self.find(token_id) {
            Some(i) => {
                self.amounts[i] = amount;
                assert(self@ =~= with_entry(old(self)@, token_id@, amount as nat));
            },
            None => {
                self.token_ids.push(token_id.clone());
                self.amounts.push(amount);
                assert(self@ =~= with_entry(old(self)@, token_id@, amount as nat));
            },
        }
    }

    /// The token and the balance at place `index`.
    pub fn entry(&self, index: usize) -> (r: (String, u128))
        requires
            self.wf(),
            index < self@.len(),
        ensures
            r.0@ == self@[index as int].0,
            r.1 as nat == self@[index as int].1,
    {
        (self.token_ids[index].clone(), self.amounts[index])
    }
}

} // verus!
