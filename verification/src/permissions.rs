//! A permissions contract: the oracle that a gated sale asks whether an
//! account may subscribe. This one keeps a list of approved accounts that
//! its owner maintains, and answers alike for every sale.

use crate::balances::{distinct_names, find_name};
use crate::tokens::names_view;
use vstd::prelude::*;

verus! {

/// The mathematical value of a permissions contract.
pub ghost struct PermissionsView {
    pub approved_accounts: Set<Seq<char>>,
    pub owner_id: Seq<char>,
}

/// A permissions contract.
#[derive(Debug)]
pub struct Contract {
    pub approved_accounts: Vec<String>,
    pub owner_id: String,
}

impl View for Contract {
    type V = PermissionsView;

    open spec fn view(&self) -> PermissionsView {
        PermissionsView {
            approved_accounts: names_view(self.approved_accounts@).to_set(),
            owner_id: self.owner_id@,
        }
    }
}

impl Contract {
    /// No account is listed twice.
    pub open spec fn wf(&self) -> bool {
        names_view(self.approved_accounts@).no_duplicates()
    }

    /// Whether the list is well formed.
    pub fn is_wf(&self) -> (r: bool)
        ensures
            r == self.wf(),
    {
        let distinct = distinct_names(&self.approved_accounts);
        proof {
            let names = names_view(self.approved_accounts@);
            if distinct {
                assert forall|i: int, j: int|
                    0 <= i < names.len() && 0 <= j < names.len() && i != j implies names[i]
                    != names[j] by {
                    if i < j {
                        assert(self.approved_accounts[i]@ != self.approved_accounts[j]@);
                    } else {
                        assert(self.approved_accounts[j]@ != self.approved_accounts[i]@);
                    }
                }
            } else {
                let (i, j) = choose|i: int, j: int|
                    0 <= i < j < self.approved_accounts.len() && (
                    #[trigger] self.approved_accounts[i])@ == (#[trigger] self.approved_accounts[j])@;
                assert(names[i] == names[j]);
            }
        }
        distinct
    }

    /// A contract of `owner_id` that approves nobody yet.
    pub fn new(owner_id: String) -> (r: Self)
        ensures
            r.wf(),
            r@ == (PermissionsView { approved_accounts: Set::empty(), owner_id: owner_id@ }),
    {
        let r = Contract { approved_accounts: Vec::new(), owner_id };
        assert(names_view(r.approved_accounts@) =~= Seq::<Seq<char>>::empty());
        assert(r@.approved_accounts =~= Set::<Seq<char>>::empty());
        r
    }

    /// This is a permissions contract.
    pub fn is_permissions_contract(&self) -> (r: bool)
        ensures
            r,
    {
        true
    }

    /// Whether `account_id` may subscribe to the sale `sale_id`: whether the
    /// account is approved, whatever the sale.
    pub fn is_approved(&self, account_id: &String, sale_id: u64) -> (r: bool)
        ensures
            r == self@.approved_accounts.contains(account_id@),
    {
        let found = find_name(&self.approved_accounts, account_id);
        proof {
            let names = names_view(self.approved_accounts@);
            match found {
                Some(i) => {
                    assert(names[i as int] == account_id@);
                },
                None => {
                    assert forall|j: int| 0 <= j < names.len() implies names[j] != account_id@ by {
                        assert(self.approved_accounts[j]@ != account_id@);
                    }
                },
            }
        }
        found.is_some()
    }

    /// Whether `caller_id` is the owner, who alone maintains the list.
    pub fn called_by_owner(&self, caller_id: &String) -> (r: bool)
        ensures
            r == (caller_id@ == self@.owner_id),
    {
        self.owner_id == *caller_id
    }

    /// Approves `account_id`, on the owner's call.
    pub fn approve(&mut self, caller_id: &String, account_id: &String)
        requires
            old(self).wf(),
            caller_id@ == old(self)@.owner_id,
        ensures
            final(self).wf(),
            final(self)@ == (PermissionsView {
                approved_accounts: old(self)@.approved_accounts.insert(account_id@),
                ..old(self)@
            }),
    {
        let found = find_name(&self.approved_accounts, account_id);
        let ghost names = names_view(self.approved_accounts@);
        if found.is_none() {
            self.approved_accounts.push(account_id.clone());
            proof {
                let after = names_view(self.approved_accounts@);
                assert(after =~= names.push(account_id@));
                assert forall|j: int| 0 <= j < names.len() implies names[j] != account_id@ by {
                    assert(old(self).approved_accounts[j]@ != account_id@);
                }
                assert(after.to_set() =~= names.to_set().insert(account_id@)) by {
                    assert forall|x: Seq<char>| after.to_set().contains(x) implies names.to_set().insert(
                        account_id@,
                    ).contains(x) by {
                        let j = choose|j: int| 0 <= j < after.len() && after[j] == x;
                        if j < names.len() {
                            assert(names[j] == x);
                        }
                    }
                    assert forall|x: Seq<char>|
                        names.to_set().insert(account_id@).contains(x) implies after.to_set().contains(
                        x,
                    ) by {
                        if x == account_id@ {
                            assert(after[names.len() as int] == x);
                        } else {
                            let j = choose|j: int| 0 <= j < names.len() && names[j] == x;
                            assert(after[j] == x);
                        }
                    }
                }
            }
        } else {
            proof {
                assert(names[found.unwrap() as int] == account_id@);
                assert(names.to_set().insert(account_id@) =~= names.to_set());
            }
        }
    }

    /// Takes the approval of `account_id` back, on the owner's call.
    pub fn reject(&mut self, caller_id: &String, account_id: &String)
        requires
            old(self).wf(),
            caller_id@ == old(self)@.owner_id,
        ensures
            final(self).wf(),
            final(self)@ == (PermissionsView {
                approved_accounts: old(self)@.approved_accounts.remove(account_id@),
                ..old(self)@
            }),
    {
        let found = find_name(&self.approved_accounts, account_id);
        let ghost names = names_view(self.approved_accounts@);
        match found {
            Some(i) => {
                self.approved_accounts.swap_remove(i);
                proof {
                    let after = names_view(self.approved_accounts@);
                    let last = names.len() - 1;
                    assert(names[i as int] == account_id@);
                    assert(after =~= names.update(i as int, names[last]).drop_last());
                    assert forall|a: int, b: int|
                        0 <= a < after.len() && 0 <= b < after.len() && a != b implies after[a]
                        != after[b] by {
                        let sa = if a == i { last } else { a };
                        let sb = if b == i { last } else { b };
                        assert(after[a] == names[sa] && after[b] == names[sb]);
                    }
                    assert(after.to_set() =~= names.to_set().remove(account_id@)) by {
                        assert forall|x: Seq<char>| after.to_set().contains(x) implies names.to_set().remove(
                            account_id@,
                        ).contains(x) by {
                            let j = choose|j: int| 0 <= j < after.len() && after[j] == x;
                            let sj = if j == i { last } else { j };
                            assert(names[sj] == x);
                            assert(sj != i);
                        }
                        assert forall|x: Seq<char>|
                            names.to_set().remove(account_id@).contains(x) implies after.to_set().contains(
                            x,
                        ) by {
                            let j = choose|j: int| 0 <= j < names.len() && names[j] == x;
                            let tj = if j == last { i as int } else { j };
                            assert(after[tj] == x);
                        }
                    }
                }
            },
            None => {
                proof {
                    assert forall|j: int| 0 <= j < names.len() implies names[j] != account_id@ by {
                        assert(self.approved_accounts[j]@ != account_id@);
                    }
                    assert(names.to_set().remove(account_id@) =~= names.to_set());
                }
            },
        }
    }
}

} // verus!
