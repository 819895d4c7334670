//! What the treasury sends out and takes in through the host: its balances
//! claimed by the DAO, and spare native tokens wrapped into its ledger.

use crate::assoc::{lemma_with_entry, lookup, with_entry};
use crate::contract::{Contract, ContractView};
use crate::errors::Error;
use crate::tokens::names_view;
use crate::treasury::TreasuryView;
use crate::utils::{EXTRA_NEAR, ONE_NEAR, STORAGE_DEPOSIT};
use vstd::prelude::*;

verus! {

/// The entries of a ledger that hold something, in the ledger's order.
pub open spec fn positive_balances(balances: Seq<(Seq<char>, nat)>) -> Seq<(Seq<char>, nat)>
    decreases balances.len(),
{
    if balances.len() == 0 {
        Seq::empty()
    } else if balances.last().1 > 0 {
        positive_balances(balances.drop_last()).push(balances.last())
    } else {
        positive_balances(balances.drop_last())
    }
}

/// A list of tokens with amounts as mathematical values.
pub open spec fn transfers_view(transfers: Seq<(String, u128)>) -> Seq<(Seq<char>, nat)> {
    transfers.map_values(|t: (String, u128)| (t.0@, t.1 as nat))
}

/// The native tokens that a wrap deposits: the price of an account on the
/// wrapped-native-token contract, and the amount to wrap.
#[derive(Clone, Copy, Debug, PartialEq, Eq, Structural)]
pub struct NearWrap {
    pub storage_deposit: u128,
    pub extra_near: u128,
}

impl TreasuryView {
    /// The treasury after the first `n` transfers of a claim have resolved:
    /// the balance of each token whose transfer succeeded is zero. The
    /// protocol token is never entered in the ledger.
    pub open spec fn after_claim(
        self,
        token_ids: Seq<Seq<char>>,
        succeeded: Seq<bool>,
        n: nat,
    ) -> TreasuryView
        decreases n,
    {
        if n == 0 {
            self
        } else {
            let before = self.after_claim(token_ids, succeeded, (n - 1) as nat);
            if succeeded[n - 1] && token_ids[n - 1] != self.skyward_token_id {
                TreasuryView { balances: with_entry(before.balances, token_ids[n - 1], 0), ..before }
            } else {
                before
            }
        }
    }

    /// The native tokens that the engine can spare: what its account holds
    /// beyond the price of its storage and the deposits held back.
    pub open spec fn unused_near(
        self,
        account_balance: nat,
        storage_usage: nat,
        storage_byte_cost: nat,
    ) -> int {
        account_balance - storage_usage * storage_byte_cost - self.locked_attached_deposits
    }

    /// A wrap is worth it: more can be spared than one whole native token
    /// and the price of the storage that a wrap sets aside.
    pub open spec fn can_wrap(
        self,
        account_balance: nat,
        storage_usage: nat,
        storage_byte_cost: nat,
    ) -> bool {
        self.unused_near(account_balance, storage_usage, storage_byte_cost) > storage_byte_cost
            * EXTRA_NEAR + ONE_NEAR
    }
}

impl Contract {
    /// The transfers that hand the treasury's balances to the DAO: every
    /// token of which the treasury holds something, with the amount held.
    /// The balances stay until `after_claim_treasury` hears of each
    /// transfer's success.
    pub fn claim_treasury(&self) -> (r: Vec<(String, u128)>)
        requires
            self.wf(),
        ensures
            transfers_view(r@) == positive_balances(self@.treasury.balances),
    {
        let mut transfers: Vec<(String, u128)> = Vec::new();
        let n = self.treasury.balances.len();
        let ghost balances = self@.treasury.balances;
        let mut i: usize = 0;
        while i < n
            invariant
                i <= n,
                n == balances.len(),
                balances == self@.treasury.balances,
                self.wf(),
                transfers_view(transfers@) == positive_balances(balances.subrange(0, i as int)),
            decreases n - i,
        {
            let (token_id, balance) = self.treasury.balances.entry(i);
            proof {
                assert(balances.subrange(0, i + 1).drop_last() =~= balances.subrange(0, i as int));
                assert(balances.subrange(0, i + 1).last() == balances[i as int]);
            }
            if balance > 0 {
                let ghost before = transfers_view(transfers@);
                transfers.push((token_id, balance));
                assert(transfers_view(transfers@) =~= before.push(balances[i as int]));
            }
            i += 1;
        }
        assert(balances.subrange(0, n as int) =~= balances);
        transfers
    }

    /// Settles a claim once its transfers have resolved: transfer `i` was of
    /// the token `token_ids[i]` and ended as `succeeded[i]` says. The
    /// balance of each token whose transfer succeeded is set to zero; a
    /// failed transfer leaves its balance for the next claim.
    pub fn after_claim_treasury(&mut self, token_ids: &Vec<String>, succeeded: &Vec<bool>)
        requires
            old(self).wf(),
            succeeded.len() <= token_ids.len(),
        ensures
            final(self)@ == (ContractView {
                treasury: old(self)@.treasury.after_claim(
                    names_view(token_ids@),
                    succeeded@,
                    succeeded.len() as nat,
                ),
                ..old(self)@
            }),
            final(self).wf(),
    {
        let n = succeeded.len();
        let ghost names = names_view(token_ids@);
        let mut i: usize = 0;
        while i < n
            invariant
                i <= n,
                n == succeeded.len(),
                n <= token_ids.len(),
                names == names_view(token_ids@),
                self.wf(),
                self.accounts == old(self).accounts,
                self.sales == old(self).sales,
                self@.treasury.skyward_token_id == old(self)@.treasury.skyward_token_id,
                self@.treasury == old(self)@.treasury.after_claim(names, succeeded@, i as nat),
            decreases n - i,
        {
            assert(names[i as int] == token_ids[i as int]@);
            if succeeded[i] && token_ids[i] != self.treasury.skyward_token_id {
                proof {
                    lemma_with_entry(self.treasury.balances@, token_ids[i as int]@, 0nat);
                }
                self.treasury.balances.insert(&token_ids[i], 0);
            }
            i += 1;
        }
    }

    /// The balance that the treasury holds of `token_account_id`, if the
    /// token is in its ledger.
    pub fn get_treasury_balance(&self, token_account_id: &String) -> (r: Option<u128>)
        requires
            self.wf(),
        ensures
            match r {
                Some(balance) => lookup(self@.treasury.balances, token_account_id@) == Some(
                    balance as nat,
                ),
                None => lookup(self@.treasury.balances, token_account_id@) == None::<nat>,
            },
    {
        self.treasury.balances.get(token_account_id)
    }

    /// The number of tokens in the treasury's ledger.
    pub fn get_treasury_num_balances(&self) -> (r: u64)
        ensures
            r == self@.treasury.balances.len(),
    {
        self.treasury.balances.len() as u64
    }

    /// The listing fee in native tokens.
    pub fn get_listing_fee(&self) -> (r: u128)
        ensures
            r == self@.treasury.listing_fee_near,
    {
        self.treasury.listing_fee_near
    }

    /// Plans the wrapping of the native tokens that the engine can spare,
    /// given what its account holds, the bytes of storage it uses and the
    /// price of a byte. Refused with `NotEnoughBalance` unless more can be
    /// spared than one whole native token on top of the storage set aside.
    pub fn wrap_extra_near(&self, account_balance: u128, storage_usage: u64, storage_byte_cost: u128) -> (r:
        Result<NearWrap, Error>)
        ensures
            match r {
                Ok(wrap) => {
                    &&& self@.treasury.can_wrap(
                        account_balance as nat,
                        storage_usage as nat,
                        storage_byte_cost as nat,
                    )
                    &&& wrap.storage_deposit == storage_byte_cost * STORAGE_DEPOSIT
                    &&& wrap.extra_near == self@.treasury.unused_near(
                        account_balance as nat,
                        storage_usage as nat,
                        storage_byte_cost as nat,
                    ) - EXTRA_NEAR * storage_byte_cost
                },
                Err(e) => e == Error::NotEnoughBalance && !self@.treasury.can_wrap(
                    account_balance as nat,
                    storage_usage as nat,
                    storage_byte_cost as nat,
                ),
            },
    {
        let storage_cost = match (storage_usage as u128).checked_mul(storage_byte_cost) {
            None => { return Err(Error::NotEnoughBalance); },
            Some(cost) => cost,
        };
        if account_balance < storage_cost {
            return Err(Error::NotEnoughBalance);
        }
        if account_balance - storage_cost < self.treasury.locked_attached_deposits {
            return Err(Error::NotEnoughBalance);
        }
        let unused = account_balance - storage_cost - self.treasury.locked_attached_deposits;
        let set_aside = match storage_byte_cost.checked_mul(EXTRA_NEAR) {
            None => { return Err(Error::NotEnoughBalance); },
            Some(cost) => cost,
        };
        if unused <= ONE_NEAR || unused - ONE_NEAR <= set_aside {
            return Err(Error::NotEnoughBalance);
        }
        assert(storage_byte_cost * STORAGE_DEPOSIT <= storage_byte_cost * EXTRA_NEAR)
            by (nonlinear_arith);
        assert(EXTRA_NEAR * storage_byte_cost == storage_byte_cost * EXTRA_NEAR)
            by (nonlinear_arith);
        Ok(NearWrap { storage_deposit: storage_byte_cost * STORAGE_DEPOSIT, extra_near: unused - set_aside })
    }

    /// Settles a wrap once the deposit has resolved: where it succeeded, the
    /// treasury banks `amount` of the wrapped native token. Returns whether
    /// the deposit succeeded. A refusal changes nothing.
    pub fn after_near_deposit(&mut self, amount: u128, promise_success: bool) -> (r: Result<
        bool,
        Error,
    >)
        requires
            old(self).wf(),
        ensures
            match r {
                Ok(succeeded) => succeeded == promise_success && (if promise_success {
                    old(self)@.bank(old(self)@.treasury.w_near_token_id, amount as nat) == Ok::<
                        ContractView,
                        Error,
                    >(final(self)@)
                } else {
                    final(self)@ == old(self)@
                }),
                Err(e) => promise_success && final(self)@ == old(self)@ && old(self)@.bank(
                    old(self)@.treasury.w_near_token_id,
                    amount as nat,
                ) == Err::<ContractView, Error>(e),
            },
            final(self).wf(),
    {
        if promise_success {
            let w_near_token_id = self.treasury.w_near_token_id.clone();
            match self.internal_bank(&w_near_token_id, amount) {
                Err(e) => { return Err(e); },
                Ok(_) => {},
            }
        }
        Ok(promise_success)
    }
}

} // verus!
