//! Token registration, deposits arriving by transfer, and withdrawals by
//! transfer with their compensation.

use crate::account::{Account, AccountView};
use crate::assoc::{distinct_keys, lemma_with_entry, with_entry};
use crate::contract::{Contract, ContractView};
use crate::errors::Error;
use crate::utils::{assert_at_least_one_yocto, assert_at_least_one_yocto_spec};
use vstd::prelude::*;

verus! {

/// What the message of an incoming token transfer asks for.
#[derive(Clone, Copy, Debug, PartialEq, Eq, Structural)]
pub enum FtOnTransferArgs {
    /// Credit the sender's balance of the token that was transferred.
    AccountDeposit,
}

impl ContractView {
    /// The account `account_id` as registration finds it: the registered
    /// one, or an empty one.
    pub open spec fn account_or_empty(self, account_id: Seq<char>) -> AccountView {
        match self.account(account_id) {
            Some(account) => account,
            None => AccountView { balances: Seq::empty(), subs: Seq::empty(), sales: Seq::empty() },
        }
    }

    /// The engine after the account `account_id` registers `token_id`: a
    /// token that the account does not know yet enters its ledger with a
    /// zero balance and, unless it is the protocol token, the treasury's
    /// ledger too.
    pub open spec fn register_token(self, account_id: Seq<char>, token_id: Seq<char>) -> ContractView {
        let account = self.account_or_empty(account_id);
        if account.balance_of(token_id) is Some {
            self.with_account(account_id, account)
        } else {
            ContractView {
                accounts: with_entry(self.accounts, account_id, account.with_balance(token_id, 0)),
                treasury: if token_id == self.treasury.skyward_token_id {
                    self.treasury
                } else {
                    self.treasury.deposit(token_id, 0)
                },
                ..self
            }
        }
    }

    /// The engine after the account `account_id` registers the first `n` of
    /// `token_ids`, one after the other.
    pub open spec fn register_tokens(
        self,
        account_id: Seq<char>,
        token_ids: Seq<Seq<char>>,
        n: nat,
    ) -> ContractView
        decreases n,
    {
        if n == 0 {
            self.with_account(account_id, self.account_or_empty(account_id))
        } else {
            self.register_tokens(account_id, token_ids, (n - 1) as nat).register_token(
                account_id,
                token_ids[n - 1],
            )
        }
    }

    /// The amount that a withdrawal by transfer takes: the amount asked
    /// for, or the whole balance.
    pub open spec fn withdrawal_amount(
        self,
        account_id: Seq<char>,
        token_id: Seq<char>,
        amount: Option<u128>,
    ) -> Result<nat, Error> {
        match self.account(account_id) {
            None => Err(Error::AccountNotFound),
            Some(account) => match amount {
                Some(a) => Ok(a as nat),
                None => match account.balance_of(token_id) {
                    Some(balance) => Ok(balance),
                    None => Err(Error::TokenNotRegistered),
                },
            },
        }
    }
}

/// Registering a token changes the ledger of one account and nothing else:
/// the sales, the subscriptions and the owned sales of the account and every
/// other account stay as they are, and the account exists afterwards.
pub proof fn lemma_register_token_frame(c: ContractView, account_id: Seq<char>, token_id: Seq<char>)
    requires
        distinct_keys(c.accounts),
    ensures
        ({
            let after = c.register_token(account_id, token_id);
            &&& after.sales == c.sales
            &&& distinct_keys(after.accounts)
            &&& after.account(account_id) is Some
            &&& after.account(account_id).unwrap().subs == c.account_or_empty(account_id).subs
            &&& after.account(account_id).unwrap().sales == c.account_or_empty(account_id).sales
            &&& forall|id: Seq<char>| id != account_id ==> after.account(id) == c.account(id)
        }),
{
    let account = c.account_or_empty(account_id);
    lemma_with_entry(c.accounts, account_id, account);
    lemma_with_entry(c.accounts, account_id, account.with_balance(token_id, 0));
}

/// The texts of a vector.
pub open spec fn names_view(names: Seq<String>) -> Seq<Seq<char>> {
    names.map_values(|n: String| n@)
}

impl Contract {
    /// Registers `token_id` on the account `account_id`, creating the
    /// account if need be.
    pub fn internal_maybe_register_token(&mut self, account_id: &String, token_id: &String)
        requires
            old(self).wf(),
        ensures
            final(self)@ == old(self)@.register_token(account_id@, token_id@),
            final(self).wf(),
    {
        let place = match self.accounts.find(account_id) {
            Some(i) => i,
            None => {
                self.accounts.insert(account_id, Account::new());
                proof {
                    lemma_with_entry(
                        old(self)@.accounts,
                        account_id@,
                        old(self)@.account_or_empty(account_id@),
                    );
                }
                self.accounts.find(account_id).unwrap()
            },
        };
        let ghost account = old(self)@.account_or_empty(account_id@);
        let ghost entered = with_entry(old(self)@.accounts, account_id@, account);
        proof {
            lemma_with_entry(old(self)@.accounts, account_id@, account);
            assert(self.accounts@ =~= entered);
        }
        if self.accounts.accounts[place].balances.get(token_id).is_none() {
            self.accounts.accounts[place].balances.insert(token_id, 0);
            proof {
                let registered = account.with_balance(token_id@, 0);
                lemma_with_entry(entered, account_id@, registered);
                lemma_with_entry(old(self)@.accounts, account_id@, registered);
                assert(self.accounts@ =~= with_entry(entered, account_id@, registered));
                assert(with_entry(entered, account_id@, registered) =~= with_entry(
                    old(self)@.accounts,
                    account_id@,
                    registered,
                ));
            }
            if *token_id != self.treasury.skyward_token_id {
                let banked = self.treasury.internal_deposit(token_id, 0);
                assert(banked is Ok);
            }
        }
    }

    /// Registers `token_ids` on the account `account_id` (the caller
    /// `predecessor_account_id` where none is named), creating the account
    /// if need be. The call must come with at least one unit of the native
    /// token attached; without it nothing changes.
    pub fn register_tokens(
        &mut self,
        account_id: Option<String>,
        predecessor_account_id: &String,
        token_ids: &Vec<String>,
        attached_deposit: u128,
    ) -> (r: Result<(), Error>)
        requires
            old(self).wf(),
        ensures
            r == assert_at_least_one_yocto_spec(attached_deposit),
            r is Ok ==> final(self)@ == old(self)@.register_tokens(
                match account_id {
                    Some(id) => id@,
                    None => predecessor_account_id@,
                },
                names_view(token_ids@),
                token_ids.len() as nat,
            ),
            r is Err ==> final(self)@ == old(self)@,
            final(self).wf(),
    {
        match assert_at_least_one_yocto(attached_deposit) {
            Err(e) => { return Err(e); },
            Ok(_) => {},
        }
        let account_id = match account_id {
            Some(id) => id,
            None => predecessor_account_id.clone(),
        };
        if self.accounts.find(&account_id).is_none() {
            self.accounts.insert(&account_id, Account::new());
        }
        proof {
            let account = old(self)@.account_or_empty(account_id@);
            lemma_with_entry(old(self)@.accounts, account_id@, account);
            assert(self.accounts@ =~= with_entry(old(self)@.accounts, account_id@, account));
        }
        let mut i: usize = 0;
        while i < token_ids.len()
            invariant
                i <= token_ids.len(),
                self.wf(),
                self@ == old(self)@.register_tokens(account_id@, names_view(token_ids@), i as nat),
            decreases token_ids.len() - i,
        {
            assert(names_view(token_ids@)[i as int] == token_ids[i as int]@);
            self.internal_maybe_register_token(&account_id, &token_ids[i]);
            i += 1;
        }
        Ok(())
    }

    /// Registers `token_account_id` on the account `account_id` (the caller
    /// `predecessor_account_id` where none is named): `register_tokens` for
    /// one token.
    pub fn register_token(
        &mut self,
        account_id: Option<String>,
        predecessor_account_id: &String,
        token_account_id: String,
        attached_deposit: u128,
    ) -> (r: Result<(), Error>)
        requires
            old(self).wf(),
        ensures
            r == assert_at_least_one_yocto_spec(attached_deposit),
            r is Ok ==> final(self)@ == old(self)@.register_tokens(
                match account_id {
                    Some(id) => id@,
                    None => predecessor_account_id@,
                },
                seq![token_account_id@],
                1,
            ),
            r is Err ==> final(self)@ == old(self)@,
            final(self).wf(),
    {
        let mut token_ids: Vec<String> = Vec::new();
        token_ids.push(token_account_id);
        assert(names_view(token_ids@) =~= seq![token_account_id@]);
        self.register_tokens(account_id, predecessor_account_id, &token_ids, attached_deposit)
    }

    /// Takes `amount` of `token_account_id` (the whole balance for `None`)
    /// out of the balance of `account_id`, to be transferred to the
    /// account's owner, and returns the amount taken. A refusal changes
    /// nothing.
    pub fn withdraw_token(
        &mut self,
        account_id: &String,
        token_account_id: &String,
        amount: Option<u128>,
    ) -> (r: Result<u128, Error>)
        requires
            old(self).wf(),
        ensures
            match r {
                Ok(taken) => {
                    &&& old(self)@.withdrawal_amount(account_id@, token_account_id@, amount) == Ok::<
                        nat,
                        Error,
                    >(taken as nat)
                    &&& old(self)@.debit(account_id@, token_account_id@, taken as nat) == Ok::<
                        ContractView,
                        Error,
                    >(final(self)@)
                },
                Err(e) => {
                    &&& final(self)@ == old(self)@
                    &&& match old(self)@.withdrawal_amount(account_id@, token_account_id@, amount) {
                        Err(e2) => e == e2,
                        Ok(taken) => old(self)@.debit(account_id@, token_account_id@, taken) == Err::<
                            ContractView,
                            Error,
                        >(e),
                    }
                },
            },
            final(self).wf(),
    {
        let taken = match self.internal_unwrap_account(account_id) {
            Err(e) => { return Err(e); },
            Ok(account) => match amount {
                Some(a) => a,
                None => match account.balances.get(token_account_id) {
                    Some(balance) => balance,
                    None => { return Err(Error::TokenNotRegistered); },
                },
            },
        };
        match self.internal_debit(account_id, token_account_id, taken) {
            Err(e) => Err(e),
            Ok(_) => Ok(taken),
        }
    }

    /// Settles a withdrawal by transfer once the transfer has resolved: a
    /// transfer that failed is compensated by crediting the amount back.
    /// Returns whether the transfer succeeded. A refusal changes nothing.
    pub fn after_ft_transfer(
        &mut self,
        account_id: &String,
        token_account_id: &String,
        amount: u128,
        promise_success: bool,
    ) -> (r: Result<bool, Error>)
        requires
            old(self).wf(),
        ensures
            match r {
                Ok(succeeded) => succeeded == promise_success && (if promise_success {
                    final(self)@ == old(self)@
                } else {
                    old(self)@.credit(account_id@, token_account_id@, amount as nat) == Ok::<
                        ContractView,
                        Error,
                    >(final(self)@)
                }),
                Err(e) => !promise_success && final(self)@ == old(self)@ && old(self)@.credit(
                    account_id@,
                    token_account_id@,
                    amount as nat,
                ) == Err::<ContractView, Error>(e),
            },
            final(self).wf(),
    {
        if !promise_success {
            match self.internal_credit(account_id, token_account_id, amount) {
                Err(e) => { return Err(e); },
                Ok(_) => {},
            }
        }
        Ok(promise_success)
    }

    /// Takes in a token transfer: `amount` of the token `token_account_id`
    /// has arrived from `sender_id`, with a message that asked for `args`.
    /// Returns the amount to hand back, which is nothing. A refusal changes
    /// nothing.
    pub fn ft_on_transfer(
        &mut self,
        sender_id: &String,
        token_account_id: &String,
        amount: u128,
        args: FtOnTransferArgs,
    ) -> (r: Result<u128, Error>)
        requires
            old(self).wf(),
        ensures
            match r {
                Ok(unused) => unused == 0 && old(self)@.credit(
                    sender_id@,
                    token_account_id@,
                    amount as nat,
                ) == Ok::<ContractView, Error>(final(self)@),
                Err(e) => final(self)@ == old(self)@ && old(self)@.credit(
                    sender_id@,
                    token_account_id@,
                    amount as nat,
                ) == Err::<ContractView, Error>(e),
            },
            final(self).wf(),
    {
        match args {
            FtOnTransferArgs::AccountDeposit => {
                match self.internal_credit(sender_id, token_account_id, amount) {
                    Err(e) => Err(e),
                    Ok(_) => Ok(0),
                }
            },
        }
    }

    /// The balance that `account_id` holds of `token_account_id`, if the
    /// account exists and has registered the token.
    pub fn balance_of(&self, account_id: &String, token_account_id: &String) -> (r: Option<u128>)
        requires
            self.wf(),
        ensures
            match r {
                Some(balance) => self@.account(account_id@) is Some && self@.account(
                    account_id@,
                ).unwrap().balance_of(token_account_id@) == Some(balance as nat),
                None => self@.account(account_id@) is None || self@.account(
                    account_id@,
                ).unwrap().balance_of(token_account_id@) is None,
            },
    {
        match self.internal_unwrap_account(account_id) {
            Ok(account) => account.balances.get(token_account_id),
            Err(_) => None,
        }
    }

    /// The number of tokens that `account_id` has registered, zero where
    /// the account does not exist.
    pub fn get_num_balances(&self, account_id: &String) -> (r: u64)
        requires
            self.wf(),
        ensures
            r == match self@.account(account_id@) {
                Some(account) => account.balances.len(),
                None => 0,
            },
    {
        match self.internal_unwrap_account(account_id) {
            Ok(account) => account.balances.len() as u64,
            Err(_) => 0,
        }
    }
}

} // verus!
