//! The redemption of the protocol token: burning it buys the same part of
//! each treasury balance as the burned amount is of the circulating supply.

use crate::assoc::{lemma_with_entry, lookup, with_entry};
use crate::contract::{Contract, ContractView};
use crate::errors::Error;
use crate::math::{mul_div_floor, mul_div_floor_spec};
use crate::tokens::names_view;
use crate::treasury::TreasuryView;
use vstd::prelude::*;

verus! {

impl ContractView {
    /// The engine after `amount` of `supply` protocol tokens is redeemed
    /// against the treasury's balance of `token_id`: the part of the balance
    /// that the amount is of the supply, rounded down, moves from the
    /// treasury to the account.
    pub open spec fn redeem_token(
        self,
        account_id: Seq<char>,
        token_id: Seq<char>,
        amount: nat,
        supply: nat,
    ) -> Result<ContractView, Error> {
        match lookup(self.treasury.balances, token_id) {
            None => Err(Error::TokenNotRegistered),
            Some(balance) => {
                let share = mul_div_floor_spec(balance, amount, supply);
                if share > balance {
                    Err(Error::NotEnoughBalance)
                } else if share == 0 {
                    Ok(self)
                } else {
                    ContractView {
                        treasury: TreasuryView {
                            balances: with_entry(
                                self.treasury.balances,
                                token_id,
                                (balance - share) as nat,
                            ),
                            ..self.treasury
                        },
                        ..self
                    }.credit(account_id, token_id, share)
                }
            },
        }
    }

    /// The engine after the redemption against the first `n` of `token_ids`,
    /// one after the other.
    pub open spec fn redeem_tokens(
        self,
        account_id: Seq<char>,
        token_ids: Seq<Seq<char>>,
        amount: nat,
        supply: nat,
        n: nat,
    ) -> Result<ContractView, Error>
        decreases n,
    {
        if n == 0 {
            Ok(self)
        } else {
            match self.redeem_tokens(account_id, token_ids, amount, supply, (n - 1) as nat) {
                Err(e) => Err(e),
                Ok(c) => c.redeem_token(account_id, token_ids[n - 1], amount, supply),
            }
        }
    }

    /// The engine after the account `account_id` redeems `amount` protocol
    /// tokens against `token_ids` at `now`. The amount is taken from the
    /// account's balance and counted as burned; the supply that it is
    /// measured against is the circulating supply before the burn.
    pub open spec fn redeem_skyward(
        self,
        account_id: Seq<char>,
        amount: nat,
        token_ids: Seq<Seq<char>>,
        now: nat,
    ) -> Result<ContractView, Error> {
        let supply = self.treasury.circulating_supply(now);
        if amount == 0 {
            Err(Error::ZeroSkyward)
        } else {
            match self.debit(account_id, self.treasury.skyward_token_id, amount) {
                Err(e) => Err(e),
                Ok(c) => if supply == 0 {
                    Err(Error::ZeroSkyward)
                } else if self.treasury.skyward_burned_amount + amount > u128::MAX {
                    Err(Error::BalanceOverflow)
                } else {
                    ContractView {
                        treasury: TreasuryView {
                            skyward_burned_amount: self.treasury.skyward_burned_amount + amount,
                            ..c.treasury
                        },
                        ..c
                    }.redeem_tokens(account_id, token_ids, amount, supply, token_ids.len())
                },
            }
        }
    }
}

/// Once a redemption has failed, it has failed for good.
pub proof fn lemma_redeem_tokens_fails(
    c: ContractView,
    account_id: Seq<char>,
    token_ids: Seq<Seq<char>>,
    amount: nat,
    supply: nat,
    n: nat,
    m: nat,
)
    requires
        n <= m,
        c.redeem_tokens(account_id, token_ids, amount, supply, n) is Err,
    ensures
        c.redeem_tokens(account_id, token_ids, amount, supply, m) == c.redeem_tokens(
            account_id,
            token_ids,
            amount,
            supply,
            n,
        ),
    decreases m,
{
    if n < m {
        lemma_redeem_tokens_fails(c, account_id, token_ids, amount, supply, n, (m - 1) as nat);
    }
}

impl Contract {
    /// Redeems against the treasury's balance of one token.
    fn redeem_token(&mut self, account_id: &String, token_id: &String, amount: u128, supply: u128) -> (r:
        Result<(), Error>)
        requires
            old(self).wf(),
            supply > 0,
        ensures
            match r {
                Ok(_) => old(self)@.redeem_token(
                    account_id@,
                    token_id@,
                    amount as nat,
                    supply as nat,
                ) == Ok::<ContractView, Error>(final(self)@),
                Err(e) => old(self)@.redeem_token(
                    account_id@,
                    token_id@,
                    amount as nat,
                    supply as nat,
                ) == Err::<ContractView, Error>(e),
            },
            final(self).wf(),
    {
        let balance = match self.treasury.balances.get(token_id) {
            None => { return Err(Error::TokenNotRegistered); },
            Some(balance) => balance,
        };
        let share = match mul_div_floor(balance, amount, supply) {
            None => { return Err(Error::NotEnoughBalance); },
            Some(share) => share,
        };
        if share > balance {
            return Err(Error::NotEnoughBalance);
        }
        if share > 0 {
            proof {
                lemma_with_entry(self.treasury.balances@, token_id@, (balance - share) as nat);
            }
            self.treasury.balances.insert(token_id, balance - share);
            self.internal_credit(account_id, token_id, share)
        } else {
            Ok(())
        }
    }

    /// The steps of `redeem_skyward`, in place.
    fn redeem_in_place(
        &mut self,
        account_id: &String,
        skyward_amount: u128,
        token_account_ids: &Vec<String>,
        now: u64,
    ) -> (r: Result<(), Error>)
        requires
            old(self).wf(),
        ensures
            match r {
                Ok(_) => old(self)@.redeem_skyward(
                    account_id@,
                    skyward_amount as nat,
                    names_view(token_account_ids@),
                    now as nat,
                ) == Ok::<ContractView, Error>(final(self)@),
                Err(e) => old(self)@.redeem_skyward(
                    account_id@,
                    skyward_amount as nat,
                    names_view(token_account_ids@),
                    now as nat,
                ) == Err::<ContractView, Error>(e),
            },
            final(self).wf(),
    {
        if skyward_amount == 0 {
            return Err(Error::ZeroSkyward);
        }
        let skyward_token_id = self.treasury.skyward_token_id.clone();
        match self.internal_debit(account_id, &skyward_token_id, skyward_amount) {
            Err(e) => { return Err(e); },
            Ok(_) => {},
        }
        let supply = self.treasury.circulating_supply(now);
        if supply == 0 {
            return Err(Error::ZeroSkyward);
        }
        if skyward_amount > u128::MAX - self.treasury.skyward_burned_amount {
            return Err(Error::BalanceOverflow);
        }
        self.treasury.skyward_burned_amount = self.treasury.skyward_burned_amount + skyward_amount;
        let ghost burned = self@;
        let ghost names = names_view(token_account_ids@);
        let n = token_account_ids.len();
        let mut i: usize = 0;
        assert(old(self)@.redeem_skyward(account_id@, skyward_amount as nat, names, now as nat)
            == burned.redeem_tokens(
            account_id@,
            names,
            skyward_amount as nat,
            supply as nat,
            n as nat,
        ));
        while i < n
            invariant
                i <= n,
                n == token_account_ids.len(),
                names == names_view(token_account_ids@),
                supply > 0,
                old(self)@.redeem_skyward(account_id@, skyward_amount as nat, names, now as nat)
                    == burned.redeem_tokens(
                    account_id@,
                    names,
                    skyward_amount as nat,
                    supply as nat,
                    n as nat,
                ),
                self.wf(),
                burned.redeem_tokens(
                    account_id@,
                    names,
                    skyward_amount as nat,
                    supply as nat,
                    i as nat,
                ) == Ok::<ContractView, Error>(self@),
            decreases n - i,
        {
            assert(names[i as int] == token_account_ids[i as int]@);
            match self.redeem_token(account_id, &token_account_ids[i], skyward_amount, supply) {
                Err(e) => {
                    proof {
                        lemma_redeem_tokens_fails(
                            burned,
                            account_id@,
                            names,
                            skyward_amount as nat,
                            supply as nat,
                            (i + 1) as nat,
                            n as nat,
                        );
                    }
                    return Err(e);
                },
                Ok(_) => {},
            }
            i += 1;
        }
        Ok(())
    }

    /// Redeems `skyward_amount` protocol tokens of the account `account_id`
    /// against the treasury's balances of `token_account_ids` at `now`. A
    /// refusal changes nothing.
    pub fn redeem_skyward(
        &mut self,
        account_id: &String,
        skyward_amount: u128,
        token_account_ids: &Vec<String>,
        now: u64,
    ) -> (r: Result<(), Error>)
        requires
            old(self).wf(),
        ensures
            match r {
                Ok(_) => old(self)@.redeem_skyward(
                    account_id@,
                    skyward_amount as nat,
                    names_view(token_account_ids@),
                    now as nat,
                ) == Ok::<ContractView, Error>(final(self)@),
                Err(e) => old(self)@.redeem_skyward(
                    account_id@,
                    skyward_amount as nat,
                    names_view(token_account_ids@),
                    now as nat,
                ) == Err::<ContractView, Error>(e) && final(self)@ == old(self)@,
            },
            final(self).wf(),
    {
        let mut work = self.duplicate();
        match work.redeem_in_place(account_id, skyward_amount, token_account_ids, now) {
            Ok(_) => {
                *self = work;
                Ok(())
            },
            Err(e) => Err(e),
        }
    }

    /// The protocol tokens in circulation at `now`.
    pub fn get_skyward_circulating_supply(&self, now: u64) -> (r: u128)
        requires
            self.wf(),
        ensures
            r == self@.treasury.circulating_supply(now as nat),
    {
        self.treasury.circulating_supply(now)
    }
}

} // verus!
