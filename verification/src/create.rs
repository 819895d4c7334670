//! The creation of a sale.

use crate::account::{with_sale_id, AccountView};
use crate::assoc::{lemma_with_entry, with_entry};
use crate::contract::{Contract, ContractView};
use crate::errors::Error;
use crate::sale::{lemma_valid_input_wf, OutTokenView, Sale, SaleInput, SaleInputView};
use vstd::prelude::*;

verus! {

impl ContractView {
    /// The engine after the owner has paid in the first `n` pools of a new
    /// sale from the balances of the account, one after the other.
    pub open spec fn fund_pools(
        self,
        owner_id: Seq<char>,
        pools: Seq<OutTokenView>,
        n: nat,
    ) -> Result<ContractView, Error>
        decreases n,
    {
        if n == 0 {
            Ok(self)
        } else {
            match self.fund_pools(owner_id, pools, (n - 1) as nat) {
                Err(e) => Err(e),
                Ok(c) => if pools[n - 1].remaining > 0 {
                    c.debit(owner_id, pools[n - 1].token_account_id, pools[n - 1].remaining)
                } else {
                    Ok(c)
                },
            }
        }
    }

    /// The engine with `sale_id` among the sales that `owner_id` owns.
    pub open spec fn with_owned_sale(self, owner_id: Seq<char>, sale_id: nat) -> ContractView {
        match self.account(owner_id) {
            Some(account) => self.with_account(
                owner_id,
                AccountView { sales: with_sale_id(account.sales, sale_id), ..account },
            ),
            None => self,
        }
    }

    /// The engine after `owner_id` creates the sale that `input` asks for,
    /// at `now` in a block of height `block_height`. The sale must pass
    /// validation, and the owner must be registered and hold what the sale
    /// offers: each pool is paid in from the owner's balance. The owner
    /// registers the in-token, and the sale is stored under the next id, is
    /// counted and enters the owner's set of sales.
    pub open spec fn sale_create(
        self,
        input: SaleInputView,
        owner_id: Seq<char>,
        engine_id: Seq<char>,
        now: nat,
        block_height: nat,
    ) -> Result<ContractView, Error> {
        let sale = input.sale(owner_id, self.treasury.skyward_token_id, block_height);
        match sale.validation_error(engine_id, now) {
            Some(e) => Err(e),
            None => if self.account(owner_id) is None {
                Err(Error::AccountNotFound)
            } else {
                match self.fund_pools(owner_id, sale.out_tokens, sale.out_tokens.len()) {
                    Err(e) => Err(e),
                    Ok(funded) => {
                        let registered = funded.register_token(owner_id, sale.in_token_account_id);
                        let listed = registered.with_owned_sale(owner_id, self.sales.len());
                        Ok(
                            ContractView {
                                sales: self.sales.push(sale),
                                num_sales: self.sales.len() + 1,
                                ..listed
                            },
                        )
                    },
                }
            },
        }
    }
}

/// Once paying in has failed, it has failed for good.
pub proof fn lemma_fund_pools_fails(
    c: ContractView,
    owner_id: Seq<char>,
    pools: Seq<OutTokenView>,
    n: nat,
    m: nat,
)
    requires
        n <= m,
        c.fund_pools(owner_id, pools, n) is Err,
    ensures
        c.fund_pools(owner_id, pools, m) == c.fund_pools(owner_id, pools, n),
    decreases m,
{
    if n < m {
        lemma_fund_pools_fails(c, owner_id, pools, n, (m - 1) as nat);
    }
}

impl Contract {
    /// Pays in the pools of a new sale from the balances of its owner.
    fn fund_pools(&mut self, sale: &Sale) -> (r: Result<(), Error>)
        requires
            old(self).wf(),
        ensures
            match r {
                Ok(_) => old(self)@.fund_pools(
                    sale@.owner_id,
                    sale@.out_tokens,
                    sale@.out_tokens.len(),
                ) == Ok::<ContractView, Error>(final(self)@),
                Err(e) => old(self)@.fund_pools(
                    sale@.owner_id,
                    sale@.out_tokens,
                    sale@.out_tokens.len(),
                ) == Err::<ContractView, Error>(e),
            },
            final(self).wf(),
            final(self)@.sales == old(self)@.sales,
    {
        let n = sale.out_tokens.len();
        let mut i: usize = 0;
        while i < n
            invariant
                i <= n,
                n == sale.out_tokens.len(),
                self.wf(),
                self@.sales == old(self)@.sales,
                old(self)@.fund_pools(sale@.owner_id, sale@.out_tokens, i as nat) == Ok::<
                    ContractView,
                    Error,
                >(self@),
            decreases n - i,
        {
            let pool = &sale.out_tokens[i];
            assert(sale@.out_tokens[i as int] == pool@);
            if pool.remaining > 0 {
                match self.internal_debit(&sale.owner_id, &pool.token_account_id, pool.remaining) {
                    Err(e) => {
                        proof {
                            lemma_fund_pools_fails(
                                old(self)@,
                                sale@.owner_id,
                                sale@.out_tokens,
                                (i + 1) as nat,
                                n as nat,
                            );
                        }
                        return Err(e);
                    },
                    Ok(_) => {},
                }
            }
            i += 1;
        }
        Ok(())
    }

    /// Enters `sale_id` among the sales that `owner_id`, who is registered,
    /// owns.
    fn list_owned_sale(&mut self, owner_id: &String, sale_id: u64)
        requires
            old(self).wf(),
        ensures
            final(self)@ == old(self)@.with_owned_sale(owner_id@, sale_id as nat),
            final(self).wf(),
    {
        match self.accounts.find(owner_id) {
            None => {},
            Some(i) => {
                self.accounts.accounts[i].internal_add_sale(sale_id);
                proof {
                    let before = old(self).accounts@;
                    lemma_with_entry(before, owner_id@, self.accounts.accounts[i as int]@);
                    assert(self.accounts@ =~= with_entry(
                        before,
                        owner_id@,
                        self.accounts.accounts[i as int]@,
                    ));
                }
            },
        }
    }

    /// The steps of `sale_create`, in place.
    fn create_in_place(
        &mut self,
        sale: SaleInput,
        owner_id: &String,
        current_account_id: &String,
        now: u64,
        block_height: u64,
    ) -> (r: Result<u64, Error>)
        requires
            old(self).wf(),
        ensures
            match r {
                Ok(sale_id) => sale_id == old(self)@.sales.len() && old(self)@.sale_create(
                    sale@,
                    owner_id@,
                    current_account_id@,
                    now as nat,
                    block_height as nat,
                ) == Ok::<ContractView, Error>(final(self)@),
                Err(e) => old(self)@.sale_create(
                    sale@,
                    owner_id@,
                    current_account_id@,
                    now as nat,
                    block_height as nat,
                ) == Err::<ContractView, Error>(e),
            },
            final(self).wf(),
    {
        let ghost input = sale@;
        let sale_id = self.num_sales;
        let sale = Sale::from_input(
            sale,
            owner_id.clone(),
            &self.treasury.skyward_token_id,
            block_height,
        );
        match sale.assert_valid_not_started(current_account_id, now) {
            Err(e) => { return Err(e); },
            Ok(_) => {},
        }
        if self.accounts.find(owner_id).is_none() {
            return Err(Error::AccountNotFound);
        }
        match self.fund_pools(&sale) {
            Err(e) => { return Err(e); },
            Ok(_) => {},
        }
        self.internal_maybe_register_token(owner_id, &sale.in_token_account_id);
        self.list_owned_sale(owner_id, sale_id);
        proof {
            assert forall|i: int| 0 <= i < input.out_tokens.len() implies (
            #[trigger] input.out_tokens[i]).balance <= u128::MAX by {}
            lemma_valid_input_wf(
                input,
                owner_id@,
                old(self)@.treasury.skyward_token_id,
                block_height as nat,
                current_account_id@,
                now as nat,
            );
        }
        let ghost listed = self@;
        self.sales.push(sale);
        self.num_sales = self.sales.len() as u64;
        proof {
            assert(self@.sales =~= listed.sales.push(sale@));
        }
        Ok(sale_id)
    }

    /// Creates the sale that `sale` asks for on behalf of `owner_id`, at
    /// `now` in a block of height `block_height`, and returns its id. A
    /// refusal changes nothing.
    pub fn sale_create(
        &mut self,
        sale: SaleInput,
        owner_id: &String,
        current_account_id: &String,
        now: u64,
        block_height: u64,
    ) -> (r: Result<u64, Error>)
        requires
            old(self).wf(),
        ensures
            match r {
                Ok(sale_id) => sale_id == old(self)@.sales.len() && old(self)@.sale_create(
                    sale@,
                    owner_id@,
                    current_account_id@,
                    now as nat,
                    block_height as nat,
                ) == Ok::<ContractView, Error>(final(self)@),
                Err(e) => old(self)@.sale_create(
                    sale@,
                    owner_id@,
                    current_account_id@,
                    now as nat,
                    block_height as nat,
                ) == Err::<ContractView, Error>(e) && final(self)@ == old(self)@,
            },
            final(self).wf(),
    {
        let mut work = self.duplicate();
        match work.create_in_place(sale, owner_id, current_account_id, now, block_height) {
            Ok(sale_id) => {
                *self = work;
                Ok(sale_id)
            },
            Err(e) => Err(e),
        }
    }

    /// The listing fee that creating a sale costs `owner_id`: nothing for
    /// the engine itself.
    pub fn listing_fee_for(&self, owner_id: &String, current_account_id: &String) -> (r: u128)
        ensures
            r == (if owner_id@ == current_account_id@ {
                0
            } else {
                self.treasury.listing_fee_near
            }),
    {
        if *owner_id == *current_account_id {
            0
        } else {
            self.treasury.listing_fee_near
        }
    }
}

} // verus!
