//! The settlement of a sale: the proceeds go to the seller less the
//! treasury's part, the treasury banks its part of each pool, and what
//! remains of an ended sale returns to the seller.

use crate::assoc::distinct_keys;
use crate::contract::{lemma_payment_frame, Contract, ContractView};
use crate::errors::Error;
use crate::math::MULTIPLIER;
use crate::sale::{pools_view, OutTokenView, Sale, SaleOutToken, SaleView, TREASURY_FEE_DENOMINATOR};
use vstd::prelude::*;

verus! {

impl ContractView {
    /// The treasury's part of `amount` in-tokens of proceeds: one part in a
    /// hundred, and nothing of the protocol token.
    pub open spec fn proceeds_fee(self, sale: SaleView) -> nat {
        if sale.in_token_account_id != self.treasury.skyward_token_id {
            sale.in_token_paid_unclaimed / (TREASURY_FEE_DENOMINATOR as nat)
        } else {
            0
        }
    }

    /// The engine and the sale after the unclaimed proceeds are settled: the
    /// engine's own sale donates them, a third party's sale pays the
    /// treasury its part and credits the owner with the rest.
    pub open spec fn settle_proceeds(self, sale: SaleView, engine_id: Seq<char>) -> Result<
        (ContractView, SaleView),
        Error,
    > {
        let amount = sale.in_token_paid_unclaimed;
        let settled = SaleView { in_token_paid_unclaimed: 0, ..sale };
        if amount == 0 {
            Ok((self, sale))
        } else if sale.owner_id == engine_id {
            match self.donate(sale.in_token_account_id, amount) {
                Err(e) => Err(e),
                Ok(c) => Ok((c, settled)),
            }
        } else if self.account(sale.owner_id) is None {
            Err(Error::AccountNotFound)
        } else {
            let fee = self.proceeds_fee(sale);
            let banked = if sale.in_token_account_id != self.treasury.skyward_token_id {
                self.bank(sale.in_token_account_id, fee)
            } else {
                Ok(self)
            };
            match banked {
                Err(e) => Err(e),
                Ok(c) => match c.credit(
                    sale.owner_id,
                    sale.in_token_account_id,
                    (amount - fee) as nat,
                ) {
                    Err(e) => Err(e),
                    Ok(c2) => Ok((c2, settled)),
                },
            }
        }
    }

    /// The engine and one pool after the pool is settled: the treasury banks
    /// its unclaimed part, and what remains of an ended sale goes to the
    /// owner and counts as distributed.
    pub open spec fn settle_pool(
        self,
        owner_id: Seq<char>,
        engine_id: Seq<char>,
        ended: bool,
        pool: OutTokenView,
    ) -> Result<(ContractView, OutTokenView), Error> {
        let has_fees = pool.treasury_unclaimed is Some && pool.treasury_unclaimed.unwrap() > 0;
        let banked = if has_fees {
            self.bank(pool.token_account_id, pool.treasury_unclaimed.unwrap())
        } else {
            Ok(self)
        };
        let cleared = if has_fees {
            OutTokenView { treasury_unclaimed: Some(0nat), ..pool }
        } else {
            pool
        };
        match banked {
            Err(e) => Err(e),
            Ok(c) => if ended && pool.remaining > 0 {
                match c.pay_owner(owner_id, engine_id, pool.token_account_id, pool.remaining) {
                    Err(e) => Err(e),
                    Ok(c2) => Ok(
                        (
                            c2,
                            OutTokenView {
                                distributed: pool.distributed + pool.remaining,
                                remaining: 0,
                                ..cleared
                            },
                        ),
                    ),
                }
            } else {
                Ok((c, cleared))
            },
        }
    }

    /// The engine and the pools after the first `n` pools are settled, one
    /// after the other.
    pub open spec fn settle_pools(
        self,
        owner_id: Seq<char>,
        engine_id: Seq<char>,
        ended: bool,
        pools: Seq<OutTokenView>,
        n: nat,
    ) -> Result<(ContractView, Seq<OutTokenView>), Error>
        decreases n,
    {
        if n == 0 {
            Ok((self, pools))
        } else {
            match self.settle_pools(owner_id, engine_id, ended, pools, (n - 1) as nat) {
                Err(e) => Err(e),
                Ok((c, settled)) => match c.settle_pool(owner_id, engine_id, ended, settled[n - 1]) {
                    Err(e) => Err(e),
                    Ok((c2, pool)) => Ok((c2, settled.update(n - 1, pool))),
                },
            }
        }
    }

    /// The engine and the sale after everything unclaimed is distributed:
    /// the proceeds first, then pool by pool.
    pub open spec fn distribute_unclaimed_tokens(self, sale: SaleView, engine_id: Seq<char>) -> Result<
        (ContractView, SaleView),
        Error,
    > {
        match self.settle_proceeds(sale, engine_id) {
            Err(e) => Err(e),
            Ok((c, settled)) => match c.settle_pools(
                sale.owner_id,
                engine_id,
                sale.has_ended(),
                sale.out_tokens,
                sale.out_tokens.len(),
            ) {
                Err(e) => Err(e),
                Ok((c2, pools)) => Ok((c2, SaleView { out_tokens: pools, ..settled })),
            },
        }
    }

    /// The engine after what is unclaimed of the sale `sale_id` is
    /// distributed at `now`.
    pub open spec fn sale_distribute_unclaimed_tokens(
        self,
        sale_id: nat,
        engine_id: Seq<char>,
        now: nat,
        block_height: nat,
    ) -> Result<ContractView, Error> {
        if sale_id >= self.sales.len() {
            Err(Error::SaleNotFound)
        } else {
            match self.distribute_unclaimed_tokens(
                self.sales[sale_id as int].touch(now, block_height),
                engine_id,
            ) {
                Err(e) => Err(e),
                Ok((c, sale)) => Ok(c.with_sale(sale_id, sale)),
            }
        }
    }
}

/// Once settling the pools has failed, it has failed for good.
pub proof fn lemma_settle_pools_fails(
    c: ContractView,
    owner_id: Seq<char>,
    engine_id: Seq<char>,
    ended: bool,
    pools: Seq<OutTokenView>,
    n: nat,
    m: nat,
)
    requires
        n <= m,
        c.settle_pools(owner_id, engine_id, ended, pools, n) is Err,
    ensures
        c.settle_pools(owner_id, engine_id, ended, pools, m) == c.settle_pools(
            owner_id,
            engine_id,
            ended,
            pools,
            n,
        ),
    decreases m,
{
    if n < m {
        lemma_settle_pools_fails(c, owner_id, engine_id, ended, pools, n, (m - 1) as nat);
    }
}

/// Settling pools leaves the sales and the set of accounts alone.
pub proof fn lemma_settle_pools_frame(
    c: ContractView,
    owner_id: Seq<char>,
    engine_id: Seq<char>,
    ended: bool,
    pools: Seq<OutTokenView>,
    n: nat,
)
    requires
        distinct_keys(c.accounts),
        n <= pools.len(),
        c.settle_pools(owner_id, engine_id, ended, pools, n) is Ok,
    ensures
        c.settle_pools(owner_id, engine_id, ended, pools, n).unwrap().0.extends(c),
        distinct_keys(c.settle_pools(owner_id, engine_id, ended, pools, n).unwrap().0.accounts),
        c.settle_pools(owner_id, engine_id, ended, pools, n).unwrap().1.len() == pools.len(),
    decreases n,
{
    if n > 0 {
        lemma_settle_pools_frame(c, owner_id, engine_id, ended, pools, (n - 1) as nat);
        let (c1, settled) = c.settle_pools(
            owner_id,
            engine_id,
            ended,
            pools,
            (n - 1) as nat,
        ).unwrap();
        let pool = settled[n - 1];
        lemma_payment_frame(
            c1,
            owner_id,
            owner_id,
            engine_id,
            pool.token_account_id,
            pool.treasury_unclaimed.unwrap_or(0),
        );
        if pool.treasury_unclaimed is Some && pool.treasury_unclaimed.unwrap() > 0 {
            let c2 = c1.bank(pool.token_account_id, pool.treasury_unclaimed.unwrap()).unwrap();
            lemma_payment_frame(
                c2,
                owner_id,
                owner_id,
                engine_id,
                pool.token_account_id,
                pool.remaining,
            );
        } else {
            lemma_payment_frame(
                c1,
                owner_id,
                owner_id,
                engine_id,
                pool.token_account_id,
                pool.remaining,
            );
        }
    }
}

/// Distributing what is unclaimed leaves the sales and the set of accounts
/// alone.
pub proof fn lemma_distribute_frame(c: ContractView, sale: SaleView, engine_id: Seq<char>)
    requires
        distinct_keys(c.accounts),
        c.distribute_unclaimed_tokens(sale, engine_id) is Ok,
    ensures
        c.distribute_unclaimed_tokens(sale, engine_id).unwrap().0.extends(c),
        distinct_keys(c.distribute_unclaimed_tokens(sale, engine_id).unwrap().0.accounts),
{
    let token = sale.in_token_account_id;
    let amount = sale.in_token_paid_unclaimed;
    let (c1, settled) = c.settle_proceeds(sale, engine_id).unwrap();
    if amount == 0 {
    } else if sale.owner_id == engine_id {
        lemma_payment_frame(c, sale.owner_id, sale.owner_id, engine_id, token, amount);
    } else {
        let fee = c.proceeds_fee(sale);
        lemma_payment_frame(c, sale.owner_id, sale.owner_id, engine_id, token, fee);
        let banked = if token != c.treasury.skyward_token_id {
            c.bank(token, fee).unwrap()
        } else {
            c
        };
        lemma_payment_frame(
            banked,
            sale.owner_id,
            sale.owner_id,
            engine_id,
            token,
            (amount - fee) as nat,
        );
    }
    lemma_settle_pools_frame(
        c1,
        sale.owner_id,
        engine_id,
        sale.has_ended(),
        sale.out_tokens,
        sale.out_tokens.len(),
    );
}

impl Contract {
    /// Settles one pool: banks the treasury's unclaimed part and, once the
    /// sale has ended, hands what remains to the owner.
    fn settle_pool(
        &mut self,
        owner_id: &String,
        current_account_id: &String,
        ended: bool,
        pool: &mut SaleOutToken,
    ) -> (r: Result<(), Error>)
        requires
            old(self).wf(),
            old(pool)@.wf(),
        ensures
            match r {
                Ok(_) => old(self)@.settle_pool(
                    owner_id@,
                    current_account_id@,
                    ended,
                    old(pool)@,
                ) == Ok::<(ContractView, OutTokenView), Error>((final(self)@, final(pool)@)),
                Err(e) => old(self)@.settle_pool(
                    owner_id@,
                    current_account_id@,
                    ended,
                    old(pool)@,
                ) == Err::<(ContractView, OutTokenView), Error>(e),
            },
            final(self).wf(),
            final(pool)@.wf(),
    {
        if let Some(unclaimed) = pool.treasury_unclaimed {
            if unclaimed > 0 {
                match self.internal_bank(&pool.token_account_id, unclaimed) {
                    Err(e) => { return Err(e); },
                    Ok(_) => {},
                }
                pool.treasury_unclaimed = Some(0);
            }
        }
        if ended && pool.remaining > 0 {
            match self.internal_pay_owner(
                owner_id,
                current_account_id,
                &pool.token_account_id,
                pool.remaining,
            ) {
                Err(e) => { return Err(e); },
                Ok(_) => {},
            }
            proof {
                let before = pool.distributed as nat;
                let after = (pool.distributed + pool.remaining) as nat;
                assert(before * MULTIPLIER <= after * MULTIPLIER)
                    by (nonlinear_arith)
                    requires
                        before <= after,
                ;
            }
            pool.distributed = pool.distributed + pool.remaining;
            pool.remaining = 0;
        }
        Ok(())
    }

    /// Settles the pools of a sale, one after the other.
    fn settle_pools(
        &mut self,
        owner_id: &String,
        current_account_id: &String,
        ended: bool,
        pools: &mut Vec<SaleOutToken>,
    ) -> (r: Result<(), Error>)
        requires
            old(self).wf(),
            forall|i: int| 0 <= i < old(pools).len() ==> (#[trigger] old(pools)[i])@.wf(),
        ensures
            match r {
                Ok(_) => old(self)@.settle_pools(
                    owner_id@,
                    current_account_id@,
                    ended,
                    pools_view(old(pools)@),
                    old(pools).len() as nat,
                ) == Ok::<(ContractView, Seq<OutTokenView>), Error>(
                    (final(self)@, pools_view(final(pools)@)),
                ),
                Err(e) => old(self)@.settle_pools(
                    owner_id@,
                    current_account_id@,
                    ended,
                    pools_view(old(pools)@),
                    old(pools).len() as nat,
                ) == Err::<(ContractView, Seq<OutTokenView>), Error>(e),
            },
            final(self).wf(),
            final(pools).len() == old(pools).len(),
            forall|i: int| 0 <= i < final(pools).len() ==> (#[trigger] final(pools)[i])@.wf(),
    {
        let n = pools.len();
        let ghost start = self@;
        let ghost start_pools = pools_view(pools@);
        let mut i: usize = 0;
        while i < n
            invariant
                i <= n,
                n == pools.len(),
                n == old(pools).len(),
                start == old(self)@,
                start_pools == pools_view(old(pools)@),
                self.wf(),
                forall|j: int| 0 <= j < n ==> (#[trigger] pools[j])@.wf(),
                start.settle_pools(owner_id@, current_account_id@, ended, start_pools, i as nat)
                    == Ok::<(ContractView, Seq<OutTokenView>), Error>((self@, pools_view(pools@))),
            decreases n - i,
        {
            let ghost before = pools_view(pools@);
            let ghost before_pool = pools[i as int]@;
            assert(before[i as int] == before_pool);
            let r = self.settle_pool(owner_id, current_account_id, ended, &mut pools[i]);
            match r {
                Err(e) => {
                    proof {
                        assert(start.settle_pools(
                            owner_id@,
                            current_account_id@,
                            ended,
                            start_pools,
                            (i + 1) as nat,
                        ) == Err::<(ContractView, Seq<OutTokenView>), Error>(e));
                        lemma_settle_pools_fails(
                            start,
                            owner_id@,
                            current_account_id@,
                            ended,
                            start_pools,
                            (i + 1) as nat,
                            n as nat,
                        );
                    }
                    return Err(e);
                },
                Ok(_) => {
                    proof {
                        assert(pools_view(pools@) =~= before.update(i as int, pools[i as int]@));
                    }
                },
            }
            i += 1;
        }
        Ok(())
    }

    /// The steps of `internal_distribute_unclaimed_tokens`, in place: a refusal
    /// leaves what was done before it.
    pub(crate) fn distribute_unclaimed_in_place(
        &mut self,
        sale: &mut Sale,
        current_account_id: &String,
    ) -> (r: Result<(), Error>)
        requires
            old(self).wf(),
            old(sale)@.wf(),
        ensures
            match r {
                Ok(_) => old(self)@.distribute_unclaimed_tokens(old(sale)@, current_account_id@)
                    == Ok::<(ContractView, SaleView), Error>((final(self)@, final(sale)@)),
                Err(e) => old(self)@.distribute_unclaimed_tokens(old(sale)@, current_account_id@)
                    == Err::<(ContractView, SaleView), Error>(e),
            },
            final(self).wf(),
            final(sale)@.wf(),
    {
        if sale.in_token_paid_unclaimed > 0 {
            if sale.owner_id == *current_account_id {
                match self.internal_donate(&sale.in_token_account_id, sale.in_token_paid_unclaimed) {
                    Err(e) => { return Err(e); },
                    Ok(_) => {},
                }
            } else {
                if self.accounts.find(&sale.owner_id).is_none() {
                    return Err(Error::AccountNotFound);
                }
                let mut amount = sale.in_token_paid_unclaimed;
                if sale.in_token_account_id != self.treasury.skyward_token_id {
                    let fee = amount / TREASURY_FEE_DENOMINATOR;
                    match self.internal_bank(&sale.in_token_account_id, fee) {
                        Err(e) => { return Err(e); },
                        Ok(_) => {},
                    }
                    amount = amount - fee;
                }
                match self.internal_credit(&sale.owner_id, &sale.in_token_account_id, amount) {
                    Err(e) => { return Err(e); },
                    Ok(_) => {},
                }
            }
            sale.in_token_paid_unclaimed = 0;
        }
        let ended = sale.has_ended();
        proof {
            assert forall|i: int| 0 <= i < sale.out_tokens.len() implies (
            #[trigger] sale.out_tokens[i])@.wf() by {
                assert(sale@.out_tokens[i].wf());
            }
        }
        let r = self.settle_pools(&sale.owner_id, current_account_id, ended, &mut sale.out_tokens);
        proof {
            assert forall|i: int| 0 <= i < sale@.out_tokens.len() implies (
            #[trigger] sale@.out_tokens[i]).wf() by {
                assert(sale.out_tokens[i]@.wf());
            }
        }
        r
    }

    /// Distributes what is unclaimed of a sale: the proceeds go to the owner
    /// less the treasury's part (the engine's own sale donates them), the
    /// treasury banks its part of each pool, and what remains of an ended
    /// sale goes to the owner. `sale` is a touched copy of the sale, which
    /// the caller stores on success. A refusal changes nothing.
    pub fn internal_distribute_unclaimed_tokens(
        &mut self,
        sale: &mut Sale,
        current_account_id: &String,
    ) -> (r: Result<(), Error>)
        requires
            old(self).wf(),
            old(sale)@.wf(),
        ensures
            match r {
                Ok(_) => old(self)@.distribute_unclaimed_tokens(old(sale)@, current_account_id@)
                    == Ok::<(ContractView, SaleView), Error>((final(self)@, final(sale)@)),
                Err(e) => old(self)@.distribute_unclaimed_tokens(old(sale)@, current_account_id@)
                    == Err::<(ContractView, SaleView), Error>(e) && final(self)@ == old(self)@
                    && final(sale)@ == old(sale)@,
            },
            final(self).wf(),
            final(sale)@.wf(),
    {
        let mut work = self.duplicate();
        let mut settled = sale.duplicate();
        match work.distribute_unclaimed_in_place(&mut settled, current_account_id) {
            Ok(_) => {
                *self = work;
                *sale = settled;
                Ok(())
            },
            Err(e) => Err(e),
        }
    }

    /// The steps of `sale_distribute_unclaimed_tokens`, in place.
    fn distribute_in_place(
        &mut self,
        sale_id: u64,
        current_account_id: &String,
        now: u64,
        block_height: u64,
    ) -> (r: Result<(), Error>)
        requires
            old(self).wf(),
        ensures
            match r {
                Ok(_) => old(self)@.sale_distribute_unclaimed_tokens(
                    sale_id as nat,
                    current_account_id@,
                    now as nat,
                    block_height as nat,
                ) == Ok::<ContractView, Error>(final(self)@),
                Err(e) => old(self)@.sale_distribute_unclaimed_tokens(
                    sale_id as nat,
                    current_account_id@,
                    now as nat,
                    block_height as nat,
                ) == Err::<ContractView, Error>(e),
            },
            final(self).wf(),
    {
        let mut sale = match self.internal_unwrap_sale(sale_id, now, block_height) {
            Err(e) => { return Err(e); },
            Ok(sale) => sale,
        };
        match self.distribute_unclaimed_in_place(&mut sale, current_account_id) {
            Err(e) => { return Err(e); },
            Ok(_) => {},
        }
        proof {
            lemma_distribute_frame(
                old(self)@,
                old(self)@.sales[sale_id as int].touch(now as nat, block_height as nat),
                current_account_id@,
            );
        }
        self.internal_store_sale(sale_id, sale);
        Ok(())
    }

    /// Distributes what is unclaimed of the sale `sale_id` at `now`: see
    /// `internal_distribute_unclaimed_tokens`. Anyone may ask for it. A
    /// refusal changes nothing.
    pub fn sale_distribute_unclaimed_tokens(
        &mut self,
        sale_id: u64,
        current_account_id: &String,
        now: u64,
        block_height: u64,
    ) -> (r: Result<(), Error>)
        requires
            old(self).wf(),
        ensures
            match r {
                Ok(_) => old(self)@.sale_distribute_unclaimed_tokens(
                    sale_id as nat,
                    current_account_id@,
                    now as nat,
                    block_height as nat,
                ) == Ok::<ContractView, Error>(final(self)@),
                Err(e) => old(self)@.sale_distribute_unclaimed_tokens(
                    sale_id as nat,
                    current_account_id@,
                    now as nat,
                    block_height as nat,
                ) == Err::<ContractView, Error>(e) && final(self)@ == old(self)@,
            },
            final(self).wf(),
    {
        let mut work = self.duplicate();
        match work.distribute_in_place(sale_id, current_account_id, now, block_height) {
            Ok(_) => {
                *self = work;
                Ok(())
            },
            Err(e) => Err(e),
        }
    }
}

} // verus!
