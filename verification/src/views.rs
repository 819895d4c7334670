//! What the engine shows of its sales and ledgers. Nothing here changes the
//! engine: a sale is shown as a touch at the time of asking would leave it.

use crate::account::{Account, AccountView};
use crate::balances::TokenBalances;
use crate::contract::{Contract, ContractView};
use crate::errors::Error;
use crate::sale::{amount_view, name_view, text_view, BasicPoints, OutTokenView, Sale, SaleView};
use crate::sub::{SubscriptionOutput, SubscriptionOutputView};
use crate::wrap::transfers_view;
use vstd::prelude::*;

verus! {

/// What the engine shows of one pool of a sale.
#[derive(Debug, PartialEq, Eq)]
pub struct SaleOutputOutToken {
    pub token_account_id: String,
    pub remaining: u128,
    pub distributed: u128,
    pub treasury_unclaimed: Option<u128>,
    pub referral_bpt: Option<BasicPoints>,
}

/// What the engine shows of a sale.
#[derive(Debug, PartialEq, Eq)]
pub struct SaleOutput {
    pub sale_id: u64,
    pub title: String,
    pub url: Option<String>,
    pub permissions_contract_id: Option<String>,
    pub owner_id: String,
    pub out_tokens: Vec<SaleOutputOutToken>,
    pub in_token_account_id: String,
    pub in_token_remaining: u128,
    pub in_token_paid_unclaimed: u128,
    pub in_token_paid: u128,
    pub total_shares: u128,
    pub start_time: u64,
    pub duration: u64,
    pub remaining_duration: u64,
    pub subscription: Option<SubscriptionOutput>,
    pub current_time: u64,
    pub current_block_height: u64,
    pub start_block_height: u64,
    pub end_block_height: Option<u64>,
}

/// The mathematical value of what is shown of a pool.
pub ghost struct SaleOutputOutTokenView {
    pub token_account_id: Seq<char>,
    pub remaining: nat,
    pub distributed: nat,
    pub treasury_unclaimed: Option<nat>,
    pub referral_bpt: Option<nat>,
}

/// The mathematical value of what is shown of a sale.
pub ghost struct SaleOutputView {
    pub sale_id: nat,
    pub title: Seq<char>,
    pub url: Option<Seq<char>>,
    pub permissions_contract_id: Option<Seq<char>>,
    pub owner_id: Seq<char>,
    pub out_tokens: Seq<SaleOutputOutTokenView>,
    pub in_token_account_id: Seq<char>,
    pub in_token_remaining: nat,
    pub in_token_paid_unclaimed: nat,
    pub in_token_paid: nat,
    pub total_shares: nat,
    pub start_time: nat,
    pub duration: nat,
    pub remaining_duration: nat,
    pub subscription: Option<SubscriptionOutputView>,
    pub current_time: nat,
    pub current_block_height: nat,
    pub start_block_height: nat,
    pub end_block_height: Option<nat>,
}

impl View for SaleOutputOutToken {
    type V = SaleOutputOutTokenView;

    open spec fn view(&self) -> SaleOutputOutTokenView {
        SaleOutputOutTokenView {
            token_account_id: self.token_account_id@,
            remaining: self.remaining as nat,
            distributed: self.distributed as nat,
            treasury_unclaimed: amount_view(self.treasury_unclaimed),
            referral_bpt: match self.referral_bpt {
                Some(b) => Some(b as nat),
                None => None,
            },
        }
    }
}

/// What is shown of the sales of a vector.
pub open spec fn outputs_view(outputs: Seq<SaleOutput>) -> Seq<SaleOutputView> {
    outputs.map_values(|o: SaleOutput| o@)
}

/// What is shown of the pools of a vector.
pub open spec fn shown_pools_view(pools: Seq<SaleOutputOutToken>) -> Seq<SaleOutputOutTokenView> {
    pools.map_values(|o: SaleOutputOutToken| o@)
}

impl View for SaleOutput {
    type V = SaleOutputView;

    open spec fn view(&self) -> SaleOutputView {
        SaleOutputView {
            sale_id: self.sale_id as nat,
            title: self.title@,
            url: text_view(self.url),
            permissions_contract_id: text_view(self.permissions_contract_id),
            owner_id: self.owner_id@,
            out_tokens: shown_pools_view(self.out_tokens@),
            in_token_account_id: self.in_token_account_id@,
            in_token_remaining: self.in_token_remaining as nat,
            in_token_paid_unclaimed: self.in_token_paid_unclaimed as nat,
            in_token_paid: self.in_token_paid as nat,
            total_shares: self.total_shares as nat,
            start_time: self.start_time as nat,
            duration: self.duration as nat,
            remaining_duration: self.remaining_duration as nat,
            subscription: match self.subscription {
                Some(s) => Some(s@),
                None => None,
            },
            current_time: self.current_time as nat,
            current_block_height: self.current_block_height as nat,
            start_block_height: self.start_block_height as nat,
            end_block_height: match self.end_block_height {
                Some(h) => Some(h as nat),
                None => None,
            },
        }
    }
}

impl OutTokenView {
    /// What is shown of the pool: all of it but the accumulator.
    pub open spec fn output(self) -> SaleOutputOutTokenView {
        SaleOutputOutTokenView {
            token_account_id: self.token_account_id,
            remaining: self.remaining,
            distributed: self.distributed,
            treasury_unclaimed: self.treasury_unclaimed,
            referral_bpt: self.referral_bpt,
        }
    }
}

impl SaleView {
    /// Whether the sale can be shown to `account`: the account's
    /// subscription, if it has one, can be touched.
    pub open spec fn output_result(self, sale_id: nat, account: Option<AccountView>) -> Result<
        (),
        Error,
    > {
        match account {
            Some(a) => a.get_subscription_result(sale_id, self, None, true),
            None => Ok(()),
        }
    }

    /// What is shown of the sale, touched, to `account` at `now` in a block
    /// of height `block_height`: the sale, the time that is left of it, and
    /// the account's subscription where it has anything in it.
    pub open spec fn output(
        self,
        sale_id: nat,
        account: Option<AccountView>,
        now: nat,
        block_height: nat,
    ) -> SaleOutputView {
        SaleOutputView {
            sale_id,
            title: self.title,
            url: self.url,
            permissions_contract_id: self.permissions_contract_id,
            owner_id: self.owner_id,
            out_tokens: self.out_tokens.map_values(|o: OutTokenView| o.output()),
            in_token_account_id: self.in_token_account_id,
            in_token_remaining: self.in_token_remaining,
            in_token_paid_unclaimed: self.in_token_paid_unclaimed,
            in_token_paid: self.in_token_paid,
            total_shares: self.total_shares,
            start_time: self.start_time,
            duration: self.duration,
            remaining_duration: (self.end_time() - self.last_timestamp) as nat,
            subscription: match account {
                Some(a) => a.subscription_output(sale_id, self),
                None => None,
            },
            current_time: now,
            current_block_height: block_height,
            start_block_height: self.start_block_height,
            end_block_height: self.end_block_height,
        }
    }
}

impl ContractView {
    /// The account that a sale is shown to: the one named, if it is
    /// registered.
    pub open spec fn viewer(self, account_id: Option<Seq<char>>) -> Option<AccountView> {
        match account_id {
            Some(id) => self.account(id),
            None => None,
        }
    }

    /// What is shown of the sale `sale_id` at `now`, if there is such a sale.
    pub open spec fn get_sale(
        self,
        sale_id: nat,
        account_id: Option<Seq<char>>,
        now: nat,
        block_height: nat,
    ) -> Result<Option<SaleOutputView>, Error> {
        if sale_id >= self.sales.len() {
            Ok(None)
        } else {
            let sale = self.sales[sale_id as int].touch(now, block_height);
            match sale.output_result(sale_id, self.viewer(account_id)) {
                Err(e) => Err(e),
                Ok(_) => Ok(Some(sale.output(sale_id, self.viewer(account_id), now, block_height))),
            }
        }
    }

    /// What is shown of the first `n` sales of `sale_ids` that exist, in
    /// their order.
    pub open spec fn get_sales_by_id(
        self,
        account_id: Option<Seq<char>>,
        sale_ids: Seq<u64>,
        n: nat,
        now: nat,
        block_height: nat,
    ) -> Result<Seq<SaleOutputView>, Error>
        decreases n,
    {
        if n == 0 {
            Ok(Seq::empty())
        } else {
            match self.get_sales_by_id(account_id, sale_ids, (n - 1) as nat, now, block_height) {
                Err(e) => Err(e),
                Ok(shown) => match self.get_sale(
                    sale_ids[n - 1] as nat,
                    account_id,
                    now,
                    block_height,
                ) {
                    Err(e) => Err(e),
                    Ok(Some(output)) => Ok(shown.push(output)),
                    Ok(None) => Ok(shown),
                },
            }
        }
    }
}

/// Where a page of a list of `len` items starts and ends: at `from_index`
/// (the start where none is given), for `limit` items (all where none is
/// given) or as many as are left.
pub open spec fn page_bounds(len: nat, from_index: Option<u64>, limit: Option<u64>) -> (int, int) {
    let from = match from_index {
        Some(f) => f as int,
        None => 0,
    };
    let count = match limit {
        Some(l) => l as int,
        None => len as int,
    };
    let end = if from + count < len {
        from + count
    } else {
        len as int
    };
    (if from < end {
        from
    } else {
        end
    }, end)
}

/// The page of `items` that `from_index` and `limit` ask for.
pub open spec fn page<T>(items: Seq<T>, from_index: Option<u64>, limit: Option<u64>) -> Seq<T> {
    let (start, end) = page_bounds(items.len(), from_index, limit);
    items.subrange(start, end)
}

/// The ids from `start` up to `end`.
pub open spec fn id_range(start: int, end: int) -> Seq<u64> {
    Seq::new((end - start) as nat, |i: int| (start + i) as u64)
}

/// The sales of a list of subscriptions.
pub open spec fn subscribed_ids(subs: Seq<(nat, crate::sub::SubscriptionView)>) -> Seq<u64> {
    subs.map_values(|s: (nat, crate::sub::SubscriptionView)| s.0 as u64)
}

/// The ids of a list of owned sales.
pub open spec fn owned_ids(sales: Seq<nat>) -> Seq<u64> {
    sales.map_values(|s: nat| s as u64)
}

/// Where the page of a list of `len` items starts and ends.
pub fn page_of(len: usize, from_index: Option<u64>, limit: Option<u64>) -> (r: (usize, usize))
    ensures
        (r.0 as int, r.1 as int) == page_bounds(len as nat, from_index, limit),
        r.0 <= r.1 <= len,
{
    let from: u128 = match from_index {
        Some(f) => f as u128,
        None => 0,
    };
    let count: u128 = match limit {
        Some(l) => l as u128,
        None => len as u128,
    };
    let end: usize = if from + count < len as u128 {
        (from + count) as usize
    } else {
        len
    };
    let start: usize = if from < end as u128 {
        from as usize
    } else {
        end
    };
    (start, end)
}

/// The page of a ledger that `from_index` and `limit` ask for.
pub fn page_of_balances(balances: &TokenBalances, from_index: Option<u64>, limit: Option<u64>) -> (r:
    Vec<(String, u128)>)
    requires
        balances.wf(),
    ensures
        transfers_view(r@) == page(balances@, from_index, limit),
{
    let (start, end) = page_of(balances.len(), from_index, limit);
    let mut entries: Vec<(String, u128)> = Vec::new();
    let mut i: usize = start;
    while i < end
        invariant
            start <= i <= end <= balances@.len(),
            balances.wf(),
            transfers_view(entries@) == balances@.subrange(start as int, i as int),
        decreases end - i,
    {
        let ghost before = transfers_view(entries@);
        entries.push(balances.entry(i));
        assert(transfers_view(entries@) =~= before.push(balances@[i as int]));
        assert(balances@.subrange(start as int, i + 1) =~= balances@.subrange(
            start as int,
            i as int,
        ).push(balances@[i as int]));
        i += 1;
    }
    entries
}

impl Sale {
    /// What is shown of this sale, which has been touched at `now`, to
    /// `account`.
    pub fn into_output(self, sale_id: u64, account: Option<&Account>, now: u64, block_height: u64) -> (r:
        Result<SaleOutput, Error>)
        requires
            self@.wf(),
            match account {
                Some(a) => a.wf(),
                None => true,
            },
        ensures
            match r {
                Ok(output) => self@.output_result(
                    sale_id as nat,
                    match account {
                        Some(a) => Some(a@),
                        None => None,
                    },
                ) is Ok && output@ == self@.output(
                    sale_id as nat,
                    match account {
                        Some(a) => Some(a@),
                        None => None,
                    },
                    now as nat,
                    block_height as nat,
                ),
                Err(e) => self@.output_result(
                    sale_id as nat,
                    match account {
                        Some(a) => Some(a@),
                        None => None,
                    },
                ) == Err::<(), Error>(e),
            },
    {
        let remaining_duration: u64 = (self.start_time as u128 + self.duration as u128
            - self.last_timestamp as u128) as u64;
        let subscription = match account {
            Some(a) => match a.internal_subscription_output(sale_id, &self) {
                Err(e) => { return Err(e); },
                Ok(subscription) => subscription,
            },
            None => None,
        };
        let mut out_tokens: Vec<SaleOutputOutToken> = Vec::new();
        let mut i: usize = 0;
        while i < self.out_tokens.len()
            invariant
                i <= self.out_tokens.len(),
                out_tokens.len() == i,
                forall|j: int| 0 <= j < i ==> (#[trigger] out_tokens[j])@ == self.out_tokens[j]@.output(),
            decreases self.out_tokens.len() - i,
        {
            let pool = &self.out_tokens[i];
            out_tokens.push(
                SaleOutputOutToken {
                    token_account_id: pool.token_account_id.clone(),
                    remaining: pool.remaining,
                    distributed: pool.distributed,
                    treasury_unclaimed: pool.treasury_unclaimed,
                    referral_bpt: pool.referral_bpt,
                },
            );
            i += 1;
        }
        let ghost shown = self@;
        let output = SaleOutput {
            sale_id,
            title: self.title,
            url: self.url,
            permissions_contract_id: self.permissions_contract_id,
            owner_id: self.owner_id,
            out_tokens,
            in_token_account_id: self.in_token_account_id,
            in_token_remaining: self.in_token_remaining,
            in_token_paid_unclaimed: self.in_token_paid_unclaimed,
            in_token_paid: self.in_token_paid,
            total_shares: self.total_shares,
            start_time: self.start_time,
            duration: self.duration,
            remaining_duration,
            subscription,
            current_time: now,
            current_block_height: block_height,
            start_block_height: self.start_block_height,
            end_block_height: self.end_block_height,
        };
        proof {
            assert(output@.out_tokens =~= shown.out_tokens.map_values(|o: OutTokenView| o.output()));
        }
        Ok(output)
    }
}

impl Contract {
    /// What is shown of the sale `sale_id` to `account` at `now`, if there
    /// is such a sale.
    pub fn internal_get_sale(
        &self,
        sale_id: u64,
        account: Option<&Account>,
        now: u64,
        block_height: u64,
    ) -> (r: Result<Option<SaleOutput>, Error>)
        requires
            self.wf(),
            match account {
                Some(a) => a.wf(),
                None => true,
            },
        ensures
            sale_id >= self@.sales.len() ==> r == Ok::<Option<SaleOutput>, Error>(None),
            sale_id < self@.sales.len() ==> match r {
                Ok(Some(output)) => self@.sales[sale_id as int].touch(
                    now as nat,
                    block_height as nat,
                ).output_result(
                    sale_id as nat,
                    match account {
                        Some(a) => Some(a@),
                        None => None,
                    },
                ) is Ok && output@ == self@.sales[sale_id as int].touch(
                    now as nat,
                    block_height as nat,
                ).output(
                    sale_id as nat,
                    match account {
                        Some(a) => Some(a@),
                        None => None,
                    },
                    now as nat,
                    block_height as nat,
                ),
                Ok(None) => false,
                Err(e) => self@.sales[sale_id as int].touch(
                    now as nat,
                    block_height as nat,
                ).output_result(
                    sale_id as nat,
                    match account {
                        Some(a) => Some(a@),
                        None => None,
                    },
                ) == Err::<(), Error>(e),
            },
    {
        match self.internal_unwrap_sale(sale_id, now, block_height) {
            Err(_) => Ok(None),
            Ok(sale) => match sale.into_output(sale_id, account, now, block_height) {
                Err(e) => Err(e),
                Ok(output) => Ok(Some(output)),
            },
        }
    }

    /// What is shown of the sale `sale_id` at `now`, with the subscription
    /// of `account_id` where one is named and registered; `Ok(None)` where
    /// there is no such sale.
    pub fn get_sale(&self, sale_id: u64, account_id: Option<&String>, now: u64, block_height: u64) -> (r:
        Result<Option<SaleOutput>, Error>)
        requires
            self.wf(),
        ensures
            match r {
                Ok(Some(output)) => self@.get_sale(
                    sale_id as nat,
                    name_view(account_id),
                    now as nat,
                    block_height as nat,
                ) == Ok::<Option<SaleOutputView>, Error>(Some(output@)),
                Ok(None) => self@.get_sale(
                    sale_id as nat,
                    name_view(account_id),
                    now as nat,
                    block_height as nat,
                ) == Ok::<Option<SaleOutputView>, Error>(None),
                Err(e) => self@.get_sale(
                    sale_id as nat,
                    name_view(account_id),
                    now as nat,
                    block_height as nat,
                ) == Err::<Option<SaleOutputView>, Error>(e),
            },
    {
        let account: Option<&Account> = match account_id {
            Some(id) => match self.internal_unwrap_account(id) {
                Ok(a) => Some(a),
                Err(_) => None,
            },
            None => None,
        };
        self.internal_get_sale(sale_id, account, now, block_height)
    }

    /// What is shown at `now` of those of `sale_ids` that exist, in their
    /// order.
    pub fn get_sales_by_id(
        &self,
        account_id: Option<&String>,
        sale_ids: &Vec<u64>,
        now: u64,
        block_height: u64,
    ) -> (r: Result<Vec<SaleOutput>, Error>)
        requires
            self.wf(),
        ensures
            match r {
                Ok(outputs) => self@.get_sales_by_id(
                    name_view(account_id),
                    sale_ids@,
                    sale_ids.len() as nat,
                    now as nat,
                    block_height as nat,
                ) == Ok::<Seq<SaleOutputView>, Error>(outputs_view(outputs@)),
                Err(e) => self@.get_sales_by_id(
                    name_view(account_id),
                    sale_ids@,
                    sale_ids.len() as nat,
                    now as nat,
                    block_height as nat,
                ) == Err::<Seq<SaleOutputView>, Error>(e),
            },
    {
        let ghost viewer = name_view(account_id);
        let mut outputs: Vec<SaleOutput> = Vec::new();
        let n = sale_ids.len();
        let mut i: usize = 0;
        assert(outputs_view(outputs@) =~= Seq::empty());
        while i < n
            invariant
                i <= n,
                n == sale_ids.len(),
                self.wf(),
                viewer == name_view(account_id),
                self@.get_sales_by_id(viewer, sale_ids@, i as nat, now as nat, block_height as nat)
                    == Ok::<Seq<SaleOutputView>, Error>(outputs_view(outputs@)),
            decreases n - i,
        {
            let ghost before = outputs_view(outputs@);
            match self.get_sale(sale_ids[i], account_id, now, block_height) {
                Err(e) => {
                    proof {
                        lemma_get_sales_fails(
                            self@,
                            viewer,
                            sale_ids@,
                            (i + 1) as nat,
                            n as nat,
                            now as nat,
                            block_height as nat,
                        );
                    }
                    return Err(e);
                },
                Ok(Some(output)) => {
                    outputs.push(output);
                    assert(outputs_view(outputs@) =~= before.push(output@));
                },
                Ok(None) => {},
            }
            i += 1;
        }
        Ok(outputs)
    }

    /// What is shown at `now` of the sales from `from_index` on, `limit` of
    /// them at most.
    pub fn get_sales(
        &self,
        account_id: Option<&String>,
        from_index: Option<u64>,
        limit: Option<u64>,
        now: u64,
        block_height: u64,
    ) -> (r: Result<Vec<SaleOutput>, Error>)
        requires
            self.wf(),
        ensures
            ({
                let (start, end) = page_bounds(self@.sales.len(), from_index, limit);
                let spec_result = self@.get_sales_by_id(
                    name_view(account_id),
                    id_range(start, end),
                    (end - start) as nat,
                    now as nat,
                    block_height as nat,
                );
                match r {
                    Ok(outputs) => spec_result == Ok::<Seq<SaleOutputView>, Error>(
                        outputs_view(outputs@),
                    ),
                    Err(e) => spec_result == Err::<Seq<SaleOutputView>, Error>(e),
                }
            }),
    {
        let (start, end) = page_of(self.sales.len(), from_index, limit);
        let mut ids: Vec<u64> = Vec::new();
        let mut i: usize = start;
        while i < end
            invariant
                start <= i <= end <= self.sales.len(),
                ids@ == id_range(start as int, i as int),
            decreases end - i,
        {
            ids.push(i as u64);
            assert(ids@ =~= id_range(start as int, i + 1));
            i += 1;
        }
        self.get_sales_by_id(account_id, &ids, now, block_height)
    }

    /// What is shown at `now` of the sales that `account_id` subscribes to,
    /// from place `from_index` of its subscriptions on, `limit` of them at
    /// most; nothing where the account is not registered.
    pub fn get_subscribed_sales(
        &self,
        account_id: &String,
        from_index: Option<u64>,
        limit: Option<u64>,
        now: u64,
        block_height: u64,
    ) -> (r: Result<Vec<SaleOutput>, Error>)
        requires
            self.wf(),
        ensures
            ({
                let ids = match self@.account(account_id@) {
                    Some(account) => page(subscribed_ids(account.subs), from_index, limit),
                    None => Seq::empty(),
                };
                let spec_result = self@.get_sales_by_id(
                    Some(account_id@),
                    ids,
                    ids.len(),
                    now as nat,
                    block_height as nat,
                );
                match r {
                    Ok(outputs) => spec_result == Ok::<Seq<SaleOutputView>, Error>(
                        outputs_view(outputs@),
                    ),
                    Err(e) => spec_result == Err::<Seq<SaleOutputView>, Error>(e),
                }
            }),
    {
        let ids = match self.internal_unwrap_account(account_id) {
            Err(_) => Vec::new(),
            Ok(account) => {
                let (start, end) = page_of(account.subs.sale_ids.len(), from_index, limit);
                let mut ids: Vec<u64> = Vec::new();
                let mut i: usize = start;
                while i < end
                    invariant
                        start <= i <= end <= account.subs.sale_ids.len(),
                        account.subs.sale_ids.len() == account.subs.subs.len(),
                        ids@ == subscribed_ids(account@.subs).subrange(start as int, i as int),
                    decreases end - i,
                {
                    ids.push(account.subs.sale_ids[i]);
                    assert(ids@ =~= subscribed_ids(account@.subs).subrange(start as int, i + 1));
                    i += 1;
                }
                ids
            },
        };
        self.get_sales_by_id(Some(account_id), &ids, now, block_height)
    }

    /// What is shown at `now` of the sales that `account_id` owns, from
    /// place `from_index` of its sales on, `limit` of them at most; nothing
    /// where the account is not registered.
    pub fn get_account_sales(
        &self,
        account_id: &String,
        from_index: Option<u64>,
        limit: Option<u64>,
        now: u64,
        block_height: u64,
    ) -> (r: Result<Vec<SaleOutput>, Error>)
        requires
            self.wf(),
        ensures
            ({
                let ids = match self@.account(account_id@) {
                    Some(account) => page(owned_ids(account.sales), from_index, limit),
                    None => Seq::empty(),
                };
                let spec_result = self@.get_sales_by_id(
                    Some(account_id@),
                    ids,
                    ids.len(),
                    now as nat,
                    block_height as nat,
                );
                match r {
                    Ok(outputs) => spec_result == Ok::<Seq<SaleOutputView>, Error>(
                        outputs_view(outputs@),
                    ),
                    Err(e) => spec_result == Err::<Seq<SaleOutputView>, Error>(e),
                }
            }),
    {
        let ids = match self.internal_unwrap_account(account_id) {
            Err(_) => Vec::new(),
            Ok(account) => {
                let (start, end) = page_of(account.sales.len(), from_index, limit);
                let mut ids: Vec<u64> = Vec::new();
                let mut i: usize = start;
                while i < end
                    invariant
                        start <= i <= end <= account.sales.len(),
                        ids@ == owned_ids(account@.sales).subrange(start as int, i as int),
                    decreases end - i,
                {
                    ids.push(account.sales[i]);
                    assert(ids@ =~= owned_ids(account@.sales).subrange(start as int, i + 1));
                    i += 1;
                }
                ids
            },
        };
        self.get_sales_by_id(Some(account_id), &ids, now, block_height)
    }

    /// The tokens that `account_id` has registered with their balances,
    /// from place `from_index` on, `limit` of them at most; nothing where
    /// the account is not registered.
    pub fn balances_of(&self, account_id: &String, from_index: Option<u64>, limit: Option<u64>) -> (r:
        Vec<(String, u128)>)
        requires
            self.wf(),
        ensures
            transfers_view(r@) == match self@.account(account_id@) {
                Some(account) => page(account.balances, from_index, limit),
                None => Seq::empty(),
            },
    {
        match self.internal_unwrap_account(account_id) {
            Ok(account) => page_of_balances(&account.balances, from_index, limit),
            Err(_) => {
                let r: Vec<(String, u128)> = Vec::new();
                assert(transfers_view(r@) =~= Seq::empty());
                r
            },
        }
    }

    /// The tokens in the treasury's ledger with their balances, from place
    /// `from_index` on, `limit` of them at most.
    pub fn get_treasury_balances(&self, from_index: Option<u64>, limit: Option<u64>) -> (r: Vec<
        (String, u128),
    >)
        requires
            self.wf(),
        ensures
            transfers_view(r@) == page(self@.treasury.balances, from_index, limit),
    {
        page_of_balances(&self.treasury.balances, from_index, limit)
    }
}

/// Once showing a list of sales has failed, it has failed for good.
pub proof fn lemma_get_sales_fails(
    c: ContractView,
    account_id: Option<Seq<char>>,
    sale_ids: Seq<u64>,
    n: nat,
    m: nat,
    now: nat,
    block_height: nat,
)
    requires
        n <= m,
        c.get_sales_by_id(account_id, sale_ids, n, now, block_height) is Err,
    ensures
        c.get_sales_by_id(account_id, sale_ids, m, now, block_height) == c.get_sales_by_id(
            account_id,
            sale_ids,
            n,
            now,
            block_height,
        ),
    decreases m,
{
    if n < m {
        lemma_get_sales_fails(c, account_id, sale_ids, n, (m - 1) as nat, now, block_height);
    }
}

} // verus!
