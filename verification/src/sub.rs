//! A subscription: the position of one account in one sale.
//!
//! A subscription does not follow the sale from touch to touch. It keeps a
//! snapshot of the sale's accumulators, and on its own touch it takes what
//! its shares have earned since the snapshot.

use crate::errors::Error;
use crate::math::{accrual_fits, accrued, accrued_spec, limbs_value};
use crate::sale::{text_view, Sale, SaleView};
use vstd::prelude::*;

verus! {

/// The mathematical value of a subscription.
pub ghost struct SubscriptionView {
    pub shares: nat,
    pub spent_in_balance_without_shares: nat,
    pub last_in_balance: nat,
    pub last_out_per_share: Seq<nat>,
    pub claimed_out_balance: Seq<nat>,
    pub referral_id: Option<Seq<char>>,
}

/// What a subscriber sees of a subscription.
pub ghost struct SubscriptionOutputView {
    pub remaining_in_balance: nat,
    pub spent_in_balance: nat,
    pub unclaimed_out_balances: Seq<nat>,
    pub claimed_out_balance: Seq<nat>,
    pub shares: nat,
    pub referral_id: Option<Seq<char>>,
}

/// The amounts of a vector as numbers.
pub open spec fn amounts_view(amounts: Seq<u128>) -> Seq<nat> {
    amounts.map_values(|a: u128| a as nat)
}

/// The accumulators of a vector as numbers.
pub open spec fn accumulators_view(accumulators: Seq<[u64; 4]>) -> Seq<nat> {
    accumulators.map_values(|a: [u64; 4]| limbs_value(a))
}

impl SubscriptionView {
    /// One snapshot and one claimed amount for each out-token.
    pub open spec fn wf(self) -> bool {
        self.last_out_per_share.len() == self.claimed_out_balance.len()
    }

    /// A subscription without shares whose snapshots are the sale's
    /// accumulators as they stand.
    pub open spec fn fresh(sale: SaleView, referral_id: Option<Seq<char>>) -> SubscriptionView {
        SubscriptionView {
            shares: 0,
            spent_in_balance_without_shares: 0,
            last_in_balance: 0,
            last_out_per_share: Seq::new(sale.out_tokens.len(), |i: int| sale.out_tokens[i].per_share),
            claimed_out_balance: Seq::new(sale.out_tokens.len(), |i: int| 0nat),
            referral_id,
        }
    }

    /// The number of out-tokens that the subscription and the sale have in
    /// common.
    pub open spec fn paired(self, sale: SaleView) -> nat {
        if self.last_out_per_share.len() <= sale.out_tokens.len() {
            self.last_out_per_share.len()
        } else {
            sale.out_tokens.len()
        }
    }

    /// What the shares have earned of out-token `i` since the snapshot.
    pub open spec fn earned(self, sale: SaleView, i: int) -> nat {
        accrued_spec(sale.out_tokens[i].per_share, self.last_out_per_share[i], self.shares)
    }

    /// What the shares have earned of each out-token since the snapshot.
    pub open spec fn earnings(self, sale: SaleView) -> Seq<nat> {
        Seq::new(self.paired(sale), |i: int| self.earned(sale, i))
    }

    /// The in-tokens spent since the last touch.
    pub open spec fn newly_spent(self, sale: SaleView) -> nat {
        let current = sale.shares_to_in_balance(self.shares);
        if self.last_in_balance > current {
            (self.last_in_balance - current) as nat
        } else {
            0
        }
    }

    /// The earnings up to out-token `n` can be computed.
    pub open spec fn earnings_fit(self, sale: SaleView, n: int) -> bool {
        forall|i: int|
            0 <= i < n ==> accrual_fits(
                (#[trigger] sale.out_tokens[i]).per_share,
                self.last_out_per_share[i],
                self.shares,
            )
    }

    /// The touch stays within the machine's numbers: every earning can be
    /// computed and the spent in-tokens fit in 128 bits.
    pub open spec fn can_touch(self, sale: SaleView) -> bool {
        &&& self.earnings_fit(sale, self.paired(sale) as int)
        &&& self.spent_in_balance_without_shares + self.newly_spent(sale) <= u128::MAX
    }

    /// The subscription after its touch: the snapshots are the sale's
    /// accumulators, and the in-balance is what the shares stand for now.
    pub open spec fn touched(self, sale: SaleView) -> SubscriptionView {
        SubscriptionView {
            spent_in_balance_without_shares: self.spent_in_balance_without_shares
                + self.newly_spent(sale),
            last_in_balance: sale.shares_to_in_balance(self.shares),
            last_out_per_share: Seq::new(
                self.last_out_per_share.len(),
                |i: int|
                    if i < self.paired(sale) {
                        sale.out_tokens[i].per_share
                    } else {
                        self.last_out_per_share[i]
                    },
            ),
            ..self
        }
    }
}

/// The position of one account in one sale.
#[derive(Debug)]
pub struct Subscription {
    pub shares: u128,
    /// In-tokens spent before the last touch.
    pub spent_in_balance_without_shares: u128,
    /// In-tokens that the shares stood for at the last touch.
    pub last_in_balance: u128,
    /// The sale's accumulators at the last touch.
    pub last_out_per_share: Vec<[u64; 4]>,
    pub claimed_out_balance: Vec<u128>,
    pub referral_id: Option<String>,
}

/// What a subscriber sees of a subscription.
#[derive(Debug, PartialEq, Eq)]
pub struct SubscriptionOutput {
    pub remaining_in_balance: u128,
    pub spent_in_balance: u128,
    pub unclaimed_out_balances: Vec<u128>,
    pub claimed_out_balance: Vec<u128>,
    pub shares: u128,
    pub referral_id: Option<String>,
}

impl View for Subscription {
    type V = SubscriptionView;

    open spec fn view(&self) -> SubscriptionView {
        SubscriptionView {
            shares: self.shares as nat,
            spent_in_balance_without_shares: self.spent_in_balance_without_shares as nat,
            last_in_balance: self.last_in_balance as nat,
            last_out_per_share: accumulators_view(self.last_out_per_share@),
            claimed_out_balance: amounts_view(self.claimed_out_balance@),
            referral_id: text_view(self.referral_id),
        }
    }
}

impl View for SubscriptionOutput {
    type V = SubscriptionOutputView;

    open spec fn view(&self) -> SubscriptionOutputView {
        SubscriptionOutputView {
            remaining_in_balance: self.remaining_in_balance as nat,
            spent_in_balance: self.spent_in_balance as nat,
            unclaimed_out_balances: amounts_view(self.unclaimed_out_balances@),
            claimed_out_balance: amounts_view(self.claimed_out_balance@),
            shares: self.shares as nat,
            referral_id: text_view(self.referral_id),
        }
    }
}

/// A copy of an optional text.
pub fn copy_text(text: &Option<String>) -> (r: Option<String>)
    ensures
        text_view(r) == text_view(*text),
{
    match text {
        Some(t) => Some(t.clone()),
        None => None,
    }
}

/// A copy of a vector of amounts.
pub fn copy_amounts(amounts: &Vec<u128>) -> (r: Vec<u128>)
    ensures
        r@ == amounts@,
{
    let mut r: Vec<u128> = Vec::new();
    let mut i: usize = 0;
    while i < amounts.len()
        invariant
            i <= amounts.len(),
            r@ == amounts@.subrange(0, i as int),
        decreases amounts.len() - i,
    {
        r.push(amounts[i]);
        assert(r@ =~= amounts@.subrange(0, i + 1));
        i += 1;
    }
    assert(r@ =~= amounts@);
    r
}

/// A copy of a vector of accumulators.
pub fn copy_accumulators(accumulators: &Vec<[u64; 4]>) -> (r: Vec<[u64; 4]>)
    ensures
        r@ == accumulators@,
{
    let mut r: Vec<[u64; 4]> = Vec::new();
    let mut i: usize = 0;
    while i < accumulators.len()
        invariant
            i <= accumulators.len(),
            r@ == accumulators@.subrange(0, i as int),
        decreases accumulators.len() - i,
    {
        r.push(accumulators[i]);
        assert(r@ =~= accumulators@.subrange(0, i + 1));
        i += 1;
    }
    assert(r@ =~= accumulators@);
    r
}

impl Subscription {
    /// Whether this subscription is well formed.
    pub fn is_wf(&self) -> (r: bool)
        ensures
            r == self@.wf(),
    {
        self.last_out_per_share.len() == self.claimed_out_balance.len()
    }

    /// A subscription without shares, taken out at the sale's present
    /// accumulators.
    pub fn new(sale: &Sale, referral_id: Option<String>) -> (r: Self)
        ensures
            r@ == SubscriptionView::fresh(sale@, text_view(referral_id)),
            r@.wf(),
    {
        let mut snapshots: Vec<[u64; 4]> = Vec::new();
        let mut claimed: Vec<u128> = Vec::new();
        let mut i: usize = 0;
        while i < sale.out_tokens.len()
            invariant
                i <= sale.out_tokens.len(),
                snapshots.len() == i,
                claimed.len() == i,
                forall|j: int| 0 <= j < i ==> (#[trigger] snapshots[j]) == sale.out_tokens[j].per_share,
                forall|j: int| 0 <= j < i ==> (#[trigger] claimed[j]) == 0,
            decreases sale.out_tokens.len() - i,
        {
            snapshots.push(sale.out_tokens[i].per_share);
            claimed.push(0);
            i += 1;
        }
        let r = Subscription {
            shares: 0,
            spent_in_balance_without_shares: 0,
            last_in_balance: 0,
            last_out_per_share: snapshots,
            claimed_out_balance: claimed,
            referral_id,
        };
        proof {
            let fresh = SubscriptionView::fresh(sale@, text_view(referral_id));
            assert(r@.last_out_per_share =~= fresh.last_out_per_share);
            assert(r@.claimed_out_balance =~= fresh.claimed_out_balance);
        }
        r
    }

    /// A copy of this subscription.
    pub fn duplicate(&self) -> (r: Self)
        ensures
            r@ == self@,
    {
        Subscription {
            shares: self.shares,
            spent_in_balance_without_shares: self.spent_in_balance_without_shares,
            last_in_balance: self.last_in_balance,
            last_out_per_share: copy_accumulators(&self.last_out_per_share),
            claimed_out_balance: copy_amounts(&self.claimed_out_balance),
            referral_id: copy_text(&self.referral_id),
        }
    }

    /// Brings the subscription up to the sale's present state, after the
    /// sale's own touch, and returns what its shares have earned of each
    /// out-token since its last touch. Where an earning or the spent
    /// in-tokens leave the machine's numbers, nothing changes.
    pub fn touch(&mut self, sale: &Sale) -> (r: Result<Vec<u128>, Error>)
        requires
            old(self)@.wf(),
            sale@.wf(),
        ensures
            match r {
                Ok(earned) => {
                    &&& old(self)@.can_touch(sale@)
                    &&& final(self)@ == old(self)@.touched(sale@)
                    &&& amounts_view(earned@) == old(self)@.earnings(sale@)
                },
                Err(e) => {
                    &&& e == Error::BalanceOverflow
                    &&& !old(self)@.can_touch(sale@)
                    &&& final(self)@ == old(self)@
                },
            },
            final(self)@.wf(),
    {
        let n = if self.last_out_per_share.len() <= sale.out_tokens.len() {
            self.last_out_per_share.len()
        } else {
            sale.out_tokens.len()
        };
        let mut earned: Vec<u128> = Vec::new();
        let mut i: usize = 0;
        while i < n
            invariant
                i <= n,
                n == self@.paired(sale@),
                *self == *old(self),
                self@.wf(),
                earned.len() == i,
                self@.earnings_fit(sale@, i as int),
                forall|j: int| 0 <= j < i ==> (#[trigger] earned[j]) as nat == self@.earned(sale@, j),
            decreases n - i,
        {
            match accrued(sale.out_tokens[i].per_share, self.last_out_per_share[i], self.shares) {
                Some(amount) => {
                    earned.push(amount);
                },
                None => {
                    assert(!accrual_fits(
                        sale@.out_tokens[i as int].per_share,
                        self@.last_out_per_share[i as int],
                        self@.shares,
                    ));
                    return Err(Error::BalanceOverflow);
                },
            }
            i += 1;
        }
        let current = sale.shares_to_in_balance(self.shares);
        let newly_spent = if self.last_in_balance > current {
            self.last_in_balance - current
        } else {
            0
        };
        if newly_spent > u128::MAX - self.spent_in_balance_without_shares {
            return Err(Error::BalanceOverflow);
        }
        self.spent_in_balance_without_shares = self.spent_in_balance_without_shares + newly_spent;
        self.last_in_balance = current;
        let mut k: usize = 0;
        while k < n
            invariant
                k <= n,
                n == old(self)@.paired(sale@),
                self.last_out_per_share.len() == old(self).last_out_per_share.len(),
                self.claimed_out_balance == old(self).claimed_out_balance,
                self.referral_id == old(self).referral_id,
                self.shares == old(self).shares,
                self.last_in_balance == current,
                self.spent_in_balance_without_shares == old(self).spent_in_balance_without_shares
                    + newly_spent,
                forall|j: int|
                    0 <= j < k ==> (#[trigger] self.last_out_per_share[j])
                        == sale.out_tokens[j].per_share,
                forall|j: int|
                    k <= j < self.last_out_per_share.len() ==> (#[trigger] self.last_out_per_share[j])
                        == old(self).last_out_per_share[j],
            decreases n - k,
        {
            self.last_out_per_share[k] = sale.out_tokens[k].per_share;
            k += 1;
        }
        proof {
            assert(self@.last_out_per_share =~= old(self)@.touched(sale@).last_out_per_share);
            assert(amounts_view(earned@) =~= old(self)@.earnings(sale@));
        }
        Ok(earned)
    }
}

} // verus!
