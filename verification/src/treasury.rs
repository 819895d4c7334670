//! The treasury: the protocol's fees by token, the count of burned protocol
//! tokens, and the vesting schedule that gives the circulating supply.

use crate::assoc::{has_key, lemma_with_entry, lookup, with_entry};
use crate::balances::TokenBalances;
use crate::errors::Error;
use crate::math::{lemma_mul_div_floor_le, mul_div_floor, mul_div_floor_spec};
use vstd::prelude::*;

verus! {

/// An amount of the protocol token that unlocks linearly between two instants.
#[derive(Clone, Copy, Debug, PartialEq, Eq, Structural)]
pub struct VestingInterval {
    pub start_timestamp: u64,
    pub end_timestamp: u64,
    pub amount: u128,
}

/// What an interval has unlocked at `now`: nothing up to its start, all of
/// it from its end on, and in between the part of it that the elapsed time
/// is of its length, rounded down.
pub open spec fn unlocked(interval: VestingInterval, now: nat) -> nat {
    if now >= interval.end_timestamp {
        interval.amount as nat
    } else if now <= interval.start_timestamp {
        0
    } else {
        mul_div_floor_spec(
            interval.amount as nat,
            (now - interval.start_timestamp) as nat,
            (interval.end_timestamp - interval.start_timestamp) as nat,
        )
    }
}

/// What a schedule has unlocked at `now`.
pub open spec fn total_unlocked(schedule: Seq<VestingInterval>, now: nat) -> nat
    decreases schedule.len(),
{
    if schedule.len() == 0 {
        0
    } else {
        total_unlocked(schedule.drop_last(), now) + unlocked(schedule.last(), now)
    }
}

/// What a schedule unlocks in the end.
pub open spec fn total_vested(schedule: Seq<VestingInterval>) -> nat
    decreases schedule.len(),
{
    if schedule.len() == 0 {
        0
    } else {
        total_vested(schedule.drop_last()) + (schedule.last().amount as nat)
    }
}

/// The protocol tokens in circulation: what has unlocked and was not burned.
pub open spec fn circulating(schedule: Seq<VestingInterval>, burned: nat, now: nat) -> nat {
    if total_unlocked(schedule, now) >= burned {
        (total_unlocked(schedule, now) - burned) as nat
    } else {
        0
    }
}

/// The mathematical value of the treasury.
pub ghost struct TreasuryView {
    pub balances: Seq<(Seq<char>, nat)>,
    pub skyward_token_id: Seq<char>,
    pub skyward_burned_amount: nat,
    pub skyward_vesting_schedule: Seq<VestingInterval>,
    pub listing_fee_near: nat,
    pub w_near_token_id: Seq<char>,
    pub locked_attached_deposits: nat,
}

impl TreasuryView {
    /// The balance held of `token_id`, zero where the token is unknown.
    pub open spec fn balance_of(self, token_id: Seq<char>) -> nat {
        match lookup(self.balances, token_id) {
            Some(balance) => balance,
            None => 0,
        }
    }

    /// The treasury can take `amount` of `token_id`: the token is not the
    /// protocol token and the balance stays within 128 bits.
    pub open spec fn deposit_result(self, token_id: Seq<char>, amount: nat) -> Result<(), Error> {
        if token_id == self.skyward_token_id {
            Err(Error::TreasuryCanNotContainSkyward)
        } else if self.balance_of(token_id) + amount > u128::MAX {
            Err(Error::BalanceOverflow)
        } else {
            Ok(())
        }
    }

    /// The treasury with `amount` more of `token_id`.
    pub open spec fn deposit(self, token_id: Seq<char>, amount: nat) -> TreasuryView {
        TreasuryView {
            balances: with_entry(self.balances, token_id, self.balance_of(token_id) + amount),
            ..self
        }
    }

    /// The treasury with `amount` less of `token_id`. The protocol token is
    /// never entered in the ledger, not even with nothing.
    pub open spec fn withdraw(self, token_id: Seq<char>, amount: nat) -> TreasuryView {
        if token_id == self.skyward_token_id {
            self
        } else {
            TreasuryView {
                balances: with_entry(
                    self.balances,
                    token_id,
                    (self.balance_of(token_id) - amount) as nat,
                ),
                ..self
            }
        }
    }

    /// A donation of `amount` of `token_id` can be taken: the burn count or
    /// the balance stays within 128 bits.
    pub open spec fn donate_result(self, token_id: Seq<char>, amount: nat) -> Result<(), Error> {
        if token_id == self.skyward_token_id {
            if self.skyward_burned_amount + amount > u128::MAX {
                Err(Error::BalanceOverflow)
            } else {
                Ok(())
            }
        } else {
            self.deposit_result(token_id, amount)
        }
    }

    /// The treasury after a donation: the protocol token is burned, any other
    /// token is banked.
    pub open spec fn donate(self, token_id: Seq<char>, amount: nat) -> TreasuryView {
        if token_id == self.skyward_token_id {
            TreasuryView { skyward_burned_amount: self.skyward_burned_amount + amount, ..self }
        } else {
            self.deposit(token_id, amount)
        }
    }

    /// The protocol tokens in circulation at `now`.
    pub open spec fn circulating_supply(self, now: nat) -> nat {
        circulating(self.skyward_vesting_schedule, self.skyward_burned_amount, now)
    }
}

/// The treasury.
#[derive(Debug)]
pub struct Treasury {
    pub balances: TokenBalances,
    pub skyward_token_id: String,
    pub skyward_burned_amount: u128,
    pub skyward_vesting_schedule: Vec<VestingInterval>,
    pub listing_fee_near: u128,
    pub w_near_token_id: String,
    /// Native tokens held back while permissions are being checked.
    pub locked_attached_deposits: u128,
}

impl View for Treasury {
    type V = TreasuryView;

    open spec fn view(&self) -> TreasuryView {
        TreasuryView {
            balances: self.balances@,
            skyward_token_id: self.skyward_token_id@,
            skyward_burned_amount: self.skyward_burned_amount as nat,
            skyward_vesting_schedule: self.skyward_vesting_schedule@,
            listing_fee_near: self.listing_fee_near as nat,
            w_near_token_id: self.w_near_token_id@,
            locked_attached_deposits: self.locked_attached_deposits as nat,
        }
    }
}

/// No interval has unlocked more than its amount, and none takes back what
/// it has unlocked.
pub proof fn lemma_unlocked_monotonic(interval: VestingInterval, earlier: nat, later: nat)
    requires
        earlier <= later,
    ensures
        unlocked(interval, earlier) <= unlocked(interval, later) <= interval.amount,
{
    let start = interval.start_timestamp as nat;
    let end = interval.end_timestamp as nat;
    let amount = interval.amount as nat;
    if later < end && later > start {
        let span = (end - start) as nat;
        lemma_mul_div_floor_le(amount, (later - start) as nat, span);
        if earlier > start {
            let a = (earlier - start) as nat;
            let b = (later - start) as nat;
            assert(amount * a <= amount * b) by (nonlinear_arith)
                requires
                    a <= b,
            ;
            vstd::arithmetic::div_mod::lemma_div_is_ordered(
                (amount * a) as int,
                (amount * b) as int,
                span as int,
            );
        }
    } else if earlier < end && earlier > start {
        lemma_mul_div_floor_le(amount, (earlier - start) as nat, (end - start) as nat);
    }
}

/// The circulating supply never shrinks with time (while nothing is burned),
/// and a schedule never unlocks more than it holds.
pub proof fn lemma_total_unlocked_monotonic(
    schedule: Seq<VestingInterval>,
    earlier: nat,
    later: nat,
)
    requires
        earlier <= later,
    ensures
        total_unlocked(schedule, earlier) <= total_unlocked(schedule, later) <= total_vested(
            schedule,
        ),
    decreases schedule.len(),
{
    if schedule.len() > 0 {
        lemma_total_unlocked_monotonic(schedule.drop_last(), earlier, later);
        lemma_unlocked_monotonic(schedule.last(), earlier, later);
    }
}

/// Once every interval has ended, the whole schedule is unlocked.
pub proof fn lemma_total_unlocked_final(schedule: Seq<VestingInterval>, now: nat)
    requires
        forall|i: int| 0 <= i < schedule.len() ==> (#[trigger] schedule[i]).end_timestamp <= now,
    ensures
        total_unlocked(schedule, now) == total_vested(schedule),
    decreases schedule.len(),
{
    if schedule.len() > 0 {
        assert(schedule.last() == schedule[schedule.len() - 1]);
        assert forall|i: int| 0 <= i < schedule.drop_last().len() implies (
        #[trigger] schedule.drop_last()[i]).end_timestamp <= now by {
            assert(schedule.drop_last()[i] == schedule[i]);
        }
        lemma_total_unlocked_final(schedule.drop_last(), now);
    }
}

/// The circulating supply is weakly increasing in time, and constant at
/// what was vested less what was burned once every interval has ended.
pub proof fn lemma_circulating_supply_in_time(
    schedule: Seq<VestingInterval>,
    burned: nat,
    earlier: nat,
    later: nat,
)
    requires
        earlier <= later,
    ensures
        circulating(schedule, burned, earlier) <= circulating(schedule, burned, later),
        (forall|i: int| 0 <= i < schedule.len() ==> (#[trigger] schedule[i]).end_timestamp
            <= earlier) ==> circulating(schedule, burned, earlier) == circulating(
            schedule,
            burned,
            later,
        ) && (burned <= total_vested(schedule) ==> circulating(schedule, burned, later)
            == total_vested(schedule) - burned),
{
    lemma_total_unlocked_monotonic(schedule, earlier, later);
    if forall|i: int| 0 <= i < schedule.len() ==> (#[trigger] schedule[i]).end_timestamp <= earlier {
        lemma_total_unlocked_final(schedule, earlier);
        lemma_total_unlocked_final(schedule, later);
    }
}

/// A part of a schedule vests no more than the whole.
pub proof fn lemma_total_vested_prefix(schedule: Seq<VestingInterval>, n: int)
    requires
        0 <= n <= schedule.len(),
    ensures
        total_vested(schedule.subrange(0, n)) <= total_vested(schedule),
    decreases schedule.len() - n,
{
    if n < schedule.len() {
        lemma_total_vested_prefix(schedule, n + 1);
        assert(schedule.subrange(0, n + 1).drop_last() =~= schedule.subrange(0, n));
    } else {
        assert(schedule.subrange(0, n) =~= schedule);
    }
}

/// What a schedule unlocks in the end, or `None` where that leaves 128 bits.
pub fn checked_total_vested(schedule: &Vec<VestingInterval>) -> (r: Option<u128>)
    ensures
        match r {
            Some(total) => total == total_vested(schedule@),
            None => total_vested(schedule@) > u128::MAX,
        },
{
    let mut total: u128 = 0;
    let mut i: usize = 0;
    while i < schedule.len()
        invariant
            i <= schedule.len(),
            total == total_vested(schedule@.subrange(0, i as int)),
        decreases schedule.len() - i,
    {
        proof {
            assert(schedule@.subrange(0, i + 1).drop_last() =~= schedule@.subrange(0, i as int));
            lemma_total_vested_prefix(schedule@, i + 1);
        }
        if schedule[i].amount > u128::MAX - total {
            return None;
        }
        total = total + schedule[i].amount;
        i += 1;
    }
    assert(schedule@.subrange(0, i as int) =~= schedule@);
    Some(total)
}

impl Treasury {
    /// The ledger holds each token once and nothing of the protocol token,
    /// the protocol token is not the wrapped native token, and the vesting
    /// schedule fits in 128 bits.
    pub open spec fn wf(&self) -> bool {
        &&& self.balances.wf()
        &&& self@.skyward_token_id != self@.w_near_token_id
        &&& !has_key(self@.balances, self@.skyward_token_id)
        &&& total_vested(self@.skyward_vesting_schedule) <= u128::MAX
    }

    /// Whether this treasury is well formed.
    pub fn is_wf(&self) -> (r: bool)
        ensures
            r == self.wf(),
    {
        if !self.balances.is_wf() {
            return false;
        }
        self.skyward_token_id != self.w_near_token_id && self.balances.find(
            &self.skyward_token_id,
        ).is_none() && checked_total_vested(&self.skyward_vesting_schedule).is_some()
    }

    /// A copy of this treasury.
    pub fn duplicate(&self) -> (r: Self)
        requires
            self.wf(),
        ensures
            r@ == self@,
            r.wf(),
    {
        let mut schedule: Vec<VestingInterval> = Vec::new();
        let mut i: usize = 0;
        while i < self.skyward_vesting_schedule.len()
            invariant
                i <= self.skyward_vesting_schedule.len(),
                schedule@ == self.skyward_vesting_schedule@.subrange(0, i as int),
            decreases self.skyward_vesting_schedule.len() - i,
        {
            schedule.push(self.skyward_vesting_schedule[i]);
            assert(schedule@ =~= self.skyward_vesting_schedule@.subrange(0, i + 1));
            i += 1;
        }
        assert(schedule@ =~= self.skyward_vesting_schedule@);
        Treasury {
            balances: self.balances.duplicate(),
            skyward_token_id: self.skyward_token_id.clone(),
            skyward_burned_amount: self.skyward_burned_amount,
            skyward_vesting_schedule: schedule,
            listing_fee_near: self.listing_fee_near,
            w_near_token_id: self.w_near_token_id.clone(),
            locked_attached_deposits: self.locked_attached_deposits,
        }
    }

    /// A treasury with an empty ledger.
    pub fn new(
        skyward_token_id: String,
        skyward_vesting_schedule: Vec<VestingInterval>,
        listing_fee_near: u128,
        w_near_token_id: String,
    ) -> (r: Self)
        requires
            skyward_token_id@ != w_near_token_id@,
            total_vested(skyward_vesting_schedule@) <= u128::MAX,
        ensures
            r.wf(),
            r@ == (TreasuryView {
                balances: Seq::empty(),
                skyward_token_id: skyward_token_id@,
                skyward_burned_amount: 0,
                skyward_vesting_schedule: skyward_vesting_schedule@,
                listing_fee_near: listing_fee_near as nat,
                w_near_token_id: w_near_token_id@,
                locked_attached_deposits: 0,
            }),
    {
        Treasury {
            balances: TokenBalances::new(),
            skyward_token_id,
            skyward_burned_amount: 0,
            skyward_vesting_schedule,
            listing_fee_near,
            w_near_token_id,
            locked_attached_deposits: 0,
        }
    }

    /// Banks `amount` of `token_id`. The protocol token is refused, and so is
    /// an amount that takes the balance beyond 128 bits; nothing changes then.
    pub fn internal_deposit(&mut self, token_id: &String, amount: u128) -> (r: Result<(), Error>)
        requires
            old(self).wf(),
        ensures
            r == old(self)@.deposit_result(token_id@, amount as nat),
            r is Ok ==> final(self)@ == old(self)@.deposit(token_id@, amount as nat),
            r is Err ==> final(self)@ == old(self)@,
            final(self).wf(),
    {
        if *token_id == self.skyward_token_id {
            return Err(Error::TreasuryCanNotContainSkyward);
        }
        let balance = match self.balances.get(token_id) {
            Some(b) => b,
            None => 0,
        };
        if amount > u128::MAX - balance {
            return Err(Error::BalanceOverflow);
        }
        proof {
            lemma_with_entry(self.balances@, token_id@, (balance + amount) as nat);
        }
        self.balances.insert(token_id, balance + amount);
        Ok(())
    }

    /// Takes `amount` of `token_id` out of the ledger, or refuses with
    /// `NotEnoughBalance` and changes nothing.
    pub fn internal_withdraw(&mut self, token_id: &String, amount: u128) -> (r: Result<(), Error>)
        requires
            old(self).wf(),
        ensures
            r == (if amount as nat <= old(self)@.balance_of(token_id@) {
                Ok::<(), Error>(())
            } else {
                Err::<(), Error>(Error::NotEnoughBalance)
            }),
            r is Ok ==> final(self)@ == old(self)@.withdraw(token_id@, amount as nat),
            r is Err ==> final(self)@ == old(self)@,
            final(self).wf(),
    {
        let balance = match self.balances.get(token_id) {
            Some(b) => b,
            None => 0,
        };
        if amount > balance {
            return Err(Error::NotEnoughBalance);
        }
        if *token_id != self.skyward_token_id {
            proof {
                lemma_with_entry(self.balances@, token_id@, (balance - amount) as nat);
            }
            self.balances.insert(token_id, balance - amount);
        }
        Ok(())
    }

    /// Takes a donation: the protocol token is burned, any other token is
    /// banked. Nothing changes where the count or the balance would leave
    /// 128 bits.
    pub fn internal_donate(&mut self, token_id: &String, amount: u128) -> (r: Result<(), Error>)
        requires
            old(self).wf(),
        ensures
            r == old(self)@.donate_result(token_id@, amount as nat),
            r is Ok ==> final(self)@ == old(self)@.donate(token_id@, amount as nat),
            r is Err ==> final(self)@ == old(self)@,
            final(self).wf(),
    {
        if *token_id == self.skyward_token_id {
            if amount > u128::MAX - self.skyward_burned_amount {
                return Err(Error::BalanceOverflow);
            }
            self.skyward_burned_amount = self.skyward_burned_amount + amount;
            Ok(())
        } else {
            self.internal_deposit(token_id, amount)
        }
    }

    /// What the vesting schedule has unlocked at `now`.
    pub fn unlocked_supply(&self, now: u64) -> (r: u128)
        requires
            self.wf(),
        ensures
            r == total_unlocked(self@.skyward_vesting_schedule, now as nat),
    {
        let mut total: u128 = 0;
        let mut i: usize = 0;
        let ghost schedule = self.skyward_vesting_schedule@;
        while i < self.skyward_vesting_schedule.len()
            invariant
                i <= schedule.len(),
                schedule == self.skyward_vesting_schedule@,
                total_vested(schedule) <= u128::MAX,
                total == total_unlocked(schedule.subrange(0, i as int), now as nat),
                total <= total_vested(schedule.subrange(0, i as int)),
            decreases schedule.len() - i,
        {
            let interval = self.skyward_vesting_schedule[i];
            proof {
                assert(schedule.subrange(0, i + 1).drop_last() =~= schedule.subrange(0, i as int));
                lemma_total_vested_prefix(schedule, i + 1);
                lemma_unlocked_monotonic(interval, now as nat, now as nat);
            }
            let part = if now >= interval.end_timestamp {
                interval.amount
            } else if now <= interval.start_timestamp {
                0
            } else {
                mul_div_floor(
                    interval.amount,
                    (now - interval.start_timestamp) as u128,
                    (interval.end_timestamp - interval.start_timestamp) as u128,
                ).unwrap()
            };
            total = total + part;
            i += 1;
        }
        assert(schedule.subrange(0, i as int) =~= schedule);
        total
    }

    /// The protocol tokens in circulation at `now`: what has unlocked and was
    /// not burned.
    pub fn circulating_supply(&self, now: u64) -> (r: u128)
        requires
            self.wf(),
        ensures
            r == self@.circulating_supply(now as nat),
    {
        let unlocked_total = self.unlocked_supply(now);
        if unlocked_total >= self.skyward_burned_amount {
            unlocked_total - self.skyward_burned_amount
        } else {
            0
        }
    }
}

} // verus!
