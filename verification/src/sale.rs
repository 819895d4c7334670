//! A sale and its touch algorithm: the continuous distribution core.
//!
//! Between two touches a sale pays out the fraction `elapsed / left` of every
//! out-token pool and of the pledged in-tokens, where `left` is the time that
//! was left when the first of the two touches happened.

use crate::errors::Error;
use crate::math::{
    lemma_mul_div_floor_le, lemma_mul_div_floor_le_product, lemma_product_is_wide, limb_base,
    limbs_value,
    mul_div_ceil, mul_div_ceil_spec, mul_div_floor, mul_div_floor_spec, wide_add_mul_div,
    wide_le, wide_product, MULTIPLIER,
};
use crate::sub::copy_text;
use vstd::prelude::*;

verus! {

/// A third party announces a sale at least a week ahead (nanoseconds).
pub const MIN_DURATION_BEFORE_START: u64 = 7 * 24 * 60 * 60 * 1_000_000_000;

/// No sale is announced a year or more ahead (nanoseconds).
pub const MAX_DURATION_BEFORE_START: u64 = 365 * 24 * 60 * 60 * 1_000_000_000;

/// The longest sale: four leap years (nanoseconds).
pub const MAX_DURATION: u64 = 4 * 366 * 24 * 60 * 60 * 1_000_000_000;

/// The shortest sale: one nanosecond, which makes a simple auction.
pub const MIN_DURATION: u64 = 1;

/// The treasury keeps one part in this many.
pub const TREASURY_FEE_DENOMINATOR: u128 = 100;

/// The most out-tokens that one sale offers.
pub const MAX_NUM_OUT_TOKENS: usize = 4;

/// The longest title, in bytes.
pub const MAX_TITLE_LENGTH: usize = 250;

/// The longest URL, in bytes.
pub const MAX_URL_LENGTH: usize = 250;

/// The highest referral fee, in parts of ten thousand.
pub const MAX_REFERRAL_BPT: u16 = 500;

/// A referral fee is so many parts of this many.
pub const REFERRAL_FEE_DENOMINATOR: u128 = 10000;

/// Parts of ten thousand.
pub type BasicPoints = u16;

/// The length of a text in bytes of UTF-8.
pub open spec fn byte_len(text: Seq<char>) -> nat {
    vstd::utf8::encode_utf8(text).len()
}

/// The mathematical value of one out-token pool of a sale.
pub ghost struct OutTokenView {
    pub token_account_id: Seq<char>,
    pub remaining: nat,
    pub distributed: nat,
    pub treasury_unclaimed: Option<nat>,
    pub per_share: nat,
    pub referral_bpt: Option<nat>,
}

/// The mathematical value of a sale.
pub ghost struct SaleView {
    pub owner_id: Seq<char>,
    pub title: Seq<char>,
    pub url: Option<Seq<char>>,
    pub permissions_contract_id: Option<Seq<char>>,
    pub out_tokens: Seq<OutTokenView>,
    pub in_token_account_id: Seq<char>,
    pub in_token_remaining: nat,
    pub in_token_paid_unclaimed: nat,
    pub in_token_paid: nat,
    pub start_time: nat,
    pub duration: nat,
    pub total_shares: nat,
    pub last_timestamp: nat,
    pub start_block_height: nat,
    pub end_block_height: Option<nat>,
}

impl OutTokenView {
    /// What was put up for sale is either still there or distributed, the
    /// accumulator accounts for no more than was distributed, the treasury's
    /// part is a part of what was distributed, and a referral fee is a part
    /// of the whole.
    pub open spec fn wf(self) -> bool {
        &&& self.remaining + self.distributed <= u128::MAX
        &&& self.per_share <= self.distributed * MULTIPLIER
        &&& match self.treasury_unclaimed {
            Some(unclaimed) => unclaimed <= self.distributed,
            None => true,
        }
        &&& match self.referral_bpt {
            Some(bpt) => bpt <= REFERRAL_FEE_DENOMINATOR,
            None => true,
        }
    }

    /// The amount that leaves the pool when `delta` of the `span` that was
    /// left has passed.
    pub open spec fn streamed(self, delta: nat, span: nat) -> nat {
        mul_div_floor_spec(self.remaining, delta, span)
    }

    /// The treasury's part of a streamed amount.
    pub open spec fn stream_fee(self, delta: nat, span: nat) -> nat {
        if self.treasury_unclaimed is Some {
            self.streamed(delta, span) / (TREASURY_FEE_DENOMINATOR as nat)
        } else {
            0
        }
    }

    /// The pool after `delta` of the `span` that was left has passed, with
    /// `total_shares` shares subscribed.
    pub open spec fn stream(self, delta: nat, span: nat, total_shares: nat) -> OutTokenView {
        let amount = self.streamed(delta, span);
        let fee = self.stream_fee(delta, span);
        if amount == 0 {
            self
        } else {
            OutTokenView {
                remaining: (self.remaining - amount) as nat,
                distributed: self.distributed + amount,
                treasury_unclaimed: match self.treasury_unclaimed {
                    Some(unclaimed) => Some(unclaimed + fee),
                    None => None,
                },
                per_share: self.per_share + mul_div_floor_spec(
                    (amount - fee) as nat,
                    MULTIPLIER as nat,
                    total_shares,
                ),
                ..self
            }
        }
    }
}

impl SaleView {
    /// The instant at which the sale ends.
    pub open spec fn end_time(self) -> nat {
        self.start_time + self.duration
    }

    /// The sale has been touched at or after its end.
    pub open spec fn has_ended(self) -> bool {
        self.last_timestamp >= self.end_time()
    }

    /// The invariants of a sale: every pool is well formed, the in-tokens
    /// paid and remaining fit in 128 bits together, no more is unclaimed
    /// than was paid, no share is worth more than one in-token, and the last
    /// touch lies within the sale's time.
    pub open spec fn wf(self) -> bool {
        &&& forall|i: int| 0 <= i < self.out_tokens.len() ==> (#[trigger] self.out_tokens[i]).wf()
        &&& self.in_token_paid + self.in_token_remaining <= u128::MAX
        &&& self.in_token_paid_unclaimed <= self.in_token_paid
        &&& self.in_token_remaining <= self.total_shares <= u128::MAX
        &&& self.start_time <= self.last_timestamp <= self.end_time()
    }

    /// The instant up to which a touch at `now` advances the sale.
    pub open spec fn touch_time(self, now: nat) -> nat {
        if now < self.end_time() {
            now
        } else {
            self.end_time()
        }
    }

    /// A touch at `now` changes nothing: the sale has not started, was
    /// already touched at this instant, or has ended.
    pub open spec fn touch_is_noop(self, now: nat) -> bool {
        self.touch_time(now) <= self.last_timestamp || self.last_timestamp >= self.end_time()
    }

    /// The sale after a touch at `now`, in a block of height `block_height`.
    pub open spec fn touch(self, now: nat, block_height: nat) -> SaleView {
        let t = self.touch_time(now);
        if self.touch_is_noop(now) {
            self
        } else {
            let end_block_height = if t >= self.end_time() {
                Some(block_height)
            } else {
                self.end_block_height
            };
            if self.total_shares == 0 {
                SaleView { last_timestamp: t, end_block_height, ..self }
            } else {
                let delta = (t - self.last_timestamp) as nat;
                let span = (self.end_time() - self.last_timestamp) as nat;
                let in_amount = mul_div_floor_spec(self.in_token_remaining, delta, span);
                SaleView {
                    out_tokens: self.out_tokens.map_values(
                        |o: OutTokenView| o.stream(delta, span, self.total_shares),
                    ),
                    in_token_remaining: (self.in_token_remaining - in_amount) as nat,
                    in_token_paid_unclaimed: self.in_token_paid_unclaimed + in_amount,
                    in_token_paid: self.in_token_paid + in_amount,
                    last_timestamp: t,
                    end_block_height,
                    ..self
                }
            }
        }
    }

    /// The in-tokens that `shares` shares still stand for.
    pub open spec fn shares_to_in_balance(self, shares: nat) -> nat {
        if shares == 0 {
            0
        } else {
            mul_div_floor_spec(self.in_token_remaining, shares, self.total_shares)
        }
    }

    /// The shares that `in_amount` in-tokens are worth: one each while nobody
    /// is subscribed, else in proportion to the in-tokens that remain,
    /// rounded down for a deposit and up for a withdrawal. A sale that has
    /// ended or has no in-tokens left cannot price shares, and a deposit may
    /// not take the total beyond 128 bits.
    pub open spec fn in_amount_to_shares(self, in_amount: nat, round_up: bool) -> Result<
        nat,
        Error,
    > {
        if self.total_shares == 0 {
            Ok(in_amount)
        } else if self.in_token_remaining == 0 || self.has_ended() {
            Err(Error::SaleEnded)
        } else if round_up {
            let shares = mul_div_ceil_spec(in_amount, self.total_shares, self.in_token_remaining);
            if shares > u128::MAX {
                Err(Error::SharesOverflow)
            } else {
                Ok(shares)
            }
        } else {
            let shares = mul_div_floor_spec(in_amount, self.total_shares, self.in_token_remaining);
            if shares + self.total_shares > u128::MAX {
                Err(Error::SharesOverflow)
            } else {
                Ok(shares)
            }
        }
    }
}

/// One out-token pool of a sale.
#[derive(Debug)]
pub struct SaleOutToken {
    pub token_account_id: String,
    pub remaining: u128,
    pub distributed: u128,
    /// `None` for the protocol token: no treasury fee is taken of it.
    pub treasury_unclaimed: Option<u128>,
    /// Out-units distributed per share so far, times `MULTIPLIER`, as four
    /// little-endian limbs.
    pub per_share: [u64; 4],
    pub referral_bpt: Option<BasicPoints>,
}

/// A sale.
#[derive(Debug)]
pub struct Sale {
    pub owner_id: String,
    pub title: String,
    pub url: Option<String>,
    pub permissions_contract_id: Option<String>,
    pub out_tokens: Vec<SaleOutToken>,
    pub in_token_account_id: String,
    pub in_token_remaining: u128,
    pub in_token_paid_unclaimed: u128,
    pub in_token_paid: u128,
    pub start_time: u64,
    pub duration: u64,
    pub total_shares: u128,
    pub last_timestamp: u64,
    pub start_block_height: u64,
    pub end_block_height: Option<u64>,
}

/// The view of an optional text.
pub open spec fn text_view(text: Option<String>) -> Option<Seq<char>> {
    match text {
        Some(t) => Some(t@),
        None => None,
    }
}

/// The view of an optional name.
pub open spec fn name_view(name: Option<&String>) -> Option<Seq<char>> {
    match name {
        Some(n) => Some(n@),
        None => None,
    }
}

/// The view of an optional amount.
pub open spec fn amount_view(amount: Option<u128>) -> Option<nat> {
    match amount {
        Some(a) => Some(a as nat),
        None => None,
    }
}

impl View for SaleOutToken {
    type V = OutTokenView;

    open spec fn view(&self) -> OutTokenView {
        OutTokenView {
            token_account_id: self.token_account_id@,
            remaining: self.remaining as nat,
            distributed: self.distributed as nat,
            treasury_unclaimed: amount_view(self.treasury_unclaimed),
            per_share: limbs_value(self.per_share),
            referral_bpt: match self.referral_bpt {
                Some(b) => Some(b as nat),
                None => None,
            },
        }
    }
}

/// The pools of a vector as mathematical values.
pub open spec fn pools_view(pools: Seq<SaleOutToken>) -> Seq<OutTokenView> {
    pools.map_values(|o: SaleOutToken| o@)
}

impl View for Sale {
    type V = SaleView;

    open spec fn view(&self) -> SaleView {
        SaleView {
            owner_id: self.owner_id@,
            title: self.title@,
            url: text_view(self.url),
            permissions_contract_id: text_view(self.permissions_contract_id),
            out_tokens: pools_view(self.out_tokens@),
            in_token_account_id: self.in_token_account_id@,
            in_token_remaining: self.in_token_remaining as nat,
            in_token_paid_unclaimed: self.in_token_paid_unclaimed as nat,
            in_token_paid: self.in_token_paid as nat,
            start_time: self.start_time as nat,
            duration: self.duration as nat,
            total_shares: self.total_shares as nat,
            last_timestamp: self.last_timestamp as nat,
            start_block_height: self.start_block_height as nat,
            end_block_height: match self.end_block_height {
                Some(h) => Some(h as nat),
                None => None,
            },
        }
    }
}

/// One out-token of a sale to be created.
#[derive(Debug)]
pub struct SaleInputOutToken {
    pub token_account_id: String,
    pub balance: u128,
    pub referral_bpt: Option<BasicPoints>,
}

/// A sale to be created.
#[derive(Debug)]
pub struct SaleInput {
    pub title: String,
    pub url: Option<String>,
    pub permissions_contract_id: Option<String>,
    pub out_tokens: Vec<SaleInputOutToken>,
    pub in_token_account_id: String,
    pub start_time: u64,
    pub duration: u64,
}

/// The mathematical value of one out-token of a sale to be created.
pub ghost struct SaleInputOutTokenView {
    pub token_account_id: Seq<char>,
    pub balance: nat,
    pub referral_bpt: Option<nat>,
}

/// The mathematical value of a sale to be created.
pub ghost struct SaleInputView {
    pub title: Seq<char>,
    pub url: Option<Seq<char>>,
    pub permissions_contract_id: Option<Seq<char>>,
    pub out_tokens: Seq<SaleInputOutTokenView>,
    pub in_token_account_id: Seq<char>,
    pub start_time: nat,
    pub duration: nat,
}

impl View for SaleInputOutToken {
    type V = SaleInputOutTokenView;

    open spec fn view(&self) -> SaleInputOutTokenView {
        SaleInputOutTokenView {
            token_account_id: self.token_account_id@,
            balance: self.balance as nat,
            referral_bpt: match self.referral_bpt {
                Some(b) => Some(b as nat),
                None => None,
            },
        }
    }
}

impl View for SaleInput {
    type V = SaleInputView;

    open spec fn view(&self) -> SaleInputView {
        SaleInputView {
            title: self.title@,
            url: text_view(self.url),
            permissions_contract_id: text_view(self.permissions_contract_id),
            out_tokens: self.out_tokens@.map_values(|o: SaleInputOutToken| o@),
            in_token_account_id: self.in_token_account_id@,
            start_time: self.start_time as nat,
            duration: self.duration as nat,
        }
    }
}

impl SaleInputOutTokenView {
    /// The pool that the input asks for: everything remains, and the
    /// treasury takes a fee of every token but the protocol token.
    pub open spec fn pool(self, skyward_token_id: Seq<char>) -> OutTokenView {
        OutTokenView {
            token_account_id: self.token_account_id,
            remaining: self.balance,
            distributed: 0,
            treasury_unclaimed: if self.token_account_id == skyward_token_id {
                None
            } else {
                Some(0nat)
            },
            per_share: 0,
            referral_bpt: self.referral_bpt,
        }
    }
}

impl SaleInputView {
    /// The sale that the input asks for, as `owner_id` creates it in a block
    /// of height `block_height`: nothing pledged, no shares, last touched at
    /// its start.
    pub open spec fn sale(
        self,
        owner_id: Seq<char>,
        skyward_token_id: Seq<char>,
        block_height: nat,
    ) -> SaleView {
        SaleView {
            owner_id,
            title: self.title,
            url: self.url,
            permissions_contract_id: self.permissions_contract_id,
            out_tokens: self.out_tokens.map_values(
                |o: SaleInputOutTokenView| o.pool(skyward_token_id),
            ),
            in_token_account_id: self.in_token_account_id,
            in_token_remaining: 0,
            in_token_paid_unclaimed: 0,
            in_token_paid: 0,
            start_time: self.start_time,
            duration: self.duration,
            total_shares: 0,
            last_timestamp: self.start_time,
            start_block_height: block_height,
            end_block_height: None,
        }
    }
}

impl SaleView {
    /// No out-token is offered twice.
    pub open spec fn distinct_out_tokens(self) -> bool {
        forall|i: int, j: int|
            0 <= i < j < self.out_tokens.len() ==> (#[trigger] self.out_tokens[i]).token_account_id
                != (#[trigger] self.out_tokens[j]).token_account_id
    }

    /// Some out-token is the in-token.
    pub open spec fn offers_in_token(self) -> bool {
        exists|i: int|
            0 <= i < self.out_tokens.len() && (#[trigger] self.out_tokens[i]).token_account_id
                == self.in_token_account_id
    }

    /// Some out-token is offered with nothing.
    pub open spec fn offers_nothing(self) -> bool {
        exists|i: int| 0 <= i < self.out_tokens.len() && (#[trigger] self.out_tokens[i]).remaining == 0
    }

    /// Some referral fee exceeds the maximum.
    pub open spec fn excessive_referral(self) -> bool {
        exists|i: int|
            0 <= i < self.out_tokens.len() && match (#[trigger] self.out_tokens[i]).referral_bpt {
                Some(bpt) => bpt > MAX_REFERRAL_BPT,
                None => false,
            }
    }

    /// The first rule that a sale which has not started breaks, if any, for
    /// the engine `engine_id` at time `now`. The rules, in order: a third
    /// party gives a week's notice; the start is less than a year away; the
    /// duration is within its bounds; at most four out-tokens, all distinct
    /// and none the in-token; title and URL within their lengths; something
    /// of each out-token; no referral fee above the maximum.
    pub open spec fn validation_error(self, engine_id: Seq<char>, now: nat) -> Option<Error> {
        if !(self.owner_id == engine_id || self.start_time >= now + MIN_DURATION_BEFORE_START) {
            Some(Error::StartsTooSoon)
        } else if !(self.start_time < now + MAX_DURATION_BEFORE_START) {
            Some(Error::MaxDurationToStart)
        } else if self.duration > MAX_DURATION {
            Some(Error::MaxDuration)
        } else if self.duration < MIN_DURATION {
            Some(Error::MinDuration)
        } else if self.out_tokens.len() > MAX_NUM_OUT_TOKENS {
            Some(Error::MaxNumOutTokens)
        } else if !self.distinct_out_tokens() {
            Some(Error::NonUniqueOutTokens)
        } else if self.offers_in_token() {
            Some(Error::SameTokens)
        } else if byte_len(self.title) > MAX_TITLE_LENGTH {
            Some(Error::TooLongTitle)
        } else if self.url is Some && byte_len(self.url.unwrap()) > MAX_URL_LENGTH {
            Some(Error::TooLongUrl)
        } else if self.offers_nothing() {
            Some(Error::ZeroOutAmount)
        } else if self.excessive_referral() {
            Some(Error::MaxReferralBpt)
        } else {
            None
        }
    }
}

/// A sale that passes validation as it comes from its input is well formed.
pub proof fn lemma_valid_input_wf(
    input: SaleInputView,
    owner_id: Seq<char>,
    skyward_token_id: Seq<char>,
    block_height: nat,
    engine_id: Seq<char>,
    now: nat,
)
    requires
        input.sale(owner_id, skyward_token_id, block_height).validation_error(engine_id, now)
            is None,
        forall|i: int|
            0 <= i < input.out_tokens.len() ==> (#[trigger] input.out_tokens[i]).balance
                <= u128::MAX,
    ensures
        input.sale(owner_id, skyward_token_id, block_height).wf(),
{
    let sale = input.sale(owner_id, skyward_token_id, block_height);
    assert forall|i: int| 0 <= i < sale.out_tokens.len() implies (#[trigger] sale.out_tokens[i]).wf() by {
        assert(input.out_tokens[i].balance <= u128::MAX);
        assert(0 * MULTIPLIER == 0);
        if sale.out_tokens[i].referral_bpt is Some {
            assert(!sale.excessive_referral());
        }
    }
}

/// A sale as it comes from its input has been touched at its start and has
/// neither shares nor proceeds.
pub proof fn lemma_new_sale_is_untouched(
    input: SaleInputView,
    owner_id: Seq<char>,
    skyward_token_id: Seq<char>,
    block_height: nat,
)
    ensures
        ({
            let sale = input.sale(owner_id, skyward_token_id, block_height);
            &&& sale.total_shares == 0
            &&& sale.in_token_paid_unclaimed == 0
            &&& sale.last_timestamp == sale.start_time
            &&& sale.end_time() == input.start_time + input.duration
            &&& sale.out_tokens.len() == input.out_tokens.len()
            &&& forall|i: int|
                0 <= i < input.out_tokens.len() ==> (#[trigger] sale.out_tokens[i]).remaining
                    == input.out_tokens[i].balance && sale.out_tokens[i].distributed == 0 && (
                sale.out_tokens[i].treasury_unclaimed is Some
                    ==> sale.out_tokens[i].treasury_unclaimed.unwrap() == 0)
        }),
{
}

/// Streaming keeps a pool well formed and conserves what was put up.
pub proof fn lemma_stream_wf(o: OutTokenView, delta: nat, span: nat, total_shares: nat)
    requires
        o.wf(),
        0 < delta <= span,
        0 < total_shares,
    ensures
        o.stream(delta, span, total_shares).wf(),
        o.streamed(delta, span) <= o.remaining,
        o.stream_fee(delta, span) <= o.streamed(delta, span),
        o.stream(delta, span, total_shares).remaining + o.stream(
            delta,
            span,
            total_shares,
        ).distributed == o.remaining + o.distributed,
        o.stream(delta, span, total_shares).per_share >= o.per_share,
        o.stream(delta, span, total_shares).distributed >= o.distributed,
{
    let amount = o.streamed(delta, span);
    let fee = o.stream_fee(delta, span);
    lemma_mul_div_floor_le(o.remaining, delta, span);
    let net = (amount - fee) as nat;
    lemma_mul_div_floor_le_product(net, MULTIPLIER as nat, total_shares);
    assert(net * MULTIPLIER <= amount * MULTIPLIER) by (nonlinear_arith)
        requires
            net <= amount,
    ;
    assert((o.distributed + amount) * MULTIPLIER == o.distributed * MULTIPLIER + amount
        * MULTIPLIER) by (nonlinear_arith);
}

impl SaleOutToken {
    /// Pays out of this pool for `delta` of the `span` that was left, with
    /// `total_shares` shares subscribed.
    pub fn stream(&mut self, delta: u128, span: u128, total_shares: u128)
        requires
            old(self)@.wf(),
            0 < delta <= span,
            0 < total_shares,
        ensures
            final(self)@ == old(self)@.stream(delta as nat, span as nat, total_shares as nat),
            final(self)@.wf(),
    {
        proof {
            lemma_stream_wf(self@, delta as nat, span as nat, total_shares as nat);
        }
        let amount = mul_div_floor(self.remaining, delta, span).unwrap();
        if amount > 0 {
            self.distributed = self.distributed + amount;
            self.remaining = self.remaining - amount;
            let mut net = amount;
            if let Some(unclaimed) = self.treasury_unclaimed {
                let fee = amount / TREASURY_FEE_DENOMINATOR;
                self.treasury_unclaimed = Some(unclaimed + fee);
                net = amount - fee;
            }
            proof {
                lemma_product_is_wide(self.distributed as nat, MULTIPLIER as nat);
                assert((net as nat) * (MULTIPLIER as nat) <= (amount as nat) * (MULTIPLIER as nat))
                    by (nonlinear_arith)
                    requires
                        net <= amount,
                ;
                let before = old(self).distributed as nat;
                assert((before + amount) * MULTIPLIER == before * MULTIPLIER + amount * MULTIPLIER)
                    by (nonlinear_arith);
            }
            self.per_share = wide_add_mul_div(self.per_share, net, MULTIPLIER, total_shares);
        }
    }
}

/// Streams every pool of a sale.
fn stream_all(tokens: &mut Vec<SaleOutToken>, delta: u128, span: u128, total_shares: u128)
    requires
        forall|i: int| 0 <= i < old(tokens).len() ==> (#[trigger] old(tokens)[i])@.wf(),
        0 < delta <= span,
        0 < total_shares,
    ensures
        final(tokens).len() == old(tokens).len(),
        forall|i: int|
            0 <= i < old(tokens).len() ==> (#[trigger] final(tokens)[i])@ == old(tokens)[i]@.stream(
                delta as nat,
                span as nat,
                total_shares as nat,
            ),
        forall|i: int| 0 <= i < final(tokens).len() ==> (#[trigger] final(tokens)[i])@.wf(),
{
    let n = tokens.len();
    let mut i: usize = 0;
    while i < n
        invariant
            i <= n,
            tokens.len() == n,
            n == old(tokens).len(),
            0 < delta <= span,
            0 < total_shares,
            forall|j: int|
                0 <= j < i ==> (#[trigger] tokens[j])@ == old(tokens)[j]@.stream(
                    delta as nat,
                    span as nat,
                    total_shares as nat,
                ),
            forall|j: int| i <= j < n ==> (#[trigger] tokens[j]) == old(tokens)[j],
            forall|j: int| 0 <= j < n ==> (#[trigger] tokens[j])@.wf(),
        decreases n - i,
    {
        tokens[i].stream(delta, span, total_shares);
        i += 1;
    }
}

impl SaleOutToken {
    /// Whether this pool is well formed.
    pub fn is_wf(&self) -> (r: bool)
        ensures
            r == self@.wf(),
    {
        if self.remaining > u128::MAX - self.distributed {
            return false;
        }
        if !wide_le(self.per_share, wide_product(self.distributed, MULTIPLIER)) {
            return false;
        }
        if let Some(unclaimed) = self.treasury_unclaimed {
            if unclaimed > self.distributed {
                return false;
            }
        }
        if let Some(bpt) = self.referral_bpt {
            if bpt as u128 > REFERRAL_FEE_DENOMINATOR {
                return false;
            }
        }
        true
    }

    /// The pool that `token` asks for: everything remains, and the treasury
    /// takes a fee of every token but the protocol token.
    pub fn from_input(token: SaleInputOutToken, skyward_token_id: &String) -> (r: Self)
        ensures
            r@ == token@.pool(skyward_token_id@),
    {
        let is_skyward_token = token.token_account_id == *skyward_token_id;
        let r = SaleOutToken {
            token_account_id: token.token_account_id,
            remaining: token.balance,
            distributed: 0,
            treasury_unclaimed: if is_skyward_token {
                None
            } else {
                Some(0)
            },
            per_share: [0, 0, 0, 0],
            referral_bpt: token.referral_bpt,
        };
        proof {
            let l = r.per_share;
            assert(l[0] == 0 && l[1] == 0 && l[2] == 0 && l[3] == 0);
            assert(limbs_value(l) == 0) by (nonlinear_arith)
                requires
                    limbs_value(l) == 0nat + limb_base() * (0nat + limb_base() * (0nat + limb_base()
                        * 0nat)),
            ;
        }
        r
    }

    /// A copy of this pool.
    pub fn duplicate(&self) -> (r: Self)
        ensures
            r@ == self@,
    {
        SaleOutToken {
            token_account_id: self.token_account_id.clone(),
            remaining: self.remaining,
            distributed: self.distributed,
            treasury_unclaimed: self.treasury_unclaimed,
            per_share: self.per_share,
            referral_bpt: self.referral_bpt,
        }
    }
}

impl Sale {
    /// Whether this sale is well formed.
    pub fn is_wf(&self) -> (r: bool)
        ensures
            r == self@.wf(),
    {
        let mut i: usize = 0;
        while i < self.out_tokens.len()
            invariant
                i <= self.out_tokens.len(),
                forall|j: int| 0 <= j < i ==> (#[trigger] self@.out_tokens[j]).wf(),
            decreases self.out_tokens.len() - i,
        {
            if !self.out_tokens[i].is_wf() {
                assert(!self@.out_tokens[i as int].wf());
                return false;
            }
            assert(self@.out_tokens[i as int].wf());
            i += 1;
        }
        self.in_token_paid <= u128::MAX - self.in_token_remaining && self.in_token_paid_unclaimed
            <= self.in_token_paid && self.in_token_remaining <= self.total_shares
            && self.start_time <= self.last_timestamp && self.last_timestamp as u128
            <= self.start_time as u128 + self.duration as u128
    }

    /// The sale that `sale` asks for, as `owner_id` creates it in a block of
    /// height `block_height`.
    pub fn from_input(
        sale: SaleInput,
        owner_id: String,
        skyward_token_id: &String,
        block_height: u64,
    ) -> (r: Self)
        ensures
            r@ == sale@.sale(owner_id@, skyward_token_id@, block_height as nat),
    {
        let mut out_tokens: Vec<SaleOutToken> = Vec::new();
        let mut i: usize = 0;
        while i < sale.out_tokens.len()
            invariant
                i <= sale.out_tokens.len(),
                out_tokens.len() == i,
                forall|j: int|
                    0 <= j < i ==> (#[trigger] out_tokens[j])@ == sale@.out_tokens[j].pool(
                        skyward_token_id@,
                    ),
            decreases sale.out_tokens.len() - i,
        {
            let token = &sale.out_tokens[i];
            assert(sale@.out_tokens[i as int] == token@);
            out_tokens.push(
                SaleOutToken::from_input(
                    SaleInputOutToken {
                        token_account_id: token.token_account_id.clone(),
                        balance: token.balance,
                        referral_bpt: token.referral_bpt,
                    },
                    skyward_token_id,
                ),
            );
            i += 1;
        }
        let r = Sale {
            owner_id,
            title: sale.title,
            url: sale.url,
            permissions_contract_id: sale.permissions_contract_id,
            out_tokens,
            in_token_account_id: sale.in_token_account_id,
            in_token_remaining: 0,
            in_token_paid_unclaimed: 0,
            in_token_paid: 0,
            start_time: sale.start_time,
            duration: sale.duration,
            total_shares: 0,
            last_timestamp: sale.start_time,
            start_block_height: block_height,
            end_block_height: None,
        };
        proof {
            assert(r@.out_tokens =~= sale@.sale(
                owner_id@,
                skyward_token_id@,
                block_height as nat,
            ).out_tokens);
        }
        r
    }

    /// A copy of this sale.
    pub fn duplicate(&self) -> (r: Self)
        ensures
            r@ == self@,
    {
        let mut out_tokens: Vec<SaleOutToken> = Vec::new();
        let mut i: usize = 0;
        while i < self.out_tokens.len()
            invariant
                i <= self.out_tokens.len(),
                out_tokens.len() == i,
                forall|j: int| 0 <= j < i ==> (#[trigger] out_tokens[j])@ == self.out_tokens[j]@,
            decreases self.out_tokens.len() - i,
        {
            out_tokens.push(self.out_tokens[i].duplicate());
            i += 1;
        }
        let r = Sale {
            owner_id: self.owner_id.clone(),
            title: self.title.clone(),
            url: copy_text(&self.url),
            permissions_contract_id: copy_text(&self.permissions_contract_id),
            out_tokens,
            in_token_account_id: self.in_token_account_id.clone(),
            in_token_remaining: self.in_token_remaining,
            in_token_paid_unclaimed: self.in_token_paid_unclaimed,
            in_token_paid: self.in_token_paid,
            start_time: self.start_time,
            duration: self.duration,
            total_shares: self.total_shares,
            last_timestamp: self.last_timestamp,
            start_block_height: self.start_block_height,
            end_block_height: self.end_block_height,
        };
        assert(r@.out_tokens =~= self@.out_tokens);
        r
    }

    /// Whether some out-token is offered twice.
    fn repeats_out_token(&self) -> (r: bool)
        ensures
            r == !self@.distinct_out_tokens(),
    {
        let n = self.out_tokens.len();
        let mut j: usize = 0;
        while j < n
            invariant
                j <= n,
                n == self.out_tokens.len(),
                forall|a: int, b: int|
                    0 <= a < b < j ==> (#[trigger] self@.out_tokens[a]).token_account_id != (
                    #[trigger] self@.out_tokens[b]).token_account_id,
            decreases n - j,
        {
            let mut i: usize = 0;
            while i < j
                invariant
                    i <= j < n,
                    n == self.out_tokens.len(),
                    forall|a: int|
                        0 <= a < i ==> (#[trigger] self@.out_tokens[a]).token_account_id
                            != self@.out_tokens[j as int].token_account_id,
                decreases j - i,
            {
                if self.out_tokens[i].token_account_id == self.out_tokens[j].token_account_id {
                    proof {
                        assert(self@.out_tokens[i as int].token_account_id
                            == self@.out_tokens[j as int].token_account_id);
                    }
                    return true;
                }
                i += 1;
            }
            j += 1;
        }
        false
    }

    /// Whether some out-token is the in-token.
    fn finds_in_token(&self) -> (r: bool)
        ensures
            r == self@.offers_in_token(),
    {
        let mut i: usize = 0;
        while i < self.out_tokens.len()
            invariant
                i <= self.out_tokens.len(),
                forall|a: int|
                    0 <= a < i ==> (#[trigger] self@.out_tokens[a]).token_account_id
                        != self@.in_token_account_id,
            decreases self.out_tokens.len() - i,
        {
            if self.out_tokens[i].token_account_id == self.in_token_account_id {
                proof {
                    assert(self@.out_tokens[i as int].token_account_id
                        == self@.in_token_account_id);
                }
                return true;
            }
            i += 1;
        }
        false
    }

    /// Whether some out-token is offered with nothing.
    fn finds_empty_pool(&self) -> (r: bool)
        ensures
            r == self@.offers_nothing(),
    {
        let mut i: usize = 0;
        while i < self.out_tokens.len()
            invariant
                i <= self.out_tokens.len(),
                forall|a: int| 0 <= a < i ==> (#[trigger] self@.out_tokens[a]).remaining != 0,
            decreases self.out_tokens.len() - i,
        {
            if self.out_tokens[i].remaining == 0 {
                proof {
                    assert(self@.out_tokens[i as int].remaining == 0);
                }
                return true;
            }
            i += 1;
        }
        false
    }

    /// Whether some referral fee exceeds the maximum.
    fn finds_excessive_referral(&self) -> (r: bool)
        ensures
            r == self@.excessive_referral(),
    {
        let mut i: usize = 0;
        while i < self.out_tokens.len()
            invariant
                i <= self.out_tokens.len(),
                forall|a: int|
                    0 <= a < i ==> match (#[trigger] self@.out_tokens[a]).referral_bpt {
                        Some(bpt) => bpt <= MAX_REFERRAL_BPT,
                        None => true,
                    },
            decreases self.out_tokens.len() - i,
        {
            if let Some(bpt) = self.out_tokens[i].referral_bpt {
                if bpt > MAX_REFERRAL_BPT {
                    proof {
                        assert(self@.out_tokens[i as int].referral_bpt == Some(bpt as nat));
                    }
                    return true;
                }
            }
            assert(match self@.out_tokens[i as int].referral_bpt {
                Some(bpt) => bpt <= MAX_REFERRAL_BPT,
                None => true,
            });
            i += 1;
        }
        false
    }

    /// Holds a sale that has not started to the rules of creation, for the
    /// engine `current_account_id` at time `now`, and names the first rule
    /// that it breaks.
    pub fn assert_valid_not_started(&self, current_account_id: &String, now: u64) -> (r: Result<
        (),
        Error,
    >)
        ensures
            r == (match self@.validation_error(current_account_id@, now as nat) {
                Some(e) => Err::<(), Error>(e),
                None => Ok::<(), Error>(()),
            }),
    {
        let start_time = self.start_time as u128;
        if !(self.owner_id == *current_account_id || start_time >= now as u128
            + MIN_DURATION_BEFORE_START as u128) {
            return Err(Error::StartsTooSoon);
        }
        if !(start_time < now as u128 + MAX_DURATION_BEFORE_START as u128) {
            return Err(Error::MaxDurationToStart);
        }
        if self.duration > MAX_DURATION {
            return Err(Error::MaxDuration);
        }
        if self.duration < MIN_DURATION {
            return Err(Error::MinDuration);
        }
        if self.out_tokens.len() > MAX_NUM_OUT_TOKENS {
            return Err(Error::MaxNumOutTokens);
        }
        if self.repeats_out_token() {
            return Err(Error::NonUniqueOutTokens);
        }
        if self.finds_in_token() {
            return Err(Error::SameTokens);
        }
        if self.title.as_str().as_bytes().len() > MAX_TITLE_LENGTH {
            return Err(Error::TooLongTitle);
        }
        let long_url = match &self.url {
            Some(url) => {
                assert(self@.url == Some(url@));
                url.as_str().as_bytes().len() > MAX_URL_LENGTH
            },
            None => false,
        };
        assert(long_url == (self@.url is Some && byte_len(self@.url.unwrap()) > MAX_URL_LENGTH));
        if long_url {
            return Err(Error::TooLongUrl);
        }
        if self.finds_empty_pool() {
            return Err(Error::ZeroOutAmount);
        }
        if self.finds_excessive_referral() {
            return Err(Error::MaxReferralBpt);
        }
        Ok(())
    }

    /// Advances the sale to `now`: pays out of every pool and of the pledged
    /// in-tokens for the time that has passed since the last touch, and
    /// records `block_height` when the end is reached.
    pub fn touch(&mut self, now: u64, block_height: u64)
        requires
            old(self)@.wf(),
        ensures
            final(self)@ == old(self)@.touch(now as nat, block_height as nat),
            final(self)@.wf(),
    {
        let end_time: u128 = self.start_time as u128 + self.duration as u128;
        let timestamp: u64 = if (now as u128) < end_time {
            now
        } else {
            end_time as u64
        };
        if timestamp <= self.last_timestamp {
            return ;
        }
        if self.last_timestamp as u128 >= end_time {
            return ;
        }
        if timestamp as u128 >= end_time {
            self.end_block_height = Some(block_height);
        }
        if self.total_shares == 0 {
            self.last_timestamp = timestamp;
            return ;
        }
        let delta: u128 = (timestamp - self.last_timestamp) as u128;
        let span: u128 = end_time - self.last_timestamp as u128;
        proof {
            assert forall|i: int| 0 <= i < self.out_tokens.len() implies (
            #[trigger] self.out_tokens[i])@.wf() by {
                assert(self@.out_tokens[i].wf());
            }
        }
        stream_all(&mut self.out_tokens, delta, span, self.total_shares);
        proof {
            lemma_mul_div_floor_le(self.in_token_remaining as nat, delta as nat, span as nat);
        }
        let in_amount = mul_div_floor(self.in_token_remaining, delta, span).unwrap();
        self.in_token_paid_unclaimed = self.in_token_paid_unclaimed + in_amount;
        self.in_token_paid = self.in_token_paid + in_amount;
        self.in_token_remaining = self.in_token_remaining - in_amount;
        self.last_timestamp = timestamp;
        proof {
            assert(self@.out_tokens =~= old(self)@.touch(
                now as nat,
                block_height as nat,
            ).out_tokens);
            assert forall|i: int| 0 <= i < self@.out_tokens.len() implies (
            #[trigger] self@.out_tokens[i]).wf() by {
                assert(self.out_tokens[i]@.wf());
            }
        }
    }

    /// Whether the sale has been touched at or after its end.
    pub fn has_ended(&self) -> (r: bool)
        ensures
            r == self@.has_ended(),
    {
        self.last_timestamp as u128 >= self.start_time as u128 + self.duration as u128
    }

    /// The in-tokens that `shares` shares still stand for.
    pub fn shares_to_in_balance(&self, shares: u128) -> (r: u128)
        requires
            self@.wf(),
        ensures
            r == self@.shares_to_in_balance(shares as nat),
            r <= shares,
            shares <= self.total_shares ==> r <= self.in_token_remaining,
    {
        if shares == 0 || self.total_shares == 0 {
            return 0;
        }
        proof {
            let rem = self.in_token_remaining as nat;
            let total = self.total_shares as nat;
            lemma_mul_div_floor_le(shares as nat, rem, total);
            assert(rem * (shares as nat) == (shares as nat) * rem) by (nonlinear_arith);
            if shares <= self.total_shares {
                lemma_mul_div_floor_le(rem, shares as nat, total);
            }
        }
        mul_div_floor(self.in_token_remaining, shares, self.total_shares).unwrap()
    }

    /// The shares that `in_amount` in-tokens are worth, rounded down for a
    /// deposit and up (`round_up`) for a withdrawal.
    pub fn in_amount_to_shares(&self, in_amount: u128, round_up: bool) -> (r: Result<u128, Error>)
        ensures
            match r {
                Ok(shares) => self@.in_amount_to_shares(in_amount as nat, round_up) == Ok::<
                    nat,
                    Error,
                >(shares as nat),
                Err(e) => self@.in_amount_to_shares(in_amount as nat, round_up) == Err::<
                    nat,
                    Error,
                >(e),
            },
    {
        if self.total_shares == 0 {
            return Ok(in_amount);
        }
        if self.in_token_remaining == 0 || self.has_ended() {
            return Err(Error::SaleEnded);
        }
        if round_up {
            match mul_div_ceil(in_amount, self.total_shares, self.in_token_remaining) {
                Some(shares) => Ok(shares),
                None => Err(Error::SharesOverflow),
            }
        } else {
            match mul_div_floor(in_amount, self.total_shares, self.in_token_remaining) {
                Some(shares) => {
                    if shares > u128::MAX - self.total_shares {
                        Err(Error::SharesOverflow)
                    } else {
                        Ok(shares)
                    }
                },
                None => Err(Error::SharesOverflow),
            }
        }
    }
}

} // verus!
