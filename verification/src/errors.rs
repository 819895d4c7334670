//! The error kinds of the engine and their stable user-visible strings.

use vstd::prelude::*;

verus! {

/// Why an operation was refused.
#[derive(Clone, Copy, Debug, PartialEq, Eq, Structural)]
pub enum Error {
    /// The account has never been registered.
    AccountNotFound,
    /// The ledger has no entry for the token.
    TokenNotRegistered,
    /// No sale has this id.
    SaleNotFound,
    /// An amount left the range of 128 bits (or an accumulator that of 256).
    BalanceOverflow,
    /// A debit exceeds the balance it is taken from.
    NotEnoughBalance,
    /// The shares of a sale would leave the range of 128 bits.
    SharesOverflow,
    /// A withdrawal asks for more shares than the subscription holds.
    NotEnoughShares,
    /// The call came without any attached native token.
    NeedAtLeastOneYocto,
    /// The attached native tokens do not cover the cost.
    NotEnoughAttachedBalance,
    /// A third-party sale starts within the minimum lead time.
    StartsTooSoon,
    /// The sale starts too far in the future.
    MaxDurationToStart,
    /// The sale runs longer than allowed.
    MaxDuration,
    /// The sale runs shorter than allowed.
    MinDuration,
    /// The sale offers too many out-tokens.
    MaxNumOutTokens,
    /// The title is too long.
    TooLongTitle,
    /// The URL is too long.
    TooLongUrl,
    /// An out-token is offered with a zero balance.
    ZeroOutAmount,
    /// An out-token is also the in-token.
    SameTokens,
    /// An out-token is offered twice.
    NonUniqueOutTokens,
    /// A referral fee exceeds the maximum.
    MaxReferralBpt,
    /// The sale has ended, or has nothing left to price shares with.
    SaleEnded,
    /// The sale is gated and the account holds no subscription.
    NoPermission,
    /// The permissions contract turned the account down.
    NotApproved,
    /// The treasury never holds the protocol token.
    TreasuryCanNotContainSkyward,
    /// A redemption of nothing, or against no circulating supply.
    ZeroSkyward,
    /// An outgoing token transfer failed and was compensated.
    TokenWithdrawFailed,
}

impl Error {
    /// The stable string of this kind.
    pub open spec fn text(self) -> Seq<char> {
        match self {
            Error::AccountNotFound => "ACCOUNT_NOT_FOUND"@,
            Error::TokenNotRegistered => "TOKEN_NOT_REGISTERED"@,
            Error::SaleNotFound => "SALE_NOT_FOUND"@,
            Error::BalanceOverflow => "BALANCE_OVERFLOW"@,
            Error::NotEnoughBalance => "NOT_ENOUGH_BALANCE"@,
            Error::SharesOverflow => "SHARES_OVERFLOW"@,
            Error::NotEnoughShares => "NOT_ENOUGH_SHARES"@,
            Error::NeedAtLeastOneYocto => "NEED_AT_LEAST_ONE_YOCTO"@,
            Error::NotEnoughAttachedBalance => "NOT_ENOUGH_ATTACHED_BALANCE"@,
            Error::StartsTooSoon => "STARTS_TOO_SOON"@,
            Error::MaxDurationToStart => "MAX_DURATION_TO_START"@,
            Error::MaxDuration => "MAX_DURATION"@,
            Error::MinDuration => "MIN_DURATION"@,
            Error::MaxNumOutTokens => "MAX_NUM_OUT_TOKENS"@,
            Error::TooLongTitle => "TOO_LONG_TITLE"@,
            Error::TooLongUrl => "TOO_LONG_URL"@,
            Error::ZeroOutAmount => "ZERO_OUT_AMOUNT"@,
            Error::SameTokens => "SAME_TOKENS"@,
            Error::NonUniqueOutTokens => "NON_UNIQUE_OUT_TOKENS"@,
            Error::MaxReferralBpt => "MAX_REFERRAL_BPT"@,
            Error::SaleEnded => "SALE_ENDED"@,
            Error::NoPermission => "NO_PERMISSION"@,
            Error::NotApproved => "NOT_APPROVED"@,
            Error::TreasuryCanNotContainSkyward => "TREASURY_CAN_NOT_CONTAIN_SKYWARD"@,
            Error::ZeroSkyward => "ZERO_SKYWARD"@,
            Error::TokenWithdrawFailed => "TOKEN_WITHDRAW_FAILED"@,
        }
    }

    /// The stable string of this kind, as hosts show it to users.
    pub fn message(&self) -> (r: &'static str)
        ensures
            r@ == self.text(),
    {
        match self {
            Error::AccountNotFound => "ACCOUNT_NOT_FOUND",
            Error::TokenNotRegistered => "TOKEN_NOT_REGISTERED",
            Error::SaleNotFound => "SALE_NOT_FOUND",
            Error::BalanceOverflow => "BALANCE_OVERFLOW",
            Error::NotEnoughBalance => "NOT_ENOUGH_BALANCE",
            Error::SharesOverflow => "SHARES_OVERFLOW",
            Error::NotEnoughShares => "NOT_ENOUGH_SHARES",
            Error::NeedAtLeastOneYocto => "NEED_AT_LEAST_ONE_YOCTO",
            Error::NotEnoughAttachedBalance => "NOT_ENOUGH_ATTACHED_BALANCE",
            Error::StartsTooSoon => "STARTS_TOO_SOON",
            Error::MaxDurationToStart => "MAX_DURATION_TO_START",
            Error::MaxDuration => "MAX_DURATION",
            Error::MinDuration => "MIN_DURATION",
            Error::MaxNumOutTokens => "MAX_NUM_OUT_TOKENS",
            Error::TooLongTitle => "TOO_LONG_TITLE",
            Error::TooLongUrl => "TOO_LONG_URL",
            Error::ZeroOutAmount => "ZERO_OUT_AMOUNT",
            Error::SameTokens => "SAME_TOKENS",
            Error::NonUniqueOutTokens => "NON_UNIQUE_OUT_TOKENS",
            Error::MaxReferralBpt => "MAX_REFERRAL_BPT",
            Error::SaleEnded => "SALE_ENDED",
            Error::NoPermission => "NO_PERMISSION",
            Error::NotApproved => "NOT_APPROVED",
            Error::TreasuryCanNotContainSkyward => "TREASURY_CAN_NOT_CONTAIN_SKYWARD",
            Error::ZeroSkyward => "ZERO_SKYWARD",
            Error::TokenWithdrawFailed => "TOKEN_WITHDRAW_FAILED",
        }
    }
}

} // verus!
