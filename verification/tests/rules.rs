use skyward::errors::Error;
use skyward::sale::{
    Sale, SaleInput, SaleInputOutToken, MAX_DURATION, MAX_DURATION_BEFORE_START,
    MIN_DURATION_BEFORE_START,
};
use skyward::{Contract, FtOnTransferArgs};

const NOW: u64 = 1_600_000_000_000_000_000;

fn id(name: &str) -> String {
    name.to_string()
}

fn engine() -> String {
    id("skyward.near")
}

fn out(token: &str, balance: u128, referral_bpt: Option<u16>) -> SaleInputOutToken {
    SaleInputOutToken { token_account_id: id(token), balance, referral_bpt }
}

fn valid_input() -> SaleInput {
    SaleInput {
        title: id("title"),
        url: None,
        permissions_contract_id: None,
        out_tokens: vec![out("token1.near", 100, Some(500))],
        in_token_account_id: id("wrap.near"),
        start_time: NOW + MIN_DURATION_BEFORE_START,
        duration: 1000,
    }
}

fn check(input: SaleInput, owner: &str) -> Result<(), Error> {
    let sale = Sale::from_input(input, id(owner), &id("token.skyward.near"), 5);
    sale.assert_valid_not_started(&engine(), NOW)
}

#[test]
fn valid_sale_passes() {
    assert_eq!(check(valid_input(), "alice.near"), Ok(()));
}

#[test]
fn from_input_starts_untouched() {
    let sale = Sale::from_input(valid_input(), id("alice.near"), &id("token1.near"), 5);
    assert_eq!(sale.owner_id, "alice.near");
    assert_eq!(sale.last_timestamp, sale.start_time);
    assert_eq!(sale.start_block_height, 5);
    assert_eq!(sale.end_block_height, None);
    assert_eq!(sale.total_shares, 0);
    assert_eq!(sale.in_token_remaining, 0);
    assert_eq!(sale.in_token_paid, 0);
    assert_eq!(sale.in_token_paid_unclaimed, 0);
    assert_eq!(sale.out_tokens.len(), 1);
    assert_eq!(sale.out_tokens[0].remaining, 100);
    assert_eq!(sale.out_tokens[0].distributed, 0);
    assert_eq!(sale.out_tokens[0].per_share, [0, 0, 0, 0]);
    assert_eq!(sale.out_tokens[0].referral_bpt, Some(500));
    // The protocol token pays no treasury fee.
    assert_eq!(sale.out_tokens[0].treasury_unclaimed, None);
    let other = Sale::from_input(valid_input(), id("alice.near"), &id("token.skyward.near"), 5);
    assert_eq!(other.out_tokens[0].treasury_unclaimed, Some(0));
    assert!(!other.has_ended());
}

#[test]
fn from_input_keeps_the_order_of_the_pools() {
    let mut input = valid_input();
    input.out_tokens = vec![out("a.near", 1, None), out("b.near", 2, None), out("c.near", 3, None)];
    let sale = Sale::from_input(input, id("alice.near"), &id("token.skyward.near"), 5);
    let tokens: Vec<(String, u128)> =
        sale.out_tokens.iter().map(|o| (o.token_account_id.clone(), o.remaining)).collect();
    assert_eq!(tokens, vec![(id("a.near"), 1), (id("b.near"), 2), (id("c.near"), 3)]);
}

#[test]
fn third_party_gives_a_weeks_notice() {
    let mut input = valid_input();
    input.start_time = NOW + MIN_DURATION_BEFORE_START - 1;
    assert_eq!(check(input, "alice.near"), Err(Error::StartsTooSoon));
    let mut input = valid_input();
    input.start_time = NOW;
    assert_eq!(check(input, "skyward.near"), Ok(()));
}

#[test]
fn start_is_less_than_a_year_away() {
    let mut input = valid_input();
    input.start_time = NOW + MAX_DURATION_BEFORE_START;
    assert_eq!(check(input, "alice.near"), Err(Error::MaxDurationToStart));
    let mut input = valid_input();
    input.start_time = NOW + MAX_DURATION_BEFORE_START - 1;
    assert_eq!(check(input, "alice.near"), Ok(()));
}

#[test]
fn duration_is_bounded() {
    let mut input = valid_input();
    input.duration = MAX_DURATION + 1;
    assert_eq!(check(input, "alice.near"), Err(Error::MaxDuration));
    let mut input = valid_input();
    input.duration = MAX_DURATION;
    assert_eq!(check(input, "alice.near"), Ok(()));
    let mut input = valid_input();
    input.duration = 0;
    assert_eq!(check(input, "alice.near"), Err(Error::MinDuration));
    let mut input = valid_input();
    input.duration = 1;
    assert_eq!(check(input, "alice.near"), Ok(()));
}

#[test]
fn at_most_four_out_tokens() {
    let mut input = valid_input();
    input.out_tokens = vec![
        out("a.near", 1, None),
        out("b.near", 1, None),
        out("c.near", 1, None),
        out("d.near", 1, None),
    ];
    assert_eq!(check(input, "alice.near"), Ok(()));
    let mut input = valid_input();
    input.out_tokens = vec![
        out("a.near", 1, None),
        out("b.near", 1, None),
        out("c.near", 1, None),
        out("d.near", 1, None),
        out("e.near", 1, None),
    ];
    assert_eq!(check(input, "alice.near"), Err(Error::MaxNumOutTokens));
}

#[test]
fn out_tokens_are_distinct() {
    let mut input = valid_input();
    input.out_tokens = vec![out("a.near", 1, None), out("b.near", 1, None), out("a.near", 1, None)];
    assert_eq!(check(input, "alice.near"), Err(Error::NonUniqueOutTokens));
}

#[test]
fn out_token_is_not_the_in_token() {
    let mut input = valid_input();
    input.out_tokens = vec![out("a.near", 1, None), out("wrap.near", 1, None)];
    assert_eq!(check(input, "alice.near"), Err(Error::SameTokens));
}

#[test]
fn title_and_url_are_bounded() {
    let mut input = valid_input();
    input.title = "t".repeat(251);
    assert_eq!(check(input, "alice.near"), Err(Error::TooLongTitle));
    let mut input = valid_input();
    input.title = "t".repeat(250);
    input.url = Some("u".repeat(250));
    assert_eq!(check(input, "alice.near"), Ok(()));
    let mut input = valid_input();
    input.url = Some("u".repeat(251));
    assert_eq!(check(input, "alice.near"), Err(Error::TooLongUrl));
    // Lengths are counted in bytes.
    let mut input = valid_input();
    input.title = "é".repeat(126);
    assert_eq!(check(input, "alice.near"), Err(Error::TooLongTitle));
}

#[test]
fn every_pool_holds_something() {
    let mut input = valid_input();
    input.out_tokens = vec![out("a.near", 1, None), out("b.near", 0, None)];
    assert_eq!(check(input, "alice.near"), Err(Error::ZeroOutAmount));
}

#[test]
fn referral_fee_is_bounded() {
    let mut input = valid_input();
    input.out_tokens = vec![out("a.near", 1, Some(500)), out("b.near", 1, Some(501))];
    assert_eq!(check(input, "alice.near"), Err(Error::MaxReferralBpt));
}

#[test]
fn the_first_broken_rule_is_named() {
    let mut input = valid_input();
    input.start_time = NOW;
    input.duration = 0;
    assert_eq!(check(input, "alice.near"), Err(Error::StartsTooSoon));
    let mut input = valid_input();
    input.duration = 0;
    input.title = "t".repeat(300);
    assert_eq!(check(input, "alice.near"), Err(Error::MinDuration));
    let mut input = valid_input();
    input.out_tokens = vec![out("a.near", 0, Some(900)), out("a.near", 0, None)];
    input.title = "t".repeat(300);
    assert_eq!(check(input, "alice.near"), Err(Error::NonUniqueOutTokens));
    let mut input = valid_input();
    input.out_tokens = vec![out("wrap.near", 0, Some(900))];
    input.title = "t".repeat(300);
    assert_eq!(check(input, "alice.near"), Err(Error::SameTokens));
    let mut input = valid_input();
    input.out_tokens = vec![out("a.near", 0, Some(900))];
    input.title = "t".repeat(300);
    assert_eq!(check(input, "alice.near"), Err(Error::TooLongTitle));
    let mut input = valid_input();
    input.out_tokens = vec![out("a.near", 0, Some(900))];
    assert_eq!(check(input, "alice.near"), Err(Error::ZeroOutAmount));
}

#[test]
fn sale_create_checks_and_pays_in() {
    let mut contract =
        Contract::new(id("token.skyward.near"), Vec::new(), 10, id("wrap.near"));
    let alice = id("alice.near");
    assert_eq!(
        contract.sale_create(valid_input(), &alice, &engine(), NOW, 1),
        Err(Error::AccountNotFound)
    );
    contract.register_token(None, &alice, id("other.near"), 1).unwrap();
    assert_eq!(
        contract.sale_create(valid_input(), &alice, &engine(), NOW, 1),
        Err(Error::TokenNotRegistered)
    );
    contract.register_token(None, &alice, id("token1.near"), 1).unwrap();
    contract
        .ft_on_transfer(&alice, &id("token1.near"), 99, FtOnTransferArgs::AccountDeposit)
        .unwrap();
    assert_eq!(
        contract.sale_create(valid_input(), &alice, &engine(), NOW, 1),
        Err(Error::NotEnoughBalance)
    );
    let mut bad = valid_input();
    bad.duration = 0;
    assert_eq!(contract.sale_create(bad, &alice, &engine(), NOW, 1), Err(Error::MinDuration));
    assert_eq!(contract.num_sales, 0);
    assert_eq!(contract.balance_of(&alice, &id("wrap.near")), None);

    contract
        .ft_on_transfer(&alice, &id("token1.near"), 1, FtOnTransferArgs::AccountDeposit)
        .unwrap();
    assert_eq!(contract.sale_create(valid_input(), &alice, &engine(), NOW, 1), Ok(0));
    assert_eq!(contract.num_sales, 1);
    assert_eq!(contract.balance_of(&alice, &id("token1.near")), Some(0));
    // The owner has registered the in-token.
    assert_eq!(contract.balance_of(&alice, &id("wrap.near")), Some(0));
    let owned: Vec<u64> = contract
        .get_account_sales(&alice, None, None, NOW, 1)
        .unwrap()
        .iter()
        .map(|s| s.sale_id)
        .collect();
    assert_eq!(owned, vec![0]);
    assert_eq!(contract.listing_fee_for(&alice, &engine()), 10);
    assert_eq!(contract.listing_fee_for(&engine(), &engine()), 0);
}

#[test]
fn unknown_sale() {
    let mut contract =
        Contract::new(id("token.skyward.near"), Vec::new(), 10, id("wrap.near"));
    let alice = id("alice.near");
    contract.register_token(None, &alice, id("wrap.near"), 1).unwrap();
    assert_eq!(
        contract.sale_deposit_in_token(&alice, 0, 1, None, 1, NOW, 1),
        Err(Error::SaleNotFound)
    );
    assert_eq!(contract.sale_claim_out_tokens(&alice, 3, NOW, 1), Err(Error::SaleNotFound));
    assert_eq!(contract.sale_withdraw_in_token(&alice, 3, None, NOW, 1), Err(Error::SaleNotFound));
    assert_eq!(
        contract.sale_withdraw_in_token_exact(&alice, 3, 1, NOW, 1),
        Err(Error::SaleNotFound)
    );
    assert_eq!(
        contract.sale_distribute_unclaimed_tokens(0, &engine(), NOW, 1),
        Err(Error::SaleNotFound)
    );
    assert_eq!(contract.get_sale(0, None, NOW, 1), Ok(None));
    assert_eq!(contract.get_sales(None, None, None, NOW, 1), Ok(vec![]));
    assert_eq!(contract.get_sales_by_id(None, &vec![0, 1], NOW, 1), Ok(vec![]));
}

#[test]
fn deposits_need_a_native_token_attached() {
    let mut contract =
        Contract::new(id("token.skyward.near"), Vec::new(), 10, id("wrap.near"));
    let alice = id("alice.near");
    assert_eq!(
        contract.register_token(None, &alice, id("wrap.near"), 0),
        Err(Error::NeedAtLeastOneYocto)
    );
    assert_eq!(contract.get_num_balances(&alice), 0);
    assert_eq!(
        contract.sale_deposit_in_token(&alice, 0, 1, None, 0, NOW, 1),
        Err(Error::NeedAtLeastOneYocto)
    );
}

#[test]
fn error_messages_are_stable() {
    let expected = [
        (Error::AccountNotFound, "ACCOUNT_NOT_FOUND"),
        (Error::TokenNotRegistered, "TOKEN_NOT_REGISTERED"),
        (Error::SaleNotFound, "SALE_NOT_FOUND"),
        (Error::BalanceOverflow, "BALANCE_OVERFLOW"),
        (Error::NotEnoughBalance, "NOT_ENOUGH_BALANCE"),
        (Error::SharesOverflow, "SHARES_OVERFLOW"),
        (Error::NotEnoughShares, "NOT_ENOUGH_SHARES"),
        (Error::NeedAtLeastOneYocto, "NEED_AT_LEAST_ONE_YOCTO"),
        (Error::NotEnoughAttachedBalance, "NOT_ENOUGH_ATTACHED_BALANCE"),
        (Error::StartsTooSoon, "STARTS_TOO_SOON"),
        (Error::MaxDurationToStart, "MAX_DURATION_TO_START"),
        (Error::MaxDuration, "MAX_DURATION"),
        (Error::MinDuration, "MIN_DURATION"),
        (Error::MaxNumOutTokens, "MAX_NUM_OUT_TOKENS"),
        (Error::TooLongTitle, "TOO_LONG_TITLE"),
        (Error::TooLongUrl, "TOO_LONG_URL"),
        (Error::ZeroOutAmount, "ZERO_OUT_AMOUNT"),
        (Error::SameTokens, "SAME_TOKENS"),
        (Error::NonUniqueOutTokens, "NON_UNIQUE_OUT_TOKENS"),
        (Error::MaxReferralBpt, "MAX_REFERRAL_BPT"),
        (Error::SaleEnded, "SALE_ENDED"),
        (Error::NoPermission, "NO_PERMISSION"),
        (Error::NotApproved, "NOT_APPROVED"),
        (Error::TreasuryCanNotContainSkyward, "TREASURY_CAN_NOT_CONTAIN_SKYWARD"),
        (Error::ZeroSkyward, "ZERO_SKYWARD"),
        (Error::TokenWithdrawFailed, "TOKEN_WITHDRAW_FAILED"),
    ];
    for (error, message) in expected {
        assert_eq!(error.message(), message);
    }
}
