use skyward::{Contract, Error, FtOnTransferArgs, SaleInput, SaleInputOutToken, VestingInterval};

const NEAR: u128 = 1_000_000_000_000_000_000_000_000;
const SECOND: u64 = 1_000_000_000;
const WEEK: u64 = 7 * 24 * 60 * 60 * SECOND;
const GENESIS: u64 = 1_600_000_000_000_000_000;
const START: u64 = GENESIS + WEEK;
const DURATION: u64 = 60 * SECOND;

fn id(name: &str) -> String {
    name.to_string()
}

fn engine() -> String {
    id("skyward.near")
}

fn w_near() -> String {
    id("wrap.near")
}

fn skyward_token() -> String {
    id("token.skyward.near")
}

fn token1() -> String {
    id("token1.near")
}

fn token2() -> String {
    id("token2.near")
}

fn alice() -> String {
    id("alice.near")
}

fn bob() -> String {
    id("bob.near")
}

fn carol() -> String {
    id("carol.near")
}

fn kyc() -> String {
    id("kyc.near")
}

fn new_contract() -> Contract {
    Contract::new(skyward_token(), Vec::new(), 10 * NEAR, w_near())
}

fn fund(contract: &mut Contract, user: &String, token: &String, amount: u128) {
    contract.register_token(None, user, token.clone(), 1).unwrap();
    contract.ft_on_transfer(user, token, amount, FtOnTransferArgs::AccountDeposit).unwrap();
}

fn input(out: &[(String, u128, Option<u16>)], in_token: String, duration: u64) -> SaleInput {
    SaleInput {
        title: id("title"),
        url: Some(id("https://example.com")),
        permissions_contract_id: None,
        out_tokens: out
            .iter()
            .map(|(token, balance, referral_bpt)| SaleInputOutToken {
                token_account_id: token.clone(),
                balance: *balance,
                referral_bpt: *referral_bpt,
            })
            .collect(),
        in_token_account_id: in_token,
        start_time: START,
        duration,
    }
}

fn balance(contract: &Contract, user: &String, token: &String) -> u128 {
    contract.balance_of(user, token).unwrap()
}

/// Alice owns a sale of `out` token1 for wrapped native tokens; Bob and Carol hold 10 each.
fn simple_sale(out: u128) -> Contract {
    let mut contract = new_contract();
    fund(&mut contract, &alice(), &token1(), out);
    fund(&mut contract, &bob(), &w_near(), 10);
    fund(&mut contract, &carol(), &w_near(), 10);
    let sale_id = contract
        .sale_create(input(&[(token1(), out, None)], w_near(), DURATION), &alice(), &engine(), GENESIS, 1)
        .unwrap();
    assert_eq!(sale_id, 0);
    contract
}

#[test]
fn solo_bidder_full_duration() {
    let mut contract = simple_sale(3600);
    assert_eq!(contract.sale_deposit_in_token(&bob(), 0, 4, None, 1, START, 2), Ok(None));
    let end = START + DURATION;
    let sale = contract.get_sale(0, Some(&bob()), end, 9).unwrap().unwrap();
    assert_eq!(sale.in_token_remaining, 0);
    assert_eq!(sale.in_token_paid, 4);
    assert_eq!(sale.total_shares, 4);
    assert_eq!(sale.out_tokens[0].treasury_unclaimed, Some(36));
    assert_eq!(sale.subscription.unwrap().unclaimed_out_balances, vec![3564]);

    contract.sale_distribute_unclaimed_tokens(0, &engine(), end, 9).unwrap();
    assert_eq!(balance(&contract, &alice(), &w_near()), 4);
    assert_eq!(balance(&contract, &alice(), &token1()), 0);
    assert_eq!(contract.get_treasury_balance(&w_near()), Some(0));
    assert_eq!(contract.get_treasury_balance(&token1()), Some(36));

    contract.sale_claim_out_tokens(&bob(), 0, end, 9).unwrap();
    assert_eq!(balance(&contract, &bob(), &token1()), 3564);
}

#[test]
fn proceeds_pay_one_percent_to_the_treasury() {
    let mut contract = simple_sale(3600);
    fund(&mut contract, &bob(), &w_near(), 390);
    contract.sale_deposit_in_token(&bob(), 0, 400, None, 1, START, 2).unwrap();
    let end = START + DURATION;
    contract.sale_distribute_unclaimed_tokens(0, &engine(), end, 9).unwrap();
    assert_eq!(balance(&contract, &alice(), &w_near()), 396);
    assert_eq!(contract.get_treasury_balance(&w_near()), Some(4));
}

#[test]
fn streaming_is_linear_in_time() {
    let mut contract = simple_sale(3600);
    contract.sale_deposit_in_token(&bob(), 0, 6, None, 1, START, 2).unwrap();
    let sale = contract.get_sale(0, Some(&bob()), START + DURATION / 4, 3).unwrap().unwrap();
    assert_eq!(sale.out_tokens[0].distributed, 900);
    assert_eq!(sale.out_tokens[0].remaining, 2700);
    assert_eq!(sale.out_tokens[0].treasury_unclaimed, Some(9));
    assert_eq!(sale.in_token_remaining, 5);
    assert_eq!(sale.in_token_paid, 1);
    assert_eq!(sale.in_token_paid_unclaimed, 1);
    assert_eq!(sale.remaining_duration, DURATION / 4 * 3);
    let subscription = sale.subscription.unwrap();
    assert_eq!(subscription.unclaimed_out_balances, vec![891]);
    assert_eq!(subscription.remaining_in_balance, 5);
    assert_eq!(subscription.spent_in_balance, 1);
    assert_eq!(subscription.shares, 6);
}

#[test]
fn two_subscribers_share_pro_rata() {
    let mut contract = simple_sale(4000);
    contract.sale_deposit_in_token(&bob(), 0, 3, None, 1, START, 2).unwrap();
    contract.sale_deposit_in_token(&carol(), 0, 1, None, 1, START, 2).unwrap();
    let end = START + DURATION;
    contract.sale_claim_out_tokens(&bob(), 0, end, 9).unwrap();
    contract.sale_claim_out_tokens(&carol(), 0, end, 9).unwrap();
    assert_eq!(balance(&contract, &bob(), &token1()), 2970);
    assert_eq!(balance(&contract, &carol(), &token1()), 990);
}

#[test]
fn late_subscriber_gets_what_is_left() {
    let mut contract = simple_sale(4000);
    contract.sale_deposit_in_token(&bob(), 0, 4, None, 1, START, 2).unwrap();
    let half = START + DURATION / 2;
    assert_eq!(contract.sale_deposit_in_token(&carol(), 0, 2, None, 1, half, 5), Ok(None));
    let sale = contract.get_sale(0, Some(&carol()), half, 5).unwrap().unwrap();
    assert_eq!(sale.in_token_remaining, 4);
    assert_eq!(sale.total_shares, 8);
    assert_eq!(sale.subscription.unwrap().shares, 4);
    let end = START + DURATION;
    contract.sale_claim_out_tokens(&bob(), 0, end, 9).unwrap();
    contract.sale_claim_out_tokens(&carol(), 0, end, 9).unwrap();
    assert_eq!(balance(&contract, &bob(), &token1()), 1980 + 990);
    assert_eq!(balance(&contract, &carol(), &token1()), 990);
}

#[test]
fn idle_tail_keeps_the_pool_whole() {
    let mut contract = simple_sale(3600);
    let half = START + DURATION / 2;
    let sale = contract.get_sale(0, None, half, 5).unwrap().unwrap();
    assert_eq!(sale.out_tokens[0].remaining, 3600);
    assert_eq!(sale.out_tokens[0].distributed, 0);
    contract.sale_deposit_in_token(&bob(), 0, 4, None, 1, half, 5).unwrap();
    let end = START + DURATION;
    let sale = contract.get_sale(0, Some(&bob()), end, 9).unwrap().unwrap();
    assert_eq!(sale.out_tokens[0].remaining, 0);
    assert_eq!(sale.out_tokens[0].distributed, 3600);
    assert_eq!(sale.subscription.unwrap().unclaimed_out_balances, vec![3564]);
}

#[test]
fn unsold_pool_returns_to_the_owner() {
    let mut contract = simple_sale(3600);
    let end = START + DURATION;
    contract.sale_distribute_unclaimed_tokens(0, &engine(), end + 5, 9).unwrap();
    assert_eq!(balance(&contract, &alice(), &token1()), 3600);
    assert_eq!(contract.get_treasury_balance(&token1()), Some(0));
    let sale = contract.get_sale(0, None, end + 6, 10).unwrap().unwrap();
    assert_eq!(sale.out_tokens[0].remaining, 0);
    assert_eq!(sale.out_tokens[0].distributed, 3600);
    assert_eq!(sale.end_block_height, Some(9));
}

#[test]
fn distributing_twice_changes_nothing() {
    let mut contract = simple_sale(3600);
    contract.sale_deposit_in_token(&bob(), 0, 4, None, 1, START, 2).unwrap();
    let end = START + DURATION;
    contract.sale_distribute_unclaimed_tokens(0, &engine(), end, 9).unwrap();
    let sale = contract.get_sale(0, None, end, 9).unwrap().unwrap();
    let alices = contract.balances_of(&alice(), None, None);
    let treasury = contract.get_treasury_balances(None, None);
    contract.sale_distribute_unclaimed_tokens(0, &engine(), end + 100, 19).unwrap();
    assert_eq!(contract.balances_of(&alice(), None, None), alices);
    assert_eq!(contract.get_treasury_balances(None, None), treasury);
    let again = contract.get_sale(0, None, end, 9).unwrap().unwrap();
    assert_eq!(again, sale);
}

#[test]
fn deposit_and_withdraw_before_start_returns_the_deposit() {
    let mut contract = simple_sale(3600);
    contract.sale_deposit_in_token(&carol(), 0, 5, None, 1, GENESIS + 1, 2).unwrap();
    contract.sale_deposit_in_token(&bob(), 0, 7, None, 1, GENESIS + 2, 2).unwrap();
    assert_eq!(balance(&contract, &bob(), &w_near()), 3);
    assert_eq!(contract.sale_withdraw_in_token(&bob(), 0, None, GENESIS + 3, 3), Ok(()));
    assert_eq!(balance(&contract, &bob(), &w_near()), 10);
    let sale = contract.get_sale(0, Some(&bob()), GENESIS + 4, 3).unwrap().unwrap();
    assert_eq!(sale.total_shares, 5);
    assert_eq!(sale.in_token_remaining, 5);
    assert_eq!(sale.subscription, None);
}

#[test]
fn withdraw_some_shares() {
    let mut contract = simple_sale(3600);
    contract.sale_deposit_in_token(&bob(), 0, 8, None, 1, START, 2).unwrap();
    let half = START + DURATION / 2;
    assert_eq!(contract.sale_withdraw_in_token(&bob(), 0, Some(4), half, 5), Ok(()));
    assert_eq!(balance(&contract, &bob(), &w_near()), 2 + 2);
    assert_eq!(balance(&contract, &bob(), &token1()), 1782);
    let sale = contract.get_sale(0, Some(&bob()), half, 5).unwrap().unwrap();
    assert_eq!(sale.total_shares, 4);
    assert_eq!(sale.in_token_remaining, 2);
    assert_eq!(sale.in_token_paid, 4);
    let subscription = sale.subscription.unwrap();
    assert_eq!(subscription.shares, 4);
    assert_eq!(subscription.remaining_in_balance, 2);
    assert_eq!(subscription.spent_in_balance, 4);
    assert_eq!(subscription.claimed_out_balance, vec![1782]);
    assert_eq!(
        contract.sale_withdraw_in_token(&bob(), 0, Some(5), half, 5),
        Err(Error::NotEnoughShares)
    );
}

#[test]
fn withdraw_exact_rounds_shares_up() {
    let mut contract = simple_sale(3600);
    contract.sale_deposit_in_token(&bob(), 0, 9, None, 1, START, 2).unwrap();
    let third = START + DURATION / 3;
    // 6 in-tokens remain for 9 shares: 1 in-token costs ceil(1 * 9 / 6) = 2 shares,
    // which stand for floor(6 * 2 / 9) = 1 in-token.
    assert_eq!(contract.sale_withdraw_in_token_exact(&bob(), 0, 1, third, 5), Ok(()));
    assert_eq!(balance(&contract, &bob(), &w_near()), 1 + 1);
    let sale = contract.get_sale(0, Some(&bob()), third, 5).unwrap().unwrap();
    assert_eq!(sale.total_shares, 7);
    assert_eq!(sale.in_token_remaining, 5);
    assert_eq!(
        contract.sale_withdraw_in_token_exact(&bob(), 0, 6, third, 5),
        Err(Error::NotEnoughShares)
    );
}

#[test]
fn dust_shares_are_reclaimed_on_claim() {
    let mut contract = simple_sale(4);
    contract.sale_deposit_in_token(&bob(), 0, 3, None, 1, START, 2).unwrap();
    contract.sale_deposit_in_token(&carol(), 0, 3, None, 1, START, 2).unwrap();
    let late = START + 50 * SECOND;
    let sale = contract.get_sale(0, Some(&bob()), late, 5).unwrap().unwrap();
    assert_eq!(sale.in_token_remaining, 1);
    assert_eq!(sale.total_shares, 6);
    let subscription = sale.subscription.unwrap();
    assert_eq!(subscription.shares, 3);
    assert_eq!(subscription.remaining_in_balance, 0);
    assert_eq!(subscription.unclaimed_out_balances, vec![1]);

    contract.sale_claim_out_tokens(&bob(), 0, late, 5).unwrap();
    assert_eq!(balance(&contract, &bob(), &token1()), 1);
    let sale = contract.get_sale(0, Some(&bob()), late, 5).unwrap().unwrap();
    assert_eq!(sale.total_shares, 3);
    assert_eq!(sale.in_token_remaining, 1);
    assert_eq!(sale.subscription, None);
    assert_eq!(
        contract.get_subscribed_sales(&bob(), None, None, late, 5).unwrap(),
        vec![]
    );
    assert_eq!(contract.get_subscribed_sales(&carol(), None, None, late, 5).unwrap().len(), 1);
}

#[test]
fn one_nanosecond_sale_ends_at_the_next_touch() {
    let mut contract = new_contract();
    fund(&mut contract, &alice(), &token1(), 100);
    fund(&mut contract, &bob(), &w_near(), 10);
    contract.register_token(None, &bob(), token1(), 1).unwrap();
    assert_eq!(
        contract.sale_create(input(&[(token1(), 100, None)], w_near(), 1), &alice(), &engine(), GENESIS, 1),
        Ok(0)
    );
    contract.sale_deposit_in_token(&bob(), 0, 10, None, 1, START, 2).unwrap();
    let sale = contract.get_sale(0, Some(&bob()), START + 1, 3).unwrap().unwrap();
    assert_eq!(sale.remaining_duration, 0);
    assert_eq!(sale.end_block_height, Some(3));
    assert_eq!(sale.out_tokens[0].remaining, 0);
    assert_eq!(sale.in_token_remaining, 0);
    assert_eq!(sale.subscription.unwrap().unclaimed_out_balances, vec![99]);
    assert_eq!(
        contract.sale_deposit_in_token(&bob(), 0, 0, None, 1, START + 1, 3),
        Err(Error::SaleEnded)
    );
}

#[test]
fn engine_sale_of_protocol_token_proceeds_are_burned() {
    let mut contract = new_contract();
    fund(&mut contract, &engine(), &token1(), 1000);
    fund(&mut contract, &bob(), &skyward_token(), 500);
    contract.register_token(None, &bob(), token1(), 1).unwrap();
    // The engine need not give notice.
    let mut sale = input(&[(token1(), 1000, None)], skyward_token(), DURATION);
    sale.start_time = GENESIS + 1;
    assert_eq!(contract.sale_create(sale, &engine(), &engine(), GENESIS, 1), Ok(0));
    contract.sale_deposit_in_token(&bob(), 0, 500, None, 1, GENESIS + 1, 2).unwrap();
    let end = GENESIS + 1 + DURATION;
    let treasury = contract.get_treasury_balances(None, None);
    contract.sale_distribute_unclaimed_tokens(0, &engine(), end, 9).unwrap();
    assert_eq!(contract.treasury.skyward_burned_amount, 500);
    assert_eq!(contract.get_treasury_balance(&skyward_token()), None);
    // The treasury's fee of the out-token is the only thing that entered its ledger.
    assert_eq!(treasury, vec![(token1(), 0)]);
    assert_eq!(contract.get_treasury_balances(None, None), vec![(token1(), 10)]);
    assert_eq!(balance(&contract, &engine(), &token1()), 0);
}

#[test]
fn engine_sale_donates_proceeds_of_other_tokens() {
    let mut contract = new_contract();
    fund(&mut contract, &engine(), &skyward_token(), 1000);
    fund(&mut contract, &bob(), &w_near(), 10);
    contract.register_token(None, &bob(), skyward_token(), 1).unwrap();
    let mut sale = input(&[(skyward_token(), 1000, None)], w_near(), DURATION);
    sale.start_time = GENESIS + 1;
    assert_eq!(contract.sale_create(sale, &engine(), &engine(), GENESIS, 1), Ok(0));
    // No treasury fee is taken of the protocol token.
    let shown = contract.get_sale(0, None, GENESIS, 1).unwrap().unwrap();
    assert_eq!(shown.out_tokens[0].treasury_unclaimed, None);
    contract.sale_deposit_in_token(&bob(), 0, 10, None, 1, GENESIS + 1, 2).unwrap();
    let end = GENESIS + 1 + DURATION;
    contract.sale_distribute_unclaimed_tokens(0, &engine(), end, 9).unwrap();
    assert_eq!(contract.get_treasury_balance(&w_near()), Some(10));
    contract.sale_claim_out_tokens(&bob(), 0, end, 9).unwrap();
    assert_eq!(balance(&contract, &bob(), &skyward_token()), 1000);
}

#[test]
fn referral_fee_goes_to_the_owner_when_no_referral_is_named() {
    let mut contract = new_contract();
    fund(&mut contract, &alice(), &token1(), 10_000);
    fund(&mut contract, &bob(), &w_near(), 10);
    contract.register_token(None, &bob(), token1(), 1).unwrap();
    contract
        .sale_create(input(&[(token1(), 10_000, Some(100))], w_near(), DURATION), &alice(), &engine(), GENESIS, 1)
        .unwrap();
    contract.sale_deposit_in_token(&bob(), 0, 4, None, 1, START, 2).unwrap();
    let end = START + DURATION;
    contract.sale_claim_out_tokens(&bob(), 0, end, 9).unwrap();
    assert_eq!(balance(&contract, &alice(), &token1()), 99);
    assert_eq!(balance(&contract, &bob(), &token1()), 9900 - 99);
}

#[test]
fn referral_fee_is_halved_for_a_named_referral() {
    let mut contract = new_contract();
    fund(&mut contract, &alice(), &token1(), 10_000);
    fund(&mut contract, &bob(), &w_near(), 10);
    contract.register_token(None, &bob(), token1(), 1).unwrap();
    contract.register_token(None, &carol(), token1(), 1).unwrap();
    contract
        .sale_create(input(&[(token1(), 10_000, Some(100))], w_near(), DURATION), &alice(), &engine(), GENESIS, 1)
        .unwrap();
    contract.sale_deposit_in_token(&bob(), 0, 4, Some(&carol()), 1, START, 2).unwrap();
    let end = START + DURATION;
    contract.sale_claim_out_tokens(&bob(), 0, end, 9).unwrap();
    assert_eq!(balance(&contract, &carol(), &token1()), 49);
    assert_eq!(balance(&contract, &bob(), &token1()), 9900 - 49);
    assert_eq!(balance(&contract, &alice(), &token1()), 0);
}

#[test]
fn referral_fee_of_an_unregistered_referral_goes_to_the_treasury() {
    let mut contract = new_contract();
    fund(&mut contract, &alice(), &token1(), 10_000);
    fund(&mut contract, &bob(), &w_near(), 10);
    contract.register_token(None, &bob(), token1(), 1).unwrap();
    contract
        .sale_create(input(&[(token1(), 10_000, Some(500))], w_near(), DURATION), &alice(), &engine(), GENESIS, 1)
        .unwrap();
    contract.sale_deposit_in_token(&bob(), 0, 4, Some(&carol()), 1, START, 2).unwrap();
    let end = START + DURATION;
    contract.sale_claim_out_tokens(&bob(), 0, end, 9).unwrap();
    // 9900 earned, 5% of it is 495, halved 247.
    assert_eq!(contract.get_treasury_balance(&token1()), Some(247));
    assert_eq!(balance(&contract, &bob(), &token1()), 9900 - 247);
    assert_eq!(contract.balance_of(&carol(), &token1()), None);
}

#[test]
fn permission_gate_denied() {
    let mut contract = new_contract();
    fund(&mut contract, &alice(), &token1(), 100);
    fund(&mut contract, &bob(), &w_near(), 10);
    let mut sale = input(&[(token1(), 100, None)], w_near(), DURATION);
    sale.permissions_contract_id = Some(kyc());
    contract.sale_create(sale, &alice(), &engine(), GENESIS, 1).unwrap();

    let locked = contract.treasury.locked_attached_deposits;
    assert_eq!(
        contract.sale_deposit_in_token(&bob(), 0, 4, None, 1, START, 2),
        Ok(Some(kyc()))
    );
    assert_eq!(contract.treasury.locked_attached_deposits, locked + 1);
    assert_eq!(balance(&contract, &bob(), &w_near()), 10);
    assert_eq!(
        contract.after_is_approved(false, 0, &bob(), 4, None, START + 1, 3),
        Err(Error::NotApproved)
    );
    assert_eq!(contract.maybe_refund_deposit(1, false), Ok(Some(1)));
    assert_eq!(contract.treasury.locked_attached_deposits, locked);
    assert_eq!(balance(&contract, &bob(), &w_near()), 10);
    let shown = contract.get_sale(0, Some(&bob()), START + 2, 4).unwrap().unwrap();
    assert_eq!(shown.subscription, None);
    assert_eq!(shown.total_shares, 0);
    assert_eq!(contract.get_subscribed_sales(&bob(), None, None, START + 2, 4).unwrap(), vec![]);
    // A claim without a subscription is refused on a gated sale.
    assert_eq!(contract.sale_claim_out_tokens(&bob(), 0, START + 2, 4), Err(Error::NoPermission));
    assert_eq!(contract.maybe_refund_deposit(1, false), Err(Error::NotEnoughBalance));
}

#[test]
fn permission_gate_approved() {
    let mut contract = new_contract();
    fund(&mut contract, &alice(), &token1(), 100);
    fund(&mut contract, &bob(), &w_near(), 10);
    contract.register_token(None, &bob(), token1(), 1).unwrap();
    let mut sale = input(&[(token1(), 100, None)], w_near(), DURATION);
    sale.permissions_contract_id = Some(kyc());
    contract.sale_create(sale, &alice(), &engine(), GENESIS, 1).unwrap();

    let attached = 1_000_000;
    assert_eq!(
        contract.sale_deposit_in_token(&bob(), 0, 4, None, attached, START, 2),
        Ok(Some(kyc()))
    );
    assert_eq!(contract.treasury.locked_attached_deposits, attached);
    assert_eq!(contract.after_is_approved(true, 0, &bob(), 4, None, START, 3), Ok(()));
    assert_eq!(contract.release_locked_deposit(attached, 1000, 300), Ok(Some(700_000)));
    assert_eq!(contract.treasury.locked_attached_deposits, 0);
    assert_eq!(contract.maybe_refund_deposit(attached, true), Ok(None));
    assert_eq!(balance(&contract, &bob(), &w_near()), 6);
    let shown = contract.get_sale(0, Some(&bob()), START, 4).unwrap().unwrap();
    assert_eq!(shown.subscription.unwrap().shares, 4);
    // With a subscription the next deposit does not wait.
    assert_eq!(contract.sale_deposit_in_token(&bob(), 0, 1, None, 1, START, 5), Ok(None));
    // A subscription without shares stays on a gated sale that runs.
    let half = START + DURATION / 2;
    contract.sale_withdraw_in_token(&bob(), 0, None, half, 6).unwrap();
    let shown = contract.get_sale(0, Some(&bob()), half, 6).unwrap().unwrap();
    assert_eq!(shown.total_shares, 0);
    assert_eq!(contract.sale_deposit_in_token(&bob(), 0, 1, None, 1, half, 7), Ok(None));
}

#[test]
fn release_needs_the_storage_covered() {
    let mut contract = new_contract();
    contract.treasury.locked_attached_deposits = 50;
    assert_eq!(
        contract.release_locked_deposit(50, 10, 6),
        Err(Error::NotEnoughAttachedBalance)
    );
    assert_eq!(contract.release_locked_deposit(60, 10, 6), Err(Error::NotEnoughBalance));
    assert_eq!(contract.release_locked_deposit(50, 10, 5), Ok(None));
    assert_eq!(contract.treasury.locked_attached_deposits, 0);
}

#[test]
fn a_refused_operation_changes_nothing() {
    let mut contract = simple_sale(3600);
    contract.sale_deposit_in_token(&bob(), 0, 4, None, 1, START, 2).unwrap();
    let half = START + DURATION / 2;
    let before = contract.get_sale(0, Some(&bob()), START, 2).unwrap().unwrap();
    // Dave is not registered: the claim fails after the sale was touched.
    assert_eq!(
        contract.sale_claim_out_tokens(&id("dave.near"), 0, half, 5),
        Err(Error::AccountNotFound)
    );
    assert_eq!(contract.sales[0].last_timestamp, START);
    assert_eq!(contract.get_sale(0, Some(&bob()), START, 2).unwrap().unwrap(), before);
    assert_eq!(
        contract.sale_deposit_in_token(&bob(), 0, 100, None, 1, half, 5),
        Err(Error::NotEnoughBalance)
    );
    assert_eq!(contract.sales[0].last_timestamp, START);
    assert_eq!(balance(&contract, &bob(), &w_near()), 6);
}

#[test]
fn two_out_tokens() {
    let mut contract = new_contract();
    fund(&mut contract, &alice(), &token1(), 1000);
    fund(&mut contract, &alice(), &token2(), 500);
    fund(&mut contract, &bob(), &w_near(), 10);
    contract.register_token(None, &bob(), token1(), 1).unwrap();
    contract.register_token(None, &bob(), token2(), 1).unwrap();
    contract
        .sale_create(
            input(&[(token1(), 1000, None), (token2(), 500, None)], w_near(), DURATION),
            &alice(),
            &engine(),
            GENESIS,
            1,
        )
        .unwrap();
    contract.sale_deposit_in_token(&bob(), 0, 10, None, 1, START, 2).unwrap();
    let end = START + DURATION;
    contract.sale_claim_out_tokens(&bob(), 0, end, 9).unwrap();
    assert_eq!(balance(&contract, &bob(), &token1()), 990);
    assert_eq!(balance(&contract, &bob(), &token2()), 495);
    contract.sale_distribute_unclaimed_tokens(0, &engine(), end, 9).unwrap();
    assert_eq!(contract.get_treasury_balance(&token1()), Some(10));
    assert_eq!(contract.get_treasury_balance(&token2()), Some(5));
    assert_eq!(contract.get_account_sales(&alice(), None, None, end, 9).unwrap().len(), 1);
    assert_eq!(contract.get_account_sales(&bob(), None, None, end, 9).unwrap().len(), 0);
}

#[test]
fn a_deposit_registers_the_out_tokens() {
    let mut contract = new_contract();
    fund(&mut contract, &alice(), &token1(), 1000);
    fund(&mut contract, &alice(), &token2(), 500);
    fund(&mut contract, &bob(), &w_near(), 10);
    contract
        .sale_create(
            input(&[(token1(), 1000, None), (token2(), 500, None)], w_near(), DURATION),
            &alice(),
            &engine(),
            GENESIS,
            1,
        )
        .unwrap();
    assert_eq!(contract.balances_of(&bob(), None, None), vec![(w_near(), 10)]);
    contract.sale_deposit_in_token(&bob(), 0, 4, None, 1, START, 2).unwrap();
    assert_eq!(
        contract.balances_of(&bob(), None, None),
        vec![(w_near(), 6), (token1(), 0), (token2(), 0)]
    );
    // A second deposit finds them registered.
    contract.sale_deposit_in_token(&bob(), 0, 6, None, 1, START, 2).unwrap();
    assert_eq!(
        contract.balances_of(&bob(), None, None),
        vec![(w_near(), 0), (token1(), 0), (token2(), 0)]
    );
    let end = START + DURATION;
    assert_eq!(contract.sale_claim_out_tokens(&bob(), 0, end, 9), Ok(()));
    assert_eq!(balance(&contract, &bob(), &token1()), 990);
    assert_eq!(balance(&contract, &bob(), &token2()), 495);
    assert!(contract.is_wf());
}

#[test]
fn a_deposit_registers_a_new_token_with_the_treasury_too() {
    let mut contract = new_contract();
    fund(&mut contract, &alice(), &token1(), 1000);
    fund(&mut contract, &bob(), &w_near(), 10);
    contract
        .sale_create(input(&[(token1(), 1000, None)], w_near(), DURATION), &alice(), &engine(), GENESIS, 1)
        .unwrap();
    // Take the out-token off the treasury's ledger, as if nobody had registered it yet.
    assert_eq!(contract.treasury.balances.token_ids.remove(0), token1());
    contract.treasury.balances.amounts.remove(0);
    assert_eq!(contract.get_treasury_balances(None, None), vec![(w_near(), 0)]);
    contract.sale_deposit_in_token(&bob(), 0, 4, None, 1, START, 2).unwrap();
    assert_eq!(contract.get_treasury_balances(None, None), vec![(w_near(), 0), (token1(), 0)]);
}

#[test]
fn a_deposit_that_waits_registers_nothing() {
    let mut contract = new_contract();
    fund(&mut contract, &alice(), &token1(), 100);
    fund(&mut contract, &bob(), &w_near(), 10);
    let mut sale = input(&[(token1(), 100, None)], w_near(), DURATION);
    sale.permissions_contract_id = Some(kyc());
    contract.sale_create(sale, &alice(), &engine(), GENESIS, 1).unwrap();
    assert_eq!(contract.sale_deposit_in_token(&bob(), 0, 4, None, 1, START, 2), Ok(Some(kyc())));
    assert_eq!(contract.balances_of(&bob(), None, None), vec![(w_near(), 10)]);
    assert_eq!(contract.after_is_approved(true, 0, &bob(), 4, None, START, 3), Ok(()));
    assert_eq!(contract.balances_of(&bob(), None, None), vec![(w_near(), 6), (token1(), 0)]);
    // A deposit that is refused registers nothing either.
    fund(&mut contract, &carol(), &w_near(), 1);
    assert_eq!(
        contract.after_is_approved(true, 0, &carol(), 4, None, START, 3),
        Err(Error::NotEnoughBalance)
    );
    assert_eq!(contract.balances_of(&carol(), None, None), vec![(w_near(), 1)]);
}

#[test]
fn redeem_protocol_token() {
    let schedule = vec![VestingInterval { start_timestamp: 0, end_timestamp: 100, amount: 1000 }];
    let mut contract = Contract::new(skyward_token(), schedule, 0, w_near());
    fund(&mut contract, &bob(), &skyward_token(), 100);
    fund(&mut contract, &bob(), &w_near(), 0);
    fund(&mut contract, &bob(), &token1(), 0);
    contract.after_near_deposit(901, true).unwrap();
    contract.treasury.internal_deposit(&token1(), 50).unwrap();
    assert_eq!(contract.get_skyward_circulating_supply(50), 500);
    assert_eq!(contract.get_skyward_circulating_supply(200), 1000);

    let tokens = vec![w_near(), token1()];
    assert_eq!(contract.redeem_skyward(&bob(), 0, &tokens, 200), Err(Error::ZeroSkyward));
    assert_eq!(contract.redeem_skyward(&bob(), 101, &tokens, 200), Err(Error::NotEnoughBalance));
    assert_eq!(contract.redeem_skyward(&bob(), 10, &tokens, 0), Err(Error::ZeroSkyward));
    assert_eq!(
        contract.redeem_skyward(&bob(), 10, &vec![token2()], 200),
        Err(Error::TokenNotRegistered)
    );
    assert_eq!(balance(&contract, &bob(), &skyward_token()), 100);

    assert_eq!(contract.redeem_skyward(&bob(), 100, &tokens, 200), Ok(()));
    assert_eq!(balance(&contract, &bob(), &skyward_token()), 0);
    assert_eq!(balance(&contract, &bob(), &w_near()), 90);
    assert_eq!(balance(&contract, &bob(), &token1()), 5);
    assert_eq!(contract.get_treasury_balance(&w_near()), Some(811));
    assert_eq!(contract.get_treasury_balance(&token1()), Some(45));
    assert_eq!(contract.treasury.skyward_burned_amount, 100);
    assert_eq!(contract.get_skyward_circulating_supply(200), 900);
}

#[test]
fn pages_of_sales() {
    let mut contract = new_contract();
    fund(&mut contract, &alice(), &token1(), 1000);
    fund(&mut contract, &bob(), &w_near(), 10);
    contract.register_token(None, &bob(), token1(), 1).unwrap();
    for n in 0..5u64 {
        assert_eq!(
            contract.sale_create(input(&[(token1(), 10, None)], w_near(), DURATION), &alice(), &engine(), GENESIS, 1),
            Ok(n)
        );
    }
    contract.sale_deposit_in_token(&bob(), 3, 1, None, 1, START, 2).unwrap();
    contract.sale_deposit_in_token(&bob(), 1, 1, None, 1, START, 2).unwrap();
    let ids = |sales: Vec<skyward::SaleOutput>| -> Vec<u64> { sales.iter().map(|s| s.sale_id).collect() };
    assert_eq!(ids(contract.get_sales(None, None, None, START, 2).unwrap()), vec![0, 1, 2, 3, 4]);
    assert_eq!(ids(contract.get_sales(None, Some(1), Some(2), START, 2).unwrap()), vec![1, 2]);
    assert_eq!(ids(contract.get_sales(None, Some(4), Some(u64::MAX), START, 2).unwrap()), vec![4]);
    assert_eq!(ids(contract.get_sales(None, Some(7), None, START, 2).unwrap()), vec![]);
    assert_eq!(
        ids(contract.get_sales_by_id(Some(&bob()), &vec![4, 9, 0, 4], START, 2).unwrap()),
        vec![4, 0, 4]
    );
    assert_eq!(ids(contract.get_subscribed_sales(&bob(), None, None, START, 2).unwrap()), vec![3, 1]);
    assert_eq!(ids(contract.get_subscribed_sales(&bob(), Some(1), None, START, 2).unwrap()), vec![1]);
    assert_eq!(ids(contract.get_account_sales(&alice(), Some(3), Some(5), START, 2).unwrap()), vec![3, 4]);
    assert_eq!(ids(contract.get_account_sales(&carol(), None, None, START, 2).unwrap()), vec![]);
    let shown = contract.get_sales(Some(&bob()), Some(3), Some(1), START, 2).unwrap();
    assert_eq!(shown[0].subscription.as_ref().unwrap().shares, 1);
    let shown = contract.get_sales(Some(&bob()), Some(2), Some(1), START, 2).unwrap();
    assert_eq!(shown[0].subscription, None);
    assert!(contract.is_wf());
}

#[test]
fn internal_steps_are_atomic() {
    let mut contract = simple_sale(3600);
    contract.sale_deposit_in_token(&bob(), 0, 4, None, 1, START, 2).unwrap();
    let end = START + DURATION;
    let mut sale = contract.internal_unwrap_sale(0, end, 9).unwrap();
    assert_eq!(sale.last_timestamp, end);
    // Alice's balance of the in-token is full: the payment to her fails.
    let before = contract.balances_of(&alice(), None, None);
    let treasury = contract.get_treasury_balances(None, None);
    contract.accounts.accounts[0].balances.amounts[1] = u128::MAX;
    assert_eq!(
        contract.internal_distribute_unclaimed_tokens(&mut sale, &engine()),
        Err(Error::BalanceOverflow)
    );
    // The treasury's part was banked before the owner's payment failed, and was taken back.
    assert_eq!(contract.get_treasury_balances(None, None), treasury);
    assert_eq!(sale.in_token_paid_unclaimed, 4);
    contract.accounts.accounts[0].balances.amounts[1] = before[1].1;
    assert_eq!(contract.internal_distribute_unclaimed_tokens(&mut sale, &engine()), Ok(()));
    assert_eq!(sale.in_token_paid_unclaimed, 0);
    assert_eq!(sale.out_tokens[0].treasury_unclaimed, Some(0));
    let subscription = contract.internal_update_subscription(&bob(), 0, &mut sale, None, false).unwrap();
    assert_eq!(subscription.claimed_out_balance, vec![3564]);
    assert_eq!(subscription.shares, 0);
    assert_eq!(sale.total_shares, 0);
    assert_eq!(
        contract.internal_update_subscription(&id("dave.near"), 0, &mut sale, None, false).map(|s| s.shares),
        Err(Error::AccountNotFound)
    );
    contract.internal_save_subscription(&bob(), 0, &sale, subscription);
    contract.internal_store_sale(0, sale);
    assert!(contract.is_wf());
    assert_eq!(contract.get_subscribed_sales(&bob(), None, None, end, 9).unwrap(), vec![]);
    assert_eq!(contract.internal_withdraw_shares(0, &bob(), Some(1), end, 9), Err(Error::NotEnoughShares));
    assert_eq!(
        contract.internal_withdraw_in_token_exact(0, &bob(), 1, end, 9),
        Err(Error::NotEnoughShares)
    );
    assert_eq!(contract.internal_withdraw_shares(0, &bob(), None, end, 9), Ok(()));
    assert_eq!(balance(&contract, &bob(), &token1()), 3564);
    assert_eq!(
        contract.internal_deposit_in_amount(0, &bob(), 1, None, false, end, 9),
        Err(Error::SaleEnded)
    );
}
