use skyward::{
    Contract, Error, FtOnTransferArgs, SaleInput, SaleInputOutToken, SaleOutput,
    SaleOutputOutToken, SubscriptionOutput,
};

const NEAR: u128 = 1_000_000_000_000_000_000_000_000;
const MILLINEAR: u128 = NEAR / 1000;
const BLOCK_DURATION: u64 = 1_000_000_000;
const WEEK: u64 = 7 * 24 * 60 * 60 * 1_000_000_000;
const GENESIS: u64 = 1_600_000_000_000_000_000;
const TITLE: &str = "sale title";

fn id(name: &str) -> String {
    name.to_string()
}

fn skyward_id() -> String {
    id("skyward.test.near")
}

fn w_near_id() -> String {
    id("wrap.test.near")
}

fn skyward_token_id() -> String {
    id("token-skyward.test.near")
}

fn token1_id() -> String {
    id("token1.test.near")
}

fn alice() -> String {
    id("alice.test.near")
}

fn bob() -> String {
    id("bob.test.near")
}

fn init(users: &[String]) -> Contract {
    let mut contract = Contract::new(skyward_token_id(), Vec::new(), 10 * NEAR, w_near_id());
    for user in users {
        contract.register_token(None, user, w_near_id(), 1).unwrap();
        assert_eq!(
            contract.ft_on_transfer(user, &w_near_id(), 10 * NEAR, FtOnTransferArgs::AccountDeposit),
            Ok(0)
        );
    }
    contract
}

fn register_and_deposit(contract: &mut Contract, user: &String, token: &String, amount: u128) {
    contract.register_token(None, user, token.clone(), 1).unwrap();
    contract.ft_on_transfer(user, token, amount, FtOnTransferArgs::AccountDeposit).unwrap();
}

fn sale_input(out: &[(String, u128)], start_time: u64, referral_bpt: Option<u16>) -> SaleInput {
    SaleInput {
        title: id(TITLE),
        url: None,
        permissions_contract_id: None,
        out_tokens: out
            .iter()
            .map(|(token, balance)| SaleInputOutToken {
                token_account_id: token.clone(),
                balance: *balance,
                referral_bpt,
            })
            .collect(),
        in_token_account_id: w_near_id(),
        start_time,
        duration: BLOCK_DURATION * 60,
    }
}

fn balances(contract: &Contract, user: &String) -> Vec<(String, u128)> {
    contract.balances_of(user, None, None)
}

#[test]
fn test_init() {
    let contract = init(&[]);
    assert_eq!(contract.num_sales, 0);
    assert_eq!(contract.get_treasury_balances(None, None), vec![]);
    assert_eq!(contract.get_listing_fee(), 10 * NEAR);
}

#[test]
fn test_account_deposit() {
    let contract = init(&[alice()]);
    assert_eq!(balances(&contract, &alice()), vec![(w_near_id(), 10 * NEAR)]);
}

#[test]
fn test_create_sale() {
    let mut contract = init(&[alice()]);
    register_and_deposit(&mut contract, &alice(), &token1_id(), 10000 * NEAR);

    let now = GENESIS;
    let start_time = now + WEEK + BLOCK_DURATION * 15;
    let sale_id = contract
        .sale_create(
            sale_input(&[(token1_id(), 4000 * NEAR)], start_time, None),
            &alice(),
            &skyward_id(),
            now,
            7,
        )
        .unwrap();
    assert_eq!(sale_id, 0);

    let sale = contract.get_sale(0, None, now + 1, 8).unwrap().unwrap();
    assert_eq!(
        sale,
        SaleOutput {
            sale_id: 0,
            title: id(TITLE),
            url: None,
            permissions_contract_id: None,
            owner_id: alice(),
            out_tokens: vec![SaleOutputOutToken {
                token_account_id: token1_id(),
                remaining: 4000 * NEAR,
                distributed: 0,
                treasury_unclaimed: Some(0),
                referral_bpt: None,
            }],
            in_token_account_id: w_near_id(),
            in_token_remaining: 0,
            in_token_paid_unclaimed: 0,
            in_token_paid: 0,
            total_shares: 0,
            start_time,
            duration: BLOCK_DURATION * 60,
            remaining_duration: BLOCK_DURATION * 60,
            subscription: None,
            current_time: now + 1,
            current_block_height: 8,
            start_block_height: 7,
            end_block_height: None,
        }
    );

    assert_eq!(
        balances(&contract, &alice()),
        vec![(w_near_id(), 10 * NEAR), (token1_id(), 6000 * NEAR)]
    );
}

#[test]
fn test_join_sale() {
    let mut contract = init(&[alice(), bob()]);
    register_and_deposit(&mut contract, &alice(), &token1_id(), 10_000 * NEAR);

    let now = GENESIS;
    let start_time = now + WEEK + BLOCK_DURATION * 15;
    let end_time = start_time + BLOCK_DURATION * 60;
    contract
        .sale_create(
            sale_input(&[(token1_id(), 3_600 * NEAR)], start_time, None),
            &alice(),
            &skyward_id(),
            now,
            1,
        )
        .unwrap();

    assert_eq!(
        contract.sale_deposit_in_token(&bob(), 0, 4 * NEAR, None, 10 * MILLINEAR, now + 10, 2),
        Ok(None)
    );

    let bobs_sale = contract.get_sale(0, Some(&bob()), now + 20, 3).unwrap().unwrap();
    assert_eq!(bobs_sale.in_token_remaining, 4 * NEAR);
    assert_eq!(bobs_sale.total_shares, 4 * NEAR);
    assert_eq!(
        bobs_sale.subscription,
        Some(SubscriptionOutput {
            claimed_out_balance: vec![0],
            spent_in_balance: 0,
            remaining_in_balance: 4 * NEAR,
            unclaimed_out_balances: vec![0],
            shares: 4 * NEAR,
            referral_id: None,
        })
    );
    assert_eq!(
        balances(&contract, &bob()),
        vec![(w_near_id(), 6 * NEAR), (token1_id(), 0)]
    );

    let later = end_time + BLOCK_DURATION * 400;
    let bobs_sale = contract.get_sale(0, Some(&bob()), later, 500).unwrap().unwrap();
    assert_eq!(
        bobs_sale.out_tokens,
        vec![SaleOutputOutToken {
            token_account_id: token1_id(),
            remaining: 0,
            distributed: 3_600 * NEAR,
            treasury_unclaimed: Some(36 * NEAR),
            referral_bpt: None,
        }]
    );
    assert_eq!(bobs_sale.in_token_remaining, 0);
    assert_eq!(bobs_sale.in_token_paid_unclaimed, 4 * NEAR);
    assert_eq!(bobs_sale.in_token_paid, 4 * NEAR);
    assert_eq!(bobs_sale.total_shares, 4 * NEAR);
    assert_eq!(bobs_sale.end_block_height, Some(500));
    assert_eq!(
        bobs_sale.subscription,
        Some(SubscriptionOutput {
            claimed_out_balance: vec![0],
            spent_in_balance: 4 * NEAR,
            remaining_in_balance: 0,
            unclaimed_out_balances: vec![3564 * NEAR],
            shares: 4 * NEAR,
            referral_id: None,
        })
    );
    assert_eq!(
        contract.get_treasury_balances(None, None),
        vec![(w_near_id(), 0), (token1_id(), 0)]
    );

    assert_eq!(contract.sale_distribute_unclaimed_tokens(0, &skyward_id(), later, 500), Ok(()));

    assert_eq!(
        balances(&contract, &alice()),
        vec![(w_near_id(), 13_960 * MILLINEAR), (token1_id(), 6400 * NEAR)]
    );
    assert_eq!(
        contract.get_treasury_balances(None, None),
        vec![(w_near_id(), 40 * MILLINEAR), (token1_id(), 36 * NEAR)]
    );
    assert_eq!(
        balances(&contract, &bob()),
        vec![(w_near_id(), 6 * NEAR), (token1_id(), 0)]
    );

    let bobs_sale = contract.get_sale(0, Some(&bob()), later, 501).unwrap().unwrap();
    assert_eq!(
        bobs_sale.out_tokens,
        vec![SaleOutputOutToken {
            token_account_id: token1_id(),
            remaining: 0,
            distributed: 3600 * NEAR,
            treasury_unclaimed: Some(0),
            referral_bpt: None,
        }]
    );
    assert_eq!(bobs_sale.in_token_paid_unclaimed, 0);
    assert_eq!(bobs_sale.in_token_paid, 4 * NEAR);
    assert_eq!(bobs_sale.total_shares, 4 * NEAR);
    assert_eq!(
        bobs_sale.subscription,
        Some(SubscriptionOutput {
            claimed_out_balance: vec![0],
            spent_in_balance: 4 * NEAR,
            remaining_in_balance: 0,
            unclaimed_out_balances: vec![3564 * NEAR],
            shares: 4 * NEAR,
            referral_id: None,
        })
    );

    assert_eq!(contract.sale_claim_out_tokens(&bob(), 0, later, 502), Ok(()));

    let bobs_sale = contract.get_sale(0, Some(&bob()), later, 503).unwrap().unwrap();
    assert_eq!(bobs_sale.out_tokens[0].remaining, 0);
    assert_eq!(bobs_sale.out_tokens[0].distributed, 3600 * NEAR);
    assert_eq!(bobs_sale.out_tokens[0].treasury_unclaimed, Some(0));
    assert_eq!(bobs_sale.in_token_remaining, 0);
    assert_eq!(bobs_sale.in_token_paid_unclaimed, 0);
    assert_eq!(bobs_sale.in_token_paid, 4 * NEAR);
    assert_eq!(bobs_sale.total_shares, 0);
    assert_eq!(bobs_sale.subscription, None);

    assert_eq!(
        contract.get_treasury_balances(None, None),
        vec![(w_near_id(), 40 * MILLINEAR), (token1_id(), 36 * NEAR)]
    );
    assert_eq!(
        balances(&contract, &bob()),
        vec![(w_near_id(), 6 * NEAR), (token1_id(), 3564 * NEAR)]
    );

    assert_eq!(contract.withdraw_token(&bob(), &token1_id(), None), Ok(3564 * NEAR));
    assert_eq!(contract.after_ft_transfer(&bob(), &token1_id(), 3564 * NEAR, true), Ok(true));
    assert_eq!(
        balances(&contract, &bob()),
        vec![(w_near_id(), 6 * NEAR), (token1_id(), 0)]
    );
}

#[test]
fn test_join_sale_with_referral() {
    let mut contract = init(&[alice(), bob()]);
    let sale_amount = 10_000 * NEAR;
    register_and_deposit(&mut contract, &alice(), &token1_id(), sale_amount);

    let now = GENESIS;
    let start_time = now + WEEK + BLOCK_DURATION * 15;
    let end_time = start_time + BLOCK_DURATION * 60;
    contract
        .sale_create(
            sale_input(&[(token1_id(), sale_amount)], start_time, Some(100)),
            &alice(),
            &skyward_id(),
            now,
            1,
        )
        .unwrap();
    assert_eq!(
        balances(&contract, &alice()),
        vec![(w_near_id(), 10 * NEAR), (token1_id(), 0)]
    );

    assert_eq!(
        contract.sale_deposit_in_token(
            &bob(),
            0,
            4 * NEAR,
            Some(&alice()),
            10 * MILLINEAR,
            now + 10,
            2
        ),
        Ok(None)
    );

    let later = end_time + BLOCK_DURATION * 400;
    let bobs_sale = contract.get_sale(0, Some(&bob()), later, 500).unwrap().unwrap();
    assert_eq!(bobs_sale.out_tokens[0].remaining, 0);
    assert_eq!(bobs_sale.out_tokens[0].distributed, sale_amount);
    assert_eq!(bobs_sale.out_tokens[0].treasury_unclaimed, Some(sale_amount / 100));
    assert_eq!(bobs_sale.in_token_remaining, 0);
    assert_eq!(bobs_sale.in_token_paid_unclaimed, 4 * NEAR);
    assert_eq!(bobs_sale.in_token_paid, 4 * NEAR);
    assert_eq!(bobs_sale.total_shares, 4 * NEAR);
    assert_eq!(
        bobs_sale.subscription,
        Some(SubscriptionOutput {
            claimed_out_balance: vec![0],
            spent_in_balance: 4 * NEAR,
            remaining_in_balance: 0,
            unclaimed_out_balances: vec![sale_amount * 99 / 100],
            shares: 4 * NEAR,
            referral_id: Some(alice()),
        })
    );
    assert_eq!(
        contract.get_treasury_balances(None, None),
        vec![(w_near_id(), 0), (token1_id(), 0)]
    );

    assert_eq!(contract.sale_distribute_unclaimed_tokens(0, &skyward_id(), later, 500), Ok(()));
    assert_eq!(
        contract.get_treasury_balances(None, None),
        vec![(w_near_id(), 40 * MILLINEAR), (token1_id(), sale_amount / 100)]
    );
    assert_eq!(
        balances(&contract, &alice()),
        vec![(w_near_id(), 13_960 * MILLINEAR), (token1_id(), 0)]
    );
    assert_eq!(
        balances(&contract, &bob()),
        vec![(w_near_id(), 6 * NEAR), (token1_id(), 0)]
    );

    assert_eq!(contract.sale_claim_out_tokens(&bob(), 0, later, 501), Ok(()));
    let bobs_sale = contract.get_sale(0, Some(&bob()), later, 502).unwrap().unwrap();
    assert_eq!(bobs_sale.total_shares, 0);
    assert_eq!(bobs_sale.subscription, None);

    let out_amount = sale_amount * 99 / 100;
    let ref_amount = out_amount / 100 / 2;
    assert_eq!(
        balances(&contract, &alice()),
        vec![(w_near_id(), 13_960 * MILLINEAR), (token1_id(), ref_amount)]
    );
    assert_eq!(
        balances(&contract, &bob()),
        vec![(w_near_id(), 6 * NEAR), (token1_id(), out_amount - ref_amount)]
    );

    let transfers = contract.claim_treasury();
    assert_eq!(
        transfers,
        vec![(w_near_id(), 40 * MILLINEAR), (token1_id(), sale_amount / 100)]
    );
    let token_ids: Vec<String> = transfers.iter().map(|t| t.0.clone()).collect();
    contract.after_claim_treasury(&token_ids, &vec![true, true]);
    assert_eq!(
        contract.get_treasury_balances(None, None),
        vec![(w_near_id(), 0), (token1_id(), 0)]
    );
    assert_eq!(contract.claim_treasury(), vec![]);
}

#[test]
fn test_wrap_extra_near() {
    let mut contract = init(&[]);
    assert_eq!(contract.get_treasury_balances(None, None), vec![]);

    let byte_cost: u128 = 10_000_000_000_000_000_000;
    let storage_usage: u64 = 500_000;
    let storage_cost = byte_cost * storage_usage as u128;
    let balance = storage_cost + 9000 * NEAR + 5 * NEAR;

    let wrap = contract.wrap_extra_near(balance, storage_usage, byte_cost).unwrap();
    assert_eq!(wrap.storage_deposit, 125 * byte_cost);
    assert_eq!(wrap.extra_near, 9005 * NEAR - 1125 * byte_cost);
    assert!(wrap.extra_near > 9000 * NEAR);
    assert_eq!(contract.after_near_deposit(wrap.extra_near, true), Ok(true));
    let w_near_balance = contract.get_treasury_balances(None, None)[0].1;
    assert!(w_near_balance > 9000 * NEAR);
    assert_eq!(contract.get_treasury_balance(&w_near_id()), Some(w_near_balance));

    let left = balance - wrap.extra_near - wrap.storage_deposit;
    assert_eq!(
        contract.wrap_extra_near(left, storage_usage, byte_cost),
        Err(Error::NotEnoughBalance)
    );

    let topped_up = left + 10_100 * MILLINEAR;
    let wrap = contract.wrap_extra_near(topped_up, storage_usage, byte_cost).unwrap();
    assert!(wrap.extra_near > 10 * NEAR);
    assert_eq!(contract.after_near_deposit(wrap.extra_near, true), Ok(true));
    let added = contract.get_treasury_balances(None, None)[0].1 - w_near_balance;
    assert!(added > 10 * NEAR);
    assert_eq!(added, wrap.extra_near);
}
