use skyward::{Contract, FtOnTransferArgs, SaleInput, SaleInputOutToken};

const SECOND: u64 = 1_000_000_000;
const WEEK: u64 = 7 * 24 * 60 * 60 * SECOND;
const GENESIS: u64 = 1_600_000_000_000_000_000;
const START: u64 = GENESIS + WEEK;
const DURATION: u64 = 1000 * SECOND;

fn id(name: &str) -> String {
    name.to_string()
}

fn engine() -> String {
    id("skyward.near")
}

fn users() -> Vec<String> {
    vec![id("alice.near"), id("bob.near"), id("carol.near"), id("dave.near")]
}

fn tokens() -> Vec<String> {
    vec![id("wrap.near"), id("out1.near"), id("out2.near"), id("token.skyward.near")]
}

/// What the engine holds of a token outside its sales.
fn holds(contract: &Contract, token: &String) -> u128 {
    let in_accounts: u128 = contract
        .accounts
        .account_ids
        .iter()
        .map(|user| contract.balance_of(user, token).unwrap_or(0))
        .sum();
    let burned = if *token == contract.treasury.skyward_token_id {
        contract.treasury.skyward_burned_amount
    } else {
        0
    };
    in_accounts + contract.get_treasury_balance(token).unwrap_or(0) + burned
}

fn all_holdings(contract: &Contract) -> Vec<u128> {
    tokens().iter().map(|t| holds(contract, t)).collect()
}

fn setup() -> Contract {
    let mut contract = Contract::new(id("token.skyward.near"), Vec::new(), 0, id("wrap.near"));
    for user in users() {
        contract.register_tokens(None, &user, &tokens(), 1).unwrap();
        contract
            .ft_on_transfer(&user, &id("wrap.near"), 1_000_003, FtOnTransferArgs::AccountDeposit)
            .unwrap();
    }
    let alice = id("alice.near");
    contract.ft_on_transfer(&alice, &id("out1.near"), 777_777, FtOnTransferArgs::AccountDeposit).unwrap();
    contract.ft_on_transfer(&alice, &id("out2.near"), 55_555, FtOnTransferArgs::AccountDeposit).unwrap();
    let input = SaleInput {
        title: id("t"),
        url: None,
        permissions_contract_id: None,
        out_tokens: vec![
            SaleInputOutToken { token_account_id: id("out1.near"), balance: 777_777, referral_bpt: Some(321) },
            SaleInputOutToken { token_account_id: id("out2.near"), balance: 55_555, referral_bpt: None },
        ],
        in_token_account_id: id("wrap.near"),
        start_time: START,
        duration: DURATION,
    };
    let before = all_holdings(&contract);
    assert_eq!(contract.sale_create(input, &alice, &engine(), GENESIS, 1), Ok(0));
    let after = all_holdings(&contract);
    // What the sale offers has left the balances of its owner.
    assert_eq!(after[0], before[0]);
    assert_eq!(after[1] + 777_777, before[1]);
    assert_eq!(after[2] + 55_555, before[2]);
    assert_eq!(after[3], before[3]);
    contract
}

fn check_sale(contract: &Contract, in_total: u128) {
    let sale = &contract.sales[0];
    assert!(contract.is_wf());
    assert_eq!(sale.out_tokens[0].remaining + sale.out_tokens[0].distributed, 777_777);
    assert_eq!(sale.out_tokens[1].remaining + sale.out_tokens[1].distributed, 55_555);
    assert_eq!(sale.in_token_paid + sale.in_token_remaining, in_total);
    assert!(sale.in_token_paid_unclaimed <= sale.in_token_paid);
    assert!(sale.in_token_remaining <= sale.total_shares);
    if sale.total_shares == 0 {
        assert_eq!(sale.in_token_remaining, 0);
    }
}

#[test]
fn conservation_over_a_sequence_of_operations() {
    let mut contract = setup();
    let bob = id("bob.near");
    let carol = id("carol.near");
    let dave = id("dave.near");
    let mut in_total: u128 = 0;
    let mut now = START - 5;
    let mut claimed_by_bob: u128 = 0;

    let steps: Vec<(u64, u8)> = vec![
        (0, 0), (7, 1), (113, 2), (3, 0), (250, 3), (1, 4), (99, 1), (17, 5), (300, 2), (41, 3),
        (200, 6), (5, 0), (60, 3), (500, 6), (1, 3), (1, 6),
    ];
    for (elapsed, what) in steps {
        now += elapsed * SECOND;
        let before = all_holdings(&contract);
        let bobs_before = contract.get_sale(0, Some(&bob), now, 1).unwrap().unwrap().subscription;
        match what {
            0 => {
                if contract.sale_deposit_in_token(&bob, 0, 10_007, Some(&dave), 1, now, 1).is_ok() {
                    in_total += 10_007;
                    let after = all_holdings(&contract);
                    let earned = bobs_before.map(|s| s.unclaimed_out_balances).unwrap_or(vec![0, 0]);
                    assert_eq!(after[0] + 10_007, before[0]);
                    assert_eq!(after[1], before[1] + earned[0]);
                    assert_eq!(after[2], before[2] + earned[1]);
                }
            }
            1 => {
                if contract.sale_deposit_in_token(&carol, 0, 333, None, 1, now, 1).is_ok() {
                    in_total += 333;
                }
            }
            2 => {
                let sale = contract.get_sale(0, Some(&carol), now, 1).unwrap().unwrap();
                let returned = sale.subscription.map(|s| s.remaining_in_balance).unwrap_or(0);
                let held = contract.balance_of(&carol, &id("wrap.near")).unwrap();
                contract.sale_withdraw_in_token(&carol, 0, None, now, 1).unwrap();
                assert_eq!(contract.balance_of(&carol, &id("wrap.near")).unwrap(), held + returned);
                in_total -= returned;
            }
            3 => {
                let earned = bobs_before.as_ref().map(|s| s.unclaimed_out_balances.clone());
                let claimed = bobs_before.as_ref().map(|s| s.claimed_out_balance.clone());
                contract.sale_claim_out_tokens(&bob, 0, now, 1).unwrap();
                let after = all_holdings(&contract);
                if let Some(earned) = earned {
                    assert_eq!(after[0], before[0]);
                    assert_eq!(after[1], before[1] + earned[0]);
                    assert_eq!(after[2], before[2] + earned[1]);
                }
                let shown = contract.get_sale(0, Some(&bob), now, 1).unwrap().unwrap().subscription;
                if let (Some(claimed), Some(shown)) = (claimed, shown) {
                    // What was claimed never decreases, and nothing is left to claim.
                    assert!(shown.claimed_out_balance[0] >= claimed[0]);
                    assert!(shown.claimed_out_balance[1] >= claimed[1]);
                    assert!(shown.claimed_out_balance[0] >= claimed_by_bob);
                    claimed_by_bob = shown.claimed_out_balance[0];
                    assert_eq!(shown.unclaimed_out_balances, vec![0, 0]);
                }
            }
            4 => {
                let taken = contract.sale_withdraw_in_token_exact(&bob, 0, 1_000, now, 1);
                if taken.is_ok() {
                    let after = all_holdings(&contract);
                    let returned = after[0] - before[0];
                    assert!(returned >= 1_000);
                    in_total -= returned;
                }
            }
            5 => {
                let sale = contract.get_sale(0, None, now, 1).unwrap().unwrap();
                let unclaimed_in = sale.in_token_paid_unclaimed;
                let unclaimed_out: Vec<u128> = sale
                    .out_tokens
                    .iter()
                    .map(|o| o.treasury_unclaimed.unwrap_or(0))
                    .collect();
                contract.sale_distribute_unclaimed_tokens(0, &engine(), now, 1).unwrap();
                let after = all_holdings(&contract);
                assert_eq!(after[0], before[0] + unclaimed_in);
                assert_eq!(after[1], before[1] + unclaimed_out[0]);
                assert_eq!(after[2], before[2] + unclaimed_out[1]);
            }
            _ => {
                contract.sale_distribute_unclaimed_tokens(0, &engine(), now, 1).unwrap();
            }
        }
        check_sale(&contract, in_total);
        let after = all_holdings(&contract);
        assert_eq!(after[3], before[3]);
    }
    assert!(contract.sales[0].has_ended());
    assert_eq!(contract.sales[0].out_tokens[0].remaining, 0);
    assert_eq!(contract.sales[0].in_token_remaining, 0);
    assert_eq!(contract.sales[0].in_token_paid_unclaimed, 0);
    // Rounding leaves dust in the sale, never the other way round.
    let total = all_holdings(&contract);
    assert!(total[0] <= 4 * 1_000_003);
    assert!(4 * 1_000_003 - total[0] <= in_total);
    assert!(total[1] <= 777_777 && 777_777 - total[1] < 100);
    assert!(total[2] <= 55_555 && 55_555 - total[2] < 100);
}

#[test]
fn spent_and_remaining_account_for_every_deposit() {
    let mut contract = setup();
    let bob = id("bob.near");
    let carol = id("carol.near");
    let mut deposited: u128 = 0;
    let mut now = START;
    for step in 0..40u64 {
        now += 23 * SECOND;
        if step % 3 == 0 {
            contract.sale_deposit_in_token(&bob, 0, 1_000 + step as u128, None, 1, now, 1).unwrap();
            deposited += 1_000 + step as u128;
        } else if step % 3 == 1 {
            contract.sale_deposit_in_token(&carol, 0, 77, None, 1, now, 1).unwrap();
        } else {
            contract.sale_claim_out_tokens(&bob, 0, now, 1).unwrap();
        }
        let shown = contract.get_sale(0, Some(&bob), now, 1).unwrap().unwrap();
        let subscription = shown.subscription.unwrap();
        assert!(subscription.spent_in_balance + subscription.remaining_in_balance >= deposited);
        assert!(subscription.spent_in_balance + subscription.remaining_in_balance <= deposited + 40);
    }
}

#[test]
fn a_redemption_leaves_the_holdings_as_they_were() {
    let schedule = vec![skyward::VestingInterval { start_timestamp: 0, end_timestamp: 10, amount: 1_000 }];
    let mut contract = Contract::new(id("token.skyward.near"), schedule, 0, id("wrap.near"));
    let bob = id("bob.near");
    contract.register_tokens(None, &bob, &tokens(), 1).unwrap();
    contract
        .ft_on_transfer(&bob, &id("token.skyward.near"), 300, FtOnTransferArgs::AccountDeposit)
        .unwrap();
    contract.treasury.internal_deposit(&id("wrap.near"), 10_001).unwrap();
    contract.treasury.internal_deposit(&id("out1.near"), 7).unwrap();
    let before = all_holdings(&contract);
    let redeemed = vec![id("wrap.near"), id("out1.near"), id("wrap.near")];
    contract.redeem_skyward(&bob, 250, &redeemed, 20).unwrap();
    assert_eq!(all_holdings(&contract), before);
    assert_eq!(contract.treasury.skyward_burned_amount, 250);
    // A quarter of the supply redeems a quarter of each balance, and of what is left of
    // a balance that is named twice.
    assert_eq!(contract.balance_of(&bob, &id("wrap.near")), Some(2500 + 1875));
    assert_eq!(contract.balance_of(&bob, &id("out1.near")), Some(1));
    assert_eq!(contract.get_treasury_balance(&id("wrap.near")), Some(10_001 - 2500 - 1875));
    assert!(contract.is_wf());
}

#[test]
fn a_withdrawal_takes_what_it_returns_give_or_take_one() {
    let bob = id("bob.near");
    let carol = id("carol.near");
    for (deposit, other, withdrawn, at) in
        [(1_000u128, 77u128, 333u128, 137u64), (10, 3, 7, 501), (999_983, 1, 1, 999), (5, 5, 5, 250)]
    {
        let mut contract = setup();
        contract.sale_deposit_in_token(&bob, 0, deposit, None, 1, START, 1).unwrap();
        contract.sale_deposit_in_token(&carol, 0, other, None, 1, START, 1).unwrap();
        let now = START + at * SECOND;
        let before = contract.get_sale(0, Some(&bob), now, 1).unwrap().unwrap().subscription.unwrap();
        assert_eq!(before.spent_in_balance + before.remaining_in_balance, deposit);
        let held = contract.balance_of(&bob, &id("wrap.near")).unwrap();
        let shares = withdrawn.min(before.shares);
        contract.sale_withdraw_in_token(&bob, 0, Some(shares), now, 1).unwrap();
        let returned = contract.balance_of(&bob, &id("wrap.near")).unwrap() - held;
        let after = contract.get_sale(0, Some(&bob), now, 1).unwrap().unwrap().subscription;
        if let Some(after) = after {
            assert_eq!(after.spent_in_balance, before.spent_in_balance);
            let accounted = after.spent_in_balance + after.remaining_in_balance + returned;
            assert!(accounted + 1 >= deposit && accounted <= deposit + 1);
        }
        assert!(contract.is_wf());
    }
}

#[test]
fn a_deposit_adds_what_is_pledged_to_spent_and_remaining() {
    let mut contract = setup();
    let bob = id("bob.near");
    contract.sale_deposit_in_token(&bob, 0, 1_000, None, 1, START, 1).unwrap();
    let now = START + 333 * SECOND;
    let before = contract.get_sale(0, Some(&bob), now, 1).unwrap().unwrap().subscription.unwrap();
    assert_eq!(before.spent_in_balance, 333);
    assert_eq!(before.remaining_in_balance, 667);
    contract.sale_deposit_in_token(&bob, 0, 500, None, 1, now, 1).unwrap();
    let stored = contract.accounts.accounts[1].subs.subs[0].duplicate();
    assert_eq!(stored.spent_in_balance_without_shares + stored.last_in_balance, 1_500);
    assert_eq!(stored.spent_in_balance_without_shares, 333);
    assert_eq!(stored.last_in_balance, 667 + 500);
}
