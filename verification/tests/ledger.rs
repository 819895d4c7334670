use primitive_types::U256;
use skyward::account::Account;
use skyward::balances::TokenBalances;
use skyward::errors::Error;
use skyward::permissions;
use skyward::sale::{Sale, SaleInput, SaleInputOutToken};
use skyward::sub::Subscription;
use skyward::treasury::{checked_total_vested, Treasury, VestingInterval};
use skyward::utils::{
    assert_at_least_one_yocto, refund_extra_storage_deposit, refund_released_storage,
};
use skyward::versions::{OldSale, VAccount, VSale, VSubscription};
use skyward::{Contract, FtOnTransferArgs};

fn id(name: &str) -> String {
    name.to_string()
}

fn treasury(schedule: Vec<VestingInterval>) -> Treasury {
    Treasury::new(id("token.skyward.near"), schedule, 7, id("wrap.near"))
}

fn interval(start: u64, end: u64, amount: u128) -> VestingInterval {
    VestingInterval { start_timestamp: start, end_timestamp: end, amount }
}

#[test]
fn token_balances_keep_insertion_order() {
    let mut balances = TokenBalances::new();
    assert_eq!(balances.len(), 0);
    assert_eq!(balances.get(&id("a")), None);
    balances.insert(&id("a"), 1);
    balances.insert(&id("b"), 2);
    balances.insert(&id("a"), 3);
    assert_eq!(balances.len(), 2);
    assert_eq!(balances.get(&id("a")), Some(3));
    assert_eq!(balances.get(&id("b")), Some(2));
    assert_eq!(balances.find(&id("b")), Some(1));
    assert_eq!(balances.entry(0), (id("a"), 3));
    assert_eq!(balances.entry(1), (id("b"), 2));
    let copy = balances.duplicate();
    assert_eq!(copy.token_ids, balances.token_ids);
    assert_eq!(copy.amounts, balances.amounts);
}

#[test]
fn account_deposit_and_withdraw() {
    let mut account = Account::new();
    assert_eq!(account.internal_token_deposit(&id("a"), 1), Err(Error::TokenNotRegistered));
    assert_eq!(account.internal_token_withdraw(&id("a"), 0), Err(Error::TokenNotRegistered));
    account.balances.insert(&id("a"), 0);
    assert_eq!(account.internal_token_deposit(&id("a"), 5), Ok(()));
    assert_eq!(account.internal_token_withdraw(&id("a"), 6), Err(Error::NotEnoughBalance));
    assert_eq!(account.internal_token_withdraw(&id("a"), 2), Ok(()));
    assert_eq!(account.balances.get(&id("a")), Some(3));
    assert_eq!(
        account.internal_token_deposit(&id("a"), u128::MAX - 2),
        Err(Error::BalanceOverflow)
    );
    assert_eq!(account.internal_token_deposit(&id("a"), u128::MAX - 3), Ok(()));
    assert_eq!(account.balances.get(&id("a")), Some(u128::MAX));
    account.internal_add_sale(4);
    account.internal_add_sale(2);
    account.internal_add_sale(4);
    assert_eq!(account.sales, vec![4, 2]);
}

#[test]
fn treasury_never_holds_the_protocol_token() {
    let mut treasury = treasury(Vec::new());
    assert_eq!(
        treasury.internal_deposit(&id("token.skyward.near"), 0),
        Err(Error::TreasuryCanNotContainSkyward)
    );
    assert_eq!(treasury.internal_donate(&id("token.skyward.near"), 5), Ok(()));
    assert_eq!(treasury.skyward_burned_amount, 5);
    assert_eq!(treasury.balances.len(), 0);
    assert_eq!(treasury.internal_withdraw(&id("token.skyward.near"), 0), Ok(()));
    assert_eq!(treasury.balances.len(), 0);
    assert_eq!(
        treasury.internal_withdraw(&id("token.skyward.near"), 1),
        Err(Error::NotEnoughBalance)
    );
    assert_eq!(
        treasury.internal_donate(&id("token.skyward.near"), u128::MAX),
        Err(Error::BalanceOverflow)
    );
    assert_eq!(treasury.skyward_burned_amount, 5);
}

#[test]
fn treasury_deposit_and_withdraw() {
    let mut treasury = treasury(Vec::new());
    assert_eq!(treasury.internal_deposit(&id("a"), 4), Ok(()));
    assert_eq!(treasury.internal_donate(&id("a"), 6), Ok(()));
    assert_eq!(treasury.balances.get(&id("a")), Some(10));
    assert_eq!(treasury.internal_withdraw(&id("a"), 11), Err(Error::NotEnoughBalance));
    assert_eq!(treasury.internal_withdraw(&id("a"), 3), Ok(()));
    assert_eq!(treasury.balances.get(&id("a")), Some(7));
    assert_eq!(treasury.internal_deposit(&id("a"), u128::MAX - 6), Err(Error::BalanceOverflow));
    assert_eq!(treasury.internal_withdraw(&id("b"), 0), Ok(()));
    assert_eq!(treasury.balances.get(&id("b")), Some(0));
    assert_eq!(treasury.internal_withdraw(&id("c"), 1), Err(Error::NotEnoughBalance));
    assert_eq!(treasury.balances.get(&id("c")), None);
    assert_eq!(treasury.listing_fee_near, 7);
    assert_eq!(treasury.locked_attached_deposits, 0);
}

#[test]
fn circulating_supply_unlocks_linearly() {
    let mut treasury = treasury(vec![interval(100, 200, 1000), interval(150, 250, 10)]);
    assert_eq!(treasury.circulating_supply(0), 0);
    assert_eq!(treasury.circulating_supply(100), 0);
    assert_eq!(treasury.circulating_supply(101), 10);
    assert_eq!(treasury.circulating_supply(150), 500);
    assert_eq!(treasury.circulating_supply(175), 750 + 2);
    assert_eq!(treasury.circulating_supply(199), 990 + 4);
    assert_eq!(treasury.circulating_supply(200), 1000 + 5);
    assert_eq!(treasury.circulating_supply(250), 1010);
    assert_eq!(treasury.circulating_supply(u64::MAX), 1010);
    assert_eq!(treasury.unlocked_supply(175), 752);
    treasury.internal_donate(&id("token.skyward.near"), 600).unwrap();
    assert_eq!(treasury.circulating_supply(150), 0);
    assert_eq!(treasury.circulating_supply(175), 152);
    assert_eq!(treasury.circulating_supply(250), 410);
}

#[test]
fn circulating_supply_is_monotonic_in_time() {
    let treasury = treasury(vec![interval(10, 20, 7), interval(5, 50, 1000), interval(30, 30, 3)]);
    let mut last = 0;
    for now in 0..60 {
        let supply = treasury.circulating_supply(now);
        assert!(supply >= last);
        last = supply;
    }
    assert_eq!(last, 1010);
}

#[test]
fn total_vested_is_checked() {
    assert_eq!(checked_total_vested(&vec![]), Some(0));
    assert_eq!(checked_total_vested(&vec![interval(0, 1, 5), interval(0, 1, 6)]), Some(11));
    assert_eq!(checked_total_vested(&vec![interval(0, 1, u128::MAX), interval(0, 1, 1)]), None);
}

#[test]
fn storage_deposit_refunds() {
    assert_eq!(assert_at_least_one_yocto(0), Err(Error::NeedAtLeastOneYocto));
    assert_eq!(assert_at_least_one_yocto(1), Ok(()));
    assert_eq!(refund_extra_storage_deposit(10, 5, 100, 20), Ok(Some(30)));
    assert_eq!(refund_extra_storage_deposit(10, 5, 71, 20), Ok(None));
    assert_eq!(refund_extra_storage_deposit(10, 5, 72, 20), Ok(Some(2)));
    assert_eq!(refund_extra_storage_deposit(10, 5, 70, 20), Ok(None));
    assert_eq!(
        refund_extra_storage_deposit(10, 5, 69, 20),
        Err(Error::NotEnoughAttachedBalance)
    );
    assert_eq!(
        refund_extra_storage_deposit(10, 0, 19, 20),
        Err(Error::NotEnoughAttachedBalance)
    );
    assert_eq!(
        refund_extra_storage_deposit(u128::MAX, 2, u128::MAX, 0),
        Err(Error::NotEnoughAttachedBalance)
    );
    assert_eq!(refund_released_storage(10, 0, 1), None);
    assert_eq!(refund_released_storage(10, 3, 1), Some(31));
    assert_eq!(refund_released_storage(u128::MAX, 2, 1), None);
}

#[test]
fn withdraw_token_and_compensation() {
    let mut contract = Contract::new(id("token.skyward.near"), Vec::new(), 0, id("wrap.near"));
    let alice = id("alice.near");
    let token = id("a.near");
    assert_eq!(contract.withdraw_token(&alice, &token, None), Err(Error::AccountNotFound));
    contract.register_token(None, &id("bob.near"), id("b.near"), 1).unwrap();
    contract.register_token(Some(alice.clone()), &id("bob.near"), token.clone(), 1).unwrap();
    assert_eq!(contract.withdraw_token(&alice, &id("b.near"), None), Err(Error::TokenNotRegistered));
    assert_eq!(
        contract.withdraw_token(&alice, &id("b.near"), Some(0)),
        Err(Error::TokenNotRegistered)
    );
    assert_eq!(
        contract.ft_on_transfer(&alice, &token, 10, FtOnTransferArgs::AccountDeposit),
        Ok(0)
    );
    assert_eq!(
        contract.ft_on_transfer(&alice, &id("b.near"), 10, FtOnTransferArgs::AccountDeposit),
        Err(Error::TokenNotRegistered)
    );
    assert_eq!(
        contract.ft_on_transfer(&id("carol.near"), &token, 10, FtOnTransferArgs::AccountDeposit),
        Err(Error::AccountNotFound)
    );
    assert_eq!(contract.withdraw_token(&alice, &token, Some(11)), Err(Error::NotEnoughBalance));
    assert_eq!(contract.withdraw_token(&alice, &token, Some(4)), Ok(4));
    assert_eq!(contract.balance_of(&alice, &token), Some(6));
    assert_eq!(contract.after_ft_transfer(&alice, &token, 4, false), Ok(false));
    assert_eq!(contract.balance_of(&alice, &token), Some(10));
    assert_eq!(contract.withdraw_token(&alice, &token, None), Ok(10));
    assert_eq!(contract.after_ft_transfer(&alice, &token, 10, true), Ok(true));
    assert_eq!(contract.balance_of(&alice, &token), Some(0));
    assert_eq!(
        contract.after_ft_transfer(&id("carol.near"), &token, 10, false),
        Err(Error::AccountNotFound)
    );
    assert_eq!(contract.get_num_balances(&alice), 1);
    assert_eq!(contract.get_num_balances(&id("bob.near")), 1);
    assert_eq!(contract.get_num_balances(&id("carol.near")), 0);
    assert_eq!(contract.get_treasury_num_balances(), 2);
}

#[test]
fn registration_enters_the_treasury_ledger_too() {
    let mut contract = Contract::new(id("token.skyward.near"), Vec::new(), 0, id("wrap.near"));
    let alice = id("alice.near");
    let tokens = vec![id("a.near"), id("token.skyward.near"), id("b.near"), id("a.near")];
    assert_eq!(contract.register_tokens(None, &alice, &tokens, 1), Ok(()));
    assert_eq!(
        contract.balances_of(&alice, None, None),
        vec![(id("a.near"), 0), (id("token.skyward.near"), 0), (id("b.near"), 0)]
    );
    assert_eq!(
        contract.get_treasury_balances(None, None),
        vec![(id("a.near"), 0), (id("b.near"), 0)]
    );
    // Registering again leaves a balance alone.
    contract.ft_on_transfer(&alice, &id("a.near"), 5, FtOnTransferArgs::AccountDeposit).unwrap();
    contract.register_token(None, &alice, id("a.near"), 1).unwrap();
    assert_eq!(contract.balance_of(&alice, &id("a.near")), Some(5));
    // An account without tokens exists once it has registered.
    assert_eq!(contract.register_tokens(None, &id("bob.near"), &vec![], 1), Ok(()));
    assert_eq!(contract.withdraw_token(&id("bob.near"), &id("a.near"), Some(0)), Err(Error::TokenNotRegistered));
}

#[test]
fn pages_of_balances() {
    let mut contract = Contract::new(id("token.skyward.near"), Vec::new(), 0, id("wrap.near"));
    let alice = id("alice.near");
    let tokens = vec![id("a"), id("b"), id("c"), id("d")];
    contract.register_tokens(None, &alice, &tokens, 1).unwrap();
    let all = vec![(id("a"), 0), (id("b"), 0), (id("c"), 0), (id("d"), 0)];
    assert_eq!(contract.balances_of(&alice, None, None), all);
    assert_eq!(contract.balances_of(&alice, Some(1), Some(2)), all[1..3].to_vec());
    assert_eq!(contract.balances_of(&alice, Some(3), None), all[3..].to_vec());
    assert_eq!(contract.balances_of(&alice, Some(3), Some(u64::MAX)), all[3..].to_vec());
    assert_eq!(contract.balances_of(&alice, Some(4), None), vec![]);
    assert_eq!(contract.balances_of(&alice, Some(u64::MAX), Some(u64::MAX)), vec![]);
    assert_eq!(contract.balances_of(&alice, None, Some(0)), vec![]);
    assert_eq!(contract.balances_of(&id("bob"), None, None), vec![]);
    assert_eq!(contract.get_treasury_balances(Some(2), Some(1)), all[2..3].to_vec());
}

#[test]
fn claim_treasury_keeps_failed_legs() {
    let mut contract = Contract::new(id("token.skyward.near"), Vec::new(), 0, id("wrap.near"));
    contract.treasury.internal_deposit(&id("a"), 5).unwrap();
    contract.treasury.internal_deposit(&id("b"), 0).unwrap();
    contract.treasury.internal_deposit(&id("c"), 7).unwrap();
    let transfers = contract.claim_treasury();
    assert_eq!(transfers, vec![(id("a"), 5), (id("c"), 7)]);
    // Nothing is zeroed before the transfers have resolved.
    assert_eq!(contract.get_treasury_balance(&id("a")), Some(5));
    contract.after_claim_treasury(&vec![id("a"), id("c")], &vec![false, true]);
    assert_eq!(contract.get_treasury_balance(&id("a")), Some(5));
    assert_eq!(contract.get_treasury_balance(&id("c")), Some(0));
    assert_eq!(contract.claim_treasury(), vec![(id("a"), 5)]);
    contract.after_claim_treasury(&vec![id("a"), id("token.skyward.near")], &vec![true, true]);
    assert_eq!(contract.get_treasury_balance(&id("a")), Some(0));
    assert_eq!(contract.get_treasury_balance(&id("token.skyward.near")), None);
    assert_eq!(contract.after_near_deposit(5, false), Ok(false));
    assert_eq!(contract.get_treasury_balance(&id("wrap.near")), None);
}

#[test]
fn permissions_contract_keeps_a_list() {
    let owner = id("dao.near");
    let mut contract = permissions::Contract::new(owner.clone());
    assert!(contract.is_permissions_contract());
    assert!(contract.called_by_owner(&owner));
    assert!(!contract.called_by_owner(&id("eve.near")));
    assert!(!contract.is_approved(&id("alice.near"), 0));
    contract.approve(&owner, &id("alice.near"));
    contract.approve(&owner, &id("bob.near"));
    contract.approve(&owner, &id("alice.near"));
    assert_eq!(contract.approved_accounts.len(), 2);
    assert!(contract.is_approved(&id("alice.near"), 0));
    assert!(contract.is_approved(&id("alice.near"), 7));
    assert!(contract.is_approved(&id("bob.near"), 0));
    contract.reject(&owner, &id("alice.near"));
    assert!(!contract.is_approved(&id("alice.near"), 0));
    assert!(contract.is_approved(&id("bob.near"), 0));
    contract.reject(&owner, &id("carol.near"));
    assert_eq!(contract.approved_accounts, vec![id("bob.near")]);
}

fn running_sale() -> Sale {
    let input = SaleInput {
        title: id("t"),
        url: None,
        permissions_contract_id: None,
        out_tokens: vec![SaleInputOutToken {
            token_account_id: id("a"),
            balance: 1000,
            referral_bpt: None,
        }],
        in_token_account_id: id("wrap.near"),
        start_time: 100,
        duration: 100,
    };
    let mut sale = Sale::from_input(input, id("alice"), &id("token.skyward.near"), 1);
    sale.total_shares = 10;
    sale.in_token_remaining = 10;
    sale
}

#[test]
fn touch_steps() {
    let mut sale = running_sale();
    sale.touch(50, 2);
    assert_eq!(sale.last_timestamp, 100);
    sale.touch(100, 2);
    assert_eq!(sale.last_timestamp, 100);
    assert_eq!(sale.out_tokens[0].remaining, 1000);

    sale.touch(150, 3);
    assert_eq!(sale.last_timestamp, 150);
    assert_eq!(sale.out_tokens[0].remaining, 500);
    assert_eq!(sale.out_tokens[0].distributed, 500);
    assert_eq!(sale.out_tokens[0].treasury_unclaimed, Some(5));
    assert_eq!(sale.in_token_remaining, 5);
    assert_eq!(sale.in_token_paid, 5);
    assert_eq!(sale.in_token_paid_unclaimed, 5);
    assert_eq!(sale.end_block_height, None);
    // 495 * 10^38 / 10 = 495 * 10^37, as 256 bits.
    let per_share = U256::from(495u64) * U256::from(10u128.pow(37));
    assert_eq!(sale.out_tokens[0].per_share, per_share.0);
    assert!(per_share > U256::from(u128::MAX));
    assert_eq!(sale.shares_to_in_balance(4), 2);
    assert_eq!(sale.shares_to_in_balance(0), 0);
    assert_eq!(sale.in_amount_to_shares(3, false), Ok(6));
    assert_eq!(sale.in_amount_to_shares(3, true), Ok(6));

    // A quarter of what is left of the time: a quarter of what is left of the pool.
    sale.touch(162, 4);
    assert_eq!(sale.out_tokens[0].remaining, 380);
    assert_eq!(sale.out_tokens[0].distributed, 620);
    assert_eq!(sale.out_tokens[0].treasury_unclaimed, Some(6));
    assert_eq!(sale.in_token_remaining, 4);
    assert_eq!(sale.in_amount_to_shares(3, false), Ok(7));
    assert_eq!(sale.in_amount_to_shares(3, true), Ok(8));
    assert_eq!(sale.in_amount_to_shares(u128::MAX / 2, false), Err(Error::SharesOverflow));
    assert_eq!(sale.in_amount_to_shares(u128::MAX, true), Err(Error::SharesOverflow));

    sale.touch(1000, 9);
    assert!(sale.has_ended());
    assert_eq!(sale.last_timestamp, 200);
    assert_eq!(sale.end_block_height, Some(9));
    assert_eq!(sale.out_tokens[0].remaining, 0);
    assert_eq!(sale.out_tokens[0].distributed, 1000);
    assert_eq!(sale.in_token_remaining, 0);
    assert_eq!(sale.in_token_paid, 10);
    assert_eq!(sale.in_amount_to_shares(3, false), Err(Error::SaleEnded));
    sale.touch(2000, 10);
    assert_eq!(sale.end_block_height, Some(9));
}

#[test]
fn shares_are_one_to_one_without_subscribers() {
    let mut sale = running_sale();
    sale.total_shares = 0;
    sale.in_token_remaining = 0;
    assert_eq!(sale.in_amount_to_shares(17, false), Ok(17));
    assert_eq!(sale.in_amount_to_shares(17, true), Ok(17));
    sale.touch(150, 3);
    assert_eq!(sale.last_timestamp, 150);
    assert_eq!(sale.out_tokens[0].remaining, 1000);
    assert_eq!(sale.shares_to_in_balance(5), 0);
}

#[test]
fn subscription_touch_takes_earnings() {
    let mut sale = running_sale();
    let mut subscription = Subscription::new(&sale, Some(id("ref")));
    assert_eq!(subscription.shares, 0);
    assert_eq!(subscription.claimed_out_balance, vec![0]);
    assert_eq!(subscription.last_out_per_share, vec![[0, 0, 0, 0]]);
    assert_eq!(subscription.referral_id, Some(id("ref")));
    subscription.shares = 4;
    subscription.last_in_balance = 4;
    sale.touch(150, 3);
    assert_eq!(subscription.touch(&sale), Ok(vec![198]));
    assert_eq!(subscription.last_in_balance, 2);
    assert_eq!(subscription.spent_in_balance_without_shares, 2);
    assert_eq!(subscription.last_out_per_share, vec![sale.out_tokens[0].per_share]);
    assert_eq!(subscription.touch(&sale), Ok(vec![0]));
    assert_eq!(subscription.spent_in_balance_without_shares, 2);

    // A snapshot ahead of the sale cannot be touched, and stays as it is.
    let mut ahead = subscription.duplicate();
    ahead.last_out_per_share = vec![[0, 0, 0, 1]];
    assert_eq!(ahead.touch(&sale), Err(Error::BalanceOverflow));
    assert_eq!(ahead.last_out_per_share, vec![[0, 0, 0, 1]]);
    // Earnings beyond 128 bits cannot be touched either.
    let mut rich = Subscription::new(&running_sale(), None);
    rich.shares = u128::MAX;
    assert_eq!(rich.touch(&sale), Err(Error::BalanceOverflow));
}

#[test]
fn stored_layouts_lift() {
    let sale = running_sale();
    let old = OldSale {
        owner_id: id("alice"),
        title: id("t"),
        url: None,
        permissions_contract_id: None,
        out_tokens: vec![sale.out_tokens[0].duplicate()],
        in_token_account_id: id("wrap.near"),
        in_token_remaining: 10,
        in_token_paid_unclaimed: 0,
        in_token_paid: 0,
        start_time: 100,
        duration: 100,
        total_shares: 10,
        last_timestamp: 100,
    };
    let lifted = VSale::First(old).into_sale(150, 3);
    assert_eq!(lifted.start_block_height, 0);
    assert_eq!(lifted.end_block_height, None);
    assert_eq!(lifted.last_timestamp, 150);
    assert_eq!(lifted.out_tokens[0].remaining, 500);
    let current = VSale::from_sale(sale).into_sale(150, 3);
    assert_eq!(current.last_timestamp, 100);
    assert_eq!(current.start_block_height, 1);
    let mut account = Account::new();
    account.internal_add_sale(3);
    let account = VAccount::from_account(account).into_account();
    assert_eq!(account.sales, vec![3]);
    let mut subscription = Subscription::new(&running_sale(), None);
    subscription.shares = 9;
    let subscription = VSubscription::from_subscription(subscription).into_subscription();
    assert_eq!(subscription.shares, 9);
}

#[test]
fn well_formedness_is_checked() {
    let mut sale = running_sale();
    assert!(sale.is_wf());
    sale.touch(150, 3);
    assert!(sale.is_wf());
    assert!(sale.out_tokens[0].is_wf());
    let mut broken = sale.duplicate();
    broken.in_token_remaining = broken.total_shares + 1;
    assert!(!broken.is_wf());
    let mut broken = sale.duplicate();
    broken.out_tokens[0].per_share = [0, 0, 0, 1];
    assert!(!broken.is_wf());
    assert!(!broken.out_tokens[0].is_wf());
    let mut broken = sale.duplicate();
    broken.out_tokens[0].remaining = u128::MAX;
    assert!(!broken.is_wf());
    let mut broken = sale.duplicate();
    broken.out_tokens[0].treasury_unclaimed = Some(501);
    assert!(!broken.is_wf());
    let mut broken = sale.duplicate();
    broken.out_tokens[0].referral_bpt = Some(10_001);
    assert!(!broken.is_wf());
    let mut broken = sale.duplicate();
    broken.last_timestamp = 201;
    assert!(!broken.is_wf());
    let mut broken = sale.duplicate();
    broken.in_token_paid_unclaimed = 6;
    assert!(!broken.is_wf());

    let mut contract = Contract::new(id("token.skyward.near"), Vec::new(), 0, id("wrap.near"));
    assert!(contract.is_wf());
    contract.register_tokens(None, &id("alice"), &vec![id("a"), id("b")], 1).unwrap();
    contract.register_tokens(None, &id("bob"), &vec![id("a")], 1).unwrap();
    assert!(contract.is_wf());
    let mut broken = contract.duplicate();
    broken.num_sales = 1;
    assert!(!broken.is_wf());
    let mut broken = contract.duplicate();
    broken.accounts.account_ids[1] = id("alice");
    assert!(!broken.is_wf());
    let mut broken = contract.duplicate();
    broken.accounts.accounts[0].balances.token_ids[1] = id("a");
    assert!(!broken.is_wf());
    assert!(!broken.accounts.accounts[0].is_wf());
    let mut broken = contract.duplicate();
    broken.accounts.accounts[0].sales = vec![1, 2, 1];
    assert!(!broken.is_wf());
    let mut broken = contract.duplicate();
    broken.treasury.balances.insert(&id("token.skyward.near"), 0);
    assert!(!broken.is_wf());
    assert!(!broken.treasury.is_wf());
    let mut broken = contract.duplicate();
    broken.treasury.w_near_token_id = id("token.skyward.near");
    assert!(!broken.is_wf());
    let mut broken = contract.duplicate();
    broken.treasury.skyward_vesting_schedule = vec![interval(0, 1, u128::MAX), interval(0, 1, 1)];
    assert!(!broken.is_wf());
    let mut broken = contract.duplicate();
    broken.sales.push(sale.duplicate());
    broken.num_sales = 1;
    assert!(broken.is_wf());
    broken.sales[0].total_shares = 0;
    assert!(!broken.is_wf());

    let mut list = permissions::Contract::new(id("dao"));
    list.approve(&id("dao"), &id("alice"));
    assert!(list.is_wf());
    list.approved_accounts.push(id("alice"));
    assert!(!list.is_wf());
    let mut subscription = Subscription::new(&sale, None);
    assert!(subscription.is_wf());
    subscription.claimed_out_balance.push(0);
    assert!(!subscription.is_wf());
}
