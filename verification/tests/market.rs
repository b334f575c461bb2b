use moneymarket::bignumber::{Decimal256, Uint256};
use moneymarket::market::borrow;
use moneymarket::market::contract::{
    check_initial_deposit, execute_epoch_operations, instantiate_state, query_epoch_state, receive_cw20,
    register_aterra, register_overseer_contract, update_config, INITIAL_DEPOSIT_AMOUNT,
};
use moneymarket::market::deposit;
use moneymarket::market::error::MarketError;
use moneymarket::market::interest::{compute_borrower_interest, compute_interest_raw};
use moneymarket::market::math::{decimal_division, decimal_multiplication, reverse_decimal};
use moneymarket::market::msg::Cw20HookMsg;
use moneymarket::market::state::{new_borrower_info, BorrowerInfo, Config, State};
use moneymarket::querier::Coin;

// the block height of the test environment
const HEIGHT: u64 = 12345;

fn addr(s: &str) -> Vec<u8> {
    s.as_bytes().to_vec()
}

fn dec(v: u64) -> Decimal256 {
    Decimal256::from_uint256(Uint256::from(v))
}

fn u(v: u128) -> Uint256 {
    Uint256::from(v)
}

fn d(s: &str) -> Decimal256 {
    Decimal256::from_str(s).unwrap()
}

fn uusd(amount: u128) -> Vec<Coin> {
    vec![Coin { denom: "uusd".to_string(), amount }]
}

fn mock_config() -> Config {
    Config {
        contract_addr: addr("cosmos2contract"),
        owner_addr: addr("owner"),
        aterra_contract: addr("AT-uusd"),
        ve_aterra_contract: addr("ve-AT-uusd"),
        interest_model: addr("interest"),
        distribution_model: addr("distribution"),
        overseer_contract: addr("overseer"),
        collector_contract: addr("collector"),
        distributor_contract: addr("distributor"),
        stable_denom: "uusd".to_string(),
        max_borrow_factor: Decimal256::one(),
    }
}

fn mock_state(total_liabilities: u64, total_reserves: u64) -> State {
    State {
        total_liabilities: dec(total_liabilities),
        total_reserves: dec(total_reserves),
        last_interest_updated: HEIGHT,
        last_reward_updated: HEIGHT,
        global_interest_index: Decimal256::one(),
        global_reward_index: Decimal256::zero(),
        anc_emission_rate: Decimal256::one(),
        prev_aterra_supply: Uint256::zero(),
        prev_aterra_exchange_rate: Decimal256::one(),
        ve_aterra_premium_rate: Decimal256::one(),
        prev_ve_aterra_supply: Uint256::zero(),
        prev_ve_aterra_exchange_rate: Decimal256::one(),
        last_ve_aterra_updated: HEIGHT,
    }
}

// the overseer's target deposit rate and the interest model's borrow rate
// in the test environment
fn target() -> Decimal256 {
    Decimal256::percent(1)
}

fn rate() -> Decimal256 {
    Decimal256::percent(1)
}

#[test]
fn proper_compute_borrower_interest() {
    let state0 = mock_state(1000000, 0);
    let mut liability1 = BorrowerInfo {
        interest_index: Decimal256::one(),
        reward_index: Decimal256::zero(),
        loan_amount: Uint256::zero(),
        pending_rewards: Decimal256::zero(),
    };
    compute_borrower_interest(&state0, &mut liability1);
    let liability2 = BorrowerInfo {
        interest_index: Decimal256::one(),
        reward_index: Decimal256::zero(),
        loan_amount: Uint256::zero(),
        pending_rewards: Decimal256::zero(),
    };
    assert_eq!(liability1, liability2);

    let mut state1 = mock_state(300000, 1000);
    state1.global_interest_index = dec(2);
    state1.anc_emission_rate = Decimal256::zero();
    let mut liability3 = BorrowerInfo {
        interest_index: dec(4),
        reward_index: Decimal256::zero(),
        loan_amount: u(80),
        pending_rewards: Decimal256::zero(),
    };
    compute_borrower_interest(&state1, &mut liability3);
    let liability4 = BorrowerInfo {
        interest_index: dec(2),
        reward_index: Decimal256::zero(),
        loan_amount: u(40),
        pending_rewards: Decimal256::zero(),
    };
    assert_eq!(liability3, liability4);
}

#[test]
fn proper_compute_interest() {
    // the market holds 2,000,000 with a deposit of 1000 among them; 2,000,000 aterra
    let balance = u(2000000 - 1000);
    let supply = u(2000000);
    let mut state = mock_state(1000000, 0);
    compute_interest_raw(&mut state, HEIGHT, balance, supply, Uint256::zero(), rate(), target());
    assert_eq!(state, mock_state(1000000, 0));

    compute_interest_raw(&mut state, HEIGHT + 100, balance, supply, Uint256::zero(), rate(), target());
    let mut expected = mock_state(2000000, 0);
    expected.last_interest_updated = HEIGHT + 100;
    expected.global_interest_index = dec(2);
    expected.prev_aterra_supply = u(2000000);
    expected.prev_aterra_exchange_rate = Decimal256::from_ratio(u(19995), u(10000));
    assert_eq!(state, expected);

    // exceed target_deposit_rate = 0.01
    let mut state = mock_state(0, 0);
    state.last_interest_updated = HEIGHT + 100;
    state.last_reward_updated = HEIGHT + 100;
    state.prev_aterra_supply = u(2000000);
    // deposit_rate: 0.02
    compute_interest_raw(&mut state, HEIGHT + 200, u(6000000), supply, Uint256::zero(), rate(), target());
    let mut expected = mock_state(0, 2000000);
    expected.last_interest_updated = HEIGHT + 200;
    expected.last_reward_updated = HEIGHT + 100;
    expected.global_interest_index = dec(2);
    expected.prev_aterra_supply = u(2000000);
    expected.prev_aterra_exchange_rate = dec(2);
    assert_eq!(state, expected);
}

#[test]
fn proper_compute_exchange_rate() {
    let state0 = mock_state(50000, 550000);
    let exchange_rate = deposit::compute_exchange_rate(
        &state0,
        HEIGHT,
        u(1000000),
        Uint256::zero(),
        u(2000000),
        Some(u(1000000)),
    );
    assert_eq!(exchange_rate, Decimal256::percent(50));
}

#[test]
fn tests_proper_initialization() {
    assert_eq!(check_initial_deposit(&uusd(INITIAL_DEPOSIT_AMOUNT), &"uusd".to_string()), Ok(()));
    let state = instantiate_state(HEIGHT, Decimal256::one());

    let mut config = mock_config();
    config.aterra_contract = vec![];
    config.overseer_contract = vec![];
    // Register anchor token contract
    let config = register_aterra(config, addr("AT-uusd")).unwrap();
    // Cannot register again
    assert_eq!(register_aterra(config.clone(), addr("AT-uusd")), Err(MarketError::Unauthorized));
    // Register overseer contract
    let config = register_overseer_contract(config, addr("overseer")).unwrap();
    // Cannot register again
    assert_eq!(register_overseer_contract(config.clone(), addr("overseer")), Err(MarketError::Unauthorized));

    assert_eq!(config.owner_addr, addr("owner"));
    assert_eq!(config.aterra_contract, addr("AT-uusd"));
    assert_eq!(config.interest_model, addr("interest"));
    assert_eq!(config.distribution_model, addr("distribution"));
    assert_eq!(config.distributor_contract, addr("distributor"));
    assert_eq!(config.collector_contract, addr("collector"));
    assert_eq!(config.overseer_contract, addr("overseer"));
    assert_eq!(config.stable_denom, "uusd".to_string());
    assert_eq!(config.max_borrow_factor, Decimal256::one());

    assert_eq!(state.total_liabilities, Decimal256::zero());
    assert_eq!(state.total_reserves, Decimal256::zero());
    assert_eq!(state.last_interest_updated, HEIGHT);
    assert_eq!(state.global_interest_index, Decimal256::one());
    assert_eq!(state.anc_emission_rate, Decimal256::one());
    assert_eq!(state.prev_aterra_supply, Uint256::zero());
    assert_eq!(state.prev_aterra_exchange_rate, Decimal256::one());
}

#[test]
fn initial_deposit_must_match() {
    assert_eq!(
        check_initial_deposit(&uusd(10), &"uusd".to_string()),
        Err(MarketError::InitialFundsNotDeposited(INITIAL_DEPOSIT_AMOUNT, "uusd".to_string()))
    );
    assert_eq!(
        check_initial_deposit(&vec![Coin { denom: "ukrw".to_string(), amount: INITIAL_DEPOSIT_AMOUNT }], &"uusd".to_string()),
        Err(MarketError::InitialFundsNotDeposited(INITIAL_DEPOSIT_AMOUNT, "uusd".to_string()))
    );
}

#[test]
fn market_update_config() {
    let config = mock_config();
    let state = instantiate_state(HEIGHT, Decimal256::one());

    // update owner
    let (config, state) = update_config(
        config, state, &addr("owner"), HEIGHT, Some(addr("owner1")), None, None, None,
        u(INITIAL_DEPOSIT_AMOUNT), rate(), target(), Uint256::zero(), Uint256::zero(),
    )
    .unwrap();
    assert_eq!(config.owner_addr, addr("owner1"));

    // update left items
    let (config, state) = update_config(
        config,
        state,
        &addr("owner1"),
        HEIGHT,
        None,
        Some(addr("interest2")),
        Some(addr("distribution2")),
        Some(Decimal256::percent(100)),
        u(INITIAL_DEPOSIT_AMOUNT),
        rate(),
        target(),
        Uint256::zero(),
        Uint256::zero(),
    )
    .unwrap();
    assert_eq!(config.owner_addr, addr("owner1"));
    assert_eq!(config.interest_model, addr("interest2"));
    assert_eq!(config.distribution_model, addr("distribution2"));
    assert_eq!(config.max_borrow_factor, Decimal256::percent(100));

    // Unauthorized err
    let res = update_config(
        config, state, &addr("owner"), HEIGHT, None, None, None, None,
        u(INITIAL_DEPOSIT_AMOUNT), rate(), target(), Uint256::zero(), Uint256::zero(),
    );
    assert!(matches!(res, Err(MarketError::Unauthorized)));
}

#[test]
fn interest_accrues_before_the_interest_model_changes() {
    let state = mock_state(1000000, 0);
    let (_, new_state) = update_config(
        mock_config(), state, &addr("owner"), HEIGHT + 100, None, Some(addr("interest2")), None, None,
        u(INITIAL_DEPOSIT_AMOUNT), rate(), target(), Uint256::zero(), Uint256::zero(),
    )
    .unwrap();
    assert_eq!(new_state.total_liabilities, dec(2000000));
    assert_eq!(new_state.last_interest_updated, HEIGHT + 100);
    // a new owner alone accrues nothing
    let (_, new_state) = update_config(
        mock_config(), state, &addr("owner"), HEIGHT + 100, Some(addr("owner1")), None, None, None,
        u(INITIAL_DEPOSIT_AMOUNT), rate(), target(), Uint256::zero(), Uint256::zero(),
    )
    .unwrap();
    assert_eq!(new_state, state);
}

#[test]
fn deposit_stable_huge_amount() {
    let config = mock_config();
    let state = instantiate_state(HEIGHT, Decimal256::one());

    // Must deposit stable_denom
    let res = deposit::deposit_stable(
        &config,
        state,
        HEIGHT,
        &vec![Coin { denom: "ukrw".to_string(), amount: 123 }],
        u(INITIAL_DEPOSIT_AMOUNT),
        rate(),
        target(),
        u(INITIAL_DEPOSIT_AMOUNT),
        Uint256::zero(),
    );
    assert_eq!(res, Err(MarketError::ZeroDeposit("uusd".to_string())));

    let (state, mint_amount) = deposit::deposit_stable(
        &config,
        state,
        HEIGHT,
        &uusd(55_555_555_000_000),
        u(INITIAL_DEPOSIT_AMOUNT + 55_555_555_000_000),
        rate(),
        target(),
        u(INITIAL_DEPOSIT_AMOUNT),
        Uint256::zero(),
    )
    .unwrap();
    assert_eq!(mint_amount, u(55_555_555_000_000));

    let (_, mint_amount) = deposit::deposit_stable(
        &config,
        state,
        HEIGHT,
        &uusd(55_555_555_000_000),
        u(111_111_110_000_000),
        rate(),
        target(),
        u(55_555_555_000_000),
        Uint256::zero(),
    )
    .unwrap();
    assert_eq!(mint_amount, u(55_555_555_000_000));
}

#[test]
fn deposit_stable() {
    let config = mock_config();
    let state = instantiate_state(HEIGHT, Decimal256::one());
    let balance = u(INITIAL_DEPOSIT_AMOUNT + 1000000);
    let supply = u(INITIAL_DEPOSIT_AMOUNT);

    // Must deposit stable_denom
    let res = deposit::deposit_stable(
        &config,
        state,
        HEIGHT,
        &vec![Coin { denom: "ukrw".to_string(), amount: 123 }],
        balance,
        rate(),
        target(),
        supply,
        Uint256::zero(),
    );
    assert_eq!(res, Err(MarketError::ZeroDeposit("uusd".to_string())));

    // base denom, zero deposit
    let res = deposit::deposit_stable(&config, state, HEIGHT, &uusd(0), balance, rate(), target(), supply, Uint256::zero());
    assert_eq!(res, Err(MarketError::ZeroDeposit("uusd".to_string())));

    let (new_state, mint_amount) =
        deposit::deposit_stable(&config, state, HEIGHT, &uusd(1000000), balance, rate(), target(), supply, Uint256::zero())
            .unwrap();
    // no block passed: the state is as it was but for the aterra minted
    let mut expected = mock_state(0, 0);
    expected.prev_aterra_supply = u(1000000);
    assert_eq!(new_state, expected);
    assert_eq!(mint_amount, u(1000000));

    // make exchange rate to 50%
    let mut state = mock_state(50000, 550000);
    state.prev_aterra_exchange_rate = Decimal256::from_ratio(u(1), u(2));
    let (_, mint_amount) =
        deposit::deposit_stable(&config, state, HEIGHT, &uusd(1000000), balance, rate(), target(), supply, Uint256::zero())
            .unwrap();
    assert_eq!(mint_amount, u(2000000));

    // Case: compute_interest & compute_reward with block increment
    let (new_state, mint_amount) = deposit::deposit_stable(
        &config,
        state,
        HEIGHT + 100,
        &uusd(1000000),
        balance,
        rate(),
        target(),
        supply,
        Uint256::zero(),
    )
    .unwrap();
    // exchange_rate: 0.55; mint_amount: 1000000 / 0.55 = 1,818,181
    assert_eq!(mint_amount, u(1818181));
    let mut expected = mock_state(100000, 550000);
    expected.global_interest_index = dec(2);
    expected.global_reward_index = d("0.002");
    expected.last_interest_updated = HEIGHT + 100;
    expected.last_reward_updated = HEIGHT + 100;
    expected.prev_aterra_supply = u(INITIAL_DEPOSIT_AMOUNT + 1818181);
    expected.prev_aterra_exchange_rate = Decimal256::from_ratio(u(55), u(100));
    assert_eq!(new_state, expected);
}

#[test]
fn redeem_stable() {
    let config = mock_config();
    let state = instantiate_state(HEIGHT, Decimal256::one());

    // Deposit 1000000
    let (state, _) = deposit::deposit_stable(
        &config,
        state,
        HEIGHT,
        &uusd(1000000),
        u(INITIAL_DEPOSIT_AMOUNT + 1000000),
        rate(),
        target(),
        u(1000000),
        Uint256::zero(),
    )
    .unwrap();

    // Redeem 1000000: only the aterra contract hands the hook on
    assert_eq!(receive_cw20(&config, &addr("addr0000"), Some(Cw20HookMsg::RedeemStable)), Err(MarketError::Unauthorized));
    assert_eq!(receive_cw20(&config, &addr("AT-uusd"), Some(Cw20HookMsg::RedeemStable)), Ok(Cw20HookMsg::RedeemStable));
    let (_, redeemed) = deposit::redeem_stable(
        &config,
        state,
        HEIGHT,
        1000000,
        u(INITIAL_DEPOSIT_AMOUNT + 1000000),
        rate(),
        target(),
        u(2000000),
        Uint256::zero(),
    )
    .unwrap();
    assert_eq!(redeemed, u(1000000));

    // make exchange rate to 50%
    let mut state = mock_state(500000, 100000);
    state.prev_aterra_supply = u(2000000);
    let res = deposit::redeem_stable(&config, state, HEIGHT, 1000000, u(500000), rate(), target(), u(2000000), Uint256::zero());
    assert_eq!(res, Err(MarketError::NoStableAvailable("uusd".to_string())));

    let (new_state, redeemed) =
        deposit::redeem_stable(&config, state, HEIGHT, 1000000, u(600000), rate(), target(), u(2000000), Uint256::zero())
            .unwrap();
    assert_eq!(redeemed, u(500000));
    assert_eq!(new_state.prev_aterra_supply, u(1000000));
}

#[test]
fn borrow_stable() {
    let config = mock_config();
    let state = mock_state(1000000, 0);
    let liability = new_borrower_info();
    let balance = u(INITIAL_DEPOSIT_AMOUNT);
    let limit = u(1000000);
    let height = HEIGHT + 100;

    let (state, liability) = borrow::borrow_stable(
        &config,
        state,
        liability,
        height,
        u(500000),
        limit,
        balance,
        rate(),
        target(),
        Uint256::zero(),
        Uint256::zero(),
    )
    .unwrap();

    // interest_factor = 1% * 100blocks = 1
    // interest_accrued = 1000000
    // global_interest_index = 2
    // total_liabilities = 2500000
    // reward_accrued = 100
    // global_reward_index = 0.0001
    let mut expected = mock_state(2500000, 0);
    expected.last_interest_updated = height;
    expected.last_reward_updated = height;
    expected.global_interest_index = dec(2);
    expected.global_reward_index = d("0.0001");
    assert_eq!(state, expected);

    // after 1 block state
    let mut next = state;
    deposit::settle(&mut next, height + 1, balance, Uint256::zero(), Uint256::zero(), rate(), target());
    let mut expected = mock_state(2525000, 0);
    expected.last_interest_updated = height + 1;
    expected.last_reward_updated = height + 1;
    expected.global_interest_index = d("2.02");
    expected.global_reward_index = d("0.0001008");
    assert_eq!(next, expected);

    let expected_info = BorrowerInfo {
        interest_index: dec(2),
        reward_index: d("0.0001"),
        loan_amount: u(500000),
        pending_rewards: Decimal256::zero(),
    };
    // as of the test environment's block, and as of the block of the borrow
    let info = borrow::query_borrower_info(state, liability, HEIGHT, balance, rate(), target(), Uint256::zero(), Uint256::zero());
    assert_eq!(info, expected_info);
    let info = borrow::query_borrower_info(state, liability, height, balance, rate(), target(), Uint256::zero(), Uint256::zero());
    assert_eq!(info, expected_info);

    // Query to future blocks
    // interest_factor is 100%
    let info = borrow::query_borrower_info(state, liability, height + 100, balance, rate(), target(), Uint256::zero(), Uint256::zero());
    assert_eq!(
        info,
        BorrowerInfo {
            interest_index: dec(4),
            reward_index: d("0.00018"),
            loan_amount: u(1000000),
            pending_rewards: dec(20),
        }
    );

    // Cannot borrow more than borrow limit
    let res = borrow::borrow_stable(
        &config,
        state,
        liability,
        height,
        u(500001),
        limit,
        balance,
        rate(),
        target(),
        Uint256::zero(),
        Uint256::zero(),
    );
    assert_eq!(res, Err(MarketError::BorrowExceedsLimit(u(1000000))));
}

#[test]
fn assert_max_borrow_factor() {
    let mut config = mock_config();
    config.max_borrow_factor = Decimal256::percent(1);
    let state = mock_state(0, 0);
    let liability = new_borrower_info();

    let (state, liability) = borrow::borrow_stable(
        &config,
        state,
        liability,
        HEIGHT,
        u(10000),
        u(1000000),
        u(INITIAL_DEPOSIT_AMOUNT),
        rate(),
        target(),
        Uint256::zero(),
        Uint256::zero(),
    )
    .unwrap();
    assert_eq!(liability.loan_amount, u(10000));

    // subtract borrow amount
    let res = borrow::borrow_stable(
        &config,
        state,
        liability,
        HEIGHT,
        u(1),
        u(1000000),
        u(INITIAL_DEPOSIT_AMOUNT - 10000),
        rate(),
        target(),
        Uint256::zero(),
        Uint256::zero(),
    );
    assert_eq!(res, Err(MarketError::MaxBorrowFactorReached("uusd".to_string())));
}

#[test]
fn borrow_beyond_the_market_balance() {
    let config = mock_config();
    let mut state = mock_state(1000000, 0);
    state.total_reserves = d("3000.5");
    // a borrow must leave the 3,000 reserved and one unit more:
    // 500,000 + 3,000 + 1 is more than 503,000
    let res = borrow::borrow_stable(
        &config,
        state,
        new_borrower_info(),
        HEIGHT,
        u(500000),
        u(1000000),
        u(503000),
        rate(),
        target(),
        Uint256::zero(),
        Uint256::zero(),
    );
    assert_eq!(res, Err(MarketError::NoStableAvailable("uusd".to_string())));
    let res = borrow::borrow_stable(
        &config,
        state,
        new_borrower_info(),
        HEIGHT,
        u(500000),
        u(1000000),
        u(503001),
        rate(),
        target(),
        Uint256::zero(),
        Uint256::zero(),
    );
    assert!(res.is_ok());
}

fn borrowed_500000() -> (State, BorrowerInfo) {
    borrow::borrow_stable(
        &mock_config(),
        mock_state(1000000, 0),
        new_borrower_info(),
        HEIGHT + 100,
        u(500000),
        u(1000000),
        u(INITIAL_DEPOSIT_AMOUNT),
        rate(),
        target(),
        Uint256::zero(),
        Uint256::zero(),
    )
    .unwrap()
}

#[test]
fn repay_stable() {
    let config = mock_config();
    let (state, liability) = borrowed_500000();
    let height = HEIGHT + 100;

    let ukrw = vec![Coin { denom: "ukrw".to_string(), amount: 100000 }];
    let res = borrow::repay_stable(&config, state, liability, height, &ukrw, u(INITIAL_DEPOSIT_AMOUNT), rate(), target(), Uint256::zero(), Uint256::zero());
    assert_eq!(res, Err(MarketError::ZeroRepay("uusd".to_string())));
    let res = borrow::repay_stable(&config, state, liability, height, &uusd(0), u(INITIAL_DEPOSIT_AMOUNT), rate(), target(), Uint256::zero(), Uint256::zero());
    assert_eq!(res, Err(MarketError::ZeroRepay("uusd".to_string())));

    let balance = u(INITIAL_DEPOSIT_AMOUNT + 100000);
    let rp = borrow::repay_stable(&config, state, liability, height, &uusd(100000), balance, rate(), target(), Uint256::zero(), Uint256::zero())
        .unwrap();
    assert_eq!(rp.repay_amount, u(100000));
    // Loan amount and Total liability have decreased according to the repayment
    assert_eq!(rp.liability.loan_amount, u(400000));
    assert_eq!(rp.state.total_liabilities, dec(2400000));
    assert_eq!(rp.refund, None);

    let rp = borrow::repay_stable(&config, rp.state, rp.liability, height, &uusd(500000), balance, rate(), target(), Uint256::zero(), Uint256::zero())
        .unwrap();
    assert_eq!(rp.repay_amount, u(400000));
    assert_eq!(rp.liability.loan_amount, Uint256::zero());
    assert_eq!(rp.state.total_liabilities, dec(2000000));
    // what was sent beyond the loan goes back
    assert_eq!(rp.refund, Some(u(100000)));
}

#[test]
fn repay_stable_from_liquidation() {
    let config = mock_config();
    let (state, liability) = borrowed_500000();
    let height = HEIGHT + 100;
    let prev_balance = u(INITIAL_DEPOSIT_AMOUNT);

    let res = borrow::repay_stable_from_liquidation(
        &config, state, liability, height, &addr("addr0000"), u(INITIAL_DEPOSIT_AMOUNT), prev_balance,
        rate(), target(), Uint256::zero(), Uint256::zero(),
    );
    assert_eq!(res, Err(MarketError::Unauthorized));

    let res = borrow::repay_stable_from_liquidation(
        &config, state, liability, height, &addr("overseer"), u(INITIAL_DEPOSIT_AMOUNT), prev_balance,
        rate(), target(), Uint256::zero(), Uint256::zero(),
    );
    assert_eq!(res, Err(MarketError::ZeroRepay("uusd".to_string())));

    // update balance to make repay
    let rp = borrow::repay_stable_from_liquidation(
        &config, state, liability, height, &addr("overseer"), u(INITIAL_DEPOSIT_AMOUNT + 100000), prev_balance,
        rate(), target(), Uint256::zero(), Uint256::zero(),
    )
    .unwrap();
    assert_eq!(rp.repay_amount, u(100000));

    let rp = borrow::repay_stable_from_liquidation(
        &config, rp.state, rp.liability, height, &addr("overseer"), u(INITIAL_DEPOSIT_AMOUNT + 500000), prev_balance,
        rate(), target(), Uint256::zero(), Uint256::zero(),
    )
    .unwrap();
    assert_eq!(rp.repay_amount, u(400000));
    assert_eq!(rp.refund, Some(u(100000)));
}

#[test]
fn claim_rewards() {
    let config = mock_config();
    let state = mock_state(1000000, 0);
    let liability = new_borrower_info();
    let balance = u(INITIAL_DEPOSIT_AMOUNT);

    // zero loan claim, nothing is claimed
    let (state, liability, claimed) =
        borrow::claim_rewards(state, liability, HEIGHT, balance, rate(), target(), Uint256::zero(), Uint256::zero());
    assert_eq!(claimed, Uint256::zero());

    let (state, liability) = borrow::borrow_stable(
        &config, state, liability, HEIGHT, u(500000), u(1000000), balance, rate(), target(), Uint256::zero(), Uint256::zero(),
    )
    .unwrap();

    // zero block passed
    let (state, liability, claimed) =
        borrow::claim_rewards(state, liability, HEIGHT, balance, rate(), target(), Uint256::zero(), Uint256::zero());
    assert_eq!(claimed, Uint256::zero());

    // 100 blocks passed
    let (state, liability, claimed) =
        borrow::claim_rewards(state, liability, HEIGHT + 100, balance, rate(), target(), Uint256::zero(), Uint256::zero());
    assert_eq!(claimed, u(33));

    let info = borrow::query_borrower_info(state, liability, HEIGHT, balance, rate(), target(), Uint256::zero(), Uint256::zero());
    assert_eq!(info.pending_rewards, d("0.333333333333"));
    assert_eq!(info.reward_index, d("0.000066666666666666"));
}

#[test]
fn loan_amount_grows_with_interest() {
    let state = mock_state(1000000, 0);
    let mut liability = new_borrower_info();
    liability.loan_amount = u(1000);
    // 100 blocks at 1%: the index doubles
    let loan = borrow::query_loan_amount(state, liability, HEIGHT + 100, u(INITIAL_DEPOSIT_AMOUNT), rate(), target(), Uint256::zero(), Uint256::zero());
    assert_eq!(loan, u(2000));
}

#[test]
fn market_execute_epoch_operations() {
    let config = mock_config();
    let state = mock_state(1000000, 3000);
    let height = HEIGHT + 100;
    let tax_rate = Decimal256::percent(1);
    let tax_cap = u(1000000);

    // only overseer can execute this
    let res = execute_epoch_operations(
        &config, state, &addr("addr0000"), height, Uint256::zero(), u(INITIAL_DEPOSIT_AMOUNT),
        rate(), Decimal256::one(), Uint256::zero(), Uint256::zero(), dec(5), tax_rate, tax_cap,
    );
    assert_eq!(res, Err(MarketError::Unauthorized));

    // reserve == 3000
    let (new_state, taken, sent) = execute_epoch_operations(
        &config, state, &addr("overseer"), height, Uint256::zero(), u(INITIAL_DEPOSIT_AMOUNT),
        rate(), Decimal256::one(), Uint256::zero(), Uint256::zero(), dec(5), tax_rate, tax_cap,
    )
    .unwrap();
    assert_eq!(taken, u(3000));
    // 1% tax
    assert_eq!(sent, u(2970));
    let mut expected = mock_state(2000000, 0);
    expected.last_interest_updated = height;
    expected.last_reward_updated = height;
    expected.global_interest_index = dec(2);
    expected.global_reward_index = d("0.0001");
    expected.anc_emission_rate = dec(5);
    assert_eq!(new_state, expected);

    // When there is not enough balance to cover reserve
    // no message will be sent and reserve will be left as same
    let (new_state, taken, sent) = execute_epoch_operations(
        &config, state, &addr("overseer"), height, Uint256::zero(), u(2999),
        rate(), Decimal256::one(), Uint256::zero(), Uint256::zero(), dec(5), tax_rate, tax_cap,
    )
    .unwrap();
    assert_eq!(taken, Uint256::zero());
    assert_eq!(sent, Uint256::zero());
    expected.total_reserves = dec(3000);
    assert_eq!(new_state, expected);
}

#[test]
fn epoch_state_accrues_interest_first() {
    let mut state = mock_state(1000000, 0);
    state.prev_aterra_exchange_rate = d("1.2");
    // without accrual: the last exchange rate kept
    let (rate0, supply) = query_epoch_state(state, None, None, u(1000000), rate(), target(), u(2000000), Uint256::zero());
    assert_eq!(rate0, d("1.2"));
    assert_eq!(supply, u(2000000));
    // 100 blocks at 1% double the liabilities: (1,000,000 + 2,000,000) / 2,000,000 = 1.5
    let (rate1, _) = query_epoch_state(state, Some(HEIGHT + 100), None, u(1000000), rate(), target(), u(2000000), Uint256::zero());
    assert_eq!(rate1, d("1.5"));
    // the interest already distributed is not part of the balance
    let (rate2, _) = query_epoch_state(state, Some(HEIGHT + 100), Some(u(200000)), u(1200000), rate(), target(), u(2000000), Uint256::zero());
    assert_eq!(rate2, d("1.5"));
}

#[test]
fn redeem_hook_only_from_aterra() {
    let config = mock_config();
    assert_eq!(receive_cw20(&config, &addr("AT-uusd"), Some(Cw20HookMsg::RedeemStable)), Ok(Cw20HookMsg::RedeemStable));
    assert_eq!(receive_cw20(&config, &addr("other"), Some(Cw20HookMsg::RedeemStable)), Err(MarketError::Unauthorized));
    assert_eq!(receive_cw20(&config, &addr("AT-uusd"), None), Err(MarketError::MissingRedeemStableHook));
}

#[test]
fn redeeming_what_a_deposit_minted_pays_at_most_the_deposit() {
    let config = mock_config();
    let mut state = mock_state(50000, 0);
    state.prev_aterra_supply = u(3000000);
    let balance = u(3000000 + 777777);
    let (state, minted) = deposit::deposit_stable(&config, state, HEIGHT, &uusd(777777), balance, rate(), target(), u(3000000), Uint256::zero())
        .unwrap();
    let (_, paid) = deposit::redeem_stable(&config, state, HEIGHT, minted.into_u128(), balance, rate(), target(), u(3000000) + minted, Uint256::zero())
        .unwrap();
    assert!(paid <= u(777777));
}

const ONE: u128 = 1_000_000_000_000_000_000;

#[test]
fn cosmwasm_decimal_math() {
    // 1.5 / 0.5 = 3
    assert_eq!(decimal_division(3 * ONE / 2, ONE / 2), 3 * ONE);
    // 1 / 2 = 0.5, and 0 for 0
    assert_eq!(reverse_decimal(2 * ONE), ONE / 2);
    assert_eq!(reverse_decimal(0), 0);
    // 1.5 * 2 = 3
    assert_eq!(decimal_multiplication(3 * ONE / 2, 2 * ONE), 3 * ONE);
    // the operands are taken at 9 digits: 1.0000000001 * 1 = 1
    assert_eq!(decimal_multiplication(ONE + 100_000_000, ONE), ONE);
}
