use moneymarket::bignumber::{Decimal256, Uint256};
use moneymarket::oracle::PriceResponse;
use moneymarket::overseer::collateral;
use moneymarket::overseer::collateral::{check_liquidation, compute_borrow_limit, custody_positions};
use moneymarket::overseer::contract;
use moneymarket::overseer::contract::{
    execute_epoch_operations, fund_reserve, instantiate_states, migrate, query_whitelist,
    register_whitelist, update_config, update_deposit_rate, BLOCKS_PER_YEAR,
};
use moneymarket::overseer::error::OverseerError;
use moneymarket::overseer::state::{Config, DynrateConfig, DynrateState, EpochState, WhitelistElem};
use moneymarket::querier::Coin;
use moneymarket::tokens::{Tokens, TokensMath};

// the block height and time (seconds) of the test environment
const HEIGHT: u64 = 12345;
const TIME: u64 = 1571797419;
const CONTRACT: &str = "cosmos2contract";

fn addr(s: &str) -> Vec<u8> {
    s.as_bytes().to_vec()
}

fn dec(s: &str) -> Decimal256 {
    Decimal256::from_str(s).unwrap()
}

fn u(v: u128) -> Uint256 {
    Uint256::from(v)
}

fn ratio(a: u64, b: u64) -> Decimal256 {
    Decimal256::from_ratio(Uint256::from(a), Uint256::from(b))
}

// the canonical addresses of the two collateral tokens of the tests
fn batom() -> Vec<u8> {
    let mut v = vec![0u8; 54];
    v[0] = 1;
    v[1] = 1;
    v[2] = 1;
    v[3] = 1;
    v
}

fn bluna() -> Vec<u8> {
    let mut v = batom();
    v[3] = 2;
    v
}

fn mock_config(threshold: Decimal256, target: Decimal256) -> Config {
    Config {
        owner_addr: addr("owner"),
        oracle_contract: addr("oracle"),
        market_contract: addr("market"),
        liquidation_contract: addr("liquidation"),
        collector_contract: addr("collector"),
        stable_denom: "uusd".to_string(),
        epoch_period: 86400,
        threshold_deposit_rate: threshold,
        target_deposit_rate: target,
        buffer_distribution_factor: Decimal256::percent(20),
        anc_purchase_factor: Decimal256::percent(20),
        price_timeframe: 60,
    }
}

fn mock_dynrate_config() -> DynrateConfig {
    DynrateConfig {
        dyn_rate_epoch: 86400,
        dyn_rate_maxchange: dec("0.03"),
        dyn_rate_yr_increase_expectation: dec("0.01"),
        dyn_rate_min: Decimal256::zero(),
        dyn_rate_max: Decimal256::one(),
    }
}

fn elem(name: &str, custody: &str) -> WhitelistElem {
    WhitelistElem {
        name: name.to_string(),
        symbol: name.to_string(),
        max_ltv: Decimal256::percent(60),
        custody_contract: addr(custody),
    }
}

fn whitelist_of(tokens: &[(Vec<u8>, &str)]) -> Vec<(Vec<u8>, WhitelistElem)> {
    let config = mock_config(Decimal256::permille(3), Decimal256::permille(5));
    let mut wl = vec![];
    for (token, name) in tokens {
        register_whitelist(
            &config,
            &mut wl,
            &addr("owner"),
            name.to_string(),
            name.to_string(),
            token.clone(),
            addr(&format!("custody_{}", name)),
            Decimal256::percent(60),
        )
        .unwrap();
    }
    wl
}

fn price(rate: u64) -> PriceResponse {
    PriceResponse { rate: Decimal256::from_uint256(Uint256::from(rate)), last_updated_base: TIME, last_updated_quote: TIME }
}

#[test]
fn proper_compute_borrow_limit() {
    let wl = whitelist_of(&[(addr("bluna"), "bluna"), (addr("batom"), "batom")]);
    let collaterals: Tokens = vec![(addr("bluna"), u(1000)), (addr("batom"), u(1000))];
    let res = compute_borrow_limit(&wl, &collaterals, &vec![price(1000), price(2000)], None, 60).unwrap();
    let vec: Vec<Decimal256> = vec![Decimal256::from_uint256(u(1000)), Decimal256::from_uint256(u(2000))];
    assert_eq!(res, (u(1800000), vec));
}

#[test]
fn borrow_limit_refuses_old_prices_and_unknown_tokens() {
    let wl = whitelist_of(&[(addr("bluna"), "bluna")]);
    let collaterals: Tokens = vec![(addr("bluna"), u(1000))];
    let old = PriceResponse { rate: Decimal256::one(), last_updated_base: TIME - 61, last_updated_quote: TIME };
    assert_eq!(compute_borrow_limit(&wl, &collaterals, &vec![old], Some(TIME), 60), Err(OverseerError::PriceTooOld));
    let unknown: Tokens = vec![(addr("bxyz"), u(1000))];
    assert_eq!(compute_borrow_limit(&wl, &unknown, &vec![price(1)], None, 60), Err(OverseerError::TokenNotRegistered));
}

#[test]
fn whitelist() {
    let config = mock_config(Decimal256::permille(3), Decimal256::permille(5));
    let mut wl: Vec<(Vec<u8>, WhitelistElem)> = vec![];

    let res = register_whitelist(&config, &mut wl, &addr("addr0000"), "bluna".to_string(), "bluna".to_string(), addr("bluna"), addr("custody"), Decimal256::percent(60));
    assert_eq!(res, Err(OverseerError::Unauthorized));

    register_whitelist(&config, &mut wl, &addr("owner"), "bluna".to_string(), "bluna".to_string(), addr("bluna"), addr("custody"), Decimal256::percent(60)).unwrap();
    assert_eq!(Decimal256::percent(60).to_string(), "0.6");

    let (from, to) = query_whitelist(&wl, Some(addr("bluna")), None, None).unwrap();
    assert_eq!(&wl[from..to], &[(addr("bluna"), elem("bluna", "custody"))]);

    // Attempting to whitelist already whitelisted collaterals
    let res = register_whitelist(&config, &mut wl, &addr("owner"), "bluna".to_string(), "bluna".to_string(), addr("bluna"), addr("custody"), Decimal256::percent(60));
    assert_eq!(res, Err(OverseerError::TokenAlreadyRegistered));

    let res = moneymarket::overseer::contract::update_whitelist(&config, &mut wl, &addr("addr0000"), &addr("bluna"), Some(addr("custody2")), Some(Decimal256::percent(30)));
    assert_eq!(res, Err(OverseerError::Unauthorized));

    moneymarket::overseer::contract::update_whitelist(&config, &mut wl, &addr("owner"), &addr("bluna"), Some(addr("custody2")), Some(Decimal256::percent(30))).unwrap();
    assert_eq!(Decimal256::percent(30).to_string(), "0.3");

    let (from, to) = query_whitelist(&wl, Some(addr("bluna")), None, None).unwrap();
    let mut expected = elem("bluna", "custody2");
    expected.max_ltv = Decimal256::percent(30);
    assert_eq!(&wl[from..to], &[(addr("bluna"), expected)]);
}

#[test]
fn whitelist_pages_in_key_order() {
    let wl = whitelist_of(&[(addr("c"), "c"), (addr("a"), "a"), (addr("b"), "b")]);
    let keys: Vec<Vec<u8>> = wl.iter().map(|e| e.0.clone()).collect();
    assert_eq!(keys, vec![addr("a"), addr("b"), addr("c")]);
    assert_eq!(query_whitelist(&wl, None, None, None), Ok((0, 3)));
    assert_eq!(query_whitelist(&wl, None, Some(addr("a")), Some(1)), Ok((1, 2)));
    assert_eq!(query_whitelist(&wl, None, Some(addr("c")), None), Ok((3, 3)));
    assert_eq!(query_whitelist(&wl, Some(addr("d")), None, None), Err(OverseerError::TokenNotRegistered));
}

#[test]
fn tests_execute_epoch_operations() {
    let config = mock_config(ratio(1, 1000000), ratio(1, 1000000));
    let (state, _) = instantiate_states(HEIGHT);

    let res = execute_epoch_operations(&config, &state, HEIGHT, Decimal256::percent(120), u(10000000000), Decimal256::zero(), Uint256::zero());
    assert_eq!(res, Err(OverseerError::EpochNotPassed(12345)));

    // (120 / 100 - 1) / 86400
    // deposit rate = 0.000002314814814814
    // accrued_buffer = 10,000,000,000
    // anc_purchase_amount = accrued_buffer * 0.2 = 2,000,000,000
    let height = HEIGHT + 86400;
    let ops = execute_epoch_operations(&config, &state, height, Decimal256::percent(120), u(10000000000), Decimal256::zero(), Uint256::zero()).unwrap();
    assert_eq!(ops.deposit_rate.to_string(), "0.000002314814814814");
    assert_eq!(ops.anc_purchase_amount, u(2000000000));
    assert_eq!(ops.anc_purchase_sent, u(2000000000));
    assert_eq!(ops.interest_buffer, u(8000000000));
    assert_eq!(ops.distributed_interest, Uint256::zero());
    assert!(!ops.distribution_sent);

    // store epoch state for test purpose
    let state = EpochState {
        last_executed_height: height,
        prev_exchange_rate: dec("1.2"),
        prev_aterra_supply: u(1000000),
        prev_interest_buffer: u(9999000000),
        deposit_rate: dec("0.000002314814814814"),
    };

    // accrued_buffer = 1,000,000
    // interest_buffer = 9,999,000,000
    // (125 / 120 - 1) / 86400
    // deposit rate = 0.000000482253086419
    let height = height + 86400;
    let ops = execute_epoch_operations(&config, &state, height, Decimal256::percent(125), u(10000000000), Decimal256::percent(1), u(1000000)).unwrap();
    assert_eq!(ops.deposit_rate.to_string(), "0.000000482253086419");
    assert_eq!(ops.anc_purchase_amount, u(200000));
    // 200,000 less the 1% tax
    assert_eq!(ops.anc_purchase_sent, u(198019));
    assert!(ops.distribution_sent);
    assert_eq!(ops.distributed_interest, u(53148));
    assert_eq!(ops.interest_buffer, u(9999746320));
}

#[test]
fn update_epoch_state() {
    let config = mock_config(ratio(1, 1000000), Decimal256::permille(5));
    let dynrate_config = mock_dynrate_config();
    let (state, dynrate_state) = instantiate_states(HEIGHT);

    // only contract itself can execute update_epoch_state
    let res = contract::update_epoch_state(config.clone(), &state, &dynrate_config, dynrate_state, &"owner".to_string(), &CONTRACT.to_string(), HEIGHT, Decimal256::percent(120), u(1000000), u(10000000000), u(10000000000));
    assert_eq!(res, Err(OverseerError::Unauthorized));

    let height = HEIGHT + 86400;
    let (state, config2, dynrate_state) = contract::update_epoch_state(config.clone(), &state, &dynrate_config, dynrate_state, &CONTRACT.to_string(), &CONTRACT.to_string(), height, Decimal256::percent(120), u(1000000), u(10000000000), u(10000000000)).unwrap();
    assert_eq!(state.deposit_rate, dec("0.000002314814814814"));
    assert_eq!(state.prev_exchange_rate, dec("1.2"));
    assert_eq!(state.prev_interest_buffer, u(10000000000));
    // the market's message carries the rates in force before the update
    assert_eq!(config.target_deposit_rate, Decimal256::permille(5));
    assert_eq!(config.threshold_deposit_rate, ratio(1, 1000000));

    // Deposit rate increased
    let height = height + 86400;
    let (state, config3, _) = contract::update_epoch_state(config2.clone(), &state, &dynrate_config, dynrate_state, &CONTRACT.to_string(), &CONTRACT.to_string(), height, Decimal256::percent(125), u(1000000), u(10000000000), u(10000000000)).unwrap();
    assert_eq!(state.deposit_rate.to_string(), "0.000000482253086419");
    assert_eq!(config2.target_deposit_rate, dec("0.000001006442178229"));
    assert_eq!(config2.threshold_deposit_rate, dec("0.000001006442178229"));
    assert_eq!(
        state,
        EpochState {
            deposit_rate: ratio(482253086419, 1000000000000000000),
            prev_aterra_supply: u(1000000),
            prev_exchange_rate: dec("1.25"),
            prev_interest_buffer: u(10000000000),
            last_executed_height: height,
        }
    );
    assert!(config3.threshold_deposit_rate < config2.threshold_deposit_rate);
}

#[test]
fn lock_collateral() {
    let wl = whitelist_of(&[(bluna(), "bluna"), (batom(), "batom")]);
    let collaterals: Tokens = vec![(bluna(), u(1000000)), (batom(), u(10000000))];
    let (locked, positions) = collateral::lock_collateral(&wl, vec![], collaterals).unwrap();
    // the custody contracts of the tokens, in the order given
    assert_eq!(wl[positions[0]].1.custody_contract, addr("custody_bluna"));
    assert_eq!(wl[positions[1]].1.custody_contract, addr("custody_batom"));
    assert_eq!(locked, vec![(batom(), u(10000000)), (bluna(), u(1000000))]);

    let res = collateral::lock_collateral(&wl, locked, vec![(addr("bxyz"), u(1))]);
    assert_eq!(res, Err(OverseerError::TokenNotRegistered));
}

// the oracle's prices of the tokens, in their order
fn prices_of(tokens: &Tokens) -> Vec<PriceResponse> {
    tokens.iter().map(|t| if t.0 == addr("bluna") || t.0 == bluna() { price(1000) } else { price(2000) }).collect()
}

#[test]
fn unlock_collateral() {
    let wl = whitelist_of(&[(addr("bluna"), "bluna"), (addr("batom"), "batom")]);
    let (locked, _) = collateral::lock_collateral(&wl, vec![], vec![(addr("bluna"), u(1000000)), (addr("batom"), u(10000000))]).unwrap();
    // what stays locked, whose prices are asked for
    let left_of = |cur: &Tokens, unlock: &Tokens| -> Tokens {
        let mut left = cur.clone();
        left.sub(unlock.clone()).unwrap();
        left
    };
    let unlock_from = |cur: &Tokens, unlock: Tokens, loan: Uint256| {
        let prices = prices_of(&left_of(cur, &unlock));
        collateral::unlock_collateral(&wl, cur.clone(), unlock, &prices, TIME, 60, loan)
    };

    // borrow_limit = 1000 * 1000000 * 0.6 + 2000 * 10000000 * 0.6
    // = 12,600,000,000 uusd
    assert_eq!(compute_borrow_limit(&wl, &locked, &prices_of(&locked), Some(TIME), 60).unwrap().0, u(12600000000));
    let loan = u(12600000000);

    // Failed to unlock more than locked amount
    let res = collateral::unlock_collateral(&wl, locked.clone(), vec![(addr("bluna"), u(1000001)), (addr("batom"), u(10000001))], &vec![], TIME, 60, loan);
    assert_eq!(res, Err(OverseerError::UnlockExceedsLocked));

    // cannot unlock any tokens
    let res = unlock_from(&locked, vec![(addr("bluna"), Uint256::one())], loan);
    assert_eq!(res, Err(OverseerError::UnlockTooLarge(12599999400)));
    let res = unlock_from(&locked, vec![(addr("batom"), Uint256::one())], loan);
    assert_eq!(res, Err(OverseerError::UnlockTooLarge(12599998800)));

    let loan = u(12599999400);
    // Cannot unlock 2bluna
    let res = unlock_from(&locked, vec![(addr("bluna"), u(2))], loan);
    assert_eq!(res, Err(OverseerError::UnlockTooLarge(12599998800)));

    // Can unlock 1bluna
    let unlock: Tokens = vec![(addr("bluna"), Uint256::one())];
    let left = unlock_from(&locked, unlock.clone(), loan).unwrap();
    assert_eq!(left, vec![(addr("batom"), u(10000000)), (addr("bluna"), u(999999))]);
    let positions = custody_positions(&wl, &unlock).unwrap();
    assert_eq!(wl[positions[0]].1.custody_contract, addr("custody_bluna"));

    //testing for unlocking more collaterals
    let loan = u(125999900);
    let unlock: Tokens = vec![(addr("bluna"), u(1)), (addr("batom"), u(1))];
    let left = unlock_from(&left, unlock.clone(), loan).unwrap();
    assert_eq!(left, vec![(addr("batom"), u(9999999)), (addr("bluna"), u(999998))]);
    let positions = custody_positions(&wl, &unlock).unwrap();
    assert_eq!(wl[positions[0]].1.custody_contract, addr("custody_bluna"));
    assert_eq!(wl[positions[1]].1.custody_contract, addr("custody_batom"));

    // an old price of what stays refuses the unlock
    let mut prices = prices_of(&left);
    prices[0].last_updated_base = TIME - 61;
    let res = collateral::unlock_collateral(&wl, left, vec![(addr("bluna"), u(1))], &prices, TIME, 60, Uint256::zero());
    assert_eq!(res, Err(OverseerError::PriceTooOld));
}

#[test]
fn liquidate_collateral() {
    let wl = whitelist_of(&[(bluna(), "bluna"), (batom(), "batom")]);
    let (locked, _) = collateral::lock_collateral(&wl, vec![], vec![(bluna(), u(1000000)), (batom(), u(10000000))]).unwrap();
    let prices = prices_of(&locked);
    let (limit, rates) = compute_borrow_limit(&wl, &locked, &prices, Some(TIME), 60).unwrap();
    assert_eq!(limit, u(12600000000));
    assert_eq!(rates, vec![Decimal256::from_uint256(u(2000)), Decimal256::from_uint256(u(1000))]);

    assert_eq!(check_liquidation(limit, u(12600000000)), Err(OverseerError::CannotLiquidateSafeLoan));
    assert_eq!(check_liquidation(limit, u(12600000001)), Ok(()));

    // the liquidation contract takes 1% of each collateral
    let liquidation_amount: Tokens = locked.iter().map(|t| (t.0.clone(), t.1 * Decimal256::percent(1))).collect();
    assert_eq!(liquidation_amount, vec![(batom(), u(100000)), (bluna(), u(10000))]);

    // a loan within the borrow limit is safe
    let res = collateral::liquidate_collateral(&wl, locked.clone(), &prices, TIME, 60, u(12600000000), liquidation_amount.clone());
    assert_eq!(res, Err(OverseerError::CannotLiquidateSafeLoan));

    let left = collateral::liquidate_collateral(&wl, locked, &prices, TIME, 60, u(12600000001), liquidation_amount.clone()).unwrap();
    assert_eq!(left, vec![(batom(), u(9900000)), (bluna(), u(990000))]);
    // the custody contracts of the collateral taken, in its order
    let positions = custody_positions(&wl, &liquidation_amount).unwrap();
    assert_eq!(wl[positions[0]].1.custody_contract, addr("custody_batom"));
    assert_eq!(wl[positions[1]].1.custody_contract, addr("custody_bluna"));

    let prices = prices_of(&left);
    let res = collateral::liquidate_collateral(&wl, left, &prices, TIME, 60, u(12600000001), vec![(bluna(), u(990001))]);
    assert_eq!(res, Err(OverseerError::SubtractionUnderflow));
}

fn dynamic_config() -> (Config, DynrateConfig) {
    (
        mock_config(ratio(1, 1000000), Decimal256::permille(5)),
        DynrateConfig {
            dyn_rate_epoch: 8600,
            dyn_rate_maxchange: Decimal256::permille(5),
            dyn_rate_yr_increase_expectation: Decimal256::permille(1),
            dyn_rate_min: ratio(1000000000000, 1000000000000000000),
            dyn_rate_max: ratio(1200000000000, 1000000000000000000),
        },
    )
}

fn validate_deposit_rates(config: &Config, rate: Decimal256) {
    assert_eq!(config.threshold_deposit_rate, rate);
    assert_eq!(config.target_deposit_rate, rate);
}

#[test]
fn dynamic_rate_model() {
    let (config, dynrate_config) = dynamic_config();
    let (state, dynrate_state) = instantiate_states(HEIGHT);
    let contract = CONTRACT.to_string();
    let buffer = u(10000000000);

    let res = contract::update_epoch_state(config.clone(), &state, &dynrate_config, dynrate_state, &"owner".to_string(), &contract, HEIGHT, Decimal256::percent(120), u(1000000), buffer, buffer);
    assert_eq!(res, Err(OverseerError::Unauthorized));

    let mut height = HEIGHT + 86400;
    let (state, config, dynrate_state) = contract::update_epoch_state(config, &state, &dynrate_config, dynrate_state, &contract, &contract, height, Decimal256::percent(120), u(1000000), buffer, buffer).unwrap();
    assert_eq!(state.deposit_rate.to_string(), "0.000002314814814814");

    // Deposit rate increased
    height += 86400;
    let (state, config, _) = contract::update_epoch_state(config.clone(), &state, &dynrate_config, dynrate_state, &contract, &contract, height, Decimal256::percent(125), u(1000000), buffer, buffer).unwrap();
    assert_eq!(state.deposit_rate.to_string(), "0.000000482253086419");
    assert_eq!(
        state,
        EpochState {
            deposit_rate: ratio(482253086419, 1000000000000000000),
            prev_aterra_supply: u(1000000),
            prev_exchange_rate: dec("1.25"),
            prev_interest_buffer: buffer,
            last_executed_height: height,
        }
    );
    // Rate drop: 1001073696371 - 1000858957096 = 214739275
    validate_deposit_rates(&config, ratio(1000858957096, 1000000000000000000));

    let step = |config: Config, height: u64, prev_yield_reserve: &str| -> Config {
        let dynrate_state = DynrateState { last_executed_height: height - 86400, prev_yield_reserve: dec(prev_yield_reserve) };
        update_deposit_rate(config, &dynrate_config, dynrate_state, buffer, height).0
    };

    // Case 2: Stillk unchanged, repeating behavior
    height += 86400;
    let config = step(config, height, "10000000000");
    validate_deposit_rates(&config, ratio(1000644217821, 1000000000000000000));

    // ----- YR increasing dramarically, 10x
    height += 86400;
    let config = step(config, height, "1000000000");
    validate_deposit_rates(&config, ratio(1001717914192, 1000000000000000000));

    // (1001717914192 - 1001503174896) * 4656810 = 1.0000001e15
    height += 86400;
    let config = step(config, height, "10000000001");
    validate_deposit_rates(&config, ratio(1001503174896, 1000000000000000000));

    // lets hit lower threshold
    let mut config = config;
    let mut dynrate_state = DynrateState { last_executed_height: height, prev_yield_reserve: dec("10000000000") };
    for _i in 1..200 {
        height += 86400;
        let (c, d) = update_deposit_rate(config, &dynrate_config, dynrate_state, buffer, height);
        config = c;
        dynrate_state = d;
    }
    validate_deposit_rates(&config, ratio(1000000000000, 1000000000000000000));

    // lets hit upper threshold
    for _i in 1..200 {
        height += 86400;
        config = step(config, height, "1000000000");
    }
    validate_deposit_rates(&config, ratio(1200000000000, 1000000000000000000));
}

#[test]
fn deposit_rate_not_due_changes_nothing() {
    let (config, dynrate_config) = dynamic_config();
    let dynrate_state = DynrateState { last_executed_height: HEIGHT, prev_yield_reserve: dec("5") };
    let (c, d) = update_deposit_rate(config.clone(), &dynrate_config, dynrate_state, u(10), HEIGHT + 8599);
    assert_eq!(c, config);
    assert_eq!(d, dynrate_state);
}

#[test]
fn migrate_clamps_the_threshold_rate() {
    let (config, dynrate_config) = dynamic_config();
    // the threshold rate 1e-6 is below the lowest rate 1e-6? no: it is exactly at it
    let (c, d) = migrate(config.clone(), &dynrate_config, u(7), HEIGHT);
    assert_eq!(c.threshold_deposit_rate, ratio(1000000000000, 1000000000000000000));
    assert_eq!(d.prev_yield_reserve, Decimal256::from_uint256(u(7)));
    let mut high = config;
    high.threshold_deposit_rate = Decimal256::one();
    let (c, _) = migrate(high, &dynrate_config, u(7), HEIGHT);
    assert_eq!(c.threshold_deposit_rate, dynrate_config.dyn_rate_max);
    assert_eq!(c.target_deposit_rate, dynrate_config.dyn_rate_max);
}

#[test]
fn fund_reserve_adds_sent_uusd() {
    let (state, dynrate_state) = instantiate_states(HEIGHT);
    let funds = vec![Coin { denom: "ukrw".to_string(), amount: 5 }, Coin { denom: "uusd".to_string(), amount: 100 }];
    let (s, d) = fund_reserve(state, dynrate_state, &funds);
    assert_eq!(s.prev_interest_buffer, u(100));
    assert_eq!(d.prev_yield_reserve, Decimal256::from_uint256(u(100)));
    let (s, _) = fund_reserve(state, dynrate_state, &vec![]);
    assert_eq!(s, state);
}

#[test]
fn tests_update_config() {
    let config = mock_config(Decimal256::permille(3), Decimal256::permille(5));
    let dynrate_config = mock_dynrate_config();
    let res = update_config(config.clone(), dynrate_config, &addr("addr0000"), None, None, None, None, None, None, None, None, None, None, None, None, None, None);
    assert_eq!(res, Err(OverseerError::Unauthorized));
    let (c, d) = update_config(config, dynrate_config, &addr("owner"), Some(addr("owner1")), None, None, Some(Decimal256::permille(1)), Some(Decimal256::permille(2)), Some(Decimal256::percent(10)), Some(Decimal256::percent(30)), Some(100), Some(120), Some(10), None, None, Some(Decimal256::zero()), None).unwrap();
    assert_eq!(c.owner_addr, addr("owner1"));
    assert_eq!(c.threshold_deposit_rate, Decimal256::permille(1));
    assert_eq!(c.target_deposit_rate, Decimal256::permille(2));
    assert_eq!(c.buffer_distribution_factor, Decimal256::percent(10));
    assert_eq!(c.anc_purchase_factor, Decimal256::percent(30));
    assert_eq!(c.epoch_period, 100);
    assert_eq!(c.price_timeframe, 120);
    assert_eq!(d.dyn_rate_epoch, 10);
    assert_eq!(d.dyn_rate_min, Decimal256::zero());
    assert_eq!(d.dyn_rate_max, Decimal256::one());
}

#[test]
fn blocks_per_year_constant() {
    assert_eq!(BLOCKS_PER_YEAR, 4656810);
}
