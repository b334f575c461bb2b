use std::collections::VecDeque;

use moneymarket::bignumber::{Decimal256, Uint256};
use moneymarket::msg::ve_aterra::Cw20HookMsg;
use moneymarket::ve_aterra;
use moneymarket::ve_aterra::contract::{instantiate_state, receive_cw20, register_ve_aterra};
use moneymarket::ve_aterra::state::{Config as VeConfig, VeAterraError};
use moneymarket::vterra::bonding::{claim_unlocked_aterra, rebond, rebond_receipts, unbond, UNBOND_DURATION_SECS};
use moneymarket::vterra::epoch::{current_ve_share, execute_epoch_operations};
use moneymarket::vterra::rate::{compute_ve_exchange_rate, pow};
use moneymarket::vterra::state::{Config, Receipt, State, UserReceipts, VterraError};

// the block height and time (nanoseconds) of the test environment
const HEIGHT: u64 = 12345;
const TIME: u64 = 1571797419879305533;
const SECOND: u64 = 1_000_000_000;

fn addr(s: &str) -> Vec<u8> {
    s.as_bytes().to_vec()
}

fn dec(s: &str) -> Decimal256 {
    Decimal256::from_str(s).unwrap()
}

fn u(v: u64) -> Uint256 {
    Uint256::from(v)
}

fn ve_config() -> VeConfig {
    VeConfig {
        contract_addr: addr("cosmos2contract"),
        owner_addr: addr("owner"),
        market_addr: addr("market"),
        overseer_addr: addr("overseer"),
        aterra_contract: addr("AT-usd"),
        ve_aterra_contract: vec![],
        max_pos_change: Decimal256::permille(1),
        max_neg_change: Decimal256::permille(1),
        max_rate: dec("1.20"),
        min_rate: dec("1.01"),
        diff_multiplier: Decimal256::percent(5),
        premium_rate_epoch: 10,
    }
}

fn vterra_state(supply: u64, er: Decimal256, premium_rate: Decimal256, target_share: Decimal256) -> State {
    State { vterra_supply: u(supply), prev_epoch_vterra_exchange_rate: er, target_share, premium_rate, last_updated: HEIGHT }
}

fn receipts(entries: &[(u64, u64)]) -> UserReceipts {
    UserReceipts(entries.iter().map(|(q, t)| Receipt { aterra_qty: u(*q), unlock_time: *t }).collect::<VecDeque<Receipt>>())
}

fn contents(r: &UserReceipts) -> Vec<(u64, u64)> {
    r.0.iter().map(|x| (x.aterra_qty.into_u128() as u64, x.unlock_time)).collect()
}

#[test]
fn bond_simple() {
    let config = register_ve_aterra(ve_config(), addr("ve-AT-usd")).unwrap();
    assert_eq!(
        receive_cw20(&config, &addr("AT-usd"), Some(Cw20HookMsg::BondATerra)),
        Ok(Cw20HookMsg::BondATerra)
    );
    let mut state = instantiate_state(HEIGHT, Decimal256::percent(80), Decimal256::percent(2));
    state.prev_epoch_ve_aterra_exchange_rate = dec("1.50");

    let (state, minted, rate) = ve_aterra::bonding::bond(state, HEIGHT, u(10_000));
    assert_eq!(minted, u(6_666));
    assert_eq!(state.ve_aterra_supply, u(6_666));
    assert_eq!(rate, dec("1.50"));
}

#[test]
fn unbond_simple() {
    let config = register_ve_aterra(ve_config(), addr("ve-AT-usd")).unwrap();
    assert_eq!(
        receive_cw20(&config, &addr("ve-AT-usd"), Some(Cw20HookMsg::UnbondVeATerra)),
        Ok(Cw20HookMsg::UnbondVeATerra)
    );
    let mut state = instantiate_state(HEIGHT, Decimal256::percent(80), Decimal256::percent(2));
    state.ve_aterra_supply = u(10_000);
    state.prev_epoch_ve_aterra_exchange_rate = dec("1.50");

    let mut infos = receipts(&[]);
    let (state, minted, rate) = ve_aterra::bonding::unbond(state, &mut infos, HEIGHT, TIME, u(10_000));
    assert_eq!(minted, u(15_000));
    assert_eq!(state.ve_aterra_supply, u(0));
    assert_eq!(rate, dec("1.50"));
    assert_eq!(infos.0.len(), 1);
    assert_eq!(infos.0[0], Receipt { aterra_qty: u(15_000), unlock_time: TIME + UNBOND_DURATION_SECS * SECOND });
}

#[test]
fn claim_simple() {
    // create 3 receipts
    let infos = receipts(&[(2_000, TIME - 10 * SECOND), (10_000, TIME - 10 * SECOND), (10_000, TIME + 10 * SECOND)]);

    // claim less than full amount
    let (infos, claimed) = ve_aterra::bonding::claim_unlocked_aterra(infos, TIME, Some(u(5_000))).unwrap();
    assert_eq!(claimed, u(5_000));
    assert_eq!(contents(&infos), vec![(7_000, TIME - 10 * SECOND), (10_000, TIME + 10 * SECOND)]);

    // claim full amount
    let (infos, claimed) = ve_aterra::bonding::claim_unlocked_aterra(infos, TIME, None).unwrap();
    assert_eq!(claimed, u(7_000));
    assert_eq!(contents(&infos), vec![(10_000, TIME + 10 * SECOND)]);
}

#[test]
fn rebond_simple() {
    let state = vterra_state(0, dec("2.0"), Decimal256::percent(2), Decimal256::percent(80));
    let infos = receipts(&[(10_000, TIME - 10 * SECOND), (10_000, TIME - 10 * SECOND), (2_000, TIME + 10 * SECOND)]);

    // rebond less than full amount
    let (state, infos, rebonded, minted, rate) = rebond(state, infos, HEIGHT, Some(u(5_000))).unwrap();
    assert_eq!(rebonded, u(5_000));
    assert_eq!(minted, u(2_500));
    assert_eq!(state.vterra_supply, u(2_500));
    assert_eq!(rate, dec("2.0"));
    assert_eq!(contents(&infos), vec![(10_000, TIME - 10 * SECOND), (7_000, TIME - 10 * SECOND)]);

    // rebond full amount
    let (state, infos, rebonded, minted, _) = rebond(state, infos, HEIGHT, None).unwrap();
    assert_eq!(rebonded, u(17_000));
    assert_eq!(minted, u(8_500));
    assert_eq!(state.vterra_supply, u(11_000));
    assert_eq!(infos.0.len(), 0);
}

#[test]
fn rebond_more_than_receipts_hold() {
    let infos = receipts(&[(1_000, TIME)]);
    let res = rebond_receipts(infos, Some(u(1_001)));
    assert!(matches!(res, Err(VterraError::NotEnoughAterraReceipts(a, b)) if a == u(1_001) && b == u(1_000)));
}

#[test]
fn claim_more_than_unlocked() {
    let infos = receipts(&[(1_000, TIME - SECOND), (5_000, TIME + SECOND)]);
    let res = claim_unlocked_aterra(infos.clone(), TIME, Some(u(2_000)));
    assert!(matches!(res, Err(VterraError::NotEnoughUnlocked(a, b)) if a == u(2_000) && b == u(1_000)));
    let res = ve_aterra::bonding::claim_unlocked_aterra(infos, TIME, Some(u(2_000)));
    assert!(matches!(res, Err(VeAterraError::NotEnoughUnlocked(a, b)) if a == u(2_000) && b == u(1_000)));
}

#[test]
fn claim_pays_up_to_what_is_unlocked() {
    // 3,000 unlocked, 5,000 still locked
    let infos = receipts(&[(1_000, TIME - 2 * SECOND), (2_000, TIME - SECOND), (5_000, TIME + SECOND)]);
    let res = claim_unlocked_aterra(infos.clone(), TIME, Some(u(3_001)));
    assert!(matches!(res, Err(VterraError::NotEnoughUnlocked(a, b)) if a == u(3_001) && b == u(3_000)));
    let (left, claimed) = claim_unlocked_aterra(infos.clone(), TIME, Some(u(3_000))).unwrap();
    assert_eq!(claimed, u(3_000));
    assert_eq!(contents(&left), vec![(5_000, TIME + SECOND)]);
    let (left, claimed) = claim_unlocked_aterra(infos, TIME, None).unwrap();
    assert_eq!(claimed, u(3_000));
    // the locked receipt stays as it was
    assert_eq!(contents(&left), vec![(5_000, TIME + SECOND)]);
}

#[test]
fn claim_passes_over_locked_receipts() {
    // a locked receipt ahead of an unlocked one: the vterra claim goes on past it
    let infos = receipts(&[(1_000, TIME + SECOND), (500, TIME - SECOND)]);
    let (_, claimed) = claim_unlocked_aterra(infos.clone(), TIME, None).unwrap();
    assert_eq!(claimed, u(500));
    // the ve-aterra claim stops at it
    let (left, claimed) = ve_aterra::bonding::claim_unlocked_aterra(infos, TIME, None).unwrap();
    assert_eq!(claimed, u(0));
    assert_eq!(left.0.len(), 2);
}

#[test]
fn unbond_then_claim_after_thirty_days() {
    let state = vterra_state(1_000, Decimal256::one(), Decimal256::one(), Decimal256::percent(50));
    let mut infos = receipts(&[]);
    let (state, minted, _) = unbond(state, &mut infos, HEIGHT, TIME, u(400));
    assert_eq!(minted, u(400));
    assert_eq!(state.vterra_supply, u(600));
    let (_, claimed) = claim_unlocked_aterra(infos.clone(), TIME, None).unwrap();
    assert_eq!(claimed, u(0));
    let (left, claimed) = claim_unlocked_aterra(infos, TIME + UNBOND_DURATION_SECS * SECOND, None).unwrap();
    assert_eq!(claimed, u(400));
    assert_eq!(left.0.len(), 0);
}

fn epoch_config() -> Config {
    Config {
        contract_addr: addr("cosmos2contract"),
        owner_addr: addr("owner"),
        market_addr: addr("market"),
        overseer_addr: addr("overseer"),
        aterra_contract: addr("AT-usd"),
        vterra_contract: addr("ve-AT-usd"),
        max_pos_change: dec("0.005"),
        max_neg_change: dec("0.005"),
        max_rate: dec("1.02"),
        min_rate: dec("1.0000"),
        diff_multiplier: Decimal256::percent(2),
        premium_rate_epoch: 10,
    }
}

#[test]
fn execute_epoch_operations_simple() {
    let config = epoch_config();
    let mut height = HEIGHT;
    let mut state = vterra_state(0, Decimal256::one(), Decimal256::one(), Decimal256::percent(60));

    let mut run = |state: State, premium: Decimal256, ve_supply: u64, aterra_supply: u64| -> State {
        let s = State { premium_rate: premium, prev_epoch_vterra_exchange_rate: Decimal256::one(), ..state };
        height += config.premium_rate_epoch;
        execute_epoch_operations(s, &config, &addr("overseer"), height, u(ve_supply), u(aterra_supply)).unwrap()
    };

    // CASE 1: hit max_pos_change
    let initial_premium = dec("1.01");
    state = run(state, initial_premium, 10, 50);
    assert_eq!(state.premium_rate, initial_premium + config.max_pos_change);

    // CASE 2: hit max_neg_change
    state = run(state, initial_premium, 100, 10);
    assert_eq!(state.premium_rate, initial_premium - config.max_neg_change);

    // CASE 3: target == current => no change
    let initial_premium = Decimal256::one();
    state = run(state, initial_premium, 60, 40);
    assert_eq!(state.premium_rate, initial_premium);

    // CASE 4: pos change, non max
    state = run(state, initial_premium, 55, 45);
    assert_eq!(state.premium_rate, initial_premium + Decimal256::percent(60 - 55) * config.diff_multiplier);

    // CASE 5: hit max overall rate
    state = run(state, dec("1.019"), 15, 85);
    assert_eq!(state.premium_rate, config.max_rate);

    // CASE 6: neg change, non max
    let initial_premium = dec("1.01");
    state = run(state, initial_premium, 629, 371);
    // use bounds b/c decimal gets very long
    let expected = initial_premium - Decimal256::percent(65 - 60) * config.diff_multiplier;
    assert!(state.premium_rate < expected + dec("0.0001"));
    assert!(state.premium_rate > expected - dec("0.0001"));

    // CASE 7: hit min rate
    let initial_premium = dec("1.00");
    state = run(state, initial_premium, 629, 371);
    assert_eq!(state.premium_rate, initial_premium);
}

#[test]
fn epoch_operations_checks() {
    let config = epoch_config();
    let state = vterra_state(0, Decimal256::one(), Decimal256::one(), Decimal256::percent(60));
    assert_eq!(
        execute_epoch_operations(state, &config, &addr("addr0000"), HEIGHT + 10, u(1), u(1)),
        Err(VterraError::Unauthorized)
    );
    assert_eq!(
        execute_epoch_operations(state, &config, &addr("overseer"), HEIGHT + 9, u(1), u(1)),
        Err(VterraError::EpochNotPassed(HEIGHT))
    );
}

#[test]
fn exchange_rate_compounds_per_block() {
    assert_eq!(pow(dec("1.1"), 2), dec("1.21"));
    assert_eq!(pow(dec("2"), 0), Decimal256::one());
    assert_eq!(compute_ve_exchange_rate(dec("2"), dec("1.1"), 10, 12), dec("2.42"));
    assert_eq!(compute_ve_exchange_rate(dec("2"), dec("1.1"), 10, 10), dec("2"));
    // linear for ve-aterra: 2 * 2 blocks * 1.1
    assert_eq!(ve_aterra::bonding::compute_ve_exchange_rate(dec("2"), dec("1.1"), 10, 12), dec("4.4"));
}

#[test]
fn ve_share_of_deposits() {
    let state = vterra_state(60, Decimal256::one(), Decimal256::one(), Decimal256::percent(60));
    assert_eq!(current_ve_share(&state, u(40)), Decimal256::percent(60));
}

#[test]
fn ve_aterra_hooks_need_their_tokens() {
    let config = register_ve_aterra(ve_config(), addr("ve-AT-usd")).unwrap();
    assert_eq!(register_ve_aterra(config.clone(), addr("x")), Err(VeAterraError::Unauthorized));
    assert_eq!(receive_cw20(&config, &addr("other"), Some(Cw20HookMsg::BondATerra)), Err(VeAterraError::Unauthorized));
    assert_eq!(receive_cw20(&config, &addr("AT-usd"), Some(Cw20HookMsg::UnbondVeATerra)), Err(VeAterraError::Unauthorized));
    assert_eq!(receive_cw20(&config, &addr("AT-usd"), None), Err(VeAterraError::UnsupportedCw20Hook));
}
