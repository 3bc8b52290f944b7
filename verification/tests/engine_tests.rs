use rewards_engine::asset::{Coin, Denom, MessageInfo};
use rewards_engine::emission::EmissionRate;
use rewards_engine::engine::{RewardsEngine, VotingPowerReading};
use rewards_engine::error::RewardsError;
use rewards_engine::msg::{CreateMsg, Cw20ReceiveMsg, ExecuteMsg, FundMsg, MemberChangedHookMsg, MemberDiff, NftStakeChangedHookMsg, QueryMsg, QueryResponse, ReceiveCw20Msg, StakeChangedHookMsg};
use rewards_engine::ownership::OwnershipAction;
use rewards_engine::time::{BlockInfo, DurationUnit, Expiration};

const OWNER: &str = "creator";
const DENOM: &str = "ujuno";

fn block(height: u64) -> BlockInfo {
    BlockInfo { height, time: height * 5 }
}

fn info(sender: &str) -> MessageInfo {
    MessageInfo { sender: String::from(sender), funds: vec![] }
}

fn info_with_coin(sender: &str, denom: &str, amount: u128) -> MessageInfo {
    MessageInfo {
        sender: String::from(sender),
        funds: vec![Coin { denom: String::from(denom), amount }],
    }
}

fn reading(id: u64, power: u128, total_power: u128) -> VotingPowerReading {
    VotingPowerReading { distribution_id: id, power, total_power }
}

fn linear(amount_per_unit_time: u128, continuous: bool) -> EmissionRate {
    EmissionRate::Linear {
        amount_per_unit_time,
        duration_unit: DurationUnit::Height,
        continuous,
    }
}

fn create_msg(rate: EmissionRate) -> CreateMsg {
    CreateMsg {
        denom: Denom::Native(String::from(DENOM)),
        emission_rate: rate,
        vp_contract: String::from("vp_contract"),
        hook_caller: String::from("hook_caller"),
        withdraw_destination: None,
    }
}

fn new_engine() -> RewardsEngine {
    RewardsEngine::instantiate(&info(OWNER), None)
}

/// Sets up the fixture: a linear distribution paying 1000 per block, funded
/// with 100,000,000 native tokens at block 1000, with total power 200.
fn fixture() -> RewardsEngine {
    let mut engine = new_engine();
    let id = engine
        .execute_create(
            &block(1000),
            &info_with_coin(OWNER, DENOM, 100_000_000),
            create_msg(linear(1000, false)),
            200,
        )
        .unwrap();
    assert_eq!(1, id);
    engine
}

fn pending_of(
    engine: &RewardsEngine,
    at: &BlockInfo,
    addr: &str,
    power: u128,
    total_power: u128,
) -> u128 {
    let readings = vec![reading(1, power, total_power)];
    let resp = engine
        .query_pending_rewards(at, &String::from(addr), None, None, &readings)
        .unwrap();
    resp.pending_rewards[0].pending_rewards
}

#[test]
fn fund_derives_the_emission_window() {
    let engine = fixture();
    let d = engine.query_distribution(1).unwrap();
    assert_eq!(Expiration::AtHeight(1000), d.active_epoch.started_at);
    assert_eq!(Expiration::AtHeight(101_000), d.active_epoch.ends_at);
    assert_eq!(100_000_000, d.funded_amount);
}

#[test]
fn end_to_end_three_stakers_accrue_by_weight() {
    let engine = fixture();
    // rate 1000/block, weights 100/50/50 of total 200
    for steps in 1..4u64 {
        let at = block(1000 + steps);
        let s = steps as u128;
        assert_eq!(500 * s, pending_of(&engine, &at, "staker1", 100, 200));
        assert_eq!(250 * s, pending_of(&engine, &at, "staker2", 50, 200));
        assert_eq!(250 * s, pending_of(&engine, &at, "staker3", 50, 200));
    }
}

#[test]
fn small_rewards_survive_the_scaling() {
    let mut engine = new_engine();
    engine
        .execute_create(
            &block(1000),
            &info_with_coin(OWNER, DENOM, 1_000_000),
            create_msg(linear(10, false)),
            200,
        )
        .unwrap();
    let at = block(1001);
    // per-block rate 10 split 100:50:50 over total 200: 5, 2, 2 after flooring once
    assert_eq!(5, pending_of(&engine, &at, "staker1", 100, 200));
    assert_eq!(2, pending_of(&engine, &at, "staker2", 50, 200));
    assert_eq!(2, pending_of(&engine, &at, "staker3", 50, 200));
}

#[test]
fn claim_pays_and_zeroes_pending() {
    let mut engine = fixture();
    let at = block(1001);
    let t = engine
        .execute_claim(&at, &info("staker1"), 1, 100, 200)
        .unwrap();
    assert_eq!(500, t.amount);
    assert_eq!(String::from("staker1"), t.recipient);
    assert_eq!(Denom::Native(String::from(DENOM)), t.denom);
    // immediately claiming again finds nothing
    let again = engine.execute_claim(&at, &info("staker1"), 1, 100, 200);
    assert_eq!(Err(RewardsError::NoRewardsClaimable), again);
}

#[test]
fn reconciliation_is_idempotent() {
    let mut engine = fixture();
    let at = block(1005);
    let addr = String::from("staker1");
    engine.update_rewards(&at, &addr, 1, 100, 200).unwrap();
    let once = pending_of(&engine, &at, "staker1", 100, 200);
    engine.update_rewards(&at, &addr, 1, 100, 200).unwrap();
    let twice = pending_of(&engine, &at, "staker1", 100, 200);
    assert_eq!(once, twice);
    assert_eq!(2500, once);
}

#[test]
fn restart_resets_window_and_keeps_accrued() {
    let mut engine = new_engine();
    engine
        .execute_create(
            &block(0),
            &info_with_coin(OWNER, DENOM, 1000),
            create_msg(linear(10, false)),
            200,
        )
        .unwrap();
    // window [0, 100); at 200 it has lapsed. fund again: restart.
    engine
        .execute_fund_native(&block(200), &info_with_coin("anyone", DENOM, 500), 1, 200)
        .unwrap();
    let d = engine.query_distribution(1).unwrap();
    assert_eq!(500, d.funded_amount);
    assert_eq!(Expiration::AtHeight(200), d.active_epoch.started_at);
    assert_eq!(Expiration::AtHeight(250), d.active_epoch.ends_at);
    // rewards accrued before the restart are still claimable
    let t = engine
        .execute_claim(&block(200), &info("staker1"), 1, 100, 200)
        .unwrap();
    assert_eq!(500, t.amount);
}

#[test]
fn continuous_topup_extends_from_original_start() {
    let mut engine = new_engine();
    engine
        .execute_create(
            &block(0),
            &info_with_coin(OWNER, DENOM, 1000),
            create_msg(linear(10, true)),
            200,
        )
        .unwrap();
    // window [0, 100) lapsed; topping up at 200 backfills instead of restarting
    engine
        .execute_fund_native(&block(200), &info_with_coin("anyone", DENOM, 3000), 1, 200)
        .unwrap();
    let d = engine.query_distribution(1).unwrap();
    assert_eq!(4000, d.funded_amount);
    assert_eq!(Expiration::AtHeight(0), d.active_epoch.started_at);
    assert_eq!(Expiration::AtHeight(400), d.active_epoch.ends_at);
    // the first 200 blocks are all emitted: 200 * 10 of 4000, half to staker1
    assert_eq!(1000, pending_of(&engine, &block(200), "staker1", 100, 200));
}

#[test]
fn withdraw_is_the_inverse_of_fund() {
    let mut engine = fixture();
    let t = engine.execute_withdraw(&block(1500), &info(OWNER), 1).unwrap();
    // distributed = 1000/block * 500 blocks; the rest flows back
    assert_eq!(99_500_000, t.amount);
    assert_eq!(String::from(OWNER), t.recipient);
    let d = engine.query_distribution(1).unwrap();
    assert_eq!(500_000, d.funded_amount);
    assert_eq!(Expiration::AtHeight(1500), d.active_epoch.ends_at);
    // later queries reflect exactly the distributed-to-date amount
    assert_eq!(250_000, pending_of(&engine, &block(2000), "staker1", 100, 200));
    assert_eq!(250_000, pending_of(&engine, &block(9000), "staker1", 100, 200));
    // withdrawing after the truncated window has ended is rejected
    let again = engine.execute_withdraw(&block(2000), &info(OWNER), 1);
    assert_eq!(Err(RewardsError::RewardsAlreadyDistributed), again);
}

#[test]
fn zero_stake_funding_is_safe_and_window_counts_down() {
    let mut engine = new_engine();
    engine
        .execute_create(
            &block(0),
            &info_with_coin(OWNER, DENOM, 10_000),
            create_msg(linear(10, false)),
            0,
        )
        .unwrap();
    let d = engine.query_distribution(1).unwrap();
    // the window runs regardless of anyone being staked
    assert_eq!(Expiration::AtHeight(1000), d.active_epoch.ends_at);
    // nothing is allocated while total power is zero
    assert_eq!(0, pending_of(&engine, &block(500), "staker1", 0, 0));
    // once someone stakes, the elapsed span is still fully distributable
    assert_eq!(60_000 / 10, pending_of(&engine, &block(600), "staker1", 100, 100));
}

#[test]
fn conservation_over_fund_claim_withdraw() {
    let mut engine = new_engine();
    engine
        .execute_create(
            &block(0),
            &info_with_coin(OWNER, DENOM, 1000),
            create_msg(linear(10, false)),
            200,
        )
        .unwrap();
    let mut paid: u128 = 0;
    // two stakers of power 100 each claim at staggered times
    paid += engine.execute_claim(&block(40), &info("staker1"), 1, 100, 200).unwrap().amount;
    paid += engine.execute_claim(&block(70), &info("staker2"), 1, 100, 200).unwrap().amount;
    paid += engine.execute_claim(&block(150), &info("staker1"), 1, 100, 200).unwrap().amount;
    paid += engine.execute_claim(&block(150), &info("staker2"), 1, 100, 200).unwrap().amount;
    assert!(paid <= 1000);
    // the window fully elapsed and both reconciled: everything was paid out
    assert_eq!(1000, paid);
}

#[test]
fn immediate_rate_pays_at_fund_time() {
    let mut engine = new_engine();
    engine
        .execute_create(
            &block(0),
            &info_with_coin(OWNER, DENOM, 1000),
            CreateMsg { emission_rate: EmissionRate::Immediate, ..create_msg(linear(1, false)) },
            200,
        )
        .unwrap();
    assert_eq!(500, pending_of(&engine, &block(0), "staker1", 100, 200));
    // nothing more accrues later: immediate epochs never accrue lazily
    assert_eq!(500, pending_of(&engine, &block(99), "staker1", 100, 200));
}

#[test]
fn paused_rate_accrues_nothing_and_withdraws_whole() {
    let mut engine = new_engine();
    engine
        .execute_create(
            &block(0),
            &info_with_coin(OWNER, DENOM, 1000),
            CreateMsg { emission_rate: EmissionRate::Paused, ..create_msg(linear(1, false)) },
            200,
        )
        .unwrap();
    assert_eq!(0, pending_of(&engine, &block(50), "staker1", 100, 200));
    let t = engine.execute_withdraw(&block(50), &info(OWNER), 1).unwrap();
    assert_eq!(1000, t.amount);
}

#[test]
fn rate_change_freezes_history_and_carries_remainder() {
    let mut engine = new_engine();
    engine
        .execute_create(
            &block(0),
            &info_with_coin(OWNER, DENOM, 1000),
            create_msg(linear(10, false)),
            200,
        )
        .unwrap();
    // halfway through, pause the distribution
    engine
        .execute_update(
            &block(50),
            &info(OWNER),
            1,
            Some(EmissionRate::Paused),
            None,
            None,
            None,
            200,
        )
        .unwrap();
    let d = engine.query_distribution(1).unwrap();
    // 50 blocks * 10 were distributed; the remainder carries into the new epoch
    assert_eq!(500, d.funded_amount);
    assert_eq!(EmissionRate::Paused, d.active_epoch.emission_rate);
    // what accrued under the old rate stays claimable, and nothing more accrues
    assert_eq!(250, pending_of(&engine, &block(50), "staker1", 100, 200));
    assert_eq!(250, pending_of(&engine, &block(500), "staker1", 100, 200));
}

#[test]
fn cw20_distribution_funds_only_through_its_token() {
    let mut engine = new_engine();
    engine
        .execute_create(
            &block(0),
            &info(OWNER),
            CreateMsg {
                denom: Denom::Cw20(String::from("token")),
                ..create_msg(linear(10, false))
            },
            200,
        )
        .unwrap();
    let wrapper = Cw20ReceiveMsg {
        sender: String::from("whale"),
        amount: 1000,
        msg: ReceiveCw20Msg::Fund(FundMsg { id: 1 }),
    };
    // a notification from some other contract is rejected
    let wrong = engine.execute_receive_cw20(&block(0), &info("impostor"), &wrapper, 200);
    assert_eq!(Err(RewardsError::InvalidCw20), wrong);
    // the configured token's own notification funds it
    engine.execute_receive_cw20(&block(0), &info("token"), &wrapper, 200).unwrap();
    assert_eq!(1000, engine.query_distribution(1).unwrap().funded_amount);
    // native funding of a fungible-token distribution is rejected
    let native = engine.execute_fund_native(
        &block(1),
        &info_with_coin("anyone", DENOM, 5),
        1,
        200,
    );
    assert_eq!(Err(RewardsError::InvalidFunds), native);
}

#[test]
fn payment_shape_is_enforced() {
    let mut engine = fixture();
    // no funds
    assert_eq!(
        Err(RewardsError::InvalidFunds),
        engine.execute_fund_native(&block(1001), &info("anyone"), 1, 200)
    );
    // wrong denom
    assert_eq!(
        Err(RewardsError::InvalidFunds),
        engine.execute_fund_native(&block(1001), &info_with_coin("anyone", "uatom", 5), 1, 200)
    );
    // several coins
    let mut multi = info_with_coin("anyone", DENOM, 5);
    multi.funds.push(Coin { denom: String::from("uatom"), amount: 5 });
    assert_eq!(
        Err(RewardsError::InvalidFunds),
        engine.execute_fund_native(&block(1001), &multi, 1, 200)
    );
    // a claim takes no payment
    assert_eq!(
        Err(RewardsError::NonPayable),
        engine.execute_claim(&block(1001), &info_with_coin("staker1", DENOM, 1), 1, 100, 200)
    );
}

#[test]
fn privileged_operations_demand_the_owner() {
    let mut engine = fixture();
    assert_eq!(
        Err(RewardsError::NotOwner),
        engine.execute_create(&block(1001), &info("mallory"), create_msg(linear(1, false)), 200)
    );
    assert_eq!(
        Err(RewardsError::NotOwner),
        engine.execute_withdraw(&block(1001), &info("mallory"), 1)
    );
    assert_eq!(
        Err(RewardsError::NotOwner),
        engine.execute_update(&block(1001), &info("mallory"), 1, None, None, None, None, 200)
    );
}

#[test]
fn creation_rejects_zero_rates_and_cw20_funds() {
    let mut engine = new_engine();
    assert_eq!(
        Err(RewardsError::InvalidEmissionRateFieldZero),
        engine.execute_create(&block(0), &info(OWNER), create_msg(linear(0, false)), 200)
    );
    assert_eq!(
        Err(RewardsError::NoFundsOnCw20Create),
        engine.execute_create(
            &block(0),
            &info_with_coin(OWNER, DENOM, 100),
            CreateMsg {
                denom: Denom::Cw20(String::from("token")),
                ..create_msg(linear(10, false))
            },
            200,
        )
    );
    assert_eq!(
        Err(RewardsError::DistributionNotFound { id: 7 }),
        engine.execute_fund_native(&block(0), &info_with_coin("anyone", DENOM, 5), 7, 200)
    );
}

#[test]
fn two_step_ownership_transfer() {
    let mut engine = new_engine();
    // nobody has been nominated yet
    assert_eq!(
        Err(RewardsError::NotPendingOwner),
        engine.execute_update_owner(&block(0), &info("heir"), OwnershipAction::AcceptOwnership)
    );
    engine
        .execute_update_owner(
            &block(0),
            &info(OWNER),
            OwnershipAction::TransferOwnership {
                new_owner: String::from("heir"),
                expiry: Some(Expiration::AtHeight(10)),
            },
        )
        .unwrap();
    // the nomination lapses at its expiry
    assert_eq!(
        Err(RewardsError::PendingOwnerExpired),
        engine.execute_update_owner(&block(10), &info("heir"), OwnershipAction::AcceptOwnership)
    );
    engine
        .execute_update_owner(&block(5), &info("heir"), OwnershipAction::AcceptOwnership)
        .unwrap();
    assert_eq!(Some(String::from("heir")), engine.query_ownership().owner);
    engine
        .execute_update_owner(&block(6), &info("heir"), OwnershipAction::RenounceOwnership)
        .unwrap();
    assert_eq!(None, engine.query_ownership().owner);
}

#[test]
fn stake_change_hooks_reconcile_for_the_caller() {
    let mut engine = fixture();
    let msg = StakeChangedHookMsg::Stake { addr: String::from("staker1") };
    let readings = vec![reading(1, 100, 200)];
    // only the registered hook caller may notify
    assert_eq!(
        Err(RewardsError::UnauthorizedHookCaller),
        engine.execute_stake_changed(&block(1001), &info("impostor"), &msg, &readings)
    );
    engine
        .execute_stake_changed(&block(1001), &info("hook_caller"), &msg, &readings)
        .unwrap();
    // the hook banked the accrued amount; a claim at the same block pays it
    let t = engine
        .execute_claim(&block(1001), &info("staker1"), 1, 100, 200)
        .unwrap();
    assert_eq!(500, t.amount);
}

#[test]
fn listing_queries_paginate_by_id() {
    let mut engine = new_engine();
    for _ in 0..3 {
        engine
            .execute_create(&block(0), &info(OWNER), create_msg(linear(10, false)), 200)
            .unwrap();
    }
    let page = engine.query_distributions(None, Some(2));
    assert_eq!(2, page.distributions.len());
    assert_eq!(1, page.distributions[0].id);
    assert_eq!(2, page.distributions[1].id);
    let rest = engine.query_distributions(Some(1), None);
    assert_eq!(2, rest.distributions.len());
    assert_eq!(2, rest.distributions[0].id);
    assert_eq!(3, rest.distributions[1].id);
}

#[test]
fn dispatcher_routes_operations_and_queries() {
    let mut engine = fixture();
    let readings = vec![reading(1, 100, 200)];
    let resp = engine
        .execute(&block(1001), &info("staker1"), ExecuteMsg::Claim { id: 1 }, &readings)
        .unwrap();
    assert_eq!(1, resp.transfers.len());
    assert_eq!(500, resp.transfers[0].amount);
    // a claim without an oracle reading cannot be served
    assert_eq!(
        Err(RewardsError::VotingPowerNotProvided { id: 1 }),
        engine.execute(&block(1002), &info("staker1"), ExecuteMsg::Claim { id: 1 }, &vec![])
    );
    match engine.query(&block(1002), QueryMsg::Distribution { id: 1 }, &vec![]).unwrap() {
        QueryResponse::Distribution(d) => assert_eq!(1, d.id),
        _ => panic!("wrong response variant"),
    }
}

#[test]
fn hooks_demand_an_oracle_reading_per_distribution() {
    let mut engine = fixture();
    let msg = StakeChangedHookMsg::Unstake { addr: String::from("staker1") };
    assert_eq!(
        Err(RewardsError::VotingPowerNotProvided { id: 1 }),
        engine.execute_stake_changed(&block(1001), &info("hook_caller"), &msg, &vec![])
    );
}

#[test]
fn nft_and_membership_hooks_reconcile_too() {
    let mut engine = fixture();
    let readings = vec![reading(1, 100, 200)];
    engine
        .execute_nft_stake_changed(
            &block(1001),
            &info("hook_caller"),
            &NftStakeChangedHookMsg::Stake {
                addr: String::from("staker1"),
                token_id: String::from("42"),
            },
            &readings,
        )
        .unwrap();
    let diffs = MemberChangedHookMsg {
        diffs: vec![MemberDiff { key: String::from("staker1"), old: Some(10), new: Some(20) }],
    };
    engine
        .execute_membership_changed(&block(1001), &info("hook_caller"), &diffs, &readings)
        .unwrap();
    // both notifications reconciled at the same instant: banked exactly once
    let t = engine.execute_claim(&block(1001), &info("staker1"), 1, 100, 200).unwrap();
    assert_eq!(500, t.amount);
}

#[test]
fn changing_the_hook_caller_moves_the_subscription() {
    let mut engine = fixture();
    engine
        .execute_update(
            &block(1001),
            &info(OWNER),
            1,
            None,
            None,
            Some(String::from("new_hook")),
            None,
            200,
        )
        .unwrap();
    let msg = StakeChangedHookMsg::Stake { addr: String::from("staker1") };
    let readings = vec![reading(1, 100, 200)];
    // the old caller keeps an empty subscription: its notifications now
    // reconcile nothing
    engine
        .execute_stake_changed(&block(1002), &info("hook_caller"), &msg, &readings)
        .unwrap();
    assert!(engine.user_rewards.is_empty());
    // the new caller's notifications reconcile the distribution
    engine
        .execute_stake_changed(&block(1002), &info("new_hook"), &msg, &readings)
        .unwrap();
    assert_eq!(1, engine.user_rewards.len());
}

#[test]
fn dispatcher_funds_and_creates() {
    let mut engine = new_engine();
    let readings = vec![reading(1, 0, 200)];
    engine
        .execute(
            &block(0),
            &info_with_coin(OWNER, DENOM, 1000),
            ExecuteMsg::Create(create_msg(linear(10, false))),
            &readings,
        )
        .unwrap();
    assert_eq!(1000, engine.query_distribution(1).unwrap().funded_amount);
    engine
        .execute(
            &block(1),
            &info_with_coin("anyone", DENOM, 500),
            ExecuteMsg::Fund(FundMsg { id: 1 }),
            &readings,
        )
        .unwrap();
    assert_eq!(1500, engine.query_distribution(1).unwrap().funded_amount);
}

#[test]
fn pending_rewards_respect_the_page() {
    let mut engine = new_engine();
    for _ in 0..3 {
        engine
            .execute_create(
                &block(0),
                &info_with_coin(OWNER, DENOM, 1000),
                create_msg(linear(10, false)),
                200,
            )
            .unwrap();
    }
    let readings = vec![reading(2, 100, 200), reading(3, 100, 200)];
    let resp = engine
        .query_pending_rewards(&block(10), &String::from("staker1"), Some(1), Some(2), &readings)
        .unwrap();
    assert_eq!(2, resp.pending_rewards.len());
    assert_eq!(2, resp.pending_rewards[0].id);
    assert_eq!(3, resp.pending_rewards[1].id);
    // 10 blocks * 10 per block, half of total power each
    assert_eq!(50, resp.pending_rewards[0].pending_rewards);
}

#[test]
fn zero_amount_notified_funding_restarts_expired() {
    let mut engine = new_engine();
    engine
        .execute_create(
            &block(0),
            &info(OWNER),
            CreateMsg {
                denom: Denom::Cw20(String::from("token")),
                ..create_msg(linear(10, false))
            },
            200,
        )
        .unwrap();
    // a zero-amount notification restarts the window as immediately expired
    let wrapper = Cw20ReceiveMsg {
        sender: String::from("whale"),
        amount: 0,
        msg: ReceiveCw20Msg::Fund(FundMsg { id: 1 }),
    };
    engine.execute_receive_cw20(&block(7), &info("token"), &wrapper, 200).unwrap();
    let d = engine.query_distribution(1).unwrap();
    assert_eq!(0, d.funded_amount);
    assert_eq!(Expiration::AtHeight(7), d.active_epoch.started_at);
    assert_eq!(Expiration::AtHeight(7), d.active_epoch.ends_at);
}

#[test]
fn claims_on_unknown_distributions_are_rejected() {
    let mut engine = new_engine();
    assert_eq!(
        Err(RewardsError::DistributionNotFound { id: 9 }),
        engine.execute_claim(&block(0), &info("staker1"), 9, 100, 200)
    );
    assert!(engine.query_distribution(9).is_err());
}

#[test]
fn window_arithmetic_overflow_is_rejected() {
    let mut engine = new_engine();
    engine
        .execute_create(&block(0), &info(OWNER), create_msg(linear(1, false)), 200)
        .unwrap();
    // a funded period of u128::MAX blocks cannot be expressed on the clock
    assert_eq!(
        Err(RewardsError::Overflow),
        engine.execute_fund_native(&block(0), &info_with_coin("anyone", DENOM, u128::MAX), 1, 200)
    );
    // the failed attempt left the distribution unfunded
    assert_eq!(0, engine.query_distribution(1).unwrap().funded_amount);
}

#[test]
fn immediate_emission_overflow_is_rejected() {
    let mut engine = new_engine();
    engine
        .execute_create(
            &block(0),
            &info(OWNER),
            CreateMsg { emission_rate: EmissionRate::Immediate, ..create_msg(linear(1, false)) },
            200,
        )
        .unwrap();
    // scaling u128::MAX by the fixed-point factor leaves the wide accumulator
    assert_eq!(
        Err(RewardsError::Overflow),
        engine.execute_fund_native(&block(0), &info_with_coin("anyone", DENOM, u128::MAX), 1, 200)
    );
}

#[test]
fn listing_queries_cap_the_page_size() {
    let mut engine = new_engine();
    for _ in 0..3 {
        engine
            .execute_create(&block(0), &info(OWNER), create_msg(linear(10, false)), 200)
            .unwrap();
    }
    // an oversized limit is capped, an absent one defaults
    assert_eq!(3, engine.query_distributions(None, Some(1000)).distributions.len());
    assert_eq!(3, engine.query_distributions(None, None).distributions.len());
    assert_eq!(0, engine.query_distributions(Some(99), None).distributions.len());
}
