//! Laws the engine obeys, stated and proved over the same spec functions the
//! operations' contracts use.
//!
//! The accrual arithmetic has one shape everywhere: an emission `e` is
//! scaled up by the fixed-point factor and spread over the total voting
//! power `tp` into a per-unit-power delta `e * scale / tp`, and a
//! participant with power `p` later collects `delta * p / scale`, with the
//! one floor division at the very end. The laws below pin down what that
//! shape guarantees: reconciliation is idempotent, split reconciliations
//! never collect more than a merged one, and no division of an emission
//! among participants ever pays out more than was emitted.

use vstd::prelude::*;

use vstd::arithmetic::div_mod::{
    lemma_div_is_ordered, lemma_div_multiples_vanish, lemma_div_of0, lemma_div_pos_is_pos,
    lemma_fundamental_div_mod, lemma_mod_bound,
};
use vstd::arithmetic::mul::{
    lemma_mul_by_zero_is_zero, lemma_mul_inequality, lemma_mul_is_commutative,
    lemma_mul_is_distributive_add, lemma_mul_is_distributive_add_other_way,
    lemma_mul_nonnegative,
};

use crate::distribution::DistributionState;
use crate::emission::EmissionRate;
use crate::engine::{spec_dist_total, RewardsEngine};
use crate::epoch::Epoch;
use crate::error::RewardsError;
use crate::num::{lemma_div_mul_le, lemma_u256_of, limb_base, scale, spec_collect, spec_spread, u256_bound, u256_of, U256};
use crate::time::{BlockInfo, DurationUnit, Expiration};
use crate::user::RewardEntry;

verus! {

/// The sum of a sequence of integers.
pub open spec fn sum_int(s: Seq<int>) -> int
    decreases s.len(),
{
    if s.len() == 0 {
        0
    } else {
        s[0] + sum_int(s.drop_first())
    }
}

/// Floor division is superadditive: flooring two parts separately never
/// beats flooring their sum.
pub proof fn lemma_div_superadd(a: int, b: int, m: int)
    requires
        a >= 0,
        b >= 0,
        m > 0,
    ensures
        a / m + b / m <= (a + b) / m,
{
    lemma_fundamental_div_mod(a, m);
    lemma_fundamental_div_mod(b, m);
    lemma_mod_bound(a, m);
    lemma_mod_bound(b, m);
    lemma_div_pos_is_pos(a, m);
    lemma_div_pos_is_pos(b, m);
    lemma_mul_is_distributive_add(m, a / m, b / m);
    lemma_div_is_ordered(m * (a / m + b / m), a + b, m);
    lemma_div_multiples_vanish(a / m + b / m, m);
}

/// Reconciling in many small steps never collects more than reconciling
/// once over the merged span: for any split of a cumulative delta into
/// non-negative pieces, the sum of the pieces' floored payouts is at most
/// the merged floored payout. Together with `law_conservation` this bounds
/// every schedule of claims, however a participant times them.
pub proof fn law_reconcile_steps_merge(deltas: Seq<int>, power: int)
    requires
        forall|i: int| 0 <= i < deltas.len() ==> deltas[i] >= 0,
        power >= 0,
    ensures
        sum_int(deltas.map_values(|d: int| spec_collect(d, power))) <= spec_collect(
            sum_int(deltas),
            power,
        ),
        sum_int(deltas) >= 0,
    decreases deltas.len(),
{
    if deltas.len() == 0 {
        lemma_mul_by_zero_is_zero(power);
        lemma_div_of0(scale());
    } else {
        let rest = deltas.drop_first();
        law_reconcile_steps_merge(rest, power);
        assert(deltas.map_values(|d: int| spec_collect(d, power)).drop_first()
            =~= rest.map_values(|d: int| spec_collect(d, power)));
        lemma_mul_nonnegative(deltas[0], power);
        lemma_mul_nonnegative(sum_int(rest), power);
        lemma_div_pos_is_pos(sum_int(rest) * power, scale());
        lemma_div_superadd(deltas[0] * power, sum_int(rest) * power, scale());
        lemma_mul_is_distributive_add_other_way(power, deltas[0], sum_int(rest));
    }
}

/// Splitting one accrual delta among participants never pays out more than
/// handing the whole delta to their combined power.
pub proof fn law_split_among_powers(delta: int, powers: Seq<int>)
    requires
        delta >= 0,
        forall|i: int| 0 <= i < powers.len() ==> powers[i] >= 0,
    ensures
        sum_int(powers.map_values(|p: int| spec_collect(delta, p))) <= spec_collect(
            delta,
            sum_int(powers),
        ),
        sum_int(powers) >= 0,
    decreases powers.len(),
{
    if powers.len() == 0 {
        lemma_mul_by_zero_is_zero(delta);
        lemma_div_of0(scale());
    } else {
        let rest = powers.drop_first();
        law_split_among_powers(delta, rest);
        assert(powers.map_values(|p: int| spec_collect(delta, p)).drop_first()
            =~= rest.map_values(|p: int| spec_collect(delta, p)));
        lemma_mul_nonnegative(delta, powers[0]);
        lemma_mul_nonnegative(delta, sum_int(rest));
        lemma_div_pos_is_pos(delta * sum_int(rest), scale());
        lemma_div_superadd(delta * powers[0], delta * sum_int(rest), scale());
        lemma_mul_is_distributive_add(delta, powers[0], sum_int(rest));
    }
}

/// The per-unit-power deltas of a sequence of emission segments, each
/// spread over the total power in force when it was emitted.
pub open spec fn spec_total_delta(segments: Seq<(int, int)>) -> int {
    sum_int(segments.map_values(|s: (int, int)| spec_spread(s.0, s.1)))
}

/// What a sequence of emission segments emitted in all.
pub open spec fn spec_total_emitted(segments: Seq<(int, int)>) -> int {
    sum_int(segments.map_values(|s: (int, int)| s.0))
}

/// Across a sequence of emission segments, the accumulated per-unit-power
/// delta times a combined power bounded by every segment's total power
/// never exceeds the total emission, scaled.
proof fn lemma_delta_times_power_bound(segments: Seq<(int, int)>, combined: int)
    requires
        forall|i: int| 0 <= i < segments.len() ==> segments[i].0 >= 0 && segments[i].1 > 0,
        combined >= 0,
        forall|i: int| 0 <= i < segments.len() ==> combined <= segments[i].1,
    ensures
        spec_total_delta(segments) * combined <= spec_total_emitted(segments) * scale(),
        spec_total_delta(segments) >= 0,
        spec_total_emitted(segments) >= 0,
    decreases segments.len(),
{
    if segments.len() == 0 {
        lemma_mul_by_zero_is_zero(combined);
        lemma_mul_by_zero_is_zero(scale());
    } else {
        let rest = segments.drop_first();
        lemma_delta_times_power_bound(rest, combined);
        assert(segments.map_values(|s: (int, int)| spec_spread(s.0, s.1)).drop_first()
            =~= rest.map_values(|s: (int, int)| spec_spread(s.0, s.1)));
        assert(segments.map_values(|s: (int, int)| s.0).drop_first() =~= rest.map_values(
            |s: (int, int)| s.0,
        ));
        let (e0, tp0) = segments[0];
        let d0 = spec_spread(e0, tp0);
        lemma_mul_nonnegative(e0, scale());
        lemma_div_pos_is_pos(e0 * scale(), tp0);
        // d0 * tp0 <= e0 * scale, so d0 * combined <= e0 * scale
        lemma_div_mul_le(e0 * scale(), tp0);
        lemma_mul_is_commutative(d0, tp0);
        lemma_mul_inequality(combined, tp0, d0);
        lemma_mul_is_commutative(d0, combined);
        lemma_mul_is_commutative(combined, d0);
        // distribute over the head and the rest
        lemma_mul_is_distributive_add_other_way(combined, d0, spec_total_delta(rest));
        lemma_mul_is_distributive_add_other_way(scale(), e0, spec_total_emitted(rest));
        lemma_mul_is_commutative(e0, scale());
        lemma_mul_is_commutative(spec_total_emitted(rest), scale());
        lemma_mul_is_commutative(e0 + spec_total_emitted(rest), scale());
    }
}

/// Conservation: over any sequence of emission segments, each spread over
/// the total voting power in force at its time, participants whose powers
/// sum to at most every one of those total powers can never collect more,
/// in total, than the segments emitted — whatever the schedule of
/// reconciliations, by `law_reconcile_steps_merge`. In the engine each
/// accrual update contributes one segment with `e` equal to elapsed time
/// times the linear rate (or an immediate deposit), and the well-formedness
/// invariant keeps a window's total emission at or below its funded amount.
pub proof fn law_conservation(segments: Seq<(int, int)>, powers: Seq<int>)
    requires
        forall|i: int| 0 <= i < segments.len() ==> segments[i].0 >= 0 && segments[i].1 > 0,
        forall|i: int| 0 <= i < powers.len() ==> powers[i] >= 0,
        forall|i: int| 0 <= i < segments.len() ==> sum_int(powers) <= segments[i].1,
    ensures
        sum_int(powers.map_values(|p: int| spec_collect(spec_total_delta(segments), p)))
            <= spec_total_emitted(segments),
{
    let delta = spec_total_delta(segments);
    let ghost combined = sum_int(powers);
    lemma_delta_times_power_bound(segments, 0);
    law_split_among_powers(delta, powers);
    lemma_delta_times_power_bound(segments, combined);
    lemma_div_is_ordered(delta * combined, spec_total_emitted(segments) * scale(), scale());
    lemma_mul_is_commutative(spec_total_emitted(segments), scale());
    lemma_div_multiples_vanish(spec_total_emitted(segments), scale());
}


/// Idempotent reconciliation: once a reconciliation is persisted, running
/// it again at the same block with no intervening stake or funding change
/// accrues nothing more — whatever power the second run sees — and leaves
/// the distribution exactly as it stood.
pub proof fn law_reconcile_idempotent(
    d: DistributionState,
    prev: Option<RewardEntry>,
    block: BlockInfo,
    power: u128,
    total_power: u128,
    power2: u128,
)
    requires
        d.wf(),
        prev matches Some(e) ==> e.accounted_puvp@ <= spec_dist_total(d),
        RewardsEngine::spec_reconcile(d, prev, block, power, total_power) is Ok,
    ensures
        ({
            let rec = RewardsEngine::spec_reconcile(d, prev, block, power, total_power);
            let d1 = RewardsEngine::spec_settled_dist(d, rec->Ok_0.0, block);
            let rec2 = RewardsEngine::spec_reconcile(
                d1,
                Some(rec->Ok_0.1),
                block,
                power2,
                total_power,
            );
            &&& rec2 is Ok
            &&& rec2->Ok_0.1 == rec->Ok_0.1
            &&& RewardsEngine::spec_settled_dist(d1, rec2->Ok_0.0, block) == d1
        }),
{
    let rec = RewardsEngine::spec_reconcile(d, prev, block, power, total_power);
    let active = rec->Ok_0.0;
    let en = rec->Ok_0.1;
    let d1 = RewardsEngine::spec_settled_dist(d, active, block);
    d.active_epoch.lemma_projection_monotone(block, total_power);
    lemma_u256_of(active);
    let total = active + d.historical_earned_puvp@;
    lemma_u256_of(total);
    d.active_epoch.lemma_projection_settles(block, total_power, u256_of(active), total_power);
    assert(d1.active_epoch.spec_active_puvp(block, total_power) == Ok::<int, RewardsError>(
        active,
    ));
    lemma_mul_by_zero_is_zero(power2 as int);
    lemma_div_of0(scale());
    assert(d1.active_epoch.spec_bump(block) == d1.active_epoch);
    let rec2 = RewardsEngine::spec_reconcile(d1, Some(en), block, power2, total_power);
    assert(rec2 is Ok);
    assert(rec2->Ok_0.1 == en);
}

/// Restart semantics for a non-continuous linear distribution: funding
/// after the window has lapsed resets the funded amount to the fresh
/// deposit and restarts the window at the funding block, after first
/// bringing the lapsed window's accrual current — so rewards already
/// accrued remain independently claimable and the accumulator never
/// decreases.
pub proof fn law_fund_restart_semantics(
    d: DistributionState,
    block: BlockInfo,
    amount: u128,
    total_power: u128,
)
    requires
        d.wf(),
        d.active_epoch.emission_rate matches EmissionRate::Linear { .. },
        !d.active_epoch.emission_rate.spec_continuous(),
        d.active_epoch.ends_at.spec_is_expired(block),
        d.spec_fund(block, amount, total_power) is Ok,
    ensures
        ({
            let f = d.spec_fund(block, amount, total_power)->Ok_0;
            &&& f.funded_amount == amount
            &&& (match d.active_epoch.emission_rate {
                EmissionRate::Linear { duration_unit, .. } => f.active_epoch.started_at == (match
                    duration_unit {
                    DurationUnit::Height => Expiration::AtHeight(block.height),
                    DurationUnit::Time => Expiration::AtTime(block.time),
                }),
                _ => false,
            })
            &&& d.active_epoch.spec_active_puvp(block, total_power) is Ok
            &&& f.active_epoch.total_earned_puvp@ == d.active_epoch.spec_active_puvp(
                block,
                total_power,
            )->Ok_0
            &&& f.active_epoch.total_earned_puvp@ >= d.active_epoch.total_earned_puvp@
            &&& f.historical_earned_puvp == d.historical_earned_puvp
        }),
{
    assert(d.spec_restarts_on_fund(block));
    match d.active_epoch.spec_active_puvp(block, total_power) {
        Err(_) => {},
        Ok(v) => {
            d.active_epoch.lemma_projection_monotone(block, total_power);
            lemma_u256_of(v);
        },
    }
}

/// Top-up semantics for a continuous linear distribution: funding an
/// already-funded window — lapsed or not — adds to the funded amount,
/// keeps the original start, extends the end to cover the new total at the
/// old rate, and never lowers the accumulated per-unit-power total: lapsed
/// idle time is backfilled rather than discarded.
pub proof fn law_fund_continuous_extends(
    d: DistributionState,
    block: BlockInfo,
    amount: u128,
    total_power: u128,
)
    requires
        d.wf(),
        d.active_epoch.emission_rate matches EmissionRate::Linear { .. },
        d.active_epoch.emission_rate.spec_continuous(),
        d.funded_amount > 0,
        d.spec_fund(block, amount, total_power) is Ok,
    ensures
        ({
            let f = d.spec_fund(block, amount, total_power)->Ok_0;
            &&& f.funded_amount == d.funded_amount + amount
            &&& f.active_epoch.started_at == d.active_epoch.started_at
            &&& f.historical_earned_puvp == d.historical_earned_puvp
            &&& f.active_epoch.total_earned_puvp@ >= d.active_epoch.total_earned_puvp@
            &&& (match (d.active_epoch.started_at.spec_value(), d.active_epoch.emission_rate) {
                (Some(s), EmissionRate::Linear { amount_per_unit_time, .. }) => {
                    f.active_epoch.ends_at.spec_value() == Some(
                        (s + (d.funded_amount + amount) as int / (amount_per_unit_time as int)) as u64,
                    )
                },
                _ => true,
            })
        }),
{
    assert(!d.spec_restarts_on_fund(block));
    d.lemma_fund_monotone(block, amount, total_power, d.spec_fund(block, amount, total_power)->Ok_0);
}

/// Withdraw is the inverse of fund: ending a running linear window at time
/// `T` leaves exactly rate times `T - start` distributed, claws back the
/// funded remainder, and freezes accrual at the truncation point, so any
/// later query reflects exactly the distributed-to-date amount and never
/// more.
pub proof fn law_withdraw_inverse_of_fund(d: DistributionState, block: BlockInfo)
    requires
        d.wf(),
        d.active_epoch.emission_rate matches EmissionRate::Linear { .. },
        d.active_epoch.started_at.spec_value() is Some,
        (match d.active_epoch.emission_rate {
            EmissionRate::Linear { duration_unit, .. } => block.spec_scalar(duration_unit) as int
                >= d.active_epoch.started_at.spec_value()->Some_0,
            _ => false,
        }),
        !d.active_epoch.ends_at.spec_is_expired(block),
    ensures
        d.spec_withdraw(block) is Ok,
        ({
            let w = d.spec_withdraw(block);
            let distributed = (match d.active_epoch.emission_rate {
                EmissionRate::Linear { duration_unit, amount_per_unit_time, .. } => (
                amount_per_unit_time as int) * (block.spec_scalar(duration_unit)
                    - d.active_epoch.started_at.spec_value()->Some_0),
                _ => 0,
            });
            &&& w->Ok_0.0.funded_amount == distributed
            &&& w->Ok_0.1 == d.funded_amount - distributed
            &&& w->Ok_0.0.active_epoch.total_earned_puvp == d.active_epoch.total_earned_puvp
            &&& w->Ok_0.0.historical_earned_puvp == d.historical_earned_puvp
            &&& (match d.active_epoch.emission_rate {
                EmissionRate::Linear { duration_unit, .. } => forall|b2: BlockInfo, tp: u128|
                    b2.spec_scalar(duration_unit) >= block.spec_scalar(duration_unit)
                        ==> #[trigger] w->Ok_0.0.active_epoch.spec_active_puvp(b2, tp)
                        == w->Ok_0.0.active_epoch.spec_active_puvp(block, tp),
                _ => true,
            })
        }),
{
    match d.active_epoch.emission_rate {
        EmissionRate::Linear { duration_unit, amount_per_unit_time, .. } => {
            let s = d.active_epoch.started_at.spec_value()->Some_0;
            let now = block.spec_scalar(duration_unit) as int;
            let w = d.spec_withdraw(block);
            let d1 = w->Ok_0.0;
            assert(d.active_epoch.ends_at.spec_value() is Some);
            let e = d.active_epoch.ends_at.spec_value()->Some_0;
            assert(now < e);
            let win1 = now - s;
            let win0 = d.active_epoch.spec_window();
            assert(win1 <= win0);
            if amount_per_unit_time as int > 0 {
                vstd::arithmetic::mul::lemma_mul_left_inequality(
                    amount_per_unit_time as int,
                    win1,
                    win0,
                );
                lemma_mul_nonnegative(amount_per_unit_time as int, win1);
            }
            assert forall|b2: BlockInfo, tp: u128|
                b2.spec_scalar(duration_unit) >= block.spec_scalar(duration_unit)
                    implies #[trigger] d1.active_epoch.spec_active_puvp(b2, tp)
                == d1.active_epoch.spec_active_puvp(block, tp) by {
                assert(d1.active_epoch.spec_elapsed(b2) == d1.active_epoch.spec_elapsed(block));
            }
        },
        _ => {},
    }
}

/// Zero-stake safety: funding while total voting power is zero allocates
/// nothing and loses nothing — the accumulators are untouched — and the
/// operation fails only on the window bookkeeping's own range limits,
/// never on the emission arithmetic.
pub proof fn law_zero_stake_fund_safe(d: DistributionState, block: BlockInfo, amount: u128)
    requires
        d.wf(),
    ensures
        d.spec_fund(block, amount, 0) matches Ok(f) ==> f.active_epoch.total_earned_puvp
            == d.active_epoch.total_earned_puvp && f.historical_earned_puvp
            == d.historical_earned_puvp,
        d.spec_fund(block, amount, 0) matches Err(e) ==> e == RewardsError::Overflow,
        ({
            let funded1 = if d.spec_restarts_on_fund(block) {
                amount as int
            } else {
                d.funded_amount + amount
            };
            match d.active_epoch.emission_rate {
                EmissionRate::Linear { amount_per_unit_time, duration_unit, .. } => {
                    let units = funded1 / (amount_per_unit_time as int);
                    let started1 = if d.spec_restarts_on_fund(block) {
                        match duration_unit {
                            DurationUnit::Height => Expiration::AtHeight(block.height),
                            DurationUnit::Time => Expiration::AtTime(block.time),
                        }
                    } else {
                        d.active_epoch.started_at
                    };
                    (funded1 <= u128::MAX && units <= u64::MAX
                        && started1.spec_checked_add_duration(
                        match duration_unit {
                            DurationUnit::Height => crate::time::Duration::Height(units as u64),
                            DurationUnit::Time => crate::time::Duration::Time(units as u64),
                        },
                    ) is Some) ==> d.spec_fund(block, amount, 0) is Ok
                },
                _ => funded1 <= u128::MAX ==> d.spec_fund(block, amount, 0) is Ok,
            }
        }),
{
    let restart = d.spec_restarts_on_fund(block);
    if !restart && d.funded_amount + amount > u128::MAX {
    } else {
        let funded1 = if restart {
            amount
        } else {
            (d.funded_amount + amount) as u128
        };
        match d.active_epoch.emission_rate.spec_funded_period_duration(funded1) {
            Err(_) => {},
            Ok(dur_opt) => {
                let started1 = if restart {
                    match d.active_epoch.emission_rate {
                        EmissionRate::Linear { duration_unit, .. } => match duration_unit {
                            DurationUnit::Height => Expiration::AtHeight(block.height),
                            DurationUnit::Time => Expiration::AtTime(block.time),
                        },
                        _ => Expiration::Never,
                    }
                } else {
                    d.active_epoch.started_at
                };
                match (match dur_opt {
                    None => Some(Expiration::Never),
                    Some(dd) => started1.spec_checked_add_duration(dd),
                }) {
                    None => {},
                    Some(ends) => {
                        let ep1 = Epoch {
                            started_at: started1,
                            ends_at: ends,
                            ..d.active_epoch
                        };
                        if ep1.emission_rate is Immediate {
                        } else if !restart && ep1.emission_rate.spec_continuous() {
                            assert(ep1.spec_elapsed(block) * ep1.spec_apu() * scale() == 0 || ep1.spec_active_puvp(block, 0) == Ok::<int, RewardsError>(ep1.total_earned_puvp@ as int));
                            assert(ep1.spec_active_puvp(block, 0) == Ok::<int, RewardsError>(
                                ep1.total_earned_puvp@ as int,
                            ));
                            let v = ep1.total_earned_puvp@ as int;
                            lemma_u256_of(v);
                            let w2 = u256_of(v);
                            assert(w2.hi * limb_base() + w2.lo == ep1.total_earned_puvp.hi
                                * limb_base() + ep1.total_earned_puvp.lo);
                            assert(w2 == ep1.total_earned_puvp);
                        }
                    },
                }
            },
        }
    }
}


/// The emission one projection bills never exceeds the funded amount: the
/// elapsed span is capped at the window's end, and the well-formedness
/// invariant keeps the whole window's emission at or below the funding.
/// With `law_conservation` over the resulting segments, no sequence of
/// fund, reconcile and claim operations on one window can pay out more
/// than it was funded with.
pub proof fn law_emission_within_funding(d: DistributionState, block: BlockInfo)
    requires
        d.wf(),
        (match (
            d.active_epoch.last_updated_total_earned_puvp.spec_value(),
            d.active_epoch.started_at.spec_value(),
        ) {
            (Some(l), Some(s)) => l >= s,
            _ => true,
        }),
    ensures
        d.active_epoch.spec_elapsed(block) * d.active_epoch.spec_apu() <= d.funded_amount,
{
    let ep = d.active_epoch;
    let elapsed = ep.spec_elapsed(block);
    let w = ep.spec_window();
    assert(elapsed <= w);
    if ep.spec_apu() > 0 {
        vstd::arithmetic::mul::lemma_mul_left_inequality(ep.spec_apu(), elapsed, w);
        lemma_mul_is_commutative(ep.spec_apu(), elapsed);
        lemma_mul_is_commutative(elapsed, ep.spec_apu());
    } else {
        lemma_mul_by_zero_is_zero(elapsed);
    }
}

} // verus!
