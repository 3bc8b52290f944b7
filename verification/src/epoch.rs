//! The epoch tracker: one contiguous emission window under one rate.
//!
//! An epoch stores the active window's bounds, the emission rate that rules
//! it, and a cumulative rewards-earned-per-unit-voting-power accumulator,
//! valid as of the stored last-updated point. Bringing the accumulator up to
//! date is a pure projection: callers decide whether and when the projected
//! value is persisted.

use vstd::prelude::*;

use vstd::arithmetic::mul::lemma_mul_upper_bound;

use crate::emission::EmissionRate;
use crate::error::RewardsError;
use crate::num::{scale, spec_spread, u256_bound, U256};
use crate::time::{BlockInfo, DurationUnit, Expiration};

verus! {

/// One contiguous emission window under a single, unchanging rate.
#[derive(Clone, Copy, Debug, PartialEq, Eq, Structural)]
pub struct Epoch {
    /// When the window opened; `Never` while unfunded or for a rate with no
    /// finite window.
    pub started_at: Expiration,
    /// When the window closes; `Never` for a rate with no finite window.
    pub ends_at: Expiration,
    /// The rate that rules this epoch.
    pub emission_rate: EmissionRate,
    /// Cumulative rewards earned per unit of voting power since the epoch
    /// began, scaled by the fixed-point factor, as of the last-updated point.
    pub total_earned_puvp: U256,
    /// Up to which clock reading the accumulator accounts for emission.
    pub last_updated_total_earned_puvp: Expiration,
}

/// Whether an expiration is either `Never` or read on the given clock.
pub open spec fn on_unit(e: Expiration, unit: DurationUnit) -> bool {
    e is Never || e.spec_unit() == Some(unit)
}

impl Epoch {
    /// Internal consistency: the rate is valid; window bounds exist only for
    /// a linear rate, agree on the rate's clock, and the last-updated point
    /// never passes the window's end.
    pub open spec fn wf(self) -> bool {
        &&& self.emission_rate.spec_valid()
        &&& match self.emission_rate {
            EmissionRate::Linear { duration_unit, .. } => {
                &&& (self.started_at is Never <==> self.ends_at is Never)
                &&& (self.ends_at is Never <==> self.last_updated_total_earned_puvp is Never)
                &&& on_unit(self.started_at, duration_unit)
                &&& on_unit(self.ends_at, duration_unit)
                &&& on_unit(self.last_updated_total_earned_puvp, duration_unit)
                &&& match (
                    self.last_updated_total_earned_puvp.spec_value(),
                    self.ends_at.spec_value(),
                ) {
                    (Some(l), Some(e)) => l <= e,
                    _ => true,
                }
            },
            _ => {
                &&& self.started_at is Never
                &&& self.ends_at is Never
                &&& self.last_updated_total_earned_puvp is Never
            },
        }
    }

    /// A fresh epoch under the given rate: no window yet, accumulator zero.
    pub fn new(emission_rate: EmissionRate) -> (r: Epoch)
        ensures
            r == (Epoch {
                started_at: Expiration::Never,
                ends_at: Expiration::Never,
                emission_rate,
                total_earned_puvp: U256 { hi: 0, lo: 0 },
                last_updated_total_earned_puvp: Expiration::Never,
            }),
            emission_rate.spec_valid() ==> r.wf(),
    {
        Epoch {
            started_at: Expiration::Never,
            ends_at: Expiration::Never,
            emission_rate,
            total_earned_puvp: U256::zero(),
            last_updated_total_earned_puvp: Expiration::Never,
        }
    }

    /// The amount the rate releases per unit of time; zero when not linear.
    pub open spec fn spec_apu(self) -> int {
        match self.emission_rate {
            EmissionRate::Linear { amount_per_unit_time, .. } => amount_per_unit_time as int,
            _ => 0,
        }
    }

    /// The window's length on its own clock; zero without a concrete window.
    pub open spec fn spec_window(self) -> int {
        match (self.started_at.spec_value(), self.ends_at.spec_value()) {
            (Some(s), Some(e)) => if e >= s {
                e - s
            } else {
                0
            },
            _ => 0,
        }
    }

    /// How much of the window has passed since the last update, as of the
    /// block, capped at the window's end: zero while the window has not
    /// started or is fully accounted for.
    pub open spec fn spec_elapsed(self, block: BlockInfo) -> int {
        match self.emission_rate {
            EmissionRate::Linear { duration_unit, .. } => {
                match (
                    self.last_updated_total_earned_puvp.spec_value(),
                    self.ends_at.spec_value(),
                ) {
                    (Some(l), Some(e)) => {
                        let now = block.spec_scalar(duration_unit) as int;
                        let upto = if now <= e { now } else { e as int };
                        if upto > l {
                            upto - l
                        } else {
                            0
                        }
                    },
                    _ => 0,
                }
            },
            _ => 0,
        }
    }

    /// What the up-to-date cumulative earned-per-unit-power is as of the
    /// block: the stored accumulator plus the elapsed emission spread over
    /// the given total voting power. With zero total power nothing is
    /// allocated and the stored value stands. An `Err` is an overflow of the
    /// 256-bit accumulator.
    pub open spec fn spec_active_puvp(self, block: BlockInfo, total_power: u128) -> Result<
        int,
        RewardsError,
    > {
        if total_power == 0 {
            Ok(self.total_earned_puvp@ as int)
        } else {
            let raw = self.spec_elapsed(block) * self.spec_apu() * scale();
            if raw >= u256_bound() {
                Err(RewardsError::Overflow)
            } else {
                let v = self.total_earned_puvp@ + spec_spread(
                    self.spec_elapsed(block) * self.spec_apu(),
                    total_power as int,
                );
                if v >= u256_bound() {
                    Err(RewardsError::Overflow)
                } else {
                    Ok(v)
                }
            }
        }
    }

    /// With nothing elapsed, a projection returns the stored accumulator.
    pub proof fn lemma_no_accrual(self, block: BlockInfo, total_power: u128)
        requires
            self.spec_elapsed(block) == 0,
        ensures
            self.spec_active_puvp(block, total_power) == Ok::<int, RewardsError>(
                self.total_earned_puvp@ as int,
            ),
    {
        vstd::arithmetic::mul::lemma_mul_by_zero_is_zero(self.spec_apu());
        vstd::arithmetic::mul::lemma_mul_by_zero_is_zero(scale());
        if total_power != 0 {
            vstd::arithmetic::div_mod::lemma_div_of0(total_power as int);
        }
    }

    /// Projects the cumulative earned-per-unit-power up to the block without
    /// mutating anything. Paused and immediate epochs never accrue lazily;
    /// a linear epoch accrues elapsed time times rate, scaled up by the
    /// fixed-point factor and divided by total voting power last, so that the
    /// one floor division loses less than one scaled unit.
    pub fn get_active_total_earned_puvp(&self, block: &BlockInfo, total_power: u128) -> (r: Result<
        U256,
        RewardsError,
    >)
        requires
            self.wf(),
        ensures
            r matches Ok(v) ==> self.spec_active_puvp(*block, total_power) == Ok::<
                int,
                RewardsError,
            >(v@ as int),
            r matches Err(e) ==> self.spec_active_puvp(*block, total_power) == Err::<
                int,
                RewardsError,
            >(e),
    {
        match self.emission_rate {
            EmissionRate::Paused => {
                proof {
                    self.lemma_no_accrual(*block, total_power);
                }
                Ok(self.total_earned_puvp)
            },
            EmissionRate::Immediate => {
                proof {
                    self.lemma_no_accrual(*block, total_power);
                }
                Ok(self.total_earned_puvp)
            },
            EmissionRate::Linear { amount_per_unit_time, duration_unit, .. } => {
                if total_power == 0 {
                    return Ok(self.total_earned_puvp);
                }
                let l: u64 = match self.last_updated_total_earned_puvp {
                    Expiration::AtHeight(x) => x,
                    Expiration::AtTime(x) => x,
                    Expiration::Never => {
                        proof {
                            self.lemma_no_accrual(*block, total_power);
                        }
                        return Ok(self.total_earned_puvp);
                    },
                };
                let e: u64 = match self.ends_at {
                    Expiration::AtHeight(x) => x,
                    Expiration::AtTime(x) => x,
                    Expiration::Never => {
                        proof {
                            self.lemma_no_accrual(*block, total_power);
                        }
                        return Ok(self.total_earned_puvp);
                    },
                };
                let now = block.scalar(duration_unit);
                let upto = if now <= e {
                    now
                } else {
                    e
                };
                if upto <= l {
                    proof {
                        self.lemma_no_accrual(*block, total_power);
                    }
                    return Ok(self.total_earned_puvp);
                }
                let elapsed = upto - l;
                proof {
                    lemma_mul_upper_bound(
                        elapsed as int,
                        u64::MAX as int,
                        amount_per_unit_time as int,
                        u128::MAX as int,
                    );
                }
                let emitted = U256::from_u128(elapsed as u128).checked_mul(
                    &U256::from_u128(amount_per_unit_time),
                ).unwrap();
                match emitted.checked_mul(&U256::scale_factor()) {
                    None => Err(RewardsError::Overflow),
                    Some(scaled) => {
                        let delta = scaled.checked_div(&U256::from_u128(total_power)).unwrap();
                        match self.total_earned_puvp.checked_add(&delta) {
                            None => Err(RewardsError::Overflow),
                            Some(v) => Ok(v),
                        }
                    },
                }
            },
        }
    }

    /// This epoch with its last-updated point advanced to the block, capped
    /// at the window's end; without a finite window there is nothing to
    /// advance past.
    pub open spec fn spec_bump(self, block: BlockInfo) -> Epoch {
        Epoch {
            last_updated_total_earned_puvp: match self.ends_at {
                Expiration::Never => Expiration::Never,
                Expiration::AtHeight(e) => Expiration::AtHeight(
                    if block.height <= e {
                        block.height
                    } else {
                        e
                    },
                ),
                Expiration::AtTime(e) => Expiration::AtTime(
                    if block.time <= e {
                        block.time
                    } else {
                        e
                    },
                ),
            },
            ..self
        }
    }

    /// Advances the last-updated point to the block, capped at the window's
    /// end, so that already-projected emission is not credited twice.
    pub fn bump_last_updated(&mut self, block: &BlockInfo)
        ensures
            *final(self) == old(self).spec_bump(*block),
            old(self).wf() ==> final(self).wf(),
    {
        self.last_updated_total_earned_puvp = match self.ends_at {
            Expiration::Never => Expiration::Never,
            Expiration::AtHeight(e) => Expiration::AtHeight(
                if block.height <= e {
                    block.height
                } else {
                    e
                },
            ),
            Expiration::AtTime(e) => Expiration::AtTime(
                if block.time <= e {
                    block.time
                } else {
                    e
                },
            ),
        };
    }

    /// What `update_immediate_emission_total_earned_puvp` leaves behind: the
    /// newly funded amount, scaled and spread over the given total voting
    /// power, added to the accumulator. With zero total power nothing is
    /// allocated and the epoch is unchanged. An `Err` is an overflow of the
    /// 256-bit accumulator.
    pub open spec fn spec_immediate_emission(self, amount: u128, total_power: u128) -> Result<
        Epoch,
        RewardsError,
    > {
        if total_power == 0 {
            Ok(self)
        } else {
            let raw = amount * scale();
            if raw >= u256_bound() {
                Err(RewardsError::Overflow)
            } else {
                let v = self.total_earned_puvp@ + spec_spread(
                    amount as int,
                    total_power as int,
                );
                if v >= u256_bound() {
                    Err(RewardsError::Overflow)
                } else {
                    Ok(Epoch { total_earned_puvp: crate::num::u256_of(v), ..self })
                }
            }
        }
    }

    /// Credits a newly funded amount to the accumulator instantly, pro rata
    /// to the given total voting power: an immediate epoch pays out at fund
    /// time, never lazily. On an error the epoch is unchanged.
    pub fn update_immediate_emission_total_earned_puvp(&mut self, amount: u128, total_power: u128)
        -> (r: Result<(), RewardsError>)
        ensures
            r matches Ok(_) ==> old(self).spec_immediate_emission(amount, total_power) == Ok::<
                Epoch,
                RewardsError,
            >(*final(self)),
            r matches Err(e) ==> old(self).spec_immediate_emission(amount, total_power) == Err::<
                Epoch,
                RewardsError,
            >(e) && *final(self) == *old(self),
            old(self).wf() ==> final(self).wf(),
    {
        if total_power == 0 {
            return Ok(());
        }
        let scaled = match U256::from_u128(amount).checked_mul(&U256::scale_factor()) {
            Some(s) => s,
            None => {
                return Err(RewardsError::Overflow);
            },
        };
        let delta = scaled.checked_div(&U256::from_u128(total_power)).unwrap();
        proof {
            vstd::arithmetic::div_mod::lemma_div_pos_is_pos(
                amount * scale(),
                total_power as int,
            );
        }
        match self.total_earned_puvp.checked_add(&delta) {
            Some(v) => {
                proof {
                    crate::num::lemma_u256_of(v@ as int);
                    let w = crate::num::u256_of(v@ as int);
                    assert(w.hi * crate::num::limb_base() + w.lo == v.hi * crate::num::limb_base()
                        + v.lo);
                    assert(w == v);
                }
                self.total_earned_puvp = v;
                Ok(())
            },
            None => Err(RewardsError::Overflow),
        }
    }

    /// A successful projection never falls below the stored accumulator:
    /// the accumulator is monotone within an epoch.
    pub proof fn lemma_projection_monotone(self, block: BlockInfo, total_power: u128)
        requires
            self.spec_active_puvp(block, total_power) is Ok,
        ensures
            self.spec_active_puvp(block, total_power)->Ok_0 >= self.total_earned_puvp@,
            self.spec_active_puvp(block, total_power)->Ok_0 < u256_bound(),
    {
        if total_power != 0 {
            let raw = self.spec_elapsed(block) * self.spec_apu() * scale();
            vstd::arithmetic::mul::lemma_mul_nonnegative(
                self.spec_elapsed(block),
                self.spec_apu(),
            );
            vstd::arithmetic::mul::lemma_mul_nonnegative(
                self.spec_elapsed(block) * self.spec_apu(),
                scale(),
            );
            vstd::arithmetic::div_mod::lemma_div_pos_is_pos(raw, total_power as int);
        }
    }

    /// Once a projection is persisted (accumulator set to the projected
    /// value, last-updated advanced to the block), projecting again at the
    /// same block adds nothing, whatever total power the second projection
    /// sees: reconciliation is idempotent.
    pub proof fn lemma_projection_settles(
        self,
        block: BlockInfo,
        total_power: u128,
        stored: U256,
        tp2: u128,
    )
        requires
            self.wf(),
            self.spec_active_puvp(block, total_power) is Ok,
            stored@ == self.spec_active_puvp(block, total_power)->Ok_0,
        ensures
            ({
                let settled = Epoch { total_earned_puvp: stored, ..self }.spec_bump(block);
                settled.spec_active_puvp(block, tp2) == Ok::<int, RewardsError>(stored@ as int)
            }),
    {
        let settled = Epoch { total_earned_puvp: stored, ..self }.spec_bump(block);
        assert(settled.spec_elapsed(block) == 0);
        assert(settled.spec_elapsed(block) * settled.spec_apu() == 0) by {
            vstd::arithmetic::mul::lemma_mul_by_zero_is_zero(settled.spec_apu());
        }
        assert(settled.spec_elapsed(block) * settled.spec_apu() * scale() == 0) by {
            vstd::arithmetic::mul::lemma_mul_by_zero_is_zero(scale());
        }
        if tp2 != 0 {
            vstd::arithmetic::div_mod::lemma_div_of0(tp2 as int);
        }
    }
}

} // verus!
