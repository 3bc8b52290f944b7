//! One distribution's state and its lifecycle operations.
//!
//! A distribution is funded, accrues per-unit-power rewards under its active
//! epoch, can be topped up or restarted, can change its emission rate by
//! freezing the active epoch into a historical total and opening a fresh one,
//! and can have its unearned future emissions clawed back early.

use vstd::prelude::*;

use crate::asset::Denom;
use crate::emission::EmissionRate;
use crate::epoch::Epoch;
use crate::error::RewardsError;
use crate::num::{lemma_div_mul_le, lemma_u256_of, scale, u256_bound, u256_of, U256};
use crate::time::{BlockInfo, Duration, DurationUnit, Expiration};

verus! {

/// The full state of one rewards distribution.
#[derive(Clone, Debug, PartialEq, Eq)]
pub struct DistributionState {
    /// The unique, sequentially assigned id.
    pub id: u64,
    /// What the distribution pays out.
    pub denom: Denom,
    /// The active emission window.
    pub active_epoch: Epoch,
    /// The voting-power oracle this distribution weighs stakes by.
    pub vp_contract: String,
    /// The one address whose stake-change notifications reconcile this
    /// distribution.
    pub hook_caller: String,
    /// How much the active epoch was funded with.
    pub funded_amount: u128,
    /// Where clawed-back funds go on withdrawal.
    pub withdraw_destination: String,
    /// The frozen sum of earned-per-unit-power from all epochs preceding the
    /// active one; appended to on every rate change, never recomputed.
    pub historical_earned_puvp: U256,
}

impl DistributionState {
    /// Internal consistency: the epoch is well formed and the active window
    /// never promises more emission than was funded.
    pub open spec fn wf(self) -> bool {
        &&& self.active_epoch.wf()
        &&& self.active_epoch.spec_apu() * self.active_epoch.spec_window()
            <= self.funded_amount as int
    }

    /// An exact copy, built field by field.
    pub fn duplicate(&self) -> (r: DistributionState)
        ensures
            r == *self,
    {
        DistributionState {
            id: self.id,
            denom: match &self.denom {
                Denom::Native(s) => Denom::Native(s.clone()),
                Denom::Cw20(s) => Denom::Cw20(s.clone()),
            },
            active_epoch: self.active_epoch,
            vp_contract: self.vp_contract.clone(),
            hook_caller: self.hook_caller.clone(),
            funded_amount: self.funded_amount,
            withdraw_destination: self.withdraw_destination.clone(),
            historical_earned_puvp: self.historical_earned_puvp,
        }
    }

    /// The denomination or token contract string.
    pub fn get_denom_string(&self) -> (r: String)
        ensures
            r@ == self.denom.spec_string(),
    {
        self.denom.get_string()
    }

    /// The total emission the active window promises: nothing while paused,
    /// everything funded for an immediate rate, and rate times window length
    /// for a linear one.
    pub open spec fn spec_total_rewards(self) -> int {
        match self.active_epoch.emission_rate {
            EmissionRate::Paused => 0,
            EmissionRate::Immediate => self.funded_amount as int,
            EmissionRate::Linear { .. } => self.active_epoch.spec_apu()
                * self.active_epoch.spec_window(),
        }
    }

    /// The total emission the active window promises. Never exceeds the
    /// funded amount.
    pub fn get_total_rewards(&self) -> (r: u128)
        requires
            self.wf(),
        ensures
            r as int == self.spec_total_rewards(),
    {
        match self.active_epoch.emission_rate {
            EmissionRate::Paused => 0,
            EmissionRate::Immediate => self.funded_amount,
            EmissionRate::Linear { amount_per_unit_time, .. } => {
                let s: u64 = match self.active_epoch.started_at {
                    Expiration::AtHeight(x) => x,
                    Expiration::AtTime(x) => x,
                    Expiration::Never => {
                        proof {
                            vstd::arithmetic::mul::lemma_mul_by_zero_is_zero(
                                self.active_epoch.spec_apu(),
                            );
                        }
                        return 0;
                    },
                };
                let e: u64 = match self.active_epoch.ends_at {
                    Expiration::AtHeight(x) => x,
                    Expiration::AtTime(x) => x,
                    Expiration::Never => {
                        proof {
                            vstd::arithmetic::mul::lemma_mul_by_zero_is_zero(
                                self.active_epoch.spec_apu(),
                            );
                        }
                        return 0;
                    },
                };
                let window: u64 = if e >= s {
                    e - s
                } else {
                    0
                };
                if window == 0 {
                    proof {
                        vstd::arithmetic::mul::lemma_mul_by_zero_is_zero(
                            self.active_epoch.spec_apu(),
                        );
                    }
                    return 0;
                }
                amount_per_unit_time * (window as u128)
            },
        }
    }

    /// How much the active window has emitted as of the block: the window's
    /// elapsed span from its start, capped at its end, times the rate.
    pub open spec fn spec_distributed_at(self, block: BlockInfo) -> int {
        match self.active_epoch.emission_rate {
            EmissionRate::Paused => 0,
            EmissionRate::Immediate => self.funded_amount as int,
            EmissionRate::Linear { duration_unit, .. } => {
                match (
                    self.active_epoch.started_at.spec_value(),
                    self.active_epoch.ends_at.spec_value(),
                ) {
                    (Some(s), Some(e)) => {
                        let now = block.spec_scalar(duration_unit) as int;
                        let upto = if now <= e { now } else { e as int };
                        let span = if upto > s { upto - s } else { 0 };
                        self.active_epoch.spec_apu() * span
                    },
                    _ => 0,
                }
            },
        }
    }

    /// What the window has emitted so far never exceeds the funded amount.
    pub proof fn lemma_distributed_bounded(self, block: BlockInfo)
        requires
            self.wf(),
        ensures
            0 <= self.spec_distributed_at(block) <= self.funded_amount,
    {
        match self.active_epoch.emission_rate {
            EmissionRate::Linear { duration_unit, .. } => {
                match (
                    self.active_epoch.started_at.spec_value(),
                    self.active_epoch.ends_at.spec_value(),
                ) {
                    (Some(s), Some(e)) => {
                        let now = block.spec_scalar(duration_unit) as int;
                        let upto = if now <= e { now } else { e as int };
                        let span = if upto > s { upto - s } else { 0 };
                        vstd::arithmetic::mul::lemma_mul_nonnegative(
                            self.active_epoch.spec_apu(),
                            span,
                        );
                        vstd::arithmetic::mul::lemma_mul_left_inequality(
                            self.active_epoch.spec_apu(),
                            span,
                            self.active_epoch.spec_window(),
                        );
                    },
                    _ => {
                        vstd::arithmetic::mul::lemma_mul_by_zero_is_zero(
                            self.active_epoch.spec_apu(),
                        );
                    },
                }
            },
            _ => {},
        }
    }

    /// Whether funding at this block restarts the window: yes when never
    /// funded (or fully withdrawn), and when a non-continuous window has
    /// already ended. A continuous window is topped up instead, backfilling
    /// the idle span.
    pub open spec fn spec_restarts_on_fund(self, block: BlockInfo) -> bool {
        self.funded_amount == 0 || (!self.active_epoch.emission_rate.spec_continuous()
            && self.active_epoch.ends_at.spec_is_expired(block))
    }

    /// What `fund` leaves behind. On a restart the funded amount is reset to
    /// the new deposit and a linear window starts at the block; otherwise the
    /// deposit is added and the start is kept. The window's end is re-derived
    /// from the new funded amount. An immediate rate credits the deposit to
    /// the accumulator instantly; a continuous top-up of a running or lapsed
    /// window first refreshes the accumulator so the backfilled span is
    /// credited. The last-updated point then advances to the block.
    pub open spec fn spec_fund(self, block: BlockInfo, amount: u128, total_power: u128) -> Result<
        DistributionState,
        RewardsError,
    > {
        let restart = self.spec_restarts_on_fund(block);
        let ep0r = if restart {
            match self.active_epoch.spec_active_puvp(block, total_power) {
                Err(e) => Err(e),
                Ok(v) => Ok(Epoch { total_earned_puvp: u256_of(v), ..self.active_epoch }),
            }
        } else {
            Ok(self.active_epoch)
        };
        match ep0r {
        Err(e0) => Err(e0),
        Ok(ep0) => if !restart && self.funded_amount + amount > u128::MAX {
            Err(RewardsError::Overflow)
        } else {
            let funded1 = if restart {
                amount
            } else {
                (self.funded_amount + amount) as u128
            };
            let started1 = if restart {
                match self.active_epoch.emission_rate {
                    EmissionRate::Linear { duration_unit, .. } => match duration_unit {
                        DurationUnit::Height => Expiration::AtHeight(block.height),
                        DurationUnit::Time => Expiration::AtTime(block.time),
                    },
                    _ => Expiration::Never,
                }
            } else {
                self.active_epoch.started_at
            };
            match self.active_epoch.emission_rate.spec_funded_period_duration(funded1) {
                Err(e) => Err(e),
                Ok(dur_opt) => {
                    let ends1 = match dur_opt {
                        None => Some(Expiration::Never),
                        Some(d) => started1.spec_checked_add_duration(d),
                    };
                    match ends1 {
                        None => Err(RewardsError::Overflow),
                        Some(ends) => {
                            let ep1 = Epoch {
                                started_at: started1,
                                ends_at: ends,
                                ..ep0
                            };
                            let ep2 = if ep1.emission_rate is Immediate {
                                ep1.spec_immediate_emission(amount, total_power)
                            } else if !restart && ep1.emission_rate.spec_continuous() {
                                match ep1.spec_active_puvp(block, total_power) {
                                    Err(e) => Err(e),
                                    Ok(v) => Ok(
                                        Epoch { total_earned_puvp: u256_of(v), ..ep1 },
                                    ),
                                }
                            } else {
                                Ok(ep1)
                            };
                            match ep2 {
                                Err(e) => Err(e),
                                Ok(ep) => Ok(
                                    DistributionState {
                                        funded_amount: funded1,
                                        active_epoch: ep.spec_bump(block),
                                        ..self
                                    },
                                ),
                            }
                        },
                    }
                },
            }
        },
        }
    }

    /// Re-deriving the window's end from a funded amount at least as large
    /// never pulls it below the old end, so the last-updated point stays
    /// within the window.
    proof fn lemma_extended_window_covers(self, funded1: u128)
        requires
            self.wf(),
            self.active_epoch.emission_rate matches EmissionRate::Linear { .. },
            self.funded_amount <= funded1,
        ensures
            (match (
                self.active_epoch.last_updated_total_earned_puvp.spec_value(),
                self.active_epoch.started_at.spec_value(),
            ) {
                (Some(l), Some(s)) => l <= s + (funded1 as int) / self.active_epoch.spec_apu(),
                _ => true,
            }),
    {
        let ep = self.active_epoch;
        let apu = ep.spec_apu();
        match (
            ep.last_updated_total_earned_puvp.spec_value(),
            ep.ends_at.spec_value(),
            ep.started_at.spec_value(),
        ) {
            (Some(l), Some(oe), Some(s)) => {
                if oe >= s {
                    assert(apu * (oe - s) <= self.funded_amount as int);
                    vstd::arithmetic::div_mod::lemma_div_is_ordered(
                        apu * (oe - s),
                        funded1 as int,
                        apu,
                    );
                    vstd::arithmetic::div_mod::lemma_div_multiples_vanish(oe - s, apu);
                } else {
                    vstd::arithmetic::div_mod::lemma_div_pos_is_pos(funded1 as int, apu);
                }
            },
            _ => {},
        }
    }

    /// Funds the distribution with a deposit at the current block, restarting
    /// or topping up the window as the rate's restart policy says. On an
    /// error the state is unchanged; before a restart the lapsed window's
    /// accrual is brought current, so rewards already earned survive the
    /// restart. A zero deposit on an unfunded or expired distribution
    /// restarts it as immediately expired.
    #[verifier::rlimit(100)]
    pub fn fund(&mut self, block: &BlockInfo, amount: u128, total_power: u128) -> (r: Result<
        (),
        RewardsError,
    >)
        requires
            old(self).wf(),
        ensures
            r matches Ok(_) ==> old(self).spec_fund(*block, amount, total_power) == Ok::<
                DistributionState,
                RewardsError,
            >(*final(self)),
            r matches Err(e) ==> old(self).spec_fund(*block, amount, total_power) == Err::<
                DistributionState,
                RewardsError,
            >(e) && *final(self) == *old(self),
            r is Ok ==> final(self).wf(),
            final(self).id == old(self).id,
    {
        let mut ep = self.active_epoch;
        let restart = self.funded_amount == 0 || (!ep.emission_rate.is_continuous()
            && ep.ends_at.is_expired(block));
        let funded1: u128;
        if restart {
            match ep.get_active_total_earned_puvp(block, total_power) {
                Ok(v) => {
                    proof {
                        lemma_u256_of(v@ as int);
                        let w = u256_of(v@ as int);
                        assert(w.hi * crate::num::limb_base() + w.lo == v.hi
                            * crate::num::limb_base() + v.lo);
                        assert(w == v);
                    }
                    ep.total_earned_puvp = v;
                },
                Err(e) => {
                    return Err(e);
                },
            }
            funded1 = amount;
            ep.started_at = match ep.emission_rate {
                EmissionRate::Linear { duration_unit: DurationUnit::Height, .. } => {
                    Expiration::AtHeight(block.height)
                },
                EmissionRate::Linear { duration_unit: DurationUnit::Time, .. } => {
                    Expiration::AtTime(block.time)
                },
                _ => Expiration::Never,
            };
        } else {
            funded1 = match self.funded_amount.checked_add(amount) {
                Some(f) => f,
                None => {
                    return Err(RewardsError::Overflow);
                },
            };
        }
        let dur_opt = match ep.emission_rate.get_funded_period_duration(funded1) {
            Ok(d) => d,
            Err(e) => {
                return Err(e);
            },
        };
        ep.ends_at = match dur_opt {
            None => Expiration::Never,
            Some(d) => match ep.started_at.checked_add_duration(&d) {
                Some(x) => x,
                None => {
                    return Err(RewardsError::Overflow);
                },
            },
        };
        if ep.emission_rate == EmissionRate::Immediate {
            match ep.update_immediate_emission_total_earned_puvp(amount, total_power) {
                Ok(_) => (),
                Err(e) => {
                    return Err(e);
                },
            }
        } else if !restart && ep.emission_rate.is_continuous() {
            proof {
                old(self).lemma_extended_window_covers(funded1);
            }
            match ep.get_active_total_earned_puvp(block, total_power) {
                Ok(v) => {
                    proof {
                        lemma_u256_of(v@ as int);
                        let w = u256_of(v@ as int);
                        assert(w.hi * crate::num::limb_base() + w.lo == v.hi
                            * crate::num::limb_base() + v.lo);
                        assert(w == v);
                    }
                    ep.total_earned_puvp = v;
                },
                Err(e) => {
                    return Err(e);
                },
            }
        }
        ep.bump_last_updated(block);
        proof {
            match ep.emission_rate {
                EmissionRate::Linear { amount_per_unit_time, .. } => {
                    lemma_div_mul_le(funded1 as int, amount_per_unit_time as int);
                },
                _ => {
                    vstd::arithmetic::mul::lemma_mul_by_zero_is_zero(ep.spec_window());
                },
            }
        }
        self.active_epoch = ep;
        self.funded_amount = funded1;
        Ok(())
    }

    /// What `withdraw` leaves behind, with the clawed-back amount: rejected
    /// once the window has ended; otherwise the window's end is truncated to
    /// the block, the funded amount is reset to what the truncated window
    /// promises, and the surplus flows back. Already-accrued rewards are
    /// untouched.
    pub open spec fn spec_withdraw(self, block: BlockInfo) -> Result<
        (DistributionState, u128),
        RewardsError,
    > {
        if self.active_epoch.ends_at.spec_is_expired(block) {
            Err(RewardsError::RewardsAlreadyDistributed)
        } else {
            let ends1 = match self.active_epoch.started_at {
                Expiration::Never => Expiration::Never,
                Expiration::AtHeight(_) => Expiration::AtHeight(block.height),
                Expiration::AtTime(_) => Expiration::AtTime(block.time),
            };
            let lu1 = match (self.active_epoch.last_updated_total_earned_puvp, ends1) {
                (Expiration::AtHeight(l), Expiration::AtHeight(e2)) => Expiration::AtHeight(
                    if l <= e2 {
                        l
                    } else {
                        e2
                    },
                ),
                (Expiration::AtTime(l), Expiration::AtTime(e2)) => Expiration::AtTime(
                    if l <= e2 {
                        l
                    } else {
                        e2
                    },
                ),
                (x, _) => x,
            };
            let d1 = DistributionState {
                active_epoch: Epoch {
                    ends_at: ends1,
                    last_updated_total_earned_puvp: lu1,
                    ..self.active_epoch
                },
                ..self
            };
            let distributed = d1.spec_total_rewards();
            Ok(
                (
                    DistributionState { funded_amount: distributed as u128, ..d1 },
                    (self.funded_amount - distributed) as u128,
                ),
            )
        }
    }

    /// Ends the window early at the current block and claws back the unearned
    /// remainder: the exact inverse of funding. Returns how much flows back
    /// to the withdraw destination. Rejected once the window has ended.
    pub fn withdraw(&mut self, block: &BlockInfo) -> (r: Result<u128, RewardsError>)
        requires
            old(self).wf(),
        ensures
            r matches Ok(c) ==> old(self).spec_withdraw(*block) == Ok::<
                (DistributionState, u128),
                RewardsError,
            >((*final(self), c)),
            r matches Err(e) ==> old(self).spec_withdraw(*block) == Err::<
                (DistributionState, u128),
                RewardsError,
            >(e) && *final(self) == *old(self),
            r is Ok ==> final(self).wf(),
            final(self).id == old(self).id,
    {
        if self.active_epoch.ends_at.is_expired(block) {
            return Err(RewardsError::RewardsAlreadyDistributed);
        }
        let ends1 = match self.active_epoch.started_at {
            Expiration::Never => Expiration::Never,
            Expiration::AtHeight(_) => Expiration::AtHeight(block.height),
            Expiration::AtTime(_) => Expiration::AtTime(block.time),
        };
        // the last-updated point never passes the window's end
        self.active_epoch.last_updated_total_earned_puvp = match (
            self.active_epoch.last_updated_total_earned_puvp,
            ends1,
        ) {
            (Expiration::AtHeight(l), Expiration::AtHeight(e2)) => Expiration::AtHeight(
                if l <= e2 {
                    l
                } else {
                    e2
                },
            ),
            (Expiration::AtTime(l), Expiration::AtTime(e2)) => Expiration::AtTime(
                if l <= e2 {
                    l
                } else {
                    e2
                },
            ),
            (x, _) => x,
        };
        self.active_epoch.ends_at = ends1;
        proof {
            assert(self.active_epoch.spec_window() <= old(self).active_epoch.spec_window());
            if self.active_epoch.spec_apu() > 0 {
                vstd::arithmetic::mul::lemma_mul_left_inequality(
                    self.active_epoch.spec_apu(),
                    self.active_epoch.spec_window(),
                    old(self).active_epoch.spec_window(),
                );
            } else {
                vstd::arithmetic::mul::lemma_mul_by_zero_is_zero(
                    self.active_epoch.spec_window(),
                );
                vstd::arithmetic::mul::lemma_mul_by_zero_is_zero(
                    old(self).active_epoch.spec_window(),
                );
            }
        }
        let distributed = self.get_total_rewards();
        proof {
            match self.active_epoch.emission_rate {
                EmissionRate::Linear { .. } => {},
                _ => {
                    vstd::arithmetic::mul::lemma_mul_by_zero_is_zero(
                        self.active_epoch.spec_window(),
                    );
                },
            }
        }
        let clawback = self.funded_amount - distributed;
        self.funded_amount = distributed;
        Ok(clawback)
    }

    /// What `transition_epoch` leaves behind: with an unchanged rate,
    /// nothing. Otherwise the active epoch's accrual is brought current and
    /// frozen into the historical total, the undistributed remainder of the
    /// funded amount carries into a fresh epoch under the new rate with
    /// accumulators reset to zero, and a new linear window opens at the
    /// block. A new immediate rate releases the carried remainder instantly.
    pub open spec fn spec_transition(
        self,
        block: BlockInfo,
        new_emission_rate: EmissionRate,
        total_power: u128,
    ) -> Result<DistributionState, RewardsError> {
        if self.active_epoch.emission_rate == new_emission_rate {
            Ok(self)
        } else {
            match self.active_epoch.spec_active_puvp(block, total_power) {
                Err(e) => Err(e),
                Ok(fin) => {
                    let hist = self.historical_earned_puvp@ + fin;
                    if hist >= u256_bound() {
                        Err(RewardsError::Overflow)
                    } else {
                        let funded1 = (self.funded_amount - self.spec_distributed_at(
                            block,
                        )) as u128;
                        let started1 = match new_emission_rate {
                            EmissionRate::Linear { duration_unit, .. } => match duration_unit {
                                DurationUnit::Height => Expiration::AtHeight(block.height),
                                DurationUnit::Time => Expiration::AtTime(block.time),
                            },
                            _ => Expiration::Never,
                        };
                        match new_emission_rate.spec_funded_period_duration(funded1) {
                            Err(e) => Err(e),
                            Ok(dur_opt) => {
                                let ends1 = match dur_opt {
                                    None => Some(Expiration::Never),
                                    Some(d) => started1.spec_checked_add_duration(d),
                                };
                                match ends1 {
                                    None => Err(RewardsError::Overflow),
                                    Some(ends) => {
                                        let ep1 = Epoch {
                                            started_at: started1,
                                            ends_at: ends,
                                            emission_rate: new_emission_rate,
                                            total_earned_puvp: U256 { hi: 0, lo: 0 },
                                            last_updated_total_earned_puvp: Expiration::Never,
                                        };
                                        let ep2 = if new_emission_rate is Immediate {
                                            ep1.spec_immediate_emission(funded1, total_power)
                                        } else {
                                            Ok(ep1)
                                        };
                                        match ep2 {
                                            Err(e) => Err(e),
                                            Ok(ep) => Ok(
                                                DistributionState {
                                                    historical_earned_puvp: u256_of(hist),
                                                    funded_amount: funded1,
                                                    active_epoch: ep.spec_bump(block),
                                                    ..self
                                                },
                                            ),
                                        }
                                    },
                                }
                            },
                        }
                    }
                },
            }
        }
    }

    /// Changes the emission rate by an epoch transition: the active epoch's
    /// accrual is brought current and frozen into the historical total, and a
    /// fresh epoch opens under the new rate, carrying the undistributed
    /// remainder of the funded amount. On an error the state is unchanged.
    pub fn transition_epoch(
        &mut self,
        block: &BlockInfo,
        new_emission_rate: EmissionRate,
        total_power: u128,
    ) -> (r: Result<(), RewardsError>)
        requires
            old(self).wf(),
            new_emission_rate.spec_valid(),
        ensures
            r matches Ok(_) ==> old(self).spec_transition(*block, new_emission_rate, total_power)
                == Ok::<DistributionState, RewardsError>(*final(self)),
            r matches Err(e) ==> old(self).spec_transition(*block, new_emission_rate, total_power)
                == Err::<DistributionState, RewardsError>(e) && *final(self) == *old(self),
            r is Ok ==> final(self).wf(),
            final(self).id == old(self).id,
    {
        if self.active_epoch.emission_rate == new_emission_rate {
            return Ok(());
        }
        let fin = match self.active_epoch.get_active_total_earned_puvp(block, total_power) {
            Ok(v) => v,
            Err(e) => {
                return Err(e);
            },
        };
        let hist = match self.historical_earned_puvp.checked_add(&fin) {
            Some(h) => h,
            None => {
                return Err(RewardsError::Overflow);
            },
        };
        let distributed = self.get_distributed_rewards(block);
        let funded1 = self.funded_amount - distributed;
        let mut ep = Epoch::new(new_emission_rate);
        ep.started_at = match new_emission_rate {
            EmissionRate::Linear { duration_unit: DurationUnit::Height, .. } => {
                Expiration::AtHeight(block.height)
            },
            EmissionRate::Linear { duration_unit: DurationUnit::Time, .. } => {
                Expiration::AtTime(block.time)
            },
            _ => Expiration::Never,
        };
        let dur_opt = match ep.emission_rate.get_funded_period_duration(funded1) {
            Ok(d) => d,
            Err(e) => {
                return Err(e);
            },
        };
        ep.ends_at = match dur_opt {
            None => Expiration::Never,
            Some(d) => match ep.started_at.checked_add_duration(&d) {
                Some(x) => x,
                None => {
                    return Err(RewardsError::Overflow);
                },
            },
        };
        if new_emission_rate == EmissionRate::Immediate {
            match ep.update_immediate_emission_total_earned_puvp(funded1, total_power) {
                Ok(_) => (),
                Err(e) => {
                    return Err(e);
                },
            }
        }
        ep.bump_last_updated(block);
        proof {
            lemma_u256_of(hist@ as int);
            let w = u256_of(hist@ as int);
            assert(w.hi * crate::num::limb_base() + w.lo == hist.hi * crate::num::limb_base()
                + hist.lo);
            assert(w == hist);
            match ep.emission_rate {
                EmissionRate::Linear { amount_per_unit_time, .. } => {
                    lemma_div_mul_le(funded1 as int, amount_per_unit_time as int);
                },
                _ => {
                    vstd::arithmetic::mul::lemma_mul_by_zero_is_zero(ep.spec_window());
                },
            }
        }
        self.historical_earned_puvp = hist;
        self.funded_amount = funded1;
        self.active_epoch = ep;
        Ok(())
    }

    /// Funding never lowers what any participant has already earned: the
    /// historical total is untouched and the active accumulator never
    /// decreases.
    pub proof fn lemma_fund_monotone(
        self,
        block: BlockInfo,
        amount: u128,
        total_power: u128,
        d: DistributionState,
    )
        requires
            self.spec_fund(block, amount, total_power) == Ok::<DistributionState, RewardsError>(d),
        ensures
            d.historical_earned_puvp == self.historical_earned_puvp,
            d.active_epoch.total_earned_puvp@ >= self.active_epoch.total_earned_puvp@,
    {
        let restart = self.spec_restarts_on_fund(block);
        if restart {
            match self.active_epoch.spec_active_puvp(block, total_power) {
                Err(_) => {},
                Ok(v0) => {
                    self.active_epoch.lemma_projection_monotone(block, total_power);
                    lemma_u256_of(v0);
                    let ep0 = Epoch { total_earned_puvp: u256_of(v0), ..self.active_epoch };
                    if ep0.emission_rate is Immediate && total_power != 0 {
                        let raw = amount * scale();
                        let v = ep0.total_earned_puvp@ + raw / (total_power as int);
                        vstd::arithmetic::mul::lemma_mul_nonnegative(amount as int, scale());
                        vstd::arithmetic::div_mod::lemma_div_pos_is_pos(raw, total_power as int);
                        if v < u256_bound() {
                            lemma_u256_of(v);
                        }
                    }
                },
            }
        } else if self.active_epoch.emission_rate is Immediate {
            if total_power != 0 {
                let raw = amount * scale();
                let v = self.active_epoch.total_earned_puvp@ + raw / (total_power as int);
                vstd::arithmetic::mul::lemma_mul_nonnegative(amount as int, scale());
                vstd::arithmetic::div_mod::lemma_div_pos_is_pos(raw, total_power as int);
                lemma_u256_of(v);
            }
        } else if !restart && self.active_epoch.emission_rate.spec_continuous() {
            let funded1 = (self.funded_amount + amount) as u128;
            match self.active_epoch.emission_rate.spec_funded_period_duration(funded1) {
                Err(_) => {},
                Ok(dur_opt) => {
                    let started1 = self.active_epoch.started_at;
                    let ends1 = match dur_opt {
                        None => Some(Expiration::Never),
                        Some(dd) => started1.spec_checked_add_duration(dd),
                    };
                    match ends1 {
                        None => {},
                        Some(ends) => {
                            let ep1 = Epoch { started_at: started1, ends_at: ends, ..self.active_epoch };
                            match ep1.spec_active_puvp(block, total_power) {
                                Err(_) => {},
                                Ok(v) => {
                                    ep1.lemma_projection_monotone(block, total_power);
                                    lemma_u256_of(v);
                                },
                            }
                        },
                    }
                },
            }
        }
    }

    /// A rate change never lowers the sum of historical and active
    /// accumulators: what participants have already earned stays earned.
    pub proof fn lemma_transition_monotone(
        self,
        block: BlockInfo,
        new_emission_rate: EmissionRate,
        total_power: u128,
        d: DistributionState,
    )
        requires
            self.spec_transition(block, new_emission_rate, total_power) == Ok::<
                DistributionState,
                RewardsError,
            >(d),
        ensures
            d.historical_earned_puvp@ + d.active_epoch.total_earned_puvp@
                >= self.historical_earned_puvp@ + self.active_epoch.total_earned_puvp@,
    {
        if self.active_epoch.emission_rate == new_emission_rate {
        } else {
            match self.active_epoch.spec_active_puvp(block, total_power) {
                Err(_) => {},
                Ok(fin) => {
                    self.active_epoch.lemma_projection_monotone(block, total_power);
                    let hist = self.historical_earned_puvp@ + fin;
                    if hist < u256_bound() {
                        lemma_u256_of(hist);
                        let funded1 = (self.funded_amount - self.spec_distributed_at(
                            block,
                        )) as u128;
                        if new_emission_rate is Immediate {
                            if total_power != 0 {
                                let raw = funded1 * scale();
                                if raw < u256_bound() {
                                    vstd::arithmetic::mul::lemma_mul_nonnegative(
                                        funded1 as int,
                                        scale(),
                                    );
                                    vstd::arithmetic::div_mod::lemma_div_pos_is_pos(
                                        raw,
                                        total_power as int,
                                    );
                                    if raw / (total_power as int) < u256_bound() {
                                        lemma_u256_of(raw / (total_power as int));
                                    }
                                }
                            }
                        }
                    }
                },
            }
        }
    }

    /// How much the active window has emitted as of the block.
    pub fn get_distributed_rewards(&self, block: &BlockInfo) -> (r: u128)
        requires
            self.wf(),
        ensures
            r as int == self.spec_distributed_at(*block),
            r <= self.funded_amount,
    {
        proof {
            self.lemma_distributed_bounded(*block);
        }
        match self.active_epoch.emission_rate {
            EmissionRate::Paused => 0,
            EmissionRate::Immediate => self.funded_amount,
            EmissionRate::Linear { amount_per_unit_time, duration_unit, .. } => {
                let s: u64 = match self.active_epoch.started_at {
                    Expiration::AtHeight(x) => x,
                    Expiration::AtTime(x) => x,
                    Expiration::Never => {
                        return 0;
                    },
                };
                let e: u64 = match self.active_epoch.ends_at {
                    Expiration::AtHeight(x) => x,
                    Expiration::AtTime(x) => x,
                    Expiration::Never => {
                        return 0;
                    },
                };
                let now = block.scalar(duration_unit);
                let upto = if now <= e {
                    now
                } else {
                    e
                };
                let span: u64 = if upto > s {
                    upto - s
                } else {
                    0
                };
                if span == 0 {
                    proof {
                        vstd::arithmetic::mul::lemma_mul_by_zero_is_zero(
                            self.active_epoch.spec_apu(),
                        );
                    }
                    return 0;
                }
                amount_per_unit_time * (span as u128)
            },
        }
    }
}

} // verus!
