//! The emission rate policy: how fast funded rewards release.
//!
//! A rate is pure configuration. It either pauses emission, releases every
//! funded amount instantly, or releases a constant amount per unit of time
//! over a window whose length is derived from the funded amount.

use vstd::prelude::*;

use crate::error::RewardsError;
use crate::time::{Duration, DurationUnit};

verus! {

/// How fast rewards release.
#[derive(Clone, Copy, Debug, PartialEq, Eq, Structural)]
pub enum EmissionRate {
    /// No emission at all.
    Paused,
    /// Everything funded but undistributed releases instantly at fund time.
    Immediate,
    /// A constant amount releases per unit of time.
    Linear {
        /// How much releases per unit of time. Must be positive.
        amount_per_unit_time: u128,
        /// Which clock the unit of time is read on.
        duration_unit: DurationUnit,
        /// Whether funding an expired window backfills the idle span instead
        /// of restarting from the funding block.
        continuous: bool,
    },
}

impl EmissionRate {
    /// A rate is valid unless it is linear with a zero amount per unit time.
    pub open spec fn spec_valid(self) -> bool {
        match self {
            EmissionRate::Linear { amount_per_unit_time, .. } => amount_per_unit_time > 0,
            _ => true,
        }
    }

    /// Rejects a linear rate that releases zero per unit of time.
    pub fn validate(&self) -> (r: Result<(), RewardsError>)
        ensures
            r is Ok <==> self.spec_valid(),
            r is Err ==> r == Err::<(), RewardsError>(RewardsError::InvalidEmissionRateFieldZero),
    {
        match self {
            EmissionRate::Linear { amount_per_unit_time, .. } => {
                if *amount_per_unit_time == 0 {
                    Err(RewardsError::InvalidEmissionRateFieldZero)
                } else {
                    Ok(())
                }
            },
            _ => Ok(()),
        }
    }

    /// Whether this is a continuous linear rate.
    pub open spec fn spec_continuous(self) -> bool {
        match self {
            EmissionRate::Linear { continuous, .. } => continuous,
            _ => false,
        }
    }

    /// Whether this is a continuous linear rate.
    pub fn is_continuous(&self) -> (r: bool)
        ensures
            r == self.spec_continuous(),
    {
        match self {
            EmissionRate::Linear { continuous, .. } => *continuous,
            _ => false,
        }
    }

    /// What `get_funded_period_duration` returns: no finite window for a
    /// paused or immediate rate; for a linear rate the floor of funded amount
    /// over amount per unit time, expressed on the rate's clock, or an
    /// overflow error when that count does not fit the clock's range.
    pub open spec fn spec_funded_period_duration(self, funded_amount: u128) -> Result<
        Option<Duration>,
        RewardsError,
    > {
        match self {
            EmissionRate::Paused => Ok(None),
            EmissionRate::Immediate => Ok(None),
            EmissionRate::Linear { amount_per_unit_time, duration_unit, .. } => {
                let units = funded_amount as int / amount_per_unit_time as int;
                if units <= u64::MAX {
                    match duration_unit {
                        DurationUnit::Height => Ok(Some(Duration::Height(units as u64))),
                        DurationUnit::Time => Ok(Some(Duration::Time(units as u64))),
                    }
                } else {
                    Err(RewardsError::Overflow)
                }
            },
        }
    }

    /// How long the given funded amount lasts under this rate: none for a
    /// paused or immediate rate, otherwise the derived window length. A zero
    /// funded amount yields a zero-length window, which the caller treats as
    /// an immediately expired restart.
    pub fn get_funded_period_duration(&self, funded_amount: u128) -> (r: Result<
        Option<Duration>,
        RewardsError,
    >)
        requires
            self.spec_valid(),
        ensures
            r == self.spec_funded_period_duration(funded_amount),
    {
        match self {
            EmissionRate::Paused => Ok(None),
            EmissionRate::Immediate => Ok(None),
            EmissionRate::Linear { amount_per_unit_time, duration_unit, .. } => {
                let units = funded_amount / *amount_per_unit_time;
                if units <= u64::MAX as u128 {
                    match duration_unit {
                        DurationUnit::Height => Ok(Some(Duration::Height(units as u64))),
                        DurationUnit::Time => Ok(Some(Duration::Time(units as u64))),
                    }
                } else {
                    Err(RewardsError::Overflow)
                }
            },
        }
    }
}

} // verus!
