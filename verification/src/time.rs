//! Clocks, spans and expirations.
//!
//! A distribution follows exactly one of two clocks: block height or block
//! time. The engine never sleeps or schedules; every operation receives the
//! current block and all accrual is computed lazily from it.

use vstd::prelude::*;

verus! {

/// Which clock a value is measured on.
#[derive(Clone, Copy, Debug, PartialEq, Eq, Structural)]
pub enum DurationUnit {
    /// Block heights.
    Height,
    /// Block time units.
    Time,
}

/// A span of blocks or of time units.
#[derive(Clone, Copy, Debug, PartialEq, Eq, Structural)]
pub enum Duration {
    /// A number of blocks.
    Height(u64),
    /// A number of time units.
    Time(u64),
}

/// A point at which a window starts or ends: never, or a concrete reading of
/// one of the two clocks.
#[derive(Clone, Copy, Debug, PartialEq, Eq, Structural)]
pub enum Expiration {
    /// No finite point.
    Never,
    /// A block height.
    AtHeight(u64),
    /// A block time.
    AtTime(u64),
}

/// The clock readings of the block being processed.
#[derive(Clone, Copy, Debug, PartialEq, Eq, Structural)]
pub struct BlockInfo {
    /// The current block height.
    pub height: u64,
    /// The current block time.
    pub time: u64,
}

impl BlockInfo {
    /// The block's reading of the given clock.
    pub open spec fn spec_scalar(self, unit: DurationUnit) -> u64 {
        match unit {
            DurationUnit::Height => self.height,
            DurationUnit::Time => self.time,
        }
    }

    /// The block's reading of the given clock.
    pub fn scalar(&self, unit: DurationUnit) -> (r: u64)
        ensures
            r == self.spec_scalar(unit),
    {
        match unit {
            DurationUnit::Height => self.height,
            DurationUnit::Time => self.time,
        }
    }
}

impl Expiration {
    /// Whether the block has reached or passed this point. A `Never` point is
    /// never reached.
    pub open spec fn spec_is_expired(self, block: BlockInfo) -> bool {
        match self {
            Expiration::Never => false,
            Expiration::AtHeight(h) => block.height >= h,
            Expiration::AtTime(t) => block.time >= t,
        }
    }

    /// Whether the block has reached or passed this point.
    pub fn is_expired(&self, block: &BlockInfo) -> (r: bool)
        ensures
            r == self.spec_is_expired(*block),
    {
        match self {
            Expiration::Never => false,
            Expiration::AtHeight(h) => block.height >= *h,
            Expiration::AtTime(t) => block.time >= *t,
        }
    }

    /// The clock this point is read on, if any.
    pub open spec fn spec_unit(self) -> Option<DurationUnit> {
        match self {
            Expiration::Never => None,
            Expiration::AtHeight(_) => Some(DurationUnit::Height),
            Expiration::AtTime(_) => Some(DurationUnit::Time),
        }
    }

    /// The concrete clock reading, if any.
    pub open spec fn spec_value(self) -> Option<u64> {
        match self {
            Expiration::Never => None,
            Expiration::AtHeight(h) => Some(h),
            Expiration::AtTime(t) => Some(t),
        }
    }

    /// This point pushed later by a span on the same clock; `None` when the
    /// sum leaves the clock's range or the clocks disagree.
    pub fn checked_add_duration(&self, d: &Duration) -> (r: Option<Expiration>)
        ensures
            r == self.spec_checked_add_duration(*d),
    {
        match (self, d) {
            (Expiration::Never, _) => Some(Expiration::Never),
            (Expiration::AtHeight(h), Duration::Height(dh)) => match h.checked_add(*dh) {
                Some(s) => Some(Expiration::AtHeight(s)),
                None => None,
            },
            (Expiration::AtTime(t), Duration::Time(dt)) => match t.checked_add(*dt) {
                Some(s) => Some(Expiration::AtTime(s)),
                None => None,
            },
            _ => None,
        }
    }

    /// What `checked_add_duration` returns.
    pub open spec fn spec_checked_add_duration(self, d: Duration) -> Option<Expiration> {
        match (self, d) {
            (Expiration::Never, _) => Some(Expiration::Never),
            (Expiration::AtHeight(h), Duration::Height(dh)) => if h + dh <= u64::MAX {
                Some(Expiration::AtHeight((h + dh) as u64))
            } else {
                None
            },
            (Expiration::AtTime(t), Duration::Time(dt)) => if t + dt <= u64::MAX {
                Some(Expiration::AtTime((t + dt) as u64))
            } else {
                None
            },
            _ => None,
        }
    }
}

} // verus!
