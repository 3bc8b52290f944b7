//! Errors the engine surfaces.
//!
//! Every operation is a single atomic attempt: an error aborts the whole
//! operation and the caller sees the state unchanged. Nothing is retried
//! internally and no arithmetic failure is ever silently clamped.

use vstd::prelude::*;

verus! {

/// Why an operation on the rewards engine was rejected.
#[derive(Clone, Copy, Debug, PartialEq, Eq, Structural)]
pub enum RewardsError {
    /// The caller is not the current owner.
    NotOwner,
    /// The caller is not the nominated pending owner.
    NotPendingOwner,
    /// There is no owner to act for.
    NoOwner,
    /// The pending ownership nomination has expired.
    PendingOwnerExpired,
    /// No distribution carries this id.
    DistributionNotFound { id: u64 },
    /// A freshly allocated distribution id is already taken. The engine's
    /// sequential id assignment is proved to keep ids unique, so no verified
    /// operation ever surfaces this; it remains named as part of the error
    /// taxonomy.
    UnexpectedDuplicateDistributionId { id: u64 },
    /// A linear emission rate releases zero per unit of time.
    InvalidEmissionRateFieldZero,
    /// The attached or notified funds do not match the distribution's denom.
    InvalidFunds,
    /// A fungible-token funding notification came from the wrong token.
    InvalidCw20,
    /// A fungible-token distribution cannot be funded at creation.
    NoFundsOnCw20Create,
    /// The claimant has nothing to claim on this distribution.
    NoRewardsClaimable,
    /// The active epoch already ended; there is nothing left to withdraw.
    RewardsAlreadyDistributed,
    /// The notification sender is not an authorized hook caller.
    UnauthorizedHookCaller,
    /// No voting-power reading was supplied for this distribution.
    VotingPowerNotProvided { id: u64 },
    /// No funds, or only zero-amount funds, were attached.
    NoFunds,
    /// More than one coin was attached.
    MultipleDenoms,
    /// The attached coin's denom is not the expected one.
    MissingDenom,
    /// Funds were attached to an operation that takes none.
    NonPayable,
    /// Weights handed to the mass distributor do not sum to exactly one.
    InvalidWeights,
    /// A checked arithmetic step does not fit its type.
    Overflow,
}

} // verus!
