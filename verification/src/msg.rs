//! The operation catalogue: what callers hand the engine.
//!
//! These are plain values; any wire format around them is the host's
//! business.

use vstd::prelude::*;

use crate::asset::Denom;
use crate::emission::EmissionRate;

verus! {

/// Names the distribution a funding targets.
#[derive(Clone, Copy, Debug, PartialEq, Eq, Structural)]
pub struct FundMsg {
    /// The distribution to fund.
    pub id: u64,
}

/// What a fungible-token transfer notification asks for.
#[derive(Clone, Copy, Debug, PartialEq, Eq, Structural)]
pub enum ReceiveCw20Msg {
    /// Fund a distribution with the transferred tokens.
    Fund(FundMsg),
}

/// A fungible-token transfer notification: the token contract reports that
/// `sender` moved `amount` tokens here, with instructions attached.
#[derive(Clone, Debug, PartialEq, Eq)]
pub struct Cw20ReceiveMsg {
    /// Who sent the tokens to the token contract.
    pub sender: String,
    /// How many tokens arrived.
    pub amount: u128,
    /// What to do with them.
    pub msg: ReceiveCw20Msg,
}

/// What a new distribution is made of.
#[derive(Clone, Debug, PartialEq, Eq)]
pub struct CreateMsg {
    /// What the distribution pays out.
    pub denom: Denom,
    /// How fast rewards release.
    pub emission_rate: EmissionRate,
    /// The voting-power oracle to weigh stakes by.
    pub vp_contract: String,
    /// The address whose notifications reconcile this distribution.
    pub hook_caller: String,
    /// Where clawed-back funds go; the creator when absent.
    pub withdraw_destination: Option<String>,
}

/// A staking contract's notice that an address staked or unstaked.
#[derive(Clone, Debug, PartialEq, Eq)]
pub enum StakeChangedHookMsg {
    /// The address staked.
    Stake {
        /// Whose stake changed.
        addr: String,
    },
    /// The address unstaked.
    Unstake {
        /// Whose stake changed.
        addr: String,
    },
}

/// An NFT staking contract's notice that an address staked or unstaked.
#[derive(Clone, Debug, PartialEq, Eq)]
pub enum NftStakeChangedHookMsg {
    /// The address staked a token.
    Stake {
        /// Whose stake changed.
        addr: String,
        /// Which token was staked.
        token_id: String,
    },
    /// The address unstaked tokens.
    Unstake {
        /// Whose stake changed.
        addr: String,
        /// Which tokens were unstaked.
        token_ids: Vec<String>,
    },
}

/// One membership change: an address's weight moved from `old` to `new`.
#[derive(Clone, Debug, PartialEq, Eq)]
pub struct MemberDiff {
    /// Whose weight changed.
    pub key: String,
    /// The weight before.
    pub old: Option<u64>,
    /// The weight after.
    pub new: Option<u64>,
}

/// A membership contract's notice of changed weights.
#[derive(Clone, Debug, PartialEq, Eq)]
pub struct MemberChangedHookMsg {
    /// Every change in this notice.
    pub diffs: Vec<MemberDiff>,
}

/// One distribution's pending rewards for a queried address.
#[derive(Clone, Debug, PartialEq, Eq)]
pub struct DistributionPendingRewards {
    /// Which distribution.
    pub id: u64,
    /// What it pays out.
    pub denom: Denom,
    /// What the address could claim right now.
    pub pending_rewards: u128,
}

/// Pending rewards across the queried page of distributions.
#[derive(Clone, Debug, PartialEq, Eq)]
pub struct PendingRewardsResponse {
    /// One row per distribution on the page.
    pub pending_rewards: Vec<DistributionPendingRewards>,
}

/// Every operation the engine accepts, routed by `execute`.
#[derive(Clone, Debug, PartialEq, Eq)]
pub enum ExecuteMsg {
    /// A staking contract reports a stake change.
    StakeChangeHook(StakeChangedHookMsg),
    /// An NFT staking contract reports a stake change.
    NftStakeChangeHook(NftStakeChangedHookMsg),
    /// A membership contract reports weight changes.
    MemberChangedHook(MemberChangedHookMsg),
    /// One step of the two-step ownership transfer.
    UpdateOwnership(crate::ownership::OwnershipAction),
    /// A fungible-token transfer notification.
    Receive(Cw20ReceiveMsg),
    /// Create a new distribution.
    Create(CreateMsg),
    /// Update a distribution's configuration.
    Update {
        /// Which distribution.
        id: u64,
        /// A new emission rate, if any.
        emission_rate: Option<EmissionRate>,
        /// A new voting-power oracle, if any.
        vp_contract: Option<String>,
        /// A new hook caller, if any.
        hook_caller: Option<String>,
        /// A new withdraw destination, if any.
        withdraw_destination: Option<String>,
    },
    /// Fund a distribution with the attached native coin.
    Fund(FundMsg),
    /// Claim the sender's accrued rewards.
    Claim {
        /// Which distribution.
        id: u64,
    },
    /// Claw back the undistributed remainder.
    Withdraw {
        /// Which distribution.
        id: u64,
    },
}

/// Every read the engine answers, routed by `query`.
#[derive(Clone, Debug, PartialEq, Eq)]
pub enum QueryMsg {
    /// The ownership record.
    Ownership,
    /// An address's claimable rewards over a page of distributions.
    PendingRewards {
        /// Whose rewards.
        address: String,
        /// The exclusive id cursor.
        start_after: Option<u64>,
        /// The page size.
        limit: Option<u32>,
    },
    /// One distribution's state.
    Distribution {
        /// Which distribution.
        id: u64,
    },
    /// A page of distributions.
    Distributions {
        /// The exclusive id cursor.
        start_after: Option<u64>,
        /// The page size.
        limit: Option<u32>,
    },
}

/// What an operation hands back: the transfer instructions the host must
/// carry out.
#[derive(Clone, Debug, PartialEq, Eq)]
pub struct Response {
    /// Value movements out of the engine's balance, in order.
    pub transfers: Vec<crate::asset::TransferMsg>,
}

/// One query's answer.
#[derive(Clone, Debug, PartialEq, Eq)]
pub enum QueryResponse {
    /// The ownership record.
    Ownership(crate::ownership::Ownership),
    /// Claimable rewards over a page of distributions.
    PendingRewards(PendingRewardsResponse),
    /// One distribution's state.
    Distribution(crate::distribution::DistributionState),
    /// A page of distributions.
    Distributions(DistributionsResponse),
}

/// A page of distributions.
#[derive(Clone, Debug, PartialEq, Eq)]
pub struct DistributionsResponse {
    /// The page, in ascending id order.
    pub distributions: Vec<crate::distribution::DistributionState>,
}

} // verus!
