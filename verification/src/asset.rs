//! Denominations, attached payments and outgoing transfer instructions.
//!
//! A distribution pays out either a native currency, named by its
//! denomination string, or a fungible token, named by its token contract
//! address. Transfers leave the engine as plain instructions; the host turns
//! them into actual value movements.

use vstd::prelude::*;

use crate::error::RewardsError;

verus! {

/// A denomination: a native currency code or a fungible-token contract.
#[derive(Clone, Debug, PartialEq, Eq)]
pub enum Denom {
    /// A native currency, by denomination string.
    Native(String),
    /// A fungible token, by token contract address.
    Cw20(String),
}

impl Denom {
    /// The denomination or contract string, without the tag.
    pub fn get_string(&self) -> (r: String)
        ensures
            r@ == self.spec_string(),
    {
        match self {
            Denom::Native(s) => s.clone(),
            Denom::Cw20(s) => s.clone(),
        }
    }

    /// The denomination or contract string, without the tag.
    pub open spec fn spec_string(self) -> Seq<char> {
        match self {
            Denom::Native(s) => s@,
            Denom::Cw20(s) => s@,
        }
    }
}

/// One attached coin: an amount of a native denomination.
#[derive(Clone, Debug, PartialEq, Eq)]
pub struct Coin {
    /// The native denomination.
    pub denom: String,
    /// The amount attached.
    pub amount: u128,
}

/// Who sent the current message and what funds ride along with it.
#[derive(Clone, Debug, PartialEq, Eq)]
pub struct MessageInfo {
    /// The sender's address.
    pub sender: String,
    /// The native coins attached to the message.
    pub funds: Vec<Coin>,
}

/// An instruction to move value out of the engine's balance.
#[derive(Clone, Debug, PartialEq, Eq)]
pub struct TransferMsg {
    /// Who receives the value.
    pub recipient: String,
    /// How much moves.
    pub amount: u128,
    /// In which denomination.
    pub denom: Denom,
}

/// What `must_pay` returns: the single attached amount of the expected
/// denomination, or the exact payment-shape failure.
pub open spec fn spec_must_pay(info: MessageInfo, denom: Seq<char>) -> Result<u128, RewardsError> {
    if info.funds@.len() == 0 {
        Err(RewardsError::NoFunds)
    } else if info.funds@.len() > 1 {
        Err(RewardsError::MultipleDenoms)
    } else if info.funds@[0].amount == 0 {
        Err(RewardsError::NoFunds)
    } else if info.funds@[0].denom@ != denom {
        Err(RewardsError::MissingDenom)
    } else {
        Ok(info.funds@[0].amount)
    }
}

/// Extracts the one attached coin and checks it is a nonzero amount of the
/// expected denomination; any mismatch, zero or multi-coin payment is
/// rejected.
pub fn must_pay(info: &MessageInfo, denom: &String) -> (r: Result<u128, RewardsError>)
    ensures
        r == spec_must_pay(*info, denom@),
{
    if info.funds.len() == 0 {
        Err(RewardsError::NoFunds)
    } else if info.funds.len() > 1 {
        Err(RewardsError::MultipleDenoms)
    } else {
        let coin = &info.funds[0];
        if coin.amount == 0 {
            Err(RewardsError::NoFunds)
        } else if !(coin.denom == *denom) {
            Err(RewardsError::MissingDenom)
        } else {
            Ok(coin.amount)
        }
    }
}

/// Rejects any attached funds; operations that take no payment call this
/// first.
pub fn nonpayable(info: &MessageInfo) -> (r: Result<(), RewardsError>)
    ensures
        r is Ok <==> info.funds@.len() == 0,
        r is Err ==> r == Err::<(), RewardsError>(RewardsError::NonPayable),
{
    if info.funds.len() == 0 {
        Ok(())
    } else {
        Err(RewardsError::NonPayable)
    }
}

} // verus!
