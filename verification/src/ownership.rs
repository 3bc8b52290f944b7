//! Two-step ownership transfer.
//!
//! Privileged operations are gated on a single owner. Handing ownership over
//! takes two steps: the current owner nominates a successor, possibly with an
//! expiry, and the successor must accept before the nomination lapses. The
//! owner may also renounce, leaving the engine ownerless for good.

use vstd::prelude::*;

use crate::error::RewardsError;
use crate::time::{BlockInfo, Expiration};

verus! {

/// The ownership record: who rules now, who is nominated, and until when the
/// nomination stands.
#[derive(Clone, Debug, PartialEq, Eq)]
pub struct Ownership {
    /// The current owner, if any.
    pub owner: Option<String>,
    /// The nominated successor, if any.
    pub pending_owner: Option<String>,
    /// When the nomination lapses; `None` means it stands indefinitely.
    pub pending_expiry: Option<Expiration>,
}

/// One step of the two-step transfer protocol.
#[derive(Clone, Debug, PartialEq, Eq)]
pub enum OwnershipAction {
    /// The owner nominates a successor.
    TransferOwnership {
        /// Who may accept.
        new_owner: String,
        /// Until when the nomination stands; `None` means indefinitely.
        expiry: Option<Expiration>,
    },
    /// The nominated successor takes over.
    AcceptOwnership,
    /// The owner gives ownership up for good.
    RenounceOwnership,
}

impl Ownership {
    /// A record owned by the given address, with no nomination standing.
    pub fn new(owner: String) -> (r: Ownership)
        ensures
            r.owner == Some(owner),
            r.pending_owner is None,
            r.pending_expiry is None,
    {
        Ownership { owner: Some(owner), pending_owner: None, pending_expiry: None }
    }

    /// Whether the given address is the current owner.
    pub open spec fn spec_is_owner(self, sender: Seq<char>) -> bool {
        match self.owner {
            Some(o) => o@ == sender,
            None => false,
        }
    }

    /// Rejects every caller but the current owner; an ownerless record
    /// rejects everyone.
    pub fn assert_owner(&self, sender: &String) -> (r: Result<(), RewardsError>)
        ensures
            r is Ok <==> self.spec_is_owner(sender@),
            r is Err ==> (r == Err::<(), RewardsError>(RewardsError::NoOwner) <==> self.owner is None),
            r is Err && self.owner is Some ==> r == Err::<(), RewardsError>(RewardsError::NotOwner),
    {
        match &self.owner {
            None => Err(RewardsError::NoOwner),
            Some(o) => {
                if *o == *sender {
                    Ok(())
                } else {
                    Err(RewardsError::NotOwner)
                }
            },
        }
    }

    /// What `update` leaves behind for each action, and exactly when each is
    /// rejected: only the owner may nominate or renounce; only the nominee of
    /// an unexpired nomination may accept.
    pub open spec fn spec_update(self, block: BlockInfo, sender: Seq<char>, action: OwnershipAction)
        -> Result<Ownership, RewardsError> {
        match action {
            OwnershipAction::TransferOwnership { new_owner, expiry } => {
                if !self.spec_is_owner(sender) {
                    Err(if self.owner is None { RewardsError::NoOwner } else { RewardsError::NotOwner })
                } else {
                    Ok(Ownership { pending_owner: Some(new_owner), pending_expiry: expiry, ..self })
                }
            },
            OwnershipAction::AcceptOwnership => {
                match self.pending_owner {
                    None => Err(RewardsError::NotPendingOwner),
                    Some(p) => {
                        if p@ != sender {
                            Err(RewardsError::NotPendingOwner)
                        } else if match self.pending_expiry {
                            Some(e) => e.spec_is_expired(block),
                            None => false,
                        } {
                            Err(RewardsError::PendingOwnerExpired)
                        } else {
                            Ok(Ownership { owner: Some(p), pending_owner: None, pending_expiry: None })
                        }
                    },
                }
            },
            OwnershipAction::RenounceOwnership => {
                if !self.spec_is_owner(sender) {
                    Err(if self.owner is None { RewardsError::NoOwner } else { RewardsError::NotOwner })
                } else {
                    Ok(Ownership { owner: None, pending_owner: None, pending_expiry: None })
                }
            },
        }
    }

    /// Applies one transfer-protocol step for the sender. On an error the
    /// record is unchanged.
    pub fn update(&mut self, block: &BlockInfo, sender: &String, action: OwnershipAction) -> (r:
        Result<(), RewardsError>)
        ensures
            r matches Ok(_) ==> old(self).spec_update(*block, sender@, action) == Ok::<
                Ownership,
                RewardsError,
            >(*final(self)),
            r matches Err(e) ==> old(self).spec_update(*block, sender@, action) == Err::<
                Ownership,
                RewardsError,
            >(e) && *final(self) == *old(self),
    {
        match action {
            OwnershipAction::TransferOwnership { new_owner, expiry } => {
                match self.assert_owner(sender) {
                    Ok(_) => (),
                    Err(e) => {
                        return Err(e);
                    },
                }
                self.pending_owner = Some(new_owner);
                self.pending_expiry = expiry;
                Ok(())
            },
            OwnershipAction::AcceptOwnership => {
                match &self.pending_owner {
                    None => Err(RewardsError::NotPendingOwner),
                    Some(p) => {
                        if !(*p == *sender) {
                            return Err(RewardsError::NotPendingOwner);
                        }
                        let lapsed = match &self.pending_expiry {
                            Some(e) => e.is_expired(block),
                            None => false,
                        };
                        if lapsed {
                            return Err(RewardsError::PendingOwnerExpired);
                        }
                        self.owner = Some(p.clone());
                        self.pending_owner = None;
                        self.pending_expiry = None;
                        Ok(())
                    },
                }
            },
            OwnershipAction::RenounceOwnership => {
                match self.assert_owner(sender) {
                    Ok(_) => (),
                    Err(e) => {
                        return Err(e);
                    },
                }
                self.owner = None;
                self.pending_owner = None;
                self.pending_expiry = None;
                Ok(())
            },
        }
    }
}

} // verus!
