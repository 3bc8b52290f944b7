//! The distribution accrual engine: the central state machine.
//!
//! The engine owns every distribution, every participant's reward ledger,
//! the hook subscription table, and the ownership record. Each operation
//! observes one block, computes, and either commits all of its writes or
//! returns an error having changed nothing; the one exception is a hook
//! notification over several distributions, whose partial progress is only
//! idempotent reconciliation and is discarded by the host on an error.
//! Voting powers are readings of an external oracle and enter every
//! operation as plain values.

use vstd::prelude::*;

use crate::asset::{must_pay, nonpayable, Denom, MessageInfo, TransferMsg};
use crate::distribution::DistributionState;
use crate::emission::EmissionRate;
use crate::epoch::Epoch;
use crate::error::RewardsError;
use crate::num::{lemma_u256_of, limb_base, scale, spec_collect, u256_bound, u256_of, U256};
use crate::ownership::{Ownership, OwnershipAction};
use crate::msg::{CreateMsg, Cw20ReceiveMsg, DistributionPendingRewards, DistributionsResponse, ExecuteMsg, FundMsg, MemberChangedHookMsg, NftStakeChangedHookMsg, PendingRewardsResponse, QueryMsg, QueryResponse, ReceiveCw20Msg, Response, StakeChangedHookMsg};
use crate::time::BlockInfo;
use crate::user::{RewardEntry, UserRewardState};

verus! {

/// One oracle reading: an address's voting power and the total voting power,
/// for one distribution, as of the block an operation runs at.
#[derive(Clone, Copy, Debug, PartialEq, Eq, Structural)]
pub struct VotingPowerReading {
    /// Which distribution the reading serves.
    pub distribution_id: u64,
    /// The affected address's voting power.
    pub power: u128,
    /// The total voting power.
    pub total_power: u128,
}

/// One participant's ledger, keyed by address.
#[derive(Clone, Debug, PartialEq, Eq)]
pub struct UserLedger {
    /// The participant's address.
    pub address: String,
    /// Their reward ledger.
    pub rewards: UserRewardState,
}

/// Which distributions one hook caller's notifications reconcile.
#[derive(Clone, Debug, PartialEq, Eq)]
pub struct HookSubscription {
    /// The authorized notifier.
    pub hook_caller: String,
    /// The distributions subscribed to it.
    pub distribution_ids: Vec<u64>,
}

/// Whether a subscription table routes notifications from the caller to
/// the distribution.
pub open spec fn spec_hook_pair_in(hooks: Seq<HookSubscription>, c: Seq<char>, x: u64) -> bool {
    exists|i: int, j: int|
        0 <= i < hooks.len() && 0 <= j < hooks[i].distribution_ids@.len()
            && hooks[i].hook_caller@ == c && #[trigger] hooks[i].distribution_ids@[j] == x
}

/// The historical-plus-active cumulative earned-per-unit-power of a
/// distribution: what a fully reconciled participant has observed.
pub open spec fn spec_dist_total(d: DistributionState) -> int {
    d.historical_earned_puvp@ + d.active_epoch.total_earned_puvp@ as int
}

/// The whole engine.
#[derive(Debug)]
pub struct RewardsEngine {
    /// Who may create, update and withdraw.
    pub ownership: Ownership,
    /// The auto-incrementing distribution id counter.
    pub count: u64,
    /// Every distribution, in id order: the distribution with id `i + 1`
    /// sits at index `i`.
    pub distributions: Vec<DistributionState>,
    /// Every participant's ledger, one per address.
    pub user_rewards: Vec<UserLedger>,
    /// The hook subscription table.
    pub hooks: Vec<HookSubscription>,
}

impl RewardsEngine {
    /// Internal consistency: ids are dense and sequential, every
    /// distribution and ledger is well formed, no participant has observed
    /// more than the engine has accumulated, and the subscription table
    /// agrees with each distribution's configured hook caller.
    pub open spec fn wf(self) -> bool {
        &&& self.count == self.distributions@.len()
        &&& forall|i: int|
            0 <= i < self.distributions@.len() ==> (#[trigger] self.distributions@[i]).id == i + 1
                && self.distributions@[i].wf()
        &&& forall|i: int, j: int|
            0 <= i < j < self.user_rewards@.len() ==> self.user_rewards@[i].address@
                != self.user_rewards@[j].address@
        &&& forall|i: int|
            0 <= i < self.user_rewards@.len() ==> (#[trigger] self.user_rewards@[i]).rewards.wf()
        &&& forall|i: int, j: int|
            0 <= i < self.user_rewards@.len() && 0 <= j
                < self.user_rewards@[i].rewards.entries@.len() ==> {
                let en = #[trigger] self.user_rewards@[i].rewards.entries@[j];
                &&& 1 <= en.distribution_id <= self.distributions@.len()
                &&& en.accounted_puvp@ <= spec_dist_total(
                    self.distributions@[en.distribution_id - 1],
                )
            }
        &&& forall|i: int, j: int|
            0 <= i < j < self.hooks@.len() ==> self.hooks@[i].hook_caller@
                != self.hooks@[j].hook_caller@
        &&& forall|i: int, j: int|
            0 <= i < self.hooks@.len() && 0 <= j < self.hooks@[i].distribution_ids@.len() ==> {
                let id = #[trigger] self.hooks@[i].distribution_ids@[j];
                &&& 1 <= id <= self.distributions@.len()
                &&& self.distributions@[id - 1].hook_caller@ == self.hooks@[i].hook_caller@
            }
    }

    /// A fresh engine: owned by the named owner, or by the instantiating
    /// sender when none is named; no distributions, no ledgers, no
    /// subscriptions.
    pub fn instantiate(info: &MessageInfo, owner: Option<String>) -> (r: RewardsEngine)
        ensures
            r.ownership.owner matches Some(o) && (match owner {
                Some(w) => o@ == w@,
                None => o@ == info.sender@,
            }),
            r.ownership.pending_owner is None,
            r.count == 0,
            r.distributions@.len() == 0,
            r.user_rewards@.len() == 0,
            r.hooks@.len() == 0,
            r.wf(),
    {
        let owner_addr = match owner {
            Some(w) => w,
            None => info.sender.clone(),
        };
        RewardsEngine {
            ownership: Ownership::new(owner_addr),
            count: 0,
            distributions: Vec::new(),
            user_rewards: Vec::new(),
            hooks: Vec::new(),
        }
    }

    /// The distribution with the given id, if it exists.
    pub open spec fn spec_has_dist(self, id: u64) -> bool {
        1 <= id <= self.distributions@.len()
    }

    /// The distribution with the given id.
    pub open spec fn spec_dist(self, id: u64) -> DistributionState {
        self.distributions@[id - 1]
    }

    /// The index of the distribution with the given id, or the not-found
    /// error the caller surfaces.
    fn find_dist_index(&self, id: u64) -> (r: Result<usize, RewardsError>)
        requires
            self.wf(),
        ensures
            r matches Ok(i) ==> self.spec_has_dist(id) && i == id - 1,
            r matches Err(e) ==> !self.spec_has_dist(id) && e == (RewardsError::DistributionNotFound { id }),
    {
        if id >= 1 && (id as u128) <= (self.distributions.len() as u128) {
            Ok((id - 1) as usize)
        } else {
            Err(RewardsError::DistributionNotFound { id })
        }
    }

    /// The index of the participant's ledger, if they have one.
    fn find_user_index(&self, address: &String) -> (r: Option<usize>)
        ensures
            r matches Some(i) ==> i < self.user_rewards@.len() && self.user_rewards@[
                i as int
            ].address@ == address@,
            r is None ==> forall|k: int|
                0 <= k < self.user_rewards@.len() ==> self.user_rewards@[k].address@ != address@,
    {
        let mut i: usize = 0;
        while i < self.user_rewards.len()
            invariant
                i <= self.user_rewards@.len(),
                forall|k: int| 0 <= k < i ==> self.user_rewards@[k].address@ != address@,
            decreases self.user_rewards@.len() - i,
        {
            if self.user_rewards[i].address == *address {
                return Some(i);
            }
            i = i + 1;
        }
        None
    }

    /// The index of the hook caller's subscription, if it has one.
    fn find_hook_index(&self, hook_caller: &String) -> (r: Option<usize>)
        ensures
            r matches Some(i) ==> i < self.hooks@.len() && self.hooks@[i as int].hook_caller@
                == hook_caller@,
            r is None ==> forall|k: int|
                0 <= k < self.hooks@.len() ==> self.hooks@[k].hook_caller@ != hook_caller@,
    {
        let mut i: usize = 0;
        while i < self.hooks.len()
            invariant
                i <= self.hooks@.len(),
                forall|k: int| 0 <= k < i ==> self.hooks@[k].hook_caller@ != hook_caller@,
            decreases self.hooks@.len() - i,
        {
            if self.hooks[i].hook_caller == *hook_caller {
                return Some(i);
            }
            i = i + 1;
        }
        None
    }

    /// Reconciles one participant against one distribution as of the block:
    /// brings the distribution's accumulator current and durable, banks the
    /// participant's newly accrued amount into their pending balance, and
    /// records the cumulative total they have now observed. No interaction
    /// can skip this: it runs on every claim and on every stake-change
    /// notification.
    pub fn update_rewards(
        &mut self,
        block: &BlockInfo,
        address: &String,
        id: u64,
        power: u128,
        total_power: u128,
    ) -> (r: Result<(), RewardsError>)
        requires
            old(self).wf(),
        ensures
            final(self).wf(),
            final(self).ownership == old(self).ownership,
            final(self).count == old(self).count,
            final(self).hooks@ == old(self).hooks@,
            r matches Err(e) ==> *final(self) == *old(self) && ((!old(self).spec_has_dist(id) && e
                == (RewardsError::DistributionNotFound { id })) || (old(self).spec_has_dist(id)
                && Self::spec_reconcile(
                old(self).spec_dist(id),
                Self::spec_map_entry(old(self).spec_user_map(address@), id),
                *block,
                power,
                total_power,
            ) == Err::<(int, RewardEntry), RewardsError>(e))),
            r is Ok ==> old(self).spec_has_dist(id) && ({
                let rec = Self::spec_reconcile(
                    old(self).spec_dist(id),
                    Self::spec_map_entry(old(self).spec_user_map(address@), id),
                    *block,
                    power,
                    total_power,
                );
                &&& rec is Ok
                &&& final(self).distributions@ == old(self).distributions@.update(
                    id - 1,
                    Self::spec_settled_dist(old(self).spec_dist(id), rec->Ok_0.0, *block),
                )
                &&& final(self).spec_user_map(address@) == old(self).spec_user_map(
                    address@,
                ).insert(id, rec->Ok_0.1)
                &&& forall|a2: Seq<char>|
                    a2 != address@ ==> final(self).spec_user_map(a2) == old(self).spec_user_map(a2)
            }),
    {
        let idx = match self.find_dist_index(id) {
            Ok(i) => i,
            Err(e) => {
                return Err(e);
            },
        };
        let prev = self.read_prev_entry(address, id);
        let (active, en) = match Self::compute_reconcile(
            &self.distributions[idx],
            prev,
            block,
            power,
            total_power,
        ) {
            Ok(x) => x,
            Err(e) => {
                return Err(e);
            },
        };
        proof {
            old(self).spec_dist(id).active_epoch.lemma_projection_monotone(*block, total_power);
        }
        self.commit_reconcile(block, address, id, active, en);
        Ok(())
    }

    /// What `execute_claim` ensures, as one predicate over the pre and
    /// post states; the routing dispatcher is held to it too.
    pub open spec fn spec_claim_post(
        pre: RewardsEngine,
        post: RewardsEngine,
        block: BlockInfo,
        info: MessageInfo,
        id: u64,
        power: u128,
        total_power: u128,
        r: Result<TransferMsg, RewardsError>,
    ) -> bool {
        &&& (post.wf())
        &&& (post.ownership == pre.ownership)
        &&& (post.count == pre.count)
        &&& (post.hooks@ == pre.hooks@)
        &&& (r matches Err(e) ==> post == pre && ({
                let rec = Self::spec_reconcile(
                    pre.spec_dist(id),
                    Self::spec_map_entry(pre.spec_user_map(info.sender@), id),
                    block,
                    power,
                    total_power,
                );
                ||| info.funds@.len() != 0 && e == RewardsError::NonPayable
                ||| info.funds@.len() == 0 && !pre.spec_has_dist(id) && e
                    == (RewardsError::DistributionNotFound { id })
                ||| info.funds@.len() == 0 && pre.spec_has_dist(id) && rec == Err::<
                    (int, RewardEntry),
                    RewardsError,
                >(e)
                ||| info.funds@.len() == 0 && pre.spec_has_dist(id) && rec is Ok
                    && rec->Ok_0.1.pending == 0 && e == RewardsError::NoRewardsClaimable
            }))
        &&& (r matches Ok(t) ==> pre.spec_has_dist(id) && ({
                let rec = Self::spec_reconcile(
                    pre.spec_dist(id),
                    Self::spec_map_entry(pre.spec_user_map(info.sender@), id),
                    block,
                    power,
                    total_power,
                );
                &&& info.funds@.len() == 0
                &&& rec is Ok
                &&& rec->Ok_0.1.pending > 0
                &&& t.recipient@ == info.sender@
                &&& t.amount == rec->Ok_0.1.pending
                &&& t.denom == pre.spec_dist(id).denom
                &&& post.distributions@ == pre.distributions@.update(
                    id - 1,
                    Self::spec_settled_dist(pre.spec_dist(id), rec->Ok_0.0, block),
                )
                &&& post.spec_user_map(info.sender@) == pre.spec_user_map(
                    info.sender@,
                ).insert(
                    id,
                    RewardEntry { pending: 0, ..rec->Ok_0.1 },
                )
                &&& forall|a2: Seq<char>|
                    a2 != info.sender@ ==> post.spec_user_map(a2) == pre.spec_user_map(a2)
            }))
    }

    /// Claims the sender's accrued rewards on one distribution: reconciles
    /// them as of the block, then atomically zeroes and pays out their
    /// pending balance. Rejected when nothing is owed, whether the sender
    /// never interacted or reconciled to zero. Takes no payment.
    pub fn execute_claim(
        &mut self,
        block: &BlockInfo,
        info: &MessageInfo,
        id: u64,
        power: u128,
        total_power: u128,
    ) -> (r: Result<TransferMsg, RewardsError>)
        requires
            old(self).wf(),
        ensures
            Self::spec_claim_post(*old(self), *final(self), *block, *info, id, power, total_power, r),
    {
        match nonpayable(info) {
            Ok(_) => (),
            Err(e) => {
                return Err(e);
            },
        }
        let idx = match self.find_dist_index(id) {
            Ok(i) => i,
            Err(e) => {
                return Err(e);
            },
        };
        let prev = self.read_prev_entry(&info.sender, id);
        let (active, en) = match Self::compute_reconcile(
            &self.distributions[idx],
            prev,
            block,
            power,
            total_power,
        ) {
            Ok(x) => x,
            Err(e) => {
                return Err(e);
            },
        };
        if en.pending == 0 {
            return Err(RewardsError::NoRewardsClaimable);
        }
        let claim_amount = en.pending;
        let denom = match &self.distributions[idx].denom {
            Denom::Native(s) => Denom::Native(s.clone()),
            Denom::Cw20(s) => Denom::Cw20(s.clone()),
        };
        proof {
            old(self).spec_dist(id).active_epoch.lemma_projection_monotone(*block, total_power);
        }
        self.commit_reconcile(
            block,
            &info.sender,
            id,
            active,
            RewardEntry { distribution_id: en.distribution_id, pending: 0, accounted_puvp: en.accounted_puvp },
        );
        Ok(TransferMsg { recipient: info.sender.clone(), amount: claim_amount, denom })
    }

    /// The entry the participant currently holds for the distribution, with
    /// the engine's guarantee that what they observed never exceeds what the
    /// distribution has accumulated.
    fn read_prev_entry(&self, address: &String, id: u64) -> (r: Option<RewardEntry>)
        requires
            self.wf(),
            self.spec_has_dist(id),
        ensures
            r == Self::spec_map_entry(self.spec_user_map(address@), id),
            r matches Some(e) ==> e.accounted_puvp@ <= spec_dist_total(self.spec_dist(id)),
    {
        let uidx = self.find_user_index(address);
        let prev: Option<RewardEntry> = match uidx {
            Some(ui) => self.user_rewards[ui].rewards.get_entry(id),
            None => None,
        };
        proof {
            match uidx {
                Some(ui) => {
                    let s1 = self.user_rewards@;
                    assert(exists|i: int| 0 <= i < s1.len() && s1[i].address@ == address@);
                    let k = choose|i: int| 0 <= i < s1.len() && s1[i].address@ == address@;
                    if k != ui {
                        assert(false);
                    }
                    assert(self.spec_user_map(address@) == s1[ui as int].rewards@);
                    assert(prev == Self::spec_map_entry(self.spec_user_map(address@), id));
                    match prev {
                        Some(e) => {
                            let entries = s1[ui as int].rewards.entries@;
                            let j = choose|i: int|
                                0 <= i < entries.len() && entries[i].distribution_id == id;
                            assert(0 <= j < entries.len() && entries[j].distribution_id == id);
                            assert(entries[j] == e);
                            assert(e.accounted_puvp@ <= spec_dist_total(
                                self.distributions@[id - 1],
                            ));
                        },
                        None => {},
                    }
                },
                None => {
                    assert(!exists|i: int|
                        0 <= i < self.user_rewards@.len() && self.user_rewards@[i].address@
                            == address@);
                    assert(self.spec_user_map(address@) =~= Map::<u64, RewardEntry>::empty());
                },
            }
        }
        prev
    }

    /// Makes a computed reconciliation durable: persists the projected
    /// accumulator, advances the last-updated point, and writes the
    /// participant's entry.
    fn commit_reconcile(
        &mut self,
        block: &BlockInfo,
        address: &String,
        id: u64,
        active: U256,
        en: RewardEntry,
    )
        requires
            old(self).wf(),
            old(self).spec_has_dist(id),
            en.distribution_id == id,
            active@ >= old(self).spec_dist(id).active_epoch.total_earned_puvp@,
            en.accounted_puvp@ <= old(self).spec_dist(id).historical_earned_puvp@ + active@,
        ensures
            final(self).wf(),
            final(self).ownership == old(self).ownership,
            final(self).count == old(self).count,
            final(self).hooks@ == old(self).hooks@,
            final(self).distributions@ == old(self).distributions@.update(
                id - 1,
                Self::spec_settled_dist(old(self).spec_dist(id), active@ as int, *block),
            ),
            final(self).spec_user_map(address@) == old(self).spec_user_map(address@).insert(
                id,
                en,
            ),
            forall|a2: Seq<char>|
                a2 != address@ ==> final(self).spec_user_map(a2) == old(self).spec_user_map(a2),
    {
        let idx = match self.find_dist_index(id) {
            Ok(i) => i,
            Err(_) => {
                proof {
                    assert(false);
                }
                return ;
            },
        };
        let ghost pre = *self;
        let mut d2 = self.distributions[idx].duplicate();
        d2.active_epoch.total_earned_puvp = active;
        d2.active_epoch.bump_last_updated(block);
        self.distributions.set(idx, d2);
        proof {
            lemma_u256_of(active@ as int);
            let w = u256_of(active@ as int);
            assert(w.hi * limb_base() + w.lo == active.hi * limb_base() + active.lo);
            assert(w == active);
            assert(self.distributions@[id - 1] == Self::spec_settled_dist(
                pre.spec_dist(id),
                active@ as int,
                *block,
            ));
            assert(spec_dist_total(self.distributions@[id - 1]) >= spec_dist_total(
                pre.spec_dist(id),
            ));
            assert(en.accounted_puvp@ <= spec_dist_total(self.distributions@[id - 1]));
        }
        self.write_user_entry(address, en);
        proof {
            assert forall|i: int, j: int|
                0 <= i < self.user_rewards@.len() && 0 <= j < self.user_rewards@[
                    i
                ].rewards.entries@.len() implies ({
                let x = #[trigger] self.user_rewards@[i].rewards.entries@[j];
                &&& 1 <= x.distribution_id <= self.distributions@.len()
                &&& x.accounted_puvp@ <= spec_dist_total(
                    self.distributions@[x.distribution_id - 1],
                )
            }) by {
                let x = self.user_rewards@[i].rewards.entries@[j];
                if x == en {
                } else {
                    let (i2, j2) = choose|i2: int, j2: int|
                        0 <= i2 < pre.user_rewards@.len() && 0 <= j2 < pre.user_rewards@[
                            i2
                        ].rewards.entries@.len() && pre.user_rewards@[i2].rewards.entries@[j2]
                            == x;
                    assert(1 <= x.distribution_id <= pre.distributions@.len());
                    if x.distribution_id == id {
                        assert(x.accounted_puvp@ <= spec_dist_total(pre.spec_dist(id)));
                    } else {
                        assert(self.distributions@[x.distribution_id - 1]
                            == pre.distributions@[x.distribution_id - 1]);
                    }
                }
            }
        }
    }

    /// Writes one reward entry into the participant's ledger, creating the
    /// ledger on first interaction; every other participant and every other
    /// entry is untouched.
    fn write_user_entry(&mut self, address: &String, en: RewardEntry)
        requires
            forall|i: int, j: int|
                0 <= i < j < old(self).user_rewards@.len() ==> old(self).user_rewards@[i].address@
                    != old(self).user_rewards@[j].address@,
            forall|i: int|
                0 <= i < old(self).user_rewards@.len() ==> (#[trigger] old(self).user_rewards@[i]).rewards.wf(),
        ensures
            final(self).spec_user_map(address@) == old(self).spec_user_map(address@).insert(
                en.distribution_id,
                en,
            ),
            forall|a2: Seq<char>|
                a2 != address@ ==> final(self).spec_user_map(a2) == old(self).spec_user_map(a2),
            forall|i: int, j: int|
                0 <= i < j < final(self).user_rewards@.len() ==> final(self).user_rewards@[
                    i
                ].address@ != final(self).user_rewards@[j].address@,
            forall|i: int|
                0 <= i < final(self).user_rewards@.len() ==> (#[trigger] final(self).user_rewards@[i]).rewards.wf(),
            forall|i: int, j: int|
                0 <= i < final(self).user_rewards@.len() && 0 <= j < final(self).user_rewards@[
                    i
                ].rewards.entries@.len() ==> ({
                    let x = #[trigger] final(self).user_rewards@[i].rewards.entries@[j];
                    x == en || exists|i2: int, j2: int|
                        0 <= i2 < old(self).user_rewards@.len() && 0 <= j2 < old(self).user_rewards@[i2].rewards.entries@.len() && old(self).user_rewards@[
                            i2
                        ].rewards.entries@[j2] == x
                }),
            final(self).ownership == old(self).ownership,
            final(self).count == old(self).count,
            final(self).distributions@ == old(self).distributions@,
            final(self).hooks@ == old(self).hooks@,
    {
        let ghost pre = *self;
        match self.find_user_index(address) {
            Some(ui) => {
                let mut ledger = UserLedger {
                    address: self.user_rewards[ui].address.clone(),
                    rewards: self.user_rewards[ui].rewards.duplicate(),
                };
                let ghost dup_entries = ledger.rewards.entries@;
                ledger.rewards.upsert(en);
                self.user_rewards.set(ui, ledger);
                proof {
                    let s1 = pre.user_rewards@;
                    let s2 = self.user_rewards@;
                    assert(s2[ui as int].address@ == address@);
                    assert(s1[ui as int].address@ == address@);
                    assert forall|a2: Seq<char>|
                        a2 != address@ implies final(self).spec_user_map(a2) == pre.spec_user_map(
                        a2,
                    ) by {
                        if exists|i: int| 0 <= i < s2.len() && s2[i].address@ == a2 {
                            let k = choose|i: int| 0 <= i < s2.len() && s2[i].address@ == a2;
                            assert(k != ui);
                            assert(s1[k].address@ == a2);
                            let k2 = choose|i: int| 0 <= i < s1.len() && s1[i].address@ == a2;
                            if k2 != k {
                                assert(false);
                            }
                        } else {
                            if exists|i: int| 0 <= i < s1.len() && s1[i].address@ == a2 {
                                let k = choose|i: int| 0 <= i < s1.len() && s1[i].address@ == a2;
                                assert(s2[k].address@ == a2);
                                assert(false);
                            }
                        }
                    }
                    assert(exists|i: int| 0 <= i < s2.len() && s2[i].address@ == address@);
                    let k = choose|i: int| 0 <= i < s2.len() && s2[i].address@ == address@;
                    if k != ui {
                        assert(s1[k].address@ == address@);
                        assert(false);
                    }
                    assert(exists|i: int| 0 <= i < s1.len() && s1[i].address@ == address@);
                    let kp = choose|i: int| 0 <= i < s1.len() && s1[i].address@ == address@;
                    if kp != ui {
                        assert(false);
                    }
                    assert(final(self).spec_user_map(address@) == s2[ui as int].rewards@);
                    assert(pre.spec_user_map(address@) == s1[ui as int].rewards@);
                    assert forall|i: int, j: int|
                        0 <= i < s2.len() && 0 <= j < s2[i].rewards.entries@.len() implies ({
                        let x = #[trigger] s2[i].rewards.entries@[j];
                        x == en || exists|i2: int, j2: int|
                            0 <= i2 < s1.len() && 0 <= j2 < s1[i2].rewards.entries@.len()
                                && s1[i2].rewards.entries@[j2] == x
                    }) by {
                        let x = s2[i].rewards.entries@[j];
                        if i == ui {
                            if x != en {
                                assert(dup_entries.contains(x));
                                let j2 = choose|j2: int|
                                    0 <= j2 < dup_entries.len() && dup_entries[j2] == x;
                                assert(s1[ui as int].rewards.entries@[j2] == x);
                            }
                        } else {
                            assert(s1[i].rewards.entries@[j] == x);
                        }
                    }
                }
            },
            None => {
                let mut st = UserRewardState::new();
                st.upsert(en);
                self.user_rewards.push(UserLedger { address: address.clone(), rewards: st });
                proof {
                    let s1 = pre.user_rewards@;
                    let s2 = self.user_rewards@;
                    let n = s1.len() as int;
                    assert(s2[n].address@ == address@);
                    assert forall|a2: Seq<char>|
                        a2 != address@ implies final(self).spec_user_map(a2) == pre.spec_user_map(
                        a2,
                    ) by {
                        if exists|i: int| 0 <= i < s2.len() && s2[i].address@ == a2 {
                            let k = choose|i: int| 0 <= i < s2.len() && s2[i].address@ == a2;
                            assert(k != n);
                            assert(s1[k].address@ == a2);
                            let k2 = choose|i: int| 0 <= i < s1.len() && s1[i].address@ == a2;
                            if k2 != k {
                                assert(false);
                            }
                        } else {
                            if exists|i: int| 0 <= i < s1.len() && s1[i].address@ == a2 {
                                let k = choose|i: int| 0 <= i < s1.len() && s1[i].address@ == a2;
                                assert(s2[k].address@ == a2);
                                assert(false);
                            }
                        }
                    }
                    let k = choose|i: int| 0 <= i < s2.len() && s2[i].address@ == address@;
                    if k != n {
                        assert(s1[k].address@ == address@);
                        assert(false);
                    }
                    assert(pre.spec_user_map(address@) =~= Map::<u64, RewardEntry>::empty());
                    assert(final(self).spec_user_map(address@) =~= pre.spec_user_map(
                        address@,
                    ).insert(en.distribution_id, en));
                    assert forall|i: int, j: int|
                        0 <= i < s2.len() && 0 <= j < s2[i].rewards.entries@.len() implies ({
                        let x = #[trigger] s2[i].rewards.entries@[j];
                        x == en || exists|i2: int, j2: int|
                            0 <= i2 < s1.len() && 0 <= j2 < s1[i2].rewards.entries@.len()
                                && s1[i2].rewards.entries@[j2] == x
                    }) by {
                        let x = s2[i].rewards.entries@[j];
                        if i == n {
                            if x != en {
                                assert(false);
                            }
                        } else {
                            assert(s1[i].rewards.entries@[j] == x);
                        }
                    }
                }
            },
        }
    }

    /// The entry a reward map holds for a distribution, if any.
    pub open spec fn spec_map_entry(m: Map<u64, RewardEntry>, id: u64) -> Option<RewardEntry> {
        if m.dom().contains(id) {
            Some(m[id])
        } else {
            None
        }
    }

    /// What reconciling one participant against one distribution computes:
    /// the up-to-date active accumulator, and the participant's new entry.
    /// The newly accrued amount is the growth of the cumulative total since
    /// the participant last observed it, times their voting power, with the
    /// one floor division by the fixed-point scale applied at the very end.
    pub open spec fn spec_reconcile(
        d: DistributionState,
        prev: Option<RewardEntry>,
        block: BlockInfo,
        power: u128,
        total_power: u128,
    ) -> Result<(int, RewardEntry), RewardsError> {
        match d.active_epoch.spec_active_puvp(block, total_power) {
            Err(e) => Err(e),
            Ok(active) => {
                let total = active + d.historical_earned_puvp@;
                if total >= u256_bound() {
                    Err(RewardsError::Overflow)
                } else {
                    let acc = match prev {
                        Some(e) => e.accounted_puvp@ as int,
                        None => 0,
                    };
                    let pend = match prev {
                        Some(e) => e.pending as int,
                        None => 0,
                    };
                    let delta = if total >= acc { total - acc } else { 0 };
                    let raw = delta * power;
                    if raw >= u256_bound() {
                        Err(RewardsError::Overflow)
                    } else {
                        let unaccounted = spec_collect(delta, power as int);
                        if pend + unaccounted > u128::MAX {
                            Err(RewardsError::Overflow)
                        } else {
                            Ok(
                                (
                                    active,
                                    RewardEntry {
                                        distribution_id: d.id,
                                        pending: (pend + unaccounted) as u128,
                                        accounted_puvp: u256_of(total),
                                    },
                                ),
                            )
                        }
                    }
                }
            },
        }
    }

    /// The distribution after a reconciliation persists the projected active
    /// accumulator and advances the last-updated point to the block: the one
    /// place where the pure projection becomes durable.
    pub open spec fn spec_settled_dist(d: DistributionState, active: int, block: BlockInfo)
        -> DistributionState {
        DistributionState {
            active_epoch: Epoch {
                total_earned_puvp: u256_of(active),
                ..d.active_epoch
            }.spec_bump(block),
            ..d
        }
    }

    /// Computes a reconciliation without touching any state.
    fn compute_reconcile(
        d: &DistributionState,
        prev: Option<RewardEntry>,
        block: &BlockInfo,
        power: u128,
        total_power: u128,
    ) -> (r: Result<(U256, RewardEntry), RewardsError>)
        requires
            d.wf(),
            prev matches Some(e) ==> e.accounted_puvp@ <= spec_dist_total(*d),
        ensures
            r matches Ok((a, en)) ==> Self::spec_reconcile(*d, prev, *block, power, total_power)
                == Ok::<(int, RewardEntry), RewardsError>((a@ as int, en)),
            r matches Err(e) ==> Self::spec_reconcile(*d, prev, *block, power, total_power)
                == Err::<(int, RewardEntry), RewardsError>(e),
    {
        let active = match d.active_epoch.get_active_total_earned_puvp(block, total_power) {
            Ok(v) => v,
            Err(e) => {
                return Err(e);
            },
        };
        let total = match active.checked_add(&d.historical_earned_puvp) {
            Some(t) => t,
            None => {
                return Err(RewardsError::Overflow);
            },
        };
        let (acc, pend) = match prev {
            Some(e) => (e.accounted_puvp, e.pending),
            None => (U256::zero(), 0u128),
        };
        proof {
            d.active_epoch.lemma_projection_monotone(*block, total_power);
        }
        let delta = total.checked_sub(&acc).unwrap();
        let raw = match delta.checked_mul(&U256::from_u128(power)) {
            Some(x) => x,
            None => {
                return Err(RewardsError::Overflow);
            },
        };
        let unaccounted256 = raw.checked_div(&U256::scale_factor()).unwrap();
        proof {
            vstd::arithmetic::div_mod::lemma_multiply_divide_lt(
                raw@ as int,
                scale(),
                limb_base(),
            );
            vstd::arithmetic::div_mod::lemma_div_pos_is_pos(raw@ as int, scale());
        }
        let unaccounted = unaccounted256.try_to_u128().unwrap();
        let pend_new = match pend.checked_add(unaccounted) {
            Some(p) => p,
            None => {
                return Err(RewardsError::Overflow);
            },
        };
        proof {
            lemma_u256_of(total@ as int);
            let w = u256_of(total@ as int);
            assert(w.hi * limb_base() + w.lo == total.hi * limb_base() + total.lo);
            assert(w == total);
        }
        Ok((active, RewardEntry { distribution_id: d.id, pending: pend_new, accounted_puvp: total }))
    }

    /// Replacing one distribution with a well-formed successor that kept its
    /// id and hook caller and did not lower its cumulative total keeps the
    /// whole engine well formed.
    proof fn lemma_wf_after_dist_update(
        pre: RewardsEngine,
        post: RewardsEngine,
        id: u64,
        d: DistributionState,
    )
        requires
            pre.wf(),
            pre.spec_has_dist(id),
            post.distributions@ == pre.distributions@.update(id - 1, d),
            post.count == pre.count,
            post.user_rewards@ == pre.user_rewards@,
            post.hooks@ == pre.hooks@,
            post.ownership == pre.ownership,
            d.wf(),
            d.id == id,
            d.hook_caller@ == pre.spec_dist(id).hook_caller@,
            spec_dist_total(d) >= spec_dist_total(pre.spec_dist(id)),
        ensures
            post.wf(),
    {
        assert forall|i: int, j: int|
            0 <= i < post.user_rewards@.len() && 0 <= j < post.user_rewards@[
                i
            ].rewards.entries@.len() implies ({
            let en = #[trigger] post.user_rewards@[i].rewards.entries@[j];
            &&& 1 <= en.distribution_id <= post.distributions@.len()
            &&& en.accounted_puvp@ <= spec_dist_total(
                post.distributions@[en.distribution_id - 1],
            )
        }) by {
            let en = post.user_rewards@[i].rewards.entries@[j];
            assert(pre.user_rewards@[i].rewards.entries@[j] == en);
            if en.distribution_id == id {
                assert(en.accounted_puvp@ <= spec_dist_total(pre.spec_dist(id)));
            } else {
                assert(post.distributions@[en.distribution_id - 1] == pre.distributions@[
                    en.distribution_id - 1
                ]);
            }
        }
    }

    /// What `execute_fund` ensures, as one predicate over the pre and
    /// post states; the funding entry points build on it.
    pub open spec fn spec_fund_op_post(
        pre: RewardsEngine,
        post: RewardsEngine,
        block: BlockInfo,
        id: u64,
        amount: u128,
        total_power: u128,
        r: Result<(), RewardsError>,
    ) -> bool {
        &&& (post.wf())
        &&& (post.ownership == pre.ownership)
        &&& (post.count == pre.count)
        &&& (post.hooks@ == pre.hooks@)
        &&& (post.user_rewards@ == pre.user_rewards@)
        &&& (r matches Err(e) ==> post == pre && ((!pre.spec_has_dist(id) && e
                == (RewardsError::DistributionNotFound { id })) || (pre.spec_has_dist(id)
                && pre.spec_dist(id).spec_fund(block, amount, total_power) == Err::<
                DistributionState,
                RewardsError,
            >(e))))
        &&& (r is Ok ==> pre.spec_has_dist(id) && ({
                let f = pre.spec_dist(id).spec_fund(block, amount, total_power);
                &&& f is Ok
                &&& post.distributions@ == pre.distributions@.update(
                    id - 1,
                    f->Ok_0,
                )
            }))
    }

    /// Funds one distribution with a deposit at the block, restarting or
    /// topping up its window as its rate's restart policy says.
    pub fn execute_fund(&mut self, block: &BlockInfo, id: u64, amount: u128, total_power: u128)
        -> (r: Result<(), RewardsError>)
        requires
            old(self).wf(),
        ensures
            Self::spec_fund_op_post(*old(self), *final(self), *block, id, amount, total_power, r),
    {
        let idx = match self.find_dist_index(id) {
            Ok(i) => i,
            Err(e) => {
                return Err(e);
            },
        };
        let mut d = self.distributions[idx].duplicate();
        match d.fund(block, amount, total_power) {
            Ok(_) => (),
            Err(e) => {
                return Err(e);
            },
        }
        let ghost pre = *self;
        self.distributions.set(idx, d);
        proof {
            pre.spec_dist(id).lemma_fund_monotone(*block, amount, total_power, d);
            Self::lemma_wf_after_dist_update(pre, *self, id, d);
        }
        Ok(())
    }

    /// What `execute_fund_native` ensures, as one predicate over the pre and
    /// post states; the routing dispatcher is held to it too.
    pub open spec fn spec_fund_native_post(
        pre: RewardsEngine,
        post: RewardsEngine,
        block: BlockInfo,
        info: MessageInfo,
        id: u64,
        total_power: u128,
        r: Result<(), RewardsError>,
    ) -> bool {
        &&& (post.wf())
        &&& (post.ownership == pre.ownership)
        &&& (post.count == pre.count)
        &&& (post.hooks@ == pre.hooks@)
        &&& (post.user_rewards@ == pre.user_rewards@)
        &&& (r is Ok ==> pre.spec_has_dist(id))
        &&& (r matches Err(e) ==> post == pre)
        &&& (r matches Err(e) ==> (!pre.spec_has_dist(id) ==> e == (RewardsError::DistributionNotFound { id })))
        &&& (pre.spec_has_dist(id) ==> ({
                let d = pre.spec_dist(id);
                match d.denom {
                    Denom::Cw20(_) => r == Err::<(), RewardsError>(RewardsError::InvalidFunds),
                    Denom::Native(denom) => {
                        match crate::asset::spec_must_pay(info, denom@) {
                            Err(_) => r == Err::<(), RewardsError>(RewardsError::InvalidFunds),
                            Ok(amount) => {
                                match d.spec_fund(block, amount, total_power) {
                                    Err(e2) => r == Err::<(), RewardsError>(e2),
                                    Ok(d2) => r is Ok && post.distributions@ == pre.distributions@.update(id - 1, d2),
                                }
                            },
                        }
                    },
                }
            }))
    }

    /// Funds one distribution with the single attached native coin: the
    /// permissionless native funding path. Any mismatched, zero or multi-coin
    /// payment, or a fungible-token distribution, is rejected.
    pub fn execute_fund_native(
        &mut self,
        block: &BlockInfo,
        info: &MessageInfo,
        id: u64,
        total_power: u128,
    ) -> (r: Result<(), RewardsError>)
        requires
            old(self).wf(),
        ensures
            Self::spec_fund_native_post(*old(self), *final(self), *block, *info, id, total_power, r),
    {
        let idx = match self.find_dist_index(id) {
            Ok(i) => i,
            Err(e) => {
                return Err(e);
            },
        };
        let amount = match &self.distributions[idx].denom {
            Denom::Native(denom) => {
                match must_pay(info, denom) {
                    Ok(a) => a,
                    Err(_) => {
                        return Err(RewardsError::InvalidFunds);
                    },
                }
            },
            Denom::Cw20(_) => {
                return Err(RewardsError::InvalidFunds);
            },
        };
        self.execute_fund(block, id, amount, total_power)
    }

    /// What `execute_receive_cw20` ensures, as one predicate over the pre and
    /// post states; the routing dispatcher is held to it too.
    pub open spec fn spec_receive_cw20_post(
        pre: RewardsEngine,
        post: RewardsEngine,
        block: BlockInfo,
        info: MessageInfo,
        wrapper: Cw20ReceiveMsg,
        total_power: u128,
        r: Result<(), RewardsError>,
    ) -> bool {
        &&& (post.wf())
        &&& (post.ownership == pre.ownership)
        &&& (post.count == pre.count)
        &&& (post.hooks@ == pre.hooks@)
        &&& (post.user_rewards@ == pre.user_rewards@)
        &&& (r matches Err(e) ==> post == pre)
        &&& (({
                let id = (match wrapper.msg {
                    ReceiveCw20Msg::Fund(FundMsg { id }) => id,
                });
                if info.funds@.len() != 0 {
                    r == Err::<(), RewardsError>(RewardsError::NonPayable)
                } else if !pre.spec_has_dist(id) {
                    r == Err::<(), RewardsError>(RewardsError::DistributionNotFound { id })
                } else {
                    let d = pre.spec_dist(id);
                    match d.denom {
                        Denom::Native(_) => r == Err::<(), RewardsError>(
                            RewardsError::InvalidFunds,
                        ),
                        Denom::Cw20(addr) => {
                            if addr@ != info.sender@ {
                                r == Err::<(), RewardsError>(RewardsError::InvalidCw20)
                            } else {
                                match d.spec_fund(block, wrapper.amount, total_power) {
                                    Err(e2) => r == Err::<(), RewardsError>(e2),
                                    Ok(d2) => r is Ok && post.distributions@ == pre.distributions@.update(id - 1, d2),
                                }
                            }
                        },
                    }
                }
            }))
    }

    /// Funds a fungible-token distribution from a token transfer
    /// notification: only the configured token contract's own notification
    /// may fund it. Takes no native payment.
    pub fn execute_receive_cw20(
        &mut self,
        block: &BlockInfo,
        info: &MessageInfo,
        wrapper: &Cw20ReceiveMsg,
        total_power: u128,
    ) -> (r: Result<(), RewardsError>)
        requires
            old(self).wf(),
        ensures
            Self::spec_receive_cw20_post(*old(self), *final(self), *block, *info, *wrapper, total_power, r),
    {
        match nonpayable(info) {
            Ok(_) => (),
            Err(e) => {
                return Err(e);
            },
        }
        let id = match wrapper.msg {
            ReceiveCw20Msg::Fund(FundMsg { id }) => id,
        };
        let idx = match self.find_dist_index(id) {
            Ok(i) => i,
            Err(e) => {
                return Err(e);
            },
        };
        match &self.distributions[idx].denom {
            Denom::Native(_) => {
                return Err(RewardsError::InvalidFunds);
            },
            Denom::Cw20(addr) => {
                if !(*addr == info.sender) {
                    return Err(RewardsError::InvalidCw20);
                }
            },
        }
        self.execute_fund(block, id, wrapper.amount, total_power)
    }

    /// What `execute_withdraw` ensures, as one predicate over the pre and
    /// post states; the routing dispatcher is held to it too.
    pub open spec fn spec_withdraw_op_post(
        pre: RewardsEngine,
        post: RewardsEngine,
        block: BlockInfo,
        info: MessageInfo,
        id: u64,
        r: Result<TransferMsg, RewardsError>,
    ) -> bool {
        &&& (post.wf())
        &&& (post.ownership == pre.ownership)
        &&& (post.count == pre.count)
        &&& (post.hooks@ == pre.hooks@)
        &&& (post.user_rewards@ == pre.user_rewards@)
        &&& (r matches Err(e) ==> post == pre && (
                (info.funds@.len() != 0 && e == RewardsError::NonPayable)
                || (info.funds@.len() == 0 && !pre.ownership.spec_is_owner(info.sender@)
                    && (e == RewardsError::NotOwner || e == RewardsError::NoOwner))
                || (info.funds@.len() == 0 && pre.ownership.spec_is_owner(info.sender@)
                    && !pre.spec_has_dist(id) && e == (RewardsError::DistributionNotFound { id }))
                || (info.funds@.len() == 0 && pre.ownership.spec_is_owner(info.sender@)
                    && pre.spec_has_dist(id) && pre.spec_dist(id).spec_withdraw(
                    block,
                ) == Err::<(DistributionState, u128), RewardsError>(e))))
        &&& (r matches Ok(t) ==> info.funds@.len() == 0 && pre.ownership.spec_is_owner(
                info.sender@,
            ) && pre.spec_has_dist(id) && ({
                let w = pre.spec_dist(id).spec_withdraw(block);
                &&& w is Ok
                &&& post.distributions@ == pre.distributions@.update(
                    id - 1,
                    w->Ok_0.0,
                )
                &&& t.amount == w->Ok_0.1
                &&& t.recipient@ == pre.spec_dist(id).withdraw_destination@
                &&& t.denom == pre.spec_dist(id).denom
            }))
    }

    /// Withdraws the undistributed remainder of one distribution: owner
    /// only, rejected once the window has ended, and pays the clawback to
    /// the distribution's withdraw destination. Already-accrued rewards stay
    /// claimable. Takes no payment.
    pub fn execute_withdraw(&mut self, block: &BlockInfo, info: &MessageInfo, id: u64) -> (r:
        Result<TransferMsg, RewardsError>)
        requires
            old(self).wf(),
        ensures
            Self::spec_withdraw_op_post(*old(self), *final(self), *block, *info, id, r),
    {
        match nonpayable(info) {
            Ok(_) => (),
            Err(e) => {
                return Err(e);
            },
        }
        match self.ownership.assert_owner(&info.sender) {
            Ok(_) => (),
            Err(e) => {
                return Err(e);
            },
        }
        let idx = match self.find_dist_index(id) {
            Ok(i) => i,
            Err(e) => {
                return Err(e);
            },
        };
        let mut d = self.distributions[idx].duplicate();
        let clawback = match d.withdraw(block) {
            Ok(c) => c,
            Err(e) => {
                return Err(e);
            },
        };
        let recipient = d.withdraw_destination.clone();
        let denom = match &d.denom {
            Denom::Native(s) => Denom::Native(s.clone()),
            Denom::Cw20(s) => Denom::Cw20(s.clone()),
        };
        let ghost pre = *self;
        self.distributions.set(idx, d);
        proof {
            Self::lemma_wf_after_dist_update(pre, *self, id, d);
        }
        Ok(TransferMsg { recipient, amount: clawback, denom })
    }

    /// Routes future notifications from the hook caller to the distribution:
    /// afterwards the pair stands in the table, beside everything that was
    /// already there.
    fn subscribe_distribution_to_hook(&mut self, id: u64, hook_caller: &String)
        requires
            forall|i: int, j: int|
                0 <= i < j < old(self).hooks@.len() ==> old(self).hooks@[i].hook_caller@ != old(self).hooks@[j].hook_caller@,
        ensures
            spec_hook_pair_in(final(self).hooks@, hook_caller@, id),
            forall|i: int, j: int|
                0 <= i < j < final(self).hooks@.len() ==> final(self).hooks@[i].hook_caller@
                    != final(self).hooks@[j].hook_caller@,
            forall|i: int, j: int|
                0 <= i < final(self).hooks@.len() && 0 <= j < final(self).hooks@[
                    i
                ].distribution_ids@.len() ==> ((final(self).hooks@[i].hook_caller@ == hook_caller@
                && #[trigger] final(self).hooks@[i].distribution_ids@[j] == id)
                || spec_hook_pair_in(
                old(self).hooks@,
                final(self).hooks@[i].hook_caller@,
                final(self).hooks@[i].distribution_ids@[j],
            )),
            final(self).distributions@ == old(self).distributions@,
            final(self).user_rewards@ == old(self).user_rewards@,
            final(self).count == old(self).count,
            final(self).ownership == old(self).ownership,
    {
        match self.find_hook_index(hook_caller) {
            Some(hi) => {
                let mut ids: Vec<u64> = Vec::new();
                let mut k: usize = 0;
                while k < self.hooks[hi].distribution_ids.len()
                    invariant
                        hi < self.hooks@.len(),
                        k <= self.hooks@[hi as int].distribution_ids@.len(),
                        ids@ == self.hooks@[hi as int].distribution_ids@.take(k as int),
                    decreases self.hooks@[hi as int].distribution_ids@.len() - k,
                {
                    ids.push(self.hooks[hi].distribution_ids[k]);
                    k = k + 1;
                }
                proof {
                    assert(ids@ =~= self.hooks@[hi as int].distribution_ids@);
                }
                ids.push(id);
                let sub = HookSubscription {
                    hook_caller: self.hooks[hi].hook_caller.clone(),
                    distribution_ids: ids,
                };
                self.hooks.set(hi, sub);
                proof {
                    assert forall|i: int, j: int|
                        0 <= i < self.hooks@.len() && 0 <= j < self.hooks@[
                            i
                        ].distribution_ids@.len() && !(self.hooks@[i].hook_caller@ == hook_caller@
                        && #[trigger] self.hooks@[i].distribution_ids@[j] == id) implies
                        spec_hook_pair_in(
                        old(self).hooks@,
                        self.hooks@[i].hook_caller@,
                        self.hooks@[i].distribution_ids@[j],
                    ) by {
                        let x = self.hooks@[i].distribution_ids@[j];
                        if i == hi {
                            if j < old(self).hooks@[hi as int].distribution_ids@.len() {
                                assert(old(self).hooks@[hi as int].distribution_ids@[j] == x);
                            }
                        } else {
                            assert(old(self).hooks@[i].distribution_ids@[j] == x);
                        }
                    }
                    let last = old(self).hooks@[hi as int].distribution_ids@.len() as int;
                    assert(self.hooks@[hi as int].distribution_ids@[last] == id);
                }
                return ;
            },
            None => {
                let mut ids: Vec<u64> = Vec::new();
                ids.push(id);
                self.hooks.push(
                    HookSubscription { hook_caller: hook_caller.clone(), distribution_ids: ids },
                );
                proof {
                    let n = old(self).hooks@.len() as int;
                    assert forall|i: int, j: int|
                        0 <= i < self.hooks@.len() && 0 <= j < self.hooks@[
                            i
                        ].distribution_ids@.len() && !(self.hooks@[i].hook_caller@ == hook_caller@
                        && #[trigger] self.hooks@[i].distribution_ids@[j] == id) implies
                        spec_hook_pair_in(
                        old(self).hooks@,
                        self.hooks@[i].hook_caller@,
                        self.hooks@[i].distribution_ids@[j],
                    ) by {
                        let x = self.hooks@[i].distribution_ids@[j];
                        if i != n {
                            assert(old(self).hooks@[i].distribution_ids@[j] == x);
                        }
                    }
                    assert(self.hooks@[n].distribution_ids@[0] == id);
                }
                return ;
            },
        }
    }

    /// Stops routing the hook caller's notifications to the distribution:
    /// afterwards the pair is gone and everything else still stands.
    fn unsubscribe_distribution_from_hook(&mut self, id: u64, hook_caller: &String)
        requires
            forall|i: int, j: int|
                0 <= i < j < old(self).hooks@.len() ==> old(self).hooks@[i].hook_caller@ != old(self).hooks@[j].hook_caller@,
        ensures
            forall|i: int, j: int|
                0 <= i < j < final(self).hooks@.len() ==> final(self).hooks@[i].hook_caller@
                    != final(self).hooks@[j].hook_caller@,
            forall|i: int, j: int|
                0 <= i < final(self).hooks@.len() && 0 <= j < final(self).hooks@[
                    i
                ].distribution_ids@.len() ==> (!(final(self).hooks@[i].hook_caller@
                == hook_caller@ && #[trigger] final(self).hooks@[i].distribution_ids@[j] == id)
                && spec_hook_pair_in(
                old(self).hooks@,
                final(self).hooks@[i].hook_caller@,
                final(self).hooks@[i].distribution_ids@[j],
            )),
            final(self).distributions@ == old(self).distributions@,
            final(self).user_rewards@ == old(self).user_rewards@,
            final(self).count == old(self).count,
            final(self).ownership == old(self).ownership,
    {
        match self.find_hook_index(hook_caller) {
            Some(hi) => {
                let mut ids: Vec<u64> = Vec::new();
                let mut k: usize = 0;
                while k < self.hooks[hi].distribution_ids.len()
                    invariant
                        hi < self.hooks@.len(),
                        k <= self.hooks@[hi as int].distribution_ids@.len(),
                        forall|m: int|
                            0 <= m < ids@.len() ==> ids@[m] != id && exists|j2: int|
                                0 <= j2 < self.hooks@[hi as int].distribution_ids@.len()
                                    && self.hooks@[hi as int].distribution_ids@[j2] == ids@[m],
                    decreases self.hooks@[hi as int].distribution_ids@.len() - k,
                {
                    let x = self.hooks[hi].distribution_ids[k];
                    if x != id {
                        ids.push(x);
                    }
                    k = k + 1;
                }
                let sub = HookSubscription {
                    hook_caller: self.hooks[hi].hook_caller.clone(),
                    distribution_ids: ids,
                };
                self.hooks.set(hi, sub);
                proof {
                    assert forall|i: int, j: int|
                        0 <= i < self.hooks@.len() && 0 <= j < self.hooks@[
                            i
                        ].distribution_ids@.len() implies (!(self.hooks@[i].hook_caller@
                        == hook_caller@ && #[trigger] self.hooks@[i].distribution_ids@[j] == id)
                        && spec_hook_pair_in(
                        old(self).hooks@,
                        self.hooks@[i].hook_caller@,
                        self.hooks@[i].distribution_ids@[j],
                    )) by {
                        let x = self.hooks@[i].distribution_ids@[j];
                        if i == hi {
                            let j2 = choose|j2: int|
                                0 <= j2 < old(self).hooks@[hi as int].distribution_ids@.len()
                                    && old(self).hooks@[hi as int].distribution_ids@[j2] == x;
                            assert(old(self).hooks@[hi as int].distribution_ids@[j2] == x);
                        } else {
                            assert(old(self).hooks@[i].distribution_ids@[j] == x);
                            assert(old(self).hooks@[i].hook_caller@ != hook_caller@);
                        }
                    }
                }
                return ;
            },
            None => {
                proof {
                    assert forall|i: int, j: int|
                        0 <= i < self.hooks@.len() && 0 <= j < self.hooks@[
                            i
                        ].distribution_ids@.len() implies (!(self.hooks@[i].hook_caller@
                        == hook_caller@ && #[trigger] self.hooks@[i].distribution_ids@[j] == id)
                        && spec_hook_pair_in(
                        old(self).hooks@,
                        self.hooks@[i].hook_caller@,
                        self.hooks@[i].distribution_ids@[j],
                    )) by {
                        assert(self.hooks@[i].hook_caller@ != hook_caller@);
                    }
                }
            },
        }
    }

    /// The distribution a creation starts from: fresh epoch, nothing funded,
    /// the creator as withdraw destination when none is named.
    pub open spec fn spec_new_distribution(id: u64, create: CreateMsg, sender: String)
        -> DistributionState {
        DistributionState {
            id,
            denom: create.denom,
            active_epoch: Epoch {
                started_at: crate::time::Expiration::Never,
                ends_at: crate::time::Expiration::Never,
                emission_rate: create.emission_rate,
                total_earned_puvp: U256 { hi: 0, lo: 0 },
                last_updated_total_earned_puvp: crate::time::Expiration::Never,
            },
            vp_contract: create.vp_contract,
            hook_caller: create.hook_caller,
            funded_amount: 0,
            withdraw_destination: (match create.withdraw_destination {
                Some(w) => w,
                None => sender,
            }),
            historical_earned_puvp: U256 { hi: 0, lo: 0 },
        }
    }

    /// What `execute_create` ensures, as one predicate over the pre and
    /// post states; the routing dispatcher is held to it too.
    pub open spec fn spec_create_post(
        pre: RewardsEngine,
        post: RewardsEngine,
        block: BlockInfo,
        info: MessageInfo,
        create: CreateMsg,
        total_power: u128,
        r: Result<u64, RewardsError>,
    ) -> bool {
        &&& (post.wf())
        &&& (post.ownership == pre.ownership)
        &&& (post.user_rewards@ == pre.user_rewards@)
        &&& (r matches Err(_) ==> post == pre)
        &&& (r matches Err(e) ==> (!pre.ownership.spec_is_owner(info.sender@) ==> (e
                == RewardsError::NotOwner || e == RewardsError::NoOwner)))
        &&& (r matches Err(e) ==> (pre.ownership.spec_is_owner(info.sender@) && !create.emission_rate.spec_valid() ==> e
                == RewardsError::InvalidEmissionRateFieldZero))
        &&& (r matches Err(e) ==> (pre.ownership.spec_is_owner(info.sender@)
                && create.emission_rate.spec_valid() && pre.count == u64::MAX ==> e
                == RewardsError::Overflow))
        &&& (r matches Err(e) ==> (pre.ownership.spec_is_owner(info.sender@)
                && create.emission_rate.spec_valid() && pre.count < u64::MAX ==> ({
                let base = Self::spec_new_distribution(
                    (pre.count + 1) as u64,
                    create,
                    info.sender,
                );
                &&& info.funds@.len() != 0
                &&& (match create.denom {
                    Denom::Cw20(_) => e == RewardsError::NoFundsOnCw20Create,
                    Denom::Native(nd) => (match crate::asset::spec_must_pay(info, nd@) {
                        Err(pe) => e == pe,
                        Ok(a) => base.spec_fund(block, a, total_power) == Err::<
                            DistributionState,
                            RewardsError,
                        >(e),
                    }),
                })
            })))
        &&& ((pre.ownership.spec_is_owner(info.sender@) && create.emission_rate.spec_valid()
                && pre.count < u64::MAX && ({
                let base = Self::spec_new_distribution(
                    (pre.count + 1) as u64,
                    create,
                    info.sender,
                );
                info.funds@.len() == 0 || (create.denom matches Denom::Native(nd)
                    && crate::asset::spec_must_pay(info, nd@) matches Ok(a) && base.spec_fund(
                    block,
                    a,
                    total_power,
                ) is Ok)
            })) ==> r is Ok)
        &&& (r matches Ok(id) ==> ({
                let base = Self::spec_new_distribution(id, create, info.sender);
                &&& pre.ownership.spec_is_owner(info.sender@)
                &&& create.emission_rate.spec_valid()
                &&& id == pre.count + 1
                &&& post.count == id
                &&& spec_hook_pair_in(post.hooks@, create.hook_caller@, id)
                &&& (info.funds@.len() == 0 ==> post.distributions@ == pre.distributions@.push(base))
                &&& (info.funds@.len() != 0 ==> (create.denom matches Denom::Native(nd) && ({
                    let pay = crate::asset::spec_must_pay(info, nd@);
                    &&& pay is Ok
                    &&& base.spec_fund(block, pay->Ok_0, total_power) is Ok
                    &&& post.distributions@ == pre.distributions@.push(
                        base.spec_fund(block, pay->Ok_0, total_power)->Ok_0,
                    )
                })))
            }))
    }

    /// Creates a new rewards distribution: owner only. The next sequential
    /// id is allocated, the hook caller is subscribed, and attached native
    /// funds matching the denom start it distributing immediately; a
    /// fungible-token distribution may not be funded at creation. Returns
    /// the new id.
    pub fn execute_create(
        &mut self,
        block: &BlockInfo,
        info: &MessageInfo,
        create: CreateMsg,
        total_power: u128,
    ) -> (r: Result<u64, RewardsError>)
        requires
            old(self).wf(),
        ensures
            Self::spec_create_post(*old(self), *final(self), *block, *info, create, total_power, r),
    {
        match self.ownership.assert_owner(&info.sender) {
            Ok(_) => (),
            Err(e) => {
                return Err(e);
            },
        }
        match create.emission_rate.validate() {
            Ok(_) => (),
            Err(e) => {
                return Err(e);
            },
        }
        let id = match self.count.checked_add(1) {
            Some(v) => v,
            None => {
                return Err(RewardsError::Overflow);
            },
        };
        let ghost create0 = create;
        let hook_caller_copy = create.hook_caller.clone();
        let withdraw_destination = match create.withdraw_destination {
            Some(w) => w,
            None => info.sender.clone(),
        };
        let mut d = DistributionState {
            id,
            denom: create.denom,
            active_epoch: Epoch::new(create.emission_rate),
            vp_contract: create.vp_contract,
            hook_caller: create.hook_caller,
            funded_amount: 0,
            withdraw_destination,
            historical_earned_puvp: U256::zero(),
        };
        proof {
            vstd::arithmetic::mul::lemma_mul_by_zero_is_zero(d.active_epoch.spec_apu());
            assert(d == Self::spec_new_distribution(id, create0, info.sender));
        }
        if info.funds.len() > 0 {
            let amount = match &d.denom {
                Denom::Native(nd) => {
                    match must_pay(info, nd) {
                        Ok(a) => a,
                        Err(e) => {
                            return Err(e);
                        },
                    }
                },
                Denom::Cw20(_) => {
                    return Err(RewardsError::NoFundsOnCw20Create);
                },
            };
            match d.fund(block, amount, total_power) {
                Ok(_) => (),
                Err(e) => {
                    return Err(e);
                },
            }
        }
        let ghost pre = *self;
        self.count = id;
        self.distributions.push(d);
        self.subscribe_distribution_to_hook(id, &hook_caller_copy);
        proof {
            assert forall|i: int, j: int|
                0 <= i < self.hooks@.len() && 0 <= j < self.hooks@[
                    i
                ].distribution_ids@.len() implies ({
                let x = #[trigger] self.hooks@[i].distribution_ids@[j];
                &&& 1 <= x <= self.distributions@.len()
                &&& self.distributions@[x - 1].hook_caller@ == self.hooks@[i].hook_caller@
            }) by {
                let c = self.hooks@[i].hook_caller@;
                let x = self.hooks@[i].distribution_ids@[j];
                if c == hook_caller_copy@ && x == id {
                    assert(self.distributions@[x - 1] == d);
                } else {
                    let (i2, j2) = choose|i2: int, j2: int|
                        0 <= i2 < pre.hooks@.len() && 0 <= j2 < pre.hooks@[
                            i2
                        ].distribution_ids@.len() && pre.hooks@[i2].hook_caller@ == c
                            && pre.hooks@[i2].distribution_ids@[j2] == x;
                    assert(1 <= x <= pre.distributions@.len());
                    assert(self.distributions@[x - 1] == pre.distributions@[x - 1]);
                }
            }
        }
        Ok(id)
    }

    /// What `execute_update` ensures, as one predicate over the pre and
    /// post states; the routing dispatcher is held to it too.
    pub open spec fn spec_update_op_post(
        pre: RewardsEngine,
        post: RewardsEngine,
        block: BlockInfo,
        info: MessageInfo,
        id: u64,
        emission_rate: Option<EmissionRate>,
        vp_contract: Option<String>,
        hook_caller: Option<String>,
        withdraw_destination: Option<String>,
        total_power: u128,
        r: Result<(), RewardsError>,
    ) -> bool {
        &&& (post.wf())
        &&& (post.ownership == pre.ownership)
        &&& (post.count == pre.count)
        &&& (post.user_rewards@ == pre.user_rewards@)
        &&& (r matches Err(e) ==> post == pre && (
                (info.funds@.len() != 0 && e == RewardsError::NonPayable)
                || (info.funds@.len() == 0 && !pre.ownership.spec_is_owner(info.sender@)
                    && (e == RewardsError::NotOwner || e == RewardsError::NoOwner))
                || (info.funds@.len() == 0 && pre.ownership.spec_is_owner(info.sender@)
                    && !pre.spec_has_dist(id) && e == (RewardsError::DistributionNotFound { id }))
                || (info.funds@.len() == 0 && pre.ownership.spec_is_owner(info.sender@)
                    && pre.spec_has_dist(id) && (match emission_rate {
                        Some(rate) => !rate.spec_valid() && e
                            == RewardsError::InvalidEmissionRateFieldZero || rate.spec_valid()
                            && pre.spec_dist(id).spec_transition(block, rate, total_power)
                            == Err::<DistributionState, RewardsError>(e),
                        None => false,
                    }))))
        &&& (r is Ok ==> info.funds@.len() == 0 && pre.ownership.spec_is_owner(info.sender@)
                && pre.spec_has_dist(id) && ({
                let t = (match emission_rate {
                    Some(rate) => pre.spec_dist(id).spec_transition(
                        block,
                        rate,
                        total_power,
                    ),
                    None => Ok(pre.spec_dist(id)),
                });
                &&& t is Ok
                &&& post.distributions@ == pre.distributions@.update(
                    id - 1,
                    (DistributionState {
                        vp_contract: (match vp_contract {
                            Some(v) => v,
                            None => t->Ok_0.vp_contract,
                        }),
                        hook_caller: (match hook_caller {
                            Some(h) => h,
                            None => t->Ok_0.hook_caller,
                        }),
                        withdraw_destination: (match withdraw_destination {
                            Some(w) => w,
                            None => t->Ok_0.withdraw_destination,
                        }),
                        ..t->Ok_0
                    }),
                )
                &&& (hook_caller is None ==> post.hooks@ == pre.hooks@)
                &&& (hook_caller matches Some(h) ==> spec_hook_pair_in(
                    post.hooks@,
                    h@,
                    id,
                ) && (forall|c: Seq<char>|
                    c != h@ ==> !spec_hook_pair_in(post.hooks@, c, id)))
            }))
        &&& (r is Ok ==> (emission_rate matches Some(rate) ==> rate.spec_valid()))
    }

    /// Updates a distribution's configuration: owner only, no payment. A new
    /// emission rate triggers an epoch transition; a new hook caller moves
    /// the distribution's subscription; oracle and withdraw destination are
    /// replaced in place.
    pub fn execute_update(
        &mut self,
        block: &BlockInfo,
        info: &MessageInfo,
        id: u64,
        emission_rate: Option<EmissionRate>,
        vp_contract: Option<String>,
        hook_caller: Option<String>,
        withdraw_destination: Option<String>,
        total_power: u128,
    ) -> (r: Result<(), RewardsError>)
        requires
            old(self).wf(),
        ensures
            Self::spec_update_op_post(*old(self), *final(self), *block, *info, id, emission_rate, vp_contract, hook_caller, withdraw_destination, total_power, r),
    {
        match nonpayable(info) {
            Ok(_) => (),
            Err(e) => {
                return Err(e);
            },
        }
        match self.ownership.assert_owner(&info.sender) {
            Ok(_) => (),
            Err(e) => {
                return Err(e);
            },
        }
        let idx = match self.find_dist_index(id) {
            Ok(i) => i,
            Err(e) => {
                return Err(e);
            },
        };
        let mut d = self.distributions[idx].duplicate();
        let ghost d_transitioned = d;
        match &emission_rate {
            Some(rate) => {
                match rate.validate() {
                    Ok(_) => (),
                    Err(e) => {
                        return Err(e);
                    },
                }
                match d.transition_epoch(block, *rate, total_power) {
                    Ok(_) => (),
                    Err(e) => {
                        return Err(e);
                    },
                }
            },
            None => (),
        }
        proof {
            match emission_rate {
                Some(rate) => {
                    old(self).spec_dist(id).lemma_transition_monotone(
                        *block,
                        rate,
                        total_power,
                        d,
                    );
                },
                None => (),
            }
        }
        match vp_contract {
            Some(v) => {
                d.vp_contract = v;
            },
            None => (),
        }
        match withdraw_destination {
            Some(w) => {
                d.withdraw_destination = w;
            },
            None => (),
        }
        let ghost pre = *self;
        match hook_caller {
            Some(h) => {
                let prev_caller = d.hook_caller.clone();
                self.unsubscribe_distribution_from_hook(id, &prev_caller);
                d.hook_caller = h;
                let new_caller = d.hook_caller.clone();
                let ghost mid = *self;
                self.distributions.set(idx, d);
                let ghost mid2 = *self;
                self.subscribe_distribution_to_hook(id, &new_caller);
                proof {
                    assert forall|c2: Seq<char>| c2 != new_caller@ implies !spec_hook_pair_in(
                        self.hooks@,
                        c2,
                        id,
                    ) by {
                        if spec_hook_pair_in(self.hooks@, c2, id) {
                            let (i, j) = choose|i: int, j: int|
                                0 <= i < self.hooks@.len() && 0 <= j < self.hooks@[
                                    i
                                ].distribution_ids@.len() && self.hooks@[i].hook_caller@ == c2
                                    && self.hooks@[i].distribution_ids@[j] == id;
                            assert(spec_hook_pair_in(mid2.hooks@, c2, id));
                            let (i2, j2) = choose|i2: int, j2: int|
                                0 <= i2 < mid2.hooks@.len() && 0 <= j2 < mid2.hooks@[
                                    i2
                                ].distribution_ids@.len() && mid2.hooks@[i2].hook_caller@ == c2
                                    && mid2.hooks@[i2].distribution_ids@[j2] == id;
                            assert(!(c2 == prev_caller@ && id == id));
                            assert(spec_hook_pair_in(pre.hooks@, c2, id));
                            let (i3, j3) = choose|i3: int, j3: int|
                                0 <= i3 < pre.hooks@.len() && 0 <= j3 < pre.hooks@[
                                    i3
                                ].distribution_ids@.len() && pre.hooks@[i3].hook_caller@ == c2
                                    && pre.hooks@[i3].distribution_ids@[j3] == id;
                            assert(c2 == pre.distributions@[id - 1].hook_caller@);
                            assert(false);
                        }
                    }
                    assert forall|i: int, j: int|
                        0 <= i < self.hooks@.len() && 0 <= j < self.hooks@[
                            i
                        ].distribution_ids@.len() implies ({
                        let x = #[trigger] self.hooks@[i].distribution_ids@[j];
                        &&& 1 <= x <= self.distributions@.len()
                        &&& self.distributions@[x - 1].hook_caller@ == self.hooks@[i].hook_caller@
                    }) by {
                        let cc = self.hooks@[i].hook_caller@;
                        let x = self.hooks@[i].distribution_ids@[j];
                        if cc == new_caller@ && x == id {
                            assert(self.distributions@[id - 1].hook_caller@ == new_caller@);
                        } else {
                            assert(spec_hook_pair_in(mid2.hooks@, cc, x));
                            let (i2, j2) = choose|i2: int, j2: int|
                                0 <= i2 < mid2.hooks@.len() && 0 <= j2 < mid2.hooks@[
                                    i2
                                ].distribution_ids@.len() && mid2.hooks@[i2].hook_caller@ == cc
                                    && mid2.hooks@[i2].distribution_ids@[j2] == x;
                            assert(!(cc == prev_caller@ && x == id));
                            assert(spec_hook_pair_in(pre.hooks@, cc, x));
                            let (i3, j3) = choose|i3: int, j3: int|
                                0 <= i3 < pre.hooks@.len() && 0 <= j3 < pre.hooks@[
                                    i3
                                ].distribution_ids@.len() && pre.hooks@[i3].hook_caller@ == cc
                                    && pre.hooks@[i3].distribution_ids@[j3] == x;
                            assert(1 <= x <= pre.distributions@.len());
                            if x == id {
                                assert(cc == prev_caller@);
                                assert(false);
                            }
                            assert(self.distributions@[x - 1] == pre.distributions@[x - 1]);
                        }
                    }
                    assert forall|i: int, j: int|
                        0 <= i < self.user_rewards@.len() && 0 <= j < self.user_rewards@[
                            i
                        ].rewards.entries@.len() implies ({
                        let x = #[trigger] self.user_rewards@[i].rewards.entries@[j];
                        &&& 1 <= x.distribution_id <= self.distributions@.len()
                        &&& x.accounted_puvp@ <= spec_dist_total(
                            self.distributions@[x.distribution_id - 1],
                        )
                    }) by {
                        let x = self.user_rewards@[i].rewards.entries@[j];
                        if x.distribution_id == id {
                            assert(x.accounted_puvp@ <= spec_dist_total(pre.spec_dist(id)));
                            assert(spec_dist_total(self.distributions@[id - 1])
                                >= spec_dist_total(pre.spec_dist(id)));
                        } else {
                            assert(self.distributions@[x.distribution_id - 1]
                                == pre.distributions@[x.distribution_id - 1]);
                        }
                    }
                }
            },
            None => {
                self.distributions.set(idx, d);
                proof {
                    Self::lemma_wf_after_dist_update(pre, *self, id, d);
                }
            },
        }
        Ok(())
    }

    /// What `execute_update_owner` ensures, as one predicate over the pre and
    /// post states; the routing dispatcher is held to it too.
    pub open spec fn spec_update_owner_post(
        pre: RewardsEngine,
        post: RewardsEngine,
        block: BlockInfo,
        info: MessageInfo,
        action: OwnershipAction,
        r: Result<(), RewardsError>,
    ) -> bool {
        &&& (post.wf())
        &&& (post.count == pre.count)
        &&& (post.distributions@ == pre.distributions@)
        &&& (post.user_rewards@ == pre.user_rewards@)
        &&& (post.hooks@ == pre.hooks@)
        &&& (r matches Err(e) ==> post == pre && ((info.funds@.len() != 0 && e
                == RewardsError::NonPayable) || (info.funds@.len() == 0 && pre.ownership.spec_update(block, info.sender@, action) == Err::<
                crate::ownership::Ownership,
                RewardsError,
            >(e))))
        &&& (r is Ok ==> info.funds@.len() == 0 && pre.ownership.spec_update(
                block,
                info.sender@,
                action,
            ) == Ok::<crate::ownership::Ownership, RewardsError>(post.ownership))
    }

    /// Applies one step of the two-step ownership transfer protocol for the
    /// sender. No payment.
    pub fn execute_update_owner(
        &mut self,
        block: &BlockInfo,
        info: &MessageInfo,
        action: OwnershipAction,
    ) -> (r: Result<(), RewardsError>)
        requires
            old(self).wf(),
        ensures
            Self::spec_update_owner_post(*old(self), *final(self), *block, *info, action, r),
    {
        match nonpayable(info) {
            Ok(_) => (),
            Err(e) => {
                return Err(e);
            },
        }
        match self.ownership.update(block, &info.sender, action) {
            Ok(_) => Ok(()),
            Err(e) => Err(e),
        }
    }

    /// The distributions subscribed to a hook caller; empty when the caller
    /// is not registered.
    pub open spec fn spec_hook_ids(self, caller: Seq<char>) -> Seq<u64> {
        if exists|i: int| 0 <= i < self.hooks@.len() && self.hooks@[i].hook_caller@ == caller {
            self.hooks@[
                choose|i: int|
                    0 <= i < self.hooks@.len() && self.hooks@[i].hook_caller@ == caller
            ].distribution_ids@
        } else {
            Seq::empty()
        }
    }

    /// Whether a hook caller is registered at all.
    pub open spec fn spec_hook_registered(self, caller: Seq<char>) -> bool {
        exists|i: int| 0 <= i < self.hooks@.len() && self.hooks@[i].hook_caller@ == caller
    }

    /// The first oracle reading supplied for the distribution, if any.
    pub open spec fn spec_first_reading(s: Seq<VotingPowerReading>, id: u64) -> Option<
        VotingPowerReading,
    >
        decreases s.len(),
    {
        if s.len() == 0 {
            None
        } else if s[0].distribution_id == id {
            Some(s[0])
        } else {
            Self::spec_first_reading(s.drop_first(), id)
        }
    }

    /// With no match in the first `k` readings, the first match of the whole
    /// list is the first match past them.
    proof fn lemma_first_reading_skip(s: Seq<VotingPowerReading>, id: u64, k: int)
        requires
            0 <= k <= s.len(),
            forall|m: int| 0 <= m < k ==> (#[trigger] s[m]).distribution_id != id,
        ensures
            Self::spec_first_reading(s, id) == Self::spec_first_reading(s.skip(k), id),
        decreases k,
    {
        if k > 0 {
            assert(s.drop_first().skip(k - 1) =~= s.skip(k));
            Self::lemma_first_reading_skip(s.drop_first(), id, k - 1);
        } else {
            assert(s.skip(0) =~= s);
        }
    }

    /// The first oracle reading for the distribution, if one was supplied.
    fn reading_for(readings: &Vec<VotingPowerReading>, id: u64) -> (r: Option<VotingPowerReading>)
        ensures
            r == Self::spec_first_reading(readings@, id),
            r matches Some(v) ==> v.distribution_id == id && readings@.contains(v),
            r is None ==> forall|k: int|
                0 <= k < readings@.len() ==> (#[trigger] readings@[k]).distribution_id != id,
    {
        let mut k: usize = 0;
        while k < readings.len()
            invariant
                k <= readings@.len(),
                forall|m: int| 0 <= m < k ==> (#[trigger] readings@[m]).distribution_id != id,
            decreases readings@.len() - k,
        {
            if readings[k].distribution_id == id {
                proof {
                    Self::lemma_first_reading_skip(readings@, id, k as int);
                    assert(readings@.skip(k as int)[0] == readings@[k as int]);
                }
                return Some(readings[k]);
            }
            k = k + 1;
        }
        proof {
            Self::lemma_first_reading_skip(readings@, id, readings@.len() as int);
            assert(readings@.skip(readings@.len() as int) =~= Seq::<VotingPowerReading>::empty());
        }
        None
    }

    /// Whether the distribution's window is fully accounted for as of the
    /// block: a projection at this block adds nothing.
    pub open spec fn spec_settled_at(self, id: u64, block: BlockInfo) -> bool {
        &&& self.spec_has_dist(id)
        &&& self.spec_dist(id).active_epoch.spec_elapsed(block) == 0
    }

    /// Whether the participant is fully reconciled against the distribution:
    /// they hold an entry whose observed total equals the distribution's
    /// current cumulative total.
    pub open spec fn spec_fully_reconciled(self, address: Seq<char>, id: u64) -> bool {
        &&& self.spec_user_map(address).dom().contains(id)
        &&& self.spec_user_map(address)[id].accounted_puvp@ == spec_dist_total(
            self.spec_dist(id),
        )
    }

    /// Reconciles one address against every distribution subscribed to the
    /// sender, using the supplied oracle readings: the hook dispatcher's
    /// core. An unregistered sender is rejected; a missing reading or an
    /// arithmetic overflow aborts with the engine still well formed. The
    /// distributions already brought current stay current, which pays
    /// nothing by itself, and the host discards state on an error. Addresses
    /// already fully reconciled against a settled distribution stay fully
    /// reconciled.
    pub fn reconcile_for_hook_caller(
        &mut self,
        block: &BlockInfo,
        sender: &String,
        address: &String,
        readings: &Vec<VotingPowerReading>,
    ) -> (r: Result<(), RewardsError>)
        requires
            old(self).wf(),
        ensures
            final(self).wf(),
            final(self).ownership == old(self).ownership,
            final(self).count == old(self).count,
            final(self).hooks@ == old(self).hooks@,
            forall|a2: Seq<char>|
                a2 != address@ ==> final(self).spec_user_map(a2) == old(self).spec_user_map(a2),
            !old(self).spec_hook_registered(sender@) <==> r == Err::<(), RewardsError>(
                RewardsError::UnauthorizedHookCaller,
            ),
            !old(self).spec_hook_registered(sender@) ==> *final(self) == *old(self),
            r matches Err(e) ==> ((!old(self).spec_hook_registered(sender@) && e
                == RewardsError::UnauthorizedHookCaller) || (old(self).spec_hook_registered(
                sender@,
            ) && ((exists|k: int|
                0 <= k < old(self).spec_hook_ids(sender@).len() && Self::spec_first_reading(
                    readings@,
                    #[trigger] old(self).spec_hook_ids(sender@)[k],
                ) is None && e == (RewardsError::VotingPowerNotProvided {
                    id: old(self).spec_hook_ids(sender@)[k],
                })) || e == RewardsError::Overflow))),
            r is Ok ==> forall|k: int|
                0 <= k < old(self).spec_hook_ids(sender@).len() ==> final(self).spec_fully_reconciled(address@, #[trigger] old(self).spec_hook_ids(sender@)[k]),
            r is Ok ==> forall|k: int|
                0 <= k < old(self).spec_hook_ids(sender@).len() ==> final(self).spec_settled_at(
                    #[trigger] old(self).spec_hook_ids(sender@)[k],
                    *block,
                ),
            forall|a2: Seq<char>, id2: u64|
                old(self).spec_fully_reconciled(a2, id2) && old(self).spec_settled_at(
                    id2,
                    *block,
                ) ==> final(self).spec_fully_reconciled(a2, id2),
            forall|id2: u64|
                old(self).spec_settled_at(id2, *block) ==> final(self).spec_settled_at(
                    id2,
                    *block,
                ),
    {
        let hi = match self.find_hook_index(sender) {
            Some(i) => i,
            None => {
                return Err(RewardsError::UnauthorizedHookCaller);
            },
        };
        proof {
            let k = choose|i: int|
                0 <= i < self.hooks@.len() && self.hooks@[i].hook_caller@ == sender@;
            if k != hi {
                assert(false);
            }
            assert(self.spec_hook_ids(sender@) == self.hooks@[hi as int].distribution_ids@);
        }
        let ghost pre = *self;
        let n = self.hooks[hi].distribution_ids.len();
        let mut k: usize = 0;
        while k < n
            invariant
                pre == *old(self),
                pre.wf(),
                self.wf(),
                self.ownership == pre.ownership,
                self.count == pre.count,
                self.hooks@ == pre.hooks@,
                hi < self.hooks@.len(),
                n == self.hooks@[hi as int].distribution_ids@.len(),
                self.hooks@[hi as int].hook_caller@ == sender@,
                pre.spec_hook_ids(sender@) == self.hooks@[hi as int].distribution_ids@,
                k <= n,
                forall|a2: Seq<char>|
                    a2 != address@ ==> self.spec_user_map(a2) == pre.spec_user_map(a2),
                forall|m: int|
                    0 <= m < k ==> self.spec_fully_reconciled(
                        address@,
                        #[trigger] self.hooks@[hi as int].distribution_ids@[m],
                    ),
                forall|m: int|
                    0 <= m < k ==> self.spec_settled_at(
                        #[trigger] self.hooks@[hi as int].distribution_ids@[m],
                        *block,
                    ),
                forall|a2: Seq<char>, id2: u64|
                    pre.spec_fully_reconciled(a2, id2) && pre.spec_settled_at(id2, *block)
                        ==> self.spec_fully_reconciled(a2, id2),
                forall|id2: u64|
                    pre.spec_settled_at(id2, *block) ==> self.spec_settled_at(id2, *block),
            decreases n - k,
        {
            let id = self.hooks[hi].distribution_ids[k];
            let reading = match Self::reading_for(readings, id) {
                Some(v) => v,
                None => {
                    return Err(RewardsError::VotingPowerNotProvided { id });
                },
            };
            let ghost before = *self;
            match self.update_rewards(block, address, id, reading.power, reading.total_power) {
                Ok(_) => (),
                Err(e) => {
                    proof {
                        assert(before.spec_has_dist(id));
                        assert(e == RewardsError::Overflow);
                    }
                    return Err(e);
                },
            }
            proof {
                let rec = Self::spec_reconcile(
                    before.spec_dist(id),
                    Self::spec_map_entry(before.spec_user_map(address@), id),
                    *block,
                    reading.power,
                    reading.total_power,
                );
                let active = rec->Ok_0.0;
                let en = rec->Ok_0.1;
                before.spec_dist(id).active_epoch.lemma_projection_monotone(
                    *block,
                    reading.total_power,
                );
                lemma_u256_of(active);
                assert(spec_dist_total(self.spec_dist(id)) == before.spec_dist(
                    id,
                ).historical_earned_puvp@ + active);
                assert(self.spec_fully_reconciled(address@, id));
                assert(self.spec_dist(id).active_epoch.spec_elapsed(*block) == 0);
                assert(self.spec_settled_at(id, *block));
                assert forall|id2: u64| before.spec_settled_at(id2, *block) implies
                    self.spec_settled_at(id2, *block) by {
                    if id2 != id {
                        assert(self.spec_dist(id2) == before.spec_dist(id2));
                    }
                }
                assert forall|a2: Seq<char>, id2: u64|
                    before.spec_fully_reconciled(a2, id2) && before.spec_settled_at(
                    id2,
                    *block,
                ) implies self.spec_fully_reconciled(a2, id2) by {
                    if id2 == id {
                        before.spec_dist(id).active_epoch.lemma_no_accrual(
                            *block,
                            reading.total_power,
                        );
                        assert(active == before.spec_dist(
                            id,
                        ).active_epoch.total_earned_puvp@ as int);
                        assert(spec_dist_total(self.spec_dist(id)) == spec_dist_total(
                            before.spec_dist(id),
                        ));
                        if a2 == address@ {
                            assert(self.spec_user_map(a2)[id] == en);
                        } else {
                            assert(self.spec_user_map(a2) == before.spec_user_map(a2));
                        }
                    } else {
                        assert(self.spec_dist(id2) == before.spec_dist(id2));
                        if a2 == address@ {
                            assert(self.spec_user_map(a2) == before.spec_user_map(
                                a2,
                            ).insert(id, en));
                            assert(self.spec_user_map(a2)[id2] == before.spec_user_map(
                                a2,
                            )[id2]);
                        } else {
                            assert(self.spec_user_map(a2) == before.spec_user_map(a2));
                        }
                    }
                }
                assert forall|m: int| 0 <= m < k + 1 implies self.spec_fully_reconciled(
                    address@,
                    #[trigger] self.hooks@[hi as int].distribution_ids@[m],
                ) by {
                    let mid = self.hooks@[hi as int].distribution_ids@[m];
                    if mid == id {
                    } else {
                        assert(before.spec_fully_reconciled(address@, mid));
                        assert(self.spec_dist(mid) == before.spec_dist(mid));
                        assert(self.spec_user_map(address@)[mid] == before.spec_user_map(
                            address@,
                        )[mid]);
                    }
                }
                assert forall|m: int| 0 <= m < k + 1 implies self.spec_settled_at(
                    #[trigger] self.hooks@[hi as int].distribution_ids@[m],
                    *block,
                ) by {
                    let mid = self.hooks@[hi as int].distribution_ids@[m];
                    if mid != id {
                        assert(before.spec_settled_at(mid, *block));
                        assert(self.spec_dist(mid) == before.spec_dist(mid));
                    }
                }
            }
            k = k + 1;
        }
        Ok(())
    }

    /// What `execute_stake_changed` ensures, as one predicate over the pre and
    /// post states; the routing dispatcher is held to it too.
    pub open spec fn spec_stake_changed_post(
        pre: RewardsEngine,
        post: RewardsEngine,
        block: BlockInfo,
        info: MessageInfo,
        msg: StakeChangedHookMsg,
        readings: Seq<VotingPowerReading>,
        r: Result<(), RewardsError>,
    ) -> bool {
        &&& (post.wf())
        &&& (post.ownership == pre.ownership)
        &&& (post.count == pre.count)
        &&& (post.hooks@ == pre.hooks@)
        &&& (({
                let addr = (match msg {
                    StakeChangedHookMsg::Stake { addr } => addr,
                    StakeChangedHookMsg::Unstake { addr } => addr,
                });
                &&& (forall|a2: Seq<char>|
                    a2 != addr@ ==> post.spec_user_map(a2) == pre.spec_user_map(a2))
                &&& (!pre.spec_hook_registered(info.sender@) <==> r == Err::<
                    (),
                    RewardsError,
                >(RewardsError::UnauthorizedHookCaller))
                &&& (r is Ok ==> forall|k: int|
                    0 <= k < pre.spec_hook_ids(info.sender@).len() ==> post.spec_fully_reconciled(
                        addr@,
                        #[trigger] pre.spec_hook_ids(info.sender@)[k],
                    ))
                &&& (r matches Err(e) ==> ((!pre.spec_hook_registered(info.sender@) && e
                    == RewardsError::UnauthorizedHookCaller) || (pre.spec_hook_registered(
                    info.sender@,
                ) && ((exists|k: int|
                    0 <= k < pre.spec_hook_ids(info.sender@).len()
                        && Self::spec_first_reading(
                        readings,
                        #[trigger] pre.spec_hook_ids(info.sender@)[k],
                    ) is None && e == (RewardsError::VotingPowerNotProvided {
                        id: pre.spec_hook_ids(info.sender@)[k],
                    })) || e == RewardsError::Overflow))))
            }))
    }

    /// Handles a staking contract's stake-changed notification: reconciles
    /// the affected address against every distribution subscribed to the
    /// sender. Any sender but a registered hook caller is rejected.
    pub fn execute_stake_changed(
        &mut self,
        block: &BlockInfo,
        info: &MessageInfo,
        msg: &StakeChangedHookMsg,
        readings: &Vec<VotingPowerReading>,
    ) -> (r: Result<(), RewardsError>)
        requires
            old(self).wf(),
        ensures
            Self::spec_stake_changed_post(*old(self), *final(self), *block, *info, *msg, readings@, r),
    {
        let addr = match msg {
            StakeChangedHookMsg::Stake { addr } => addr,
            StakeChangedHookMsg::Unstake { addr } => addr,
        };
        self.reconcile_for_hook_caller(block, &info.sender, addr, readings)
    }

    /// What `execute_nft_stake_changed` ensures, as one predicate over the pre and
    /// post states; the routing dispatcher is held to it too.
    pub open spec fn spec_nft_stake_changed_post(
        pre: RewardsEngine,
        post: RewardsEngine,
        block: BlockInfo,
        info: MessageInfo,
        msg: NftStakeChangedHookMsg,
        readings: Seq<VotingPowerReading>,
        r: Result<(), RewardsError>,
    ) -> bool {
        &&& (post.wf())
        &&& (post.ownership == pre.ownership)
        &&& (post.count == pre.count)
        &&& (post.hooks@ == pre.hooks@)
        &&& (({
                let addr = (match msg {
                    NftStakeChangedHookMsg::Stake { addr, .. } => addr,
                    NftStakeChangedHookMsg::Unstake { addr, .. } => addr,
                });
                &&& (forall|a2: Seq<char>|
                    a2 != addr@ ==> post.spec_user_map(a2) == pre.spec_user_map(a2))
                &&& (!pre.spec_hook_registered(info.sender@) <==> r == Err::<
                    (),
                    RewardsError,
                >(RewardsError::UnauthorizedHookCaller))
                &&& (r is Ok ==> forall|k: int|
                    0 <= k < pre.spec_hook_ids(info.sender@).len() ==> post.spec_fully_reconciled(
                        addr@,
                        #[trigger] pre.spec_hook_ids(info.sender@)[k],
                    ))
                &&& (r matches Err(e) ==> ((!pre.spec_hook_registered(info.sender@) && e
                    == RewardsError::UnauthorizedHookCaller) || (pre.spec_hook_registered(
                    info.sender@,
                ) && ((exists|k: int|
                    0 <= k < pre.spec_hook_ids(info.sender@).len()
                        && Self::spec_first_reading(
                        readings,
                        #[trigger] pre.spec_hook_ids(info.sender@)[k],
                    ) is None && e == (RewardsError::VotingPowerNotProvided {
                        id: pre.spec_hook_ids(info.sender@)[k],
                    })) || e == RewardsError::Overflow))))
            }))
    }

    /// Handles an NFT staking contract's stake-changed notification:
    /// reconciles the affected address against every distribution subscribed
    /// to the sender. Any sender but a registered hook caller is rejected.
    pub fn execute_nft_stake_changed(
        &mut self,
        block: &BlockInfo,
        info: &MessageInfo,
        msg: &NftStakeChangedHookMsg,
        readings: &Vec<VotingPowerReading>,
    ) -> (r: Result<(), RewardsError>)
        requires
            old(self).wf(),
        ensures
            Self::spec_nft_stake_changed_post(*old(self), *final(self), *block, *info, *msg, readings@, r),
    {
        let addr = match msg {
            NftStakeChangedHookMsg::Stake { addr, .. } => addr,
            NftStakeChangedHookMsg::Unstake { addr, .. } => addr,
        };
        self.reconcile_for_hook_caller(block, &info.sender, addr, readings)
    }

    /// What `execute_membership_changed` ensures, as one predicate over the pre and
    /// post states; the routing dispatcher is held to it too.
    pub open spec fn spec_membership_changed_post(
        pre: RewardsEngine,
        post: RewardsEngine,
        block: BlockInfo,
        info: MessageInfo,
        msg: MemberChangedHookMsg,
        readings: Seq<VotingPowerReading>,
        r: Result<(), RewardsError>,
    ) -> bool {
        &&& (post.wf())
        &&& (post.ownership == pre.ownership)
        &&& (post.count == pre.count)
        &&& (post.hooks@ == pre.hooks@)
        &&& (forall|a2: Seq<char>|
                (forall|m: int|
                    0 <= m < msg.diffs@.len() ==> (#[trigger] msg.diffs@[m]).key@ != a2) ==> post.spec_user_map(a2) == pre.spec_user_map(a2))
        &&& (msg.diffs@.len() > 0 && !pre.spec_hook_registered(info.sender@) ==> r == Err::<
            (),
            RewardsError,
        >(RewardsError::UnauthorizedHookCaller))
        &&& (r matches Err(e) ==> ((!pre.spec_hook_registered(info.sender@) && e
                == RewardsError::UnauthorizedHookCaller) || (pre.spec_hook_registered(
                info.sender@,
            ) && ((exists|k: int|
                0 <= k < pre.spec_hook_ids(info.sender@).len() && Self::spec_first_reading(
                    readings,
                    #[trigger] pre.spec_hook_ids(info.sender@)[k],
                ) is None && e == (RewardsError::VotingPowerNotProvided {
                    id: pre.spec_hook_ids(info.sender@)[k],
                })) || e == RewardsError::Overflow))))
        &&& (r is Ok ==> forall|m: int, k: int|
                0 <= m < msg.diffs@.len() && 0 <= k < pre.spec_hook_ids(
                    info.sender@,
                ).len() ==> post.spec_fully_reconciled(
                    (#[trigger] msg.diffs@[m]).key@,
                    #[trigger] pre.spec_hook_ids(info.sender@)[k],
                ))
    }

    /// Handles a membership contract's members-changed notification:
    /// reconciles every affected address against every distribution
    /// subscribed to the sender. Any sender but a registered hook caller is
    /// rejected.
    pub fn execute_membership_changed(
        &mut self,
        block: &BlockInfo,
        info: &MessageInfo,
        msg: &MemberChangedHookMsg,
        readings: &Vec<VotingPowerReading>,
    ) -> (r: Result<(), RewardsError>)
        requires
            old(self).wf(),
        ensures
            Self::spec_membership_changed_post(*old(self), *final(self), *block, *info, *msg, readings@, r),
    {
        let ghost pre = *self;
        let mut m: usize = 0;
        while m < msg.diffs.len()
            invariant
                pre == *old(self),
                pre.wf(),
                self.wf(),
                self.ownership == pre.ownership,
                self.count == pre.count,
                self.hooks@ == pre.hooks@,
                m <= msg.diffs@.len(),
                forall|a2: Seq<char>|
                    (forall|m2: int|
                        0 <= m2 < msg.diffs@.len() ==> (#[trigger] msg.diffs@[m2]).key@ != a2)
                        ==> self.spec_user_map(a2) == pre.spec_user_map(a2),
                m > 0 ==> pre.spec_hook_registered(info.sender@),
                self.spec_hook_registered(info.sender@) == pre.spec_hook_registered(info.sender@),
                self.spec_hook_ids(info.sender@) == pre.spec_hook_ids(info.sender@),
                forall|m2: int, k: int|
                    0 <= m2 < m && 0 <= k < pre.spec_hook_ids(info.sender@).len()
                        ==> self.spec_fully_reconciled(
                        (#[trigger] msg.diffs@[m2]).key@,
                        #[trigger] pre.spec_hook_ids(info.sender@)[k],
                    ),
                m > 0 ==> forall|k: int|
                    0 <= k < pre.spec_hook_ids(info.sender@).len() ==> self.spec_settled_at(
                        #[trigger] pre.spec_hook_ids(info.sender@)[k],
                        *block,
                    ),
            decreases msg.diffs@.len() - m,
        {
            let ghost b = *self;
            match self.reconcile_for_hook_caller(block, &info.sender, &msg.diffs[m].key, readings)
            {
                Ok(_) => (),
                Err(e) => {
                    return Err(e);
                },
            }
            proof {
                assert(b.spec_hook_ids(info.sender@) == pre.spec_hook_ids(info.sender@));
                assert forall|m2: int, k: int|
                    0 <= m2 < m + 1 && 0 <= k < pre.spec_hook_ids(info.sender@).len() implies
                    self.spec_fully_reconciled(
                        (#[trigger] msg.diffs@[m2]).key@,
                        #[trigger] pre.spec_hook_ids(info.sender@)[k],
                    ) by {
                    let id2 = pre.spec_hook_ids(info.sender@)[k];
                    if m2 == m {
                        assert(self.spec_fully_reconciled(msg.diffs@[m2].key@, id2));
                    } else {
                        assert(b.spec_fully_reconciled(msg.diffs@[m2].key@, id2));
                        assert(b.spec_settled_at(id2, *block));
                    }
                }
            }
            m = m + 1;
        }
        Ok(())
    }

    /// The page bounds a listing query uses: the start index after the
    /// cursor, and the page length under the default and maximum limits.
    pub open spec fn spec_page(self, start_after: Option<u64>, limit: Option<u32>) -> (int, int) {
        let s = (match start_after {
            Some(c) => if c < self.distributions@.len() as u64 {
                c as int
            } else {
                self.distributions@.len() as int
            },
            None => 0,
        });
        let l = (match limit {
            Some(l) => if l < crate::MAX_LIMIT {
                l as int
            } else {
                crate::MAX_LIMIT as int
            },
            None => crate::DEFAULT_LIMIT as int,
        });
        let e = if s + l <= self.distributions@.len() {
            s + l
        } else {
            self.distributions@.len() as int
        };
        (s, e)
    }

    /// One distribution's full state, by id.
    pub fn query_distribution(&self, id: u64) -> (r: Result<DistributionState, RewardsError>)
        requires
            self.wf(),
        ensures
            r matches Ok(d) ==> self.spec_has_dist(id) && d == self.spec_dist(id),
            r matches Err(e) ==> !self.spec_has_dist(id) && e == (RewardsError::DistributionNotFound { id }),
    {
        let idx = match self.find_dist_index(id) {
            Ok(i) => i,
            Err(e) => {
                return Err(e);
            },
        };
        Ok(self.distributions[idx].duplicate())
    }

    /// A page of distributions in ascending id order, after an exclusive
    /// cursor, at most the requested or default page size.
    pub fn query_distributions(&self, start_after: Option<u64>, limit: Option<u32>) -> (r:
        DistributionsResponse)
        requires
            self.wf(),
        ensures
            ({
                let (s, e) = self.spec_page(start_after, limit);
                &&& r.distributions@.len() == e - s
                &&& forall|k: int|
                    0 <= k < e - s ==> r.distributions@[k] == self.distributions@[s + k]
            }),
    {
        let s: usize = match start_after {
            Some(cursor) => {
                if (cursor as u128) < (self.distributions.len() as u128) {
                    cursor as usize
                } else {
                    self.distributions.len()
                }
            },
            None => 0,
        };
        let l: usize = match limit {
            Some(l) => if l < crate::MAX_LIMIT {
                l as usize
            } else {
                crate::MAX_LIMIT as usize
            },
            None => crate::DEFAULT_LIMIT as usize,
        };
        let e: usize = if self.distributions.len() - s >= l {
            s + l
        } else {
            self.distributions.len()
        };
        let mut rows: Vec<DistributionState> = Vec::new();
        let mut k: usize = s;
        while k < e
            invariant
                s <= k <= e <= self.distributions@.len(),
                rows@.len() == k - s,
                forall|m: int| 0 <= m < k - s ==> rows@[m] == self.distributions@[s + m],
            decreases e - k,
        {
            rows.push(self.distributions[k].duplicate());
            k = k + 1;
        }
        DistributionsResponse { distributions: rows }
    }

    /// The ownership record.
    pub fn query_ownership(&self) -> (r: Ownership)
        ensures
            r == self.ownership,
    {
        Ownership {
            owner: match &self.ownership.owner {
                Some(s) => Some(s.clone()),
                None => None,
            },
            pending_owner: match &self.ownership.pending_owner {
                Some(s) => Some(s.clone()),
                None => None,
            },
            pending_expiry: self.ownership.pending_expiry,
        }
    }

    /// What answering a pending-rewards query means. On success the page has
    /// one row per distribution after the cursor, each pinned to the first
    /// supplied reading for its id: banked pending plus newly accrued, by the
    /// same arithmetic a claim uses. An error is owed exactly when some page
    /// id has no reading (`VotingPowerNotProvided` for it) or its
    /// reconciliation fails; with a reading and a sound reconciliation for
    /// every page id, success is owed.
    pub open spec fn spec_pending_rewards_post(
        self,
        block: BlockInfo,
        address: Seq<char>,
        start_after: Option<u64>,
        limit: Option<u32>,
        readings: Seq<VotingPowerReading>,
        r: Result<PendingRewardsResponse, RewardsError>,
    ) -> bool {
        let (s, e) = self.spec_page(start_after, limit);
        &&& (match r {
            Ok(resp) => {
                &&& resp.pending_rewards@.len() == e - s
                &&& forall|k: int|
                    0 <= k < e - s ==> ({
                        let id = (s + k + 1) as u64;
                        let row = #[trigger] resp.pending_rewards@[k];
                        &&& row.id == id
                        &&& row.denom == self.spec_dist(id).denom
                        &&& Self::spec_first_reading(readings, id) matches Some(v)
                            && Self::spec_reconcile(
                            self.spec_dist(id),
                            Self::spec_map_entry(self.spec_user_map(address), id),
                            block,
                            v.power,
                            v.total_power,
                        ) matches Ok(x) && row.pending_rewards == x.1.pending
                    })
            },
            Err(err) => exists|id: u64|
                s + 1 <= id <= e && (match #[trigger] Self::spec_first_reading(readings, id) {
                    None => err == (RewardsError::VotingPowerNotProvided { id }),
                    Some(v) => Self::spec_reconcile(
                        self.spec_dist(id),
                        Self::spec_map_entry(self.spec_user_map(address), id),
                        block,
                        v.power,
                        v.total_power,
                    ) == Err::<(int, RewardEntry), RewardsError>(err),
                }),
        })
        &&& ((forall|id: u64|
            s + 1 <= id <= e ==> (match #[trigger] Self::spec_first_reading(readings, id) {
                Some(v) => Self::spec_reconcile(
                    self.spec_dist(id),
                    Self::spec_map_entry(self.spec_user_map(address), id),
                    block,
                    v.power,
                    v.total_power,
                ) is Ok,
                None => false,
            })) ==> r is Ok)
    }

    /// The address's claimable rewards over a page of distributions, as of
    /// the block: banked pending plus newly accrued, computed by the same
    /// arithmetic a claim uses, without touching any state.
    pub fn query_pending_rewards(
        &self,
        block: &BlockInfo,
        address: &String,
        start_after: Option<u64>,
        limit: Option<u32>,
        readings: &Vec<VotingPowerReading>,
    ) -> (r: Result<PendingRewardsResponse, RewardsError>)
        requires
            self.wf(),
        ensures
            self.spec_pending_rewards_post(*block, address@, start_after, limit, readings@, r),
    {
        let s: usize = match start_after {
            Some(cursor) => {
                if (cursor as u128) < (self.distributions.len() as u128) {
                    cursor as usize
                } else {
                    self.distributions.len()
                }
            },
            None => 0,
        };
        let l: usize = match limit {
            Some(l) => if l < crate::MAX_LIMIT {
                l as usize
            } else {
                crate::MAX_LIMIT as usize
            },
            None => crate::DEFAULT_LIMIT as usize,
        };
        let e: usize = if self.distributions.len() - s >= l {
            s + l
        } else {
            self.distributions.len()
        };
        let mut rows: Vec<DistributionPendingRewards> = Vec::new();
        let mut k: usize = s;
        while k < e
            invariant
                self.wf(),
                (s as int, e as int) == self.spec_page(start_after, limit),
                s <= k <= e <= self.distributions@.len(),
                rows@.len() == k - s,
                forall|m: int|
                    0 <= m < k - s ==> ({
                        let id = (s + m + 1) as u64;
                        let row = #[trigger] rows@[m];
                        &&& row.id == id
                        &&& row.denom == self.spec_dist(id).denom
                        &&& Self::spec_first_reading(readings@, id) matches Some(v)
                            && Self::spec_reconcile(
                            self.spec_dist(id),
                            Self::spec_map_entry(self.spec_user_map(address@), id),
                            *block,
                            v.power,
                            v.total_power,
                        ) matches Ok(x) && row.pending_rewards == x.1.pending
                    }),
            decreases e - k,
        {
            let id = (k as u64) + 1;
            let reading = match Self::reading_for(readings, id) {
                Some(v) => v,
                None => {
                    return Err(RewardsError::VotingPowerNotProvided { id });
                },
            };
            let prev = self.read_prev_entry(address, id);
            let (_, en) = match Self::compute_reconcile(
                &self.distributions[k],
                prev,
                block,
                reading.power,
                reading.total_power,
            ) {
                Ok(x) => x,
                Err(e2) => {
                    return Err(e2);
                },
            };
            let denom = match &self.distributions[k].denom {
                Denom::Native(sd) => Denom::Native(sd.clone()),
                Denom::Cw20(sd) => Denom::Cw20(sd.clone()),
            };
            rows.push(DistributionPendingRewards { id, denom, pending_rewards: en.pending });
            k = k + 1;
        }
        Ok(PendingRewardsResponse { pending_rewards: rows })
    }

    /// Routes one operation to its handler and is held to that handler's
    /// post predicate, arm by arm. The oracle readings serve whichever
    /// distributions the operation touches; funding paths and a creation
    /// that attaches funds demand a reading for their distribution — a
    /// missing one is rejected rather than treated as zero power. Claim and
    /// withdraw answer with exactly one transfer instruction, everything
    /// else with none.
    pub fn execute(
        &mut self,
        block: &BlockInfo,
        info: &MessageInfo,
        execute_msg: ExecuteMsg,
        readings: &Vec<VotingPowerReading>,
    ) -> (r: Result<Response, RewardsError>)
        requires
            old(self).wf(),
        ensures
            final(self).wf(),
            !(execute_msg is UpdateOwnership) ==> final(self).ownership == old(self).ownership,
            !(execute_msg is Create) ==> final(self).count == old(self).count,
            r matches Ok(resp) ==> resp.transfers@.len() == (match execute_msg {
                ExecuteMsg::Claim { .. } => 1int,
                ExecuteMsg::Withdraw { .. } => 1int,
                _ => 0int,
            }),
            (match execute_msg {
                ExecuteMsg::StakeChangeHook(hook_msg) => (match r {
                    Ok(_) => Self::spec_stake_changed_post(
                        *old(self),
                        *final(self),
                        *block,
                        *info,
                        hook_msg,
                        readings@,
                        Ok(()),
                    ),
                    Err(e) => Self::spec_stake_changed_post(
                        *old(self),
                        *final(self),
                        *block,
                        *info,
                        hook_msg,
                        readings@,
                        Err(e),
                    ),
                }),
                ExecuteMsg::NftStakeChangeHook(hook_msg) => (match r {
                    Ok(_) => Self::spec_nft_stake_changed_post(
                        *old(self),
                        *final(self),
                        *block,
                        *info,
                        hook_msg,
                        readings@,
                        Ok(()),
                    ),
                    Err(e) => Self::spec_nft_stake_changed_post(
                        *old(self),
                        *final(self),
                        *block,
                        *info,
                        hook_msg,
                        readings@,
                        Err(e),
                    ),
                }),
                ExecuteMsg::MemberChangedHook(hook_msg) => (match r {
                    Ok(_) => Self::spec_membership_changed_post(
                        *old(self),
                        *final(self),
                        *block,
                        *info,
                        hook_msg,
                        readings@,
                        Ok(()),
                    ),
                    Err(e) => Self::spec_membership_changed_post(
                        *old(self),
                        *final(self),
                        *block,
                        *info,
                        hook_msg,
                        readings@,
                        Err(e),
                    ),
                }),
                ExecuteMsg::UpdateOwnership(action) => (match r {
                    Ok(_) => Self::spec_update_owner_post(
                        *old(self),
                        *final(self),
                        *block,
                        *info,
                        action,
                        Ok(()),
                    ),
                    Err(e) => Self::spec_update_owner_post(
                        *old(self),
                        *final(self),
                        *block,
                        *info,
                        action,
                        Err(e),
                    ),
                }),
                ExecuteMsg::Receive(wrapper) => ({
                    let id = (match wrapper.msg {
                        ReceiveCw20Msg::Fund(FundMsg { id }) => id,
                    });
                    match Self::spec_first_reading(readings@, id) {
                        None => r == Err::<Response, RewardsError>(
                            RewardsError::VotingPowerNotProvided { id },
                        ) && *final(self) == *old(self),
                        Some(v) => (match r {
                            Ok(_) => Self::spec_receive_cw20_post(
                                *old(self),
                                *final(self),
                                *block,
                                *info,
                                wrapper,
                                v.total_power,
                                Ok(()),
                            ),
                            Err(e) => Self::spec_receive_cw20_post(
                                *old(self),
                                *final(self),
                                *block,
                                *info,
                                wrapper,
                                v.total_power,
                                Err(e),
                            ),
                        }),
                    }
                }),
                ExecuteMsg::Create(create) => ({
                    if old(self).count == u64::MAX {
                        r == Err::<Response, RewardsError>(RewardsError::Overflow) && *final(self)
                            == *old(self)
                    } else {
                        let id = (old(self).count + 1) as u64;
                        if info.funds@.len() == 0 {
                            match r {
                                Ok(_) => Self::spec_create_post(
                                    *old(self),
                                    *final(self),
                                    *block,
                                    *info,
                                    create,
                                    0,
                                    Ok(id),
                                ),
                                Err(e) => Self::spec_create_post(
                                    *old(self),
                                    *final(self),
                                    *block,
                                    *info,
                                    create,
                                    0,
                                    Err(e),
                                ),
                            }
                        } else {
                            match Self::spec_first_reading(readings@, id) {
                                None => r == Err::<Response, RewardsError>(
                                    RewardsError::VotingPowerNotProvided { id },
                                ) && *final(self) == *old(self),
                                Some(v) => (match r {
                                    Ok(_) => Self::spec_create_post(
                                        *old(self),
                                        *final(self),
                                        *block,
                                        *info,
                                        create,
                                        v.total_power,
                                        Ok(id),
                                    ),
                                    Err(e) => Self::spec_create_post(
                                        *old(self),
                                        *final(self),
                                        *block,
                                        *info,
                                        create,
                                        v.total_power,
                                        Err(e),
                                    ),
                                }),
                            }
                        }
                    }
                }),
                ExecuteMsg::Update {
                    id,
                    emission_rate,
                    vp_contract,
                    hook_caller,
                    withdraw_destination,
                } => ({
                    if emission_rate is Some {
                        match Self::spec_first_reading(readings@, id) {
                            None => r == Err::<Response, RewardsError>(
                                RewardsError::VotingPowerNotProvided { id },
                            ) && *final(self) == *old(self),
                            Some(v) => (match r {
                                Ok(_) => Self::spec_update_op_post(
                                    *old(self),
                                    *final(self),
                                    *block,
                                    *info,
                                    id,
                                    emission_rate,
                                    vp_contract,
                                    hook_caller,
                                    withdraw_destination,
                                    v.total_power,
                                    Ok(()),
                                ),
                                Err(e) => Self::spec_update_op_post(
                                    *old(self),
                                    *final(self),
                                    *block,
                                    *info,
                                    id,
                                    emission_rate,
                                    vp_contract,
                                    hook_caller,
                                    withdraw_destination,
                                    v.total_power,
                                    Err(e),
                                ),
                            }),
                        }
                    } else {
                        match r {
                            Ok(_) => Self::spec_update_op_post(
                                *old(self),
                                *final(self),
                                *block,
                                *info,
                                id,
                                emission_rate,
                                vp_contract,
                                hook_caller,
                                withdraw_destination,
                                0,
                                Ok(()),
                            ),
                            Err(e) => Self::spec_update_op_post(
                                *old(self),
                                *final(self),
                                *block,
                                *info,
                                id,
                                emission_rate,
                                vp_contract,
                                hook_caller,
                                withdraw_destination,
                                0,
                                Err(e),
                            ),
                        }
                    }
                }),
                ExecuteMsg::Fund(FundMsg { id }) => (match Self::spec_first_reading(
                    readings@,
                    id,
                ) {
                    None => r == Err::<Response, RewardsError>(
                        RewardsError::VotingPowerNotProvided { id },
                    ) && *final(self) == *old(self),
                    Some(v) => (match r {
                        Ok(_) => Self::spec_fund_native_post(
                            *old(self),
                            *final(self),
                            *block,
                            *info,
                            id,
                            v.total_power,
                            Ok(()),
                        ),
                        Err(e) => Self::spec_fund_native_post(
                            *old(self),
                            *final(self),
                            *block,
                            *info,
                            id,
                            v.total_power,
                            Err(e),
                        ),
                    }),
                }),
                ExecuteMsg::Claim { id } => (match Self::spec_first_reading(readings@, id) {
                    None => r == Err::<Response, RewardsError>(
                        RewardsError::VotingPowerNotProvided { id },
                    ) && *final(self) == *old(self),
                    Some(v) => (match r {
                        Ok(resp) => resp.transfers@.len() == 1 && Self::spec_claim_post(
                            *old(self),
                            *final(self),
                            *block,
                            *info,
                            id,
                            v.power,
                            v.total_power,
                            Ok(resp.transfers@[0]),
                        ),
                        Err(e) => Self::spec_claim_post(
                            *old(self),
                            *final(self),
                            *block,
                            *info,
                            id,
                            v.power,
                            v.total_power,
                            Err(e),
                        ),
                    }),
                }),
                ExecuteMsg::Withdraw { id } => (match r {
                    Ok(resp) => resp.transfers@.len() == 1 && Self::spec_withdraw_op_post(
                        *old(self),
                        *final(self),
                        *block,
                        *info,
                        id,
                        Ok(resp.transfers@[0]),
                    ),
                    Err(e) => Self::spec_withdraw_op_post(
                        *old(self),
                        *final(self),
                        *block,
                        *info,
                        id,
                        Err(e),
                    ),
                }),
            }),
    {
        match execute_msg {
            ExecuteMsg::StakeChangeHook(hook_msg) => {
                match self.execute_stake_changed(block, info, &hook_msg, readings) {
                    Ok(_) => Ok(Response { transfers: Vec::new() }),
                    Err(e) => Err(e),
                }
            },
            ExecuteMsg::NftStakeChangeHook(hook_msg) => {
                match self.execute_nft_stake_changed(block, info, &hook_msg, readings) {
                    Ok(_) => Ok(Response { transfers: Vec::new() }),
                    Err(e) => Err(e),
                }
            },
            ExecuteMsg::MemberChangedHook(hook_msg) => {
                match self.execute_membership_changed(block, info, &hook_msg, readings) {
                    Ok(_) => Ok(Response { transfers: Vec::new() }),
                    Err(e) => Err(e),
                }
            },
            ExecuteMsg::UpdateOwnership(action) => {
                match self.execute_update_owner(block, info, action) {
                    Ok(_) => Ok(Response { transfers: Vec::new() }),
                    Err(e) => Err(e),
                }
            },
            ExecuteMsg::Receive(wrapper) => {
                let id = match wrapper.msg {
                    ReceiveCw20Msg::Fund(FundMsg { id }) => id,
                };
                let reading = match Self::reading_for(readings, id) {
                    Some(v) => v,
                    None => {
                        return Err(RewardsError::VotingPowerNotProvided { id });
                    },
                };
                match self.execute_receive_cw20(block, info, &wrapper, reading.total_power) {
                    Ok(_) => Ok(Response { transfers: Vec::new() }),
                    Err(e) => Err(e),
                }
            },
            ExecuteMsg::Create(create) => {
                let next = match self.count.checked_add(1) {
                    Some(v) => v,
                    None => {
                        return Err(RewardsError::Overflow);
                    },
                };
                let tp = if info.funds.len() > 0 {
                    match Self::reading_for(readings, next) {
                        Some(v) => v.total_power,
                        None => {
                            return Err(RewardsError::VotingPowerNotProvided { id: next });
                        },
                    }
                } else {
                    0
                };
                match self.execute_create(block, info, create, tp) {
                    Ok(_) => Ok(Response { transfers: Vec::new() }),
                    Err(e) => Err(e),
                }
            },
            ExecuteMsg::Update { id, emission_rate, vp_contract, hook_caller, withdraw_destination } => {
                let tp = match Self::reading_for(readings, id) {
                    Some(v) => v.total_power,
                    None => {
                        match &emission_rate {
                            Some(_) => {
                                return Err(RewardsError::VotingPowerNotProvided { id });
                            },
                            None => 0,
                        }
                    },
                };
                match self.execute_update(
                    block,
                    info,
                    id,
                    emission_rate,
                    vp_contract,
                    hook_caller,
                    withdraw_destination,
                    tp,
                ) {
                    Ok(_) => Ok(Response { transfers: Vec::new() }),
                    Err(e) => Err(e),
                }
            },
            ExecuteMsg::Fund(FundMsg { id }) => {
                let reading = match Self::reading_for(readings, id) {
                    Some(v) => v,
                    None => {
                        return Err(RewardsError::VotingPowerNotProvided { id });
                    },
                };
                match self.execute_fund_native(block, info, id, reading.total_power) {
                    Ok(_) => Ok(Response { transfers: Vec::new() }),
                    Err(e) => Err(e),
                }
            },
            ExecuteMsg::Claim { id } => {
                let reading = match Self::reading_for(readings, id) {
                    Some(v) => v,
                    None => {
                        return Err(RewardsError::VotingPowerNotProvided { id });
                    },
                };
                match self.execute_claim(block, info, id, reading.power, reading.total_power) {
                    Ok(t) => {
                        let mut transfers: Vec<TransferMsg> = Vec::new();
                        transfers.push(t);
                        Ok(Response { transfers })
                    },
                    Err(e) => Err(e),
                }
            },
            ExecuteMsg::Withdraw { id } => {
                match self.execute_withdraw(block, info, id) {
                    Ok(t) => {
                        let mut transfers: Vec<TransferMsg> = Vec::new();
                        transfers.push(t);
                        Ok(Response { transfers })
                    },
                    Err(e) => Err(e),
                }
            },
        }
    }

    /// Routes one read to its handler without mutating anything; each arm's
    /// exact behaviour is the named method's contract.
    pub fn query(
        &self,
        block: &BlockInfo,
        query_msg: QueryMsg,
        readings: &Vec<VotingPowerReading>,
    ) -> (r: Result<QueryResponse, RewardsError>)
        requires
            self.wf(),
        ensures
            query_msg is Ownership ==> r == Ok::<QueryResponse, RewardsError>(
                QueryResponse::Ownership(self.ownership),
            ),
            query_msg matches QueryMsg::Distribution { id } ==> r == (if self.spec_has_dist(id) {
                Ok::<QueryResponse, RewardsError>(QueryResponse::Distribution(self.spec_dist(id)))
            } else {
                Err::<QueryResponse, RewardsError>(RewardsError::DistributionNotFound { id })
            }),
            query_msg is Distributions ==> r is Ok,
            query_msg matches QueryMsg::PendingRewards { address, start_after, limit } ==> (match r {
                Ok(answer) => answer matches QueryResponse::PendingRewards(resp)
                    && self.spec_pending_rewards_post(
                    *block,
                    address@,
                    start_after,
                    limit,
                    readings@,
                    Ok(resp),
                ),
                Err(e) => self.spec_pending_rewards_post(
                    *block,
                    address@,
                    start_after,
                    limit,
                    readings@,
                    Err(e),
                ),
            }),
    {
        match query_msg {
            QueryMsg::Ownership => Ok(QueryResponse::Ownership(self.query_ownership())),
            QueryMsg::PendingRewards { address, start_after, limit } => {
                match self.query_pending_rewards(block, &address, start_after, limit, readings) {
                    Ok(resp) => Ok(QueryResponse::PendingRewards(resp)),
                    Err(e) => Err(e),
                }
            },
            QueryMsg::Distribution { id } => {
                match self.query_distribution(id) {
                    Ok(d) => Ok(QueryResponse::Distribution(d)),
                    Err(e) => Err(e),
                }
            },
            QueryMsg::Distributions { start_after, limit } => {
                Ok(QueryResponse::Distributions(self.query_distributions(start_after, limit)))
            },
        }
    }

    /// The participant's reward map: what they hold across distributions,
    /// empty when they never interacted.
    pub open spec fn spec_user_map(self, address: Seq<char>) -> Map<u64, RewardEntry> {
        if exists|i: int|
            0 <= i < self.user_rewards@.len() && self.user_rewards@[i].address@ == address {
            self.user_rewards@[
                choose|i: int|
                    0 <= i < self.user_rewards@.len() && self.user_rewards@[i].address@ == address
            ].rewards@
        } else {
            Map::empty()
        }
    }
}

} // verus!
