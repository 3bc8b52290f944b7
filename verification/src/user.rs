//! The per-user reward ledger.
//!
//! For every (participant, distribution) pair the ledger banks the amount
//! owed but not yet claimed, and the last cumulative earned-per-unit-power
//! total the participant was reconciled against. It is created lazily on
//! first interaction and reconciled on every relevant event.

use vstd::prelude::*;

use crate::num::U256;

verus! {

/// One participant's standing with one distribution.
#[derive(Clone, Copy, Debug, PartialEq, Eq, Structural)]
pub struct RewardEntry {
    /// Which distribution this entry is for.
    pub distribution_id: u64,
    /// Owed but not yet claimed.
    pub pending: u128,
    /// The last observed cumulative earned-per-unit-power total, historical
    /// plus active.
    pub accounted_puvp: U256,
}

/// One participant's ledger across all distributions they touched.
#[derive(Clone, Debug, PartialEq, Eq)]
pub struct UserRewardState {
    /// One entry per distribution, ids unique.
    pub entries: Vec<RewardEntry>,
}

impl View for UserRewardState {
    type V = Map<u64, RewardEntry>;

    open spec fn view(&self) -> Map<u64, RewardEntry> {
        Map::new(
            |id: u64|
                exists|i: int|
                    0 <= i < self.entries@.len() && self.entries@[i].distribution_id == id,
            |id: u64|
                self.entries@[
                    choose|i: int|
                        0 <= i < self.entries@.len() && self.entries@[i].distribution_id == id
                ],
        )
    }
}

impl UserRewardState {
    /// No two entries cover the same distribution.
    pub open spec fn wf(self) -> bool {
        forall|i: int, j: int|
            0 <= i < j < self.entries@.len() ==> self.entries@[i].distribution_id
                != self.entries@[j].distribution_id
    }

    /// An empty ledger: a participant who never interacted owes and is owed
    /// nothing.
    pub fn new() -> (r: UserRewardState)
        ensures
            r@ == Map::<u64, RewardEntry>::empty(),
            r.entries@ == Seq::<RewardEntry>::empty(),
            r.wf(),
    {
        let r = UserRewardState { entries: Vec::new() };
        proof {
            assert(r@ =~= Map::<u64, RewardEntry>::empty());
        }
        r
    }

    /// An exact copy, built entry by entry.
    pub fn duplicate(&self) -> (r: UserRewardState)
        ensures
            r.entries@ == self.entries@,
            r@ == self@,
    {
        let mut entries: Vec<RewardEntry> = Vec::new();
        let mut i: usize = 0;
        while i < self.entries.len()
            invariant
                i <= self.entries@.len(),
                entries@ == self.entries@.take(i as int),
            decreases self.entries@.len() - i,
        {
            entries.push(self.entries[i]);
            i = i + 1;
        }
        proof {
            assert(entries@ =~= self.entries@);
        }
        UserRewardState { entries }
    }

    /// The index of the entry for the distribution, if the participant has
    /// one.
    pub fn find_entry(&self, distribution_id: u64) -> (r: Option<usize>)
        ensures
            r matches Some(i) ==> i < self.entries@.len() && self.entries@[
                i as int
            ].distribution_id == distribution_id,
            r is None ==> forall|k: int|
                0 <= k < self.entries@.len() ==> self.entries@[k].distribution_id
                    != distribution_id,
    {
        let mut i: usize = 0;
        while i < self.entries.len()
            invariant
                i <= self.entries@.len(),
                forall|k: int|
                    0 <= k < i ==> self.entries@[k].distribution_id != distribution_id,
            decreases self.entries@.len() - i,
        {
            if self.entries[i].distribution_id == distribution_id {
                return Some(i);
            }
            i = i + 1;
        }
        None
    }

    /// The entry the participant holds for the distribution, if any.
    pub fn get_entry(&self, distribution_id: u64) -> (r: Option<RewardEntry>)
        requires
            self.wf(),
        ensures
            r == if self@.dom().contains(distribution_id) {
                Some(self@[distribution_id])
            } else {
                None::<RewardEntry>
            },
    {
        match self.find_entry(distribution_id) {
            Some(i) => Some(self.entries[i]),
            None => None,
        }
    }

    /// Writes the entry for its distribution, replacing a previous one or
    /// appending a first: the ledger afterwards maps that distribution to
    /// exactly this entry and is otherwise unchanged.
    pub fn upsert(&mut self, e: RewardEntry)
        requires
            old(self).wf(),
        ensures
            final(self)@ == old(self)@.insert(e.distribution_id, e),
            final(self).wf(),
            forall|j: int|
                0 <= j < final(self).entries@.len() ==> final(self).entries@[j] == e || old(
                    self,
                ).entries@.contains(final(self).entries@[j]),
    {
        let ghost pre = *self;
        match self.find_entry(e.distribution_id) {
            Some(i) => {
                self.entries.set(i, e);
                proof {
                    let s1 = pre.entries@;
                    let s2 = self.entries@;
                    assert forall|id: u64| #[trigger] self@.dom().contains(id) implies self@[id]
                        == pre@.insert(e.distribution_id, e)[id] by {
                        let k = choose|k: int|
                            0 <= k < s2.len() && s2[k].distribution_id == id;
                        if id == e.distribution_id {
                            if k != i {
                                assert(s1[k].distribution_id == s1[i as int].distribution_id);
                                assert(false);
                            }
                        } else {
                            assert(k != i);
                            assert(s1[k].distribution_id == id);
                            let k3 = choose|k3: int|
                                0 <= k3 < s1.len() && s1[k3].distribution_id == id;
                            if k3 != k {
                                assert(false);
                            }
                        }
                    }
                    assert forall|id: u64| pre@.insert(e.distribution_id, e).dom().contains(
                        id,
                    ) implies #[trigger] self@.dom().contains(id) by {
                        if id == e.distribution_id {
                            assert(s2[i as int].distribution_id == id);
                        } else {
                            let k = choose|k: int|
                                0 <= k < s1.len() && s1[k].distribution_id == id;
                            assert(k != i);
                            assert(s2[k].distribution_id == id);
                        }
                    }
                    assert(self@ =~= pre@.insert(e.distribution_id, e));
                }
            },
            None => {
                self.entries.push(e);
                proof {
                    let s1 = pre.entries@;
                    let s2 = self.entries@;
                    let n = s1.len() as int;
                    assert(s2[n].distribution_id == e.distribution_id);
                    assert forall|id: u64| #[trigger] self@.dom().contains(id) implies self@[id]
                        == pre@.insert(e.distribution_id, e)[id] by {
                        let k = choose|k: int|
                            0 <= k < s2.len() && s2[k].distribution_id == id;
                        if id == e.distribution_id {
                            if k != n {
                                assert(s1[k].distribution_id == id);
                                assert(false);
                            }
                        } else {
                            assert(k != n);
                            assert(s1[k].distribution_id == id);
                            let k3 = choose|k3: int|
                                0 <= k3 < s1.len() && s1[k3].distribution_id == id;
                            if k3 != k {
                                assert(false);
                            }
                        }
                    }
                    assert forall|id: u64| pre@.insert(e.distribution_id, e).dom().contains(
                        id,
                    ) implies #[trigger] self@.dom().contains(id) by {
                        if id == e.distribution_id {
                            assert(s2[n].distribution_id == id);
                        } else {
                            let k = choose|k: int|
                                0 <= k < s1.len() && s1[k].distribution_id == id;
                            assert(s2[k].distribution_id == id);
                        }
                    }
                    assert(self@ =~= pre@.insert(e.distribution_id, e));
                }
            },
        }
    }
}

} // verus!
