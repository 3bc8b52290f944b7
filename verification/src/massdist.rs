//! Mass distribution by fixed weights.
//!
//! A table of addresses and fixed-point weights that must sum to exactly
//! one; a funded amount is then split pro rata, flooring each share, and
//! handed out as one transfer instruction per address.

use vstd::prelude::*;

use vstd::string::StrSliceExecFns;

use crate::asset::{Denom, TransferMsg};
use crate::error::RewardsError;
use crate::num::U256;

verus! {

/// The fixed-point representation of the weight one: 10^18.
pub const WEIGHT_ONE: u128 = 1_000_000_000_000_000_000;

/// One address's weight.
#[derive(Clone, Debug, PartialEq, Eq)]
pub struct WeightEntry {
    /// Who receives a share.
    pub address: String,
    /// Their fixed-point weight; `WEIGHT_ONE` is the whole.
    pub weight: u128,
}

/// A fixed-point weight of `p` percent.
pub fn weight_percent(p: u64) -> (r: u128)
    ensures
        r == p * ((WEIGHT_ONE / 100) as int),
{
    proof {
        vstd::arithmetic::mul::lemma_mul_upper_bound(
            p as int,
            u64::MAX as int,
            (WEIGHT_ONE / 100) as int,
            (WEIGHT_ONE / 100) as int,
        );
    }
    (p as u128) * (WEIGHT_ONE / 100)
}

/// The floored share of an amount under a fixed-point weight.
pub open spec fn spec_share(amount: u128, weight: u128) -> int {
    amount * weight / (WEIGHT_ONE as int)
}

/// The sum of the weights in a table or an input list.
pub open spec fn spec_weight_sum(s: Seq<WeightEntry>) -> int
    decreases s.len(),
{
    if s.len() == 0 {
        0
    } else {
        s[0].weight + spec_weight_sum(s.drop_first())
    }
}

/// The weight the last occurrence of an address in a list carries, if any.
pub open spec fn spec_last_weight(s: Seq<WeightEntry>, addr: Seq<char>) -> Option<u128>
    decreases s.len(),
{
    if s.len() == 0 {
        None
    } else if s.last().address@ == addr {
        Some(s.last().weight)
    } else {
        spec_last_weight(s.drop_last(), addr)
    }
}

/// Whether one of the first `upto` entries of an input list carries the
/// address.
pub open spec fn spec_input_has(input: Seq<WeightEntry>, upto: int, addr: Seq<char>) -> bool {
    exists|k: int| 0 <= k < upto && (#[trigger] input[k]).address@ == addr
}

/// Strict lexicographic order on character sequences by code point: the
/// order a storage map keyed by these strings walks its keys in, since
/// UTF-8 byte order coincides with code-point order.
pub open spec fn chars_lt(a: Seq<char>, b: Seq<char>) -> bool
    decreases a.len(),
{
    if b.len() == 0 {
        false
    } else if a.len() == 0 {
        true
    } else if (a[0] as u32) < (b[0] as u32) {
        true
    } else if (a[0] as u32) > (b[0] as u32) {
        false
    } else {
        chars_lt(a.drop_first(), b.drop_first())
    }
}

/// Nothing sorts strictly below itself.
proof fn lemma_chars_lt_irreflexive(a: Seq<char>)
    ensures
        !chars_lt(a, a),
    decreases a.len(),
{
    if a.len() > 0 {
        lemma_chars_lt_irreflexive(a.drop_first());
    }
}

/// Two sequences are ordered one way or the other, or equal.
proof fn lemma_chars_lt_total(a: Seq<char>, b: Seq<char>)
    ensures
        chars_lt(a, b) || chars_lt(b, a) || a == b,
    decreases a.len(),
{
    if a.len() == 0 && b.len() == 0 {
        assert(a =~= b);
    } else if a.len() > 0 && b.len() > 0 {
        if (a[0] as u32) == (b[0] as u32) {
            vstd::utf8::char_u32_cast(a[0], a[0] as u32);
            vstd::utf8::char_u32_cast(b[0], b[0] as u32);
            assert(a[0] == b[0]);
            lemma_chars_lt_total(a.drop_first(), b.drop_first());
            if a.drop_first() == b.drop_first() {
                assert(a.drop_first().len() == b.drop_first().len());
                assert(a.len() == b.len());
                assert forall|i: int| 0 <= i < a.len() implies a[i] == b[i] by {
                    if i > 0 {
                        assert(a[i] == a.drop_first()[i - 1]);
                        assert(b[i] == b.drop_first()[i - 1]);
                    }
                }
                assert(a =~= b);
            }
        }
    }
}

/// The order is transitive.
proof fn lemma_chars_lt_trans(a: Seq<char>, b: Seq<char>, c: Seq<char>)
    requires
        chars_lt(a, b),
        chars_lt(b, c),
    ensures
        chars_lt(a, c),
    decreases a.len(),
{
    if a.len() > 0 && b.len() > 0 && c.len() > 0 {
        if (a[0] as u32) == (b[0] as u32) && (b[0] as u32) == (c[0] as u32) {
            lemma_chars_lt_trans(a.drop_first(), b.drop_first(), c.drop_first());
        }
    }
}

/// Compares two strings in the key order: strictly below by code point.
fn string_lt(a: &String, b: &String) -> (r: bool)
    ensures
        r == chars_lt(a@, b@),
{
    let alen = a.as_str().unicode_len();
    let blen = b.as_str().unicode_len();
    proof {
        assert(a@.skip(0) =~= a@);
        assert(b@.skip(0) =~= b@);
    }
    let mut i: usize = 0;
    while i < alen && i < blen
        invariant
            alen == a@.len(),
            blen == b@.len(),
            i <= alen,
            i <= blen,
            chars_lt(a@, b@) == chars_lt(a@.skip(i as int), b@.skip(i as int)),
        decreases alen - i,
    {
        let ca = a.as_str().get_char(i);
        let cb = b.as_str().get_char(i);
        proof {
            assert(a@.skip(i as int)[0] == ca);
            assert(b@.skip(i as int)[0] == cb);
        }
        if (ca as u32) < (cb as u32) {
            return true;
        }
        if (ca as u32) > (cb as u32) {
            return false;
        }
        proof {
            assert(a@.skip(i as int + 1) =~= a@.skip(i as int).drop_first());
            assert(b@.skip(i as int + 1) =~= b@.skip(i as int).drop_first());
        }
        i = i + 1;
    }
    proof {
        if i >= alen {
            assert(a@.skip(i as int).len() == 0);
        } else {
            assert(b@.skip(i as int).len() == 0);
        }
    }
    alen < blen
}

/// Every weight in a list is at most the list's sum.
proof fn lemma_weight_le_sum(s: Seq<WeightEntry>, i: int)
    requires
        0 <= i < s.len(),
    ensures
        s[i].weight <= spec_weight_sum(s),
    decreases s.len(),
{
    if i > 0 {
        lemma_weight_le_sum(s.drop_first(), i - 1);
    } else {
        lemma_weight_sum_nonneg(s.drop_first());
    }
}

/// A weight sum is never negative.
proof fn lemma_weight_sum_nonneg(s: Seq<WeightEntry>)
    ensures
        spec_weight_sum(s) >= 0,
    decreases s.len(),
{
    if s.len() > 0 {
        lemma_weight_sum_nonneg(s.drop_first());
    }
}

/// The mass distributor: a weight table split to exactly one.
#[derive(Debug)]
pub struct MassDistribute {
    /// One entry per address, in ascending key order.
    pub weights: Vec<WeightEntry>,
}

impl MassDistribute {
    /// Addresses strictly ascending in the key order — hence unique — and
    /// no weight above the whole.
    pub open spec fn wf(self) -> bool {
        &&& forall|i: int, j: int|
            0 <= i < j < self.weights@.len() ==> self.weights@[i].address@
                != self.weights@[j].address@
        &&& forall|i: int, j: int|
            0 <= i < j < self.weights@.len() ==> chars_lt(
                self.weights@[i].address@,
                self.weights@[j].address@,
            )
        &&& forall|i: int|
            0 <= i < self.weights@.len() ==> (#[trigger] self.weights@[i]).weight <= WEIGHT_ONE
    }

    /// Whether some entry carries the address.
    pub open spec fn spec_has_address(self, addr: Seq<char>) -> bool {
        exists|i: int| 0 <= i < self.weights@.len() && self.weights@[i].address@ == addr
    }

    /// The weight an address carries; zero when absent.
    pub open spec fn spec_weight_of(self, addr: Seq<char>) -> u128 {
        if exists|i: int| 0 <= i < self.weights@.len() && self.weights@[i].address@ == addr {
            self.weights@[
                choose|i: int| 0 <= i < self.weights@.len() && self.weights@[i].address@ == addr
            ].weight
        } else {
            0
        }
    }

    /// An empty table.
    pub fn new() -> (r: MassDistribute)
        ensures
            r.weights@.len() == 0,
            r.wf(),
    {
        MassDistribute { weights: Vec::new() }
    }

    /// Replaces or adds the weights of an input list whose weights sum to
    /// exactly one; any other sum is rejected with the table unchanged.
    /// The last occurrence of an address in the input wins; a new address
    /// takes its place in the key order.
    pub fn set_weights(&mut self, input: &Vec<WeightEntry>) -> (r: Result<(), RewardsError>)
        requires
            old(self).wf(),
        ensures
            final(self).wf(),
            r is Ok <==> spec_weight_sum(input@) == WEIGHT_ONE,
            r is Err ==> r == Err::<(), RewardsError>(RewardsError::InvalidWeights)
                && final(self).weights@ == old(self).weights@,
            r is Ok ==> forall|addr: Seq<char>|
                final(self).spec_weight_of(addr) == (match spec_last_weight(input@, addr) {
                    Some(w) => w,
                    None => old(self).spec_weight_of(addr),
                }),
            r is Ok ==> forall|addr: Seq<char>|
                final(self).spec_has_address(addr) <==> (old(self).spec_has_address(addr)
                    || spec_input_has(input@, input@.len() as int, addr)),
    {
        let mut total: u128 = 0;
        let mut k: usize = 0;
        while k < input.len()
            invariant
                *self == *old(self),
                self.wf(),
                k <= input@.len(),
                total == spec_weight_sum(input@.take(k as int)),
                spec_weight_sum(input@.take(k as int)) <= u128::MAX,
            decreases input@.len() - k,
        {
            proof {
                lemma_weight_sum_take(input@, k as int);
                if total + input@[k as int].weight > u128::MAX {
                    lemma_weight_sum_prefix_le(input@, k as int + 1);
                }
            }
            total = match total.checked_add(input[k].weight) {
                Some(t) => t,
                None => {
                    proof {
                        lemma_weight_sum_prefix_le(input@, k as int + 1);
                    }
                    return Err(RewardsError::InvalidWeights);
                },
            };
            k = k + 1;
        }
        proof {
            assert(input@.take(input@.len() as int) =~= input@);
        }
        if total != WEIGHT_ONE {
            return Err(RewardsError::InvalidWeights);
        }
        let ghost pre = *self;
        let mut m: usize = 0;
        while m < input.len()
            invariant
                pre == *old(self),
                m <= input@.len(),
                self.wf(),
                spec_weight_sum(input@) == WEIGHT_ONE,
                forall|addr: Seq<char>|
                    self.spec_weight_of(addr) == (match spec_last_weight(
                        input@.take(m as int),
                        addr,
                    ) {
                        Some(w) => w,
                        None => pre.spec_weight_of(addr),
                    }),
                forall|addr: Seq<char>|
                    self.spec_has_address(addr) <==> (pre.spec_has_address(addr)
                        || spec_input_has(input@, m as int, addr)),
            decreases input@.len() - m,
        {
            let entry = WeightEntry { address: input[m].address.clone(), weight: input[m].weight };
            proof {
                lemma_weight_le_sum(input@, m as int);
                lemma_weight_sum_nonneg(input@);
            }
            let ghost b = *self;
            let ghost ea = entry.address@;
            self.upsert_weight(entry);
            let ghost m_prev: int = m as int;
            m = m + 1;
            proof {
                assert(ea == input@[m_prev].address@);
                assert(input@.take(m as int).drop_last() =~= input@.take(m_prev));
                assert forall|addr: Seq<char>|
                    self.spec_has_address(addr) == (pre.spec_has_address(addr) || spec_input_has(
                        input@,
                        m as int,
                        addr,
                    )) by {
                    assert(self.spec_has_address(addr) <==> (b.spec_has_address(addr) || addr
                        == ea));
                    assert(b.spec_has_address(addr) ==> (pre.spec_has_address(addr)
                        || spec_input_has(input@, m_prev, addr)));
                    assert(pre.spec_has_address(addr) ==> b.spec_has_address(addr));
                    assert(spec_input_has(input@, m_prev, addr) ==> b.spec_has_address(addr));
                    if addr == input@[m_prev].address@ {
                        assert((#[trigger] input@[m_prev]).address@ == addr);
                        assert(self.spec_has_address(addr));
                        assert(spec_input_has(input@, m as int, addr));
                    } else {
                        if spec_input_has(input@, m as int, addr) {
                            let k2 = choose|k: int|
                                0 <= k < m as int && (#[trigger] input@[k]).address@ == addr;
                            assert(k2 < m_prev);
                            assert(spec_input_has(input@, m_prev, addr));
                        }
                        if spec_input_has(input@, m_prev, addr) {
                            let k2 = choose|k: int|
                                0 <= k < m_prev && (#[trigger] input@[k]).address@ == addr;
                            assert((#[trigger] input@[k2]).address@ == addr);
                            assert(spec_input_has(input@, m as int, addr));
                        }
                    }
                }
                assert forall|addr: Seq<char>|
                    self.spec_weight_of(addr) == (match spec_last_weight(
                        input@.take(m as int),
                        addr,
                    ) {
                        Some(w) => w,
                        None => pre.spec_weight_of(addr),
                    }) by {}
            }
        }
        proof {
            assert(input@.take(input@.len() as int) =~= input@);
            assert(m as int == input@.len() as int);
            assert(forall|addr: Seq<char>|
                self.spec_has_address(addr) <==> (pre.spec_has_address(addr) || spec_input_has(
                    input@,
                    m as int,
                    addr,
                )));
            assert forall|addr: Seq<char>|
                self.spec_has_address(addr) == (old(self).spec_has_address(addr)
                    || spec_input_has(input@, input@.len() as int, addr)) by {
                assert(self.spec_has_address(addr) <==> (pre.spec_has_address(addr)
                    || spec_input_has(input@, m as int, addr)));
                assert(pre.spec_has_address(addr) == old(self).spec_has_address(addr));
                assert(spec_input_has(input@, m as int, addr) == spec_input_has(
                    input@,
                    input@.len() as int,
                    addr,
                ));
            }
        }
        Ok(())
    }

    /// Writes the entry at its place in the key order: replacing the
    /// address's previous weight in place, or inserting a first occurrence
    /// so that addresses stay strictly ascending.
    fn upsert_weight(&mut self, entry: WeightEntry)
        requires
            old(self).wf(),
            entry.weight <= WEIGHT_ONE,
        ensures
            final(self).wf(),
            forall|addr: Seq<char>|
                final(self).spec_weight_of(addr) == if addr == entry.address@ {
                    entry.weight
                } else {
                    old(self).spec_weight_of(addr)
                },
            forall|addr: Seq<char>|
                final(self).spec_has_address(addr) <==> old(self).spec_has_address(addr) || addr
                    == entry.address@,
    {
        let ghost a = entry.address@;
        let n = self.weights.len();
        let mut k: usize = 0;
        while k < n && string_lt(&self.weights[k].address, &entry.address)
            invariant
                *self == *old(self),
                old(self).wf(),
                entry.weight <= WEIGHT_ONE,
                n == self.weights@.len(),
                k <= n,
                forall|i: int| 0 <= i < k ==> chars_lt(#[trigger] self.weights@[i].address@, a),
                entry.address@ == a,
            decreases n - k,
        {
            k = k + 1;
        }
        if k < self.weights.len() && self.weights[k].address == entry.address {
            self.weights.set(k, entry);
            proof {
                let s1 = old(self).weights@;
                let s2 = self.weights@;
                let kk = k as int;
                assert forall|i: int| 0 <= i < s2.len() implies s2[i].address@ == s1[
                    i
                ].address@ by {
                    if i == kk {
                    }
                }
                assert forall|addr: Seq<char>|
                    self.spec_weight_of(addr) == (if addr == a {
                        entry.weight
                    } else {
                        old(self).spec_weight_of(addr)
                    }) by {
                    if addr == a {
                        assert(s2[kk].address@ == addr);
                        let i = choose|i: int| 0 <= i < s2.len() && s2[i].address@ == addr;
                        if i != kk {
                            assert(s1[i].address@ == addr);
                            assert(false);
                        }
                    } else {
                        if exists|i: int| 0 <= i < s2.len() && s2[i].address@ == addr {
                            let i = choose|i: int| 0 <= i < s2.len() && s2[i].address@ == addr;
                            assert(i != kk);
                            assert(s1[i].address@ == addr);
                            let i2 = choose|i2: int|
                                0 <= i2 < s1.len() && s1[i2].address@ == addr;
                            if i2 != i {
                                assert(false);
                            }
                        } else {
                            if exists|i: int| 0 <= i < s1.len() && s1[i].address@ == addr {
                                let i = choose|i: int|
                                    0 <= i < s1.len() && s1[i].address@ == addr;
                                assert(i != kk);
                                assert(s2[i].address@ == addr);
                                assert(false);
                            }
                        }
                    }
                }
                assert forall|addr: Seq<char>|
                    self.spec_has_address(addr) <==> (old(self).spec_has_address(addr) || addr
                        == a) by {
                    if addr == a {
                        assert(s2[kk].address@ == addr);
                    } else {
                        if exists|i: int| 0 <= i < s2.len() && s2[i].address@ == addr {
                            let i = choose|i: int| 0 <= i < s2.len() && s2[i].address@ == addr;
                            assert(s1[i].address@ == addr);
                        }
                        if exists|i: int| 0 <= i < s1.len() && s1[i].address@ == addr {
                            let i = choose|i: int| 0 <= i < s1.len() && s1[i].address@ == addr;
                            assert(s2[i].address@ == addr);
                        }
                    }
                }
            }
            return ;
        }
        proof {
            lemma_chars_lt_irreflexive(a);
            if (k as int) < self.weights@.len() {
                lemma_chars_lt_total(a, self.weights@[k as int].address@);
            }
            assert forall|j: int|
                k <= j < self.weights@.len() implies chars_lt(
                a,
                #[trigger] self.weights@[j].address@,
            ) by {
                if j != k {
                    lemma_chars_lt_trans(
                        a,
                        self.weights@[k as int].address@,
                        self.weights@[j].address@,
                    );
                }
            }
        }
        self.weights.insert(k, entry);
        proof {
            let s1 = old(self).weights@;
            let s2 = self.weights@;
            let kk = k as int;
            assert(s2 == s1.insert(kk, entry));
            assert forall|i: int| 0 <= i < s1.len() implies #[trigger] s1[i].address@ != a by {
                if i < kk {
                    if s1[i].address@ == a {
                        assert(chars_lt(a, a));
                        assert(false);
                    }
                } else {
                    if s1[i].address@ == a {
                        assert(chars_lt(a, a));
                        assert(false);
                    }
                }
            }
            assert forall|i: int, j: int| 0 <= i < j < s2.len() implies chars_lt(
                s2[i].address@,
                s2[j].address@,
            ) by {
                if i < kk && j < kk {
                    assert(s2[i] == s1[i] && s2[j] == s1[j]);
                } else if i < kk && j == kk {
                    assert(s2[i] == s1[i]);
                } else if i < kk && j > kk {
                    assert(s2[i] == s1[i] && s2[j] == s1[j - 1]);
                    lemma_chars_lt_trans(s1[i].address@, a, s1[j - 1].address@);
                } else if i == kk {
                    assert(s2[j] == s1[j - 1]);
                } else {
                    assert(s2[i] == s1[i - 1] && s2[j] == s1[j - 1]);
                }
            }
            assert forall|i: int, j: int| 0 <= i < j < s2.len() implies s2[i].address@ != s2[
                j
            ].address@ by {
                if s2[i].address@ == s2[j].address@ {
                    lemma_chars_lt_irreflexive(s2[i].address@);
                }
            }
            assert forall|i: int| 0 <= i < s2.len() implies (#[trigger] s2[i]).weight
                <= WEIGHT_ONE by {
                if i < kk {
                    assert(s2[i] == s1[i]);
                } else if i > kk {
                    assert(s2[i] == s1[i - 1]);
                }
            }
            assert forall|addr: Seq<char>|
                self.spec_weight_of(addr) == (if addr == a {
                    entry.weight
                } else {
                    old(self).spec_weight_of(addr)
                }) by {
                if addr == a {
                    assert(s2[kk].address@ == addr);
                    let i = choose|i: int| 0 <= i < s2.len() && s2[i].address@ == addr;
                    if i != kk {
                        if i < kk {
                            assert(s2[i] == s1[i]);
                        } else {
                            assert(s2[i] == s1[i - 1]);
                        }
                        assert(false);
                    }
                } else {
                    if exists|i: int| 0 <= i < s2.len() && s2[i].address@ == addr {
                        let i = choose|i: int| 0 <= i < s2.len() && s2[i].address@ == addr;
                        assert(i != kk);
                        let oi: int = if i < kk {
                            i
                        } else {
                            i - 1
                        };
                        assert(s1[oi].address@ == addr);
                        let i2 = choose|i2: int| 0 <= i2 < s1.len() && s1[i2].address@ == addr;
                        if i2 != oi {
                            assert(false);
                        }
                        assert(old(self).spec_weight_of(addr) == s1[oi].weight);
                        assert(self.spec_weight_of(addr) == s2[i].weight);
                        assert(s2[i].weight == s1[oi].weight);
                    } else {
                        if exists|i: int| 0 <= i < s1.len() && s1[i].address@ == addr {
                            let i = choose|i: int| 0 <= i < s1.len() && s1[i].address@ == addr;
                            let mi: int = if i < kk {
                                i
                            } else {
                                i + 1
                            };
                            assert(s2[mi].address@ == addr);
                            assert(false);
                        }
                    }
                }
            }
            assert forall|addr: Seq<char>|
                self.spec_has_address(addr) <==> (old(self).spec_has_address(addr) || addr == a) by {
                if addr == a {
                    assert(s2[kk].address@ == addr);
                } else {
                    if exists|i: int| 0 <= i < s2.len() && s2[i].address@ == addr {
                        let i = choose|i: int| 0 <= i < s2.len() && s2[i].address@ == addr;
                        assert(i != kk);
                        let oi: int = if i < kk {
                            i
                        } else {
                            i - 1
                        };
                        assert(s1[oi].address@ == addr);
                    }
                    if exists|i: int| 0 <= i < s1.len() && s1[i].address@ == addr {
                        let i = choose|i: int| 0 <= i < s1.len() && s1[i].address@ == addr;
                        let mi: int = if i < kk {
                            i
                        } else {
                            i + 1
                        };
                        assert(s2[mi].address@ == addr);
                    }
                }
            }
        }
    }

    /// The floored share of the amount the address's weight buys; an
    /// unknown address gets nothing. Never exceeds the amount.
    pub fn get_share(&self, address: String, amount: u128) -> (r: u128)
        requires
            self.wf(),
        ensures
            r as int == spec_share(amount, self.spec_weight_of(address@)),
            r <= amount,
    {
        let mut weight: u128 = 0;
        let mut k: usize = 0;
        let mut found = false;
        while k < self.weights.len()
            invariant
                k <= self.weights@.len(),
                self.wf(),
                !found ==> forall|i: int| 0 <= i < k ==> self.weights@[i].address@ != address@,
                !found ==> weight == 0,
                found ==> exists|i: int|
                    0 <= i < self.weights@.len() && self.weights@[i].address@ == address@
                        && self.weights@[i].weight == weight,
            decreases self.weights@.len() - k,
        {
            if !found && self.weights[k].address == address {
                weight = self.weights[k].weight;
                found = true;
            }
            k = k + 1;
        }
        proof {
            if found {
                let i = choose|i: int|
                    0 <= i < self.weights@.len() && self.weights@[i].address@ == address@
                        && self.weights@[i].weight == weight;
                let i2 = choose|i2: int|
                    0 <= i2 < self.weights@.len() && self.weights@[i2].address@ == address@;
                if i2 != i {
                    assert(false);
                }
                assert(weight == self.spec_weight_of(address@));
                assert(weight <= WEIGHT_ONE);
            } else {
                assert(self.spec_weight_of(address@) == 0);
            }
        }
        share_of(amount, weight)
    }

    /// One fungible-token transfer instruction per address, each for its
    /// floored share of the amount, in ascending key order.
    pub fn distribute_cw20(&self, amount: u128, token: String) -> (r: Vec<TransferMsg>)
        requires
            self.wf(),
        ensures
            r@.len() == self.weights@.len(),
            forall|k: int|
                0 <= k < r@.len() ==> ({
                    let row = #[trigger] r@[k];
                    &&& row.recipient@ == self.weights@[k].address@
                    &&& row.amount as int == spec_share(amount, self.weights@[k].weight)
                    &&& row.denom == Denom::Cw20(token)
                }),
            forall|i: int, j: int|
                0 <= i < j < r@.len() ==> chars_lt(r@[i].recipient@, r@[j].recipient@),
            spec_weight_sum(self.weights@) <= WEIGHT_ONE ==> crate::laws::sum_int(
                r@.map_values(|t: TransferMsg| t.amount as int),
            ) <= amount,
    {
        let mut out: Vec<TransferMsg> = Vec::new();
        let mut k: usize = 0;
        while k < self.weights.len()
            invariant
                k <= self.weights@.len(),
                self.wf(),
                out@.len() == k,
                forall|m: int|
                    0 <= m < k ==> ({
                        let row = #[trigger] out@[m];
                        &&& row.recipient@ == self.weights@[m].address@
                        &&& row.amount as int == spec_share(amount, self.weights@[m].weight)
                        &&& row.denom == Denom::Cw20(token)
                    }),
            decreases self.weights@.len() - k,
        {
            let share = share_of(amount, self.weights[k].weight);
            out.push(
                TransferMsg {
                    recipient: self.weights[k].address.clone(),
                    amount: share,
                    denom: Denom::Cw20(token.clone()),
                },
            );
            k = k + 1;
        }
        proof {
            assert forall|i: int, j: int| 0 <= i < j < out@.len() implies chars_lt(
                out@[i].recipient@,
                out@[j].recipient@,
            ) by {
                assert(out@[i].recipient@ == self.weights@[i].address@);
                assert(out@[j].recipient@ == self.weights@[j].address@);
            }
            if spec_weight_sum(self.weights@) <= WEIGHT_ONE {
                assert(out@.map_values(|t: TransferMsg| t.amount as int) =~= self.weights@.map_values(
                    |w: WeightEntry| spec_share(amount, w.weight),
                ));
                lemma_share_sum_le_amount(self.weights@, amount);
            }
        }
        out
    }

    /// One native-coin transfer instruction per address, each for its
    /// floored share of the amount, in ascending key order.
    pub fn distribute_native(&self, amount: u128, denom: String) -> (r: Vec<TransferMsg>)
        requires
            self.wf(),
        ensures
            r@.len() == self.weights@.len(),
            forall|k: int|
                0 <= k < r@.len() ==> ({
                    let row = #[trigger] r@[k];
                    &&& row.recipient@ == self.weights@[k].address@
                    &&& row.amount as int == spec_share(amount, self.weights@[k].weight)
                    &&& row.denom == Denom::Native(denom)
                }),
            forall|i: int, j: int|
                0 <= i < j < r@.len() ==> chars_lt(r@[i].recipient@, r@[j].recipient@),
            spec_weight_sum(self.weights@) <= WEIGHT_ONE ==> crate::laws::sum_int(
                r@.map_values(|t: TransferMsg| t.amount as int),
            ) <= amount,
    {
        let mut out: Vec<TransferMsg> = Vec::new();
        let mut k: usize = 0;
        while k < self.weights.len()
            invariant
                k <= self.weights@.len(),
                self.wf(),
                out@.len() == k,
                forall|m: int|
                    0 <= m < k ==> ({
                        let row = #[trigger] out@[m];
                        &&& row.recipient@ == self.weights@[m].address@
                        &&& row.amount as int == spec_share(amount, self.weights@[m].weight)
                        &&& row.denom == Denom::Native(denom)
                    }),
            decreases self.weights@.len() - k,
        {
            let share = share_of(amount, self.weights[k].weight);
            out.push(
                TransferMsg {
                    recipient: self.weights[k].address.clone(),
                    amount: share,
                    denom: Denom::Native(denom.clone()),
                },
            );
            k = k + 1;
        }
        proof {
            assert forall|i: int, j: int| 0 <= i < j < out@.len() implies chars_lt(
                out@[i].recipient@,
                out@[j].recipient@,
            ) by {
                assert(out@[i].recipient@ == self.weights@[i].address@);
                assert(out@[j].recipient@ == self.weights@[j].address@);
            }
            if spec_weight_sum(self.weights@) <= WEIGHT_ONE {
                assert(out@.map_values(|t: TransferMsg| t.amount as int) =~= self.weights@.map_values(
                    |w: WeightEntry| spec_share(amount, w.weight),
                ));
                lemma_share_sum_le_amount(self.weights@, amount);
            }
        }
        out
    }

    /// One transfer instruction per address for the given denomination,
    /// fungible token or native coin.
    pub fn distribute(&self, amount: u128, denom: Denom) -> (r: Vec<TransferMsg>)
        requires
            self.wf(),
        ensures
            r@.len() == self.weights@.len(),
            forall|k: int|
                0 <= k < r@.len() ==> ({
                    let row = #[trigger] r@[k];
                    &&& row.recipient@ == self.weights@[k].address@
                    &&& row.amount as int == spec_share(amount, self.weights@[k].weight)
                    &&& row.denom == denom
                }),
            forall|i: int, j: int|
                0 <= i < j < r@.len() ==> chars_lt(r@[i].recipient@, r@[j].recipient@),
            spec_weight_sum(self.weights@) <= WEIGHT_ONE ==> crate::laws::sum_int(
                r@.map_values(|t: TransferMsg| t.amount as int),
            ) <= amount,
    {
        match denom {
            Denom::Cw20(token) => self.distribute_cw20(amount, token),
            Denom::Native(nd) => self.distribute_native(amount, nd),
        }
    }
}

/// A weight-sum prefix extends by its next element.
proof fn lemma_weight_sum_take(s: Seq<WeightEntry>, k: int)
    requires
        0 <= k < s.len(),
    ensures
        spec_weight_sum(s.take(k + 1)) == spec_weight_sum(s.take(k)) + s[k].weight,
    decreases k,
{
    if k == 0 {
        assert(s.take(1).drop_first() =~= s.take(0));
    } else {
        assert(s.take(k + 1).drop_first() =~= s.drop_first().take(k));
        assert(s.take(k).drop_first() =~= s.drop_first().take(k - 1));
        lemma_weight_sum_take(s.drop_first(), k - 1);
    }
}

/// A weight-sum prefix never exceeds the whole sum.
proof fn lemma_weight_sum_prefix_le(s: Seq<WeightEntry>, k: int)
    requires
        0 <= k <= s.len(),
    ensures
        spec_weight_sum(s.take(k)) <= spec_weight_sum(s),
    decreases s.len() - k,
{
    if k < s.len() {
        lemma_weight_sum_take(s, k);
        lemma_weight_sum_prefix_le(s, k + 1);
    } else {
        assert(s.take(k) =~= s);
    }
}

/// The summed floored shares of a table never exceed the amount scaled by
/// the table's weight sum.
proof fn lemma_share_sum_scaled(ws: Seq<WeightEntry>, amount: u128)
    ensures
        spec_weight_sum(ws) >= 0,
        crate::laws::sum_int(ws.map_values(|w: WeightEntry| spec_share(amount, w.weight))) >= 0,
        crate::laws::sum_int(ws.map_values(|w: WeightEntry| spec_share(amount, w.weight)))
            <= amount * spec_weight_sum(ws) / (WEIGHT_ONE as int),
    decreases ws.len(),
{
    let f = |w: WeightEntry| spec_share(amount, w.weight);
    if ws.len() == 0 {
        vstd::arithmetic::mul::lemma_mul_by_zero_is_zero(amount as int);
        vstd::arithmetic::div_mod::lemma_div_of0(WEIGHT_ONE as int);
    } else {
        let rest = ws.drop_first();
        lemma_share_sum_scaled(rest, amount);
        assert(ws.map_values(f).drop_first() =~= rest.map_values(f));
        vstd::arithmetic::mul::lemma_mul_nonnegative(amount as int, ws[0].weight as int);
        vstd::arithmetic::mul::lemma_mul_nonnegative(amount as int, spec_weight_sum(rest));
        vstd::arithmetic::div_mod::lemma_div_pos_is_pos(
            amount * ws[0].weight,
            WEIGHT_ONE as int,
        );
        vstd::arithmetic::div_mod::lemma_div_is_ordered(
            crate::laws::sum_int(rest.map_values(f)) * (WEIGHT_ONE as int),
            amount * spec_weight_sum(rest),
            WEIGHT_ONE as int,
        );
        crate::laws::lemma_div_superadd(
            amount * ws[0].weight,
            amount * spec_weight_sum(rest),
            WEIGHT_ONE as int,
        );
        vstd::arithmetic::mul::lemma_mul_is_distributive_add(
            amount as int,
            ws[0].weight as int,
            spec_weight_sum(rest),
        );
        vstd::arithmetic::div_mod::lemma_div_pos_is_pos(
            amount * spec_weight_sum(rest),
            WEIGHT_ONE as int,
        );
        vstd::arithmetic::div_mod::lemma_div_is_ordered(
            amount * ws[0].weight + crate::laws::sum_int(rest.map_values(f)) * (
            WEIGHT_ONE as int),
            amount * ws[0].weight + amount * spec_weight_sum(rest),
            WEIGHT_ONE as int,
        );
    }
}

/// With the table's weights summing to at most one, the floored shares of
/// an amount sum to at most the amount: rounding only loses value.
proof fn lemma_share_sum_le_amount(ws: Seq<WeightEntry>, amount: u128)
    requires
        spec_weight_sum(ws) <= WEIGHT_ONE,
    ensures
        crate::laws::sum_int(ws.map_values(|w: WeightEntry| spec_share(amount, w.weight)))
            <= amount,
{
    lemma_share_sum_scaled(ws, amount);
    vstd::arithmetic::mul::lemma_mul_inequality(
        spec_weight_sum(ws),
        WEIGHT_ONE as int,
        amount as int,
    );
    vstd::arithmetic::mul::lemma_mul_is_commutative(spec_weight_sum(ws), amount as int);
    vstd::arithmetic::mul::lemma_mul_is_commutative(WEIGHT_ONE as int, amount as int);
    vstd::arithmetic::div_mod::lemma_div_is_ordered(
        amount * spec_weight_sum(ws),
        amount * (WEIGHT_ONE as int),
        WEIGHT_ONE as int,
    );
    vstd::arithmetic::mul::lemma_mul_is_commutative(amount as int, WEIGHT_ONE as int);
    vstd::arithmetic::div_mod::lemma_div_multiples_vanish(amount as int, WEIGHT_ONE as int);
}

/// The floored fixed-point share: computed wide, floored once, and never
/// above the amount while the weight is at most one.
fn share_of(amount: u128, weight: u128) -> (r: u128)
    requires
        weight <= WEIGHT_ONE,
    ensures
        r as int == spec_share(amount, weight),
        r <= amount,
{
    let wide = U256::from_u128(amount).checked_mul(&U256::from_u128(weight));
    proof {
        vstd::arithmetic::mul::lemma_mul_upper_bound(
            amount as int,
            u128::MAX as int,
            weight as int,
            u128::MAX as int,
        );
    }
    let q = wide.unwrap().checked_div(&U256::from_u128(WEIGHT_ONE)).unwrap();
    proof {
        vstd::arithmetic::mul::lemma_mul_nonnegative(amount as int, weight as int);
        vstd::arithmetic::mul::lemma_mul_inequality(
            weight as int,
            WEIGHT_ONE as int,
            amount as int,
        );
        vstd::arithmetic::mul::lemma_mul_is_commutative(amount as int, weight as int);
        vstd::arithmetic::mul::lemma_mul_is_commutative(WEIGHT_ONE as int, amount as int);
        vstd::arithmetic::div_mod::lemma_div_is_ordered(
            amount * weight,
            amount * (WEIGHT_ONE as int),
            WEIGHT_ONE as int,
        );
        vstd::arithmetic::div_mod::lemma_div_multiples_vanish(
            amount as int,
            WEIGHT_ONE as int,
        );
        vstd::arithmetic::mul::lemma_mul_is_commutative(
            amount as int,
            WEIGHT_ONE as int,
        );
        vstd::arithmetic::div_mod::lemma_div_pos_is_pos(amount * weight, WEIGHT_ONE as int);
    }
    q.try_to_u128().unwrap()
}

} // verus!
