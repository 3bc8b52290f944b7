//! Wide fixed-point arithmetic for the reward accumulators.
//!
//! Cumulative rewards are tracked per unit of voting power, scaled by a large
//! fixed-point factor so that dividing small reward amounts by large total
//! voting powers does not floor to zero. The accumulator is a 256-bit
//! unsigned integer held as two 128-bit limbs.

use vstd::prelude::*;

verus! {

/// The weight of the high limb: 2^128.
#[verifier::inline]
pub open spec fn limb_base() -> int {
    0xffff_ffff_ffff_ffff_ffff_ffff_ffff_ffffint + 1
}

/// The first value a 256-bit accumulator cannot hold: 2^256.
#[verifier::inline]
pub open spec fn u256_bound() -> int {
    limb_base() * limb_base()
}

/// The fixed-point scale applied to per-unit-power accumulators: 10^39,
/// written as the cube of 10^13.
#[verifier::inline]
pub open spec fn scale() -> int {
    10_000_000_000_000int * 10_000_000_000_000 * 10_000_000_000_000
}

/// High limb of the fixed-point scale.
pub const SCALE_HI: u128 = 2;

/// Low limb of the fixed-point scale.
pub const SCALE_LO: u128 = 319_435_266_158_123_073_073_250_785_136_463_577_088;

/// One emission spread over a total voting power: the per-unit-power delta
/// it adds to the accumulator, scaled up before the one floor division.
pub open spec fn spec_spread(emitted: int, total_power: int) -> int {
    emitted * scale() / total_power
}

/// What a participant's power collects from an accumulator delta, with the
/// one floor division by the fixed-point scale at the very end.
pub open spec fn spec_collect(delta: int, power: int) -> int {
    delta * power / scale()
}

/// The wide value holding the given mathematical value.
pub open spec fn u256_of(v: int) -> U256 {
    U256 { hi: (v / limb_base()) as u128, lo: (v % limb_base()) as u128 }
}

/// `u256_of` inverts the view on every value a 256-bit accumulator can hold.
pub proof fn lemma_u256_of(v: int)
    requires
        0 <= v < u256_bound(),
    ensures
        u256_of(v)@ == v,
{
    vstd::arithmetic::div_mod::lemma_fundamental_div_mod(v, limb_base());
    vstd::arithmetic::div_mod::lemma_mod_bound(v, limb_base());
    vstd::arithmetic::div_mod::lemma_div_pos_is_pos(v, limb_base());
    vstd::arithmetic::div_mod::lemma_multiply_divide_lt(v, limb_base(), limb_base());
}

/// Floor division times the divisor never exceeds the dividend.
pub proof fn lemma_div_mul_le(x: int, d: int)
    requires
        x >= 0,
        d > 0,
    ensures
        d * (x / d) <= x,
        (x / d) * d <= x,
        x / d >= 0,
{
    vstd::arithmetic::div_mod::lemma_fundamental_div_mod(x, d);
    vstd::arithmetic::div_mod::lemma_mod_bound(x, d);
    vstd::arithmetic::div_mod::lemma_div_pos_is_pos(x, d);
    vstd::arithmetic::mul::lemma_mul_is_commutative(d, x / d);
}

/// An unsigned 256-bit integer as two 128-bit limbs.
#[derive(Clone, Copy, Debug, PartialEq, Eq, Structural)]
pub struct U256 {
    /// The high 128 bits.
    pub hi: u128,
    /// The low 128 bits.
    pub lo: u128,
}

impl View for U256 {
    type V = nat;

    open spec fn view(&self) -> nat {
        (self.hi * limb_base() + self.lo) as nat
    }
}

impl U256 {
    /// The zero accumulator.
    pub fn zero() -> (r: U256)
        ensures
            r@ == 0,
    {
        U256 { hi: 0, lo: 0 }
    }

    /// Widens a 128-bit value.
    pub fn from_u128(v: u128) -> (r: U256)
        ensures
            r@ == v,
    {
        U256 { hi: 0, lo: v }
    }

    /// The fixed-point scale, 10^39, as a wide value.
    pub fn scale_factor() -> (r: U256)
        ensures
            r@ == scale(),
    {
        U256 { hi: SCALE_HI, lo: SCALE_LO }
    }

    /// True exactly on the zero value.
    pub fn is_zero(&self) -> (r: bool)
        ensures
            r <==> self@ == 0,
    {
        self.hi == 0 && self.lo == 0
    }

    /// Narrows to 128 bits; `None` exactly when the value does not fit.
    pub fn try_to_u128(&self) -> (r: Option<u128>)
        ensures
            r is Some <==> self@ < limb_base(),
            r matches Some(v) ==> v == self@,
    {
        if self.hi == 0 {
            Some(self.lo)
        } else {
            None
        }
    }

    /// The sum; `None` exactly when it does not fit in 256 bits.
    pub fn checked_add(&self, other: &U256) -> (r: Option<U256>)
        ensures
            r is Some <==> self@ + other@ < u256_bound(),
            r matches Some(v) ==> v@ == self@ + other@,
    {
        match self.lo.checked_add(other.lo) {
            Some(lo) => match self.hi.checked_add(other.hi) {
                Some(hi) => Some(U256 { hi, lo }),
                None => None,
            },
            None => {
                let lo = self.lo.wrapping_add(other.lo);
                match self.hi.checked_add(other.hi) {
                    Some(h) => match h.checked_add(1) {
                        Some(hi) => Some(U256 { hi, lo }),
                        None => None,
                    },
                    None => None,
                }
            },
        }
    }

    /// The product; `None` exactly when it does not fit in 256 bits.
    ///
    /// Relies on `cosmwasm_std::Uint256::checked_mul`: the exact 256-bit
    /// product, or an overflow error when the mathematical product does not
    /// fit. Limbs are carried across as big-endian bytes.
    #[verifier::external_body]
    pub fn checked_mul(&self, other: &U256) -> (r: Option<U256>)
        ensures
            r is Some <==> self@ * other@ < u256_bound(),
            r matches Some(v) ==> v@ == self@ * other@,
    {
        let mut ab = [0u8; 32];
        ab[..16].copy_from_slice(&self.hi.to_be_bytes());
        ab[16..].copy_from_slice(&self.lo.to_be_bytes());
        let mut bb = [0u8; 32];
        bb[..16].copy_from_slice(&other.hi.to_be_bytes());
        bb[16..].copy_from_slice(&other.lo.to_be_bytes());
        let x = cosmwasm_std::Uint256::from_be_bytes(ab);
        let y = cosmwasm_std::Uint256::from_be_bytes(bb);
        let zb = x.checked_mul(y).ok()?.to_be_bytes();
        let hi = u128::from_be_bytes(zb[..16].try_into().unwrap());
        let lo = u128::from_be_bytes(zb[16..].try_into().unwrap());
        Some(U256 { hi, lo })
    }

    /// The floor quotient; `None` exactly when the divisor is zero.
    ///
    /// Relies on `cosmwasm_std::Uint256::checked_div`: floor division of
    /// 256-bit unsigned values, an error only on a zero divisor. Limbs are
    /// carried across as big-endian bytes.
    #[verifier::external_body]
    pub fn checked_div(&self, other: &U256) -> (r: Option<U256>)
        ensures
            r is Some <==> other@ != 0,
            r matches Some(v) ==> v@ == self@ / other@,
    {
        let mut ab = [0u8; 32];
        ab[..16].copy_from_slice(&self.hi.to_be_bytes());
        ab[16..].copy_from_slice(&self.lo.to_be_bytes());
        let mut bb = [0u8; 32];
        bb[..16].copy_from_slice(&other.hi.to_be_bytes());
        bb[16..].copy_from_slice(&other.lo.to_be_bytes());
        let x = cosmwasm_std::Uint256::from_be_bytes(ab);
        let y = cosmwasm_std::Uint256::from_be_bytes(bb);
        let zb = x.checked_div(y).ok()?.to_be_bytes();
        let hi = u128::from_be_bytes(zb[..16].try_into().unwrap());
        let lo = u128::from_be_bytes(zb[16..].try_into().unwrap());
        Some(U256 { hi, lo })
    }

    /// The difference; `None` exactly when the subtrahend is larger.
    pub fn checked_sub(&self, other: &U256) -> (r: Option<U256>)
        ensures
            r is Some <==> other@ <= self@,
            r matches Some(v) ==> v@ == self@ - other@,
    {
        if self.lo >= other.lo {
            match self.hi.checked_sub(other.hi) {
                Some(hi) => Some(U256 { hi, lo: self.lo - other.lo }),
                None => None,
            }
        } else {
            let lo = self.lo.wrapping_sub(other.lo);
            match self.hi.checked_sub(other.hi) {
                Some(h) => match h.checked_sub(1) {
                    Some(hi) => Some(U256 { hi, lo }),
                    None => None,
                },
                None => None,
            }
        }
    }
}

} // verus!
