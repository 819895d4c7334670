//! 256-bit intermediates for the distribution arithmetic.
//!
//! A wide number is four little-endian 64-bit limbs, the layout of
//! `primitive_types::U256`, whose multiplication and division do the work.

use primitive_types::U256;
use vstd::prelude::*;

verus! {

/// Scale of the per-share accumulators: ten to the power 38.
pub const MULTIPLIER: u128 = 100_000_000_000_000_000_000_000_000_000_000_000_000;

/// Two to the power 64.
pub open spec fn limb_base() -> nat {
    0x1_0000_0000_0000_0000
}

/// Two to the power 256: one more than the largest wide number.
pub open spec fn wide_limit() -> nat {
    limb_base() * limb_base() * limb_base() * limb_base()
}

/// The number that four little-endian limbs stand for.
pub open spec fn limbs_value(l: [u64; 4]) -> nat {
    (l[0] as nat) + limb_base() * ((l[1] as nat) + limb_base() * ((l[2] as nat) + limb_base() * (
    l[3] as nat)))
}

/// `floor(a * b / d)`, and 0 where `d` is 0.
pub open spec fn mul_div_floor_spec(a: nat, b: nat, d: nat) -> nat {
    if d == 0 {
        0
    } else {
        (a * b) / d
    }
}

/// `ceil(a * b / d)`, and 0 where `d` is 0.
pub open spec fn mul_div_ceil_spec(a: nat, b: nat, d: nat) -> nat {
    if d == 0 {
        0
    } else {
        ((a * b + d - 1) / (d as int)) as nat
    }
}

/// The wide number equal to `x`.
pub fn wide_from_u128(x: u128) -> (r: [u64; 4])
    ensures
        limbs_value(r) == x,
{
    let lo: u64 = (x % 0x1_0000_0000_0000_0000) as u64;
    let hi: u64 = (x / 0x1_0000_0000_0000_0000) as u64;
    let r: [u64; 4] = [lo, hi, 0, 0];
    proof {
        assert(r[0] == lo && r[1] == hi && r[2] == 0 && r[3] == 0);
        assert(limb_base() * (0nat + limb_base() * 0nat) == 0) by (nonlinear_arith);
    }
    r
}

/// `l` as a `u128`, where it fits.
pub fn wide_to_u128(l: [u64; 4]) -> (r: Option<u128>)
    ensures
        r == (if limbs_value(l) <= u128::MAX {
            Some(limbs_value(l) as u128)
        } else {
            None
        }),
{
    let b: u128 = 0x1_0000_0000_0000_0000;
    proof {
        let hi = (l[2] as nat) + limb_base() * (l[3] as nat);
        assert(hi == 0 <==> (l[2] == 0 && l[3] == 0)) by (nonlinear_arith)
            requires
                hi == (l[2] as nat) + limb_base() * (l[3] as nat),
                limb_base() > 0,
        ;
        assert(hi >= 1 ==> limb_base() * (limb_base() * hi) >= limb_base() * limb_base())
            by (nonlinear_arith);
        assert(hi == 0 ==> limb_base() * ((l[1] as nat) + limb_base() * hi) == limb_base() * (
        l[1] as nat)) by (nonlinear_arith);
        assert(limb_base() * ((l[1] as nat) + limb_base() * hi) == limb_base() * (l[1] as nat)
            + limb_base() * (limb_base() * hi)) by (nonlinear_arith);
    }
    if l[2] == 0 && l[3] == 0 {
        Some((l[1] as u128) * b + (l[0] as u128))
    } else {
        None
    }
}

/// The operator `*` of `primitive_types::U256`: the product of two wide
/// numbers. The operator panics when the product does not fit, so the caller
/// shows that it does.
#[verifier::external_body]
fn wide_mul(a: [u64; 4], b: [u64; 4]) -> (r: [u64; 4])
    requires
        limbs_value(a) * limbs_value(b) < wide_limit(),
    ensures
        limbs_value(r) == limbs_value(a) * limbs_value(b),
{
    (U256(a) * U256(b)).0
}

/// `U256::checked_mul`: the product of two wide numbers, or `None` exactly
/// when it does not fit.
#[verifier::external_body]
fn wide_checked_mul(a: [u64; 4], b: [u64; 4]) -> (r: Option<[u64; 4]>)
    ensures
        limbs_value(a) * limbs_value(b) < wide_limit() ==> r.is_some() && limbs_value(r.unwrap())
            == limbs_value(a) * limbs_value(b),
        limbs_value(a) * limbs_value(b) >= wide_limit() ==> r.is_none(),
{
    match U256(a).checked_mul(U256(b)) {
        Some(p) => Some(p.0),
        None => None,
    }
}

/// The operator `/` of `primitive_types::U256`: the quotient of two wide
/// numbers, rounded down. The operator panics on a zero divisor, so the
/// caller shows that it is not zero.
#[verifier::external_body]
fn wide_div(a: [u64; 4], b: [u64; 4]) -> (r: [u64; 4])
    requires
        limbs_value(b) > 0,
    ensures
        limbs_value(r) == limbs_value(a) / limbs_value(b),
{
    (U256(a) / U256(b)).0
}

/// The operator `+` of `primitive_types::U256`: the sum of two wide numbers.
/// The operator panics when the sum does not fit, so the caller shows that
/// it does.
#[verifier::external_body]
fn wide_add(a: [u64; 4], b: [u64; 4]) -> (r: [u64; 4])
    requires
        limbs_value(a) + limbs_value(b) < wide_limit(),
    ensures
        limbs_value(r) == limbs_value(a) + limbs_value(b),
{
    (U256(a) + U256(b)).0
}

/// `U256::checked_sub`: the difference of two wide numbers, or `None`
/// exactly when the second is the larger.
#[verifier::external_body]
fn wide_checked_sub(a: [u64; 4], b: [u64; 4]) -> (r: Option<[u64; 4]>)
    ensures
        limbs_value(a) >= limbs_value(b) ==> r.is_some() && limbs_value(r.unwrap()) == limbs_value(
            a,
        ) - limbs_value(b),
        limbs_value(a) < limbs_value(b) ==> r.is_none(),
{
    match U256(a).checked_sub(U256(b)) {
        Some(d) => Some(d.0),
        None => None,
    }
}

/// The product of two 128-bit numbers is a wide number.
pub proof fn lemma_product_is_wide(a: nat, b: nat)
    requires
        a <= u128::MAX,
        b <= u128::MAX,
    ensures
        a * b + u128::MAX < wide_limit(),
{
    let m: nat = (u128::MAX as nat) + 1;
    assert(limb_base() * limb_base() == m) by (nonlinear_arith)
        requires
            limb_base() == 0x1_0000_0000_0000_0000,
            m == 0xffff_ffff_ffff_ffff_ffff_ffff_ffff_ffff + 1,
    ;
    assert(wide_limit() == m * m) by (nonlinear_arith)
        requires
            limb_base() * limb_base() == m,
            wide_limit() == limb_base() * limb_base() * limb_base() * limb_base(),
    ;
    assert(a * b <= (m - 1) * (m - 1)) by (nonlinear_arith)
        requires
            a <= m - 1,
            b <= m - 1,
    ;
    assert((m - 1) * (m - 1) + (m - 1) < m * m) by (nonlinear_arith)
        requires
            m >= 2,
    ;
}

/// `floor(a * b / d)` through a 256-bit product: `None` exactly when `d` is
/// 0 or the quotient does not fit in 128 bits.
pub fn mul_div_floor(a: u128, b: u128, d: u128) -> (r: Option<u128>)
    ensures
        r == (if d > 0 && mul_div_floor_spec(a as nat, b as nat, d as nat) <= u128::MAX {
            Some(mul_div_floor_spec(a as nat, b as nat, d as nat) as u128)
        } else {
            None
        }),
{
    if d == 0 {
        return None;
    }
    proof {
        lemma_product_is_wide(a as nat, b as nat);
    }
    let product = wide_mul(wide_from_u128(a), wide_from_u128(b));
    let quotient = wide_div(product, wide_from_u128(d));
    wide_to_u128(quotient)
}

/// `ceil(a * b / d)` through a 256-bit product: `None` exactly when `d` is 0
/// or the quotient does not fit in 128 bits.
pub fn mul_div_ceil(a: u128, b: u128, d: u128) -> (r: Option<u128>)
    ensures
        r == (if d > 0 && mul_div_ceil_spec(a as nat, b as nat, d as nat) <= u128::MAX {
            Some(mul_div_ceil_spec(a as nat, b as nat, d as nat) as u128)
        } else {
            None
        }),
{
    if d == 0 {
        return None;
    }
    proof {
        lemma_product_is_wide(a as nat, b as nat);
    }
    let product = wide_mul(wide_from_u128(a), wide_from_u128(b));
    let padded = wide_add(product, wide_from_u128(d - 1));
    let quotient = wide_div(padded, wide_from_u128(d));
    wide_to_u128(quotient)
}

/// `floor(wide * b / d)` for a wide first factor: `None` exactly when `d` is
/// 0, the product leaves 256 bits, or the quotient leaves 128 bits.
pub fn wide_mul_div_floor(wide: [u64; 4], b: u128, d: u128) -> (r: Option<u128>)
    ensures
        r == (if d > 0 && limbs_value(wide) * (b as nat) < wide_limit() && (limbs_value(wide) * (
        b as nat)) / (d as nat) <= u128::MAX {
            Some(((limbs_value(wide) * (b as nat)) / (d as nat)) as u128)
        } else {
            None
        }),
{
    if d == 0 {
        return None;
    }
    match wide_checked_mul(wide, wide_from_u128(b)) {
        Some(product) => wide_to_u128(wide_div(product, wide_from_u128(d))),
        None => None,
    }
}

/// `acc + floor(a * b / d)` on a wide accumulator, for `d > 0`.
pub fn wide_add_mul_div(acc: [u64; 4], a: u128, b: u128, d: u128) -> (r: [u64; 4])
    requires
        d > 0,
        limbs_value(acc) + (a as nat) * (b as nat) < wide_limit(),
    ensures
        limbs_value(r) == limbs_value(acc) + mul_div_floor_spec(a as nat, b as nat, d as nat),
{
    proof {
        lemma_product_is_wide(a as nat, b as nat);
        assert(((a as nat) * (b as nat)) / (d as nat) <= (a as nat) * (b as nat)) by (nonlinear_arith)
            requires
                d > 0,
        ;
    }
    let product = wide_mul(wide_from_u128(a), wide_from_u128(b));
    let quotient = wide_div(product, wide_from_u128(d));
    wide_add(acc, quotient)
}

/// What `shares` shares have earned while the accumulator went from
/// `snapshot` to `per_share`: `floor(shares * (per_share - snapshot) /
/// MULTIPLIER)`.
pub open spec fn accrued_spec(per_share: nat, snapshot: nat, shares: nat) -> nat {
    (((per_share - snapshot) * shares) / (MULTIPLIER as int)) as nat
}

/// The earning can be computed: the accumulator has not gone back, the
/// product stays within 256 bits and the quotient within 128.
pub open spec fn accrual_fits(per_share: nat, snapshot: nat, shares: nat) -> bool {
    &&& snapshot <= per_share
    &&& (per_share - snapshot) * shares < wide_limit()
    &&& accrued_spec(per_share, snapshot, shares) <= u128::MAX
}

/// `accrued_spec` on wide accumulators, or `None` where `accrual_fits` fails.
pub fn accrued(per_share: [u64; 4], snapshot: [u64; 4], shares: u128) -> (r: Option<u128>)
    ensures
        r == (if accrual_fits(limbs_value(per_share), limbs_value(snapshot), shares as nat) {
            Some(accrued_spec(limbs_value(per_share), limbs_value(snapshot), shares as nat) as u128)
        } else {
            None
        }),
{
    match wide_checked_sub(per_share, snapshot) {
        Some(diff) => wide_mul_div_floor(diff, shares, MULTIPLIER),
        None => None,
    }
}

/// Whether the wide number `a` is at most the wide number `b`.
pub fn wide_le(a: [u64; 4], b: [u64; 4]) -> (r: bool)
    ensures
        r == (limbs_value(a) <= limbs_value(b)),
{
    wide_checked_sub(b, a).is_some()
}

/// The wide product of two 128-bit numbers.
pub fn wide_product(a: u128, b: u128) -> (r: [u64; 4])
    ensures
        limbs_value(r) == (a as nat) * (b as nat),
{
    proof {
        lemma_product_is_wide(a as nat, b as nat);
    }
    wide_mul(wide_from_u128(a), wide_from_u128(b))
}

/// Scaling down by a ratio of at most one does not grow a number.
pub proof fn lemma_mul_div_floor_le(a: nat, b: nat, d: nat)
    requires
        b <= d,
        d > 0,
    ensures
        mul_div_floor_spec(a, b, d) <= a,
{
    assert(a * b <= a * d) by (nonlinear_arith)
        requires
            b <= d,
    ;
    vstd::arithmetic::div_mod::lemma_div_is_ordered((a * b) as int, (a * d) as int, d as int);
    vstd::arithmetic::div_mod::lemma_div_multiples_vanish(a as int, d as int);
    assert(a * d == d * a) by (nonlinear_arith);
}

/// A quotient by a positive number is at most the dividend.
pub proof fn lemma_mul_div_floor_le_product(a: nat, b: nat, d: nat)
    requires
        d > 0,
    ensures
        mul_div_floor_spec(a, b, d) <= a * b,
{
    assert((a * b) / d <= a * b) by (nonlinear_arith)
        requires
            d > 0,
    ;
}

} // verus!
