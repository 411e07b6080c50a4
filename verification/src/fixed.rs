use vstd::prelude::*;
use vstd::arithmetic::div_mod::lemma_fundamental_div_mod_converse;

verus! {

/// One map unit. Every length, height and speed is a whole number of
/// 1/65536ths of a unit.
pub const ONE: i64 = 65536;

/// Largest magnitude a coordinate may take. Sums that would leave the range
/// stop at this edge.
pub const LIMIT: i64 = 0x100_0000_0000;

/// Nanoseconds in one second.
pub const NANOS_PER_SEC: u64 = 1_000_000_000;

pub open spec fn in_range(x: int) -> bool {
    -LIMIT <= x <= LIMIT
}

/// `x` brought to the nearest value of the coordinate range.
pub open spec fn saturate(x: int) -> int {
    if x > LIMIT {
        LIMIT as int
    } else if x < -LIMIT {
        -LIMIT
    } else {
        x
    }
}

/// The quotient rounded away from zero, for a positive divisor.
pub open spec fn div_away(a: int, b: int) -> int
    recommends
        b > 0,
{
    if a >= 0 {
        (a + b - 1) / b
    } else {
        a / b
    }
}

pub open spec fn min(a: int, b: int) -> int {
    if a <= b {
        a
    } else {
        b
    }
}

pub open spec fn max(a: int, b: int) -> int {
    if a >= b {
        a
    } else {
        b
    }
}

/// A product of two bounded factors is bounded by the product of the bounds.
pub proof fn lemma_mul_bound(a: int, b: int, ba: int, bb: int)
    requires
        -ba <= a <= ba,
        -bb <= b <= bb,
    ensures
        -(ba * bb) <= a * b <= ba * bb,
{
    assert(-(ba * bb) <= a * b <= ba * bb) by (nonlinear_arith)
        requires
            -ba <= a <= ba,
            -bb <= b <= bb,
    ;
}

pub fn clamp_coord(x: i128) -> (r: i64)
    ensures
        r == saturate(x as int),
        in_range(r as int),
{
    if x > LIMIT as i128 {
        LIMIT
    } else if x < -(LIMIT as i128) {
        -LIMIT
    } else {
        x as i64
    }
}

/// The exact product of two 64-bit values.
pub fn mul_wide(a: i64, b: i64) -> (r: i128)
    ensures
        r == a * b,
{
    proof {
        lemma_mul_bound(a as int, b as int, 0x8000_0000_0000_0000, 0x8000_0000_0000_0000);
    }
    (a as i128) * (b as i128)
}

/// Division rounding toward negative infinity.
pub fn div_floor(a: i128, b: i128) -> (q: i128)
    requires
        b > 0,
        a > i128::MIN,
    ensures
        q == (a as int) / (b as int),
{
    if a >= 0 {
        a / b
    } else {
        let n: i128 = -a;
        let q0: i128 = n / b;
        let r0: i128 = n % b;
        assert(n == q0 * b + r0) by {
            vstd::arithmetic::div_mod::lemma_fundamental_div_mod(n as int, b as int);
            vstd::arithmetic::mul::lemma_mul_is_commutative(q0 as int, b as int);
        }
        if r0 == 0 {
            proof {
                assert(a == (-q0) * b + 0) by (nonlinear_arith)
                    requires
                        n == q0 * b + r0,
                        r0 == 0,
                        a == -n,
                ;
                lemma_fundamental_div_mod_converse(a as int, b as int, -(q0 as int), 0);
            }
            -q0
        } else {
            proof {
                assert(a == (-q0 - 1) * b + (b - r0)) by (nonlinear_arith)
                    requires
                        n == q0 * b + r0,
                        a == -n,
                ;
                lemma_fundamental_div_mod_converse(
                    a as int,
                    b as int,
                    -(q0 as int) - 1,
                    b - r0,
                );
            }
            -q0 - 1
        }
    }
}

/// Division rounding away from zero.
pub fn div_round_away(a: i128, b: i128) -> (q: i128)
    requires
        b > 0,
        a > i128::MIN,
        a + b <= i128::MAX,
    ensures
        q == div_away(a as int, b as int),
{
    if a >= 0 {
        (a + (b - 1)) / b
    } else {
        div_floor(a, b)
    }
}

/// Bounds on a floor quotient with a positive divisor.
pub proof fn lemma_div_floor_bounds(a: int, b: int)
    requires
        b > 0,
    ensures
        a / b * b <= a,
        a < (a / b + 1) * b,
        a >= 0 ==> 0 <= a / b <= a,
        a < 0 ==> a <= a / b < 0,
{
    vstd::arithmetic::div_mod::lemma_fundamental_div_mod(a, b);
    vstd::arithmetic::div_mod::lemma_mod_bound(a, b);
    let q = a / b;
    let r = a % b;
    assert(a == b * q + r);
    assert(q * b <= a && a < (q + 1) * b) by (nonlinear_arith)
        requires
            a == b * q + r,
            0 <= r < b,
    ;
    if a >= 0 {
        assert(0 <= q <= a) by (nonlinear_arith)
            requires
                a == b * q + r,
                0 <= r < b,
                a >= 0,
                b > 0,
        ;
    } else {
        assert(a <= q && q < 0) by (nonlinear_arith)
            requires
                a == b * q + r,
                0 <= r < b,
                a < 0,
                b > 0,
        ;
    }
}

} // verus!
