use vstd::arithmetic::div_mod::{
    lemma_div_by_multiple, lemma_fundamental_div_mod, lemma_mod_division_less_than_divisor,
    lemma_multiply_divide_le,
};
use vstd::arithmetic::mul::{lemma_mul_inequality, lemma_mul_is_commutative, lemma_mul_nonnegative};
use vstd::prelude::*;

verus! {

/// `10^e` as a mathematical integer.
pub open spec fn pow10(e: nat) -> nat
    decreases e,
{
    if e == 0 {
        1
    } else {
        10 * pow10((e - 1) as nat)
    }
}

/// An amount rescaled up by `e` decimal places.
pub open spec fn spec_add_decimals(v: nat, e: nat) -> nat {
    v * pow10(e)
}

/// An amount rescaled down by `e` decimal places; integer division
/// truncates toward zero, so a fractional remainder is discarded.
pub open spec fn spec_remove_decimals(v: nat, e: nat) -> nat {
    v / pow10(e)
}

/// The constant-product swap output: with input reserve `x`, output
/// reserve `y` and input amount `dx`, the trade leaves the output reserve
/// at `(x * y) / (x + dx)` and pays out the rest of `y`.
pub open spec fn spec_dy(x: int, y: int, dx: int) -> int {
    y - (x * y) / (x + dx)
}

pub proof fn lemma_pow10_pos(e: nat)
    ensures
        pow10(e) >= 1,
    decreases e,
{
    if e > 0 {
        lemma_pow10_pos((e - 1) as nat);
    }
}

pub proof fn lemma_pow10_monotone(e1: nat, e2: nat)
    requires
        e1 <= e2,
    ensures
        pow10(e1) <= pow10(e2),
    decreases e2,
{
    if e1 < e2 {
        lemma_pow10_monotone(e1, (e2 - 1) as nat);
        lemma_pow10_pos((e2 - 1) as nat);
    }
}

/// Powers of ten up to `10^38` fit the 128-bit integer width.
#[verifier::rlimit(50)]
pub proof fn lemma_pow10_fits_u128(e: nat)
    requires
        e <= 38,
    ensures
        pow10(e) <= u128::MAX,
{
    lemma_pow10_monotone(e, 38);
    assert(pow10(38) == 0x4b3b4ca85a86c47a098a224000000000) by {
        reveal_with_fuel(pow10, 39);
    }
}

/// `10^e`, for exponents small enough that the power fits the integer width.
fn pow10_u128(e: u8) -> (r: u128)
    requires
        pow10(e as nat) <= u128::MAX,
    ensures
        r == pow10(e as nat),
{
    let mut r: u128 = 1;
    let mut i: u8 = 0;
    while i < e
        invariant
            i <= e,
            r == pow10(i as nat),
            pow10(e as nat) <= u128::MAX,
        decreases e - i,
    {
        proof {
            lemma_pow10_monotone((i + 1) as nat, e as nat);
        }
        r = r * 10;
        i = i + 1;
    }
    r
}

/// Rescales `value` up by `decimals` decimal places: the exact product
/// `value * 10^decimals`. Exponents or products that would overflow the
/// integer width are rejected by the precondition.
pub fn add_decimals(value: u128, decimals: u8) -> (r: u128)
    requires
        pow10(decimals as nat) <= u128::MAX,
        spec_add_decimals(value as nat, decimals as nat) <= u128::MAX,
    ensures
        r == spec_add_decimals(value as nat, decimals as nat),
{
    let p = pow10_u128(decimals);
    value * p
}

/// Rescales `value` down by `decimals` decimal places: the truncating
/// quotient `value / 10^decimals`.
pub fn remove_decimals(value: u128, decimals: u8) -> (r: u128)
    requires
        pow10(decimals as nat) <= u128::MAX,
    ensures
        r == spec_remove_decimals(value as nat, decimals as nat),
        r <= value,
{
    let p = pow10_u128(decimals);
    proof {
        lemma_pow10_pos(decimals as nat);
        lemma_fundamental_div_mod(value as int, p as int);
        lemma_mod_division_less_than_divisor(value as int, p as int);
        lemma_mul_nonnegative(p as int, value as int / p as int);
    }
    value / p
}

/// The constant-product swap output on executable integers. The input
/// reserve `x` and the input amount `dx` may not both be zero, and the
/// intermediate values must fit the integer width; both bounds come from
/// the machine, not from the pricing rule.
pub fn calc_dy(x: u128, y: u128, dx: u128) -> (r: u128)
    requires
        x + dx > 0,
        x + dx <= u128::MAX,
        x * y <= u128::MAX,
    ensures
        r == spec_dy(x as int, y as int, dx as int),
        r <= y,
{
    let s = x + dx;
    let q = (x * y) / s;
    proof {
        lemma_mul_inequality(x as int, s as int, y as int);
        lemma_multiply_divide_le((x * y) as int, s as int, y as int);
    }
    y - q
}

/// One swap step keeps the constant product within one rounding unit.
///
/// Writing `k` for the product of the reserves before the trade and
/// `(x + dx, y - spec_dy(x, y, dx))` for the reserves after it, the new
/// product never exceeds `k`, falls short of `k` by less than one unit of
/// the new input reserve, and equals `k` exactly whenever `x + dx`
/// divides `k`.
pub proof fn lemma_swap_product(x: int, y: int, dx: int)
    requires
        0 <= x,
        0 <= y,
        0 <= dx,
        0 < x + dx,
    ensures
        ({
            let k = x * y;
            let x_after = x + dx;
            let y_after = y - spec_dy(x, y, dx);
            &&& y_after * x_after <= k
            &&& k - y_after * x_after < x_after
            &&& (k % x_after == 0 ==> y_after * x_after == k)
        }),
{
    let k = x * y;
    let s = x + dx;
    lemma_mul_nonnegative(x, y);
    lemma_fundamental_div_mod(k, s);
    lemma_mod_division_less_than_divisor(k, s);
    lemma_mul_is_commutative(k / s, s);
}

/// When the new input reserve divides the old product exactly, truncation
/// loses nothing: the product of the reserves after the trade is no less
/// than the product before it.
pub proof fn lemma_swap_product_not_below(x: int, y: int, dx: int)
    requires
        0 <= x,
        0 <= y,
        0 <= dx,
        0 < x + dx,
        (x * y) % (x + dx) == 0,
    ensures
        (y - spec_dy(x, y, dx)) * (x + dx) >= x * y,
{
    lemma_swap_product(x, y, dx);
}

/// Rescaling round trips: scaling up and back down is exact, while
/// scaling down and back up may lose the truncated remainder and so never
/// exceeds the original amount.
pub proof fn lemma_scale_round_trip(v: nat, e: nat)
    ensures
        spec_remove_decimals(spec_add_decimals(v, e), e) == v,
        spec_add_decimals(spec_remove_decimals(v, e), e) <= v,
{
    let p = pow10(e);
    lemma_pow10_pos(e);
    lemma_div_by_multiple(v as int, p as int);
    lemma_fundamental_div_mod(v as int, p as int);
    lemma_mod_division_less_than_divisor(v as int, p as int);
    lemma_mul_is_commutative(p as int, (v / p) as int);
}

} // verus!
