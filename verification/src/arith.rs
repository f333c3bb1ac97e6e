//! Thirty-two-bit signed arithmetic that wraps around, and division that
//! rounds toward zero.

use vstd::prelude::*;
use vstd::arithmetic::div_mod::{
    lemma_fundamental_div_mod, lemma_fundamental_div_mod_converse, lemma_mod_bound,
};

verus! {

/// The number of values of a thirty-two-bit integer.
pub open spec fn modulus() -> int {
    0x1_0000_0000
}

/// The value in the range of `i32` that differs from `n` by a multiple of
/// two to the thirty-second power.
pub open spec fn wrap32(n: int) -> i32 {
    let m = n % modulus();
    if m > i32::MAX {
        (m - modulus()) as i32
    } else {
        m as i32
    }
}

/// The quotient of `a` by `b` rounded toward zero.
pub open spec fn quotient(a: int, b: int) -> int
    recommends
        b != 0,
{
    if a >= 0 && b > 0 {
        a / b
    } else if a < 0 && b < 0 {
        (-a) / (-b)
    } else if a < 0 {
        -((-a) / b)
    } else {
        -(a / (-b))
    }
}

/// Wrapping leaves a value that already fits unchanged.
pub proof fn lemma_wrap32_fits(n: int)
    requires
        i32::MIN <= n <= i32::MAX,
    ensures
        wrap32(n) == n,
{
    if n >= 0 {
        lemma_fundamental_div_mod_converse(n, modulus(), 0, n);
    } else {
        lemma_fundamental_div_mod_converse(n, modulus(), -1, n + modulus());
    }
}

/// Wrapping moves a value by a multiple of the modulus.
pub proof fn lemma_wrap32_shift(n: int) -> (k: int)
    ensures
        wrap32(n) == n + k * modulus(),
{
    lemma_fundamental_div_mod(n, modulus());
    lemma_mod_bound(n, modulus());
    let q = n / modulus();
    assert(n == modulus() * q + n % modulus());
    if n % modulus() > i32::MAX {
        assert(modulus() * q == q * modulus()) by (nonlinear_arith);
        assert((-q - 1) * modulus() == -(q * modulus()) - modulus()) by (nonlinear_arith);
        -q - 1
    } else {
        assert(modulus() * q == q * modulus()) by (nonlinear_arith);
        assert((-q) * modulus() == -(q * modulus())) by (nonlinear_arith);
        -q
    }
}

/// Two values that differ by a multiple of the modulus wrap to the same
/// value.
pub proof fn lemma_wrap32_same(a: int, b: int, k: int)
    requires
        a == b + k * modulus(),
    ensures
        wrap32(a) == wrap32(b),
{
    lemma_fundamental_div_mod(b, modulus());
    lemma_mod_bound(b, modulus());
    let q = b / modulus();
    let r = b % modulus();
    assert(a == (q + k) * modulus() + r) by (nonlinear_arith)
        requires
            a == b + k * modulus(),
            b == modulus() * q + r,
    ;
    lemma_fundamental_div_mod_converse(a, modulus(), q + k, r);
}

/// Wrapping an intermediate result does not change the wrapped value of
/// a sum of products.
pub proof fn lemma_wrap32_step(a: int, m: int, d: int)
    ensures
        wrap32(wrap32(a) * m + d) == wrap32(a * m + d),
{
    let k = lemma_wrap32_shift(a);
    assert(wrap32(a) * m + d == (a * m + d) + (k * m) * modulus()) by (nonlinear_arith)
        requires
            wrap32(a) == a + k * modulus(),
    ;
    lemma_wrap32_same(wrap32(a) * m + d, a * m + d, k * m);
}

/// The machine's wrapping addition is the wrapped sum.
pub proof fn lemma_wrapping_add(x: i32, y: i32)
    ensures
        vstd::wrapping::i32_specs::wrapping_add(x, y) == wrap32(x + y),
{
    let s = x + y;
    if s > i32::MAX {
        lemma_wrap32_fits(s - modulus());
        lemma_wrap32_same(s, s - modulus(), 1);
    } else if s < i32::MIN {
        lemma_wrap32_fits(s + modulus());
        lemma_wrap32_same(s, s + modulus(), -1);
    } else {
        lemma_wrap32_fits(s);
    }
}

/// The machine's wrapping subtraction is the wrapped difference.
pub proof fn lemma_wrapping_sub(x: i32, y: i32)
    ensures
        vstd::wrapping::i32_specs::wrapping_sub(x, y) == wrap32(x - y),
{
    let s = x - y;
    if s > i32::MAX {
        lemma_wrap32_fits(s - modulus());
        lemma_wrap32_same(s, s - modulus(), 1);
    } else if s < i32::MIN {
        lemma_wrap32_fits(s + modulus());
        lemma_wrap32_same(s, s + modulus(), -1);
    } else {
        lemma_wrap32_fits(s);
    }
}

/// The machine's wrapping multiplication is the wrapped product.
pub proof fn lemma_wrapping_mul(x: i32, y: i32)
    ensures
        vstd::wrapping::i32_specs::wrapping_mul(x, y) == wrap32(x * y),
{
}

/// Sum of two numbers, wrapped around.
pub fn wrapping_sum(x: i32, y: i32) -> (r: i32)
    ensures
        r == wrap32(x + y),
{
    proof {
        lemma_wrapping_add(x, y);
    }
    x.wrapping_add(y)
}

/// Difference of two numbers, wrapped around.
pub fn wrapping_difference(x: i32, y: i32) -> (r: i32)
    ensures
        r == wrap32(x - y),
{
    proof {
        lemma_wrapping_sub(x, y);
    }
    x.wrapping_sub(y)
}

/// Product of two numbers, wrapped around.
pub fn wrapping_product(x: i32, y: i32) -> (r: i32)
    ensures
        r == wrap32(x * y),
{
    proof {
        lemma_wrapping_mul(x, y);
    }
    x.wrapping_mul(y)
}

/// Quotient of two numbers rounded toward zero, wrapped around; `None`
/// when the divisor is zero.
pub fn wrapping_quotient(x: i32, y: i32) -> (r: Option<i32>)
    ensures
        y == 0 ==> r is None,
        y != 0 ==> r == Some(wrap32(quotient(x as int, y as int))),
{
    if y == 0 {
        return None;
    }
    match x.checked_div(y) {
        Some(q) => {
            proof {
                lemma_quotient_forms(x as int, y as int);
                lemma_wrap32_fits(q as int);
            }
            Some(q)
        },
        None => {
            proof {
                lemma_quotient_forms(x as int, y as int);
                lemma_quotient_bound(x as int, y as int);
                assert(quotient(x as int, y as int) == 0x8000_0000int);
                lemma_wrap32_fits(i32::MIN as int);
                lemma_wrap32_same(0x8000_0000int, i32::MIN as int, 1);
            }
            Some(i32::MIN)
        },
    }
}

/// The quotient written with multiplications by minus one.
proof fn lemma_quotient_forms(x: int, d: int)
    requires
        d != 0,
    ensures
        quotient(x, d) == (if x == 0 {
            0
        } else if x > 0 && d > 0 {
            x / d
        } else if x < 0 && d < 0 {
            ((x * -1) / (d * -1))
        } else if x < 0 {
            ((x * -1) / d) * -1
        } else {
            (x / (d * -1)) * -1
        }),
{
    if x == 0 {
        if d > 0 {
            assert(0int / d == 0) by (nonlinear_arith)
                requires
                    d > 0,
            ;
        } else {
            assert(0int / (-d) == 0) by (nonlinear_arith)
                requires
                    d < 0,
            ;
        }
    }
}

/// Division rounds toward zero: what is left over, `a - quotient(a, b)
/// * b`, is smaller in magnitude than the divisor and is not of the sign
/// opposite to the dividend's.
pub proof fn lemma_quotient_truncates(a: int, b: int)
    requires
        b != 0,
    ensures
        a >= 0 && b > 0 ==> 0 <= a - quotient(a, b) * b < b,
        a >= 0 && b < 0 ==> 0 <= a - quotient(a, b) * b < -b,
        a < 0 && b > 0 ==> -b < a - quotient(a, b) * b <= 0,
        a < 0 && b < 0 ==> b < a - quotient(a, b) * b <= 0,
{
    let x = if a >= 0 {
        a
    } else {
        -a
    };
    let d = if b > 0 {
        b
    } else {
        -b
    };
    lemma_fundamental_div_mod(x, d);
    lemma_mod_bound(x, d);
    let q = x / d;
    assert(x == d * q + x % d);
    if a >= 0 && b > 0 {
        assert(quotient(a, b) * b == d * q) by (nonlinear_arith)
            requires
                quotient(a, b) == q,
                b == d,
        ;
    } else if a >= 0 && b < 0 {
        assert(quotient(a, b) * b == d * q) by (nonlinear_arith)
            requires
                quotient(a, b) == -q,
                b == -d,
        ;
    } else if a < 0 && b > 0 {
        assert(quotient(a, b) * b == -(d * q)) by (nonlinear_arith)
            requires
                quotient(a, b) == -q,
                b == d,
        ;
    } else {
        assert(quotient(a, b) * b == -(d * q)) by (nonlinear_arith)
            requires
                quotient(a, b) == q,
                b == -d,
        ;
    }
}

/// The quotient is no larger in magnitude than the dividend.
pub proof fn lemma_quotient_bound(x: int, d: int)
    requires
        d != 0,
    ensures
        x >= 0 ==> -x <= quotient(x, d) <= x,
        x < 0 ==> x <= quotient(x, d) <= -x,
{
    let ax = if x >= 0 { x } else { -x };
    let ad = if d >= 0 { d } else { -d };
    assert(0 <= ax / ad <= ax) by (nonlinear_arith)
        requires
            ax >= 0,
            ad > 0,
    ;
}

} // verus!
