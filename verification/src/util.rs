use vstd::prelude::*;

verus! {

/// The remainder of Rust's truncating `%` operator on signed integers.
pub(crate) open spec fn trunc_rem(a: int, m: int) -> int {
    if a >= 0 {
        a % m
    } else {
        -((-a) % m)
    }
}

/// The quotient of Rust's truncating `/` operator on signed integers.
pub(crate) open spec fn trunc_div(a: int, m: int) -> int {
    if a >= 0 {
        a / m
    } else {
        -((-a) / m)
    }
}

/// A positive divisor divides a value exactly when it divides its negation.
pub(crate) proof fn lemma_mod_zero_neg(a: int, m: int)
    requires
        m > 0,
    ensures
        (a % m == 0) <==> ((-a) % m == 0),
{
    vstd::arithmetic::div_mod::lemma_fundamental_div_mod(a, m);
    vstd::arithmetic::div_mod::lemma_fundamental_div_mod(-a, m);
    vstd::arithmetic::div_mod::lemma_mod_division_less_than_divisor(a, m);
    vstd::arithmetic::div_mod::lemma_mod_division_less_than_divisor(-a, m);
    let q = a / m;
    let r = a % m;
    if r == 0 {
        assert(-a == (-q) * m + 0) by (nonlinear_arith)
            requires
                a == m * q + r,
                r == 0,
        ;
        vstd::arithmetic::div_mod::lemma_fundamental_div_mod_converse_mod(-a, m, -q, 0);
    } else {
        assert(-a == (-q - 1) * m + (m - r)) by (nonlinear_arith)
            requires
                a == m * q + r,
        ;
        vstd::arithmetic::div_mod::lemma_fundamental_div_mod_converse_mod(-a, m, -q - 1, m - r);
    }
}

/// How Rust's truncating quotient and remainder relate to the Euclidean ones.
pub(crate) proof fn lemma_trunc_div_rem(a: int, m: int)
    requires
        m > 0,
    ensures
        a == m * trunc_div(a, m) + trunc_rem(a, m),
        a % m == 0 ==> trunc_rem(a, m) == 0 && trunc_div(a, m) == a / m,
        a >= 0 ==> trunc_rem(a, m) == a % m && trunc_div(a, m) == a / m,
        a < 0 && a % m != 0 ==> trunc_rem(a, m) == a % m - m && trunc_div(a, m) == a / m + 1,
        (a - trunc_rem(a, m)) % m == 0,
        -m < trunc_rem(a, m) < m,
{
    vstd::arithmetic::div_mod::lemma_fundamental_div_mod(a, m);
    vstd::arithmetic::div_mod::lemma_fundamental_div_mod(-a, m);
    vstd::arithmetic::div_mod::lemma_mod_division_less_than_divisor(a, m);
    vstd::arithmetic::div_mod::lemma_mod_division_less_than_divisor(-a, m);
    let q = a / m;
    let r = a % m;
    lemma_mod_zero_neg(a, m);
    if a < 0 {
        if r == 0 {
            assert(-a == (-q) * m + 0) by (nonlinear_arith)
                requires
                    a == m * q + r,
                    r == 0,
            ;
            vstd::arithmetic::div_mod::lemma_fundamental_div_mod_converse(-a, m, -q, 0);
        } else {
            assert(-a == (-q - 1) * m + (m - r)) by (nonlinear_arith)
                requires
                    a == m * q + r,
            ;
            vstd::arithmetic::div_mod::lemma_fundamental_div_mod_converse(-a, m, -q - 1, m - r);
        }
    }
    assert(a == m * trunc_div(a, m) + trunc_rem(a, m)) by (nonlinear_arith)
        requires
            a == m * q + r,
            trunc_div(a, m) == (if a >= 0 || r == 0 {
                q
            } else {
                q + 1
            }),
            trunc_rem(a, m) == (if a >= 0 || r == 0 {
                r
            } else {
                r - m
            }),
    ;
    let d = a - trunc_rem(a, m);
    assert(d == trunc_div(a, m) * m + 0) by (nonlinear_arith)
        requires
            a == m * trunc_div(a, m) + trunc_rem(a, m),
            d == a - trunc_rem(a, m),
    ;
    vstd::arithmetic::div_mod::lemma_fundamental_div_mod_converse_mod(d, m, trunc_div(a, m), 0);
}

/// Two values that differ by a multiple of `m` have the same remainder.
pub(crate) proof fn lemma_mod_congruent(a: int, b: int, m: int)
    requires
        m > 0,
        (b - a) % m == 0,
    ensures
        a % m == b % m,
{
    vstd::arithmetic::div_mod::lemma_fundamental_div_mod(a, m);
    vstd::arithmetic::div_mod::lemma_fundamental_div_mod(b - a, m);
    vstd::arithmetic::div_mod::lemma_mod_division_less_than_divisor(a, m);
    let qa = a / m;
    let qd = (b - a) / m;
    assert(b == (qa + qd) * m + a % m) by (nonlinear_arith)
        requires
            a == m * qa + a % m,
            b - a == m * qd,
    ;
    vstd::arithmetic::div_mod::lemma_fundamental_div_mod_converse_mod(b, m, qa + qd, a % m);
}

/// Floored remainder of `a` by `b` for a positive divisor `b`.
///
/// Unlike Rust's `%` operator, the result is never negative.
pub fn modulo_i16(a: i16, b: i16) -> (r: i16)
    requires
        0 < b <= 0x3fff,
    ensures
        r == a as int % b as int,
        0 <= r < b,
{
    let t: i16 = a % b;
    if t < 0 {
        proof {
            let m = (-(a as int)) % (b as int);
            let q = (-(a as int)) / (b as int);
            vstd::arithmetic::div_mod::lemma_fundamental_div_mod(-(a as int), b as int);
            assert(a as int == (-q - 1) * (b as int) + (b - m)) by (nonlinear_arith)
                requires
                    -(a as int) == q * (b as int) + m,
            ;
            vstd::arithmetic::div_mod::lemma_fundamental_div_mod_converse_mod(
                a as int,
                b as int,
                -q - 1,
                b - m,
            );
        }
        t + b
    } else {
        proof {
            if a < 0 {
                let q = (-(a as int)) / (b as int);
                vstd::arithmetic::div_mod::lemma_fundamental_div_mod(-(a as int), b as int);
                vstd::arithmetic::div_mod::lemma_mod_division_less_than_divisor(
                    -(a as int),
                    b as int,
                );
                let m = (-(a as int)) % (b as int);
                assert(a as int == (-q) * (b as int) + 0) by (nonlinear_arith)
                    requires
                        -(a as int) == (b as int) * q + m,
                        m == 0,
                ;
                vstd::arithmetic::div_mod::lemma_fundamental_div_mod_converse_mod(
                    a as int,
                    b as int,
                    -q,
                    0,
                );
            }
        }
        t
    }
}

/// Floored remainder of `a` by `b` for a positive divisor `b`.
///
/// Unlike Rust's `%` operator, the result is never negative.
pub fn modulo_i32(a: i32, b: i32) -> (r: i32)
    requires
        0 < b <= 0x3fffffff,
    ensures
        r == a as int % b as int,
        0 <= r < b,
{
    let t: i32 = a % b;
    if t < 0 {
        proof {
            let m = (-(a as int)) % (b as int);
            let q = (-(a as int)) / (b as int);
            vstd::arithmetic::div_mod::lemma_fundamental_div_mod(-(a as int), b as int);
            assert(a as int == (-q - 1) * (b as int) + (b - m)) by (nonlinear_arith)
                requires
                    -(a as int) == q * (b as int) + m,
            ;
            vstd::arithmetic::div_mod::lemma_fundamental_div_mod_converse_mod(
                a as int,
                b as int,
                -q - 1,
                b - m,
            );
        }
        t + b
    } else {
        proof {
            if a < 0 {
                let q = (-(a as int)) / (b as int);
                vstd::arithmetic::div_mod::lemma_fundamental_div_mod(-(a as int), b as int);
                vstd::arithmetic::div_mod::lemma_mod_division_less_than_divisor(
                    -(a as int),
                    b as int,
                );
                let m = (-(a as int)) % (b as int);
                assert(a as int == (-q) * (b as int) + 0) by (nonlinear_arith)
                    requires
                        -(a as int) == (b as int) * q + m,
                        m == 0,
                ;
                vstd::arithmetic::div_mod::lemma_fundamental_div_mod_converse_mod(
                    a as int,
                    b as int,
                    -q,
                    0,
                );
            }
        }
        t
    }
}

} // verus!
