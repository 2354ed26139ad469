//! Arithmetic modulo the field's prime, stated over mathematical integers.
use vstd::arithmetic::div_mod::{
    lemma_fundamental_div_mod, lemma_mod_bound, lemma_mod_multiples_basic, lemma_mul_mod_noop_left,
    lemma_mul_mod_noop_right, lemma_small_mod, lemma_mul_mod_noop, lemma_mod_twice,
};
use vstd::arithmetic::mul::lemma_mul_is_associative;
use vstd::arithmetic::power::pow;
use vstd::prelude::*;

use crate::finite_field::MODULUS;

verus! {

/// The field's modulus as a mathematical integer.
pub open spec fn modulus() -> int {
    MODULUS as int
}

/// A canonical representative lies in `[0, p)`.
pub open spec fn is_canonical(a: int) -> bool {
    0 <= a < modulus()
}

pub open spec fn field_add(a: int, b: int) -> int {
    (a + b) % modulus()
}

pub open spec fn field_sub(a: int, b: int) -> int {
    (a - b) % modulus()
}

pub open spec fn field_mul(a: int, b: int) -> int {
    (a * b) % modulus()
}

/// The multiplicative inverse: the canonical `b` with `a * b == 1 (mod p)`.
/// By convention the inverse of zero is zero.
pub open spec fn field_inv(a: int) -> int {
    if a % modulus() == 0 {
        0
    } else {
        choose|b: int| is_canonical(b) && #[trigger] field_mul(a, b) == 1
    }
}

/// Division is multiplication by the inverse, so dividing by zero gives zero.
pub open spec fn field_div(a: int, b: int) -> int {
    field_mul(a, field_inv(b))
}

pub open spec fn field_pow(a: int, e: nat) -> int {
    pow(a, e) % modulus()
}

pub open spec fn is_prime(n: int) -> bool {
    &&& n > 1
    &&& forall|d: int| 1 < d < n ==> #[trigger] (n % d) != 0
}

/// No factorisation of the modulus has a factor other than one below `2^16`.
#[verifier::rlimit(100)]
proof fn lemma_no_small_factor(x: u32, y: u32)
    by (bit_vector)
    requires
        (x as u64) * (y as u64) == 4293918721u64,
        x < 0x10000,
    ensures
        x == 1,
{
}

pub proof fn lemma_modulus_is_prime()
    ensures
        is_prime(modulus()),
{
    assert forall|d: int| 1 < d < modulus() implies #[trigger] (modulus() % d) != 0 by {
        if modulus() % d == 0 {
            let e = modulus() / d;
            lemma_fundamental_div_mod(modulus(), d);
            assert(d * e == modulus());
            assert(1 < e < modulus()) by (nonlinear_arith)
                requires
                    d * e == modulus(),
                    1 < d < modulus(),
                    modulus() == 4293918721,
            ;
            if d < 0x10000 {
                lemma_no_small_factor(d as u32, e as u32);
            } else if e < 0x10000 {
                assert(e * d == modulus()) by (nonlinear_arith)
                    requires
                        d * e == modulus(),
                ;
                lemma_no_small_factor(e as u32, d as u32);
            } else {
                assert(d * e >= 0x10000 * 0x10000) by (nonlinear_arith)
                    requires
                        d >= 0x10000,
                        e >= 0x10000,
                ;
            }
        }
    }
}

pub open spec fn magnitude(x: int) -> int {
    if x < 0 {
        -x
    } else {
        x
    }
}

/// `x` and `y` are congruent modulo `p`.
pub open spec fn congruent(x: int, y: int) -> bool {
    (x - y) % modulus() == 0
}

/// The state of the extended Euclidean algorithm run on `a` and `p`: two
/// remainders, each paired with its coefficient of `a`, and the determinant
/// identity that bounds the coefficients.
pub open spec fn euclid_state(a: int, r0: int, r1: int, s0: int, s1: int) -> bool {
    &&& 0 <= r0 <= modulus()
    &&& 0 <= r1 <= modulus()
    &&& congruent(s0 * a, r0)
    &&& congruent(s1 * a, r1)
    &&& magnitude(s0) * r1 + magnitude(s1) * r0 == modulus()
    &&& s0 * s1 <= 0
    &&& -modulus() <= s0 <= modulus()
    &&& -modulus() <= s1 <= modulus()
}

proof fn lemma_congruent_combine(x0: int, y0: int, x1: int, y1: int, q: int)
    requires
        congruent(x0, y0),
        congruent(x1, y1),
    ensures
        congruent(x0 - q * x1, y0 - q * y1),
{
    let m = modulus();
    lemma_fundamental_div_mod(x0 - y0, m);
    lemma_fundamental_div_mod(x1 - y1, m);
    let k0 = (x0 - y0) / m;
    let k1 = (x1 - y1) / m;
    assert((x0 - q * x1) - (y0 - q * y1) == (k0 - q * k1) * m) by (nonlinear_arith)
        requires
            x0 - y0 == m * k0,
            x1 - y1 == m * k1,
    ;
    lemma_mod_multiples_basic(k0 - q * k1, m);
}

/// One division step of the extended Euclidean algorithm keeps its state, and
/// the product of quotient and coefficient stays within the modulus.
pub proof fn lemma_euclid_step(a: int, r0: int, r1: int, s0: int, s1: int)
    requires
        euclid_state(a, r0, r1, s0, s1),
        r1 > 0,
    ensures
        0 <= r0 / r1,
        (r0 / r1) * magnitude(s1) <= modulus(),
        euclid_state(a, r1, r0 % r1, s1, s0 - (r0 / r1) * s1),
{
    let m = modulus();
    let q = r0 / r1;
    let r2 = r0 % r1;
    let s2 = s0 - q * s1;
    lemma_fundamental_div_mod(r0, r1);
    lemma_mod_bound(r0, r1);
    assert(q >= 0) by (nonlinear_arith)
        requires
            r0 == r1 * q + r2,
            0 <= r2 < r1,
            r0 >= 0,
    ;
    assert(r0 - q * r1 == r2) by (nonlinear_arith)
        requires
            r0 == r1 * q + r2,
    ;
    lemma_congruent_combine(s0 * a, r0, s1 * a, r1, q);
    assert(s0 * a - q * (s1 * a) == s2 * a) by (nonlinear_arith)
        requires
            s2 == s0 - q * s1,
    ;
    assert(magnitude(s2) == magnitude(s0) + q * magnitude(s1)) by (nonlinear_arith)
        requires
            s2 == s0 - q * s1,
            s0 * s1 <= 0,
            q >= 0,
    {
        if s1 > 0 {
            assert(s0 <= 0) by (nonlinear_arith)
                requires
                    s0 * s1 <= 0,
                    s1 > 0,
            ;
        } else if s1 < 0 {
            assert(s0 >= 0) by (nonlinear_arith)
                requires
                    s0 * s1 <= 0,
                    s1 < 0,
            ;
        }
    }
    let (m0, m1, m2) = (magnitude(s0), magnitude(s1), magnitude(s2));
    assert(m1 * r2 + m2 * r1 == m) by (nonlinear_arith)
        requires
            m2 == m0 + q * m1,
            r2 == r0 - q * r1,
            m0 * r1 + m1 * r0 == m,
    ;
    assert(s1 * s2 <= 0) by (nonlinear_arith)
        requires
            s2 == s0 - q * s1,
            s0 * s1 <= 0,
            q >= 0,
    ;
    assert(m2 * r1 <= m) by (nonlinear_arith)
        requires
            m1 * r2 + m2 * r1 == m,
            m1 >= 0,
            r2 >= 0,
    ;
    assert(m2 <= m) by (nonlinear_arith)
        requires
            m2 * r1 <= m,
            r1 >= 1,
            m2 >= 0,
    ;
}

/// When the remainder reaches zero, the other remainder divides `p`; for a
/// nonzero canonical `a` it is therefore one, and its coefficient is the
/// inverse of `a` up to a multiple of `p`.
pub proof fn lemma_euclid_done(a: int, r0: int, s0: int, s1: int)
    requires
        euclid_state(a, r0, 0, s0, s1),
        0 < a < modulus(),
    ensures
        r0 == 1,
        field_mul(a, s0) == 1,
        s0 != 0,
        s0 != modulus(),
        s0 != -modulus(),
{
    let m = modulus();
    lemma_modulus_is_prime();
    assert(magnitude(s1) * r0 == m);
    assert(r0 > 0) by (nonlinear_arith)
        requires
            magnitude(s1) * r0 == m,
            m > 0,
            r0 >= 0,
    ;
    if r0 != 1 {
        if r0 < m {
            lemma_mod_multiples_basic(magnitude(s1), r0);
            assert(m % r0 == 0) by (nonlinear_arith)
                requires
                    magnitude(s1) * r0 == m,
                    (magnitude(s1) * r0) % r0 == 0,
            ;
            assert(false);
        } else {
            assert(magnitude(s1) == 1) by (nonlinear_arith)
                requires
                    magnitude(s1) * r0 == m,
                    r0 == m,
                    m > 0,
            ;
            assert(congruent(s1 * a, 0));
            if s1 == 1 {
                assert((a - 0) % m == a) by {
                    lemma_small_mod(a as nat, m as nat);
                }
            } else {
                assert(s1 == -1);
                assert((-1 * a - 0) % m == m - a) by {
                    lemma_small_mod((m - a) as nat, m as nat);
                    lemma_mod_multiples_basic(-1, m);
                    vstd::arithmetic::div_mod::lemma_mod_adds(m - a, -m, m);
                }
            }
            assert(false);
        }
    }
    // s0 * a - 1 is a multiple of p, so s0 * a leaves remainder one.
    lemma_fundamental_div_mod(s0 * a - 1, m);
    let k = (s0 * a - 1) / m;
    assert(a * s0 == k * m + 1) by (nonlinear_arith)
        requires
            s0 * a - 1 == m * k + 0,
    ;
    vstd::arithmetic::div_mod::lemma_mod_multiples_vanish(k, 1, m);
    lemma_small_mod(1, m as nat);
    assert(field_mul(a, s0) == 1) by {
        assert(m * k + 1 == a * s0) by (nonlinear_arith)
            requires
                a * s0 == k * m + 1,
        ;
    }
    if s0 == 0 || s0 == m || s0 == -m {
        let c = if s0 == 0 {
            0
        } else if s0 == m {
            a
        } else {
            -a
        };
        assert(a * s0 == c * m) by (nonlinear_arith)
            requires
                s0 == 0 || s0 == m || s0 == -m,
                c == (if s0 == 0 {
                    0
                } else if s0 == m {
                    a
                } else {
                    -a
                }),
        ;
        lemma_mod_multiples_basic(c, m);
        assert(false);
    }
}

/// Running the extended Euclidean algorithm to the end from any of its states
/// yields an inverse of a nonzero canonical `a`.
proof fn lemma_euclid_reaches_inverse(a: int, r0: int, r1: int, s0: int, s1: int)
    requires
        euclid_state(a, r0, r1, s0, s1),
        0 < a < modulus(),
    ensures
        exists|b: int| is_canonical(b) && #[trigger] field_mul(a, b) == 1,
    decreases r1,
{
    if r1 > 0 {
        lemma_euclid_step(a, r0, r1, s0, s1);
        lemma_mod_bound(r0, r1);
        lemma_euclid_reaches_inverse(a, r1, r0 % r1, s1, s0 - (r0 / r1) * s1);
    } else {
        lemma_euclid_done(a, r0, s0, s1);
        let b = s0 % modulus();
        lemma_mod_bound(s0, modulus());
        lemma_mul_mod_noop_right(a, s0, modulus());
        assert(is_canonical(b) && field_mul(a, b) == 1);
    }
}

/// The starting state of the extended Euclidean algorithm on `a` and `p`.
pub proof fn lemma_euclid_start(a: int)
    requires
        is_canonical(a),
    ensures
        euclid_state(a, a, modulus(), 1, 0),
{
    vstd::arithmetic::div_mod::lemma_mod_self_0(modulus());
    assert(0 * a - modulus() == -1 * modulus());
    lemma_mod_multiples_basic(-1, modulus());
    assert(1 * a - a == 0);
}

/// Two inverses of the same element are equal.
pub proof fn lemma_inverse_unique(a: int, b: int, c: int)
    requires
        is_canonical(b),
        is_canonical(c),
        field_mul(a, b) == 1,
        field_mul(a, c) == 1,
    ensures
        b == c,
{
    let m = modulus();
    lemma_small_mod(b as nat, m as nat);
    lemma_small_mod(c as nat, m as nat);
    // b == b * (a * c) == (a * b) * c == c, all modulo p
    lemma_mul_mod_noop_right(b, a * c, m);
    lemma_mul_is_associative(b, a, c);
    assert(b * a == a * b) by (nonlinear_arith);
    lemma_mul_mod_noop_left(a * b, c, m);
    assert(b * 1 == b);
    assert(1 * c == c);
}

/// The inverse of a canonical element is canonical, and it is a true inverse
/// for every nonzero element.
pub proof fn lemma_field_inv(a: int)
    requires
        is_canonical(a),
    ensures
        is_canonical(field_inv(a)),
        a == 0 ==> field_inv(a) == 0,
        a != 0 ==> field_mul(a, field_inv(a)) == 1,
{
    if a != 0 {
        lemma_small_mod(a as nat, modulus() as nat);
        lemma_euclid_start(a);
        lemma_euclid_reaches_inverse(a, a, modulus(), 1, 0);
    }
}

/// A canonical `b` with `a * b == 1` is the inverse of `a`.
pub proof fn lemma_is_field_inv(a: int, b: int)
    requires
        is_canonical(a),
        is_canonical(b),
        field_mul(a, b) == 1,
    ensures
        field_inv(a) == b,
{
    lemma_field_inv(a);
    if a == 0 {
        assert(field_mul(0, b) == 0);
    } else {
        lemma_inverse_unique(a, field_inv(a), b);
    }
}

/// Squaring the base halves an even exponent.
pub proof fn lemma_pow_square_step(b: int, e: nat)
    requires
        e % 2 == 0,
    ensures
        field_pow(field_mul(b, b), (e / 2) as nat) == field_pow(b, e),
{
    let m = modulus();
    vstd::arithmetic::power::lemma_pow_mod_noop(b * b, (e / 2) as nat, m);
    vstd::arithmetic::power::lemma_square_is_pow2(b);
    vstd::arithmetic::power::lemma_pow_multiplies(b, 2, (e / 2) as nat);
    assert(2 * (e / 2) == e);
}

/// Multiplying the accumulator by the base lowers the exponent by one.
pub proof fn lemma_pow_multiply_step(r: int, b: int, e: nat)
    requires
        e > 0,
    ensures
        field_mul(field_mul(r, b), field_pow(b, (e - 1) as nat)) == field_mul(r, field_pow(b, e)),
{
    let m = modulus();
    let t = pow(b, (e - 1) as nat);
    assert(pow(b, e) == b * t) by {
        reveal(pow);
    }
    lemma_mul_mod_noop(r * b, t, m);
    lemma_mul_mod_noop_right(r, b * t, m);
    lemma_mul_is_associative(r, b, t);
    lemma_mod_twice(r * b, m);
    assert(((r * b) % m) * (t % m) % m == (r * b * t) % m);
}

} // verus!
