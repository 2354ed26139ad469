//! Algebraic laws of the field operations, stated over the specifications
//! that the operators' contracts use.
use vstd::arithmetic::div_mod::{
    lemma_mod_bound, lemma_mul_mod_noop_left, lemma_mul_mod_noop_right, lemma_small_mod,
    lemma_sub_mod_noop,
};
use vstd::arithmetic::mul::lemma_mul_is_associative;
use vstd::arithmetic::power::{lemma0_pow, lemma_pow0, lemma_pow1};
use vstd::prelude::*;

use crate::modular::{
    field_add, field_div, field_inv, field_mul, field_pow, field_sub, is_canonical, lemma_field_inv,
    modulus,
};

verus! {

/// Sums, differences, products and quotients of canonical elements are canonical.
pub proof fn lemma_closure(a: int, b: int)
    requires
        is_canonical(a),
        is_canonical(b),
    ensures
        is_canonical(field_add(a, b)),
        is_canonical(field_sub(a, b)),
        is_canonical(field_mul(a, b)),
        is_canonical(field_div(a, b)),
{
    let m = modulus();
    lemma_mod_bound(a + b, m);
    lemma_mod_bound(a - b, m);
    lemma_mod_bound(a * b, m);
    lemma_mod_bound(a * field_inv(b), m);
}

/// Zero is the additive identity, every element cancels itself, and
/// subtracting either summand from a sum leaves the other.
pub proof fn lemma_additive_laws(a: int, b: int)
    requires
        is_canonical(a),
        is_canonical(b),
    ensures
        field_add(a, 0) == a,
        field_sub(a, a) == 0,
        field_sub(field_add(a, b), a) == b,
        field_sub(field_add(a, b), b) == a,
{
    let m = modulus();
    lemma_small_mod(a as nat, m as nat);
    lemma_small_mod(b as nat, m as nat);
    lemma_sub_mod_noop(a + b, a, m);
    lemma_sub_mod_noop(a + b, b, m);
    assert(a + b - a == b);
    assert(a + b - b == a);
}

/// One is the multiplicative identity and zero is absorbing.
pub proof fn lemma_multiplicative_laws(a: int)
    requires
        is_canonical(a),
    ensures
        field_mul(a, 1) == a,
        field_mul(a, 0) == 0,
{
    lemma_small_mod(a as nat, modulus() as nat);
    assert(a * 1 == a);
    assert(a * 0 == 0);
}

/// Every nonzero element times its inverse is one, on either side; the
/// inverse of zero is zero.
pub proof fn lemma_inverse_laws(a: int)
    requires
        is_canonical(a),
    ensures
        a != 0 ==> field_mul(a, field_inv(a)) == 1,
        a != 0 ==> field_mul(field_inv(a), a) == 1,
        field_inv(0) == 0,
{
    lemma_field_inv(a);
    lemma_field_inv(0);
    assert(a * field_inv(a) == field_inv(a) * a) by (nonlinear_arith);
}

/// Dividing a product by a nonzero factor gives back the other factor, and
/// dividing by zero gives zero.
pub proof fn lemma_division_laws(a: int, b: int)
    requires
        is_canonical(a),
        is_canonical(b),
    ensures
        b != 0 ==> field_div(field_mul(a, b), b) == a,
        field_div(a, 0) == 0,
{
    let m = modulus();
    lemma_field_inv(0);
    assert(a * 0 == 0);
    if b != 0 {
        let c = field_inv(b);
        lemma_field_inv(b);
        // ((a * b) % p * c) % p == (a * (b * c)) % p == (a * ((b * c) % p)) % p == a
        lemma_mul_mod_noop_left(a * b, c, m);
        lemma_mul_is_associative(a, b, c);
        lemma_mul_mod_noop_right(a, b * c, m);
        assert(a * 1 == a);
        lemma_small_mod(a as nat, m as nat);
    }
}

/// Any element to the power zero is one, zero to a nonzero power is zero, and
/// any element to the power one is itself.
pub proof fn lemma_pow_laws(a: int, k: nat)
    requires
        is_canonical(a),
    ensures
        field_pow(a, 0) == 1,
        k != 0 ==> field_pow(0, k) == 0,
        field_pow(a, 1) == a,
{
    let m = modulus();
    lemma_pow0(a);
    lemma_pow1(a);
    if k != 0 {
        lemma0_pow(k);
    }
    lemma_small_mod(1, m as nat);
    lemma_small_mod(a as nat, m as nat);
}

} // verus!
