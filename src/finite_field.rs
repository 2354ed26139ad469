//! The field element type and its operations.
use vstd::prelude::*;

use vstd::arithmetic::div_mod::lemma_fundamental_div_mod_converse_mod;

use crate::modular::{
    euclid_state, field_add, field_div, field_inv, field_mul, field_pow, field_sub, lemma_euclid_done,
    lemma_euclid_start, lemma_euclid_step, lemma_field_inv, lemma_is_field_inv,
    lemma_pow_multiply_step, lemma_pow_square_step, magnitude, modulus,
};

verus! {

/// Modulus of the field, an FFT-friendly prime: `2^32 - 2^20 + 1`.
pub const MODULUS: u32 = 4293918721;

/// Generator of the multiplicative subgroup.
pub const GENERATOR: u32 = 3925978153;

/// Number of primitive roots of unity, `2^20`.
pub const N_ROOTS: u32 = 1048576;

/// An element of the prime field, held as its canonical representative in `[0, p)`.
#[derive(Clone, Copy, Debug, PartialEq, Eq, Structural, PartialOrd, Ord, Hash)]
pub struct Field(u32);

impl Field {
    #[verifier::type_invariant]
    spec fn canonical(self) -> bool {
        self.0 < MODULUS
    }
}

impl View for Field {
    type V = int;

    closed spec fn view(&self) -> int {
        self.0 as int
    }
}

/// `l - r` modulo `p`, for a canonical `l` and an `r` that may equal `p` itself.
fn sub_reduced(l: u32, r: u32) -> (d: u32)
    requires
        l < MODULUS,
        r <= MODULUS,
    ensures
        d as int == field_sub(l as int, r as int),
{
    if l >= r {
        proof {
            lemma_fundamental_div_mod_converse_mod(l - r, modulus(), 0, l - r);
        }
        l - r
    } else {
        proof {
            lemma_fundamental_div_mod_converse_mod(l - r, modulus(), -1, l - r + modulus());
        }
        MODULUS - r + l
    }
}

impl vstd::std_specs::ops::AddSpecImpl for Field {
    open spec fn obeys_add_spec() -> bool {
        true
    }

    open spec fn add_req(self, rhs: Field) -> bool {
        true
    }

    closed spec fn add_spec(self, rhs: Field) -> Field {
        Field(((self.0 as int + rhs.0 as int) % modulus()) as u32)
    }
}

impl core::ops::Add for Field {
    type Output = Field;

    fn add(self, rhs: Field) -> (r: Field)
        ensures
            r@ == field_add(self@, rhs@),
    {
        proof {
            use_type_invariant(&self);
            use_type_invariant(&rhs);
        }
        // a + b == a - (p - b); for b == 0 the subtrahend is p itself.
        let d = sub_reduced(self.0, MODULUS - rhs.0);
        proof {
            vstd::arithmetic::div_mod::lemma_mod_adds(self@ + rhs@ - modulus(), modulus(), modulus());
            vstd::arithmetic::div_mod::lemma_mod_self_0(modulus());
            vstd::arithmetic::div_mod::lemma_mod_bound(self@ + rhs@ - modulus(), modulus());
        }
        Field(d)
    }
}

impl vstd::std_specs::ops::SubSpecImpl for Field {
    open spec fn obeys_sub_spec() -> bool {
        true
    }

    open spec fn sub_req(self, rhs: Field) -> bool {
        true
    }

    closed spec fn sub_spec(self, rhs: Field) -> Field {
        Field(((self.0 as int - rhs.0 as int) % modulus()) as u32)
    }
}

impl core::ops::Sub for Field {
    type Output = Field;

    fn sub(self, rhs: Field) -> (r: Field)
        ensures
            r@ == field_sub(self@, rhs@),
    {
        proof {
            use_type_invariant(&self);
            use_type_invariant(&rhs);
        }
        Field(sub_reduced(self.0, rhs.0))
    }
}

impl vstd::std_specs::ops::MulSpecImpl for Field {
    open spec fn obeys_mul_spec() -> bool {
        true
    }

    open spec fn mul_req(self, rhs: Field) -> bool {
        true
    }

    closed spec fn mul_spec(self, rhs: Field) -> Field {
        Field(((self.0 as int * rhs.0 as int) % modulus()) as u32)
    }
}

impl core::ops::Mul for Field {
    type Output = Field;

    fn mul(self, rhs: Field) -> (r: Field)
        ensures
            r@ == field_mul(self@, rhs@),
    {
        proof {
            use_type_invariant(&self);
            use_type_invariant(&rhs);
        }
        let l = self.0 as u64;
        let r = rhs.0 as u64;
        assert(l * r < 0x1_0000_0000_0000_0000) by (nonlinear_arith)
            requires
                l < 0x1_0000_0000,
                r < 0x1_0000_0000,
        ;
        let product = l * r;
        Field((product % (MODULUS as u64)) as u32)
    }
}

impl vstd::std_specs::convert::FromSpecImpl<u32> for Field {
    open spec fn obeys_from_spec() -> bool {
        true
    }

    closed spec fn from_spec(x: u32) -> Field {
        Field(x % MODULUS)
    }
}

impl From<u32> for Field {
    fn from(x: u32) -> (r: Field)
        ensures
            r@ == x as int % modulus(),
    {
        Field(x % MODULUS)
    }
}

impl vstd::std_specs::convert::FromSpecImpl<Field> for u32 {
    open spec fn obeys_from_spec() -> bool {
        true
    }

    closed spec fn from_spec(x: Field) -> u32 {
        x.0
    }
}

/// Reading the representative of an element built from a raw integer gives
/// that integer reduced modulo `p`.
pub proof fn lemma_round_trip(x: u32)
    ensures
        <u32 as vstd::std_specs::convert::FromSpec<Field>>::from_spec(
            <Field as vstd::std_specs::convert::FromSpec<u32>>::from_spec(x),
        ) as int == x as int % modulus(),
{
}

impl From<Field> for u32 {
    fn from(x: Field) -> (r: u32)
        ensures
            r as int == x@,
            r < MODULUS,
    {
        proof {
            use_type_invariant(&x);
        }
        x.0
    }
}

impl Field {
    /// Modular exponentiation by square-and-multiply.
    ///
    /// The exponent is itself a field element, so an exponent of `p` or more
    /// cannot be expressed: it has already been reduced modulo `p`.
    pub fn pow(self, exp: Field) -> (r: Field)
        ensures
            r@ == field_pow(self@, exp@ as nat),
    {
        proof {
            use_type_invariant(&exp);
        }
        let mut base = self;
        let mut e: u32 = exp.0;
        let mut result = Field(1);
        proof {
            vstd::arithmetic::div_mod::lemma_mod_twice(
                vstd::arithmetic::power::pow(self@, e as nat),
                modulus(),
            );
        }
        while e > 0
            invariant
                field_mul(result@, field_pow(base@, e as nat)) == field_pow(self@, exp@ as nat),
            decreases e,
        {
            let ghost e_start = e;
            while e % 2 == 0
                invariant
                    0 < e <= e_start,
                    field_mul(result@, field_pow(base@, e as nat)) == field_pow(self@, exp@ as nat),
                decreases e,
            {
                proof {
                    lemma_pow_square_step(base@, e as nat);
                }
                e = e / 2;
                base = base * base;
            }
            proof {
                lemma_pow_multiply_step(result@, base@, e as nat);
            }
            e = e - 1;
            result = result * base;
        }
        proof {
            use_type_invariant(&result);
            vstd::arithmetic::power::lemma_pow0(base@);
            vstd::arithmetic::div_mod::lemma_small_mod(1, modulus() as nat);
            vstd::arithmetic::div_mod::lemma_small_mod(result@ as nat, modulus() as nat);
            assert(field_pow(base@, 0) == 1);
            assert(field_mul(result@, 1) == result@);
        }
        result
    }

    /// Modular inverse by the extended Euclidean algorithm.
    ///
    /// The inverse of zero is defined to be zero.
    pub fn inv(self) -> (r: Field)
        ensures
            r@ == field_inv(self@),
    {
        proof {
            use_type_invariant(&self);
            lemma_euclid_start(self@);
        }
        // Each remainder is paired with its coefficient of `self`.
        let mut r0: u32 = self.0;
        let mut r1: u32 = MODULUS;
        let mut s0: i64 = 1;
        let mut s1: i64 = 0;
        while r1 != 0
            invariant
                euclid_state(self@, r0 as int, r1 as int, s0 as int, s1 as int),
                self@ == 0 ==> (r0 == 0 && r1 == MODULUS && s0 == 1 && s1 == 0) || (r0 == MODULUS
                    && r1 == 0 && s0 == 0 && s1 == 1),
            decreases r1,
        {
            proof {
                lemma_euclid_step(self@, r0 as int, r1 as int, s0 as int, s1 as int);
                vstd::arithmetic::div_mod::lemma_mod_bound(r0 as int, r1 as int);
            }
            let q = r0 / r1;
            proof {
                let m1 = magnitude(s1 as int);
                assert(0 <= (q as int) * m1) by (nonlinear_arith)
                    requires
                        q >= 0,
                        m1 >= 0,
                ;
                if s1 < 0 {
                    assert((q as int) * (s1 as int) == -((q as int) * m1)) by (nonlinear_arith)
                        requires
                            m1 == -s1,
                    ;
                }
            }
            let s2 = s0 - (q as i64) * s1;
            let r2 = r0 % r1;
            r0 = r1;
            r1 = r2;
            s0 = s1;
            s1 = s2;
        }
        let v: u32 = if s0 < 0 {
            (MODULUS as i64 + s0) as u32
        } else {
            s0 as u32
        };
        proof {
            if self@ != 0 {
                lemma_euclid_done(self@, r0 as int, s0 as int, s1 as int);
                let k: int = if s0 < 0 {
                    -1
                } else {
                    0
                };
                vstd::arithmetic::div_mod::lemma_fundamental_div_mod_converse_mod(
                    s0 as int,
                    modulus(),
                    k,
                    v as int,
                );
                vstd::arithmetic::div_mod::lemma_mul_mod_noop_right(self@, s0 as int, modulus());
                lemma_is_field_inv(self@, v as int);
            } else {
                lemma_field_inv(self@);
            }
        }
        Field(v)
    }
}

impl vstd::std_specs::ops::DivSpecImpl for Field {
    open spec fn obeys_div_spec() -> bool {
        true
    }

    open spec fn div_req(self, rhs: Field) -> bool {
        true
    }

    closed spec fn div_spec(self, rhs: Field) -> Field {
        Field(field_div(self.0 as int, rhs.0 as int) as u32)
    }
}

impl core::ops::Div for Field {
    type Output = Field;

    /// Division by zero gives zero, as the inverse of zero is zero.
    fn div(self, rhs: Field) -> (r: Field)
        ensures
            r@ == field_div(self@, rhs@),
    {
        self * rhs.inv()
    }
}

impl core::ops::AddAssign for Field {
    fn add_assign(&mut self, rhs: Field)
        ensures
            final(self)@ == field_add(old(self)@, rhs@),
    {
        *self = *self + rhs;
    }
}

impl core::ops::SubAssign for Field {
    fn sub_assign(&mut self, rhs: Field)
        ensures
            final(self)@ == field_sub(old(self)@, rhs@),
    {
        *self = *self - rhs;
    }
}

impl core::ops::MulAssign for Field {
    fn mul_assign(&mut self, rhs: Field)
        ensures
            final(self)@ == field_mul(old(self)@, rhs@),
    {
        *self = *self * rhs;
    }
}

impl core::ops::DivAssign for Field {
    fn div_assign(&mut self, rhs: Field)
        ensures
            final(self)@ == field_div(old(self)@, rhs@),
    {
        *self = *self / rhs;
    }
}

impl vstd::std_specs::cmp::PartialEqSpecImpl<u32> for Field {
    open spec fn obeys_eq_spec() -> bool {
        true
    }

    closed spec fn eq_spec(&self, rhs: &u32) -> bool {
        self.0 == *rhs
    }
}

/// Compares the canonical representative with a raw integer as it stands: the
/// integer is not reduced first, so one of `p` or more never compares equal.
impl PartialEq<u32> for Field {
    fn eq(&self, rhs: &u32) -> (r: bool)
        ensures
            r == (self@ == *rhs as int),
    {
        self.0 == *rhs
    }
}

impl Default for Field {
    /// The zero element.
    fn default() -> (r: Field)
        ensures
            r@ == 0,
    {
        Field(0)
    }
}

/// The decimal numeral of `n`: most significant digit first, no padding, no sign.
pub open spec fn decimal(n: nat) -> Seq<char>
    decreases n,
{
    if n < 10 {
        seq![digit_char(n)]
    } else {
        decimal(n / 10).push(digit_char(n % 10))
    }
}

pub open spec fn digit_char(d: nat) -> char {
    if d == 0 {
        '0'
    } else if d == 1 {
        '1'
    } else if d == 2 {
        '2'
    } else if d == 3 {
        '3'
    } else if d == 4 {
        '4'
    } else if d == 5 {
        '5'
    } else if d == 6 {
        '6'
    } else if d == 7 {
        '7'
    } else if d == 8 {
        '8'
    } else {
        '9'
    }
}

fn digit_str(d: u32) -> (s: &'static str)
    requires
        d < 10,
    ensures
        s@ == seq![digit_char(d as nat)],
{
    if d == 0 {
        proof {
            reveal_strlit("0");
        }
        "0"
    } else if d == 1 {
        proof {
            reveal_strlit("1");
        }
        "1"
    } else if d == 2 {
        proof {
            reveal_strlit("2");
        }
        "2"
    } else if d == 3 {
        proof {
            reveal_strlit("3");
        }
        "3"
    } else if d == 4 {
        proof {
            reveal_strlit("4");
        }
        "4"
    } else if d == 5 {
        proof {
            reveal_strlit("5");
        }
        "5"
    } else if d == 6 {
        proof {
            reveal_strlit("6");
        }
        "6"
    } else if d == 7 {
        proof {
            reveal_strlit("7");
        }
        "7"
    } else if d == 8 {
        proof {
            reveal_strlit("8");
        }
        "8"
    } else {
        proof {
            reveal_strlit("9");
        }
        "9"
    }
}

fn append_decimal(s: &mut String, n: u32)
    ensures
        final(s)@ == old(s)@ + decimal(n as nat),
    decreases n,
{
    if n >= 10 {
        append_decimal(s, n / 10);
    }
    s.append(digit_str(n % 10));
}

impl Field {
    /// The decimal string of the canonical representative.
    pub fn to_string(&self) -> (s: String)
        ensures
            s@ == decimal(self@ as nat),
    {
        let mut s = String::new();
        append_decimal(&mut s, self.0);
        s
    }
}

} // verus!
