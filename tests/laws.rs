use finite_field::{Field, GENERATOR, MODULUS, N_ROOTS};

fn f(x: u32) -> Field {
    Field::from(x)
}

#[test]
fn constants_have_their_values() {
    assert_eq!(MODULUS, 4293918721);
    assert_eq!(MODULUS as u64, (1u64 << 32) - (1u64 << 20) + 1);
    assert_eq!(GENERATOR, 3925978153);
    assert_eq!(N_ROOTS, 1 << 20);
}

#[test]
fn results_stay_canonical() {
    let values = [0, 1, 2, 12345, MODULUS / 2, MODULUS - 2, MODULUS - 1];
    for &a in values.iter() {
        for &b in values.iter() {
            assert!(u32::from(f(a) + f(b)) < MODULUS);
            assert!(u32::from(f(a) - f(b)) < MODULUS);
            assert!(u32::from(f(a) * f(b)) < MODULUS);
            assert!(u32::from(f(a) / f(b)) < MODULUS);
        }
    }
}

#[test]
fn additive_identity_and_inverse() {
    let a = f(987654321);
    let b = f(MODULUS - 5);
    assert_eq!(a + f(0), a);
    assert_eq!(a - a, 0);
    assert_eq!((a + b) - a, b);
    assert_eq!((a + b) - b, a);
    assert_eq!(a + b, 987654316);
}

#[test]
fn addition_wraps_around() {
    assert_eq!(f(MODULUS - 1) + f(1), 0);
    assert_eq!(f(MODULUS - 2) + f(3), 1);
    assert_eq!(f(0) + f(0), 0);
}

#[test]
fn subtraction_borrows_from_the_modulus() {
    assert_eq!(f(0) - f(1), MODULUS - 1);
    assert_eq!(f(15) - f(3), 12);
    assert_eq!(f(0) - f(MODULUS - 1), 1);
}

#[test]
fn multiplicative_identity_and_absorption() {
    let a = f(3760729523);
    assert_eq!(a * f(1), a);
    assert_eq!(a * f(0), 0);
    assert_eq!(f(MODULUS - 1) * f(MODULUS - 1), 1);
}

#[test]
fn inverse_law() {
    assert_eq!(f(0).inv(), 0);
    assert_eq!(f(1).inv(), 1);
    assert_eq!(f(2).inv(), 2146959361);
    assert_eq!(f(MODULUS - 1).inv(), MODULUS - 1);
    for x in [2, 3, 65537, 123123123, GENERATOR, MODULUS - 2] {
        let a = f(x);
        assert_eq!(a * a.inv(), 1);
        assert_eq!(a.inv() * a, 1);
    }
}

#[test]
fn division_consistency() {
    assert_eq!(f(35) / f(5), 7);
    assert_eq!(f(35) / f(0), 0);
    assert_eq!(f(1) / f(2), 2146959361);
    let a = f(424242);
    let b = f(MODULUS - 7);
    assert_eq!((a * b) / b, a);
    assert_eq!(a / f(0), 0);
}

#[test]
fn exponentiation_laws() {
    assert_eq!(f(0).pow(f(0)), 1);
    assert_eq!(f(432).pow(f(0)), 1);
    assert_eq!(f(0).pow(f(123)), 0);
    assert_eq!(f(77).pow(f(1)), 77);
    assert_eq!(f(2).pow(f(3)), 8);
    assert_eq!(f(3).pow(f(9)), 19683);
    assert_eq!(f(51).pow(f(27)), 3760729523);
    // Fermat: a^(p-1) == 1 for nonzero a
    assert_eq!(f(GENERATOR).pow(f(MODULUS - 1)), 1);
    // 2^32 == p + 2^20 - 1
    assert_eq!(f(2).pow(f(32)), 1048575);
}

#[test]
fn exponent_wraps_modulo_p() {
    // an exponent of p is reduced to zero before the computation
    assert_eq!(f(5).pow(f(MODULUS)), 1);
}

#[test]
fn round_trip_reduces() {
    assert_eq!(u32::from(f(0)), 0);
    assert_eq!(u32::from(f(12)), 12);
    assert_eq!(u32::from(f(MODULUS - 1)), MODULUS - 1);
    assert_eq!(u32::from(f(MODULUS)), 0);
    assert_eq!(u32::from(f(u32::MAX)), u32::MAX - MODULUS);
    let x: u32 = 4294967000;
    assert_eq!(u32::from(Field::from(x)), x % MODULUS);
}

#[test]
fn equality_with_raw_integer_does_not_reduce() {
    assert!(f(0) == 0);
    assert!(!(f(0) == MODULUS));
    assert!(f(5) != 6);
}

#[test]
fn compound_assignment() {
    let mut a = f(10);
    a += f(MODULUS - 3);
    assert_eq!(a, 7);
    a -= f(8);
    assert_eq!(a, MODULUS - 1);
    a *= f(MODULUS - 1);
    assert_eq!(a, 1);
    a *= f(6);
    a /= f(3);
    assert_eq!(a, 2);
    a /= f(0);
    assert_eq!(a, 0);
}

#[test]
fn default_is_zero() {
    assert_eq!(Field::default(), 0);
}

#[test]
fn renders_decimal() {
    assert_eq!(f(0).to_string(), "0");
    assert_eq!(f(7).to_string(), "7");
    assert_eq!(f(10).to_string(), "10");
    assert_eq!(f(123123123).to_string(), "123123123");
    assert_eq!(f(MODULUS - 1).to_string(), "4293918720");
    assert_eq!(f(MODULUS).to_string(), "0");
}
