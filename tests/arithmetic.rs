use finite_field::{Field, MODULUS};
use rand::distributions::Distribution;
use rand::{random, thread_rng};

fn f(x: u32) -> Field {
    Field::from(x)
}

#[test]
fn test_arithmetic() {
    // add
    assert_eq!(f(MODULUS - 1) + f(1), 0);
    assert_eq!(f(MODULUS - 2) + f(2), 0);
    assert_eq!(f(MODULUS - 2) + f(3), 1);
    assert_eq!(f(1) + f(1), 2);
    assert_eq!(f(2) + f(MODULUS), 2);
    assert_eq!(f(3) + f(MODULUS - 1), 2);

    // sub
    assert_eq!(f(0) - f(1), MODULUS - 1);
    assert_eq!(f(1) - f(2), MODULUS - 1);
    assert_eq!(f(15) - f(3), 12);
    assert_eq!(f(1) - f(1), 0);
    assert_eq!(f(2) - f(MODULUS), 2);
    assert_eq!(f(3) - f(MODULUS - 1), 4);

    // add + sub
    for _ in 0..100 {
        let a = Field::from(random::<u32>());
        let b = Field::from(random::<u32>());
        assert_eq!(a + b - a - b, 0);
        assert_eq!(a + b - b, a);
        assert_eq!(a + b - a, b);
    }

    // mul
    assert_eq!(f(35) * f(123), 4305);
    assert_eq!(f(1) * f(MODULUS), 0);
    assert_eq!(f(0) * f(123), 0);
    assert_eq!(f(123) * f(0), 0);
    assert_eq!(f(123123123) * f(123123123), 1237630077);

    // div
    assert_eq!(f(35) / f(5), 7);
    assert_eq!(f(35) / f(0), 0);
    assert_eq!(f(0) / f(5), 0);
    assert_eq!(f(1237630077) / f(123123123), 123123123);

    assert_eq!(f(0).inv(), 0);

    // mul and div
    let uniform = rand::distributions::Uniform::from(1..MODULUS);
    let mut rng = thread_rng();
    for _ in 0..100 {
        // non-zero element
        let a = f(uniform.sample(&mut rng));
        assert_eq!(a * a.inv(), 1);
        assert_eq!(a.inv() * a, 1);
    }

    // pow
    assert_eq!(f(2).pow(3.into()), 8);
    assert_eq!(f(3).pow(9.into()), 19683);
    assert_eq!(f(51).pow(27.into()), 3760729523);
    assert_eq!(f(432).pow(0.into()), 1);
    assert_eq!(f(0).pow(123.into()), 0);
}
