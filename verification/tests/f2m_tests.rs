use cryptolabs::f2m::{prime_power, trial_division, F2m};

#[test]
fn f256_add() {
    let f = F2m::generate(256);
    let mut rng = rand::thread_rng();
    let a = f.random_element(&mut rng);
    let b = f.random_element(&mut rng);
    let c = f.random_element(&mut rng);
    let z = f.zero();

    assert_eq!(f.add(a, f.add(b, c)), f.add(f.add(a, b), c));
    assert_eq!(f.add(a, b), f.add(b, a));
    assert_eq!(f.add(a, z), a);
}

#[test]
fn f256_characteristic() {
    let f = F2m::generate(256);
    let mut rng = rand::thread_rng();
    let a = f.random_element(&mut rng);
    let z = f.zero();

    assert_eq!(f.add(a, a), z);
}

#[test]
fn f256_sub() {
    let f = F2m::generate(256);
    let mut rng = rand::thread_rng();
    let a = f.random_element(&mut rng);
    let b = f.random_element(&mut rng);

    assert_eq!(f.add(a, b), f.sub(a, b));
}

#[test]
fn f256_mul() {
    let f = F2m::generate(256);
    let mut rng = rand::thread_rng();
    let a = f.random_element(&mut rng);
    let b = f.random_element(&mut rng);
    let c = f.random_element(&mut rng);
    let i = f.one();
    let z = f.zero();

    assert_eq!(f.mul(a, f.mul(b, c)), f.mul(f.mul(a, b), c));
    assert_eq!(f.mul(a, b), f.mul(b, a));
    assert_eq!(f.mul(a, i), a);
    assert_eq!(f.mul(a, z), z);
    assert_eq!(f.mul(a, f.add(b, c)), f.add(f.mul(a, b), f.mul(a, c)));
    assert_eq!(f.mul(a, f.sub(b, c)), f.sub(f.mul(a, b), f.mul(a, c)));
}

#[test]
fn f256_neg() {
    let f = F2m::generate(256);
    let mut rng = rand::thread_rng();
    let a = f.random_element(&mut rng);
    let b = f.random_element(&mut rng);
    let z = f.zero();

    assert_eq!(f.neg(z), z);
    assert_eq!(f.neg(f.neg(a)), a);
    assert_eq!(f.add(a, f.neg(b)), f.sub(a, b));
}

#[test]
fn f256_inv() {
    let f = F2m::generate(256);
    let mut rng = rand::thread_rng();
    let a = f.random_element(&mut rng);
    let i = f.one();
    let z = f.zero();

    assert_eq!(f.inv(z), None);
    assert_eq!(f.inv(i), Some(i));
    if a != f.zero() {
        assert_eq!(f.inv(f.inv(a).unwrap()), Some(a));
        assert_eq!(f.mul(a, f.inv(a).unwrap()), i);
    }
}

#[test]
fn f256_exp_log_roundtrip() {
    let f = F2m::generate(256);
    for v in 1u32..256 {
        let l = f.log(v).unwrap();
        assert_eq!(f.exp(l), v);
    }
}

#[test]
fn field_shape() {
    let f16 = F2m::generate(16);
    assert_eq!(f16.order(), 16);
    assert_eq!(f16.characteristic(), 2);
    assert_eq!(f16.characteristic_exponent(), 4);
    assert_eq!(f16.zero(), 0);
    assert_eq!(f16.one(), 1);
    assert_eq!(f16.elt_to_u32(7), 7);
    assert_eq!(f16.u32_to_elt(7), 7);
    let mut x = 3u32;
    f16.add_assign(&mut x, &5);
    assert_eq!(x, 6);
    // fields compare by their order
    assert!(f16 == F2m::generate(16));
    assert!(!(f16 == F2m::generate(32)));
}

#[test]
fn trial_division_factors() {
    assert_eq!(trial_division(1), Vec::<u32>::new());
    assert_eq!(trial_division(19), vec![19]);
    assert_eq!(trial_division(77), vec![7, 11]);
    assert_eq!(trial_division(12), vec![2, 2, 3]);
    assert_eq!(trial_division(4294967295), vec![3, 5, 17, 257, 65537]);
}

#[test]
fn prime_power_cases() {
    assert!(prime_power(2 * 3).is_err());
    assert_eq!(prime_power(512), Ok((2, 9)));
    assert_eq!(prime_power(81), Ok((3, 4)));
    assert_eq!(prime_power(2_u32.pow(13) - 1), Ok((8191, 1)));
    assert!(prime_power(1).is_err());
}

#[test]
fn primitive_poly_values() {
    assert_eq!(cryptolabs::f2m::primitive_poly(4), 0x7);
    assert_eq!(cryptolabs::f2m::primitive_poly(256), 0x11D);
    assert_eq!(cryptolabs::f2m::primitive_poly(32768), 0x8003);
    assert_eq!(cryptolabs::f2m::primitive_poly(65536), 0x110B);
}
