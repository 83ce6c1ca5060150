use live_runtime::live_float::LiveFloat;

fn check_from_int(i: i64) {
    assert_eq!(LiveFloat::from_int(i).to_bits(), (i as f64).to_bits(), "from_int({})", i);
}

fn check_to_int(f: f64) {
    assert_eq!(LiveFloat::from_bits(f.to_bits()).to_int(), f as i64, "to_int({:?})", f);
}

#[test]
fn from_int_gives_the_nearest_float() {
    for i in -1000..1000 {
        check_from_int(i);
    }
    let edges: [i64; 16] = [
        i64::MAX,
        i64::MIN,
        i64::MAX - 1,
        i64::MIN + 1,
        (1 << 53) - 1,
        1 << 53,
        (1 << 53) + 1,
        (1 << 53) + 2,
        (1 << 53) + 3,
        (1 << 54) + 2,
        (1 << 54) + 6,
        (1 << 62) + (1 << 9),
        (1 << 62) + (1 << 9) + 1,
        (1 << 62) + (3 << 9),
        -((1 << 53) + 1),
        -((1 << 53) + 3),
    ];
    for i in edges {
        check_from_int(i);
    }
    let mut x: i64 = 1;
    for _ in 0..2000 {
        x = x.wrapping_mul(6364136223846793005).wrapping_add(1442695040888963407);
        check_from_int(x);
        check_from_int(x >> 7);
        check_from_int(x >> 13);
    }
}

#[test]
fn from_int_exact_values() {
    assert_eq!(LiveFloat::from_int(0).to_bits(), 0);
    assert_eq!(LiveFloat::from_int(1).to_bits(), 0x3ff0_0000_0000_0000);
    assert_eq!(LiveFloat::from_int(-2).to_bits(), 0xc000_0000_0000_0000);
    assert_eq!(LiveFloat::from_int(3).to_bits(), 0x4008_0000_0000_0000);
}

#[test]
fn to_int_cuts_and_saturates() {
    let values: [f64; 24] = [
        0.0,
        -0.0,
        0.5,
        -0.5,
        0.999,
        1.0,
        1.5,
        -1.5,
        2.0,
        -3.75,
        1e10,
        -1e10,
        4503599627370496.0,
        4503599627370497.0,
        9007199254740993.0,
        9223372036854775807.0,
        -9223372036854775808.0,
        9.3e18,
        -9.3e18,
        1e300,
        -1e300,
        f64::INFINITY,
        f64::NEG_INFINITY,
        f64::NAN,
    ];
    for f in values {
        check_to_int(f);
    }
    check_to_int(f64::MIN_POSITIVE);
    check_to_int(f64::from_bits(1));
    check_to_int(f64::from_bits(0x7ff0_0000_0000_0001));
    let mut x: u64 = 7;
    for _ in 0..5000 {
        x = x.wrapping_mul(6364136223846793005).wrapping_add(1442695040888963407);
        check_to_int(f64::from_bits(x));
        check_to_int((x as i64 >> 5) as f64 / 8.0);
    }
}

#[test]
fn small_integers_survive_the_round_trip() {
    for i in [-9007199254740992i64, -12345, -1, 0, 1, 7, 1 << 40, 9007199254740992] {
        assert_eq!(LiveFloat::from_int(i).to_int(), i);
    }
}

fn check_decimal(negative: bool, mantissa: u64, digits: u8) {
    let text = format!("{}{}e-{}", if negative { "-" } else { "" }, mantissa, digits);
    let expected: f64 = text.parse().unwrap();
    assert_eq!(
        LiveFloat::from_decimal(negative, mantissa, digits).to_bits(),
        expected.to_bits(),
        "{}",
        text
    );
}

#[test]
fn decimals_give_the_nearest_float() {
    for digits in 0..=19u8 {
        for mantissa in [
            0u64,
            1,
            2,
            3,
            5,
            7,
            9,
            10,
            96,
            97,
            125,
            1000,
            12345,
            30000000000000004,
            9007199254740992,
            9007199254740993,
            9007199254740995,
            18014398509481985,
            4503599627370497,
            123456789012345678,
            9999999999999999999,
            18446744073709551615,
            1 << 63,
            (1 << 63) + 1024,
            (1 << 63) + 1025,
            (1 << 63) + 3072,
        ] {
            check_decimal(false, mantissa, digits);
            check_decimal(true, mantissa, digits);
        }
    }
    let mut x: u64 = 99;
    for _ in 0..4000 {
        x = x.wrapping_mul(6364136223846793005).wrapping_add(1442695040888963407);
        let digits = (x >> 59) as u8 % 20;
        check_decimal(x & 1 == 1, x >> (x % 50), digits);
        check_decimal(false, x, digits);
    }
}

#[test]
fn decimal_exact_values() {
    assert_eq!(LiveFloat::from_decimal(false, 10, 1).to_bits(), 1.0f64.to_bits());
    assert_eq!(LiveFloat::from_decimal(false, 20, 1).to_bits(), 2.0f64.to_bits());
    assert_eq!(LiveFloat::from_decimal(false, 96, 2).to_bits(), 0.96f64.to_bits());
    assert_eq!(LiveFloat::from_decimal(true, 375, 2).to_bits(), (-3.75f64).to_bits());
    assert_eq!(LiveFloat::from_decimal(false, 1, 1).to_bits(), 0x3fb999999999999a);
    assert_eq!(LiveFloat::from_decimal(true, 0, 3).to_bits(), (-0.0f64).to_bits());
}
