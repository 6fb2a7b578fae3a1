use sensor_monitor::model::binary32::{
    Binary32, EIGHTY, FIVE, FORTY, HUNDRED, NINE, NINETY, ONE, TEN, THIRTY, TWENTY, ZERO,
};

fn samples() -> Vec<f32> {
    vec![
        0.0,
        -0.0,
        1.0,
        -1.0,
        0.5,
        10.0,
        39.999996,
        40.0,
        40.000004,
        -40.0,
        45.0,
        1.0e-45,
        -1.0e-45,
        1.17549435e-38,
        3.4028235e38,
        -3.4028235e38,
        f32::INFINITY,
        f32::NEG_INFINITY,
        f32::NAN,
        -f32::NAN,
        f32::from_bits(0x7f80_0001),
        f32::from_bits(0xffff_ffff),
    ]
}

#[test]
fn named_encodings_are_those_of_the_numbers() {
    assert_eq!(ZERO, 0.0f32.to_bits());
    assert_eq!(ONE, 1.0f32.to_bits());
    assert_eq!(FIVE, 5.0f32.to_bits());
    assert_eq!(NINE, 9.0f32.to_bits());
    assert_eq!(TEN, 10.0f32.to_bits());
    assert_eq!(TWENTY, 20.0f32.to_bits());
    assert_eq!(THIRTY, 30.0f32.to_bits());
    assert_eq!(FORTY, 40.0f32.to_bits());
    assert_eq!(EIGHTY, 80.0f32.to_bits());
    assert_eq!(NINETY, 90.0f32.to_bits());
    assert_eq!(HUNDRED, 100.0f32.to_bits());
}

#[test]
fn bits_go_in_and_come_out_unchanged() {
    for x in samples() {
        assert_eq!(Binary32::from_bits(x.to_bits()).to_bits(), x.to_bits());
        assert_eq!(Binary32::from_bits(x.to_bits()).bits, x.to_bits());
    }
    assert_eq!(Binary32::from_bits(0x4234_0000).to_bits(), 45.0f32.to_bits());
}

#[test]
fn lt_is_the_order_of_the_numbers() {
    for a in samples() {
        for b in samples() {
            let x = Binary32::from_bits(a.to_bits());
            let y = Binary32::from_bits(b.to_bits());
            assert_eq!(x.lt(y), a < b, "{} < {}", a, b);
        }
    }
}

#[test]
fn gt_is_the_order_of_the_numbers() {
    for a in samples() {
        for b in samples() {
            let x = Binary32::from_bits(a.to_bits());
            let y = Binary32::from_bits(b.to_bits());
            assert_eq!(x.gt(y), a > b, "{} > {}", a, b);
        }
    }
}

#[test]
fn nan_is_told_from_numbers() {
    for a in samples() {
        assert_eq!(Binary32::from_bits(a.to_bits()).nan(), a.is_nan(), "{}", a);
    }
}

#[test]
fn both_zeros_are_one_number() {
    let plus = Binary32::from_bits(0.0f32.to_bits());
    let minus = Binary32::from_bits((-0.0f32).to_bits());
    assert!(!plus.lt(minus));
    assert!(!minus.lt(plus));
    assert!(!plus.gt(minus));
    assert!(!minus.gt(plus));
}

#[test]
fn nan_is_neither_below_nor_above() {
    let nan = Binary32::from_bits(f32::NAN.to_bits());
    let ten = Binary32::from_bits(TEN);
    assert!(!nan.lt(ten));
    assert!(!nan.gt(ten));
    assert!(!ten.lt(nan));
    assert!(!ten.gt(nan));
    assert!(!nan.lt(nan));
    assert!(!nan.gt(nan));
}

#[test]
fn neighbours_are_told_apart() {
    let forty = Binary32::from_bits(FORTY);
    let above = Binary32::from_bits(FORTY + 1);
    let below = Binary32::from_bits(FORTY - 1);
    assert!(below.lt(forty));
    assert!(forty.lt(above));
    assert!(above.gt(forty));
    assert!(!forty.lt(forty));
    assert!(!forty.gt(forty));
    let minus_forty = Binary32::from_bits((-40.0f32).to_bits());
    let further = Binary32::from_bits((-40.0f32).to_bits() + 1);
    assert!(further.lt(minus_forty));
    assert!(minus_forty.lt(below));
}
