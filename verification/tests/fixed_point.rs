use linear_layer::fixed::{add_sat, inv_sqrt, rescale_sum, saturate, ONE};

#[test]
fn one_has_sixteen_fractional_bits() {
    assert_eq!(ONE, 1 << 16);
}

#[test]
fn inv_sqrt_of_perfect_squares() {
    assert_eq!(inv_sqrt(1), ONE);
    assert_eq!(inv_sqrt(4), ONE / 2);
    assert_eq!(inv_sqrt(25), 13107);
    assert_eq!(inv_sqrt(100), 6553);
}

#[test]
fn inv_sqrt_rounds_down() {
    assert_eq!(inv_sqrt(2), 46340);
    assert_eq!(inv_sqrt(3), 37837);
    let b = inv_sqrt(3) as i128;
    assert!(b * b * 3 <= (ONE as i128) * (ONE as i128));
    assert!((b + 1) * (b + 1) * 3 > (ONE as i128) * (ONE as i128));
}

#[test]
fn inv_sqrt_of_large_numbers_reaches_zero() {
    assert_eq!(inv_sqrt(1 << 32), 1);
    assert_eq!(inv_sqrt((1 << 32) + 1), 0);
    assert_eq!(inv_sqrt(u64::MAX), 0);
}

#[test]
fn inv_sqrt_agrees_with_floating_point() {
    for n in [1u64, 2, 5, 7, 10, 25, 64, 100, 1000, 4096, 65536] {
        let exact = (ONE as f64) / (n as f64).sqrt();
        let got = inv_sqrt(n) as f64;
        assert!(got <= exact && exact < got + 1.0, "n = {}", n);
    }
}

#[test]
fn saturate_clamps_at_both_ends() {
    assert_eq!(saturate(1 << 40), i32::MAX);
    assert_eq!(saturate(-(1 << 40)), i32::MIN);
    assert_eq!(saturate(i32::MAX as i128), i32::MAX);
    assert_eq!(saturate(i32::MIN as i128), i32::MIN);
    assert_eq!(saturate(-7), -7);
}

#[test]
fn add_sat_adds_and_clamps() {
    assert_eq!(add_sat(3, 4), 7);
    assert_eq!(add_sat(i32::MAX, 1), i32::MAX);
    assert_eq!(add_sat(i32::MIN, -1), i32::MIN);
    assert_eq!(add_sat(i32::MIN, i32::MAX), -1);
}

#[test]
fn rescale_rounds_toward_minus_infinity() {
    assert_eq!(rescale_sum(0), 0);
    assert_eq!(rescale_sum(65535), 0);
    assert_eq!(rescale_sum(65536), 1);
    assert_eq!(rescale_sum(-1), -1);
    assert_eq!(rescale_sum(-65536), -1);
    assert_eq!(rescale_sum(-65537), -2);
    assert_eq!(rescale_sum((ONE as i128) * (ONE as i128) * 3), 3 * ONE);
}

#[test]
fn rescale_saturates() {
    assert_eq!(rescale_sum(i128::MAX), i32::MAX);
    assert_eq!(rescale_sum(i128::MIN), i32::MIN);
    assert_eq!(rescale_sum((i32::MAX as i128 + 1) * 65536), i32::MAX);
}
