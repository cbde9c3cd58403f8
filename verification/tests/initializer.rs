use linear_layer::fixed::ONE;
use linear_layer::nn::{init, Init};
use linear_layer::rng::Rng;
use linear_layer::tensor::{Device, Layout};
use linear_layer::TensorError;

#[test]
fn generator_follows_splitmix64() {
    let mut rng = Rng::new(0);
    assert_eq!(rng.next_u32(), 0xe220a839);
    assert_eq!(rng.state(), 0x9e3779b97f4a7c15);
    assert_eq!(rng.next_u32(), 0x6e789e6a);
    assert_eq!(rng.next_u32(), 0x06c45d18);
    let mut other = Rng::new(1234567);
    assert_eq!(other.next_u32(), (6457827717110365317u64 >> 32) as u32);
    assert_eq!(other.next_u32(), (3203168211198807973u64 >> 32) as u32);
}

#[test]
fn uniform_draws_scale_the_generator_output() {
    let mut rng = Rng::new(0);
    let drawn: Vec<i32> = (0..6).map(|_| rng.uniform(-100, 100)).collect();
    assert_eq!(drawn, vec![77, -14, -95, 95, -79, -35]);
}

#[test]
fn uniform_draw_from_a_single_point() {
    let mut rng = Rng::new(99);
    assert_eq!(rng.uniform(5, 5), 5);
    assert_eq!(rng.uniform(i32::MIN, i32::MIN), i32::MIN);
    let wide = rng.uniform(i32::MIN, i32::MAX);
    assert!(i32::MIN <= wide && wide <= i32::MAX);
}

#[test]
fn constant_policy_fills_and_draws_nothing() {
    let mut rng = Rng::new(7);
    let t = init(&mut rng, &[2, 3], Device::Cpu, Init::Const(3 * ONE)).unwrap();
    assert_eq!(t.size(), vec![2, 3]);
    assert_eq!(t.to_vec(), vec![3 * ONE; 6]);
    assert_eq!(rng.state(), 7);
}

#[test]
fn uniform_policy_draws_each_scalar_in_turn() {
    let mut rng = Rng::new(0);
    let t = init(
        &mut rng,
        &[2, 3],
        Device::Cuda(0),
        Init::Uniform { lo: -100, up: 100 },
    )
    .unwrap();
    assert_eq!(t.to_vec(), vec![77, -14, -95, 95, -79, -35]);
    assert_eq!(t.device(), Device::Cuda(0));
    assert_eq!(t.layout(), Layout::Dense);
    let mut expected = Rng::new(0);
    for _ in 0..6 {
        expected.next_u32();
    }
    assert_eq!(rng, expected);
}

#[test]
fn kaiming_uniform_weight_stays_within_inverse_root_of_fan_in() {
    let mut rng = Rng::new(2024);
    let t = init(&mut rng, &[4, 100], Device::Cpu, Init::KaimingUniform).unwrap();
    assert_eq!(t.size(), vec![4, 100]);
    let values = t.to_vec();
    assert_eq!(values.len(), 400);
    assert!(values.iter().all(|v| -6553 <= *v && *v <= 6553));
    let bound = 1.0 / (100.0f64).sqrt();
    assert!(values
        .iter()
        .all(|v| (*v as f64 / ONE as f64).abs() <= bound));
    assert!(values.iter().any(|v| *v > 3000));
    assert!(values.iter().any(|v| *v < -3000));
}

#[test]
fn kaiming_uniform_ignores_the_first_dimension() {
    let mut a = Rng::new(5);
    let mut b = Rng::new(5);
    let one = init(&mut a, &[1, 25], Device::Cpu, Init::KaimingUniform).unwrap();
    let many = init(&mut b, &[7, 25], Device::Cpu, Init::KaimingUniform).unwrap();
    assert_eq!(one.to_vec()[..], many.to_vec()[..25]);
    assert!(many.to_vec().iter().all(|v| v.abs() <= 13107));
    let mut c = Rng::new(5);
    let vector = init(&mut c, &[50], Device::Cpu, Init::KaimingUniform).unwrap();
    assert!(vector.to_vec().iter().all(|v| v.abs() <= ONE));
    assert!(vector.to_vec().iter().any(|v| v.abs() > 13107));
}

#[test]
fn kaiming_uniform_multiplies_the_trailing_dimensions() {
    let mut rng = Rng::new(11);
    let t = init(&mut rng, &[2, 10, 10], Device::Cpu, Init::KaimingUniform).unwrap();
    assert!(t.to_vec().iter().all(|v| v.abs() <= 6553));
}

#[test]
fn same_seed_gives_the_same_parameter() {
    let mut a = Rng::new(31337);
    let mut b = Rng::new(31337);
    let mut c = Rng::new(31338);
    let x = init(&mut a, &[3, 5], Device::Cpu, Init::KaimingUniform).unwrap();
    let y = init(&mut b, &[3, 5], Device::Cpu, Init::KaimingUniform).unwrap();
    let z = init(&mut c, &[3, 5], Device::Cpu, Init::KaimingUniform).unwrap();
    assert_eq!(x, y);
    assert_ne!(x, z);
}

#[test]
fn uniform_with_bounds_out_of_order_is_invalid_range() {
    let mut rng = Rng::new(1);
    let r = init(&mut rng, &[2], Device::Cpu, Init::Uniform { lo: 1, up: 0 });
    assert_eq!(r.unwrap_err(), TensorError::InvalidRange);
    assert_eq!(rng.state(), 1);
    let ok = init(&mut rng, &[2], Device::Cpu, Init::Uniform { lo: 4, up: 4 }).unwrap();
    assert_eq!(ok.to_vec(), vec![4, 4]);
}

#[test]
fn empty_or_non_positive_shape_is_invalid_shape() {
    let mut rng = Rng::new(1);
    for dims in [&[][..], &[0][..], &[3, -2][..], &[0, 5][..]] {
        for policy in [
            Init::Const(1),
            Init::KaimingUniform,
            Init::Uniform { lo: 0, up: 1 },
            Init::Uniform { lo: 1, up: 0 },
        ] {
            let r = init(&mut rng, dims, Device::Cpu, policy);
            assert_eq!(r.unwrap_err(), TensorError::InvalidShape);
        }
    }
    assert_eq!(rng.state(), 1);
}
