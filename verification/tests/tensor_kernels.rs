use linear_layer::fixed::ONE;
use linear_layer::shape::{checked_numel, fits_usize, is_valid_shape};
use linear_layer::tensor::{Device, Layout, Tensor};
use linear_layer::TensorError;
use std::rc::Rc;

fn fx(v: f64) -> i32 {
    (v * ONE as f64).floor() as i32
}

fn dense(dims: &[i64], values: &[f64]) -> Tensor {
    Tensor::from_vec(dims, values.iter().map(|v| fx(*v)).collect(), Device::Cpu).unwrap()
}

#[test]
fn valid_shapes_have_positive_dimensions() {
    assert!(is_valid_shape(&[1]));
    assert!(is_valid_shape(&[3, 4, 5]));
    assert!(!is_valid_shape(&[]));
    assert!(!is_valid_shape(&[3, 0, 5]));
    assert!(!is_valid_shape(&[-3]));
}

#[test]
fn element_count_is_the_product_of_the_dimensions() {
    assert_eq!(checked_numel(&[7]), Some(7));
    assert_eq!(checked_numel(&[3, 4, 5]), Some(60));
    assert_eq!(checked_numel(&[1, 1, 1, 1]), Some(1));
    assert_eq!(checked_numel(&[]), None);
    assert_eq!(checked_numel(&[3, 0]), None);
    assert_eq!(checked_numel(&[i64::MAX, 2]), Some(usize::MAX - 1));
    assert_eq!(checked_numel(&[i64::MAX, 3]), None);
    assert_eq!(checked_numel(&[1 << 32, 1 << 32]), None);
}

#[test]
fn invalid_shapes_need_no_room() {
    assert!(fits_usize(&[3, 4]));
    assert!(fits_usize(&[]));
    assert!(fits_usize(&[0, i64::MAX, i64::MAX]));
    assert!(!fits_usize(&[i64::MAX, i64::MAX]));
}

#[test]
fn rows_and_columns_split_the_element_count() {
    let t = Tensor::zeros(&[2, 3, 4], Device::Cpu).unwrap();
    assert_eq!(t.rows(), 6);
    assert_eq!(t.cols(), 4);
    let v = Tensor::zeros(&[5], Device::Cpu).unwrap();
    assert_eq!(v.rows(), 1);
    assert_eq!(v.cols(), 5);
}

#[test]
fn zeros_has_the_requested_shape() {
    let t = Tensor::zeros(&[2, 3], Device::Cuda(1)).unwrap();
    assert_eq!(t.size(), vec![2, 3]);
    assert_eq!(t.numel(), 6);
    assert_eq!(t.to_vec(), vec![0; 6]);
    assert_eq!(t.device(), Device::Cuda(1));
    assert_eq!(t.layout(), Layout::Dense);
    assert!(!t.is_mkldnn());
}

#[test]
fn full_repeats_the_value() {
    let t = Tensor::full(&[4], -9, Device::Cpu).unwrap();
    assert_eq!(t.to_vec(), vec![-9, -9, -9, -9]);
}

#[test]
fn constructors_refuse_invalid_shapes() {
    assert_eq!(Tensor::zeros(&[], Device::Cpu).unwrap_err(), TensorError::InvalidShape);
    assert_eq!(Tensor::zeros(&[3, 0], Device::Cpu).unwrap_err(), TensorError::InvalidShape);
    assert_eq!(Tensor::full(&[-1], 1, Device::Cpu).unwrap_err(), TensorError::InvalidShape);
    assert_eq!(
        Tensor::from_vec(&[0], vec![], Device::Cpu).unwrap_err(),
        TensorError::InvalidShape
    );
}

#[test]
fn from_vec_checks_the_element_count() {
    assert_eq!(
        Tensor::from_vec(&[2, 2], vec![1, 2, 3], Device::Cpu).unwrap_err(),
        TensorError::IncompatibleShapes
    );
    assert_eq!(
        Tensor::from_vec(&[i64::MAX, i64::MAX], vec![1], Device::Cpu).unwrap_err(),
        TensorError::IncompatibleShapes
    );
    let t = Tensor::from_vec(&[2, 2], vec![1, 2, 3, 4], Device::Cpu).unwrap();
    assert!(t.has_shape(&[2, 2]));
    assert!(!t.has_shape(&[4]));
    assert!(!t.has_shape(&[2, 3]));
}

#[test]
fn conversions_change_the_tag_and_share_the_storage() {
    let t = dense(&[2], &[1.0, 2.0]);
    let m = t.to_mkldnn();
    assert!(m.is_mkldnn());
    assert_eq!(m.to_vec(), t.to_vec());
    assert_eq!(m.size(), t.size());
    assert!(Rc::ptr_eq(m.storage(), t.storage()));
    let d = m.to_dense();
    assert_eq!(d, t);
    assert!(!t.is_mkldnn());
    let h = t.shallow_clone();
    assert_eq!(h, t);
    assert!(Rc::ptr_eq(h.storage(), t.storage()));
}

#[test]
fn tr_swaps_rows_and_columns() {
    let t = Tensor::from_vec(&[2, 3], vec![1, 2, 3, 4, 5, 6], Device::Cpu).unwrap();
    let r = t.tr().unwrap();
    assert_eq!(r.size(), vec![3, 2]);
    assert_eq!(r.to_vec(), vec![1, 4, 2, 5, 3, 6]);
    assert_eq!(r.tr().unwrap(), t);
}

#[test]
fn tr_takes_dense_matrices_only() {
    let v = Tensor::zeros(&[3], Device::Cpu).unwrap();
    assert_eq!(v.tr().unwrap_err(), TensorError::IncompatibleShapes);
    let c = Tensor::zeros(&[2, 2, 2], Device::Cpu).unwrap();
    assert_eq!(c.tr().unwrap_err(), TensorError::IncompatibleShapes);
    let m = Tensor::zeros(&[2, 2], Device::Cpu).unwrap().to_mkldnn();
    assert_eq!(m.tr().unwrap_err(), TensorError::IncompatibleLayouts);
}

#[test]
fn matmul_multiplies_rows_by_columns() {
    let a = dense(&[2, 3], &[1.0, 2.0, 3.0, -1.0, 0.5, 0.0]);
    let b = dense(&[3, 2], &[1.0, 0.0, 0.0, 1.0, 2.0, -2.0]);
    let p = a.matmul(&b).unwrap();
    assert_eq!(p.size(), vec![2, 2]);
    assert_eq!(p.to_vec(), vec![fx(7.0), fx(-4.0), fx(-1.0), fx(0.5)]);
}

#[test]
fn matmul_keeps_leading_dimensions() {
    let a = dense(&[2, 1, 2], &[1.0, 2.0, 3.0, 4.0]);
    let b = dense(&[2, 3], &[1.0, 0.0, 1.0, 0.0, 1.0, 1.0]);
    let p = a.matmul(&b).unwrap();
    assert_eq!(p.size(), vec![2, 1, 3]);
    assert_eq!(
        p.to_vec(),
        vec![fx(1.0), fx(2.0), fx(3.0), fx(3.0), fx(4.0), fx(7.0)]
    );
    let v = dense(&[2], &[1.0, 1.0]);
    let q = v.matmul(&b).unwrap();
    assert_eq!(q.size(), vec![3]);
    assert_eq!(q.to_vec(), vec![fx(1.0), fx(1.0), fx(2.0)]);
}

#[test]
fn matmul_rounds_once_toward_minus_infinity() {
    let a = Tensor::from_vec(&[1, 2], vec![1, 1], Device::Cpu).unwrap();
    let b = Tensor::from_vec(&[2, 1], vec![40000, 30000], Device::Cpu).unwrap();
    assert_eq!(a.matmul(&b).unwrap().to_vec(), vec![1]);
    let c = Tensor::from_vec(&[2, 1], vec![-1, 0], Device::Cpu).unwrap();
    assert_eq!(a.matmul(&c).unwrap().to_vec(), vec![-1]);
}

#[test]
fn matmul_saturates() {
    let a = Tensor::from_vec(&[1, 2], vec![i32::MAX, i32::MAX], Device::Cpu).unwrap();
    let b = Tensor::from_vec(&[2, 2], vec![i32::MAX, i32::MIN, i32::MAX, i32::MIN], Device::Cpu)
        .unwrap();
    assert_eq!(a.matmul(&b).unwrap().to_vec(), vec![i32::MAX, i32::MIN]);
}

#[test]
fn matmul_refuses_what_does_not_fit() {
    let a = dense(&[2, 3], &[0.0; 6]);
    let b = dense(&[2, 3], &[0.0; 6]);
    assert_eq!(a.matmul(&b).unwrap_err(), TensorError::IncompatibleShapes);
    let v = dense(&[3], &[0.0; 3]);
    assert_eq!(a.matmul(&v).unwrap_err(), TensorError::IncompatibleShapes);
    let c = dense(&[3, 2], &[0.0; 6]);
    assert_eq!(
        a.to_mkldnn().matmul(&c).unwrap_err(),
        TensorError::IncompatibleLayouts
    );
    assert_eq!(
        a.matmul(&c.to_mkldnn()).unwrap_err(),
        TensorError::IncompatibleLayouts
    );
    let far = Tensor::zeros(&[3, 2], Device::Cuda(0)).unwrap();
    assert_eq!(a.matmul(&far).unwrap_err(), TensorError::IncompatibleDevices);
    // the layout is looked at first, then the device, then the shapes
    let far_wrong = Tensor::zeros(&[5, 2], Device::Cuda(0)).unwrap();
    assert_eq!(
        a.matmul(&far_wrong).unwrap_err(),
        TensorError::IncompatibleDevices
    );
    assert_eq!(
        a.matmul(&far_wrong.to_mkldnn()).unwrap_err(),
        TensorError::IncompatibleLayouts
    );
}

#[test]
fn add_repeats_the_second_operand_over_rows() {
    let a = dense(&[2, 3], &[1.0, 2.0, 3.0, 4.0, 5.0, 6.0]);
    let b = dense(&[3], &[0.5, -0.5, 1.0]);
    let s = a.add(&b).unwrap();
    assert_eq!(s.size(), vec![2, 3]);
    assert_eq!(
        s.to_vec(),
        vec![fx(1.5), fx(1.5), fx(4.0), fx(4.5), fx(4.5), fx(7.0)]
    );
    let same = a.add(&a).unwrap();
    assert_eq!(
        same.to_vec(),
        vec![fx(2.0), fx(4.0), fx(6.0), fx(8.0), fx(10.0), fx(12.0)]
    );
}

#[test]
fn add_saturates() {
    let a = Tensor::from_vec(&[2], vec![i32::MAX, i32::MIN], Device::Cpu).unwrap();
    let b = Tensor::from_vec(&[2], vec![1, -1], Device::Cpu).unwrap();
    assert_eq!(a.add(&b).unwrap().to_vec(), vec![i32::MAX, i32::MIN]);
}

#[test]
fn add_refuses_what_does_not_fit() {
    let a = dense(&[2, 3], &[0.0; 6]);
    let b = dense(&[2], &[0.0; 2]);
    assert_eq!(a.add(&b).unwrap_err(), TensorError::IncompatibleShapes);
    let longer = dense(&[1, 2, 3], &[0.0; 6]);
    assert_eq!(a.add(&longer).unwrap_err(), TensorError::IncompatibleShapes);
    let c = dense(&[3], &[0.0; 3]);
    assert_eq!(
        a.add(&c.to_mkldnn()).unwrap_err(),
        TensorError::IncompatibleLayouts
    );
    let far = Tensor::zeros(&[3], Device::Cuda(2)).unwrap();
    assert_eq!(a.add(&far).unwrap_err(), TensorError::IncompatibleDevices);
}

#[test]
fn mkldnn_linear_computes_the_affine_map() {
    let x = dense(&[2, 2], &[1.0, 1.0, 2.0, 0.0]).to_mkldnn();
    let w = dense(&[3, 2], &[1.0, 2.0, 0.5, -1.0, 0.0, 0.0]).to_mkldnn();
    let b = dense(&[3], &[0.25, -0.25, 1.0]).to_mkldnn();
    let y = x.mkldnn_linear(&w, Some(&b)).unwrap();
    assert!(y.is_mkldnn());
    assert_eq!(y.size(), vec![2, 3]);
    assert_eq!(
        y.to_vec(),
        vec![fx(3.25), fx(-0.75), fx(1.0), fx(2.25), fx(0.75), fx(1.0)]
    );
    let plain = x.mkldnn_linear(&w, None).unwrap();
    assert_eq!(
        plain.to_vec(),
        vec![fx(3.0), fx(-0.5), fx(0.0), fx(2.0), fx(1.0), fx(0.0)]
    );
}

#[test]
fn mkldnn_linear_takes_accelerated_operands_only() {
    let x = dense(&[2, 2], &[0.0; 4]);
    let w = dense(&[3, 2], &[0.0; 6]);
    let b = dense(&[3], &[0.0; 3]);
    let (xm, wm, bm) = (x.to_mkldnn(), w.to_mkldnn(), b.to_mkldnn());
    assert_eq!(
        x.mkldnn_linear(&wm, Some(&bm)).unwrap_err(),
        TensorError::IncompatibleLayouts
    );
    assert_eq!(
        xm.mkldnn_linear(&w, Some(&bm)).unwrap_err(),
        TensorError::IncompatibleLayouts
    );
    assert_eq!(
        xm.mkldnn_linear(&wm, Some(&b)).unwrap_err(),
        TensorError::IncompatibleLayouts
    );
    assert!(xm.mkldnn_linear(&wm, Some(&bm)).is_ok());
}

#[test]
fn mkldnn_linear_refuses_what_does_not_fit() {
    let x = dense(&[2, 2], &[0.0; 4]).to_mkldnn();
    let w = dense(&[3, 2], &[0.0; 6]).to_mkldnn();
    let wide = dense(&[3, 4], &[0.0; 12]).to_mkldnn();
    assert_eq!(
        x.mkldnn_linear(&wide, None).unwrap_err(),
        TensorError::IncompatibleShapes
    );
    let short = dense(&[2], &[0.0; 2]).to_mkldnn();
    assert_eq!(
        x.mkldnn_linear(&w, Some(&short)).unwrap_err(),
        TensorError::IncompatibleShapes
    );
    let square = dense(&[3, 1], &[0.0; 3]).to_mkldnn();
    assert_eq!(
        x.mkldnn_linear(&w, Some(&square)).unwrap_err(),
        TensorError::IncompatibleShapes
    );
    let far = Tensor::zeros(&[3], Device::Cuda(0)).unwrap().to_mkldnn();
    assert_eq!(
        x.mkldnn_linear(&w, Some(&far)).unwrap_err(),
        TensorError::IncompatibleDevices
    );
    let flat = dense(&[6], &[0.0; 6]).to_mkldnn();
    assert_eq!(
        x.mkldnn_linear(&flat, None).unwrap_err(),
        TensorError::IncompatibleShapes
    );
}
