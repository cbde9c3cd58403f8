use linear_layer::nn::{Init, VarStore};
use linear_layer::tensor::{Device, Layout};
use linear_layer::TensorError;
use std::rc::Rc;

#[test]
fn new_store_is_empty() {
    let vs = VarStore::new(Device::Cuda(3), 1);
    assert_eq!(vs.len(), 0);
    assert_eq!(vs.device(), Device::Cuda(3));
    assert!(vs.get("weight").is_none());
}

#[test]
fn first_request_makes_the_variable() {
    let mut vs = VarStore::new(Device::Cpu, 0);
    let t = vs
        .var("w", &[2, 3], Init::Uniform { lo: -100, up: 100 })
        .unwrap();
    assert_eq!(t.to_vec(), vec![77, -14, -95, 95, -79, -35]);
    assert_eq!(t.size(), vec![2, 3]);
    assert_eq!(t.layout(), Layout::Dense);
    assert_eq!(t.device(), Device::Cpu);
    assert_eq!(vs.len(), 1);
    assert_eq!(vs.get("w").unwrap(), t);
}

#[test]
fn second_request_returns_the_same_variable() {
    let mut vs = VarStore::new(Device::Cpu, 0);
    let first = vs.var("w", &[4], Init::KaimingUniform).unwrap();
    let second = vs.var("w", &[4], Init::Const(0)).unwrap();
    assert_eq!(first, second);
    assert!(Rc::ptr_eq(first.storage(), second.storage()));
    assert_eq!(vs.len(), 1);
    // the next new variable is drawn as if the second request had not been made
    let mut other = VarStore::new(Device::Cpu, 0);
    other.var("w", &[4], Init::KaimingUniform).unwrap();
    let a = vs.var("v", &[4], Init::KaimingUniform).unwrap();
    let b = other.var("v", &[4], Init::KaimingUniform).unwrap();
    assert_eq!(a, b);
}

#[test]
fn request_with_another_shape_is_a_shape_mismatch() {
    let mut vs = VarStore::new(Device::Cpu, 0);
    let first = vs.var("w", &[2, 3], Init::Const(1)).unwrap();
    assert_eq!(
        vs.var("w", &[3, 2], Init::Const(1)).unwrap_err(),
        TensorError::ShapeMismatch
    );
    assert_eq!(
        vs.var("w", &[6], Init::Const(1)).unwrap_err(),
        TensorError::ShapeMismatch
    );
    assert_eq!(
        vs.var("w", &[], Init::Const(1)).unwrap_err(),
        TensorError::ShapeMismatch
    );
    assert_eq!(vs.len(), 1);
    assert_eq!(vs.get("w").unwrap(), first);
}

#[test]
fn failed_request_registers_nothing() {
    let mut vs = VarStore::new(Device::Cpu, 9);
    assert_eq!(
        vs.var("w", &[2], Init::Uniform { lo: 3, up: 2 }).unwrap_err(),
        TensorError::InvalidRange
    );
    assert_eq!(
        vs.var("w", &[0], Init::Const(1)).unwrap_err(),
        TensorError::InvalidShape
    );
    assert_eq!(vs.len(), 0);
    assert!(vs.get("w").is_none());
    let mut fresh = VarStore::new(Device::Cpu, 9);
    let a = vs.var("w", &[3], Init::KaimingUniform).unwrap();
    let b = fresh.var("w", &[3], Init::KaimingUniform).unwrap();
    assert_eq!(a, b);
}

#[test]
fn check_var_answers_like_var() {
    let mut vs = VarStore::new(Device::Cpu, 9);
    assert_eq!(vs.check_var("w", &[2], Init::Const(1)), Ok(()));
    assert_eq!(
        vs.check_var("w", &[2], Init::Uniform { lo: 3, up: 2 }),
        Err(TensorError::InvalidRange)
    );
    assert_eq!(
        vs.check_var("w", &[], Init::Uniform { lo: 3, up: 2 }),
        Err(TensorError::InvalidShape)
    );
    assert_eq!(vs.len(), 0);
    vs.var("w", &[2], Init::Const(1)).unwrap();
    assert_eq!(
        vs.check_var("w", &[2], Init::Uniform { lo: 3, up: 2 }),
        Ok(())
    );
    assert_eq!(
        vs.check_var("w", &[3], Init::Const(1)),
        Err(TensorError::ShapeMismatch)
    );
}

#[test]
fn scopes_keep_equal_names_apart() {
    let mut vs = VarStore::new(Device::Cpu, 0);
    vs.enter("fc1");
    let a = vs.var("weight", &[2], Init::Const(1)).unwrap();
    vs.leave();
    vs.enter("fc2");
    let b = vs.var("weight", &[3], Init::Const(2)).unwrap();
    assert!(vs.get("weight").unwrap() == b);
    vs.leave();
    assert_eq!(vs.len(), 2);
    assert!(vs.get("weight").is_none());
    assert_eq!(vs.get("fc1.weight").unwrap(), a);
    assert_eq!(vs.get("fc2.weight").unwrap(), b);
    vs.enter("fc1");
    assert_eq!(vs.var("weight", &[2], Init::Const(7)).unwrap(), a);
    vs.enter("inner");
    vs.var("weight", &[1], Init::Const(3)).unwrap();
    vs.leave();
    vs.leave();
    assert_eq!(vs.get("fc1.inner.weight").unwrap().to_vec(), vec![3]);
    assert_eq!(vs.len(), 3);
}

#[test]
fn leaving_the_outermost_scope_changes_nothing() {
    let mut vs = VarStore::new(Device::Cpu, 0);
    vs.leave();
    vs.var("w", &[1], Init::Const(1)).unwrap();
    vs.leave();
    assert!(vs.get("w").is_some());
}
