use melange::backprop::{Graph, Variable};
use melange::tensor::DynamicTensor;

fn ones(shape: Vec<usize>) -> DynamicTensor {
    DynamicTensor::fill_dynamic(1, shape)
}

#[test]
fn backprop() {
    let a = DynamicTensor::try_from_vec(vec![1, 1, 0, 1], vec![2, 2]).unwrap();
    let b = DynamicTensor::try_from_vec(vec![1, 1, 0, 1], vec![2, 2]).unwrap();

    let mut g = Graph::new();
    let a = Variable::new(&mut g, a, true);
    let b = Variable::new(&mut g, b, false);

    let c = Variable::clone(&a).add(&mut g, b);
    c.backward(&mut g, ones(vec![2, 2]));
    assert!(a.grad(&g).unwrap().equals(&ones(vec![2, 2])));
}

#[test]
fn backprop2() {
    let a = DynamicTensor::try_from_vec(vec![1, 2, 3, 4], vec![2, 2]).unwrap();
    let b = DynamicTensor::try_from_vec(vec![2, 1, 0, 2], vec![2, 2]).unwrap();
    let c = DynamicTensor::try_from_vec(vec![1, 0, 0, 1], vec![2, 2]).unwrap();

    let mut g = Graph::new();
    let a = Variable::new(&mut g, a, true);
    let b = Variable::new(&mut g, b, false);
    let c = Variable::new(&mut g, c, false);

    let a_times_b = Variable::clone(&a).mul(&mut g, b);
    let result = a_times_b.add(&mut g, c);
    result.backward(&mut g, ones(vec![2, 2]));

    let d = DynamicTensor::try_from_vec(vec![2, 1, 0, 2], vec![2, 2]).unwrap();
    assert!(a.grad(&g).unwrap().equals(&d));
}

#[test]
fn detached_variable_stays_detached() {
    let a = DynamicTensor::try_from_vec(vec![1, 2], vec![2]).unwrap();
    let b = DynamicTensor::try_from_vec(vec![3, 4], vec![2]).unwrap();

    let mut g = Graph::new();
    let a = Variable::new(&mut g, a, true);
    let b = Variable::new(&mut g, b, false);

    let c = Variable::clone(&a).add(&mut g, Variable::clone(&b));
    c.backward(&mut g, ones(vec![2]));
    c.backward(&mut g, ones(vec![2]));
    assert!(b.grad(&g).is_none());
    let d = Variable::clone(&a).mul(&mut g, Variable::clone(&b));
    d.backward(&mut g, ones(vec![2]));
    assert!(b.grad(&g).is_none());
}

#[test]
fn gradient_accumulates_across_passes() {
    let a = DynamicTensor::try_from_vec(vec![5, 6], vec![2]).unwrap();
    let mut g = Graph::new();
    let a = Variable::new(&mut g, a, true);
    let c = Variable::clone(&a).scal_add(&mut g, 10);
    c.backward(&mut g, ones(vec![2]));
    c.backward(&mut g, ones(vec![2]));
    let two = DynamicTensor::fill_dynamic(2, vec![2]);
    assert!(a.grad(&g).unwrap().equals(&two));
}

#[test]
fn sub_negates_right_gradient() {
    let a = DynamicTensor::try_from_vec(vec![4, 9], vec![2]).unwrap();
    let b = DynamicTensor::try_from_vec(vec![1, 2], vec![2]).unwrap();
    let mut g = Graph::new();
    let a = Variable::new(&mut g, a, true);
    let b = Variable::new(&mut g, b, true);
    let c = Variable::clone(&a).sub(&mut g, Variable::clone(&b));
    c.backward(&mut g, ones(vec![2]));
    assert!(a.grad(&g).unwrap().equals(&ones(vec![2])));
    let minus_ones = DynamicTensor::fill_dynamic(-1, vec![2]);
    assert!(b.grad(&g).unwrap().equals(&minus_ones));
}

#[test]
fn scal_mul_scales_gradient() {
    let a = DynamicTensor::try_from_vec(vec![1, 2, 3], vec![3]).unwrap();
    let mut g = Graph::new();
    let a = Variable::new(&mut g, a, true);
    let c = Variable::clone(&a).scal_mul(&mut g, 5);
    c.backward(&mut g, ones(vec![3]));
    let five = DynamicTensor::fill_dynamic(5, vec![3]);
    assert!(a.grad(&g).unwrap().equals(&five));
}

#[test]
fn untracked_leaf_has_no_grad() {
    let a = DynamicTensor::try_from_vec(vec![1], vec![1]).unwrap();
    let mut g = Graph::new();
    let a = Variable::new(&mut g, a, false);
    assert!(a.grad(&g).is_none());
    a.backward(&mut g, ones(vec![1]));
    assert!(a.grad(&g).is_none());
}

#[test]
fn backward_dynamic_matches_backward() {
    let a = DynamicTensor::try_from_vec(vec![2, 3], vec![2]).unwrap();
    let mut g = Graph::new();
    let a = Variable::new(&mut g, a, true);
    let c = Variable::clone(&a).scal_add(&mut g, 1);
    c.backward_dynamic(&mut g, ones(vec![2]));
    assert!(a.grad(&g).unwrap().equals(&ones(vec![2])));
}
