use melange::layout::LayoutMut;
use melange::ring::Ring;
use melange::shape::Dim;
use melange::tensor::{DynamicTensor, SliceTensor, StaticTensor, TensorError};

#[test]
fn broadcast_same_order() {
    let a = StaticTensor::try_from_vec(vec![1, 2], vec![1, 2]).unwrap();
    let b = a.broadcast(vec![2, 2]);

    let c = StaticTensor::try_from_vec(vec![1, 2, 1, 2], vec![2, 2]).unwrap();
    assert!(b.equals(&c.stride(vec![1, 1])));
    assert_eq!(b.shape(), vec![2, 2]);
    assert_eq!(b.strides(), vec![0, 1]);
    assert_eq!(b.opt_chunk_size(), 2);
}

#[test]
fn broadcast_different_order() {
    let a = StaticTensor::try_from_vec(vec![1, 2], vec![2]).unwrap();
    let b = a.broadcast(vec![2, 2]);

    let c = StaticTensor::try_from_vec(vec![1, 2, 1, 2], vec![2, 2]).unwrap();
    assert!(b.equals(&c.stride(vec![1, 1])));
    assert_eq!(b.shape(), vec![2, 2]);
    assert_eq!(b.strides(), vec![0, 1]);
    assert_eq!(b.opt_chunk_size(), 2);
}

#[test]
fn broadcast_reads_one_value() {
    let a = StaticTensor::try_from_vec(vec![1, 2], vec![1, 2]).unwrap();
    let b = a.broadcast(vec![2, 2]);
    assert_eq!(b.num_elements(), 4);
    assert_eq!(b.elem(0), 1);
    assert_eq!(b.elem(1), 2);
    assert_eq!(b.elem(2), 1);
    assert_eq!(b.elem(3), 2);
}

#[test]
fn broadcast_chunks_repeat() {
    let a = StaticTensor::try_from_vec(vec![1, 2], vec![1, 2]).unwrap();
    let b = a.broadcast(vec![2, 2]);
    let view = b.layout;
    let mut chunks = view.chunks(2);
    assert_eq!(chunks.next(), Some(vec![1, 2]));
    assert_eq!(chunks.next(), Some(vec![1, 2]));
    assert_eq!(chunks.next(), None);
}

#[test]
fn reshape() {
    let a = StaticTensor::try_from_vec(vec![1, 2, 1, 2], vec![4]).unwrap();
    let b = a.reshape(vec![2, 2]);

    let c = StaticTensor::try_from_vec(vec![1, 2, 1, 2], vec![2, 2]).unwrap();
    assert!(b.equals(&c.as_view()));
    assert_eq!(b.shape(), vec![2, 2]);
    assert_eq!(b.strides(), vec![2, 1]);
    assert_eq!(b.opt_chunk_size(), 4);
}

#[test]
fn add() {
    let a = StaticTensor::try_from_vec(vec![1, 0, 0, 0, 1, 0, 0, 0, 1], vec![3, 3]).unwrap();
    let b = StaticTensor::try_from_vec(vec![1, 1, 1, 1, 1, 1, 1, 1, 1], vec![3, 3]).unwrap();
    let c = a.add(&b);

    let d = StaticTensor::try_from_vec(vec![2, 1, 1, 1, 2, 1, 1, 1, 2], vec![3, 3]).unwrap();
    assert!(c.equals(&d));
}

#[test]
fn mul() {
    let a = StaticTensor::try_from_vec(vec![1, 0, 0, 0, 3, 0, 0, 0, 1], vec![3, 3]).unwrap();
    let b = StaticTensor::try_from_vec(vec![3, 1, 1, 1, 1, 1, 1, 1, 1], vec![3, 3]).unwrap();
    let c = a.mul(&b);

    let d = StaticTensor::try_from_vec(vec![3, 0, 0, 0, 3, 0, 0, 0, 1], vec![3, 3]).unwrap();
    assert!(c.equals(&d));
}

#[test]
fn sub() {
    let a = StaticTensor::try_from_vec(vec![5, 3], vec![2]).unwrap();
    let b = StaticTensor::try_from_vec(vec![1, 7], vec![2]).unwrap();
    let c = a.sub(&b);
    let d = StaticTensor::try_from_vec(vec![4, -4], vec![2]).unwrap();
    assert!(c.equals(&d));
}

#[test]
fn add_coerce_ok() {
    let a = DynamicTensor::try_from_vec(vec![1, 0, 0, 0, 1, 0, 0, 0, 1], vec![3, 3]).unwrap();
    let b = StaticTensor::try_from_vec(vec![1, 1, 1, 1, 1, 1, 1, 1, 1], vec![3, 3]).unwrap();
    let c = a.add(&b);

    let d = StaticTensor::try_from_vec(vec![2, 1, 1, 1, 2, 1, 1, 1, 2], vec![3, 3]).unwrap();
    assert!(c.equals(&d));
}

#[test]
fn add_dyn_ok() {
    let a = DynamicTensor::try_from_vec(vec![1, 0, 0, 0, 1, 0, 0, 0, 1], vec![3, 3]).unwrap();
    let b = DynamicTensor::try_from_vec(vec![1, 1, 1, 1, 1, 1, 1, 1, 1], vec![3, 3]).unwrap();
    let c = a.add_dynamic(&b);

    let d = DynamicTensor::try_from_vec(vec![2, 1, 1, 1, 2, 1, 1, 1, 2], vec![3, 3]).unwrap();
    assert!(c.equals(&d));
}

#[test]
fn add_shape_mismatch_detected() {
    let a = DynamicTensor::try_from_vec(vec![1, 0, 0, 0, 1, 0, 0, 0], vec![4, 2]).unwrap();
    let b = StaticTensor::try_from_vec(vec![1, 1, 1, 1], vec![2, 2]).unwrap();
    assert_ne!(a.shape(), b.shape());
}

#[test]
fn add_broadcast() {
    let a = StaticTensor::try_from_vec(vec![1, 0, 0, 0, 1, 0, 0, 0, 1], vec![3, 3]).unwrap();
    let b = StaticTensor::try_from_vec(vec![1, 1, 1], vec![3]).unwrap();
    let c = a.add(&b.broadcast(vec![3, 3]));

    let d = StaticTensor::try_from_vec(vec![2, 1, 1, 1, 2, 1, 1, 1, 2], vec![3, 3]).unwrap();
    assert!(c.equals(&d));
}

#[test]
fn scal_add() {
    let a = StaticTensor::try_from_vec(vec![1, 0, 0, 0, 1, 0, 0, 0, 1], vec![3, 3]).unwrap();
    let c = a.scal_add(1);

    let d = StaticTensor::try_from_vec(vec![2, 1, 1, 1, 2, 1, 1, 1, 2], vec![3, 3]).unwrap();
    assert!(c.equals(&d));
}

#[test]
fn scal_add_dyn() {
    let a = DynamicTensor::try_from_vec(vec![1, 0, 0, 0, 1, 0, 0, 0, 1], vec![3, 3]).unwrap();
    let c = a.scal_add(1);

    let d = DynamicTensor::try_from_vec(vec![2, 1, 1, 1, 2, 1, 1, 1, 2], vec![3, 3]).unwrap();
    assert!(c.equals(&d));
}

#[test]
fn sum() {
    let a = StaticTensor::try_from_vec(vec![1, 0, 0, 0, 1, 0, 0, 0, 1], vec![3, 3]).unwrap();
    let c = a.sum(1);

    let d = StaticTensor::try_from_vec(vec![1, 1, 1], vec![3, 1]).unwrap();
    assert!(c.equals(&d));
}

#[test]
fn sum_dyn() {
    let a = DynamicTensor::try_from_vec(vec![1, 2, 3, 4, 5, 6], vec![2, 3]).unwrap();
    let c = a.sum_dynamic(1);
    let d = DynamicTensor::try_from_vec(vec![6, 15], vec![2, 1]).unwrap();
    assert!(c.equals(&d));
}

#[test]
fn prod_along_axis() {
    let a = StaticTensor::try_from_vec(vec![1, 2, 3, 4, 5, 6], vec![2, 3]).unwrap();
    let c = a.prod(1);
    let d = StaticTensor::try_from_vec(vec![6, 120], vec![2, 1]).unwrap();
    assert!(c.equals(&d));
}

#[test]
fn sum_outer_axis() {
    let a = StaticTensor::try_from_vec(vec![1, 2, 3, 4, 5, 6], vec![2, 3]).unwrap();
    let c = a.sum(0);
    let d = StaticTensor::try_from_vec(vec![5, 7, 9], vec![1, 3]).unwrap();
    assert!(c.equals(&d));
}

#[test]
fn transpose() {
    let a = StaticTensor::try_from_vec(vec![1, 2, 3, 4, 5, 6], vec![2, 3]).unwrap();
    let b = a.transpose();

    let c = StaticTensor::try_from_vec(vec![1, 4, 2, 5, 3, 6], vec![3, 2]).unwrap();
    assert!(b.equals(&c));
    let zero = b.sub(&c).sum(0).sum(1);
    assert_eq!(zero.elem(0), 0);
    assert_eq!(b.shape(), vec![3, 2]);
    assert_eq!(b.strides(), vec![1, 3]);
    assert_eq!(b.opt_chunk_size(), 1);
}

#[test]
fn transposed_chunks_walk_strides() {
    let a = StaticTensor::try_from_vec(vec![1, 2, 3, 4, 5, 6], vec![2, 3]).unwrap();
    let b = a.transpose();
    let mut chunks = b.layout.chunks(1);
    let mut seen = Vec::new();
    while let Some(chunk) = chunks.next() {
        seen.push(chunk[0]);
    }
    assert_eq!(seen, vec![1, 4, 2, 5, 3, 6]);
}

#[test]
fn as_contiguous_materializes_views() {
    let a = StaticTensor::try_from_vec(vec![1, 2, 3, 4, 5, 6], vec![2, 3]).unwrap();
    let b = a.transpose().as_contiguous();
    let c = StaticTensor::try_from_vec(vec![1, 4, 2, 5, 3, 6], vec![3, 2]).unwrap();
    assert!(b.equals(&c));
    assert_eq!(b.strides(), vec![2, 1]);
}

#[test]
fn sum_middle_axis() {
    let a = StaticTensor::try_from_vec(vec![1, 2, 3, 4, 5, 6, 7, 8], vec![2, 2, 2]).unwrap();
    let c = a.sum(1);
    let d = StaticTensor::try_from_vec(vec![4, 6, 12, 14], vec![2, 1, 2]).unwrap();
    assert!(c.equals(&d));
}

#[test]
fn dynamic_elementwise_ops() {
    let a = DynamicTensor::try_from_vec(vec![2, 3], vec![2]).unwrap();
    let b = DynamicTensor::try_from_vec(vec![5, 7], vec![2]).unwrap();
    assert!(a.mul_dynamic(&b).equals(
        &DynamicTensor::try_from_vec(vec![10, 21], vec![2]).unwrap()
    ));
    assert!(a.sub_dynamic(&b).equals(
        &DynamicTensor::try_from_vec(vec![-3, -4], vec![2]).unwrap()
    ));
    assert!(a.scal_mul_dynamic(3).equals(
        &DynamicTensor::try_from_vec(vec![6, 9], vec![2]).unwrap()
    ));
    let bc = a.broadcast_dynamic(vec![2, 2]);
    assert_eq!(bc.shape(), vec![2, 2]);
}

#[test]
fn transpose_involution() {
    let a = StaticTensor::try_from_vec(vec![1, 2, 3, 4, 5, 6], vec![2, 3]).unwrap();
    let b = a.transpose().transpose();
    assert!(b.equals(&a));
    assert_eq!(b.shape(), a.shape());
}

#[test]
fn stride_subsamples() {
    let a = StaticTensor::try_from_vec(vec![1, 2, 3, 4, 5, 6], vec![2, 3]).unwrap();
    let b = a.stride(vec![1, 2]);
    let c = StaticTensor::try_from_vec(vec![1, 3, 4, 6], vec![2, 2]).unwrap();
    assert!(b.equals(&c));
    assert_eq!(b.shape(), vec![2, 2]);
    assert_eq!(b.strides(), vec![3, 2]);
    assert_eq!(b.opt_chunk_size(), 1);
}

#[test]
fn unit_stride_keeps_inner_run() {
    let a = StaticTensor::try_from_vec(vec![1, 2, 3, 4, 5, 6], vec![2, 3]).unwrap();
    let b = a.stride(vec![2, 1]);
    assert_eq!(b.shape(), vec![1, 3]);
    assert_eq!(b.strides(), vec![6, 1]);
    assert_eq!(b.opt_chunk_size(), 3);
}

#[test]
fn set_chunk_writes_runs() {
    let mut a = DynamicTensor::try_from_vec(vec![0, 0, 0, 0, 0, 0], vec![2, 3]).unwrap();
    a.layout.set_chunk(0, &vec![1, 2, 3]);
    a.layout.set_chunk(3, &vec![4, 5, 6]);
    let b = DynamicTensor::try_from_vec(vec![1, 2, 3, 4, 5, 6], vec![2, 3]).unwrap();
    assert!(a.equals(&b));
}

#[test]
fn from_slice_views() {
    let t = SliceTensor::from_slice(vec![7, 8, 9, 10], vec![2, 2]).unwrap();
    assert_eq!(t.shape(), vec![2, 2]);
    assert_eq!(t.elem(3), 10);
    let u = SliceTensor::from_slice_dyn(
        vec![7, 8, 9, 10],
        &vec![Dim::Dyn, Dim::Fixed(2)],
        vec![2, 2],
    )
    .unwrap();
    assert!(t.equals(&u));
}

#[test]
fn construction_size_mismatch() {
    let r = StaticTensor::try_from_vec(vec![1, 2, 3], vec![2, 2]);
    assert_eq!(r.unwrap_err(), TensorError::SizeMismatch);
    let r2 = SliceTensor::from_slice(vec![1, 2, 3], vec![4]);
    assert_eq!(r2.unwrap_err(), TensorError::SizeMismatch);
}

#[test]
fn construction_shape_mismatch() {
    let r = SliceTensor::from_slice_dyn(
        vec![1, 2, 3, 4],
        &vec![Dim::Fixed(4), Dim::Dyn],
        vec![2, 2],
    );
    assert_eq!(r.unwrap_err(), TensorError::ShapeMismatch);
}

#[test]
fn fill_and_allocate() {
    let a = StaticTensor::fill(7, vec![2, 3]);
    assert_eq!(a.num_elements(), 6);
    assert_eq!(a.elem(5), 7);
    let b = DynamicTensor::fill_dynamic(3, vec![2, 2]);
    assert_eq!(b.elem(0), 3);
    let z = DynamicTensor::allocate(vec![2, 2]);
    let zero = StaticTensor::fill(0, vec![2, 2]);
    assert!(z.equals(&zero));
}

#[test]
fn reshape_dynamic_matches_reshape() {
    let a = DynamicTensor::try_from_vec(vec![1, 2, 3, 4], vec![4]).unwrap();
    let b = a.reshape_dynamic(vec![2, 2]);
    let c = a.reshape(vec![2, 2]);
    assert!(b.equals(&c));
}

#[test]
fn in_place_ops() {
    let mut a = DynamicTensor::try_from_vec(vec![1, 2, 3, 4], vec![2, 2]).unwrap();
    let b = DynamicTensor::try_from_vec(vec![10, 20, 30, 40], vec![2, 2]).unwrap();
    a.add_(&b);
    let c = DynamicTensor::try_from_vec(vec![11, 22, 33, 44], vec![2, 2]).unwrap();
    assert!(a.equals(&c));
    a.scal_mul_(2);
    let d = DynamicTensor::try_from_vec(vec![22, 44, 66, 88], vec![2, 2]).unwrap();
    assert!(a.equals(&d));
    a.mul_(&b);
    let e = DynamicTensor::try_from_vec(vec![220, 880, 1980, 3520], vec![2, 2]).unwrap();
    assert!(a.equals(&e));
}

#[test]
fn rank_zero_tensor() {
    let a = StaticTensor::try_from_vec(vec![42], Vec::new()).unwrap();
    assert_eq!(a.num_elements(), 1);
    assert_eq!(a.elem(0), 42);
    let b = a.scal_add(1);
    assert_eq!(b.elem(0), 43);
    let t = a.transpose();
    assert_eq!(t.shape(), Vec::<usize>::new());
    assert_eq!(t.elem(0), 42);
}

#[test]
fn scalar_arithmetic_wraps() {
    let a = StaticTensor::try_from_vec(vec![i64::MAX], vec![1]).unwrap();
    let b = a.scal_add(1);
    assert_eq!(b.elem(0), i64::MIN);
}

#[test]
fn ring_identities() {
    assert_eq!(<i64 as Ring>::ring_zero(), 0);
    assert_eq!(<i64 as Ring>::ring_one(), 1);
    assert_eq!(1i64.inv(), 1);
    assert_eq!((-1i64).inv(), -1);
    assert_eq!(5i64.inv(), 0);
}
