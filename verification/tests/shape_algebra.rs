use melange::shape::{
    broadcast_compat, checked_num_elements, clone_dims, intrinsic_strides_in_place, reduction,
    repr_shape, rev_usizes, runtime_compat, same, same_num_elements, sizes_broadcast_check,
    static_strides, to_runtime_vector, transpose_desc, Dim,
};

fn fixed(sizes: &[usize]) -> Vec<Dim> {
    sizes.iter().map(|s| Dim::Fixed(*s)).collect()
}

#[test]
fn shape() {
    let desc = fixed(&[3, 2]);
    assert_eq!(to_runtime_vector(&desc), vec![3, 2]);
    assert_eq!(static_strides(&desc), vec![2, 1]);
    assert_eq!(checked_num_elements(&vec![3, 2]), Some(6));
}

#[test]
fn shape_constraints() {
    assert!(broadcast_compat(&fixed(&[2, 1, 2]), &fixed(&[5, 1, 3, 2])));
    assert!(!broadcast_compat(&fixed(&[2, 4, 2]), &fixed(&[5, 1, 3, 2])));
    assert!(same_num_elements(&fixed(&[6]), &fixed(&[3, 2])));
    assert!(!same_num_elements(&fixed(&[6]), &fixed(&[3, 3])));
    assert!(same(&vec![Dim::Dyn, Dim::Fixed(2)], &fixed(&[3, 2])));
    assert!(!same(&vec![Dim::Dyn, Dim::Fixed(2)], &fixed(&[3, 3])));
    assert_eq!(checked_num_elements(&vec![5, 1, 3, 2]), Some(30));
    assert_eq!(
        to_runtime_vector(&repr_shape(
            &vec![Dim::Dyn, Dim::Fixed(2)],
            &vec![Dim::Fixed(3), Dim::Dyn],
        )),
        vec![3, 2]
    );
    assert!(runtime_compat(&vec![Dim::Dyn, Dim::Dyn], &vec![2, 3]));
    assert!(runtime_compat(&vec![Dim::Fixed(2), Dim::Dyn], &vec![2, 3]));
    assert!(runtime_compat(&vec![Dim::Dyn, Dim::Dyn], &vec![3, 3]));
    assert!(runtime_compat(&fixed(&[3, 3]), &vec![3, 3]));
    assert!(runtime_compat(&vec![Dim::Fixed(3), Dim::Dyn], &vec![3, 3]));
    assert!(!runtime_compat(&fixed(&[3, 3]), &vec![3, 4]));
    assert_eq!(
        to_runtime_vector(&reduction(&fixed(&[2, 3]), 1)),
        vec![2, 1]
    );
    assert_eq!(static_strides(&fixed(&[2, 3]))[0], 3);
    assert_eq!(static_strides(&fixed(&[3, 3]))[1], 1);
    assert_eq!(to_runtime_vector(&fixed(&[5, 1, 3, 2]))[2], 3);
    assert_eq!(
        to_runtime_vector(&transpose_desc(&fixed(&[4, 3, 6, 6]))),
        vec![6, 6, 3, 4]
    );
}

#[test]
fn shape_round_trip() {
    let desc = fixed(&[5, 1, 3, 2]);
    assert!(runtime_compat(&desc, &to_runtime_vector(&desc)));
    assert_eq!(
        static_strides(&desc),
        intrinsic_strides_in_place(to_runtime_vector(&desc))
    );
}

#[test]
fn strides_of_shapes() {
    assert_eq!(intrinsic_strides_in_place(vec![5, 1, 3, 2]), vec![6, 6, 2, 1]);
    assert_eq!(intrinsic_strides_in_place(vec![4]), vec![1]);
    let empty: Vec<usize> = Vec::new();
    assert_eq!(intrinsic_strides_in_place(empty.clone()), empty);
}

#[test]
fn runtime_broadcast_checks() {
    assert!(sizes_broadcast_check(&vec![1, 2], &vec![2, 2]));
    assert!(sizes_broadcast_check(&vec![2], &vec![2, 2]));
    assert!(!sizes_broadcast_check(&vec![3, 2], &vec![2, 2]));
    assert!(!sizes_broadcast_check(&vec![2, 2, 2], &vec![2, 2]));
}

#[test]
fn num_elements_overflow_detected() {
    assert_eq!(checked_num_elements(&vec![usize::MAX, 2]), None);
    assert_eq!(checked_num_elements(&vec![usize::MAX, 1]), Some(usize::MAX));
    assert_eq!(checked_num_elements(&Vec::new()), Some(1));
}

#[test]
fn descriptor_helpers() {
    let d = vec![Dim::Fixed(2), Dim::Dyn];
    assert_eq!(clone_dims(&d), d);
    assert_eq!(rev_usizes(&vec![1, 2, 3]), vec![3, 2, 1]);
}
