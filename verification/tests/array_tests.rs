use numru::{Array, Dimension, Ix, Shape};

#[test]
fn array_creation_i64_1d() {
    let arr = Array::new(vec![1i64, 2, 3, 4], Shape::new(Ix::<1>::new([4]))).unwrap();
    let ix = Ix::<1>::new([4]);
    let shape = Shape::new(ix);

    assert_eq!(arr.shape().raw_dim().size(), 4);
    assert_eq!(arr.shape().raw_dim().ndim(), 1);
    assert_eq!(format!("{:?}", arr.shape()), format!("{:?}", shape));
}

#[test]
fn array_creation_i64_2d() {
    let arr = Array::new(vec![1i64, 2, 3, 4, 5, 6], Shape::new(Ix::<2>::new([3, 2]))).unwrap();
    let ix = Ix::<2>::new([3, 2]);
    let shape = Shape::new(ix);

    assert_eq!(arr.shape().raw_dim().size(), 6);
    assert_eq!(arr.shape().raw_dim().ndim(), 2);
    assert_eq!(format!("{:?}", arr.shape()), format!("{:?}", shape));
}

#[test]
fn array_creation_i64_3d() {
    let arr = Array::new(
        vec![1i64, 2, 3, 4, 5, 6, 7, 8, 9, 10, 11, 12],
        Shape::new(Ix::<3>::new([2, 2, 3])),
    )
    .unwrap();
    let ix = Ix::<3>::new([2, 2, 3]);
    let shape = Shape::new(ix);

    assert_eq!(arr.shape().raw_dim().size(), 12);
    assert_eq!(arr.shape().raw_dim().ndim(), 3);
    assert_eq!(format!("{:?}", arr.shape()), format!("{:?}", shape));
}

#[test]
fn array_creation_f64_1d() {
    let arr = Array::new(vec![1.1f64, 2.2, 3.3, 4.4], Shape::new(Ix::<1>::new([4]))).unwrap();
    let ix = Ix::<1>::new([4]);
    let shape = Shape::new(ix);

    assert_eq!(arr.shape().raw_dim().size(), 4);
    assert_eq!(arr.shape().raw_dim().ndim(), 1);
    assert_eq!(format!("{:?}", arr.shape()), format!("{:?}", shape));
}

#[test]
fn array_creation_f64_2d() {
    let arr = Array::new(
        vec![1.1f64, 2.2, 3.3, 4.4, 5.5, 6.6],
        Shape::new(Ix::<2>::new([3, 2])),
    )
    .unwrap();
    let ix = Ix::<2>::new([3, 2]);
    let shape = Shape::new(ix);

    assert_eq!(arr.shape().raw_dim().size(), 6);
    assert_eq!(arr.shape().raw_dim().ndim(), 2);
    assert_eq!(format!("{:?}", arr.shape()), format!("{:?}", shape));
}

#[test]
fn array_creation_f64_3d() {
    let arr = Array::new(
        vec![1.1f64, 2.2, 3.3, 4.4, 5.5, 6.6, 7.7, 8.8, 9.9, 10.0, 11.1, 12.2],
        Shape::new(Ix::<3>::new([2, 2, 3])),
    )
    .unwrap();
    let ix = Ix::<3>::new([2, 2, 3]);
    let shape = Shape::new(ix);

    assert_eq!(arr.shape().raw_dim().size(), 12);
    assert_eq!(arr.shape().raw_dim().ndim(), 3);
    assert_eq!(format!("{:?}", arr.shape()), format!("{:?}", shape));
}

#[test]
fn max_i64_1d() {
    let arr = Array::new(vec![42i64, -17, 256, 3, 99, -8], Shape::new(Ix::<1>::new([6]))).unwrap();
    assert_eq!(arr.max().compute(), vec![256]);
}

#[test]
fn max_i64_2d() {
    let arr = Array::new(
        vec![1i64, 5, 3, 4, 2, 6, 0, 9, 8],
        Shape::new(Ix::<2>::new([3, 3])),
    )
    .unwrap();
    assert_eq!(arr.max().compute(), vec![9]);
    assert_eq!(arr.max().axis(0).compute(), vec![4, 9, 8]);
    assert_eq!(arr.max().axis(1).compute(), vec![5, 6, 9]);
}

#[test]
fn max_i64_3d() {
    let arr = Array::new(
        vec![101i64, 202, 303, 404, 505, 606, -707, -808, -909, 111, 222, 333],
        Shape::new(Ix::<3>::new([2, 2, 3])),
    )
    .unwrap();
    assert_eq!(arr.max().compute(), vec![606]);
    assert_eq!(
        arr.max().axis(0).compute(),
        vec![101, 202, 303, 404, 505, 606]
    );
    assert_eq!(
        arr.max().axis(1).compute(),
        vec![404, 505, 606, 111, 222, 333]
    );
    assert_eq!(arr.max().axis(2).compute(), vec![303, 606, -707, 333]);
}

#[test]
fn min_i64_1d() {
    let arr = Array::new(vec![42i64, -17, 256, 3, 99, -8], Shape::new(Ix::<1>::new([6]))).unwrap();
    assert_eq!(arr.min().compute(), vec![-17]);
    assert_eq!(arr.min().axis(0).compute(), vec![-17]);
}

#[test]
fn min_i64_2d() {
    let arr = Array::new(
        vec![1i64, 5, 3, 4, 2, 6, 0, 9, 8],
        Shape::new(Ix::<2>::new([3, 3])),
    )
    .unwrap();
    assert_eq!(arr.min().compute(), vec![0]);
    assert_eq!(arr.min().axis(0).compute(), vec![0, 2, 3]);
    assert_eq!(arr.min().axis(1).compute(), vec![1, 2, 0]);
}

#[test]
fn min_i64_3d() {
    let arr = Array::new(
        vec![101i64, 202, 303, 404, 505, 606, -707, -808, -909, 111, 222, 333],
        Shape::new(Ix::<3>::new([2, 2, 3])),
    )
    .unwrap();
    assert_eq!(arr.min().compute(), vec![-909]);
    assert_eq!(
        arr.min().axis(0).compute(),
        vec![-707, -808, -909, 111, 222, 333]
    );
    assert_eq!(
        arr.min().axis(1).compute(),
        vec![101, 202, 303, -707, -808, -909]
    );
    assert_eq!(arr.min().axis(2).compute(), vec![101, 404, -909, 111]);
}

#[test]
fn zeros_macro_i64_1d() {
    let arr = Array::new(vec![0i64; 4], Shape::new(Ix::<1>::new([4]))).unwrap();
    let ix = Ix::<1>::new([4]);
    let shape = Shape::new(ix);

    assert_eq!(arr.shape().raw_dim().size(), 4);
    assert_eq!(arr.shape().raw_dim().ndim(), 1);
    assert_eq!(format!("{:?}", arr.shape()), format!("{:?}", shape));
    assert_eq!(arr.dtype(), "int64");
    assert_eq!(arr.data(), &vec![0i64; 4]);
}

#[test]
fn zeros_macro_i64_2d() {
    let arr = Array::new(vec![0i64; 6], Shape::new(Ix::<2>::new([3, 2]))).unwrap();
    let ix = Ix::<2>::new([3, 2]);
    let shape = Shape::new(ix);

    assert_eq!(arr.shape().raw_dim().size(), 6);
    assert_eq!(arr.shape().raw_dim().ndim(), 2);
    assert_eq!(format!("{:?}", arr.shape()), format!("{:?}", shape));
    assert_eq!(arr.dtype(), "int64");
    assert_eq!(arr.data(), &vec![0i64; 6]);
}

#[test]
fn zeros_macro_i64_3d() {
    let arr = Array::new(vec![0i64; 12], Shape::new(Ix::<3>::new([2, 2, 3]))).unwrap();
    let ix = Ix::<3>::new([2, 2, 3]);
    let shape = Shape::new(ix);

    assert_eq!(arr.shape().raw_dim().size(), 12);
    assert_eq!(arr.shape().raw_dim().ndim(), 3);
    assert_eq!(format!("{:?}", arr.shape()), format!("{:?}", shape));
    assert_eq!(arr.dtype(), "int64");
    assert_eq!(arr.data(), &vec![0i64; 12]);
}

#[test]
fn zeros_method_i64_1d() {
    let mut arr = Array::new(vec![1i64, 2, 3, 4], Shape::new(Ix::<1>::new([4]))).unwrap();
    let original_shape = format!("{:?}", arr.shape());

    arr.zeros();

    assert_eq!(format!("{:?}", arr.shape()), original_shape);
    assert_eq!(arr.shape().raw_dim().size(), 4);
    assert_eq!(arr.shape().raw_dim().ndim(), 1);
    assert_eq!(arr.dtype(), "int64");
    assert_eq!(arr.data(), &vec![0i64; 4]);
}

#[test]
fn zeros_method_i64_2d() {
    let mut arr = Array::new(
        vec![1i64, 2, 3, 4, 5, 6, 7, 8, 9],
        Shape::new(Ix::<2>::new([3, 3])),
    )
    .unwrap();
    let original_shape = format!("{:?}", arr.shape());

    arr.zeros();

    assert_eq!(format!("{:?}", arr.shape()), original_shape);
    assert_eq!(arr.shape().raw_dim().size(), 9);
    assert_eq!(arr.shape().raw_dim().ndim(), 2);
    assert_eq!(arr.dtype(), "int64");
    assert_eq!(arr.data(), &vec![0i64; 9]);
}

#[test]
fn zeros_method_i64_3d() {
    let mut arr = Array::new(
        vec![1i64, 2, 3, 4, 5, 6, 7, 8, 9, 10, 11, 12],
        Shape::new(Ix::<3>::new([2, 2, 3])),
    )
    .unwrap();
    let original_shape = format!("{:?}", arr.shape());

    arr.zeros();

    assert_eq!(format!("{:?}", arr.shape()), original_shape);
    assert_eq!(arr.shape().raw_dim().size(), 12);
    assert_eq!(arr.shape().raw_dim().ndim(), 3);
    assert_eq!(arr.dtype(), "int64");
    assert_eq!(arr.data(), &vec![0i64; 12]);
}

#[test]
fn ones_macro_i64_1d() {
    let arr = Array::new(vec![1i64; 4], Shape::new(Ix::<1>::new([4]))).unwrap();
    let ix = Ix::<1>::new([4]);
    let shape = Shape::new(ix);

    assert_eq!(arr.shape().raw_dim().size(), 4);
    assert_eq!(arr.shape().raw_dim().ndim(), 1);
    assert_eq!(format!("{:?}", arr.shape()), format!("{:?}", shape));
    assert_eq!(arr.dtype(), "int64");
    assert_eq!(arr.data(), &vec![1i64; 4]);
}

#[test]
fn ones_macro_i64_2d() {
    let arr = Array::new(vec![1i64; 6], Shape::new(Ix::<2>::new([3, 2]))).unwrap();
    let ix = Ix::<2>::new([3, 2]);
    let shape = Shape::new(ix);

    assert_eq!(arr.shape().raw_dim().size(), 6);
    assert_eq!(arr.shape().raw_dim().ndim(), 2);
    assert_eq!(format!("{:?}", arr.shape()), format!("{:?}", shape));
    assert_eq!(arr.dtype(), "int64");
    assert_eq!(arr.data(), &vec![1i64; 6]);
}

#[test]
fn ones_macro_i64_3d() {
    let arr = Array::new(vec![1i64; 12], Shape::new(Ix::<3>::new([2, 2, 3]))).unwrap();
    let ix = Ix::<3>::new([2, 2, 3]);
    let shape = Shape::new(ix);

    assert_eq!(arr.shape().raw_dim().size(), 12);
    assert_eq!(arr.shape().raw_dim().ndim(), 3);
    assert_eq!(format!("{:?}", arr.shape()), format!("{:?}", shape));
    assert_eq!(arr.dtype(), "int64");
    assert_eq!(arr.data(), &vec![1i64; 12]);
}

#[test]
fn ones_method_i64_1d() {
    let mut arr = Array::new(vec![1i64, 2, 3, 4], Shape::new(Ix::<1>::new([4]))).unwrap();
    let original_shape = format!("{:?}", arr.shape());

    arr.ones();

    assert_eq!(format!("{:?}", arr.shape()), original_shape);
    assert_eq!(arr.shape().raw_dim().size(), 4);
    assert_eq!(arr.shape().raw_dim().ndim(), 1);
    assert_eq!(arr.dtype(), "int64");
    assert_eq!(arr.data(), &vec![1i64; 4]);
}

#[test]
fn ones_method_i64_2d() {
    let mut arr = Array::new(
        vec![1i64, 2, 3, 4, 5, 6, 7, 8, 9],
        Shape::new(Ix::<2>::new([3, 3])),
    )
    .unwrap();
    let original_shape = format!("{:?}", arr.shape());

    arr.ones();

    assert_eq!(format!("{:?}", arr.shape()), original_shape);
    assert_eq!(arr.shape().raw_dim().size(), 9);
    assert_eq!(arr.shape().raw_dim().ndim(), 2);
    assert_eq!(arr.dtype(), "int64");
    assert_eq!(arr.data(), &vec![1i64; 9]);
}

#[test]
fn ones_method_i64_3d() {
    let mut arr = Array::new(
        vec![1i64, 2, 3, 4, 5, 6, 7, 8, 9, 10, 11, 12],
        Shape::new(Ix::<3>::new([2, 2, 3])),
    )
    .unwrap();
    let original_shape = format!("{:?}", arr.shape());

    arr.ones();

    assert_eq!(format!("{:?}", arr.shape()), original_shape);
    assert_eq!(arr.shape().raw_dim().size(), 12);
    assert_eq!(arr.shape().raw_dim().ndim(), 3);
    assert_eq!(arr.dtype(), "int64");
    assert_eq!(arr.data(), &vec![1i64; 12]);
}
