use numru::ix::IxDyn;
use numru::{Array, ArrayError, Ix, Shape};

fn round_to_3dp(value: f64) -> f64 {
    (value * 1000.0).round() / 1000.0
}

#[test]
fn empty_array_fails_regardless_of_axis() {
    let arr = Array::new(Vec::<i64>::new(), Shape::new(Ix::<1>::new([0]))).unwrap();
    assert_eq!(arr.max_compute(None), Err(ArrayError::EmptyArray));
    assert_eq!(arr.max_compute(Some(0)), Err(ArrayError::EmptyArray));
    assert_eq!(arr.max_compute(Some(7)), Err(ArrayError::EmptyArray));
    assert_eq!(arr.min_compute(None), Err(ArrayError::EmptyArray));
    assert_eq!(arr.sum_compute(Some(3)), Err(ArrayError::EmptyArray));

    let flat = Array::new(Vec::<i64>::new(), Shape::new(Ix::<2>::new([0, 3]))).unwrap();
    assert_eq!(flat.max_compute(Some(1)), Err(ArrayError::EmptyArray));
}

#[test]
fn axis_out_of_bounds_fails_with_invalid_axis() {
    let arr = Array::new(
        vec![1i64, 5, 3, 4, 2, 6, 0, 9, 8],
        Shape::new(Ix::<2>::new([3, 3])),
    )
    .unwrap();
    assert_eq!(arr.max_compute(Some(2)), Err(ArrayError::InvalidAxis(2)));
    assert_eq!(arr.min_compute(Some(2)), Err(ArrayError::InvalidAxis(2)));
    assert_eq!(arr.sum_compute(Some(5)), Err(ArrayError::InvalidAxis(5)));
}

#[test]
fn rank_four_fails_with_unimplemented_dimension() {
    let arr = Array::new(vec![7i64, 8], Shape::new(Ix::<4>::new([1, 1, 1, 2]))).unwrap();
    assert_eq!(
        arr.max_compute(None),
        Err(ArrayError::UnimplementedDimension(4))
    );
    assert_eq!(
        arr.max_compute(Some(1)),
        Err(ArrayError::UnimplementedDimension(4))
    );
    assert_eq!(
        arr.min_compute(None),
        Err(ArrayError::UnimplementedDimension(4))
    );
    assert_eq!(
        arr.sum_compute(None),
        Err(ArrayError::UnimplementedDimension(4))
    );
    // the axis bound is checked before the rank
    assert_eq!(arr.max_compute(Some(9)), Err(ArrayError::InvalidAxis(9)));
}

#[test]
fn construction_fails_on_length_mismatch() {
    let r = Array::new(vec![1i64, 2, 3], Shape::new(Ix::<2>::new([2, 2])));
    assert_eq!(
        r.unwrap_err(),
        ArrayError::DimensionMismatch { expected: 4, actual: 3 }
    );
}

#[test]
fn construction_round_trip_returns_inputs() {
    let arr = Array::new(vec![9i64, -4, 0, 2, 5, 11], Shape::new(Ix::<2>::new([2, 3]))).unwrap();
    assert_eq!(arr.data(), &vec![9i64, -4, 0, 2, 5, 11]);
    assert_eq!(arr.shape().dims(), &[2, 3]);
    assert_eq!(arr.shape().size(), 6);

    let farr = Array::new(vec![0.5f64, -1.25], Shape::new(Ix::<1>::new([2]))).unwrap();
    assert_eq!(farr.data(), &vec![0.5f64, -1.25]);
    assert_eq!(farr.shape().dims(), &[2]);
}

#[test]
fn repeated_compute_returns_identical_results() {
    let arr = Array::new(
        vec![1i64, 5, 3, 4, 2, 6, 0, 9, 8],
        Shape::new(Ix::<2>::new([3, 3])),
    )
    .unwrap();
    assert_eq!(arr.max().axis(1).compute(), arr.max().axis(1).compute());
    assert_eq!(arr.min().compute(), arr.min().compute());
    assert_eq!(arr.sum_compute(Some(0)), arr.sum_compute(Some(0)));
}

#[test]
fn rank_one_axis_zero_equals_no_axis() {
    let arr = Array::new(vec![42i64, -17, 256, 3, 99, -8], Shape::new(Ix::<1>::new([6]))).unwrap();
    assert_eq!(arr.max().axis(0).compute(), arr.max().compute());
    assert_eq!(arr.max().axis(0).compute(), vec![256]);
}

#[test]
fn scenario_rank1_max_min_mean() {
    let arr = Array::new(vec![42i64, -17, 256, 3, 99, -8], Shape::new(Ix::<1>::new([6]))).unwrap();
    assert_eq!(arr.max().compute(), vec![256]);
    assert_eq!(arr.min().compute(), vec![-17]);
    let sums = arr.sum_compute(None).unwrap();
    assert_eq!(sums, vec![375]);
    assert_eq!(sums[0] as f64 / 6.0, 62.5);
}

#[test]
fn scenario_rank2_max_and_mean() {
    let arr = Array::new(
        vec![1i64, 5, 3, 4, 2, 6, 0, 9, 8],
        Shape::new(Ix::<2>::new([3, 3])),
    )
    .unwrap();
    assert_eq!(arr.max().axis(0).compute(), vec![4, 9, 8]);
    assert_eq!(arr.max().axis(1).compute(), vec![5, 6, 9]);
    let sums = arr.sum_compute(Some(0)).unwrap();
    assert_eq!(sums, vec![5, 16, 17]);
    let means: Vec<f64> = sums.iter().map(|&s| round_to_3dp(s as f64 / 3.0)).collect();
    assert_eq!(means, vec![1.667, 5.333, 5.667]);
}

#[test]
fn scenario_rank3_max() {
    let arr = Array::new(
        vec![101i64, 202, 303, 404, 505, 606, -707, -808, -909, 111, 222, 333],
        Shape::new(Ix::<3>::new([2, 2, 3])),
    )
    .unwrap();
    assert_eq!(arr.max().axis(2).compute(), vec![303, 606, -707, 333]);
    assert_eq!(arr.max().compute(), vec![606]);
}

#[test]
fn group_sums_rank3_every_axis() {
    let arr = Array::new(
        vec![101i64, 202, 303, 404, 505, 606, -707, -808, -909, 111, 222, 333],
        Shape::new(Ix::<3>::new([2, 2, 3])),
    )
    .unwrap();
    assert_eq!(arr.sum_compute(None).unwrap(), vec![363]);
    assert_eq!(
        arr.sum_compute(Some(0)).unwrap(),
        vec![-606, -606, -606, 515, 727, 939]
    );
    assert_eq!(
        arr.sum_compute(Some(1)).unwrap(),
        vec![505, 707, 909, -596, -586, -576]
    );
    assert_eq!(
        arr.sum_compute(Some(2)).unwrap(),
        vec![606, 1515, -2424, 666]
    );
    // the means these sums yield, one per group, rounded as displayed
    let means: Vec<f64> = arr
        .sum_compute(Some(2))
        .unwrap()
        .iter()
        .map(|&s| round_to_3dp(s as f64 / 3.0))
        .collect();
    assert_eq!(means, vec![202.0, 505.0, -808.0, 222.0]);
}

#[test]
fn group_sums_do_not_overflow_i64_extremes() {
    let arr = Array::new(
        vec![i64::MAX, i64::MAX, i64::MIN, i64::MIN],
        Shape::new(Ix::<1>::new([4])),
    )
    .unwrap();
    assert_eq!(arr.sum_compute(None).unwrap(), vec![-2]);
    let pair = Array::new(vec![i64::MAX, i64::MAX], Shape::new(Ix::<2>::new([1, 2]))).unwrap();
    assert_eq!(
        pair.sum_compute(Some(1)).unwrap(),
        vec![(i64::MAX as i128) * 2]
    );
}

#[test]
fn dynamic_rank_reduction_matches_fixed_rank() {
    let data = vec![1i64, 5, 3, 4, 2, 6, 0, 9, 8];
    let fixed = Array::new(data.clone(), Shape::new(Ix::<2>::new([3, 3]))).unwrap();
    let dynamic = Array::new(data, Shape::new(IxDyn::new(vec![3, 3]))).unwrap();
    assert_eq!(
        fixed.max().axis(0).compute(),
        dynamic.max().axis(0).compute()
    );
    assert_eq!(fixed.min().axis(1).compute(), dynamic.min().axis(1).compute());
}

#[test]
fn reductions_leave_the_source_unchanged() {
    let arr = Array::new(
        vec![1i64, 5, 3, 4, 2, 6, 0, 9, 8],
        Shape::new(Ix::<2>::new([3, 3])),
    )
    .unwrap();
    let before = arr.data().clone();
    let _ = arr.max().axis(0).compute();
    let _ = arr.min_compute(Some(1)).unwrap();
    let _ = arr.sum_compute(None).unwrap();
    assert_eq!(arr.data(), &before);
    assert_eq!(arr.data().len(), arr.shape().size());
}
