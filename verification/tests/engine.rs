use weblab_ndarray::errors::NdarrayError;
use weblab_ndarray::layout::get_strides_from_shape;
use weblab_ndarray::ndarray::{Format, NdarrayBase};

fn cube() -> NdarrayBase<i32> {
    // Values 1..=27 reshaped to [3, 3, 3].
    let data: Vec<i32> = (1..28).collect();
    let mut a = NdarrayBase::new(data);
    a.reshape(&vec![3, 3, 3]).unwrap();
    a
}

#[test]
fn test_get_strides_from_shape() {
    let strides = get_strides_from_shape(&vec![3, 3, 3]);
    assert_eq!(strides, vec![9, 3, 1]);
}

#[test]
fn test_get_strides_from_shape_mixed() {
    assert_eq!(get_strides_from_shape(&vec![2, 4, 3]), vec![12, 3, 1]);
    assert_eq!(get_strides_from_shape(&vec![5]), vec![1]);
    assert_eq!(get_strides_from_shape(&vec![]), Vec::<usize>::new());
}

#[test]
fn test_new_reshape_get() {
    let input = (1..28).map(|x| x as f64).collect::<Vec<f64>>();
    let mut ndarray = NdarrayBase::new(input);
    ndarray.reshape(&vec![3, 3, 3]).unwrap();
    assert_eq!(ndarray.get(&vec![0, 1, 2]).unwrap(), 6.0);
}

#[test]
fn test_negative_indexing() {
    let a = cube();
    let last = a.get(&vec![2, 2, 2]).unwrap();
    assert_eq!(a.get(&vec![-1, -1, -1]).unwrap(), last);
    assert_eq!(last, 27);
    assert_eq!(a.get(&vec![-3, -2, -1]).unwrap(), a.get(&vec![0, 1, 2]).unwrap());
}

#[test]
fn test_slice() {
    let input = (1..28).map(|x| x as f64).collect::<Vec<f64>>();
    let mut ndarray = NdarrayBase::new(input);
    ndarray.reshape(&vec![3, 3, 3]).unwrap();
    match ndarray.slice(&vec![vec![1, 3], vec![0, 2], vec![0, 1]]) {
        Err(_) => panic!(),
        Ok(slice) => {
            assert_eq!(slice.get(&vec![0, 1, 0]).unwrap(), 13.0);
        }
    }
}

#[test]
fn test_slice_with_step() {
    // 1..=9 as [3, 3]; rows 0 and 2 via step 2, all columns.
    let data: Vec<i32> = (1..10).collect();
    let mut a = NdarrayBase::new(data);
    a.reshape(&vec![3, 3]).unwrap();
    let s = a.slice(&vec![vec![0, 1, 2], vec![0, 2]]).unwrap();
    assert_eq!(s.shape(), &vec![2, 3]);
    assert_eq!(s.get(&vec![0, 0]).unwrap(), 1);
    assert_eq!(s.get(&vec![1, 0]).unwrap(), 7);
    assert_eq!(s.get(&vec![1, 2]).unwrap(), 9);
}

#[test]
fn test_slice_arity_error() {
    let a = cube();
    let r = a.slice(&vec![vec![1, 3], vec![0], vec![0, 1]]);
    assert!(matches!(r, Err(NdarrayError::SliceArityError)));
    let r = a.slice(&vec![vec![1, 3], vec![0, 2, 1, 4], vec![0, 1]]);
    assert!(matches!(r, Err(NdarrayError::SliceArityError)));
}

#[test]
fn test_slices() {
    let input = (1..28).map(|x| x as f64).collect::<Vec<f64>>();
    let mut ndarray = NdarrayBase::new(input);
    ndarray.reshape(&vec![3, 3, 3]).unwrap();
    let slices = ndarray.slices(&vec![vec![0, 2], vec![0, 2], vec![0, 2]]);
    assert_eq!(slices.get(&vec![0, 1, 0]).unwrap(), 7.0);
}

#[test]
fn test_slices_repeats_and_reorder() {
    let data: Vec<i32> = vec![10, 20, 30];
    let a = NdarrayBase::new(data);
    let s = a.slices(&vec![vec![2, 0, 2, 2]]);
    assert_eq!(s.shape(), &vec![4]);
    assert_eq!(s.get(&vec![0]).unwrap(), 30);
    assert_eq!(s.get(&vec![1]).unwrap(), 10);
    assert_eq!(s.get(&vec![3]).unwrap(), 30);
    assert_eq!(s.get(&vec![-1]).unwrap(), 30);
}

#[test]
fn test_reshape_shape_mismatch() {
    let data: Vec<i32> = (1..7).collect();
    let mut a = NdarrayBase::new(data);
    assert!(matches!(a.reshape(&vec![4]), Err(NdarrayError::ShapeMismatch)));
    assert!(matches!(a.reshape(&vec![2, 2]), Err(NdarrayError::ShapeMismatch)));
    assert!(matches!(a.reshape(&vec![7, 0]), Err(NdarrayError::ShapeMismatch)));
    assert!(a.reshape(&vec![2, 3]).is_ok());
    assert_eq!(a.get(&vec![1, 0]).unwrap(), 4);
    assert!(a.reshape(&vec![3, 2]).is_ok());
    assert_eq!(a.get(&vec![1, 0]).unwrap(), 3);
}

#[test]
fn test_dimension_mismatch() {
    let a = cube();
    assert!(matches!(a.get(&vec![0, 1]), Err(NdarrayError::DimensionMismatch)));
    assert!(matches!(a.get(&vec![0, 1, 2, 0]), Err(NdarrayError::DimensionMismatch)));
    assert!(matches!(a.get(&vec![]), Err(NdarrayError::DimensionMismatch)));
}

#[test]
fn test_full_range_slice_is_identity() {
    let a = cube();
    let s = a.slice(&vec![vec![0, 2], vec![0, 2], vec![0, 2]]).unwrap();
    for i in 0..3isize {
        for j in 0..3isize {
            for k in 0..3isize {
                assert_eq!(
                    s.get(&vec![i, j, k]).unwrap(),
                    a.get(&vec![i, j, k]).unwrap()
                );
            }
        }
    }
    assert_eq!(s.shape(), a.shape());
}

#[test]
fn test_getters_and_set_strides() {
    let data: Vec<i32> = (1..7).collect();
    let mut a = NdarrayBase::new(data);
    a.reshape(&vec![2, 3]).unwrap();
    assert_eq!(a.shape(), &vec![2, 3]);
    assert_eq!(a.strides(), &vec![3, 1]);
    assert!(matches!(a.format(), Format::Dense));
    // Column-major strides over the same buffer.
    a.set_strides(vec![1, 2]);
    assert_eq!(a.strides(), &vec![1, 2]);
    assert_eq!(a.get(&vec![1, 2]).unwrap(), 6);
    assert_eq!(a.get(&vec![0, 1]).unwrap(), 3);
}

#[test]
fn test_with_shape_and_zero_dim() {
    let a = NdarrayBase::with_shape(vec![7i32], vec![]);
    assert_eq!(a.get(&vec![]).unwrap(), 7);
    let b = NdarrayBase::with_shape((1..13).collect::<Vec<i32>>(), vec![2, 2, 3]);
    assert_eq!(b.get(&vec![1, 1, 2]).unwrap(), 12);
    assert_eq!(b.get(&vec![0, 1, 0]).unwrap(), 4);
}

#[test]
fn test_float_elements() {
    let a = NdarrayBase::with_shape(vec![1.5f64, 2.5, 3.5, 4.5], vec![2, 2]);
    assert_eq!(a.get(&vec![1, 0]).unwrap(), 3.5);
    assert_eq!(a.get(&vec![-1, -1]).unwrap(), 4.5);
}

#[test]
fn test_index_wraparound_past_extent() {
    // Normalization is ((idx + extent) % extent): indices at or past the
    // extent wrap around as well.
    let a = NdarrayBase::new(vec![10i32, 20, 30]);
    assert_eq!(a.get(&vec![3]).unwrap(), 10);
    assert_eq!(a.get(&vec![4]).unwrap(), 20);
}
