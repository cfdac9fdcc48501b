use weblab_ndarray::errors::NdarrayError;
use weblab_ndarray::iter::NdarrayView;
use weblab_ndarray::ndarray::NdarrayBase;
use weblab_ndarray::ndarray_mut::NdarrayBaseMut;

fn cube() -> NdarrayBase<i32> {
    let data: Vec<i32> = (1..28).collect();
    let mut a = NdarrayBase::new(data);
    a.reshape(&vec![3, 3, 3]).unwrap();
    a
}

#[test]
fn test_request_mutable_aliasing() {
    let a = NdarrayBase::new(vec![1i32, 2, 3, 4]);
    // A second handle over the same buffer: mutation must be refused.
    let other = a.slice(&vec![vec![0, 3]]).unwrap();
    let r = NdarrayBaseMut::new(a);
    assert!(matches!(r, Err(NdarrayError::AliasingError)));
    // The refused handle was released; `other` is now the sole holder.
    let mut m = match NdarrayBaseMut::new(other) {
        Ok(m) => m,
        Err(_) => panic!("sole holder must be granted mutation"),
    };
    m.set(&vec![0], 42).unwrap();
    assert_eq!(m.get(&vec![0]).unwrap(), 42);
    assert_eq!(m.get(&vec![1]).unwrap(), 2);
    // Release exclusivity and observe the write through a shared handle.
    let shared = m.into_ndarray();
    assert_eq!(shared.get(&vec![0]).unwrap(), 42);
}

#[test]
fn test_request_mutable_view_blocks() {
    let a = cube();
    let v = a.view();
    let r = NdarrayBaseMut::new(a);
    assert!(matches!(r, Err(NdarrayError::AliasingError)));
    // The view still reads the buffer.
    assert_eq!(v.get(&vec![0, 1, 2]).unwrap(), 6);
}

#[test]
fn test_mutable_writes_negative_index() {
    let a = cube();
    let mut m = NdarrayBaseMut::new(a).unwrap();
    m.set(&vec![-1, -1, -1], 0).unwrap();
    assert_eq!(m.get(&vec![2, 2, 2]).unwrap(), 0);
    assert!(matches!(m.set(&vec![0], 5), Err(NdarrayError::DimensionMismatch)));
    assert_eq!(m.get(&vec![0, 0, 0]).unwrap(), 1);
}

#[test]
fn test_iterate_shapes_and_leaf_count() {
    // Iterating a [3, 3, 3] dense array yields exactly 3 sub-views of shape
    // [3, 3]; iterating each yields 3 of shape [3]; total leaves are 27.
    let a = cube();
    let mut level1 = 0usize;
    let mut leaves = 0usize;
    let mut sum = 0i64;
    let mut it = a.iter();
    assert_eq!(it.size_hint(), (3, Some(3)));
    while let Some(plane) = it.next() {
        level1 += 1;
        assert_eq!(plane.shape, vec![3, 3]);
        let mut level2 = 0usize;
        let mut it2 = plane.iter();
        while let Some(row) = it2.next() {
            level2 += 1;
            assert_eq!(row.shape, vec![3]);
            let mut it3 = row.iter();
            while let Some(leaf) = it3.next() {
                assert_eq!(leaf.shape, Vec::<usize>::new());
                leaves += 1;
                sum += leaf.get(&vec![]).unwrap() as i64;
            }
        }
        assert_eq!(level2, 3);
    }
    assert_eq!(level1, 3);
    assert_eq!(leaves, 27);
    // 1 + 2 + ... + 27
    assert_eq!(sum, 27 * 28 / 2);
}

#[test]
fn test_iterate_restarts_independently() {
    let a = NdarrayBase::with_shape((1..7).collect::<Vec<i32>>(), vec![2, 3]);
    let mut first = a.iter();
    assert!(first.next().is_some());
    assert!(first.next().is_some());
    assert!(first.next().is_none());
    assert!(first.next().is_none());
    let mut fresh = a.iter();
    assert_eq!(fresh.size_hint(), (2, Some(2)));
    let row0: NdarrayView<i32> = fresh.next().unwrap();
    assert_eq!(row0.get(&vec![2]).unwrap(), 3);
}

#[test]
fn test_iterate_sliced_view() {
    // Slice rows 1..=2 of a [3, 3] array, then iterate: the sub-views walk
    // the sliced rows, not the original ones.
    let data: Vec<i32> = (1..10).collect();
    let mut a = NdarrayBase::new(data);
    a.reshape(&vec![3, 3]).unwrap();
    let s = a.slice(&vec![vec![1, 2], vec![0, 2]]).unwrap();
    let mut it = s.iter();
    let row = it.next().unwrap();
    assert_eq!(row.get(&vec![0]).unwrap(), 4);
    assert_eq!(row.get(&vec![2]).unwrap(), 6);
    let row = it.next().unwrap();
    assert_eq!(row.get(&vec![0]).unwrap(), 7);
    assert!(it.next().is_none());
}

#[test]
fn test_iterate_gather_view() {
    // Gather rows [2, 0] of a [3, 3] array, then iterate: positions follow
    // the pick list, including reordering.
    let data: Vec<i32> = (1..10).collect();
    let mut a = NdarrayBase::new(data);
    a.reshape(&vec![3, 3]).unwrap();
    let s = a.slices(&vec![vec![2, 0], vec![1, 0, 2]]);
    let mut it = s.iter();
    let row = it.next().unwrap();
    // Row 2 of the original, columns picked as [1, 0, 2].
    assert_eq!(row.get(&vec![0]).unwrap(), 8);
    assert_eq!(row.get(&vec![1]).unwrap(), 7);
    assert_eq!(row.get(&vec![2]).unwrap(), 9);
    let row = it.next().unwrap();
    assert_eq!(row.get(&vec![0]).unwrap(), 2);
    assert!(it.next().is_none());
}

#[test]
fn test_iterate_zero_and_empty() {
    // A zero-dimensional array is exhausted immediately, and so is one with
    // a zero leading extent.
    let zero_dim = NdarrayBase::with_shape(vec![7i32], vec![]);
    let mut it = zero_dim.iter();
    assert!(it.next().is_none());
    let empty = NdarrayBase::new(Vec::<i32>::new());
    let mut it = empty.iter();
    assert_eq!(it.size_hint(), (0, Some(0)));
    assert!(it.next().is_none());
}

#[test]
fn test_iter_mut_descriptors() {
    // Walk the rows of an exclusively owned [2, 2] array and write through
    // each row's descriptor; the writes land in distinct rows.
    let a = NdarrayBase::with_shape(vec![1i32, 2, 3, 4], vec![2, 2]);
    let mut m = NdarrayBaseMut::new(a).unwrap();
    let mut it = m.iter_mut();
    let mut row_no = 0i32;
    while let Some(row) = it.next() {
        assert_eq!(row.shape, vec![2]);
        m.set_view(&row, &vec![0], 10 * (row_no + 1)).unwrap();
        assert_eq!(m.get_view(&row, &vec![1]).unwrap(), 2 * (row_no + 1));
        row_no += 1;
    }
    assert_eq!(row_no, 2);
    assert_eq!(m.get(&vec![0, 0]).unwrap(), 10);
    assert_eq!(m.get(&vec![1, 0]).unwrap(), 20);
    assert_eq!(m.get(&vec![0, 1]).unwrap(), 2);
    assert_eq!(m.get(&vec![1, 1]).unwrap(), 4);
}

#[test]
fn test_iter_mut_nested() {
    let a = NdarrayBase::with_shape((1..9).collect::<Vec<i32>>(), vec![2, 2, 2]);
    let mut m = NdarrayBaseMut::new(a).unwrap();
    let mut it = m.iter_mut();
    let mut leaves = 0usize;
    while let Some(plane) = it.next() {
        let mut it2 = plane.iter_mut();
        while let Some(row) = it2.next() {
            leaves += 1;
            m.set_view(&row, &vec![-1], 0).unwrap();
        }
    }
    assert_eq!(leaves, 4);
    // Every odd position (second column) was zeroed.
    assert_eq!(m.get(&vec![0, 0, 0]).unwrap(), 1);
    assert_eq!(m.get(&vec![0, 0, 1]).unwrap(), 0);
    assert_eq!(m.get(&vec![1, 1, 1]).unwrap(), 0);
    assert_eq!(m.get(&vec![1, 1, 0]).unwrap(), 7);
}

#[test]
fn test_mutable_float_store() {
    let a = NdarrayBase::new(vec![0.5f64, 1.5]);
    let mut m = NdarrayBaseMut::new(a).unwrap();
    m.set(&vec![1], 9.5).unwrap();
    assert_eq!(m.get(&vec![1]).unwrap(), 9.5);
    let shared = m.into_ndarray();
    assert_eq!(shared.get(&vec![0]).unwrap(), 0.5);
}
