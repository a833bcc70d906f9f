use hdf5::Dataset;
use hdf5::chunk_info;
use hdf5::dataset::CHUNK_ADDR_BASE;
use hdf5::get_num_chunks;

#[test]
fn not_chunked_yields_no_result_for_any_index() {
    let ds = Dataset::new_contiguous(vec![10, 10], 4).unwrap();
    assert_eq!(get_num_chunks(&ds), None);
    for index in [0, 1, 5, 100] {
        assert!(chunk_info(&ds, index).is_none());
    }
}

#[test]
fn detached_dataspace_yields_no_result() {
    let mut ds = Dataset::new_chunked(vec![4, 6], vec![2, 3], 8).unwrap();
    ds.detach_space();
    assert_eq!(get_num_chunks(&ds), None);
    assert!(chunk_info(&ds, 0).is_none());
}

#[test]
fn chunked_count_and_every_index_in_range() {
    let ds = Dataset::new_chunked(vec![4, 6], vec![2, 3], 8).unwrap();
    let n = get_num_chunks(&ds).unwrap();
    assert_eq!(n, 4);
    for index in 0..n {
        let info = chunk_info(&ds, index).unwrap();
        assert_eq!(info.offset.len(), 2);
    }
    assert!(chunk_info(&ds, n).is_none());
    assert!(chunk_info(&ds, 10).is_none());
}

#[test]
fn offsets_follow_row_major_order() {
    let ds = Dataset::new_chunked(vec![4, 9], vec![2, 3], 1).unwrap();
    assert_eq!(get_num_chunks(&ds), Some(6));
    let want: [[u64; 2]; 6] = [[0, 0], [0, 3], [0, 6], [2, 0], [2, 3], [2, 6]];
    for (index, want_offset) in want.iter().enumerate() {
        let info = chunk_info(&ds, index).unwrap();
        assert_eq!(info.offset, want_offset.to_vec());
    }
}

#[test]
fn offsets_consistent_with_chunk_shape() {
    let dims: Vec<u64> = vec![6, 4, 5];
    let chunk: Vec<u64> = vec![3, 2, 2];
    let ds = Dataset::new_chunked(dims.clone(), chunk.clone(), 2).unwrap();
    let n = get_num_chunks(&ds).unwrap();
    assert_eq!(n, 2 * 2 * 3);
    for index in 0..n {
        let info = chunk_info(&ds, index).unwrap();
        assert_eq!(info.offset.len(), dims.len());
        for d in 0..dims.len() {
            assert_eq!(info.offset[d] % chunk[d], 0);
            assert!(info.offset[d] < dims[d]);
        }
    }
}

#[test]
fn addr_and_size_follow_the_layout() {
    let ds = Dataset::new_chunked(vec![4, 6], vec![2, 3], 8).unwrap();
    let n = get_num_chunks(&ds).unwrap();
    for index in 0..n {
        let info = chunk_info(&ds, index).unwrap();
        assert_eq!(info.size, 2 * 3 * 8);
        assert_eq!(info.addr, CHUNK_ADDR_BASE + (index as u64) * info.size);
        assert_eq!(info.filter_mask, 0);
    }
}

#[test]
fn edge_chunks_keep_full_size() {
    let ds = Dataset::new_chunked(vec![5, 5], vec![2, 2], 4).unwrap();
    assert_eq!(get_num_chunks(&ds), Some(9));
    let last = chunk_info(&ds, 8).unwrap();
    assert_eq!(last.offset, vec![4, 4]);
    assert_eq!(last.size, 2 * 2 * 4);
}

#[test]
fn zero_extent_dataset_has_no_chunks() {
    let ds = Dataset::new_chunked(vec![0, 5], vec![2, 2], 4).unwrap();
    assert_eq!(get_num_chunks(&ds), Some(0));
    assert!(chunk_info(&ds, 0).is_none());
}

#[test]
fn construction_rejects_bad_shapes() {
    assert!(Dataset::new_chunked(vec![4, 6], vec![2], 8).is_none());
    assert!(Dataset::new_chunked(vec![], vec![], 8).is_none());
    assert!(Dataset::new_chunked(vec![4, 6], vec![2, 0], 8).is_none());
    assert!(Dataset::new_chunked(vec![4, 6], vec![2, 3], 0).is_none());
    assert!(Dataset::new_contiguous(vec![4, 6], 0).is_none());
}

#[test]
fn construction_rejects_unrepresentable_layouts() {
    // The chunk count would not fit.
    assert!(Dataset::new_chunked(vec![u64::MAX, u64::MAX], vec![1, 1], 1).is_none());
    // The chunk byte size would not fit.
    assert!(Dataset::new_chunked(vec![u64::MAX, u64::MAX], vec![u64::MAX, u64::MAX], 2).is_none());
    // One chunk of the largest byte size would end past the largest address.
    assert!(Dataset::new_chunked(vec![u64::MAX], vec![u64::MAX], 1).is_none());
}

#[test]
fn dataspace_reports_shape() {
    let ds = Dataset::new_chunked(vec![4, 6], vec![2, 3], 8).unwrap();
    assert!(ds.is_chunked());
    assert_eq!(ds.ndim(), 2);
    let space = ds.space().unwrap();
    assert_eq!(space.ndim(), 2);
    assert_eq!(space.dims(), &vec![4, 6]);
    assert_eq!(ds.chunk_dims(), &vec![2, 3]);
}
