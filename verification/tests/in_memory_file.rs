use hdf5::File;
use hdf5::chunk_info;
use hdf5::get_num_chunks;

#[test]
fn in_memory_file_scenario() {
    let mut file = File::in_memory();
    let index = file.create_chunked_dataset(vec![4, 6], vec![2, 3], 8).unwrap();
    assert_eq!(index, 0);
    let ds = file.dataset(index).unwrap();
    assert_eq!(get_num_chunks(ds), Some(4));

    let info = chunk_info(ds, 2).unwrap();
    assert_eq!(info.offset.len(), 2);
    assert!(info.size > 0);

    assert!(chunk_info(ds, 10).is_none());
}

#[test]
fn in_memory_file_starts_empty() {
    let file = File::in_memory();
    assert_eq!(file.num_datasets(), 0);
    assert!(file.dataset(0).is_none());
}

#[test]
fn rejected_dataset_leaves_file_unchanged() {
    let mut file = File::in_memory();
    assert!(file.create_chunked_dataset(vec![4, 6], vec![2, 3], 0).is_none());
    assert_eq!(file.num_datasets(), 0);
}

#[test]
fn datasets_are_indexed_in_creation_order() {
    let mut file = File::in_memory();
    let first = file.create_chunked_dataset(vec![4], vec![2], 1).unwrap();
    let second = file.create_chunked_dataset(vec![9], vec![3], 1).unwrap();
    assert_eq!((first, second), (0, 1));
    assert_eq!(file.num_datasets(), 2);
    assert_eq!(get_num_chunks(file.dataset(first).unwrap()), Some(2));
    assert_eq!(get_num_chunks(file.dataset(second).unwrap()), Some(3));
    assert!(file.dataset(2).is_none());
}
