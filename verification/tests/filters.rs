use hdf5::ChunkInfo;

fn with_mask(filter_mask: u32) -> ChunkInfo {
    let mut info = ChunkInfo::new(1);
    info.filter_mask = filter_mask;
    info
}

#[test]
fn new_is_zeroed() {
    let info = ChunkInfo::new(3);
    assert_eq!(info.offset, vec![0, 0, 0]);
    assert_eq!(info.filter_mask, 0);
    assert_eq!(info.addr, 0);
    assert_eq!(info.size, 0);
}

#[test]
fn new_rank_zero() {
    let info = ChunkInfo::new(0);
    assert_eq!(info.offset.len(), 0);
}

#[test]
fn disabled_filters_zero_mask_is_empty() {
    assert_eq!(with_mask(0).disabled_filters(), Vec::<usize>::new());
}

#[test]
fn disabled_filters_single_bit_contains_it() {
    for k in 0..32usize {
        let got = with_mask(1u32 << k).disabled_filters();
        assert_eq!(got, vec![k]);
    }
}

#[test]
fn disabled_filters_mixed_mask_sorted_ascending() {
    assert_eq!(with_mask(0b101001).disabled_filters(), vec![0, 3, 5]);
    assert_eq!(with_mask(0x8000_0001).disabled_filters(), vec![0, 31]);
}

#[test]
fn disabled_filters_full_mask_is_all_positions() {
    let got = with_mask(u32::MAX).disabled_filters();
    let want: Vec<usize> = (0..32).collect();
    assert_eq!(got, want);
}
