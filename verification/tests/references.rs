use hdf5::Reference;
use hdf5::references::H5R_REF_SIZE;
use hdf5::references::HDSET_REG_REF_SIZE;
use hdf5::references::HOBJ_REF_SIZE;

#[test]
fn reference_sizes_exact() {
    assert_eq!(Reference::Object.size(), 8);
    assert_eq!(Reference::Region.size(), 12);
    assert_eq!(Reference::Std.size(), 64);
}

#[test]
fn reference_size_constants_exact() {
    assert_eq!(HOBJ_REF_SIZE, 8);
    assert_eq!(HDSET_REG_REF_SIZE, 12);
    assert_eq!(H5R_REF_SIZE, 64);
}

#[test]
fn reference_sizes_stable_across_calls() {
    for r in [Reference::Object, Reference::Region, Reference::Std] {
        let first = r.size();
        let second = r.size();
        assert_eq!(first, second);
    }
}
