//! A verified model of the high-level conveniences an HDF5 binding offers:
//! the catalog of reference encodings and their fixed byte sizes, and chunk
//! metadata queries (per-chunk placement, filter masks, chunk counts) over an
//! in-memory model of chunked datasets.
//!
//! The model is pure: no process-global native state stands behind the
//! queries, so none of them needs the serialization lock a binding would hold
//! around calls into a non-reentrant native library — each query is a
//! function of the dataset value it is given.

pub mod chunks;
pub mod dataset;
pub mod file;
pub mod layout;
pub mod references;

pub use chunks::ChunkInfo;
pub use chunks::chunk_info;
pub use chunks::get_num_chunks;
pub use dataset::Dataset;
pub use dataset::Dataspace;
pub use file::File;
pub use references::Reference;
