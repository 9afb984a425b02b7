//! In-memory core of a read-only streaming virtual filesystem: a catalog of
//! remote files kept current by a push/ack update feed, an open-handle table,
//! the decision logic of the synchronous filesystem operations, and the state
//! machines of the two network clients (range fetch and catalog sync).
//!
//! Everything here works on plain values; mounting, argument handling and the
//! actual network transport live outside the library and drive it.

pub mod catalog;
pub mod fetch;
pub mod file_handles;
pub mod streaming_fs;
pub mod sync;

pub use catalog::Catalog;
pub use file_handles::FileHandleInfo;
pub use file_handles::FileHandles;
pub use catalog::FileEntry;
pub use catalog::ROOT_INO;
