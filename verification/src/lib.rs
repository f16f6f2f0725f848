//! Streaming decoder for POSIX `ustar` tar archives.
//!
//! The archive is consumed as a sequence of 512-byte blocks pulled from an
//! abstract [`ByteSource`]. Each header block is decoded field by field into
//! an [`InnerHeader`]; the [`TarReader`] drives the block-aligned protocol
//! (skip the rest of the previous entry, read the next header, detect the
//! end-of-archive sentinel) and serves bounded reads of the current entry's
//! body.

pub mod error;
pub mod flags;
pub mod size;
pub mod header;
pub mod source;
pub mod reader;

pub use error::TarError;
pub use flags::TypeFlag;
pub use header::HeaderView;
pub use header::InnerHeader;
pub use header::trim_slice;
pub use reader::TarReader;
pub use reader::blocks;
pub use reader::interpret_block;
pub use source::ByteSource;
pub use source::SliceSource;
