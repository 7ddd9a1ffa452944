//! Filesystem-based storage locations.
//!
//! Each space is a directory with the following layout:
//!
//! ```text
//! {space_root}/
//!   archive/{catalog}/{base58(digest)}
//!   memory/{space}/{cell}
//!   credential/key/{address}
//!   certificate/{audience}/{subject}/{issuer}.{hash}
//! ```
//!
//! A location is a `file:` URL. Path segments are resolved against it with URL
//! semantics, and the result is checked to lie within it. The crate decides
//! which location, path or answer an operation is about; the operations on files
//! themselves are left to the caller.

pub mod error;
pub mod handle;
pub mod laws;
pub mod location;
pub mod model;
mod parts;
pub mod percent;
pub mod promises;
pub mod record;
pub mod replies;
pub mod reserved;
pub mod space;
pub mod target;
pub mod text;
pub mod windows;

pub use error::{FileSystemError, IoFailure};
pub use handle::FileSystemHandle;
pub use location::{Directory, Location, PlatformDirs};
pub use record::UrlRecord;
pub use reserved::{decode_reserved, encode_reserved};
pub use space::FileSystem;
pub use target::{PathComponent, Target};
pub use windows::encode_windows_path;
