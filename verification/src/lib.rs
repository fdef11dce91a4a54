//! Metadata of a music collection: the tags of each track, gathered album by
//! album over a directory tree.
//!
//! The functions here compute on values already in memory. Walking the
//! directories and reading the files is left to the caller, who hands over
//! what was found.

pub mod album;
pub mod codec;
pub mod error;
pub mod field;
pub mod library;
pub mod tags;
pub mod text;
pub mod track;
pub mod utility;

pub use crate::album::Album;
pub use crate::album::Entry;
pub use crate::codec::Codec;
pub use crate::error::LibraryError;
pub use crate::library::Collection;
pub use crate::library::Directory;
pub use crate::library::Failure;
pub use crate::library::Library;
pub use crate::track::Track;
