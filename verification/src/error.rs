//! What can go wrong when a track is made from a file.

use vstd::prelude::*;
use crate::codec::Codec;

verus! {

/// Why no track could be made from a file.
#[derive(Debug)]
pub enum LibraryError {
    /// The extension names a known container that no extractor reads yet.
    UnsupportedCodec { codec: Codec },
    /// The extension names no known container.
    InvalidFormat { path: String },
    /// The container could not be read or is malformed.
    InvalidFlac(metaflac::Error),
}

/// An error as contracts speak of it: the path as text.
pub enum ErrorView {
    UnsupportedCodec { codec: Codec },
    InvalidFormat { path: Seq<char> },
    InvalidFlac(metaflac::Error),
}

impl View for LibraryError {
    type V = ErrorView;

    open spec fn view(&self) -> ErrorView {
        match *self {
            LibraryError::UnsupportedCodec { codec } => ErrorView::UnsupportedCodec { codec },
            LibraryError::InvalidFormat { path } => ErrorView::InvalidFormat { path: path@ },
            LibraryError::InvalidFlac(e) => ErrorView::InvalidFlac(e),
        }
    }
}

impl From<metaflac::Error> for LibraryError {
    fn from(err: metaflac::Error) -> (error: LibraryError) {
        LibraryError::InvalidFlac(err)
    }
}

impl vstd::std_specs::convert::FromSpecImpl<metaflac::Error> for LibraryError {
    open spec fn obeys_from_spec() -> bool {
        true
    }

    open spec fn from_spec(err: metaflac::Error) -> LibraryError {
        LibraryError::InvalidFlac(err)
    }
}

} // verus!
