//! The audio containers that the library knows by their file extension.

use vstd::prelude::*;
use crate::text::lowercase;
use crate::text::lowercase_of;
use crate::text::same_text;

verus! {

/// An audio container.
#[derive(Debug, Clone, Copy, PartialEq, Eq, Structural)]
pub enum Codec {
    FLAC,
    OPUS,
    M4A,
    MP3,
}

/// The container that a lower-case extension stands for, if any.
pub open spec fn codec_of_extension(ext: Seq<char>) -> Option<Codec> {
    if ext == "flac"@ {
        Some(Codec::FLAC)
    } else if ext == "opus"@ {
        Some(Codec::OPUS)
    } else if ext == "m4a"@ || ext == "aac"@ {
        Some(Codec::M4A)
    } else if ext == "mp3"@ {
        Some(Codec::MP3)
    } else {
        None
    }
}

/// The extension of a path's file name, as `std::path::Path::extension`
/// gives it: without its dot, and absent where the file name has none.
pub uninterp spec fn extension_of(path: Seq<char>) -> Option<Seq<char>>;

/// `std::path::Path::extension`: the part of the path's file name after its
/// last dot, if there is one. Nothing is proved of it: the result is only
/// given a name.
#[verifier::external_body]
fn extension(path: &str) -> (ext: Option<&str>)
    ensures
        match ext {
            Some(e) => extension_of(path@) == Some(e@),
            None => extension_of(path@) is None,
        },
{
    match std::path::Path::new(path).extension() {
        Some(e) => e.to_str(),
        None => None,
    }
}

/// The container that a path names: the one that its extension, put in
/// lower case, stands for.
pub open spec fn classify(path: Seq<char>) -> Option<Codec> {
    match extension_of(path) {
        Some(ext) => codec_of_extension(lowercase_of(ext)),
        None => None,
    }
}

impl Codec {
    /// Tells the container of a file from its path. Only the extension
    /// counts, whatever its case; a path without one names no container.
    pub fn from_path(path: &str) -> (codec: Option<Codec>)
        ensures
            codec == classify(path@),
    {
        match extension(path) {
            Some(ext) => {
                let lower = lowercase(ext);
                Codec::from_extension(lower.as_str())
            },
            None => None,
        }
    }

    /// Whether tracks can be made from files of this container. So far
    /// they can from FLAC files only.
    pub fn has_extractor(&self) -> (has: bool)
        ensures
            has == (*self == Codec::FLAC),
    {
        match self {
            Codec::FLAC => true,
            _ => false,
        }
    }

    /// Looks an extension up in the table of known containers. The
    /// extension is compared as it stands: the table is in lower case.
    pub fn from_extension(ext: &str) -> (codec: Option<Codec>)
        ensures
            codec == codec_of_extension(ext@),
    {
        if same_text(ext, "flac") {
            Some(Codec::FLAC)
        } else if same_text(ext, "opus") {
            Some(Codec::OPUS)
        } else if same_text(ext, "m4a") || same_text(ext, "aac") {
            Some(Codec::M4A)
        } else if same_text(ext, "mp3") {
            Some(Codec::MP3)
        } else {
            None
        }
    }
}

/// The container of a path is fixed by the path's extension in lower case:
/// two paths whose extensions are the same but for their case name one
/// container.
pub proof fn lemma_classify_by_extension(first: Seq<char>, second: Seq<char>)
    requires
        extension_of(first) is Some,
        extension_of(second) is Some,
        lowercase_of(extension_of(first).unwrap()) == lowercase_of(extension_of(second).unwrap()),
    ensures
        classify(first) == classify(second),
{
}

/// A path without an extension names no container.
pub proof fn lemma_classify_without_extension(path: Seq<char>)
    requires
        extension_of(path) is None,
    ensures
        classify(path) is None,
{
}

} // verus!
