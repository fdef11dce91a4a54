//! The tags that can be picked by name.

use vstd::prelude::*;
use crate::text::lowercase;
use crate::text::lowercase_of;
use crate::text::same_text;

verus! {

/// A tag of a track that can be picked for reading and writing.
#[derive(Debug, Clone, Copy, PartialEq, Eq, Structural)]
pub enum TagKind {
    Album,
    AlbumArtist,
    Artist,
    Comment,
    Composer,
    Copyright,
    Date,
    EncodedBy,
    Genre,
    Title,
}

/// A text with a hyphen in place of each underscore.
pub open spec fn hyphenated(s: Seq<char>) -> Seq<char> {
    s.map_values(
        |c: char|
            if c == '_' {
                '-'
            } else {
                c
            },
    )
}

/// `str::replace` of `_` by `-`: the text with a hyphen in place of each
/// underscore. Nothing is proved of it: the contract restates what std
/// documents for a pattern of one character.
#[verifier::external_body]
fn hyphenate(s: &str) -> (out: String)
    ensures
        out@ == hyphenated(s@),
{
    s.replace("_", "-")
}

/// The tag that a name stands for in the table of names.
pub open spec fn tag_of_name(name: Seq<char>) -> Option<TagKind> {
    if name == "album"@ {
        Some(TagKind::Album)
    } else if name == "album_artist"@ {
        Some(TagKind::AlbumArtist)
    } else if name == "artist"@ {
        Some(TagKind::Artist)
    } else if name == "comment"@ {
        Some(TagKind::Comment)
    } else if name == "composer"@ {
        Some(TagKind::Composer)
    } else if name == "copyright"@ {
        Some(TagKind::Copyright)
    } else if name == "date"@ {
        Some(TagKind::Date)
    } else if name == "encoded_by"@ {
        Some(TagKind::EncodedBy)
    } else if name == "genre"@ {
        Some(TagKind::Genre)
    } else if name == "title"@ {
        Some(TagKind::Title)
    } else {
        None
    }
}

/// The tag that a text picks: the one that the table has for the text in
/// lower case with a hyphen for each underscore.
pub open spec fn picked(s: Seq<char>) -> Option<TagKind> {
    tag_of_name(hyphenated(lowercase_of(s)))
}

impl TagKind {
    /// Looks a name up in the table of names, as it stands.
    pub fn from_name(name: &str) -> (tag: Option<TagKind>)
        ensures
            tag == tag_of_name(name@),
    {
        if same_text(name, "album") {
            Some(TagKind::Album)
        } else if same_text(name, "album_artist") {
            Some(TagKind::AlbumArtist)
        } else if same_text(name, "artist") {
            Some(TagKind::Artist)
        } else if same_text(name, "comment") {
            Some(TagKind::Comment)
        } else if same_text(name, "composer") {
            Some(TagKind::Composer)
        } else if same_text(name, "copyright") {
            Some(TagKind::Copyright)
        } else if same_text(name, "date") {
            Some(TagKind::Date)
        } else if same_text(name, "encoded_by") {
            Some(TagKind::EncodedBy)
        } else if same_text(name, "genre") {
            Some(TagKind::Genre)
        } else if same_text(name, "title") {
            Some(TagKind::Title)
        } else {
            None
        }
    }

    /// Picks a tag by a text, whatever its case. The text is put in lower
    /// case, its underscores become hyphens, and the result is looked up
    /// in the table of names. A text that picks no tag is handed back as
    /// the error.
    pub fn from_str(s: &str) -> (tag: Result<TagKind, String>)
        ensures
            match tag {
                Ok(t) => picked(s@) == Some(t),
                Err(e) => picked(s@) is None && e@ == s@,
            },
    {
        let lower = lowercase(s);
        let simple = hyphenate(lower.as_str());
        match TagKind::from_name(simple.as_str()) {
            Some(tag) => Ok(tag),
            None => Err(s.to_owned()),
        }
    }
}

/// No text picks a tag whose name in the table has an underscore: the
/// underscores of the text are hyphens by the time it is looked up.
pub proof fn lemma_names_with_underscore_are_never_picked(s: Seq<char>)
    ensures
        picked(s) != Some(TagKind::AlbumArtist),
        picked(s) != Some(TagKind::EncodedBy),
{
    let lower = lowercase_of(s);
    let simple = hyphenated(lower);
    reveal_strlit("album_artist");
    reveal_strlit("encoded_by");
    assert(forall|i: int| 0 <= i < simple.len() ==> simple[i] != '_');
    if simple == "album_artist"@ {
        assert(simple[5] == '_');
    }
    if simple == "encoded_by"@ {
        assert(simple[7] == '_');
    }
}

} // verus!
