//! The tag block of a FLAC file, as the `metaflac` crate hands it over.
//!
//! A tag is kept as `metaflac` built it. What this library reads from it is
//! named here, and the two calls that read it are the only way in.

use vstd::prelude::*;
use metaflac::block::VorbisComment;
use metaflac::Tag;
use crate::text::texts;

verus! {

#[verifier::external_type_specification]
#[verifier::external_body]
pub struct ExTag(metaflac::Tag);

#[verifier::external_type_specification]
#[verifier::external_body]
pub struct ExVorbisComment(metaflac::block::VorbisComment);

#[verifier::external_type_specification]
#[verifier::external_body]
pub struct ExError(metaflac::Error);

/// What the comment blocks of a tag hold, block by block in stored order:
/// for each tag name, its values in stored order.
pub uninterp spec fn comment_blocks(tag: Tag) -> Seq<Map<Seq<char>, Seq<Seq<char>>>>;

/// What one comment block holds: for each tag name, its values in stored
/// order.
pub uninterp spec fn comments_of(block: VorbisComment) -> Map<Seq<char>, Seq<Seq<char>>>;

/// What a tag says of its tracks: the content of its first comment block,
/// if it has one.
pub open spec fn comments(tag: Tag) -> Option<Map<Seq<char>, Seq<Seq<char>>>> {
    if comment_blocks(tag).len() > 0 {
        Some(comment_blocks(tag)[0])
    } else {
        None
    }
}

/// `metaflac::Tag::vorbis_comments`: the first comment block of the tag, or
/// `None` where the tag has no comment block. Nothing is proved of it: the
/// contract restates what `metaflac` documents.
#[verifier::external_body]
pub(crate) fn first_comments<'a>(tag: &'a Tag) -> (block: Option<&'a VorbisComment>)
    ensures
        match block {
            Some(b) => comment_blocks(*tag).len() > 0 && comment_blocks(*tag)[0] == comments_of(*b),
            None => comment_blocks(*tag).len() == 0,
        },
{
    tag.vorbis_comments()
}

/// `metaflac::block::VorbisComment::get`: the values stored under a tag
/// name, which is looked up as it is written, or `None` where the block has
/// no such name. Nothing is proved of it: the contract restates what
/// `metaflac` documents.
#[verifier::external_body]
pub(crate) fn values_of<'a>(block: &'a VorbisComment, key: &str) -> (values: Option<&'a Vec<String>>)
    ensures
        match values {
            Some(v) => comments_of(*block).contains_key(key@) && texts(v@) == comments_of(
                *block,
            )[key@],
            None => !comments_of(*block).contains_key(key@),
        },
{
    block.get(key)
}

} // verus!
