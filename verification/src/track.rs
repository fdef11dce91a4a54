//! One audio file's tags.

use vstd::prelude::*;
use metaflac::block::VorbisComment;
use metaflac::Tag;
use crate::codec::classify;
use crate::codec::Codec;
use crate::error::ErrorView;
use crate::error::LibraryError;
use crate::tags::comments;
use crate::tags::comments_of;
use crate::tags::first_comments;
use crate::tags::values_of;
use crate::text::number_of;
use crate::text::opt_text;
use crate::text::parse_number;
use crate::text::texts;

verus! {

/// The tags of one audio file.
#[derive(Debug)]
pub struct Track {
    file: Option<String>,
    file_codec: Option<Codec>,
    title: Option<String>,
    album: Option<String>,
    artist: Vec<String>,
    album_artist: Option<String>,
    composer: Vec<String>,
    track_number: Option<usize>,
    track_total: Option<usize>,
    disc_number: Option<usize>,
    disc_total: Option<usize>,
    date: Option<usize>,
    www: Option<String>,
    genre: Vec<String>,
    copyright: Option<String>,
    encoded_by: Option<String>,
    comment: Option<String>,
    /// Set once a field has been changed, so that the tags are written
    /// back to the file.
    modified: bool,
    /// The names of the tags of which only the first value was kept.
    discarded: Vec<String>,
}

/// A track as contracts speak of it: every string as its text.
pub struct TrackView {
    pub file: Option<Seq<char>>,
    pub codec: Option<Codec>,
    pub title: Option<Seq<char>>,
    pub album: Option<Seq<char>>,
    pub artists: Seq<Seq<char>>,
    pub album_artist: Option<Seq<char>>,
    pub composers: Seq<Seq<char>>,
    pub track_number: Option<usize>,
    pub track_total: Option<usize>,
    pub disc_number: Option<usize>,
    pub disc_total: Option<usize>,
    pub date: Option<usize>,
    pub www: Option<Seq<char>>,
    pub genres: Seq<Seq<char>>,
    pub copyright: Option<Seq<char>>,
    pub encoded_by: Option<Seq<char>>,
    pub comment: Option<Seq<char>>,
    pub modified: bool,
    pub discarded: Seq<Seq<char>>,
}

impl TrackView {
    /// The track of which nothing is known.
    pub open spec fn blank() -> TrackView {
        TrackView {
            file: None,
            codec: None,
            title: None,
            album: None,
            artists: Seq::empty(),
            album_artist: None,
            composers: Seq::empty(),
            track_number: None,
            track_total: None,
            disc_number: None,
            disc_total: None,
            date: None,
            www: None,
            genres: Seq::empty(),
            copyright: None,
            encoded_by: None,
            comment: None,
            modified: false,
            discarded: Seq::empty(),
        }
    }

    /// Whether no tag has a value. Where the track came from, whether it
    /// was changed and what was discarded do not count.
    pub open spec fn is_empty(self) -> bool {
        &&& self.title is None
        &&& self.album is None
        &&& self.artists.len() == 0
        &&& self.album_artist is None
        &&& self.composers.len() == 0
        &&& self.track_number is None
        &&& self.track_total is None
        &&& self.disc_number is None
        &&& self.disc_total is None
        &&& self.date is None
        &&& self.www is None
        &&& self.genres.len() == 0
        &&& self.copyright is None
        &&& self.encoded_by is None
        &&& self.comment is None
    }
}

impl View for Track {
    type V = TrackView;

    closed spec fn view(&self) -> TrackView {
        TrackView {
            file: opt_text(self.file),
            codec: self.file_codec,
            title: opt_text(self.title),
            album: opt_text(self.album),
            artists: texts(self.artist@),
            album_artist: opt_text(self.album_artist),
            composers: texts(self.composer@),
            track_number: self.track_number,
            track_total: self.track_total,
            disc_number: self.disc_number,
            disc_total: self.disc_total,
            date: self.date,
            www: opt_text(self.www),
            genres: texts(self.genre@),
            copyright: opt_text(self.copyright),
            encoded_by: opt_text(self.encoded_by),
            comment: opt_text(self.comment),
            modified: self.modified,
            discarded: texts(self.discarded@),
        }
    }
}

/// The value of a tag that holds one value: the first one stored under its
/// name, if any is.
pub open spec fn first_value(block: Map<Seq<char>, Seq<Seq<char>>>, key: Seq<char>) -> Option<
    Seq<char>,
> {
    if block.contains_key(key) && block[key].len() > 0 {
        Some(block[key][0])
    } else {
        None
    }
}

/// The values of a tag that holds many: all that are stored under its name,
/// in stored order.
pub open spec fn all_values(block: Map<Seq<char>, Seq<Seq<char>>>, key: Seq<char>) -> Seq<
    Seq<char>,
> {
    if block.contains_key(key) {
        block[key]
    } else {
        Seq::empty()
    }
}

/// The number that a tag holds: what its first value writes, if that is a
/// number.
pub open spec fn number_value(block: Map<Seq<char>, Seq<Seq<char>>>, key: Seq<char>) -> Option<
    usize,
> {
    match first_value(block, key) {
        Some(text) => number_of(text),
        None => None,
    }
}

/// What reading a one-valued tag discards: the tag's name where more than
/// one value is stored under it, nothing otherwise.
pub open spec fn surplus(block: Map<Seq<char>, Seq<Seq<char>>>, key: Seq<char>) -> Seq<
    Seq<char>,
> {
    if block.contains_key(key) && block[key].len() > 1 {
        seq![key]
    } else {
        Seq::empty()
    }
}

/// The names of the one-valued tags that hold more than one value, in the
/// order in which the tags are read.
pub open spec fn discarded_names(block: Map<Seq<char>, Seq<Seq<char>>>) -> Seq<Seq<char>> {
    surplus(block, "TITLE"@) + surplus(block, "ALBUM"@) + surplus(block, "ALBUMARTIST"@)
        + surplus(block, "TRACKNUMBER"@) + surplus(block, "TRACKTOTAL"@) + surplus(
        block,
        "DISCNUMBER"@,
    ) + surplus(block, "DISCTOTAL"@) + surplus(block, "DATE"@) + surplus(block, "CONTACT"@)
        + surplus(block, "COPYRIGHT"@) + surplus(block, "ENCODED-BY"@) + surplus(
        block,
        "DESCRIPTION"@,
    )
}

/// The track that a comment block describes.
pub open spec fn track_of(path: Seq<char>, block: Map<Seq<char>, Seq<Seq<char>>>) -> TrackView {
    TrackView {
        file: Some(path),
        codec: Some(Codec::FLAC),
        title: first_value(block, "TITLE"@),
        album: first_value(block, "ALBUM"@),
        artists: all_values(block, "ARTIST"@),
        album_artist: first_value(block, "ALBUMARTIST"@),
        composers: all_values(block, "COMPOSER"@),
        track_number: number_value(block, "TRACKNUMBER"@),
        track_total: number_value(block, "TRACKTOTAL"@),
        disc_number: number_value(block, "DISCNUMBER"@),
        disc_total: number_value(block, "DISCTOTAL"@),
        date: number_value(block, "DATE"@),
        www: first_value(block, "CONTACT"@),
        genres: all_values(block, "GENRE"@),
        copyright: first_value(block, "COPYRIGHT"@),
        encoded_by: first_value(block, "ENCODED-BY"@),
        comment: first_value(block, "DESCRIPTION"@),
        modified: false,
        discarded: discarded_names(block),
    }
}

/// The track of a file whose tag says nothing: it records the path and the
/// container, and every tag is without a value.
pub open spec fn untagged(path: Seq<char>) -> TrackView {
    TrackView { file: Some(path), codec: Some(Codec::FLAC), ..TrackView::blank() }
}

/// The track that a FLAC file gives once its tag was read: what its first
/// comment block describes, or the untagged track of the file where the tag
/// has no comment block; the reading's failure where it failed.
pub open spec fn flac_track(path: Seq<char>, read: Result<Tag, metaflac::Error>) -> Result<
    TrackView,
    ErrorView,
> {
    match read {
        Ok(tag) => match comments(tag) {
            Some(block) => Ok(track_of(path, block)),
            None => Ok(untagged(path)),
        },
        Err(e) => Err(ErrorView::InvalidFlac(e)),
    }
}

/// The track that a file gives. The path decides whether the file is read
/// at all: only a FLAC file is, and what came of reading it counts for
/// nothing with any other path.
pub open spec fn file_track(path: Seq<char>, read: Result<Tag, metaflac::Error>) -> Result<
    TrackView,
    ErrorView,
> {
    match classify(path) {
        Some(Codec::FLAC) => flac_track(path, read),
        Some(codec) => Err(ErrorView::UnsupportedCodec { codec }),
        None => Err(ErrorView::InvalidFormat { path }),
    }
}

/// A track or an error as contracts speak of them.
pub open spec fn outcome(result: Result<Track, LibraryError>) -> Result<TrackView, ErrorView> {
    match result {
        Ok(track) => Ok(track@),
        Err(e) => Err(e@),
    }
}

/// Reads a tag that holds one value. Where the block stores several values
/// under the name, the first is returned and the name is added to
/// `discarded`; where it stores none, there is no value.
pub fn single_value(block: &VorbisComment, key: &str, discarded: &mut Vec<String>) -> (value:
    Option<String>)
    ensures
        opt_text(value) == first_value(comments_of(*block), key@),
        texts(final(discarded)@) == texts(old(discarded)@) + surplus(comments_of(*block), key@),
{
    match values_of(block, key) {
        Some(values) => {
            if values.len() > 1 {
                discarded.push(key.to_owned());
            }
            if values.len() > 0 {
                Some(values[0].clone())
            } else {
                None
            }
        },
        None => None,
    }
}

/// Reads a tag that holds many values: all of them in stored order, none
/// where the block does not have the name.
pub fn multi_value(block: &VorbisComment, key: &str) -> (values: Vec<String>)
    ensures
        texts(values@) == all_values(comments_of(*block), key@),
{
    let mut out: Vec<String> = Vec::new();
    match values_of(block, key) {
        Some(values) => {
            let mut i: usize = 0;
            while i < values.len()
                invariant
                    i <= values.len(),
                    out@.len() == i,
                    forall|j: int| 0 <= j < i ==> out@[j]@ == values@[j]@,
                decreases values.len() - i,
            {
                out.push(values[i].clone());
                i += 1;
            }
        },
        None => {},
    }
    out
}

/// Reads a tag that holds a number: its first value read as a number, with
/// the name added to `discarded` where there are several. A value that
/// writes no number leaves the tag without a value.
pub fn numeric_value(block: &VorbisComment, key: &str, discarded: &mut Vec<String>) -> (value:
    Option<usize>)
    ensures
        value == number_value(comments_of(*block), key@),
        texts(final(discarded)@) == texts(old(discarded)@) + surplus(comments_of(*block), key@),
{
    match single_value(block, key, discarded) {
        Some(text) => parse_number(text.as_str()),
        None => None,
    }
}

/// The text of a borrowed string that may be absent.
pub open spec fn opt_str_text(s: Option<&str>) -> Option<Seq<char>> {
    match s {
        Some(t) => Some(t@),
        None => None,
    }
}

/// Lends out a string that may be absent.
fn lend(s: &Option<String>) -> (lent: Option<&str>)
    ensures
        opt_str_text(lent) == opt_text(*s),
{
    match s {
        Some(t) => Some(t.as_str()),
        None => None,
    }
}

impl Track {
    /// A track of which nothing is known yet.
    pub fn new() -> (track: Track)
        ensures
            track@ == TrackView::blank(),
    {
        let track = Track {
            file: None,
            file_codec: None,
            title: None,
            album: None,
            artist: Vec::new(),
            album_artist: None,
            composer: Vec::new(),
            track_number: None,
            track_total: None,
            disc_number: None,
            disc_total: None,
            date: None,
            www: None,
            genre: Vec::new(),
            copyright: None,
            encoded_by: None,
            comment: None,
            modified: false,
            discarded: Vec::new(),
        };
        assert(track@.artists =~= Seq::<Seq<char>>::empty());
        track
    }

    /// Makes the track of a file from its path and from what came of
    /// reading its tag.
    ///
    /// The path is judged first, and `read` counts only where it names a
    /// FLAC file. A path that names no known container gives
    /// `InvalidFormat`; one that names a container other than FLAC gives
    /// `UnsupportedCodec`, and never a track, however the reading went.
    pub fn from_file(path: &str, read: Result<Tag, metaflac::Error>) -> (track: Result<
        Track,
        LibraryError,
    >)
        ensures
            outcome(track) == file_track(path@, read),
            classify(path@) is None ==> outcome(track) == Err::<TrackView, ErrorView>(
                ErrorView::InvalidFormat { path: path@ },
            ),
            classify(path@) matches Some(codec) ==> codec != Codec::FLAC ==> outcome(track) == Err::<
                TrackView,
                ErrorView,
            >(ErrorView::UnsupportedCodec { codec }),
    {
        match Codec::from_path(path) {
            Some(Codec::FLAC) => Track::from_flac(path, read),
            Some(codec) => Err(LibraryError::UnsupportedCodec { codec }),
            None => Err(LibraryError::InvalidFormat { path: path.to_owned() }),
        }
    }

    /// Makes the track of a FLAC file from its path and from what came of
    /// reading its tag.
    ///
    /// A failed reading gives `InvalidFlac` with the failure in it. Any
    /// other reading gives a track that records the path and the
    /// container. Its tags are read from the first comment block; where
    /// the tag has no comment block, the track is empty.
    pub fn from_flac(path: &str, read: Result<Tag, metaflac::Error>) -> (track: Result<
        Track,
        LibraryError,
    >)
        ensures
            outcome(track) == flac_track(path@, read),
            read is Ok ==> track is Ok,
            read is Ok ==> track->Ok_0@.file == Some(path@) && track->Ok_0@.codec == Some(
                Codec::FLAC,
            ),
            read is Ok && comments(read->Ok_0) is None ==> track->Ok_0@.is_empty(),
    {
        let tag = match read {
            Ok(tag) => tag,
            Err(e) => {
                return Err(LibraryError::InvalidFlac(e));
            },
        };
        let block = match first_comments(&tag) {
            Some(block) => block,
            None => {
                let mut track = Track::new();
                track.file = Some(path.to_owned());
                track.file_codec = Some(Codec::FLAC);
                return Ok(track);
            },
        };
        let mut discarded: Vec<String> = Vec::new();
        let title = single_value(block, "TITLE", &mut discarded);
        let album = single_value(block, "ALBUM", &mut discarded);
        let artist = multi_value(block, "ARTIST");
        let album_artist = single_value(block, "ALBUMARTIST", &mut discarded);
        let composer = multi_value(block, "COMPOSER");
        let track_number = numeric_value(block, "TRACKNUMBER", &mut discarded);
        let track_total = numeric_value(block, "TRACKTOTAL", &mut discarded);
        let disc_number = numeric_value(block, "DISCNUMBER", &mut discarded);
        let disc_total = numeric_value(block, "DISCTOTAL", &mut discarded);
        let date = numeric_value(block, "DATE", &mut discarded);
        let www = single_value(block, "CONTACT", &mut discarded);
        let genre = multi_value(block, "GENRE");
        let copyright = single_value(block, "COPYRIGHT", &mut discarded);
        let encoded_by = single_value(block, "ENCODED-BY", &mut discarded);
        let comment = single_value(block, "DESCRIPTION", &mut discarded);
        Ok(
            Track {
                file: Some(path.to_owned()),
                file_codec: Some(Codec::FLAC),
                title,
                album,
                artist,
                album_artist,
                composer,
                track_number,
                track_total,
                disc_number,
                disc_total,
                date,
                www,
                genre,
                copyright,
                encoded_by,
                comment,
                modified: false,
                discarded,
            },
        )
    }

    /// The path of the file that the track was read from.
    pub fn path(&self) -> (path: Option<&str>)
        ensures
            opt_str_text(path) == self@.file,
    {
        lend(&self.file)
    }

    /// The container of the file that the track was read from.
    pub fn codec(&self) -> (codec: Option<Codec>)
        ensures
            codec == self@.codec,
    {
        self.file_codec
    }

    pub fn title(&self) -> (title: Option<&str>)
        ensures
            opt_str_text(title) == self@.title,
    {
        lend(&self.title)
    }

    pub fn album(&self) -> (album: Option<&str>)
        ensures
            opt_str_text(album) == self@.album,
    {
        lend(&self.album)
    }

    pub fn artists(&self) -> (artists: &Vec<String>)
        ensures
            texts(artists@) == self@.artists,
    {
        &self.artist
    }

    pub fn album_artist(&self) -> (album_artist: Option<&str>)
        ensures
            opt_str_text(album_artist) == self@.album_artist,
    {
        lend(&self.album_artist)
    }

    pub fn composers(&self) -> (composers: &Vec<String>)
        ensures
            texts(composers@) == self@.composers,
    {
        &self.composer
    }

    pub fn genres(&self) -> (genres: &Vec<String>)
        ensures
            texts(genres@) == self@.genres,
    {
        &self.genre
    }

    pub fn track_number(&self) -> (number: Option<usize>)
        ensures
            number == self@.track_number,
    {
        self.track_number
    }

    pub fn track_total(&self) -> (total: Option<usize>)
        ensures
            total == self@.track_total,
    {
        self.track_total
    }

    pub fn disc_number(&self) -> (number: Option<usize>)
        ensures
            number == self@.disc_number,
    {
        self.disc_number
    }

    pub fn disc_total(&self) -> (total: Option<usize>)
        ensures
            total == self@.disc_total,
    {
        self.disc_total
    }

    /// The year of release.
    pub fn date(&self) -> (date: Option<usize>)
        ensures
            date == self@.date,
    {
        self.date
    }

    /// Where to reach the artist or the label.
    pub fn www(&self) -> (www: Option<&str>)
        ensures
            opt_str_text(www) == self@.www,
    {
        lend(&self.www)
    }

    pub fn copyright(&self) -> (copyright: Option<&str>)
        ensures
            opt_str_text(copyright) == self@.copyright,
    {
        lend(&self.copyright)
    }

    pub fn encoded_by(&self) -> (encoded_by: Option<&str>)
        ensures
            opt_str_text(encoded_by) == self@.encoded_by,
    {
        lend(&self.encoded_by)
    }

    pub fn comment(&self) -> (comment: Option<&str>)
        ensures
            opt_str_text(comment) == self@.comment,
    {
        lend(&self.comment)
    }

    /// The names of the tags that held more values than the track keeps.
    pub fn discarded(&self) -> (discarded: &Vec<String>)
        ensures
            texts(discarded@) == self@.discarded,
    {
        &self.discarded
    }

    /// Whether no tag has a value.
    pub fn is_empty(&self) -> (empty: bool)
        ensures
            empty == self@.is_empty(),
    {
        self.title.is_none() && self.album.is_none() && self.artist.is_empty()
            && self.album_artist.is_none() && self.composer.is_empty()
            && self.track_number.is_none() && self.track_total.is_none()
            && self.disc_number.is_none() && self.disc_total.is_none() && self.date.is_none()
            && self.www.is_none() && self.genre.is_empty() && self.copyright.is_none()
            && self.encoded_by.is_none() && self.comment.is_none()
    }

    /// Whether a field was changed since the track was made.
    pub fn is_modified(&self) -> (modified: bool)
        ensures
            modified == self@.modified,
    {
        self.modified
    }
}

/// Whether a name is one of the tags that hold one value.
pub open spec fn is_single_name(name: Seq<char>) -> bool {
    ||| name == "TITLE"@
    ||| name == "ALBUM"@
    ||| name == "ALBUMARTIST"@
    ||| name == "TRACKNUMBER"@
    ||| name == "TRACKTOTAL"@
    ||| name == "DISCNUMBER"@
    ||| name == "DISCTOTAL"@
    ||| name == "DATE"@
    ||| name == "CONTACT"@
    ||| name == "COPYRIGHT"@
    ||| name == "ENCODED-BY"@
    ||| name == "DESCRIPTION"@
}

/// What is in one of two lists is in both put together, and nothing else.
proof fn lemma_contains_either(a: Seq<Seq<char>>, b: Seq<Seq<char>>, x: Seq<char>)
    ensures
        (a + b).contains(x) <==> a.contains(x) || b.contains(x),
{
    if a.contains(x) {
        let i = choose|i: int| 0 <= i < a.len() && a[i] == x;
        assert((a + b)[i] == x);
    }
    if b.contains(x) {
        let i = choose|i: int| 0 <= i < b.len() && b[i] == x;
        assert((a + b)[a.len() + i] == x);
    }
}

/// What reading one tag discards is the tag's name or nothing.
proof fn lemma_surplus(block: Map<Seq<char>, Seq<Seq<char>>>, key: Seq<char>, x: Seq<char>)
    ensures
        surplus(block, key).contains(x) <==> x == key && block.contains_key(key) && block[key].len()
            > 1,
{
    if block.contains_key(key) && block[key].len() > 1 {
        assert(surplus(block, key)[0] == key);
    }
}

/// A name is discarded exactly if it is the name of a tag that holds one
/// value and the block stores more than one value under it.
pub proof fn lemma_discarded_names(block: Map<Seq<char>, Seq<Seq<char>>>, name: Seq<char>)
    ensures
        discarded_names(block).contains(name) <==> is_single_name(name) && block.contains_key(name)
            && block[name].len() > 1,
{
    let s1 = surplus(block, "TITLE"@);
    let s2 = s1 + surplus(block, "ALBUM"@);
    let s3 = s2 + surplus(block, "ALBUMARTIST"@);
    let s4 = s3 + surplus(block, "TRACKNUMBER"@);
    let s5 = s4 + surplus(block, "TRACKTOTAL"@);
    let s6 = s5 + surplus(block, "DISCNUMBER"@);
    let s7 = s6 + surplus(block, "DISCTOTAL"@);
    let s8 = s7 + surplus(block, "DATE"@);
    let s9 = s8 + surplus(block, "CONTACT"@);
    let s10 = s9 + surplus(block, "COPYRIGHT"@);
    let s11 = s10 + surplus(block, "ENCODED-BY"@);
    lemma_surplus(block, "TITLE"@, name);
    lemma_surplus(block, "ALBUM"@, name);
    lemma_surplus(block, "ALBUMARTIST"@, name);
    lemma_surplus(block, "TRACKNUMBER"@, name);
    lemma_surplus(block, "TRACKTOTAL"@, name);
    lemma_surplus(block, "DISCNUMBER"@, name);
    lemma_surplus(block, "DISCTOTAL"@, name);
    lemma_surplus(block, "DATE"@, name);
    lemma_surplus(block, "CONTACT"@, name);
    lemma_surplus(block, "COPYRIGHT"@, name);
    lemma_surplus(block, "ENCODED-BY"@, name);
    lemma_surplus(block, "DESCRIPTION"@, name);
    lemma_contains_either(s1, surplus(block, "ALBUM"@), name);
    lemma_contains_either(s2, surplus(block, "ALBUMARTIST"@), name);
    lemma_contains_either(s3, surplus(block, "TRACKNUMBER"@), name);
    lemma_contains_either(s4, surplus(block, "TRACKTOTAL"@), name);
    lemma_contains_either(s5, surplus(block, "DISCNUMBER"@), name);
    lemma_contains_either(s6, surplus(block, "DISCTOTAL"@), name);
    lemma_contains_either(s7, surplus(block, "DATE"@), name);
    lemma_contains_either(s8, surplus(block, "CONTACT"@), name);
    lemma_contains_either(s9, surplus(block, "COPYRIGHT"@), name);
    lemma_contains_either(s10, surplus(block, "ENCODED-BY"@), name);
    lemma_contains_either(s11, surplus(block, "DESCRIPTION"@), name);
}

/// The tags that hold many values are never discarded, however many values
/// the block stores under them.
pub proof fn lemma_many_valued_never_discarded(block: Map<Seq<char>, Seq<Seq<char>>>)
    ensures
        !discarded_names(block).contains("ARTIST"@),
        !discarded_names(block).contains("COMPOSER"@),
        !discarded_names(block).contains("GENRE"@),
{
    reveal_strlit("ARTIST");
    reveal_strlit("COMPOSER");
    reveal_strlit("GENRE");
    reveal_strlit("TITLE");
    reveal_strlit("ALBUM");
    reveal_strlit("ALBUMARTIST");
    reveal_strlit("TRACKNUMBER");
    reveal_strlit("TRACKTOTAL");
    reveal_strlit("DISCNUMBER");
    reveal_strlit("DISCTOTAL");
    reveal_strlit("DATE");
    reveal_strlit("CONTACT");
    reveal_strlit("COPYRIGHT");
    reveal_strlit("ENCODED-BY");
    reveal_strlit("DESCRIPTION");
    assert("GENRE"@[0] != "TITLE"@[0]);
    assert("ARTIST"@.len() == 6 && "COMPOSER"@.len() == 8 && "GENRE"@.len() == 5);
    lemma_discarded_names(block, "ARTIST"@);
    lemma_discarded_names(block, "COMPOSER"@);
    lemma_discarded_names(block, "GENRE"@);
}

/// Whether a track is empty does not depend on where it came from, on
/// whether it was changed, nor on what was discarded.
pub proof fn lemma_emptiness_ignores_bookkeeping(
    track: TrackView,
    file: Option<Seq<char>>,
    codec: Option<Codec>,
    modified: bool,
    discarded: Seq<Seq<char>>,
)
    ensures
        (TrackView { file, codec, modified, discarded, ..track }).is_empty() == track.is_empty(),
        TrackView::blank().is_empty(),
{
}

/// What came of reading a file counts only where its path names a FLAC
/// file: with any other path the file gives the same error whatever was
/// read.
pub proof fn lemma_reading_counts_for_flac_only(
    path: Seq<char>,
    first: Result<Tag, metaflac::Error>,
    second: Result<Tag, metaflac::Error>,
)
    requires
        classify(path) != Some(Codec::FLAC),
    ensures
        file_track(path, first) == file_track(path, second),
        file_track(path, first) is Err,
{
}

} // verus!
