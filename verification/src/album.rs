//! One directory's tracks.

use vstd::prelude::*;
use metaflac::Tag;
use crate::codec::classify;
use crate::codec::Codec;
use crate::error::ErrorView;
use crate::error::LibraryError;
use crate::text::lemma_strictly_ascending_unique;
use crate::text::same_text;
use crate::text::lemma_sorted_distinct;
use crate::text::sorted;
use crate::text::strictly_ascending;
use crate::text::texts;
use crate::track::file_track;
use crate::track::outcome;
use crate::track::Track;
use crate::track::TrackView;

verus! {

/// What a directory holds under one name.
#[derive(Debug)]
pub enum Entry {
    /// A directory below the one that is scanned, with its path.
    Directory(String),
    /// A file, with its path and with what came of reading its tag.
    File(String, Result<Tag, metaflac::Error>),
}

/// The tracks of one directory, in the order of its files.
#[derive(Debug)]
pub struct Album {
    dir: String,
    tracks: Vec<Track>,
}

/// An album as contracts speak of it.
pub struct AlbumView {
    pub dir: Seq<char>,
    pub tracks: Seq<TrackView>,
}

/// The tracks of a list as contracts speak of them.
pub open spec fn track_views(tracks: Seq<Track>) -> Seq<TrackView> {
    tracks.map_values(|t: Track| t@)
}

impl View for Album {
    type V = AlbumView;

    closed spec fn view(&self) -> AlbumView {
        AlbumView { dir: self.dir@, tracks: track_views(self.tracks@) }
    }
}

/// What an entry gives to the album of its directory. A directory gives
/// nothing, and neither does a file whose path names no known container.
/// Any other file gives its track, or the error that kept it from having
/// one.
pub open spec fn entry_track(entry: Entry) -> Option<Result<TrackView, ErrorView>> {
    match entry {
        Entry::Directory(_) => None,
        Entry::File(path, read) => if classify(path@) is Some {
            Some(file_track(path@, read))
        } else {
            None
        },
    }
}

/// The tracks that the entries of a directory give, in the order of the
/// entries, or the error of the first entry that has one.
pub open spec fn scan(entries: Seq<Entry>) -> Result<Seq<TrackView>, ErrorView>
    decreases entries.len(),
{
    if entries.len() == 0 {
        Ok(Seq::empty())
    } else {
        match scan(entries.drop_last()) {
            Ok(tracks) => match entry_track(entries.last()) {
                Some(Ok(track)) => Ok(tracks.push(track)),
                Some(Err(e)) => Err(e),
                None => Ok(tracks),
            },
            Err(e) => Err(e),
        }
    }
}

/// The album that the entries of a directory give, or the error of the
/// first entry that has one.
pub open spec fn scanned(dir: Seq<char>, entries: Seq<Entry>) -> Result<AlbumView, ErrorView> {
    match scan(entries) {
        Ok(tracks) => Ok(AlbumView { dir, tracks }),
        Err(e) => Err(e),
    }
}

/// An album or an error as contracts speak of them.
pub open spec fn album_outcome(result: Result<Album, LibraryError>) -> Result<
    AlbumView,
    ErrorView,
> {
    match result {
        Ok(album) => Ok(album@),
        Err(e) => Err(e@),
    }
}

/// The genres of all tracks, track after track, as often as they are
/// named.
pub open spec fn all_genres(tracks: Seq<TrackView>) -> Seq<Seq<char>>
    decreases tracks.len(),
{
    if tracks.len() == 0 {
        Seq::empty()
    } else {
        all_genres(tracks.drop_last()) + tracks.last().genres
    }
}

/// Whether a list is the genre list of some tracks: it holds the genres
/// that the tracks name, each once, in the order of strings.
pub open spec fn is_genre_list(list: Seq<Seq<char>>, tracks: Seq<TrackView>) -> bool {
    &&& strictly_ascending(list)
    &&& forall|g: Seq<char>| list.contains(g) <==> all_genres(tracks).contains(g)
}

/// An error in the first entries is the error of the whole scan.
proof fn lemma_scan_error_sticks(entries: Seq<Entry>, k: int)
    requires
        0 <= k <= entries.len(),
        scan(entries.take(k)) is Err,
    ensures
        scan(entries) == scan(entries.take(k)),
    decreases entries.len(),
{
    if k == entries.len() {
        assert(entries.take(k) =~= entries);
    } else {
        assert(entries.drop_last().take(k) =~= entries.take(k));
        lemma_scan_error_sticks(entries.drop_last(), k);
    }
}

/// Whether a list of strings holds a text.
fn holds(items: &Vec<String>, text: &str) -> (found: bool)
    ensures
        found == texts(items@).contains(text@),
{
    let mut i: usize = 0;
    while i < items.len()
        invariant
            i <= items.len(),
            forall|j: int| 0 <= j < i ==> texts(items@)[j] != text@,
        decreases items.len() - i,
    {
        if same_text(items[i].as_str(), text) {
            assert(texts(items@)[i as int] == text@);
            return true;
        }
        i += 1;
    }
    false
}

impl Album {
    /// An album without tracks for a directory.
    pub fn new(path: &str) -> (album: Album)
        ensures
            album@ == (AlbumView { dir: path@, tracks: Seq::empty() }),
    {
        let album = Album { dir: path.to_owned(), tracks: Vec::new() };
        assert(album@.tracks =~= Seq::<TrackView>::empty());
        album
    }

    /// Makes the album of a directory from its entries, which are taken in
    /// the order given.
    ///
    /// Directories are passed over, and so are files whose path names no
    /// known container. Every other file gives a track, in the order of the
    /// entries. The first file that gives an error instead ends the scan
    /// with that error.
    pub fn from_path(path: &str, entries: Vec<Entry>) -> (album: Result<Album, LibraryError>)
        ensures
            album_outcome(album) == scanned(path@, entries@),
    {
        let mut album = Album::new(path);
        let ghost all = entries@;
        for entry in it: entries.into_iter()
            invariant
                it.seq() == all,
                scan(all.take(it.index())) == Ok::<Seq<TrackView>, ErrorView>(album@.tracks),
                album@.dir == path@,
        {
            let ghost k = it.index();
            assert(all.take(k + 1).drop_last() =~= all.take(k));
            assert(all.take(k + 1).last() == entry);
            match entry {
                Entry::Directory(_) => {},
                Entry::File(file, read) => {
                    if Codec::from_path(file.as_str()).is_some() {
                        match album.add_track(file.as_str(), read) {
                            Ok(()) => {},
                            Err(e) => {
                                proof {
                                    lemma_scan_error_sticks(all, k + 1);
                                }
                                return Err(e);
                            },
                        }
                    }
                },
            }
        }
        assert(all.take(all.len() as int) =~= all);
        Ok(album)
    }

    /// Adds the track of a file, made from its path and from what came of
    /// reading its tag. Where the file gives an error, the album stays as
    /// it is.
    pub fn add_track(&mut self, path: &str, read: Result<Tag, metaflac::Error>) -> (added: Result<
        (),
        LibraryError,
    >)
        ensures
            match file_track(path@, read) {
                Ok(track) => added is Ok && final(self)@ == (AlbumView {
                    dir: old(self)@.dir,
                    tracks: old(self)@.tracks.push(track),
                }),
                Err(e) => added is Err && added->Err_0@ == e && final(self)@ == old(self)@,
            },
    {
        match Track::from_file(path, read) {
            Ok(track) => {
                self.tracks.push(track);
                assert(track_views(self.tracks@) =~= track_views(old(self).tracks@).push(track@));
                Ok(())
            },
            Err(e) => Err(e),
        }
    }

    /// The directory of the album.
    pub fn path(&self) -> (path: &str)
        ensures
            path@ == self@.dir,
    {
        self.dir.as_str()
    }

    /// The tracks of the album, in the order of its files.
    pub fn tracks(&self) -> (tracks: &Vec<Track>)
        ensures
            track_views(tracks@) == self@.tracks,
    {
        &self.tracks
    }

    /// The number of tracks.
    pub fn len(&self) -> (len: usize)
        ensures
            len == self@.tracks.len(),
    {
        self.tracks.len()
    }

    /// The genres that the tracks of the album name, each once, in the
    /// order of strings.
    pub fn genres(&self) -> (genres: Vec<String>)
        ensures
            is_genre_list(texts(genres@), self@.tracks),
    {
        let mut found: Vec<String> = Vec::new();
        let ghost views = track_views(self.tracks@);
        let mut i: usize = 0;
        assert(texts(found@) =~= Seq::<Seq<char>>::empty());
        while i < self.tracks.len()
            invariant
                i <= self.tracks.len(),
                views == track_views(self.tracks@),
                texts(found@).no_duplicates(),
                forall|g: Seq<char>|
                    texts(found@).contains(g) <==> all_genres(views.take(i as int)).contains(g),
            decreases self.tracks.len() - i,
        {
            let names = self.tracks[i].genres();
            let ghost before = all_genres(views.take(i as int));
            let ghost these = views[i as int].genres;
            assert(views.take(i + 1).drop_last() =~= views.take(i as int));
            assert(all_genres(views.take(i + 1)) == before + these);
            let mut j: usize = 0;
            while j < names.len()
                invariant
                    j <= names.len(),
                    texts(names@) == these,
                    texts(found@).no_duplicates(),
                    forall|g: Seq<char>|
                        texts(found@).contains(g) <==> (before + these.take(j as int)).contains(g),
                decreases names.len() - j,
            {
                let ghost seen = before + these.take(j as int);
                let ghost next = before + these.take(j + 1);
                let ghost name = these[j as int];
                let ghost old_found = texts(found@);
                assert(next =~= seen.push(name));
                assert(names@[j as int]@ == name);
                let known = holds(&found, names[j].as_str());
                if !known {
                    found.push(names[j].clone());
                    assert(texts(found@) =~= old_found.push(name));
                }
                assert forall|g: Seq<char>| texts(found@).contains(g) <==> next.contains(g) by {
                    if seen.contains(g) {
                        let k = choose|k: int| 0 <= k < seen.len() && seen[k] == g;
                        assert(next[k] == g);
                    }
                    assert(next[seen.len() as int] == name);
                    assert(old_found.contains(g) <==> seen.contains(g));
                    if old_found.contains(g) {
                        let k = choose|k: int| 0 <= k < old_found.len() && old_found[k] == g;
                        assert(texts(found@)[k] == g);
                    }
                    if !known {
                        assert(texts(found@)[old_found.len() as int] == name);
                    }
                }
                j += 1;
            }
            assert(these.take(names.len() as int) =~= these);
            i += 1;
        }
        assert(views.take(self.tracks.len() as int) =~= views);
        let ghost distinct = texts(found@);
        let genres = sorted(found);
        proof {
            lemma_sorted_distinct(distinct, texts(genres@));
        }
        genres
    }
}

/// The genre list of an album is fixed by the genres that its tracks name:
/// tracks that name the same genres, in whatever order and however often,
/// have one genre list.
pub proof fn lemma_genre_list_ignores_order(
    first: Seq<Seq<char>>,
    first_tracks: Seq<TrackView>,
    second: Seq<Seq<char>>,
    second_tracks: Seq<TrackView>,
)
    requires
        is_genre_list(first, first_tracks),
        is_genre_list(second, second_tracks),
        forall|g: Seq<char>|
            all_genres(first_tracks).contains(g) <==> all_genres(second_tracks).contains(g),
    ensures
        first == second,
{
    lemma_strictly_ascending_unique(first, second);
}

/// An entry that gives nothing to the album may as well not be there: a
/// directory, or a file whose path names no known container, changes
/// neither the tracks nor the error of a scan.
pub proof fn lemma_scan_passes_over(entries: Seq<Entry>, i: int)
    requires
        0 <= i < entries.len(),
        entry_track(entries[i]) is None,
    ensures
        scan(entries.remove(i)) == scan(entries),
    decreases entries.len(),
{
    if i == entries.len() - 1 {
    } else {
        lemma_scan_passes_over(entries.drop_last(), i);
        assert(entries.remove(i).drop_last() =~= entries.drop_last().remove(i));
        assert(entries.remove(i).last() == entries.last());
    }
}

/// A genre is in the concatenated list exactly if some track names it.
pub proof fn lemma_all_genres(tracks: Seq<TrackView>, g: Seq<char>)
    ensures
        all_genres(tracks).contains(g) <==> exists|i: int|
            0 <= i < tracks.len() && (#[trigger] tracks[i]).genres.contains(g),
    decreases tracks.len(),
{
    if tracks.len() > 0 {
        let front = tracks.drop_last();
        let last = tracks.last().genres;
        lemma_all_genres(front, g);
        if all_genres(tracks).contains(g) {
            let k = choose|k: int| 0 <= k < all_genres(tracks).len() && all_genres(tracks)[k] == g;
            if k < all_genres(front).len() {
                assert(all_genres(front)[k] == g);
                let i = choose|i: int| 0 <= i < front.len() && (#[trigger] front[i]).genres.contains(g);
                assert(tracks[i].genres.contains(g));
            } else {
                assert(last[k - all_genres(front).len()] == g);
                assert(tracks[tracks.len() - 1].genres.contains(g));
            }
        }
        if exists|i: int| 0 <= i < tracks.len() && (#[trigger] tracks[i]).genres.contains(g) {
            let i = choose|i: int| 0 <= i < tracks.len() && (#[trigger] tracks[i]).genres.contains(g);
            if i < front.len() {
                assert(front[i].genres.contains(g));
                let k = choose|k: int| 0 <= k < all_genres(front).len() && all_genres(front)[k] == g;
                assert(all_genres(tracks)[k] == g);
            } else {
                let k = choose|k: int| 0 <= k < last.len() && last[k] == g;
                assert(all_genres(tracks)[all_genres(front).len() + k] == g);
            }
        }
    }
}

/// The genre list of an album does not depend on the order of its tracks:
/// albums in which the same tracks occur have one genre list.
pub proof fn lemma_genre_list_ignores_track_order(
    first: Seq<Seq<char>>,
    first_tracks: Seq<TrackView>,
    second: Seq<Seq<char>>,
    second_tracks: Seq<TrackView>,
)
    requires
        is_genre_list(first, first_tracks),
        is_genre_list(second, second_tracks),
        forall|t: TrackView| first_tracks.contains(t) <==> second_tracks.contains(t),
    ensures
        first == second,
{
    assert forall|g: Seq<char>|
        all_genres(first_tracks).contains(g) <==> all_genres(second_tracks).contains(g) by {
        lemma_all_genres(first_tracks, g);
        lemma_all_genres(second_tracks, g);
        if all_genres(first_tracks).contains(g) {
            let i = choose|i: int|
                0 <= i < first_tracks.len() && (#[trigger] first_tracks[i]).genres.contains(g);
            assert(first_tracks.contains(first_tracks[i]));
        }
        if all_genres(second_tracks).contains(g) {
            let i = choose|i: int|
                0 <= i < second_tracks.len() && (#[trigger] second_tracks[i]).genres.contains(g);
            assert(second_tracks.contains(second_tracks[i]));
        }
    }
    lemma_strictly_ascending_unique(first, second);
}

} // verus!
