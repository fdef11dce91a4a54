//! The albums of a directory tree.

use vstd::prelude::*;
use vstd::string::StrSliceExecFns;
use vstd::string::StringExecFns;
use crate::album::album_outcome;
use crate::album::is_genre_list;
use crate::album::scanned;
use crate::album::Album;
use crate::album::AlbumView;
use crate::album::Entry;
use crate::error::ErrorView;
use crate::error::LibraryError;
use crate::text::opt_text;
use crate::text::lemma_sorted_distinct;
use crate::text::lemma_strictly_ascending_unique;
use crate::text::same_text;
use crate::text::sort_names;
use crate::text::strictly_ascending;
use crate::text::strip_prefix;
use crate::text::strs;

verus! {

/// One album under its key.
#[derive(Debug)]
struct Slot {
    key: String,
    album: Album,
}

/// Albums by key, each key once. The albums are kept in a list, in which
/// a key is found by comparing texts.
#[derive(Debug)]
pub struct Collection {
    slots: Vec<Slot>,
}

/// The albums that a list of slots holds by key, a later slot replacing an
/// earlier one of the same key.
spec fn slots_map(slots: Seq<Slot>) -> Map<Seq<char>, AlbumView>
    decreases slots.len(),
{
    if slots.len() == 0 {
        Map::empty()
    } else {
        slots_map(slots.drop_last()).insert(slots.last().key@, slots.last().album@)
    }
}

/// Whether no two slots have one key.
spec fn distinct_keys(slots: Seq<Slot>) -> bool {
    forall|i: int, j: int| 0 <= i < j < slots.len() ==> slots[i].key@ != slots[j].key@
}

/// The keys of a list of slots are the keys of its map.
proof fn lemma_slots_keys(slots: Seq<Slot>)
    ensures
        forall|k: Seq<char>|
            slots_map(slots).dom().contains(k) <==> exists|i: int|
                0 <= i < slots.len() && (#[trigger] slots[i]).key@ == k,
    decreases slots.len(),
{
    if slots.len() > 0 {
        let front = slots.drop_last();
        lemma_slots_keys(front);
        assert(slots_map(slots).dom() =~= slots_map(front).dom().insert(slots.last().key@));
        assert forall|k: Seq<char>|
            slots_map(slots).dom().contains(k) <==> exists|i: int|
                0 <= i < slots.len() && (#[trigger] slots[i]).key@ == k by {
            if exists|i: int| 0 <= i < slots.len() && (#[trigger] slots[i]).key@ == k {
                let i = choose|i: int| 0 <= i < slots.len() && (#[trigger] slots[i]).key@ == k;
                if i < front.len() {
                    assert(front[i].key@ == k);
                }
            }
        }
    }
}

/// With each key once, every slot's album is the one that the map has
/// under the slot's key.
proof fn lemma_slots_album(slots: Seq<Slot>, i: int)
    requires
        distinct_keys(slots),
        0 <= i < slots.len(),
    ensures
        slots_map(slots).dom().contains(slots[i].key@),
        slots_map(slots)[slots[i].key@] == slots[i].album@,
    decreases slots.len(),
{
    let front = slots.drop_last();
    if i < slots.len() - 1 {
        assert(distinct_keys(front));
        lemma_slots_album(front, i);
    }
}

/// Taking a slot out takes its key out of the map, where each key is there
/// once.
proof fn lemma_slots_remove(slots: Seq<Slot>, i: int)
    requires
        distinct_keys(slots),
        0 <= i < slots.len(),
    ensures
        distinct_keys(slots.remove(i)),
        slots_map(slots.remove(i)) == slots_map(slots).remove(slots[i].key@),
    decreases slots.len(),
{
    let front = slots.drop_last();
    let rest = slots.remove(i);
    assert(distinct_keys(rest));
    assert(distinct_keys(front));
    if i == slots.len() - 1 {
        lemma_slots_keys(front);
        assert(!slots_map(front).dom().contains(slots[i].key@));
    } else {
        lemma_slots_remove(front, i);
        assert(rest.drop_last() =~= front.remove(i));
    }
}

impl View for Collection {
    type V = Map<Seq<char>, AlbumView>;

    closed spec fn view(&self) -> Map<Seq<char>, AlbumView> {
        slots_map(self.slots@)
    }
}

/// Whether a list is the key list of some albums: it holds their keys,
/// each once, in the order of strings.
pub open spec fn is_key_list(list: Seq<Seq<char>>, albums: Map<Seq<char>, AlbumView>) -> bool {
    &&& strictly_ascending(list)
    &&& forall|k: Seq<char>| list.contains(k) <==> albums.dom().contains(k)
}

/// Whether every album has a track.
pub open spec fn no_empty_album(albums: Map<Seq<char>, AlbumView>) -> bool {
    forall|k: Seq<char>| albums.dom().contains(k) ==> (#[trigger] albums[k]).tracks.len() > 0
}

/// Where every slot's album has a track, so has every album of the map.
proof fn lemma_slots_stocked(slots: Seq<Slot>)
    requires
        forall|i: int| 0 <= i < slots.len() ==> (#[trigger] slots[i]).album@.tracks.len() > 0,
    ensures
        no_empty_album(slots_map(slots)),
    decreases slots.len(),
{
    if slots.len() > 0 {
        lemma_slots_stocked(slots.drop_last());
    }
}

/// The albums of a list as contracts speak of them.
pub open spec fn album_views(albums: Seq<&Album>) -> Seq<AlbumView> {
    albums.map_values(|a: &Album| a@)
}

impl Collection {
    #[verifier::type_invariant]
    spec fn sound(&self) -> bool {
        &&& distinct_keys(self.slots@)
        &&& forall|i: int| 0 <= i < self.slots@.len() ==> (#[trigger] self.slots@[i]).album@.tracks.len() > 0
    }

    /// A collection without albums.
    pub fn new() -> (collection: Collection)
        ensures
            collection@ == Map::<Seq<char>, AlbumView>::empty(),
    {
        Collection { slots: Vec::new() }
    }

    /// Where the album of a key is kept.
    fn position(&self, key: &str) -> (at: Option<usize>)
        ensures
            match at {
                Some(i) => i < self.slots@.len() && self.slots@[i as int].key@ == key@,
                None => forall|i: int| 0 <= i < self.slots@.len() ==> self.slots@[i].key@ != key@,
            },
    {
        let mut i: usize = 0;
        while i < self.slots.len()
            invariant
                i <= self.slots@.len(),
                forall|j: int| 0 <= j < i ==> self.slots@[j].key@ != key@,
            decreases self.slots@.len() - i,
        {
            if same_text(self.slots[i].key.as_str(), key) {
                return Some(i);
            }
            i += 1;
        }
        None
    }

    /// The number of albums.
    pub fn len(&self) -> (len: usize)
        ensures
            len == self@.dom().len(),
            self@.dom().finite(),
    {
        proof {
            use_type_invariant(self);
            lemma_slots_count(self.slots@);
        }
        self.slots.len()
    }

    /// Whether there is no album.
    pub fn is_empty(&self) -> (empty: bool)
        ensures
            empty == (self@ == Map::<Seq<char>, AlbumView>::empty()),
    {
        proof {
            lemma_slots_keys(self.slots@);
            if self.slots@.len() > 0 {
                assert(self@.dom().contains(self.slots@[0].key@));
            }
        }
        self.slots.len() == 0
    }

    /// Whether there is an album under a key.
    pub fn contains_key(&self, key: &str) -> (found: bool)
        ensures
            found == self@.dom().contains(key@),
    {
        proof {
            lemma_slots_keys(self.slots@);
        }
        self.position(key).is_some()
    }

    /// The album under a key. It has a track: no other album is kept.
    pub fn get(&self, key: &str) -> (album: Option<&Album>)
        ensures
            match album {
                Some(a) => self@.dom().contains(key@) && a@ == self@[key@] && a@.tracks.len() > 0,
                None => !self@.dom().contains(key@),
            },
    {
        proof {
            use_type_invariant(self);
            lemma_slots_keys(self.slots@);
        }
        match self.position(key) {
            Some(i) => {
                proof {
                    lemma_slots_album(self.slots@, i as int);
                }
                Some(&self.slots[i].album)
            },
            None => None,
        }
    }

    /// The collection with an album put under a key, in place of the one
    /// that was there.
    fn insert(self, key: String, album: Album) -> (collection: Collection)
        requires
            album@.tracks.len() > 0,
        ensures
            collection@ == self@.insert(key@, album@),
    {
        proof {
            use_type_invariant(&self);
            lemma_slots_keys(self.slots@);
        }
        let at = self.position(key.as_str());
        let mut slots = self.slots;
        match at {
            Some(i) => {
                proof {
                    lemma_slots_remove(slots@, i as int);
                }
                slots.remove(i);
            },
            None => {},
        }
        let ghost before = slots@;
        proof {
            lemma_slots_keys(before);
        }
        slots.push(Slot { key, album });
        assert(slots@.drop_last() =~= before);
        assert(distinct_keys(slots@));
        Collection { slots }
    }

    /// The keys in the order of strings.
    pub fn keys(&self) -> (keys: Vec<&str>)
        ensures
            is_key_list(strs(keys@), self@),
    {
        proof {
            use_type_invariant(self);
            lemma_slots_keys(self.slots@);
        }
        let mut keys: Vec<&str> = Vec::new();
        let mut i: usize = 0;
        while i < self.slots.len()
            invariant
                i <= self.slots@.len(),
                keys@.len() == i,
                forall|j: int| 0 <= j < i ==> keys@[j]@ == self.slots@[j].key@,
            decreases self.slots@.len() - i,
        {
            keys.push(self.slots[i].key.as_str());
            i += 1;
        }
        let ghost unsorted = strs(keys@);
        assert forall|k: Seq<char>| unsorted.contains(k) <==> self@.dom().contains(k) by {
            if self@.dom().contains(k) {
                let j = choose|j: int| 0 <= j < self.slots@.len() && (#[trigger] self.slots@[j]).key@ == k;
                assert(unsorted[j] == k);
            }
        }
        sort_names(&mut keys);
        proof {
            lemma_sorted_distinct(unsorted, strs(keys@));
        }
        keys
    }
}

/// With each key once, there are as many keys as slots.
proof fn lemma_slots_count(slots: Seq<Slot>)
    requires
        distinct_keys(slots),
    ensures
        slots_map(slots).dom().finite(),
        slots_map(slots).dom().len() == slots.len(),
    decreases slots.len(),
{
    if slots.len() > 0 {
        let front = slots.drop_last();
        assert(distinct_keys(front));
        lemma_slots_count(front);
        lemma_slots_keys(front);
        assert(!slots_map(front).dom().contains(slots.last().key@));
    }
}

/// The albums of a directory tree, each under the path of its directory
/// as seen from the root.
#[derive(Debug)]
pub struct Library {
    root: String,
    albums: Collection,
}

/// A library as contracts speak of it.
pub struct LibraryView {
    pub root: Seq<char>,
    pub albums: Map<Seq<char>, AlbumView>,
}

impl View for Library {
    type V = LibraryView;

    closed spec fn view(&self) -> LibraryView {
        LibraryView { root: self.root@, albums: self.albums@ }
    }
}

/// A directory that was visited: its path and its entries.
#[derive(Debug)]
pub struct Directory {
    pub path: String,
    pub entries: Vec<Entry>,
}

/// An album that could not be made: its key and the reason.
#[derive(Debug)]
pub struct Failure {
    pub key: String,
    pub error: LibraryError,
}

/// The failures of a list as contracts speak of them.
pub open spec fn failure_views(failures: Seq<Failure>) -> Seq<(Seq<char>, ErrorView)> {
    failures.map_values(|f: Failure| (f.key@, f.error@))
}

/// What the path of every directory below a root starts with: the root
/// and the slash after it. A root that is written with a slash at its end
/// has that slash already.
pub open spec fn root_prefix(root: Seq<char>) -> Seq<char> {
    if root.len() > 0 && root.last() == '/' {
        root
    } else {
        root + "/"@
    }
}

/// The key of a directory in the library of a root: a dot for the root
/// itself, and for a directory below it what its path adds to the root and
/// the slash after it. Any other path has no key.
pub open spec fn relative_key(root: Seq<char>, path: Seq<char>) -> Option<Seq<char>> {
    if path == root {
        Some("."@)
    } else if root_prefix(root).is_prefix_of(path) {
        Some(path.skip(root_prefix(root).len() as int))
    } else {
        None
    }
}

/// The albums of a library once the scan of one more directory is known.
/// An album with tracks goes under the key, in place of what was there; an
/// album without tracks and a failed scan leave the library as it is.
pub open spec fn with_scan(
    albums: Map<Seq<char>, AlbumView>,
    key: Seq<char>,
    scan: Result<AlbumView, ErrorView>,
) -> Map<Seq<char>, AlbumView> {
    match scan {
        Ok(album) => if album.tracks.len() > 0 {
            albums.insert(key, album)
        } else {
            albums
        },
        Err(_) => albums,
    }
}

/// What is reported of the scan of a directory: the failure, if it failed.
pub open spec fn failure_of(key: Seq<char>, scan: Result<AlbumView, ErrorView>) -> Seq<
    (Seq<char>, ErrorView),
> {
    match scan {
        Ok(_) => Seq::empty(),
        Err(e) => seq![(key, e)],
    }
}

/// The key of a visited directory.
pub open spec fn key_of(root: Seq<char>, dir: Directory) -> Seq<char> {
    relative_key(root, dir.path@).unwrap()
}

/// The albums that the visited directories give, taken in the order given.
pub open spec fn built(root: Seq<char>, dirs: Seq<Directory>) -> Map<Seq<char>, AlbumView>
    decreases dirs.len(),
{
    if dirs.len() == 0 {
        Map::empty()
    } else {
        with_scan(
            built(root, dirs.drop_last()),
            key_of(root, dirs.last()),
            scanned(dirs.last().path@, dirs.last().entries@),
        )
    }
}

/// The failures among the visited directories, in the order given.
pub open spec fn reported(root: Seq<char>, dirs: Seq<Directory>) -> Seq<(Seq<char>, ErrorView)>
    decreases dirs.len(),
{
    if dirs.len() == 0 {
        Seq::empty()
    } else {
        reported(root, dirs.drop_last()) + failure_of(
            key_of(root, dirs.last()),
            scanned(dirs.last().path@, dirs.last().entries@),
        )
    }
}

/// The albums of a map in the order of a list of keys.
pub open spec fn albums_by(list: Seq<Seq<char>>, albums: Map<Seq<char>, AlbumView>) -> Seq<
    AlbumView,
> {
    list.map_values(|k: Seq<char>| albums[k])
}

impl Library {
    /// A library without albums for a root directory.
    pub fn new(path: &str) -> (library: Library)
        ensures
            library@ == (LibraryView { root: path@, albums: Map::empty() }),
    {
        Library { root: path.to_owned(), albums: Collection::new() }
    }

    /// Makes the library of a root directory from the directories that
    /// were visited, each with its entries.
    ///
    /// Each directory is scanned as an album. An album with tracks goes
    /// into the library under the key of its directory; one without tracks
    /// is dropped. A directory whose scan fails gives no album: the
    /// failure is returned with the directory's key, and the other
    /// directories are scanned all the same.
    ///
    /// The path of every directory must be the root or lie below it.
    pub fn from_dir(root: &str, dirs: Vec<Directory>) -> (done: (Library, Vec<Failure>))
        requires
            forall|i: int| 0 <= i < dirs@.len() ==> relative_key(root@, #[trigger] dirs@[i].path@) is Some,
        ensures
            done.0@ == (LibraryView { root: root@, albums: built(root@, dirs@) }),
            failure_views(done.1@) == reported(root@, dirs@),
            no_empty_album(done.0@.albums),
    {
        let mut library = Library::new(root);
        let mut failures: Vec<Failure> = Vec::new();
        let ghost all = dirs@;
        for dir in it: dirs.into_iter()
            invariant
                it.seq() == all,
                forall|i: int| 0 <= i < all.len() ==> relative_key(root@, #[trigger] all[i].path@) is Some,
                library@ == (LibraryView { root: root@, albums: built(root@, all.take(it.index())) }),
                failure_views(failures@) == reported(root@, all.take(it.index())),
        {
            let ghost k = it.index();
            assert(all.take(k + 1).drop_last() =~= all.take(k));
            let Directory { path, entries } = dir;
            let key = library.key_relative(path.as_str());
            let scan = Album::from_path(path.as_str(), entries);
            match library.add_album(key, scan) {
                Some(failure) => failures.push(failure),
                None => {},
            }
        }
        assert(all.take(all.len() as int) =~= all);
        proof {
            lemma_built_without_empty_album(root@, all);
        }
        (library, failures)
    }

    /// Takes in the scan of the directory of a key. An album with tracks
    /// goes under the key, in place of what was there. An album without
    /// tracks is dropped. A failed scan is handed back with the key, and
    /// the library stays as it is.
    pub fn add_album(&mut self, key: String, scan: Result<Album, LibraryError>) -> (failure: Option<
        Failure,
    >)
        ensures
            final(self)@ == (LibraryView {
                root: old(self)@.root,
                albums: with_scan(old(self)@.albums, key@, album_outcome(scan)),
            }),
            match failure {
                Some(f) => failure_of(key@, album_outcome(scan)) == seq![(f.key@, f.error@)],
                None => failure_of(key@, album_outcome(scan)) == Seq::<(Seq<char>, ErrorView)>::empty(),
            },
    {
        match scan {
            Ok(album) => {
                if album.len() > 0 {
                    let mut albums = Collection::new();
                    core::mem::swap(&mut self.albums, &mut albums);
                    albums = albums.insert(key, album);
                    core::mem::swap(&mut self.albums, &mut albums);
                }
                None
            },
            Err(error) => Some(Failure { key, error }),
        }
    }

    /// The root directory.
    pub fn root(&self) -> (root: &str)
        ensures
            root@ == self@.root,
    {
        self.root.as_str()
    }

    /// The albums by key. Each of them has a track.
    pub fn collection(&self) -> (collection: &Collection)
        ensures
            collection@ == self@.albums,
            no_empty_album(self@.albums),
    {
        proof {
            use_type_invariant(&self.albums);
            lemma_slots_stocked(self.albums.slots@);
        }
        &self.albums
    }

    /// The keys of the albums, in the order of strings.
    pub fn keys(&self) -> (keys: Vec<&str>)
        ensures
            is_key_list(strs(keys@), self@.albums),
    {
        self.albums.keys()
    }

    /// The albums in the order of their keys. Each of them has a track.
    pub fn albums(&self) -> (albums: Vec<&Album>)
        ensures
            forall|i: int| 0 <= i < albums@.len() ==> (#[trigger] albums@[i])@.tracks.len() > 0,
            forall|list: Seq<Seq<char>>| #[trigger]
                is_key_list(list, self@.albums) ==> album_views(albums@) == albums_by(
                    list,
                    self@.albums,
                ),
    {
        let keys = self.albums.keys();
        let mut albums: Vec<&Album> = Vec::new();
        let mut i: usize = 0;
        while i < keys.len()
            invariant
                i <= keys@.len(),
                is_key_list(strs(keys@), self.albums@),
                albums@.len() == i,
                forall|j: int| 0 <= j < i ==> albums@[j]@ == self.albums@[strs(keys@)[j]],
                forall|j: int| 0 <= j < i ==> (#[trigger] albums@[j])@.tracks.len() > 0,
            decreases keys@.len() - i,
        {
            assert(strs(keys@).contains(strs(keys@)[i as int]));
            match self.albums.get(keys[i]) {
                Some(album) => albums.push(album),
                None => {
                    assert(false);
                },
            }
            i += 1;
        }
        proof {
            assert forall|list: Seq<Seq<char>>| #[trigger]
                is_key_list(list, self@.albums) implies album_views(albums@) == albums_by(
                list,
                self@.albums,
            ) by {
                lemma_strictly_ascending_unique(list, strs(keys@));
            }
        }
        albums
    }

    /// The key of a directory, if its path is the root or lies below it.
    pub fn try_key(&self, path: &str) -> (key: Option<String>)
        ensures
            opt_text(key) == relative_key(self@.root, path@),
    {
        if same_text(path, self.root.as_str()) {
            return Some(".".to_owned());
        }
        let mut prefix = self.root.clone();
        let len = self.root.as_str().unicode_len();
        if len == 0 || self.root.as_str().get_char(len - 1) != '/' {
            prefix.append("/");
        }
        match strip_prefix(path, prefix.as_str()) {
            Some(rest) => Some(rest.to_owned()),
            None => None,
        }
    }

    /// The key of a directory whose path is the root or lies below it.
    pub fn key_relative(&self, key: &str) -> (relative: String)
        requires
            relative_key(self@.root, key@) is Some,
        ensures
            relative@ == relative_key(self@.root, key@).unwrap(),
    {
        match self.try_key(key) {
            Some(relative) => relative,
            None => {
                assert(false);
                String::new()
            },
        }
    }
}

/// The key list of a library is fixed by its keys: libraries with the same
/// keys, in whatever order their albums went in, have one key list.
pub proof fn lemma_key_list_ignores_order(
    first: Seq<Seq<char>>,
    first_albums: Map<Seq<char>, AlbumView>,
    second: Seq<Seq<char>>,
    second_albums: Map<Seq<char>, AlbumView>,
)
    requires
        is_key_list(first, first_albums),
        is_key_list(second, second_albums),
        first_albums.dom() == second_albums.dom(),
    ensures
        first == second,
{
    lemma_strictly_ascending_unique(first, second);
}

/// No album of a library is without tracks, whatever directories it was
/// made from.
pub proof fn lemma_built_without_empty_album(root: Seq<char>, dirs: Seq<Directory>)
    ensures
        no_empty_album(built(root, dirs)),
    decreases dirs.len(),
{
    if dirs.len() > 0 {
        lemma_built_without_empty_album(root, dirs.drop_last());
    }
}

/// A directory whose scan fails or finds no track leaves the library as
/// the other directories made it.
pub proof fn lemma_built_skips(root: Seq<char>, dirs: Seq<Directory>)
    requires
        dirs.len() > 0,
        match scanned(dirs.last().path@, dirs.last().entries@) {
            Ok(album) => album.tracks.len() == 0,
            Err(_) => true,
        },
    ensures
        built(root, dirs) == built(root, dirs.drop_last()),
{
}

/// What a library shows is fixed by what it was made from: two libraries
/// made from one root and the same directories have one key list, and under
/// each key albums with one genre list.
pub proof fn lemma_build_repeats(
    root: Seq<char>,
    dirs: Seq<Directory>,
    first: Map<Seq<char>, AlbumView>,
    first_keys: Seq<Seq<char>>,
    second: Map<Seq<char>, AlbumView>,
    second_keys: Seq<Seq<char>>,
)
    requires
        first == built(root, dirs),
        second == built(root, dirs),
        is_key_list(first_keys, first),
        is_key_list(second_keys, second),
    ensures
        first_keys == second_keys,
        forall|k: Seq<char>, g: Seq<Seq<char>>, h: Seq<Seq<char>>|
            first.dom().contains(k) && is_genre_list(g, first[k].tracks) && is_genre_list(
                h,
                second[k].tracks,
            ) ==> g == h,
{
    lemma_strictly_ascending_unique(first_keys, second_keys);
    assert forall|k: Seq<char>, g: Seq<Seq<char>>, h: Seq<Seq<char>>|
        first.dom().contains(k) && is_genre_list(g, first[k].tracks) && is_genre_list(
            h,
            second[k].tracks,
        ) implies g == h by {
        lemma_strictly_ascending_unique(g, h);
    }
}

/// The order in which two directories are visited does not matter where
/// their keys differ: with two neighbours among the visited directories
/// changing places, the albums are the same.
pub proof fn lemma_built_ignores_visiting_order(root: Seq<char>, dirs: Seq<Directory>, i: int)
    requires
        0 <= i < dirs.len() - 1,
        key_of(root, dirs[i]) != key_of(root, dirs[i + 1]),
    ensures
        built(root, dirs.update(i, dirs[i + 1]).update(i + 1, dirs[i])) == built(root, dirs),
    decreases dirs.len(),
{
    let swapped = dirs.update(i, dirs[i + 1]).update(i + 1, dirs[i]);
    if i + 1 == dirs.len() - 1 {
        let front = dirs.drop_last().drop_last();
        assert(swapped.drop_last().drop_last() =~= front);
        assert(swapped.drop_last().last() == dirs[i + 1]);
        assert(dirs.drop_last().last() == dirs[i]);
        let base = built(root, front);
        let first = scanned(dirs[i].path@, dirs[i].entries@);
        let second = scanned(dirs[i + 1].path@, dirs[i + 1].entries@);
        let one = key_of(root, dirs[i]);
        let two = key_of(root, dirs[i + 1]);
        assert(built(root, dirs.drop_last()) == with_scan(base, one, first));
        assert(built(root, swapped.drop_last()) == with_scan(base, two, second));
        assert(with_scan(with_scan(base, two, second), one, first) =~= with_scan(
            with_scan(base, one, first),
            two,
            second,
        ));
    } else {
        lemma_built_ignores_visiting_order(root, dirs.drop_last(), i);
        assert(swapped.drop_last() =~= dirs.drop_last().update(i, dirs[i + 1]).update(
            i + 1,
            dirs[i],
        ));
    }
}

/// A directory below the root has for its key what its path adds to the
/// root and the slash after it, whether or not the root is written with
/// that slash.
pub proof fn lemma_key_below_root(root: Seq<char>, rest: Seq<char>)
    requires
        rest.len() > 0,
    ensures
        relative_key(root, root_prefix(root) + rest) == Some(rest),
        root.len() > 0 && root.last() == '/' ==> relative_key(root, root + rest) == Some(rest),
        !(root.len() > 0 && root.last() == '/') ==> relative_key(root, root + "/"@ + rest) == Some(
            rest,
        ),
{
    let prefix = root_prefix(root);
    let path = prefix + rest;
    assert(path.len() > root.len());
    assert(prefix.is_prefix_of(path));
    assert(path.skip(prefix.len() as int) =~= rest);
}

} // verus!
