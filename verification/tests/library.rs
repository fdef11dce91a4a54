use metaflac::Tag;
use vicuno::Album;
use vicuno::Directory;
use vicuno::Entry;
use vicuno::Library;
use vicuno::LibraryError;

fn corrupt() -> Result<Tag, metaflac::Error> {
    Tag::read_from(&mut &b"RIFF....WAVEfmt "[..])
}

fn genre(values: Vec<&str>) -> Result<Tag, metaflac::Error> {
    let mut tag = Tag::new();
    tag.set_vorbis("GENRE", values);
    Ok(tag)
}

fn file(path: &str, read: Result<Tag, metaflac::Error>) -> Entry {
    Entry::File(path.to_owned(), read)
}

fn dir(path: &str, entries: Vec<Entry>) -> Directory {
    Directory { path: path.to_owned(), entries }
}

fn root_dir() -> Directory {
    dir(
        "music",
        vec![
            Entry::Directory("music/A".to_owned()),
            Entry::Directory("music/B".to_owned()),
            file("music/loose.flac", genre(vec!["Folk"])),
        ],
    )
}

fn a_dir() -> Directory {
    dir("music/A", vec![file("music/A/1.flac", genre(vec!["Rock", "Jazz"]))])
}

fn b_dir() -> Directory {
    dir("music/B", vec![Entry::Directory("music/B/sub".to_owned()), file("music/B/cover.jpg", corrupt())])
}

fn b_sub_dir() -> Directory {
    dir(
        "music/B/sub",
        vec![
            file("music/B/sub/1.flac", genre(vec!["Ambient"])),
            file("music/B/sub/2.flac", genre(vec!["Ambient", "Drone"])),
        ],
    )
}

#[test]
fn new_library_has_no_albums() {
    let library = Library::new("music");
    assert_eq!(library.root(), "music");
    assert!(library.collection().is_empty());
    assert_eq!(library.collection().len(), 0);
    assert!(library.keys().is_empty());
    assert!(library.albums().is_empty());
    assert!(library.collection().get(".").is_none());
}

#[test]
fn keys_come_in_the_order_of_strings() {
    let (library, failures) =
        Library::from_dir("music", vec![b_sub_dir(), a_dir(), b_dir(), root_dir()]);
    assert!(failures.is_empty());
    assert_eq!(library.keys(), vec![".", "A", "B/sub"]);
    let (library, failures) =
        Library::from_dir("music", vec![root_dir(), a_dir(), b_dir(), b_sub_dir()]);
    assert!(failures.is_empty());
    assert_eq!(library.keys(), vec![".", "A", "B/sub"]);
    let (library, _) = Library::from_dir("music", vec![a_dir(), root_dir(), b_sub_dir()]);
    assert_eq!(library.keys(), vec![".", "A", "B/sub"]);
}

#[test]
fn albums_come_in_the_order_of_their_keys() {
    let (library, _) = Library::from_dir("music", vec![b_sub_dir(), a_dir(), b_dir(), root_dir()]);
    let paths: Vec<&str> = library.albums().iter().map(|a| a.path()).collect();
    assert_eq!(paths, vec!["music", "music/A", "music/B/sub"]);
    let sizes: Vec<usize> = library.albums().iter().map(|a| a.len()).collect();
    assert_eq!(sizes, vec![1, 1, 2]);
}

#[test]
fn collection_finds_albums_by_key() {
    let (library, _) = Library::from_dir("music", vec![root_dir(), a_dir(), b_dir(), b_sub_dir()]);
    let collection = library.collection();
    assert_eq!(collection.len(), 3);
    assert!(!collection.is_empty());
    assert!(collection.contains_key("."));
    assert!(collection.contains_key("A"));
    assert!(collection.contains_key("B/sub"));
    assert!(!collection.contains_key("B"));
    assert!(!collection.contains_key("music/A"));
    assert_eq!(collection.get("A").unwrap().genres(), vec!["Jazz", "Rock"]);
    assert_eq!(collection.get("B/sub").unwrap().genres(), vec!["Ambient", "Drone"]);
    assert_eq!(collection.get(".").unwrap().genres(), vec!["Folk"]);
    assert!(collection.get("B").is_none());
    assert_eq!(collection.keys(), vec![".", "A", "B/sub"]);
}

#[test]
fn album_with_a_corrupt_file_is_dropped_and_reported() {
    let broken = dir(
        "music/C",
        vec![
            file("music/C/good.flac", genre(vec!["Rock"])),
            file("music/C/notes.txt", corrupt()),
            file("music/C/zz_bad.flac", corrupt()),
        ],
    );
    let (library, failures) = Library::from_dir("music", vec![root_dir(), a_dir(), broken, b_sub_dir()]);
    assert_eq!(library.keys(), vec![".", "A", "B/sub"]);
    assert!(library.collection().get("C").is_none());
    assert_eq!(failures.len(), 1);
    assert_eq!(failures[0].key, "C");
    assert!(matches!(failures[0].error, LibraryError::InvalidFlac(_)));
}

#[test]
fn failures_come_in_the_order_of_the_directories() {
    let (library, failures) = Library::from_dir(
        "music",
        vec![
            dir("music/Z", vec![file("music/Z/1.mp3", corrupt())]),
            dir("music", vec![file("music/1.flac", corrupt())]),
            dir("music/M", vec![file("music/M/1.flac", genre(vec!["Pop"]))]),
            dir("music/A", vec![file("music/A/1.m4a", genre(vec!["Pop"]))]),
        ],
    );
    assert_eq!(library.keys(), vec!["M"]);
    let keys: Vec<&str> = failures.iter().map(|f| f.key.as_str()).collect();
    assert_eq!(keys, vec!["Z", ".", "A"]);
    assert!(matches!(failures[0].error, LibraryError::UnsupportedCodec { .. }));
    assert!(matches!(failures[1].error, LibraryError::InvalidFlac(_)));
    assert!(matches!(failures[2].error, LibraryError::UnsupportedCodec { .. }));
}

#[test]
fn library_without_albums_is_empty_and_no_error() {
    let (library, failures) = Library::from_dir("music", vec![b_dir(), dir("music", Vec::new())]);
    assert!(library.collection().is_empty());
    assert!(library.keys().is_empty());
    assert!(failures.is_empty());
    let (library, failures) = Library::from_dir("music", Vec::new());
    assert!(library.collection().is_empty());
    assert!(failures.is_empty());
    assert_eq!(library.root(), "music");
}

#[test]
fn building_twice_gives_the_same_library() {
    let (first, _) = Library::from_dir("music", vec![root_dir(), a_dir(), b_dir(), b_sub_dir()]);
    let (second, _) = Library::from_dir("music", vec![root_dir(), a_dir(), b_dir(), b_sub_dir()]);
    assert_eq!(first.keys(), second.keys());
    for key in first.keys() {
        assert_eq!(
            first.collection().get(key).unwrap().genres(),
            second.collection().get(key).unwrap().genres()
        );
    }
}

#[test]
fn directory_visited_again_replaces_its_album() {
    let (library, _) = Library::from_dir(
        "music",
        vec![
            dir("music/A", vec![file("music/A/1.flac", genre(vec!["Old"]))]),
            dir("music/B", vec![file("music/B/1.flac", genre(vec!["Other"]))]),
            dir("music/A", vec![file("music/A/1.flac", genre(vec!["New"]))]),
            dir("music/B", Vec::new()),
        ],
    );
    assert_eq!(library.keys(), vec!["A", "B"]);
    assert_eq!(library.collection().len(), 2);
    assert_eq!(library.collection().get("A").unwrap().genres(), vec!["New"]);
    assert_eq!(library.collection().get("B").unwrap().genres(), vec!["Other"]);
}

#[test]
fn add_album_keeps_albums_with_tracks_only() {
    let mut library = Library::new("music");
    let full = Album::from_path("music/A", vec![file("music/A/1.flac", genre(vec!["Rock"]))]);
    assert!(library.add_album("A".to_owned(), full).is_none());
    let empty = Album::from_path("music/B", Vec::new());
    assert!(library.add_album("B".to_owned(), empty).is_none());
    let failed = Album::from_path("music/C", vec![file("music/C/1.flac", corrupt())]);
    let failure = library.add_album("C".to_owned(), failed).unwrap();
    assert_eq!(failure.key, "C");
    assert!(matches!(failure.error, LibraryError::InvalidFlac(_)));
    assert_eq!(library.keys(), vec!["A"]);
}

#[test]
fn key_of_the_root_is_a_dot() {
    let library = Library::new("music");
    assert_eq!(library.key_relative("music"), ".");
    assert_eq!(library.try_key("music"), Some(".".to_owned()));
    let library = Library::new("");
    assert_eq!(library.key_relative(""), ".");
    let library = Library::new("/");
    assert_eq!(library.key_relative("/"), ".");
}

#[test]
fn key_of_a_directory_is_its_path_below_the_root() {
    let library = Library::new("/home/me/music");
    assert_eq!(library.key_relative("/home/me/music/A"), "A");
    assert_eq!(library.key_relative("/home/me/music/B/sub"), "B/sub");
    assert_eq!(library.key_relative("/home/me/music/."), ".");
    assert_eq!(library.key_relative("/home/me/music/"), "");
    assert_eq!(library.try_key("/home/me/music/Ünï/cödé"), Some("Ünï/cödé".to_owned()));
    let library = Library::new(".");
    assert_eq!(library.key_relative("./A"), "A");
}

#[test]
fn path_outside_the_root_has_no_key() {
    let library = Library::new("music");
    assert_eq!(library.try_key("musical"), None);
    assert_eq!(library.try_key("musicA"), None);
    assert_eq!(library.try_key("other/music/A"), None);
    assert_eq!(library.try_key("Music/A"), None);
    assert_eq!(library.try_key("musi"), None);
    assert_eq!(library.try_key(""), None);
    let library = Library::new("music/");
    assert_eq!(library.try_key("music"), None);
    assert_eq!(library.try_key("musicA"), None);
    assert_eq!(library.try_key("other/A"), None);
}

#[test]
fn root_written_with_a_slash_at_its_end_has_the_same_keys() {
    let library = Library::new("/music/");
    assert_eq!(library.key_relative("/music/"), ".");
    assert_eq!(library.key_relative("/music/A"), "A");
    assert_eq!(library.key_relative("/music/B/sub"), "B/sub");
    assert_eq!(library.try_key("/music/A"), Some("A".to_owned()));
    let library = Library::new("/");
    assert_eq!(library.key_relative("/"), ".");
    assert_eq!(library.key_relative("/A"), "A");
    assert_eq!(library.key_relative("/A/B"), "A/B");
    let library = Library::new("music//");
    assert_eq!(library.key_relative("music//A"), "A");
    let library = Library::new("");
    assert_eq!(library.key_relative("/A"), "A");
}

#[test]
fn library_of_a_root_written_with_a_slash_at_its_end() {
    let (library, failures) = Library::from_dir(
        "music/",
        vec![
            dir("music/", vec![file("music/1.flac", genre(vec!["Folk"]))]),
            dir("music/B/sub", vec![file("music/B/sub/1.flac", genre(vec!["Ambient"]))]),
            dir("music/A", vec![file("music/A/1.flac", genre(vec!["Rock"]))]),
        ],
    );
    assert!(failures.is_empty());
    assert_eq!(library.keys(), vec![".", "A", "B/sub"]);
    assert_eq!(library.collection().get("A").unwrap().genres(), vec!["Rock"]);
}

#[test]
fn keys_are_ordered_by_code_point() {
    let (library, _) = Library::from_dir(
        "m",
        vec![
            dir("m/b", vec![file("m/b/1.flac", genre(vec!["x"]))]),
            dir("m/B", vec![file("m/B/1.flac", genre(vec!["x"]))]),
            dir("m/a b", vec![file("m/a b/1.flac", genre(vec!["x"]))]),
            dir("m/a", vec![file("m/a/1.flac", genre(vec!["x"]))]),
            dir("m/a/b", vec![file("m/a/b/1.flac", genre(vec!["x"]))]),
            dir("m/É", vec![file("m/É/1.flac", genre(vec!["x"]))]),
            dir("m/10", vec![file("m/10/1.flac", genre(vec!["x"]))]),
            dir("m/9", vec![file("m/9/1.flac", genre(vec!["x"]))]),
        ],
    );
    assert_eq!(library.keys(), vec!["10", "9", "B", "a", "a b", "a/b", "b", "É"]);
}
