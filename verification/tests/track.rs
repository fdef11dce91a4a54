use metaflac::Tag;
use vicuno::text::parse_number;
use vicuno::text::same_text;
use vicuno::track::multi_value;
use vicuno::track::numeric_value;
use vicuno::track::single_value;
use vicuno::Codec;
use vicuno::LibraryError;
use vicuno::Track;

fn unreadable() -> metaflac::Error {
    metaflac::Error::new(metaflac::ErrorKind::InvalidInput, "reader does not contain flac metadata")
}

fn names(list: &Vec<String>) -> Vec<&str> {
    list.iter().map(|s| s.as_str()).collect()
}

/// The bytes of a FLAC stream whose only block is a comment block with the
/// given comments, each written as `NAME=value`.
fn flac_bytes(comments: &[&str]) -> Vec<u8> {
    let mut block: Vec<u8> = Vec::new();
    block.extend_from_slice(&0u32.to_le_bytes());
    block.extend_from_slice(&(comments.len() as u32).to_le_bytes());
    for comment in comments {
        block.extend_from_slice(&(comment.len() as u32).to_le_bytes());
        block.extend_from_slice(comment.as_bytes());
    }
    let mut bytes: Vec<u8> = Vec::new();
    bytes.extend_from_slice(b"fLaC");
    bytes.push(0x84);
    bytes.extend_from_slice(&(block.len() as u32).to_be_bytes()[1..]);
    bytes.extend_from_slice(&block);
    bytes
}

#[test]
fn new_track_is_blank() {
    let track = Track::new();
    assert!(track.is_empty());
    assert!(!track.is_modified());
    assert_eq!(track.path(), None);
    assert_eq!(track.codec(), None);
    assert_eq!(track.title(), None);
    assert_eq!(track.album(), None);
    assert!(track.artists().is_empty());
    assert_eq!(track.album_artist(), None);
    assert!(track.composers().is_empty());
    assert!(track.genres().is_empty());
    assert_eq!(track.track_number(), None);
    assert_eq!(track.track_total(), None);
    assert_eq!(track.disc_number(), None);
    assert_eq!(track.disc_total(), None);
    assert_eq!(track.date(), None);
    assert_eq!(track.www(), None);
    assert_eq!(track.copyright(), None);
    assert_eq!(track.encoded_by(), None);
    assert_eq!(track.comment(), None);
    assert!(track.discarded().is_empty());
}

#[test]
fn unsupported_codecs_fail_by_name() {
    let mut full = Tag::new();
    full.set_vorbis("TITLE", vec!["A"]);
    for (path, codec) in [
        ("a.opus", Codec::OPUS),
        ("a.m4a", Codec::M4A),
        ("a.aac", Codec::M4A),
        ("a.mp3", Codec::MP3),
        ("a.MP3", Codec::MP3),
    ] {
        match Track::from_file(path, Ok(full.clone())) {
            Err(LibraryError::UnsupportedCodec { codec: found }) => assert_eq!(found, codec),
            other => panic!("{:?}", other),
        }
        match Track::from_file(path, Err(unreadable())) {
            Err(LibraryError::UnsupportedCodec { codec: found }) => assert_eq!(found, codec),
            other => panic!("{:?}", other),
        }
    }
}

#[test]
fn unknown_extension_is_an_invalid_format() {
    match Track::from_file("album/notes.txt", Ok(Tag::new())) {
        Err(LibraryError::InvalidFormat { path }) => assert_eq!(path, "album/notes.txt"),
        other => panic!("{:?}", other),
    }
    match Track::from_file("album/song", Err(unreadable())) {
        Err(LibraryError::InvalidFormat { path }) => assert_eq!(path, "album/song"),
        other => panic!("{:?}", other),
    }
}

#[test]
fn two_genres_are_both_kept() {
    let mut tag = Tag::new();
    tag.set_vorbis("GENRE", vec!["Rock", "Jazz"]);
    let track = Track::from_file("a.flac", Ok(tag)).unwrap();
    assert_eq!(names(track.genres()), vec!["Rock", "Jazz"]);
    assert!(!track.discarded().iter().any(|name| name == "GENRE"));
    assert!(track.discarded().is_empty());
    assert!(!track.is_empty());
}

#[test]
fn second_title_is_discarded() {
    let mut tag = Tag::new();
    tag.set_vorbis("TITLE", vec!["A", "B"]);
    let track = Track::from_file("a.flac", Ok(tag)).unwrap();
    assert_eq!(track.title(), Some("A"));
    assert_eq!(names(track.discarded()), vec!["TITLE"]);
}

#[test]
fn tag_without_comment_block_gives_an_empty_track() {
    let track = Track::from_file("a.flac", Ok(Tag::new())).unwrap();
    assert!(track.is_empty());
    assert!(!track.is_modified());
    assert!(track.discarded().is_empty());
    assert_eq!(track.path(), Some("a.flac"));
    assert_eq!(track.codec(), Some(Codec::FLAC));
    assert_eq!(track.title(), None);
    assert!(track.genres().is_empty());
    let track = Track::from_flac("music/b.flac", Ok(Tag::new())).unwrap();
    assert!(track.is_empty());
    assert_eq!(track.path(), Some("music/b.flac"));
    assert_eq!(track.codec(), Some(Codec::FLAC));
}

#[test]
fn tag_with_other_blocks_only_gives_an_empty_track_of_the_file() {
    let mut tag = Tag::new();
    tag.push_block(metaflac::Block::Padding(16));
    let track = Track::from_file("music/c.FLAC", Ok(tag)).unwrap();
    assert!(track.is_empty());
    assert_eq!(track.path(), Some("music/c.FLAC"));
    assert_eq!(track.codec(), Some(Codec::FLAC));
}

#[test]
fn comment_block_without_known_names_gives_an_empty_track_of_the_file() {
    let mut tag = Tag::new();
    tag.set_vorbis("MOOD", vec!["blue"]);
    let track = Track::from_file("music/a.flac", Ok(tag)).unwrap();
    assert!(track.is_empty());
    assert_eq!(track.path(), Some("music/a.flac"));
    assert_eq!(track.codec(), Some(Codec::FLAC));
}

#[test]
fn every_known_name_fills_its_field() {
    let mut tag = Tag::new();
    tag.set_vorbis("TITLE", vec!["Song"]);
    tag.set_vorbis("ALBUM", vec!["Record"]);
    tag.set_vorbis("ARTIST", vec!["One", "Two"]);
    tag.set_vorbis("ALBUMARTIST", vec!["Band"]);
    tag.set_vorbis("COMPOSER", vec!["Writer", "Other"]);
    tag.set_vorbis("TRACKNUMBER", vec!["3"]);
    tag.set_vorbis("TRACKTOTAL", vec!["12"]);
    tag.set_vorbis("DISCNUMBER", vec!["1"]);
    tag.set_vorbis("DISCTOTAL", vec!["2"]);
    tag.set_vorbis("DATE", vec!["1999"]);
    tag.set_vorbis("CONTACT", vec!["https://example.org"]);
    tag.set_vorbis("GENRE", vec!["Rock"]);
    tag.set_vorbis("COPYRIGHT", vec!["(c) Band"]);
    tag.set_vorbis("ENCODED-BY", vec!["someone"]);
    tag.set_vorbis("DESCRIPTION", vec!["a remark"]);
    let track = Track::from_file("music/Record/03.flac", Ok(tag)).unwrap();
    assert_eq!(track.path(), Some("music/Record/03.flac"));
    assert_eq!(track.codec(), Some(Codec::FLAC));
    assert_eq!(track.title(), Some("Song"));
    assert_eq!(track.album(), Some("Record"));
    assert_eq!(names(track.artists()), vec!["One", "Two"]);
    assert_eq!(track.album_artist(), Some("Band"));
    assert_eq!(names(track.composers()), vec!["Writer", "Other"]);
    assert_eq!(track.track_number(), Some(3));
    assert_eq!(track.track_total(), Some(12));
    assert_eq!(track.disc_number(), Some(1));
    assert_eq!(track.disc_total(), Some(2));
    assert_eq!(track.date(), Some(1999));
    assert_eq!(track.www(), Some("https://example.org"));
    assert_eq!(names(track.genres()), vec!["Rock"]);
    assert_eq!(track.copyright(), Some("(c) Band"));
    assert_eq!(track.encoded_by(), Some("someone"));
    assert_eq!(track.comment(), Some("a remark"));
    assert!(!track.is_modified());
    assert!(!track.is_empty());
    assert!(track.discarded().is_empty());
}

#[test]
fn discarded_names_come_in_reading_order() {
    let mut tag = Tag::new();
    tag.set_vorbis("DESCRIPTION", vec!["x", "y"]);
    tag.set_vorbis("DATE", vec!["2001", "2002"]);
    tag.set_vorbis("TITLE", vec!["A", "B", "C"]);
    tag.set_vorbis("ARTIST", vec!["One", "Two"]);
    tag.set_vorbis("ALBUM", vec!["Only"]);
    tag.set_vorbis("ENCODED-BY", vec!["p", "q"]);
    tag.set_vorbis("TRACKNUMBER", vec!["x", "2"]);
    let track = Track::from_file("a.flac", Ok(tag)).unwrap();
    assert_eq!(
        names(track.discarded()),
        vec!["TITLE", "TRACKNUMBER", "DATE", "ENCODED-BY", "DESCRIPTION"]
    );
    assert_eq!(track.title(), Some("A"));
    assert_eq!(track.date(), Some(2001));
    assert_eq!(track.track_number(), None);
    assert_eq!(track.comment(), Some("x"));
    assert_eq!(track.encoded_by(), Some("p"));
    assert_eq!(track.album(), Some("Only"));
}

#[test]
fn every_single_valued_name_can_be_discarded() {
    let mut tag = Tag::new();
    for name in [
        "TITLE", "ALBUM", "ALBUMARTIST", "TRACKNUMBER", "TRACKTOTAL", "DISCNUMBER", "DISCTOTAL",
        "DATE", "CONTACT", "COPYRIGHT", "ENCODED-BY", "DESCRIPTION", "ARTIST", "COMPOSER", "GENRE",
    ] {
        tag.set_vorbis(name, vec!["1", "2"]);
    }
    let track = Track::from_file("a.flac", Ok(tag)).unwrap();
    assert_eq!(
        names(track.discarded()),
        vec![
            "TITLE", "ALBUM", "ALBUMARTIST", "TRACKNUMBER", "TRACKTOTAL", "DISCNUMBER",
            "DISCTOTAL", "DATE", "CONTACT", "COPYRIGHT", "ENCODED-BY", "DESCRIPTION",
        ]
    );
    assert_eq!(names(track.artists()), vec!["1", "2"]);
    assert_eq!(names(track.composers()), vec!["1", "2"]);
    assert_eq!(names(track.genres()), vec!["1", "2"]);
    assert_eq!(track.track_total(), Some(1));
}

#[test]
fn number_that_does_not_parse_leaves_the_field_unset() {
    let mut tag = Tag::new();
    tag.set_vorbis("TRACKNUMBER", vec!["3/12"]);
    tag.set_vorbis("TRACKTOTAL", vec![""]);
    tag.set_vorbis("DISCNUMBER", vec!["-1"]);
    tag.set_vorbis("DISCTOTAL", vec![" 2"]);
    tag.set_vorbis("DATE", vec!["1999-05-01"]);
    let track = Track::from_file("a.flac", Ok(tag)).unwrap();
    assert_eq!(track.track_number(), None);
    assert_eq!(track.track_total(), None);
    assert_eq!(track.disc_number(), None);
    assert_eq!(track.disc_total(), None);
    assert_eq!(track.date(), None);
    assert!(track.is_empty());
    assert!(track.discarded().is_empty());
}

#[test]
fn name_without_values_counts_as_absent() {
    let mut tag = Tag::new();
    tag.vorbis_comments_mut().comments.insert("TITLE".to_owned(), Vec::new());
    tag.vorbis_comments_mut().comments.insert("GENRE".to_owned(), Vec::new());
    tag.vorbis_comments_mut().comments.insert("DATE".to_owned(), Vec::new());
    let track = Track::from_file("a.flac", Ok(tag)).unwrap();
    assert_eq!(track.title(), None);
    assert_eq!(track.date(), None);
    assert!(track.genres().is_empty());
    assert!(track.is_empty());
    assert!(track.discarded().is_empty());
}

#[test]
fn names_are_looked_up_as_written() {
    let mut tag = Tag::new();
    tag.vorbis_comments_mut().comments.insert("title".to_owned(), vec!["lower".to_owned()]);
    tag.vorbis_comments_mut().comments.insert("Genre".to_owned(), vec!["Mixed".to_owned()]);
    let track = Track::from_file("a.flac", Ok(tag)).unwrap();
    assert_eq!(track.title(), None);
    assert!(track.genres().is_empty());
}

#[test]
fn only_the_first_comment_block_counts() {
    let mut first = metaflac::block::VorbisComment::new();
    first.set("TITLE", vec!["first"]);
    let mut second = metaflac::block::VorbisComment::new();
    second.set("TITLE", vec!["second"]);
    second.set("ALBUM", vec!["second"]);
    let mut tag = Tag::new();
    tag.push_block(metaflac::Block::Padding(4));
    tag.push_block(metaflac::Block::VorbisComment(first));
    tag.push_block(metaflac::Block::VorbisComment(second));
    let track = Track::from_file("a.flac", Ok(tag)).unwrap();
    assert_eq!(track.title(), Some("first"));
    assert_eq!(track.album(), None);
}

#[test]
fn failed_reading_is_a_flac_error() {
    match Track::from_file("a.flac", Err(unreadable())) {
        Err(LibraryError::InvalidFlac(e)) => {
            assert!(matches!(e.kind, metaflac::ErrorKind::InvalidInput));
            assert_eq!(e.description, "reader does not contain flac metadata");
        },
        other => panic!("{:?}", other),
    }
    assert!(matches!(
        Track::from_flac("whatever.txt", Err(unreadable())),
        Err(LibraryError::InvalidFlac(_))
    ));
}

#[test]
fn from_flac_does_not_look_at_the_extension() {
    let mut tag = Tag::new();
    tag.set_vorbis("TITLE", vec!["A"]);
    let track = Track::from_flac("song.bin", Ok(tag)).unwrap();
    assert_eq!(track.title(), Some("A"));
    assert_eq!(track.path(), Some("song.bin"));
    assert_eq!(track.codec(), Some(Codec::FLAC));
}

#[test]
fn track_from_the_bytes_of_a_flac_stream() {
    let bytes = flac_bytes(&["genre=Rock", "GENRE=Jazz", "Title=A", "TITLE=B", "tracknumber=07"]);
    let read = Tag::read_from(&mut &bytes[..]);
    let track = Track::from_file("music/x.FLAC", read).unwrap();
    assert_eq!(names(track.genres()), vec!["Rock", "Jazz"]);
    assert_eq!(track.title(), Some("A"));
    assert_eq!(track.track_number(), Some(7));
    assert_eq!(names(track.discarded()), vec!["TITLE"]);
    assert_eq!(track.path(), Some("music/x.FLAC"));
}

#[test]
fn track_from_bytes_that_are_no_flac_stream() {
    let bytes = b"this is no audio file at all".to_vec();
    let read = Tag::read_from(&mut &bytes[..]);
    assert!(matches!(Track::from_file("bad.flac", read), Err(LibraryError::InvalidFlac(_))));
    let read = Tag::read_from(&mut &b""[..]);
    assert!(matches!(Track::from_file("bad.flac", read), Err(LibraryError::InvalidFlac(_))));
}

#[test]
fn track_from_a_flac_stream_without_comment_block() {
    let mut bytes: Vec<u8> = Vec::new();
    bytes.extend_from_slice(b"fLaC");
    bytes.extend_from_slice(&[0x81, 0, 0, 2, 0, 0]);
    let read = Tag::read_from(&mut &bytes[..]);
    let track = Track::from_file("quiet.flac", read).unwrap();
    assert!(track.is_empty());
    assert_eq!(track.path(), Some("quiet.flac"));
    assert_eq!(track.codec(), Some(Codec::FLAC));
}

#[test]
fn single_value_takes_the_first_and_records_the_rest() {
    let mut block = metaflac::block::VorbisComment::new();
    block.set("TITLE", vec!["A", "B"]);
    block.set("ALBUM", vec!["Only"]);
    let mut discarded = vec!["EARLIER".to_owned()];
    assert_eq!(single_value(&block, "TITLE", &mut discarded), Some("A".to_owned()));
    assert_eq!(names(&discarded), vec!["EARLIER", "TITLE"]);
    assert_eq!(single_value(&block, "ALBUM", &mut discarded), Some("Only".to_owned()));
    assert_eq!(single_value(&block, "DATE", &mut discarded), None);
    assert_eq!(names(&discarded), vec!["EARLIER", "TITLE"]);
    assert_eq!(single_value(&block, "TITLE", &mut discarded), Some("A".to_owned()));
    assert_eq!(names(&discarded), vec!["EARLIER", "TITLE", "TITLE"]);
}

#[test]
fn multi_value_takes_all_in_stored_order() {
    let mut block = metaflac::block::VorbisComment::new();
    block.set("GENRE", vec!["Rock", "Jazz", "Rock"]);
    assert_eq!(names(&multi_value(&block, "GENRE")), vec!["Rock", "Jazz", "Rock"]);
    assert!(multi_value(&block, "ARTIST").is_empty());
}

#[test]
fn numeric_value_parses_the_first_value() {
    let mut block = metaflac::block::VorbisComment::new();
    block.set("DATE", vec!["1984", "x"]);
    block.set("TRACKNUMBER", vec!["x", "1"]);
    block.set("DISCNUMBER", vec!["2"]);
    let mut discarded = Vec::new();
    assert_eq!(numeric_value(&block, "DATE", &mut discarded), Some(1984));
    assert_eq!(numeric_value(&block, "TRACKNUMBER", &mut discarded), None);
    assert_eq!(numeric_value(&block, "DISCNUMBER", &mut discarded), Some(2));
    assert_eq!(numeric_value(&block, "DISCTOTAL", &mut discarded), None);
    assert_eq!(names(&discarded), vec!["DATE", "TRACKNUMBER"]);
}

#[test]
fn parse_number_reads_decimal_digits() {
    assert_eq!(parse_number("0"), Some(0));
    assert_eq!(parse_number("7"), Some(7));
    assert_eq!(parse_number("1999"), Some(1999));
    assert_eq!(parse_number("007"), Some(7));
    assert_eq!(parse_number("+3"), Some(3));
    assert_eq!(parse_number("+0"), Some(0));
    assert_eq!(parse_number(&usize::MAX.to_string()), Some(usize::MAX));
    assert_eq!(parse_number(&format!("000{}", usize::MAX)), Some(usize::MAX));
}

#[test]
fn parse_number_refuses_everything_else() {
    for text in [
        "", "+", "-", "-1", "-0", "++1", "+-1", "1+", " 1", "1 ", "1_000", "1.0", "0x10", "12a",
        "a12", "١٢", "１２", "1e3", "3/12",
    ] {
        assert_eq!(parse_number(text), None, "{:?}", text);
        assert_eq!(parse_number(text), text.parse::<usize>().ok(), "{:?}", text);
    }
    let over = format!("{}0", usize::MAX);
    assert_eq!(parse_number(&over), None);
    let next = format!("{}", usize::MAX as u128 + 1);
    assert_eq!(parse_number(&next), None);
}

#[test]
fn parse_number_agrees_with_std() {
    for text in ["0", "5", "42", "+42", "00042", "18446744073709551615", "18446744073709551616", "4294967295", "4294967296"] {
        assert_eq!(parse_number(text), text.parse::<usize>().ok(), "{:?}", text);
    }
}

#[test]
fn same_text_compares_characters() {
    assert!(same_text("", ""));
    assert!(same_text("flac", "flac"));
    assert!(!same_text("flac", "FLAC"));
    assert!(!same_text("flac", "fla"));
    assert!(!same_text("fla", "flac"));
    assert!(same_text("Motörhead", "Motörhead"));
    assert!(!same_text("Motörhead", "Motorhead"));
}
