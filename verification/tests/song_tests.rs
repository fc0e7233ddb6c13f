use cosmic_pulsar::song::{ExtractionError, Picture, Song, TagReading, Tags};
use cosmic_pulsar::time::Duration;
use std::cmp::Ordering;

fn track(title: &str, index: Option<u32>) -> Song {
    Song::new(
        title.to_string(),
        Some("Artist".to_string()),
        Some("Album".to_string()),
        None,
        Some(1999),
        Picture::Placeholder,
        &format!("/music/{}.mp3", title),
        index,
        Duration::from_secs(180),
    )
}

fn tags(title: Option<&str>) -> Tags {
    Tags {
        title: title.map(|t| t.to_string()),
        artist: Some("Artist".to_string()),
        album: Some("Album".to_string()),
        genre: Some("Jazz".to_string()),
        year: Some(1959),
        track: Some(3),
        pictures: vec![],
    }
}

fn read(tags: Option<Tags>) -> TagReading {
    TagReading::Read { duration: Duration::from_millis(321_500), primary_tag: tags }
}

#[test]
fn new_keeps_every_field() {
    let song = Song::new(
        "So What".to_string(),
        Some("Miles Davis".to_string()),
        Some("Kind of Blue".to_string()),
        Some("Jazz".to_string()),
        Some(1959),
        Picture::Embedded(vec![1, 2, 3]),
        "/music/so_what.flac",
        Some(1),
        Duration::from_secs(562),
    );
    assert_eq!(song.title, "So What");
    assert_eq!(song.artist, Some("Miles Davis".to_string()));
    assert_eq!(song.album_title, Some("Kind of Blue".to_string()));
    assert_eq!(song.genre, Some("Jazz".to_string()));
    assert_eq!(song.year, Some(1959));
    assert_eq!(song.picture, Picture::Embedded(vec![1, 2, 3]));
    assert_eq!(song.path, "/music/so_what.flac");
    assert_eq!(song.index, Some(1));
    assert_eq!(song.duration, Duration::from_secs(562));
}

#[test]
fn a_track_equals_its_copy() {
    let song = track("a", Some(1));
    assert_eq!(song.clone(), song);
    assert_eq!(track("a", Some(1)), track("a", Some(1)));
}

#[test]
fn tracks_differ_when_any_field_differs() {
    let song = track("a", Some(1));
    let mut other = track("a", Some(1));
    other.path = "/elsewhere/a.mp3".to_string();
    assert_ne!(song, other);
    let mut other = track("a", Some(1));
    other.title = "b".to_string();
    assert_ne!(song, other);
    let mut other = track("a", Some(1));
    other.artist = None;
    assert_ne!(song, other);
    let mut other = track("a", Some(1));
    other.album_title = Some("Other".to_string());
    assert_ne!(song, other);
    let mut other = track("a", Some(1));
    other.genre = Some("Rock".to_string());
    assert_ne!(song, other);
    let mut other = track("a", Some(1));
    other.year = Some(2000);
    assert_ne!(song, other);
    let mut other = track("a", Some(1));
    other.picture = Picture::Embedded(vec![]);
    assert_ne!(song, other);
    let mut other = track("a", Some(1));
    other.index = None;
    assert_ne!(song, other);
    let mut other = track("a", Some(1));
    other.duration = Duration::from_secs(181);
    assert_ne!(song, other);
}

#[test]
fn pictures_compare_by_their_bytes() {
    assert_eq!(Picture::Placeholder, Picture::Placeholder);
    assert_eq!(Picture::Embedded(vec![9, 8]), Picture::Embedded(vec![9, 8]));
    assert_ne!(Picture::Embedded(vec![9, 8]), Picture::Embedded(vec![9, 7]));
    assert_ne!(Picture::Embedded(vec![9, 8]), Picture::Embedded(vec![9]));
    assert_ne!(Picture::Embedded(vec![]), Picture::Placeholder);
    assert_eq!(Picture::Embedded(vec![4, 5]).clone(), Picture::Embedded(vec![4, 5]));
}

#[test]
fn tracks_order_by_index() {
    assert_eq!(track("a", Some(1)).cmp(&track("b", Some(2))), Ordering::Less);
    assert_eq!(track("a", Some(2)).cmp(&track("b", Some(1))), Ordering::Greater);
    assert_eq!(track("a", Some(2)).cmp(&track("b", Some(2))), Ordering::Equal);
    assert!(track("a", Some(1)) < track("b", Some(2)));
    assert!(track("a", Some(2)) >= track("b", Some(2)));
}

#[test]
fn a_track_without_index_comes_before_any_indexed_track() {
    assert_eq!(track("a", None).cmp(&track("b", Some(0))), Ordering::Less);
    assert_eq!(track("a", Some(0)).cmp(&track("b", None)), Ordering::Greater);
    assert!(track("a", None) < track("b", Some(0)));
}

#[test]
fn two_tracks_without_index_compare_as_equal() {
    assert_eq!(track("a", None).cmp(&track("b", None)), Ordering::Equal);
    assert_eq!(track("a", None).partial_cmp(&track("b", None)), Some(Ordering::Equal));
    assert_ne!(track("a", None), track("b", None));
}

#[test]
fn partial_cmp_never_fails() {
    let indices = [None, Some(0), Some(1), Some(u32::MAX)];
    for a in indices {
        for b in indices {
            let left = track("a", a);
            let right = track("b", b);
            assert_eq!(left.partial_cmp(&right), Some(left.cmp(&right)));
            assert_eq!(left.cmp(&right), a.cmp(&b));
        }
    }
}

#[test]
fn an_unreadable_file_gives_no_track() {
    let answer = Song::from_parts(
        "/music/a.mp3".to_string(),
        Some("a.mp3".to_string()),
        TagReading::Unreadable,
    );
    assert_eq!(answer, Err(ExtractionError::Unreadable));
    let answer = Song::from_path("/music/a.mp3".to_string(), TagReading::Unreadable);
    assert_eq!(answer, Err(ExtractionError::Unreadable));
}

#[test]
fn a_file_without_primary_tag_gives_no_track() {
    let answer =
        Song::from_parts("/music/a.mp3".to_string(), Some("a.mp3".to_string()), read(None));
    assert_eq!(answer, Err(ExtractionError::MissingTag));
    let answer = Song::from_path("/music/a.mp3".to_string(), read(None));
    assert_eq!(answer, Err(ExtractionError::MissingTag));
}

#[test]
fn a_track_takes_its_fields_from_the_tag() {
    let song = Song::from_parts(
        "/music/a.mp3".to_string(),
        Some("a.mp3".to_string()),
        read(Some(tags(Some("Blue in Green")))),
    )
    .unwrap();
    assert_eq!(song.title, "Blue in Green");
    assert_eq!(song.artist, Some("Artist".to_string()));
    assert_eq!(song.album_title, Some("Album".to_string()));
    assert_eq!(song.genre, Some("Jazz".to_string()));
    assert_eq!(song.year, Some(1959));
    assert_eq!(song.index, Some(3));
    assert_eq!(song.path, "/music/a.mp3");
    assert_eq!(song.duration, Duration::from_millis(321_500));
    assert_eq!(song.picture, Picture::Placeholder);
}

#[test]
fn absent_tag_fields_stay_absent() {
    let bare = Tags {
        title: Some("t".to_string()),
        artist: None,
        album: None,
        genre: None,
        year: None,
        track: None,
        pictures: vec![],
    };
    let song = Song::from_parts("/music/a.mp3".to_string(), None, read(Some(bare))).unwrap();
    assert_eq!(song.artist, None);
    assert_eq!(song.album_title, None);
    assert_eq!(song.genre, None);
    assert_eq!(song.year, None);
    assert_eq!(song.index, None);
}

#[test]
fn the_file_name_stands_in_for_a_missing_title() {
    let song = Song::from_parts(
        "/music/a.mp3".to_string(),
        Some("a.mp3".to_string()),
        read(Some(tags(None))),
    )
    .unwrap();
    assert_eq!(song.title, "a.mp3");
}

#[test]
fn from_path_finds_the_file_name_in_the_path() {
    let song = Song::from_path("/music/blue/track one.flac".to_string(), read(Some(tags(None))))
        .unwrap();
    assert_eq!(song.title, "track one.flac");
    assert_eq!(song.path, "/music/blue/track one.flac");
}

#[test]
fn from_path_prefers_the_title_of_the_tag() {
    let song =
        Song::from_path("/music/a.mp3".to_string(), read(Some(tags(Some("Tagged"))))).unwrap();
    assert_eq!(song.title, "Tagged");
}

#[test]
fn no_title_and_no_file_name_give_no_track() {
    let answer = Song::from_parts("/music/a.mp3".to_string(), None, read(Some(tags(None))));
    assert_eq!(answer, Err(ExtractionError::BadFileName));
    let answer = Song::from_path("/music/..".to_string(), read(Some(tags(None))));
    assert_eq!(answer, Err(ExtractionError::BadFileName));
}

#[test]
fn a_title_makes_up_for_a_missing_file_name() {
    let song = Song::from_parts("/music/..".to_string(), None, read(Some(tags(Some("Named")))))
        .unwrap();
    assert_eq!(song.title, "Named");
    let song = Song::from_path("/music/..".to_string(), read(Some(tags(Some("Named"))))).unwrap();
    assert_eq!(song.title, "Named");
}

#[test]
fn a_missing_tag_counts_before_a_missing_file_name() {
    let answer = Song::from_parts("/music/..".to_string(), None, read(None));
    assert_eq!(answer, Err(ExtractionError::MissingTag));
}

#[test]
fn the_first_embedded_picture_is_the_cover() {
    let mut with_pictures = tags(Some("t"));
    with_pictures.pictures = vec![vec![1, 1], vec![2, 2, 2], vec![3]];
    let song =
        Song::from_parts("/music/a.mp3".to_string(), None, read(Some(with_pictures))).unwrap();
    assert_eq!(song.picture, Picture::Embedded(vec![1, 1]));
}

#[test]
fn a_tag_without_picture_gives_the_placeholder() {
    let song = Song::from_parts("/music/a.mp3".to_string(), None, read(Some(tags(Some("t")))))
        .unwrap();
    assert_eq!(song.picture, Picture::Placeholder);
}

#[test]
fn reading_the_same_file_twice_gives_the_same_track() {
    let first = Song::from_path("/music/a.mp3".to_string(), read(Some(tags(None)))).unwrap();
    let second = Song::from_path("/music/a.mp3".to_string(), read(Some(tags(None)))).unwrap();
    assert_eq!(first, second);
}
