use cosmic_pulsar::app::Message;
use cosmic_pulsar::page::albums_page::{Album, AlbumsLibrary, AlbumsPage, AlbumsPageMessage};
use cosmic_pulsar::player::PlayerMessage;
use cosmic_pulsar::song::{ExtractionError, Picture, Song};
use cosmic_pulsar::song_library::WalkEntry;
use cosmic_pulsar::time::Duration;

fn song_of(album: Option<&str>, title: &str, index: Option<u32>) -> Song {
    Song::new(
        title.to_string(),
        None,
        album.map(|a| a.to_string()),
        None,
        None,
        Picture::Embedded(title.as_bytes().to_vec()),
        &format!("/music/{}.mp3", title),
        index,
        Duration::from_secs(200),
    )
}

fn titles(songs: &Vec<Song>) -> Vec<String> {
    songs.iter().map(|song| song.title.clone()).collect()
}

fn album_titles(library: &AlbumsLibrary) -> Vec<String> {
    library.get_albums().iter().map(|album| album.title().clone()).collect()
}

#[test]
fn an_album_keeps_its_tracks_in_track_order() {
    let mut album = Album::new("Blue", vec![]);
    album.add_song(song_of(Some("Blue"), "three", Some(3)));
    album.add_song(song_of(Some("Blue"), "one", Some(1)));
    album.add_song(song_of(Some("Blue"), "two", Some(2)));
    assert_eq!(titles(album.get_songs()), vec!["one", "two", "three"]);
    assert_eq!(album.title(), "Blue");
}

#[test]
fn tracks_without_index_come_first_in_the_order_of_their_arrival() {
    let mut album = Album::new("Blue", vec![]);
    album.add_song(song_of(Some("Blue"), "two", Some(2)));
    album.add_song(song_of(Some("Blue"), "first bare", None));
    album.add_song(song_of(Some("Blue"), "one", Some(1)));
    album.add_song(song_of(Some("Blue"), "second bare", None));
    assert_eq!(titles(album.get_songs()), vec!["first bare", "second bare", "one", "two"]);
    let indices: Vec<Option<u32>> = album.get_songs().iter().map(|song| song.index).collect();
    assert_eq!(indices, vec![None, None, Some(1), Some(2)]);
}

#[test]
fn tracks_of_one_index_stay_in_the_order_of_their_arrival() {
    let mut album = Album::new("Blue", vec![]);
    album.add_song(song_of(Some("Blue"), "b", Some(1)));
    album.add_song(song_of(Some("Blue"), "c", Some(2)));
    album.add_song(song_of(Some("Blue"), "a", Some(1)));
    assert_eq!(titles(album.get_songs()), vec!["b", "a", "c"]);
}

#[test]
fn adding_a_track_twice_adds_it_once() {
    let mut album = Album::new("Blue", vec![]);
    album.add_song(song_of(Some("Blue"), "one", Some(1)));
    album.add_song(song_of(Some("Blue"), "two", Some(2)));
    album.add_song(song_of(Some("Blue"), "one", Some(1)));
    assert_eq!(titles(album.get_songs()), vec!["one", "two"]);
}

#[test]
fn new_puts_the_given_tracks_in_order_and_drops_repeats() {
    let album = Album::new(
        "Blue",
        vec![
            song_of(Some("Blue"), "two", Some(2)),
            song_of(Some("Blue"), "bare", None),
            song_of(Some("Blue"), "two", Some(2)),
            song_of(Some("Blue"), "one", Some(1)),
        ],
    );
    assert_eq!(titles(album.get_songs()), vec!["bare", "one", "two"]);
    assert_eq!(album.title(), "Blue");
}

#[test]
fn union_adds_the_tracks_of_the_other_album() {
    let left = Album::new(
        "Blue",
        vec![song_of(Some("Blue"), "one", Some(1)), song_of(Some("Blue"), "three", Some(3))],
    );
    let right = Album::new(
        "Other",
        vec![song_of(Some("Blue"), "two", Some(2)), song_of(Some("Blue"), "one", Some(1))],
    );
    let both = left.union(right);
    assert_eq!(both.title(), "Blue");
    assert_eq!(titles(both.get_songs()), vec!["one", "two", "three"]);
}

#[test]
fn from_song_makes_the_album_that_the_track_names() {
    let album = Album::from_song(song_of(Some("Blue"), "one", Some(1))).unwrap();
    assert_eq!(album.title(), "Blue");
    assert_eq!(album.get_songs(), &vec![song_of(Some("Blue"), "one", Some(1))]);
}

#[test]
fn from_song_makes_nothing_of_a_track_without_album() {
    assert!(Album::from_song(song_of(None, "one", Some(1))).is_none());
}

#[test]
fn the_picture_of_an_album_is_that_of_its_first_track() {
    let mut album = Album::new("Blue", vec![]);
    assert_eq!(album.get_picture(), &Picture::Placeholder);
    album.add_song(song_of(Some("Blue"), "two", Some(2)));
    assert_eq!(album.get_picture(), &Picture::Embedded(b"two".to_vec()));
    album.add_song(song_of(Some("Blue"), "one", Some(1)));
    assert_eq!(album.get_picture(), &Picture::Embedded(b"one".to_vec()));
}

#[test]
fn get_song_index_finds_a_track_of_the_album() {
    let album = Album::new(
        "Blue",
        vec![
            song_of(Some("Blue"), "two", Some(2)),
            song_of(Some("Blue"), "one", Some(1)),
            song_of(Some("Blue"), "three", Some(3)),
        ],
    );
    assert_eq!(album.get_song_index(&song_of(Some("Blue"), "one", Some(1))), Some(0));
    assert_eq!(album.get_song_index(&song_of(Some("Blue"), "two", Some(2))), Some(1));
    assert_eq!(album.get_song_index(&song_of(Some("Blue"), "three", Some(3))), Some(2));
    assert_eq!(album.get_song_index(&song_of(Some("Blue"), "three", Some(4))), None);
}

#[test]
fn a_copy_of_an_album_holds_the_same_tracks() {
    let album = Album::new(
        "Blue",
        vec![song_of(Some("Blue"), "two", Some(2)), song_of(Some("Blue"), "one", Some(1))],
    );
    let copy = album.clone();
    assert_eq!(copy.title(), album.title());
    assert_eq!(copy.get_songs(), album.get_songs());
    assert_eq!(titles(&copy.into_songs()), vec!["one", "two"]);
}

#[test]
fn an_empty_catalogue_has_no_albums() {
    let library = AlbumsLibrary::default();
    assert!(library.get_albums().is_empty());
    assert_eq!(library.show_album(), &None);
    assert!(library.tracks_in_album("Blue").is_empty());
}

#[test]
fn files_are_grouped_by_the_album_they_name() {
    let mut library = AlbumsLibrary::default();
    library.add_file(Ok(song_of(Some("Blue"), "b2", Some(2))));
    library.add_file(Ok(song_of(Some("Green"), "g1", Some(1))));
    library.add_file(Ok(song_of(Some("Blue"), "b1", Some(1))));
    assert_eq!(album_titles(&library), vec!["Blue", "Green"]);
    assert_eq!(titles(&library.tracks_in_album("Blue")), vec!["b1", "b2"]);
    assert_eq!(titles(&library.tracks_in_album("Green")), vec!["g1"]);
}

#[test]
fn albums_stand_in_the_order_of_their_titles() {
    let mut library = AlbumsLibrary::default();
    for title in ["Zebra", "apple", "Blue", "Ärger", "Blue Train", "Apple"] {
        library.add_file(Ok(song_of(Some(title), title, Some(1))));
    }
    assert_eq!(
        album_titles(&library),
        vec!["Apple", "Blue", "Blue Train", "Zebra", "apple", "Ärger"]
    );
    library.add_file(Ok(song_of(Some("Blue"), "second", Some(2))));
    assert_eq!(
        album_titles(&library),
        vec!["Apple", "Blue", "Blue Train", "Zebra", "apple", "Ärger"]
    );
    assert_eq!(titles(&library.tracks_in_album("Blue")), vec!["Blue", "second"]);
}

#[test]
fn get_album_finds_an_album_by_its_title() {
    let mut library = AlbumsLibrary::default();
    library.add_file(Ok(song_of(Some("Green"), "g1", Some(1))));
    library.add_file(Ok(song_of(Some("Blue"), "b1", Some(1))));
    let album = library.get_album("Green").unwrap();
    assert_eq!(album.title(), "Green");
    assert_eq!(titles(album.get_songs()), vec!["g1"]);
    assert_eq!(library.get_album("Blue").unwrap().title(), "Blue");
    assert!(library.get_album("Red").is_none());
    assert!(library.get_album("Gree").is_none());
}

#[test]
fn an_unknown_album_has_no_tracks() {
    let mut library = AlbumsLibrary::default();
    library.add_file(Ok(song_of(Some("Blue"), "b1", Some(1))));
    assert!(library.tracks_in_album("Red").is_empty());
    assert!(library.tracks_in_album("blue").is_empty());
    assert!(library.tracks_in_album("").is_empty());
}

#[test]
fn taking_in_the_same_track_twice_changes_nothing() {
    let mut library = AlbumsLibrary::default();
    library.add_file(Ok(song_of(Some("Blue"), "b1", Some(1))));
    library.add_file(Ok(song_of(Some("Green"), "g1", Some(1))));
    library.add_file(Ok(song_of(Some("Blue"), "b1", Some(1))));
    library.add_file(Ok(song_of(Some("Green"), "g1", Some(1))));
    assert_eq!(album_titles(&library), vec!["Blue", "Green"]);
    assert_eq!(titles(&library.tracks_in_album("Blue")), vec!["b1"]);
    assert_eq!(titles(&library.tracks_in_album("Green")), vec!["g1"]);
}

#[test]
fn a_changed_tag_makes_a_second_track_of_the_same_file() {
    let mut library = AlbumsLibrary::default();
    let before = song_of(Some("Blue"), "b1", Some(1));
    let mut after = song_of(Some("Blue"), "b1", Some(1));
    after.genre = Some("Jazz".to_string());
    library.add_file(Ok(before));
    library.add_file(Ok(after));
    assert_eq!(library.tracks_in_album("Blue").len(), 2);
}

#[test]
fn failures_and_tracks_without_album_leave_no_trace() {
    let mut library = AlbumsLibrary::default();
    library.add_file(Err(ExtractionError::Unreadable));
    library.add_file(Err(ExtractionError::MissingTag));
    library.add_file(Err(ExtractionError::BadFileName));
    library.add_file(Ok(song_of(None, "loose", Some(1))));
    assert!(library.get_albums().is_empty());
    library.add_file(Ok(song_of(Some("Blue"), "b1", Some(1))));
    library.add_file(Err(ExtractionError::Unreadable));
    assert_eq!(album_titles(&library), vec!["Blue"]);
    assert_eq!(titles(&library.tracks_in_album("Blue")), vec!["b1"]);
}

#[test]
fn the_order_of_arrival_does_not_change_the_tracks_of_an_album() {
    let files = vec![
        Ok(song_of(Some("Blue"), "b3", Some(3))),
        Err(ExtractionError::Unreadable),
        Ok(song_of(Some("Green"), "g2", Some(2))),
        Ok(song_of(Some("Blue"), "b1", Some(1))),
        Err(ExtractionError::MissingTag),
        Ok(song_of(Some("Green"), "g1", Some(1))),
        Ok(song_of(Some("Blue"), "b2", Some(2))),
    ];
    let mut forward = AlbumsLibrary::default();
    for file in files.iter() {
        forward.add_file(file.clone());
    }
    let mut backward = AlbumsLibrary::default();
    for file in files.iter().rev() {
        backward.add_file(file.clone());
    }
    for library in [&forward, &backward] {
        assert_eq!(album_titles(library), vec!["Blue", "Green"]);
        assert_eq!(titles(&library.tracks_in_album("Blue")), vec!["b1", "b2", "b3"]);
        assert_eq!(titles(&library.tracks_in_album("Green")), vec!["g1", "g2"]);
    }
    let found: usize = forward.get_albums().iter().map(|album| album.get_songs().len()).sum();
    assert_eq!(found, files.len() - 2);
}

#[test]
fn add_album_joins_albums_of_one_title() {
    let mut library = AlbumsLibrary::default();
    library.add_album(Album::new(
        "Blue",
        vec![song_of(Some("Blue"), "b1", Some(1)), song_of(Some("Blue"), "b3", Some(3))],
    ));
    library.add_album(Album::new("Green", vec![song_of(Some("Green"), "g1", Some(1))]));
    library.add_album(Album::new("Amber", vec![]));
    library.add_album(Album::new(
        "Blue",
        vec![song_of(Some("Blue"), "b2", Some(2)), song_of(Some("Blue"), "b3", Some(3))],
    ));
    assert_eq!(album_titles(&library), vec!["Amber", "Blue", "Green"]);
    assert_eq!(titles(&library.tracks_in_album("Blue")), vec!["b1", "b2", "b3"]);
    assert_eq!(titles(library.get_albums()[1].get_songs()), vec!["b1", "b2", "b3"]);
    assert!(library.tracks_in_album("Amber").is_empty());
}

#[test]
fn populate_picks_the_regular_files() {
    let entries = vec![
        WalkEntry::Other("/music".to_string()),
        WalkEntry::File("/music/a.mp3".to_string()),
        WalkEntry::Failed,
        WalkEntry::Other("/music/blue".to_string()),
        WalkEntry::Unknown("/music/blue/gone.mp3".to_string()),
        WalkEntry::File("/music/blue/b.flac".to_string()),
    ];
    assert_eq!(AlbumsLibrary::populate(&entries), vec!["/music/a.mp3", "/music/blue/b.flac"]);
    assert!(AlbumsLibrary::populate(&vec![]).is_empty());
}

#[test]
fn a_new_page_is_empty_and_names_the_files_to_read() {
    let entries = vec![
        WalkEntry::File("/music/a.mp3".to_string()),
        WalkEntry::Other("/music/blue".to_string()),
    ];
    let (page, paths) = AlbumsPage::new(&entries);
    assert!(page.library().get_albums().is_empty());
    assert_eq!(page.library().show_album(), &None);
    assert_eq!(paths, vec!["/music/a.mp3"]);
}

#[test]
fn the_page_shows_an_album_and_goes_back() {
    let (mut page, _) = AlbumsPage::new(&vec![]);
    page.update(Message::AlbumsPage(AlbumsPageMessage::ShowAlbum("Blue".to_string())));
    assert_eq!(page.library().show_album(), &Some("Blue".to_string()));
    page.update(Message::AlbumsPage(AlbumsPageMessage::ShowAlbum("Green".to_string())));
    assert_eq!(page.library().show_album(), &Some("Green".to_string()));
    page.update(Message::AlbumsPage(AlbumsPageMessage::BackToAllAlbums));
    assert_eq!(page.library().show_album(), &None);
}

#[test]
fn the_page_takes_in_the_albums_that_arrive() {
    let (mut page, _) = AlbumsPage::new(&vec![]);
    page.update(Message::AlbumsPage(AlbumsPageMessage::ShowAlbum("Blue".to_string())));
    page.update(Message::AlbumsPage(AlbumsPageMessage::Populate(Album::from_song(song_of(
        Some("Blue"),
        "b2",
        Some(2),
    )))));
    page.update(Message::AlbumsPage(AlbumsPageMessage::Populate(None)));
    page.update(Message::AlbumsPage(AlbumsPageMessage::Populate(Album::from_song(song_of(
        Some("Blue"),
        "b1",
        Some(1),
    )))));
    page.update(Message::AlbumsPage(AlbumsPageMessage::Populate(Album::from_song(song_of(
        None,
        "loose",
        None,
    )))));
    assert_eq!(album_titles(page.library()), vec!["Blue"]);
    assert_eq!(titles(&page.library().tracks_in_album("Blue")), vec!["b1", "b2"]);
    assert_eq!(page.library().show_album(), &Some("Blue".to_string()));
}

#[test]
fn the_page_passes_over_other_messages() {
    let (mut page, _) = AlbumsPage::new(&vec![]);
    page.update(Message::AlbumsPage(AlbumsPageMessage::Populate(Album::from_song(song_of(
        Some("Blue"),
        "b1",
        Some(1),
    )))));
    page.update(Message::AlbumsPage(AlbumsPageMessage::PopulateAlbumsLibrary));
    page.update(Message::Player(PlayerMessage::Play));
    page.update(Message::Player(PlayerMessage::PlaySong(song_of(Some("Green"), "g", None))));
    assert_eq!(album_titles(page.library()), vec!["Blue"]);
    assert_eq!(page.library().show_album(), &None);
}
