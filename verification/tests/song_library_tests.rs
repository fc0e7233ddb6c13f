use cosmic_pulsar::song::{Picture, Song};
use cosmic_pulsar::song_library::{candidate_files, SongLibrary, WalkEntry};
use cosmic_pulsar::time::Duration;

fn file(number: u32) -> Song {
    Song::new(
        format!("track {}", number),
        None,
        None,
        None,
        None,
        Picture::Placeholder,
        &format!("/music/{}.mp3", number),
        None,
        Duration::from_secs(100),
    )
}

fn sorted_titles(library: &SongLibrary) -> Vec<String> {
    let mut titles: Vec<String> = library.songs().iter().map(|song| song.title.clone()).collect();
    titles.sort();
    titles
}

#[test]
fn an_empty_collection_holds_nothing() {
    let library = SongLibrary::default();
    assert!(library.songs().is_empty());
}

#[test]
fn add_song_keeps_tracks_in_the_order_of_arrival() {
    let mut library = SongLibrary::default();
    library.add_song(file(2));
    library.add_song(file(1));
    library.add_song(file(3));
    assert_eq!(library.songs(), &vec![file(2), file(1), file(3)]);
}

#[test]
fn add_song_twice_keeps_one() {
    let mut library = SongLibrary::default();
    library.add_song(file(1));
    library.add_song(file(2));
    library.add_song(file(1));
    library.add_song(file(2));
    assert_eq!(library.songs(), &vec![file(1), file(2)]);
}

#[test]
fn a_track_that_differs_in_one_field_is_another_track() {
    let mut library = SongLibrary::default();
    let mut changed = file(1);
    changed.year = Some(2001);
    library.add_song(file(1));
    library.add_song(changed);
    assert_eq!(library.songs().len(), 2);
}

#[test]
fn a_failed_extraction_leaves_no_trace() {
    let mut library = SongLibrary::default();
    library.add_outcome(None);
    assert!(library.songs().is_empty());
    library.add_outcome(Some(file(1)));
    library.add_outcome(None);
    assert_eq!(library.songs(), &vec![file(1)]);
}

#[test]
fn as_many_tracks_as_files_did_not_fail() {
    let outcomes = vec![Some(file(1)), None, Some(file(2)), Some(file(3)), None, Some(file(4)), None];
    let mut library = SongLibrary::default();
    for outcome in outcomes.iter() {
        library.add_outcome(outcome.clone());
    }
    assert_eq!(library.songs().len(), 7 - 3);
}

#[test]
fn the_order_of_arrival_does_not_change_what_is_held() {
    let outcomes = vec![Some(file(1)), None, Some(file(2)), Some(file(3)), None, Some(file(4)), None];
    let orders: Vec<Vec<usize>> = vec![
        vec![0, 1, 2, 3, 4, 5, 6],
        vec![6, 5, 4, 3, 2, 1, 0],
        vec![3, 0, 6, 2, 5, 1, 4],
        vec![1, 4, 6, 5, 3, 2, 0],
    ];
    for order in orders {
        let mut library = SongLibrary::default();
        for place in order {
            library.add_outcome(outcomes[place].clone());
        }
        assert_eq!(library.songs().len(), 4);
        assert_eq!(sorted_titles(&library), vec!["track 1", "track 2", "track 3", "track 4"]);
    }
}

#[test]
fn candidate_files_are_the_regular_files_in_walk_order() {
    let entries = vec![
        WalkEntry::File("/music/z.mp3".to_string()),
        WalkEntry::Other("/music/blue".to_string()),
        WalkEntry::Failed,
        WalkEntry::File("/music/blue/a.flac".to_string()),
        WalkEntry::Unknown("/music/blue/gone".to_string()),
        WalkEntry::File("/music/blue/b.ogg".to_string()),
    ];
    let expected = vec!["/music/z.mp3", "/music/blue/a.flac", "/music/blue/b.ogg"];
    assert_eq!(candidate_files(&entries), expected);
    assert_eq!(SongLibrary::populate(&entries), expected);
}

#[test]
fn a_walk_without_files_gives_nothing_to_read() {
    assert!(candidate_files(&vec![]).is_empty());
    let entries = vec![WalkEntry::Failed, WalkEntry::Other("/music".to_string())];
    assert!(SongLibrary::populate(&entries).is_empty());
}
