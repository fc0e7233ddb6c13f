//! The albums of the catalogue: tracks grouped by album title, each album's
//! tracks kept in track order.

use crate::app::Message;
use crate::song::{
    clone_songs, clone_text, extracted_view, views, ExtractionError, Picture, Song, SongView,
};
use crate::song_library::{candidate_files, files, text_views, WalkEntry};
use crate::text::{comes_before, lemma_order_is_total, lemma_order_is_transitive, precedes};
use vstd::prelude::*;
use vstd::seq_lib::to_multiset_contains;

verus! {

/// Whether `songs` stand in track order: no track is followed by one of a
/// lower rank.
pub open spec fn ordered(songs: Seq<SongView>) -> bool {
    forall|i: int, j: int| 0 <= i <= j < songs.len() ==> songs[i].rank() <= songs[j].rank()
}

/// How many tracks at the head of `songs` have a rank of at most `rank`: in
/// an ordered album, the place where a new track of that rank goes, behind
/// the tracks of its own rank that came before it.
pub open spec fn slot(songs: Seq<SongView>, rank: int) -> int
    decreases songs.len(),
{
    if songs.len() == 0 || songs[0].rank() > rank {
        0
    } else {
        1 + slot(songs.drop_first(), rank)
    }
}

/// `songs` once `song` has been added: unchanged where the same track is
/// there already, else with `song` in its slot.
pub open spec fn with_song(songs: Seq<SongView>, song: SongView) -> Seq<SongView> {
    if songs.contains(song) {
        songs
    } else {
        songs.insert(slot(songs, song.rank()), song)
    }
}

/// `songs` once the tracks of `more` have been added, one after the other.
pub open spec fn with_songs(songs: Seq<SongView>, more: Seq<SongView>) -> Seq<SongView>
    decreases more.len(),
{
    if more.len() == 0 {
        songs
    } else {
        with_song(with_songs(songs, more.drop_last()), more.last())
    }
}

/// The slot lies within the album, every track before it has a rank of at
/// most `rank`, and the track at it, if there is one, has a higher rank.
pub proof fn lemma_slot(songs: Seq<SongView>, rank: int)
    ensures
        0 <= slot(songs, rank) <= songs.len(),
        forall|j: int| 0 <= j < slot(songs, rank) ==> songs[j].rank() <= rank,
        slot(songs, rank) < songs.len() ==> songs[slot(songs, rank)].rank() > rank,
    decreases songs.len(),
{
    if songs.len() == 0 || songs[0].rank() > rank {
    } else {
        let rest = songs.drop_first();
        lemma_slot(rest, rank);
        assert forall|j: int| 0 <= j < slot(songs, rank) implies songs[j].rank() <= rank by {
            if j > 0 {
                assert(songs[j] == rest[j - 1]);
            }
        }
        if slot(songs, rank) < songs.len() {
            assert(songs[slot(songs, rank)] == rest[slot(rest, rank)]);
        }
    }
}

/// The slot is the one place `k` with only ranks of at most `rank` before it
/// and a higher rank at it.
pub proof fn lemma_slot_is(songs: Seq<SongView>, rank: int, k: int)
    requires
        0 <= k <= songs.len(),
        forall|j: int| 0 <= j < k ==> songs[j].rank() <= rank,
        k < songs.len() ==> songs[k].rank() > rank,
    ensures
        slot(songs, rank) == k,
    decreases songs.len(),
{
    if k > 0 {
        let rest = songs.drop_first();
        assert(songs[0].rank() <= rank);
        assert forall|j: int| 0 <= j < k - 1 implies rest[j].rank() <= rank by {
            assert(rest[j] == songs[j + 1]);
        }
        if k - 1 < rest.len() {
            assert(rest[k - 1] == songs[k]);
        }
        lemma_slot_is(rest, rank, k - 1);
    }
}

/// Adding a track keeps an album in track order and free of repeats, and the
/// track is in it afterwards: adding it a second time changes nothing.
pub proof fn lemma_with_song(songs: Seq<SongView>, song: SongView)
    requires
        ordered(songs),
        songs.no_duplicates(),
    ensures
        ordered(with_song(songs, song)),
        with_song(songs, song).no_duplicates(),
        with_song(songs, song).contains(song),
        with_song(with_song(songs, song), song) == with_song(songs, song),
        forall|other: SongView|
            with_song(songs, song).contains(other) <==> (songs.contains(other) || other == song),
{
    let after = with_song(songs, song);
    if songs.contains(song) {
    } else {
        let k = slot(songs, song.rank());
        lemma_slot(songs, song.rank());
        assert(after[k] == song);
        assert forall|i: int, j: int| 0 <= i <= j < after.len() implies after[i].rank()
            <= after[j].rank() by {
            if j < k {
                assert(after[i] == songs[i] && after[j] == songs[j]);
            } else if j == k {
                if i < k {
                    assert(after[i] == songs[i]);
                }
            } else {
                assert(after[j] == songs[j - 1]);
                assert(songs[k].rank() <= songs[j - 1].rank());
                if i < k {
                    assert(after[i] == songs[i]);
                } else if i > k {
                    assert(after[i] == songs[i - 1]);
                }
            }
        }
        assert forall|i: int, j: int| 0 <= i < after.len() && 0 <= j < after.len() && i != j implies after[i]
            != after[j] by {
            let a = if i < k { i } else { i - 1 };
            let b = if j < k { j } else { j - 1 };
            if i != k {
                assert(after[i] == songs[a]);
                assert(songs.contains(songs[a]));
            }
            if j != k {
                assert(after[j] == songs[b]);
                assert(songs.contains(songs[b]));
            }
        }
        assert forall|other: SongView| after.contains(other) <==> (songs.contains(other) || other
            == song) by {
            if after.contains(other) {
                let i = choose|i: int| 0 <= i < after.len() && after[i] == other;
                if i < k {
                    assert(songs[i] == other);
                } else if i > k {
                    assert(songs[i - 1] == other);
                }
            }
            if songs.contains(other) {
                let i = choose|i: int| 0 <= i < songs.len() && songs[i] == other;
                if i < k {
                    assert(after[i] == other);
                } else {
                    assert(after[i + 1] == other);
                }
            }
        }
    }
}

/// Adding tracks one after the other keeps an album in track order and free
/// of repeats, and it then holds its old tracks and the new ones, no others.
pub proof fn lemma_with_songs(songs: Seq<SongView>, more: Seq<SongView>)
    requires
        ordered(songs),
        songs.no_duplicates(),
    ensures
        ordered(with_songs(songs, more)),
        with_songs(songs, more).no_duplicates(),
        forall|other: SongView|
            with_songs(songs, more).contains(other) <==> (songs.contains(other) || more.contains(
                other,
            )),
    decreases more.len(),
{
    if more.len() > 0 {
        let before = with_songs(songs, more.drop_last());
        lemma_with_songs(songs, more.drop_last());
        lemma_with_song(before, more.last());
        assert forall|other: SongView|
            with_songs(songs, more).contains(other) <==> (songs.contains(other) || more.contains(
                other,
            )) by {
            if more.contains(other) {
                let i = choose|i: int| 0 <= i < more.len() && more[i] == other;
                if i < more.len() - 1 {
                    assert(more.drop_last()[i] == other);
                }
            }
            if more.drop_last().contains(other) {
                let i = choose|i: int| 0 <= i < more.drop_last().len() && more.drop_last()[i] == other;
                assert(more[i] == other);
            }
            assert(more[more.len() - 1] == more.last());
        }
    }
}

/// Adding the tracks of a one-track album is adding that track.
pub proof fn lemma_with_songs_single(songs: Seq<SongView>, song: SongView)
    ensures
        with_songs(songs, seq![song]) == with_song(songs, song),
{
    let more = seq![song];
    assert(more.drop_last() =~= Seq::<SongView>::empty());
    assert(more.last() == song);
    assert(with_songs(songs, more.drop_last()) == songs);
}

/// Puts `song` into `songs` unless the same track is there already.
fn insert_song(songs: &mut Vec<Song>, song: Song)
    requires
        ordered(views(old(songs)@)),
        views(old(songs)@).no_duplicates(),
    ensures
        views(final(songs)@) == with_song(views(old(songs)@), song@),
        ordered(views(final(songs)@)),
        views(final(songs)@).no_duplicates(),
{
    let ghost before = views(songs@);
    proof {
        lemma_with_song(before, song@);
    }
    let mut i: usize = 0;
    while i < songs.len()
        invariant
            i <= songs.len(),
            views(songs@) == before,
            ordered(before),
            before.no_duplicates(),
            forall|j: int| 0 <= j < i ==> before[j] != song@,
        decreases songs.len() - i,
    {
        if songs[i] == song {
            assert(before[i as int] == song@);
            return;
        }
        i += 1;
    }
    assert(!before.contains(song@));
    let mut k: usize = 0;
    while k < songs.len() && songs[k] <= song
        invariant
            k <= songs.len(),
            views(songs@) == before,
            forall|j: int| 0 <= j < k ==> before[j].rank() <= song@.rank(),
        decreases songs.len() - k,
    {
        assert(before[k as int] == songs@[k as int]@);
        k += 1;
    }
    proof {
        if k < songs.len() {
            assert(before[k as int] == songs@[k as int]@);
        }
        lemma_slot_is(before, song@.rank(), k as int);
    }
    let ghost added = song@;
    songs.insert(k, song);
    assert(views(songs@) =~= before.insert(k as int, added));
}

/// An album: a title and the tracks that carry it.
///
/// The tracks stand in track order: by index, those without one first, and
/// among tracks of one rank the one added first comes first. No track is in
/// an album twice.
#[derive(Debug)]
pub struct Album {
    title: String,
    placeholder_image: Picture,
    songs: Vec<Song>,
}

/// An album as a mathematical value.
pub struct AlbumView {
    pub title: Seq<char>,
    pub songs: Seq<SongView>,
}

impl View for Album {
    type V = AlbumView;

    closed spec fn view(&self) -> AlbumView {
        AlbumView { title: self.title@, songs: views(self.songs@) }
    }
}

impl Clone for Album {
    fn clone(&self) -> (r: Album)
        ensures
            r@ == self@,
    {
        proof {
            use_type_invariant(self);
        }
        Album {
            title: self.title.clone(),
            placeholder_image: Picture::Placeholder,
            songs: clone_songs(&self.songs),
        }
    }
}

impl Album {
    #[verifier::type_invariant]
    spec fn well_formed(self) -> bool {
        &&& ordered(views(self.songs@))
        &&& views(self.songs@).no_duplicates()
        &&& self.placeholder_image@ is None
    }

    /// The album of the given title that holds `songs`, each added in turn.
    pub fn new(title: &str, songs: Vec<Song>) -> (album: Album)
        ensures
            album@ == (AlbumView {
                title: title@,
                songs: with_songs(Seq::empty(), views(songs@)),
            }),
    {
        let mut kept: Vec<Song> = Vec::new();
        let ghost given = views(songs@);
        let mut songs = songs;
        assert(views(kept@) =~= with_songs(Seq::empty(), given.take(0)));
        let mut i: usize = 0;
        while i < songs.len()
            invariant
                i <= songs.len(),
                given == views(songs@),
                views(kept@) == with_songs(Seq::empty(), given.take(i as int)),
                ordered(views(kept@)),
                views(kept@).no_duplicates(),
            decreases songs.len() - i,
        {
            let song = songs[i].clone();
            insert_song(&mut kept, song);
            proof {
                assert(given.take(i + 1).drop_last() =~= given.take(i as int));
                assert(given.take(i + 1).last() == songs@[i as int]@);
            }
            i += 1;
        }
        assert(given.take(i as int) =~= given);
        Album { title: title.to_owned(), placeholder_image: Picture::Placeholder, songs: kept }
    }

    /// This album with the tracks of `other_album` added to it.
    pub fn union(self, other_album: Album) -> (album: Album)
        ensures
            album@ == (AlbumView {
                title: self@.title,
                songs: with_songs(self@.songs, other_album@.songs),
            }),
    {
        proof {
            use_type_invariant(&self);
        }
        let Album { title, placeholder_image, songs } = self;
        let mut kept = songs;
        let ghost start = views(kept@);
        let ghost given = other_album@.songs;
        assert(views(kept@) =~= with_songs(start, given.take(0)));
        let mut i: usize = 0;
        while i < other_album.songs.len()
            invariant
                i <= other_album.songs.len(),
                given == views(other_album.songs@),
                views(kept@) == with_songs(start, given.take(i as int)),
                ordered(views(kept@)),
                views(kept@).no_duplicates(),
            decreases other_album.songs.len() - i,
        {
            let song = other_album.songs[i].clone();
            insert_song(&mut kept, song);
            proof {
                assert(given.take(i + 1).drop_last() =~= given.take(i as int));
                assert(given.take(i + 1).last() == other_album.songs@[i as int]@);
            }
            i += 1;
        }
        assert(given.take(i as int) =~= given);
        Album { title, placeholder_image, songs: kept }
    }

    /// The album that `song` names, holding that one track; `None` for a
    /// track that names no album.
    pub fn from_song(song: Song) -> (r: Option<Album>)
        ensures
            match song@.album_title {
                None => r is None,
                Some(title) => r matches Some(album) && album@ == (AlbumView {
                    title,
                    songs: seq![song@],
                }),
            },
    {
        let title = match clone_text(&song.album_title) {
            None => {
                return None;
            },
            Some(title) => title,
        };
        let mut songs: Vec<Song> = Vec::new();
        let ghost added = song@;
        songs.push(song);
        assert(views(songs@) =~= seq![added]);
        Some(Album { title, placeholder_image: Picture::Placeholder, songs })
    }

    /// Adds `song` to the album, in its place in track order. A track that
    /// the album already holds is not added again.
    pub fn add_song(&mut self, song: Song)
        ensures
            final(self)@ == (AlbumView {
                title: old(self)@.title,
                songs: with_song(old(self)@.songs, song@),
            }),
    {
        proof {
            use_type_invariant(&*self);
        }
        let mut songs: Vec<Song> = Vec::new();
        std::mem::swap(&mut songs, &mut self.songs);
        insert_song(&mut songs, song);
        self.songs = songs;
    }

    /// The title of the album.
    pub fn title(&self) -> (title: &String)
        ensures
            title@ == self@.title,
    {
        &self.title
    }

    /// The tracks of the album, in track order and without repeats.
    pub fn get_songs(&self) -> (songs: &Vec<Song>)
        ensures
            views(songs@) == self@.songs,
            ordered(self@.songs),
            self@.songs.no_duplicates(),
    {
        proof {
            use_type_invariant(self);
        }
        &self.songs
    }

    /// The tracks of the album, given away.
    pub fn into_songs(self) -> (songs: Vec<Song>)
        ensures
            views(songs@) == self@.songs,
            ordered(self@.songs),
            self@.songs.no_duplicates(),
    {
        proof {
            use_type_invariant(&self);
        }
        self.songs
    }

    /// Where `song` stands in the album; `None` where the album does not
    /// hold it.
    pub fn get_song_index(&self, song: &Song) -> (r: Option<usize>)
        ensures
            match r {
                Some(i) => i < self@.songs.len() && self@.songs[i as int] == song@,
                None => !self@.songs.contains(song@),
            },
    {
        let mut i: usize = 0;
        while i < self.songs.len()
            invariant
                i <= self.songs.len(),
                forall|j: int| 0 <= j < i ==> views(self.songs@)[j] != song@,
            decreases self.songs.len() - i,
        {
            if self.songs[i] == *song {
                return Some(i);
            }
            i += 1;
        }
        None
    }

    /// The picture that stands for the album: that of its first track, or
    /// the placeholder where the album has no track.
    pub fn get_picture(&self) -> (picture: &Picture)
        ensures
            picture@ == (if self@.songs.len() > 0 {
                self@.songs[0].picture
            } else {
                None
            }),
    {
        proof {
            use_type_invariant(self);
        }
        if self.songs.len() > 0 {
            &self.songs[0].picture
        } else {
            &self.placeholder_image
        }
    }
}

/// The views of `albums`, in the same order.
pub open spec fn album_views(albums: Seq<Album>) -> Seq<AlbumView> {
    albums.map_values(|album: Album| album@)
}

/// Whether `albums` stand in the order of their titles. No two of them then
/// share a title.
pub open spec fn titles_ascend(albums: Seq<AlbumView>) -> bool {
    forall|i: int, j: int|
        0 <= i < j < albums.len() ==> precedes(albums[i].title, albums[j].title)
}

/// Whether `albums` are in order as a catalogue: they stand in the order of
/// their titles, and each has its tracks in track order, none of them
/// twice.
pub open spec fn in_order(albums: Seq<AlbumView>) -> bool {
    &&& titles_ascend(albums)
    &&& forall|i: int|
        0 <= i < albums.len() ==> ordered((#[trigger] albums[i]).songs)
            && albums[i].songs.no_duplicates()
}

/// How many albums at the head of `albums` have a title that stands before
/// `title`: in a catalogue, the place where a new album of that title goes.
pub open spec fn title_slot(albums: Seq<AlbumView>, title: Seq<char>) -> int
    decreases albums.len(),
{
    if albums.len() == 0 || !precedes(albums[0].title, title) {
        0
    } else {
        1 + title_slot(albums.drop_first(), title)
    }
}

/// Whether the album of the given title holds `song`.
pub open spec fn holds(albums: Seq<AlbumView>, title: Seq<char>, song: SongView) -> bool {
    tracks_of(albums, title).contains(song)
}

/// Whether the outcome of an extraction is a track that names the album of
/// the given title.
pub open spec fn names(extraction: Result<SongView, ExtractionError>, title: Seq<char>) -> bool {
    extraction matches Ok(song) && song.album_title == Some(title)
}

/// Whether one of the outcomes is a track that names the album of the given
/// title.
pub open spec fn named(
    extractions: Seq<Result<SongView, ExtractionError>>,
    title: Seq<char>,
) -> bool {
    exists|i: int| 0 <= i < extractions.len() && names(#[trigger] extractions[i], title)
}

/// Where the album of the given title stands among `albums`; `None` where
/// none has that title.
pub open spec fn place_of(albums: Seq<AlbumView>, title: Seq<char>) -> Option<int>
    decreases albums.len(),
{
    if albums.len() == 0 {
        None
    } else if albums[0].title == title {
        Some(0int)
    } else {
        match place_of(albums.drop_first(), title) {
            Some(i) => Some(i + 1),
            None => None,
        }
    }
}

/// The tracks of the album of the given title, in track order; no tracks
/// where no album has that title.
pub open spec fn tracks_of(albums: Seq<AlbumView>, title: Seq<char>) -> Seq<SongView> {
    match place_of(albums, title) {
        Some(i) => albums[i].songs,
        None => Seq::empty(),
    }
}

/// `albums` once `album` has been taken in. Where an album of that title is
/// there already, it gets the tracks of `album` added to its own; else
/// `album` comes in as it is, at the place of its title.
pub open spec fn with_album(albums: Seq<AlbumView>, album: AlbumView) -> Seq<AlbumView> {
    match place_of(albums, album.title) {
        Some(i) => albums.update(
            i,
            AlbumView { title: album.title, songs: with_songs(albums[i].songs, album.songs) },
        ),
        None => albums.insert(title_slot(albums, album.title), album),
    }
}

/// `albums` once the outcome of one extraction has been taken in. A file of
/// which no track could be made, and a track that names no album, change
/// nothing.
pub open spec fn with_file(
    albums: Seq<AlbumView>,
    extraction: Result<SongView, ExtractionError>,
) -> Seq<AlbumView> {
    match extraction {
        Ok(song) => match song.album_title {
            Some(title) => with_album(albums, AlbumView { title, songs: seq![song] }),
            None => albums,
        },
        Err(_) => albums,
    }
}

/// `albums` once the outcomes of a scan have been taken in, in the order in
/// which they arrived.
pub open spec fn with_files(
    albums: Seq<AlbumView>,
    extractions: Seq<Result<SongView, ExtractionError>>,
) -> Seq<AlbumView>
    decreases extractions.len(),
{
    if extractions.len() == 0 {
        albums
    } else {
        with_file(with_files(albums, extractions.drop_last()), extractions.last())
    }
}

/// The mapping from each album title to the tracks of that album.
pub open spec fn mapping(albums: Seq<AlbumView>) -> Map<Seq<char>, Seq<SongView>> {
    Map::new(
        |title: Seq<char>| place_of(albums, title) is Some,
        |title: Seq<char>| tracks_of(albums, title),
    )
}

/// The place found for a title is that of the first album that carries it;
/// no place is found only where no album carries it.
pub proof fn lemma_place_of(albums: Seq<AlbumView>, title: Seq<char>)
    ensures
        match place_of(albums, title) {
            Some(i) => 0 <= i < albums.len() && albums[i].title == title && forall|j: int|
                0 <= j < i ==> albums[j].title != title,
            None => forall|j: int| 0 <= j < albums.len() ==> albums[j].title != title,
        },
    decreases albums.len(),
{
    if albums.len() > 0 && albums[0].title != title {
        let rest = albums.drop_first();
        lemma_place_of(rest, title);
        match place_of(rest, title) {
            Some(i) => {
                assert(albums[i + 1] == rest[i]);
                assert forall|j: int| 0 <= j < i + 1 implies albums[j].title != title by {
                    if j > 0 {
                        assert(albums[j] == rest[j - 1]);
                    }
                }
            },
            None => {
                assert forall|j: int| 0 <= j < albums.len() implies albums[j].title != title by {
                    if j > 0 {
                        assert(albums[j] == rest[j - 1]);
                    }
                }
            },
        }
    }
}

/// In a catalogue the album of a title stands at the one place where an
/// album has that title.
pub proof fn lemma_place_is(albums: Seq<AlbumView>, title: Seq<char>, i: int)
    requires
        titles_ascend(albums),
        0 <= i < albums.len(),
        albums[i].title == title,
    ensures
        place_of(albums, title) == Some(i),
{
    lemma_place_of(albums, title);
    match place_of(albums, title) {
        Some(k) => {
            if k < i {
                lemma_order_is_total(albums[k].title, albums[i].title);
            } else if i < k {
                lemma_order_is_total(albums[i].title, albums[k].title);
            }
        },
        None => {
            assert(albums[i].title != title);
        },
    }
}

/// Catalogues that agree in their titles, place by place, find every title
/// at the same place.
pub proof fn lemma_places_agree(albums: Seq<AlbumView>, others: Seq<AlbumView>, title: Seq<char>)
    requires
        albums.len() == others.len(),
        forall|j: int| 0 <= j < albums.len() ==> albums[j].title == others[j].title,
    ensures
        place_of(albums, title) == place_of(others, title),
{
    lemma_place_of(albums, title);
    lemma_place_of(others, title);
    match (place_of(albums, title), place_of(others, title)) {
        (Some(x), Some(y)) => {
            if x < y {
                assert(others[x].title == albums[x].title);
            } else if y < x {
                assert(albums[y].title == others[y].title);
            }
        },
        (Some(x), None) => {
            assert(others[x].title == albums[x].title);
        },
        (None, Some(y)) => {
            assert(albums[y].title == others[y].title);
        },
        (None, None) => {},
    }
}

/// The slot of a title lies within the catalogue, every album before it has
/// a title that stands before the title, and the album at it, if there is
/// one, has not.
pub proof fn lemma_title_slot(albums: Seq<AlbumView>, title: Seq<char>)
    ensures
        0 <= title_slot(albums, title) <= albums.len(),
        forall|j: int| 0 <= j < title_slot(albums, title) ==> precedes(albums[j].title, title),
        title_slot(albums, title) < albums.len() ==> !precedes(
            albums[title_slot(albums, title)].title,
            title,
        ),
    decreases albums.len(),
{
    if albums.len() == 0 || !precedes(albums[0].title, title) {
    } else {
        let rest = albums.drop_first();
        lemma_title_slot(rest, title);
        assert forall|j: int| 0 <= j < title_slot(albums, title) implies precedes(
            albums[j].title,
            title,
        ) by {
            if j > 0 {
                assert(albums[j] == rest[j - 1]);
            }
        }
        if title_slot(albums, title) < albums.len() {
            assert(albums[title_slot(albums, title)] == rest[title_slot(rest, title)]);
        }
    }
}

/// The slot of a title is the one place with only titles that stand before
/// the title ahead of it and a title that does not at it.
pub proof fn lemma_title_slot_is(albums: Seq<AlbumView>, title: Seq<char>, k: int)
    requires
        0 <= k <= albums.len(),
        forall|j: int| 0 <= j < k ==> precedes(albums[j].title, title),
        k < albums.len() ==> !precedes(albums[k].title, title),
    ensures
        title_slot(albums, title) == k,
    decreases albums.len(),
{
    if k > 0 {
        let rest = albums.drop_first();
        assert(precedes(albums[0].title, title));
        assert forall|j: int| 0 <= j < k - 1 implies precedes(rest[j].title, title) by {
            assert(rest[j] == albums[j + 1]);
        }
        if k - 1 < rest.len() {
            assert(rest[k - 1] == albums[k]);
        }
        lemma_title_slot_is(rest, title, k - 1);
    }
}

/// Taking in an album keeps a catalogue in order. Afterwards the catalogue
/// has the titles that it had and that of the album, and each of its albums
/// holds what it held, the album of that title also the tracks of the
/// album taken in.
pub proof fn lemma_with_album(albums: Seq<AlbumView>, album: AlbumView)
    requires
        in_order(albums),
        ordered(album.songs),
        album.songs.no_duplicates(),
    ensures
        in_order(with_album(albums, album)),
        forall|title: Seq<char>| #[trigger]
            place_of(with_album(albums, album), title) is Some <==> (place_of(albums, title)
                is Some || title == album.title),
        forall|title: Seq<char>, song: SongView| #[trigger]
            holds(with_album(albums, album), title, song) <==> (holds(albums, title, song) || (
            title == album.title && album.songs.contains(song))),
{
    let after = with_album(albums, album);
    lemma_place_of(albums, album.title);
    match place_of(albums, album.title) {
        Some(i) => {
            lemma_with_songs(albums[i].songs, album.songs);
            assert(ordered(albums[i].songs) && albums[i].songs.no_duplicates());
            assert forall|j: int| 0 <= j < after.len() implies after[j].title
                == albums[j].title by {}
            assert forall|j: int| 0 <= j < after.len() implies ordered(
                (#[trigger] after[j]).songs,
            ) && after[j].songs.no_duplicates() by {
                if j != i {
                    assert(after[j] == albums[j]);
                    assert(ordered(albums[j].songs) && albums[j].songs.no_duplicates());
                }
            }
            assert forall|title: Seq<char>| #[trigger]
                place_of(after, title) is Some <==> (place_of(albums, title) is Some || title
                    == album.title) by {
                lemma_places_agree(albums, after, title);
            }
            assert forall|title: Seq<char>, song: SongView| #[trigger]
                holds(after, title, song) <==> (holds(albums, title, song) || (title
                    == album.title && album.songs.contains(song))) by {
                lemma_places_agree(albums, after, title);
                lemma_place_of(albums, title);
                match place_of(albums, title) {
                    Some(p) => {
                        if p != i {
                            assert(after[p] == albums[p]);
                        }
                    },
                    None => {},
                }
            }
        },
        None => {
            let k = title_slot(albums, album.title);
            lemma_title_slot(albums, album.title);
            assert(after[k] == album);
            assert forall|j: int| k <= j < albums.len() implies precedes(
                album.title,
                albums[j].title,
            ) by {
                assert(albums[k].title != album.title);
                lemma_order_is_total(albums[k].title, album.title);
                if j > k {
                    lemma_order_is_transitive(album.title, albums[k].title, albums[j].title);
                }
            }
            assert forall|i: int, j: int| 0 <= i < j < after.len() implies precedes(
                after[i].title,
                after[j].title,
            ) by {
                if i < k {
                    assert(after[i] == albums[i]);
                } else if i > k {
                    assert(after[i] == albums[i - 1]);
                }
                if j < k {
                    assert(after[j] == albums[j]);
                } else if j > k {
                    assert(after[j] == albums[j - 1]);
                }
            }
            assert forall|j: int| 0 <= j < after.len() implies ordered(
                (#[trigger] after[j]).songs,
            ) && after[j].songs.no_duplicates() by {
                if j < k {
                    assert(after[j] == albums[j]);
                    assert(ordered(albums[j].songs) && albums[j].songs.no_duplicates());
                } else if j > k {
                    assert(after[j] == albums[j - 1]);
                    assert(ordered(albums[j - 1].songs) && albums[j - 1].songs.no_duplicates());
                }
            }
            lemma_place_is(after, album.title, k);
            assert forall|title: Seq<char>|
                title != album.title implies #[trigger] place_of(after, title) is Some
                <==> place_of(albums, title) is Some by {
                lemma_place_of(albums, title);
                lemma_place_of(after, title);
                match place_of(albums, title) {
                    Some(p) => {
                        let q = if p < k {
                            p
                        } else {
                            p + 1
                        };
                        assert(after[q] == albums[p]);
                        lemma_place_is(after, title, q);
                    },
                    None => {
                        if place_of(after, title) is Some {
                            let q = place_of(after, title)->0;
                            if q < k {
                                assert(after[q] == albums[q]);
                            } else if q > k {
                                assert(after[q] == albums[q - 1]);
                            }
                        }
                    },
                }
            }
            assert forall|title: Seq<char>, song: SongView| #[trigger]
                holds(after, title, song) <==> (holds(albums, title, song) || (title
                    == album.title && album.songs.contains(song))) by {
                if title == album.title {
                    assert(tracks_of(albums, title) =~= Seq::<SongView>::empty());
                } else {
                    lemma_place_of(albums, title);
                    lemma_place_of(after, title);
                    assert(place_of(after, title) is Some <==> place_of(albums, title) is Some);
                    match place_of(albums, title) {
                        Some(p) => {
                            let q = if p < k {
                                p
                            } else {
                                p + 1
                            };
                            assert(after[q] == albums[p]);
                            lemma_place_is(after, title, q);
                        },
                        None => {},
                    }
                }
            }
        },
    }
}

/// Taking in the outcome of one extraction keeps a catalogue in order.
/// Afterwards the catalogue has the titles that it had and the one that the
/// track names, each album holds what it held, and the album that the track
/// names holds the track.
pub proof fn lemma_with_file(albums: Seq<AlbumView>, extraction: Result<SongView, ExtractionError>)
    requires
        in_order(albums),
    ensures
        in_order(with_file(albums, extraction)),
        forall|title: Seq<char>| #[trigger]
            place_of(with_file(albums, extraction), title) is Some <==> (place_of(albums, title)
                is Some || names(extraction, title)),
        forall|title: Seq<char>, song: SongView| #[trigger]
            holds(with_file(albums, extraction), title, song) <==> (holds(albums, title, song) || (
            extraction == Ok::<SongView, ExtractionError>(song) && song.album_title == Some(
                title,
            ))),
{
    match extraction {
        Ok(found) => match found.album_title {
            Some(named) => {
                let single = AlbumView { title: named, songs: seq![found] };
                assert(seq![found][0] == found);
                lemma_with_album(albums, single);
                assert forall|title: Seq<char>| #[trigger]
                    place_of(with_file(albums, extraction), title) is Some <==> (place_of(
                        albums,
                        title,
                    ) is Some || names(extraction, title)) by {
                    assert(place_of(with_album(albums, single), title) is Some <==> (place_of(
                        albums,
                        title,
                    ) is Some || title == single.title));
                }
                assert forall|title: Seq<char>, song: SongView| #[trigger]
                    holds(with_file(albums, extraction), title, song) <==> (holds(
                        albums,
                        title,
                        song,
                    ) || (extraction == Ok::<SongView, ExtractionError>(song) && song.album_title
                        == Some(title))) by {
                    assert(holds(with_album(albums, single), title, song) <==> (holds(
                        albums,
                        title,
                        song,
                    ) || (title == single.title && single.songs.contains(song))));
                    if single.songs.contains(song) {
                        let i = choose|i: int| 0 <= i < single.songs.len() && single.songs[i] == song;
                        assert(song == found);
                    }
                }
            },
            None => {},
        },
        Err(_) => {},
    }
}

/// After the outcomes of a scan have been taken in, the catalogue is in
/// order, and each album holds what it held before and the tracks among
/// the successes that name it.
pub proof fn lemma_with_files(
    albums: Seq<AlbumView>,
    extractions: Seq<Result<SongView, ExtractionError>>,
)
    requires
        in_order(albums),
    ensures
        in_order(with_files(albums, extractions)),
        forall|title: Seq<char>| #[trigger]
            place_of(with_files(albums, extractions), title) is Some <==> (place_of(
                albums,
                title,
            ) is Some || named(extractions, title)),
        forall|title: Seq<char>, song: SongView| #[trigger]
            holds(with_files(albums, extractions), title, song) <==> (holds(albums, title, song)
                || (extractions.contains(Ok(song)) && song.album_title == Some(title))),
    decreases extractions.len(),
{
    if extractions.len() == 0 {
        assert forall|title: Seq<char>| !named(extractions, title) by {}
    } else {
        let earlier = extractions.drop_last();
        let before = with_files(albums, earlier);
        lemma_with_files(albums, earlier);
        lemma_with_file(before, extractions.last());
        let after = with_files(albums, extractions);
        assert forall|title: Seq<char>| #[trigger]
            place_of(after, title) is Some <==> (place_of(albums, title) is Some || named(
                extractions,
                title,
            )) by {
            assert(place_of(after, title) is Some <==> (place_of(before, title) is Some || names(
                extractions.last(),
                title,
            )));
            assert(place_of(before, title) is Some <==> (place_of(albums, title) is Some || named(
                earlier,
                title,
            )));
            if named(earlier, title) {
                let i = choose|i: int| 0 <= i < earlier.len() && names(#[trigger] earlier[i], title);
                assert(extractions[i] == earlier[i]);
            }
            if names(extractions.last(), title) {
                assert(extractions[extractions.len() - 1] == extractions.last());
            }
            if named(extractions, title) {
                let i = choose|i: int|
                    0 <= i < extractions.len() && names(#[trigger] extractions[i], title);
                if i < extractions.len() - 1 {
                    assert(earlier[i] == extractions[i]);
                }
            }
        }
        assert forall|title: Seq<char>, song: SongView| #[trigger]
            holds(after, title, song) <==> (holds(albums, title, song) || (extractions.contains(
                Ok(song),
            ) && song.album_title == Some(title))) by {
            let wanted = Ok::<SongView, ExtractionError>(song);
            assert(holds(after, title, song) <==> (holds(before, title, song) || (
            extractions.last() == wanted && song.album_title == Some(title))));
            assert(holds(before, title, song) <==> (holds(albums, title, song) || (
            earlier.contains(wanted) && song.album_title == Some(title))));
            if earlier.contains(wanted) {
                let i = choose|i: int| 0 <= i < earlier.len() && earlier[i] == wanted;
                assert(extractions[i] == wanted);
            }
            if extractions.last() == wanted {
                assert(extractions[extractions.len() - 1] == wanted);
            }
            if extractions.contains(wanted) {
                let i = choose|i: int| 0 <= i < extractions.len() && extractions[i] == wanted;
                if i < extractions.len() - 1 {
                    assert(earlier[i] == wanted);
                }
            }
        }
    }
}

/// The order in which the outcomes of a scan arrive does not matter to
/// which albums the catalogue has in the end, nor to which tracks each of
/// them holds. (It matters only to the order, within an album, of tracks of
/// one rank.)
pub proof fn lemma_albums_whatever_the_arrival_order(
    albums: Seq<AlbumView>,
    extractions: Seq<Result<SongView, ExtractionError>>,
    reordered: Seq<Result<SongView, ExtractionError>>,
)
    requires
        in_order(albums),
        extractions.to_multiset() == reordered.to_multiset(),
    ensures
        mapping(with_files(albums, extractions)).dom() == mapping(
            with_files(albums, reordered),
        ).dom(),
        forall|title: Seq<char>|
            mapping(with_files(albums, extractions)).dom().contains(title) ==> mapping(
                with_files(albums, extractions),
            )[title].to_set() == mapping(with_files(albums, reordered))[title].to_set(),
        forall|title: Seq<char>, song: SongView|
            holds(with_files(albums, extractions), title, song) <==> holds(
                with_files(albums, reordered),
                title,
                song,
            ),
{
    let one = with_files(albums, extractions);
    let other = with_files(albums, reordered);
    lemma_with_files(albums, extractions);
    lemma_with_files(albums, reordered);
    assert forall|title: Seq<char>, song: SongView|
        holds(one, title, song) <==> holds(other, title, song) by {
        let wanted = Ok::<SongView, ExtractionError>(song);
        to_multiset_contains(extractions, wanted);
        to_multiset_contains(reordered, wanted);
    }
    assert forall|title: Seq<char>| named(extractions, title) <==> named(reordered, title) by {
        if named(extractions, title) {
            let i = choose|i: int|
                0 <= i < extractions.len() && names(#[trigger] extractions[i], title);
            to_multiset_contains(extractions, extractions[i]);
            to_multiset_contains(reordered, extractions[i]);
            let j = choose|j: int| 0 <= j < reordered.len() && reordered[j] == extractions[i];
            assert(names(reordered[j], title));
        }
        if named(reordered, title) {
            let i = choose|i: int| 0 <= i < reordered.len() && names(#[trigger] reordered[i], title);
            to_multiset_contains(extractions, reordered[i]);
            to_multiset_contains(reordered, reordered[i]);
            let j = choose|j: int| 0 <= j < extractions.len() && extractions[j] == reordered[i];
            assert(names(extractions[j], title));
        }
    }
    assert forall|title: Seq<char>|
        mapping(one).dom().contains(title) <==> mapping(other).dom().contains(title) by {
        assert(place_of(one, title) is Some <==> (place_of(albums, title) is Some || named(
            extractions,
            title,
        )));
        assert(place_of(other, title) is Some <==> (place_of(albums, title) is Some || named(
            reordered,
            title,
        )));
    }
    assert(mapping(one).dom() =~= mapping(other).dom());
    assert forall|title: Seq<char>| mapping(one).dom().contains(title) implies mapping(
        one,
    )[title].to_set() == mapping(other)[title].to_set() by {
        assert(mapping(other).dom().contains(title));
        assert forall|song: SongView|
            tracks_of(one, title).to_set().contains(song) <==> tracks_of(
                other,
                title,
            ).to_set().contains(song) by {
            assert(holds(one, title, song) <==> holds(other, title, song));
        }
        assert(tracks_of(one, title).to_set() =~= tracks_of(other, title).to_set());
    }
}

/// Taking in the same track twice leaves the catalogue as it was after the
/// first time.
pub proof fn lemma_with_file_twice(albums: Seq<AlbumView>, song: SongView)
    requires
        in_order(albums),
    ensures
        with_file(with_file(albums, Ok(song)), Ok(song)) == with_file(albums, Ok(song)),
{
    match song.album_title {
        Some(title) => {
            let single = AlbumView { title, songs: seq![song] };
            let once = with_album(albums, single);
            assert(seq![song][0] == song);
            assert(seq![song].contains(song));
            lemma_with_album(albums, single);
            lemma_place_of(albums, title);
            lemma_place_of(once, title);
            let at = place_of(once, title)->0;
            assert(holds(once, title, song));
            lemma_with_songs_single(once[at].songs, song);
            assert(ordered(once[at].songs) && once[at].songs.no_duplicates());
            lemma_with_song(once[at].songs, song);
            assert(with_album(once, single) =~= once);
        },
        None => {},
    }
}

/// Where the album of the given title stands in `albums`.
fn find_album(albums: &Vec<Album>, title: &String) -> (found: Option<usize>)
    ensures
        match found {
            Some(i) => place_of(album_views(albums@), title@) == Some(i as int) && i
                < albums.len(),
            None => place_of(album_views(albums@), title@) is None,
        },
{
    let ghost held = album_views(albums@);
    let mut i: usize = 0;
    while i < albums.len()
        invariant
            i <= albums.len(),
            held == album_views(albums@),
            forall|j: int| 0 <= j < i ==> held[j].title != title@,
        decreases albums.len() - i,
    {
        if albums[i].title == *title {
            proof {
                lemma_place_of(held, title@);
                assert(held[i as int].title == title@);
                let k = place_of(held, title@)->0;
                if k < i {
                    assert(held[k].title != title@);
                }
            }
            return Some(i);
        }
        i += 1;
    }
    proof {
        lemma_place_of(held, title@);
        if place_of(held, title@) is Some {
            let k = place_of(held, title@)->0;
            assert(held[k].title != title@);
        }
    }
    None
}

/// The albums of the catalogue, and which of them is on show.
///
/// The albums stand in the order of their titles, and no two of them share
/// a title.
#[derive(Debug)]
pub struct AlbumsLibrary {
    albums: Vec<Album>,
    show_album: Option<String>,
}

/// The albums of the catalogue as a mathematical value.
pub struct AlbumsLibraryView {
    pub albums: Seq<AlbumView>,
    /// The title of the album on show; `None` while all albums are.
    pub show_album: Option<Seq<char>>,
}

impl View for AlbumsLibrary {
    type V = AlbumsLibraryView;

    closed spec fn view(&self) -> AlbumsLibraryView {
        AlbumsLibraryView {
            albums: album_views(self.albums@),
            show_album: self.show_album.deep_view(),
        }
    }
}

impl AlbumsLibrary {
    #[verifier::type_invariant]
    spec fn well_formed(self) -> bool {
        in_order(album_views(self.albums@))
    }

    /// A catalogue without albums, all albums on show.
    pub fn default() -> (library: AlbumsLibrary)
        ensures
            library@ == (AlbumsLibraryView { albums: Seq::empty(), show_album: None }),
    {
        let library = AlbumsLibrary { albums: Vec::new(), show_album: None };
        assert(album_views(library.albums@) =~= Seq::empty());
        library
    }

    /// The albums, in the order of their titles, each with its tracks in
    /// track order and none of them twice.
    pub fn get_albums(&self) -> (albums: &Vec<Album>)
        ensures
            album_views(albums@) == self@.albums,
            in_order(self@.albums),
    {
        proof {
            use_type_invariant(self);
        }
        &self.albums
    }

    /// The files to read among the entries of a walk through the music
    /// directory: one extraction is to be started for each.
    pub fn populate(entries: &Vec<WalkEntry>) -> (paths: Vec<String>)
        ensures
            text_views(paths@) == files(entries@),
    {
        candidate_files(entries)
    }

    /// Takes in the outcome of reading one file: the track goes to the
    /// album that it names. A file of which no track could be made, and a
    /// track that names no album, change nothing.
    pub fn add_file(&mut self, extraction: Result<Song, ExtractionError>)
        ensures
            final(self)@ == (AlbumsLibraryView {
                albums: with_file(old(self)@.albums, extracted_view(extraction)),
                ..old(self)@
            }),
    {
        match extraction {
            Ok(song) => match Album::from_song(song) {
                Some(album) => self.add_album(album),
                None => {},
            },
            Err(_) => {},
        }
    }

    /// Takes in `album`. Where the catalogue has an album of that title, the
    /// tracks of `album` are added to it; else `album` becomes a new album
    /// of the catalogue.
    pub fn add_album(&mut self, album: Album)
        ensures
            final(self)@ == (AlbumsLibraryView {
                albums: with_album(old(self)@.albums, album@),
                ..old(self)@
            }),
    {
        proof {
            use_type_invariant(&*self);
            use_type_invariant(&album);
            lemma_with_album(album_views(self.albums@), album@);
            lemma_place_of(album_views(self.albums@), album@.title);
        }
        let found = find_album(&self.albums, &album.title);
        let mut albums: Vec<Album> = Vec::new();
        std::mem::swap(&mut albums, &mut self.albums);
        let ghost before = album_views(albums@);
        let ghost taken = album@;
        match found {
            Some(i) => {
                let old_album = albums.remove(i);
                let merged = old_album.union(album);
                let ghost merged_view = merged@;
                albums.insert(i, merged);
                assert(album_views(albums@) =~= before.update(i as int, merged_view));
            },
            None => {
                let mut k: usize = 0;
                while k < albums.len() && comes_before(
                    albums[k].title.as_str(),
                    album.title.as_str(),
                )
                    invariant
                        k <= albums.len(),
                        before == album_views(albums@),
                        taken == album@,
                        forall|j: int| 0 <= j < k ==> precedes(before[j].title, taken.title),
                    decreases albums.len() - k,
                {
                    assert(before[k as int].title == albums@[k as int].title@);
                    k += 1;
                }
                proof {
                    if k < albums.len() {
                        assert(before[k as int].title == albums@[k as int].title@);
                    }
                    lemma_title_slot_is(before, taken.title, k as int);
                }
                albums.insert(k, album);
                assert(album_views(albums@) =~= before.insert(k as int, taken));
            },
        }
        self.albums = albums;
    }

    /// The album of the given title; `None` where the catalogue has no album
    /// of that title.
    pub fn get_album(&self, title: &str) -> (album: Option<&Album>)
        ensures
            match album {
                Some(album) => place_of(self@.albums, title@) is Some && album@
                    == self@.albums[place_of(self@.albums, title@)->0],
                None => place_of(self@.albums, title@) is None,
            },
    {
        let wanted = title.to_owned();
        match find_album(&self.albums, &wanted) {
            Some(i) => Some(&self.albums[i]),
            None => None,
        }
    }

    /// The tracks of the album of the given title, in track order; no tracks
    /// where the catalogue has no album of that title.
    pub fn tracks_in_album(&self, title: &str) -> (tracks: Vec<Song>)
        ensures
            views(tracks@) == tracks_of(self@.albums, title@),
            ordered(views(tracks@)),
            views(tracks@).no_duplicates(),
    {
        let wanted = title.to_owned();
        match find_album(&self.albums, &wanted) {
            Some(i) => clone_songs(self.albums[i].get_songs()),
            None => {
                let tracks: Vec<Song> = Vec::new();
                assert(views(tracks@) =~= Seq::empty());
                tracks
            },
        }
    }

    /// The title of the album on show; `None` while all albums are.
    pub fn show_album(&self) -> (title: &Option<String>)
        ensures
            title.deep_view() == self@.show_album,
    {
        &self.show_album
    }
}

/// What the page of albums can be told.
#[derive(Debug)]
pub enum AlbumsPageMessage {
    /// Show the tracks of the album of this title.
    ShowAlbum(String),
    /// The outcome of reading one file has arrived: the album of its track,
    /// or nothing.
    Populate(Option<Album>),
    /// Show all albums again.
    BackToAllAlbums,
    /// The catalogue is to be filled again.
    PopulateAlbumsLibrary,
}

/// The page of albums.
#[derive(Debug)]
pub struct AlbumsPage {
    albums_library: AlbumsLibrary,
}

impl View for AlbumsPage {
    type V = AlbumsLibraryView;

    closed spec fn view(&self) -> AlbumsLibraryView {
        self.albums_library@
    }
}

impl AlbumsPage {
    /// A page without albums, and the files to read among the entries of a
    /// walk through the music directory.
    pub fn new(entries: &Vec<WalkEntry>) -> (made: (AlbumsPage, Vec<String>))
        ensures
            made.0@ == (AlbumsLibraryView { albums: Seq::empty(), show_album: None }),
            text_views(made.1@) == files(entries@),
    {
        (AlbumsPage { albums_library: AlbumsLibrary::default() }, AlbumsLibrary::populate(entries))
    }

    /// The catalogue that the page shows.
    pub fn library(&self) -> (library: &AlbumsLibrary)
        ensures
            library@ == self@,
    {
        &self.albums_library
    }

    /// Takes a message. One for another part of the player changes nothing.
    pub fn update(&mut self, message: Message)
        ensures
            final(self)@ == (match message {
                Message::AlbumsPage(AlbumsPageMessage::ShowAlbum(title)) => AlbumsLibraryView {
                    show_album: Some(title@),
                    ..old(self)@
                },
                Message::AlbumsPage(AlbumsPageMessage::BackToAllAlbums) => AlbumsLibraryView {
                    show_album: None,
                    ..old(self)@
                },
                Message::AlbumsPage(AlbumsPageMessage::Populate(Some(album))) => AlbumsLibraryView {
                    albums: with_album(old(self)@.albums, album@),
                    ..old(self)@
                },
                _ => old(self)@,
            }),
    {
        match message {
            Message::AlbumsPage(AlbumsPageMessage::ShowAlbum(title)) => {
                proof {
                    use_type_invariant(&self.albums_library);
                }
                self.albums_library.show_album = Some(title);
            },
            Message::AlbumsPage(AlbumsPageMessage::BackToAllAlbums) => {
                proof {
                    use_type_invariant(&self.albums_library);
                }
                self.albums_library.show_album = None;
            },
            Message::AlbumsPage(AlbumsPageMessage::Populate(Some(album))) => {
                self.albums_library.add_album(album);
            },
            _ => {},
        }
    }
}

} // verus!
