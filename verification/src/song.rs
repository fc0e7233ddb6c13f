//! Tracks, and how one is made from what a file's tags hold.

use crate::time::Duration;
use std::cmp::Ordering;
use vstd::prelude::*;

verus! {

/// The cover art of a track.
#[derive(Debug, Eq, Hash)]
pub enum Picture {
    /// The picture shown for a track whose file embeds none.
    Placeholder,
    /// The encoded image that the file embeds.
    Embedded(Vec<u8>),
}

impl View for Picture {
    type V = Option<Seq<u8>>;

    open spec fn view(&self) -> Option<Seq<u8>> {
        match self {
            Picture::Placeholder => None,
            Picture::Embedded(data) => Some(data@),
        }
    }
}

impl Clone for Picture {
    fn clone(&self) -> (r: Picture)
        ensures
            r@ == self@,
    {
        match self {
            Picture::Placeholder => Picture::Placeholder,
            Picture::Embedded(data) => Picture::Embedded(clone_bytes(data)),
        }
    }
}

impl PartialEq for Picture {
    fn eq(&self, other: &Picture) -> (r: bool) {
        match (self, other) {
            (Picture::Placeholder, Picture::Placeholder) => true,
            (Picture::Embedded(a), Picture::Embedded(b)) => same_bytes(a, b),
            _ => false,
        }
    }
}

impl vstd::std_specs::cmp::PartialEqSpecImpl for Picture {
    open spec fn obeys_eq_spec() -> bool {
        true
    }

    open spec fn eq_spec(&self, other: &Picture) -> bool {
        self@ == other@
    }
}

/// One playable audio file with the metadata read from it.
#[derive(Debug, Eq, Hash)]
pub struct Song {
    pub title: String,
    pub artist: Option<String>,
    pub album_title: Option<String>,
    pub genre: Option<String>,
    pub year: Option<u32>,
    pub picture: Picture,
    pub path: String,
    pub index: Option<u32>,
    pub duration: Duration,
}

/// A track as a mathematical value: texts as sequences of characters, the
/// picture as its bytes (`None` for the placeholder), the duration in
/// nanoseconds.
pub struct SongView {
    pub title: Seq<char>,
    pub artist: Option<Seq<char>>,
    pub album_title: Option<Seq<char>>,
    pub genre: Option<Seq<char>>,
    pub year: Option<u32>,
    pub picture: Option<Seq<u8>>,
    pub path: Seq<char>,
    pub index: Option<u32>,
    pub duration: nat,
}

impl View for Song {
    type V = SongView;

    open spec fn view(&self) -> SongView {
        SongView {
            title: self.title@,
            artist: self.artist.deep_view(),
            album_title: self.album_title.deep_view(),
            genre: self.genre.deep_view(),
            year: self.year,
            picture: self.picture@,
            path: self.path@,
            index: self.index,
            duration: self.duration@,
        }
    }
}

impl SongView {
    /// The place of a track in its album's order: tracks without an index
    /// come before every indexed one, and tracks that share an index (or the
    /// lack of one) hold the same place.
    pub open spec fn rank(self) -> int {
        rank_of(self.index)
    }
}

/// The place that a track index gives: `-1` without one, else the index.
pub open spec fn rank_of(index: Option<u32>) -> int {
    match index {
        None => -1,
        Some(i) => i as int,
    }
}

/// The views of the tracks of `songs`, in the same order.
pub open spec fn views(songs: Seq<Song>) -> Seq<SongView> {
    songs.map_values(|song: Song| song@)
}

/// A copy of `text`.
pub(crate) fn clone_text(text: &Option<String>) -> (r: Option<String>)
    ensures
        r.deep_view() == text.deep_view(),
{
    match text {
        None => None,
        Some(s) => Some(s.clone()),
    }
}

/// A copy of `bytes`.
fn clone_bytes(bytes: &Vec<u8>) -> (r: Vec<u8>)
    ensures
        r@ == bytes@,
{
    let mut copy: Vec<u8> = Vec::new();
    let mut i: usize = 0;
    while i < bytes.len()
        invariant
            i <= bytes.len(),
            copy@ == bytes@.take(i as int),
        decreases bytes.len() - i,
    {
        copy.push(bytes[i]);
        i += 1;
    }
    copy
}

/// Whether two optional texts are both absent or hold the same characters.
fn same_text(a: &Option<String>, b: &Option<String>) -> (r: bool)
    ensures
        r == (a.deep_view() == b.deep_view()),
{
    match (a, b) {
        (None, None) => true,
        (Some(x), Some(y)) => {
            let same = *x == *y;
            assert(same == (x@ == y@));
            same
        },
        _ => false,
    }
}

/// Whether two optional numbers are both absent or the same number.
fn same_number(a: &Option<u32>, b: &Option<u32>) -> (r: bool)
    ensures
        r == (*a == *b),
{
    match (a, b) {
        (None, None) => true,
        (Some(x), Some(y)) => *x == *y,
        _ => false,
    }
}

/// Whether two byte strings hold the same bytes.
fn same_bytes(a: &Vec<u8>, b: &Vec<u8>) -> (r: bool)
    ensures
        r == (a@ == b@),
{
    if a.len() != b.len() {
        return false;
    }
    let mut i: usize = 0;
    while i < a.len()
        invariant
            i <= a.len(),
            a.len() == b.len(),
            forall|j: int| 0 <= j < i ==> a@[j] == b@[j],
        decreases a.len() - i,
    {
        if a[i] != b[i] {
            return false;
        }
        i += 1;
    }
    assert(a@ =~= b@);
    true
}

impl Clone for Song {
    fn clone(&self) -> (r: Song)
        ensures
            r@ == self@,
    {
        Song {
            title: self.title.clone(),
            artist: clone_text(&self.artist),
            album_title: clone_text(&self.album_title),
            genre: clone_text(&self.genre),
            year: self.year,
            picture: self.picture.clone(),
            path: self.path.clone(),
            index: self.index,
            duration: self.duration,
        }
    }
}

/// A copy of `songs`.
pub(crate) fn clone_songs(songs: &Vec<Song>) -> (r: Vec<Song>)
    ensures
        views(r@) == views(songs@),
{
    let mut copy: Vec<Song> = Vec::new();
    let mut i: usize = 0;
    while i < songs.len()
        invariant
            i <= songs.len(),
            views(copy@) == views(songs@).take(i as int),
        decreases songs.len() - i,
    {
        let song = songs[i].clone();
        let ghost copied = song@;
        copy.push(song);
        assert(views(copy@) =~= views(songs@).take(i as int).push(copied));
        assert(views(copy@) =~= views(songs@).take(i + 1));
        i += 1;
    }
    assert(views(songs@).take(i as int) =~= views(songs@));
    copy
}

/// Two tracks are the same track only if every field matches, the path of
/// the file included.
impl PartialEq for Song {
    fn eq(&self, other: &Song) -> (r: bool) {
        proof {
            use_type_invariant(&self.duration);
            use_type_invariant(&other.duration);
            self.duration.lemma_eq_view(other.duration);
        }
        self.title == other.title && same_text(&self.artist, &other.artist) && same_text(
            &self.album_title,
            &other.album_title,
        ) && same_text(&self.genre, &other.genre) && same_number(&self.year, &other.year)
            && self.picture == other.picture && self.path == other.path && same_number(
            &self.index,
            &other.index,
        ) && self.duration == other.duration
    }
}

impl vstd::std_specs::cmp::PartialEqSpecImpl for Song {
    open spec fn obeys_eq_spec() -> bool {
        true
    }

    open spec fn eq_spec(&self, other: &Song) -> bool {
        self@ == other@
    }
}

/// Why no track could be made of a file.
#[derive(Clone, Copy, Debug, PartialEq, Eq, Structural)]
pub enum ExtractionError {
    /// The file's tags could not be read.
    Unreadable,
    /// The file has no primary tag.
    MissingTag,
    /// The tag has no title, and the file has no name that is text.
    BadFileName,
}

/// The fields of a file's primary tag.
#[derive(Debug)]
pub struct Tags {
    pub title: Option<String>,
    pub artist: Option<String>,
    pub album: Option<String>,
    pub genre: Option<String>,
    pub year: Option<u32>,
    pub track: Option<u32>,
    /// The pictures that the tag embeds, in the tag's order.
    pub pictures: Vec<Vec<u8>>,
}

/// A tag as a mathematical value.
pub struct TagsView {
    pub title: Option<Seq<char>>,
    pub artist: Option<Seq<char>>,
    pub album: Option<Seq<char>>,
    pub genre: Option<Seq<char>>,
    pub year: Option<u32>,
    pub track: Option<u32>,
    pub pictures: Seq<Seq<u8>>,
}

impl View for Tags {
    type V = TagsView;

    open spec fn view(&self) -> TagsView {
        TagsView {
            title: self.title.deep_view(),
            artist: self.artist.deep_view(),
            album: self.album.deep_view(),
            genre: self.genre.deep_view(),
            year: self.year,
            track: self.track,
            pictures: self.pictures@.map_values(|picture: Vec<u8>| picture@),
        }
    }
}

/// What reading the tags of a file gave.
#[derive(Debug)]
pub enum TagReading {
    /// The file could not be read as tagged audio.
    Unreadable,
    /// The file was read.
    Read {
        /// How long the audio plays.
        duration: Duration,
        /// The primary tag, where the file has one.
        primary_tag: Option<Tags>,
    },
}

/// A reading as a mathematical value.
pub enum TagReadingView {
    Unreadable,
    Read { duration: nat, primary_tag: Option<TagsView> },
}

impl View for TagReading {
    type V = TagReadingView;

    open spec fn view(&self) -> TagReadingView {
        match self {
            TagReading::Unreadable => TagReadingView::Unreadable,
            TagReading::Read { duration, primary_tag } => TagReadingView::Read {
                duration: duration@,
                primary_tag: match primary_tag {
                    Some(tags) => Some(tags@),
                    None => None,
                },
            },
        }
    }
}

/// The track that a reading gives for the file at `path` whose name is
/// `file_name`, or why it gives none.
pub open spec fn extraction(
    path: Seq<char>,
    file_name: Option<Seq<char>>,
    reading: TagReadingView,
) -> Result<SongView, ExtractionError> {
    match reading {
        TagReadingView::Unreadable => Err(ExtractionError::Unreadable),
        TagReadingView::Read { duration, primary_tag: None } => Err(ExtractionError::MissingTag),
        TagReadingView::Read { duration, primary_tag: Some(tags) } => {
            let title = if tags.title is Some {
                tags.title
            } else {
                file_name
            };
            match title {
                None => Err(ExtractionError::BadFileName),
                Some(title) => Ok(
                    SongView {
                        title,
                        artist: tags.artist,
                        album_title: tags.album,
                        genre: tags.genre,
                        year: tags.year,
                        picture: if tags.pictures.len() > 0 {
                            Some(tags.pictures[0])
                        } else {
                            None
                        },
                        path,
                        index: tags.track,
                        duration,
                    },
                ),
            }
        },
    }
}

/// What an extraction answered, with the track as a mathematical value.
pub open spec fn extracted_view(answer: Result<Song, ExtractionError>) -> Result<
    SongView,
    ExtractionError,
> {
    match answer {
        Ok(song) => Ok(song@),
        Err(error) => Err(error),
    }
}

/// The last component of `path`: what `std::path::Path::file_name` gives
/// for it, as text. Which part of a path that is depends on the platform's
/// separators, so nothing is stated of the result.
#[verifier::external_body]
fn file_name(path: &String) -> (name: Option<String>) {
    match std::path::Path::new(path.as_str()).file_name() {
        Some(name) => match name.to_str() {
            Some(text) => Some(text.to_string()),
            None => None,
        },
        None => None,
    }
}

/// How two ranks stand to each other.
pub open spec fn rank_order(a: int, b: int) -> Ordering {
    if a < b {
        Ordering::Less
    } else if a == b {
        Ordering::Equal
    } else {
        Ordering::Greater
    }
}

/// Tracks are ordered by their index alone, a track without one before every
/// indexed track. Two tracks of one rank compare as equal whatever else they
/// hold, so this is a weak order: it never fails to compare two tracks.
impl PartialOrd for Song {
    fn partial_cmp(&self, other: &Song) -> (r: Option<Ordering>) {
        Some(self.cmp(other))
    }
}

impl vstd::std_specs::cmp::PartialOrdSpecImpl for Song {
    open spec fn obeys_partial_cmp_spec() -> bool {
        true
    }

    open spec fn partial_cmp_spec(&self, other: &Song) -> Option<Ordering> {
        Some(rank_order(self@.rank(), other@.rank()))
    }
}

impl Song {
    /// A track of the given fields.
    pub fn new(
        title: String,
        artist: Option<String>,
        album_title: Option<String>,
        genre: Option<String>,
        year: Option<u32>,
        picture: Picture,
        path: &str,
        index: Option<u32>,
        duration: Duration,
    ) -> (song: Song)
        ensures
            song@ == (SongView {
                title: title@,
                artist: artist.deep_view(),
                album_title: album_title.deep_view(),
                genre: genre.deep_view(),
                year,
                picture: picture@,
                path: path@,
                index,
                duration: duration@,
            }),
    {
        Song {
            title,
            artist,
            genre,
            album_title,
            year,
            picture,
            path: path.to_owned(),
            index,
            duration,
        }
    }

    /// The track of the file at `path`, from what reading the file's tags
    /// gave. The title is the tag's, or the name of the file where the tag
    /// has none; the picture is the first that the tag embeds, or the
    /// placeholder.
    ///
    /// The name of the file is the last component of `path` as the standard
    /// library's `Path::file_name` finds it, on which this function states
    /// nothing: it states what holds for whatever name, if any, was found.
    /// Where the tag has a title the name plays no part.
    pub fn from_path(path: String, reading: TagReading) -> (r: Result<Song, ExtractionError>)
        ensures
            exists|name: Option<Seq<char>>| extracted_view(r) == extraction(path@, name, reading@),
    {
        let name = file_name(&path);
        Song::from_parts(path, name, reading)
    }

    /// The track of the file at `path`, whose name is `file_name` (`None`
    /// where the path has no last component, or one that is no text), from
    /// what reading the file's tags gave.
    pub fn from_parts(path: String, file_name: Option<String>, reading: TagReading) -> (r: Result<
        Song,
        ExtractionError,
    >)
        ensures
            extracted_view(r) == extraction(path@, file_name.deep_view(), reading@),
    {
        let (duration, primary_tag) = match reading {
            TagReading::Unreadable => {
                return Err(ExtractionError::Unreadable);
            },
            TagReading::Read { duration, primary_tag } => (duration, primary_tag),
        };
        let tags = match primary_tag {
            None => {
                return Err(ExtractionError::MissingTag);
            },
            Some(tags) => tags,
        };
        let ghost given = tags@;
        let Tags { title, artist, album, genre, year, track, pictures } = tags;
        let title = match title {
            Some(title) => title,
            None => match file_name {
                Some(name) => name,
                None => {
                    return Err(ExtractionError::BadFileName);
                },
            },
        };
        let mut pictures = pictures;
        let picture = if pictures.len() > 0 {
            assert(given.pictures[0] == pictures@[0]@);
            Picture::Embedded(pictures.remove(0))
        } else {
            Picture::Placeholder
        };
        Ok(
            Song {
                title,
                artist,
                album_title: album,
                genre,
                year,
                picture,
                path,
                index: track,
                duration,
            },
        )
    }

    /// How this track stands to `other` in an album's order.
    pub fn cmp(&self, other: &Song) -> (r: Ordering)
        ensures
            r == rank_order(self@.rank(), other@.rank()),
    {
        match (self.index, other.index) {
            (None, None) => Ordering::Equal,
            (None, Some(_)) => Ordering::Less,
            (Some(_), None) => Ordering::Greater,
            (Some(a), Some(b)) => {
                if a < b {
                    Ordering::Less
                } else if a == b {
                    Ordering::Equal
                } else {
                    Ordering::Greater
                }
            },
        }
    }
}

} // verus!
