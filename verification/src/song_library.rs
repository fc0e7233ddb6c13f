//! The collection of every track found, and the choice of the files that a
//! scan reads.

use crate::song::{views, Song, SongView};
use vstd::prelude::*;

verus! {

/// One entry that a walk through a directory came upon.
#[derive(Debug)]
pub enum WalkEntry {
    /// The walk could not read the entry.
    Failed,
    /// An entry of which it could not be found out what it is.
    Unknown(String),
    /// A directory, or anything else that is no regular file once links are
    /// followed.
    Other(String),
    /// A regular file.
    File(String),
}

/// The paths of the regular files among `entries`, in the order of the walk.
/// These are the files that a scan reads: directories are walked through but
/// never read, and an entry that could not be read is passed over.
pub open spec fn files(entries: Seq<WalkEntry>) -> Seq<Seq<char>>
    decreases entries.len(),
{
    if entries.len() == 0 {
        Seq::empty()
    } else {
        let before = files(entries.drop_last());
        match entries.last() {
            WalkEntry::File(path) => before.push(path@),
            _ => before,
        }
    }
}

/// The views of `texts`, in the same order.
pub open spec fn text_views(texts: Seq<String>) -> Seq<Seq<char>> {
    texts.map_values(|text: String| text@)
}

/// The paths of the files to read among the entries of a walk.
pub fn candidate_files(entries: &Vec<WalkEntry>) -> (paths: Vec<String>)
    ensures
        text_views(paths@) == files(entries@),
{
    let mut paths: Vec<String> = Vec::new();
    let mut i: usize = 0;
    assert(entries@.take(0) =~= Seq::empty());
    assert(text_views(paths@) =~= Seq::empty());
    while i < entries.len()
        invariant
            i <= entries.len(),
            text_views(paths@) == files(entries@.take(i as int)),
        decreases entries.len() - i,
    {
        let ghost before = text_views(paths@);
        proof {
            assert(entries@.take(i + 1).drop_last() =~= entries@.take(i as int));
            assert(entries@.take(i + 1).last() == entries@[i as int]);
        }
        match &entries[i] {
            WalkEntry::File(path) => {
                paths.push(path.clone());
                assert(text_views(paths@) =~= before.push(path@));
            },
            _ => {},
        }
        i += 1;
    }
    assert(entries@.take(i as int) =~= entries@);
    paths
}

/// `songs` once `song` has been taken in: unchanged where the same track is
/// there already, else with `song` at the end.
pub open spec fn with_track(songs: Seq<SongView>, song: SongView) -> Seq<SongView> {
    if songs.contains(song) {
        songs
    } else {
        songs.push(song)
    }
}

/// `songs` once the outcomes of a scan have been taken in, in the order in
/// which they arrived. An outcome of `None` is a file of which no track
/// could be made: it leaves no trace.
pub open spec fn with_outcomes(songs: Seq<SongView>, outcomes: Seq<Option<SongView>>) -> Seq<
    SongView,
>
    decreases outcomes.len(),
{
    if outcomes.len() == 0 {
        songs
    } else {
        let before = with_outcomes(songs, outcomes.drop_last());
        match outcomes.last() {
            Some(song) => with_track(before, song),
            None => before,
        }
    }
}

/// How many of `outcomes` are failures.
pub open spec fn failures(outcomes: Seq<Option<SongView>>) -> nat
    decreases outcomes.len(),
{
    if outcomes.len() == 0 {
        0
    } else {
        failures(outcomes.drop_last()) + if outcomes.last() is None {
            1nat
        } else {
            0nat
        }
    }
}

/// Whether no two successes among `outcomes` are the same track.
pub open spec fn successes_differ(outcomes: Seq<Option<SongView>>) -> bool {
    forall|i: int, j: int|
        0 <= i < j < outcomes.len() && outcomes[i] is Some ==> outcomes[i] != outcomes[j]
}

/// Taking in a track a second time changes nothing. After the first time
/// the collection holds what it held before and the track, and still holds
/// no track twice.
pub proof fn lemma_with_track_twice(songs: Seq<SongView>, song: SongView)
    ensures
        with_track(with_track(songs, song), song) == with_track(songs, song),
        with_track(songs, song).contains(song),
        songs.no_duplicates() ==> with_track(songs, song).no_duplicates(),
        forall|other: SongView|
            with_track(songs, song).contains(other) <==> (songs.contains(other) || other == song),
{
    let after = with_track(songs, song);
    if !songs.contains(song) {
        assert(after[songs.len() as int] == song);
        assert forall|other: SongView|
            after.contains(other) <==> (songs.contains(other) || other == song) by {
            if songs.contains(other) {
                let i = choose|i: int| 0 <= i < songs.len() && songs[i] == other;
                assert(after[i] == other);
            }
            if after.contains(other) {
                let i = choose|i: int| 0 <= i < after.len() && after[i] == other;
                if i < songs.len() {
                    assert(songs[i] == other);
                }
            }
        }
    }
}

/// An outcome is among `outcomes` exactly when it is the last of them or
/// among those before the last.
proof fn lemma_last_or_earlier(outcomes: Seq<Option<SongView>>, outcome: Option<SongView>)
    requires
        outcomes.len() > 0,
    ensures
        outcomes.contains(outcome) <==> (outcomes.drop_last().contains(outcome) || outcomes.last()
            == outcome),
{
    let earlier = outcomes.drop_last();
    if earlier.contains(outcome) {
        let i = choose|i: int| 0 <= i < earlier.len() && earlier[i] == outcome;
        assert(outcomes[i] == outcome);
    }
    if outcomes.last() == outcome {
        assert(outcomes[outcomes.len() - 1] == outcome);
    }
    if outcomes.contains(outcome) {
        let i = choose|i: int| 0 <= i < outcomes.len() && outcomes[i] == outcome;
        if i < outcomes.len() - 1 {
            assert(earlier[i] == outcome);
        }
    }
}

/// After the outcomes of a scan have been taken in, the collection holds
/// what it held before and the tracks of the successes, each once.
pub proof fn lemma_with_outcomes(songs: Seq<SongView>, outcomes: Seq<Option<SongView>>)
    requires
        songs.no_duplicates(),
    ensures
        with_outcomes(songs, outcomes).no_duplicates(),
        forall|song: SongView|
            #[trigger] with_outcomes(songs, outcomes).contains(song) <==> (songs.contains(song)
                || outcomes.contains(Some(song))),
    decreases outcomes.len(),
{
    if outcomes.len() > 0 {
        let earlier = outcomes.drop_last();
        let before = with_outcomes(songs, earlier);
        lemma_with_outcomes(songs, earlier);
        let after = with_outcomes(songs, outcomes);
        match outcomes.last() {
            Some(last) => {
                lemma_with_track_twice(before, last);
                assert(after == with_track(before, last));
            },
            None => {
                assert(after == before);
            },
        }
        assert forall|song: SongView|
            after.contains(song) <==> (songs.contains(song) || outcomes.contains(Some(song))) by {
            lemma_last_or_earlier(outcomes, Some(song));
            assert(before.contains(song) <==> (songs.contains(song) || earlier.contains(
                Some(song),
            )));
        }
    }
}

/// Of the files of a scan, each a track of its own where it gives one, the
/// collection holds as many tracks as files did not fail.
pub proof fn lemma_failures_leave_no_trace(outcomes: Seq<Option<SongView>>)
    requires
        successes_differ(outcomes),
    ensures
        with_outcomes(Seq::empty(), outcomes).len() == outcomes.len() - failures(outcomes),
    decreases outcomes.len(),
{
    if outcomes.len() > 0 {
        let earlier = outcomes.drop_last();
        assert forall|i: int, j: int|
            0 <= i < j < earlier.len() && earlier[i] is Some implies earlier[i] != earlier[j] by {
            assert(earlier[i] == outcomes[i] && earlier[j] == outcomes[j]);
        }
        lemma_failures_leave_no_trace(earlier);
        lemma_with_outcomes(Seq::empty(), earlier);
        let before = with_outcomes(Seq::empty(), earlier);
        match outcomes.last() {
            Some(last) => {
                if earlier.contains(Some(last)) {
                    let i = choose|i: int| 0 <= i < earlier.len() && earlier[i] == Some(last);
                    assert(outcomes[i] == earlier[i]);
                    assert(outcomes[outcomes.len() - 1] == outcomes.last());
                    assert(outcomes[i] != outcomes[outcomes.len() - 1]);
                }
                assert(!Seq::<SongView>::empty().contains(last));
                assert(!before.contains(last));
                assert(with_outcomes(Seq::empty(), outcomes) == before.push(last));
            },
            None => {
                assert(with_outcomes(Seq::empty(), outcomes) == before);
            },
        }
    }
}

/// The order in which the outcomes of a scan arrive does not matter to
/// which tracks the collection holds in the end, nor to how many.
pub proof fn lemma_arrival_order_is_immaterial(
    songs: Seq<SongView>,
    outcomes: Seq<Option<SongView>>,
    reordered: Seq<Option<SongView>>,
)
    requires
        songs.no_duplicates(),
        outcomes.to_multiset() == reordered.to_multiset(),
    ensures
        with_outcomes(songs, outcomes).to_set() == with_outcomes(songs, reordered).to_set(),
        with_outcomes(songs, outcomes).len() == with_outcomes(songs, reordered).len(),
{
    let one = with_outcomes(songs, outcomes);
    let other = with_outcomes(songs, reordered);
    lemma_with_outcomes(songs, outcomes);
    lemma_with_outcomes(songs, reordered);
    outcomes.to_multiset_ensures();
    reordered.to_multiset_ensures();
    assert forall|song: SongView| one.contains(song) <==> other.contains(song) by {
        assert(outcomes.contains(Some(song)) <==> outcomes.to_multiset().count(Some(song)) > 0);
        assert(reordered.contains(Some(song)) <==> reordered.to_multiset().count(Some(song)) > 0);
        assert(one.contains(song) <==> (songs.contains(song) || outcomes.contains(Some(song))));
        assert(other.contains(song) <==> (songs.contains(song) || reordered.contains(
            Some(song),
        )));
    }
    assert forall|song: SongView| one.to_set().contains(song) <==> other.to_set().contains(
        song,
    ) by {
        assert(one.to_set().contains(song) <==> one.contains(song));
        assert(other.to_set().contains(song) <==> other.contains(song));
    }
    assert(one.to_set() =~= other.to_set());
    one.unique_seq_to_set();
    other.unique_seq_to_set();
}

/// Every track that the scans have found.
///
/// No track is in the collection twice; the tracks stand in the order in
/// which they were first taken in.
#[derive(Debug)]
pub struct SongLibrary {
    songs: Vec<Song>,
    show_album: Option<String>,
}

/// The collection as a mathematical value.
pub struct SongLibraryView {
    pub songs: Seq<SongView>,
    pub show_album: Option<Seq<char>>,
}

impl View for SongLibrary {
    type V = SongLibraryView;

    closed spec fn view(&self) -> SongLibraryView {
        SongLibraryView { songs: views(self.songs@), show_album: self.show_album.deep_view() }
    }
}

impl SongLibrary {
    #[verifier::type_invariant]
    spec fn well_formed(self) -> bool {
        views(self.songs@).no_duplicates()
    }

    /// The files to read among the entries of a walk through the music
    /// directory: one extraction is to be started for each.
    pub fn populate(entries: &Vec<WalkEntry>) -> (paths: Vec<String>)
        ensures
            text_views(paths@) == files(entries@),
    {
        candidate_files(entries)
    }

    /// Takes `song` into the collection. A track that the collection holds
    /// already is not taken in again.
    pub fn add_song(&mut self, song: Song)
        ensures
            final(self)@ == (SongLibraryView {
                songs: with_track(old(self)@.songs, song@),
                ..old(self)@
            }),
    {
        proof {
            use_type_invariant(&*self);
            lemma_with_track_twice(views(self.songs@), song@);
        }
        let ghost before = views(self.songs@);
        let mut i: usize = 0;
        while i < self.songs.len()
            invariant
                i <= self.songs.len(),
                views(self.songs@) == before,
                forall|j: int| 0 <= j < i ==> before[j] != song@,
            decreases self.songs.len() - i,
        {
            if self.songs[i] == song {
                assert(before[i as int] == song@);
                return;
            }
            i += 1;
        }
        let ghost added = song@;
        let mut songs: Vec<Song> = Vec::new();
        std::mem::swap(&mut songs, &mut self.songs);
        songs.push(song);
        assert(views(songs@) =~= before.push(added));
        self.songs = songs;
    }

    /// Takes in the outcome of one extraction: the track, where there is
    /// one. A failure changes nothing.
    pub fn add_outcome(&mut self, outcome: Option<Song>)
        ensures
            final(self)@ == (SongLibraryView {
                songs: match outcome {
                    Some(song) => with_track(old(self)@.songs, song@),
                    None => old(self)@.songs,
                },
                ..old(self)@
            }),
    {
        match outcome {
            Some(song) => self.add_song(song),
            None => {},
        }
    }

    /// The empty collection.
    pub fn default() -> (library: SongLibrary)
        ensures
            library@ == (SongLibraryView { songs: Seq::empty(), show_album: None }),
    {
        let library = SongLibrary { songs: Vec::new(), show_album: None };
        assert(views(library.songs@) =~= Seq::empty());
        library
    }

    /// The tracks of the collection, none of them twice.
    pub fn songs(&self) -> (songs: &Vec<Song>)
        ensures
            views(songs@) == self@.songs,
            self@.songs.no_duplicates(),
    {
        proof {
            use_type_invariant(self);
        }
        &self.songs
    }
}

} // verus!
