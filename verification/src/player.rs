//! The playback engine: a queue of tracks, a place in it, and the commands
//! by which the audio output is made to follow.
//!
//! The engine never touches the output itself. Each operation changes the
//! engine's own state and returns the commands to carry out on the output, in
//! order; what the output reports (its clock, whether it could make a source
//! of a file) comes back in as plain values.

use crate::page::albums_page::{Album, AlbumView};
use crate::song::{views, Song, SongView};
use crate::time::Duration;
use vstd::prelude::*;

verus! {

/// Why a transport operation had no effect.
#[derive(Clone, Copy, Debug, PartialEq, Eq, Structural)]
pub enum PlaybackError {
    /// The output cannot do what was asked: a place that is out of range, or
    /// a file of which no source could be made.
    DeviceError,
}

/// Whether the engine has anything to play, and whether it is playing it.
#[derive(Clone, Copy, Debug, PartialEq, Eq, Structural)]
pub enum PlaybackStatus {
    /// The queue is empty.
    Idle,
    /// The queue holds tracks and the output is running.
    Playing,
    /// The queue holds tracks and the output is halted.
    Paused,
}

/// One command for the audio output.
#[derive(Debug, PartialEq, Eq)]
pub enum SinkCommand {
    /// Drop every item that the output holds.
    Stop,
    /// Add the file at this path to the end of the output's items.
    Append(String),
    /// Run.
    Play,
    /// Halt, keeping the items.
    Pause,
    /// Leave the current item for the next one.
    SkipOne,
    /// Go to this time within the current item.
    TrySeek(Duration),
}

/// A command as a mathematical value.
pub enum Command {
    Stop,
    Append(Seq<char>),
    Play,
    Pause,
    SkipOne,
    TrySeek(nat),
}

impl View for SinkCommand {
    type V = Command;

    open spec fn view(&self) -> Command {
        match self {
            SinkCommand::Stop => Command::Stop,
            SinkCommand::Append(path) => Command::Append(path@),
            SinkCommand::Play => Command::Play,
            SinkCommand::Pause => Command::Pause,
            SinkCommand::SkipOne => Command::SkipOne,
            SinkCommand::TrySeek(target) => Command::TrySeek(target@),
        }
    }
}

/// The views of `commands`, in the same order.
pub open spec fn command_views(commands: Seq<SinkCommand>) -> Seq<Command> {
    commands.map_values(|command: SinkCommand| command@)
}

/// What an operation answered, with the commands as mathematical values.
pub open spec fn answer_view(answer: Result<Vec<SinkCommand>, PlaybackError>) -> Result<
    Seq<Command>,
    PlaybackError,
> {
    match answer {
        Ok(commands) => Ok(command_views(commands@)),
        Err(error) => Err(error),
    }
}

/// One command to append each of `songs`, in order.
pub open spec fn appends(songs: Seq<SongView>) -> Seq<Command> {
    songs.map_values(|song: SongView| Command::Append(song.path))
}

/// `count` commands to skip an item.
pub open spec fn skips(count: nat) -> Seq<Command> {
    Seq::new(count, |i: int| Command::SkipOne)
}

/// The commands that replace what the output holds by `tracks` and start it
/// at track `start`.
pub open spec fn queue_commands(tracks: Seq<SongView>, start: nat) -> Seq<Command> {
    seq![Command::Stop] + appends(tracks) + skips(start) + seq![Command::Play]
}

/// When track `i` of `queue` starts, counted from the start of the queue: the
/// durations of the tracks before it, added up.
pub open spec fn start_of(queue: Seq<SongView>, i: int) -> nat
    decreases i,
{
    if i <= 0 {
        0
    } else {
        start_of(queue, i - 1) + queue[i - 1].duration
    }
}

/// The last of the first `below` tracks of `queue` that has started by the
/// time `raw`.
pub open spec fn last_started(queue: Seq<SongView>, raw: nat, below: int) -> int
    decreases below,
{
    if below <= 1 {
        0
    } else if start_of(queue, below - 1) <= raw {
        below - 1
    } else {
        last_started(queue, raw, below - 1)
    }
}

/// The track of `queue` that plays at the time `raw` since the queue began:
/// the last one that has started by then. Every track before it is over; a
/// track that is over has been left, but for the last track of the queue,
/// which is never left.
pub open spec fn current_at(queue: Seq<SongView>, raw: nat) -> int {
    last_started(queue, raw, queue.len() as int)
}

/// The state of the engine as a mathematical value.
pub struct PlayerView {
    /// The tracks to play, in order.
    pub queue: Seq<SongView>,
    /// The place of the current track in the queue.
    pub index: nat,
    /// The time spent in the current track, in nanoseconds.
    pub elapsed: nat,
    /// Whether the output is running.
    pub playing: bool,
    pub shuffle: bool,
}

impl PlayerView {
    /// The place is one of the queue, or the start of an empty queue.
    pub open spec fn valid(self) -> bool {
        self.index == 0 || self.index < self.queue.len()
    }

    /// The track at the current place; `None` in an empty queue.
    pub open spec fn current(self) -> Option<SongView> {
        if self.index < self.queue.len() {
            Some(self.queue[self.index as int])
        } else {
            None
        }
    }

    pub open spec fn status(self) -> PlaybackStatus {
        if self.queue.len() == 0 {
            PlaybackStatus::Idle
        } else if self.playing {
            PlaybackStatus::Playing
        } else {
            PlaybackStatus::Paused
        }
    }

    /// The state once it follows an output whose clock shows `raw`. The
    /// place is that of the track that plays at `raw`; the time spent in it
    /// is what `raw` has beyond that track's start, and no more than the
    /// track lasts. With nothing in the queue the clock is taken as it is.
    pub open spec fn synchronized(self, raw: nat) -> PlayerView {
        if self.queue.len() == 0 {
            PlayerView { index: 0, elapsed: raw, ..self }
        } else {
            let i = current_at(self.queue, raw);
            let within = raw - start_of(self.queue, i);
            let length = self.queue[i].duration;
            PlayerView {
                index: i as nat,
                elapsed: if within <= length {
                    within as nat
                } else {
                    length
                },
                ..self
            }
        }
    }

    /// The state once `song` alone is to be played, from its start.
    pub open spec fn with_single(self, song: SongView) -> PlayerView {
        PlayerView { queue: seq![song], index: 0, elapsed: 0, playing: true, shuffle: self.shuffle }
    }

    /// The state once `songs` have been put at the end of the queue.
    pub open spec fn with_more(self, songs: Seq<SongView>) -> PlayerView {
        PlayerView { queue: self.queue + songs, ..self }
    }

    /// The state once the queue has been emptied.
    pub open spec fn cleared(self) -> PlayerView {
        PlayerView { queue: Seq::empty(), index: 0, ..self }
    }

    /// Whether the output can be brought to track `index` by skipping: the
    /// track is in the queue and not behind the current one.
    pub open spec fn reaches(self, index: nat) -> bool {
        self.index <= index < self.queue.len()
    }

    /// The state once the output plays at track `index`.
    pub open spec fn at_index(self, index: nat) -> PlayerView {
        PlayerView { index, playing: true, ..self }
    }

    /// The state once `tracks` have replaced the queue and play from track
    /// `start`.
    pub open spec fn with_queue(self, tracks: Seq<SongView>, start: nat) -> PlayerView {
        PlayerView { queue: tracks, index: start, playing: true, ..self }
    }

    /// Whether `target` is a time within the current track.
    pub open spec fn can_seek(self, target: nat) -> bool {
        self.index < self.queue.len() && target <= self.queue[self.index as int].duration
    }

    /// The state after a message, and the answer to it: the commands for
    /// the output, or why the message had no effect. `position` is what the
    /// clock of the output showed when the message came, and `sources_ready`
    /// whether the output could make a source of every file that the
    /// message names.
    pub open spec fn updated(
        self,
        message: PlayerMessageView,
        position: nat,
        sources_ready: bool,
    ) -> (PlayerView, Result<Seq<Command>, PlaybackError>) {
        match message {
            PlayerMessageView::PlaySong(song) => if sources_ready {
                (
                    self.with_single(song),
                    Ok(seq![Command::Stop, Command::Append(song.path), Command::Play]),
                )
            } else {
                (self, Err(PlaybackError::DeviceError))
            },
            PlayerMessageView::PlayAlbum(album, song) => if sources_ready && album.songs.contains(
                song,
            ) {
                let start = album.songs.index_of(song) as nat;
                (self.with_queue(album.songs, start), Ok(queue_commands(album.songs, start)))
            } else {
                (self, Err(PlaybackError::DeviceError))
            },
            PlayerMessageView::Play => (
                PlayerView { playing: true, ..self },
                Ok(seq![Command::Play]),
            ),
            PlayerMessageView::Pause => (
                PlayerView { playing: false, ..self },
                Ok(seq![Command::Pause]),
            ),
            PlayerMessageView::Update => (self.synchronized(position), Ok(Seq::empty())),
            PlayerMessageView::ProgressSlider(target) => if self.can_seek(target) {
                (self, Ok(seq![Command::TrySeek(target)]))
            } else {
                (self, Err(PlaybackError::DeviceError))
            },
        }
    }
}

/// What the playback engine can be told.
#[derive(Debug)]
pub enum PlayerMessage {
    /// Play this track alone.
    PlaySong(Song),
    /// Play this album, from this track of it.
    PlayAlbum((Album, Song)),
    /// Run the output.
    Play,
    /// Halt the output.
    Pause,
    /// Follow the clock of the output.
    Update,
    /// Go to this time within the current track.
    ProgressSlider(Duration),
}

/// A message as a mathematical value.
pub enum PlayerMessageView {
    PlaySong(SongView),
    PlayAlbum(AlbumView, SongView),
    Play,
    Pause,
    Update,
    ProgressSlider(nat),
}

impl View for PlayerMessage {
    type V = PlayerMessageView;

    open spec fn view(&self) -> PlayerMessageView {
        match self {
            PlayerMessage::PlaySong(song) => PlayerMessageView::PlaySong(song@),
            PlayerMessage::PlayAlbum(pair) => PlayerMessageView::PlayAlbum(pair.0@, pair.1@),
            PlayerMessage::Play => PlayerMessageView::Play,
            PlayerMessage::Pause => PlayerMessageView::Pause,
            PlayerMessage::Update => PlayerMessageView::Update,
            PlayerMessage::ProgressSlider(target) => PlayerMessageView::ProgressSlider(target@),
        }
    }
}

/// What the audio output showed when a message came.
#[derive(Clone, Copy, Debug)]
pub struct DeviceReport {
    /// The time that the output has played since the queue began.
    pub position: Duration,
    /// Whether the output could make a source of every file that the
    /// message names. Of no account for a message that names none.
    pub sources_ready: bool,
}

/// A later track starts no earlier.
pub proof fn lemma_start_of_grows(queue: Seq<SongView>, i: int, j: int)
    requires
        i <= j,
    ensures
        start_of(queue, i) <= start_of(queue, j),
    decreases j - i,
{
    if i < j {
        lemma_start_of_grows(queue, i, j - 1);
    }
}

/// The track that plays at `raw` has started by then, and the track after
/// it, if there is one, has not.
pub proof fn lemma_current_at(queue: Seq<SongView>, raw: nat)
    requires
        queue.len() > 0,
    ensures
        0 <= current_at(queue, raw) < queue.len(),
        start_of(queue, current_at(queue, raw)) <= raw,
        current_at(queue, raw) + 1 < queue.len() ==> raw < start_of(
            queue,
            current_at(queue, raw) + 1,
        ),
{
    lemma_last_started(queue, raw, queue.len() as int);
}

proof fn lemma_last_started(queue: Seq<SongView>, raw: nat, below: int)
    requires
        below >= 1,
    ensures
        0 <= last_started(queue, raw, below) < below,
        start_of(queue, last_started(queue, raw, below)) <= raw,
        last_started(queue, raw, below) + 1 < below ==> raw < start_of(
            queue,
            last_started(queue, raw, below) + 1,
        ),
    decreases below,
{
    if below > 1 && start_of(queue, below - 1) > raw {
        lemma_last_started(queue, raw, below - 1);
    }
}

/// A track that has started by `raw`, and whose successor has not, is the
/// one that plays at `raw`.
pub proof fn lemma_current_at_is(queue: Seq<SongView>, raw: nat, i: int)
    requires
        0 <= i < queue.len(),
        start_of(queue, i) <= raw,
        i + 1 < queue.len() ==> raw < start_of(queue, i + 1),
    ensures
        current_at(queue, raw) == i,
{
    lemma_last_started_is(queue, raw, i, queue.len() as int);
}

proof fn lemma_last_started_is(queue: Seq<SongView>, raw: nat, i: int, below: int)
    requires
        0 <= i < below,
        start_of(queue, i) <= raw,
        i + 1 < below ==> raw < start_of(queue, i + 1),
    ensures
        last_started(queue, raw, below) == i,
    decreases below,
{
    if below > i + 1 {
        lemma_start_of_grows(queue, i + 1, below - 1);
        if below - 1 > i + 1 {
            lemma_start_of_grows(queue, i + 1, below - 2);
        }
        lemma_last_started_is(queue, raw, i, below - 1);
    }
}

/// A clock that shows a time within track `i`, before the track's end,
/// puts the engine at track `i` with that time spent in it. The same holds
/// at the very end of the last track.
pub proof fn lemma_position_within_track(player: PlayerView, i: int, within: nat)
    requires
        0 <= i < player.queue.len(),
        within < player.queue[i].duration || (within == player.queue[i].duration && i + 1
            == player.queue.len()),
    ensures
        player.synchronized(start_of(player.queue, i) + within).index == i,
        player.synchronized(start_of(player.queue, i) + within).elapsed == within,
{
    lemma_current_at_is(player.queue, start_of(player.queue, i) + within, i);
}

/// Seeking to a time within the current track and then synchronizing with
/// an output that is at that time of that track leaves the place as it was
/// and puts the time spent at the time sought. The time sought lies before
/// the track's end, or the track is the last of the queue.
pub proof fn lemma_seek_then_sync(player: PlayerView, target: nat)
    requires
        player.valid(),
        player.can_seek(target),
        target < player.queue[player.index as int].duration || player.index + 1
            == player.queue.len(),
    ensures
        player.synchronized(start_of(player.queue, player.index as int) + target).index
            == player.index,
        player.synchronized(start_of(player.queue, player.index as int) + target).elapsed
            == target,
        player.synchronized(start_of(player.queue, player.index as int) + target).queue
            == player.queue,
{
    lemma_position_within_track(player, player.index as int, target);
}

/// Synchronizing a second time with a clock that has not moved changes
/// nothing, and synchronizing keeps the place valid and the time spent
/// within the current track.
pub proof fn lemma_sync_settles(player: PlayerView, raw: nat)
    ensures
        player.synchronized(raw).synchronized(raw) == player.synchronized(raw),
        player.synchronized(raw).valid(),
        player.synchronized(raw).current() matches Some(song) ==> player.synchronized(raw).elapsed
            <= song.duration,
{
    if player.queue.len() > 0 {
        lemma_current_at(player.queue, raw);
    }
}

/// An engine whose queue has been emptied has no current track, whatever it
/// held before.
pub proof fn lemma_cleared_has_no_track(player: PlayerView)
    ensures
        player.cleared().current() is None,
        player.cleared().status() == PlaybackStatus::Idle,
        player.cleared().valid(),
{
}

/// Playing a single track leaves a queue of that one track, at its start,
/// whatever the engine held before.
pub proof fn lemma_single_replaces_queue(player: PlayerView, song: SongView)
    ensures
        player.with_single(song).queue.len() == 1,
        player.with_single(song).index == 0,
        player.with_single(song).elapsed == 0,
        player.with_single(song).current() == Some(song),
        player.with_single(song).status() == PlaybackStatus::Playing,
{
}

/// The playback engine.
#[derive(Debug)]
pub struct Player {
    song_index: usize,
    playlist: Vec<Song>,
    playing: bool,
    shuffle: bool,
    progress: Duration,
}

impl View for Player {
    type V = PlayerView;

    closed spec fn view(&self) -> PlayerView {
        PlayerView {
            queue: views(self.playlist@),
            index: self.song_index as nat,
            elapsed: self.progress@,
            playing: self.playing,
            shuffle: self.shuffle,
        }
    }
}

impl Player {
    #[verifier::type_invariant]
    spec fn well_placed(self) -> bool {
        self.song_index == 0 || self.song_index < self.playlist.len()
    }

    /// An engine in the given state. The place must be one of the queue, or
    /// the start of an empty queue.
    pub fn new(
        song_index: usize,
        playlist: Vec<Song>,
        playing: bool,
        shuffle: bool,
        progress: Duration,
    ) -> (player: Player)
        requires
            song_index == 0 || song_index < playlist.len(),
        ensures
            player@ == (PlayerView {
                queue: views(playlist@),
                index: song_index as nat,
                elapsed: progress@,
                playing,
                shuffle,
            }),
    {
        Player { song_index, playlist, playing, shuffle, progress }
    }

    /// An engine with an empty queue, halted.
    pub fn default() -> (player: Player)
        ensures
            player@ == (PlayerView {
                queue: Seq::empty(),
                index: 0,
                elapsed: 0,
                playing: false,
                shuffle: false,
            }),
    {
        let player = Player {
            song_index: 0,
            playlist: Vec::new(),
            playing: false,
            shuffle: false,
            progress: Duration::from_secs(0),
        };
        assert(views(player.playlist@) =~= Seq::empty());
        player
    }

    /// Takes a message, with what the output showed when it came.
    ///
    /// A message that names tracks has no effect where the output could not
    /// make a source of one of their files; one to play an album has none
    /// where the album does not hold the track to start from; one to seek
    /// has none where the time lies beyond the current track. After a seek
    /// the engine is to be told the new reading of the clock.
    pub fn update(&mut self, message: PlayerMessage, report: DeviceReport) -> (answer: Result<
        Vec<SinkCommand>,
        PlaybackError,
    >)
        ensures
            final(self)@ == old(self)@.updated(
                message@,
                report.position@,
                report.sources_ready,
            ).0,
            answer_view(answer) == old(self)@.updated(
                message@,
                report.position@,
                report.sources_ready,
            ).1,
    {
        match message {
            PlayerMessage::PlaySong(song) => {
                if !report.sources_ready {
                    return Err(PlaybackError::DeviceError);
                }
                Ok(self.play_song(song))
            },
            PlayerMessage::PlayAlbum((album, song)) => {
                if !report.sources_ready {
                    return Err(PlaybackError::DeviceError);
                }
                match album.get_song_index(&song) {
                    Some(start) => {
                        let ghost held = album@.songs;
                        let tracks = album.into_songs();
                        proof {
                            let chosen = held.index_of(song@);
                            assert(held[start as int] == song@);
                            assert(held.contains(song@));
                            assert(chosen == start);
                        }
                        self.play_queue(tracks, start)
                    },
                    None => Err(PlaybackError::DeviceError),
                }
            },
            PlayerMessage::Play => Ok(self.play()),
            PlayerMessage::Pause => Ok(self.pause()),
            PlayerMessage::Update => {
                self.sync(report.position);
                let commands: Vec<SinkCommand> = Vec::new();
                assert(command_views(commands@) =~= Seq::empty());
                Ok(commands)
            },
            PlayerMessage::ProgressSlider(target) => match self.seek(target) {
                Ok(command) => {
                    let mut commands: Vec<SinkCommand> = Vec::new();
                    let ghost sought = command@;
                    commands.push(command);
                    assert(command_views(commands@) =~= seq![sought]);
                    Ok(commands)
                },
                Err(error) => Err(error),
            },
        }
    }

    /// The queue.
    pub fn playlist(&self) -> (playlist: &Vec<Song>)
        ensures
            views(playlist@) == self@.queue,
    {
        &self.playlist
    }

    /// The place of the current track in the queue.
    pub fn song_index(&self) -> (index: usize)
        ensures
            index == self@.index,
            self@.valid(),
    {
        proof {
            use_type_invariant(self);
        }
        self.song_index
    }

    /// The time spent in the current track.
    pub fn progress(&self) -> (progress: Duration)
        ensures
            progress@ == self@.elapsed,
    {
        self.progress
    }

    /// Whether the queue is to be played in a shuffled order.
    pub fn is_shuffled(&self) -> (shuffle: bool)
        ensures
            shuffle == self@.shuffle,
    {
        self.shuffle
    }

    /// Whether the output is running.
    pub fn is_playing(&self) -> (playing: bool)
        ensures
            playing == self@.playing,
    {
        self.playing
    }

    /// The track at the current place; `None` where the queue is empty.
    pub fn current_song(&self) -> (song: Option<&Song>)
        ensures
            self@.valid(),
            match song {
                Some(song) => self@.current() == Some(song@),
                None => self@.current() is None && self@.queue.len() == 0,
            },
    {
        proof {
            use_type_invariant(self);
        }
        if self.song_index < self.playlist.len() {
            Some(&self.playlist[self.song_index])
        } else {
            None
        }
    }

    /// Whether the engine is idle, playing or paused.
    pub fn status(&self) -> (status: PlaybackStatus)
        ensures
            status == self@.status(),
    {
        if self.playlist.len() == 0 {
            PlaybackStatus::Idle
        } else if self.playing {
            PlaybackStatus::Playing
        } else {
            PlaybackStatus::Paused
        }
    }

    /// Puts `songs` at the end of the queue, and returns one command to
    /// append each of them to the output.
    pub fn add_to_playlist(&mut self, songs: Vec<Song>) -> (commands: Vec<SinkCommand>)
        ensures
            final(self)@ == old(self)@.with_more(views(songs@)),
            command_views(commands@) == appends(views(songs@)),
    {
        proof {
            use_type_invariant(&*self);
        }
        let mut songs = songs;
        let ghost added = views(songs@);
        let mut commands: Vec<SinkCommand> = Vec::new();
        let mut i: usize = 0;
        while i < songs.len()
            invariant
                i <= songs.len(),
                views(songs@) == added,
                command_views(commands@) == appends(added).take(i as int),
            decreases songs.len() - i,
        {
            commands.push(SinkCommand::Append(songs[i].path.clone()));
            assert(command_views(commands@) =~= appends(added).take(i as int).push(
                Command::Append(added[i as int].path),
            ));
            assert(command_views(commands@) =~= appends(added).take(i + 1));
            i += 1;
        }
        assert(appends(added).take(i as int) =~= appends(added));
        let index = self.song_index;
        self.song_index = 0;
        let mut playlist: Vec<Song> = Vec::new();
        std::mem::swap(&mut playlist, &mut self.playlist);
        let ghost before = views(playlist@);
        playlist.append(&mut songs);
        assert(views(playlist@) =~= before + added);
        self.playlist = playlist;
        self.song_index = index;
        commands
    }

    /// Empties the queue and puts the place back at its start. The one
    /// command stops the output.
    pub fn clear_playlist(&mut self) -> (commands: Vec<SinkCommand>)
        ensures
            final(self)@ == old(self)@.cleared(),
            command_views(commands@) == seq![Command::Stop],
    {
        self.song_index = 0;
        self.playlist = Vec::new();
        assert(views(self.playlist@) =~= Seq::empty());
        let mut commands: Vec<SinkCommand> = Vec::new();
        commands.push(SinkCommand::Stop);
        assert(command_views(commands@) =~= seq![Command::Stop]);
        commands
    }

    /// Brings place and time spent in line with the clock of the output,
    /// which shows the time `position` since the queue began to play.
    pub fn sync(&mut self, position: Duration)
        ensures
            final(self)@ == old(self)@.synchronized(position@),
    {
        proof {
            use_type_invariant(&*self);
        }
        let count = self.playlist.len();
        if count == 0 {
            self.progress = position;
            return;
        }
        let ghost queue = views(self.playlist@);
        let mut i: usize = 0;
        let mut within = position;
        let mut found = false;
        while !found && i + 1 < count
            invariant
                count == self.playlist.len(),
                i < count,
                queue == views(self.playlist@),
                within@ + start_of(queue, i as int) == position@,
                found ==> position@ < start_of(queue, i + 1),
            decreases
                    count - i + (if found {
                        0int
                    } else {
                        1int
                    }),
        {
            match within.checked_sub(&self.playlist[i].duration) {
                Some(rest) => {
                    within = rest;
                    i += 1;
                },
                None => {
                    found = true;
                },
            }
        }
        proof {
            lemma_current_at_is(queue, position@, i as int);
        }
        let length = self.playlist[i].duration;
        self.song_index = i;
        self.progress = if within.le(&length) {
            within
        } else {
            length
        };
    }

    /// Replaces the queue by `song` alone and plays it from its start. The
    /// commands stop the output, append the track and run.
    pub fn play_song(&mut self, song: Song) -> (commands: Vec<SinkCommand>)
        ensures
            final(self)@ == old(self)@.with_single(song@),
            command_views(commands@) == seq![
                Command::Stop,
                Command::Append(song@.path),
                Command::Play,
            ],
    {
        let mut commands: Vec<SinkCommand> = Vec::new();
        commands.push(SinkCommand::Stop);
        commands.push(SinkCommand::Append(song.path.clone()));
        commands.push(SinkCommand::Play);
        assert(command_views(commands@) =~= seq![
            Command::Stop,
            Command::Append(song@.path),
            Command::Play,
        ]);
        let ghost single = song@;
        let mut playlist: Vec<Song> = Vec::new();
        playlist.push(song);
        assert(views(playlist@) =~= seq![single]);
        self.song_index = 0;
        self.playlist = playlist;
        self.progress = Duration::from_secs(0);
        self.playing = true;
        commands
    }

    /// Runs the output. Queue and place stay as they are.
    pub fn play(&mut self) -> (commands: Vec<SinkCommand>)
        ensures
            final(self)@ == (PlayerView { playing: true, ..old(self)@ }),
            command_views(commands@) == seq![Command::Play],
    {
        proof {
            use_type_invariant(&*self);
        }
        self.playing = true;
        let mut commands: Vec<SinkCommand> = Vec::new();
        commands.push(SinkCommand::Play);
        assert(command_views(commands@) =~= seq![Command::Play]);
        commands
    }

    /// Halts the output. Queue and place stay as they are.
    pub fn pause(&mut self) -> (commands: Vec<SinkCommand>)
        ensures
            final(self)@ == (PlayerView { playing: false, ..old(self)@ }),
            command_views(commands@) == seq![Command::Pause],
    {
        proof {
            use_type_invariant(&*self);
        }
        self.playing = false;
        let mut commands: Vec<SinkCommand> = Vec::new();
        commands.push(SinkCommand::Pause);
        assert(command_views(commands@) =~= seq![Command::Pause]);
        commands
    }

    /// Moves on to track `index` of the queue and plays. The output can
    /// only move forward, one item at a time: the commands skip once for
    /// each track between the current one and track `index`, then run. A
    /// track outside the queue, or behind the current one, is out of reach:
    /// the engine stays as it is.
    pub fn play_index(&mut self, index: usize) -> (answer: Result<Vec<SinkCommand>, PlaybackError>)
        ensures
            old(self)@.reaches(index as nat) ==> final(self)@ == old(self)@.at_index(index as nat)
                && answer_view(answer) == Ok::<Seq<Command>, PlaybackError>(
                skips((index - old(self)@.index) as nat) + seq![Command::Play],
            ),
            !old(self)@.reaches(index as nat) ==> final(self)@ == old(self)@ && answer == Err::<
                Vec<SinkCommand>,
                PlaybackError,
            >(PlaybackError::DeviceError),
    {
        if index >= self.playlist.len() || index < self.song_index {
            return Err(PlaybackError::DeviceError);
        }
        let count = index - self.song_index;
        let mut commands: Vec<SinkCommand> = Vec::new();
        let mut i: usize = 0;
        while i < count
            invariant
                i <= count,
                command_views(commands@) == skips(i as nat),
            decreases count - i,
        {
            commands.push(SinkCommand::SkipOne);
            assert(command_views(commands@) =~= skips(i as nat).push(Command::SkipOne));
            assert(skips(i as nat).push(Command::SkipOne) =~= skips((i + 1) as nat));
            i += 1;
        }
        commands.push(SinkCommand::Play);
        assert(command_views(commands@) =~= skips(count as nat) + seq![Command::Play]);
        self.playing = true;
        self.song_index = index;
        Ok(commands)
    }

    /// Leaves the current item of the output for the next one. The engine
    /// learns of it when it next synchronizes.
    pub fn play_next(&mut self) -> (commands: Vec<SinkCommand>)
        ensures
            final(self)@ == old(self)@,
            command_views(commands@) == seq![Command::SkipOne],
    {
        let mut commands: Vec<SinkCommand> = Vec::new();
        commands.push(SinkCommand::SkipOne);
        assert(command_views(commands@) =~= seq![Command::SkipOne]);
        commands
    }

    /// Replaces the queue by `tracks` and plays from track `start_index`.
    /// The commands stop the output, append every track in order, skip the
    /// tracks before `start_index`, and run. Where `tracks` has no track
    /// `start_index` the engine stays as it is.
    pub fn play_queue(&mut self, tracks: Vec<Song>, start_index: usize) -> (answer: Result<
        Vec<SinkCommand>,
        PlaybackError,
    >)
        ensures
            start_index < tracks.len() ==> final(self)@ == old(self)@.with_queue(
                views(tracks@),
                start_index as nat,
            ) && answer_view(answer) == Ok::<Seq<Command>, PlaybackError>(
                queue_commands(views(tracks@), start_index as nat),
            ),
            start_index >= tracks.len() ==> final(self)@ == old(self)@ && answer == Err::<
                Vec<SinkCommand>,
                PlaybackError,
            >(PlaybackError::DeviceError),
    {
        if start_index >= tracks.len() {
            return Err(PlaybackError::DeviceError);
        }
        let ghost given = views(tracks@);
        let mut commands = self.clear_playlist();
        let mut appended = self.add_to_playlist(tracks);
        assert(self@.queue =~= given);
        let ghost first = commands@;
        let ghost second = appended@;
        commands.append(&mut appended);
        assert(command_views(commands@) =~= command_views(first) + command_views(second));
        match self.play_index(start_index) {
            Ok(mut rest) => {
                let ghost third = rest@;
                let ghost so_far = commands@;
                commands.append(&mut rest);
                assert(command_views(commands@) =~= command_views(so_far) + command_views(third));
                assert(command_views(commands@) =~= queue_commands(given, start_index as nat));
                Ok(commands)
            },
            Err(error) => Err(error),
        }
    }

    /// The command that takes the output to the time `target` within the
    /// current track. The engine itself stays as it is: the next
    /// synchronization brings it in line. A time beyond the end of the
    /// current track, or any time while the queue is empty, is out of range.
    pub fn seek(&self, target: Duration) -> (answer: Result<SinkCommand, PlaybackError>)
        ensures
            self@.can_seek(target@) ==> (answer matches Ok(command) && command@
                == Command::TrySeek(target@)),
            !self@.can_seek(target@) ==> answer == Err::<SinkCommand, PlaybackError>(
                PlaybackError::DeviceError,
            ),
    {
        proof {
            use_type_invariant(self);
        }
        if self.song_index < self.playlist.len() && target.le(
            &self.playlist[self.song_index].duration,
        ) {
            Ok(SinkCommand::TrySeek(target))
        } else {
            Err(PlaybackError::DeviceError)
        }
    }
}

} // verus!
