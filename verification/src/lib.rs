//! The core of a personal music player: a catalogue of tracks grouped into
//! albums, and a playback engine that derives its position in the queue from
//! the clock of the audio output.
//!
//! Nothing here touches a file, a directory or a sound device. Whatever reads
//! them hands this crate plain values, and carries out the device commands
//! that the playback engine returns.

pub mod app;
pub mod page;
pub mod player;
pub mod song;
pub mod song_library;
pub mod text;
pub mod time;
