//! The messages that the parts of the player take.

use crate::page::albums_page::AlbumsPageMessage;
use crate::player::PlayerMessage;
use vstd::prelude::*;

verus! {

/// A message for one part of the player.
#[derive(Debug)]
pub enum Message {
    /// For the page of albums.
    AlbumsPage(AlbumsPageMessage),
    /// For the playback engine.
    Player(PlayerMessage),
}

} // verus!
