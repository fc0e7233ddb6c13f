//! What the pages of the player show.

pub mod albums_page;
