//! A falling-block puzzle engine: pieces, the bordered playfield with
//! collision testing and row clearing, the movement resolver, and the
//! scene state machine that sequences intro, play and game over.

pub mod block;
pub mod board;
pub mod drawable;
pub mod game;
