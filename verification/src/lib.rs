//! Music and podcasts on mpd.
pub mod art;
pub mod cli;
pub mod moment;
pub mod mpd;
pub mod number;
pub mod player;
pub mod podcast;
pub mod store;
pub mod text;
pub mod tui;
