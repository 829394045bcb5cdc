//! mpd's text protocol: commands, replies, pictures, idle.
//!
//! mpd speaks lines: a client sends `command "arg" "arg"`, mpd answers `key: value` lines that end
//! in `OK`, or one `ACK [code@n] {command} message` line on failure. Pictures come as chunks: a
//! `binary: N` line, N raw bytes, a line break, then `OK`.
pub mod command;
pub mod reply;
pub mod wire;
pub mod laws;
pub mod address;
pub mod session;

pub use address::{default_address, Address};
pub use command::quote;
pub use reply::{parse_songs, parse_status, Song, Status};
pub use session::{Mpd, Picture, PictureProgress};
pub use wire::{MpdError, Progress, MAX_PICTURE_BYTES};
