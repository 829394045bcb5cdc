//! The player in a terminal: what it knows, what each key does, and what it shows.
//!
//! No terminal is involved here: keys come in as plain values, and effects and screens go out.
pub mod events;
pub mod laws;
pub mod screen;
pub mod state;

pub use events::{
    download_message, drops_connection, list_folder, reloads_queue, Outcome, Update, EPISODES_SHOWN,
};
pub use screen::{draw, left_text, time_label, Body, Ink, Listing, Panel, Piece, Row, Screen};
pub use state::{Effect, Entry, Key, KeyCode, State, Step, Tab, TABS};
