//! The command line: what each command asks of mpd, and what is printed of the answers.
pub mod daemon;
pub mod lines;
pub mod plan;

pub use daemon::{note, Note};
pub use lines::{
    episode_lines, folder_lines, forgotten_line, now_line, playing_line, removed_line, saved_line,
    show_lines, song_lines, subscribed_line,
};
pub use plan::{
    folder_to_update, keep_first, plan, toggle, valid_amount, CliError, Command, Plan,
    DEFAULT_SEARCH_LIMIT, WATCHED,
};
