//! The library's own records: podcast shows, episodes, where you stopped, downloads.
//!
//! mpd keeps the music library; this keeps only what mpd cannot.
pub mod changes;
pub mod laws;
pub mod opening;
pub mod order;
pub mod promises;
pub mod records;
pub mod rows;
pub mod writes;

pub use opening::{check_journal, pending_migrations, Migration};
pub use records::{valid_name, Store, StoreError, MAX_NAME};
pub use rows::{Episode, EpisodeRow, NewEpisode, Show, ShowRow};
pub use writes::{row_writes, RowWrite};
