//! Podcasts: subscribing, refreshing, where to resume, and downloading an episode for mpd.
//!
//! An entry of a feed is an episode only if it carries an http(s) audio or video file. A download
//! lands in `podcasts/<show>/` of the music folder, under a name made here from the id, a slug of
//! the title and an extension for the type. A name is never taken from the feed, so a feed cannot
//! choose where a file goes.
pub mod feed;
pub mod files;
pub mod follow;
pub mod laws;
pub mod resume;

pub use feed::{episodes_from, Enclosure, FeedEntry, ParsedFeed};
pub use files::{download_path, removable, PODCAST_FOLDER};
pub use follow::{
    download, download_plan, finish_subscription, play, play_step, record_download, record_removal,
    refresh, refresh_names, removal_plan, remove_download, save_fetched, subscribe, DownloadPlan,
    PlayStage, PlayStep, Playback, PodcastError, Removal, EPISODE_MAX_BYTES,
    EPISODE_TIMEOUT_SECONDS, FEED_MAX_BYTES, FEED_TIMEOUT_SECONDS,
};
pub use resume::{is_played, progress, resume_from, PLAYED_WITHIN, RESUME_MIN};
