//! Core library for DJ Library Sync.
//!
//! Deliberately headless: title/artist normalization, candidate scoring, the
//! rules of the two platform clients, of local state, of folder watching and of
//! pushing all live here as functions on plain values, so that each of them can
//! be verified. Files, the network and the clock belong to the app around it.

pub mod apple;
pub mod auth;
pub mod binary;
pub mod call_laws;
pub mod clock;
pub mod config;
pub mod db;
pub mod db_laws;
pub mod licence;
pub mod matcher;
pub mod matcher_laws;
pub mod names;
pub mod names_laws;
pub mod normalize;
pub mod normalize_laws;
pub mod order;
pub mod platform;
pub mod push;
pub mod push_laws;
pub mod report;
pub mod report_laws;
pub mod retry;
pub mod retry_laws;
pub mod service_laws;
pub mod spotify;
pub mod spotify_laws;
pub mod tags;
pub mod tags_laws;
pub mod text;
pub mod text_laws;
pub mod timestamp;
pub mod timestamp_laws;
pub mod title;
pub mod title_laws;
pub mod unit;
pub mod update;
pub mod update_laws;
pub mod urlencode;
pub mod watcher;
pub mod watcher_laws;
pub mod watchrun;
pub mod wordset;

pub use auth::{AuthConfig, TokenStore, Tokens};
pub use config::Config;
pub use db::TrackState;
pub use matcher::{Candidate, MatchMethod, Score, ShorterVersionPolicy, Verdict};
pub use normalize::{MixKind, ParsedTitle};
pub use platform::{CredentialModel, PlatformInfo, PlatformTrack};
pub use spotify::{Playlist, SpotifyTrack, SpotifyUser};
pub use tags::LocalTrack;
