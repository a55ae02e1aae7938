//! Typenx metadata addon logic backed by AniList.
pub mod api;
pub mod mapping;
pub mod recommendations;
pub mod server;
pub mod sorting;
pub mod text;
pub mod time;
pub mod types;
