//! A terminal music player's logic: browsing, playlists, history,
//! M3U import/export, key handling and status bookkeeping.

pub mod text;
pub mod paths;
pub mod sys;
pub mod playlist;
pub mod config;
pub mod history;
pub mod browser;
pub mod m3u;
pub mod player;
pub mod app;
pub mod keys;
pub mod mpris;
pub mod ui;
