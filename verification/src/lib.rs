//! Shared logic of cosmic-pick: clipboard history, recently picked
//! emoji and colors, and the text rules applied to captured clipboard
//! content.

pub mod applet;
pub mod autostart;
pub mod capture;
pub mod cleanup;
pub mod clip_paths;
pub mod colors;
pub mod config;
pub mod emoji_recents;
pub mod history;
pub mod history_laws;
pub mod keyboard;
pub mod mru;
pub mod paths;
pub mod recent_colors;
pub mod search;
pub mod text;
pub mod uris;
