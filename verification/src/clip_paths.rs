//! Where cosmic-clip keeps its files, below the user's config and data
//! directories.

use vstd::prelude::*;

use crate::paths::{join_path, path_join};

verus! {

/// The application id of cosmic-clip.
pub const CLIP_APP_ID: &'static str = "io.github.atayozcan.CosmicClip";

/// `<config>/cosmic-clip/config.toml`.
pub fn config_path(config_dir: &str) -> (r: String)
    ensures
        r@ == path_join(config_dir@, "cosmic-clip/config.toml"@),
{
    join_path(config_dir, "cosmic-clip/config.toml")
}

/// `<data>/cosmic-clip/history.json`.
pub fn history_path(data_dir: &str) -> (r: String)
    ensures
        r@ == path_join(data_dir@, "cosmic-clip/history.json"@),
{
    join_path(data_dir, "cosmic-clip/history.json")
}

/// `<config>/autostart/cosmic-clip.desktop`.
pub fn autostart_path(config_dir: &str) -> (r: String)
    ensures
        r@ == path_join(config_dir@, "autostart/cosmic-clip.desktop"@),
{
    join_path(config_dir, "autostart/cosmic-clip.desktop")
}

} // verus!
