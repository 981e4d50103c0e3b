//! Where the player's settings are kept. The settings themselves (the
//! volume) are a float and are read and written by the program around the
//! library.

use vstd::prelude::*;
use crate::paths::{dir_or_here, join, joined};
use crate::sys;

verus! {

/// The settings file under a configuration directory.
pub fn config_path_in(base: &str) -> (r: String)
    ensures
        r@ == joined(base@, "tui-fi/config.json"@),
{
    join(base, "tui-fi/config.json")
}

/// The settings file: under the user's configuration directory, or under
/// `.` where there is none.
pub fn config_path() -> (r: String)
    ensures
        exists|base: Seq<char>| r@ == joined(base, "tui-fi/config.json"@),
{
    let base = dir_or_here(sys::config_dir());
    config_path_in(base.as_str())
}

} // verus!
