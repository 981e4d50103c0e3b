//! What the screen shows: the texts of titles, bars and popups, and where a
//! popup goes. Drawing them is left to the caller.

use vstd::prelude::*;
use crate::app::{App, Mode, Panel, RepeatMode};
use crate::paths::{file_name, file_name_of};
use crate::player::{duration_text, fmt_duration, TrackInfo};
use crate::text::{decimal, push_decimal};

verus! {

/// A rectangle of terminal cells.
#[derive(PartialEq, Eq, Structural, Clone, Copy, Debug)]
pub struct Rect {
    pub x: u16,
    pub y: u16,
    pub width: u16,
    pub height: u16,
}

pub open spec fn half_gap(outer: u16, inner: u16) -> int {
    if outer > inner {
        (outer - inner) / 2
    } else {
        0
    }
}

/// The smaller of two sizes.
pub open spec fn min_u16(a: int, b: int) -> int {
    if a < b {
        a
    } else {
        b
    }
}

/// A `width` by `height` rectangle centred in `area`, cut to fit it, and
/// cut again (as a terminal rectangle is built) so that its right and bottom
/// edges stay within `u16`.
pub fn centered_rect(width: u16, height: u16, area: Rect) -> (r: Rect)
    requires
        area.x + half_gap(area.width, width) <= u16::MAX,
        area.y + half_gap(area.height, height) <= u16::MAX,
    ensures
        r.x == area.x + half_gap(area.width, width),
        r.y == area.y + half_gap(area.height, height),
        r.width == min_u16(min_u16(width as int, area.width as int), u16::MAX - r.x),
        r.height == min_u16(min_u16(height as int, area.height as int), u16::MAX - r.y),
{
    let gx = if area.width > width {
        (area.width - width) / 2
    } else {
        0
    };
    let gy = if area.height > height {
        (area.height - height) / 2
    } else {
        0
    };
    let x = area.x + gx;
    let y = area.y + gy;
    let w = if width < area.width {
        width
    } else {
        area.width
    };
    let h = if height < area.height {
        height
    } else {
        area.height
    };
    Rect {
        x,
        y,
        width: if w > u16::MAX - x {
            u16::MAX - x
        } else {
            w
        },
        height: if h > u16::MAX - y {
            u16::MAX - y
        } else {
            h
        },
    }
}

pub open spec fn searching_in(app: App, panel: Panel) -> bool {
    app.mode == Mode::Searching && app.focused_panel == panel
}

/// The browser's title: the search being typed, or the directory.
pub fn browser_title(app: &App) -> (r: String)
    ensures
        r@ == if searching_in(*app, Panel::Browser) {
            " Browser  /"@ + app.input_buffer@ + "_ "@
        } else {
            " Browser — "@ + app.browser.current_dir@ + " "@
        },
{
    if app.mode == Mode::Searching && app.focused_panel == Panel::Browser {
        let mut r = String::from_str(" Browser  /");
        r.append(app.input_buffer.as_str());
        r.append("_ ");
        r
    } else {
        let mut r = String::from_str(" Browser — ");
        r.append(app.browser.current_dir.as_str());
        r.append(" ");
        r
    }
}

/// The playlist's title: its name and the search being typed, or its name,
/// its place among the playlists and their number.
pub fn playlist_title(app: &App) -> (r: String)
    requires
        app.wf(),
    ensures
        r@ == if searching_in(*app, Panel::Playlist) {
            " Playlist: "@ + app.current().name@ + "  /"@ + app.input_buffer@ + "_ "@
        } else {
            " Playlist: "@ + app.current().name@ + " ("@ + decimal((app.active_playlist + 1) as nat)
                + "/"@ + decimal(app.playlists.len() as nat) + ") "@
        },
{
    let pl = app.current_playlist();
    let mut r = String::from_str(" Playlist: ");
    r.append(pl.name.as_str());
    if app.mode == Mode::Searching && app.focused_panel == Panel::Playlist {
        r.append("  /");
        r.append(app.input_buffer.as_str());
        r.append("_ ");
    } else {
        r.append(" (");
        push_decimal(&mut r, (app.active_playlist + 1) as u64);
        r.append("/");
        push_decimal(&mut r, app.playlists.len() as u64);
        r.append(") ");
    }
    r
}

/// What the player bar names as playing: "artist — title" from the tags,
/// or the title alone, or the file name, or a dash when nothing plays.
pub fn now_playing_text(info: Option<&TrackInfo>, now_playing: Option<&String>) -> (r: String)
    ensures
        r@ == match info {
            Some(t) if t.title is Some && t.artist is Some => t.artist->0@ + " — "@ + t.title->0@,
            Some(t) if t.title is Some => t.title->0@,
            _ => match now_playing {
                Some(p) => match file_name_of(p@) {
                    Some(n) => n,
                    None => Seq::empty(),
                },
                None => "—"@,
            },
        },
{
    match info {
        Some(t) => {
            match (&t.title, &t.artist) {
                (Some(title), Some(artist)) => {
                    let mut r = artist.clone();
                    r.append(" — ");
                    r.append(title.as_str());
                    return r;
                },
                (Some(title), None) => {
                    return title.clone();
                },
                _ => {},
            }
        },
        None => {},
    }
    match now_playing {
        Some(p) => match file_name(p.as_str()) {
            Some(n) => n,
            None => String::new(),
        },
        None => String::from_str("—"),
    }
}

/// The time shown after the title: position and length, or the position
/// alone, in `m:ss`; nothing when there is no position.
pub fn time_text(pos_secs: Option<u64>, total_secs: Option<u64>) -> (r: String)
    ensures
        r@ == match (pos_secs, total_secs) {
            (Some(p), Some(t)) => "  "@ + duration_text(p as nat) + " / "@ + duration_text(t as nat),
            (Some(p), None) => "  "@ + duration_text(p as nat),
            _ => Seq::empty(),
        },
{
    match pos_secs {
        Some(p) => {
            let mut r = String::from_str("  ");
            r.append(fmt_duration(p).as_str());
            match total_secs {
                Some(t) => {
                    r.append(" / ");
                    r.append(fmt_duration(t).as_str());
                },
                None => {},
            }
            r
        },
        None => String::new(),
    }
}

/// The key help shown when there is no status message.
pub open spec fn help_text() -> Seq<char> {
    " [Tab] panel  [a] add  [d] del  [J/K] reorder  [e] edit tags  [X] export m3u  [Enter] play/open/import  [Space] pause  [s] stop  [+/-] vol  [[/]] prev/next song  [z] shuffle  [p] repeat  [/] search  [H] history  [y] download  [r] refresh  [n] new playlist  [</>] prev/next playlist  [q] quit"@
}

/// The bottom line: the status message, or the key help.
pub fn status_line(app: &App) -> (r: String)
    ensures
        r@ == if app.status_msg@.len() > 0 {
            " "@ + app.status_msg@
        } else {
            help_text()
        },
{
    if !app.status_msg.as_str().is_empty() {
        let mut r = String::from_str(" ");
        r.append(app.status_msg.as_str());
        r
    } else {
        String::from_str(
            " [Tab] panel  [a] add  [d] del  [J/K] reorder  [e] edit tags  [X] export m3u  [Enter] play/open/import  [Space] pause  [s] stop  [+/-] vol  [[/]] prev/next song  [z] shuffle  [p] repeat  [/] search  [H] history  [y] download  [r] refresh  [n] new playlist  [</>] prev/next playlist  [q] quit",
        )
    }
}

/// The pause sign: paused or playing.
pub fn pause_symbol(paused: bool) -> (r: String)
    ensures
        r@ == if paused {
            "⏸"@
        } else {
            "▶"@
        },
{
    if paused {
        String::from_str("⏸")
    } else {
        String::from_str("▶")
    }
}

/// The shuffle sign.
pub fn shuffle_text(shuffle: bool) -> (r: String)
    ensures
        r@ == if shuffle {
            " ⇀ "@
        } else {
            "   "@
        },
{
    if shuffle {
        String::from_str(" ⇀ ")
    } else {
        String::from_str("   ")
    }
}

/// The repeat sign.
pub fn repeat_text(repeat: RepeatMode) -> (r: String)
    ensures
        r@ == match repeat {
            RepeatMode::Off => ""@,
            RepeatMode::All => " ⟳ "@,
            RepeatMode::One => " ⟳¹"@,
        },
{
    match repeat {
        RepeatMode::Off => String::from_str(""),
        RepeatMode::All => String::from_str(" ⟳ "),
        RepeatMode::One => String::from_str(" ⟳¹"),
    }
}

/// The new-playlist popup's line.
pub fn naming_text(app: &App) -> (r: String)
    ensures
        r@ == " New playlist: "@ + app.input_buffer@ + "_"@,
{
    let mut r = String::from_str(" New playlist: ");
    r.append(app.input_buffer.as_str());
    r.append("_");
    r
}

/// The download popup's text, with the directory downloads go to.
pub fn url_text(app: &App, dir: &str) -> (r: String)
    ensures
        r@ == " YouTube URL:\n "@ + app.input_buffer@ + "_\n\n  → saves to "@ + dir@,
{
    let mut r = String::from_str(" YouTube URL:\n ");
    r.append(app.input_buffer.as_str());
    r.append("_\n\n  → saves to ");
    r.append(dir);
    r
}

/// The label of tag field `k` (title, artist, album), right-aligned.
pub fn tag_label(k: usize) -> (r: String)
    requires
        k < 3,
    ensures
        r@ == if k == 0 {
            "  Title: "@
        } else if k == 1 {
            " Artist: "@
        } else {
            "  Album: "@
        },
{
    if k == 0 {
        String::from_str("  Title: ")
    } else if k == 1 {
        String::from_str(" Artist: ")
    } else {
        String::from_str("  Album: ")
    }
}

/// A tag field's text, with a cursor when it is being typed into.
pub fn tag_field_text(value: &String, active: bool) -> (r: String)
    ensures
        r@ == if active {
            value@ + "_"@
        } else {
            value@
        },
{
    let mut r = value.clone();
    if active {
        r.append("_");
    }
    r
}

/// How a file is named in a list: its file name, or nothing where the path
/// has none.
pub fn entry_label(path: &str) -> (r: String)
    ensures
        r@ == match file_name_of(path@) {
            Some(n) => n,
            None => Seq::empty(),
        },
{
    match file_name(path) {
        Some(n) => n,
        None => String::new(),
    }
}

} // verus!
