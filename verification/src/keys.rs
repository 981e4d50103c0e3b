//! What each key does. The decisions are made here, on the state alone;
//! what needs the outside world (playing audio, reading a directory, reading
//! or writing files, starting the downloader) comes back as an `Effect` for
//! the caller to carry out, and the caller reports any outcome through the
//! `finish_*` methods.

use vstd::prelude::*;
use crate::app::{
    add_post, advance_post, browser_nav_post, move_down_post, move_up_post, new_playlist_post,
    next_playlist_post, playlist_nav_post, played, prev_playlist_post, remove_post,
    snap_browser_post, snap_playlist_post, status_set, toggle_repeat_post, toggle_shuffle_post, App,
    Mode, Panel, TagEditor,
};
use crate::browser::{is_audio, is_audio_path, is_m3u, is_m3u_path};
use crate::text::{chars_of, push_char, push_decimal, string_of, trim, trimmed, decimal};

verus! {

/// A key press.
#[derive(PartialEq, Eq, Structural, Clone, Copy, Debug)]
pub enum Key {
    Char(char),
    Enter,
    Esc,
    Tab,
    BackTab,
    Backspace,
    Up,
    Down,
    Left,
    Right,
    Other,
}

/// What the caller is to do after a key.
pub enum Effect {
    Nothing,
    /// Play this file.
    Play(String),
    TogglePause,
    Stop,
    VolumeUp,
    VolumeDown,
    /// Open the browser entry under the cursor, a directory
    /// (`BrowserState::enter_selected` with its contents).
    EnterDir,
    /// Go to the browser's parent directory (`BrowserState::go_up`).
    GoUp,
    /// List the browser's directory again (`BrowserState::refresh`).
    Refresh,
    /// Import this M3U file (`App::import_m3u`, then `App::finish_import`).
    ImportM3u(String),
    /// Save the active playlist.
    SavePlaylist,
    /// Start downloading the audio at this address
    /// (then `App::on_download_started`).
    StartDownload(String),
    /// Write these tags to the file (then `App::finish_tag_save`).
    SaveTags(TagEditor),
    /// Export the active playlist (then `App::finish_export`).
    ExportM3u,
    /// Read this file's tags and open the tag editor on them
    /// (`App::open_tag_editor`).
    EditTags(String),
}

/// What the caller knows of the world when a key comes: whether the browser
/// entry under the cursor is a directory, and whether a download is running.
#[derive(Clone, Copy)]
pub struct KeyEnv {
    pub selected_is_dir: bool,
    pub downloading: bool,
}

/// `s` without its last character, if any.
pub open spec fn popped(s: Seq<char>) -> Seq<char> {
    if s.len() > 0 {
        s.drop_last()
    } else {
        s
    }
}

fn pop_string(s: &String) -> (r: String)
    ensures
        r@ == popped(s@),
{
    let v = chars_of(s.as_str());
    if v.len() == 0 {
        String::new()
    } else {
        string_of(&v, 0, v.len() - 1)
    }
}

/// `b` is `a` back in normal mode with an empty input line.
pub open spec fn input_closed(a: App, b: App) -> bool {
    &&& b.mode == Mode::Normal
    &&& b.input_buffer@.len() == 0
    &&& b == (App { mode: Mode::Normal, input_buffer: b.input_buffer, ..a })
}

/// `b` is `a` in mode `m` with an empty input line.
pub open spec fn input_opened(a: App, b: App, m: Mode) -> bool {
    &&& b.mode == m
    &&& b.input_buffer@.len() == 0
    &&& b == (App { mode: m, input_buffer: b.input_buffer, ..a })
}

/// `b` is `a` with its input line set to `s`.
pub open spec fn input_set(a: App, b: App, s: Seq<char>) -> bool {
    &&& b.input_buffer@ == s
    &&& b == (App { input_buffer: b.input_buffer, ..a })
}

/// `b` is `a` with the status message cleared (its time untouched).
pub open spec fn status_cleared(a: App, b: App) -> bool {
    &&& b.status_msg@.len() == 0
    &&& b == (App { status_msg: b.status_msg, ..a })
}

/// The effect of having asked to play: the file, or nothing.
pub open spec fn play_effect(r: Option<String>, e: Effect) -> bool {
    match r {
        Some(p) => e == Effect::Play(p),
        None => e == Effect::Nothing,
    }
}

pub open spec fn save_if(changed: bool, e: Effect) -> bool {
    if changed {
        e == Effect::SavePlaylist
    } else {
        e == Effect::Nothing
    }
}

pub open spec fn unchanged(a: App, b: App, e: Effect) -> bool {
    b == a && e == Effect::Nothing
}

/// Keys while the history is shown: close it, move its cursor, or play the
/// entry under the cursor (closing it).
pub open spec fn history_step(a: App, key: Key, b: App, e: Effect) -> bool {
    let hs = a.history_selected;
    let n = a.history.entries.len();
    if key == Key::Char('H') || key == Key::Esc {
        b == (App { show_history: false, ..a }) && e == Effect::Nothing
    } else if key == Key::Char('j') || key == Key::Down {
        b == (App { history_selected: if hs + 1 < n {
            (hs + 1) as usize
        } else {
            hs
        }, ..a }) && e == Effect::Nothing
    } else if key == Key::Char('k') || key == Key::Up {
        b == (App { history_selected: if hs > 0 {
            (hs - 1) as usize
        } else {
            0
        }, ..a }) && e == Effect::Nothing
    } else if key == Key::Enter {
        if hs < n {
            b == (App { show_history: false, ..a }) && e == Effect::Play(
                a.history.entries@[hs as int].path,
            )
        } else {
            unchanged(a, b, e)
        }
    } else {
        unchanged(a, b, e)
    }
}

/// Keys while naming a new playlist: cancel, create it from the trimmed
/// input (if not blank), or edit the input.
pub open spec fn naming_step(a: App, key: Key, b: App, e: Effect) -> bool {
    match key {
        Key::Esc => input_closed(a, b) && e == Effect::Nothing,
        Key::Enter => {
            let name = trimmed(a.input_buffer@);
            if name.len() > 0 {
                &&& e == Effect::SavePlaylist
                &&& exists|m1: App, m2: App|
                    new_playlist_post(a, m1, name) && status_set(
                        m1,
                        m2,
                        "Created playlist '"@ + name + "'"@,
                    ) && input_closed(m2, b)
            } else {
                input_closed(a, b) && e == Effect::Nothing
            }
        },
        Key::Backspace => input_set(a, b, popped(a.input_buffer@)) && e == Effect::Nothing,
        Key::Char(c) => input_set(a, b, a.input_buffer@.push(c)) && e == Effect::Nothing,
        _ => unchanged(a, b, e),
    }
}

/// Keys while typing an address to download: cancel, start the download of
/// the trimmed input (if not blank), or edit the input.
pub open spec fn url_step(a: App, key: Key, b: App, e: Effect) -> bool {
    match key {
        Key::Esc => input_closed(a, b) && e == Effect::Nothing,
        Key::Enter => {
            let url = trimmed(a.input_buffer@);
            &&& input_closed(a, b)
            &&& if url.len() > 0 {
                e matches Effect::StartDownload(u) && u@ == url
            } else {
                e == Effect::Nothing
            }
        },
        Key::Backspace => input_set(a, b, popped(a.input_buffer@)) && e == Effect::Nothing,
        Key::Char(c) => input_set(a, b, a.input_buffer@.push(c)) && e == Effect::Nothing,
        _ => unchanged(a, b, e),
    }
}

/// `b`'s tag editor is `ed` with field `k` changed to the text `f`.
pub open spec fn field_edited(a: App, b: App, ed: TagEditor, k: int, f: Seq<char>) -> bool {
    &&& b == (App { tag_editor: b.tag_editor, ..a })
    &&& b.tag_editor matches Some(ne) && ne.path == ed.path && ne.active == ed.active
        && ne.fields@[k]@ == f && forall|j: int| 0 <= j < 3 && j != k ==> ne.fields@[j] == ed.fields@[j]
}

/// Keys in the tag editor: cancel, save (handing the edited tags out),
/// move between fields, or edit the field being typed into.
pub open spec fn tag_step(a: App, key: Key, b: App, e: Effect) -> bool {
    match a.tag_editor {
        None => unchanged(a, b, e),
        Some(ed) => match key {
            Key::Esc => b == (App { tag_editor: None, mode: Mode::Normal, ..a }) && e
                == Effect::Nothing,
            Key::Enter => b == (App { tag_editor: None, mode: Mode::Normal, ..a }) && e
                == Effect::SaveTags(ed),
            Key::Tab => b == (App {
                tag_editor: Some(TagEditor { active: ((ed.active + 1) % 3) as usize, ..ed }),
                ..a
            }) && e == Effect::Nothing,
            Key::BackTab => b == (App {
                tag_editor: Some(
                    TagEditor {
                        active: if ed.active == 0 {
                            2
                        } else {
                            (ed.active - 1) as usize
                        },
                        ..ed
                    },
                ),
                ..a
            }) && e == Effect::Nothing,
            Key::Backspace => field_edited(
                a,
                b,
                ed,
                ed.active as int,
                popped(ed.fields@[ed.active as int]@),
            ) && e == Effect::Nothing,
            Key::Char(c) => field_edited(
                a,
                b,
                ed,
                ed.active as int,
                ed.fields@[ed.active as int]@.push(c),
            ) && e == Effect::Nothing,
            _ => unchanged(a, b, e),
        },
    }
}

/// Enter on the browser while searching: open the directory under the
/// cursor, or play the file there.
pub open spec fn search_enter_browser(a: App, env: KeyEnv, b: App, e: Effect) -> bool {
    let sel = a.browser.selected as int;
    if sel < a.browser.entries.len() {
        if env.selected_is_dir {
            b == a && e == Effect::EnterDir
        } else {
            b == a && e == Effect::Play(a.browser.entries@[sel])
        }
    } else {
        unchanged(a, b, e)
    }
}

/// Keys while searching: cancel, act on the entry under the cursor
/// (ending the search), edit the search (the cursor snapping to a match), or
/// move among the matches.
pub open spec fn search_step(a: App, key: Key, env: KeyEnv, b: App, e: Effect) -> bool {
    let browser = a.focused_panel == Panel::Browser;
    match key {
        Key::Esc => input_closed(a, b) && e == Effect::Nothing,
        Key::Enter => if browser {
            exists|m: App| search_enter_browser(a, env, m, e) && input_closed(m, b)
        } else {
            exists|m: App, r: Option<String>|
                played(a, m, r, a.active_playlist as int, a.current().selected as int)
                    && play_effect(r, e) && input_closed(m, b)
        },
        Key::Backspace => exists|m: App|
            input_set(a, m, popped(a.input_buffer@)) && e == Effect::Nothing && if browser {
                snap_browser_post(m, b)
            } else {
                snap_playlist_post(m, b)
            },
        Key::Char(c) => exists|m: App|
            input_set(a, m, a.input_buffer@.push(c)) && e == Effect::Nothing && if browser {
                snap_browser_post(m, b)
            } else {
                snap_playlist_post(m, b)
            },
        Key::Down => e == Effect::Nothing && if browser {
            browser_nav_post(a, b, 1i32)
        } else {
            playlist_nav_post(a, b, 1i32)
        },
        Key::Up => e == Effect::Nothing && if browser {
            browser_nav_post(a, b, -1i32)
        } else {
            playlist_nav_post(a, b, -1i32)
        },
        _ => unchanged(a, b, e),
    }
}

/// Keys on the browser: move, open (a directory, an M3U file to import, or
/// a file to play), go up, add to the playlist, edit tags.
pub open spec fn browser_step(a: App, key: Key, env: KeyEnv, b: App, e: Effect) -> bool {
    let sel = a.browser.selected as int;
    let present = sel < a.browser.entries.len();
    let p = a.browser.entries@[sel];
    if key == Key::Down || key == Key::Char('j') {
        browser_nav_post(a, b, 1i32) && e == Effect::Nothing
    } else if key == Key::Up || key == Key::Char('k') {
        browser_nav_post(a, b, -1i32) && e == Effect::Nothing
    } else if key == Key::Enter || key == Key::Right || key == Key::Char('l') {
        if !present {
            unchanged(a, b, e)
        } else if env.selected_is_dir {
            b == a && e == Effect::EnterDir
        } else if is_m3u_path(p@) {
            b == a && e == Effect::ImportM3u(p)
        } else {
            status_cleared(a, b) && e == Effect::Play(p)
        }
    } else if key == Key::Left || key == Key::Char('h') || key == Key::Backspace {
        b == a && e == Effect::GoUp
    } else if key == Key::Char('a') {
        exists|added: bool| #[trigger] add_post(a, b, added) && save_if(added, e)
    } else if key == Key::Char('e') {
        if present && is_audio_path(p@) {
            b == a && e == Effect::EditTags(p)
        } else {
            unchanged(a, b, e)
        }
    } else {
        unchanged(a, b, e)
    }
}

/// Keys on the playlist: move, reorder, play (clearing the status), export,
/// delete, edit tags.
pub open spec fn playlist_step(a: App, key: Key, b: App, e: Effect) -> bool {
    let pl = a.current();
    if key == Key::Down || key == Key::Char('j') {
        playlist_nav_post(a, b, 1i32) && e == Effect::Nothing
    } else if key == Key::Up || key == Key::Char('k') {
        playlist_nav_post(a, b, -1i32) && e == Effect::Nothing
    } else if key == Key::Char('J') {
        exists|c: bool| #[trigger] move_down_post(a, b, c) && save_if(c, e)
    } else if key == Key::Char('K') {
        exists|c: bool| #[trigger] move_up_post(a, b, c) && save_if(c, e)
    } else if key == Key::Enter {
        exists|m: App, r: Option<String>|
            played(a, m, r, a.active_playlist as int, pl.selected as int) && play_effect(r, e) && if r
                is Some {
                status_cleared(m, b)
            } else {
                b == m
            }
    } else if key == Key::Char('X') {
        b == a && e == Effect::ExportM3u
    } else if key == Key::Char('d') {
        exists|c: bool| #[trigger] remove_post(a, b, c) && save_if(c, e)
    } else if key == Key::Char('e') {
        if pl.selected < pl.tracks.len() {
            b == a && e == Effect::EditTags(pl.tracks@[pl.selected as int].path)
        } else {
            unchanged(a, b, e)
        }
    } else {
        unchanged(a, b, e)
    }
}

/// Keys in normal mode: quit, switch panel, start searching, naming or a
/// download, switch playlist, control playback, refresh, show history,
/// toggle shuffle and repeat, skip tracks; other keys go to the focused panel.
pub open spec fn normal_step(a: App, key: Key, env: KeyEnv, b: App, e: Effect) -> bool {
    if key == Key::Char('q') {
        b == (App { should_quit: true, ..a }) && e == Effect::Nothing
    } else if key == Key::Tab {
        status_cleared(
            App {
                focused_panel: if a.focused_panel == Panel::Browser {
                    Panel::Playlist
                } else {
                    Panel::Browser
                },
                ..a
            },
            b,
        ) && e == Effect::Nothing
    } else if key == Key::Char('/') {
        input_opened(a, b, Mode::Searching) && e == Effect::Nothing
    } else if key == Key::Char('n') {
        input_opened(a, b, Mode::Naming) && e == Effect::Nothing
    } else if key == Key::Char('<') || key == Key::Char(',') {
        exists|m: App| #[trigger] prev_playlist_post(a, m) && status_cleared(m, b) && e == Effect::Nothing
    } else if key == Key::Char('>') || key == Key::Char('.') {
        exists|m: App| #[trigger] next_playlist_post(a, m) && status_cleared(m, b) && e == Effect::Nothing
    } else if key == Key::Char('+') || key == Key::Char('=') {
        b == a && e == Effect::VolumeUp
    } else if key == Key::Char('-') {
        b == a && e == Effect::VolumeDown
    } else if key == Key::Char(' ') {
        b == a && e == Effect::TogglePause
    } else if key == Key::Char('s') {
        b == a && e == Effect::Stop
    } else if key == Key::Char('y') {
        if env.downloading {
            unchanged(a, b, e)
        } else {
            input_opened(a, b, Mode::UrlInput) && e == Effect::Nothing
        }
    } else if key == Key::Char('r') {
        status_set(a, b, "Refreshed"@) && e == Effect::Refresh
    } else if key == Key::Char('H') {
        b == (App { show_history: true, history_selected: 0, ..a }) && e == Effect::Nothing
    } else if key == Key::Char('z') {
        toggle_shuffle_post(a, b) && e == Effect::Nothing
    } else if key == Key::Char('p') {
        toggle_repeat_post(a, b) && e == Effect::Nothing
    } else if key == Key::Char(']') {
        exists|r: Option<String>| #[trigger] advance_post(a, b, 1i32, r) && play_effect(r, e)
    } else if key == Key::Char('[') {
        exists|r: Option<String>| #[trigger] advance_post(a, b, -1i32, r) && play_effect(r, e)
    } else if a.focused_panel == Panel::Browser {
        browser_step(a, key, env, b, e)
    } else {
        playlist_step(a, key, b, e)
    }
}

/// What a key does: in the history popup, else according to the mode.
pub open spec fn key_step(a: App, key: Key, env: KeyEnv, b: App, e: Effect) -> bool {
    if a.show_history {
        history_step(a, key, b, e)
    } else {
        match a.mode {
            Mode::Naming => naming_step(a, key, b, e),
            Mode::UrlInput => url_step(a, key, b, e),
            Mode::TagEditing => tag_step(a, key, b, e),
            Mode::Searching => search_step(a, key, env, b, e),
            Mode::Normal => normal_step(a, key, env, b, e),
        }
    }
}

/// Lengths for which moving a cursor by one step cannot overflow.
pub open spec fn key_limits(a: App) -> bool {
    a.browser.entries.len() < i32::MAX && a.current().tracks.len() < i32::MAX
}

/// The keys that move the browser or playlist cursor from a panel.
pub open spec fn nav_key(key: Key) -> bool {
    key == Key::Up || key == Key::Down || key == Key::Char('j') || key == Key::Char('k')
}

/// Whether `key` moves the browser or playlist cursor in state `a` (the only
/// keys for which `key_limits` is needed): the arrows while searching, the
/// arrows and `j`/`k` in normal mode.
pub open spec fn moves_cursor(a: App, key: Key) -> bool {
    &&& !a.show_history
    &&& (a.mode == Mode::Searching && (key == Key::Up || key == Key::Down) || a.mode == Mode::Normal
        && nav_key(key))
}


/// In the tag editor, Tab moves to the next field and BackTab to the one
/// before (both wrapping over the three fields); the fields' texts and the
/// file stay as they were and the editor stays open.
pub proof fn lemma_tag_tab_cycles(a: App, key: Key, env: KeyEnv, b: App, e: Effect)
    requires
        !a.show_history,
        a.mode == Mode::TagEditing,
        a.tag_editor is Some,
        a.tag_editor->0.active < 3,
        key == Key::Tab || key == Key::BackTab,
        key_step(a, key, env, b, e),
    ensures
        e == Effect::Nothing,
        b.mode == Mode::TagEditing,
        b.tag_editor is Some,
        ({
            let ed = a.tag_editor->0;
            let ne = b.tag_editor->0;
            &&& ne.active < 3
            &&& key == Key::Tab ==> ne.active == (ed.active + 1) % 3
            &&& key == Key::BackTab ==> (ne.active + 1) % 3 == ed.active
            &&& ne.fields == ed.fields
            &&& ne.path == ed.path
        }),
{
}

/// While the history is shown, `j`/Down and `k`/Up move its cursor one
/// entry down or up, stopping at the ends; the cursor stays on an entry (where
/// there is any), the history stays shown and unchanged, and nothing is played.
pub proof fn lemma_history_cursor_moves(a: App, key: Key, env: KeyEnv, b: App, e: Effect)
    requires
        a.show_history,
        a.history.entries.len() == 0 || a.history_selected < a.history.entries.len(),
        key == Key::Char('j') || key == Key::Down || key == Key::Char('k') || key == Key::Up,
        key_step(a, key, env, b, e),
    ensures
        e == Effect::Nothing,
        b.show_history,
        b.history == a.history,
        b.history.entries.len() == 0 || b.history_selected < b.history.entries.len(),
        key == Key::Char('j') || key == Key::Down ==> b.history_selected == if a.history_selected + 1
            < a.history.entries.len() {
            a.history_selected + 1
        } else {
            a.history_selected as int
        },
        key == Key::Char('k') || key == Key::Up ==> b.history_selected == if a.history_selected > 0 {
            a.history_selected - 1
        } else {
            0
        },
{
}

impl App {
    fn close_input(&mut self)
        ensures
            input_closed(*old(self), *final(self)),
    {
        self.mode = Mode::Normal;
        self.input_buffer = String::new();
    }

    fn open_input(&mut self, m: Mode)
        ensures
            input_opened(*old(self), *final(self), m),
    {
        self.mode = m;
        self.input_buffer = String::new();
    }

    fn history_key(&mut self, key: Key) -> (e: Effect)
        requires
            old(self).wf(),
        ensures
            final(self).wf(),
            history_step(*old(self), key, *final(self), e),
    {
        let n = self.history.entries.len();
        let hs = self.history_selected;
        if key == Key::Char('H') || key == Key::Esc {
            self.show_history = false;
            Effect::Nothing
        } else if key == Key::Char('j') || key == Key::Down {
            if n > 0 && hs < n - 1 {
                self.history_selected = hs + 1;
            }
            Effect::Nothing
        } else if key == Key::Char('k') || key == Key::Up {
            if hs > 0 {
                self.history_selected = hs - 1;
            }
            Effect::Nothing
        } else if key == Key::Enter {
            if hs < n {
                let p = self.history.entries[hs].path.clone();
                self.show_history = false;
                Effect::Play(p)
            } else {
                Effect::Nothing
            }
        } else {
            Effect::Nothing
        }
    }

    fn naming_key(&mut self, key: Key) -> (e: Effect)
        requires
            old(self).wf(),
        ensures
            final(self).wf(),
            naming_step(*old(self), key, *final(self), e),
    {
        match key {
            Key::Esc => {
                self.close_input();
                Effect::Nothing
            },
            Key::Enter => {
                let name = trim(self.input_buffer.as_str());
                if !name.as_str().is_empty() {
                    self.new_playlist(name.as_str());
                    let ghost m1 = *self;
                    let mut msg = String::from_str("Created playlist '");
                    msg.append(name.as_str());
                    msg.append("'");
                    self.set_status(msg);
                    let ghost m2 = *self;
                    self.close_input();
                    assert(new_playlist_post(*old(self), m1, name@) && status_set(
                        m1,
                        m2,
                        "Created playlist '"@ + name@ + "'"@,
                    ) && input_closed(m2, *self));
                    Effect::SavePlaylist
                } else {
                    self.close_input();
                    Effect::Nothing
                }
            },
            Key::Backspace => {
                self.input_buffer = pop_string(&self.input_buffer);
                Effect::Nothing
            },
            Key::Char(c) => {
                push_char(&mut self.input_buffer, c);
                Effect::Nothing
            },
            _ => Effect::Nothing,
        }
    }

    fn url_key(&mut self, key: Key) -> (e: Effect)
        requires
            old(self).wf(),
        ensures
            final(self).wf(),
            url_step(*old(self), key, *final(self), e),
    {
        match key {
            Key::Esc => {
                self.close_input();
                Effect::Nothing
            },
            Key::Enter => {
                let url = trim(self.input_buffer.as_str());
                self.close_input();
                if !url.as_str().is_empty() {
                    Effect::StartDownload(url)
                } else {
                    Effect::Nothing
                }
            },
            Key::Backspace => {
                self.input_buffer = pop_string(&self.input_buffer);
                Effect::Nothing
            },
            Key::Char(c) => {
                push_char(&mut self.input_buffer, c);
                Effect::Nothing
            },
            _ => Effect::Nothing,
        }
    }

    fn tag_key(&mut self, key: Key) -> (e: Effect)
        requires
            old(self).wf(),
        ensures
            final(self).wf(),
            tag_step(*old(self), key, *final(self), e),
    {
        if self.tag_editor.is_none() {
            return Effect::Nothing;
        }
        match key {
            Key::Esc => {
                self.tag_editor = None;
                self.mode = Mode::Normal;
                Effect::Nothing
            },
            Key::Enter => {
                let ed = self.tag_editor.take().unwrap();
                self.mode = Mode::Normal;
                Effect::SaveTags(ed)
            },
            Key::Tab => {
                let mut ed = self.tag_editor.take().unwrap();
                ed.active = (ed.active + 1) % 3;
                self.tag_editor = Some(ed);
                Effect::Nothing
            },
            Key::BackTab => {
                let mut ed = self.tag_editor.take().unwrap();
                ed.active = if ed.active == 0 {
                    2
                } else {
                    ed.active - 1
                };
                self.tag_editor = Some(ed);
                Effect::Nothing
            },
            Key::Backspace => {
                let mut ed = self.tag_editor.take().unwrap();
                let k = ed.active;
                let f = pop_string(&ed.fields[k]);
                ed.fields[k] = f;
                self.tag_editor = Some(ed);
                Effect::Nothing
            },
            Key::Char(c) => {
                let mut ed = self.tag_editor.take().unwrap();
                let k = ed.active;
                let mut f = ed.fields[k].clone();
                push_char(&mut f, c);
                ed.fields[k] = f;
                self.tag_editor = Some(ed);
                Effect::Nothing
            },
            _ => Effect::Nothing,
        }
    }

    fn search_key(&mut self, key: Key, env: KeyEnv) -> (e: Effect)
        requires
            old(self).wf(),
            key == Key::Up || key == Key::Down ==> key_limits(*old(self)),
        ensures
            final(self).wf(),
            search_step(*old(self), key, env, *final(self), e),
    {
        let browser = self.focused_panel == Panel::Browser;
        match key {
            Key::Esc => {
                self.close_input();
                Effect::Nothing
            },
            Key::Enter => {
                if browser {
                    let sel = self.browser.selected;
                    let e = if sel < self.browser.entries.len() {
                        if env.selected_is_dir {
                            Effect::EnterDir
                        } else {
                            Effect::Play(self.browser.entries[sel].clone())
                        }
                    } else {
                        Effect::Nothing
                    };
                    let ghost m = *self;
                    self.close_input();
                    assert(search_enter_browser(*old(self), env, m, e) && input_closed(m, *self));
                    e
                } else {
                    let a = self.active_playlist;
                    let t = self.playlists[a].selected;
                    assert(t == old(self).current().selected);
                    let r = self.play_playlist_track(a, t);
                    let ghost m = *self;
                    let e = match &r {
                        Some(p) => Effect::Play(p.clone()),
                        None => Effect::Nothing,
                    };
                    self.close_input();
                    assert(played(*old(self), m, r, a as int, t as int) && play_effect(r, e)
                        && input_closed(m, *self));
                    e
                }
            },
            Key::Backspace => {
                self.input_buffer = pop_string(&self.input_buffer);
                let ghost m = *self;
                if browser {
                    self.snap_browser_to_visible();
                } else {
                    self.snap_playlist_to_visible();
                }
                assert(input_set(*old(self), m, popped(old(self).input_buffer@)));
                Effect::Nothing
            },
            Key::Char(c) => {
                push_char(&mut self.input_buffer, c);
                let ghost m = *self;
                if browser {
                    self.snap_browser_to_visible();
                } else {
                    self.snap_playlist_to_visible();
                }
                assert(input_set(*old(self), m, old(self).input_buffer@.push(c)));
                Effect::Nothing
            },
            Key::Down => {
                if browser {
                    self.browser_nav(1);
                } else {
                    self.playlist_nav(1);
                }
                Effect::Nothing
            },
            Key::Up => {
                if browser {
                    self.browser_nav(-1);
                } else {
                    self.playlist_nav(-1);
                }
                Effect::Nothing
            },
            _ => Effect::Nothing,
        }
    }

    fn browser_key(&mut self, key: Key, env: KeyEnv) -> (e: Effect)
        requires
            old(self).wf(),
            nav_key(key) ==> key_limits(*old(self)),
        ensures
            final(self).wf(),
            browser_step(*old(self), key, env, *final(self), e),
    {
        let sel = self.browser.selected;
        let present = sel < self.browser.entries.len();
        if key == Key::Down || key == Key::Char('j') {
            self.browser_nav(1);
            Effect::Nothing
        } else if key == Key::Up || key == Key::Char('k') {
            self.browser_nav(-1);
            Effect::Nothing
        } else if key == Key::Enter || key == Key::Right || key == Key::Char('l') {
            if !present {
                Effect::Nothing
            } else if env.selected_is_dir {
                Effect::EnterDir
            } else if is_m3u(self.browser.entries[sel].as_str()) {
                Effect::ImportM3u(self.browser.entries[sel].clone())
            } else {
                let p = self.browser.entries[sel].clone();
                self.status_msg = String::new();
                Effect::Play(p)
            }
        } else if key == Key::Left || key == Key::Char('h') || key == Key::Backspace {
            Effect::GoUp
        } else if key == Key::Char('a') {
            let added = self.add_selected_to_playlist();
            assert(add_post(*old(self), *self, added));
            if added {
                Effect::SavePlaylist
            } else {
                Effect::Nothing
            }
        } else if key == Key::Char('e') {
            if present && is_audio(self.browser.entries[sel].as_str()) {
                Effect::EditTags(self.browser.entries[sel].clone())
            } else {
                Effect::Nothing
            }
        } else {
            Effect::Nothing
        }
    }

    fn playlist_key(&mut self, key: Key) -> (e: Effect)
        requires
            old(self).wf(),
            nav_key(key) ==> key_limits(*old(self)),
        ensures
            final(self).wf(),
            playlist_step(*old(self), key, *final(self), e),
    {
        let a = self.active_playlist;
        if key == Key::Down || key == Key::Char('j') {
            self.playlist_nav(1);
            Effect::Nothing
        } else if key == Key::Up || key == Key::Char('k') {
            self.playlist_nav(-1);
            Effect::Nothing
        } else if key == Key::Char('J') {
            let c = self.move_track_down();
            assert(move_down_post(*old(self), *self, c));
            if c {
                Effect::SavePlaylist
            } else {
                Effect::Nothing
            }
        } else if key == Key::Char('K') {
            let c = self.move_track_up();
            assert(move_up_post(*old(self), *self, c));
            if c {
                Effect::SavePlaylist
            } else {
                Effect::Nothing
            }
        } else if key == Key::Enter {
            let t = self.playlists[a].selected;
            assert(t == old(self).current().selected);
            let r = self.play_playlist_track(a, t);
            let ghost m = *self;
            match &r {
                Some(p) => {
                    let p2 = p.clone();
                    self.status_msg = String::new();
                    assert(played(*old(self), m, r, a as int, t as int) && play_effect(
                        r,
                        Effect::Play(p2),
                    ) && status_cleared(m, *self));
                    Effect::Play(p2)
                },
                None => {
                    assert(played(*old(self), m, r, a as int, t as int));
                    Effect::Nothing
                },
            }
        } else if key == Key::Char('X') {
            Effect::ExportM3u
        } else if key == Key::Char('d') {
            let c = self.remove_selected_from_playlist();
            assert(remove_post(*old(self), *self, c));
            if c {
                Effect::SavePlaylist
            } else {
                Effect::Nothing
            }
        } else if key == Key::Char('e') {
            let t = self.playlists[a].selected;
            if t < self.playlists[a].tracks.len() {
                Effect::EditTags(self.playlists[a].tracks[t].path.clone())
            } else {
                Effect::Nothing
            }
        } else {
            Effect::Nothing
        }
    }

    fn normal_key(&mut self, key: Key, env: KeyEnv) -> (e: Effect)
        requires
            old(self).wf(),
            nav_key(key) ==> key_limits(*old(self)),
        ensures
            final(self).wf(),
            normal_step(*old(self), key, env, *final(self), e),
    {
        if key == Key::Char('q') {
            self.should_quit = true;
            Effect::Nothing
        } else if key == Key::Tab {
            self.focused_panel = if self.focused_panel == Panel::Browser {
                Panel::Playlist
            } else {
                Panel::Browser
            };
            self.status_msg = String::new();
            Effect::Nothing
        } else if key == Key::Char('/') {
            self.open_input(Mode::Searching);
            Effect::Nothing
        } else if key == Key::Char('n') {
            self.open_input(Mode::Naming);
            Effect::Nothing
        } else if key == Key::Char('<') || key == Key::Char(',') {
            self.prev_playlist();
            let ghost m = *self;
            self.status_msg = String::new();
            assert(prev_playlist_post(*old(self), m) && status_cleared(m, *self));
            Effect::Nothing
        } else if key == Key::Char('>') || key == Key::Char('.') {
            self.next_playlist();
            let ghost m = *self;
            self.status_msg = String::new();
            assert(next_playlist_post(*old(self), m) && status_cleared(m, *self));
            Effect::Nothing
        } else if key == Key::Char('+') || key == Key::Char('=') {
            Effect::VolumeUp
        } else if key == Key::Char('-') {
            Effect::VolumeDown
        } else if key == Key::Char(' ') {
            Effect::TogglePause
        } else if key == Key::Char('s') {
            Effect::Stop
        } else if key == Key::Char('y') {
            if !env.downloading {
                self.open_input(Mode::UrlInput);
            }
            Effect::Nothing
        } else if key == Key::Char('r') {
            self.set_status(String::from_str("Refreshed"));
            Effect::Refresh
        } else if key == Key::Char('H') {
            self.show_history = true;
            self.history_selected = 0;
            Effect::Nothing
        } else if key == Key::Char('z') {
            self.toggle_shuffle();
            Effect::Nothing
        } else if key == Key::Char('p') {
            self.toggle_repeat();
            Effect::Nothing
        } else if key == Key::Char(']') {
            let r = self.advance_track(1);
            assert(advance_post(*old(self), *self, 1i32, r));
            match r {
                Some(p) => Effect::Play(p),
                None => Effect::Nothing,
            }
        } else if key == Key::Char('[') {
            let r = self.advance_track(-1);
            assert(advance_post(*old(self), *self, -1i32, r));
            match r {
                Some(p) => Effect::Play(p),
                None => Effect::Nothing,
            }
        } else if self.focused_panel == Panel::Browser {
            self.browser_key(key, env)
        } else {
            self.playlist_key(key)
        }
    }

    /// Acts on a key: changes the state as the key decides, and returns what
    /// the caller is to do in the world.
    pub fn handle_key(&mut self, key: Key, env: KeyEnv) -> (e: Effect)
        requires
            old(self).wf(),
            moves_cursor(*old(self), key) ==> key_limits(*old(self)),
        ensures
            final(self).wf(),
            key_step(*old(self), key, env, *final(self), e),
    {
        if self.show_history {
            return self.history_key(key);
        }
        match self.mode {
            Mode::Naming => self.naming_key(key),
            Mode::UrlInput => self.url_key(key),
            Mode::TagEditing => self.tag_key(key),
            Mode::Searching => self.search_key(key, env),
            Mode::Normal => self.normal_key(key, env),
        }
    }

    /// Whether `key` would move the browser or playlist cursor now (and so
    /// needs `key_limits`).
    pub fn key_moves_cursor(&self, key: Key) -> (r: bool)
        ensures
            r == moves_cursor(*self, key),
    {
        !self.show_history && (self.mode == Mode::Searching && (key == Key::Up || key == Key::Down)
            || self.mode == Mode::Normal && (key == Key::Up || key == Key::Down || key == Key::Char('j')
            || key == Key::Char('k')))
    }

    /// Reports whether writing the tags succeeded, and tells whether the
    /// playing track's tags are to be read again (they are, on success).
    pub fn finish_tag_save(&mut self, ok: bool) -> (reload: bool)
        ensures
            reload == ok,
            status_set(*old(self), *final(self), if ok {
                "Tags saved"@
            } else {
                "Failed to save tags"@
            }),
    {
        if ok {
            self.set_status(String::from_str("Tags saved"));
        } else {
            self.set_status(String::from_str("Failed to save tags"));
        }
        ok
    }

    /// Reports how an import went: the number of tracks imported into the
    /// (now active) playlist, or `None` where it failed.
    pub fn finish_import(&mut self, count: Option<usize>)
        requires
            old(self).wf(),
        ensures
            match count {
                Some(n) => status_set(
                    *old(self),
                    *final(self),
                    "Imported '"@ + old(self).current().name@ + "' ("@ + decimal(n as nat)
                        + " tracks)"@,
                ),
                None => status_set(*old(self), *final(self), "Failed to import M3U"@),
            },
    {
        match count {
            Some(n) => {
                let mut msg = String::from_str("Imported '");
                msg.append(self.current_playlist().name.as_str());
                msg.append("' (");
                push_decimal(&mut msg, n as u64);
                msg.append(" tracks)");
                self.set_status(msg);
            },
            None => self.set_status(String::from_str("Failed to import M3U")),
        }
    }

    /// Reports how an export went: the file written, or `None` where it failed.
    pub fn finish_export(&mut self, written: Option<String>)
        ensures
            match written {
                Some(p) => status_set(*old(self), *final(self), "Exported to "@ + p@),
                None => status_set(*old(self), *final(self), "Export failed"@),
            },
    {
        match written {
            Some(p) => {
                let mut msg = String::from_str("Exported to ");
                msg.append(p.as_str());
                self.set_status(msg);
            },
            None => self.set_status(String::from_str("Export failed")),
        }
    }
}

} // verus!
