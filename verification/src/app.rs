//! The application state and what each operation does to it.

use std::time::Instant;
use vstd::prelude::*;
use crate::browser::{BrowserState, DirEntry};
use crate::history::{after_add, History, HistoryEntry};
use crate::browser::is_audio_path;
use crate::browser::is_audio;
use crate::m3u::{import, imported, m3u_dir, m3u_entries, track_views};
use crate::paths::{file_name, file_name_of, is_same_path, join, joined, lowercase, same_path, to_lowercase};
use crate::text::{chars_of, contains, contains_seq};
use crate::player::TrackInfo;
use crate::playlist::{Playlist, Track};
use crate::sys;

verus! {

/// The panel that has the keyboard.
#[derive(PartialEq, Eq, Structural, Clone, Copy, Debug)]
pub enum Panel {
    Browser,
    Playlist,
}

/// What keys currently do.
#[derive(PartialEq, Eq, Structural, Clone, Copy, Debug)]
pub enum Mode {
    Normal,
    Naming,
    UrlInput,
    Searching,
    TagEditing,
}

/// Whether playback goes on past the end of the playlist, and how.
#[derive(PartialEq, Eq, Structural, Clone, Copy, Debug)]
pub enum RepeatMode {
    Off,
    All,
    One,
}

/// The tag editor: the file, its title, artist and album being edited, and
/// the field being typed into.
pub struct TagEditor {
    pub path: String,
    pub fields: [String; 3],
    pub active: usize,
}

/// The state of the player's interface.
pub struct App {
    pub browser: BrowserState,
    pub playlists: Vec<Playlist>,
    pub active_playlist: usize,
    pub focused_panel: Panel,
    pub mode: Mode,
    pub input_buffer: String,
    pub status_msg: String,
    /// When the status message was set; `None` for one that does not expire.
    pub status_msg_time: Option<Instant>,
    pub should_quit: bool,
    pub shuffle: bool,
    pub repeat: RepeatMode,
    pub tag_editor: Option<TagEditor>,
    pub history: History,
    pub show_history: bool,
    pub history_selected: usize,
    /// Accumulated play time, in nanoseconds, of the track in `play_elapsed_for`.
    pub play_elapsed: u128,
    /// The track whose play time is being accumulated.
    pub play_elapsed_for: Option<String>,
    /// The track already logged to history this play session.
    pub history_logged_for: Option<String>,
    /// (playlist index, track index) of the track playing.
    pub playing_track: Option<(usize, usize)>,
}

/// The directory used where the user has no home directory.
pub open spec fn root_dir() -> Seq<char> {
    "/"@
}

impl App {
    /// The invariant every operation keeps: there is a playlist and the active
    /// one exists, every cursor is in range, and the tag editor's field exists.
    pub open spec fn wf(&self) -> bool {
        &&& self.playlists.len() > 0
        &&& self.active_playlist < self.playlists.len()
        &&& forall|i: int| 0 <= i < self.playlists.len() ==> #[trigger] self.playlists[i].wf()
        &&& self.browser.wf()
        &&& match self.tag_editor {
            Some(ed) => ed.active < 3,
            None => true,
        }
    }

    pub open spec fn current(&self) -> Playlist {
        self.playlists[self.active_playlist as int]
    }

    /// A new interface on the directory `home` (whose contents are `listing`),
    /// with the saved playlists (or a single empty "Default" one where there
    /// are none) and the saved history.
    pub fn new(home: String, listing: Vec<DirEntry>, playlists: Vec<Playlist>, history: History) -> (r: Self)
        requires
            forall|i: int| 0 <= i < playlists.len() ==> #[trigger] playlists[i].wf(),
        ensures
            r.wf(),
            r.browser.current_dir == home,
            crate::browser::lists(listing@, r.browser.entries@),
            r.browser.selected == 0,
            playlists.len() > 0 ==> r.playlists@ == playlists@,
            playlists.len() == 0 ==> r.playlists.len() == 1 && r.playlists[0].name@ == "Default"@
                && r.playlists[0].tracks.len() == 0,
            r.active_playlist == 0,
            r.focused_panel == Panel::Browser,
            r.mode == Mode::Normal,
            r.input_buffer@.len() == 0,
            r.status_msg@.len() == 0,
            r.status_msg_time.is_none(),
            !r.should_quit,
            !r.shuffle,
            r.repeat == RepeatMode::Off,
            r.tag_editor.is_none(),
            r.history == history,
            !r.show_history,
            r.history_selected == 0,
            r.play_elapsed == 0,
            r.play_elapsed_for.is_none(),
            r.history_logged_for.is_none(),
            r.playing_track.is_none(),
    {
        let mut playlists = playlists;
        if playlists.len() == 0 {
            playlists.push(Playlist::new("Default"));
        }
        App {
            browser: BrowserState::new(home, listing),
            playlists,
            active_playlist: 0,
            focused_panel: Panel::Browser,
            mode: Mode::Normal,
            input_buffer: String::new(),
            status_msg: String::new(),
            status_msg_time: None,
            should_quit: false,
            shuffle: false,
            repeat: RepeatMode::Off,
            tag_editor: None,
            history,
            show_history: false,
            history_selected: 0,
            play_elapsed: 0,
            play_elapsed_for: None,
            history_logged_for: None,
            playing_track: None,
        }
    }

    /// The active playlist.
    pub fn current_playlist(&self) -> (r: &Playlist)
        requires
            self.wf(),
        ensures
            *r == self.current(),
    {
        &self.playlists[self.active_playlist]
    }

    /// Sets the status message, which expires after a while.
    pub fn set_status(&mut self, msg: String)
        ensures
            final(self).status_msg == msg,
            final(self).status_msg_time.is_some(),
            *final(self) == (App {
                status_msg: msg,
                status_msg_time: final(self).status_msg_time,
                ..*old(self)
            }),
    {
        self.status_msg = msg;
        self.status_msg_time = Some(sys::now());
    }

    /// Clears the status message once it has stood for `secs` whole seconds
    /// and that is two or more.
    pub fn expire_status(&mut self, secs: u64)
        ensures
            status_expired(*old(self), *final(self), secs),
    {
        if self.status_msg_time.is_some() && secs >= 2 {
            self.status_msg = String::new();
            self.status_msg_time = None;
        }
    }

    /// Clears the status message once it has stood two seconds. How long it
    /// has stood is read from the clock: the state after is what
    /// `expire_status` gives for some whole number of seconds, so it is either
    /// unchanged or has its timed message cleared.
    pub fn tick_status(&mut self)
        ensures
            exists|secs: u64| status_expired(*old(self), *final(self), secs),
            old(self).status_msg_time.is_none() ==> *final(self) == *old(self),
    {
        let secs = match &self.status_msg_time {
            Some(t) => sys::whole_secs_since(t),
            None => 0,
        };
        self.expire_status(secs);
    }

    /// Turns shuffle on or off and says so.
    pub fn toggle_shuffle(&mut self)
        ensures
            toggle_shuffle_post(*old(self), *final(self)),
    {
        self.shuffle = !self.shuffle;
        let msg = if self.shuffle {
            String::from_str("Shuffle on")
        } else {
            String::from_str("Shuffle off")
        };
        self.set_status(msg);
    }

    /// Cycles repeat: off, all, one, off; and says so.
    pub fn toggle_repeat(&mut self)
        ensures
            toggle_repeat_post(*old(self), *final(self)),
    {
        self.repeat = match self.repeat {
            RepeatMode::Off => RepeatMode::All,
            RepeatMode::All => RepeatMode::One,
            RepeatMode::One => RepeatMode::Off,
        };
        let msg = match self.repeat {
            RepeatMode::Off => String::from_str("Repeat: off"),
            RepeatMode::All => String::from_str("Repeat: all"),
            RepeatMode::One => String::from_str("Repeat: one"),
        };
        self.set_status(msg);
    }

    /// Makes the next playlist active, after the last the first.
    pub fn next_playlist(&mut self)
        requires
            old(self).wf(),
        ensures
            final(self).wf(),
            next_playlist_post(*old(self), *final(self)),
    {
        self.active_playlist = (self.active_playlist + 1) % self.playlists.len();
    }

    /// Makes the previous playlist active, before the first the last.
    pub fn prev_playlist(&mut self)
        requires
            old(self).wf(),
        ensures
            final(self).wf(),
            prev_playlist_post(*old(self), *final(self)),
    {
        if self.active_playlist == 0 {
            self.active_playlist = self.playlists.len() - 1;
        } else {
            self.active_playlist = self.active_playlist - 1;
        }
    }

    /// Adds an empty playlist named `name` and makes it active. The new
    /// playlist is then to be saved.
    pub fn new_playlist(&mut self, name: &str)
        requires
            old(self).wf(),
        ensures
            final(self).wf(),
            new_playlist_post(*old(self), *final(self), name@),
    {
        self.playlists.push(Playlist::new(name));
        self.active_playlist = self.playlists.len() - 1;
        assert(self.playlists@.drop_last() =~= old(self).playlists@);
    }

    /// Moves the browser cursor by `delta` among the entries that match the
    /// search, wrapping around; nothing happens where none match.
    pub fn browser_nav(&mut self, delta: i32)
        requires
            old(self).wf(),
            old(self).browser.entries.len() + delta <= i32::MAX,
        ensures
            final(self).wf(),
            browser_nav_post(*old(self), *final(self), delta),
    {
        let visible = self.browser_visible_indices();
        proof {
            lemma_matching_props(
                self.browser.entries.len() as nat,
                |i: int| entry_shown(self.browser.entries@[i]@, search_query(*self, Panel::Browser)),
            );
        }
        if visible.len() == 0 {
            return ;
        }
        let t = nav_in(&visible, self.browser.selected, delta);
        proof {
            lemma_nav_target_in(visible@, self.browser.selected, delta as int);
        }
        self.browser.selected = t;
    }

    /// Sets the cursor of playlist `a`.
    fn set_playlist_cursor(&mut self, a: usize, sel: usize)
        requires
            a < old(self).playlists.len(),
        ensures
            *final(self) == (App {
                playlists: final(self).playlists,
                ..*old(self)
            }),
            final(self).playlists@ == old(self).playlists@.update(
                a as int,
                Playlist { selected: sel, ..old(self).playlists[a as int] },
            ),
    {
        self.playlists[a].selected = sel;
    }

    /// Moves the playlist cursor by `delta` among the tracks that match the
    /// search, wrapping around; nothing happens where none match.
    pub fn playlist_nav(&mut self, delta: i32)
        requires
            old(self).wf(),
            old(self).current().tracks.len() + delta <= i32::MAX,
        ensures
            final(self).wf(),
            playlist_nav_post(*old(self), *final(self), delta),
    {
        let visible = self.playlist_visible_indices();
        proof {
            let t = self.current().tracks@;
            lemma_matching_props(
                t.len(),
                |i: int| track_shown(t[i].name@, search_query(*self, Panel::Playlist)),
            );
        }
        if visible.len() == 0 {
            return ;
        }
        let a = self.active_playlist;
        let t = nav_in(&visible, self.playlists[a].selected, delta);
        proof {
            lemma_nav_target_in(visible@, self.current().selected, delta as int);
        }
        self.set_playlist_cursor(a, t);
        proof {
            assert forall|i: int| 0 <= i < self.playlists.len() implies #[trigger] self.playlists[i].wf() by {
                if i != a {
                    assert(self.playlists[i] == old(self).playlists[i]);
                }
            }
        }
    }

    /// Puts the browser cursor on the first matching entry when the entry
    /// under it does not match the search.
    pub fn snap_browser_to_visible(&mut self)
        requires
            old(self).wf(),
        ensures
            final(self).wf(),
            snap_browser_post(*old(self), *final(self)),
    {
        let visible = self.browser_visible_indices();
        proof {
            lemma_matching_props(
                self.browser.entries.len() as nat,
                |i: int| entry_shown(self.browser.entries@[i]@, search_query(*self, Panel::Browser)),
            );
            lemma_position_of(visible@, self.browser.selected);
        }
        if visible.len() > 0 && position(&visible, self.browser.selected).is_none() {
            self.browser.selected = visible[0];
        }
    }

    /// Puts the playlist cursor on the first matching track when the track
    /// under it does not match the search.
    pub fn snap_playlist_to_visible(&mut self)
        requires
            old(self).wf(),
        ensures
            final(self).wf(),
            snap_playlist_post(*old(self), *final(self)),
    {
        let visible = self.playlist_visible_indices();
        let a = self.active_playlist;
        let sel = self.playlists[a].selected;
        let n = self.playlists[a].tracks.len();
        proof {
            let t = self.current().tracks@;
            assert(t.len() == n);
            lemma_matching_props(
                t.len(),
                |i: int| track_shown(t[i].name@, search_query(*self, Panel::Playlist)),
            );
            lemma_position_of(visible@, sel);
        }
        if visible.len() > 0 && position(&visible, sel).is_none() {
            self.set_playlist_cursor(a, visible[0]);
            proof {
                assert forall|i: int| 0 <= i < self.playlists.len() implies #[trigger] self.playlists[i].wf() by {
                    if i != a {
                        assert(self.playlists[i] == old(self).playlists[i]);
                    }
                }
            }
        }
    }

    /// Moves the track under the cursor one place up, with the cursor.
    /// Returns whether the playlist changed (and is to be saved).
    pub fn move_track_up(&mut self) -> (changed: bool)
        requires
            old(self).wf(),
        ensures
            final(self).wf(),
            move_up_post(*old(self), *final(self), changed),
    {
        let a = self.active_playlist;
        let s = self.playlists[a].selected;
        proof {
            assert(self.playlists[a as int].wf());
        }
        if s > 0 && self.playlists[a].tracks.len() > 1 {
            swap_tracks(&mut self.playlists[a].tracks, s - 1, s);
            self.playlists[a].selected = s - 1;
            proof {
                assert forall|i: int| 0 <= i < self.playlists.len() implies #[trigger] self.playlists[i].wf() by {
                    if i != a {
                        assert(self.playlists[i] == old(self).playlists[i]);
                    }
                }
            }
            true
        } else {
            false
        }
    }

    /// Moves the track under the cursor one place down, with the cursor.
    /// Returns whether the playlist changed (and is to be saved).
    pub fn move_track_down(&mut self) -> (changed: bool)
        requires
            old(self).wf(),
        ensures
            final(self).wf(),
            move_down_post(*old(self), *final(self), changed),
    {
        let a = self.active_playlist;
        let s = self.playlists[a].selected;
        proof {
            assert(self.playlists[a as int].wf());
        }
        if self.playlists[a].tracks.len() > 0 && s + 1 < self.playlists[a].tracks.len() {
            swap_tracks(&mut self.playlists[a].tracks, s, s + 1);
            self.playlists[a].selected = s + 1;
            proof {
                assert forall|i: int| 0 <= i < self.playlists.len() implies #[trigger] self.playlists[i].wf() by {
                    if i != a {
                        assert(self.playlists[i] == old(self).playlists[i]);
                    }
                }
            }
            true
        } else {
            false
        }
    }

    /// Removes the track under the cursor; the cursor stays, or moves to the
    /// new last track. Returns whether the playlist changed (and is to be saved).
    pub fn remove_selected_from_playlist(&mut self) -> (changed: bool)
        requires
            old(self).wf(),
        ensures
            final(self).wf(),
            remove_post(*old(self), *final(self), changed),
    {
        let a = self.active_playlist;
        let s = self.playlists[a].selected;
        if self.playlists[a].tracks.len() > 0 && s < self.playlists[a].tracks.len() {
            self.playlists[a].tracks.remove(s);
            let n = self.playlists[a].tracks.len();
            let last = if n == 0 {
                0
            } else {
                n - 1
            };
            self.playlists[a].selected = if s < last {
                s
            } else {
                last
            };
            proof {
                assert forall|i: int| 0 <= i < self.playlists.len() implies #[trigger] self.playlists[i].wf() by {
                    if i != a {
                        assert(self.playlists[i] == old(self).playlists[i]);
                    }
                }
            }
            true
        } else {
            false
        }
    }

    /// Adds the browser entry under the cursor to the active playlist if it is
    /// an audio file, named after its file name, and says what happened.
    /// Returns whether a track was added (and the playlist is to be saved).
    pub fn add_selected_to_playlist(&mut self) -> (added: bool)
        requires
            old(self).wf(),
        ensures
            final(self).wf(),
            add_post(*old(self), *final(self), added),
    {
        let path = match self.browser.selected_path() {
            Some(p) => p.clone(),
            None => {
                return false;
            },
        };
        if is_audio(path.as_str()) {
            let name = match file_name(path.as_str()) {
                Some(n) => n,
                None => String::new(),
            };
            let a = self.active_playlist;
            self.playlists[a].tracks.push(Track { name, path });
            let mut msg = String::from_str("Added to ");
            msg.append(self.playlists[a].name.as_str());
            self.set_status(msg);
            proof {
                assert forall|i: int| 0 <= i < self.playlists.len() implies #[trigger] self.playlists[i].wf() by {
                    assert(old(self).playlists[i].wf());
                    if i != a {
                        assert(self.playlists[i] == old(self).playlists[i]);
                    }
                }
            }
            true
        } else {
            self.set_status(String::from_str("Not an audio file"));
            false
        }
    }

    /// Opens the tag editor on `path`, its fields filled from the tags
    /// `existing` (empty where a tag is missing), typing into the title.
    pub fn open_tag_editor(&mut self, path: String, existing: Option<&TrackInfo>)
        ensures
            final(self).mode == Mode::TagEditing,
            ({
                match final(self).tag_editor {
                    Some(ed) => {
                        &&& ed.path == path
                        &&& ed.active == 0
                        &&& ed.fields@[0]@ == tag_or_empty(existing, 0)
                        &&& ed.fields@[1]@ == tag_or_empty(existing, 1)
                        &&& ed.fields@[2]@ == tag_or_empty(existing, 2)
                    },
                    None => false,
                }
            }),
            *final(self) == (App {
                mode: Mode::TagEditing,
                tag_editor: final(self).tag_editor,
                ..*old(self)
            }),
            old(self).wf() ==> final(self).wf(),
    {
        let (title, artist, album) = match existing {
            Some(t) => (copy_opt(&t.title), copy_opt(&t.artist), copy_opt(&t.album)),
            None => (String::new(), String::new(), String::new()),
        };
        self.tag_editor = Some(TagEditor { fields: [title, artist, album], path, active: 0 });
        self.mode = Mode::TagEditing;
    }

    /// Plays track `tr_idx` of playlist `pl_idx`, if it exists: the
    /// playlist's cursor goes to it and it is recorded as playing. Returns its
    /// file.
    pub fn play_playlist_track(&mut self, pl_idx: usize, tr_idx: usize) -> (r: Option<String>)
        requires
            old(self).wf(),
        ensures
            final(self).wf(),
            if pl_idx < old(self).playlists.len() && tr_idx < old(self).playlists[pl_idx as int].tracks.len() {
                &&& r == Some(old(self).playlists[pl_idx as int].tracks@[tr_idx as int].path)
                &&& *final(self) == (App {
                    playlists: final(self).playlists,
                    playing_track: Some((pl_idx, tr_idx)),
                    ..*old(self)
                })
                &&& final(self).playlists@ == old(self).playlists@.update(
                    pl_idx as int,
                    Playlist { selected: tr_idx, ..old(self).playlists[pl_idx as int] },
                )
            } else {
                r.is_none() && *final(self) == *old(self)
            },
    {
        if pl_idx < self.playlists.len() && tr_idx < self.playlists[pl_idx].tracks.len() {
            let path = self.playlists[pl_idx].tracks[tr_idx].path.clone();
            self.set_playlist_cursor(pl_idx, tr_idx);
            self.playing_track = Some((pl_idx, tr_idx));
            proof {
                assert forall|i: int| 0 <= i < self.playlists.len() implies #[trigger] self.playlists[i].wf() by {
                    if i != pl_idx {
                        assert(self.playlists[i] == old(self).playlists[i]);
                    }
                }
            }
            Some(path)
        } else {
            None
        }
    }

    /// Plays the track after (`dir` 1) or before (`dir` -1) the one playing,
    /// as repeat and shuffle decide. Returns its file, or `None` where nothing
    /// is playing from a playlist, the playlist is gone or empty, or playback
    /// ends.
    pub fn advance_track(&mut self, dir: i32) -> (r: Option<String>)
        requires
            old(self).wf(),
        ensures
            final(self).wf(),
            advance_post(*old(self), *final(self), dir, r),
    {
        let (p, t) = match self.playing_track {
            Some(pt) => pt,
            None => {
                return None;
            },
        };
        if p >= self.playlists.len() {
            return None;
        }
        let len = self.playlists[p].tracks.len();
        if len == 0 {
            return None;
        }
        let random = if self.shuffle && self.repeat != RepeatMode::One {
            sys::random_index(len)
        } else {
            0
        };
        let next = next_track_index(self.repeat, self.shuffle, t, len, dir, random);
        match next {
            Some(k) => {
                let r = self.play_playlist_track(p, k);
                assert(played(*old(self), *self, r, p as int, k as int));
                r
            },
            None => None,
        }
    }

    /// Counts play time and logs the playing track (`now_playing`) to the
    /// history once it has played 30 seconds. Play time counts only while not
    /// `paused`, starts again from zero when the track changes (to another
    /// file, compared by component), and is
    /// dropped when nothing plays. Returns whether the history changed (and is
    /// to be saved).
    pub fn tick_play_time(&mut self, delta: u128, now_playing: Option<&String>, paused: bool) -> (logged: bool)
        requires
            match now_playing {
                Some(p) => !paused ==> elapsed_base(*old(self), p@) + delta <= MAX_ELAPSED,
                None => true,
            },
        ensures
            tick_post(*old(self), *final(self), delta, now_playing, paused, logged),
            old(self).wf() ==> final(self).wf(),
    {
        let path = match now_playing {
            Some(p) => p,
            None => {
                self.play_elapsed = 0;
                self.play_elapsed_for = None;
                self.history_logged_for = None;
                assert(*self == (App {
                    play_elapsed: 0,
                    play_elapsed_for: None,
                    history_logged_for: None,
                    ..*old(self)
                }));
                return false;
            },
        };
        let same = match &self.play_elapsed_for {
            Some(f) => is_same_path(f.as_str(), path.as_str()),
            None => false,
        };
        if !same {
            self.play_elapsed = 0;
            self.play_elapsed_for = Some(path.clone());
        }
        if !paused {
            self.play_elapsed = self.play_elapsed + delta;
        }
        let already = match &self.history_logged_for {
            Some(f) => is_same_path(f.as_str(), path.as_str()),
            None => false,
        };
        if self.play_elapsed >= LOG_AFTER && !already {
            let name = match file_name(path.as_str()) {
                Some(n) => n,
                None => String::new(),
            };
            let ghost n = name;
            self.history.add(name, path.clone());
            proof {
                crate::history::lemma_add_moves_to_top(
                    old(self).history.entries@,
                    HistoryEntry { name: n, path: *path },
                );
            }
            self.history_logged_for = Some(path.clone());
            true
        } else {
            false
        }
    }

    /// Reads an M3U playlist (its path, its text, and whether each entry's
    /// file exists) into a new playlist and makes it active. Returns its
    /// number of tracks, or `None` where the path has no file name. The new
    /// playlist is then to be saved.
    pub fn import_m3u(&mut self, m3u_path: &str, content: &str, exists: &Vec<bool>) -> (r: Option<usize>)
        requires
            old(self).wf(),
            exists.len() == m3u_entries(content@).len(),
        ensures
            final(self).wf(),
            match r {
                None => {
                    &&& crate::paths::file_stem_of(m3u_path@) is None
                    &&& *final(self) == *old(self)
                },
                Some(n) => {
                    let pl = final(self).playlists@.last();
                    &&& final(self).playlists@.drop_last() == old(self).playlists@
                    &&& final(self).active_playlist == old(self).playlists.len()
                    &&& Some(pl.name@) == crate::paths::file_stem_of(m3u_path@)
                    &&& track_views(pl.tracks@) == imported(
                        m3u_entries(content@),
                        m3u_dir(m3u_path@),
                        exists@,
                    )
                    &&& pl.selected == 0
                    &&& n == pl.tracks.len()
                    &&& *final(self) == (App {
                        playlists: final(self).playlists,
                        active_playlist: final(self).active_playlist,
                        ..*old(self)
                    })
                },
            },
    {
        match import(m3u_path, content, exists) {
            Some(pl) => {
                let count = pl.tracks.len();
                self.playlists.push(pl);
                self.active_playlist = self.playlists.len() - 1;
                proof {
                    assert forall|i: int| 0 <= i < self.playlists.len() implies #[trigger] self.playlists[i].wf() by {
                        if i < old(self).playlists.len() {
                            assert(self.playlists[i] == old(self).playlists[i]);
                        }
                    }
                }
                Some(count)
            },
            None => None,
        }
    }

    /// Where the active playlist is exported: `<download dir>/<name>.m3u`.
    pub fn export_path(&self) -> (r: String)
        requires
            self.wf(),
        ensures
            exists|home: Seq<char>|
                r@ == joined(joined(home, "Music/tui-fi"@), self.current().name@ + ".m3u"@),
    {
        let dir = download_dir();
        let mut file = self.current_playlist().name.clone();
        file.append(".m3u");
        join(dir.as_str(), file.as_str())
    }

    /// Records that a download started (`ok`) or could not start: the status
    /// says "Downloading..." with no expiry, so it stays until the download
    /// ends, or says (for a while) that the downloader is missing.
    pub fn on_download_started(&mut self, ok: bool)
        ensures
            ok ==> final(self).status_msg@ == "Downloading..."@ && *final(self) == (App {
                status_msg: final(self).status_msg,
                status_msg_time: None,
                ..*old(self)
            }),
            !ok ==> final(self).status_msg@ == "Error: yt-dlp not found"@ && final(self).status_msg_time.is_some() && *final(self) == (App {
                status_msg: final(self).status_msg,
                status_msg_time: final(self).status_msg_time,
                ..*old(self)
            }),
    {
        if ok {
            self.status_msg = String::from_str("Downloading...");
            self.status_msg_time = None;
        } else {
            self.set_status(String::from_str("Error: yt-dlp not found"));
        }
    }

    /// Records that the download ended, and tells whether the browser shows
    /// the download directory (and so is to be refreshed).
    pub fn on_download_finished(&mut self) -> (refresh: bool)
        ensures
            final(self).status_msg@ == "Download complete"@,
            final(self).status_msg_time.is_some(),
            *final(self) == (App {
                status_msg: final(self).status_msg,
                status_msg_time: final(self).status_msg_time,
                ..*old(self)
            }),
            exists|home: Seq<char>|
                refresh == same_path(old(self).browser.current_dir@, joined(home, "Music/tui-fi"@)),
    {
        self.set_status(String::from_str("Download complete"));
        let dir = download_dir();
        is_same_path(self.browser.current_dir.as_str(), dir.as_str())
    }

    /// The search text in effect for `panel`.
    fn active_search(&self, panel: Panel) -> (r: String)
        ensures
            r@ == search_query(*self, panel),
    {
        if self.mode == Mode::Searching && self.focused_panel == panel {
            to_lowercase(self.input_buffer.as_str())
        } else {
            String::new()
        }
    }

    /// Indices of the browser entries that match the active search, in order.
    pub fn browser_visible_indices(&self) -> (r: Vec<usize>)
        ensures
            r@ == browser_visible(*self),
    {
        let q = self.active_search(Panel::Browser);
        let qv = chars_of(q.as_str());
        let ghost f = |i: int| entry_shown(self.browser.entries@[i]@, q@);
        let n = self.browser.entries.len();
        let mut r: Vec<usize> = Vec::new();
        let mut i: usize = 0;
        while i < n
            invariant
                i <= n == self.browser.entries.len(),
                qv@ == q@,
                q@ == search_query(*self, Panel::Browser),
                f == (|i: int| entry_shown(self.browser.entries@[i]@, q@)),
                r@ == matching(i as nat, f),
            decreases n - i,
        {
            let shown = if qv.len() == 0 {
                true
            } else {
                match file_name(self.browser.entries[i].as_str()) {
                    Some(name) => {
                        let l = to_lowercase(name.as_str());
                        contains(&chars_of(l.as_str()), &qv)
                    },
                    None => false,
                }
            };
            if shown {
                r.push(i);
            }
            i = i + 1;
        }
        r
    }

    /// Indices of the active playlist's tracks that match the active search,
    /// in order.
    pub fn playlist_visible_indices(&self) -> (r: Vec<usize>)
        requires
            self.wf(),
        ensures
            r@ == playlist_visible(*self),
    {
        let q = self.active_search(Panel::Playlist);
        let qv = chars_of(q.as_str());
        let pl = self.current_playlist();
        let ghost t = pl.tracks@;
        let ghost f = |i: int| track_shown(t[i].name@, q@);
        let n = pl.tracks.len();
        let mut r: Vec<usize> = Vec::new();
        let mut i: usize = 0;
        while i < n
            invariant
                i <= n == pl.tracks.len(),
                t == pl.tracks@,
                *pl == self.current(),
                qv@ == q@,
                q@ == search_query(*self, Panel::Playlist),
                f == (|i: int| track_shown(t[i].name@, q@)),
                r@ == matching(i as nat, f),
            decreases n - i,
        {
            let shown = if qv.len() == 0 {
                true
            } else {
                let l = to_lowercase(pl.tracks[i].name.as_str());
                contains(&chars_of(l.as_str()), &qv)
            };
            if shown {
                r.push(i);
            }
            i = i + 1;
        }
        r
    }
}

/// The indices `i < n` for which `f(i)` holds, in increasing order.
pub open spec fn matching(n: nat, f: spec_fn(int) -> bool) -> Seq<usize>
    decreases n,
{
    if n == 0 {
        Seq::empty()
    } else {
        let r = matching((n - 1) as nat, f);
        if f(n - 1) {
            r.push((n - 1) as usize)
        } else {
            r
        }
    }
}

/// The search text in effect for `panel`: the lower-cased input while
/// searching in that panel, else nothing.
pub open spec fn search_query(app: App, panel: Panel) -> Seq<char> {
    if app.mode == Mode::Searching && app.focused_panel == panel {
        lowercase(app.input_buffer@)
    } else {
        Seq::empty()
    }
}

/// A browser entry is shown for query `q` when `q` is empty or its
/// lower-cased file name contains `q`.
pub open spec fn entry_shown(p: Seq<char>, q: Seq<char>) -> bool {
    q.len() == 0 || match file_name_of(p) {
        Some(n) => contains_seq(lowercase(n), q),
        None => false,
    }
}

/// A track is shown for query `q` when `q` is empty or its lower-cased name
/// contains `q`.
pub open spec fn track_shown(name: Seq<char>, q: Seq<char>) -> bool {
    q.len() == 0 || contains_seq(lowercase(name), q)
}

pub open spec fn browser_visible(app: App) -> Seq<usize> {
    let q = search_query(app, Panel::Browser);
    matching(app.browser.entries.len() as nat, |i: int| entry_shown(app.browser.entries@[i]@, q))
}

pub open spec fn playlist_visible(app: App) -> Seq<usize> {
    let q = search_query(app, Panel::Playlist);
    let t = app.current().tracks@;
    matching(t.len(), |i: int| track_shown(t[i].name@, q))
}

/// Position of the first `x` in `s`, or -1.
pub open spec fn position_of(s: Seq<usize>, x: usize) -> int
    decreases s.len(),
{
    if s.len() == 0 {
        -1
    } else {
        let k = position_of(s.drop_last(), x);
        if k >= 0 {
            k
        } else if s.last() == x {
            s.len() - 1
        } else {
            -1
        }
    }
}

/// Where the cursor `sel` moves by `delta` within the visible indices `vis`
/// (non-empty): from its position there (or the first), wrapping around.
pub open spec fn nav_target(vis: Seq<usize>, sel: usize, delta: int) -> usize {
    let k = position_of(vis, sel);
    let p = if k >= 0 {
        k
    } else {
        0
    };
    vis[(p + delta) % (vis.len() as int)]
}

/// The matching indices are below `n`, each matches, every match is among
/// them, and they increase.
pub proof fn lemma_matching_props(n: nat, f: spec_fn(int) -> bool)
    requires
        n <= usize::MAX,
    ensures
        matching(n, f).len() <= n,
        forall|k: int| 0 <= k < matching(n, f).len() ==> #[trigger] matching(n, f)[k] < n && f(
            matching(n, f)[k] as int,
        ),
        forall|i: int| 0 <= i < n && #[trigger] f(i) ==> matching(n, f).contains(i as usize),
        forall|a: int, b: int|
            0 <= a < b < matching(n, f).len() ==> matching(n, f)[a] < matching(n, f)[b],
    decreases n,
{
    if n > 0 {
        lemma_matching_props((n - 1) as nat, f);
        let r = matching((n - 1) as nat, f);
        if f(n - 1) {
            assert(r.push((n - 1) as usize)[r.len() as int] == (n - 1) as usize);
        }
        assert forall|i: int| 0 <= i < n && #[trigger] f(i) implies matching(n, f).contains(i as usize) by {
            if i < n - 1 {
                assert(r.contains(i as usize));
                let j = choose|j: int| 0 <= j < r.len() && r[j] == i as usize;
                assert(matching(n, f)[j] == i as usize);
            } else {
                assert(matching(n, f)[r.len() as int] == i as usize);
            }
        }
    }
}

/// `position_of` finds `x` exactly where `s` contains it.
pub proof fn lemma_position_of(s: Seq<usize>, x: usize)
    ensures
        -1 <= position_of(s, x) < s.len(),
        position_of(s, x) >= 0 ==> s[position_of(s, x)] == x,
        position_of(s, x) < 0 <==> !s.contains(x),
    decreases s.len(),
{
    if s.len() > 0 {
        lemma_position_of(s.drop_last(), x);
        if position_of(s.drop_last(), x) < 0 && s.last() != x {
            assert forall|i: int| 0 <= i < s.len() implies s[i] != x by {
                if i < s.len() - 1 {
                    assert(s.drop_last()[i] == s[i]);
                }
            }
        }
        if s.drop_last().contains(x) {
            let j = choose|j: int| 0 <= j < s.drop_last().len() && s.drop_last()[j] == x;
            assert(s[j] == x);
        }
    }
}

/// 30 seconds, in nanoseconds: the play time after which a track is logged.
pub const LOG_AFTER: u128 = 30_000_000_000;

/// The longest duration, in nanoseconds.
pub const MAX_ELAPSED: u128 = 18_446_744_073_709_551_615_999_999_999;

/// Whether `o` holds a path that is the same file as `p` (by component).
pub open spec fn same_opt_path(o: Option<String>, p: Seq<char>) -> bool {
    match o {
        Some(s) => same_path(s@, p),
        None => false,
    }
}

/// The play time already counted for track `p`.
pub open spec fn elapsed_base(app: App, p: Seq<char>) -> int {
    if same_opt_path(app.play_elapsed_for, p) {
        app.play_elapsed as int
    } else {
        0
    }
}

/// `new` and `r` are what playing track `k` of playlist `p` gives from `old`.
pub open spec fn played(old: App, new: App, r: Option<String>, p: int, k: int) -> bool {
    if 0 <= p < old.playlists.len() && 0 <= k < old.playlists[p].tracks.len() {
        &&& r == Some(old.playlists[p].tracks@[k].path)
        &&& new == (App { playlists: new.playlists, playing_track: Some((p as usize, k as usize)), ..old })
        &&& new.playlists@ == old.playlists@.update(p, Playlist { selected: k as usize, ..old.playlists[p] })
    } else {
        r.is_none() && new == old
    }
}

/// What `App::expire_status` does after `secs` whole seconds: a timed status
/// message that has stood two seconds or more is cleared (with its time);
/// otherwise nothing changes.
pub open spec fn status_expired(a: App, b: App, secs: u64) -> bool {
    if a.status_msg_time.is_some() && secs >= 2 {
        b == (App { status_msg: b.status_msg, status_msg_time: None, ..a }) && b.status_msg@.len() == 0
    } else {
        b == a
    }
}

/// The directory downloads go to, under a home directory.
pub fn download_dir_in(home: &str) -> (r: String)
    ensures
        r@ == joined(home@, "Music/tui-fi"@),
{
    join(home, "Music/tui-fi")
}

/// The home directory `home`, or `/` where there is none.
pub fn home_or(home: Option<String>) -> (r: String)
    ensures
        r@ == match home {
            Some(h) => h@,
            None => root_dir(),
        },
{
    match home {
        Some(h) => h,
        None => String::from_str("/"),
    }
}

/// The user's home directory, or `/` where there is none; either way a
/// path that is not empty.
pub fn home_or_root() -> (r: String)
    ensures
        r@.len() > 0,
{
    proof {
        reveal_strlit("/");
    }
    home_or(sys::home_dir())
}

/// The directory downloads go to: `Music/tui-fi` in the home directory.
pub fn download_dir() -> (r: String)
    ensures
        exists|home: Seq<char>| r@ == joined(home, "Music/tui-fi"@),
{
    let home = home_or_root();
    download_dir_in(home.as_str())
}

/// The downloader's arguments: extract the audio of `url` as MP3 at best
/// quality into `dir`, named by title.
pub fn download_args_in(dir: &str, url: &str) -> (r: Vec<String>)
    ensures
        r@.len() == 8,
        r@[0]@ == "-x"@,
        r@[1]@ == "--audio-format"@,
        r@[2]@ == "mp3"@,
        r@[3]@ == "--audio-quality"@,
        r@[4]@ == "0"@,
        r@[5]@ == "-o"@,
        r@[6]@ == dir@ + "/%(title)s.%(ext)s"@,
        r@[7]@ == url@,
{
    let mut template = String::from_str(dir);
    template.append("/%(title)s.%(ext)s");
    let mut r: Vec<String> = Vec::new();
    r.push(String::from_str("-x"));
    r.push(String::from_str("--audio-format"));
    r.push(String::from_str("mp3"));
    r.push(String::from_str("--audio-quality"));
    r.push(String::from_str("0"));
    r.push(String::from_str("-o"));
    r.push(template);
    r.push(String::from_str(url));
    r
}

/// The downloader's arguments for `url`, into the download directory.
pub fn download_args(url: &str) -> (r: Vec<String>)
    ensures
        r@.len() == 8,
        r@[0]@ == "-x"@,
        r@[1]@ == "--audio-format"@,
        r@[2]@ == "mp3"@,
        r@[3]@ == "--audio-quality"@,
        r@[4]@ == "0"@,
        r@[5]@ == "-o"@,
        exists|home: Seq<char>|
            r@[6]@ == joined(home, "Music/tui-fi"@) + "/%(title)s.%(ext)s"@,
        r@[7]@ == url@,
{
    let dir = download_dir();
    download_args_in(dir.as_str(), url)
}

/// What `App::toggle_shuffle` does to the state.
pub open spec fn toggle_shuffle_post(a: App, b: App) -> bool {
    &&& b.shuffle == !a.shuffle
    &&& b.status_msg_time.is_some()
    &&& b.status_msg@ == if b.shuffle {
        "Shuffle on"@
    } else {
        "Shuffle off"@
    }
    &&& b == (App {
        shuffle: !a.shuffle,
        status_msg: b.status_msg,
        status_msg_time: b.status_msg_time,
        ..a
    })
}

/// What `App::toggle_repeat` does to the state.
pub open spec fn toggle_repeat_post(a: App, b: App) -> bool {
    &&& b.repeat == next_repeat(a.repeat)
    &&& b.status_msg_time.is_some()
    &&& b.status_msg@ == repeat_text(b.repeat)
    &&& b == (App {
        repeat: next_repeat(a.repeat),
        status_msg: b.status_msg,
        status_msg_time: b.status_msg_time,
        ..a
    })
}

/// What `App::next_playlist` does to the state.
pub open spec fn next_playlist_post(a: App, b: App) -> bool {
    &&& b.active_playlist == (a.active_playlist + 1) % (
    a.playlists.len() as int)
    &&& b == (App { active_playlist: b.active_playlist, ..a })
}

/// What `App::prev_playlist` does to the state.
pub open spec fn prev_playlist_post(a: App, b: App) -> bool {
    &&& b.active_playlist == if a.active_playlist == 0 {
        a.playlists.len() - 1
    } else {
        a.active_playlist - 1
    }
    &&& b == (App { active_playlist: b.active_playlist, ..a })
}

/// What `App::browser_nav` does to the state.
pub open spec fn browser_nav_post(a: App, b: App, delta: i32) -> bool {
    &&& ({
        let vis = browser_visible(a);
        if vis.len() == 0 {
            b == a
        } else {
            b == (App {
                browser: BrowserState {
                    selected: nav_target(vis, a.browser.selected, delta as int),
                    ..a.browser
                },
                ..a
            })
        }
    })
}

/// What `App::playlist_nav` does to the state.
pub open spec fn playlist_nav_post(a: App, b: App, delta: i32) -> bool {
    &&& b == (App { playlists: b.playlists, ..a })
    &&& playlist_visible(a).len() == 0 ==> b.playlists@ =~= a.playlists@
    &&& playlist_visible(a).len() > 0 ==> b.playlists@ =~= a.playlists@.update(
        a.active_playlist as int,
        Playlist {
            selected: nav_target(
                playlist_visible(a),
                a.current().selected,
                delta as int,
            ),
            ..a.current()
        },
    )
}

/// What `App::snap_browser_to_visible` does to the state.
pub open spec fn snap_browser_post(a: App, b: App) -> bool {
    &&& ({
        let vis = browser_visible(a);
        if vis.len() > 0 && !vis.contains(a.browser.selected) {
            b == (App {
                browser: BrowserState { selected: vis[0], ..a.browser },
                ..a
            })
        } else {
            b == a
        }
    })
}

/// What `App::snap_playlist_to_visible` does to the state.
pub open spec fn snap_playlist_post(a: App, b: App) -> bool {
    &&& b == (App { playlists: b.playlists, ..a })
    &&& ({
        let vis = playlist_visible(a);
        if vis.len() > 0 && !vis.contains(a.current().selected) {
            b.playlists@ =~= a.playlists@.update(
                a.active_playlist as int,
                Playlist { selected: vis[0], ..a.current() },
            )
        } else {
            b.playlists@ =~= a.playlists@
        }
    })
}

/// What `App::move_track_up` does to the state.
pub open spec fn move_up_post(a: App, b: App, changed: bool) -> bool {
    &&& b == (App { playlists: b.playlists, ..a })
    &&& ({
        let pl = a.current();
        let s = pl.selected as int;
        if s > 0 && pl.tracks.len() > 1 {
            &&& changed
            &&& b.playlists@ =~= a.playlists@.update(
                a.active_playlist as int,
                Playlist {
                    tracks: b.current().tracks,
                    selected: (s - 1) as usize,
                    ..pl
                },
            )
            &&& b.current().tracks@ =~= pl.tracks@.update(s - 1, pl.tracks@[s]).update(
                s,
                pl.tracks@[s - 1],
            )
        } else {
            !changed && b.playlists@ =~= a.playlists@
        }
    })
}

/// What `App::move_track_down` does to the state.
pub open spec fn move_down_post(a: App, b: App, changed: bool) -> bool {
    &&& b == (App { playlists: b.playlists, ..a })
    &&& ({
        let pl = a.current();
        let s = pl.selected as int;
        if pl.tracks.len() > 0 && s + 1 < pl.tracks.len() {
            &&& changed
            &&& b.playlists@ =~= a.playlists@.update(
                a.active_playlist as int,
                Playlist {
                    tracks: b.current().tracks,
                    selected: (s + 1) as usize,
                    ..pl
                },
            )
            &&& b.current().tracks@ =~= pl.tracks@.update(s, pl.tracks@[s + 1]).update(
                s + 1,
                pl.tracks@[s],
            )
        } else {
            !changed && b.playlists@ =~= a.playlists@
        }
    })
}

/// What `App::remove_selected_from_playlist` does to the state.
pub open spec fn remove_post(a: App, b: App, changed: bool) -> bool {
    &&& b == (App { playlists: b.playlists, ..a })
    &&& ({
        let pl = a.current();
        let s = pl.selected as int;
        if pl.tracks.len() > 0 && s < pl.tracks.len() {
            let rest = pl.tracks@.remove(s);
            &&& changed
            &&& b.playlists@ =~= a.playlists@.update(
                a.active_playlist as int,
                Playlist {
                    tracks: b.current().tracks,
                    selected: if s < rest.len() {
                        s as usize
                    } else if rest.len() == 0 {
                        0
                    } else {
                        (rest.len() - 1) as usize
                    },
                    ..pl
                },
            )
            &&& b.current().tracks@ =~= rest
        } else {
            !changed && b.playlists@ =~= a.playlists@
        }
    })
}

/// What `App::add_selected_to_playlist` does to the state.
pub open spec fn add_post(a: App, b: App, added: bool) -> bool {
    &&& ({
        let sel = a.browser.selected as int;
        if sel < a.browser.entries.len() {
            let p = a.browser.entries@[sel]@;
            if is_audio_path(p) {
                let pl = a.current();
                &&& added
                &&& b.current().tracks@.drop_last() =~= pl.tracks@
                &&& b.current().tracks.len() == pl.tracks.len() + 1
                &&& b.current().tracks@.last().path@ == p
                &&& b.current().tracks@.last().name@ == name_or_empty(file_name_of(p))
                &&& b.playlists@ =~= a.playlists@.update(
                    a.active_playlist as int,
                    Playlist { tracks: b.current().tracks, ..pl },
                )
                &&& b.status_msg@ == "Added to "@ + pl.name@
                &&& b == (App {
                    playlists: b.playlists,
                    status_msg: b.status_msg,
                    status_msg_time: b.status_msg_time,
                    ..a
                })
            } else {
                &&& !added
                &&& b.status_msg@ == "Not an audio file"@
                &&& b == (App {
                    status_msg: b.status_msg,
                    status_msg_time: b.status_msg_time,
                    ..a
                })
            }
        } else {
            !added && b == a
        }
    })
}

/// What `App::advance_track` does to the state.
pub open spec fn advance_post(a: App, b: App, dir: i32, r: Option<String>) -> bool {
    &&& match a.playing_track {
        None => r.is_none() && b == a,
        Some((p, t)) => if p >= a.playlists.len() || a.playlists[p as int].tracks.len() == 0 {
            r.is_none() && b == a
        } else if a.repeat == RepeatMode::One || !a.shuffle {
            match next_index(
                a.repeat,
                false,
                t as int,
                a.playlists[p as int].tracks.len() as int,
                dir as int,
                0,
            ) {
                Some(k) => played(a, b, r, p as int, k),
                None => r.is_none() && b == a,
            }
        } else {
            exists|k: int|
                0 <= k < a.playlists[p as int].tracks.len() && played(
                    a,
                    b,
                    r,
                    p as int,
                    k,
                )
        },
    }
}

/// What `App::tick_play_time` does to the state.
pub open spec fn tick_post(
    a: App,
    b: App,
    delta: u128,
    now_playing: Option<&String>,
    paused: bool,
    logged: bool,
) -> bool {
    match now_playing {
        None => !logged && b == (App {
            play_elapsed: 0,
            play_elapsed_for: None,
            history_logged_for: None,
            ..a
        }),
        Some(p) => {
            &&& b.play_elapsed == elapsed_base(a, p@) + if paused {
                0
            } else {
                delta as int
            }
            &&& b.play_elapsed_for == if same_opt_path(a.play_elapsed_for, p@) {
                a.play_elapsed_for
            } else {
                Some(*p)
            }
            &&& logged == (b.play_elapsed >= LOG_AFTER && !same_opt_path(a.history_logged_for, p@))
            &&& logged ==> b.history_logged_for == Some(*p) && b.history.entries@
                =~= after_add(
                a.history.entries@,
                HistoryEntry { name: b.history.entries@[0].name, path: *p },
            ) && b.history.entries@[0].name@ == name_or_empty(file_name_of(p@))
            &&& !logged ==> b.history == a.history && b.history_logged_for == a.history_logged_for
            &&& b == (App {
                play_elapsed: b.play_elapsed,
                play_elapsed_for: b.play_elapsed_for,
                history: b.history,
                history_logged_for: b.history_logged_for,
                ..a
            })
        },
    }
}

/// What `App::new_playlist` does to the state.
pub open spec fn new_playlist_post(a: App, b: App, name: Seq<char>) -> bool {
    &&& b.playlists.len() == a.playlists.len() + 1
    &&& b.playlists@.drop_last() =~= a.playlists@
    &&& b.playlists@.last().name@ == name
    &&& b.playlists@.last().tracks.len() == 0
    &&& b.playlists@.last().selected == 0
    &&& b.active_playlist == a.playlists.len()
    &&& b == (App { playlists: b.playlists, active_playlist: b.active_playlist, ..a })
}

/// `b` is `a` with the status message set to `msg`, to expire later.
pub open spec fn status_set(a: App, b: App, msg: Seq<char>) -> bool {
    &&& b.status_msg@ == msg
    &&& b.status_msg_time.is_some()
    &&& b == (App { status_msg: b.status_msg, status_msg_time: b.status_msg_time, ..a })
}

pub open spec fn name_or_empty(n: Option<Seq<char>>) -> Seq<char> {
    match n {
        Some(s) => s,
        None => Seq::empty(),
    }
}

/// Tag `k` (0 title, 1 artist, 2 album) of `info`, or nothing.
pub open spec fn tag_or_empty(info: Option<&TrackInfo>, k: int) -> Seq<char> {
    match info {
        Some(t) => {
            let o = if k == 0 {
                t.title
            } else if k == 1 {
                t.artist
            } else {
                t.album
            };
            match o {
                Some(s) => s@,
                None => Seq::empty(),
            }
        },
        None => Seq::empty(),
    }
}

fn copy_opt(o: &Option<String>) -> (r: String)
    ensures
        r@ == match o {
            Some(s) => s@,
            None => Seq::<char>::empty(),
        },
{
    match o {
        Some(s) => s.clone(),
        None => String::new(),
    }
}

/// Exchanges two tracks of a list.
fn swap_tracks(v: &mut Vec<Track>, a: usize, b: usize)
    requires
        a < old(v).len(),
        b < old(v).len(),
        a != b,
    ensures
        final(v)@ == old(v)@.update(a as int, old(v)@[b as int]).update(b as int, old(v)@[a as int]),
{
    let mut tmp = Track { name: String::new(), path: String::new() };
    v.set_and_swap(a, &mut tmp);
    v.set_and_swap(b, &mut tmp);
    v.set_and_swap(a, &mut tmp);
}

/// Position of the first `x` in `v`, if any (where a list shown as `v`
/// highlights its entry `x`).
pub fn position(v: &Vec<usize>, x: usize) -> (r: Option<usize>)
    ensures
        match r {
            Some(k) => k == position_of(v@, x),
            None => position_of(v@, x) < 0,
        },
{
    let mut i: usize = 0;
    while i < v.len()
        invariant
            i <= v.len(),
            position_of(v@.take(i as int), x) < 0,
        decreases v.len() - i,
    {
        assert(v@.take(i + 1).drop_last() == v@.take(i as int));
        if v[i] == x {
            proof {
                lemma_position_prefix(v@, (i + 1) as int, x);
            }
            return Some(i);
        }
        i = i + 1;
    }
    assert(v@.take(v.len() as int) == v@);
    None
}

proof fn lemma_position_prefix(s: Seq<usize>, k: int, x: usize)
    requires
        0 <= k <= s.len(),
        position_of(s.take(k), x) >= 0,
    ensures
        position_of(s, x) == position_of(s.take(k), x),
    decreases s.len() - k,
{
    if k < s.len() {
        assert(s.take(k + 1).drop_last() == s.take(k));
        lemma_position_prefix(s, k + 1, x);
    } else {
        assert(s.take(k) == s);
    }
}

/// `(p + delta)` modulo `len`, taken in the mathematical (non-negative) sense.
pub fn wrap_index(p: usize, delta: i32, len: usize) -> (r: usize)
    requires
        len > 0,
    ensures
        r == (p + delta) % (len as int),
        r < len,
{
    let pm = p % len;
    proof {
        vstd::arithmetic::div_mod::lemma_fundamental_div_mod(p as int, len as int);
    }
    let ghost l = len as int;
    let ghost qp = p as int / l;
    assert(p as int == l * qp + pm);
    if delta >= 0 {
        let d = (delta as usize) % len;
        proof {
            vstd::arithmetic::div_mod::lemma_fundamental_div_mod(delta as int, l);
        }
        let ghost qd = delta as int / l;
        assert(delta as int == l * qd + d);
        if pm >= len - d {
            proof {
                assert(l * qp + l * qd + l == l * (qp + qd + 1)) by (nonlinear_arith);
                vstd::arithmetic::div_mod::lemma_fundamental_div_mod_converse(
                    p + delta,
                    l,
                    qp + qd + 1,
                    pm - (l - d),
                );
            }
            pm - (len - d)
        } else {
            proof {
                assert(l * qp + l * qd == l * (qp + qd)) by (nonlinear_arith);
                vstd::arithmetic::div_mod::lemma_fundamental_div_mod_converse(
                    p + delta,
                    l,
                    qp + qd,
                    pm + d,
                );
            }
            pm + d
        }
    } else {
        let back = (0 - (delta as i64)) as usize;
        let r = back % len;
        proof {
            vstd::arithmetic::div_mod::lemma_fundamental_div_mod(back as int, l);
        }
        let ghost q = back as int / l;
        assert(back as int == l * q + r);
        if pm >= r {
            proof {
                assert(l * qp - l * q == l * (qp - q)) by (nonlinear_arith);
                vstd::arithmetic::div_mod::lemma_fundamental_div_mod_converse(
                    p + delta,
                    l,
                    qp - q,
                    pm - r,
                );
            }
            pm - r
        } else {
            proof {
                assert(l * qp - l * q - l == l * (qp - q - 1)) by (nonlinear_arith);
                vstd::arithmetic::div_mod::lemma_fundamental_div_mod_converse(
                    p + delta,
                    l,
                    qp - q - 1,
                    pm + l - r,
                );
            }
            len - (r - pm)
        }
    }
}

/// The cursor's new place among the visible indices `vis`, moved by `delta`.
fn nav_in(vis: &Vec<usize>, sel: usize, delta: i32) -> (r: usize)
    requires
        vis.len() > 0,
    ensures
        r == nav_target(vis@, sel, delta as int),
{
    let p = match position(vis, sel) {
        Some(k) => k,
        None => 0,
    };
    proof {
        lemma_position_of(vis@, sel);
    }
    vis[wrap_index(p, delta, vis.len())]
}

/// The index of the track to play after track `tr` of a playlist of `len`
/// tracks, stepping by `dir`: the same under repeat-one; `random` under
/// shuffle; otherwise the next one, wrapping under repeat-all and stopping at
/// either end under no repeat.
pub open spec fn next_index(
    repeat: RepeatMode,
    shuffle: bool,
    tr: int,
    len: int,
    dir: int,
    random: int,
) -> Option<int> {
    if repeat == RepeatMode::One {
        Some(tr)
    } else if shuffle {
        Some(random)
    } else {
        let c = tr + dir;
        if repeat == RepeatMode::Off && (c < 0 || c >= len) {
            None
        } else {
            Some(c % len)
        }
    }
}

pub open spec fn opt_index(o: Option<usize>) -> Option<int> {
    match o {
        Some(k) => Some(k as int),
        None => None,
    }
}

/// The next track's index; `random` is the index drawn when shuffling.
pub fn next_track_index(
    repeat: RepeatMode,
    shuffle: bool,
    tr: usize,
    len: usize,
    dir: i32,
    random: usize,
) -> (r: Option<usize>)
    requires
        len > 0,
    ensures
        opt_index(r) == next_index(repeat, shuffle, tr as int, len as int, dir as int, random as int),
{
    if repeat == RepeatMode::One {
        Some(tr)
    } else if shuffle {
        Some(random)
    } else {
        let off = repeat == RepeatMode::Off;
        let outside = if dir < 0 {
            let back = (0 - (dir as i64)) as usize;
            tr < back || tr - back >= len
        } else {
            tr >= len || (dir as usize) >= len - tr
        };
        if off && outside {
            None
        } else {
            Some(wrap_index(tr, dir, len))
        }
    }
}

/// A cursor step always lands on one of the visible indices.
pub proof fn lemma_nav_target_in(vis: Seq<usize>, sel: usize, delta: int)
    requires
        vis.len() > 0,
    ensures
        exists|k: int| 0 <= k < vis.len() && nav_target(vis, sel, delta) == vis[k],
{
    lemma_position_of(vis, sel);
    let k = position_of(vis, sel);
    let p = if k >= 0 {
        k
    } else {
        0
    };
    let j = (p + delta) % (vis.len() as int);
    assert(0 <= j < vis.len());
    assert(nav_target(vis, sel, delta) == vis[j]);
}

pub open spec fn next_repeat(r: RepeatMode) -> RepeatMode {
    match r {
        RepeatMode::Off => RepeatMode::All,
        RepeatMode::All => RepeatMode::One,
        RepeatMode::One => RepeatMode::Off,
    }
}

pub open spec fn repeat_text(r: RepeatMode) -> Seq<char> {
    match r {
        RepeatMode::Off => "Repeat: off"@,
        RepeatMode::All => "Repeat: all"@,
        RepeatMode::One => "Repeat: one"@,
    }
}


// ---------------------------------------------------------------------------
// Laws.

/// Going to the next playlist and back returns to the same playlist, with
/// nothing else changed.
pub proof fn lemma_next_then_prev(a: App, b: App, c: App)
    requires
        a.wf(),
        next_playlist_post(a, b),
        prev_playlist_post(b, c),
    ensures
        c == a,
{
    let n = a.playlists.len() as int;
    if a.active_playlist + 1 < n {
        vstd::arithmetic::div_mod::lemma_small_mod((a.active_playlist + 1) as nat, n as nat);
    } else {
        vstd::arithmetic::div_mod::lemma_fundamental_div_mod_converse(n, n, 1, 0);
    }
}

/// Going to the previous playlist and on to the next returns to the same
/// playlist, with nothing else changed.
pub proof fn lemma_prev_then_next(a: App, b: App, c: App)
    requires
        a.wf(),
        prev_playlist_post(a, b),
        next_playlist_post(b, c),
    ensures
        c == a,
{
    let n = a.playlists.len() as int;
    if a.active_playlist == 0 {
        vstd::arithmetic::div_mod::lemma_fundamental_div_mod_converse(n, n, 1, 0);
    } else {
        vstd::arithmetic::div_mod::lemma_small_mod(a.active_playlist as nat, n as nat);
    }
}

/// Cycling repeat three times comes back to the same repeat mode; only the
/// status message differs.
pub proof fn lemma_repeat_cycle(a: App, b: App, c: App, d: App)
    requires
        toggle_repeat_post(a, b),
        toggle_repeat_post(b, c),
        toggle_repeat_post(c, d),
    ensures
        d == (App { status_msg: d.status_msg, status_msg_time: d.status_msg_time, ..a }),
{
}

/// Toggling shuffle twice leaves it as it was; only the status message differs.
pub proof fn lemma_shuffle_twice(a: App, b: App, c: App)
    requires
        toggle_shuffle_post(a, b),
        toggle_shuffle_post(b, c),
    ensures
        c == (App { status_msg: c.status_msg, status_msg_time: c.status_msg_time, ..a }),
{
}

/// Moving a track up and then down again restores the playlist and cursor.
pub proof fn lemma_move_up_then_down(a: App, b: App, c: App, ch: bool)
    requires
        a.wf(),
        move_up_post(a, b, true),
        move_down_post(b, c, ch),
    ensures
        ch,
        c.current().tracks@ =~= a.current().tracks@,
        c.current().selected == a.current().selected,
        c.current().name == a.current().name,
        c.playlists.len() == a.playlists.len(),
        forall|i: int| 0 <= i < a.playlists.len() && i != a.active_playlist ==> c.playlists[i] == a.playlists[i],
        c == (App { playlists: c.playlists, ..a }),
{
    let k = a.active_playlist as int;
    assert(a.playlists[k].wf());
    let s = a.current().selected as int;
    assert(b.current().selected == s - 1);
    assert(b.current().tracks.len() == a.current().tracks.len());
    assert(c.current().tracks@ =~= a.current().tracks@);
}

/// Moving a track down and then up again restores the playlist and cursor.
pub proof fn lemma_move_down_then_up(a: App, b: App, c: App, ch: bool)
    requires
        a.wf(),
        move_down_post(a, b, true),
        move_up_post(b, c, ch),
    ensures
        ch,
        c.current().tracks@ =~= a.current().tracks@,
        c.current().selected == a.current().selected,
        c.current().name == a.current().name,
        c.playlists.len() == a.playlists.len(),
        forall|i: int| 0 <= i < a.playlists.len() && i != a.active_playlist ==> c.playlists[i] == a.playlists[i],
        c == (App { playlists: c.playlists, ..a }),
{
    let k = a.active_playlist as int;
    let s = a.current().selected as int;
    assert(b.current().selected == s + 1);
    assert(b.current().tracks.len() == a.current().tracks.len());
    assert(c.current().tracks@ =~= a.current().tracks@);
}

proof fn lemma_matching_all(n: nat, f: spec_fn(int) -> bool)
    requires
        n <= usize::MAX,
        forall|i: int| 0 <= i < n ==> #[trigger] f(i),
    ensures
        matching(n, f) =~= Seq::new(n, |i: int| i as usize),
    decreases n,
{
    if n > 0 {
        lemma_matching_all((n - 1) as nat, f);
        assert(f(n - 1));
    }
}

/// With no search in effect every browser entry is visible, in order.
pub proof fn lemma_no_search_shows_all_entries(a: App)
    requires
        search_query(a, Panel::Browser).len() == 0,
    ensures
        browser_visible(a) =~= Seq::new(a.browser.entries.len() as nat, |i: int| i as usize),
{
    lemma_matching_all(
        a.browser.entries.len() as nat,
        |i: int| entry_shown(a.browser.entries@[i]@, search_query(a, Panel::Browser)),
    );
}

/// With no search in effect every track of the active playlist is visible,
/// in order.
pub proof fn lemma_no_search_shows_all_tracks(a: App)
    requires
        a.wf(),
        search_query(a, Panel::Playlist).len() == 0,
    ensures
        playlist_visible(a) =~= Seq::new(a.current().tracks.len() as nat, |i: int| i as usize),
{
    let t = a.current().tracks@;
    assert(t.len() == a.current().tracks.len());
    lemma_matching_all(t.len(), |i: int| track_shown(t[i].name@, search_query(a, Panel::Playlist)));
}

/// Moving the browser cursor, when anything matches, always lands on an
/// entry that matches the search.
pub proof fn lemma_browser_nav_lands_on_match(a: App, b: App, delta: i32)
    requires
        browser_nav_post(a, b, delta),
        browser_visible(a).len() > 0,
    ensures
        browser_visible(a).contains(b.browser.selected),
        b.browser.selected < a.browser.entries.len(),
{
    lemma_nav_target_in(browser_visible(a), a.browser.selected, delta as int);
    lemma_matching_props(
        a.browser.entries.len() as nat,
        |i: int| entry_shown(a.browser.entries@[i]@, search_query(a, Panel::Browser)),
    );
}

/// In a sequence without repeats, the position of its `j`-th element is `j`.
proof fn lemma_position_of_distinct(s: Seq<usize>, j: int)
    requires
        0 <= j < s.len(),
        forall|a: int, b: int| 0 <= a < b < s.len() ==> s[a] < s[b],
    ensures
        position_of(s, s[j]) == j,
{
    lemma_position_of(s, s[j]);
    assert(s.contains(s[j]));
    let k = position_of(s, s[j]);
    if k != j {
        if k < j {
            assert(s[k] < s[j]);
        } else {
            assert(s[j] < s[k]);
        }
    }
}

/// From a cursor on one of the visible indices, a step forward and a step
/// back return to it.
proof fn lemma_nav_there_and_back(vis: Seq<usize>, sel: usize)
    requires
        vis.contains(sel),
        forall|a: int, b: int| 0 <= a < b < vis.len() ==> vis[a] < vis[b],
    ensures
        nav_target(vis, nav_target(vis, sel, 1), -1) == sel,
        nav_target(vis, nav_target(vis, sel, -1), 1) == sel,
{
    let n = vis.len() as int;
    lemma_position_of(vis, sel);
    let k = position_of(vis, sel);
    assert(0 <= k < n);
    let up = (k + 1) % n;
    let down = (k - 1) % n;
    if k + 1 < n {
        vstd::arithmetic::div_mod::lemma_small_mod((k + 1) as nat, n as nat);
    } else {
        vstd::arithmetic::div_mod::lemma_fundamental_div_mod_converse(k + 1, n, 1, 0);
    }
    if k >= 1 {
        vstd::arithmetic::div_mod::lemma_small_mod((k - 1) as nat, n as nat);
    } else {
        vstd::arithmetic::div_mod::lemma_fundamental_div_mod_converse(-1, n, -1, n - 1);
    }
    assert(0 <= up < n && 0 <= down < n);
    lemma_position_of_distinct(vis, up);
    lemma_position_of_distinct(vis, down);
    let back = (up - 1) % n;
    let fwd = (down + 1) % n;
    if up >= 1 {
        vstd::arithmetic::div_mod::lemma_small_mod((up - 1) as nat, n as nat);
    } else {
        vstd::arithmetic::div_mod::lemma_fundamental_div_mod_converse(-1, n, -1, n - 1);
    }
    if down + 1 < n {
        vstd::arithmetic::div_mod::lemma_small_mod((down + 1) as nat, n as nat);
    } else {
        vstd::arithmetic::div_mod::lemma_fundamental_div_mod_converse(down + 1, n, 1, 0);
    }
    assert(back == k);
    assert(fwd == k);
}

/// With the browser cursor on a matching entry, a step down and a step up
/// (or up, then down) bring the state back to what it was.
pub proof fn lemma_browser_nav_there_and_back(a: App, b: App, c: App, delta: i32)
    requires
        delta == 1 || delta == -1,
        browser_visible(a).contains(a.browser.selected),
        browser_nav_post(a, b, delta),
        browser_nav_post(b, c, -delta as i32),
    ensures
        c == a,
{
    let vis = browser_visible(a);
    lemma_matching_props(
        a.browser.entries.len() as nat,
        |i: int| entry_shown(a.browser.entries@[i]@, search_query(a, Panel::Browser)),
    );
    assert(browser_visible(b) == vis);
    lemma_nav_there_and_back(vis, a.browser.selected);
    assert(c.browser == a.browser);
}

/// With the playlist cursor on a matching track, a step down and a step up
/// (or up, then down) bring the playlists back to what they were, with
/// nothing else changed.
pub proof fn lemma_playlist_nav_there_and_back(a: App, b: App, c: App, delta: i32)
    requires
        a.wf(),
        delta == 1 || delta == -1,
        playlist_visible(a).contains(a.current().selected),
        playlist_nav_post(a, b, delta),
        playlist_nav_post(b, c, -delta as i32),
    ensures
        c.playlists@ == a.playlists@,
        c == (App { playlists: c.playlists, ..a }),
{
    let vis = playlist_visible(a);
    let t = a.current().tracks@;
    let ap = a.active_playlist as int;
    assert(t.len() == a.current().tracks.len());
    lemma_matching_props(t.len(), |i: int| track_shown(t[i].name@, search_query(a, Panel::Playlist)));
    let up = nav_target(vis, a.current().selected, delta as int);
    assert(b.playlists[ap] == Playlist { selected: up, ..a.current() });
    assert(b.current().tracks@ == t);
    assert(playlist_visible(b) == vis);
    lemma_nav_there_and_back(vis, a.current().selected);
    assert(c.playlists[ap] == Playlist { selected: a.current().selected, ..a.current() });
    assert(c.playlists@ =~= a.playlists@);
}

/// Under repeat-one, skipping in either direction replays the same track.
pub proof fn lemma_repeat_one_replays(a: App, b: App, dir: i32, r: Option<String>, p: usize, t: usize)
    requires
        advance_post(a, b, dir, r),
        a.repeat == RepeatMode::One,
        a.playing_track == Some((p, t)),
        p < a.playlists.len(),
        t < a.playlists[p as int].tracks.len(),
    ensures
        r == Some(a.playlists[p as int].tracks@[t as int].path),
        b.playing_track == a.playing_track,
{
}

/// Without repeat or shuffle, skipping forward from the last track stops:
/// nothing is played and nothing changes.
pub proof fn lemma_no_repeat_stops_at_end(a: App, b: App, r: Option<String>, p: usize, t: usize)
    requires
        advance_post(a, b, 1i32, r),
        a.repeat == RepeatMode::Off,
        !a.shuffle,
        a.playing_track == Some((p, t)),
        p < a.playlists.len(),
        t + 1 == a.playlists[p as int].tracks.len(),
    ensures
        r.is_none(),
        b == a,
{
}

/// Under repeat-all without shuffle, skipping forward from the last track
/// plays the first.
pub proof fn lemma_repeat_all_wraps(a: App, b: App, r: Option<String>, p: usize, t: usize)
    requires
        advance_post(a, b, 1i32, r),
        a.repeat == RepeatMode::All,
        !a.shuffle,
        a.playing_track == Some((p, t)),
        p < a.playlists.len(),
        t + 1 == a.playlists[p as int].tracks.len(),
    ensures
        r == Some(a.playlists[p as int].tracks@[0].path),
        b.playing_track == Some((p, 0usize)),
{
    let len = a.playlists[p as int].tracks.len() as int;
    assert((t + 1) % len == 0);
}

/// Under shuffle (and not repeat-one) skipping always plays some track of
/// the same playlist.
pub proof fn lemma_shuffle_plays_within(a: App, b: App, dir: i32, r: Option<String>, p: usize, t: usize)
    requires
        advance_post(a, b, dir, r),
        a.repeat != RepeatMode::One,
        a.shuffle,
        a.playing_track == Some((p, t)),
        p < a.playlists.len(),
        a.playlists[p as int].tracks.len() > 0,
    ensures
        r.is_some(),
        exists|k: usize| k < a.playlists[p as int].tracks.len() && b.playing_track == Some((p, k)),
{
    let k = choose|k: int|
        0 <= k < a.playlists[p as int].tracks.len() && played(a, b, r, p as int, k);
    assert(b.playing_track == Some((p, k as usize)));
}

/// A track is logged to the history at most once while it keeps playing.
pub proof fn lemma_logged_once(
    a: App,
    b: App,
    c: App,
    p: &String,
    d1: u128,
    d2: u128,
    paused1: bool,
    paused2: bool,
    l2: bool,
)
    requires
        tick_post(a, b, d1, Some(p), paused1, true),
        tick_post(b, c, d2, Some(p), paused2, l2),
    ensures
        !l2,
{
}

/// A track already logged this play session (the same file, by component)
/// is not logged again, however long it plays: the history and the record of
/// what was logged stay as they are.
pub proof fn lemma_logged_track_not_logged_again(
    a: App,
    b: App,
    p: &String,
    delta: u128,
    paused: bool,
    logged: bool,
)
    requires
        same_opt_path(a.history_logged_for, p@),
        tick_post(a, b, delta, Some(p), paused, logged),
    ensures
        !logged,
        b.history == a.history,
        b.history_logged_for == a.history_logged_for,
{
}

/// Once a track has played 30 seconds unpaused without being logged, the
/// tick that gets it there logs it at the top of the history.
pub proof fn lemma_logged_after_thirty_seconds(
    a: App,
    b: App,
    p: &String,
    delta: u128,
    logged: bool,
)
    requires
        tick_post(a, b, delta, Some(p), false, logged),
        same_opt_path(a.play_elapsed_for, p@),
        a.play_elapsed + delta >= LOG_AFTER,
        !same_opt_path(a.history_logged_for, p@),
    ensures
        logged,
        b.history.entries@[0].path == *p,
{
    crate::history::lemma_add_moves_to_top(
        a.history.entries@,
        HistoryEntry { name: b.history.entries@[0].name, path: *p },
    );
}

} // verus!
