//! What the desktop's media controls (MPRIS) are told and what their
//! commands do. Talking to the desktop bus is left to the caller.

use vstd::prelude::*;
use crate::app::{advance_post, App};
use crate::keys::{play_effect, Effect};
use crate::paths::{file_name, file_name_of, is_same_path, opt_view, same_path};
use crate::player::TrackInfo;
use crate::text::chars_of;

verus! {

/// A command from the media controls.
#[derive(PartialEq, Eq, Structural, Clone, Copy, Debug)]
pub enum Cmd {
    Play,
    Pause,
    Toggle,
    Stop,
    Next,
    Previous,
}

/// What the media controls are told about the player.
pub struct MprisState {
    pub title: String,
    pub artist: Option<String>,
    pub album: Option<String>,
    pub length_us: Option<i64>,
    pub paused: bool,
    pub stopped: bool,
}

/// The playback status shown by the media controls.
#[derive(PartialEq, Eq, Structural, Clone, Copy, Debug)]
pub enum PlaybackStatus {
    Playing,
    Paused,
    Stopped,
}

pub open spec fn info_title(info: Option<&TrackInfo>) -> Option<Seq<char>> {
    match info {
        Some(t) => opt_view(t.title),
        None => None,
    }
}

pub open spec fn info_artist(info: Option<&TrackInfo>) -> Option<Seq<char>> {
    match info {
        Some(t) => opt_view(t.artist),
        None => None,
    }
}

pub open spec fn info_album(info: Option<&TrackInfo>) -> Option<Seq<char>> {
    match info {
        Some(t) => opt_view(t.album),
        None => None,
    }
}

fn copy_field(o: &Option<String>) -> (r: Option<String>)
    ensures
        opt_view(r) == opt_view(*o),
{
    match o {
        Some(s) => Some(s.clone()),
        None => None,
    }
}

/// The state to announce for the player: with a track playing, its title
/// (from its tags, else its file name, else nothing), artist, album and
/// length in microseconds, and whether it is paused; with none, the
/// defaults (empty title, nothing else, neither paused nor stopped).
pub fn mpris_state(
    now_playing: Option<&String>,
    paused: bool,
    info: Option<&TrackInfo>,
    length_micros: Option<u128>,
) -> (r: MprisState)
    ensures
        match now_playing {
            Some(p) => {
                &&& r.title@ == match info_title(info) {
                    Some(t) => t,
                    None => match file_name_of(p@) {
                        Some(n) => n,
                        None => Seq::empty(),
                    },
                }
                &&& opt_view(r.artist) == info_artist(info)
                &&& opt_view(r.album) == info_album(info)
                &&& r.length_us == match length_micros {
                    Some(m) => Some(m as i64),
                    None => None,
                }
                &&& r.paused == paused
                &&& !r.stopped
            },
            None => {
                &&& r.title@.len() == 0
                &&& r.artist.is_none()
                &&& r.album.is_none()
                &&& r.length_us.is_none()
                &&& !r.paused
                &&& !r.stopped
            },
        },
{
    match now_playing {
        Some(p) => {
            let title = match info {
                Some(t) => copy_field(&t.title),
                None => None,
            };
            let title = match title {
                Some(t) => t,
                None => match file_name(p.as_str()) {
                    Some(n) => n,
                    None => String::new(),
                },
            };
            let (artist, album) = match info {
                Some(t) => (copy_field(&t.artist), copy_field(&t.album)),
                None => (None, None),
            };
            let length_us = match length_micros {
                Some(m) => Some(m as i64),
                None => None,
            };
            MprisState { title, artist, album, length_us, paused, stopped: false }
        },
        None => MprisState {
            title: String::new(),
            artist: None,
            album: None,
            length_us: None,
            paused: false,
            stopped: false,
        },
    }
}

/// Stopped if stopped, else paused if paused, else playing.
pub fn playback_status(s: &MprisState) -> (r: PlaybackStatus)
    ensures
        r == if s.stopped {
            PlaybackStatus::Stopped
        } else if s.paused {
            PlaybackStatus::Paused
        } else {
            PlaybackStatus::Playing
        },
{
    if s.stopped {
        PlaybackStatus::Stopped
    } else if s.paused {
        PlaybackStatus::Paused
    } else {
        PlaybackStatus::Playing
    }
}

/// The track fields announced to the media controls: each one the state has,
/// the title only where it is not empty.
pub struct MprisMetadata {
    pub title: Option<String>,
    pub artist: Option<String>,
    pub album: Option<String>,
    pub length_us: Option<i64>,
}

/// The fields to announce for state `s`: the title where it is not empty,
/// and the artist, album and length where there are any.
pub fn metadata(s: &MprisState) -> (r: MprisMetadata)
    ensures
        opt_view(r.title) == if s.title@.len() > 0 {
            Some(s.title@)
        } else {
            None
        },
        opt_view(r.artist) == opt_view(s.artist),
        opt_view(r.album) == opt_view(s.album),
        r.length_us == s.length_us,
{
    let title = if chars_of(s.title.as_str()).len() > 0 {
        Some(s.title.clone())
    } else {
        None
    };
    MprisMetadata {
        title,
        artist: copy_field(&s.artist),
        album: copy_field(&s.album),
        length_us: s.length_us,
    }
}

/// Whether two optional files are the same: both absent, or both present
/// and the same file (by component).
pub open spec fn same_opt_file(a: Option<&String>, b: Option<&String>) -> bool {
    match (a, b) {
        (Some(x), Some(y)) => same_path(x@, y@),
        (None, None) => true,
        _ => false,
    }
}

/// Whether the media controls are to be told again: the playing file
/// changed (by component), or, with a file playing, the pause state changed.
pub fn needs_update(
    last_path: Option<&String>,
    last_paused: bool,
    now_path: Option<&String>,
    now_paused: bool,
) -> (r: bool)
    ensures
        r == (!same_opt_file(last_path, now_path) || (now_path.is_some() && now_paused
            != last_paused)),
{
    let same = match (last_path, now_path) {
        (Some(a), Some(b)) => is_same_path(a.as_str(), b.as_str()),
        (None, None) => true,
        _ => false,
    };
    !same || (now_path.is_some() && now_paused != last_paused)
}

impl App {
    /// What a media-control command does, given whether the player is
    /// `paused` and whether a track is `playing`: play resumes a paused
    /// player, pause pauses a playing one, toggle and stop go to the player,
    /// next and previous play the track after or before.
    pub fn handle_mpris(&mut self, cmd: Cmd, paused: bool, playing: bool) -> (e: Effect)
        requires
            old(self).wf(),
        ensures
            final(self).wf(),
            match cmd {
                Cmd::Play => *final(self) == *old(self) && if paused {
                    e == Effect::TogglePause
                } else {
                    e == Effect::Nothing
                },
                Cmd::Pause => *final(self) == *old(self) && if !paused && playing {
                    e == Effect::TogglePause
                } else {
                    e == Effect::Nothing
                },
                Cmd::Toggle => *final(self) == *old(self) && e == Effect::TogglePause,
                Cmd::Stop => *final(self) == *old(self) && e == Effect::Stop,
                Cmd::Next => exists|r: Option<String>|
                    #[trigger] advance_post(*old(self), *final(self), 1i32, r) && play_effect(r, e),
                Cmd::Previous => exists|r: Option<String>|
                    #[trigger] advance_post(*old(self), *final(self), -1i32, r) && play_effect(r, e),
            },
    {
        match cmd {
            Cmd::Play => if paused {
                Effect::TogglePause
            } else {
                Effect::Nothing
            },
            Cmd::Pause => if !paused && playing {
                Effect::TogglePause
            } else {
                Effect::Nothing
            },
            Cmd::Toggle => Effect::TogglePause,
            Cmd::Stop => Effect::Stop,
            Cmd::Next => {
                let r = self.advance_track(1);
                assert(advance_post(*old(self), *self, 1i32, r));
                match r {
                    Some(p) => Effect::Play(p),
                    None => Effect::Nothing,
                }
            },
            Cmd::Previous => {
                let r = self.advance_track(-1);
                assert(advance_post(*old(self), *self, -1i32, r));
                match r {
                    Some(p) => Effect::Play(p),
                    None => Effect::Nothing,
                }
            },
        }
    }

    /// When the playing track has finished: play the next one, or stop
    /// where there is none.
    pub fn on_track_finished(&mut self) -> (e: Effect)
        requires
            old(self).wf(),
        ensures
            final(self).wf(),
            exists|r: Option<String>|
                #[trigger] advance_post(*old(self), *final(self), 1i32, r) && match r {
                    Some(p) => e == Effect::Play(p),
                    None => e == Effect::Stop,
                },
    {
        let r = self.advance_track(1);
        assert(advance_post(*old(self), *self, 1i32, r));
        match r {
            Some(p) => Effect::Play(p),
            None => Effect::Stop,
        }
    }
}

} // verus!
