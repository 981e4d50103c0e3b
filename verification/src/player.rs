//! What the player shows of a track: its tags and its times.

use vstd::prelude::*;
use crate::paths::{extension, extension_of, is_same_path, lowercase, same_path, to_lowercase};
use crate::text::{decimal, push_char, push_decimal};

verus! {

/// The tags of a track, each where the file has it.
pub struct TrackInfo {
    pub title: Option<String>,
    pub artist: Option<String>,
    pub album: Option<String>,
}

/// `m:ss`: whole minutes, a colon, and the seconds left over on two digits.
pub open spec fn duration_text(secs: nat) -> Seq<char> {
    let s = secs % 60;
    decimal(secs / 60) + seq![':'] + if s < 10 {
        seq!['0'] + decimal(s)
    } else {
        decimal(s)
    }
}

/// A duration of `secs` whole seconds as `m:ss`.
pub fn fmt_duration(secs: u64) -> (r: String)
    ensures
        r@ == duration_text(secs as nat),
{
    let mut r = String::new();
    push_decimal(&mut r, secs / 60);
    push_char(&mut r, ':');
    let s = secs % 60;
    if s < 10 {
        push_char(&mut r, '0');
    }
    push_decimal(&mut r, s);
    r
}

/// The kinds of tag the player writes into a file that has none.
#[derive(PartialEq, Eq, Structural, Clone, Copy, Debug)]
pub enum TagKind {
    VorbisComments,
    Id3v2,
}

/// Vorbis comments for FLAC, Ogg and Opus files (by extension, in any case);
/// ID3v2 for the rest.
pub open spec fn tag_kind_for(path: Seq<char>) -> TagKind {
    match extension_of(path) {
        Some(e) => {
            let l = lowercase(e);
            if l == "flac"@ || l == "ogg"@ || l == "opus"@ {
                TagKind::VorbisComments
            } else {
                TagKind::Id3v2
            }
        },
        None => TagKind::Id3v2,
    }
}

/// The kind of tag to give a file that has none.
pub fn default_tag_kind(path: &str) -> (r: TagKind)
    ensures
        r == tag_kind_for(path@),
{
    match extension(path) {
        Some(e) => {
            let l = to_lowercase(e.as_str());
            if l == String::from_str("flac") || l == String::from_str("ogg") || l == String::from_str(
                "opus",
            ) {
                TagKind::VorbisComments
            } else {
                TagKind::Id3v2
            }
        },
        None => TagKind::Id3v2,
    }
}

/// The tags the tag editor opens with for `path`: those read from the file
/// (`read`), else, where `path` is the track playing (`now_playing`, the same
/// file by component), that track's known tags (`playing_info`), else none.
pub fn tags_for_editor<'a>(
    path: &String,
    read: Option<&'a TrackInfo>,
    now_playing: Option<&String>,
    playing_info: Option<&'a TrackInfo>,
) -> (r: Option<&'a TrackInfo>)
    ensures
        r == match read {
            Some(t) => Some(t),
            None => match now_playing {
                Some(p) => if same_path(p@, path@) {
                    playing_info
                } else {
                    None
                },
                None => None,
            },
        },
{
    match read {
        Some(t) => Some(t),
        None => match now_playing {
            Some(p) => if is_same_path(p.as_str(), path.as_str()) {
                playing_info
            } else {
                None
            },
            None => None,
        },
    }
}

} // verus!
