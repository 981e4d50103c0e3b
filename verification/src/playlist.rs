//! Tracks and playlists, and where playlists are kept.

use vstd::prelude::*;
use crate::paths::{dir_or_here, extension, extension_of, joined, join};
use crate::browser::{lex_le, lemma_lex_refl, lemma_lex_total, lemma_lex_trans};
use crate::text::chars_of;
use crate::sys;

verus! {

/// A track of a playlist: its display name and its file.
pub struct Track {
    pub name: String,
    pub path: String,
}

/// A named list of tracks with a cursor.
pub struct Playlist {
    pub name: String,
    pub tracks: Vec<Track>,
    pub selected: usize,
}

/// A copy of a track.
pub fn copy_track(t: &Track) -> (r: Track)
    ensures
        r == *t,
{
    Track { name: t.name.clone(), path: t.path.clone() }
}

impl Playlist {
    /// The cursor stays on a track, or at 0 on an empty list.
    pub open spec fn wf(&self) -> bool {
        self.selected == 0 || self.selected < self.tracks.len()
    }

    /// An empty playlist with the given name.
    pub fn new(name: &str) -> (r: Self)
        ensures
            r.name@ == name@,
            r.tracks@ == Seq::<Track>::empty(),
            r.selected == 0,
            r.wf(),
    {
        Playlist { name: String::from_str(name), tracks: Vec::new(), selected: 0 }
    }

    /// The directory of saved playlists under a data directory.
    pub fn data_dir_in(base: &str) -> (r: String)
        ensures
            r@ == joined(base@, "tui-fi/playlists"@),
    {
        join(base, "tui-fi/playlists")
    }

    /// The directory of saved playlists: under the user's data directory, or
    /// under `.` where there is none.
    pub fn data_dir() -> (r: String)
        ensures
            exists|base: Seq<char>| r@ == joined(base, "tui-fi/playlists"@),
    {
        let base = dir_or_here(sys::data_dir());
        Self::data_dir_in(base.as_str())
    }

    /// The file of the playlist `name` in directory `dir`: `<dir>/<name>.json`.
    pub fn path_in(dir: &str, name: &str) -> (r: String)
        ensures
            r@ == joined(dir@, name@ + ".json"@),
    {
        let mut file = String::from_str(name);
        file.append(".json");
        join(dir, file.as_str())
    }

    /// The file where the playlist `name` is saved.
    pub fn path_for(name: &str) -> (r: String)
        ensures
            exists|base: Seq<char>|
                r@ == joined(joined(base, "tui-fi/playlists"@), name@ + ".json"@),
    {
        let dir = Self::data_dir();
        Self::path_in(dir.as_str(), name)
    }
}


/// Whether a file is a saved playlist: its extension is exactly `json`.
pub fn is_playlist_file(path: &str) -> (r: bool)
    ensures
        r == (extension_of(path@) == Some("json"@)),
{
    match extension(path) {
        Some(e) => e == String::from_str("json"),
        None => false,
    }
}

/// Playlists in order of name (code point by code point).
pub open spec fn sorted_by_name(s: Seq<Playlist>) -> bool {
    forall|i: int, j: int| 0 <= i < j < s.len() ==> lex_le(s[i].name@, s[j].name@)
}

/// The playlists of `s` named `k`, in their order in `s`.
pub open spec fn named(s: Seq<Playlist>, k: Seq<char>) -> Seq<Playlist> {
    s.filter(name_is(k))
}

/// Whether a playlist is named `k`.
pub open spec fn name_is(k: Seq<char>) -> spec_fn(Playlist) -> bool {
    |p: Playlist| p.name@ == k
}

/// Inserting `e` before a run of playlists none of which shares its name
/// puts `e` last among those of its name and moves no other.
proof fn lemma_insert_named(s: Seq<Playlist>, pos: int, e: Playlist, k: Seq<char>)
    requires
        0 <= pos <= s.len(),
        forall|j: int| pos <= j < s.len() ==> s[j].name@ != e.name@,
    ensures
        named(s.insert(pos, e), k) == if e.name@ == k {
            named(s, k).push(e)
        } else {
            named(s, k)
        },
{
    let f = name_is(k);
    let a = s.take(pos);
    let b = s.skip(pos);
    assert(s == a + b);
    assert(s.insert(pos, e) == a + seq![e] + b);
    Seq::filter_distributes_over_add(a, b, f);
    Seq::filter_distributes_over_add(a + seq![e], b, f);
    Seq::filter_distributes_over_add(a, seq![e], f);
    assert(seq![e] == Seq::<Playlist>::empty().push(e));
    Seq::<Playlist>::empty().lemma_filter_push(e, f);
    assert(Seq::<Playlist>::empty().filter(f) == Seq::<Playlist>::empty()) by {
        reveal(Seq::filter);
    }
    if e.name@ == k {
        assert(b.all(|x: Playlist| !f(x)));
        b.lemma_all_neg_filter_empty(f);
        assert(b.filter(f) == Seq::<Playlist>::empty());
    }
}

fn name_le(a: &Playlist, b: &Playlist) -> (r: bool)
    ensures
        r == lex_le(a.name@, b.name@),
{
    let x = chars_of(a.name.as_str());
    let y = chars_of(b.name.as_str());
    let mut i: usize = 0;
    assert(x@.skip(0) == x@);
    assert(y@.skip(0) == y@);
    while i < x.len() && i < y.len() && x[i] == y[i]
        invariant
            i <= x.len(),
            i <= y.len(),
            lex_le(x@, y@) == lex_le(x@.skip(i as int), y@.skip(i as int)),
        decreases x.len() - i,
    {
        assert(x@.skip(i as int).drop_first() == x@.skip(i + 1));
        assert(y@.skip(i as int).drop_first() == y@.skip(i + 1));
        i = i + 1;
    }
    if i == x.len() {
        true
    } else if i == y.len() {
        false
    } else {
        assert(x@.skip(i as int)[0] == x@[i as int]);
        assert(y@.skip(i as int)[0] == y@[i as int]);
        x[i] < y[i]
    }
}

/// The loaded playlists put in order of name; playlists of one name keep
/// their order (the sort is stable).
pub fn sort_by_name(v: Vec<Playlist>) -> (r: Vec<Playlist>)
    ensures
        sorted_by_name(r@),
        r@.to_multiset() == v@.to_multiset(),
        forall|k: Seq<char>| #[trigger] named(r@, k) == named(v@, k),
{
    broadcast use vstd::seq_lib::to_multiset_build, vstd::seq_lib::to_multiset_insert;

    let ghost all = v@;
    let mut rest = v;
    let mut taken: Vec<Playlist> = Vec::new();
    while rest.len() > 0
        invariant
            rest@ + taken@.reverse() == all,
        decreases rest.len(),
    {
        let ghost before = rest@;
        let e = rest.pop().unwrap();
        proof {
            assert(before == rest@.push(e));
            assert(taken@.push(e).reverse() == seq![e] + taken@.reverse());
        }
        taken.push(e);
    }
    assert(rest@ == Seq::<Playlist>::empty());
    assert(all == taken@.reverse());
    let ghost order = taken@.reverse();
    let ghost n = order.len();
    let mut out: Vec<Playlist> = Vec::new();
    let ghost mut i: int = 0;
    assert(order.take(0) == Seq::<Playlist>::empty());
    assert forall|k: Seq<char>| #[trigger] named(out@, k) == named(order.take(0), k) by {
        reveal(Seq::filter);
    }
    while taken.len() > 0
        invariant
            0 <= i <= order.len(),
            taken@.reverse() == order.skip(i),
            order.len() == taken.len() + i,
            sorted_by_name(out@),
            out@.to_multiset() == order.take(i).to_multiset(),
            forall|k: Seq<char>| #[trigger] named(out@, k) == named(order.take(i), k),
        decreases taken.len(),
    {
        let ghost before = taken@;
        let e = taken.pop().unwrap();
        proof {
            assert(before == taken@.push(e));
            assert(before.reverse() == seq![e] + taken@.reverse());
            assert(order[i] == e) by {
                assert(order.skip(i)[0] == order[i]);
            }
            assert(order.skip(i + 1) == order.skip(i).drop_first());
            assert(order.take(i + 1) == order.take(i).push(e));
        }
        let mut pos: usize = 0;
        while pos < out.len() && name_le(&out[pos], &e)
            invariant
                pos <= out.len(),
                forall|k: int| 0 <= k < pos ==> lex_le(out@[k].name@, e.name@),
            decreases out.len() - pos,
        {
            pos = pos + 1;
        }
        let ghost old_out = out@;
        proof {
            if pos < out.len() {
                lemma_lex_total(out@[pos as int].name@, e.name@);
            }
        }
        out.insert(pos, e);
        proof {
            let w = out@;
            assert(w == old_out.insert(pos as int, e));
            vstd::seq_lib::to_multiset_insert(old_out, pos as int, e);
            vstd::seq_lib::to_multiset_build(order.take(i), e);
            assert forall|a: int, b: int| 0 <= a < b < w.len() implies lex_le(w[a].name@, w[b].name@) by {
                if a < pos && b == pos {
                } else if a == pos && b > pos + 1 {
                    lemma_lex_trans(e.name@, old_out[pos as int].name@, old_out[b - 1].name@);
                } else if a < pos && b > pos {
                    assert(lex_le(old_out[a].name@, old_out[b - 1].name@));
                } else if a > pos {
                    assert(lex_le(old_out[a - 1].name@, old_out[b - 1].name@));
                }
            }
            assert forall|j: int| pos <= j < old_out.len() implies old_out[j].name@ != e.name@ by {
                lemma_lex_refl(e.name@);
                if old_out[j].name@ == e.name@ {
                    if j > pos {
                        lemma_lex_trans(old_out[pos as int].name@, old_out[j].name@, e.name@);
                    }
                }
            }
            assert forall|k: Seq<char>| #[trigger] named(w, k) == named(order.take(i + 1), k) by {
                lemma_insert_named(old_out, pos as int, e, k);
                order.take(i).lemma_filter_push(e, name_is(k));
            }
            i = i + 1;
        }
    }
    assert(order.take(n as int) == order);
    out
}

} // verus!
