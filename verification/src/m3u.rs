//! M3U playlists: reading the text of one into entries and tracks, and
//! writing a playlist out as text. Reading and writing the files is left to
//! the caller; so is checking which referenced files exist.

use vstd::prelude::*;
use crate::paths::{absolute, file_stem, file_stem_of, is_absolute, join, joined, opt_view, parent,
    parent_of, components, lemma_components_append, lemma_components_first, lemma_components_last,
    lemma_components_no_newline, lemma_components_nonempty, lemma_components_slash, same_path,
    strip_prefix, stripped};
use crate::playlist::{Playlist, Track};
use crate::text::{chars_of, find_comma, first_comma, has_prefix, is_ws, lemma_first_comma_append,
    lemma_split_extend, lemma_split_lines_nonempty, lemma_split_newline, lemma_split_single,
    lemma_trimmed_ends, lemma_trimmed_self, no_newline, split_lines, starts_with, string_of, trim,
    trimmed};

verus! {

/// A track reference read from an M3U file: the title of its `#EXTINF` line,
/// if one came before it, and the location as written.
pub struct M3uEntry {
    pub title: Option<String>,
    pub location: String,
}

impl View for M3uEntry {
    type V = (Option<Seq<char>>, Seq<char>);

    open spec fn view(&self) -> (Option<Seq<char>>, Seq<char>) {
        (opt_view(self.title), self.location@)
    }
}

pub open spec fn entry_views(s: Seq<M3uEntry>) -> Seq<(Option<Seq<char>>, Seq<char>)> {
    s.map_values(|e: M3uEntry| e@)
}

/// The title in the rest of an `#EXTINF:` line: what follows its first comma,
/// trimmed, or nothing where there is no comma.
pub open spec fn title_of(rest: Seq<char>) -> Seq<char> {
    let k = first_comma(rest);
    if k < 0 {
        Seq::<char>::empty()
    } else {
        trimmed(rest.skip(k + 1))
    }
}

/// One line of an M3U file read into the entries so far and the pending title.
/// Blank lines and the `#EXTM3U` header are skipped; an `#EXTINF:` line sets
/// the pending title; any other line not starting with `#` is a location,
/// which takes the pending title; other `#` lines are skipped.
pub open spec fn parse_step(
    st: (Seq<(Option<Seq<char>>, Seq<char>)>, Option<Seq<char>>),
    raw: Seq<char>,
) -> (Seq<(Option<Seq<char>>, Seq<char>)>, Option<Seq<char>>) {
    let line = trimmed(raw);
    if line.len() == 0 || line == "#EXTM3U"@ {
        st
    } else if has_prefix(line, "#EXTINF:"@) {
        (st.0, Some(title_of(line.skip("#EXTINF:"@.len() as int))))
    } else if line[0] != '#' {
        (st.0.push((st.1, line)), None)
    } else {
        st
    }
}

pub open spec fn parse_lines(lines: Seq<Seq<char>>) -> (
    Seq<(Option<Seq<char>>, Seq<char>)>,
    Option<Seq<char>>,
)
    decreases lines.len(),
{
    if lines.len() == 0 {
        (Seq::empty(), None)
    } else {
        parse_step(parse_lines(lines.drop_last()), lines.last())
    }
}

/// The entries of an M3U text, in order.
pub open spec fn m3u_entries(content: Seq<char>) -> Seq<(Option<Seq<char>>, Seq<char>)> {
    parse_lines(split_lines(content)).0
}

fn parse_line(
    v: &Vec<char>,
    lo: usize,
    hi: usize,
    inf: &Vec<char>,
    entries: &mut Vec<M3uEntry>,
    pending: &mut Option<String>,
)
    requires
        lo <= hi <= v.len(),
        inf@ == "#EXTINF:"@,
    ensures
        (entry_views(final(entries)@), opt_view(*final(pending))) == parse_step(
            (entry_views(old(entries)@), opt_view(*old(pending))),
            v@.subrange(lo as int, hi as int),
        ),
{
    let raw = string_of(v, lo, hi);
    let line = trim(raw.as_str());
    let lv = chars_of(line.as_str());
    if lv.len() == 0 || line == String::from_str("#EXTM3U") {
        return ;
    }
    if starts_with(&lv, inf) {
        let rv = chars_of(string_of(&lv, inf.len(), lv.len()).as_str());
        let k = find_comma(&rv);
        let title = if k == rv.len() {
            String::new()
        } else {
            trim(string_of(&rv, k + 1, rv.len()).as_str())
        };
        *pending = Some(title);
    } else if lv[0] != '#' {
        let title = pending.take();
        let ghost before = entries@;
        entries.push(M3uEntry { title, location: line });
        assert(entry_views(entries@) == entry_views(before).push(entries@.last()@));
    }
}

/// Reads the entries of an M3U text.
pub fn parse(content: &str) -> (r: Vec<M3uEntry>)
    ensures
        entry_views(r@) == m3u_entries(content@),
{
    let v = chars_of(content);
    let inf = chars_of("#EXTINF:");
    let mut entries: Vec<M3uEntry> = Vec::new();
    let mut pending: Option<String> = None;
    let mut start: usize = 0;
    let mut i: usize = 0;
    assert(v@.take(0) == Seq::<char>::empty());
    assert(entry_views(entries@) == Seq::<(Option<Seq<char>>, Seq<char>)>::empty());
    while i < v.len()
        invariant
            start <= i <= v.len(),
            inf@ == "#EXTINF:"@,
            split_lines(v@.take(i as int)).len() >= 1,
            split_lines(v@.take(i as int)).last() == v@.subrange(start as int, i as int),
            (entry_views(entries@), opt_view(pending)) == parse_lines(
                split_lines(v@.take(i as int)).drop_last(),
            ),
        decreases v.len() - i,
    {
        let ghost p = split_lines(v@.take(i as int));
        assert(v@.take(i + 1).drop_last() == v@.take(i as int));
        assert(v@.take(i + 1).last() == v@[i as int]);
        if v[i] == '\n' {
            parse_line(&v, start, i, &inf, &mut entries, &mut pending);
            assert(split_lines(v@.take(i + 1)) == p.push(Seq::<char>::empty()));
            assert(p.push(Seq::<char>::empty()).drop_last() == p);
            assert(p == p.drop_last().push(p.last()));
            start = i + 1;
        } else {
            assert(split_lines(v@.take(i + 1)) == p.update(p.len() - 1, p.last().push(v@[i as int])));
            assert(p.update(p.len() - 1, p.last().push(v@[i as int])).drop_last() == p.drop_last());
            assert(v@.subrange(start as int, i + 1) == v@.subrange(start as int, i as int).push(
                v@[i as int],
            ));
        }
        i = i + 1;
    }
    assert(v@.take(v.len() as int) == v@);
    let ghost p = split_lines(v@);
    parse_line(&v, start, v.len(), &inf, &mut entries, &mut pending);
    assert(p == p.drop_last().push(p.last()));
    entries
}

// ---------------------------------------------------------------------------
// Import.

/// The directory that relative locations are read against: the M3U file's
/// parent, or `.`.
pub open spec fn m3u_dir(m3u_path: Seq<char>) -> Seq<char> {
    match parent_of(m3u_path) {
        Some(d) => d,
        None => "."@,
    }
}

/// Where a location points: itself if absolute, else under `dir`.
pub open spec fn resolved(dir: Seq<char>, loc: Seq<char>) -> Seq<char> {
    if absolute(loc) {
        loc
    } else {
        joined(dir, loc)
    }
}

pub open spec fn stem_or_empty(p: Seq<char>) -> Seq<char> {
    match file_stem_of(p) {
        Some(s) => s,
        None => Seq::<char>::empty(),
    }
}

/// An imported track's name: its non-empty title, else its file's stem.
pub open spec fn track_name(title: Option<Seq<char>>, path: Seq<char>) -> Seq<char> {
    match title {
        Some(t) => if t.len() > 0 {
            t
        } else {
            stem_or_empty(path)
        },
        None => stem_or_empty(path),
    }
}

/// The tracks (name, path) imported from `es`, keeping those whose file
/// exists (`exists[i]` for entry `i`).
pub open spec fn imported(
    es: Seq<(Option<Seq<char>>, Seq<char>)>,
    dir: Seq<char>,
    exists: Seq<bool>,
) -> Seq<(Seq<char>, Seq<char>)>
    decreases es.len(),
{
    if es.len() == 0 {
        Seq::empty()
    } else {
        let r = imported(es.drop_last(), dir, exists);
        if exists[es.len() - 1] {
            let p = resolved(dir, es.last().1);
            r.push((track_name(es.last().0, p), p))
        } else {
            r
        }
    }
}

pub open spec fn track_views(s: Seq<Track>) -> Seq<(Seq<char>, Seq<char>)> {
    s.map_values(|t: Track| (t.name@, t.path@))
}

pub open spec fn string_views(s: Seq<String>) -> Seq<Seq<char>> {
    s.map_values(|p: String| p@)
}

/// The directory relative locations of an M3U file are read against.
pub fn m3u_dir_of(m3u_path: &str) -> (r: String)
    ensures
        r@ == m3u_dir(m3u_path@),
        absolute(m3u_path@) && components(m3u_path@).len() > 0 ==> absolute(r@) && components(r@)
            == components(m3u_path@).drop_last(),
{
    match parent(m3u_path) {
        Some(d) => d,
        None => String::from_str("."),
    }
}

fn resolve(dir: &str, loc: &str) -> (r: String)
    ensures
        r@ == resolved(dir@, loc@),
{
    if is_absolute(loc) {
        String::from_str(loc)
    } else {
        join(dir, loc)
    }
}

/// The files that the entries of an M3U text point to, in order; the caller
/// checks which of them exist before importing.
pub fn import_candidates(m3u_path: &str, content: &str) -> (r: Vec<String>)
    ensures
        string_views(r@) == m3u_entries(content@).map_values(
            |e: (Option<Seq<char>>, Seq<char>)| resolved(m3u_dir(m3u_path@), e.1),
        ),
{
    let dir = m3u_dir_of(m3u_path);
    let es = parse(content);
    let ghost ev = entry_views(es@);
    let mut r: Vec<String> = Vec::new();
    let mut i: usize = 0;
    while i < es.len()
        invariant
            i <= es.len(),
            ev == entry_views(es@),
            dir@ == m3u_dir(m3u_path@),
            string_views(r@) == ev.take(i as int).map_values(
                |e: (Option<Seq<char>>, Seq<char>)| resolved(dir@, e.1),
            ),
        decreases es.len() - i,
    {
        let p = resolve(dir.as_str(), es[i].location.as_str());
        r.push(p);
        proof {
            assert(ev[i as int] == es@[i as int]@);
            assert(ev.take(i + 1).map_values(|e: (Option<Seq<char>>, Seq<char>)| resolved(dir@, e.1))
                == ev.take(i as int).map_values(
                |e: (Option<Seq<char>>, Seq<char>)| resolved(dir@, e.1),
            ).push(resolved(dir@, ev[i as int].1)));
            assert(string_views(r@) == string_views(r@.drop_last()).push(r@.last()@));
        }
        i = i + 1;
    }
    assert(ev.take(es.len() as int) == ev);
    r
}

fn name_for(title: Option<String>, path: &str) -> (r: String)
    ensures
        r@ == track_name(opt_view(title), path@),
{
    let t = match title {
        Some(t) => if !t.as_str().is_empty() {
            Some(t)
        } else {
            None
        },
        None => None,
    };
    match t {
        Some(t) => t,
        None => match file_stem(path) {
            Some(s) => s,
            None => String::new(),
        },
    }
}

/// Reads an M3U playlist from its path and text. `exists[i]` tells whether
/// the file that entry `i` points to exists; entries whose file is missing are
/// dropped. The playlist is named after the M3U file's stem; there is no
/// playlist where the path has no file name.
pub fn import(m3u_path: &str, content: &str, exists: &Vec<bool>) -> (r: Option<Playlist>)
    requires
        exists.len() == m3u_entries(content@).len(),
    ensures
        match r {
            None => file_stem_of(m3u_path@) is None,
            Some(pl) => {
                &&& file_stem_of(m3u_path@) == Some(pl.name@)
                &&& pl.selected == 0
                &&& track_views(pl.tracks@) == imported(
                    m3u_entries(content@),
                    m3u_dir(m3u_path@),
                    exists@,
                )
            },
        },
{
    let dir = m3u_dir_of(m3u_path);
    let name = match file_stem(m3u_path) {
        Some(n) => n,
        None => {
            return None;
        },
    };
    let es = parse(content);
    let ghost ev = entry_views(es@);
    let mut tracks: Vec<Track> = Vec::new();
    let mut i: usize = 0;
    while i < es.len()
        invariant
            i <= es.len() == exists.len(),
            ev == entry_views(es@),
            dir@ == m3u_dir(m3u_path@),
            track_views(tracks@) == imported(ev.take(i as int), dir@, exists@),
        decreases es.len() - i,
    {
        proof {
            assert(ev.take(i + 1).drop_last() == ev.take(i as int));
            assert(ev.take(i + 1).last() == es@[i as int]@);
        }
        if exists[i] {
            let path = resolve(dir.as_str(), es[i].location.as_str());
            let title = match &es[i].title {
                Some(t) => Some(t.clone()),
                None => None,
            };
            let tname = name_for(title, path.as_str());
            let ghost before = tracks@;
            tracks.push(Track { name: tname, path });
            assert(track_views(tracks@) == track_views(before).push(
                (tracks@.last().name@, tracks@.last().path@),
            ));
        }
        i = i + 1;
    }
    assert(ev.take(es.len() as int) == ev);
    let mut pl = Playlist::new(name.as_str());
    pl.tracks = tracks;
    Some(pl)
}

// ---------------------------------------------------------------------------
// Export.

/// How a track's file is written: relative to `dir` where it lies under it,
/// else as it is.
pub open spec fn shown_path(p: Seq<char>, dir: Seq<char>) -> Seq<char> {
    match stripped(p, dir) {
        Some(r) => r,
        None => p,
    }
}

/// The M3U text of tracks (name, path), with paths shown against `dir`:
/// the `#EXTM3U` header, then for each track an `#EXTINF:-1,<name>` line and
/// its path line, each line ended by a newline.
pub open spec fn m3u_text(tracks: Seq<(Seq<char>, Seq<char>)>, dir: Seq<char>) -> Seq<char>
    decreases tracks.len(),
{
    if tracks.len() == 0 {
        "#EXTM3U\n"@
    } else {
        m3u_text(tracks.drop_last(), dir) + "#EXTINF:-1,"@ + tracks.last().0 + "\n"@ + shown_path(
            tracks.last().1,
            dir,
        ) + "\n"@
    }
}

/// What is known of path `p` written against `dir` (see `strip_prefix`):
/// the rest, joined back onto `dir`, is the same path as `p`.
pub open spec fn strip_undone(p: Seq<char>, dir: Seq<char>) -> bool {
    match stripped(p, dir) {
        Some(x) => same_path(joined(dir, x), p),
        None => true,
    }
}

/// A track name that an M3U file gives back unchanged: not empty, on one
/// line, with no whitespace at either end.
pub open spec fn name_fits(n: Seq<char>) -> bool {
    n.len() > 0 && no_newline(n) && trimmed(n) == n
}

/// A track path that an M3U file in a directory with components `d` gives
/// back: an absolute path that is not that directory, with no newline in a
/// component, no whitespace at the end of its last component, and, where it
/// lies under the directory, a next component that starts with neither `#`
/// nor whitespace (it begins the written line).
pub open spec fn path_fits(p: Seq<char>, d: Seq<Seq<char>>) -> bool {
    let c = components(p);
    &&& absolute(p)
    &&& c != d
    &&& forall|j: int| 0 <= j < c.len() ==> no_newline(#[trigger] c[j])
    &&& c.len() > 0 ==> !is_ws(c.last().last())
    &&& d.len() < c.len() && c.take(d.len() as int) == d ==> c[d.len() as int][0] != '#' && !is_ws(
        c[d.len() as int][0],
    )
}

/// Tracks (name, path) that an M3U file written at `m3u_path` (an absolute
/// path with a component) gives back: names that fit, and paths that fit
/// its directory (its components but the last).
pub open spec fn exports_cleanly(ts: Seq<(Seq<char>, Seq<char>)>, m3u_path: Seq<char>) -> bool {
    &&& absolute(m3u_path)
    &&& components(m3u_path).len() > 0
    &&& forall|i: int|
        #![trigger ts[i]]
        0 <= i < ts.len() ==> name_fits(ts[i].0) && path_fits(
            ts[i].1,
            components(m3u_path).drop_last(),
        )
}

/// The same tracks: the same names, and paths to the same files (by
/// component, as `Path`'s `==` compares).
pub open spec fn same_tracks(a: Seq<(Seq<char>, Seq<char>)>, b: Seq<(Seq<char>, Seq<char>)>) -> bool {
    &&& a.len() == b.len()
    &&& forall|i: int|
        #![trigger a[i]]
        0 <= i < a.len() ==> a[i].0 == b[i].0 && same_path(a[i].1, b[i].1)
}

/// Tracks (name, path) written against `dir` that read back: they fit on
/// their lines, names are not empty, and each written path resolves
/// against `dir` to the same file as the track's path.
pub open spec fn round_trips(ts: Seq<(Seq<char>, Seq<char>)>, dir: Seq<char>) -> bool {
    &&& exportable(ts, dir)
    &&& forall|i: int|
        #![trigger ts[i]]
        0 <= i < ts.len() ==> ts[i].0.len() > 0 && same_path(
            resolved(dir, shown_path(ts[i].1, dir)),
            ts[i].1,
        )
}

/// A file found for each of `n` entries.
pub open spec fn all_found(n: nat) -> Seq<bool> {
    Seq::new(n, |i: int| true)
}

/// The M3U text of a playlist to be written at `m3u_path`. Where the tracks
/// export cleanly, importing that text from `m3u_path`, with every file
/// found, gives back the playlist's tracks: the same names, and paths to
/// the same files.
pub fn export_text(playlist: &Playlist, m3u_path: &str) -> (r: String)
    ensures
        r@ == m3u_text(track_views(playlist.tracks@), m3u_dir(m3u_path@)),
        exports_cleanly(track_views(playlist.tracks@), m3u_path@) ==> same_tracks(
            imported(m3u_entries(r@), m3u_dir(m3u_path@), all_found(playlist.tracks.len() as nat)),
            track_views(playlist.tracks@),
        ),
{
    let dir = m3u_dir_of(m3u_path);
    let ghost tv = track_views(playlist.tracks@);
    let mut out = String::from_str("#EXTM3U\n");
    let mut i: usize = 0;
    while i < playlist.tracks.len()
        invariant
            i <= playlist.tracks.len(),
            tv == track_views(playlist.tracks@),
            dir@ == m3u_dir(m3u_path@),
            out@ == m3u_text(tv.take(i as int), dir@),
            forall|j: int| 0 <= j < i ==> #[trigger] strip_undone(tv[j].1, dir@),
        decreases playlist.tracks.len() - i,
    {
        let t = &playlist.tracks[i];
        let shown = match strip_prefix(t.path.as_str(), dir.as_str()) {
            Some(rel) => rel,
            None => t.path.clone(),
        };
        assert(tv[i as int] == (t.name@, t.path@));
        assert(strip_undone(tv[i as int].1, dir@));
        out.append("#EXTINF:-1,");
        out.append(t.name.as_str());
        out.append("\n");
        out.append(shown.as_str());
        out.append("\n");
        proof {
            assert(tv.take(i + 1).drop_last() == tv.take(i as int));
            assert(tv.take(i + 1).last() == (t.name@, t.path@));
        }
        i = i + 1;
    }
    assert(tv.take(playlist.tracks.len() as int) == tv);
    proof {
        if exports_cleanly(tv, m3u_path@) {
            assert forall|j: int| 0 <= j < tv.len() implies #[trigger] tv[j].0.len() > 0 && same_path(
                resolved(dir@, shown_path(tv[j].1, dir@)),
                tv[j].1,
            ) && written_fits(tv[j].0, shown_path(tv[j].1, dir@)) by {
                assert(strip_undone(tv[j].1, dir@));
                lemma_path_fits_reads_back(tv[j].0, tv[j].1, dir@);
            }
            assert(round_trips(tv, dir@));
            lemma_export_then_import(tv, dir@, all_found(tv.len()));
        }
    }
    out
}


// ---------------------------------------------------------------------------
// Reading back what was written.

/// The `#EXTINF` line of a track named `name`.
pub open spec fn inf_line(name: Seq<char>) -> Seq<char> {
    "#EXTINF:-1,"@ + name
}

/// The lines of the M3U text of `ts` (without the empty piece after the
/// final newline).
pub open spec fn m3u_lines(ts: Seq<(Seq<char>, Seq<char>)>, dir: Seq<char>) -> Seq<Seq<char>>
    decreases ts.len(),
{
    if ts.len() == 0 {
        seq!["#EXTM3U"@]
    } else {
        m3u_lines(ts.drop_last(), dir).push(inf_line(ts.last().0)).push(shown_path(ts.last().1, dir))
    }
}

/// Tracks whose names and written paths survive a round trip: no newlines,
/// no whitespace at either end, and written paths that are not empty and do
/// not start with `#`.
pub open spec fn exportable(ts: Seq<(Seq<char>, Seq<char>)>, dir: Seq<char>) -> bool {
    forall|i: int|
        #![trigger ts[i]]
        0 <= i < ts.len() ==> {
            let n = ts[i].0;
            let sp = shown_path(ts[i].1, dir);
            &&& no_newline(n)
            &&& trimmed(n) == n
            &&& no_newline(sp)
            &&& sp.len() > 0
            &&& trimmed(sp) == sp
            &&& sp[0] != '#'
        }
}

/// The entries that the M3U text of `ts` holds: each track's name as its
/// title and its written path as its location.
pub open spec fn exported_entries(ts: Seq<(Seq<char>, Seq<char>)>, dir: Seq<char>) -> Seq<
    (Option<Seq<char>>, Seq<char>),
> {
    ts.map_values(|t: (Seq<char>, Seq<char>)| (Some(t.0), shown_path(t.1, dir)))
}

proof fn lemma_exportable_prefix(ts: Seq<(Seq<char>, Seq<char>)>, dir: Seq<char>)
    requires
        exportable(ts, dir),
        ts.len() > 0,
    ensures
        exportable(ts.drop_last(), dir),
{
    assert forall|i: int| 0 <= i < ts.drop_last().len() implies #[trigger] ts.drop_last()[i]
        == ts[i] by {}
}

proof fn lemma_text_lines(ts: Seq<(Seq<char>, Seq<char>)>, dir: Seq<char>)
    requires
        exportable(ts, dir),
    ensures
        split_lines(m3u_text(ts, dir)) == m3u_lines(ts, dir).push(Seq::<char>::empty()),
    decreases ts.len(),
{
    reveal_strlit("#EXTM3U\n");
    reveal_strlit("#EXTM3U");
    reveal_strlit("#EXTINF:-1,");
    reveal_strlit("\n");
    if ts.len() == 0 {
        let h = "#EXTM3U"@;
        assert("#EXTM3U\n"@ == h.push('\n'));
        lemma_split_single(h);
        lemma_split_newline(h);
    } else {
        lemma_exportable_prefix(ts, dir);
        lemma_text_lines(ts.drop_last(), dir);
        let l0 = m3u_lines(ts.drop_last(), dir);
        let n = ts.last().0;
        let sp = shown_path(ts.last().1, dir);
        assert(ts[ts.len() - 1] == ts.last());
        let a = "#EXTINF:-1,"@;
        let x0 = m3u_text(ts.drop_last(), dir);
        lemma_split_extend(x0, a);
        assert(l0.push(Seq::<char>::empty()).update(l0.len() as int, Seq::<char>::empty() + a)
            == l0.push(a));
        let x1 = x0 + a;
        lemma_split_extend(x1, n);
        assert(l0.push(a).update(l0.len() as int, a + n) == l0.push(inf_line(n)));
        let x2 = x1 + n;
        assert(x2 + "\n"@ == x2.push('\n'));
        lemma_split_newline(x2);
        let x3 = x2 + "\n"@;
        lemma_split_extend(x3, sp);
        let l1 = l0.push(inf_line(n));
        assert(l1.push(Seq::<char>::empty()).update(l1.len() as int, Seq::<char>::empty() + sp)
            == l1.push(sp));
        let x4 = x3 + sp;
        assert(x4 + "\n"@ == x4.push('\n'));
        lemma_split_newline(x4);
    }
}

proof fn lemma_parse_lines(ts: Seq<(Seq<char>, Seq<char>)>, dir: Seq<char>)
    requires
        exportable(ts, dir),
    ensures
        parse_lines(m3u_lines(ts, dir)) == (exported_entries(ts, dir), None::<Seq<char>>),
    decreases ts.len(),
{
    reveal_strlit("#EXTM3U");
    reveal_strlit("#EXTINF:-1,");
    reveal_strlit("#EXTINF:");
    let hdr = "#EXTM3U"@;
    if ts.len() == 0 {
        assert(seq![hdr].drop_last() == Seq::<Seq<char>>::empty());
        lemma_trimmed_self(hdr);
        assert(parse_lines(seq![hdr]) == parse_step(parse_lines(Seq::<Seq<char>>::empty()), hdr));
        assert(m3u_lines(ts, dir) == seq![hdr]);
        assert(exported_entries(ts, dir) == Seq::<(Option<Seq<char>>, Seq<char>)>::empty());
    } else {
        lemma_exportable_prefix(ts, dir);
        lemma_parse_lines(ts.drop_last(), dir);
        let l0 = m3u_lines(ts.drop_last(), dir);
        let n = ts.last().0;
        let sp = shown_path(ts.last().1, dir);
        assert(ts[ts.len() - 1] == ts.last());
        let inf = inf_line(n);
        let l1 = l0.push(inf);
        let l2 = l1.push(sp);
        assert(l2.drop_last() == l1);
        assert(l1.drop_last() == l0);
        // The #EXTINF line sets the title.
        if n.len() > 0 {
            lemma_trimmed_ends(n);
            assert(inf.last() == n.last());
        } else {
            assert(inf.last() == ',');
        }
        assert(inf[0] == '#');
        lemma_trimmed_self(inf);
        assert(inf[4] != hdr[4]);
        assert(inf.take(8) == "#EXTINF:"@);
        let rest = inf.skip(8);
        assert(rest == "-1,"@ + n) by {
            reveal_strlit("-1,");
        }
        reveal_strlit("-1,");
        reveal_with_fuel(first_comma, 4);
        assert("-1,"@.drop_last().drop_last() == seq!['-']);
        assert(first_comma("-1,"@) == 2);
        lemma_first_comma_append("-1,"@, n);
        assert(rest.skip(3) == n);
        // The path line takes it.
        lemma_trimmed_ends(sp);
        lemma_trimmed_self(sp);
        assert(sp[0] != hdr[0]);
        assert(sp != hdr);
        assert(!has_prefix(sp, "#EXTINF:"@)) by {
            if has_prefix(sp, "#EXTINF:"@) {
                assert(sp.take(8)[0] == sp[0]);
            }
        }
        let e0 = exported_entries(ts.drop_last(), dir);
        assert(title_of(rest) == n);
        assert(parse_step((e0, None), inf) == (e0, Some(n)));
        assert(parse_step((e0, Some(n)), sp) == (e0.push((Some(n), sp)), None::<Seq<char>>));
        assert(parse_lines(l1) == parse_step(parse_lines(l0), inf));
        assert(parse_lines(l2) == parse_step(parse_lines(l1), sp));
        assert(m3u_lines(ts, dir) == l2);
        assert(exported_entries(ts, dir) == e0.push((Some(n), sp)));
    }
}

/// Reading back an exported playlist gives each track's name as its title
/// and its written path as its location, for tracks whose names and written
/// paths have no newline, no whitespace at either end, and (for paths) are
/// not empty and do not start with `#`.
pub proof fn lemma_export_then_parse(ts: Seq<(Seq<char>, Seq<char>)>, dir: Seq<char>)
    requires
        exportable(ts, dir),
    ensures
        m3u_entries(m3u_text(ts, dir)) == exported_entries(ts, dir),
{
    lemma_text_lines(ts, dir);
    lemma_parse_lines(ts, dir);
    let l = m3u_lines(ts, dir);
    assert(l.push(Seq::<char>::empty()).drop_last() == l);
    assert(trimmed(Seq::<char>::empty()) == Seq::<char>::empty()) by {
        assert(Seq::<char>::empty().skip(0) == Seq::<char>::empty());
    }
}

/// A name and written path that fit on their lines, as `exportable` asks.
pub open spec fn written_fits(n: Seq<char>, sp: Seq<char>) -> bool {
    &&& no_newline(n)
    &&& trimmed(n) == n
    &&& no_newline(sp)
    &&& sp.len() > 0
    &&& trimmed(sp) == sp
    &&& sp[0] != '#'
}

/// A path whose components fit is written as a clean line from its
/// start: on one line, not empty, trimmed, and not starting with `#`.
proof fn lemma_written_fits(n: Seq<char>, x: Seq<char>, c: Seq<Seq<char>>)
    requires
        name_fits(n),
        x.len() > 0,
        components(x).len() <= c.len(),
        components(x) == c.skip(c.len() - components(x).len()),
        forall|j: int| 0 <= j < c.len() ==> no_newline(#[trigger] c[j]),
        c.len() > 0 ==> !is_ws(c.last().last()),
        x[0] == '/' || x[0] == '.' || (!is_ws(x[0]) && x[0] != '#'),
    ensures
        written_fits(n, x),
{
    let cx = components(x);
    assert forall|j: int| 0 <= j < cx.len() implies no_newline(#[trigger] cx[j]) by {
        assert(cx[j] == c[c.len() - cx.len() + j]);
    }
    lemma_components_no_newline(x);
    lemma_components_last(x);
    if cx.len() > 0 {
        assert(cx.last() == c.last());
    }
    lemma_trimmed_self(x);
}

/// A track path that fits, written against absolute `dir`, is written on
/// one clean line and reads back as the same file.
proof fn lemma_path_fits_reads_back(n: Seq<char>, p: Seq<char>, dir: Seq<char>)
    requires
        name_fits(n),
        absolute(dir),
        path_fits(p, components(dir)),
        strip_undone(p, dir),
    ensures
        same_path(resolved(dir, shown_path(p, dir)), p),
        written_fits(n, shown_path(p, dir)),
{
    let c = components(p);
    let d = components(dir);
    assert(c.skip(0) == c);
    match stripped(p, dir) {
        Some(x) => {
            let jn = joined(dir, x);
            assert(same_path(jn, p));
            if absolute(x) {
                assert(jn == x);
                lemma_written_fits(n, x, c);
            } else {
                let a = if dir.last() != '/' {
                    dir.push('/')
                } else {
                    dir
                };
                if dir.last() != '/' {
                    lemma_components_slash(dir);
                }
                assert(jn == a + x);
                assert(a.last() == '/');
                assert(components(a) == d);
                lemma_components_append(a, x);
                assert(components(jn) == d + components(x));
                assert(jn[0] == '/');
                if x.len() == 0 {
                    assert(x == Seq::<char>::empty());
                    assert(components(x) == Seq::<Seq<char>>::empty());
                    assert(d + components(x) == d);
                    assert(c == d);
                }
                let cx = components(x);
                assert(c == d + cx);
                assert(c.take(d.len() as int) == d);
                assert(c.skip(d.len() as int) == cx);
                assert(cx == c.skip(c.len() - cx.len()));
                lemma_components_first(x);
                lemma_components_nonempty(x);
                if x[0] != '.' {
                    assert(cx[0] == c[d.len() as int]);
                }
                lemma_written_fits(n, x, c);
            }
        },
        None => {
            lemma_written_fits(n, p, c);
        },
    }
}

/// Importing the M3U text of tracks written against `dir`, every file
/// found, gives the tracks back, names and paths, where they round-trip.
proof fn lemma_export_then_import(
    ts: Seq<(Seq<char>, Seq<char>)>,
    dir: Seq<char>,
    found: Seq<bool>,
)
    requires
        round_trips(ts, dir),
        found.len() >= ts.len(),
        forall|j: int| 0 <= j < found.len() ==> #[trigger] found[j],
    ensures
        same_tracks(imported(m3u_entries(m3u_text(ts, dir)), dir, found), ts),
{
    lemma_export_then_parse(ts, dir);
    lemma_import_exported(ts, dir, found);
}

proof fn lemma_import_exported(ts: Seq<(Seq<char>, Seq<char>)>, dir: Seq<char>, found: Seq<bool>)
    requires
        round_trips(ts, dir),
        found.len() >= ts.len(),
        forall|j: int| 0 <= j < found.len() ==> #[trigger] found[j],
    ensures
        same_tracks(imported(exported_entries(ts, dir), dir, found), ts),
    decreases ts.len(),
{
    let es = exported_entries(ts, dir);
    if ts.len() > 0 {
        let n = ts.len() - 1;
        let init = ts.drop_last();
        assert(round_trips(init, dir)) by {
            assert forall|i: int| 0 <= i < init.len() implies #[trigger] init[i] == ts[i] by {}
        }
        lemma_import_exported(init, dir, found);
        assert(es.drop_last() == exported_entries(init, dir));
        assert(ts[n] == ts.last());
        assert(found[n]);
        assert(same_path(resolved(dir, shown_path(ts[n].1, dir)), ts[n].1));
        assert(es.last() == (Some(ts[n].0), shown_path(ts[n].1, dir)));
        let prev = imported(exported_entries(init, dir), dir, found);
        let out = imported(es, dir, found);
        assert(out == prev.push((ts[n].0, resolved(dir, shown_path(ts[n].1, dir)))));
        assert forall|i: int| 0 <= i < out.len() implies #[trigger] out[i].0 == ts[i].0 && same_path(
            out[i].1,
            ts[i].1,
        ) by {
            if i < n {
                assert(out[i] == prev[i]);
                assert(init[i] == ts[i]);
            }
        }
    } else {
        assert(es.len() == 0);
    }
}

} // verus!
