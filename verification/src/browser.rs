//! The file browser: which directory entries are shown, in which order, and
//! the cursor over them.

use vstd::prelude::*;
use crate::paths::{extension, extension_of, file_name, file_name_of, lowercase, parent, parent_of,
    to_lowercase, opt_view};
use crate::text::chars_of;

verus! {

broadcast use vstd::seq_lib::to_multiset_build, vstd::seq_lib::to_multiset_insert;

/// A directory entry as read from the file system: its path and whether it
/// is a directory.
pub struct DirEntry {
    pub path: String,
    pub is_dir: bool,
}

impl View for DirEntry {
    type V = (Seq<char>, bool);

    open spec fn view(&self) -> (Seq<char>, bool) {
        (self.path@, self.is_dir)
    }
}

// ---------------------------------------------------------------------------
// Which files count as audio, playlists, hidden.

/// The lower-cased extensions of the audio files the player opens.
pub open spec fn audio_ext(lowered: Seq<char>) -> bool {
    ||| lowered == "mp3"@
    ||| lowered == "flac"@
    ||| lowered == "ogg"@
    ||| lowered == "wav"@
    ||| lowered == "aac"@
    ||| lowered == "m4a"@
    ||| lowered == "opus"@
}

pub open spec fn ascii_lower(c: char) -> char {
    if 'A' <= c && c <= 'Z' {
        ((c as u32) + 32) as char
    } else {
        c
    }
}

/// `ext` equals `"m3u"` ignoring ASCII case.
pub open spec fn m3u_ext(ext: Seq<char>) -> bool {
    ext.len() == 3 && ascii_lower(ext[0]) == 'm' && ascii_lower(ext[1]) == '3' && ascii_lower(ext[2])
        == 'u'
}

pub open spec fn is_audio_path(p: Seq<char>) -> bool {
    match extension_of(p) {
        Some(e) => audio_ext(lowercase(e)),
        None => false,
    }
}

pub open spec fn is_m3u_path(p: Seq<char>) -> bool {
    match extension_of(p) {
        Some(e) => m3u_ext(e),
        None => false,
    }
}

pub open spec fn is_hidden_path(p: Seq<char>) -> bool {
    match file_name_of(p) {
        Some(n) => n.len() > 0 && n[0] == '.',
        None => false,
    }
}

/// Whether an already lower-cased extension is one of an audio file.
pub fn is_audio_extension(lowered: &str) -> (r: bool)
    ensures
        r == audio_ext(lowered@),
{
    let l = String::from_str(lowered);
    l == String::from_str("mp3") || l == String::from_str("flac") || l == String::from_str("ogg")
        || l == String::from_str("wav") || l == String::from_str("aac") || l == String::from_str(
        "m4a",
    ) || l == String::from_str("opus")
}

fn lower_ascii(c: char) -> (r: char)
    ensures
        r == ascii_lower(c),
{
    if 'A' <= c && c <= 'Z' {
        ((c as u8) + 32) as char
    } else {
        c
    }
}

/// Whether an extension is `m3u`, ignoring ASCII case.
pub fn is_m3u_extension(ext: &str) -> (r: bool)
    ensures
        r == m3u_ext(ext@),
{
    let v = chars_of(ext);
    v.len() == 3 && lower_ascii(v[0]) == 'm' && lower_ascii(v[1]) == '3' && lower_ascii(v[2]) == 'u'
}

/// Whether the path names an audio file, by its extension, in any case.
pub fn is_audio(path: &str) -> (r: bool)
    ensures
        r == is_audio_path(path@),
{
    match extension(path) {
        Some(e) => {
            let l = to_lowercase(e.as_str());
            is_audio_extension(l.as_str())
        },
        None => false,
    }
}

/// Whether the path names an M3U playlist, by its extension, in any ASCII case.
pub fn is_m3u(path: &str) -> (r: bool)
    ensures
        r == is_m3u_path(path@),
{
    match extension(path) {
        Some(e) => is_m3u_extension(e.as_str()),
        None => false,
    }
}

/// Whether the path's file name starts with a dot.
pub fn is_hidden(path: &str) -> (r: bool)
    ensures
        r == is_hidden_path(path@),
{
    match file_name(path) {
        Some(n) => {
            let v = chars_of(n.as_str());
            v.len() > 0 && v[0] == '.'
        },
        None => false,
    }
}

// ---------------------------------------------------------------------------
// Order of entries: directories first, then by path.

/// Lexicographic order of character sequences (code point by code point).
pub open spec fn lex_le(a: Seq<char>, b: Seq<char>) -> bool
    decreases a.len(),
{
    if a.len() == 0 {
        true
    } else if b.len() == 0 {
        false
    } else if a[0] != b[0] {
        a[0] < b[0]
    } else {
        lex_le(a.drop_first(), b.drop_first())
    }
}

/// Any two texts are ordered one way or the other.
pub proof fn lemma_lex_total(a: Seq<char>, b: Seq<char>)
    ensures
        lex_le(a, b) || lex_le(b, a),
    decreases a.len(),
{
    if a.len() > 0 && b.len() > 0 && a[0] == b[0] {
        lemma_lex_total(a.drop_first(), b.drop_first());
    }
}

/// Every text is ordered before or with itself.
pub proof fn lemma_lex_refl(a: Seq<char>)
    ensures
        lex_le(a, a),
    decreases a.len(),
{
    if a.len() > 0 {
        lemma_lex_refl(a.drop_first());
    }
}

/// Texts ordered both ways are equal.
pub proof fn lemma_lex_antisym(a: Seq<char>, b: Seq<char>)
    requires
        lex_le(a, b),
        lex_le(b, a),
    ensures
        a == b,
    decreases a.len(),
{
    if a.len() == 0 {
        assert(b.len() == 0);
        assert(a =~= b);
    } else {
        lemma_lex_antisym(a.drop_first(), b.drop_first());
        assert forall|i: int| 0 <= i < a.len() implies a[i] == b[i] by {
            if i > 0 {
                assert(a[i] == a.drop_first()[i - 1]);
                assert(b[i] == b.drop_first()[i - 1]);
            }
        }
        assert(a =~= b);
    }
}

/// The text order is transitive.
pub proof fn lemma_lex_trans(a: Seq<char>, b: Seq<char>, c: Seq<char>)
    requires
        lex_le(a, b),
        lex_le(b, c),
    ensures
        lex_le(a, c),
    decreases a.len(),
{
    if a.len() > 0 && a[0] == b[0] && b[0] == c[0] {
        lemma_lex_trans(a.drop_first(), b.drop_first(), c.drop_first());
    }
}

/// Directories come before files; within each kind, paths go in lexicographic order.
pub open spec fn entry_le(a: (Seq<char>, bool), b: (Seq<char>, bool)) -> bool {
    if a.1 != b.1 {
        a.1
    } else {
        lex_le(a.0, b.0)
    }
}

/// Any two entries are ordered one way or the other.
pub proof fn lemma_entry_total(a: (Seq<char>, bool), b: (Seq<char>, bool))
    ensures
        entry_le(a, b) || entry_le(b, a),
{
    lemma_lex_total(a.0, b.0);
}

/// Entries ordered both ways are equal.
pub proof fn lemma_entry_antisym(a: (Seq<char>, bool), b: (Seq<char>, bool))
    requires
        entry_le(a, b),
        entry_le(b, a),
    ensures
        a == b,
{
    lemma_lex_antisym(a.0, b.0);
}

/// The entry order is transitive.
pub proof fn lemma_entry_trans(a: (Seq<char>, bool), b: (Seq<char>, bool), c: (Seq<char>, bool))
    requires
        entry_le(a, b),
        entry_le(b, c),
    ensures
        entry_le(a, c),
{
    if a.1 == b.1 && b.1 == c.1 {
        lemma_lex_trans(a.0, b.0, c.0);
    }
}

pub open spec fn sorted_entries(s: Seq<(Seq<char>, bool)>) -> bool {
    forall|i: int, j: int| 0 <= i < j < s.len() ==> entry_le(s[i], s[j])
}

fn lex_le_exec(a: &Vec<char>, b: &Vec<char>) -> (r: bool)
    ensures
        r == lex_le(a@, b@),
{
    let mut i: usize = 0;
    assert(a@.skip(0) == a@);
    assert(b@.skip(0) == b@);
    while i < a.len() && i < b.len() && a[i] == b[i]
        invariant
            i <= a.len(),
            i <= b.len(),
            lex_le(a@, b@) == lex_le(a@.skip(i as int), b@.skip(i as int)),
        decreases a.len() - i,
    {
        assert(a@.skip(i as int).drop_first() == a@.skip(i + 1));
        assert(b@.skip(i as int).drop_first() == b@.skip(i + 1));
        i = i + 1;
    }
    if i == a.len() {
        true
    } else if i == b.len() {
        false
    } else {
        assert(a@.skip(i as int)[0] == a@[i as int]);
        assert(b@.skip(i as int)[0] == b@[i as int]);
        a[i] < b[i]
    }
}

fn entry_le_exec(a: &DirEntry, b: &DirEntry) -> (r: bool)
    ensures
        r == entry_le(a@, b@),
{
    if a.is_dir != b.is_dir {
        a.is_dir
    } else {
        let x = chars_of(a.path.as_str());
        let y = chars_of(b.path.as_str());
        lex_le_exec(&x, &y)
    }
}

// ---------------------------------------------------------------------------
// Listing.

/// A listed entry: not hidden, and a directory, an audio file or a playlist.
pub open spec fn shown(e: (Seq<char>, bool)) -> bool {
    !is_hidden_path(e.0) && (e.1 || is_audio_path(e.0) || is_m3u_path(e.0))
}

/// The entries of `raw` that the browser shows, in the order read.
pub open spec fn shown_entries(raw: Seq<(Seq<char>, bool)>) -> Seq<(Seq<char>, bool)>
    decreases raw.len(),
{
    if raw.len() == 0 {
        raw
    } else if shown(raw.last()) {
        shown_entries(raw.drop_last()).push(raw.last())
    } else {
        shown_entries(raw.drop_last())
    }
}

pub open spec fn views(s: Seq<DirEntry>) -> Seq<(Seq<char>, bool)> {
    s.map_values(|e: DirEntry| e@)
}

/// `out` is the browser's listing of `raw`: the shown entries, sorted with
/// directories first and then by path.
pub open spec fn is_listing(raw: Seq<(Seq<char>, bool)>, out: Seq<(Seq<char>, bool)>) -> bool {
    &&& sorted_entries(out)
    &&& out.to_multiset() == shown_entries(raw).to_multiset()
}

/// The shown entries of a directory's contents, directories first, then in
/// path order.
pub fn list_audio_and_dirs(raw: Vec<DirEntry>) -> (r: Vec<DirEntry>)
    ensures
        is_listing(views(raw@), views(r@)),
{
    let mut out: Vec<DirEntry> = Vec::new();
    let mut rest = raw;
    let ghost all = views(rest@);
    let mut i: usize = 0;
    let n = rest.len();
    // Take entries from the back so that each is moved, not copied.
    let mut taken: Vec<DirEntry> = Vec::new();
    while rest.len() > 0
        invariant
            views(rest@) + views(taken@).reverse() == all,
        decreases rest.len(),
    {
        let ghost before = rest@;
        let e = rest.pop().unwrap();
        proof {
            assert(views(before) == views(rest@).push(e@));
            assert(views(taken@.push(e)).reverse() == seq![e@] + views(taken@).reverse());
        }
        taken.push(e);
    }
    assert(views(rest@) == Seq::<(Seq<char>, bool)>::empty());
    assert(all == views(taken@).reverse());
    let ghost order = views(taken@).reverse();
    assert(order.take(0) == Seq::<(Seq<char>, bool)>::empty());
    assert(views(out@) == Seq::<(Seq<char>, bool)>::empty());
    // `taken` holds the entries back to front; insert them front to back.
    while taken.len() > 0
        invariant
            i <= n,
            order.len() == n,
            views(taken@).reverse() == order.skip(i as int),
            order.len() == taken.len() + i,
            sorted_entries(views(out@)),
            views(out@).to_multiset() == shown_entries(order.take(i as int)).to_multiset(),
        decreases taken.len(),
    {
        let ghost before = taken@;
        let e = taken.pop().unwrap();
        proof {
            assert(views(before) == views(taken@).push(e@));
            assert(views(before).reverse() == seq![e@] + views(taken@).reverse());
            assert(order[i as int] == e@) by {
                assert(order.skip(i as int)[0] == order[i as int]);
            }
            assert(order.skip(i + 1) == order.skip(i as int).drop_first());
            assert(order.take(i + 1).drop_last() == order.take(i as int));
            assert(order.take(i + 1).last() == e@);
        }
        if !is_hidden(e.path.as_str()) && (e.is_dir || is_audio(e.path.as_str()) || is_m3u(
            e.path.as_str(),
        )) {
            let mut pos: usize = 0;
            while pos < out.len() && entry_le_exec(&out[pos], &e)
                invariant
                    pos <= out.len(),
                    forall|k: int| 0 <= k < pos ==> entry_le(out@[k]@, e@),
                decreases out.len() - pos,
            {
                pos = pos + 1;
            }
            let ghost old_out = views(out@);
            proof {
                if pos < out.len() {
                    assert(old_out[pos as int] == out@[pos as int]@);
                    lemma_entry_total(out@[pos as int]@, e@);
                }
            }
            out.insert(pos, e);
            proof {
                let v = views(out@);
                assert(v == old_out.insert(pos as int, e@));
                assert forall|a: int, b: int| 0 <= a < b < v.len() implies entry_le(v[a], v[b]) by {
                    if a < pos && b == pos {
                    } else if a == pos && b > pos + 1 {
                        lemma_entry_trans(e@, old_out[pos as int], old_out[b - 1]);
                    } else if a < pos && b > pos {
                        assert(entry_le(old_out[a], old_out[b - 1]));
                    } else if a > pos {
                        assert(entry_le(old_out[a - 1], old_out[b - 1]));
                    }
                }
            }
        }
        i = i + 1;
    }
    assert(order.take(n as int) == order);
    out
}

proof fn lemma_shown_counts(raw: Seq<(Seq<char>, bool)>)
    ensures
        forall|v: (Seq<char>, bool)|
            #[trigger] shown_entries(raw).to_multiset().count(v) == if shown(v) {
                raw.to_multiset().count(v)
            } else {
                0
            },
    decreases raw.len(),
{
    broadcast use vstd::multiset::group_multiset_axioms, vstd::seq_lib::to_multiset_contains;

    if raw.len() == 0 {
        assert forall|v: (Seq<char>, bool)| #[trigger] raw.to_multiset().count(v) == 0 by {
            assert(!raw.contains(v));
        }
    } else {
        let d = raw.drop_last();
        lemma_shown_counts(d);
        assert(raw == d.push(raw.last()));
        let x = raw.last();
        assert(raw.to_multiset() == d.to_multiset().insert(x));
        if shown(x) {
            assert(shown_entries(raw) == shown_entries(d).push(x));
            assert(shown_entries(raw).to_multiset() == shown_entries(d).to_multiset().insert(x));
        } else {
            assert(shown_entries(raw) == shown_entries(d));
        }
        assert forall|v: (Seq<char>, bool)| #[trigger] shown_entries(raw).to_multiset().count(v)
            == if shown(v) {
            raw.to_multiset().count(v)
        } else {
            0
        } by {
            assert(shown_entries(d).to_multiset().count(v) == if shown(v) {
                d.to_multiset().count(v)
            } else {
                0
            });
        }
    }
}

proof fn lemma_sorted_unique(a: Seq<(Seq<char>, bool)>, b: Seq<(Seq<char>, bool)>)
    requires
        sorted_entries(a),
        sorted_entries(b),
        a.to_multiset() == b.to_multiset(),
    ensures
        a == b,
    decreases a.len(),
{
    broadcast use vstd::multiset::group_multiset_axioms, vstd::seq_lib::to_multiset_len,
        vstd::seq_lib::to_multiset_contains, vstd::seq_lib::to_multiset_remove;

    vstd::seq_lib::to_multiset_len(a);
    vstd::seq_lib::to_multiset_len(b);
    assert(a.len() == b.len());
    if a.len() > 0 {
        assert(a.contains(a[0]));
        assert(b.to_multiset().contains(a[0]));
        assert(b.contains(a[0]));
        let j = choose|j: int| 0 <= j < b.len() && b[j] == a[0];
        assert(b.contains(b[0]));
        assert(a.to_multiset().contains(b[0]));
        let k = choose|k: int| 0 <= k < a.len() && a[k] == b[0];
        if j > 0 {
            assert(entry_le(b[0], b[j]));
        } else {
            lemma_entry_refl(b[0]);
        }
        if k > 0 {
            assert(entry_le(a[0], a[k]));
        } else {
            lemma_entry_refl(a[0]);
        }
        lemma_entry_antisym(a[0], b[0]);
        assert(a.remove(0) == a.drop_first());
        assert(b.remove(0) == b.drop_first());
        assert(a.drop_first().to_multiset() == b.drop_first().to_multiset());
        lemma_sorted_unique(a.drop_first(), b.drop_first());
        assert(a == seq![a[0]] + a.drop_first());
        assert(b == seq![b[0]] + b.drop_first());
    } else {
        assert(a == b);
    }
}

/// Every entry is ordered before or with itself.
pub proof fn lemma_entry_refl(a: (Seq<char>, bool))
    ensures
        entry_le(a, a),
{
    lemma_lex_refl(a.0);
}

/// The browser's listing does not depend on the order in which the
/// directory's entries are read: the same entries, in any order, give the
/// same listing.
pub proof fn lemma_listing_order_free(
    raw1: Seq<(Seq<char>, bool)>,
    raw2: Seq<(Seq<char>, bool)>,
    out1: Seq<(Seq<char>, bool)>,
    out2: Seq<(Seq<char>, bool)>,
)
    requires
        raw1.to_multiset() == raw2.to_multiset(),
        is_listing(raw1, out1),
        is_listing(raw2, out2),
    ensures
        out1 == out2,
{
    lemma_shown_counts(raw1);
    lemma_shown_counts(raw2);
    assert(shown_entries(raw1).to_multiset() =~= shown_entries(raw2).to_multiset());
    lemma_sorted_unique(out1, out2);
}

/// Every entry listed is shown (not hidden; a directory, audio file or
/// playlist) and comes from the directory's contents.
pub proof fn lemma_listing_shows_only(raw: Seq<(Seq<char>, bool)>, out: Seq<(Seq<char>, bool)>, i: int)
    requires
        is_listing(raw, out),
        0 <= i < out.len(),
    ensures
        shown(out[i]),
        raw.contains(out[i]),
{
    broadcast use vstd::multiset::group_multiset_axioms, vstd::seq_lib::to_multiset_contains;

    lemma_shown_counts(raw);
    assert(out.contains(out[i]));
    assert(out.to_multiset().count(out[i]) > 0);
    assert(shown_entries(raw).to_multiset().count(out[i]) > 0);
    assert(raw.to_multiset().count(out[i]) > 0);
    assert(raw.to_multiset().contains(out[i]));
}

// ---------------------------------------------------------------------------
// The browser.

pub open spec fn path_views(s: Seq<String>) -> Seq<Seq<char>> {
    s.map_values(|p: String| p@)
}

/// `entries` are the paths of the browser's listing of `raw`.
pub open spec fn lists(raw: Seq<DirEntry>, entries: Seq<String>) -> bool {
    exists|out: Seq<(Seq<char>, bool)>|
        is_listing(views(raw), out) && path_views(entries) == out.map_values(
            |e: (Seq<char>, bool)| e.0,
        )
}

/// The file browser: a directory, its listed entries and a cursor.
pub struct BrowserState {
    pub current_dir: String,
    pub entries: Vec<String>,
    pub selected: usize,
}

fn listing_paths(raw: Vec<DirEntry>) -> (r: Vec<String>)
    ensures
        lists(raw@, r@),
{
    let ghost rv = raw@;
    let sorted = list_audio_and_dirs(raw);
    let ghost out = views(sorted@);
    let mut r: Vec<String> = Vec::new();
    let mut i: usize = 0;
    while i < sorted.len()
        invariant
            i <= sorted.len(),
            out == views(sorted@),
            path_views(r@) == out.take(i as int).map_values(|e: (Seq<char>, bool)| e.0),
        decreases sorted.len() - i,
    {
        r.push(sorted[i].path.clone());
        proof {
            assert(out.take(i + 1).map_values(|e: (Seq<char>, bool)| e.0) == out.take(
                i as int,
            ).map_values(|e: (Seq<char>, bool)| e.0).push(out[i as int].0));
            assert(path_views(r@) == path_views(r@.drop_last()).push(r@.last()@));
        }
        i = i + 1;
    }
    assert(out.take(sorted.len() as int) == out);
    r
}

impl BrowserState {
    /// The cursor stays on an entry, or at 0 on an empty listing.
    pub open spec fn wf(&self) -> bool {
        self.selected == 0 || self.selected < self.entries.len()
    }

    /// A browser on `dir`, whose contents are `listing`, cursor at the top.
    pub fn new(dir: String, listing: Vec<DirEntry>) -> (r: Self)
        ensures
            r.current_dir == dir,
            lists(listing@, r.entries@),
            r.selected == 0,
            r.wf(),
    {
        let entries = listing_paths(listing);
        BrowserState { current_dir: dir, entries, selected: 0 }
    }

    /// Lists the directory again (its contents are now `listing`); the cursor
    /// stays where it was, or moves to the last entry if the list got shorter.
    pub fn refresh(&mut self, listing: Vec<DirEntry>)
        ensures
            final(self).current_dir == old(self).current_dir,
            lists(listing@, final(self).entries@),
            final(self).selected == if old(self).selected < final(self).entries.len() {
                old(self).selected
            } else if final(self).entries.len() == 0 {
                0
            } else {
                (final(self).entries.len() - 1) as usize
            },
            final(self).wf(),
    {
        self.entries = listing_paths(listing);
        let last = if self.entries.len() == 0 {
            0
        } else {
            self.entries.len() - 1
        };
        if self.selected > last {
            self.selected = last;
        }
    }

    /// The entry under the cursor.
    pub fn selected_path(&self) -> (r: Option<&String>)
        ensures
            r == if self.selected < self.entries.len() {
                Some(&self.entries@[self.selected as int])
            } else {
                None
            },
    {
        if self.selected < self.entries.len() {
            Some(&self.entries[self.selected])
        } else {
            None
        }
    }

    /// Opens the entry under the cursor if it is a directory
    /// (`selected_is_dir`), whose contents are `listing`.
    pub fn enter_selected(&mut self, selected_is_dir: bool, listing: Vec<DirEntry>)
        ensures
            if old(self).selected < old(self).entries.len() && selected_is_dir {
                &&& final(self).current_dir == old(self).entries@[old(self).selected as int]
                &&& lists(listing@, final(self).entries@)
                &&& final(self).selected == 0
            } else {
                *final(self) == *old(self)
            },
            old(self).wf() ==> final(self).wf(),
    {
        if self.selected < self.entries.len() && selected_is_dir {
            let path = self.entries[self.selected].clone();
            self.current_dir = path;
            self.entries = listing_paths(listing);
            self.selected = 0;
        }
    }

    /// The directory above the current one, if any.
    pub fn parent_dir(&self) -> (r: Option<String>)
        ensures
            opt_view(r) == parent_of(self.current_dir@),
    {
        parent(self.current_dir.as_str())
    }

    /// Goes to the directory above, whose contents are `listing`.
    pub fn go_up(&mut self, listing: Vec<DirEntry>)
        ensures
            match parent_of(old(self).current_dir@) {
                Some(p) => {
                    &&& final(self).current_dir@ == p
                    &&& lists(listing@, final(self).entries@)
                    &&& final(self).selected == 0
                },
                None => *final(self) == *old(self),
            },
            old(self).wf() ==> final(self).wf(),
    {
        if let Some(p) = self.parent_dir() {
            self.current_dir = p;
            self.entries = listing_paths(listing);
            self.selected = 0;
        }
    }
}

} // verus!
