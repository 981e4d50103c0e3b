//! The list of recently played tracks: most recent first, one entry per
//! file, at most `CAP` entries.

use vstd::prelude::*;
use crate::paths::{dir_or_here, is_same_path, join, joined, same_path};
use crate::sys;

verus! {

/// How many entries the history keeps.
pub const CAP: usize = 25;

/// A played track.
pub struct HistoryEntry {
    pub name: String,
    pub path: String,
}

/// Recently played tracks, most recent first.
pub struct History {
    pub entries: Vec<HistoryEntry>,
}

/// `s` without the entries for file `p` (by component, as `Path`'s `==`
/// compares), in the same order.
pub open spec fn without_path(s: Seq<HistoryEntry>, p: Seq<char>) -> Seq<HistoryEntry>
    decreases s.len(),
{
    if s.len() == 0 {
        s
    } else {
        let r = without_path(s.drop_last(), p);
        if same_path(s.last().path@, p) {
            r
        } else {
            r.push(s.last())
        }
    }
}

/// The first `CAP` entries of `s`.
pub open spec fn capped(s: Seq<HistoryEntry>) -> Seq<HistoryEntry> {
    if s.len() > CAP {
        s.take(CAP as int)
    } else {
        s
    }
}

/// The history after playing `e`: `e` first, then the earlier entries for
/// other files, cut to `CAP`.
pub open spec fn after_add(s: Seq<HistoryEntry>, e: HistoryEntry) -> Seq<HistoryEntry> {
    capped(seq![e] + without_path(s, e.path@))
}

/// No two entries are for the same file.
pub open spec fn distinct_paths(s: Seq<HistoryEntry>) -> bool {
    forall|i: int, j: int| 0 <= i < j < s.len() ==> !same_path(s[i].path@, s[j].path@)
}

impl History {
    /// The history file under a data directory.
    pub fn path_in(base: &str) -> (r: String)
        ensures
            r@ == joined(base@, "tui-fi/history.json"@),
    {
        join(base, "tui-fi/history.json")
    }

    /// The history file: under the user's data directory, or under `.` where
    /// there is none.
    pub fn path() -> (r: String)
        ensures
            exists|base: Seq<char>| r@ == joined(base, "tui-fi/history.json"@),
    {
        let base = dir_or_here(sys::data_dir());
        Self::path_in(base.as_str())
    }

    /// An empty history.
    pub fn new() -> (r: Self)
        ensures
            r.entries@ == Seq::<HistoryEntry>::empty(),
    {
        History { entries: Vec::new() }
    }

    /// Records that the file `path`, shown as `name`, was played: it moves to
    /// the top (or enters there), and the list is cut to `CAP` entries.
    pub fn add(&mut self, name: String, path: String)
        ensures
            final(self).entries@ == after_add(old(self).entries@, (HistoryEntry { name, path })),
    {
        let ghost p = path@;
        let mut kept: Vec<HistoryEntry> = Vec::new();
        let n = self.entries.len();
        let mut i: usize = 0;
        while i < n
            invariant
                n == self.entries.len(),
                i <= n,
                p == path@,
                kept@ == without_path(self.entries@.take(i as int), p),
            decreases n - i,
        {
            let e = &self.entries[i];
            assert(self.entries@.take(i + 1).drop_last() == self.entries@.take(i as int));
            if !is_same_path(e.path.as_str(), path.as_str()) {
                kept.push(HistoryEntry { name: e.name.clone(), path: e.path.clone() });
            }
            i = i + 1;
        }
        assert(self.entries@.take(n as int) == self.entries@);
        kept.insert(0, HistoryEntry { name, path });
        assert(kept@ == seq![HistoryEntry { name, path }] + without_path(self.entries@, p));
        kept.truncate(CAP);
        self.entries = kept;
    }
}


proof fn lemma_without_path_elems(s: Seq<HistoryEntry>, p: Seq<char>)
    ensures
        without_path(s, p).len() <= s.len(),
        forall|i: int|
            #![trigger without_path(s, p)[i]]
            0 <= i < without_path(s, p).len() ==> !same_path(without_path(s, p)[i].path@, p) && exists|j: int|
                0 <= j < s.len() && without_path(s, p)[i] == s[j],
    decreases s.len(),
{
    if s.len() > 0 {
        let r = without_path(s.drop_last(), p);
        lemma_without_path_elems(s.drop_last(), p);
        assert forall|i: int| 0 <= i < without_path(s, p).len() implies !same_path(
            #[trigger] without_path(s, p)[i].path@,
            p,
        ) && exists|j: int| 0 <= j < s.len() && without_path(s, p)[i] == s[j] by {
            if i < r.len() {
                let d = s.drop_last();
                assert(r[i] == without_path(d, p)[i]);
                let j = choose|j: int| 0 <= j < d.len() && r[i] == d[j];
                assert(d[j] == s[j]);
                assert(without_path(s, p)[i] == r[i]);
                assert(without_path(s, p)[i] == s[j]);
            } else {
                assert(without_path(s, p)[i] == s[s.len() - 1]);
            }
        }
    }
}

proof fn lemma_without_path_distinct(s: Seq<HistoryEntry>, p: Seq<char>)
    requires
        distinct_paths(s),
    ensures
        distinct_paths(without_path(s, p)),
    decreases s.len(),
{
    if s.len() > 0 {
        let d = s.drop_last();
        assert(distinct_paths(d));
        lemma_without_path_distinct(d, p);
        lemma_without_path_elems(d, p);
        let r = without_path(d, p);
        if !same_path(s.last().path@, p) {
            assert forall|i: int, j: int| 0 <= i < j < r.push(s.last()).len() implies !same_path(
                r.push(s.last())[i].path@,
                r.push(s.last())[j].path@,
            ) by {
                if j == r.len() {
                    let k = choose|k: int| 0 <= k < d.len() && r[i] == d[k];
                    assert(s[k] == d[k]);
                }
            }
        }
    }
}

proof fn lemma_without_path_noop(s: Seq<HistoryEntry>, p: Seq<char>)
    requires
        forall|i: int| 0 <= i < s.len() ==> !same_path(s[i].path@, p),
    ensures
        without_path(s, p) == s,
    decreases s.len(),
{
    if s.len() > 0 {
        lemma_without_path_noop(s.drop_last(), p);
        assert(s.drop_last().push(s.last()) == s);
    }
}

proof fn lemma_without_path_first_dropped(e: HistoryEntry, w: Seq<HistoryEntry>, p: Seq<char>)
    requires
        same_path(e.path@, p),
        forall|i: int| 0 <= i < w.len() ==> !same_path(w[i].path@, p),
    ensures
        without_path(seq![e] + w, p) == w,
    decreases w.len(),
{
    if w.len() == 0 {
        assert(seq![e] + w == seq![e]);
        assert(seq![e].drop_last() == Seq::<HistoryEntry>::empty());
        assert(without_path(Seq::<HistoryEntry>::empty(), p) == Seq::<HistoryEntry>::empty());
        assert(without_path(seq![e], p) == without_path(Seq::<HistoryEntry>::empty(), p));
    } else {
        lemma_without_path_first_dropped(e, w.drop_last(), p);
        assert((seq![e] + w).drop_last() == seq![e] + w.drop_last());
        assert(w.drop_last().push(w.last()) == w);
    }
}

/// After a track is added, it stands first, the history holds at most `CAP`
/// entries, and no later entry is for the same file.
pub proof fn lemma_add_moves_to_top(s: Seq<HistoryEntry>, e: HistoryEntry)
    ensures
        after_add(s, e).len() >= 1,
        after_add(s, e).len() <= CAP,
        after_add(s, e)[0] == e,
        forall|i: int| 1 <= i < after_add(s, e).len() ==> !same_path(#[trigger] after_add(s, e)[i].path@, e.path@),
{
    let w = without_path(s, e.path@);
    lemma_without_path_elems(s, e.path@);
    assert forall|i: int| 1 <= i < after_add(s, e).len() implies !same_path(
        #[trigger] after_add(s, e)[i].path@,
        e.path@,
    ) by {
        assert(after_add(s, e)[i] == w[i - 1]);
    }
}

/// Adding keeps the entries' files distinct: a history with one entry per
/// file still has one entry per file after a track is added.
pub proof fn lemma_add_keeps_paths_distinct(s: Seq<HistoryEntry>, e: HistoryEntry)
    requires
        distinct_paths(s),
    ensures
        distinct_paths(after_add(s, e)),
{
    let p = e.path@;
    let w = without_path(s, p);
    lemma_without_path_distinct(s, p);
    lemma_without_path_elems(s, p);
    let a = after_add(s, e);
    assert forall|i: int, j: int| 0 <= i < j < a.len() implies !same_path(a[i].path@, a[j].path@) by {
        assert(a[j] == w[j - 1]);
        if i > 0 {
            assert(a[i] == w[i - 1]);
        }
    }
}

/// Adding the same track twice in a row gives what adding it once gives.
pub proof fn lemma_add_twice(s: Seq<HistoryEntry>, e: HistoryEntry)
    ensures
        after_add(after_add(s, e), e) == after_add(s, e),
{
    let p = e.path@;
    let w = without_path(s, p);
    lemma_without_path_elems(s, p);
    let a = after_add(s, e);
    let rest = a.drop_first();
    assert(a == seq![e] + rest);
    assert forall|i: int| 0 <= i < rest.len() implies !same_path(rest[i].path@, p) by {
        assert(rest[i] == w[i]);
    }
    lemma_without_path_first_dropped(e, rest, p);
    assert(capped(seq![e] + rest) == a);
}

} // verus!
