//! Paths are handled as text, by the host platform's rules (this player runs
//! on Unix-like systems, where a path's text alone decides each result).
//! What is a few lines under Unix is written out and proved here: a path's
//! components, when two paths are the same (as `Path`'s `==` compares them),
//! whether a path is absolute, how `Path::join` puts two paths together, the
//! file name, and extension and stem from a file name. `Path::parent`,
//! `Path::strip_prefix` and `str::to_lowercase` are called behind small
//! wrappers whose results are named below.

use std::path::Path;
use vstd::prelude::*;
use crate::text::{chars_of, no_newline, push_char, string_of};

verus! {

/// `Path::file_name` on Unix: the last component, unless there is none or
/// it is `..`.
pub open spec fn file_name_of(p: Seq<char>) -> Option<Seq<char>> {
    let c = components(p);
    if c.len() > 0 && c.last() != seq!['.', '.'] {
        Some(c.last())
    } else {
        None
    }
}

/// What `Path::parent` gives for the path with this text.
pub uninterp spec fn parent_of(p: Seq<char>) -> Option<Seq<char>>;

/// Whether a path is absolute: on Unix, whether it starts with `/`.
pub open spec fn absolute(p: Seq<char>) -> bool {
    p.len() > 0 && p[0] == '/'
}

/// `Path::join` on Unix: an absolute `rest` replaces `base`; otherwise `rest`
/// follows `base`, with a `/` between them where `base` is not empty and does
/// not already end with one.
pub open spec fn joined(base: Seq<char>, rest: Seq<char>) -> Seq<char> {
    if absolute(rest) {
        rest
    } else if base.len() > 0 && base.last() != '/' {
        base.push('/') + rest
    } else {
        base + rest
    }
}

/// What `Path::strip_prefix` gives for path `p` and prefix `base`, `None` for its error.
pub uninterp spec fn stripped(p: Seq<char>, base: Seq<char>) -> Option<Seq<char>>;

/// What `str::to_lowercase` gives.
pub uninterp spec fn lowercase(s: Seq<char>) -> Seq<char>;

pub open spec fn opt_view(o: Option<String>) -> Option<Seq<char>> {
    match o {
        Some(s) => Some(s@),
        None => None,
    }
}

/// The file name of a path, as `Path::file_name` gives it on Unix.
pub fn file_name(p: &str) -> (r: Option<String>)
    ensures
        opt_view(r) == file_name_of(p@),
{
    let c = chars_of(p);
    let parts = components_of(&c);
    if parts.len() == 0 {
        return None;
    }
    let last = &parts[parts.len() - 1];
    assert(part_views(parts@).last() == last@);
    if last.len() == 2 && last[0] == '.' && last[1] == '.' {
        assert(last@ == seq!['.', '.']);
        None
    } else {
        assert(last@ != seq!['.', '.']) by {
            if last@ == seq!['.', '.'] {
                assert(last@.len() == 2);
            }
        }
        let r = string_of(last, 0, last.len());
        assert(last@.subrange(0, last@.len() as int) == last@);
        Some(r)
    }
}

/// Calls `Path::parent`; the parent, as text. Its documentation gives the
/// path without its final component: for an absolute path with a
/// component, an absolute path with the same components but the last.
#[verifier::external_body]
pub(crate) fn parent(p: &str) -> (r: Option<String>)
    ensures
        opt_view(r) == parent_of(p@),
        absolute(p@) && components(p@).len() > 0 ==> match r {
            Some(d) => absolute(d@) && components(d@) == components(p@).drop_last(),
            None => false,
        },
{
    Path::new(p).parent().map(|n| n.to_string_lossy().into_owned())
}

/// Joins `rest` onto `base`, as `Path::join` does on Unix.
pub fn join(base: &str, rest: &str) -> (r: String)
    ensures
        r@ == joined(base@, rest@),
{
    if is_absolute(rest) {
        return String::from_str(rest);
    }
    let b = chars_of(base);
    let mut r = String::from_str(base);
    if b.len() > 0 && b[b.len() - 1] != '/' {
        push_char(&mut r, '/');
    }
    r.append(rest);
    r
}

/// Whether the path is absolute, as `Path::is_absolute` says on Unix.
pub fn is_absolute(p: &str) -> (r: bool)
    ensures
        r == absolute(p@),
{
    let c = chars_of(p);
    c.len() > 0 && c[0] == '/'
}

/// Calls `Path::strip_prefix`; the rest, as text, or `None` where it fails.
/// Its documentation says the rest, joined onto `base`, yields `p`: the
/// same path, component by component.
#[verifier::external_body]
pub(crate) fn strip_prefix(p: &str, base: &str) -> (r: Option<String>)
    ensures
        opt_view(r) == stripped(p@, base@),
        match r {
            Some(x) => same_path(joined(base@, x@), p@),
            None => true,
        },
{
    Path::new(p).strip_prefix(base).ok().map(|n| n.to_string_lossy().into_owned())
}

/// Calls `str::to_lowercase`.
#[verifier::external_body]
pub(crate) fn to_lowercase(s: &str) -> (r: String)
    ensures
        r@ == lowercase(s@),
{
    s.to_lowercase()
}

/// Index of the last `'.'` in `n`, or -1.
pub open spec fn last_dot(n: Seq<char>) -> int
    decreases n.len(),
{
    if n.len() == 0 {
        -1
    } else if n.last() == '.' {
        n.len() - 1
    } else {
        last_dot(n.drop_last())
    }
}

/// The extension of a file name: the part after the last `'.'`, unless that
/// dot is missing or is the name's first character.
pub open spec fn ext_of_name(n: Seq<char>) -> Option<Seq<char>> {
    let k = last_dot(n);
    if k <= 0 {
        None
    } else {
        Some(n.skip(k + 1))
    }
}

/// The stem of a file name: the part before the last `'.'`, or the whole name
/// where that dot is missing or is the first character.
pub open spec fn stem_of_name(n: Seq<char>) -> Seq<char> {
    let k = last_dot(n);
    if k <= 0 {
        n
    } else {
        n.take(k)
    }
}

/// `Path::extension` of the path with this text.
pub open spec fn extension_of(p: Seq<char>) -> Option<Seq<char>> {
    match file_name_of(p) {
        Some(n) => ext_of_name(n),
        None => None,
    }
}

/// `Path::file_stem` of the path with this text.
pub open spec fn file_stem_of(p: Seq<char>) -> Option<Seq<char>> {
    match file_name_of(p) {
        Some(n) => Some(stem_of_name(n)),
        None => None,
    }
}

/// The extension of a file name.
pub fn name_extension(name: &str) -> (r: Option<String>)
    ensures
        opt_view(r) == ext_of_name(name@),
{
    let v = chars_of(name);
    let mut i: usize = v.len();
    assert(v@.take(v.len() as int) == v@);
    while i > 0 && v[i - 1] != '.'
        invariant
            i <= v.len(),
            last_dot(v@) == last_dot(v@.take(i as int)),
        decreases i,
    {
        assert(v@.take(i as int).drop_last() == v@.take(i - 1));
        i = i - 1;
    }
    if i <= 1 {
        None
    } else {
        proof {
            assert(v@.take(i as int).last() == '.');
        }
        Some(string_of(&v, i, v.len()))
    }
}

/// The stem of a file name.
pub fn name_stem(name: &str) -> (r: String)
    ensures
        r@ == stem_of_name(name@),
{
    let v = chars_of(name);
    let mut i: usize = v.len();
    assert(v@.take(v.len() as int) == v@);
    while i > 0 && v[i - 1] != '.'
        invariant
            i <= v.len(),
            last_dot(v@) == last_dot(v@.take(i as int)),
        decreases i,
    {
        assert(v@.take(i as int).drop_last() == v@.take(i - 1));
        i = i - 1;
    }
    if i <= 1 {
        assert(v@.take(v.len() as int) == v@);
        string_of(&v, 0, v.len())
    } else {
        proof {
            assert(v@.take(i as int).last() == '.');
        }
        string_of(&v, 0, i - 1)
    }
}

/// `Path::extension`, as text.
pub fn extension(p: &str) -> (r: Option<String>)
    ensures
        opt_view(r) == extension_of(p@),
{
    match file_name(p) {
        Some(n) => name_extension(n.as_str()),
        None => None,
    }
}

/// `Path::file_stem`, as text.
pub fn file_stem(p: &str) -> (r: Option<String>)
    ensures
        opt_view(r) == file_stem_of(p@),
{
    match file_name(p) {
        Some(n) => Some(name_stem(n.as_str())),
        None => None,
    }
}

/// The directory `dir`, or `.` (the working directory) where there is none.
pub fn dir_or_here(dir: Option<String>) -> (r: String)
    ensures
        r@ == match dir {
            Some(d) => d@,
            None => "."@,
        },
{
    match dir {
        Some(d) => d,
        None => String::from_str("."),
    }
}

// ---------------------------------------------------------------------------
// Comparing paths by component.

/// Index of the last `/` in `p`, or -1.
pub open spec fn last_slash(p: Seq<char>) -> int
    decreases p.len(),
{
    if p.len() == 0 {
        -1
    } else if p.last() == '/' {
        p.len() - 1
    } else {
        last_slash(p.drop_last())
    }
}

pub proof fn lemma_last_slash(p: Seq<char>)
    ensures
        -1 <= last_slash(p) < p.len(),
        last_slash(p) >= 0 ==> p[last_slash(p)] == '/',
    decreases p.len(),
{
    if p.len() > 0 && p.last() != '/' {
        lemma_last_slash(p.drop_last());
    }
}

/// A name between slashes counts as a component unless it is empty or `.`.
pub open spec fn is_component(s: Seq<char>) -> bool {
    s.len() > 0 && !(s.len() == 1 && s[0] == '.')
}

/// `s` as a list of one component, or none.
pub open spec fn kept(s: Seq<char>) -> Seq<Seq<char>> {
    if is_component(s) {
        seq![s]
    } else {
        Seq::empty()
    }
}

/// The names of `p` between slashes, in order, leaving out empty names and
/// `.`: doubled and trailing slashes and `.` count for nothing.
pub open spec fn components(p: Seq<char>) -> Seq<Seq<char>>
    decreases p.len(),
{
    let k = last_slash(p);
    if k < 0 {
        kept(p)
    } else {
        proof {
            lemma_last_slash(p);
        }
        components(p.take(k)) + kept(p.skip(k + 1))
    }
}

/// Whether a relative path starts with `.` as its own first name (which
/// `Path` keeps as a component, unlike a `.` further on).
pub open spec fn starts_with_dot(p: Seq<char>) -> bool {
    !absolute(p) && p.len() > 0 && p[0] == '.' && (p.len() == 1 || p[1] == '/')
}

/// What `Path`'s `==` compares on Unix: whether the path is rooted, whether
/// it starts with `.`, and its components.
pub open spec fn path_key(p: Seq<char>) -> (bool, bool, Seq<Seq<char>>) {
    (absolute(p), starts_with_dot(p), components(p))
}

/// Whether two paths name the same place, as `Path`'s `==` decides:
/// `/a//b`, `/a/./b` and `/a/b/` are all `/a/b`.
pub open spec fn same_path(a: Seq<char>, b: Seq<char>) -> bool {
    path_key(a) == path_key(b)
}

pub open spec fn part_views(v: Seq<Vec<char>>) -> Seq<Seq<char>> {
    v.map_values(|x: Vec<char>| x@)
}

fn component_here(cur: &Vec<char>) -> (r: bool)
    ensures
        r == is_component(cur@),
{
    cur.len() > 0 && !(cur.len() == 1 && cur[0] == '.')
}

fn components_of(a: &Vec<char>) -> (r: Vec<Vec<char>>)
    ensures
        part_views(r@) == components(a@),
{
    let n = a.len();
    let mut done: Vec<Vec<char>> = Vec::new();
    let mut cur: Vec<char> = Vec::new();
    let ghost mut j: int = -1;
    let mut i: usize = 0;
    assert(a@.take(0) == Seq::<char>::empty());
    assert(a@.subrange(0, 0) == Seq::<char>::empty());
    while i < n
        invariant
            n == a.len(),
            i <= n,
            -1 <= j < i,
            j == last_slash(a@.take(i as int)),
            part_views(done@) == if j < 0 {
                Seq::<Seq<char>>::empty()
            } else {
                components(a@.take(j))
            },
            cur@ == a@.subrange(j + 1, i as int),
        decreases n - i,
    {
        let c = a[i];
        let ghost t1 = a@.take(i + 1);
        assert(t1.drop_last() == a@.take(i as int));
        assert(t1.last() == c);
        if c == '/' {
            proof {
                let t = a@.take(i as int);
                lemma_last_slash(t);
                if j >= 0 {
                    assert(t.take(j) == a@.take(j));
                }
                assert(t.skip(j + 1) == cur@);
                assert(components(t) == part_views(done@) + kept(cur@));
            }
            if component_here(&cur) {
                let ghost before = done@;
                done.push(cur);
                assert(part_views(done@) == part_views(before).push(cur@));
            }
            cur = Vec::new();
            proof {
                j = i as int;
                assert(t1.take(i as int) == a@.take(i as int));
            }
            assert(cur@ == a@.subrange(j + 1, i + 1));
        } else {
            cur.push(c);
            assert(cur@ == a@.subrange(j + 1, i + 1));
        }
        i = i + 1;
    }
    proof {
        let t = a@.take(n as int);
        assert(t == a@);
        lemma_last_slash(t);
        if j >= 0 {
            assert(t.take(j) == a@.take(j));
        }
        assert(t.skip(j + 1) == cur@);
    }
    if component_here(&cur) {
        let ghost before = done@;
        done.push(cur);
        assert(part_views(done@) == part_views(before).push(cur@));
    }
    done
}

fn chars_equal(x: &Vec<char>, y: &Vec<char>) -> (r: bool)
    ensures
        r == (x@ == y@),
{
    if x.len() != y.len() {
        return false;
    }
    let mut i: usize = 0;
    while i < x.len()
        invariant
            i <= x.len() == y.len(),
            forall|k: int| 0 <= k < i ==> x@[k] == y@[k],
        decreases x.len() - i,
    {
        if x[i] != y[i] {
            return false;
        }
        i = i + 1;
    }
    assert(x@ =~= y@);
    true
}

fn parts_equal(x: &Vec<Vec<char>>, y: &Vec<Vec<char>>) -> (r: bool)
    ensures
        r == (part_views(x@) == part_views(y@)),
{
    if x.len() != y.len() {
        assert(part_views(x@).len() != part_views(y@).len());
        return false;
    }
    let mut i: usize = 0;
    while i < x.len()
        invariant
            i <= x.len() == y.len(),
            forall|k: int| 0 <= k < i ==> part_views(x@)[k] == part_views(y@)[k],
        decreases x.len() - i,
    {
        if !chars_equal(&x[i], &y[i]) {
            assert(part_views(x@)[i as int] != part_views(y@)[i as int]);
            return false;
        }
        i = i + 1;
    }
    assert(part_views(x@) =~= part_views(y@));
    true
}

fn dot_first(c: &Vec<char>) -> (r: bool)
    ensures
        r == starts_with_dot(c@),
{
    let abs = c.len() > 0 && c[0] == '/';
    !abs && c.len() > 0 && c[0] == '.' && (c.len() == 1 || c[1] == '/')
}

/// Whether two paths name the same place, component by component, as
/// `Path`'s `==` decides on Unix.
pub fn is_same_path(a: &str, b: &str) -> (r: bool)
    ensures
        r == same_path(a@, b@),
{
    let ca = chars_of(a);
    let cb = chars_of(b);
    let abs_a = is_absolute(a);
    let abs_b = is_absolute(b);
    let pa = components_of(&ca);
    let pb = components_of(&cb);
    abs_a == abs_b && dot_first(&ca) == dot_first(&cb) && parts_equal(&pa, &pb)
}

/// Where the last `/` of `a + b` is.
proof fn lemma_last_slash_append(a: Seq<char>, b: Seq<char>)
    ensures
        last_slash(a + b) == if last_slash(b) >= 0 {
            a.len() + last_slash(b)
        } else {
            last_slash(a)
        },
    decreases b.len(),
{
    if b.len() > 0 {
        assert((a + b).drop_last() == a + b.drop_last());
        assert((a + b).last() == b.last());
        if b.last() != '/' {
            lemma_last_slash_append(a, b.drop_last());
        }
    } else {
        assert(a + b == a);
    }
}

/// Every component is a name that is not empty.
pub proof fn lemma_components_nonempty(x: Seq<char>)
    ensures
        forall|j: int| 0 <= j < components(x).len() ==> (#[trigger] components(x)[j]).len() > 0,
    decreases x.len(),
{
    let k = last_slash(x);
    lemma_last_slash(x);
    if k >= 0 {
        let t = x.take(k);
        lemma_components_nonempty(t);
        let r = kept(x.skip(k + 1));
        assert(components(x) == components(t) + r);
        assert forall|j: int| 0 <= j < components(x).len() implies (
        #[trigger] components(x)[j]).len() > 0 by {
            if j < components(t).len() {
                assert(components(x)[j] == components(t)[j]);
            } else {
                assert(components(x)[j] == r[j - components(t).len()]);
            }
        }
    }
}

/// A trailing `/` adds no component.
pub proof fn lemma_components_slash(a: Seq<char>)
    ensures
        components(a.push('/')) == components(a),
{
    let b = a.push('/');
    assert(b.last() == '/');
    assert(b.take(a.len() as int) == a);
    assert(b.skip(a.len() + 1int) == Seq::<char>::empty());
    assert(components(b) == components(a) + kept(Seq::<char>::empty()));
    assert(components(b) == components(a));
}

/// After a `/` (or from nothing), the components of what follows are added
/// to those before.
pub proof fn lemma_components_append(a: Seq<char>, b: Seq<char>)
    requires
        a.len() == 0 || a.last() == '/',
    ensures
        components(a + b) == components(a) + components(b),
    decreases b.len(),
{
    lemma_last_slash_append(a, b);
    lemma_last_slash(b);
    lemma_last_slash(a);
    let k = last_slash(b);
    if k >= 0 {
        let ab = a + b;
        assert(ab.take(a.len() + k) == a + b.take(k));
        assert(ab.skip(a.len() + k + 1) == b.skip(k + 1));
        lemma_components_append(a, b.take(k));
    } else if a.len() == 0 {
        assert(a + b == b);
        assert(components(a) == Seq::<Seq<char>>::empty());
    } else {
        let ab = a + b;
        let n = a.len() - 1;
        assert(last_slash(a) == n);
        assert(ab.take(n) == a.take(n));
        assert(ab.skip(n + 1) == b);
        assert(a.skip(n + 1) == Seq::<char>::empty());
        assert(components(a) == components(a.take(n)) + kept(Seq::<char>::empty()));
        assert(components(a) == components(a.take(n)));
    }
}

/// A path whose components have no newline has none.
pub proof fn lemma_components_no_newline(x: Seq<char>)
    requires
        forall|j: int| 0 <= j < components(x).len() ==> no_newline(#[trigger] components(x)[j]),
    ensures
        no_newline(x),
    decreases x.len(),
{
    let k = last_slash(x);
    lemma_last_slash(x);
    if k < 0 {
        if is_component(x) {
            assert(components(x)[0] == x);
        }
    } else {
        let t = x.take(k);
        let r = x.skip(k + 1);
        assert(components(x) == components(t) + kept(r));
        assert forall|j: int| 0 <= j < components(t).len() implies no_newline(
            #[trigger] components(t)[j],
        ) by {
            assert(components(x)[j] == components(t)[j]);
        }
        lemma_components_no_newline(t);
        if is_component(r) {
            assert(components(x)[components(t).len() as int] == r);
        }
        assert forall|i: int| 0 <= i < x.len() implies x[i] != '\n' by {
            if i < k {
                assert(x[i] == t[i]);
            } else if i > k {
                assert(x[i] == r[i - k - 1]);
            }
        }
    }
}

/// The first character of a relative path is `.` or starts its first
/// component.
pub proof fn lemma_components_first(x: Seq<char>)
    requires
        x.len() > 0,
        x[0] != '/',
    ensures
        x[0] == '.' || (components(x).len() > 0 && components(x)[0].len() > 0 && x[0]
            == components(x)[0][0]),
    decreases x.len(),
{
    let k = last_slash(x);
    lemma_last_slash(x);
    lemma_components_nonempty(x);
    if k < 0 {
        if is_component(x) {
            assert(components(x)[0] == x);
        }
    } else {
        let t = x.take(k);
        assert(k > 0);
        assert(t[0] == x[0]);
        lemma_components_first(t);
        assert(components(x) == components(t) + kept(x.skip(k + 1)));
        if components(t).len() > 0 {
            assert(components(x)[0] == components(t)[0]);
        }
    }
}

/// The last character of a path is `/`, `.`, or ends its last component.
pub proof fn lemma_components_last(x: Seq<char>)
    requires
        x.len() > 0,
    ensures
        x.last() == '/' || x.last() == '.' || (components(x).len() > 0 && components(x).last().len()
            > 0 && x.last() == components(x).last().last()),
{
    let k = last_slash(x);
    lemma_last_slash(x);
    lemma_components_nonempty(x);
    if k < x.len() - 1 {
        let r = x.skip(k + 1);
        assert(r.last() == x.last());
        if is_component(r) {
            if k >= 0 {
                assert(components(x) == components(x.take(k)) + seq![r]);
            } else {
                assert(r == x);
            }
            assert(components(x).last() == r);
        }
    }
}

} // verus!
