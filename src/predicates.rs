use vstd::prelude::*;

use crate::evaluator::FileContext;
use crate::hunk::{MatchResult, Outcome, Point, Range};
use crate::code_aware::{evaluate_structural, is_structural, structural_allowed};
use vstd::utf8::encode_utf8;
use crate::query::{is_space, is_space_char, spaces, Key, PredicateKey};
use crate::text::{chars_of, push_char, same_text};
use vstd::string::{StrSliceExecFns, StringExecFns};

verus! {

/// What the predicates may read of a file.
pub struct FileView {
    pub path: Seq<char>,
    pub root: Seq<char>,
    pub content: Option<Seq<char>>,
    pub size: Option<u64>,
    pub modified: Option<u64>,
    pub now: u64,
    /// The file's canonical path, where it could be resolved.
    pub canonical: Option<Seq<char>>,
    /// For each directory named by an `in` predicate, its canonical path
    /// where it exists.
    pub directories: Seq<(Seq<char>, Option<Seq<char>>)>,
}

/// Why a predicate could not be evaluated on a file.
#[derive(Debug, Clone, Copy, PartialEq, Eq, Structural)]
pub enum PredicateError {
    /// The file's text was not available.
    Unreadable,
    /// The file's size or modification time was not available.
    MissingMetadata,
    /// A size or a time is not a number that the predicate accepts.
    InvalidNumber,
    /// A size or time unit that the predicate does not know.
    InvalidUnit,
    /// A time so far back that it precedes the epoch.
    TimeUnderflow,
    /// A time that is neither a relative duration nor a valid date.
    InvalidTime,
    /// A date and time that does not name exactly one instant in the local
    /// time zone.
    UnknownLocalTime,
    /// A glob or a regular expression that does not compile.
    InvalidPattern,
    /// A structural pattern or the file's syntax tree could not be built.
    SyntaxTree,
}


// ---------------------------------------------------------------------------
// Text helpers.
// ---------------------------------------------------------------------------

/// `needle` occurs in `hay` at some position.
pub open spec fn occurs_in<T>(needle: Seq<T>, hay: Seq<T>) -> bool {
    exists|i: int| 0 <= i <= hay.len() - needle.len() && #[trigger] hay.subrange(i, i + needle.len()) == needle
}

fn occurs_at(needle: &Vec<char>, hay: &Vec<char>, i: usize) -> (r: bool)
    requires
        i + needle.len() <= hay.len(),
    ensures
        r == (hay@.subrange(i as int, i + needle.len()) == needle@),
{
    let mut k: usize = 0;
    while k < needle.len()
        invariant
            k <= needle.len(),
            i + needle.len() <= hay.len(),
            forall|m: int| 0 <= m < k ==> hay@[i + m] == needle@[m],
        decreases needle.len() - k,
    {
        if hay[i + k] != needle[k] {
            assert(hay@.subrange(i as int, i + needle.len())[k as int] != needle@[k as int]);
            return false;
        }
        k = k + 1;
    }
    assert(hay@.subrange(i as int, i + needle.len()) =~= needle@);
    true
}

/// Whether `needle` occurs in `hay`.
pub fn find_chars(needle: &Vec<char>, hay: &Vec<char>) -> (r: bool)
    ensures
        r == occurs_in(needle@, hay@),
{
    if needle.len() > hay.len() {
        return false;
    }
    let last = hay.len() - needle.len();
    let mut i: usize = 0;
    loop
        invariant
            last == hay.len() - needle.len(),
            i <= last,
            forall|j: int| 0 <= j < i ==> #[trigger] hay@.subrange(j, j + needle.len()) != needle@,
        decreases last - i,
    {
        if occurs_at(needle, hay, i) {
            return true;
        }
        if i == last {
            return false;
        }
        i = i + 1;
    }
}

pub open spec fn is_upper(c: char) -> bool {
    'A' <= c && c <= 'Z'
}

/// Two characters are equal once ASCII letters are folded to one case.
pub open spec fn same_letter(c: char, d: char) -> bool {
    c == d || (is_upper(c) && c as u32 + 32 == d as u32) || (is_upper(d) && d as u32 + 32 == c as u32)
}

/// Two texts are equal once ASCII letters are folded to one case.
pub open spec fn eq_ignore_case(a: Seq<char>, b: Seq<char>) -> bool {
    a.len() == b.len() && forall|i: int| 0 <= i < a.len() ==> same_letter(#[trigger] a[i], b[i])
}

fn same_letter_exec(c: char, d: char) -> (r: bool)
    ensures
        r == same_letter(c, d),
{
    c == d || ('A' <= c && c <= 'Z' && c as u32 + 32 == d as u32) || ('A' <= d && d <= 'Z' && d as u32
        + 32 == c as u32)
}

/// Whether `a[lo..hi]` equals `b` once ASCII letters are folded to one case.
pub(crate) fn range_eq_ignore_case(a: &Vec<char>, lo: usize, hi: usize, b: &Vec<char>) -> (r: bool)
    requires
        lo <= hi <= a.len(),
    ensures
        r == eq_ignore_case(a@.subrange(lo as int, hi as int), b@),
{
    if hi - lo != b.len() {
        return false;
    }
    let mut k: usize = 0;
    while k < b.len()
        invariant
            k <= b.len() == hi - lo,
            lo <= hi <= a.len(),
            forall|m: int| 0 <= m < k ==> same_letter(a@[lo + m], b@[m]),
        decreases b.len() - k,
    {
        if !same_letter_exec(a[lo + k], b[k]) {
            assert(!same_letter(a@.subrange(lo as int, hi as int)[k as int], b@[k as int]));
            return false;
        }
        k = k + 1;
    }
    assert forall|m: int| 0 <= m < b.len() implies same_letter(#[trigger] a@.subrange(lo as int, hi as int)[m], b@[m]) by {
        assert(a@.subrange(lo as int, hi as int)[m] == a@[lo + m]);
    }
    true
}

// ---------------------------------------------------------------------------
// File names.
// ---------------------------------------------------------------------------

/// The path without what ends it and names no component: slashes, and `.`
/// after a slash.
pub open spec fn trim_slashes(p: Seq<char>) -> Seq<char>
    decreases p.len(),
{
    if p.len() > 0 && p.last() == '/' {
        trim_slashes(p.drop_last())
    } else if p.len() >= 2 && p.last() == '.' && p[p.len() - 2] == '/' {
        trim_slashes(p.take(p.len() - 2))
    } else {
        p
    }
}

/// What follows the last slash of `p`.
pub open spec fn after_slash(p: Seq<char>) -> Seq<char>
    decreases p.len(),
{
    if p.len() == 0 || p.last() == '/' {
        Seq::empty()
    } else {
        after_slash(p.drop_last()).push(p.last())
    }
}

/// The last component of a path; none where it is empty, `.` or `..`.
pub open spec fn file_name(p: Seq<char>) -> Option<Seq<char>> {
    let c = after_slash(trim_slashes(p));
    if c.len() == 0 || c == seq!['.'] || c == seq!['.', '.'] {
        None
    } else {
        Some(c)
    }
}

/// The index of the last dot of `n`, or -1.
pub open spec fn last_dot(n: Seq<char>) -> int
    decreases n.len(),
{
    if n.len() == 0 {
        -1
    } else if n.last() == '.' {
        n.len() - 1
    } else {
        last_dot(n.drop_last())
    }
}

/// The extension of a path: what follows the last dot of its file name, where
/// that dot is not the name's first character; empty where there is none.
pub open spec fn extension(p: Seq<char>) -> Seq<char> {
    match file_name(p) {
        Some(n) => if last_dot(n) > 0 {
            n.subrange(last_dot(n) + 1, n.len() as int)
        } else {
            Seq::empty()
        },
        None => Seq::empty(),
    }
}

/// The bounds of the file name within the path, where there is one.
fn file_name_range(p: &Vec<char>) -> (r: Option<(usize, usize)>)
    ensures
        match r {
            Some((lo, hi)) => lo <= hi <= p.len() && file_name(p@) == Some(p@.subrange(lo as int, hi as int)),
            None => file_name(p@) is None,
        },
{
    let mut end = p.len();
    assert(p@.take(end as int) =~= p@);
    while end > 0 && (p[end - 1] == '/' || (end >= 2 && p[end - 1] == '.' && p[end - 2] == '/'))
        invariant
            end <= p.len(),
            trim_slashes(p@) == trim_slashes(p@.take(end as int)),
        decreases end,
    {
        if p[end - 1] == '/' {
            assert(p@.take(end as int).drop_last() =~= p@.take(end - 1));
            end = end - 1;
        } else {
            assert(p@.take(end as int).take(end - 2) =~= p@.take(end - 2));
            end = end - 2;
        }
    }
    assert(trim_slashes(p@.take(end as int)) == p@.take(end as int));
    let mut start = end;
    while start > 0 && p[start - 1] != '/'
        invariant
            start <= end <= p.len(),
            trim_slashes(p@) == p@.take(end as int),
            after_slash(p@.take(end as int)) == after_slash(p@.take(start as int)) + p@.subrange(start as int, end as int),
        decreases start,
    {
        assert(p@.take(start as int).drop_last() =~= p@.take(start - 1));
        assert(p@.subrange(start - 1, end as int) =~= seq![p@[start - 1]] + p@.subrange(start as int, end as int));
        assert(after_slash(p@.take(start - 1)).push(p@[start - 1]) + p@.subrange(start as int, end as int)
            =~= after_slash(p@.take(start - 1)) + p@.subrange(start - 1, end as int));
        start = start - 1;
    }
    assert(after_slash(p@.take(start as int)) =~= Seq::<char>::empty());
    assert(after_slash(trim_slashes(p@)) =~= p@.subrange(start as int, end as int));
    let len = end - start;
    if len == 0 || (len == 1 && p[start] == '.') || (len == 2 && p[start] == '.' && p[start + 1] == '.') {
        assert(len == 1 ==> p@.subrange(start as int, end as int) =~= seq![p@[start as int]]);
        assert(len == 2 ==> p@.subrange(start as int, end as int) =~= seq![p@[start as int], p@[start + 1]]);
        return None;
    }
    assert(p@.subrange(start as int, end as int) != seq!['.']) by {
        if len == 1 {
            assert(p@.subrange(start as int, end as int)[0] == p@[start as int]);
        }
    }
    assert(p@.subrange(start as int, end as int) != seq!['.', '.']) by {
        if len == 2 {
            assert(p@.subrange(start as int, end as int)[0] == p@[start as int]);
            assert(p@.subrange(start as int, end as int)[1] == p@[start + 1]);
        }
    }
    Some((start, end))
}

/// The bounds of the path's extension within it (an empty range where there
/// is none).
pub(crate) fn extension_range(p: &Vec<char>) -> (r: (usize, usize))
    ensures
        r.0 <= r.1 <= p.len(),
        extension(p@) == p@.subrange(r.0 as int, r.1 as int),
{
    match file_name_range(p) {
        None => (0, 0),
        Some((lo, hi)) => {
            let ghost n = p@.subrange(lo as int, hi as int);
            let mut d = hi;
            assert(n.take(d - lo) =~= n);
            while d > lo && p[d - 1] != '.'
                invariant
                    lo <= d <= hi <= p.len(),
                    n == p@.subrange(lo as int, hi as int),
                    last_dot(n) == last_dot(n.take(d - lo)),
                decreases d,
            {
                assert(n.take(d - lo).drop_last() =~= n.take(d - lo - 1));
                d = d - 1;
            }
            if d <= lo + 1 {
                assert(d == lo ==> last_dot(n.take(0)) == -1);
                assert(d == lo + 1 ==> n.take(1).last() == '.');
                (0, 0)
            } else {
                assert(n.take(d - lo).last() == '.');
                assert(n.subrange(d - lo, n.len() as int) =~= p@.subrange(d as int, hi as int));
                (d, hi)
            }
        },
    }
}


/// The extension of a path, as the `ext` predicate and the language
/// profiles see it.
pub fn file_extension(path: &str) -> (r: String)
    ensures
        r@ == extension(path@),
{
    let p = chars_of(path);
    let (lo, hi) = extension_range(&p);
    path.substring_char(lo, hi).to_owned()
}

// ---------------------------------------------------------------------------
// Directories.
// ---------------------------------------------------------------------------

/// The directory `t` is the path `p` or lies above it, whole components
/// compared.
pub open spec fn within(t: Seq<char>, p: Seq<char>) -> bool {
    p == t || (t.len() < p.len() && p.take(t.len() as int) == t && (p[t.len() as int] == '/' || (t.len() > 0
        && t.last() == '/')))
}

/// Directory records as pairs of name and canonical path.
pub open spec fn directory_view(ds: Seq<(String, Option<String>)>) -> Seq<(Seq<char>, Option<Seq<char>>)> {
    ds.map_values(
        |d: (String, Option<String>)|
            (
                d.0@,
                match d.1 {
                    Some(c) => Some(c@),
                    None => None,
                },
            ),
    )
}

/// The canonical directory recorded for the value `v`, the last record
/// winning.
pub open spec fn directory_of(ds: Seq<(Seq<char>, Option<Seq<char>>)>, v: Seq<char>) -> Option<Seq<char>>
    decreases ds.len(),
{
    if ds.len() == 0 {
        None
    } else if ds.last().0 == v {
        ds.last().1
    } else {
        directory_of(ds.drop_last(), v)
    }
}

/// The file lies in the existing directory named by `v`.
pub open spec fn in_directory(f: FileView, v: Seq<char>) -> bool {
    match (directory_of(f.directories, v), f.canonical) {
        (Some(t), Some(c)) => within(t, c),
        _ => false,
    }
}

/// The index of the last slash of `p`, or -1.
pub open spec fn last_slash(p: Seq<char>) -> int
    decreases p.len(),
{
    if p.len() == 0 {
        -1
    } else if p.last() == '/' {
        p.len() - 1
    } else {
        last_slash(p.drop_last())
    }
}

/// The directory that holds the path: empty for a bare name, `/` for a
/// name at the top.
pub open spec fn parent_of(p: Seq<char>) -> Seq<char> {
    let q = trim_slashes(p);
    if last_slash(q) < 0 {
        Seq::empty()
    } else if last_slash(q) == 0 {
        seq!['/']
    } else {
        q.take(last_slash(q))
    }
}

/// The number of slashes that start `s`.
pub open spec fn leading_slashes(s: Seq<char>) -> nat
    decreases s.len(),
{
    if s.len() > 0 && s[0] == '/' {
        1 + leading_slashes(s.drop_first())
    } else {
        0
    }
}

/// `d` relative to `root` where `root` is `d` or lies above it; `d`
/// otherwise.
pub open spec fn relative_to(d: Seq<char>, root: Seq<char>) -> Seq<char> {
    if root.len() > 0 && within(root, d) {
        let rest = d.skip(root.len() as int);
        rest.skip(leading_slashes(rest) as int)
    } else {
        d
    }
}

/// Whether `t` is `p` or a directory above it.
fn is_within(t: &Vec<char>, p: &Vec<char>) -> (r: bool)
    ensures
        r == within(t@, p@),
{
    if t.len() > p.len() {
        return false;
    }
    let mut i: usize = 0;
    while i < t.len()
        invariant
            i <= t.len() <= p.len(),
            forall|j: int| 0 <= j < i ==> t@[j] == p@[j],
        decreases t.len() - i,
    {
        if t[i] != p[i] {
            assert(p@.take(t.len() as int)[i as int] != t@[i as int]);
            return false;
        }
        i = i + 1;
    }
    assert(p@.take(t.len() as int) =~= t@);
    if t.len() == p.len() {
        assert(p@ =~= t@);
        return true;
    }
    p[t.len()] == '/' || (t.len() > 0 && t[t.len() - 1] == '/')
}

/// The canonical directory recorded for `v`.
fn find_directory(ds: &Vec<(String, Option<String>)>, v: &str) -> (r: Option<String>)
    ensures
        match r {
            Some(t) => directory_of(
                directory_view(ds@),
                v@,
            ) == Some(t@),
            None => directory_of(
                directory_view(ds@),
                v@,
            ) is None,
        },
{
    let ghost all = directory_view(ds@);
    let mut i = ds.len();
    assert(all.take(i as int) =~= all);
    while i > 0
        invariant
            i <= ds.len(),
            all == directory_view(ds@),
            all.len() == ds.len(),
            forall|j: int| 0 <= j < ds.len() ==> #[trigger] all[j] == (ds@[j].0@, match ds@[j].1 {
                Some(c) => Some(c@),
                None => None,
            }),
            directory_of(all, v@) == directory_of(all.take(i as int), v@),
        decreases i,
    {
        assert(all.take(i as int).drop_last() =~= all.take(i - 1));
        assert(all.take(i as int).last() == all[i - 1]);
        if same_text(ds[i - 1].0.as_str(), v) {
            return match &ds[i - 1].1 {
                Some(c) => Some(c.clone()),
                None => None,
            };
        }
        i = i - 1;
    }
    assert(all.take(0) =~= Seq::<(Seq<char>, Option<Seq<char>>)>::empty());
    None
}

/// The parent directory of `p`, relative to `root`.
fn relative_parent(p: &Vec<char>, root: &Vec<char>) -> (r: Vec<char>)
    ensures
        r@ == relative_to(parent_of(p@), root@),
{
    let mut end = p.len();
    assert(p@.take(end as int) =~= p@);
    while end > 0 && (p[end - 1] == '/' || (end >= 2 && p[end - 1] == '.' && p[end - 2] == '/'))
        invariant
            end <= p.len(),
            trim_slashes(p@) == trim_slashes(p@.take(end as int)),
        decreases end,
    {
        if p[end - 1] == '/' {
            assert(p@.take(end as int).drop_last() =~= p@.take(end - 1));
            end = end - 1;
        } else {
            assert(p@.take(end as int).take(end - 2) =~= p@.take(end - 2));
            end = end - 2;
        }
    }
    let ghost q = p@.take(end as int);
    assert(trim_slashes(q) == q);
    let mut k = end;
    assert(q.take(k as int) =~= q);
    while k > 0 && p[k - 1] != '/'
        invariant
            k <= end <= p.len(),
            q == p@.take(end as int),
            last_slash(q) == last_slash(q.take(k as int)),
        decreases k,
    {
        assert(q.take(k as int).drop_last() =~= q.take(k - 1));
        k = k - 1;
    }
    let mut d: Vec<char> = Vec::new();
    if k == 0 {
        assert(last_slash(q.take(0)) == -1);
    } else if k == 1 {
        assert(q.take(1).last() == '/');
        d.push('/');
        assert(d@ =~= seq!['/']);
    } else {
        assert(q.take(k as int).last() == '/');
        let mut j: usize = 0;
        while j < k - 1
            invariant
                j <= k - 1,
                k <= p.len(),
                d@ == p@.take(j as int),
            decreases k - 1 - j,
        {
            d.push(p[j]);
            assert(p@.take(j + 1) =~= p@.take(j as int).push(p@[j as int]));
            j = j + 1;
        }
        assert(d@ =~= q.take(k - 1));
    }
    if root.len() > 0 && is_within(root, &d) {
        let mut start = root.len();
        let ghost rest = d@.skip(root.len() as int);
        assert(rest.skip(0) =~= rest);
        while start < d.len() && d[start] == '/'
            invariant
                root.len() <= start <= d.len(),
                rest == d@.skip(root.len() as int),
                leading_slashes(rest) == (start - root.len()) + leading_slashes(rest.skip(start - root.len())),
            decreases d.len() - start,
        {
            assert(rest.skip(start - root.len()).drop_first() =~= rest.skip(start - root.len() + 1));
            start = start + 1;
        }
        assert(start < d.len() ==> rest.skip(start - root.len())[0] == d@[start as int]);
        let mut out: Vec<char> = Vec::new();
        let mut j = start;
        while j < d.len()
            invariant
                start <= j <= d.len(),
                out@ == d@.subrange(start as int, j as int),
            decreases d.len() - j,
        {
            out.push(d[j]);
            assert(d@.subrange(start as int, j + 1) =~= d@.subrange(start as int, j as int).push(d@[j as int]));
            j = j + 1;
        }
        assert(out@ =~= rest.skip(leading_slashes(rest) as int));
        out
    } else {
        d
    }
}

// ---------------------------------------------------------------------------
// Sizes and times.
// ---------------------------------------------------------------------------

/// The number of whitespace characters that end `s`.
pub open spec fn trailing_spaces(s: Seq<char>) -> nat
    decreases s.len(),
{
    if s.len() > 0 && is_space(s.last()) {
        1 + trailing_spaces(s.drop_last())
    } else {
        0
    }
}

/// `s` without the whitespace that starts and ends it.
pub open spec fn trim(s: Seq<char>) -> Seq<char> {
    let t = s.skip(spaces(s, 0) as int);
    t.take(t.len() - trailing_spaces(t))
}

/// The bounds of `trim(s[a..b])` within `s`.
fn trim_range(s: &Vec<char>, a: usize, b: usize) -> (r: (usize, usize))
    requires
        a <= b <= s.len(),
    ensures
        a <= r.0 <= r.1 <= b,
        trim(s@.subrange(a as int, b as int)) == s@.subrange(r.0 as int, r.1 as int),
{
    let ghost w = s@.subrange(a as int, b as int);
    let mut lo = a;
    while lo < b && is_space_char(s[lo])
        invariant
            a <= lo <= b <= s.len(),
            w == s@.subrange(a as int, b as int),
            spaces(w, 0) == (lo - a) + spaces(w, lo - a),
        decreases b - lo,
    {
        assert(w[lo - a] == s@[lo as int]);
        lo = lo + 1;
    }
    assert(lo < b ==> w[lo - a] == s@[lo as int]);
    let ghost t = w.skip(lo - a);
    assert(t =~= s@.subrange(lo as int, b as int));
    let mut hi = b;
    assert(t.take(hi - lo) =~= t);
    while hi > lo && is_space_char(s[hi - 1])
        invariant
            a <= lo <= hi <= b <= s.len(),
            t == s@.subrange(lo as int, b as int),
            trailing_spaces(t) == (b - hi) + trailing_spaces(t.take(hi - lo)),
        decreases hi,
    {
        assert(t.take(hi - lo).drop_last() =~= t.take(hi - lo - 1));
        hi = hi - 1;
    }
    assert(t.take(hi - lo) =~= s@.subrange(lo as int, hi as int));
    (lo, hi)
}

/// How a file's measure is compared with the value of a predicate.
#[derive(Debug, Clone, Copy, PartialEq, Eq, Structural)]
pub enum Comparison {
    Greater,
    Less,
    Equal,
}

/// The comparison that a value starts with (`=` where it starts with none),
/// and the rest of the value.
pub open spec fn split_comparison(t: Seq<char>) -> (Comparison, Seq<char>) {
    if t.len() > 0 && t[0] == '>' {
        (Comparison::Greater, t.skip(1))
    } else if t.len() > 0 && t[0] == '<' {
        (Comparison::Less, t.skip(1))
    } else if t.len() > 0 && t[0] == '=' {
        (Comparison::Equal, t.skip(1))
    } else {
        (Comparison::Equal, t)
    }
}

pub open spec fn compares(c: Comparison, x: int, y: int) -> bool {
    match c {
        Comparison::Greater => x > y,
        Comparison::Less => x < y,
        Comparison::Equal => x == y,
    }
}

fn comparison_at(s: &Vec<char>, lo: usize, hi: usize) -> (r: (Comparison, usize))
    requires
        lo <= hi <= s.len(),
    ensures
        lo <= r.1 <= hi,
        split_comparison(s@.subrange(lo as int, hi as int)) == (r.0, s@.subrange(r.1 as int, hi as int)),
{
    let ghost t = s@.subrange(lo as int, hi as int);
    if lo < hi {
        assert(t[0] == s@[lo as int]);
        assert(t.skip(1) =~= s@.subrange(lo + 1, hi as int));
        if s[lo] == '>' {
            return (Comparison::Greater, lo + 1);
        } else if s[lo] == '<' {
            return (Comparison::Less, lo + 1);
        } else if s[lo] == '=' {
            return (Comparison::Equal, lo + 1);
        }
    }
    (Comparison::Equal, lo)
}

pub open spec fn is_digit(c: char) -> bool {
    '0' <= c && c <= '9'
}

pub open spec fn digit_value(c: char) -> nat {
    ((c as u32) - ('0' as u32)) as nat
}

/// The number of characters from `i` on that are digits, or dots where
/// `dots` is set.
pub open spec fn number_len(s: Seq<char>, i: int, dots: bool) -> nat
    decreases s.len() - i,
{
    if 0 <= i < s.len() && (is_digit(s[i]) || (dots && s[i] == '.')) {
        1 + number_len(s, i + 1, dots)
    } else {
        0
    }
}

fn scan_number(s: &Vec<char>, i: usize, hi: usize, dots: bool) -> (r: usize)
    requires
        i <= hi <= s.len(),
    ensures
        i <= r <= hi,
        s@.subrange(i as int, hi as int).take(r - i) == s@.subrange(i as int, r as int),
        r - i == number_len(s@.subrange(i as int, hi as int), 0, dots),
        forall|m: int| i <= m < r ==> is_digit(s@[m]) || (dots && s@[m] == '.'),
{
    let ghost w = s@.subrange(i as int, hi as int);
    let mut j = i;
    while j < hi && (('0' <= s[j] && s[j] <= '9') || (dots && s[j] == '.'))
        invariant
            i <= j <= hi <= s.len(),
            w == s@.subrange(i as int, hi as int),
            number_len(w, 0, dots) == (j - i) + number_len(w, j - i, dots),
            forall|m: int| i <= m < j ==> is_digit(s@[m]) || (dots && s@[m] == '.'),
        decreases hi - j,
    {
        assert(w[j - i] == s@[j as int]);
        j = j + 1;
    }
    assert(j < hi ==> w[j - i] == s@[j as int]);
    assert(w.take(j - i) =~= s@.subrange(i as int, j as int));
    j
}

pub open spec fn count_dots(d: Seq<char>) -> nat
    decreases d.len(),
{
    if d.len() == 0 {
        0
    } else {
        count_dots(d.drop_last()) + if d.last() == '.' {
            1nat
        } else {
            0nat
        }
    }
}

/// The value of the digits of `d`, its dots left out.
pub open spec fn digits_value(d: Seq<char>) -> nat
    decreases d.len(),
{
    if d.len() == 0 {
        0
    } else if d.last() == '.' {
        digits_value(d.drop_last())
    } else {
        digits_value(d.drop_last()) * 10 + digit_value(d.last())
    }
}

/// The number of digits that follow the first dot of `d`.
pub open spec fn fraction_digits(d: Seq<char>) -> nat
    decreases d.len(),
{
    if d.len() == 0 || d.last() == '.' || count_dots(d.drop_last()) == 0 {
        0
    } else {
        fraction_digits(d.drop_last()) + 1
    }
}

pub open spec fn pow10(n: nat) -> nat
    decreases n,
{
    if n == 0 {
        1
    } else {
        10 * pow10((n - 1) as nat)
    }
}

proof fn lemma_digits_value_grows(d: Seq<char>, j: int)
    requires
        0 <= j <= d.len(),
    ensures
        digits_value(d.take(j)) <= digits_value(d),
    decreases d.len() - j,
{
    if j < d.len() {
        lemma_digits_value_grows(d, j + 1);
        assert(d.take(j + 1).drop_last() =~= d.take(j));
    } else {
        assert(d.take(j) =~= d);
    }
}

proof fn lemma_pow10_grows(a: nat, b: nat)
    requires
        a <= b,
    ensures
        pow10(a) <= pow10(b),
        pow10(a) >= 1,
    decreases b,
{
    if a < b {
        lemma_pow10_grows(a, (b - 1) as nat);
    } else if a > 0 {
        lemma_pow10_grows((a - 1) as nat, (a - 1) as nat);
    }
}

/// A number of digits and at most one dot, with at least one digit: its value
/// times ten to the power of its fraction digits, and that power.
pub open spec fn decimal_value(d: Seq<char>) -> Option<(nat, nat)> {
    if count_dots(d) <= 1 && d.len() > count_dots(d) {
        Some((digits_value(d), pow10(fraction_digits(d))))
    } else {
        None
    }
}

proof fn lemma_dots_grow(d: Seq<char>, j: int)
    requires
        0 <= j <= d.len(),
    ensures
        count_dots(d.take(j)) <= count_dots(d),
    decreases d.len() - j,
{
    if j < d.len() {
        lemma_dots_grow(d, j + 1);
        assert(d.take(j + 1).drop_last() =~= d.take(j));
    } else {
        assert(d.take(j) =~= d);
    }
}

/// Parses `s[lo..hi]`, which holds only digits and dots.
fn decimal_at(s: &Vec<char>, lo: usize, hi: usize) -> (r: Option<(u128, u128)>)
    requires
        lo <= hi <= s.len(),
        forall|j: int| lo <= j < hi ==> is_digit(s@[j]) || s@[j] == '.',
    ensures
        match decimal_value(s@.subrange(lo as int, hi as int)) {
            Some((n, p)) => if n <= u128::MAX && p <= u128::MAX {
                r == Some((n as u128, p as u128))
            } else {
                r is None
            },
            None => r is None,
        },
        r matches Some((_, p)) ==> p >= 1,
{
    let ghost d = s@.subrange(lo as int, hi as int);
    let mut n: u128 = 0;
    let mut f: usize = 0;
    let mut dots: usize = 0;
    let mut j = lo;
    assert(d.take(0) =~= Seq::<char>::empty());
    while j < hi
        invariant
            lo <= j <= hi <= s.len(),
            d == s@.subrange(lo as int, hi as int),
            forall|m: int| lo <= m < hi ==> is_digit(s@[m]) || s@[m] == '.',
            dots == count_dots(d.take(j - lo)),
            dots <= 1,
            n == digits_value(d.take(j - lo)),
            f == fraction_digits(d.take(j - lo)),
            f <= j - lo,
        decreases hi - j,
    {
        let ghost prev = d.take(j - lo);
        assert(d.take(j - lo + 1).drop_last() =~= prev);
        assert(d.take(j - lo + 1).last() == s@[j as int]);
        if s[j] == '.' {
            if dots == 1 {
                proof {
                    lemma_dots_grow(d, j - lo + 1);
                }
                return None;
            }
            dots = dots + 1;
            f = 0;
        } else {
            let dv = (s[j] as u32 - '0' as u32) as u128;
            let grown = match n.checked_mul(10) {
                Some(x) => x.checked_add(dv),
                None => None,
            };
            match grown {
                Some(x) => {
                    n = x;
                },
                None => {
                    proof {
                        lemma_digits_value_grows(d, j - lo + 1);
                    }
                    return None;
                },
            }
            if dots == 1 {
                f = f + 1;
            }
        }
        j = j + 1;
    }
    assert(d.take(hi - lo) =~= d);
    if j == lo + dots {
        return None;
    }
    let mut p: u128 = 1;
    let mut k: usize = 0;
    assert(decimal_value(d) == Some((n as nat, pow10(f as nat))));
    while k < f
        invariant
            k <= f,
            p == pow10(k as nat),
            p >= 1,
            d == s@.subrange(lo as int, hi as int),
            decimal_value(d) == Some((n as nat, pow10(f as nat))),
        decreases f - k,
    {
        match p.checked_mul(10) {
            Some(x) => {
                p = x;
            },
            None => {
                proof {
                    lemma_pow10_grows((k + 1) as nat, f as nat);
                }
                return None;
            },
        }
        k = k + 1;
    }
    Some((n, p))
}


/// The factor of a size unit, in any case: none or `b` for bytes, `k` or
/// `kb` for kibibytes, `m` or `mb` for mebibytes, `g` or `gb` for gibibytes.
pub open spec fn size_unit(u: Seq<char>) -> Option<nat> {
    if u.len() == 0 || eq_ignore_case(u, seq!['b']) {
        Some(1)
    } else if eq_ignore_case(u, seq!['k']) || eq_ignore_case(u, seq!['k', 'b']) {
        Some(1024)
    } else if eq_ignore_case(u, seq!['m']) || eq_ignore_case(u, seq!['m', 'b']) {
        Some(1048576)
    } else if eq_ignore_case(u, seq!['g']) || eq_ignore_case(u, seq!['g', 'b']) {
        Some(1073741824)
    } else {
        None
    }
}

/// What `size:<v>` says of a file of `size` bytes. The value is an optional
/// comparison (`>`, `<`, `=`; `=` where there is none), a decimal number and
/// an optional unit; the number of bytes it stands for is rounded down.
pub open spec fn size_outcome(size: u64, v: Seq<char>) -> Result<bool, PredicateError> {
    let (c, rest) = split_comparison(trim(v));
    let t = trim(rest);
    let n = number_len(t, 0, true) as int;
    let u = trim(t.skip(n));
    match decimal_value(t.take(n)) {
        None => Err(PredicateError::InvalidNumber),
        Some((digits, p)) => if digits > u128::MAX || p > u128::MAX {
            Err(PredicateError::InvalidNumber)
        } else {
            match size_unit(u) {
                None => Err(PredicateError::InvalidUnit),
                Some(m) => if digits * m > u128::MAX {
                    Err(PredicateError::InvalidNumber)
                } else {
                    Ok(compares(c, size as int, (digits * m / p) as int))
                },
            }
        },
    }
}

fn size_unit_at(s: &Vec<char>, lo: usize, hi: usize) -> (r: Option<u128>)
    requires
        lo <= hi <= s.len(),
    ensures
        match size_unit(s@.subrange(lo as int, hi as int)) {
            Some(m) => r == Some(m as u128),
            None => r is None,
        },
{
    let b = vec!['b'];
    let k = vec!['k'];
    let kb = vec!['k', 'b'];
    let m = vec!['m'];
    let mb = vec!['m', 'b'];
    let g = vec!['g'];
    let gb = vec!['g', 'b'];
    assert(b@ =~= seq!['b'] && k@ =~= seq!['k'] && kb@ =~= seq!['k', 'b'] && m@ =~= seq!['m']);
    assert(mb@ =~= seq!['m', 'b'] && g@ =~= seq!['g'] && gb@ =~= seq!['g', 'b']);
    if lo == hi || range_eq_ignore_case(s, lo, hi, &b) {
        Some(1)
    } else if range_eq_ignore_case(s, lo, hi, &k) || range_eq_ignore_case(s, lo, hi, &kb) {
        Some(1024)
    } else if range_eq_ignore_case(s, lo, hi, &m) || range_eq_ignore_case(s, lo, hi, &mb) {
        Some(1048576)
    } else if range_eq_ignore_case(s, lo, hi, &g) || range_eq_ignore_case(s, lo, hi, &gb) {
        Some(1073741824)
    } else {
        None
    }
}

fn compare_with(c: Comparison, x: u128, y: u128) -> (r: bool)
    ensures
        r == compares(c, x as int, y as int),
{
    match c {
        Comparison::Greater => x > y,
        Comparison::Less => x < y,
        Comparison::Equal => x == y,
    }
}

/// Compares a file size with the value of a `size` predicate.
pub fn parse_and_compare_size(file_size: u64, query: &str) -> (r: Result<bool, PredicateError>)
    ensures
        r == size_outcome(file_size, query@),
{
    let s = chars_of(query);
    assert(s@.subrange(0, s.len() as int) =~= s@);
    let (lo, hi) = trim_range(&s, 0, s.len());
    let (c, rest) = comparison_at(&s, lo, hi);
    let (tlo, thi) = trim_range(&s, rest, hi);
    let ne = scan_number(&s, tlo, thi, true);
    let (ulo, uhi) = trim_range(&s, ne, thi);
    let ghost t = s@.subrange(tlo as int, thi as int);
    assert(t.skip(ne - tlo) =~= s@.subrange(ne as int, thi as int));
    let (digits, p) = match decimal_at(&s, tlo, ne) {
        Some(found) => found,
        None => return Err(PredicateError::InvalidNumber),
    };
    let m = match size_unit_at(&s, ulo, uhi) {
        Some(m) => m,
        None => return Err(PredicateError::InvalidUnit),
    };
    let bytes = match digits.checked_mul(m) {
        Some(x) => x,
        None => return Err(PredicateError::InvalidNumber),
    };
    Ok(compare_with(c, file_size as u128, bytes / p))
}

/// The seconds in a time unit: `s`, `m`, `h`, `d`, `w` or `y`.
pub open spec fn time_unit(u: Seq<char>) -> Option<nat> {
    if u.len() == 1 && u[0] == 's' {
        Some(1)
    } else if u.len() == 1 && u[0] == 'm' {
        Some(60)
    } else if u.len() == 1 && u[0] == 'h' {
        Some(3600)
    } else if u.len() == 1 && u[0] == 'd' {
        Some(86400)
    } else if u.len() == 1 && u[0] == 'w' {
        Some(604800)
    } else if u.len() == 1 && u[0] == 'y' {
        Some(31536000)
    } else {
        None
    }
}

/// A relative time, a whole number and a unit, in seconds; none where the
/// text is not one or the seconds do not fit in 64 bits.
pub open spec fn relative_seconds(t: Seq<char>) -> Option<nat> {
    let n = number_len(t, 0, false) as int;
    if n == 0 || digits_value(t.take(n)) > u64::MAX {
        None
    } else {
        match time_unit(trim(t.skip(n))) {
            None => None,
            Some(m) => if digits_value(t.take(n)) * m > u64::MAX {
                None
            } else {
                Some(digits_value(t.take(n)) * m)
            },
        }
    }
}

/// A date and time of day on the local clock.
#[derive(Debug, Clone, Copy, PartialEq, Eq, Structural)]
pub struct LocalDateTime {
    pub year: i32,
    pub month: u32,
    pub day: u32,
    pub hour: u32,
    pub minute: u32,
    pub second: u32,
}

/// What chrono's `NaiveDateTime::parse_from_str` reads from `text` in
/// `format`, where it reads a date and time.
pub uninterp spec fn date_time_read(text: Seq<char>, format: Seq<char>) -> Option<LocalDateTime>;

/// What chrono's `NaiveDate::parse_from_str` reads from `text` in `format`,
/// where it reads a date: year, month and day.
pub uninterp spec fn date_read(text: Seq<char>, format: Seq<char>) -> Option<(i32, u32, u32)>;

/// The date and time that `t` writes as `YYYY-MM-DD HH:MM:SS`, or else as
/// `YYYY-MM-DD`, which stands for its midnight.
pub open spec fn date_of(t: Seq<char>) -> Option<LocalDateTime> {
    match date_time_read(t, "%Y-%m-%d %H:%M:%S"@) {
        Some(d) => Some(d),
        None => match date_read(t, "%Y-%m-%d"@) {
            Some((y, m, d)) => Some(LocalDateTime { year: y, month: m, day: d, hour: 0, minute: 0, second: 0 }),
            None => None,
        },
    }
}

/// The days from 1970-01-01 to a date of the proleptic Gregorian calendar.
#[verifier::opaque]
pub open spec fn days_from_civil(y: int, m: int, d: int) -> int {
    let y2 = if m <= 2 { y - 1 } else { y };
    let era = y2 / 400;
    let yoe = y2 - era * 400;
    let mp = if m > 2 { m - 3 } else { m + 9 };
    let doy = (153 * mp + 2) / 5 + d - 1;
    let doe = yoe * 365 + yoe / 4 - yoe / 100 + doy;
    era * 146097 + doe - 719468
}

/// The instant, in seconds since the epoch, that a date and time name when
/// read as UTC.
pub open spec fn utc_seconds(d: LocalDateTime) -> int {
    days_from_civil(d.year as int, d.month as int, d.day as int) * 86400 + d.hour * 3600 + d.minute * 60
        + d.second
}

/// The last second, since the epoch, of the year 9999: no later instant has
/// a local date whose year has four digits.
pub const LAST_FOUR_DIGIT_SECOND: u64 = 253402300799;

/// How a file modified at `modified` compares with a date `d`, written in
/// `written` characters, whose instant is `threshold` (seconds since the
/// epoch): `>` after it, `<` before it, and `=` at it, or, for a date written
/// without a time, on the same local day, where the file's local day is
/// `modified_day`.
pub open spec fn absolute_holds(
    c: Comparison,
    modified: int,
    threshold: int,
    modified_day: Option<(i32, u32, u32)>,
    d: LocalDateTime,
    written: int,
) -> bool {
    let date_only = written == 10;
    match c {
        Comparison::Greater => modified > threshold,
        Comparison::Less => modified < threshold,
        Comparison::Equal => if date_only {
            modified_day == Some((d.year, d.month, d.day))
        } else {
            modified == threshold
        },
    }
}

/// What `modified:<v>` may give on a file modified at `modified` when the
/// time is `now` (both in seconds since the epoch). The value is an optional
/// comparison and either a relative time, giving the cutoff `now` minus that
/// duration, or a local date; `>` holds of files modified after the cutoff,
/// `<` of files modified before it, `=` of files modified at it. Where a date
/// is turned into an instant, the machine's time zone decides, so only the
/// comparison is fixed here.
pub open spec fn time_allowed(modified: u64, now: u64, v: Seq<char>, r: Result<bool, PredicateError>) -> bool {
    let (c, rest) = split_comparison(v);
    let t = trim(rest);
    match relative_seconds(t) {
        Some(secs) => r == if secs > now {
            Err::<bool, PredicateError>(PredicateError::TimeUnderflow)
        } else {
            Ok::<bool, PredicateError>(compares(c, modified as int, now - secs))
        },
        None => match date_of(t) {
            None => r == Err::<bool, PredicateError>(PredicateError::InvalidTime),
            Some(d) => r == Err::<bool, PredicateError>(PredicateError::UnknownLocalTime) || exists|
                th: i64,
                md: Option<(i32, u32, u32)>,
            |
                utc_seconds(d) - 86400 <= th <= utc_seconds(d) + 86400 && r == Ok::<bool, PredicateError>(
                    #[trigger] absolute_holds(c, modified as int, th as int, md, d, t.len() as int),
                ),
        },
    }
}

/// Relies on chrono's `NaiveDateTime::parse_from_str`: the date and time that
/// `text` writes in `format`, where it writes one.
#[verifier::external_body]
fn read_date_time(text: &str, format: &str) -> (r: Option<LocalDateTime>)
    ensures
        r == date_time_read(text@, format@),
{
    let t = chrono::NaiveDateTime::parse_from_str(text, format).ok()?;
    let (date, time) = (t.date(), t.time());
    let (year, month, day) = (chrono::Datelike::year(&date), chrono::Datelike::month(&date), chrono::Datelike::day(&date));
    let (hour, minute, second) = (chrono::Timelike::hour(&time), chrono::Timelike::minute(&time), chrono::Timelike::second(&time));
    Some(LocalDateTime { year, month, day, hour, minute, second })
}

/// Relies on chrono's `NaiveDate::parse_from_str`: the date that `text`
/// writes in `format`, where it writes one.
#[verifier::external_body]
fn read_date(text: &str, format: &str) -> (r: Option<(i32, u32, u32)>)
    ensures
        r == date_read(text@, format@),
{
    let d = chrono::NaiveDate::parse_from_str(text, format).ok()?;
    Some((chrono::Datelike::year(&d), chrono::Datelike::month(&d), chrono::Datelike::day(&d)))
}

/// Relies on chrono's `NaiveDate::from_ymd_opt`, `NaiveDate::and_hms_opt`,
/// `TimeZone::from_local_datetime` on `Local` with `single` and
/// `DateTime::timestamp`: the instant that a local date and time names in
/// the machine's time zone, where it names exactly one. The instant is the
/// date and time read as UTC less the zone's offset, a `FixedOffset`, which
/// is less than a day either way.
#[verifier::external_body]
fn local_timestamp(d: LocalDateTime) -> (r: Option<i64>)
    requires
        0 <= d.year <= 9999,
    ensures
        r matches Some(t) ==> utc_seconds(d) - 86400 <= t <= utc_seconds(d) + 86400,
{
    let date = chrono::NaiveDate::from_ymd_opt(d.year, d.month, d.day)?;
    let time = date.and_hms_opt(d.hour, d.minute, d.second)?;
    match chrono::TimeZone::from_local_datetime(&chrono::Local, &time).single() {
        Some(t) => Some(t.timestamp()),
        None => None,
    }
}

/// Relies on chrono's `DateTime::from_timestamp`, `DateTime::with_timezone`
/// to `Local` and `date_naive`: the local calendar date of an instant.
#[verifier::external_body]
fn local_date(secs: u64) -> (r: Option<(i32, u32, u32)>)
    requires
        secs <= LAST_FOUR_DIGIT_SECOND,
{
    let utc = chrono::DateTime::from_timestamp(i64::try_from(secs).ok()?, 0)?;
    let date = utc.with_timezone(&chrono::Local).date_naive();
    Some((chrono::Datelike::year(&date), chrono::Datelike::month(&date), chrono::Datelike::day(&date)))
}

/// Compares a modification time with a date whose instant and whose local
/// day of modification are given.
pub fn compare_with_date(
    c: Comparison,
    modified: u64,
    threshold: i64,
    modified_day: Option<(i32, u32, u32)>,
    d: LocalDateTime,
    written: usize,
) -> (r: bool)
    ensures
        r == absolute_holds(c, modified as int, threshold as int, modified_day, d, written as int),
{
    let date_only = written == 10;
    match c {
        Comparison::Greater => modified as i128 > threshold as i128,
        Comparison::Less => (modified as i128) < threshold as i128,
        Comparison::Equal => if date_only {
            match modified_day {
                Some((y, m, day)) => y == d.year && m == d.month && day == d.day,
                None => false,
            }
        } else {
            modified as i128 == threshold as i128
        },
    }
}

fn integer_at(s: &Vec<char>, lo: usize, hi: usize) -> (r: Option<u64>)
    requires
        lo <= hi <= s.len(),
        forall|j: int| lo <= j < hi ==> is_digit(s@[j]),
    ensures
        match r {
            Some(n) => n == digits_value(s@.subrange(lo as int, hi as int)),
            None => digits_value(s@.subrange(lo as int, hi as int)) > u64::MAX,
        },
{
    let ghost d = s@.subrange(lo as int, hi as int);
    let mut n: u64 = 0;
    let mut j = lo;
    assert(d.take(0) =~= Seq::<char>::empty());
    while j < hi
        invariant
            lo <= j <= hi <= s.len(),
            d == s@.subrange(lo as int, hi as int),
            forall|m: int| lo <= m < hi ==> is_digit(s@[m]),
            n == digits_value(d.take(j - lo)),
        decreases hi - j,
    {
        assert(d.take(j - lo + 1).drop_last() =~= d.take(j - lo));
        assert(d.take(j - lo + 1).last() == s@[j as int]);
        let dv = (s[j] as u32 - '0' as u32) as u64;
        let grown = match n.checked_mul(10) {
            Some(x) => x.checked_add(dv),
            None => None,
        };
        match grown {
            Some(x) => {
                n = x;
            },
            None => {
                proof {
                    lemma_digits_value_grows(d, j - lo + 1);
                }
                return None;
            },
        }
        j = j + 1;
    }
    assert(d.take(hi - lo) =~= d);
    Some(n)
}

fn time_unit_at(s: &Vec<char>, lo: usize, hi: usize) -> (r: Option<u64>)
    requires
        lo <= hi <= s.len(),
    ensures
        match time_unit(s@.subrange(lo as int, hi as int)) {
            Some(m) => r == Some(m as u64),
            None => r is None,
        },
{
    let ghost u = s@.subrange(lo as int, hi as int);
    if hi - lo != 1 {
        assert(u.len() != 1);
        return None;
    }
    assert(u[0] == s@[lo as int]);
    let c = s[lo];
    if c == 's' {
        Some(1)
    } else if c == 'm' {
        Some(60)
    } else if c == 'h' {
        Some(3600)
    } else if c == 'd' {
        Some(86400)
    } else if c == 'w' {
        Some(604800)
    } else if c == 'y' {
        Some(31536000)
    } else {
        None
    }
}

/// Compares a modification time with the value of a `modified` predicate,
/// at the time `now`.
/// The seconds of the relative time `s[lo..hi]`.
fn relative_at(s: &Vec<char>, lo: usize, hi: usize) -> (r: Option<u64>)
    requires
        lo <= hi <= s.len(),
    ensures
        match relative_seconds(s@.subrange(lo as int, hi as int)) {
            Some(n) => r == Some(n as u64),
            None => r is None,
        },
{
    let ne = scan_number(s, lo, hi, false);
    let (ulo, uhi) = trim_range(s, ne, hi);
    let ghost t = s@.subrange(lo as int, hi as int);
    assert(t.skip(ne - lo) =~= s@.subrange(ne as int, hi as int));
    if ne == lo {
        return None;
    }
    let n = match integer_at(s, lo, ne) {
        Some(n) => n,
        None => return None,
    };
    let m = match time_unit_at(s, ulo, uhi) {
        Some(m) => m,
        None => return None,
    };
    n.checked_mul(m)
}

/// Compares a modification time with the value of a `modified` predicate,
/// at the time `now`.
pub fn parse_and_compare_time(modified: u64, now: u64, query: &str) -> (r: Result<bool, PredicateError>)
    ensures
        time_allowed(modified, now, query@, r),
{
    let s = chars_of(query);
    let (c, rest) = comparison_at(&s, 0, s.len());
    assert(s@.subrange(0, s.len() as int) =~= s@);
    let (tlo, thi) = trim_range(&s, rest, s.len());
    match relative_at(&s, tlo, thi) {
        Some(secs) => {
            if secs > now {
                Err(PredicateError::TimeUnderflow)
            } else {
                Ok(compare_with(c, modified as u128, (now - secs) as u128))
            }
        },
        None => {
            let text = query.substring_char(tlo, thi);
            let d = match read_date_time(text, "%Y-%m-%d %H:%M:%S") {
                Some(d) => d,
                None => match read_date(text, "%Y-%m-%d") {
                    Some((year, month, day)) => LocalDateTime { year, month, day, hour: 0, minute: 0, second: 0 },
                    None => return Err(PredicateError::InvalidTime),
                },
            };
            assert(text@ == s@.subrange(tlo as int, thi as int));
            assert(date_of(text@) == Some(d));
            if d.year < 0 || d.year > 9999 {
                return Err(PredicateError::UnknownLocalTime);
            }
            match local_timestamp(d) {
                None => Err(PredicateError::UnknownLocalTime),
                Some(threshold) => {
                    let day = if modified <= LAST_FOUR_DIGIT_SECOND {
                        local_date(modified)
                    } else {
                        None
                    };
                    let b = compare_with_date(c, modified, threshold, day, d, thi - tlo);
                    assert(b == absolute_holds(c, modified as int, threshold as int, day, d, (thi - tlo) as int));
                    assert(utc_seconds(d) - 86400 <= threshold <= utc_seconds(d) + 86400);
                    assert(text@.len() == thi - tlo);
                    let ghost t = text@;
                    assert(absolute_holds(c, modified as int, threshold as int, day, d, t.len() as int) == b);
                    assert(exists|th: i64, md: Option<(i32, u32, u32)>|
                        utc_seconds(d) - 86400 <= th <= utc_seconds(d) + 86400 && Ok::<bool, PredicateError>(b)
                            == Ok::<bool, PredicateError>(#[trigger] absolute_holds(c, modified as int, th as int, md, d, t.len() as int)));
                    assert(split_comparison(query@) == (c, s@.subrange(rest as int, s.len() as int)));
                    assert(trim(s@.subrange(rest as int, s.len() as int)) == t);
                    assert(relative_seconds(t) is None);
                    assert(date_of(t) == Some(d));
                    assert(date_of(t)->Some_0 == d);
                    assert(split_comparison(query@).0 == c);
                    assert(time_allowed(modified, now, query@, Ok(b)));
                    Ok(b)
                },
            }
        },
    }
}

// ---------------------------------------------------------------------------
// Lines that contain a text.
// ---------------------------------------------------------------------------

/// The index of the first newline at or after `i`, or the length of `b`.
pub open spec fn line_end(b: Seq<u8>, i: int) -> int
    decreases b.len() - i,
{
    if i < 0 || i >= b.len() || b[i] == 10 {
        i
    } else {
        line_end(b, i + 1)
    }
}

/// The hunk of a line: its bytes `start..stop` on row `row`.
pub open spec fn line_hunk(start: int, stop: int, row: int) -> Range {
    Range {
        start_byte: start as usize,
        end_byte: stop as usize,
        start_point: Point { row: row as usize, column: 0 },
        end_point: Point { row: row as usize, column: (stop - start) as usize },
    }
}

/// The hunks of the lines of `b` from byte `i` (line `row`) on that contain
/// `needle`. A line ends before a newline, and before a carriage return that
/// precedes that newline.
pub open spec fn lines_with(b: Seq<u8>, needle: Seq<u8>, i: int, row: int) -> Seq<Range>
    decreases b.len() - i,
{
    if i < 0 || i >= b.len() || line_end(b, i) < i || line_end(b, i) > b.len() {
        Seq::empty()
    } else {
        let e = line_end(b, i);
        let stop = if e < b.len() && e > i && b[e - 1] == 13 {
            e - 1
        } else {
            e
        };
        let rest = if e < b.len() {
            lines_with(b, needle, e + 1, row + 1)
        } else {
            Seq::empty()
        };
        if occurs_in(needle, b.subrange(i, stop)) {
            seq![line_hunk(i, stop, row)] + rest
        } else {
            rest
        }
    }
}

/// Whether `needle` occurs in `hay[lo..hi]`.
pub(crate) fn find_bytes(needle: &[u8], hay: &[u8], lo: usize, hi: usize) -> (r: bool)
    requires
        lo <= hi <= hay@.len(),
    ensures
        r == occurs_in(needle@, hay@.subrange(lo as int, hi as int)),
{
    let ghost w = hay@.subrange(lo as int, hi as int);
    if needle.len() > hi - lo {
        return false;
    }
    let last = hi - lo - needle.len();
    let mut i: usize = 0;
    loop
        invariant
            lo <= hi <= hay@.len(),
            w == hay@.subrange(lo as int, hi as int),
            last == w.len() - needle@.len(),
            i <= last,
            forall|j: int| 0 <= j < i ==> #[trigger] w.subrange(j, j + needle@.len()) != needle@,
        decreases last - i,
    {
        let mut k: usize = 0;
        let mut same = true;
        while k < needle.len()
            invariant
                k <= needle@.len(),
                i <= last,
                last == w.len() - needle@.len(),
                lo <= hi <= hay@.len(),
                w == hay@.subrange(lo as int, hi as int),
                same == forall|m: int| 0 <= m < k ==> w[i + m] == needle@[m],
            decreases needle.len() - k,
        {
            if hay[lo + i + k] != needle[k] {
                same = false;
            }
            k = k + 1;
        }
        if same {
            assert(w.subrange(i as int, i + needle@.len()) =~= needle@);
            return true;
        }
        assert(w.subrange(i as int, i + needle@.len()) != needle@) by {
            let m = choose|m: int| 0 <= m < needle@.len() && w[i + m] != needle@[m];
            assert(w.subrange(i as int, i + needle@.len())[m] == w[i + m]);
        }
        if i == last {
            return false;
        }
        i = i + 1;
    }
}

/// The hunks of the lines of `b` that contain `needle`.
pub fn line_hunks(b: &[u8], needle: &[u8]) -> (r: Vec<Range>)
    ensures
        r@ == lines_with(b@, needle@, 0, 0),
{
    let mut out: Vec<Range> = Vec::new();
    let mut i: usize = 0;
    let mut row: usize = 0;
    while i < b.len()
        invariant
            row <= i <= b@.len(),
            lines_with(b@, needle@, 0, 0) == out@ + lines_with(b@, needle@, i as int, row as int),
        decreases b@.len() - i,
    {
        let mut e = i;
        while e < b.len() && b[e] != 10
            invariant
                i <= e <= b@.len(),
                line_end(b@, i as int) == line_end(b@, e as int),
            decreases b@.len() - e,
        {
            e = e + 1;
        }
        let stop = if e < b.len() && e > i && b[e - 1] == 13 {
            e - 1
        } else {
            e
        };
        let ghost rest = if e < b.len() {
            lines_with(b@, needle@, e + 1, row + 1)
        } else {
            Seq::empty()
        };
        if find_bytes(needle, b, i, stop) {
            let h = Range {
                start_byte: i,
                end_byte: stop,
                start_point: Point { row: row, column: 0 },
                end_point: Point { row: row, column: stop - i },
            };
            assert(out@.push(h) + rest =~= out@ + (seq![h] + rest));
            out.push(h);
        }
        if e < b.len() {
            i = e + 1;
        } else {
            i = b.len();
        }
        row = row + 1;
    }
    assert(out@ + Seq::<Range>::empty() =~= out@);
    out
}

/// What `contains:<v>` gives on a file: the hunks of the lines that hold `v`.
pub open spec fn contains_outcome(f: FileView, v: Seq<char>) -> Result<Outcome, PredicateError> {
    match f.content {
        None => Err(PredicateError::Unreadable),
        Some(c) => Ok(Outcome::Hunks(lines_with(encode_utf8(c), encode_utf8(v), 0, 0))),
    }
}

// ---------------------------------------------------------------------------
// Globs and regular expressions.
// ---------------------------------------------------------------------------

#[verifier::external_type_specification]
#[verifier::external_body]
pub struct ExRegexError(regex::Error);

#[verifier::external_type_specification]
#[verifier::external_body]
pub struct ExPatternError(glob::PatternError);

#[verifier::external_type_specification]
#[verifier::external_body]
pub struct ExGlobError(globset::Error);

/// Whether `regex::Regex::new` accepts the expression.
pub uninterp spec fn regex_valid(p: Seq<char>) -> bool;

/// Whether the expression matches somewhere in the text.
pub uninterp spec fn regex_finds(p: Seq<char>, text: Seq<char>) -> bool;

/// Whether `glob::Pattern::new` accepts the pattern.
pub uninterp spec fn name_glob_valid(p: Seq<char>) -> bool;

/// Whether the shell glob matches the whole name.
pub uninterp spec fn name_glob_match(p: Seq<char>, name: Seq<char>, case_sensitive: bool) -> bool;

/// Whether `globset` accepts the glob and builds its matcher.
pub uninterp spec fn path_glob_valid(p: Seq<char>) -> bool;

/// Whether the path glob matches the path.
pub uninterp spec fn path_glob_match(p: Seq<char>, path: Seq<char>) -> bool;

/// Relies on `regex::Regex::new`, which compiles an expression or fails, and
/// `regex::Regex::is_match`, whether it matches somewhere in the text.
#[verifier::external_body]
fn regex_search(pattern: &str, text: &str) -> (r: Result<bool, regex::Error>)
    ensures
        r is Ok <==> regex_valid(pattern@),
        r matches Ok(b) ==> b == regex_finds(pattern@, text@),
{
    match regex::Regex::new(pattern) {
        Ok(re) => Ok(re.is_match(text)),
        Err(e) => Err(e),
    }
}

/// Relies on `glob::Pattern::new`, which compiles a shell glob or fails, and
/// `glob::Pattern::matches_with`, whether it matches the whole name.
#[verifier::external_body]
fn name_glob_search(pattern: &str, name: &str, case_sensitive: bool) -> (r: Result<bool, glob::PatternError>)
    ensures
        r is Ok <==> name_glob_valid(pattern@),
        r matches Ok(b) ==> b == name_glob_match(pattern@, name@, case_sensitive),
{
    match glob::Pattern::new(pattern) {
        Ok(g) => Ok(g.matches_with(name, glob::MatchOptions { case_sensitive, ..glob::MatchOptions::new() })),
        Err(e) => Err(e),
    }
}

/// Relies on `globset::Glob::new`, which parses a glob or fails,
/// `globset::GlobSetBuilder::build`, which builds its matcher or fails, and
/// `globset::GlobSet::is_match`, whether it matches the path.
#[verifier::external_body]
fn path_glob_search(pattern: &str, path: &str) -> (r: Result<bool, globset::Error>)
    ensures
        r is Ok <==> path_glob_valid(pattern@),
        r matches Ok(b) ==> b == path_glob_match(pattern@, path@),
{
    let glob = match globset::Glob::new(pattern) {
        Ok(g) => g,
        Err(e) => return Err(e),
    };
    let mut builder = globset::GlobSetBuilder::new();
    builder.add(glob);
    match builder.build() {
        Ok(set) => Ok(set.is_match(path)),
        Err(e) => Err(e),
    }
}

/// A value holds a glob metacharacter: `*`, `?`, `[` or `{`.
pub open spec fn is_glob(v: Seq<char>) -> bool {
    v.contains('*') || v.contains('?') || v.contains('[') || v.contains('{')
}

fn has_glob_meta(v: &Vec<char>) -> (r: bool)
    ensures
        r == is_glob(v@),
{
    let mut i: usize = 0;
    while i < v.len()
        invariant
            i <= v.len(),
            forall|j: int| 0 <= j < i ==> v@[j] != '*' && v@[j] != '?' && v@[j] != '[' && v@[j] != '{',
        decreases v.len() - i,
    {
        let c = v[i];
        if c == '*' || c == '?' || c == '[' || c == '{' {
            assert(v@[i as int] == c);
            return true;
        }
        i = i + 1;
    }
    false
}

// ---------------------------------------------------------------------------
// The predicates.
// ---------------------------------------------------------------------------

/// The verdict of a pattern that compiled, or the error of one that did not.
pub open spec fn glob_verdict(valid: bool, matched: bool) -> Result<Outcome, PredicateError> {
    if valid {
        Ok(Outcome::Boolean(matched))
    } else {
        Err(PredicateError::InvalidPattern)
    }
}

/// The file name of a path, or the empty text where it has none.
pub open spec fn name_or_empty(p: Seq<char>) -> Seq<char> {
    match file_name(p) {
        Some(n) => n,
        None => Seq::empty(),
    }
}

pub open spec fn as_verdict(r: Result<bool, PredicateError>) -> Result<Outcome, PredicateError> {
    match r {
        Ok(b) => Ok(Outcome::Boolean(b)),
        Err(e) => Err(e),
    }
}

/// The outcomes that evaluating key `k` with value `v` may give on file `f`.
pub open spec fn allowed(f: FileView, k: Key, v: Seq<char>, r: Result<Outcome, PredicateError>) -> bool {
    match k {
        Key::Ext => r == Ok::<Outcome, PredicateError>(Outcome::Boolean(eq_ignore_case(extension(f.path), v))),
        Key::Name => r == glob_verdict(name_glob_valid(v), name_glob_match(v, name_or_empty(f.path), false)),
        Key::Path => if is_glob(v) {
            r == glob_verdict(path_glob_valid(v), path_glob_match(v, f.path))
        } else {
            r == Ok::<Outcome, PredicateError>(Outcome::Boolean(occurs_in(v, f.path)))
        },
        Key::Contains => r == contains_outcome(f, v),
        Key::Matches => match f.content {
            None => r == Err::<Outcome, PredicateError>(PredicateError::Unreadable),
            Some(c) => r == glob_verdict(regex_valid(v), regex_finds(v, c)),
        },
        Key::Size => match f.size {
            None => r == Err::<Outcome, PredicateError>(PredicateError::MissingMetadata),
            Some(n) => r == as_verdict(size_outcome(n, v)),
        },
        Key::Modified => match f.modified {
            None => r == Err::<Outcome, PredicateError>(PredicateError::MissingMetadata),
            Some(m) => match r {
                Ok(Outcome::Boolean(b)) => time_allowed(m, f.now, v, Ok(b)),
                Err(e) => time_allowed(m, f.now, v, Err(e)),
                Ok(Outcome::Hunks(_)) => false,
            },
        },
        Key::In => if is_glob(v) {
            r == glob_verdict(path_glob_valid(v), path_glob_match(v, relative_to(parent_of(f.path), f.root)))
        } else {
            r == Ok::<Outcome, PredicateError>(Outcome::Boolean(in_directory(f, v)))
        },
        Key::Other(_) => r == Ok::<Outcome, PredicateError>(Outcome::Boolean(true)),
        _ => structural_allowed(f, k, v, r),
    }
}

/// Evaluates one predicate on the file.
pub fn evaluate_key(ctx: &mut FileContext, key: &PredicateKey, value: &String) -> (r: Result<MatchResult, PredicateError>)
    ensures
        final(ctx).file() == old(ctx).file(),
        final(ctx).remembered() == old(ctx).remembered(),
        allowed(old(ctx).file(), key@, value@, crate::evaluator::result_view(r)),
{
    if is_structural(key) {
        return evaluate_structural(ctx, key, value.as_str());
    }
    match key {
        PredicateKey::Ext => {
            let p = chars_of(ctx.path.as_str());
            let v = chars_of(value.as_str());
            let (lo, hi) = extension_range(&p);
            Ok(MatchResult::Boolean(range_eq_ignore_case(&p, lo, hi, &v)))
        },
        PredicateKey::Name => {
            let p = chars_of(ctx.path.as_str());
            let name = match file_name_range(&p) {
                Some((lo, hi)) => ctx.path.as_str().substring_char(lo, hi),
                None => {
                    proof {
                        reveal_strlit("");
                    }
                    assert(""@ =~= Seq::<char>::empty());
                    ""
                },
            };
            match name_glob_search(value.as_str(), name, false) {
                Ok(b) => Ok(MatchResult::Boolean(b)),
                Err(_) => Err(PredicateError::InvalidPattern),
            }
        },
        PredicateKey::Path => {
            let v = chars_of(value.as_str());
            if has_glob_meta(&v) {
                match path_glob_search(value.as_str(), ctx.path.as_str()) {
                    Ok(b) => Ok(MatchResult::Boolean(b)),
                    Err(_) => Err(PredicateError::InvalidPattern),
                }
            } else {
                let p = chars_of(ctx.path.as_str());
                Ok(MatchResult::Boolean(find_chars(&v, &p)))
            }
        },
        PredicateKey::Contains => match &ctx.content {
            None => Err(PredicateError::Unreadable),
            Some(c) => Ok(MatchResult::Hunks(line_hunks(c.as_str().as_bytes(), value.as_str().as_bytes()))),
        },
        PredicateKey::Matches => match &ctx.content {
            None => Err(PredicateError::Unreadable),
            Some(c) => {
                match regex_search(value.as_str(), c.as_str()) {
                    Ok(b) => Ok(MatchResult::Boolean(b)),
                    Err(_) => Err(PredicateError::InvalidPattern),
                }
            },
        },
        PredicateKey::Size => match ctx.size {
            None => Err(PredicateError::MissingMetadata),
            Some(n) => match parse_and_compare_size(n, value.as_str()) {
                Ok(b) => Ok(MatchResult::Boolean(b)),
                Err(e) => Err(e),
            },
        },
        PredicateKey::Modified => match ctx.modified {
            None => Err(PredicateError::MissingMetadata),
            Some(m) => match parse_and_compare_time(m, ctx.now, value.as_str()) {
                Ok(b) => Ok(MatchResult::Boolean(b)),
                Err(e) => Err(e),
            },
        },
        PredicateKey::In => {
            let v = chars_of(value.as_str());
            if has_glob_meta(&v) {
                let p = chars_of(ctx.path.as_str());
                let root = chars_of(ctx.root.as_str());
                let rel = relative_parent(&p, &root);
                let mut text = String::new();
                let mut i: usize = 0;
                while i < rel.len()
                    invariant
                        i <= rel.len(),
                        text@ == rel@.take(i as int),
                    decreases rel.len() - i,
                {
                    push_char(&mut text, rel[i]);
                    assert(rel@.take(i + 1) =~= rel@.take(i as int).push(rel@[i as int]));
                    i = i + 1;
                }
                assert(rel@.take(rel.len() as int) =~= rel@);
                match path_glob_search(value.as_str(), text.as_str()) {
                    Ok(b) => Ok(MatchResult::Boolean(b)),
                    Err(_) => Err(PredicateError::InvalidPattern),
                }
            } else {
                let found = match find_directory(&ctx.directories, value.as_str()) {
                    Some(t) => match &ctx.canonical {
                        Some(c) => is_within(&chars_of(t.as_str()), &chars_of(c.as_str())),
                        None => false,
                    },
                    None => false,
                };
                Ok(MatchResult::Boolean(found))
            }
        },
        _ => Ok(MatchResult::Boolean(true)),
    }
}


/// Evaluates `ext:` predicates: the extension of the file, compared with the value without regard to ASCII case.
pub struct ExtEvaluator;

impl ExtEvaluator {
    pub fn evaluate(&self, ctx: &mut FileContext, key: &PredicateKey, value: &str) -> (r: Result<MatchResult, PredicateError>)
        ensures
            final(ctx).file() == old(ctx).file(),
            final(ctx).remembered() == old(ctx).remembered(),
            allowed(old(ctx).file(), Key::Ext, value@, crate::evaluator::result_view(r)),
    {
        evaluate_key(ctx, &PredicateKey::Ext, &String::from_str(value))
    }
}

/// Evaluates `name:` predicates: the file name, matched against a glob without regard to case.
pub struct NameEvaluator;

impl NameEvaluator {
    pub fn evaluate(&self, ctx: &mut FileContext, key: &PredicateKey, value: &str) -> (r: Result<MatchResult, PredicateError>)
        ensures
            final(ctx).file() == old(ctx).file(),
            final(ctx).remembered() == old(ctx).remembered(),
            allowed(old(ctx).file(), Key::Name, value@, crate::evaluator::result_view(r)),
    {
        evaluate_key(ctx, &PredicateKey::Name, &String::from_str(value))
    }
}

/// Evaluates `path:` predicates: the path: matched against a glob where the value holds a glob metacharacter, searched for the value otherwise.
pub struct PathEvaluator;

impl PathEvaluator {
    pub fn evaluate(&self, ctx: &mut FileContext, key: &PredicateKey, value: &str) -> (r: Result<MatchResult, PredicateError>)
        ensures
            final(ctx).file() == old(ctx).file(),
            final(ctx).remembered() == old(ctx).remembered(),
            allowed(old(ctx).file(), Key::Path, value@, crate::evaluator::result_view(r)),
    {
        evaluate_key(ctx, &PredicateKey::Path, &String::from_str(value))
    }
}

/// Evaluates `contains:` predicates: the lines of the text that hold the value, one hunk each.
pub struct ContainsEvaluator;

impl ContainsEvaluator {
    pub fn evaluate(&self, ctx: &mut FileContext, key: &PredicateKey, value: &str) -> (r: Result<MatchResult, PredicateError>)
        ensures
            final(ctx).file() == old(ctx).file(),
            final(ctx).remembered() == old(ctx).remembered(),
            allowed(old(ctx).file(), Key::Contains, value@, crate::evaluator::result_view(r)),
    {
        evaluate_key(ctx, &PredicateKey::Contains, &String::from_str(value))
    }
}

/// Evaluates `matches:` predicates: whether a regular expression matches the text.
pub struct MatchesEvaluator;

impl MatchesEvaluator {
    pub fn evaluate(&self, ctx: &mut FileContext, key: &PredicateKey, value: &str) -> (r: Result<MatchResult, PredicateError>)
        ensures
            final(ctx).file() == old(ctx).file(),
            final(ctx).remembered() == old(ctx).remembered(),
            allowed(old(ctx).file(), Key::Matches, value@, crate::evaluator::result_view(r)),
    {
        evaluate_key(ctx, &PredicateKey::Matches, &String::from_str(value))
    }
}

/// Evaluates `size:` predicates: the size in bytes, compared with a number and unit.
pub struct SizeEvaluator;

impl SizeEvaluator {
    pub fn evaluate(&self, ctx: &mut FileContext, key: &PredicateKey, value: &str) -> (r: Result<MatchResult, PredicateError>)
        ensures
            final(ctx).file() == old(ctx).file(),
            final(ctx).remembered() == old(ctx).remembered(),
            allowed(old(ctx).file(), Key::Size, value@, crate::evaluator::result_view(r)),
    {
        evaluate_key(ctx, &PredicateKey::Size, &String::from_str(value))
    }
}

/// Evaluates `modified:` predicates: the modification time, compared with a cutoff before the time of evaluation.
pub struct ModifiedEvaluator;

impl ModifiedEvaluator {
    pub fn evaluate(&self, ctx: &mut FileContext, key: &PredicateKey, value: &str) -> (r: Result<MatchResult, PredicateError>)
        ensures
            final(ctx).file() == old(ctx).file(),
            final(ctx).remembered() == old(ctx).remembered(),
            allowed(old(ctx).file(), Key::Modified, value@, crate::evaluator::result_view(r)),
    {
        evaluate_key(ctx, &PredicateKey::Modified, &String::from_str(value))
    }
}


/// Evaluates `in:` predicates: whether the file lies in a directory, or
/// whether the glob matches its directory relative to the search root.
pub struct InPathEvaluator;

impl InPathEvaluator {
    pub fn evaluate(&self, ctx: &mut FileContext, key: &PredicateKey, value: &str) -> (r: Result<MatchResult, PredicateError>)
        ensures
            final(ctx).file() == old(ctx).file(),
            final(ctx).remembered() == old(ctx).remembered(),
            allowed(old(ctx).file(), Key::In, value@, crate::evaluator::result_view(r)),
    {
        evaluate_key(ctx, &PredicateKey::In, &String::from_str(value))
    }
}

} // verus!
