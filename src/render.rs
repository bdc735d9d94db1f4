use vstd::prelude::*;

use crate::hunk::Range;
use crate::text::{chars_of, decimal, digit, push_char, push_decimal};
use vstd::string::{StrSliceExecFns, StringExecFns};

verus! {

// ---------------------------------------------------------------------------
// File metadata.
// ---------------------------------------------------------------------------

/// `c` where the permission bit `bit` of `mode` is set, `-` otherwise.
pub open spec fn flag(mode: u32, bit: u32, c: char) -> char {
    if mode & bit != 0 {
        c
    } else {
        '-'
    }
}

/// The permissions of a Unix mode as `ls` shows them for a regular file.
pub open spec fn mode_text(mode: u32) -> Seq<char> {
    seq![
        '-',
        flag(mode, 0o400, 'r'),
        flag(mode, 0o200, 'w'),
        flag(mode, 0o100, 'x'),
        flag(mode, 0o040, 'r'),
        flag(mode, 0o020, 'w'),
        flag(mode, 0o010, 'x'),
        flag(mode, 0o004, 'r'),
        flag(mode, 0o002, 'w'),
        flag(mode, 0o001, 'x'),
    ]
}

fn flag_char(mode: u32, bit: u32, c: char) -> (r: char)
    ensures
        r == flag(mode, bit, c),
{
    if mode & bit != 0 {
        c
    } else {
        '-'
    }
}

/// The permissions of a Unix mode, such as `-rw-r--r--`.
pub fn format_mode(mode: u32) -> (r: String)
    ensures
        r@ == mode_text(mode),
{
    let mut r = String::new();
    push_char(&mut r, '-');
    push_char(&mut r, flag_char(mode, 0o400, 'r'));
    push_char(&mut r, flag_char(mode, 0o200, 'w'));
    push_char(&mut r, flag_char(mode, 0o100, 'x'));
    push_char(&mut r, flag_char(mode, 0o040, 'r'));
    push_char(&mut r, flag_char(mode, 0o020, 'w'));
    push_char(&mut r, flag_char(mode, 0o010, 'x'));
    push_char(&mut r, flag_char(mode, 0o004, 'r'));
    push_char(&mut r, flag_char(mode, 0o002, 'w'));
    push_char(&mut r, flag_char(mode, 0o001, 'x'));
    assert(r@ =~= mode_text(mode));
    r
}

/// `bytes` in tenths of `unit`, rounded to the nearest, ties to even.
pub open spec fn tenths(bytes: nat, unit: nat) -> nat
    recommends
        unit > 0,
{
    let t = bytes * 10 / unit;
    let rem = bytes * 10 % unit;
    if 2 * rem > unit || (2 * rem == unit && t % 2 == 1) {
        t + 1
    } else {
        t
    }
}

/// `t` tenths written with one decimal, followed by `suffix`.
pub open spec fn one_decimal(t: nat, suffix: char) -> Seq<char> {
    decimal(t / 10) + seq!['.', digit(t % 10), suffix]
}

/// A size for people: bytes below a kibibyte, else kibi-, mebi- or gibibytes
/// with one decimal.
pub open spec fn size_text(bytes: u64) -> Seq<char> {
    if bytes >= 1073741824 {
        one_decimal(tenths(bytes as nat, 1073741824), 'G')
    } else if bytes >= 1048576 {
        one_decimal(tenths(bytes as nat, 1048576), 'M')
    } else if bytes >= 1024 {
        one_decimal(tenths(bytes as nat, 1024), 'K')
    } else {
        decimal(bytes as nat) + seq!['B']
    }
}

fn tenths_of(bytes: u64, unit: u64) -> (r: u64)
    requires
        unit >= 1024,
    ensures
        r == tenths(bytes as nat, unit as nat),
{
    let scaled = bytes as u128 * 10;
    let t = scaled / (unit as u128);
    let rem = scaled % (unit as u128);
    assert(t < u64::MAX) by (nonlinear_arith)
        requires
            t == scaled / (unit as u128),
            scaled <= u64::MAX as u128 * 10,
            unit >= 1024,
    ;
    if 2 * rem > unit as u128 || (2 * rem == unit as u128 && t % 2 == 1) {
        (t + 1) as u64
    } else {
        t as u64
    }
}

fn push_one_decimal(s: &mut String, t: u64, suffix: char)
    ensures
        final(s)@ == old(s)@ + one_decimal(t as nat, suffix),
{
    push_decimal(s, t / 10);
    push_char(s, '.');
    let d = t % 10;
    let c = if d == 0 {
        '0'
    } else if d == 1 {
        '1'
    } else if d == 2 {
        '2'
    } else if d == 3 {
        '3'
    } else if d == 4 {
        '4'
    } else if d == 5 {
        '5'
    } else if d == 6 {
        '6'
    } else if d == 7 {
        '7'
    } else if d == 8 {
        '8'
    } else {
        '9'
    };
    push_char(s, c);
    push_char(s, suffix);
    assert(final(s)@ =~= old(s)@ + one_decimal(t as nat, suffix));
}

/// A size for people, such as `512B`, `1.5K` or `2.0G`.
pub fn format_size(bytes: u64) -> (r: String)
    ensures
        r@ == size_text(bytes),
{
    let mut r = String::new();
    if bytes >= 1073741824 {
        push_one_decimal(&mut r, tenths_of(bytes, 1073741824), 'G');
    } else if bytes >= 1048576 {
        push_one_decimal(&mut r, tenths_of(bytes, 1048576), 'M');
    } else if bytes >= 1024 {
        push_one_decimal(&mut r, tenths_of(bytes, 1024), 'K');
    } else {
        push_decimal(&mut r, bytes);
        push_char(&mut r, 'B');
    }
    assert(r@ =~= size_text(bytes));
    r
}

// ---------------------------------------------------------------------------
// Lines around hunks.
// ---------------------------------------------------------------------------

/// The lines to show for a hunk: `context` lines before its first row and
/// after its last, kept within the `line_count` lines of the file, as a
/// half-open range of line indices.
pub open spec fn window(h: Range, line_count: nat, context: nat) -> Option<(nat, nat)> {
    let start: nat = if h.start_point.row >= context {
        (h.start_point.row - context) as nat
    } else {
        0
    };
    let end: nat = if h.end_point.row + context <= line_count - 1 {
        (h.end_point.row + context) as nat
    } else {
        (line_count - 1) as nat
    };
    if end >= start {
        Some((start, end + 1))
    } else {
        None
    }
}

/// The windows of the hunks, in their order.
pub open spec fn windows(hunks: Seq<Range>, line_count: nat, context: nat) -> Seq<(nat, nat)>
    decreases hunks.len(),
{
    if hunks.len() == 0 {
        Seq::empty()
    } else {
        let rest = windows(hunks.drop_last(), line_count, context);
        match window(hunks.last(), line_count, context) {
            Some(w) => rest.push(w),
            None => rest,
        }
    }
}

/// How many windows of `s` start no later than `x`.
pub open spec fn count_by_start(s: Seq<(nat, nat)>, x: (nat, nat)) -> nat
    decreases s.len(),
{
    if s.len() == 0 {
        0
    } else {
        count_by_start(s.drop_last(), x) + if s.last().0 <= x.0 {
            1nat
        } else {
            0nat
        }
    }
}

/// The windows sorted by start, those with equal starts in their order.
pub open spec fn sort_by_start(s: Seq<(nat, nat)>) -> Seq<(nat, nat)>
    decreases s.len(),
{
    if s.len() == 0 {
        s
    } else {
        let sorted = sort_by_start(s.drop_last());
        sorted.insert(count_by_start(sorted, s.last()) as int, s.last())
    }
}

/// Each window that starts within the one before it is merged into it.
pub open spec fn merge_overlapping(s: Seq<(nat, nat)>) -> Seq<(nat, nat)>
    decreases s.len(),
{
    if s.len() == 0 {
        s
    } else {
        let m = merge_overlapping(s.drop_last());
        let x = s.last();
        if m.len() > 0 && x.0 <= m.last().1 {
            m.drop_last().push((m.last().0, if x.1 > m.last().1 { x.1 } else { m.last().1 }))
        } else {
            m.push(x)
        }
    }
}

/// The line ranges to print for the hunks of a file of `line_count` lines,
/// with `context` lines around each, sorted and with overlaps merged.
pub open spec fn line_ranges(hunks: Seq<Range>, line_count: nat, context: nat) -> Seq<(nat, nat)> {
    if hunks.len() == 0 || line_count == 0 {
        Seq::empty()
    } else {
        merge_overlapping(sort_by_start(windows(hunks, line_count, context)))
    }
}

pub open spec fn as_nats(v: Seq<(usize, usize)>) -> Seq<(nat, nat)> {
    v.map_values(|p: (usize, usize)| (p.0 as nat, p.1 as nat))
}

proof fn lemma_count_by_start_bound(s: Seq<(nat, nat)>, x: (nat, nat))
    ensures
        count_by_start(s, x) <= s.len(),
    decreases s.len(),
{
    if s.len() > 0 {
        lemma_count_by_start_bound(s.drop_last(), x);
    }
}

/// The line ranges to print around the hunks of a file of `line_count`
/// lines, with `context` lines of context; each range is `start..end` of
/// line indices.
pub fn get_contextual_line_ranges(hunks: &Vec<Range>, line_count: usize, context: usize) -> (r: Vec<(usize, usize)>)
    ensures
        as_nats(r@) == line_ranges(hunks@, line_count as nat, context as nat),
        forall|i: int| 0 <= i < r@.len() ==> r@[i].1 <= line_count,
{
    if hunks.len() == 0 || line_count == 0 {
        let none: Vec<(usize, usize)> = Vec::new();
        assert(as_nats(none@) =~= Seq::<(nat, nat)>::empty());
        return none;
    }
    let last = line_count - 1;
    let ghost lc = line_count as nat;
    let ghost cx = context as nat;
    // The windows, each inserted by start as it comes.
    let mut sorted: Vec<(usize, usize)> = Vec::new();
    let ghost mut made: Seq<(nat, nat)> = Seq::empty();
    let mut i: usize = 0;
    while i < hunks.len()
        invariant
            i <= hunks.len(),
            last == line_count - 1,
            lc == line_count,
            cx == context,
            made == windows(hunks@.take(i as int), lc, cx),
            as_nats(sorted@) == sort_by_start(made),
            forall|j: int| 0 <= j < sorted@.len() ==> sorted@[j].1 <= line_count,
        decreases hunks.len() - i,
    {
        assert(hunks@.take(i + 1).drop_last() =~= hunks@.take(i as int));
        let h = hunks[i];
        let start = if h.start_point.row >= context {
            h.start_point.row - context
        } else {
            0
        };
        let end = if h.end_point.row > last || context > last - h.end_point.row {
            last
        } else {
            h.end_point.row + context
        };
        if end >= start {
            let w = (start, end + 1);
            let ghost wn = (start as nat, (end + 1) as nat);
            assert(window(h, lc, cx) == Some(wn));
            let mut k: usize = 0;
            let mut count: usize = 0;
            let ghost ns = as_nats(sorted@);
            while k < sorted.len()
                invariant
                    k <= sorted.len(),
                    count <= k,
                    ns == as_nats(sorted@),
                    wn == (start as nat, (end + 1) as nat),
                    count == count_by_start(ns.take(k as int), wn),
                decreases sorted.len() - k,
            {
                assert(ns.take(k + 1).drop_last() =~= ns.take(k as int));
                assert(ns.take(k + 1).last() == ns[k as int]);
                assert(ns[k as int].0 == sorted@[k as int].0 as nat);
                if sorted[k].0 <= start {
                    count = count + 1;
                }
                k = k + 1;
            }
            assert(ns.take(sorted.len() as int) =~= ns);
            proof {
                lemma_count_by_start_bound(ns, wn);
            }
            sorted.insert(count, w);
            assert(as_nats(sorted@) =~= ns.insert(count as int, wn));
            proof {
                made = made.push(wn);
                assert(made.drop_last() =~= windows(hunks@.take(i as int), lc, cx));
            }
        } else {
            assert(window(h, lc, cx) is None);
        }
        i = i + 1;
    }
    assert(hunks@.take(hunks.len() as int) =~= hunks@);
    // Merge, in order.
    let ghost all = as_nats(sorted@);
    let mut merged: Vec<(usize, usize)> = Vec::new();
    let mut j: usize = 0;
    while j < sorted.len()
        invariant
            j <= sorted.len(),
            all == as_nats(sorted@),
            as_nats(merged@) == merge_overlapping(all.take(j as int)),
            forall|m: int| 0 <= m < sorted@.len() ==> sorted@[m].1 <= line_count,
            forall|m: int| 0 <= m < merged@.len() ==> merged@[m].1 <= line_count,
        decreases sorted.len() - j,
    {
        assert(all.take(j + 1).drop_last() =~= all.take(j as int));
        let x = sorted[j];
        let n = merged.len();
        if n > 0 && x.0 <= merged[n - 1].1 {
            let prev = merged[n - 1];
            let end = if x.1 > prev.1 {
                x.1
            } else {
                prev.1
            };
            merged.set(n - 1, (prev.0, end));
            assert(as_nats(merged@) =~= merge_overlapping(all.take(j as int)).drop_last().push(
                (prev.0 as nat, end as nat),
            ));
        } else {
            merged.push(x);
            assert(as_nats(merged@) =~= merge_overlapping(all.take(j as int)).push((x.0 as nat, x.1 as nat)));
        }
        j = j + 1;
    }
    assert(all.take(sorted.len() as int) =~= all);
    merged
}

// ---------------------------------------------------------------------------
// Text output.
// ---------------------------------------------------------------------------

/// The index of the first newline at or after `i`, or the length of `s`.
pub open spec fn newline_at(s: Seq<char>, i: int) -> int
    decreases s.len() - i,
{
    if i < 0 || i >= s.len() || s[i] == '\n' {
        i
    } else {
        newline_at(s, i + 1)
    }
}

/// The lines of `s` from `i` on: each ends before a newline, or before a
/// carriage return that precedes one; the final newline is optional.
pub open spec fn lines_from(s: Seq<char>, i: int) -> Seq<Seq<char>>
    decreases s.len() - i,
{
    if i < 0 || i >= s.len() || newline_at(s, i) < i || newline_at(s, i) > s.len() {
        Seq::empty()
    } else {
        let e = newline_at(s, i);
        let stop = if e < s.len() && e > i && s[e - 1] == '\r' {
            e - 1
        } else {
            e
        };
        let rest = if e < s.len() {
            lines_from(s, e + 1)
        } else {
            Seq::empty()
        };
        seq![s.subrange(i, stop)] + rest
    }
}

/// `d` right-aligned in `width` columns.
pub open spec fn pad_left(d: Seq<char>, width: nat) -> Seq<char> {
    if d.len() < width {
        Seq::new((width - d.len()) as nat, |k: int| ' ') + d
    } else {
        d
    }
}

/// One printed line: its number (counted from 1, right-aligned in five
/// columns, then ` | `) where `numbered` is set, the line, a newline.
pub open spec fn row_text(index: nat, line: Seq<char>, numbered: bool) -> Seq<char> {
    (if numbered {
        pad_left(decimal(index + 1), 5) + seq![' ', '|', ' ']
    } else {
        Seq::empty()
    }) + line + seq!['\n']
}

/// The printed lines `lo..hi` of `lines`.
pub open spec fn rows(lines: Seq<Seq<char>>, lo: nat, hi: nat, numbered: bool) -> Seq<char>
    decreases hi,
{
    if hi <= lo || hi > lines.len() {
        Seq::empty()
    } else {
        rows(lines, lo, (hi - 1) as nat, numbered) + row_text((hi - 1) as nat, lines[hi - 1], numbered)
    }
}

/// The text printed for a whole file.
pub open spec fn plain_text(content: Seq<char>, numbered: bool) -> Seq<char> {
    rows(lines_from(content, 0), 0, lines_from(content, 0).len(), numbered)
}

pub open spec fn fence_open(ext: Seq<char>) -> Seq<char> {
    seq!['`', '`', '`'] + ext + seq!['\n']
}

pub open spec fn fence_close() -> Seq<char> {
    seq!['`', '`', '`', '\n']
}

/// The text printed for a whole file inside a Markdown fence.
pub open spec fn fenced_text(content: Seq<char>, ext: Seq<char>, numbered: bool) -> Seq<char> {
    fence_open(ext) + plain_text(content, numbered) + fence_close()
}

/// The text printed for the line ranges `ranges` of a file: each range in
/// its own fence, `...` between two ranges; lines past the end are skipped.
pub open spec fn hunks_text(content: Seq<char>, ext: Seq<char>, ranges: Seq<(nat, nat)>, numbered: bool) -> Seq<char>
    decreases ranges.len(),
{
    if ranges.len() == 0 {
        Seq::empty()
    } else {
        let lines = lines_from(content, 0);
        let r = ranges.last();
        let hi = if r.1 <= lines.len() {
            r.1
        } else {
            lines.len()
        };
        hunks_text(content, ext, ranges.drop_last(), numbered) + (if ranges.len() > 1 {
            seq!['.', '.', '.', '\n']
        } else {
            Seq::empty()
        }) + fence_open(ext) + rows(lines, r.0, hi, numbered) + fence_close()
    }
}

/// The bounds of the lines of `s`.
fn line_bounds(s: &Vec<char>) -> (r: Vec<(usize, usize)>)
    ensures
        r@.len() == lines_from(s@, 0).len(),
        forall|k: int|
            0 <= k < r@.len() ==> (#[trigger] r@[k]).0 <= r@[k].1 <= s@.len() && lines_from(s@, 0)[k]
                == s@.subrange(r@[k].0 as int, r@[k].1 as int),
{
    let mut out: Vec<(usize, usize)> = Vec::new();
    let ghost mut got: Seq<Seq<char>> = Seq::empty();
    let mut i: usize = 0;
    while i < s.len()
        invariant
            i <= s@.len(),
            lines_from(s@, 0) == got + lines_from(s@, i as int),
            got.len() == out@.len(),
            forall|k: int|
                0 <= k < out@.len() ==> (#[trigger] out@[k]).0 <= out@[k].1 <= s@.len() && got[k] == s@.subrange(
                    out@[k].0 as int,
                    out@[k].1 as int,
                ),
        decreases s@.len() - i,
    {
        let mut e = i;
        while e < s.len() && s[e] != '\n'
            invariant
                i <= e <= s@.len(),
                newline_at(s@, i as int) == newline_at(s@, e as int),
            decreases s@.len() - e,
        {
            e = e + 1;
        }
        let stop = if e < s.len() && e > i && s[e - 1] == '\r' {
            e - 1
        } else {
            e
        };
        let ghost line = s@.subrange(i as int, stop as int);
        let ghost rest = if e < s.len() {
            lines_from(s@, e + 1)
        } else {
            Seq::empty()
        };
        assert(lines_from(s@, i as int) == seq![line] + rest);
        out.push((i, stop));
        assert(out@[out@.len() - 1] == (i, stop));
        proof {
            assert(got + (seq![line] + rest) =~= got.push(line) + rest);
            got = got.push(line);
        }
        if e < s.len() {
            i = e + 1;
        } else {
            i = s.len();
        }
    }
    assert(got + Seq::<Seq<char>>::empty() =~= got);
    out
}

fn push_range(out: &mut String, s: &Vec<char>, lo: usize, hi: usize)
    requires
        lo <= hi <= s.len(),
    ensures
        final(out)@ == old(out)@ + s@.subrange(lo as int, hi as int),
{
    let mut j = lo;
    while j < hi
        invariant
            lo <= j <= hi <= s.len(),
            out@ == old(out)@ + s@.subrange(lo as int, j as int),
        decreases hi - j,
    {
        push_char(out, s[j]);
        assert(old(out)@ + s@.subrange(lo as int, j + 1) =~= old(out)@ + s@.subrange(lo as int, j as int) + seq![s@[j as int]]);
        j = j + 1;
    }
}

fn push_rows(out: &mut String, s: &Vec<char>, bounds: &Vec<(usize, usize)>, lo: usize, hi: usize, numbered: bool)
    requires
        lo <= hi <= bounds.len(),
        bounds@.len() == lines_from(s@, 0).len(),
        forall|k: int|
            0 <= k < bounds@.len() ==> (#[trigger] bounds@[k]).0 <= bounds@[k].1 <= s@.len() && lines_from(s@, 0)[k]
                == s@.subrange(bounds@[k].0 as int, bounds@[k].1 as int),
    ensures
        final(out)@ == old(out)@ + rows(lines_from(s@, 0), lo as nat, hi as nat, numbered),
{
    let ghost lines = lines_from(s@, 0);
    let mut k = lo;
    while k < hi
        invariant
            lo <= k <= hi <= bounds.len(),
            lines == lines_from(s@, 0),
            bounds@.len() == lines.len(),
            forall|m: int|
                0 <= m < bounds@.len() ==> (#[trigger] bounds@[m]).0 <= bounds@[m].1 <= s@.len() && lines[m] == s@.subrange(
                    bounds@[m].0 as int,
                    bounds@[m].1 as int,
                ),
            out@ == old(out)@ + rows(lines, lo as nat, k as nat, numbered),
        decreases hi - k,
    {
        let ghost before = out@;
        if numbered {
            let mut digits = String::new();
            push_decimal(&mut digits, (k + 1) as u64);
            let mut pad: usize = 0;
            let width = digits.as_str().unicode_len();
            while pad + width < 5
                invariant
                    pad + width <= 5 || pad == 0,
                    width == decimal((k + 1) as nat).len(),
                    out@ == before + Seq::new(pad as nat, |q: int| ' '),
                decreases 5 - pad,
            {
                push_char(out, ' ');
                assert(before + Seq::new((pad + 1) as nat, |q: int| ' ') =~= before + Seq::new(pad as nat, |q: int| ' ') + seq![' ']);
                pad = pad + 1;
            }
            assert(Seq::new(pad as nat, |q: int| ' ') + decimal((k + 1) as nat) =~= pad_left(decimal((k + 1) as nat), 5));
            out.append(digits.as_str());
            out.append(" | ");
            proof {
                reveal_strlit(" | ");
            }
        }
        let (a, b) = bounds[k];
        assert(bounds@[k as int] == (a, b));
        push_range(out, s, a, b);
        push_char(out, '\n');
        assert(out@ =~= before + row_text(k as nat, lines[k as int], numbered));
        k = k + 1;
    }
}

/// The text of a whole file, line by line, with line numbers where
/// `numbered` is set.
pub fn render_plain_content(content: &str, numbered: bool) -> (r: String)
    ensures
        r@ == plain_text(content@, numbered),
{
    let s = chars_of(content);
    let bounds = line_bounds(&s);
    let mut out = String::new();
    push_rows(&mut out, &s, &bounds, 0, bounds.len(), numbered);
    assert(out@ =~= plain_text(content@, numbered));
    out
}

/// The text of a whole file inside a Markdown fence labelled `ext`.
pub fn render_fenced_content(content: &str, ext: &str, numbered: bool) -> (r: String)
    ensures
        r@ == fenced_text(content@, ext@, numbered),
{
    let mut out = String::from_str("```");
    out.append(ext);
    out.append("\n");
    let body = render_plain_content(content, numbered);
    out.append(body.as_str());
    out.append("```\n");
    proof {
        reveal_strlit("```");
        reveal_strlit("\n");
        reveal_strlit("```\n");
    }
    assert(out@ =~= fenced_text(content@, ext@, numbered));
    out
}

/// The text of the line ranges `ranges` of a file, each in a Markdown fence
/// labelled `ext`, with `...` between two ranges.
pub fn render_hunks(content: &str, ext: &str, ranges: &Vec<(usize, usize)>, numbered: bool) -> (r: String)
    ensures
        r@ == hunks_text(content@, ext@, as_nats(ranges@), numbered),
{
    let s = chars_of(content);
    let bounds = line_bounds(&s);
    let ghost all = as_nats(ranges@);
    let mut out = String::new();
    let mut i: usize = 0;
    proof {
        reveal_strlit("```");
        reveal_strlit("\n");
        reveal_strlit("```\n");
        reveal_strlit("...\n");
    }
    while i < ranges.len()
        invariant
            i <= ranges.len(),
            all == as_nats(ranges@),
            s@ == content@,
            bounds@.len() == lines_from(s@, 0).len(),
            forall|k: int|
                0 <= k < bounds@.len() ==> (#[trigger] bounds@[k]).0 <= bounds@[k].1 <= s@.len() && lines_from(s@, 0)[k]
                    == s@.subrange(bounds@[k].0 as int, bounds@[k].1 as int),
            out@ == hunks_text(content@, ext@, all.take(i as int), numbered),
        decreases ranges.len() - i,
    {
        let ghost before = out@;
        proof {
            reveal_strlit("```");
            reveal_strlit("\n");
            reveal_strlit("```\n");
            reveal_strlit("...\n");
        }
        assert(all.take(i + 1).drop_last() =~= all.take(i as int));
        assert(all.take(i + 1).last() == all[i as int]);
        assert(all[i as int] == (ranges@[i as int].0 as nat, ranges@[i as int].1 as nat));
        let ghost sep: Seq<char> = if i > 0 {
            seq!['.', '.', '.', '\n']
        } else {
            Seq::empty()
        };
        if i > 0 {
            out.append("...\n");
        }
        assert(out@ =~= before + sep);
        out.append("```");
        out.append(ext);
        out.append("\n");
        assert(out@ =~= before + sep + fence_open(ext@));
        let ghost opened = out@;
        let (lo, hi0) = ranges[i];
        let hi = if hi0 <= bounds.len() {
            hi0
        } else {
            bounds.len()
        };
        if lo <= hi {
            push_rows(&mut out, &s, &bounds, lo, hi, numbered);
        } else {
            assert(rows(lines_from(s@, 0), lo as nat, hi as nat, numbered) =~= Seq::<char>::empty());
            assert(out@ =~= opened + rows(lines_from(s@, 0), lo as nat, hi as nat, numbered));
        }
        let ghost body = out@;
        out.append("```\n");
        assert(out@ =~= body + fence_close());
        assert(out@ =~= hunks_text(content@, ext@, all.take(i + 1), numbered));
        i = i + 1;
    }
    assert(all.take(ranges.len() as int) =~= all);
    out
}


/// The heading printed above a file's text: its path, then a rule.
pub open spec fn header_text(path: Seq<char>) -> Seq<char> {
    seq!['F', 'i', 'l', 'e', ':', ' '] + path + seq!['\n', '-', '-', '-', '\n']
}

/// The heading printed above a file's text.
pub fn file_header(path: &str) -> (r: String)
    ensures
        r@ == header_text(path@),
{
    let mut out = String::from_str("File: ");
    out.append(path);
    out.append("\n---\n");
    proof {
        reveal_strlit("File: ");
        reveal_strlit("\n---\n");
    }
    assert(out@ =~= header_text(path@));
    out
}

} // verus!
