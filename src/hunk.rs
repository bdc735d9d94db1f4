use vstd::prelude::*;

use crate::query::LogicalOperator;

verus! {

/// A zero-based position in a text, as a row and a byte column.
#[derive(Debug, Clone, Copy, PartialEq, Eq, Structural)]
pub struct Point {
    pub row: usize,
    pub column: usize,
}

/// A contiguous region of a file, by byte offsets and by rows and columns.
#[derive(Debug, Clone, Copy, PartialEq, Eq, Structural)]
pub struct Range {
    pub start_byte: usize,
    pub end_byte: usize,
    pub start_point: Point,
    pub end_point: Point,
}

/// What evaluating a query against one file produced.
#[derive(Debug, Clone)]
pub enum MatchResult {
    /// A verdict on the whole file.
    Boolean(bool),
    /// The regions of the file that were responsible for a match.
    Hunks(Vec<Range>),
}

/// The mathematical value of a `MatchResult`.
pub enum Outcome {
    Boolean(bool),
    Hunks(Seq<Range>),
}

impl Outcome {
    /// A verdict matches when it is `true`; a list of hunks when it is not empty.
    pub open spec fn matched(self) -> bool {
        match self {
            Outcome::Boolean(b) => b,
            Outcome::Hunks(h) => h.len() > 0,
        }
    }
}

impl View for MatchResult {
    type V = Outcome;

    open spec fn view(&self) -> Outcome {
        match self {
            MatchResult::Boolean(b) => Outcome::Boolean(*b),
            MatchResult::Hunks(h) => Outcome::Hunks(h@),
        }
    }
}

/// Two ranges overlap when their byte intervals intersect.
pub open spec fn overlaps(a: Range, b: Range) -> bool {
    a.start_byte < b.end_byte && b.start_byte < a.end_byte
}

/// `a` overlaps at least one range of `s`.
pub open spec fn overlaps_some(a: Range, s: Seq<Range>) -> bool {
    exists|j: int| 0 <= j < s.len() && overlaps(a, #[trigger] s[j])
}

/// The ranges of `a`, in order, that overlap some range of `b`.
pub open spec fn keep_overlapping(a: Seq<Range>, b: Seq<Range>) -> Seq<Range>
    decreases a.len(),
{
    if a.len() == 0 {
        a
    } else {
        let rest = keep_overlapping(a.drop_last(), b);
        if overlaps_some(a.last(), b) {
            rest.push(a.last())
        } else {
            rest
        }
    }
}

/// How many ranges of `s` start at or before `x` does.
pub open spec fn count_starting_by(s: Seq<Range>, x: Range) -> nat
    decreases s.len(),
{
    if s.len() == 0 {
        0
    } else {
        count_starting_by(s.drop_last(), x) + if s.last().start_byte <= x.start_byte {
            1nat
        } else {
            0nat
        }
    }
}

/// Adds `x` to a list sorted by start byte, after every range that starts no
/// later than it; a range already present is not added twice.
pub open spec fn insert_hunk(s: Seq<Range>, x: Range) -> Seq<Range> {
    if s.contains(x) {
        s
    } else {
        s.insert(count_starting_by(s, x) as int, x)
    }
}

/// Adds each range of `items`, in order, to `acc`.
pub open spec fn insert_all(acc: Seq<Range>, items: Seq<Range>) -> Seq<Range>
    decreases items.len(),
{
    if items.len() == 0 {
        acc
    } else {
        insert_hunk(insert_all(acc, items.drop_last()), items.last())
    }
}

/// The union of two hunk lists: sorted by start byte, without duplicates.
pub open spec fn union_hunks(a: Seq<Range>, b: Seq<Range>) -> Seq<Range> {
    insert_all(Seq::empty(), a + b)
}

/// How two matching outcomes are combined under an operator.
pub open spec fn combine(x: Outcome, y: Outcome, op: LogicalOperator) -> Outcome {
    match (x, y) {
        (Outcome::Hunks(a), Outcome::Hunks(b)) => match op {
            LogicalOperator::And => Outcome::Hunks(keep_overlapping(a, b)),
            LogicalOperator::Or => Outcome::Hunks(union_hunks(a, b)),
        },
        (Outcome::Hunks(a), Outcome::Boolean(_)) => Outcome::Hunks(a),
        (Outcome::Boolean(_), Outcome::Hunks(b)) => Outcome::Hunks(b),
        (Outcome::Boolean(a), Outcome::Boolean(b)) => match op {
            LogicalOperator::And => Outcome::Boolean(a && b),
            LogicalOperator::Or => Outcome::Boolean(a || b),
        },
    }
}

/// Whether the byte intervals of two ranges intersect.
pub fn hunks_overlap(a: &Range, b: &Range) -> (r: bool)
    ensures
        r == overlaps(*a, *b),
{
    a.start_byte < b.end_byte && b.start_byte < a.end_byte
}

fn overlaps_any(a: &Range, b: &Vec<Range>) -> (r: bool)
    ensures
        r == overlaps_some(*a, b@),
{
    let mut j: usize = 0;
    while j < b.len()
        invariant
            j <= b.len(),
            forall|k: int| 0 <= k < j ==> !overlaps(*a, #[trigger] b@[k]),
        decreases b.len() - j,
    {
        if hunks_overlap(a, &b[j]) {
            return true;
        }
        j = j + 1;
    }
    false
}

fn intersect_hunks(a: &Vec<Range>, b: &Vec<Range>) -> (r: Vec<Range>)
    ensures
        r@ == keep_overlapping(a@, b@),
{
    let mut r: Vec<Range> = Vec::new();
    let mut i: usize = 0;
    while i < a.len()
        invariant
            i <= a.len(),
            r@ == keep_overlapping(a@.take(i as int), b@),
        decreases a.len() - i,
    {
        assert(a@.take(i as int + 1).drop_last() =~= a@.take(i as int));
        if overlaps_any(&a[i], b) {
            r.push(a[i]);
        }
        i = i + 1;
    }
    assert(a@.take(a.len() as int) =~= a@);
    r
}

fn insert_one(s: &mut Vec<Range>, x: Range)
    ensures
        final(s)@ == insert_hunk(old(s)@, x),
{
    let mut i: usize = 0;
    let mut present = false;
    let mut count: usize = 0;
    while i < s.len()
        invariant
            i <= s.len(),
            count <= i,
            count == count_starting_by(s@.take(i as int), x),
            present == s@.take(i as int).contains(x),
        decreases s.len() - i,
    {
        let ghost prev = s@.take(i as int);
        assert(s@.take(i as int + 1).drop_last() =~= prev);
        assert(s@.take(i as int + 1) =~= prev.push(s@[i as int]));
        assert(prev.push(s@[i as int]).contains(x) <==> (prev.contains(x) || s@[i as int] == x)) by {
            if prev.push(s@[i as int]).contains(x) && s@[i as int] != x {
                let w = choose|w: int| 0 <= w < prev.len() + 1 && prev.push(s@[i as int])[w] == x;
                assert(prev[w] == x);
            }
            if prev.contains(x) {
                let w = choose|w: int| 0 <= w < prev.len() && prev[w] == x;
                assert(prev.push(s@[i as int])[w] == x);
            }
            if s@[i as int] == x {
                assert(prev.push(s@[i as int])[prev.len() as int] == x);
            }
        }
        if s[i] == x {
            present = true;
        }
        if s[i].start_byte <= x.start_byte {
            count = count + 1;
        }
        i = i + 1;
    }
    assert(s@.take(s.len() as int) =~= s@);
    if !present {
        s.insert(count, x);
    }
}

fn union_of(a: &Vec<Range>, b: &Vec<Range>) -> (r: Vec<Range>)
    ensures
        r@ == union_hunks(a@, b@),
{
    let mut r: Vec<Range> = Vec::new();
    let ghost all = a@ + b@;
    let mut i: usize = 0;
    while i < a.len()
        invariant
            i <= a.len(),
            all == a@ + b@,
            r@ == insert_all(Seq::empty(), all.take(i as int)),
        decreases a.len() - i,
    {
        assert(all.take(i as int + 1).drop_last() =~= all.take(i as int));
        insert_one(&mut r, a[i]);
        i = i + 1;
    }
    let mut j: usize = 0;
    while j < b.len()
        invariant
            j <= b.len(),
            all == a@ + b@,
            r@ == insert_all(Seq::empty(), all.take(a.len() + j)),
        decreases b.len() - j,
    {
        assert(all.take(a.len() + j + 1).drop_last() =~= all.take(a.len() + j));
        insert_one(&mut r, b[j]);
        j = j + 1;
    }
    assert(all.take(a.len() + b.len()) =~= all);
    r
}

impl MatchResult {
    /// A verdict matches when it is `true`; a list of hunks when it is not empty.
    pub fn is_match(&self) -> (r: bool)
        ensures
            r == self@.matched(),
    {
        match self {
            MatchResult::Boolean(b) => *b,
            MatchResult::Hunks(h) => h.len() > 0,
        }
    }

    /// Combines two results under `op`: hunks are intersected by overlap under
    /// AND and united without duplicates under OR; a list of hunks beside a
    /// verdict passes through; two verdicts combine logically.
    pub fn combine_with(self, other: MatchResult, op: &LogicalOperator) -> (r: MatchResult)
        ensures
            r@ == combine(self@, other@, *op),
    {
        match (self, other) {
            (MatchResult::Hunks(a), MatchResult::Hunks(b)) => match op {
                LogicalOperator::And => MatchResult::Hunks(intersect_hunks(&a, &b)),
                LogicalOperator::Or => MatchResult::Hunks(union_of(&a, &b)),
            },
            (MatchResult::Hunks(a), MatchResult::Boolean(_)) => MatchResult::Hunks(a),
            (MatchResult::Boolean(_), MatchResult::Hunks(b)) => MatchResult::Hunks(b),
            (MatchResult::Boolean(a), MatchResult::Boolean(b)) => match op {
                LogicalOperator::And => MatchResult::Boolean(a && b),
                LogicalOperator::Or => MatchResult::Boolean(a || b),
            },
        }
    }
}


proof fn lemma_keep_overlapping(a: Seq<Range>, b: Seq<Range>)
    ensures
        forall|x: Range| #[trigger] keep_overlapping(a, b).contains(x) <==> (a.contains(x) && overlaps_some(x, b)),
    decreases a.len(),
{
    if a.len() > 0 {
        lemma_keep_overlapping(a.drop_last(), b);
        let rest = keep_overlapping(a.drop_last(), b);
        assert forall|x: Range| #[trigger] keep_overlapping(a, b).contains(x) <==> (a.contains(x) && overlaps_some(x, b)) by {
            assert(a =~= a.drop_last().push(a.last()));
            if a.contains(x) && x != a.last() {
                let w = choose|w: int| 0 <= w < a.len() && a[w] == x;
                assert(a.drop_last()[w] == x);
            }
            if a.drop_last().contains(x) {
                let w = choose|w: int| 0 <= w < a.drop_last().len() && a.drop_last()[w] == x;
                assert(a[w] == x);
            }
            if overlaps_some(a.last(), b) {
                assert(rest.push(a.last())[rest.len() as int] == a.last());
                if rest.push(a.last()).contains(x) && x != a.last() {
                    let w = choose|w: int| 0 <= w < rest.len() + 1 && rest.push(a.last())[w] == x;
                    assert(rest[w] == x);
                }
                if rest.contains(x) {
                    let w = choose|w: int| 0 <= w < rest.len() && rest[w] == x;
                    assert(rest.push(a.last())[w] == x);
                }
            }
            assert(a[a.len() - 1] == a.last());
        }
    }
}

/// Under AND, two lists of hunks give the hunks of the left list that overlap
/// some hunk of the right one, in their order; lists with no overlapping pair
/// give no hunk, which is no match.
pub proof fn law_and_keeps_overlapping(a: Seq<Range>, b: Seq<Range>)
    ensures
        combine(Outcome::Hunks(a), Outcome::Hunks(b), LogicalOperator::And) == Outcome::Hunks(
            keep_overlapping(a, b),
        ),
        forall|x: Range| #[trigger] keep_overlapping(a, b).contains(x) <==> (a.contains(x) && overlaps_some(x, b)),
        (forall|i: int, j: int| 0 <= i < a.len() && 0 <= j < b.len() ==> !overlaps(#[trigger] a[i], #[trigger] b[j]))
            ==> keep_overlapping(a, b).len() == 0,
{
    lemma_keep_overlapping(a, b);
    if forall|i: int, j: int| 0 <= i < a.len() && 0 <= j < b.len() ==> !overlaps(#[trigger] a[i], #[trigger] b[j]) {
        if keep_overlapping(a, b).len() > 0 {
            let x = keep_overlapping(a, b)[0];
            assert(keep_overlapping(a, b).contains(x));
            let i = choose|i: int| 0 <= i < a.len() && a[i] == x;
            let j = choose|j: int| 0 <= j < b.len() && overlaps(x, b[j]);
            assert(!overlaps(a[i], b[j]));
        }
    }
}

/// No range stands twice in `s`.
pub open spec fn no_duplicates(s: Seq<Range>) -> bool {
    forall|i: int, j: int| 0 <= i < j < s.len() ==> s[i] != s[j]
}

proof fn lemma_count_bound(s: Seq<Range>, x: Range)
    ensures
        count_starting_by(s, x) <= s.len(),
    decreases s.len(),
{
    if s.len() > 0 {
        lemma_count_bound(s.drop_last(), x);
    }
}

proof fn lemma_insert_all(acc: Seq<Range>, items: Seq<Range>)
    requires
        no_duplicates(acc),
    ensures
        no_duplicates(insert_all(acc, items)),
        forall|y: Range| #[trigger] insert_all(acc, items).contains(y) <==> (acc.contains(y) || items.contains(y)),
    decreases items.len(),
{
    if items.len() > 0 {
        let s = insert_all(acc, items.drop_last());
        let x = items.last();
        lemma_insert_all(acc, items.drop_last());
        assert(items =~= items.drop_last().push(x));
        if !s.contains(x) {
            lemma_count_bound(s, x);
            let k = count_starting_by(s, x) as int;
            let t = s.insert(k, x);
            assert forall|y: Range| #[trigger] t.contains(y) <==> (s.contains(y) || y == x) by {
                if t.contains(y) {
                    let w = choose|w: int| 0 <= w < t.len() && t[w] == y;
                    if w < k {
                        assert(s[w] == y);
                    } else if w > k {
                        assert(s[w - 1] == y);
                    }
                }
                if s.contains(y) {
                    let w = choose|w: int| 0 <= w < s.len() && s[w] == y;
                    if w < k {
                        assert(t[w] == y);
                    } else {
                        assert(t[w + 1] == y);
                    }
                }
                if y == x {
                    assert(t[k] == y);
                }
            }
            assert forall|i: int, j: int| 0 <= i < j < t.len() implies t[i] != t[j] by {
                if i != k && j != k {
                    let si = if i < k { i } else { i - 1 };
                    let sj = if j < k { j } else { j - 1 };
                    assert(t[i] == s[si]);
                    assert(t[j] == s[sj]);
                } else if i == k {
                    let sj = j - 1;
                    assert(t[j] == s[sj]);
                } else {
                    assert(t[i] == s[i]);
                }
            }
        }
        assert forall|y: Range| #[trigger] insert_all(acc, items).contains(y) <==> (acc.contains(y) || items.contains(y)) by {
            if items.contains(y) && y != x {
                let w = choose|w: int| 0 <= w < items.len() && items[w] == y;
                assert(items.drop_last()[w] == y);
            }
            if items.drop_last().contains(y) {
                let w = choose|w: int| 0 <= w < items.drop_last().len() && items.drop_last()[w] == y;
                assert(items[w] == y);
            }
            assert(items[items.len() - 1] == x);
        }
    }
}

/// The ranges of `s` are in order of their start bytes.
pub open spec fn sorted_by_start(s: Seq<Range>) -> bool {
    forall|i: int, j: int| 0 <= i < j < s.len() ==> s[i].start_byte <= s[j].start_byte
}

proof fn lemma_count_sorted(s: Seq<Range>, x: Range)
    requires
        sorted_by_start(s),
    ensures
        count_starting_by(s, x) <= s.len(),
        forall|i: int| 0 <= i < count_starting_by(s, x) ==> s[i].start_byte <= x.start_byte,
        forall|i: int| count_starting_by(s, x) <= i < s.len() ==> s[i].start_byte > x.start_byte,
    decreases s.len(),
{
    if s.len() > 0 {
        let p = s.drop_last();
        lemma_count_sorted(p, x);
        let c = count_starting_by(p, x) as int;
        let n = s.len() - 1;
        assert forall|i: int| 0 <= i < n implies #[trigger] s[i] == p[i] by {}
        if s.last().start_byte <= x.start_byte {
            assert(c == n) by {
                if c < n {
                    assert(p[n - 1].start_byte > x.start_byte);
                    assert(s[n - 1].start_byte <= s[n].start_byte);
                }
            }
            assert forall|i: int| 0 <= i < count_starting_by(s, x) implies s[i].start_byte <= x.start_byte by {
                if i < n {
                    assert(s[i] == p[i]);
                }
            }
        } else {
            assert forall|i: int| 0 <= i < count_starting_by(s, x) implies s[i].start_byte <= x.start_byte by {
                assert(s[i] == p[i]);
            }
            assert forall|i: int| count_starting_by(s, x) <= i < s.len() implies s[i].start_byte > x.start_byte by {
                if i < n {
                    assert(s[i] == p[i]);
                }
            }
        }
    }
}

proof fn lemma_insert_all_sorted(acc: Seq<Range>, items: Seq<Range>)
    requires
        sorted_by_start(acc),
    ensures
        sorted_by_start(insert_all(acc, items)),
    decreases items.len(),
{
    if items.len() > 0 {
        let s = insert_all(acc, items.drop_last());
        let x = items.last();
        lemma_insert_all_sorted(acc, items.drop_last());
        if !s.contains(x) {
            lemma_count_sorted(s, x);
            let k = count_starting_by(s, x) as int;
            let t = s.insert(k, x);
            assert forall|i: int, j: int| 0 <= i < j < t.len() implies t[i].start_byte <= t[j].start_byte by {
                let si = if i < k { i } else { i - 1 };
                let sj = if j < k { j } else { j - 1 };
                if i == k {
                    assert(t[j] == s[sj]);
                } else if j == k {
                    assert(t[i] == s[si]);
                } else {
                    assert(t[i] == s[si]);
                    assert(t[j] == s[sj]);
                }
            }
        }
    }
}

/// Under OR, two lists of hunks give each hunk of either list exactly once,
/// in order of their start bytes; in particular two equal hunks give one.
pub proof fn law_or_unites_without_duplicates(a: Seq<Range>, b: Seq<Range>)
    ensures
        combine(Outcome::Hunks(a), Outcome::Hunks(b), LogicalOperator::Or) == Outcome::Hunks(union_hunks(a, b)),
        no_duplicates(union_hunks(a, b)),
        sorted_by_start(union_hunks(a, b)),
        forall|y: Range| #[trigger] union_hunks(a, b).contains(y) <==> (a.contains(y) || b.contains(y)),
{
    lemma_insert_all(Seq::empty(), a + b);
    lemma_insert_all_sorted(Seq::empty(), a + b);
    assert forall|y: Range| #[trigger] union_hunks(a, b).contains(y) <==> (a.contains(y) || b.contains(y)) by {
        if (a + b).contains(y) {
            let w = choose|w: int| 0 <= w < (a + b).len() && (a + b)[w] == y;
            if w < a.len() {
                assert(a[w] == y);
            } else {
                assert(b[w - a.len()] == y);
            }
        }
        if a.contains(y) {
            let w = choose|w: int| 0 <= w < a.len() && a[w] == y;
            assert((a + b)[w] == y);
        }
        if b.contains(y) {
            let w = choose|w: int| 0 <= w < b.len() && b[w] == y;
            assert((a + b)[a.len() + w] == y);
        }
    }
}

} // verus!
