use vstd::prelude::*;

use crate::hunk::{combine, MatchResult, Outcome, Range};
use crate::predicates::{allowed, directory_view, evaluate_key, FileView, PredicateError};
use crate::query::{reads_text_key, AstNode, Expr, Key, LogicalOperator, PredicateKey};

verus! {

/// A remembered predicate outcome: the key, the value and what it gave.
pub struct MemoEntry {
    pub key: PredicateKey,
    pub value: String,
    pub result: Result<MatchResult, PredicateError>,
}

/// The mathematical value of a predicate result.
pub open spec fn result_view(r: Result<MatchResult, PredicateError>) -> Result<Outcome, PredicateError> {
    match r {
        Ok(m) => Ok(m@),
        Err(e) => Err(e),
    }
}

/// A remembered outcome, as a triple of key, value and result.
pub type Remembered = (Key, Seq<char>, Result<Outcome, PredicateError>);

pub open spec fn entry_view(e: MemoEntry) -> Remembered {
    (e.key@, e.value@, result_view(e.result))
}

/// Remembered outcomes as triples.
pub open spec fn memo_view(m: Seq<MemoEntry>) -> Seq<Remembered> {
    m.map_values(|e: MemoEntry| entry_view(e))
}

/// The first remembered outcome for `(k, v)`.
pub open spec fn find(memo: Seq<Remembered>, k: Key, v: Seq<char>) -> Option<Result<Outcome, PredicateError>>
    decreases memo.len(),
{
    if memo.len() == 0 {
        None
    } else if memo[0].0 == k && memo[0].1 == v {
        Some(memo[0].2)
    } else {
        find(memo.drop_first(), k, v)
    }
}

/// Holds the context for a single file being evaluated: its path, the search
/// root, what the caller read of it, and the outcomes of the predicates
/// evaluated on it so far.
pub struct FileContext {
    pub(crate) path: String,
    pub(crate) root: String,
    pub(crate) content: Option<String>,
    pub(crate) size: Option<u64>,
    pub(crate) modified: Option<u64>,
    pub(crate) now: u64,
    pub(crate) canonical: Option<String>,
    pub(crate) directories: Vec<(String, Option<String>)>,
    pub(crate) memo: Vec<MemoEntry>,
}

impl FileContext {
    /// What the predicates may read of the file.
    pub open(crate) spec fn file(&self) -> FileView {
        FileView {
            path: self.path@,
            root: self.root@,
            content: match self.content {
                Some(c) => Some(c@),
                None => None,
            },
            size: self.size,
            modified: self.modified,
            now: self.now,
            canonical: match self.canonical {
                Some(c) => Some(c@),
                None => None,
            },
            directories: directory_view(self.directories@),
        }
    }

    /// The remembered outcomes, oldest first.
    pub open(crate) spec fn remembered(&self) -> Seq<Remembered> {
        memo_view(self.memo@)
    }

    /// Every remembered outcome is one that its predicate may give on this file.
    pub open spec fn wf(&self) -> bool {
        forall|i: int|
            0 <= i < self.remembered().len() ==> allowed(
                self.file(),
                #[trigger] self.remembered()[i].0,
                self.remembered()[i].1,
                self.remembered()[i].2,
            )
    }

    /// A context for `path` under the search root `root`, with nothing read yet.
    pub fn new(path: String, root: String) -> (r: FileContext)
        ensures
            r.file() == (FileView {
                path: path@,
                root: root@,
                content: None,
                size: None,
                modified: None,
                now: 0,
                canonical: None,
                directories: Seq::empty(),
            }),
            r.remembered().len() == 0,
            r.wf(),
    {
        let r = FileContext {
            path,
            root,
            content: None,
            size: None,
            modified: None,
            now: 0,
            canonical: None,
            directories: Vec::new(),
            memo: Vec::new(),
        };
        assert(r.file().directories =~= Seq::empty());
        r
    }

    /// Records the file's text. Outcomes remembered so far are kept for the
    /// predicates that do not read the text, and dropped for the others.
    pub fn set_content(&mut self, content: String)
        requires
            old(self).wf(),
        ensures
            final(self).file() == (FileView { content: Some(content@), ..old(self).file() }),
            forall|k: Key, v: Seq<char>| #[trigger] find(final(self).remembered(), k, v) == if reads_text_key(k) {
                None
            } else {
                find(old(self).remembered(), k, v)
            },
            final(self).wf(),
    {
        let ghost before = self.file();
        let ghost m = self.remembered();
        self.content = Some(content);
        let mut kept: Vec<MemoEntry> = Vec::new();
        let mut i: usize = 0;
        while i < self.memo.len()
            invariant
                i <= self.memo.len(),
                m == self.remembered(),
                forall|j: int| 0 <= j < m.len() ==> allowed(before, #[trigger] m[j].0, m[j].1, m[j].2),
                self.file() == (FileView { content: self.file().content, ..before }),
                forall|j: int| 0 <= j < kept@.len() ==> allowed(self.file(), #[trigger] entry_view(kept@[j]).0, entry_view(kept@[j]).1, entry_view(kept@[j]).2),
                forall|k: Key, v: Seq<char>| #[trigger] find(memo_view(kept@), k, v) == if reads_text_key(k) {
                    None
                } else {
                    find(m.take(i as int), k, v)
                },
            decreases self.memo.len() - i,
        {
            let ghost kv = memo_view(kept@);
            let ghost x = m[i as int];
            assert(m.take(i + 1) =~= m.take(i as int).push(x));
            proof {
                assert forall|k: Key, v: Seq<char>| #[trigger] find(m.take(i + 1), k, v) == if find(m.take(i as int), k, v) is Some {
                    find(m.take(i as int), k, v)
                } else if x.0 == k && x.1 == v {
                    Some(x.2)
                } else {
                    None
                } by {
                    lemma_find_push(m.take(i as int), x, k, v);
                }
            }
            assert(x == entry_view(self.memo@[i as int]));
            if !text_key(&self.memo[i].key) {
                let entry = MemoEntry {
                    key: copy_key(&self.memo[i].key),
                    value: self.memo[i].value.clone(),
                    result: copy_result(&self.memo[i].result),
                };
                kept.push(entry);
                assert(memo_view(kept@) =~= kv.push(x));
                proof {
                    assert forall|k: Key, v: Seq<char>| #[trigger] find(kv.push(x), k, v) == if find(kv, k, v) is Some {
                        find(kv, k, v)
                    } else if x.0 == k && x.1 == v {
                        Some(x.2)
                    } else {
                        None
                    } by {
                        lemma_find_push(kv, x, k, v);
                    }
                }
            }
            i = i + 1;
        }
        assert(m.take(m.len() as int) =~= m);
        self.memo = kept;
        assert forall|j: int| 0 <= j < self.remembered().len() implies allowed(
            self.file(),
            #[trigger] self.remembered()[j].0,
            self.remembered()[j].1,
            self.remembered()[j].2,
        ) by {
            assert(self.remembered()[j] == entry_view(kept@[j]));
        }
    }

    /// Records the file's size in bytes, its modification time and the time
    /// of the evaluation, both in seconds since the epoch. Outcomes remembered
    /// so far are dropped.
    pub fn set_metadata(&mut self, size: u64, modified: u64, now: u64)
        ensures
            final(self).file() == (FileView {
                size: Some(size),
                modified: Some(modified),
                now: now,
                ..old(self).file()
            }),
            final(self).remembered().len() == 0,
            final(self).wf(),
    {
        self.size = Some(size);
        self.modified = Some(modified);
        self.now = now;
        self.memo = Vec::new();
    }

    /// Records the file's canonical path and, for each directory that an
    /// `in` predicate names, its canonical path where it exists. Outcomes
    /// remembered so far are dropped.
    pub fn set_locations(&mut self, canonical: Option<String>, directories: Vec<(String, Option<String>)>)
        ensures
            final(self).file().canonical == (match canonical {
                Some(c) => Some(c@),
                None => None,
            }),
            final(self).file().directories == directory_view(directories@),
            final(self).file().path == old(self).file().path,
            final(self).file().root == old(self).file().root,
            final(self).file().content == old(self).file().content,
            final(self).file().size == old(self).file().size,
            final(self).file().modified == old(self).file().modified,
            final(self).file().now == old(self).file().now,
            final(self).remembered().len() == 0,
            final(self).wf(),
    {
        self.canonical = canonical;
        self.directories = directories;
        self.memo = Vec::new();
    }
}


// ---------------------------------------------------------------------------
// The registry.
// ---------------------------------------------------------------------------

/// The keys that an evaluation stage can evaluate; any other key passes.
pub struct PredicateRegistry {
    keys: Vec<PredicateKey>,
}

impl View for PredicateRegistry {
    type V = Seq<Key>;

    closed spec fn view(&self) -> Seq<Key> {
        self.keys@.map_values(|k: PredicateKey| k@)
    }
}

/// The keys that the full evaluation stage evaluates.
pub open spec fn full_keys() -> Seq<Key> {
    seq![
        Key::Ext,
        Key::Name,
        Key::Path,
        Key::Contains,
        Key::Matches,
        Key::Size,
        Key::Modified,
        Key::In,
        Key::Def,
        Key::Func,
        Key::Import,
        Key::Class,
        Key::Struct,
        Key::Enum,
        Key::Interface,
        Key::Trait,
        Key::Type,
        Key::Comment,
        Key::Str,
        Key::Call,
    ]
}

/// The keys that the metadata pre-filter evaluates: those that need neither
/// the file's text nor its syntax tree.
pub open spec fn metadata_keys() -> Seq<Key> {
    seq![Key::Ext, Key::Name, Key::Path, Key::Size, Key::Modified, Key::In]
}

/// The registry of the full evaluation stage.
pub fn create_predicate_registry() -> (r: PredicateRegistry)
    ensures
        r@ == full_keys(),
{
    let keys = vec![
        PredicateKey::Ext,
        PredicateKey::Name,
        PredicateKey::Path,
        PredicateKey::Contains,
        PredicateKey::Matches,
        PredicateKey::Size,
        PredicateKey::Modified,
        PredicateKey::In,
        PredicateKey::Def,
        PredicateKey::Func,
        PredicateKey::Import,
        PredicateKey::Class,
        PredicateKey::Struct,
        PredicateKey::Enum,
        PredicateKey::Interface,
        PredicateKey::Trait,
        PredicateKey::Type,
        PredicateKey::Comment,
        PredicateKey::Str,
        PredicateKey::Call,
    ];
    let r = PredicateRegistry { keys };
    assert(r@ =~= full_keys());
    r
}

/// The registry of the metadata pre-filter.
pub fn create_metadata_registry() -> (r: PredicateRegistry)
    ensures
        r@ == metadata_keys(),
{
    let keys = vec![
        PredicateKey::Ext,
        PredicateKey::Name,
        PredicateKey::Path,
        PredicateKey::Size,
        PredicateKey::Modified,
        PredicateKey::In,
    ];
    let r = PredicateRegistry { keys };
    assert(r@ =~= metadata_keys());
    r
}

/// A number for each key of the vocabulary, and one for all other keys.
pub open spec fn key_code(k: Key) -> int {
    match k {
        Key::Ext => 0,
        Key::Name => 1,
        Key::Path => 2,
        Key::Contains => 3,
        Key::Matches => 4,
        Key::Size => 5,
        Key::Modified => 6,
        Key::In => 7,
        Key::Def => 8,
        Key::Func => 9,
        Key::Import => 10,
        Key::Class => 11,
        Key::Struct => 12,
        Key::Enum => 13,
        Key::Interface => 14,
        Key::Trait => 15,
        Key::Type => 16,
        Key::Comment => 17,
        Key::Str => 18,
        Key::Call => 19,
        Key::Other(_) => 20,
    }
}

fn code_of(k: &PredicateKey) -> (r: u8)
    ensures
        r == key_code(k@),
{
    match k {
        PredicateKey::Ext => 0,
        PredicateKey::Name => 1,
        PredicateKey::Path => 2,
        PredicateKey::Contains => 3,
        PredicateKey::Matches => 4,
        PredicateKey::Size => 5,
        PredicateKey::Modified => 6,
        PredicateKey::In => 7,
        PredicateKey::Def => 8,
        PredicateKey::Func => 9,
        PredicateKey::Import => 10,
        PredicateKey::Class => 11,
        PredicateKey::Struct => 12,
        PredicateKey::Enum => 13,
        PredicateKey::Interface => 14,
        PredicateKey::Trait => 15,
        PredicateKey::Type => 16,
        PredicateKey::Comment => 17,
        PredicateKey::Str => 18,
        PredicateKey::Call => 19,
        PredicateKey::Other(_) => 20,
    }
}

/// Whether two keys are the same key.
pub fn same_key(a: &PredicateKey, b: &PredicateKey) -> (r: bool)
    ensures
        r == (a@ == b@),
{
    let ca = code_of(a);
    let cb = code_of(b);
    if ca != cb {
        return false;
    }
    match (a, b) {
        (PredicateKey::Other(x), PredicateKey::Other(y)) => {
            let same = x.eq(y);
            same
        },
        _ => true,
    }
}

fn text_key(k: &PredicateKey) -> (r: bool)
    ensures
        r == reads_text_key(k@),
{
    match k {
        PredicateKey::Contains | PredicateKey::Matches | PredicateKey::Def | PredicateKey::Func
        | PredicateKey::Import | PredicateKey::Class | PredicateKey::Struct | PredicateKey::Enum
        | PredicateKey::Interface | PredicateKey::Trait | PredicateKey::Type | PredicateKey::Comment
        | PredicateKey::Str | PredicateKey::Call => true,
        _ => false,
    }
}

fn copy_key(k: &PredicateKey) -> (r: PredicateKey)
    ensures
        r@ == k@,
{
    match k {
        PredicateKey::Other(s) => PredicateKey::Other(s.clone()),
        PredicateKey::Ext => PredicateKey::Ext,
        PredicateKey::Name => PredicateKey::Name,
        PredicateKey::Path => PredicateKey::Path,
        PredicateKey::Contains => PredicateKey::Contains,
        PredicateKey::Matches => PredicateKey::Matches,
        PredicateKey::Size => PredicateKey::Size,
        PredicateKey::Modified => PredicateKey::Modified,
        PredicateKey::In => PredicateKey::In,
        PredicateKey::Def => PredicateKey::Def,
        PredicateKey::Func => PredicateKey::Func,
        PredicateKey::Import => PredicateKey::Import,
        PredicateKey::Class => PredicateKey::Class,
        PredicateKey::Struct => PredicateKey::Struct,
        PredicateKey::Enum => PredicateKey::Enum,
        PredicateKey::Interface => PredicateKey::Interface,
        PredicateKey::Trait => PredicateKey::Trait,
        PredicateKey::Type => PredicateKey::Type,
        PredicateKey::Comment => PredicateKey::Comment,
        PredicateKey::Str => PredicateKey::Str,
        PredicateKey::Call => PredicateKey::Call,
    }
}

fn copy_result(r: &Result<MatchResult, PredicateError>) -> (c: Result<MatchResult, PredicateError>)
    ensures
        result_view(c) == result_view(*r),
{
    match r {
        Err(e) => Err(*e),
        Ok(MatchResult::Boolean(b)) => Ok(MatchResult::Boolean(*b)),
        Ok(MatchResult::Hunks(h)) => {
            let mut out: Vec<Range> = Vec::new();
            let mut i: usize = 0;
            while i < h.len()
                invariant
                    i <= h.len(),
                    out@ == h@.take(i as int),
                decreases h.len() - i,
            {
                out.push(h[i]);
                assert(h@.take(i as int + 1) =~= h@.take(i as int).push(h@[i as int]));
                i = i + 1;
            }
            assert(h@.take(h.len() as int) =~= h@);
            Ok(MatchResult::Hunks(out))
        },
    }
}

impl PredicateRegistry {
    /// Whether this registry evaluates `key`.
    pub fn contains_key(&self, key: &PredicateKey) -> (r: bool)
        ensures
            r == self@.contains(key@),
    {
        let mut i: usize = 0;
        while i < self.keys.len()
            invariant
                i <= self.keys.len(),
                forall|j: int| 0 <= j < i ==> self@[j] != key@,
            decreases self.keys.len() - i,
        {
            if same_key(&self.keys[i], key) {
                assert(self@[i as int] == key@);
                return true;
            }
            i = i + 1;
        }
        false
    }
}


// ---------------------------------------------------------------------------
// What evaluating a query means.
// ---------------------------------------------------------------------------

/// A predicate that the registry does not hold passes vacuously; one that it
/// holds gives its remembered outcome.
pub open spec fn leaf(reg: Seq<Key>, memo: Seq<Remembered>, k: Key, v: Seq<char>) -> Result<Outcome, PredicateError> {
    if !reg.contains(k) {
        Ok(Outcome::Boolean(true))
    } else {
        match find(memo, k, v) {
            Some(r) => r,
            None => arbitrary(),
        }
    }
}

/// The outcome of evaluating `e` with the registry `reg`, where each
/// predicate gives the outcome remembered in `memo`.
///
/// AND stops with a non-match as soon as one side does not match, and
/// otherwise combines both sides; OR stops at a left side that matches the
/// whole file, and otherwise keeps what matched, or gives a non-match where
/// neither side matched; NOT always gives a verdict.
/// The first error met is the outcome.
pub open spec fn eval(e: Expr, reg: Seq<Key>, memo: Seq<Remembered>) -> Result<Outcome, PredicateError>
    decreases e,
{
    match e {
        Expr::Pred(k, v) => leaf(reg, memo, k, v),
        Expr::Op(LogicalOperator::And, l, r) => match eval(*l, reg, memo) {
            Err(x) => Err(x),
            Ok(a) => if !a.matched() {
                Ok(Outcome::Boolean(false))
            } else {
                match eval(*r, reg, memo) {
                    Err(x) => Err(x),
                    Ok(b) => if !b.matched() {
                        Ok(Outcome::Boolean(false))
                    } else {
                        Ok(combine(a, b, LogicalOperator::And))
                    },
                }
            },
        },
        Expr::Op(LogicalOperator::Or, l, r) => match eval(*l, reg, memo) {
            Err(x) => Err(x),
            Ok(a) => if a == Outcome::Boolean(true) {
                Ok(a)
            } else {
                match eval(*r, reg, memo) {
                    Err(x) => Err(x),
                    Ok(b) => if a.matched() && b.matched() {
                        Ok(combine(a, b, LogicalOperator::Or))
                    } else if a.matched() {
                        Ok(a)
                    } else if b.matched() {
                        Ok(b)
                    } else {
                        Ok(Outcome::Boolean(false))
                    },
                }
            },
        },
        Expr::Not(x) => match eval(*x, reg, memo) {
            Err(y) => Err(y),
            Ok(a) => Ok(Outcome::Boolean(!a.matched())),
        },
    }
}

/// The registered predicates that evaluating `e` runs: a side that the
/// evaluation skips runs none.
pub open spec fn touched(e: Expr, reg: Seq<Key>, memo: Seq<Remembered>) -> Set<(Key, Seq<char>)>
    decreases e,
{
    match e {
        Expr::Pred(k, v) => if reg.contains(k) {
            set![(k, v)]
        } else {
            Set::empty()
        },
        Expr::Op(LogicalOperator::And, l, r) => match eval(*l, reg, memo) {
            Ok(a) => if a.matched() {
                touched(*l, reg, memo) + touched(*r, reg, memo)
            } else {
                touched(*l, reg, memo)
            },
            Err(_) => touched(*l, reg, memo),
        },
        Expr::Op(LogicalOperator::Or, l, r) => match eval(*l, reg, memo) {
            Ok(a) => if a == Outcome::Boolean(true) {
                touched(*l, reg, memo)
            } else {
                touched(*l, reg, memo) + touched(*r, reg, memo)
            },
            Err(_) => touched(*l, reg, memo),
        },
        Expr::Not(x) => touched(*x, reg, memo),
    }
}

/// Whether an outcome is remembered for `p`.
pub open spec fn known(memo: Seq<Remembered>, p: (Key, Seq<char>)) -> bool {
    find(memo, p.0, p.1) is Some
}

/// Every predicate that evaluating `e` runs has its outcome remembered.
pub open spec fn ready(e: Expr, reg: Seq<Key>, memo: Seq<Remembered>) -> bool {
    forall|p: (Key, Seq<char>)| #[trigger] touched(e, reg, memo).contains(p) ==> known(memo, p)
}

pub open spec fn is_prefix(a: Seq<Remembered>, b: Seq<Remembered>) -> bool {
    a.len() <= b.len() && b.take(a.len() as int) == a
}

proof fn lemma_find_extend(m: Seq<Remembered>, extra: Seq<Remembered>, k: Key, v: Seq<char>)
    requires
        find(m, k, v) is Some,
    ensures
        find(m + extra, k, v) == find(m, k, v),
    decreases m.len(),
{
    if m[0].0 == k && m[0].1 == v {
        assert((m + extra)[0] == m[0]);
    } else {
        assert((m + extra).drop_first() =~= m.drop_first() + extra);
        lemma_find_extend(m.drop_first(), extra, k, v);
    }
}

proof fn lemma_find_push(m: Seq<Remembered>, x: Remembered, k: Key, v: Seq<char>)
    ensures
        find(m.push(x), k, v) == if find(m, k, v) is Some {
            find(m, k, v)
        } else if x.0 == k && x.1 == v {
            Some(x.2)
        } else {
            None
        },
    decreases m.len(),
{
    if m.len() == 0 {
        assert(m.push(x)[0] == x);
        assert(m.push(x).drop_first() =~= Seq::<Remembered>::empty());
    } else {
        assert(m.push(x)[0] == m[0]);
        assert(m.push(x).drop_first() =~= m.drop_first().push(x));
        lemma_find_push(m.drop_first(), x, k, v);
    }
}

proof fn lemma_prefix_known(a: Seq<Remembered>, b: Seq<Remembered>, p: (Key, Seq<char>))
    requires
        is_prefix(a, b),
        known(a, p),
    ensures
        known(b, p),
        find(b, p.0, p.1) == find(a, p.0, p.1),
{
    assert(b =~= a + b.skip(a.len() as int));
    lemma_find_extend(a, b.skip(a.len() as int), p.0, p.1);
}

/// Remembering more outcomes changes neither the outcome nor the predicates
/// run of a query whose predicates are all remembered already.
proof fn lemma_eval_extend(e: Expr, reg: Seq<Key>, a: Seq<Remembered>, b: Seq<Remembered>)
    requires
        is_prefix(a, b),
        ready(e, reg, a),
    ensures
        eval(e, reg, b) == eval(e, reg, a),
        touched(e, reg, b) == touched(e, reg, a),
        ready(e, reg, b),
    decreases e,
{
    match e {
        Expr::Pred(k, v) => {
            if reg.contains(k) {
                assert(touched(e, reg, a).contains((k, v)));
                lemma_prefix_known(a, b, (k, v));
            }
        },
        Expr::Op(op, l, r) => {
            assert forall|p: (Key, Seq<char>)| #[trigger] touched(*l, reg, a).contains(p) implies known(a, p) by {
                assert(touched(e, reg, a).contains(p));
            }
            lemma_eval_extend(*l, reg, a, b);
            let rr = match eval(*l, reg, a) {
                Ok(x) => match op {
                    LogicalOperator::And => x.matched(),
                    LogicalOperator::Or => x != Outcome::Boolean(true),
                },
                Err(_) => false,
            };
            if rr {
                assert forall|p: (Key, Seq<char>)| #[trigger] touched(*r, reg, a).contains(p) implies known(a, p) by {
                    assert(touched(e, reg, a).contains(p));
                }
                lemma_eval_extend(*r, reg, a, b);
            }
            assert forall|p: (Key, Seq<char>)| #[trigger] touched(e, reg, b).contains(p) implies known(b, p) by {
                assert(touched(e, reg, a).contains(p));
                lemma_prefix_known(a, b, p);
            }
        },
        Expr::Not(x) => {
            assert forall|p: (Key, Seq<char>)| #[trigger] touched(*x, reg, a).contains(p) implies known(a, p) by {
                assert(touched(e, reg, a).contains(p));
            }
            lemma_eval_extend(*x, reg, a, b);
        },
    }
}

/// The evaluation engine: a query and the registry of its stage.
pub struct Evaluator {
    ast: AstNode,
    registry: PredicateRegistry,
}

impl Evaluator {
    pub fn new(ast: AstNode, registry: PredicateRegistry) -> (r: Evaluator)
        ensures
            r.query() == ast@,
            r.keys() == registry@,
    {
        Evaluator { ast, registry }
    }

    pub closed spec fn query(&self) -> Expr {
        self.ast@
    }

    pub closed spec fn keys(&self) -> Seq<Key> {
        self.registry@
    }

    fn lookup(ctx: &FileContext, key: &PredicateKey, value: &String) -> (r: Option<Result<MatchResult, PredicateError>>)
        ensures
            match r {
                Some(x) => find(ctx.remembered(), key@, value@) == Some(result_view(x)),
                None => find(ctx.remembered(), key@, value@) is None,
            },
    {
        let ghost m = ctx.remembered();
        let mut i: usize = 0;
        assert(m.skip(0) =~= m);
        while i < ctx.memo.len()
            invariant
                i <= ctx.memo.len() == m.len(),
                m == ctx.remembered(),
                find(m, key@, value@) == find(m.skip(i as int), key@, value@),
            decreases ctx.memo.len() - i,
        {
            let e = &ctx.memo[i];
            assert(m.skip(i as int)[0] == entry_view(*e));
            assert(m.skip(i as int).drop_first() =~= m.skip(i as int + 1));
            if same_key(&e.key, key) && e.value.eq(value) {
                return Some(copy_result(&e.result));
            }
            i = i + 1;
        }
        None
    }

    /// Evaluates a registered predicate, or gives its remembered outcome.
    fn evaluate_memo(ctx: &mut FileContext, key: &PredicateKey, value: &String) -> (r: Result<MatchResult, PredicateError>)
        requires
            old(ctx).wf(),
        ensures
            final(ctx).wf(),
            final(ctx).file() == old(ctx).file(),
            is_prefix(old(ctx).remembered(), final(ctx).remembered()),
            find(final(ctx).remembered(), key@, value@) == Some(result_view(r)),
            forall|p: (Key, Seq<char>)| known(final(ctx).remembered(), p) <==> (known(old(ctx).remembered(), p) || p == (key@, value@)),
    {
        match Self::lookup(ctx, key, value) {
            Some(found) => {
                assert(final(ctx).remembered().take(old(ctx).remembered().len() as int) =~= old(ctx).remembered());
                found
            },
            None => {
                let r = evaluate_key(ctx, key, value);
                let entry = MemoEntry { key: copy_key(key), value: value.clone(), result: copy_result(&r) };
                let ghost before = ctx.remembered();
                ctx.memo.push(entry);
                assert(ctx.remembered() =~= before.push(entry_view(entry)));
                assert(ctx.remembered().take(before.len() as int) =~= before);
                assert forall|p: (Key, Seq<char>)| known(ctx.remembered(), p) <==> (known(before, p) || p == (key@, value@)) by {
                    lemma_find_push(before, entry_view(entry), p.0, p.1);
                }
                proof {
                    lemma_find_push(before, entry_view(entry), key@, value@);
                }
                assert forall|i: int| 0 <= i < ctx.remembered().len() implies allowed(
                    ctx.file(),
                    #[trigger] ctx.remembered()[i].0,
                    ctx.remembered()[i].1,
                    ctx.remembered()[i].2,
                ) by {
                    if i < before.len() {
                        assert(ctx.remembered()[i] == before[i]);
                    }
                }
                r
            },
        }
    }

    fn evaluate_node(&self, node: &AstNode, ctx: &mut FileContext) -> (r: Result<MatchResult, PredicateError>)
        requires
            old(ctx).wf(),
        ensures
            final(ctx).wf(),
            final(ctx).file() == old(ctx).file(),
            is_prefix(old(ctx).remembered(), final(ctx).remembered()),
            ready(node@, self.registry@, final(ctx).remembered()),
            result_view(r) == eval(node@, self.registry@, final(ctx).remembered()),
            forall|p: (Key, Seq<char>)| known(final(ctx).remembered(), p) <==> (known(old(ctx).remembered(), p)
                || touched(node@, self.registry@, final(ctx).remembered()).contains(p)),
        decreases node,
    {
        let ghost reg = self.registry@;
        match node {
            AstNode::Predicate(key, value) => {
                if !self.registry.contains_key(key) {
                    assert(final(ctx).remembered().take(old(ctx).remembered().len() as int) =~= old(ctx).remembered());
                    return Ok(MatchResult::Boolean(true));
                }
                let r = Self::evaluate_memo(ctx, key, value);
                assert(touched(node@, reg, ctx.remembered()) =~= set![(key@, value@)]);
                r
            },
            AstNode::LogicalOp(op, left, right) => {
                let ghost m0 = ctx.remembered();
                let left_res = self.evaluate_node(left, ctx);
                let ghost m1 = ctx.remembered();
                let go_on = match &left_res {
                    Err(_) => false,
                    Ok(a) => match op {
                        LogicalOperator::And => a.is_match(),
                        LogicalOperator::Or => match a {
                            MatchResult::Boolean(b) => !*b,
                            MatchResult::Hunks(_) => true,
                        },
                    },
                };
                if !go_on {
                    let r = match left_res {
                        Err(e) => Err(e),
                        Ok(a) => match op {
                            LogicalOperator::And => Ok(MatchResult::Boolean(false)),
                            LogicalOperator::Or => Ok(a),
                        },
                    };
                    return r;
                }
                let right_res = self.evaluate_node(right, ctx);
                let ghost m2 = ctx.remembered();
                proof {
                    lemma_eval_extend(left@, reg, m1, m2);
                    assert(m2.take(m1.len() as int) == m1);
                    assert forall|j: int| 0 <= j < m0.len() implies m2[j] == m0[j] by {
                        assert(m2.take(m1.len() as int)[j] == m2[j]);
                        assert(m1.take(m0.len() as int)[j] == m1[j]);
                    }
                    assert(m2.take(m0.len() as int) =~= m0);
                    assert forall|p: (Key, Seq<char>)| known(m1, p) implies known(m2, p) by {
                        lemma_prefix_known(m1, m2, p);
                    }
                }
                let a = match left_res {
                    Ok(a) => a,
                    Err(e) => return Err(e),
                };
                let b = match right_res {
                    Ok(b) => b,
                    Err(e) => return Err(e),
                };
                match op {
                    LogicalOperator::And => {
                        if !b.is_match() {
                            Ok(MatchResult::Boolean(false))
                        } else {
                            Ok(a.combine_with(b, op))
                        }
                    },
                    LogicalOperator::Or => {
                        let am = a.is_match();
                        let bm = b.is_match();
                        if am && bm {
                            Ok(a.combine_with(b, op))
                        } else if am {
                            Ok(a)
                        } else if bm {
                            Ok(b)
                        } else {
                            Ok(MatchResult::Boolean(false))
                        }
                    },
                }
            },
            AstNode::Not(inner) => {
                let res = self.evaluate_node(inner, ctx);
                match res {
                    Err(e) => Err(e),
                    Ok(a) => Ok(MatchResult::Boolean(!a.is_match())),
                }
            },
        }
    }

    /// Evaluates the query on one file.
    pub fn evaluate(&self, ctx: &mut FileContext) -> (r: Result<MatchResult, PredicateError>)
        requires
            old(ctx).wf(),
        ensures
            final(ctx).wf(),
            final(ctx).file() == old(ctx).file(),
            is_prefix(old(ctx).remembered(), final(ctx).remembered()),
            ready(self.query(), self.keys(), final(ctx).remembered()),
            result_view(r) == eval(self.query(), self.keys(), final(ctx).remembered()),
            forall|p: (Key, Seq<char>)| known(final(ctx).remembered(), p) <==> (known(old(ctx).remembered(), p)
                || touched(self.query(), self.keys(), final(ctx).remembered()).contains(p)),
    {
        self.evaluate_node(&self.ast, ctx)
    }
}


// ---------------------------------------------------------------------------
// The pre-filter.
// ---------------------------------------------------------------------------

/// Every predicate of `e` is held by the registry.
pub open spec fn fully_known(e: Expr, reg: Seq<Key>) -> bool
    decreases e,
{
    match e {
        Expr::Pred(k, _) => reg.contains(k),
        Expr::Op(_, l, r) => fully_known(*l, reg) && fully_known(*r, reg),
        Expr::Not(x) => fully_known(*x, reg),
    }
}

/// The verdict of the pre-filter: a predicate that the registry does not
/// hold, or whose evaluation failed, passes; a negation passes unless every
/// predicate under it is held by the registry.
pub open spec fn pre(e: Expr, reg: Seq<Key>, memo: Seq<Remembered>) -> bool
    decreases e,
{
    match e {
        Expr::Pred(k, v) => if !reg.contains(k) {
            true
        } else {
            match find(memo, k, v) {
                Some(Ok(o)) => o.matched(),
                Some(Err(_)) => true,
                None => arbitrary(),
            }
        },
        Expr::Op(LogicalOperator::And, l, r) => pre(*l, reg, memo) && pre(*r, reg, memo),
        Expr::Op(LogicalOperator::Or, l, r) => pre(*l, reg, memo) || pre(*r, reg, memo),
        Expr::Not(x) => if fully_known(*x, reg) {
            !pre(*x, reg, memo)
        } else {
            true
        },
    }
}

/// The registered predicates that the pre-filter runs on `e`.
pub open spec fn pre_touched(e: Expr, reg: Seq<Key>, memo: Seq<Remembered>) -> Set<(Key, Seq<char>)>
    decreases e,
{
    match e {
        Expr::Pred(k, v) => if reg.contains(k) {
            set![(k, v)]
        } else {
            Set::empty()
        },
        Expr::Op(LogicalOperator::And, l, r) => if pre(*l, reg, memo) {
            pre_touched(*l, reg, memo) + pre_touched(*r, reg, memo)
        } else {
            pre_touched(*l, reg, memo)
        },
        Expr::Op(LogicalOperator::Or, l, r) => if pre(*l, reg, memo) {
            pre_touched(*l, reg, memo)
        } else {
            pre_touched(*l, reg, memo) + pre_touched(*r, reg, memo)
        },
        Expr::Not(x) => if fully_known(*x, reg) {
            pre_touched(*x, reg, memo)
        } else {
            Set::empty()
        },
    }
}

pub open spec fn pre_ready(e: Expr, reg: Seq<Key>, memo: Seq<Remembered>) -> bool {
    forall|p: (Key, Seq<char>)| #[trigger] pre_touched(e, reg, memo).contains(p) ==> known(memo, p)
}

proof fn lemma_pre_extend(e: Expr, reg: Seq<Key>, a: Seq<Remembered>, b: Seq<Remembered>)
    requires
        is_prefix(a, b),
        pre_ready(e, reg, a),
    ensures
        pre(e, reg, b) == pre(e, reg, a),
        pre_touched(e, reg, b) == pre_touched(e, reg, a),
        pre_ready(e, reg, b),
    decreases e,
{
    match e {
        Expr::Pred(k, v) => {
            if reg.contains(k) {
                assert(pre_touched(e, reg, a).contains((k, v)));
                lemma_prefix_known(a, b, (k, v));
            }
        },
        Expr::Op(op, l, r) => {
            assert forall|p: (Key, Seq<char>)| #[trigger] pre_touched(*l, reg, a).contains(p) implies known(a, p) by {
                assert(pre_touched(e, reg, a).contains(p));
            }
            lemma_pre_extend(*l, reg, a, b);
            let rr = match op {
                LogicalOperator::And => pre(*l, reg, a),
                LogicalOperator::Or => !pre(*l, reg, a),
            };
            if rr {
                assert forall|p: (Key, Seq<char>)| #[trigger] pre_touched(*r, reg, a).contains(p) implies known(a, p) by {
                    assert(pre_touched(e, reg, a).contains(p));
                }
                lemma_pre_extend(*r, reg, a, b);
            }
            assert forall|p: (Key, Seq<char>)| #[trigger] pre_touched(e, reg, b).contains(p) implies known(b, p) by {
                assert(pre_touched(e, reg, a).contains(p));
                lemma_prefix_known(a, b, p);
            }
        },
        Expr::Not(x) => {
            if fully_known(*x, reg) {
                assert forall|p: (Key, Seq<char>)| #[trigger] pre_touched(*x, reg, a).contains(p) implies known(a, p) by {
                    assert(pre_touched(e, reg, a).contains(p));
                }
                lemma_pre_extend(*x, reg, a, b);
            }
        },
    }
}

impl Evaluator {
    fn is_fully_known(&self, node: &AstNode) -> (r: bool)
        ensures
            r == fully_known(node@, self.registry@),
        decreases node,
    {
        match node {
            AstNode::Predicate(key, _) => self.registry.contains_key(key),
            AstNode::LogicalOp(_, l, r) => self.is_fully_known(l) && self.is_fully_known(r),
            AstNode::Not(x) => self.is_fully_known(x),
        }
    }

    fn pre_filter_node(&self, node: &AstNode, ctx: &mut FileContext) -> (r: bool)
        requires
            old(ctx).wf(),
        ensures
            final(ctx).wf(),
            final(ctx).file() == old(ctx).file(),
            is_prefix(old(ctx).remembered(), final(ctx).remembered()),
            pre_ready(node@, self.registry@, final(ctx).remembered()),
            r == pre(node@, self.registry@, final(ctx).remembered()),
            forall|p: (Key, Seq<char>)| known(final(ctx).remembered(), p) <==> (known(old(ctx).remembered(), p)
                || pre_touched(node@, self.registry@, final(ctx).remembered()).contains(p)),
        decreases node,
    {
        let ghost reg = self.registry@;
        match node {
            AstNode::Predicate(key, value) => {
                if !self.registry.contains_key(key) {
                    assert(final(ctx).remembered().take(old(ctx).remembered().len() as int) =~= old(ctx).remembered());
                    return true;
                }
                let r = Self::evaluate_memo(ctx, key, value);
                assert(pre_touched(node@, reg, ctx.remembered()) =~= set![(key@, value@)]);
                match r {
                    Ok(m) => m.is_match(),
                    Err(_) => true,
                }
            },
            AstNode::LogicalOp(op, left, right) => {
                let ghost m0 = ctx.remembered();
                let l = self.pre_filter_node(left, ctx);
                let ghost m1 = ctx.remembered();
                let go_on = match op {
                    LogicalOperator::And => l,
                    LogicalOperator::Or => !l,
                };
                if !go_on {
                    return l;
                }
                let r = self.pre_filter_node(right, ctx);
                let ghost m2 = ctx.remembered();
                proof {
                    lemma_pre_extend(left@, reg, m1, m2);
                    assert(m2.take(m1.len() as int) == m1);
                    assert forall|j: int| 0 <= j < m0.len() implies m2[j] == m0[j] by {
                        assert(m2.take(m1.len() as int)[j] == m2[j]);
                        assert(m1.take(m0.len() as int)[j] == m1[j]);
                    }
                    assert(m2.take(m0.len() as int) =~= m0);
                    assert forall|p: (Key, Seq<char>)| known(m1, p) implies known(m2, p) by {
                        lemma_prefix_known(m1, m2, p);
                    }
                }
                r
            },
            AstNode::Not(inner) => {
                if !self.is_fully_known(inner) {
                    assert(final(ctx).remembered().take(old(ctx).remembered().len() as int) =~= old(ctx).remembered());
                    return true;
                }
                !self.pre_filter_node(inner, ctx)
            },
        }
    }

    /// The metadata pre-filter on one file: `false` only where the file
    /// cannot match (see `law_pre_filter_is_safe`).
    pub fn pre_filter_evaluate(&self, ctx: &mut FileContext) -> (r: bool)
        requires
            old(ctx).wf(),
        ensures
            final(ctx).wf(),
            final(ctx).file() == old(ctx).file(),
            is_prefix(old(ctx).remembered(), final(ctx).remembered()),
            pre_ready(self.query(), self.keys(), final(ctx).remembered()),
            r == pre(self.query(), self.keys(), final(ctx).remembered()),
            forall|p: (Key, Seq<char>)| known(final(ctx).remembered(), p) <==> (known(old(ctx).remembered(), p)
                || pre_touched(self.query(), self.keys(), final(ctx).remembered()).contains(p)),
    {
        self.pre_filter_node(&self.ast, ctx)
    }
}

// ---------------------------------------------------------------------------
// Laws.
// ---------------------------------------------------------------------------

/// AND short-circuits: when its left side fails or does not match, the
/// right side is never evaluated, and a non-matching left side makes the
/// whole a non-match.
pub proof fn law_and_short_circuit(l: Expr, r: Expr, reg: Seq<Key>, memo: Seq<Remembered>)
    requires
        !(eval(l, reg, memo) matches Ok(a) && a.matched()),
    ensures
        touched(Expr::Op(LogicalOperator::And, Box::new(l), Box::new(r)), reg, memo) == touched(l, reg, memo),
        eval(l, reg, memo) is Ok ==> eval(Expr::Op(LogicalOperator::And, Box::new(l), Box::new(r)), reg, memo)
            == Ok::<Outcome, PredicateError>(Outcome::Boolean(false)),
{
}

/// OR short-circuits: when its left side matches the whole file, the right
/// side is never evaluated and the whole matches the whole file.
pub proof fn law_or_short_circuit(l: Expr, r: Expr, reg: Seq<Key>, memo: Seq<Remembered>)
    requires
        eval(l, reg, memo) == Ok::<Outcome, PredicateError>(Outcome::Boolean(true)),
    ensures
        touched(Expr::Op(LogicalOperator::Or, Box::new(l), Box::new(r)), reg, memo) == touched(l, reg, memo),
        eval(Expr::Op(LogicalOperator::Or, Box::new(l), Box::new(r)), reg, memo)
            == Ok::<Outcome, PredicateError>(Outcome::Boolean(true)),
{
}

/// A negation always gives a verdict on the whole file, never hunks.
pub proof fn law_negation_is_boolean(x: Expr, reg: Seq<Key>, memo: Seq<Remembered>)
    ensures
        match eval(Expr::Not(Box::new(x)), reg, memo) {
            Ok(o) => o is Boolean,
            Err(_) => true,
        },
{
}

/// The assumptions under which the pre-filter is compared with the full
/// evaluation: every key of the pre-filter's registry `meta` is a key of the
/// full registry `full`, the two stages remember the same outcome for each
/// predicate of `meta`, and each such outcome is a verdict.
pub open spec fn stages_agree(meta: Seq<Key>, full: Seq<Key>, mm: Seq<Remembered>, mf: Seq<Remembered>) -> bool {
    &&& forall|k: Key| meta.contains(k) ==> full.contains(k)
    &&& forall|k: Key, v: Seq<char>| meta.contains(k) ==> #[trigger] find(mm, k, v) == find(mf, k, v)
    &&& forall|k: Key, v: Seq<char>|
        meta.contains(k) ==> match #[trigger] find(mf, k, v) {
            Some(Ok(o)) => o is Boolean,
            _ => true,
        }
}

proof fn lemma_ready_parts(e: Expr, reg: Seq<Key>, memo: Seq<Remembered>)
    requires
        ready(e, reg, memo),
    ensures
        match e {
            Expr::Op(op, l, r) => ready(*l, reg, memo) && (match eval(*l, reg, memo) {
                Ok(a) => (op == LogicalOperator::And && a.matched()) || (op == LogicalOperator::Or && a
                    != Outcome::Boolean(true)),
                Err(_) => false,
            } ==> ready(*r, reg, memo)),
            Expr::Not(x) => ready(*x, reg, memo),
            _ => true,
        },
{
    match e {
        Expr::Op(op, l, r) => {
            assert forall|p: (Key, Seq<char>)| #[trigger] touched(*l, reg, memo).contains(p) implies known(memo, p) by {
                assert(touched(e, reg, memo).contains(p));
            }
            assert forall|p: (Key, Seq<char>)| #[trigger] touched(*r, reg, memo).contains(p) && (match eval(*l, reg, memo) {
                Ok(a) => (op == LogicalOperator::And && a.matched()) || (op == LogicalOperator::Or && a
                    != Outcome::Boolean(true)),
                Err(_) => false,
            }) implies known(memo, p) by {
                assert(touched(e, reg, memo).contains(p));
            }
        },
        Expr::Not(x) => {
            assert forall|p: (Key, Seq<char>)| #[trigger] touched(*x, reg, memo).contains(p) implies known(memo, p) by {
                assert(touched(e, reg, memo).contains(p));
            }
        },
        _ => {},
    }
}

/// On a query whose predicates the pre-filter all evaluates, the full
/// evaluation gives the pre-filter's verdict, or an error.
proof fn lemma_known_query_is_verdict(e: Expr, meta: Seq<Key>, full: Seq<Key>, mm: Seq<Remembered>, mf: Seq<Remembered>)
    requires
        stages_agree(meta, full, mm, mf),
        fully_known(e, meta),
        ready(e, full, mf),
    ensures
        match eval(e, full, mf) {
            Ok(o) => o == Outcome::Boolean(pre(e, meta, mm)),
            Err(_) => true,
        },
    decreases e,
{
    lemma_ready_parts(e, full, mf);
    match e {
        Expr::Pred(k, v) => {
            assert(meta.contains(k));
            assert(full.contains(k));
            assert(touched(e, full, mf).contains((k, v)));
            assert(find(mm, k, v) == find(mf, k, v));
        },
        Expr::Op(op, l, r) => {
            lemma_known_query_is_verdict(*l, meta, full, mm, mf);
            match eval(*l, full, mf) {
                Ok(a) => {
                    if (op == LogicalOperator::And && a.matched()) || (op == LogicalOperator::Or && a
                        != Outcome::Boolean(true)) {
                        lemma_known_query_is_verdict(*r, meta, full, mm, mf);
                    }
                },
                Err(_) => {},
            }
        },
        Expr::Not(x) => {
            lemma_known_query_is_verdict(*x, meta, full, mm, mf);
        },
    }
}

/// The pre-filter never rejects a file that the full evaluation accepts:
/// where the full stage (registry `full`, outcomes `mf`) gives a match, the
/// pre-filter (registry `meta`, outcomes `mm`) lets the file through.
pub proof fn law_pre_filter_is_safe(e: Expr, meta: Seq<Key>, full: Seq<Key>, mm: Seq<Remembered>, mf: Seq<Remembered>)
    requires
        stages_agree(meta, full, mm, mf),
        ready(e, full, mf),
        eval(e, full, mf) matches Ok(o) && o.matched(),
    ensures
        pre(e, meta, mm),
    decreases e,
{
    lemma_ready_parts(e, full, mf);
    match e {
        Expr::Pred(k, v) => {
            if meta.contains(k) {
                assert(find(mm, k, v) == find(mf, k, v));
                assert(touched(e, full, mf).contains((k, v)));
            }
        },
        Expr::Op(op, l, r) => {
            match op {
                LogicalOperator::And => {
                    law_pre_filter_is_safe(*l, meta, full, mm, mf);
                    law_pre_filter_is_safe(*r, meta, full, mm, mf);
                },
                LogicalOperator::Or => {
                    let a = eval(*l, full, mf)->Ok_0;
                    if a.matched() {
                        law_pre_filter_is_safe(*l, meta, full, mm, mf);
                    } else {
                        law_pre_filter_is_safe(*r, meta, full, mm, mf);
                    }
                },
            }
        },
        Expr::Not(x) => {
            if fully_known(*x, meta) {
                lemma_known_query_is_verdict(*x, meta, full, mm, mf);
            }
        },
    }
}


/// A key outside the vocabulary is held by neither registry, so a predicate
/// on it passes every file vacuously and runs nothing, in both stages.
pub proof fn law_unknown_keys_pass(name: Seq<char>, v: Seq<char>, memo: Seq<Remembered>)
    ensures
        eval(Expr::Pred(Key::Other(name), v), full_keys(), memo) == Ok::<Outcome, PredicateError>(Outcome::Boolean(true)),
        touched(Expr::Pred(Key::Other(name), v), full_keys(), memo) == Set::<(Key, Seq<char>)>::empty(),
        pre(Expr::Pred(Key::Other(name), v), metadata_keys(), memo),
{
    assert(!full_keys().contains(Key::Other(name))) by {
        if full_keys().contains(Key::Other(name)) {
            let i = choose|i: int| 0 <= i < full_keys().len() && full_keys()[i] == Key::Other(name);
        }
    }
    assert(!metadata_keys().contains(Key::Other(name))) by {
        if metadata_keys().contains(Key::Other(name)) {
            let i = choose|i: int| 0 <= i < metadata_keys().len() && metadata_keys()[i] == Key::Other(name);
        }
    }
}


proof fn lemma_pre_agree(e: Expr, reg: Seq<Key>, a: Seq<Remembered>, b: Seq<Remembered>)
    requires
        forall|k: Key, v: Seq<char>| reg.contains(k) ==> #[trigger] find(a, k, v) == find(b, k, v),
    ensures
        pre(e, reg, a) == pre(e, reg, b),
        pre_touched(e, reg, a) == pre_touched(e, reg, b),
        pre_ready(e, reg, a) ==> pre_ready(e, reg, b),
    decreases e,
{
    match e {
        Expr::Pred(k, v) => {
            if reg.contains(k) {
                assert(find(a, k, v) == find(b, k, v));
            }
        },
        Expr::Op(_, l, r) => {
            lemma_pre_agree(*l, reg, a, b);
            lemma_pre_agree(*r, reg, a, b);
        },
        Expr::Not(x) => {
            lemma_pre_agree(*x, reg, a, b);
        },
    }
    if pre_ready(e, reg, a) {
        assert forall|p: (Key, Seq<char>)| #[trigger] pre_touched(e, reg, b).contains(p) implies known(b, p) by {
            assert(pre_touched(e, reg, a).contains(p));
            lemma_pre_touched_registered(e, reg, a, p);
            assert(find(a, p.0, p.1) == find(b, p.0, p.1));
        }
    }
}

proof fn lemma_pre_touched_registered(e: Expr, reg: Seq<Key>, m: Seq<Remembered>, p: (Key, Seq<char>))
    requires
        pre_touched(e, reg, m).contains(p),
    ensures
        reg.contains(p.0),
    decreases e,
{
    match e {
        Expr::Pred(k, v) => {},
        Expr::Op(_, l, r) => {
            if pre_touched(*l, reg, m).contains(p) {
                lemma_pre_touched_registered(*l, reg, m, p);
            } else {
                lemma_pre_touched_registered(*r, reg, m, p);
            }
        },
        Expr::Not(x) => {
            lemma_pre_touched_registered(*x, reg, m, p);
        },
    }
}

proof fn lemma_find_member(m: Seq<Remembered>, k: Key, v: Seq<char>)
    requires
        find(m, k, v) is Some,
    ensures
        exists|i: int| 0 <= i < m.len() && #[trigger] m[i] == (k, v, find(m, k, v)->0),
    decreases m.len(),
{
    if m[0].0 == k && m[0].1 == v {
        assert(m[0] == (k, v, find(m, k, v)->0));
    } else {
        lemma_find_member(m.drop_first(), k, v);
        let i = choose|i: int| 0 <= i < m.drop_first().len() && #[trigger] m.drop_first()[i] == (k, v, find(m, k, v)->0);
        assert(m[i + 1] == m.drop_first()[i]);
    }
}

proof fn lemma_metadata_keys()
    ensures
        forall|k: Key| #[trigger] metadata_keys().contains(k) ==> full_keys().contains(k) && !reads_text_key(k) && (k
            == Key::Ext || k == Key::Name || k == Key::Path || k == Key::Size || k == Key::Modified || k == Key::In),
{
    assert forall|k: Key| #[trigger] metadata_keys().contains(k) implies full_keys().contains(k) && !reads_text_key(k) && (k
        == Key::Ext || k == Key::Name || k == Key::Path || k == Key::Size || k == Key::Modified || k == Key::In) by {
        let i = choose|i: int| 0 <= i < metadata_keys().len() && metadata_keys()[i] == k;
        let j: int = if i == 0 { 0 } else if i == 1 { 1 } else if i == 2 { 2 } else if i == 3 { 5 } else if i == 4 { 6 } else { 7 };
        assert(full_keys()[j] == k);
    }
}

/// The pre-filter never rejects a file that the full evaluation accepts,
/// when both stages read the outcomes remembered for one file: where every
/// remembered outcome is one that its predicate may give on the file `f`,
/// and the full stage gives a match, the pre-filter lets the file through.
pub proof fn law_pre_filter_is_safe_for_file(e: Expr, f: FileView, m: Seq<Remembered>)
    requires
        forall|i: int| 0 <= i < m.len() ==> allowed(f, #[trigger] m[i].0, m[i].1, m[i].2),
        ready(e, full_keys(), m),
        eval(e, full_keys(), m) matches Ok(o) && o.matched(),
    ensures
        pre(e, metadata_keys(), m),
{
    lemma_metadata_keys();
    assert forall|k: Key, v: Seq<char>| metadata_keys().contains(k) implies match #[trigger] find(m, k, v) {
        Some(Ok(o)) => o is Boolean,
        _ => true,
    } by {
        if find(m, k, v) is Some {
            lemma_find_member(m, k, v);
            let i = choose|i: int| 0 <= i < m.len() && #[trigger] m[i] == (k, v, find(m, k, v)->0);
            assert(allowed(f, m[i].0, m[i].1, m[i].2));
        }
    }
    assert(stages_agree(metadata_keys(), full_keys(), m, m));
    law_pre_filter_is_safe(e, metadata_keys(), full_keys(), m, m);
}

/// The two stages run on one context: the pre-filter gives its verdict on
/// the outcomes `m1`; the text is then recorded, which keeps the outcomes of
/// the predicates that do not read it (`m1p`); the full stage then extends
/// them to `m2`. Where the full stage gives a match, the pre-filter's verdict
/// was to let the file through.
pub proof fn law_stages_on_one_context(
    e: Expr,
    f: FileView,
    m1: Seq<Remembered>,
    m1p: Seq<Remembered>,
    m2: Seq<Remembered>,
)
    requires
        pre_ready(e, metadata_keys(), m1),
        forall|k: Key, v: Seq<char>| !reads_text_key(k) ==> #[trigger] find(m1p, k, v) == find(m1, k, v),
        is_prefix(m1p, m2),
        forall|i: int| 0 <= i < m2.len() ==> allowed(f, #[trigger] m2[i].0, m2[i].1, m2[i].2),
        ready(e, full_keys(), m2),
        eval(e, full_keys(), m2) matches Ok(o) && o.matched(),
    ensures
        pre(e, metadata_keys(), m1),
{
    lemma_metadata_keys();
    assert forall|k: Key, v: Seq<char>| metadata_keys().contains(k) implies #[trigger] find(m1, k, v) == find(m1p, k, v) by {}
    lemma_pre_agree(e, metadata_keys(), m1, m1p);
    lemma_pre_extend(e, metadata_keys(), m1p, m2);
    law_pre_filter_is_safe_for_file(e, f, m2);
}


/// What a search reports for a file: nothing where evaluation failed or did
/// not match, no hunks where the whole file matched, and the hunks where
/// some matched.
pub open spec fn report(r: Result<Outcome, PredicateError>) -> Option<Seq<Range>> {
    match r {
        Ok(Outcome::Boolean(true)) => Some(Seq::empty()),
        Ok(Outcome::Hunks(h)) => if h.len() > 0 {
            Some(h)
        } else {
            None
        },
        _ => None,
    }
}

/// What a search reports for a file, from the outcome of its evaluation; an
/// empty list stands for the whole file.
pub fn reported_hunks(r: Result<MatchResult, PredicateError>) -> (o: Option<Vec<Range>>)
    ensures
        match o {
            Some(h) => report(result_view(r)) == Some(h@),
            None => report(result_view(r)) is None,
        },
{
    match r {
        Ok(MatchResult::Boolean(true)) => {
            let none: Vec<Range> = Vec::new();
            assert(none@ =~= Seq::<Range>::empty());
            Some(none)
        },
        Ok(MatchResult::Hunks(h)) => if h.len() > 0 {
            Some(h)
        } else {
            None
        },
        _ => None,
    }
}

} // verus!
