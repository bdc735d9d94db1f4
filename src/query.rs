use vstd::prelude::*;

use crate::text::{chars_of, decimal, push_char, push_decimal};
use vstd::string::StringExecFns;

verus! {

/// The two binary operators of the query language.
#[derive(Debug, Clone, Copy, PartialEq, Eq, Structural)]
pub enum LogicalOperator {
    And,
    Or,
}

/// The key of a predicate: one of the fixed vocabulary, or any other name.
#[derive(Debug, Clone, PartialEq, Eq, Hash)]
pub enum PredicateKey {
    Ext,
    Name,
    Path,
    Contains,
    Matches,
    Size,
    Modified,
    In,
    Def,
    Func,
    Import,
    Class,
    Struct,
    Enum,
    Interface,
    Trait,
    Type,
    Comment,
    Str,
    Call,
    Other(String),
}

/// The mathematical value of a `PredicateKey`.
pub enum Key {
    Ext,
    Name,
    Path,
    Contains,
    Matches,
    Size,
    Modified,
    In,
    Def,
    Func,
    Import,
    Class,
    Struct,
    Enum,
    Interface,
    Trait,
    Type,
    Comment,
    Str,
    Call,
    Other(Seq<char>),
}

impl View for PredicateKey {
    type V = Key;

    open spec fn view(&self) -> Key {
        match self {
            PredicateKey::Ext => Key::Ext,
            PredicateKey::Name => Key::Name,
            PredicateKey::Path => Key::Path,
            PredicateKey::Contains => Key::Contains,
            PredicateKey::Matches => Key::Matches,
            PredicateKey::Size => Key::Size,
            PredicateKey::Modified => Key::Modified,
            PredicateKey::In => Key::In,
            PredicateKey::Def => Key::Def,
            PredicateKey::Func => Key::Func,
            PredicateKey::Import => Key::Import,
            PredicateKey::Class => Key::Class,
            PredicateKey::Struct => Key::Struct,
            PredicateKey::Enum => Key::Enum,
            PredicateKey::Interface => Key::Interface,
            PredicateKey::Trait => Key::Trait,
            PredicateKey::Type => Key::Type,
            PredicateKey::Comment => Key::Comment,
            PredicateKey::Str => Key::Str,
            PredicateKey::Call => Key::Call,
            PredicateKey::Other(s) => Key::Other(s@),
        }
    }
}

/// The key that a name denotes: a name of the vocabulary denotes its key
/// (case-sensitively), any other name is kept as it is.
pub open spec fn key_named(n: Seq<char>) -> Key {
    if n == seq!['e', 'x', 't'] {
        Key::Ext
    } else if n == seq!['n', 'a', 'm', 'e'] {
        Key::Name
    } else if n == seq!['p', 'a', 't', 'h'] {
        Key::Path
    } else if n == seq!['c', 'o', 'n', 't', 'a', 'i', 'n', 's'] {
        Key::Contains
    } else if n == seq!['m', 'a', 't', 'c', 'h', 'e', 's'] {
        Key::Matches
    } else if n == seq!['s', 'i', 'z', 'e'] {
        Key::Size
    } else if n == seq!['m', 'o', 'd', 'i', 'f', 'i', 'e', 'd'] {
        Key::Modified
    } else if n == seq!['i', 'n'] {
        Key::In
    } else if n == seq!['d', 'e', 'f'] {
        Key::Def
    } else if n == seq!['f', 'u', 'n', 'c'] {
        Key::Func
    } else if n == seq!['i', 'm', 'p', 'o', 'r', 't'] {
        Key::Import
    } else if n == seq!['c', 'l', 'a', 's', 's'] {
        Key::Class
    } else if n == seq!['s', 't', 'r', 'u', 'c', 't'] {
        Key::Struct
    } else if n == seq!['e', 'n', 'u', 'm'] {
        Key::Enum
    } else if n == seq!['i', 'n', 't', 'e', 'r', 'f', 'a', 'c', 'e'] {
        Key::Interface
    } else if n == seq!['t', 'r', 'a', 'i', 't'] {
        Key::Trait
    } else if n == seq!['t', 'y', 'p', 'e'] {
        Key::Type
    } else if n == seq!['c', 'o', 'm', 'm', 'e', 'n', 't'] {
        Key::Comment
    } else if n == seq!['s', 't', 'r'] {
        Key::Str
    } else if n == seq!['c', 'a', 'l', 'l'] {
        Key::Call
    } else {
        Key::Other(n)
    }
}

/// A node of a parsed query.
#[derive(Debug, PartialEq)]
pub enum AstNode {
    Predicate(PredicateKey, String),
    LogicalOp(LogicalOperator, Box<AstNode>, Box<AstNode>),
    Not(Box<AstNode>),
}

/// The mathematical value of an `AstNode`.
pub enum Expr {
    Pred(Key, Seq<char>),
    Op(LogicalOperator, Box<Expr>, Box<Expr>),
    Not(Box<Expr>),
}

pub open spec fn expr_of(a: AstNode) -> Expr
    decreases a,
{
    match a {
        AstNode::Predicate(k, v) => Expr::Pred(k@, v@),
        AstNode::LogicalOp(op, l, r) => Expr::Op(op, Box::new(expr_of(*l)), Box::new(expr_of(*r))),
        AstNode::Not(x) => Expr::Not(Box::new(expr_of(*x))),
    }
}

impl View for AstNode {
    type V = Expr;

    open spec fn view(&self) -> Expr {
        expr_of(*self)
    }
}

/// Why a query was rejected.
#[derive(Debug, Clone, Copy, PartialEq, Eq, Structural)]
pub enum ParseError {
    /// The query is empty or holds only whitespace.
    Empty,
    /// The query does not follow the grammar; `position` is the index of the
    /// character where a predicate, an operator, a parenthesis or the end of
    /// the query was expected.
    Syntax { position: usize },
}

// ---------------------------------------------------------------------------
// The grammar, over the characters of the query.
//
//   query     := or_expr
//   or_expr   := and_expr (("|" | OR) and_expr)*
//   and_expr  := term (("&" | AND) term)*
//   term      := ("!" | NOT) factor | factor
//   factor    := "(" or_expr ")" | predicate
//   predicate := key ":" value
//   value     := quoted | bare
//
// Whitespace may stand between tokens. Each parsing function below takes the
// position to start at and gives the node and the position after it, or the
// position of the first character that the grammar does not admit.
// ---------------------------------------------------------------------------

/// Whitespace as `char::is_whitespace` documents it: the characters with
/// Unicode's `White_Space` property.
pub open spec fn is_space(c: char) -> bool {
    ('\u{9}' <= c && c <= '\u{d}') || c == ' ' || c == '\u{85}' || c == '\u{a0}' || c == '\u{1680}' || ('\u{2000}'
        <= c && c <= '\u{200a}') || c == '\u{2028}' || c == '\u{2029}' || c == '\u{202f}' || c == '\u{205f}' || c
        == '\u{3000}'
}

pub open spec fn is_key_char(c: char) -> bool {
    ('a' <= c && c <= 'z') || ('A' <= c && c <= 'Z') || ('0' <= c && c <= '9') || c == '_' || c
        == '-'
}

/// Characters that end an unquoted value.
pub open spec fn ends_bare(c: char) -> bool {
    is_space(c) || c == '&' || c == '|' || c == '!' || c == '(' || c == ')'
}

/// The number of whitespace characters from `i` on.
pub open spec fn spaces(s: Seq<char>, i: int) -> nat
    decreases s.len() - i,
{
    if 0 <= i < s.len() && is_space(s[i]) {
        1 + spaces(s, i + 1)
    } else {
        0
    }
}

/// The number of key characters from `i` on.
pub open spec fn key_len(s: Seq<char>, i: int) -> nat
    decreases s.len() - i,
{
    if 0 <= i < s.len() && is_key_char(s[i]) {
        1 + key_len(s, i + 1)
    } else {
        0
    }
}

/// The number of characters of an unquoted value from `i` on.
pub open spec fn bare_len(s: Seq<char>, i: int) -> nat
    decreases s.len() - i,
{
    if 0 <= i < s.len() && !ends_bare(s[i]) {
        1 + bare_len(s, i + 1)
    } else {
        0
    }
}

pub open spec fn either(c: char, lower: char, upper: char) -> bool {
    c == lower || c == upper
}

/// A keyword operator ends where no key character and no colon follows.
pub open spec fn word_ends(s: Seq<char>, j: int) -> bool {
    j >= s.len() || (!is_key_char(s[j]) && s[j] != ':')
}

/// The length of the AND operator at `p` (`&` or the word AND in any case), or 0.
pub open spec fn and_op(s: Seq<char>, p: int) -> nat {
    if 0 <= p < s.len() && s[p] == '&' {
        1
    } else if 0 <= p && p + 3 <= s.len() && either(s[p], 'a', 'A') && either(s[p + 1], 'n', 'N')
        && either(s[p + 2], 'd', 'D') && word_ends(s, p + 3) {
        3
    } else {
        0
    }
}

/// The length of the OR operator at `p` (`|` or the word OR in any case), or 0.
pub open spec fn or_op(s: Seq<char>, p: int) -> nat {
    if 0 <= p < s.len() && s[p] == '|' {
        1
    } else if 0 <= p && p + 2 <= s.len() && either(s[p], 'o', 'O') && either(s[p + 1], 'r', 'R')
        && word_ends(s, p + 2) {
        2
    } else {
        0
    }
}

/// The length of the NOT operator at `p` (`!` or the word NOT in any case), or 0.
pub open spec fn not_op(s: Seq<char>, p: int) -> nat {
    if 0 <= p < s.len() && s[p] == '!' {
        1
    } else if 0 <= p && p + 3 <= s.len() && either(s[p], 'n', 'N') && either(s[p + 1], 'o', 'O')
        && either(s[p + 2], 't', 'T') && word_ends(s, p + 3) {
        3
    } else {
        0
    }
}

/// The index of the quote `q` that closes a quoted value whose body starts at
/// `j`; a backslash escapes the character after it.
pub open spec fn quote_close(s: Seq<char>, j: int, q: char) -> Option<int>
    decreases s.len() - j,
{
    if j < 0 || j >= s.len() {
        None
    } else if s[j] == '\\' {
        if j + 1 < s.len() {
            quote_close(s, j + 2, q)
        } else {
            None
        }
    } else if s[j] == q {
        Some(j)
    } else {
        quote_close(s, j + 1, q)
    }
}

/// The body of a quoted value with each backslash escape replaced by the
/// character it escapes.
pub open spec fn unescape(t: Seq<char>) -> Seq<char>
    decreases t.len(),
{
    if t.len() == 0 {
        t
    } else if t[0] == '\\' {
        if t.len() >= 2 {
            seq![t[1]] + unescape(t.subrange(2, t.len() as int))
        } else {
            Seq::empty()
        }
    } else {
        seq![t[0]] + unescape(t.subrange(1, t.len() as int))
    }
}

pub open spec fn is_quote(c: char) -> bool {
    c == '"' || c == '\''
}

/// What a value token stands for: a quoted token is unquoted and unescaped,
/// any other is taken as it is.
pub open spec fn value_text(v: Seq<char>) -> Seq<char> {
    if v.len() >= 2 && is_quote(v[0]) {
        unescape(v.subrange(1, v.len() - 1))
    } else {
        v
    }
}

pub open spec fn parse_predicate(s: Seq<char>, p: int) -> Result<(Expr, int), int> {
    let c = p + key_len(s, p);
    let v = c + 1;
    if c == p {
        Err(p)
    } else if c >= s.len() || s[c] != ':' {
        Err(c)
    } else if v < s.len() && is_quote(s[v]) {
        match quote_close(s, v + 1, s[v]) {
            Some(e) => Ok(
                (Expr::Pred(key_named(s.subrange(p, c)), unescape(s.subrange(v + 1, e))), e + 1),
            ),
            None => Err(s.len() as int),
        }
    } else if bare_len(s, v) == 0 {
        Err(v)
    } else {
        Ok(
            (
                Expr::Pred(key_named(s.subrange(p, c)), s.subrange(v, v + bare_len(s, v))),
                v + bare_len(s, v),
            ),
        )
    }
}

pub open spec fn parse_factor(s: Seq<char>, i: int) -> Result<(Expr, int), int>
    decreases s.len() - i, 0int,
{
    let p = i + spaces(s, i);
    if 0 <= p < s.len() && s[p] == '(' {
        match parse_or(s, p + 1) {
            Err(e) => Err(e),
            Ok((x, k)) => {
                let q = k + spaces(s, k);
                if 0 <= q < s.len() && s[q] == ')' {
                    Ok((x, q + 1))
                } else {
                    Err(q)
                }
            },
        }
    } else {
        parse_predicate(s, p)
    }
}

pub open spec fn parse_term(s: Seq<char>, i: int) -> Result<(Expr, int), int>
    decreases s.len() - i, 1int,
{
    let p = i + spaces(s, i);
    let n = not_op(s, p);
    if n > 0 {
        match parse_factor(s, p + n) {
            Err(e) => Err(e),
            Ok((x, k)) => Ok((Expr::Not(Box::new(x)), k)),
        }
    } else {
        parse_factor(s, i)
    }
}

pub open spec fn and_rest(s: Seq<char>, k: int, acc: Expr) -> Result<(Expr, int), int>
    decreases s.len() - k, 2int,
{
    let p = k + spaces(s, k);
    let n = and_op(s, p);
    if n == 0 {
        Ok((acc, k))
    } else {
        match parse_term(s, p + n) {
            Err(e) => Err(e),
            Ok((y, k2)) => if k < k2 <= s.len() {
                and_rest(s, k2, Expr::Op(LogicalOperator::And, Box::new(acc), Box::new(y)))
            } else {
                Err(k2)
            },
        }
    }
}

pub open spec fn parse_and(s: Seq<char>, i: int) -> Result<(Expr, int), int>
    decreases s.len() - i, 3int,
{
    match parse_term(s, i) {
        Err(e) => Err(e),
        Ok((x, k)) => if i < k <= s.len() {
            and_rest(s, k, x)
        } else {
            Err(k)
        },
    }
}

pub open spec fn or_rest(s: Seq<char>, k: int, acc: Expr) -> Result<(Expr, int), int>
    decreases s.len() - k, 4int,
{
    let p = k + spaces(s, k);
    let n = or_op(s, p);
    if n == 0 {
        Ok((acc, k))
    } else {
        match parse_and(s, p + n) {
            Err(e) => Err(e),
            Ok((y, k2)) => if k < k2 <= s.len() {
                or_rest(s, k2, Expr::Op(LogicalOperator::Or, Box::new(acc), Box::new(y)))
            } else {
                Err(k2)
            },
        }
    }
}

pub open spec fn parse_or(s: Seq<char>, i: int) -> Result<(Expr, int), int>
    decreases s.len() - i, 5int,
{
    match parse_and(s, i) {
        Err(e) => Err(e),
        Ok((x, k)) => if i < k <= s.len() {
            or_rest(s, k, x)
        } else {
            Err(k)
        },
    }
}

/// What a whole query denotes: an empty or blank query is refused as such;
/// otherwise the whole text must be one OR-expression.
pub open spec fn query_result(s: Seq<char>) -> Result<Expr, ParseError> {
    if spaces(s, 0) == s.len() {
        Err(ParseError::Empty)
    } else {
        match parse_or(s, 0) {
            Err(e) => Err(ParseError::Syntax { position: e as usize }),
            Ok((x, k)) => if k + spaces(s, k) == s.len() {
                Ok(x)
            } else {
                Err(ParseError::Syntax { position: (k + spaces(s, k)) as usize })
            },
        }
    }
}


// ---------------------------------------------------------------------------
// The parser.
// ---------------------------------------------------------------------------

/// An executable result agrees with the grammar's.
pub open spec fn agrees(r: Result<(AstNode, usize), usize>, g: Result<(Expr, int), int>) -> bool {
    match r {
        Ok((a, k)) => g == Ok::<(Expr, int), int>((a@, k as int)),
        Err(e) => g == Err::<(Expr, int), int>(e as int),
    }
}

/// A successful parse from `i` ends after `i` and within the text.
pub open spec fn advances(r: Result<(AstNode, usize), usize>, i: int, n: int) -> bool {
    match r {
        Ok((_, k)) => i < k <= n,
        Err(_) => true,
    }
}

pub(crate) fn is_space_char(c: char) -> (r: bool)
    ensures
        r == is_space(c),
{
    ('\u{9}' <= c && c <= '\u{d}') || c == ' ' || c == '\u{85}' || c == '\u{a0}' || c == '\u{1680}' || ('\u{2000}'
        <= c && c <= '\u{200a}') || c == '\u{2028}' || c == '\u{2029}' || c == '\u{202f}' || c == '\u{205f}' || c
        == '\u{3000}'
}

fn is_key_character(c: char) -> (r: bool)
    ensures
        r == is_key_char(c),
{
    ('a' <= c && c <= 'z') || ('A' <= c && c <= 'Z') || ('0' <= c && c <= '9') || c == '_' || c
        == '-'
}

fn ends_bare_value(c: char) -> (r: bool)
    ensures
        r == ends_bare(c),
{
    is_space_char(c) || c == '&' || c == '|' || c == '!' || c == '(' || c == ')'
}

pub(crate) fn skip_spaces(s: &Vec<char>, i: usize) -> (r: usize)
    requires
        i <= s.len(),
    ensures
        r == i + spaces(s@, i as int),
        r <= s.len(),
{
    let mut j = i;
    while j < s.len() && is_space_char(s[j])
        invariant
            i <= j <= s.len(),
            i + spaces(s@, i as int) == j + spaces(s@, j as int),
        decreases s.len() - j,
    {
        j = j + 1;
    }
    j
}

fn scan_key(s: &Vec<char>, i: usize) -> (r: usize)
    requires
        i <= s.len(),
    ensures
        r == i + key_len(s@, i as int),
        r <= s.len(),
{
    let mut j = i;
    while j < s.len() && is_key_character(s[j])
        invariant
            i <= j <= s.len(),
            i + key_len(s@, i as int) == j + key_len(s@, j as int),
        decreases s.len() - j,
    {
        j = j + 1;
    }
    j
}

fn scan_bare(s: &Vec<char>, i: usize) -> (r: usize)
    requires
        i <= s.len(),
    ensures
        r == i + bare_len(s@, i as int),
        r <= s.len(),
{
    let mut j = i;
    while j < s.len() && !ends_bare_value(s[j])
        invariant
            i <= j <= s.len(),
            i + bare_len(s@, i as int) == j + bare_len(s@, j as int),
        decreases s.len() - j,
    {
        j = j + 1;
    }
    j
}

fn word_ends_at(s: &Vec<char>, j: usize) -> (r: bool)
    ensures
        r == word_ends(s@, j as int),
{
    j >= s.len() || (!is_key_character(s[j]) && s[j] != ':')
}

fn and_op_len(s: &Vec<char>, p: usize) -> (r: usize)
    requires
        p <= s.len(),
    ensures
        r == and_op(s@, p as int),
{
    if p < s.len() && s[p] == '&' {
        1
    } else if s.len() - p >= 3 && (s[p] == 'a' || s[p] == 'A') && (s[p + 1] == 'n' || s[p + 1]
        == 'N') && (s[p + 2] == 'd' || s[p + 2] == 'D') && word_ends_at(s, p + 3) {
        3
    } else {
        0
    }
}

fn or_op_len(s: &Vec<char>, p: usize) -> (r: usize)
    requires
        p <= s.len(),
    ensures
        r == or_op(s@, p as int),
{
    if p < s.len() && s[p] == '|' {
        1
    } else if s.len() - p >= 2 && (s[p] == 'o' || s[p] == 'O') && (s[p + 1] == 'r' || s[p + 1]
        == 'R') && word_ends_at(s, p + 2) {
        2
    } else {
        0
    }
}

fn not_op_len(s: &Vec<char>, p: usize) -> (r: usize)
    requires
        p <= s.len(),
    ensures
        r == not_op(s@, p as int),
{
    if p < s.len() && s[p] == '!' {
        1
    } else if s.len() - p >= 3 && (s[p] == 'n' || s[p] == 'N') && (s[p + 1] == 'o' || s[p + 1]
        == 'O') && (s[p + 2] == 't' || s[p + 2] == 'T') && word_ends_at(s, p + 3) {
        3
    } else {
        0
    }
}

fn find_close(s: &Vec<char>, start: usize, q: char) -> (r: Option<usize>)
    requires
        start <= s.len(),
    ensures
        match r {
            Some(e) => quote_close(s@, start as int, q) == Some(e as int) && start <= e < s.len(),
            None => quote_close(s@, start as int, q) is None,
        },
{
    let mut j = start;
    while j < s.len()
        invariant
            start <= j <= s.len() + 1,
            quote_close(s@, start as int, q) == quote_close(s@, j as int, q),
        decreases s.len() + 1 - j,
    {
        if s[j] == '\\' {
            if j + 1 < s.len() {
                j = j + 2;
            } else {
                return None;
            }
        } else if s[j] == q {
            return Some(j);
        } else {
            j = j + 1;
        }
    }
    None
}

/// The characters `s[lo..hi]` as a string.
fn string_of_range(s: &Vec<char>, lo: usize, hi: usize) -> (r: String)
    requires
        lo <= hi <= s.len(),
    ensures
        r@ == s@.subrange(lo as int, hi as int),
{
    let mut r = String::new();
    let mut j = lo;
    while j < hi
        invariant
            lo <= j <= hi <= s.len(),
            r@ == s@.subrange(lo as int, j as int),
        decreases hi - j,
    {
        push_char(&mut r, s[j]);
        assert(s@.subrange(lo as int, j + 1) =~= s@.subrange(lo as int, j as int).push(s@[j as int]));
        j = j + 1;
    }
    r
}

/// The characters `s[lo..hi]` with their backslash escapes resolved.
fn unescape_range(s: &Vec<char>, lo: usize, hi: usize) -> (r: String)
    requires
        lo <= hi <= s.len(),
    ensures
        r@ == unescape(s@.subrange(lo as int, hi as int)),
{
    let ghost whole = s@.subrange(lo as int, hi as int);
    let mut r = String::new();
    let mut j = lo;
    while j < hi
        invariant
            lo <= j <= hi <= s.len(),
            whole == s@.subrange(lo as int, hi as int),
            unescape(whole) == r@ + unescape(s@.subrange(j as int, hi as int)),
        decreases hi - j,
    {
        let ghost rest = s@.subrange(j as int, hi as int);
        let ghost before = r@;
        if s[j] == '\\' {
            if j + 1 < hi {
                assert(rest.subrange(2, rest.len() as int) =~= s@.subrange(j + 2, hi as int));
                push_char(&mut r, s[j + 1]);
                assert(before + unescape(rest) =~= r@ + unescape(s@.subrange(j + 2, hi as int)));
                j = j + 2;
            } else {
                assert(unescape(rest) =~= Seq::<char>::empty());
                assert(s@.subrange(hi as int, hi as int) =~= Seq::<char>::empty());
                j = hi;
            }
        } else {
            assert(rest.subrange(1, rest.len() as int) =~= s@.subrange(j + 1, hi as int));
            push_char(&mut r, s[j]);
            assert(before + unescape(rest) =~= r@ + unescape(s@.subrange(j + 1, hi as int)));
            j = j + 1;
        }
    }
    assert(s@.subrange(hi as int, hi as int) =~= Seq::<char>::empty());
    assert(r@ + Seq::<char>::empty() =~= r@);
    r
}


/// Whether `s[lo..hi]` is the word `w`.
fn range_is(s: &Vec<char>, lo: usize, hi: usize, w: &[char]) -> (r: bool)
    requires
        lo <= hi <= s.len(),
    ensures
        r == (s@.subrange(lo as int, hi as int) == w@),
{
    if hi - lo != w.len() {
        return false;
    }
    let mut k: usize = 0;
    while k < w.len()
        invariant
            k <= w.len() == hi - lo,
            lo <= hi <= s.len(),
            forall|m: int| 0 <= m < k ==> s@[lo + m] == w@[m],
        decreases w.len() - k,
    {
        if s[lo + k] != w[k] {
            assert(s@.subrange(lo as int, hi as int)[k as int] != w@[k as int]);
            return false;
        }
        k = k + 1;
    }
    assert(s@.subrange(lo as int, hi as int) =~= w@);
    true
}

/// The key named by `s[lo..hi]`.
fn key_of_range(s: &Vec<char>, lo: usize, hi: usize) -> (r: PredicateKey)
    requires
        lo <= hi <= s.len(),
    ensures
        r@ == key_named(s@.subrange(lo as int, hi as int)),
{
    if range_is(s, lo, hi, &['e', 'x', 't']) {
        PredicateKey::Ext
    } else if range_is(s, lo, hi, &['n', 'a', 'm', 'e']) {
        PredicateKey::Name
    } else if range_is(s, lo, hi, &['p', 'a', 't', 'h']) {
        PredicateKey::Path
    } else if range_is(s, lo, hi, &['c', 'o', 'n', 't', 'a', 'i', 'n', 's']) {
        PredicateKey::Contains
    } else if range_is(s, lo, hi, &['m', 'a', 't', 'c', 'h', 'e', 's']) {
        PredicateKey::Matches
    } else if range_is(s, lo, hi, &['s', 'i', 'z', 'e']) {
        PredicateKey::Size
    } else if range_is(s, lo, hi, &['m', 'o', 'd', 'i', 'f', 'i', 'e', 'd']) {
        PredicateKey::Modified
    } else if range_is(s, lo, hi, &['i', 'n']) {
        PredicateKey::In
    } else if range_is(s, lo, hi, &['d', 'e', 'f']) {
        PredicateKey::Def
    } else if range_is(s, lo, hi, &['f', 'u', 'n', 'c']) {
        PredicateKey::Func
    } else if range_is(s, lo, hi, &['i', 'm', 'p', 'o', 'r', 't']) {
        PredicateKey::Import
    } else if range_is(s, lo, hi, &['c', 'l', 'a', 's', 's']) {
        PredicateKey::Class
    } else if range_is(s, lo, hi, &['s', 't', 'r', 'u', 'c', 't']) {
        PredicateKey::Struct
    } else if range_is(s, lo, hi, &['e', 'n', 'u', 'm']) {
        PredicateKey::Enum
    } else if range_is(s, lo, hi, &['i', 'n', 't', 'e', 'r', 'f', 'a', 'c', 'e']) {
        PredicateKey::Interface
    } else if range_is(s, lo, hi, &['t', 'r', 'a', 'i', 't']) {
        PredicateKey::Trait
    } else if range_is(s, lo, hi, &['t', 'y', 'p', 'e']) {
        PredicateKey::Type
    } else if range_is(s, lo, hi, &['c', 'o', 'm', 'm', 'e', 'n', 't']) {
        PredicateKey::Comment
    } else if range_is(s, lo, hi, &['s', 't', 'r']) {
        PredicateKey::Str
    } else if range_is(s, lo, hi, &['c', 'a', 'l', 'l']) {
        PredicateKey::Call
    } else {
        PredicateKey::Other(string_of_range(s, lo, hi))
    }
}

fn parse_predicate_at(s: &Vec<char>, p: usize) -> (r: Result<(AstNode, usize), usize>)
    requires
        p <= s.len(),
    ensures
        agrees(r, parse_predicate(s@, p as int)),
        advances(r, p as int, s.len() as int),
{
    let c = scan_key(s, p);
    if c == p {
        return Err(p);
    }
    if c >= s.len() || s[c] != ':' {
        return Err(c);
    }
    let v = c + 1;
    if v < s.len() && (s[v] == '"' || s[v] == '\'') {
        match find_close(s, v + 1, s[v]) {
            Some(e) => {
                let key = key_of_range(s, p, c);
                let text = unescape_range(s, v + 1, e);
                Ok((AstNode::Predicate(key, text), e + 1))
            },
            None => Err(s.len()),
        }
    } else {
        let b = scan_bare(s, v);
        if b == v {
            Err(v)
        } else {
            let key = key_of_range(s, p, c);
            let text = string_of_range(s, v, b);
            Ok((AstNode::Predicate(key, text), b))
        }
    }
}

fn parse_factor_at(s: &Vec<char>, i: usize) -> (r: Result<(AstNode, usize), usize>)
    requires
        i <= s.len(),
    ensures
        agrees(r, parse_factor(s@, i as int)),
        advances(r, i as int, s.len() as int),
    decreases s@.len() - i, 0int,
{
    let p = skip_spaces(s, i);
    if p < s.len() && s[p] == '(' {
        match parse_or_at(s, p + 1) {
            Err(e) => Err(e),
            Ok((x, k)) => {
                let q = skip_spaces(s, k);
                if q < s.len() && s[q] == ')' {
                    Ok((x, q + 1))
                } else {
                    Err(q)
                }
            },
        }
    } else {
        parse_predicate_at(s, p)
    }
}

fn parse_term_at(s: &Vec<char>, i: usize) -> (r: Result<(AstNode, usize), usize>)
    requires
        i <= s.len(),
    ensures
        agrees(r, parse_term(s@, i as int)),
        advances(r, i as int, s.len() as int),
    decreases s@.len() - i, 1int,
{
    let p = skip_spaces(s, i);
    let n = not_op_len(s, p);
    if n > 0 {
        match parse_factor_at(s, p + n) {
            Err(e) => Err(e),
            Ok((x, k)) => Ok((AstNode::Not(Box::new(x)), k)),
        }
    } else {
        parse_factor_at(s, i)
    }
}

fn parse_and_at(s: &Vec<char>, i: usize) -> (r: Result<(AstNode, usize), usize>)
    requires
        i <= s.len(),
    ensures
        agrees(r, parse_and(s@, i as int)),
        advances(r, i as int, s.len() as int),
    decreases s@.len() - i, 3int,
{
    let (first, k0) = match parse_term_at(s, i) {
        Ok(found) => found,
        Err(e) => return Err(e),
    };
    let mut acc = first;
    let mut k = k0;
    loop
        invariant
            i < k <= s.len(),
            parse_and(s@, i as int) == and_rest(s@, k as int, acc@),
        decreases s.len() - k,
    {
        let p = skip_spaces(s, k);
        let n = and_op_len(s, p);
        if n == 0 {
            return Ok((acc, k));
        }
        match parse_term_at(s, p + n) {
            Err(e) => return Err(e),
            Ok((y, k2)) => {
                acc = AstNode::LogicalOp(LogicalOperator::And, Box::new(acc), Box::new(y));
                k = k2;
            },
        }
    }
}

fn parse_or_at(s: &Vec<char>, i: usize) -> (r: Result<(AstNode, usize), usize>)
    requires
        i <= s.len(),
    ensures
        agrees(r, parse_or(s@, i as int)),
        advances(r, i as int, s.len() as int),
    decreases s@.len() - i, 5int,
{
    let (first, k0) = match parse_and_at(s, i) {
        Ok(found) => found,
        Err(e) => return Err(e),
    };
    let mut acc = first;
    let mut k = k0;
    loop
        invariant
            i < k <= s.len(),
            parse_or(s@, i as int) == or_rest(s@, k as int, acc@),
        decreases s.len() - k,
    {
        let p = skip_spaces(s, k);
        let n = or_op_len(s, p);
        if n == 0 {
            return Ok((acc, k));
        }
        match parse_and_at(s, p + n) {
            Err(e) => return Err(e),
            Ok((y, k2)) => {
                acc = AstNode::LogicalOp(LogicalOperator::Or, Box::new(acc), Box::new(y));
                k = k2;
            },
        }
    }
}

/// Parses a query into its syntax tree.
///
/// AND binds tighter than OR and NOT tighter than AND; both binary operators
/// associate to the left, and parentheses group. A query that is empty or
/// blank is refused with `ParseError::Empty`; any other text that the grammar
/// does not admit with `ParseError::Syntax`, at the first position where it
/// fails.
pub fn parse_query(query: &str) -> (r: Result<AstNode, ParseError>)
    ensures
        match r {
            Ok(a) => query_result(query@) == Ok::<Expr, ParseError>(a@),
            Err(e) => query_result(query@) == Err::<Expr, ParseError>(e),
        },
{
    RqlParser::parse(query)
}

/// The text that a value token stands for: a token in single or double
/// quotes loses its quotes and each backslash escape becomes the character it
/// escapes; any other token is returned as it is.
pub fn unescape_value(value: &str) -> (r: String)
    ensures
        r@ == value_text(value@),
{
    let s = chars_of(value);
    if s.len() >= 2 && (s[0] == '"' || s[0] == '\'') {
        unescape_range(&s, 1, s.len() - 1)
    } else {
        string_of_range(&s, 0, s.len())
    }
}


impl ParseError {
    /// A message for the operator.
    pub fn message(&self) -> (r: String)
        ensures
            match self {
                ParseError::Empty => r@ == "Query cannot be empty."@,
                ParseError::Syntax { position } => r@ == "Invalid query syntax:\n --> position "@
                    + decimal(*position as nat)
                    + ": expected a predicate, an operator, a parenthesis or the end of the query"@,
            },
    {
        match self {
            ParseError::Empty => String::from_str("Query cannot be empty."),
            ParseError::Syntax { position } => {
                let mut r = String::from_str("Invalid query syntax:\n --> position ");
                push_decimal(&mut r, *position as u64);
                r.append(": expected a predicate, an operator, a parenthesis or the end of the query");
                r
            },
        }
    }
}


/// The parser of the query language.
pub struct RqlParser;

impl RqlParser {
    /// Parses a whole query; see `parse_query`.
    pub fn parse(query: &str) -> (r: Result<AstNode, ParseError>)
        ensures
            match r {
                Ok(a) => query_result(query@) == Ok::<Expr, ParseError>(a@),
                Err(e) => query_result(query@) == Err::<Expr, ParseError>(e),
            },
    {
        let s = chars_of(query);
        if skip_spaces(&s, 0) == s.len() {
            return Err(ParseError::Empty);
        }
        match parse_or_at(&s, 0) {
            Err(e) => Err(ParseError::Syntax { position: e }),
            Ok((x, k)) => {
                let q = skip_spaces(&s, k);
                if q == s.len() {
                    Ok(x)
                } else {
                    Err(ParseError::Syntax { position: q })
                }
            },
        }
    }
}


/// The values of the `in` predicates of a query, left to right.
pub open spec fn directory_values(e: Expr) -> Seq<Seq<char>>
    decreases e,
{
    match e {
        Expr::Pred(k, v) => if k == Key::In {
            seq![v]
        } else {
            Seq::empty()
        },
        Expr::Op(_, l, r) => directory_values(*l) + directory_values(*r),
        Expr::Not(x) => directory_values(*x),
    }
}

/// The values of the `in` predicates of a query, left to right: the
/// directories whose location a caller resolves before evaluation.
pub fn in_directories(ast: &AstNode) -> (r: Vec<String>)
    ensures
        r@.map_values(|s: String| s@) == directory_values(ast@),
    decreases ast,
{
    match ast {
        AstNode::Predicate(PredicateKey::In, v) => {
            let r = vec![v.clone()];
            assert(r@.map_values(|s: String| s@) =~= seq![v@]);
            r
        },
        AstNode::Predicate(_, _) => {
            let r: Vec<String> = Vec::new();
            assert(r@.map_values(|s: String| s@) =~= Seq::<Seq<char>>::empty());
            r
        },
        AstNode::LogicalOp(_, l, r) => {
            let mut a = in_directories(l);
            let mut b = in_directories(r);
            let ghost va = a@;
            a.append(&mut b);
            assert(a@.map_values(|s: String| s@) =~= va.map_values(|s: String| s@) + directory_values(r@));
            a
        },
        AstNode::Not(x) => in_directories(x),
    }
}


impl PredicateKey {
    /// The key that a name denotes.
    pub fn from_name(name: &str) -> (r: PredicateKey)
        ensures
            r@ == key_named(name@),
    {
        let s = chars_of(name);
        assert(s@.subrange(0, s.len() as int) =~= s@);
        key_of_range(&s, 0, s.len())
    }

    /// The name of the key: the word of the vocabulary, or the name kept.
    pub fn as_str(&self) -> (r: &str)
        ensures
            match self {
                PredicateKey::Other(s) => r@ == s@,
                _ => key_named(r@) == self@,
            },
    {
        match self {
            PredicateKey::Ext => {
                proof {
                    reveal_strlit("ext");
                }
                let r = "ext";
                assert(r@ =~= seq!['e', 'x', 't']);
                r
            },
            PredicateKey::Name => {
                proof {
                    reveal_strlit("name");
                }
                let r = "name";
                assert(r@ =~= seq!['n', 'a', 'm', 'e']);
                r
            },
            PredicateKey::Path => {
                proof {
                    reveal_strlit("path");
                }
                let r = "path";
                assert(r@ =~= seq!['p', 'a', 't', 'h']);
                r
            },
            PredicateKey::Contains => {
                proof {
                    reveal_strlit("contains");
                }
                let r = "contains";
                assert(r@ =~= seq!['c', 'o', 'n', 't', 'a', 'i', 'n', 's']);
                r
            },
            PredicateKey::Matches => {
                proof {
                    reveal_strlit("matches");
                }
                let r = "matches";
                assert(r@ =~= seq!['m', 'a', 't', 'c', 'h', 'e', 's']);
                r
            },
            PredicateKey::Size => {
                proof {
                    reveal_strlit("size");
                }
                let r = "size";
                assert(r@ =~= seq!['s', 'i', 'z', 'e']);
                r
            },
            PredicateKey::Modified => {
                proof {
                    reveal_strlit("modified");
                }
                let r = "modified";
                assert(r@ =~= seq!['m', 'o', 'd', 'i', 'f', 'i', 'e', 'd']);
                r
            },
            PredicateKey::In => {
                proof {
                    reveal_strlit("in");
                }
                let r = "in";
                assert(r@ =~= seq!['i', 'n']);
                r
            },
            PredicateKey::Def => {
                proof {
                    reveal_strlit("def");
                }
                let r = "def";
                assert(r@ =~= seq!['d', 'e', 'f']);
                r
            },
            PredicateKey::Func => {
                proof {
                    reveal_strlit("func");
                }
                let r = "func";
                assert(r@ =~= seq!['f', 'u', 'n', 'c']);
                r
            },
            PredicateKey::Import => {
                proof {
                    reveal_strlit("import");
                }
                let r = "import";
                assert(r@ =~= seq!['i', 'm', 'p', 'o', 'r', 't']);
                r
            },
            PredicateKey::Class => {
                proof {
                    reveal_strlit("class");
                }
                let r = "class";
                assert(r@ =~= seq!['c', 'l', 'a', 's', 's']);
                r
            },
            PredicateKey::Struct => {
                proof {
                    reveal_strlit("struct");
                }
                let r = "struct";
                assert(r@ =~= seq!['s', 't', 'r', 'u', 'c', 't']);
                r
            },
            PredicateKey::Enum => {
                proof {
                    reveal_strlit("enum");
                }
                let r = "enum";
                assert(r@ =~= seq!['e', 'n', 'u', 'm']);
                r
            },
            PredicateKey::Interface => {
                proof {
                    reveal_strlit("interface");
                }
                let r = "interface";
                assert(r@ =~= seq!['i', 'n', 't', 'e', 'r', 'f', 'a', 'c', 'e']);
                r
            },
            PredicateKey::Trait => {
                proof {
                    reveal_strlit("trait");
                }
                let r = "trait";
                assert(r@ =~= seq!['t', 'r', 'a', 'i', 't']);
                r
            },
            PredicateKey::Type => {
                proof {
                    reveal_strlit("type");
                }
                let r = "type";
                assert(r@ =~= seq!['t', 'y', 'p', 'e']);
                r
            },
            PredicateKey::Comment => {
                proof {
                    reveal_strlit("comment");
                }
                let r = "comment";
                assert(r@ =~= seq!['c', 'o', 'm', 'm', 'e', 'n', 't']);
                r
            },
            PredicateKey::Str => {
                proof {
                    reveal_strlit("str");
                }
                let r = "str";
                assert(r@ =~= seq!['s', 't', 'r']);
                r
            },
            PredicateKey::Call => {
                proof {
                    reveal_strlit("call");
                }
                let r = "call";
                assert(r@ =~= seq!['c', 'a', 'l', 'l']);
                r
            },
            PredicateKey::Other(s) => {
                let t: &String = s;
                t.as_str()
            },
        }
    }
}


/// Keys whose evaluation reads the file's text.
pub open spec fn reads_text_key(k: Key) -> bool {
    match k {
        Key::Contains | Key::Matches | Key::Def | Key::Func | Key::Import | Key::Class | Key::Struct
        | Key::Enum | Key::Interface | Key::Trait | Key::Type | Key::Comment | Key::Str | Key::Call => true,
        _ => false,
    }
}

/// Some predicate of the query reads the file's text.
pub open spec fn reads_text(e: Expr) -> bool
    decreases e,
{
    match e {
        Expr::Pred(k, _) => reads_text_key(k),
        Expr::Op(_, l, r) => reads_text(*l) || reads_text(*r),
        Expr::Not(x) => reads_text(*x),
    }
}

/// Whether evaluating the query may need the file's text; where it does
/// not, the text need not be read.
pub fn needs_text(ast: &AstNode) -> (r: bool)
    ensures
        r == reads_text(ast@),
    decreases ast,
{
    match ast {
        AstNode::Predicate(k, _) => match k {
            PredicateKey::Contains | PredicateKey::Matches | PredicateKey::Def | PredicateKey::Func
            | PredicateKey::Import | PredicateKey::Class | PredicateKey::Struct | PredicateKey::Enum
            | PredicateKey::Interface | PredicateKey::Trait | PredicateKey::Type | PredicateKey::Comment
            | PredicateKey::Str | PredicateKey::Call => true,
            _ => false,
        },
        AstNode::LogicalOp(_, l, r) => needs_text(l) || needs_text(r),
        AstNode::Not(x) => needs_text(x),
    }
}

} // verus!
