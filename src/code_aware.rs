use vstd::prelude::*;

use crate::evaluator::{result_view, FileContext};
use crate::hunk::{MatchResult, Outcome, Point, Range};
use crate::predicates::{extension, extension_range, find_bytes, occurs_in, FileView, PredicateError};
use crate::profiles::{by_substring, has_pattern, language_for_extension, language_of, pattern_for, pattern_text, SourceLanguage};
use crate::query::{Key, PredicateKey};
use crate::text::chars_of;
use vstd::string::StrSliceExecFns;
use vstd::utf8::encode_utf8;

verus! {

/// A node that a structural pattern captured: the index of the capture's
/// name within the pattern, and the node's range.
#[derive(Debug, Clone, Copy)]
pub struct Capture {
    pub index: u32,
    /// Byte offset, row and column where the node starts.
    pub start: (usize, usize, usize),
    /// Byte offset, row and column where the node ends.
    pub end: (usize, usize, usize),
}

/// The range of a captured node.
pub open spec fn range_of(c: Capture) -> Range {
    Range {
        start_byte: c.start.0,
        end_byte: c.end.0,
        start_point: Point { row: c.start.1, column: c.start.2 },
        end_point: Point { row: c.end.1, column: c.end.2 },
    }
}

/// What tree-sitter gives for a pattern run over a text parsed with the
/// grammar of `lang`: nothing where the grammar, the parse or the pattern
/// fails; otherwise the index of the capture called `name`, where the
/// pattern has one, and every capture of every match, in order.
pub uninterp spec fn captures_for(lang: SourceLanguage, pattern: Seq<char>, name: Seq<char>, text: Seq<char>) -> Option<(Option<u32>, Seq<Capture>)>;

/// An executable result agrees with `captures_for`.
pub open spec fn captured(r: Option<(Option<u32>, Vec<Capture>)>, lang: SourceLanguage, pattern: Seq<char>, name: Seq<char>, text: Seq<char>) -> bool {
    match r {
        None => captures_for(lang, pattern, name, text) is None,
        Some((i, v)) => captures_for(lang, pattern, name, text) == Some((i, v@)),
    }
}

/// Relies on `tree_sitter_rust::language` for the grammar, `tree_sitter::Parser` (`new`,
/// `set_language`, `parse`), `tree_sitter::Tree::language` for the syntax tree, `tree_sitter::Query::new`
/// and `capture_index_for_name` for the pattern, and
/// `tree_sitter::QueryCursor::matches` from the tree's root for the captures.
#[verifier::external_body]
fn rust_captures(pattern: &str, name: &str, text: &str) -> (r: Option<(Option<u32>, Vec<Capture>)>)
    ensures
        match r {
            None => captures_for(SourceLanguage::Rust, pattern@, name@, text@) is None,
            Some((i, v)) => captures_for(SourceLanguage::Rust, pattern@, name@, text@) == Some((i, v@)),
        },
{
    let mut parser = tree_sitter::Parser::new();
    parser.set_language(&tree_sitter_rust::language()).ok()?;
    let tree = parser.parse(text, None)?;
    let query = tree_sitter::Query::new(&tree.language(), pattern).ok()?;
    let mut out = Vec::new();
    for m in tree_sitter::QueryCursor::new().matches(&query, tree.root_node(), text.as_bytes()) {
        for c in m.captures {
            let r = c.node.range();
            let (s, e) = (r.start_point, r.end_point);
            out.push(Capture { index: c.index, start: (r.start_byte, s.row, s.column), end: (r.end_byte, e.row, e.column) })
        }
    }
    Some((query.capture_index_for_name(name), out))
}

/// Relies on `tree_sitter_python::language` for the grammar, `tree_sitter::Parser` (`new`,
/// `set_language`, `parse`), `tree_sitter::Tree::language` for the syntax tree, `tree_sitter::Query::new`
/// and `capture_index_for_name` for the pattern, and
/// `tree_sitter::QueryCursor::matches` from the tree's root for the captures.
#[verifier::external_body]
fn python_captures(pattern: &str, name: &str, text: &str) -> (r: Option<(Option<u32>, Vec<Capture>)>)
    ensures
        match r {
            None => captures_for(SourceLanguage::Python, pattern@, name@, text@) is None,
            Some((i, v)) => captures_for(SourceLanguage::Python, pattern@, name@, text@) == Some((i, v@)),
        },
{
    let mut parser = tree_sitter::Parser::new();
    parser.set_language(&tree_sitter_python::language()).ok()?;
    let tree = parser.parse(text, None)?;
    let query = tree_sitter::Query::new(&tree.language(), pattern).ok()?;
    let mut out = Vec::new();
    for m in tree_sitter::QueryCursor::new().matches(&query, tree.root_node(), text.as_bytes()) {
        for c in m.captures {
            let r = c.node.range();
            let (s, e) = (r.start_point, r.end_point);
            out.push(Capture { index: c.index, start: (r.start_byte, s.row, s.column), end: (r.end_byte, e.row, e.column) })
        }
    }
    Some((query.capture_index_for_name(name), out))
}

/// Relies on `tree_sitter_go::language` for the grammar, `tree_sitter::Parser` (`new`,
/// `set_language`, `parse`), `tree_sitter::Tree::language` for the syntax tree, `tree_sitter::Query::new`
/// and `capture_index_for_name` for the pattern, and
/// `tree_sitter::QueryCursor::matches` from the tree's root for the captures.
#[verifier::external_body]
fn go_captures(pattern: &str, name: &str, text: &str) -> (r: Option<(Option<u32>, Vec<Capture>)>)
    ensures
        match r {
            None => captures_for(SourceLanguage::Go, pattern@, name@, text@) is None,
            Some((i, v)) => captures_for(SourceLanguage::Go, pattern@, name@, text@) == Some((i, v@)),
        },
{
    let mut parser = tree_sitter::Parser::new();
    parser.set_language(&tree_sitter_go::language()).ok()?;
    let tree = parser.parse(text, None)?;
    let query = tree_sitter::Query::new(&tree.language(), pattern).ok()?;
    let mut out = Vec::new();
    for m in tree_sitter::QueryCursor::new().matches(&query, tree.root_node(), text.as_bytes()) {
        for c in m.captures {
            let r = c.node.range();
            let (s, e) = (r.start_point, r.end_point);
            out.push(Capture { index: c.index, start: (r.start_byte, s.row, s.column), end: (r.end_byte, e.row, e.column) })
        }
    }
    Some((query.capture_index_for_name(name), out))
}

/// Relies on `tree_sitter_javascript::language` for the grammar, `tree_sitter::Parser` (`new`,
/// `set_language`, `parse`), `tree_sitter::Tree::language` for the syntax tree, `tree_sitter::Query::new`
/// and `capture_index_for_name` for the pattern, and
/// `tree_sitter::QueryCursor::matches` from the tree's root for the captures.
#[verifier::external_body]
fn javascript_captures(pattern: &str, name: &str, text: &str) -> (r: Option<(Option<u32>, Vec<Capture>)>)
    ensures
        match r {
            None => captures_for(SourceLanguage::JavaScript, pattern@, name@, text@) is None,
            Some((i, v)) => captures_for(SourceLanguage::JavaScript, pattern@, name@, text@) == Some((i, v@)),
        },
{
    let mut parser = tree_sitter::Parser::new();
    parser.set_language(&tree_sitter_javascript::language()).ok()?;
    let tree = parser.parse(text, None)?;
    let query = tree_sitter::Query::new(&tree.language(), pattern).ok()?;
    let mut out = Vec::new();
    for m in tree_sitter::QueryCursor::new().matches(&query, tree.root_node(), text.as_bytes()) {
        for c in m.captures {
            let r = c.node.range();
            let (s, e) = (r.start_point, r.end_point);
            out.push(Capture { index: c.index, start: (r.start_byte, s.row, s.column), end: (r.end_byte, e.row, e.column) })
        }
    }
    Some((query.capture_index_for_name(name), out))
}

/// Relies on `tree_sitter_typescript::language_typescript` for the grammar, `tree_sitter::Parser` (`new`,
/// `set_language`, `parse`), `tree_sitter::Tree::language` for the syntax tree, `tree_sitter::Query::new`
/// and `capture_index_for_name` for the pattern, and
/// `tree_sitter::QueryCursor::matches` from the tree's root for the captures.
#[verifier::external_body]
fn typescript_captures(pattern: &str, name: &str, text: &str) -> (r: Option<(Option<u32>, Vec<Capture>)>)
    ensures
        match r {
            None => captures_for(SourceLanguage::TypeScript, pattern@, name@, text@) is None,
            Some((i, v)) => captures_for(SourceLanguage::TypeScript, pattern@, name@, text@) == Some((i, v@)),
        },
{
    let mut parser = tree_sitter::Parser::new();
    parser.set_language(&tree_sitter_typescript::language_typescript()).ok()?;
    let tree = parser.parse(text, None)?;
    let query = tree_sitter::Query::new(&tree.language(), pattern).ok()?;
    let mut out = Vec::new();
    for m in tree_sitter::QueryCursor::new().matches(&query, tree.root_node(), text.as_bytes()) {
        for c in m.captures {
            let r = c.node.range();
            let (s, e) = (r.start_point, r.end_point);
            out.push(Capture { index: c.index, start: (r.start_byte, s.row, s.column), end: (r.end_byte, e.row, e.column) })
        }
    }
    Some((query.capture_index_for_name(name), out))
}

/// The captures of a pattern over a text, for each language.
fn captures_in(lang: SourceLanguage, pattern: &str, name: &str, text: &str) -> (r: Option<(Option<u32>, Vec<Capture>)>)
    ensures
        captured(r, lang, pattern@, name@, text@),
{
    match lang {
        SourceLanguage::Rust => rust_captures(pattern, name, text),
        SourceLanguage::Python => python_captures(pattern, name, text),
        SourceLanguage::Go => go_captures(pattern, name, text),
        SourceLanguage::JavaScript => javascript_captures(pattern, name, text),
        SourceLanguage::TypeScript => typescript_captures(pattern, name, text),
    }
}

pub open spec fn structural_key(k: Key) -> bool {
    match k {
        Key::Def | Key::Func | Key::Import | Key::Class | Key::Struct | Key::Enum | Key::Interface
        | Key::Trait | Key::Type | Key::Comment | Key::Str | Key::Call => true,
        _ => false,
    }
}

/// Whether a key is answered from the file's syntax tree.
pub fn is_structural(k: &PredicateKey) -> (r: bool)
    ensures
        r == structural_key(k@),
{
    match k {
        PredicateKey::Def | PredicateKey::Func | PredicateKey::Import | PredicateKey::Class
        | PredicateKey::Struct | PredicateKey::Enum | PredicateKey::Interface | PredicateKey::Trait
        | PredicateKey::Type | PredicateKey::Comment | PredicateKey::Str | PredicateKey::Call => true,
        _ => false,
    }
}

fn looks_inside(k: &PredicateKey) -> (r: bool)
    ensures
        r == by_substring(k@),
{
    match k {
        PredicateKey::Import | PredicateKey::Comment | PredicateKey::Str => true,
        _ => false,
    }
}

/// A capture's range lies within the text.
pub open spec fn in_bounds(c: Capture, src: Seq<u8>) -> bool {
    c.start.0 <= c.end.0 <= src.len()
}

/// The captured text holds the value (`substring`) or equals it.
pub open spec fn text_matches(t: Seq<u8>, v: Seq<u8>, substring: bool) -> bool {
    if substring {
        occurs_in(v, t)
    } else {
        t == v
    }
}

/// The ranges, in order, of the captures named by `idx` whose text in `src`
/// matches the value `v`.
pub open spec fn selected(caps: Seq<Capture>, idx: u32, src: Seq<u8>, v: Seq<u8>, substring: bool) -> Seq<Range>
    decreases caps.len(),
{
    if caps.len() == 0 {
        Seq::empty()
    } else {
        let rest = selected(caps.drop_last(), idx, src, v, substring);
        let c = caps.last();
        if c.index == idx && in_bounds(c, src) && text_matches(
            src.subrange(c.start.0 as int, c.end.0 as int),
            v,
            substring,
        ) {
            rest.push(range_of(c))
        } else {
            rest
        }
    }
}

fn bytes_equal(src: &[u8], lo: usize, hi: usize, v: &[u8]) -> (r: bool)
    requires
        lo <= hi <= src@.len(),
    ensures
        r == (src@.subrange(lo as int, hi as int) == v@),
{
    if hi - lo != v.len() {
        return false;
    }
    let mut k: usize = 0;
    while k < v.len()
        invariant
            k <= v@.len() == hi - lo,
            lo <= hi <= src@.len(),
            forall|m: int| 0 <= m < k ==> src@[lo + m] == v@[m],
        decreases v.len() - k,
    {
        if src[lo + k] != v[k] {
            assert(src@.subrange(lo as int, hi as int)[k as int] != v@[k as int]);
            return false;
        }
        k = k + 1;
    }
    assert(src@.subrange(lo as int, hi as int) =~= v@);
    true
}

/// The ranges of the captures named by `match_index` whose text in `source`
/// matches `value`: holds it where `substring` is set, equals it otherwise.
pub fn select_matches(captures: &Vec<Capture>, match_index: u32, source: &[u8], value: &[u8], substring: bool) -> (r: Vec<Range>)
    ensures
        r@ == selected(captures@, match_index, source@, value@, substring),
{
    let mut out: Vec<Range> = Vec::new();
    let mut i: usize = 0;
    while i < captures.len()
        invariant
            i <= captures.len(),
            out@ == selected(captures@.take(i as int), match_index, source@, value@, substring),
        decreases captures.len() - i,
    {
        assert(captures@.take(i as int + 1).drop_last() =~= captures@.take(i as int));
        let c = captures[i];
        if c.index == match_index && c.start.0 <= c.end.0 && c.end.0 <= source.len() {
            let hit = if substring {
                find_bytes(value, source, c.start.0, c.end.0)
            } else {
                bytes_equal(source, c.start.0, c.end.0, value)
            };
            if hit {
                out.push(
                    Range {
                        start_byte: c.start.0,
                        end_byte: c.end.0,
                        start_point: Point { row: c.start.1, column: c.start.2 },
                        end_point: Point { row: c.end.1, column: c.end.2 },
                    },
                );
            }
        }
        i = i + 1;
    }
    assert(captures@.take(captures.len() as int) =~= captures@);
    out
}

/// What a structural predicate gives: a vacuous non-match for a language
/// without a profile or a pattern for the key; otherwise, where the file's
/// text parses and the pattern compiles, the ranges of the nodes captured as
/// `match` whose text matches the value.
pub open spec fn structural_outcome(f: FileView, k: Key, v: Seq<char>) -> Result<Outcome, PredicateError> {
    match language_of(extension(f.path)) {
        None => Ok(Outcome::Hunks(Seq::empty())),
        Some(lang) => if !has_pattern(lang, k) {
            Ok(Outcome::Hunks(Seq::empty()))
        } else {
            match f.content {
                None => Err(PredicateError::Unreadable),
                Some(c) => match captures_for(lang, pattern_text(lang, k), "match"@, c) {
                    None => Err(PredicateError::SyntaxTree),
                    Some((None, _)) => Ok(Outcome::Hunks(Seq::empty())),
                    Some((Some(i), caps)) => Ok(
                        Outcome::Hunks(selected(caps, i, encode_utf8(c), encode_utf8(v), by_substring(k))),
                    ),
                },
            }
        },
    }
}

pub open spec fn structural_allowed(f: FileView, k: Key, v: Seq<char>, r: Result<Outcome, PredicateError>) -> bool {
    r == structural_outcome(f, k, v)
}

/// Evaluates a structural predicate on the file.
pub fn evaluate_structural(ctx: &mut FileContext, key: &PredicateKey, value: &str) -> (r: Result<MatchResult, PredicateError>)
    requires
        structural_key(key@),
    ensures
        final(ctx).file() == old(ctx).file(),
        final(ctx).remembered() == old(ctx).remembered(),
        structural_allowed(old(ctx).file(), key@, value@, result_view(r)),
{
    let p = chars_of(ctx.path.as_str());
    let (lo, hi) = extension_range(&p);
    let ext = ctx.path.as_str().substring_char(lo, hi);
    let lang = match language_for_extension(ext) {
        None => return Ok(MatchResult::Hunks(Vec::new())),
        Some(l) => l,
    };
    let pattern = match pattern_for(lang, key) {
        None => return Ok(MatchResult::Hunks(Vec::new())),
        Some(text) => text,
    };
    let c = match &ctx.content {
        None => return Err(PredicateError::Unreadable),
        Some(c) => c,
    };
    match captures_in(lang, pattern, "match", c.as_str()) {
        None => Err(PredicateError::SyntaxTree),
        Some((None, _)) => Ok(MatchResult::Hunks(Vec::new())),
        Some((Some(idx), caps)) => {
            let substring = looks_inside(key);
            let hunks = select_matches(&caps, idx, c.as_str().as_bytes(), value.as_bytes(), substring);
            Ok(MatchResult::Hunks(hunks))
        },
    }
}

/// Evaluates the code-aware predicates by matching structural patterns
/// against the file's syntax tree.
#[derive(Debug)]
pub struct CodeAwareEvaluator;

impl CodeAwareEvaluator {
    /// A key without a structural pattern gives a vacuous non-match.
    pub fn evaluate(&self, ctx: &mut FileContext, key: &PredicateKey, value: &str) -> (r: Result<MatchResult, PredicateError>)
        ensures
            final(ctx).file() == old(ctx).file(),
            final(ctx).remembered() == old(ctx).remembered(),
            structural_allowed(old(ctx).file(), key@, value@, result_view(r)),
    {
        if is_structural(key) {
            evaluate_structural(ctx, key, value)
        } else {
            Ok(MatchResult::Hunks(Vec::new()))
        }
    }
}

} // verus!
