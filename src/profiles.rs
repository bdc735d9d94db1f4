use vstd::prelude::*;

use crate::predicates::{eq_ignore_case, range_eq_ignore_case};
use crate::query::{Key, PredicateKey};
use crate::text::chars_of;

verus! {

/// The languages whose structure the code-aware predicates understand.
#[derive(Debug, Clone, Copy, PartialEq, Eq, Structural)]
pub enum SourceLanguage {
    Rust,
    Python,
    Go,
    JavaScript,
    TypeScript,
}

/// The language of a file extension (case-sensitive): `rs`, `py`, `go`,
/// `js` or `jsx`, `ts`.
pub open spec fn language_of(ext: Seq<char>) -> Option<SourceLanguage> {
    if ext == seq!['r', 's'] {
        Some(SourceLanguage::Rust)
    } else if ext == seq!['p', 'y'] {
        Some(SourceLanguage::Python)
    } else if ext == seq!['g', 'o'] {
        Some(SourceLanguage::Go)
    } else if ext == seq!['j', 's'] || ext == seq!['j', 's', 'x'] {
        Some(SourceLanguage::JavaScript)
    } else if ext == seq!['t', 's'] {
        Some(SourceLanguage::TypeScript)
    } else {
        None
    }
}

fn chars_are(s: &Vec<char>, w: &[char]) -> (r: bool)
    ensures
        r == (s@ == w@),
{
    if s.len() != w.len() {
        return false;
    }
    let mut i: usize = 0;
    while i < s.len()
        invariant
            i <= s.len() == w.len(),
            forall|j: int| 0 <= j < i ==> s@[j] == w@[j],
        decreases s.len() - i,
    {
        if s[i] != w[i] {
            return false;
        }
        i = i + 1;
    }
    assert(s@ =~= w@);
    true
}

/// The language of a file extension.
pub fn language_for_extension(ext: &str) -> (r: Option<SourceLanguage>)
    ensures
        r == language_of(ext@),
{
    let e = chars_of(ext);
    if chars_are(&e, &['r', 's']) {
        Some(SourceLanguage::Rust)
    } else if chars_are(&e, &['p', 'y']) {
        Some(SourceLanguage::Python)
    } else if chars_are(&e, &['g', 'o']) {
        Some(SourceLanguage::Go)
    } else if chars_are(&e, &['j', 's']) || chars_are(&e, &['j', 's', 'x']) {
        Some(SourceLanguage::JavaScript)
    } else if chars_are(&e, &['t', 's']) {
        Some(SourceLanguage::TypeScript)
    } else {
        None
    }
}

/// Whether the profile of `lang` has a structural pattern for key `k`.
pub open spec fn has_pattern(lang: SourceLanguage, k: Key) -> bool {
    match lang {
        SourceLanguage::Rust => match k {
            Key::Def | Key::Struct | Key::Enum | Key::Trait | Key::Type | Key::Func | Key::Import | Key::Call | Key::Comment | Key::Str => true,
            _ => false,
        },
        SourceLanguage::Python => match k {
            Key::Def | Key::Class | Key::Func | Key::Import | Key::Comment | Key::Str => true,
            _ => false,
        },
        SourceLanguage::Go => match k {
            Key::Def | Key::Struct | Key::Interface | Key::Type | Key::Func | Key::Call | Key::Import | Key::Comment | Key::Str => true,
            _ => false,
        },
        SourceLanguage::JavaScript => match k {
            Key::Def | Key::Class | Key::Func | Key::Import | Key::Call | Key::Comment | Key::Str => true,
            _ => false,
        },
        SourceLanguage::TypeScript => match k {
            Key::Def | Key::Class | Key::Interface | Key::Type | Key::Enum | Key::Func | Key::Import | Key::Call | Key::Comment | Key::Str => true,
            _ => false,
        },
    }
}

/// The text of the structural pattern of `lang` for `k`; each pattern names
/// the node that the predicate's value is compared with `@match`.
pub open spec fn pattern_text(lang: SourceLanguage, k: Key) -> Seq<char> {
    match lang {
        SourceLanguage::Rust => match k {
            Key::Def => "(struct_item name: (_) @match)\n(enum_item name: (_) @match)\n(trait_item name: (_) @match)\n(type_item name: (type_identifier) @match)"@,
            Key::Struct => "(struct_item name: (_) @match)"@,
            Key::Enum => "(enum_item name: (_) @match)"@,
            Key::Trait => "(trait_item name: (_) @match)"@,
            Key::Type => "(type_item name: (type_identifier) @match)"@,
            Key::Func => "[(function_item name: (identifier) @match) (function_signature_item name: (identifier) @match)]"@,
            Key::Import => "(use_declaration) @match"@,
            Key::Call => "(call_expression function: [(identifier) @match (field_expression field: (field_identifier) @match)]) (macro_invocation macro: (identifier) @match)"@,
            Key::Comment => "[(line_comment) @match (block_comment) @match]"@,
            Key::Str => "[(string_literal) @match (raw_string_literal) @match]"@,
            _ => Seq::empty(),
        },
        SourceLanguage::Python => match k {
            Key::Def => "(class_definition name: (identifier) @match)"@,
            Key::Class => "(class_definition name: (identifier) @match)"@,
            Key::Func => "(function_definition name: (identifier) @match)"@,
            Key::Import => "[(import_statement) @match (import_from_statement) @match]"@,
            Key::Comment => "(comment) @match"@,
            Key::Str => "(string) @match"@,
            _ => Seq::empty(),
        },
        SourceLanguage::Go => match k {
            Key::Def => "[(type_declaration (type_spec name: (type_identifier) @match type: (struct_type))) (type_declaration (type_spec name: (type_identifier) @match type: (interface_type)))]"@,
            Key::Struct => "(type_declaration (type_spec name: (type_identifier) @match type: (struct_type)))"@,
            Key::Interface => "(type_declaration (type_spec name: (type_identifier) @match type: (interface_type)))"@,
            Key::Type => "(type_declaration (type_spec name: (type_identifier) @match))"@,
            Key::Func => "[(function_declaration name: (identifier) @match) (method_declaration name: (field_identifier) @match)]"@,
            Key::Call => "(call_expression function: [(identifier) @match (selector_expression field: (field_identifier) @match)])"@,
            Key::Import => "(import_declaration) @match"@,
            Key::Comment => "(comment) @match"@,
            Key::Str => "[(interpreted_string_literal) @match (raw_string_literal) @match]"@,
            _ => Seq::empty(),
        },
        SourceLanguage::JavaScript => match k {
            Key::Def => "(class_declaration name: (identifier) @match)\n[(function_declaration name: (identifier) @match) (method_definition name: (property_identifier) @match)]"@,
            Key::Class => "(class_declaration name: (identifier) @match)"@,
            Key::Func => "[(function_declaration name: (identifier) @match) (method_definition name: (property_identifier) @match)]"@,
            Key::Import => "(import_statement) @match"@,
            Key::Call => "[(call_expression function: [(identifier) @match (member_expression property: (property_identifier) @match)]) (new_expression constructor: (identifier) @match)]"@,
            Key::Comment => "[(comment) @match (regex) @match]"@,
            Key::Str => "[(string) @match (template_string) @match]"@,
            _ => Seq::empty(),
        },
        SourceLanguage::TypeScript => match k {
            Key::Def => "[(class_declaration name: (type_identifier) @match) (interface_declaration name: (type_identifier) @match)]"@,
            Key::Class => "(class_declaration name: (type_identifier) @match)"@,
            Key::Interface => "(interface_declaration name: (type_identifier) @match)"@,
            Key::Type => "(type_alias_declaration name: (type_identifier) @match)"@,
            Key::Enum => "(enum_declaration name: (type_identifier) @match)"@,
            Key::Func => "[(function_declaration name: (identifier) @match) (method_definition name: (property_identifier) @match)]"@,
            Key::Import => "(import_statement) @match"@,
            Key::Call => "[(call_expression function: [(identifier) @match (member_expression property: (property_identifier) @match)]) (new_expression constructor: [(identifier) @match (type_identifier) @match])]"@,
            Key::Comment => "(comment) @match"@,
            Key::Str => "[(string) @match (template_string) @match]"@,
            _ => Seq::empty(),
        },
    }
}

/// The structural pattern of `lang` for `key`.
pub fn pattern_for(lang: SourceLanguage, key: &PredicateKey) -> (r: Option<&'static str>)
    ensures
        r is Some <==> has_pattern(lang, key@),
        r matches Some(t) ==> t@ == pattern_text(lang, key@),
{
    match lang {
        SourceLanguage::Rust => match key {
            PredicateKey::Def => Some("(struct_item name: (_) @match)\n(enum_item name: (_) @match)\n(trait_item name: (_) @match)\n(type_item name: (type_identifier) @match)"),
            PredicateKey::Struct => Some("(struct_item name: (_) @match)"),
            PredicateKey::Enum => Some("(enum_item name: (_) @match)"),
            PredicateKey::Trait => Some("(trait_item name: (_) @match)"),
            PredicateKey::Type => Some("(type_item name: (type_identifier) @match)"),
            PredicateKey::Func => Some("[(function_item name: (identifier) @match) (function_signature_item name: (identifier) @match)]"),
            PredicateKey::Import => Some("(use_declaration) @match"),
            PredicateKey::Call => Some("(call_expression function: [(identifier) @match (field_expression field: (field_identifier) @match)]) (macro_invocation macro: (identifier) @match)"),
            PredicateKey::Comment => Some("[(line_comment) @match (block_comment) @match]"),
            PredicateKey::Str => Some("[(string_literal) @match (raw_string_literal) @match]"),
            _ => None,
        },
        SourceLanguage::Python => match key {
            PredicateKey::Def => Some("(class_definition name: (identifier) @match)"),
            PredicateKey::Class => Some("(class_definition name: (identifier) @match)"),
            PredicateKey::Func => Some("(function_definition name: (identifier) @match)"),
            PredicateKey::Import => Some("[(import_statement) @match (import_from_statement) @match]"),
            PredicateKey::Comment => Some("(comment) @match"),
            PredicateKey::Str => Some("(string) @match"),
            _ => None,
        },
        SourceLanguage::Go => match key {
            PredicateKey::Def => Some("[(type_declaration (type_spec name: (type_identifier) @match type: (struct_type))) (type_declaration (type_spec name: (type_identifier) @match type: (interface_type)))]"),
            PredicateKey::Struct => Some("(type_declaration (type_spec name: (type_identifier) @match type: (struct_type)))"),
            PredicateKey::Interface => Some("(type_declaration (type_spec name: (type_identifier) @match type: (interface_type)))"),
            PredicateKey::Type => Some("(type_declaration (type_spec name: (type_identifier) @match))"),
            PredicateKey::Func => Some("[(function_declaration name: (identifier) @match) (method_declaration name: (field_identifier) @match)]"),
            PredicateKey::Call => Some("(call_expression function: [(identifier) @match (selector_expression field: (field_identifier) @match)])"),
            PredicateKey::Import => Some("(import_declaration) @match"),
            PredicateKey::Comment => Some("(comment) @match"),
            PredicateKey::Str => Some("[(interpreted_string_literal) @match (raw_string_literal) @match]"),
            _ => None,
        },
        SourceLanguage::JavaScript => match key {
            PredicateKey::Def => Some("(class_declaration name: (identifier) @match)\n[(function_declaration name: (identifier) @match) (method_definition name: (property_identifier) @match)]"),
            PredicateKey::Class => Some("(class_declaration name: (identifier) @match)"),
            PredicateKey::Func => Some("[(function_declaration name: (identifier) @match) (method_definition name: (property_identifier) @match)]"),
            PredicateKey::Import => Some("(import_statement) @match"),
            PredicateKey::Call => Some("[(call_expression function: [(identifier) @match (member_expression property: (property_identifier) @match)]) (new_expression constructor: (identifier) @match)]"),
            PredicateKey::Comment => Some("[(comment) @match (regex) @match]"),
            PredicateKey::Str => Some("[(string) @match (template_string) @match]"),
            _ => None,
        },
        SourceLanguage::TypeScript => match key {
            PredicateKey::Def => Some("[(class_declaration name: (type_identifier) @match) (interface_declaration name: (type_identifier) @match)]"),
            PredicateKey::Class => Some("(class_declaration name: (type_identifier) @match)"),
            PredicateKey::Interface => Some("(interface_declaration name: (type_identifier) @match)"),
            PredicateKey::Type => Some("(type_alias_declaration name: (type_identifier) @match)"),
            PredicateKey::Enum => Some("(enum_declaration name: (type_identifier) @match)"),
            PredicateKey::Func => Some("[(function_declaration name: (identifier) @match) (method_definition name: (property_identifier) @match)]"),
            PredicateKey::Import => Some("(import_statement) @match"),
            PredicateKey::Call => Some("[(call_expression function: [(identifier) @match (member_expression property: (property_identifier) @match)]) (new_expression constructor: [(identifier) @match (type_identifier) @match])]"),
            PredicateKey::Comment => Some("(comment) @match"),
            PredicateKey::Str => Some("[(string) @match (template_string) @match]"),
            _ => None,
        },
    }
}

/// Keys whose value is looked for inside the captured text; the others must
/// equal it.
pub open spec fn by_substring(k: Key) -> bool {
    k == Key::Import || k == Key::Comment || k == Key::Str
}


/// Every language with a profile.
pub fn list_language_profiles() -> (r: Vec<SourceLanguage>)
    ensures
        r@ == seq![
            SourceLanguage::Rust,
            SourceLanguage::Python,
            SourceLanguage::Go,
            SourceLanguage::JavaScript,
            SourceLanguage::TypeScript,
        ],
{
    let r = vec![
        SourceLanguage::Rust,
        SourceLanguage::Python,
        SourceLanguage::Go,
        SourceLanguage::JavaScript,
        SourceLanguage::TypeScript,
    ];
    assert(r@ =~= seq![
        SourceLanguage::Rust,
        SourceLanguage::Python,
        SourceLanguage::Go,
        SourceLanguage::JavaScript,
        SourceLanguage::TypeScript,
    ]);
    r
}


/// The name of a language, for people.
pub fn language_name(lang: SourceLanguage) -> (r: &'static str)
    ensures
        r@ == match lang {
            SourceLanguage::Rust => "Rust"@,
            SourceLanguage::Python => "Python"@,
            SourceLanguage::Go => "Go"@,
            SourceLanguage::JavaScript => "JavaScript"@,
            SourceLanguage::TypeScript => "TypeScript"@,
        },
{
    match lang {
        SourceLanguage::Rust => "Rust",
        SourceLanguage::Python => "Python",
        SourceLanguage::Go => "Go",
        SourceLanguage::JavaScript => "JavaScript",
        SourceLanguage::TypeScript => "TypeScript",
    }
}

/// The file extensions of a language.
pub fn language_extensions(lang: SourceLanguage) -> (r: Vec<&'static str>)
    ensures
        forall|i: int| 0 <= i < r@.len() ==> language_of(#[trigger] r@[i]@) == Some(lang),
        forall|e: Seq<char>| language_of(e) == Some(lang) ==> exists|i: int| 0 <= i < r@.len() && #[trigger] r@[i]@ == e,
{
    proof {
        reveal_strlit("rs");
        reveal_strlit("py");
        reveal_strlit("go");
        reveal_strlit("js");
        reveal_strlit("jsx");
        reveal_strlit("ts");
    }
    let r = match lang {
        SourceLanguage::Rust => vec!["rs"],
        SourceLanguage::Python => vec!["py"],
        SourceLanguage::Go => vec!["go"],
        SourceLanguage::JavaScript => vec!["js", "jsx"],
        SourceLanguage::TypeScript => vec!["ts"],
    };
    assert("rs"@ =~= seq!['r', 's'] && "py"@ =~= seq!['p', 'y'] && "go"@ =~= seq!['g', 'o']);
    assert("js"@ =~= seq!['j', 's'] && "jsx"@ =~= seq!['j', 's', 'x'] && "ts"@ =~= seq!['t', 's']);
    assert forall|e: Seq<char>| language_of(e) == Some(lang) implies exists|i: int| 0 <= i < r@.len() && #[trigger] r@[i]@ == e by {
        if e == seq!['j', 's', 'x'] {
            assert(r@[1]@ == e);
        } else {
            assert(r@[0]@ == e);
        }
    }
    r
}


/// The language that a word names, letters compared without regard to
/// ASCII case: its name or one of its extensions.
pub open spec fn language_called(s: Seq<char>) -> Option<SourceLanguage> {
    if eq_ignore_case(s, "rust"@) || eq_ignore_case(s, "rs"@) {
        Some(SourceLanguage::Rust)
    } else if eq_ignore_case(s, "python"@) || eq_ignore_case(s, "py"@) {
        Some(SourceLanguage::Python)
    } else if eq_ignore_case(s, "go"@) {
        Some(SourceLanguage::Go)
    } else if eq_ignore_case(s, "javascript"@) || eq_ignore_case(s, "js"@) || eq_ignore_case(s, "jsx"@) {
        Some(SourceLanguage::JavaScript)
    } else if eq_ignore_case(s, "typescript"@) || eq_ignore_case(s, "ts"@) {
        Some(SourceLanguage::TypeScript)
    } else {
        None
    }
}

fn called(s: &Vec<char>, word: &str) -> (r: bool)
    ensures
        r == eq_ignore_case(s@, word@),
{
    let w = chars_of(word);
    assert(s@.subrange(0, s.len() as int) =~= s@);
    range_eq_ignore_case(s, 0, s.len(), &w)
}

/// The language that a word names: its name or one of its extensions, in
/// any ASCII case.
pub fn language_named(word: &str) -> (r: Option<SourceLanguage>)
    ensures
        r == language_called(word@),
{
    let s = chars_of(word);
    if called(&s, "rust") || called(&s, "rs") {
        Some(SourceLanguage::Rust)
    } else if called(&s, "python") || called(&s, "py") {
        Some(SourceLanguage::Python)
    } else if called(&s, "go") {
        Some(SourceLanguage::Go)
    } else if called(&s, "javascript") || called(&s, "js") || called(&s, "jsx") {
        Some(SourceLanguage::JavaScript)
    } else if called(&s, "typescript") || called(&s, "ts") {
        Some(SourceLanguage::TypeScript)
    } else {
        None
    }
}

} // verus!
