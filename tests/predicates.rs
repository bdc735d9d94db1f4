use rdump::code_aware::CodeAwareEvaluator;
use rdump::evaluator::{create_predicate_registry, Evaluator};
use rdump::query::{in_directories, parse_query};
use rdump::evaluator::FileContext;
use rdump::predicates::{
    parse_and_compare_size, parse_and_compare_time, ContainsEvaluator, ExtEvaluator, InPathEvaluator, MatchesEvaluator,
    ModifiedEvaluator, NameEvaluator, PathEvaluator, PredicateError, SizeEvaluator,
};
use rdump::hunk::MatchResult;
use rdump::query::PredicateKey;

fn context(path: &str) -> FileContext {
    FileContext::new(path.to_string(), "/".to_string())
}

fn with_text(path: &str, text: &str) -> FileContext {
    let mut ctx = context(path);
    ctx.set_content(text.to_string());
    ctx
}

fn with_size(size: u64) -> FileContext {
    let mut ctx = context("data.bin");
    ctx.set_metadata(size, 1_000_000, 1_000_000);
    ctx
}

#[test]
fn ext_test_ext_evaluator() {
    let mut context_rs = context("main.rs");
    let mut context_toml = context("Cargo.TOML");
    let mut context_no_ext = context("README");
    let mut context_dotfile = context(".bashrc");
    let evaluator = ExtEvaluator;
    assert!(evaluator.evaluate(&mut context_rs, &PredicateKey::Ext, "rs").unwrap().is_match());
    assert!(!evaluator.evaluate(&mut context_rs, &PredicateKey::Ext, "toml").unwrap().is_match());
    assert!(evaluator.evaluate(&mut context_toml, &PredicateKey::Ext, "toml").unwrap().is_match(), "Should be case-insensitive");
    assert!(!evaluator.evaluate(&mut context_no_ext, &PredicateKey::Ext, "rs").unwrap().is_match());
    assert!(!evaluator.evaluate(&mut context_dotfile, &PredicateKey::Ext, "bashrc").unwrap().is_match(), "Dotfiles should have no extension");
}

#[test]
fn mod_test_ext_evaluator() {
    let mut context_rs = context("main.rs");
    let mut context_toml = context("Cargo.TOML");
    let mut context_no_ext = context("README");
    let mut context_dotfile = context(".bashrc");
    let evaluator = ExtEvaluator;
    assert!(evaluator.evaluate(&mut context_rs, &PredicateKey::Ext, "rs").unwrap().is_match());
    assert!(!evaluator.evaluate(&mut context_rs, &PredicateKey::Ext, "toml").unwrap().is_match());
    assert!(evaluator.evaluate(&mut context_toml, &PredicateKey::Ext, "toml").unwrap().is_match(), "Should be case-insensitive");
    assert!(!evaluator.evaluate(&mut context_no_ext, &PredicateKey::Ext, "rs").unwrap().is_match());
    assert!(!evaluator.evaluate(&mut context_dotfile, &PredicateKey::Ext, "bashrc").unwrap().is_match(), "Dotfiles should have no extension");
}

#[test]
fn extension_of_nested_and_trailing_paths() {
    let evaluator = ExtEvaluator;
    assert!(evaluator.evaluate(&mut context("/a/b.c/archive.tar.gz"), &PredicateKey::Ext, "gz").unwrap().is_match());
    assert!(evaluator.evaluate(&mut context("src/lib.rs/"), &PredicateKey::Ext, "rs").unwrap().is_match());
    assert!(evaluator.evaluate(&mut context("dir.d/README"), &PredicateKey::Ext, "").unwrap().is_match());
}

#[test]
fn test_path_evaluator() {
    let mut context = context("/home/user/project/src/main.rs");
    let evaluator = PathEvaluator;
    assert!(evaluator.evaluate(&mut context, &PredicateKey::Path, "project/src").unwrap().is_match());
    assert!(evaluator.evaluate(&mut context, &PredicateKey::Path, "/home/user").unwrap().is_match());
    assert!(!evaluator.evaluate(&mut context, &PredicateKey::Path, "project/lib").unwrap().is_match());
    assert!(evaluator.evaluate(&mut context, &PredicateKey::Path, "main.rs").unwrap().is_match());
}

#[test]
fn test_path_evaluator_contains() {
    let mut context = FileContext::new("/home/user/project/src/main.rs".to_string(), "/".to_string());
    let evaluator = PathEvaluator;
    assert!(evaluator.evaluate(&mut context, &PredicateKey::Path, "project/src").unwrap().is_match());
    assert!(evaluator.evaluate(&mut context, &PredicateKey::Path, "/home/user").unwrap().is_match());
    assert!(!evaluator.evaluate(&mut context, &PredicateKey::Path, "project/lib").unwrap().is_match());
    assert!(evaluator.evaluate(&mut context, &PredicateKey::Path, "main.rs").unwrap().is_match());
}

#[test]
fn test_path_evaluator_wildcard() {
    let mut context = FileContext::new("/home/user/project/src/main.rs".to_string(), "/".to_string());
    let evaluator = PathEvaluator;
    assert!(evaluator.evaluate(&mut context, &PredicateKey::Path, "**/main.rs").unwrap().is_match());
    assert!(evaluator.evaluate(&mut context, &PredicateKey::Path, "/home/user/project/src/*.rs").unwrap().is_match());
    assert!(evaluator.evaluate(&mut context, &PredicateKey::Path, "*.rs").unwrap().is_match());
    assert!(evaluator.evaluate(&mut context, &PredicateKey::Path, "**/*.rs").unwrap().is_match());
    assert!(!evaluator.evaluate(&mut context, &PredicateKey::Path, "**/*.ts").unwrap().is_match());
}

#[test]
fn test_empty_path_query() {
    let mut context = FileContext::new("/home/user/project/src/main.rs".to_string(), "/".to_string());
    let evaluator = PathEvaluator;
    assert!(evaluator.evaluate(&mut context, &PredicateKey::Path, "").unwrap().is_match());
}

#[test]
fn invalid_path_glob_is_an_error() {
    let mut ctx = context("/a/b.rs");
    assert_eq!(PathEvaluator.evaluate(&mut ctx, &PredicateKey::Path, "a[").unwrap_err(), PredicateError::InvalidPattern);
}

#[test]
fn name_test_name_evaluator() {
    let mut context1 = context("/home/user/Cargo.toml");
    let mut context2 = context("/home/user/main.rs");
    let evaluator = NameEvaluator;
    assert!(evaluator.evaluate(&mut context1, &PredicateKey::Name, "Cargo.toml").unwrap().is_match());
    assert!(evaluator.evaluate(&mut context1, &PredicateKey::Name, "C*.toml").unwrap().is_match(), "Glob pattern should match");
    assert!(evaluator.evaluate(&mut context2, &PredicateKey::Name, "*.rs").unwrap().is_match(), "Glob pattern should match");
    assert!(!evaluator.evaluate(&mut context1, &PredicateKey::Name, "*.rs").unwrap().is_match());
}

#[test]
fn mod_test_name_evaluator() {
    let mut context1 = context("/home/user/Cargo.toml");
    let mut context2 = context("/home/user/main.rs");
    let evaluator = NameEvaluator;
    assert!(evaluator.evaluate(&mut context1, &PredicateKey::Name, "Cargo.toml").unwrap().is_match());
    assert!(evaluator.evaluate(&mut context1, &PredicateKey::Name, "C*.toml").unwrap().is_match(), "Glob pattern should match");
    assert!(evaluator.evaluate(&mut context2, &PredicateKey::Name, "*.rs").unwrap().is_match(), "Glob pattern should match");
    assert!(!evaluator.evaluate(&mut context1, &PredicateKey::Name, "*.rs").unwrap().is_match());
}

#[test]
fn name_glob_ignores_case_and_rejects_bad_patterns() {
    let mut ctx = context("/x/README.MD");
    assert!(NameEvaluator.evaluate(&mut ctx, &PredicateKey::Name, "readme.md").unwrap().is_match());
    assert_eq!(NameEvaluator.evaluate(&mut ctx, &PredicateKey::Name, "[").unwrap_err(), PredicateError::InvalidPattern);
}

#[test]
fn contains_test_contains_evaluator() {
    let mut context = with_text("t.txt", "Hello world\nThis is a test.");
    let evaluator = ContainsEvaluator;
    assert!(evaluator.evaluate(&mut context, &PredicateKey::Contains, "world").unwrap().is_match());
    assert!(evaluator.evaluate(&mut context, &PredicateKey::Contains, "is a test").unwrap().is_match());
    assert!(!evaluator.evaluate(&mut context, &PredicateKey::Contains, "goodbye").unwrap().is_match());
}

#[test]
fn mod_test_contains_evaluator() {
    let mut context = with_text("t.txt", "Hello world\nThis is a test.");
    let evaluator = ContainsEvaluator;
    assert!(evaluator.evaluate(&mut context, &PredicateKey::Contains, "world").unwrap().is_match());
    assert!(evaluator.evaluate(&mut context, &PredicateKey::Contains, "is a test").unwrap().is_match());
    assert!(!evaluator.evaluate(&mut context, &PredicateKey::Contains, "goodbye").unwrap().is_match());
}

#[test]
fn contains_reports_whole_lines() {
    let text = "first\r\nsecond needle\nthird\nneedle";
    let mut ctx = with_text("t.txt", text);
    match ContainsEvaluator.evaluate(&mut ctx, &PredicateKey::Contains, "needle").unwrap() {
        MatchResult::Hunks(h) => {
            assert_eq!(h.len(), 2);
            assert_eq!(&text[h[0].start_byte..h[0].end_byte], "second needle");
            assert_eq!((h[0].start_point.row, h[0].end_point.column), (1, 13));
            assert_eq!(&text[h[1].start_byte..h[1].end_byte], "needle");
            assert_eq!(h[1].start_point.row, 3);
        },
        MatchResult::Boolean(_) => panic!("expected hunks"),
    }
    let mut unread = context("t.txt");
    assert_eq!(ContainsEvaluator.evaluate(&mut unread, &PredicateKey::Contains, "x").unwrap_err(), PredicateError::Unreadable);
}

#[test]
fn matches_test_matches_evaluator() {
    let mut context = with_text("Cargo.toml", "version = \"0.1.0\"\nauthor = \"test\"");
    let evaluator = MatchesEvaluator;
    assert!(evaluator.evaluate(&mut context, &PredicateKey::Matches, r#"version = "[0-9]+\.[0-9]+\.[0-9]+""#).unwrap().is_match());
    assert!(evaluator.evaluate(&mut context, &PredicateKey::Matches, r#"(?s)version.*author"#).unwrap().is_match());
    assert!(!evaluator.evaluate(&mut context, &PredicateKey::Matches, r#"^version = "1.0.0"$"#).unwrap().is_match());
}

#[test]
fn mod_test_matches_evaluator() {
    let mut context = with_text("Cargo.toml", "version = \"0.1.0\"\nauthor = \"test\"");
    let evaluator = MatchesEvaluator;
    assert!(evaluator.evaluate(&mut context, &PredicateKey::Matches, "version = \"[0-9]+\\.[0-9]+\\.[0-9]+\"").unwrap().is_match());
    assert!(evaluator.evaluate(&mut context, &PredicateKey::Matches, "(?s)version.*author").unwrap().is_match());
    assert!(!evaluator.evaluate(&mut context, &PredicateKey::Matches, "^version = \"1.0.0\"$").unwrap().is_match());
}

#[test]
fn invalid_regex_is_an_error() {
    let mut ctx = with_text("a.txt", "x");
    assert_eq!(MatchesEvaluator.evaluate(&mut ctx, &PredicateKey::Matches, "(").unwrap_err(), PredicateError::InvalidPattern);
}

#[test]
fn mod_test_size_evaluator() {
    let mut context = with_size(2000);
    let evaluator = SizeEvaluator;
    assert!(evaluator.evaluate(&mut context, &PredicateKey::Size, ">1000").unwrap().is_match());
    assert!(!evaluator.evaluate(&mut context, &PredicateKey::Size, "<1kb").unwrap().is_match());
    assert!(evaluator.evaluate(&mut context, &PredicateKey::Size, ">0.9kb").unwrap().is_match());
}

#[test]
fn size_test_size_evaluator() {
    let mut context = with_size(2000);
    let evaluator = SizeEvaluator;
    assert!(evaluator.evaluate(&mut context, &PredicateKey::Size, ">1000").unwrap().is_match());
    assert!(!evaluator.evaluate(&mut context, &PredicateKey::Size, "<1kb").unwrap().is_match());
    assert!(evaluator.evaluate(&mut context, &PredicateKey::Size, ">0.9kb").unwrap().is_match());
}

#[test]
fn size_values_and_their_errors() {
    assert_eq!(parse_and_compare_size(1024, ">1024"), Ok(false));
    assert_eq!(parse_and_compare_size(1024, "<1024"), Ok(false));
    assert_eq!(parse_and_compare_size(1024, ">1023"), Ok(true));
    assert_eq!(parse_and_compare_size(1024, "=1kb"), Ok(true));
    assert_eq!(parse_and_compare_size(1024, "1KB"), Ok(true));
    assert_eq!(parse_and_compare_size(921, " = 0.9 kb "), Ok(true));
    assert_eq!(parse_and_compare_size(1536, "1.5k"), Ok(true));
    assert_eq!(parse_and_compare_size(3 * 1048576, ">2mb"), Ok(true));
    assert_eq!(parse_and_compare_size(1073741824, "=1g"), Ok(true));
    assert_eq!(parse_and_compare_size(5, "5xb"), Err(PredicateError::InvalidUnit));
    assert_eq!(parse_and_compare_size(5, ">kb"), Err(PredicateError::InvalidNumber));
    assert_eq!(parse_and_compare_size(5, "1.2.3"), Err(PredicateError::InvalidNumber));
    assert_eq!(parse_and_compare_size(5, "!5"), Err(PredicateError::InvalidNumber));
    let mut unknown = context("a");
    assert_eq!(SizeEvaluator.evaluate(&mut unknown, &PredicateKey::Size, ">1").unwrap_err(), PredicateError::MissingMetadata);
}

fn just_modified() -> FileContext {
    let mut ctx = context("fresh.txt");
    ctx.set_metadata(7, 1_700_000_000, 1_700_000_000);
    ctx
}

#[test]
fn mod_test_modified_evaluator() {
    let mut context = just_modified();
    let evaluator = ModifiedEvaluator;
    assert!(evaluator.evaluate(&mut context, &PredicateKey::Modified, ">1m").unwrap().is_match());
    assert!(!evaluator.evaluate(&mut context, &PredicateKey::Modified, "<1m").unwrap().is_match());
}

#[test]
fn modified_test_modified_evaluator() {
    let mut context = just_modified();
    let evaluator = ModifiedEvaluator;
    assert!(evaluator.evaluate(&mut context, &PredicateKey::Modified, ">1m").unwrap().is_match());
    assert!(!evaluator.evaluate(&mut context, &PredicateKey::Modified, "<1m").unwrap().is_match());
}

#[test]
fn time_values_and_their_errors() {
    assert_eq!(parse_and_compare_time(100, 1000, ">2d"), Err(PredicateError::TimeUnderflow));
    assert_eq!(parse_and_compare_time(900, 1000, "=100s"), Ok(true));
    assert_eq!(parse_and_compare_time(899, 1000, "<100s"), Ok(true));
    assert_eq!(parse_and_compare_time(99_000, 100_000, "> 1 h"), Ok(true));
    assert_eq!(parse_and_compare_time(1000, 100_000, "> 1 h"), Ok(false));
    assert_eq!(parse_and_compare_time(0, 1000, "5 parsecs"), Err(PredicateError::InvalidTime));
    assert_eq!(parse_and_compare_time(0, 1000, ">h"), Err(PredicateError::InvalidTime));
    assert_eq!(parse_and_compare_time(0, 1000, "2024-13-01"), Err(PredicateError::InvalidTime));
    assert_eq!(parse_and_compare_time(0, 1000, "2023-02-29"), Err(PredicateError::InvalidTime));
    assert_eq!(parse_and_compare_time(u64::MAX, 1000, "=2024-01-01"), Ok(false));
    assert_eq!(parse_and_compare_time(u64::MAX, 1000, ">2024-1-5"), Ok(true));
    assert_eq!(parse_and_compare_time(0, 1000, "2024-01-01 25:00:00"), Err(PredicateError::InvalidTime));
}

#[test]
fn absolute_dates_compare_with_the_modification_time() {
    // 2023-11-14, whatever the time zone: well after 2020 and before 2030.
    let modified = 1_700_000_000;
    assert_eq!(parse_and_compare_time(modified, modified, ">2020-01-01"), Ok(true));
    assert_eq!(parse_and_compare_time(modified, modified, "<2020-01-01"), Ok(false));
    assert_eq!(parse_and_compare_time(modified, modified, "<2030-06-15 12:00:00"), Ok(true));
    assert_eq!(parse_and_compare_time(modified, modified, "=2024-02-29"), Ok(false));
    assert_eq!(parse_and_compare_time(modified, modified, "= 2023-11-14 ").is_ok(), true);
}

const RUST_CODE: &str = r#"
            // TODO: refactor this module
            use std::collections::HashMap;

            type ConfigMap = HashMap<String, String>;

            pub struct AppConfig {}

            pub trait Runnable {
                fn run(&self);
            }

            fn launch_app() {
                let msg = "Launching...";
                println!("{}", msg);
            }
        "#;

fn code(path: &str, text: &str, key: PredicateKey, value: &str) -> bool {
    let mut ctx = with_text(path, text);
    CodeAwareEvaluator.evaluate(&mut ctx, &key, value).unwrap().is_match()
}

#[test]
fn test_code_aware_evaluator_full_rust_suite() {
    assert!(code("complex.rs", RUST_CODE, PredicateKey::Struct, "AppConfig"));
    assert!(code("complex.rs", RUST_CODE, PredicateKey::Trait, "Runnable"));
    assert!(code("complex.rs", RUST_CODE, PredicateKey::Type, "ConfigMap"));
    assert!(code("complex.rs", RUST_CODE, PredicateKey::Func, "run"));
    assert!(code("complex.rs", RUST_CODE, PredicateKey::Func, "launch_app"));
    assert!(code("complex.rs", RUST_CODE, PredicateKey::Call, "println"), "Should find function call");
    assert!(!code("complex.rs", RUST_CODE, PredicateKey::Call, "launch_app"), "Should not find the definition as a call");
    assert!(code("complex.rs", RUST_CODE, PredicateKey::Comment, "TODO"));
    assert!(code("complex.rs", RUST_CODE, PredicateKey::Str, "Launching..."));
}

#[test]
fn test_code_aware_evaluator_javascript_suite() {
    let js_code = r#"
            import { open } from 'fs/promises';
            class Logger {
                log(message) { console.log(message); }
            }
            function a() {
                const l = new Logger();
                l.log("hello");
            }
        "#;
    assert!(code("script.js", js_code, PredicateKey::Def, "Logger"));
    assert!(code("script.js", js_code, PredicateKey::Func, "log"));
    assert!(code("script.js", js_code, PredicateKey::Import, "fs/promises"));
    assert!(code("script.js", js_code, PredicateKey::Call, "Logger"), "Should find constructor call");
    assert!(code("script.js", js_code, PredicateKey::Call, "log"), "Should find method call");
}

#[test]
fn test_code_aware_evaluator_typescript_suite() {
    let ts_code = r#"
            import React from 'react';
            interface User { id: number; }
            type ID = string | number;
            class ApiClient {
                // The URL for the API
                private url = "https://api.example.com";
                fetchUser(): User | null { return null; }
            }
            const client = new ApiClient();
            client.fetchUser();
        "#;
    assert!(code("api.ts", ts_code, PredicateKey::Def, "ApiClient"), "Should find class");
    assert!(code("api.ts", ts_code, PredicateKey::Func, "fetchUser"));
    assert!(code("api.ts", ts_code, PredicateKey::Import, "React"));
    assert!(code("api.ts", ts_code, PredicateKey::Call, "ApiClient"), "Should find TS constructor call");
    assert!(code("api.ts", ts_code, PredicateKey::Call, "fetchUser"), "Should find TS method call");
    assert!(code("api.ts", ts_code, PredicateKey::Comment, "The URL"));
    assert!(code("api.ts", ts_code, PredicateKey::Str, "https://api.example.com"));
}

#[test]
fn test_code_aware_evaluator_go_suite() {
    let go_code = r#"
           package main

           import "fmt"

           // User represents a user
           type User struct {
               ID int
           }

           func (u *User) Greet() {
               fmt.Println("Hello")
           }

           func main() {
               user := User{ID: 1}
               user.Greet()
           }
       "#;
    assert!(code("main.go", go_code, PredicateKey::Struct, "User"));
    assert!(code("main.go", go_code, PredicateKey::Func, "Greet"));
    assert!(code("main.go", go_code, PredicateKey::Call, "Println"));
    assert!(code("main.go", go_code, PredicateKey::Import, "fmt"));
    assert!(code("main.go", go_code, PredicateKey::Comment, "represents a user"));
}

#[test]
fn python_definitions_and_imports() {
    let py = "# FIXME: use a real database\nimport os\n\nclass DataProcessor:\n    def connect(self):\n        print(\"Connecting...\")\n";
    assert!(code("script.py", py, PredicateKey::Class, "DataProcessor"));
    assert!(code("script.py", py, PredicateKey::Func, "connect"));
    assert!(code("script.py", py, PredicateKey::Import, "os"));
    assert!(code("script.py", py, PredicateKey::Comment, "FIXME"));
    assert!(code("script.py", py, PredicateKey::Str, "Connecting"));
    assert!(!code("script.py", py, PredicateKey::Struct, "DataProcessor"));
}

#[test]
fn structural_predicates_on_unknown_languages_do_not_match() {
    assert!(!code("notes.md", "struct User {}", PredicateKey::Struct, "User"));
    let mut ctx = with_text("lib.rs", "struct User {}");
    match CodeAwareEvaluator.evaluate(&mut ctx, &PredicateKey::Ext, "rs").unwrap() {
        MatchResult::Hunks(h) => assert!(h.is_empty()),
        MatchResult::Boolean(_) => panic!("expected hunks"),
    }
    let mut unread = context("lib.rs");
    assert_eq!(CodeAwareEvaluator.evaluate(&mut unread, &PredicateKey::Struct, "User").unwrap_err(), PredicateError::Unreadable);
}

#[test]
fn definitions_match_exactly() {
    assert!(!code("lib.rs", "struct UserId;", PredicateKey::Struct, "User"));
    assert!(code("lib.rs", "use serde::Serialize;", PredicateKey::Import, "serde"));
}

fn located(path: &str, root: &str, dirs: &[(&str, Option<&str>)]) -> FileContext {
    let mut ctx = FileContext::new(path.to_string(), root.to_string());
    let dirs = dirs.iter().map(|(v, c)| (v.to_string(), c.map(|c| c.to_string()))).collect();
    ctx.set_locations(Some(path.to_string()), dirs);
    ctx
}

fn is_in(ctx: &mut FileContext, value: &str) -> bool {
    let query = format!("in:'{}'", value);
    Evaluator::new(parse_query(&query).unwrap(), create_predicate_registry()).evaluate(ctx).unwrap().is_match()
}

#[test]
fn test_in_path_evaluator_exact() {
    let dirs = [
        ("/r/project/src", Some("/r/project/src")),
        ("/r/project", Some("/r/project")),
        ("/r/other_project", Some("/r/other_project")),
        ("project/src", Some("/r/project/src")),
        ("./project/src", Some("/r/project/src")),
        ("other_project", Some("/r/other_project")),
        ("/r/project/src/main.rs", Some("/r/project/src/main.rs")),
        ("non_existent_dir", None),
        ("/r/proj", Some("/r/proj")),
    ];
    let mut ctx = located("/r/project/src/main.rs", "/r", &dirs);
    assert!(is_in(&mut ctx, "/r/project/src"));
    assert!(is_in(&mut ctx, "/r/project"));
    assert!(!is_in(&mut ctx, "/r/other_project"));
    assert!(is_in(&mut ctx, "project/src"));
    assert!(is_in(&mut ctx, "./project/src"));
    assert!(!is_in(&mut ctx, "other_project"));
    assert!(is_in(&mut ctx, "/r/project/src/main.rs"));
    assert!(!is_in(&mut ctx, "non_existent_dir"));
    assert!(!is_in(&mut ctx, "/r/proj"));
    assert!(!is_in(&mut ctx, "never_resolved"));
}

#[test]
fn test_in_path_evaluator_wildcard() {
    let mut a = located("/r/project_a/src/main.rs", "/r", &[("project_a/src", Some("/r/project_a/src"))]);
    let mut b = located("/r/project_b/source/lib.rs", "/r", &[]);
    let mut c = located("/r/other/src/component.js", "/r", &[]);
    assert!(is_in(&mut a, "**/src"));
    assert!(!is_in(&mut b, "**/src"));
    assert!(is_in(&mut c, "**/src"));
    assert!(is_in(&mut a, "project_a/src"));
    assert!(!is_in(&mut b, "project_*/src"));
    assert!(!is_in(&mut c, "project_*/src"));
    assert!(is_in(&mut a, "**/project_a/s?c"));
    assert!(!is_in(&mut b, "**/project_a/s?c"));
    assert!(!is_in(&mut a, "**/test"));
    assert!(!is_in(&mut a, "**/so*ce"));
    assert!(is_in(&mut b, "**/so*ce"));
    assert!(!is_in(&mut c, "**/so*ce"));
}

#[test]
fn test_in_path_evaluator_relative_wildcard() {
    let mut a = located("/r/project_a/src/main.rs", "/r", &[]);
    assert!(is_in(&mut a, "project_a/*"));
    assert!(!is_in(&mut a, "project_b/*"));
    assert!(is_in(&mut a, "project_a/s?c"));
}

#[test]
fn in_directories_are_listed_for_resolution() {
    let ast = parse_query("in:src & !(in:'a b' | ext:rs)").unwrap();
    assert_eq!(in_directories(&ast), vec!["src".to_string(), "a b".to_string()]);
}

#[test]
fn in_path_evaluator_on_its_own() {
    let mut ctx = located("/r/a/b.rs", "/r", &[("a", Some("/r/a")), ("b", Some("/r/b"))]);
    assert!(InPathEvaluator.evaluate(&mut ctx, &PredicateKey::In, "a").unwrap().is_match());
    assert!(!InPathEvaluator.evaluate(&mut ctx, &PredicateKey::In, "b").unwrap().is_match());
    assert_eq!(InPathEvaluator.evaluate(&mut ctx, &PredicateKey::In, "a[").unwrap_err(), PredicateError::InvalidPattern);
}
