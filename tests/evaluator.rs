use rdump::evaluator::{create_metadata_registry, create_predicate_registry, Evaluator, FileContext};
use rdump::hunk::{MatchResult, Point, Range};
use rdump::query::{parse_query, LogicalOperator};

fn context_with(path: &str, content: &str) -> FileContext {
    let mut ctx = FileContext::new(path.to_string(), "/".to_string());
    ctx.set_content(content.to_string());
    ctx
}

fn evaluate(query: &str, ctx: &mut FileContext) -> MatchResult {
    let evaluator = Evaluator::new(parse_query(query).unwrap(), create_predicate_registry());
    evaluator.evaluate(ctx).unwrap()
}

fn range(start: usize, end: usize) -> Range {
    Range {
        start_byte: start,
        end_byte: end,
        start_point: Point { row: 0, column: start },
        end_point: Point { row: 0, column: end },
    }
}

#[test]
fn test_evaluate_simple_predicate() {
    let mut context = context_with("file.txt", "hello world");
    let ast = parse_query("contains:world").unwrap();
    let evaluator = Evaluator::new(ast, create_predicate_registry());
    assert!(evaluator.evaluate(&mut context).unwrap().is_match());
}

#[test]
fn evaluator_test_evaluate_logical_and() {
    let mut context = context_with("file.txt", "hello world");
    let ast = parse_query("contains:hello & contains:world").unwrap();
    let evaluator = Evaluator::new(ast, create_predicate_registry());
    assert!(evaluator.evaluate(&mut context).unwrap().is_match());

    let ast_fail = parse_query("contains:hello & contains:goodbye").unwrap();
    let evaluator_fail = Evaluator::new(ast_fail, create_predicate_registry());
    assert!(!evaluator_fail.evaluate(&mut context).unwrap().is_match());
}

#[test]
fn test_evaluate_logical_or() {
    let mut context = context_with("file.txt", "hello world");
    let ast = parse_query("contains:hello | contains:goodbye").unwrap();
    let evaluator = Evaluator::new(ast, create_predicate_registry());
    assert!(evaluator.evaluate(&mut context).unwrap().is_match());

    let ast_fail = parse_query("contains:goodbye | contains:farewell").unwrap();
    let evaluator_fail = Evaluator::new(ast_fail, create_predicate_registry());
    assert!(!evaluator_fail.evaluate(&mut context).unwrap().is_match());
}

#[test]
fn test_evaluate_negation() {
    let mut context = context_with("file.txt", "hello world");
    let ast = parse_query("!contains:goodbye").unwrap();
    let evaluator = Evaluator::new(ast, create_predicate_registry());
    assert!(evaluator.evaluate(&mut context).unwrap().is_match());

    let ast_fail = parse_query("!contains:hello").unwrap();
    let evaluator_fail = Evaluator::new(ast_fail, create_predicate_registry());
    assert!(!evaluator_fail.evaluate(&mut context).unwrap().is_match());
}

#[test]
fn test_combine_with_hunks_intersection() {
    let hunks1 = vec![range(10, 20)];
    let hunks2 = vec![range(15, 25)];
    let result1 = MatchResult::Hunks(hunks1);
    let result2 = MatchResult::Hunks(hunks2);
    let combined = result1.combine_with(result2, &LogicalOperator::And);
    assert!(combined.is_match());
    if let MatchResult::Hunks(hunks) = combined {
        assert_eq!(hunks.len(), 1);
    } else {
        panic!("Expected Hunks result");
    }
}

#[test]
fn hunk_and_of_disjoint_ranges_is_empty() {
    let combined = MatchResult::Hunks(vec![range(0, 5)])
        .combine_with(MatchResult::Hunks(vec![range(5, 9)]), &LogicalOperator::And);
    assert!(!combined.is_match());
    match combined {
        MatchResult::Hunks(h) => assert!(h.is_empty()),
        MatchResult::Boolean(_) => panic!("expected hunks"),
    }
}

#[test]
fn hunk_and_keeps_the_overlapping_left_hunks() {
    let left = vec![range(0, 4), range(10, 14), range(20, 24)];
    let right = vec![range(12, 30)];
    let combined = MatchResult::Hunks(left).combine_with(MatchResult::Hunks(right), &LogicalOperator::And);
    match combined {
        MatchResult::Hunks(h) => assert_eq!(h, vec![range(10, 14), range(20, 24)]),
        MatchResult::Boolean(_) => panic!("expected hunks"),
    }
}

#[test]
fn hunk_or_of_equal_ranges_is_one_hunk() {
    let combined = MatchResult::Hunks(vec![range(3, 7)])
        .combine_with(MatchResult::Hunks(vec![range(3, 7)]), &LogicalOperator::Or);
    match combined {
        MatchResult::Hunks(h) => assert_eq!(h, vec![range(3, 7)]),
        MatchResult::Boolean(_) => panic!("expected hunks"),
    }
}

#[test]
fn hunk_or_sorts_by_start_and_removes_duplicates() {
    let combined = MatchResult::Hunks(vec![range(8, 9), range(1, 2), range(8, 9)])
        .combine_with(MatchResult::Hunks(vec![range(4, 5), range(1, 2)]), &LogicalOperator::Or);
    match combined {
        MatchResult::Hunks(h) => assert_eq!(h, vec![range(1, 2), range(4, 5), range(8, 9)]),
        MatchResult::Boolean(_) => panic!("expected hunks"),
    }
}

#[test]
fn hunks_beside_a_verdict_pass_through() {
    let h = MatchResult::Hunks(vec![range(1, 2)]).combine_with(MatchResult::Boolean(true), &LogicalOperator::And);
    assert!(matches!(h, MatchResult::Hunks(ref v) if v == &vec![range(1, 2)]));
    let b = MatchResult::Boolean(true).combine_with(MatchResult::Boolean(false), &LogicalOperator::Or);
    assert!(matches!(b, MatchResult::Boolean(true)));
}

#[test]
fn and_does_not_run_its_right_side_after_a_non_match() {
    // The right side holds an invalid regular expression: it would fail if it ran.
    let mut ctx = context_with("main.rs", "fn main() {}");
    let evaluator = Evaluator::new(parse_query("ext:txt & matches:'('").unwrap(), create_predicate_registry());
    let r = evaluator.evaluate(&mut ctx).unwrap();
    assert!(matches!(r, MatchResult::Boolean(false)));
}

#[test]
fn or_does_not_run_its_right_side_after_a_whole_file_match() {
    let mut ctx = context_with("main.rs", "fn main() {}");
    let evaluator = Evaluator::new(parse_query("ext:rs | matches:'('").unwrap(), create_predicate_registry());
    let r = evaluator.evaluate(&mut ctx).unwrap();
    assert!(matches!(r, MatchResult::Boolean(true)));
}

#[test]
fn a_failing_right_side_fails_when_it_runs() {
    let mut ctx = context_with("main.rs", "fn main() {}");
    let evaluator = Evaluator::new(parse_query("ext:rs & matches:'('").unwrap(), create_predicate_registry());
    assert!(evaluator.evaluate(&mut ctx).is_err());
}

#[test]
fn negation_of_hunks_is_a_verdict() {
    let mut ctx = context_with("a.txt", "alpha\nbeta");
    assert!(matches!(evaluate("!contains:alpha", &mut ctx), MatchResult::Boolean(false)));
    assert!(matches!(evaluate("!contains:gamma", &mut ctx), MatchResult::Boolean(true)));
}

#[test]
fn contains_and_contains_on_disjoint_lines_does_not_match() {
    let mut ctx = context_with("a.txt", "foo\nbar");
    let r = evaluate("contains:foo & contains:bar", &mut ctx);
    assert!(!r.is_match());
    let mut ctx2 = context_with("a.txt", "foo bar\nbaz");
    match evaluate("contains:foo & contains:bar", &mut ctx2) {
        MatchResult::Hunks(h) => {
            assert_eq!(h.len(), 1);
            assert_eq!((h[0].start_byte, h[0].end_byte), (0, 7));
        },
        MatchResult::Boolean(_) => panic!("expected hunks"),
    }
}

#[test]
fn contains_or_contains_on_one_line_gives_one_hunk() {
    let mut ctx = context_with("a.txt", "foo");
    match evaluate("contains:foo | contains:fo", &mut ctx) {
        MatchResult::Hunks(h) => assert_eq!(h.len(), 1),
        MatchResult::Boolean(_) => panic!("expected hunks"),
    }
}

#[test]
fn unknown_keys_pass_vacuously() {
    let mut ctx = context_with("notes.md", "anything");
    assert!(matches!(evaluate("bogus_key:value", &mut ctx), MatchResult::Boolean(true)));
    let mut empty = context_with("empty.txt", "");
    assert!(evaluate("bogus_key:value", &mut empty).is_match());
}

#[test]
fn scenario_extension_and_contains() {
    let files = [("a.rs", "fn main(){}"), ("b.rs", "struct S;"), ("c.txt", "fn")];
    let mut hits = Vec::new();
    for (path, text) in files.iter() {
        let mut ctx = context_with(path, text);
        if evaluate("ext:rs & contains:fn", &mut ctx).is_match() {
            hits.push(*path);
        }
    }
    assert_eq!(hits, vec!["a.rs"]);
}

#[test]
fn scenario_struct_and_extension_reports_the_struct_only() {
    let rust = "use std::fmt;\n\nstruct User {}\n\nfn main() {}\n";
    let mut rs = context_with("src/user.rs", rust);
    match evaluate("struct:User & ext:rs", &mut rs) {
        MatchResult::Hunks(h) => {
            assert_eq!(h.len(), 1);
            assert_eq!(&rust[h[0].start_byte..h[0].end_byte], "User");
            assert_eq!(h[0].start_point.row, 2);
        },
        MatchResult::Boolean(_) => panic!("expected hunks"),
    }
    let mut md = context_with("README.md", "The User struct.");
    assert!(!evaluate("struct:User & ext:rs", &mut md).is_match());
}

#[test]
fn pre_filter_lets_through_what_it_cannot_judge() {
    let ast = "!(contains:foo & ext:rs)";
    let meta = Evaluator::new(parse_query(ast).unwrap(), create_metadata_registry());
    let full = Evaluator::new(parse_query(ast).unwrap(), create_predicate_registry());
    let mut ctx = FileContext::new("main.rs".to_string(), "/".to_string());
    assert!(meta.pre_filter_evaluate(&mut ctx));
    ctx.set_content("bar".to_string());
    assert!(full.evaluate(&mut ctx).unwrap().is_match());
}

#[test]
fn pre_filter_rejects_on_metadata() {
    let meta = Evaluator::new(parse_query("ext:rs & contains:x").unwrap(), create_metadata_registry());
    let mut txt = FileContext::new("notes.txt".to_string(), "/".to_string());
    assert!(!meta.pre_filter_evaluate(&mut txt));
    let mut rs = FileContext::new("lib.rs".to_string(), "/".to_string());
    assert!(meta.pre_filter_evaluate(&mut rs));
    let negated = Evaluator::new(parse_query("!ext:rs").unwrap(), create_metadata_registry());
    assert!(!negated.pre_filter_evaluate(&mut rs));
}

#[test]
fn size_boundaries_at_one_kibibyte() {
    let mut ctx = FileContext::new("f.bin".to_string(), "/".to_string());
    ctx.set_metadata(1024, 0, 0);
    let registry = create_metadata_registry;
    let check = |q: &str, ctx: &mut FileContext| Evaluator::new(parse_query(q).unwrap(), registry()).evaluate(ctx).unwrap().is_match();
    assert!(!check("size:>1024", &mut ctx));
    assert!(!check("size:<1024", &mut ctx));
    assert!(check("size:>1023", &mut ctx));
    assert!(check("size:=1kb", &mut ctx));
}

#[test]
fn or_of_two_non_matches_is_a_false_verdict() {
    let mut ctx = context_with("a.txt", "alpha");
    assert!(matches!(evaluate("ext:rs | contains:zzz", &mut ctx), MatchResult::Boolean(false)));
    assert!(matches!(evaluate("contains:zzz | ext:rs", &mut ctx), MatchResult::Boolean(false)));
}

#[test]
fn name_and_regex_errors_and_matches() {
    let mut ctx = context_with("src/Main.RS", "fn main() {}");
    assert!(evaluate("name:main.rs", &mut ctx).is_match());
    assert!(evaluate("matches:'fn +ma.n'", &mut ctx).is_match());
    let bad = Evaluator::new(parse_query("name:'['").unwrap(), create_predicate_registry());
    assert!(bad.evaluate(&mut ctx).is_err());
}

#[test]
fn metadata_outcomes_survive_reading_the_text() {
    let ast = "ext:rs & contains:main";
    let meta = Evaluator::new(parse_query(ast).unwrap(), create_metadata_registry());
    let full = Evaluator::new(parse_query(ast).unwrap(), create_predicate_registry());
    let mut ctx = FileContext::new("main.rs".to_string(), "/".to_string());
    assert!(meta.pre_filter_evaluate(&mut ctx));
    ctx.set_content("fn main() {}".to_string());
    assert!(full.evaluate(&mut ctx).unwrap().is_match());
    assert!(rdump::query::needs_text(&parse_query(ast).unwrap()));
    assert!(!rdump::query::needs_text(&parse_query("ext:rs | !size:>1k").unwrap()));
}

#[test]
fn reported_hunks_follow_the_outcome() {
    check_report(Ok(MatchResult::Boolean(true)), Some(vec![]));
    check_report(Ok(MatchResult::Boolean(false)), None);
    check_report(Ok(MatchResult::Hunks(vec![])), None);
    check_report(Ok(MatchResult::Hunks(vec![range(1, 2)])), Some(vec![range(1, 2)]));
    check_report(Err(rdump::predicates::PredicateError::Unreadable), None);
}

fn check_report(r: Result<MatchResult, rdump::predicates::PredicateError>, expected: Option<Vec<Range>>) {
    assert_eq!(rdump::evaluator::reported_hunks(r), expected);
}
