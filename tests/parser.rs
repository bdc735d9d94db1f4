use rdump::query::{parse_query, unescape_value, AstNode, LogicalOperator, ParseError, PredicateKey};

fn predicate(key: PredicateKey, value: &str) -> Box<AstNode> {
    Box::new(AstNode::Predicate(key, value.to_string()))
}

#[test]
fn test_parse_simple_predicate() {
    let ast = parse_query("ext:rs").unwrap();
    assert_eq!(ast, *predicate(PredicateKey::Ext, "rs"));
}

#[test]
fn test_parse_predicate_with_quoted_value() {
    let ast = parse_query("name:\"foo bar\"").unwrap();
    assert_eq!(ast, *predicate(PredicateKey::Name, "foo bar"));
}

#[test]
fn test_parse_logical_and() {
    let ast = parse_query("ext:rs & name:\"foo\"").unwrap();
    assert_eq!(
        ast,
        AstNode::LogicalOp(
            LogicalOperator::And,
            predicate(PredicateKey::Ext, "rs"),
            predicate(PredicateKey::Name, "foo")
        )
    );
}

#[test]
fn test_parse_logical_or() {
    let ast = parse_query("ext:rs | ext:toml").unwrap();
    assert_eq!(
        ast,
        AstNode::LogicalOp(
            LogicalOperator::Or,
            predicate(PredicateKey::Ext, "rs"),
            predicate(PredicateKey::Ext, "toml")
        )
    );
}

#[test]
fn test_parse_negation() {
    let ast = parse_query("!ext:rs").unwrap();
    assert_eq!(ast, AstNode::Not(predicate(PredicateKey::Ext, "rs")));
}

#[test]
fn test_parse_complex_query() {
    let ast = parse_query("ext:rs & (name:\"foo\" | name:\"bar\") & !path:tests").unwrap();
    let inner_or = AstNode::LogicalOp(
        LogicalOperator::Or,
        predicate(PredicateKey::Name, "foo"),
        predicate(PredicateKey::Name, "bar"),
    );
    let and_with_or = AstNode::LogicalOp(
        LogicalOperator::And,
        predicate(PredicateKey::Ext, "rs"),
        Box::new(inner_or),
    );
    let final_ast = AstNode::LogicalOp(
        LogicalOperator::And,
        Box::new(and_with_or),
        Box::new(AstNode::Not(predicate(PredicateKey::Path, "tests"))),
    );
    assert_eq!(ast, final_ast);
}

#[test]
fn test_unescape_value() {
    assert_eq!(unescape_value(r#""hello \"world\"""#), "hello \"world\"");
    assert_eq!(unescape_value(r#"'hello \'world\''"#), "hello 'world'");
    assert_eq!(unescape_value(r#""a \\ b""#), "a \\ b");
    assert_eq!(unescape_value("no_quotes"), "no_quotes");
}

#[test]
fn test_parse_predicate_with_special_chars_in_value() {
    let ast = parse_query(r#"name:"foo&bar""#).unwrap();
    assert_eq!(ast, *predicate(PredicateKey::Name, "foo&bar"));
}

#[test]
fn test_parse_semantic_predicates() {
    let ast_def = parse_query("def:User").unwrap();
    assert_eq!(ast_def, *predicate(PredicateKey::Def, "User"));

    let ast_func = parse_query("func:get_user").unwrap();
    assert_eq!(ast_func, *predicate(PredicateKey::Func, "get_user"));

    let ast_import = parse_query("import:serde").unwrap();
    assert_eq!(ast_import, *predicate(PredicateKey::Import, "serde"));
}

#[test]
fn test_parse_granular_and_syntactic_predicates() {
    assert_eq!(parse_query("class:Foo").unwrap(), *predicate(PredicateKey::Class, "Foo"));
    assert_eq!(parse_query("struct:Bar").unwrap(), *predicate(PredicateKey::Struct, "Bar"));
    assert_eq!(parse_query("comment:TODO").unwrap(), *predicate(PredicateKey::Comment, "TODO"));
    assert_eq!(parse_query("str:'api_key'").unwrap(), *predicate(PredicateKey::Str, "api_key"));
    assert_eq!(parse_query("call:my_func").unwrap(), *predicate(PredicateKey::Call, "my_func"));
}

#[test]
fn test_error_on_trailing_operator() {
    let result = parse_query("ext:rs &");
    let err = result.unwrap_err();
    assert!(err.message().contains("Invalid query syntax:"));
    assert!(err.message().contains("expected"));
}

#[test]
fn test_error_on_missing_value() {
    let result = parse_query("ext:");
    let err = result.unwrap_err();
    assert!(err.message().contains("Invalid query syntax:"));
}

#[test]
fn test_error_on_unclosed_parenthesis() {
    let result = parse_query("(ext:rs | path:src");
    let err = result.unwrap_err();
    assert!(err.message().contains("Invalid query syntax:"));
}

#[test]
fn test_error_on_empty_query() {
    let result = parse_query("");
    assert_eq!(result.unwrap_err().message(), "Query cannot be empty.");
}

#[test]
fn test_error_on_whitespace_query() {
    let result = parse_query("   ");
    assert_eq!(result.unwrap_err().message(), "Query cannot be empty.");
}

#[test]
fn test_parse_keyword_operators() {
    let ast_and = parse_query("ext:rs and name:\"foo\"").unwrap();
    assert_eq!(
        ast_and,
        AstNode::LogicalOp(
            LogicalOperator::And,
            predicate(PredicateKey::Ext, "rs"),
            predicate(PredicateKey::Name, "foo")
        )
    );

    let ast_or = parse_query("ext:rs or ext:toml").unwrap();
    assert_eq!(
        ast_or,
        AstNode::LogicalOp(
            LogicalOperator::Or,
            predicate(PredicateKey::Ext, "rs"),
            predicate(PredicateKey::Ext, "toml")
        )
    );

    let ast_not = parse_query("not ext:rs").unwrap();
    assert_eq!(ast_not, AstNode::Not(predicate(PredicateKey::Ext, "rs")));
}

#[test]
fn test_parse_mixed_operators() {
    let ast = parse_query("ext:rs and (name:foo or name:bar) & not path:tests").unwrap();
    let inner_or = AstNode::LogicalOp(
        LogicalOperator::Or,
        predicate(PredicateKey::Name, "foo"),
        predicate(PredicateKey::Name, "bar"),
    );
    let and_with_or = AstNode::LogicalOp(
        LogicalOperator::And,
        predicate(PredicateKey::Ext, "rs"),
        Box::new(inner_or),
    );
    let final_ast = AstNode::LogicalOp(
        LogicalOperator::And,
        Box::new(and_with_or),
        Box::new(AstNode::Not(predicate(PredicateKey::Path, "tests"))),
    );
    assert_eq!(ast, final_ast);
}

#[test]
fn test_parse_unknown_predicate() {
    let ast = parse_query("unknown:predicate").unwrap();
    assert_eq!(ast, *predicate(PredicateKey::Other("unknown".to_string()), "predicate"));
}

#[test]
fn and_binds_tighter_than_or() {
    let ast = parse_query("a:1 | b:2 & c:3").unwrap();
    let expected = AstNode::LogicalOp(
        LogicalOperator::Or,
        predicate(PredicateKey::Other("a".to_string()), "1"),
        Box::new(AstNode::LogicalOp(
            LogicalOperator::And,
            predicate(PredicateKey::Other("b".to_string()), "2"),
            predicate(PredicateKey::Other("c".to_string()), "3"),
        )),
    );
    assert_eq!(ast, expected);
}

#[test]
fn not_binds_tighter_than_and() {
    let ast = parse_query("!a:1 & b:2").unwrap();
    let expected = AstNode::LogicalOp(
        LogicalOperator::And,
        Box::new(AstNode::Not(predicate(PredicateKey::Other("a".to_string()), "1"))),
        predicate(PredicateKey::Other("b".to_string()), "2"),
    );
    assert_eq!(ast, expected);
}

#[test]
fn syntax_errors_carry_their_position() {
    assert_eq!(parse_query("ext:rs &"), Err(ParseError::Syntax { position: 8 }));
    assert_eq!(parse_query("ext:"), Err(ParseError::Syntax { position: 4 }));
    assert_eq!(parse_query("ext:rs name:x"), Err(ParseError::Syntax { position: 7 }));
    assert_eq!(parse_query("\t\n"), Err(ParseError::Empty));
    assert_eq!(
        parse_query("ext:rs &").unwrap_err().message(),
        "Invalid query syntax:\n --> position 8: expected a predicate, an operator, a parenthesis or the end of the query"
    );
}

#[test]
fn quoted_values_keep_operators_and_spaces() {
    let ast = parse_query("contains:'a | b & !c'").unwrap();
    assert_eq!(ast, *predicate(PredicateKey::Contains, "a | b & !c"));
    assert!(parse_query("contains:\"unterminated").is_err());
}

#[test]
fn key_names_round_trip() {
    for name in ["ext", "name", "path", "contains", "matches", "size", "modified", "in", "def", "func", "import",
        "class", "struct", "enum", "interface", "trait", "type", "comment", "str", "call", "bogus"] {
        assert_eq!(PredicateKey::from_name(name).as_str(), name);
    }
    assert_eq!(PredicateKey::from_name("Ext"), PredicateKey::Other("Ext".to_string()));
    assert_eq!(PredicateKey::from_name("struct"), PredicateKey::Struct);
}

#[test]
fn blank_queries_of_any_whitespace_are_empty() {
    assert_eq!(parse_query("\u{c}"), Err(ParseError::Empty));
    assert_eq!(parse_query(" \u{a0}\u{3000}\t"), Err(ParseError::Empty));
    assert_eq!(parse_query("\u{2003}ext:rs\u{85}"), Ok(AstNode::Predicate(PredicateKey::Ext, "rs".to_string())));
}
