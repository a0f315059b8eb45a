use lox_scanner::parse;

#[test]
fn literal_keywords_fold_to_their_values() {
    assert_eq!(parse("true nil\nfalse"), vec!["true", "nil", "false"]);
}

#[test]
fn empty_source_parses_to_nothing() {
    assert_eq!(parse(""), Vec::<String>::new());
}

#[test]
fn comments_and_whitespace_parse_to_nothing() {
    assert_eq!(parse("  \t\n// nothing here\n"), Vec::<String>::new());
}

#[test]
fn repeated_literals_keep_their_order() {
    assert_eq!(
        parse("nil true true nil"),
        vec!["nil", "true", "true", "nil"]
    );
}
