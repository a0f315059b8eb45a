use lox_scanner::diagnostic_line;
use lox_scanner::has_invalid;
use lox_scanner::partition_tokens;
use lox_scanner::scan_file;
use lox_scanner::to_chunks;
use lox_scanner::Chunk;
use lox_scanner::Token;

fn render_all(src: &str) -> Vec<String> {
    to_chunks(scan_file(src))
        .iter()
        .map(|c| c.render())
        .collect()
}

#[test]
fn integer_renders_with_one_fractional_digit() {
    assert_eq!(render_all("1234"), vec!["NUMBER 1234 1234.0", "EOF  null"]);
}

#[test]
fn decimal_renders_as_written() {
    assert_eq!(render_all("3.14"), vec!["NUMBER 3.14 3.14", "EOF  null"]);
}

#[test]
fn leading_zeros_drop_from_the_literal() {
    assert_eq!(render_all("007"), vec!["NUMBER 007 7.0", "EOF  null"]);
}

#[test]
fn all_zero_fraction_renders_as_one_zero() {
    assert_eq!(render_all("1.00"), vec!["NUMBER 1.00 1.0", "EOF  null"]);
}

#[test]
fn trailing_zeros_drop_from_the_fraction() {
    assert_eq!(render_all("0.10"), vec!["NUMBER 0.10 0.1", "EOF  null"]);
    assert_eq!(render_all("0.50"), vec!["NUMBER 0.50 0.5", "EOF  null"]);
}

#[test]
fn fractional_literal_is_canonical_on_both_sides() {
    assert_eq!(render_all("007.5"), vec!["NUMBER 007.5 7.5", "EOF  null"]);
    assert_eq!(render_all("010.010"), vec!["NUMBER 010.010 10.01", "EOF  null"]);
}

#[test]
fn zero_renders_as_zero_point_zero() {
    assert_eq!(render_all("0"), vec!["NUMBER 0 0.0", "EOF  null"]);
}

#[test]
fn string_chunk_has_quoted_lexeme_and_bare_literal() {
    let chunks = to_chunks(scan_file("\"foo\""));
    assert_eq!(chunks.len(), 2);
    assert_eq!(chunks[0].token_type, Token::String("foo".to_string()));
    assert_eq!(chunks[0].lexeme, "\"foo\"");
    assert_eq!(chunks[0].literal, Some("foo".to_string()));
    assert_eq!(chunks[0].render(), "STRING \"foo\" foo");
}

#[test]
fn identifier_chunk_has_no_literal() {
    let chunks = to_chunks(scan_file("droid"));
    assert_eq!(chunks[0].lexeme, "droid");
    assert_eq!(chunks[0].literal, None);
    assert_eq!(chunks[0].render(), "IDENTIFIER droid null");
}

#[test]
fn keyword_chunk_uses_its_surface_text() {
    assert_eq!(render_all("and")[0], "AND and null");
}

#[test]
fn operator_chunks_render_kind_and_lexeme() {
    assert_eq!(
        render_all("(}<="),
        vec![
            "LEFT_PAREN ( null",
            "RIGHT_BRACE } null",
            "LESS_EQUAL <= null",
            "EOF  null",
        ]
    );
}

#[test]
fn eof_chunk_has_empty_lexeme() {
    assert_eq!(render_all(""), vec!["EOF  null"]);
}

#[test]
fn chunk_new_keeps_its_fields() {
    let c = Chunk::new(Token::Star, "*".to_string(), None);
    assert_eq!(c.token_type, Token::Star);
    assert_eq!(c.lexeme, "*");
    assert_eq!(c.literal, None);
}

#[test]
fn diagnostic_line_format() {
    assert_eq!(
        diagnostic_line("Unexpected character: $", 1),
        "[line 1] Error: Unexpected character: $"
    );
}

#[test]
fn diagnostic_line_multi_digit() {
    assert_eq!(
        diagnostic_line("Unterminated string.", 120),
        "[line 120] Error: Unterminated string."
    );
}

#[test]
fn partition_keeps_both_groups_in_source_order() {
    let tokens = scan_file("$ ( # )");
    let (good, bad) = partition_tokens(tokens);
    assert_eq!(
        good,
        vec![Token::LeftParen, Token::RightParen, Token::Eof]
    );
    assert_eq!(
        bad,
        vec![
            Token::Invalid { err: "Unexpected character: $".to_string(), line: 1 },
            Token::Invalid { err: "Unexpected character: #".to_string(), line: 1 },
        ]
    );
}

#[test]
fn partition_of_clean_input_moves_nothing() {
    let tokens = scan_file("x + y");
    let (good, bad) = partition_tokens(tokens.clone());
    assert_eq!(good, tokens);
    assert_eq!(bad, Vec::new());
}

#[test]
fn has_invalid_detects_a_diagnostic() {
    assert!(has_invalid(&scan_file(",.$(")));
    assert!(!has_invalid(&scan_file("(( )){}")));
}

#[test]
fn diagnostic_text_for_scanned_error_matches() {
    let tokens = scan_file(",.$(");
    let (_, bad) = partition_tokens(tokens);
    match &bad[0] {
        Token::Invalid { err, line } => {
            assert_eq!(
                diagnostic_line(err, *line),
                "[line 1] Error: Unexpected character: $"
            );
        }
        other => panic!("expected an Invalid token, got {:?}", other),
    }
}
