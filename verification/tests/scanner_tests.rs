use lox_scanner::scan_file;
use lox_scanner::Token;

fn ident(s: &str) -> Token {
    Token::Identifier(s.to_string())
}

fn number(s: &str) -> Token {
    Token::Number(s.to_string())
}

fn invalid(msg: &str, line: usize) -> Token {
    Token::Invalid { err: msg.to_string(), line }
}

#[test]
fn empty_input_yields_only_eof() {
    assert_eq!(scan_file(""), vec![Token::Eof]);
}

#[test]
fn eof_is_always_last_and_unique() {
    for src in [
        "",
        "\n",
        "x + y",
        "\"unterminated",
        "$",
        "// only a comment",
        "1.2.3\nclass \"s\" 4.",
    ] {
        let tokens = scan_file(src);
        assert_eq!(tokens.last(), Some(&Token::Eof));
        let eof_count = tokens.iter().filter(|t| matches!(t, Token::Eof)).count();
        assert_eq!(eof_count, 1, "input {:?}", src);
    }
}

#[test]
fn punctuation_and_operators() {
    assert_eq!(
        scan_file("(){},.-+;*/"),
        vec![
            Token::LeftParen,
            Token::RightParen,
            Token::LeftBrace,
            Token::RightBrace,
            Token::Comma,
            Token::Dot,
            Token::Minus,
            Token::Plus,
            Token::Semicolon,
            Token::Star,
            Token::Slash,
            Token::Eof,
        ]
    );
}

#[test]
fn one_and_two_char_operators() {
    assert_eq!(
        scan_file("= == ! != < <= > >="),
        vec![
            Token::Equal,
            Token::EqualEqual,
            Token::Bang,
            Token::BangEqual,
            Token::Less,
            Token::LessEqual,
            Token::Greater,
            Token::GreaterEqual,
            Token::Eof,
        ]
    );
}

#[test]
fn adjacent_equals_pair_up_greedily() {
    assert_eq!(
        scan_file("==="),
        vec![Token::EqualEqual, Token::Equal, Token::Eof]
    );
}

#[test]
fn end_to_end_parens_and_braces() {
    assert_eq!(
        scan_file("(( )){}"),
        vec![
            Token::LeftParen,
            Token::LeftParen,
            Token::RightParen,
            Token::RightParen,
            Token::LeftBrace,
            Token::RightBrace,
            Token::Eof,
        ]
    );
}

#[test]
fn end_to_end_with_unexpected_character() {
    assert_eq!(
        scan_file(",.$("),
        vec![
            Token::Comma,
            Token::Dot,
            invalid("Unexpected character: $", 1),
            Token::LeftParen,
            Token::Eof,
        ]
    );
}

#[test]
fn error_recovery_continues_on_the_same_line() {
    assert_eq!(
        scan_file("$$x"),
        vec![
            invalid("Unexpected character: $", 1),
            invalid("Unexpected character: $", 1),
            ident("x"),
            Token::Eof,
        ]
    );
}

#[test]
fn diagnostic_lines_are_one_based_and_count_newlines() {
    assert_eq!(
        scan_file("$\n\n$"),
        vec![
            invalid("Unexpected character: $", 1),
            invalid("Unexpected character: $", 3),
            Token::Eof,
        ]
    );
}

#[test]
fn comment_line_yields_no_token() {
    assert_eq!(scan_file("// comment"), vec![Token::Eof]);
}

#[test]
fn comment_discards_rest_of_line_only() {
    assert_eq!(
        scan_file("x // y\nz"),
        vec![ident("x"), ident("z"), Token::Eof]
    );
}

#[test]
fn single_slash_is_a_token() {
    assert_eq!(
        scan_file("a/b"),
        vec![ident("a"), Token::Slash, ident("b"), Token::Eof]
    );
}

#[test]
fn whitespace_only_input() {
    assert_eq!(scan_file("  \t \t"), vec![Token::Eof]);
}

#[test]
fn inserting_blank_line_shifts_later_diagnostics_only() {
    let without = scan_file("$\n$");
    let with = scan_file("$\n \t\n$");
    assert_eq!(
        without,
        vec![
            invalid("Unexpected character: $", 1),
            invalid("Unexpected character: $", 2),
            Token::Eof,
        ]
    );
    assert_eq!(
        with,
        vec![
            invalid("Unexpected character: $", 1),
            invalid("Unexpected character: $", 3),
            Token::Eof,
        ]
    );
}

#[test]
fn string_literal_contents() {
    assert_eq!(
        scan_file("\"foo\""),
        vec![Token::String("foo".to_string()), Token::Eof]
    );
}

#[test]
fn unterminated_string_reports_opening_line() {
    assert_eq!(
        scan_file("\"foo"),
        vec![invalid("Unterminated string.", 1), Token::Eof]
    );
}

#[test]
fn unterminated_string_consumes_rest_of_line() {
    assert_eq!(
        scan_file("\"a b c\nx"),
        vec![invalid("Unterminated string.", 1), ident("x"), Token::Eof]
    );
}

#[test]
fn lone_quote_at_end_of_line_is_unterminated() {
    assert_eq!(
        scan_file("\""),
        vec![invalid("Unterminated string.", 1), Token::Eof]
    );
}

#[test]
fn text_after_a_string_is_scanned() {
    assert_eq!(
        scan_file("\"ab\"cd"),
        vec![Token::String("ab".to_string()), ident("cd"), Token::Eof]
    );
}

#[test]
fn integer_number() {
    assert_eq!(scan_file("1234"), vec![number("1234"), Token::Eof]);
}

#[test]
fn decimal_number() {
    assert_eq!(scan_file("3.14"), vec![number("3.14"), Token::Eof]);
}

#[test]
fn trailing_dot_splits_off() {
    assert_eq!(
        scan_file("7."),
        vec![number("7"), Token::Dot, Token::Eof]
    );
}

#[test]
fn second_dot_splits_the_number() {
    assert_eq!(
        scan_file("1.2.3"),
        vec![number("1.2"), Token::Dot, number("3"), Token::Eof]
    );
}

#[test]
fn two_dots_after_a_digit() {
    assert_eq!(
        scan_file("1.."),
        vec![number("1"), Token::Dot, Token::Dot, Token::Eof]
    );
}

#[test]
fn leading_dot_is_not_part_of_a_number() {
    assert_eq!(
        scan_file(".5"),
        vec![Token::Dot, number("5"), Token::Eof]
    );
}

#[test]
fn keyword_is_recognized() {
    assert_eq!(scan_file("class"), vec![Token::Class, Token::Eof]);
}

#[test]
fn keyword_prefix_is_an_identifier() {
    assert_eq!(scan_file("classify"), vec![ident("classify"), Token::Eof]);
}

#[test]
fn all_keywords_are_recognized() {
    assert_eq!(
        scan_file("and class else false fun for if nil or print return super this true var while"),
        vec![
            Token::And,
            Token::Class,
            Token::Else,
            Token::False,
            Token::Fun,
            Token::For,
            Token::If,
            Token::Nil,
            Token::Or,
            Token::Print,
            Token::Return,
            Token::Super,
            Token::This,
            Token::True,
            Token::Var,
            Token::While,
            Token::Eof,
        ]
    );
}

#[test]
fn identifiers_take_underscores_and_digits() {
    assert_eq!(
        scan_file("_x9 y_2z"),
        vec![ident("_x9"), ident("y_2z"), Token::Eof]
    );
}

#[test]
fn identifier_stops_at_a_digit_start() {
    assert_eq!(
        scan_file("9lives"),
        vec![number("9"), ident("lives"), Token::Eof]
    );
}

#[test]
fn crlf_line_endings_are_stripped() {
    assert_eq!(
        scan_file("a\r\nb"),
        vec![ident("a"), ident("b"), Token::Eof]
    );
}

#[test]
fn carriage_return_inside_a_line_is_unexpected() {
    assert_eq!(
        scan_file("a\rb"),
        vec![
            ident("a"),
            invalid("Unexpected character: \r", 1),
            ident("b"),
            Token::Eof,
        ]
    );
}

#[test]
fn fixed_lexemes_scan_back_to_their_token() {
    let cases: Vec<(&str, Token)> = vec![
        ("(", Token::LeftParen),
        (")", Token::RightParen),
        ("{", Token::LeftBrace),
        ("}", Token::RightBrace),
        (",", Token::Comma),
        (".", Token::Dot),
        ("-", Token::Minus),
        ("+", Token::Plus),
        (";", Token::Semicolon),
        ("/", Token::Slash),
        ("*", Token::Star),
        ("=", Token::Equal),
        ("==", Token::EqualEqual),
        ("!", Token::Bang),
        ("!=", Token::BangEqual),
        ("<", Token::Less),
        ("<=", Token::LessEqual),
        (">", Token::Greater),
        (">=", Token::GreaterEqual),
        ("and", Token::And),
        ("class", Token::Class),
        ("else", Token::Else),
        ("false", Token::False),
        ("fun", Token::Fun),
        ("for", Token::For),
        ("if", Token::If),
        ("nil", Token::Nil),
        ("or", Token::Or),
        ("print", Token::Print),
        ("return", Token::Return),
        ("super", Token::Super),
        ("this", Token::This),
        ("true", Token::True),
        ("var", Token::Var),
        ("while", Token::While),
    ];
    for (lexeme, token) in cases {
        assert_eq!(
            scan_file(lexeme),
            vec![token, Token::Eof],
            "lexeme {:?}",
            lexeme
        );
    }
}

#[test]
fn dot_is_kept_in_the_number_only_before_a_digit() {
    assert_eq!(
        scan_file("1..2"),
        vec![
            number("1"),
            Token::Dot,
            Token::Dot,
            number("2"),
            Token::Eof,
        ]
    );
}

#[test]
fn unterminated_strings_report_their_own_lines() {
    assert_eq!(
        scan_file("\"a\n\"b"),
        vec![
            invalid("Unterminated string.", 1),
            invalid("Unterminated string.", 2),
            Token::Eof,
        ]
    );
}

#[test]
fn adjacent_strings_scan_separately() {
    assert_eq!(
        scan_file("\"a\"\"b\""),
        vec![
            Token::String("a".to_string()),
            Token::String("b".to_string()),
            Token::Eof,
        ]
    );
}

#[test]
fn empty_string_literal() {
    assert_eq!(
        scan_file("\"\""),
        vec![Token::String(String::new()), Token::Eof]
    );
}
