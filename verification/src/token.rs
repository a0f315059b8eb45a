//! The token data model: a closed set of lexical kinds with optional payloads,
//! its mathematical view, the reserved-word table, and the single-character
//! classifier the scanner dispatches on.

use vstd::prelude::*;

verus! {

use vstd::string::StringExecFns;
use crate::text::push_char;
use crate::text::str_eq;

/// A classified lexical unit produced by the scanner.
#[derive(Debug, Clone, PartialEq, Eq)]
pub enum Token {
    // Single-character tokens
    LeftParen,
    RightParen,
    LeftBrace,
    RightBrace,
    Comma,
    Dot,
    Minus,
    Plus,
    Semicolon,
    Slash,
    Star,
    // One or two character tokens
    Equal,
    EqualEqual,
    Bang,
    BangEqual,
    Less,
    LessEqual,
    Greater,
    GreaterEqual,
    // Literals
    String(String),
    Number(String),
    Identifier(String),
    // Keywords
    And,
    Class,
    Else,
    False,
    Fun,
    For,
    If,
    Nil,
    Or,
    Print,
    Return,
    Super,
    This,
    True,
    Var,
    While,
    /// A recovered lexical error, carrying its message and the 1-based line
    /// on which the offending character or unterminated construct began.
    Invalid { err: String, line: usize },
    /// The end-of-stream sentinel: always appended exactly once, always last.
    Eof,
}

/// The mathematical view of a token: payloads are character sequences and the
/// diagnostic line is an unbounded natural.
pub enum TokenView {
    LeftParen,
    RightParen,
    LeftBrace,
    RightBrace,
    Comma,
    Dot,
    Minus,
    Plus,
    Semicolon,
    Slash,
    Star,
    Equal,
    EqualEqual,
    Bang,
    BangEqual,
    Less,
    LessEqual,
    Greater,
    GreaterEqual,
    String(Seq<char>),
    Number(Seq<char>),
    Identifier(Seq<char>),
    And,
    Class,
    Else,
    False,
    Fun,
    For,
    If,
    Nil,
    Or,
    Print,
    Return,
    Super,
    This,
    True,
    Var,
    While,
    Invalid { err: Seq<char>, line: nat },
    Eof,
}

impl DeepView for Token {
    type V = TokenView;

    open spec fn deep_view(&self) -> TokenView {
        match self {
            Token::LeftParen => TokenView::LeftParen,
            Token::RightParen => TokenView::RightParen,
            Token::LeftBrace => TokenView::LeftBrace,
            Token::RightBrace => TokenView::RightBrace,
            Token::Comma => TokenView::Comma,
            Token::Dot => TokenView::Dot,
            Token::Minus => TokenView::Minus,
            Token::Plus => TokenView::Plus,
            Token::Semicolon => TokenView::Semicolon,
            Token::Slash => TokenView::Slash,
            Token::Star => TokenView::Star,
            Token::Equal => TokenView::Equal,
            Token::EqualEqual => TokenView::EqualEqual,
            Token::Bang => TokenView::Bang,
            Token::BangEqual => TokenView::BangEqual,
            Token::Less => TokenView::Less,
            Token::LessEqual => TokenView::LessEqual,
            Token::Greater => TokenView::Greater,
            Token::GreaterEqual => TokenView::GreaterEqual,
            Token::String(s) => TokenView::String(s@),
            Token::Number(s) => TokenView::Number(s@),
            Token::Identifier(s) => TokenView::Identifier(s@),
            Token::And => TokenView::And,
            Token::Class => TokenView::Class,
            Token::Else => TokenView::Else,
            Token::False => TokenView::False,
            Token::Fun => TokenView::Fun,
            Token::For => TokenView::For,
            Token::If => TokenView::If,
            Token::Nil => TokenView::Nil,
            Token::Or => TokenView::Or,
            Token::Print => TokenView::Print,
            Token::Return => TokenView::Return,
            Token::Super => TokenView::Super,
            Token::This => TokenView::This,
            Token::True => TokenView::True,
            Token::Var => TokenView::Var,
            Token::While => TokenView::While,
            Token::Invalid { err, line } => TokenView::Invalid { err: err@, line: *line as nat },
            Token::Eof => TokenView::Eof,
        }
    }
}

/// The reserved-word table: the keyword token an identifier text resolves to,
/// if any.
pub open spec fn keyword_of(s: Seq<char>) -> Option<TokenView> {
    if s == "and"@ {
        Some(TokenView::And)
    } else if s == "class"@ {
        Some(TokenView::Class)
    } else if s == "else"@ {
        Some(TokenView::Else)
    } else if s == "false"@ {
        Some(TokenView::False)
    } else if s == "fun"@ {
        Some(TokenView::Fun)
    } else if s == "for"@ {
        Some(TokenView::For)
    } else if s == "if"@ {
        Some(TokenView::If)
    } else if s == "nil"@ {
        Some(TokenView::Nil)
    } else if s == "or"@ {
        Some(TokenView::Or)
    } else if s == "print"@ {
        Some(TokenView::Print)
    } else if s == "return"@ {
        Some(TokenView::Return)
    } else if s == "super"@ {
        Some(TokenView::Super)
    } else if s == "this"@ {
        Some(TokenView::This)
    } else if s == "true"@ {
        Some(TokenView::True)
    } else if s == "var"@ {
        Some(TokenView::Var)
    } else if s == "while"@ {
        Some(TokenView::While)
    } else {
        None
    }
}

/// Looks an identifier text up in the reserved-word table.
pub fn keyword_token(text: &str) -> (r: Option<Token>)
    ensures
        r.deep_view() == keyword_of(text@),
{
    if str_eq(text, "and") {
        Some(Token::And)
    } else if str_eq(text, "class") {
        Some(Token::Class)
    } else if str_eq(text, "else") {
        Some(Token::Else)
    } else if str_eq(text, "false") {
        Some(Token::False)
    } else if str_eq(text, "fun") {
        Some(Token::Fun)
    } else if str_eq(text, "for") {
        Some(Token::For)
    } else if str_eq(text, "if") {
        Some(Token::If)
    } else if str_eq(text, "nil") {
        Some(Token::Nil)
    } else if str_eq(text, "or") {
        Some(Token::Or)
    } else if str_eq(text, "print") {
        Some(Token::Print)
    } else if str_eq(text, "return") {
        Some(Token::Return)
    } else if str_eq(text, "super") {
        Some(Token::Super)
    } else if str_eq(text, "this") {
        Some(Token::This)
    } else if str_eq(text, "true") {
        Some(Token::True)
    } else if str_eq(text, "var") {
        Some(Token::Var)
    } else if str_eq(text, "while") {
        Some(Token::While)
    } else {
        None
    }
}

/// The message an unexpected character is reported with.
pub open spec fn unexpected_char_text(c: char) -> Seq<char> {
    "Unexpected character: "@.push(c)
}

/// The message an unterminated string is reported with.
pub open spec fn unterminated_string_text() -> Seq<char> {
    "Unterminated string."@
}

/// What the scanner does with one character that opens neither a string, a
/// number nor an identifier: the token to emit, if any, and whether the
/// character after it was consumed too (a two-character operator or the
/// `//` that discards the rest of the line).
pub open spec fn tokenize_char_spec(c: char, next: Option<char>, line: nat) -> (Option<
    TokenView,
>, bool) {
    match c {
        '(' => (Some(TokenView::LeftParen), false),
        ')' => (Some(TokenView::RightParen), false),
        '{' => (Some(TokenView::LeftBrace), false),
        '}' => (Some(TokenView::RightBrace), false),
        ',' => (Some(TokenView::Comma), false),
        '.' => (Some(TokenView::Dot), false),
        '-' => (Some(TokenView::Minus), false),
        '+' => (Some(TokenView::Plus), false),
        ';' => (Some(TokenView::Semicolon), false),
        '*' => (Some(TokenView::Star), false),
        '=' => if next == Some('=') {
            (Some(TokenView::EqualEqual), true)
        } else {
            (Some(TokenView::Equal), false)
        },
        '!' => if next == Some('=') {
            (Some(TokenView::BangEqual), true)
        } else {
            (Some(TokenView::Bang), false)
        },
        '<' => if next == Some('=') {
            (Some(TokenView::LessEqual), true)
        } else {
            (Some(TokenView::Less), false)
        },
        '>' => if next == Some('=') {
            (Some(TokenView::GreaterEqual), true)
        } else {
            (Some(TokenView::Greater), false)
        },
        '/' => if next == Some('/') {
            (None, true)
        } else {
            (Some(TokenView::Slash), false)
        },
        ' ' => (None, false),
        '\t' => (None, false),
        _ => (Some(TokenView::Invalid { err: unexpected_char_text(c), line }), false),
    }
}

impl Token {
    /// Classifies one character that opens neither a string, a number nor an
    /// identifier, with one character of lookahead.
    pub fn tokenize_char(c: char, next_char: Option<char>, line: usize) -> (r: (
        Option<Token>,
        bool,
    ))
        ensures
            r.0.deep_view() == tokenize_char_spec(c, next_char, line as nat).0,
            r.1 == tokenize_char_spec(c, next_char, line as nat).1,
    {
        match c {
            '(' => (Some(Token::LeftParen), false),
            ')' => (Some(Token::RightParen), false),
            '{' => (Some(Token::LeftBrace), false),
            '}' => (Some(Token::RightBrace), false),
            ',' => (Some(Token::Comma), false),
            '.' => (Some(Token::Dot), false),
            '-' => (Some(Token::Minus), false),
            '+' => (Some(Token::Plus), false),
            ';' => (Some(Token::Semicolon), false),
            '*' => (Some(Token::Star), false),
            '=' => {
                if next_char == Some('=') {
                    (Some(Token::EqualEqual), true)
                } else {
                    (Some(Token::Equal), false)
                }
            },
            '!' => {
                if next_char == Some('=') {
                    (Some(Token::BangEqual), true)
                } else {
                    (Some(Token::Bang), false)
                }
            },
            '<' => {
                if next_char == Some('=') {
                    (Some(Token::LessEqual), true)
                } else {
                    (Some(Token::Less), false)
                }
            },
            '>' => {
                if next_char == Some('=') {
                    (Some(Token::GreaterEqual), true)
                } else {
                    (Some(Token::Greater), false)
                }
            },
            '/' => {
                if next_char == Some('/') {
                    (None, true)
                } else {
                    (Some(Token::Slash), false)
                }
            },
            ' ' => (None, false),
            '\t' => (None, false),
            _ => {
                let mut err = String::from_str("Unexpected character: ");
                push_char(&mut err, c);
                (Some(Token::Invalid { err, line }), false)
            },
        }
    }
}

/// The fixed surface text of a token kind that has one; literal kinds carry
/// their own lexeme and the error and end-of-stream kinds have none.
pub open spec fn lexeme_of(t: TokenView) -> Seq<char> {
    match t {
        TokenView::LeftParen => "("@,
        TokenView::RightParen => ")"@,
        TokenView::LeftBrace => "{"@,
        TokenView::RightBrace => "}"@,
        TokenView::Comma => ","@,
        TokenView::Dot => "."@,
        TokenView::Minus => "-"@,
        TokenView::Plus => "+"@,
        TokenView::Semicolon => ";"@,
        TokenView::Slash => "/"@,
        TokenView::Star => "*"@,
        TokenView::Equal => "="@,
        TokenView::EqualEqual => "=="@,
        TokenView::Bang => "!"@,
        TokenView::BangEqual => "!="@,
        TokenView::Less => "<"@,
        TokenView::LessEqual => "<="@,
        TokenView::Greater => ">"@,
        TokenView::GreaterEqual => ">="@,
        TokenView::String(s) => "\""@ + s + "\""@,
        TokenView::Number(s) => s,
        TokenView::Identifier(s) => s,
        TokenView::And => "and"@,
        TokenView::Class => "class"@,
        TokenView::Else => "else"@,
        TokenView::False => "false"@,
        TokenView::Fun => "fun"@,
        TokenView::For => "for"@,
        TokenView::If => "if"@,
        TokenView::Nil => "nil"@,
        TokenView::Or => "or"@,
        TokenView::Print => "print"@,
        TokenView::Return => "return"@,
        TokenView::Super => "super"@,
        TokenView::This => "this"@,
        TokenView::True => "true"@,
        TokenView::Var => "var"@,
        TokenView::While => "while"@,
        TokenView::Invalid { .. } => Seq::empty(),
        TokenView::Eof => Seq::empty(),
    }
}

/// Whether the token kind has a fixed surface text of its own: everything but
/// the literal kinds, the error kind and the end-of-stream sentinel.
pub open spec fn has_fixed_lexeme(t: TokenView) -> bool {
    match t {
        TokenView::String(_) => false,
        TokenView::Number(_) => false,
        TokenView::Identifier(_) => false,
        TokenView::Invalid { .. } => false,
        TokenView::Eof => false,
        _ => true,
    }
}

/// The upper-case kind name a token is displayed with.
pub open spec fn kind_text(t: TokenView) -> Seq<char> {
    match t {
        TokenView::LeftParen => "LEFT_PAREN"@,
        TokenView::RightParen => "RIGHT_PAREN"@,
        TokenView::LeftBrace => "LEFT_BRACE"@,
        TokenView::RightBrace => "RIGHT_BRACE"@,
        TokenView::Comma => "COMMA"@,
        TokenView::Dot => "DOT"@,
        TokenView::Minus => "MINUS"@,
        TokenView::Plus => "PLUS"@,
        TokenView::Semicolon => "SEMICOLON"@,
        TokenView::Slash => "SLASH"@,
        TokenView::Star => "STAR"@,
        TokenView::Equal => "EQUAL"@,
        TokenView::EqualEqual => "EQUAL_EQUAL"@,
        TokenView::Bang => "BANG"@,
        TokenView::BangEqual => "BANG_EQUAL"@,
        TokenView::Less => "LESS"@,
        TokenView::LessEqual => "LESS_EQUAL"@,
        TokenView::Greater => "GREATER"@,
        TokenView::GreaterEqual => "GREATER_EQUAL"@,
        TokenView::String(_) => "STRING"@,
        TokenView::Number(_) => "NUMBER"@,
        TokenView::Identifier(_) => "IDENTIFIER"@,
        TokenView::And => "AND"@,
        TokenView::Class => "CLASS"@,
        TokenView::Else => "ELSE"@,
        TokenView::False => "FALSE"@,
        TokenView::Fun => "FUN"@,
        TokenView::For => "FOR"@,
        TokenView::If => "IF"@,
        TokenView::Nil => "NIL"@,
        TokenView::Or => "OR"@,
        TokenView::Print => "PRINT"@,
        TokenView::Return => "RETURN"@,
        TokenView::Super => "SUPER"@,
        TokenView::This => "THIS"@,
        TokenView::True => "TRUE"@,
        TokenView::Var => "VAR"@,
        TokenView::While => "WHILE"@,
        TokenView::Invalid { .. } => "INVALID"@,
        TokenView::Eof => "EOF"@,
    }
}

impl Token {
    /// The upper-case kind name this token is displayed with.
    pub fn kind_name(&self) -> (r: String)
        ensures
            r@ == kind_text(self.deep_view()),
    {
        match self {
            Token::LeftParen => String::from_str("LEFT_PAREN"),
            Token::RightParen => String::from_str("RIGHT_PAREN"),
            Token::LeftBrace => String::from_str("LEFT_BRACE"),
            Token::RightBrace => String::from_str("RIGHT_BRACE"),
            Token::Comma => String::from_str("COMMA"),
            Token::Dot => String::from_str("DOT"),
            Token::Minus => String::from_str("MINUS"),
            Token::Plus => String::from_str("PLUS"),
            Token::Semicolon => String::from_str("SEMICOLON"),
            Token::Slash => String::from_str("SLASH"),
            Token::Star => String::from_str("STAR"),
            Token::Equal => String::from_str("EQUAL"),
            Token::EqualEqual => String::from_str("EQUAL_EQUAL"),
            Token::Bang => String::from_str("BANG"),
            Token::BangEqual => String::from_str("BANG_EQUAL"),
            Token::Less => String::from_str("LESS"),
            Token::LessEqual => String::from_str("LESS_EQUAL"),
            Token::Greater => String::from_str("GREATER"),
            Token::GreaterEqual => String::from_str("GREATER_EQUAL"),
            Token::String(_) => String::from_str("STRING"),
            Token::Number(_) => String::from_str("NUMBER"),
            Token::Identifier(_) => String::from_str("IDENTIFIER"),
            Token::And => String::from_str("AND"),
            Token::Class => String::from_str("CLASS"),
            Token::Else => String::from_str("ELSE"),
            Token::False => String::from_str("FALSE"),
            Token::Fun => String::from_str("FUN"),
            Token::For => String::from_str("FOR"),
            Token::If => String::from_str("IF"),
            Token::Nil => String::from_str("NIL"),
            Token::Or => String::from_str("OR"),
            Token::Print => String::from_str("PRINT"),
            Token::Return => String::from_str("RETURN"),
            Token::Super => String::from_str("SUPER"),
            Token::This => String::from_str("THIS"),
            Token::True => String::from_str("TRUE"),
            Token::Var => String::from_str("VAR"),
            Token::While => String::from_str("WHILE"),
            Token::Invalid { .. } => String::from_str("INVALID"),
            Token::Eof => String::from_str("EOF"),
        }
    }
}

/// Whether a token is the error kind.
pub open spec fn is_invalid(t: TokenView) -> bool {
    t is Invalid
}

} // verus!
