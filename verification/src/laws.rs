//! Laws of the scanner: the sentinel appears exactly once and last; a
//! whitespace-only line contributes nothing but a shift of later diagnostic
//! line numbers; the fixed lexeme of any operator, punctuation or keyword
//! token scans back to exactly that token; and every number token carries
//! well-formed decimal text whose literal rendering always shows a
//! fractional part.

use vstd::prelude::*;

verus! {

use crate::text::find_from;
use crate::text::lemma_find_from;
use crate::text::lemma_find_from_is;
use crate::text::digit_end;
use crate::text::lemma_digit_end;
use crate::text::lemma_digit_end_is;
use crate::text::ident_end;
use crate::text::lemma_ident_end;
use crate::text::lemma_ident_end_is;
use crate::text::is_digit;
use crate::text::is_ident_start;
use crate::text::is_ident_cont;
use crate::text::is_ws;
use crate::token::TokenView;
use crate::token::keyword_of;
use crate::token::lexeme_of;
use crate::token::has_fixed_lexeme;
use crate::token::tokenize_char_spec;
use crate::chunk::number_literal;
use crate::chunk::has_nonzero_fraction;
use crate::chunk::int_text;
use crate::chunk::frac_text;
use crate::scanner::scan_from;
use crate::scanner::scan_lines;
use crate::scanner::scan_tokens;
use crate::scanner::scan_spec;
use crate::scanner::lines_from;
use crate::scanner::lemma_scan_lines_cons;
use crate::scanner::line_seg;

proof fn lemma_scan_from_no_eof(line: Seq<char>, i: int, n: nat)
    requires
        0 <= i,
    ensures
        forall|k: int|
            0 <= k < scan_from(line, i, n).len() ==> scan_from(line, i, n)[k]
                != TokenView::Eof,
    decreases line.len() - i,
{
    if i < line.len() {
        let c = line[i];
        if c == '"' {
            lemma_find_from(line, '"', i + 1);
            let close = find_from(line, '"', i + 1);
            if close < line.len() {
                lemma_scan_from_no_eof(line, close + 1, n);
            }
        } else if is_digit(c) {
            lemma_digit_end(line, i + 1);
            let d1 = digit_end(line, i + 1);
            if d1 < line.len() && line[d1] == '.' && d1 + 1 < line.len() && is_digit(
                line[d1 + 1],
            ) {
                lemma_digit_end(line, d1 + 1);
                lemma_scan_from_no_eof(line, digit_end(line, d1 + 1), n);
            } else {
                lemma_scan_from_no_eof(line, d1, n);
            }
        } else if is_ident_start(c) {
            lemma_ident_end(line, i + 1);
            lemma_scan_from_no_eof(line, ident_end(line, i + 1), n);
        } else {
            let next = if i + 1 < line.len() {
                Some(line[i + 1])
            } else {
                None
            };
            let (t, two) = tokenize_char_spec(c, next, n);
            match t {
                None => {
                    if !two {
                        lemma_scan_from_no_eof(line, i + 1, n);
                    }
                },
                Some(tok) => {
                    assert(tok != TokenView::Eof);
                    if two {
                        lemma_scan_from_no_eof(line, i + 2, n);
                    } else {
                        lemma_scan_from_no_eof(line, i + 1, n);
                    }
                },
            }
        }
    }
}

proof fn lemma_scan_lines_no_eof(ls: Seq<Seq<char>>, n: nat)
    ensures
        forall|k: int|
            0 <= k < scan_lines(ls, n).len() ==> scan_lines(ls, n)[k] != TokenView::Eof,
    decreases ls.len(),
{
    if ls.len() > 0 {
        lemma_scan_from_no_eof(ls[0], 0, n);
        lemma_scan_lines_no_eof(ls.drop_first(), n + 1);
    }
}

/// Law: for every input, the scan's output ends in the end-of-stream token,
/// and no other element of the output is the end-of-stream token.
pub proof fn lemma_eof_exactly_once(s: Seq<char>)
    ensures
        scan_spec(s).len() >= 1,
        scan_spec(s).last() == TokenView::Eof,
        forall|k: int| 0 <= k < scan_spec(s).len() - 1 ==> scan_spec(s)[k] != TokenView::Eof,
{
    lemma_scan_lines_no_eof(lines_from(s, 0), 1);
}

/// Scanning a concatenation of line sequences scans each part, the second
/// starting at the line number after the first part.
pub proof fn lemma_scan_lines_add(a: Seq<Seq<char>>, b: Seq<Seq<char>>, n: nat)
    ensures
        scan_lines(a + b, n) == scan_lines(a, n) + scan_lines(b, n + a.len()),
    decreases a.len(),
{
    if a.len() == 0 {
        assert(a + b =~= b);
        assert(Seq::<TokenView>::empty() + scan_lines(b, n) =~= scan_lines(b, n));
    } else {
        assert((a + b)[0] == a[0]);
        assert((a + b).drop_first() =~= a.drop_first() + b);
        lemma_scan_lines_add(a.drop_first(), b, n + 1);
        assert(scan_from(a[0], 0, n) + (scan_lines(a.drop_first(), n + 1) + scan_lines(
            b,
            n + a.len(),
        )) =~= (scan_from(a[0], 0, n) + scan_lines(a.drop_first(), n + 1)) + scan_lines(
            b,
            n + a.len(),
        ));
    }
}

/// A line of nothing but whitespace yields no token.
pub proof fn lemma_ws_line_empty(w: Seq<char>, i: int, n: nat)
    requires
        0 <= i,
        forall|k: int| 0 <= k < w.len() ==> is_ws(w[k]),
    ensures
        scan_from(w, i, n) == Seq::<TokenView>::empty(),
    decreases w.len() - i,
{
    if i < w.len() {
        assert(is_ws(w[i]));
        lemma_ws_line_empty(w, i + 1, n);
    }
}

/// A token with its diagnostic line number raised by `d`; tokens without a
/// line number are unchanged.
pub open spec fn shift_line(t: TokenView, d: nat) -> TokenView {
    match t {
        TokenView::Invalid { err, line } => TokenView::Invalid { err, line: line + d },
        _ => t,
    }
}

/// A token sequence with every diagnostic line number raised by `d`.
pub open spec fn shift_tokens(ts: Seq<TokenView>, d: nat) -> Seq<TokenView> {
    ts.map_values(|t: TokenView| shift_line(t, d))
}

proof fn lemma_shift_tokens_add(a: Seq<TokenView>, b: Seq<TokenView>, d: nat)
    ensures
        shift_tokens(a + b, d) == shift_tokens(a, d) + shift_tokens(b, d),
{
    assert(shift_tokens(a + b, d) =~= shift_tokens(a, d) + shift_tokens(b, d));
}

/// Scanning a line with a higher line number only raises the diagnostic line
/// numbers of its tokens by the same amount.
proof fn lemma_scan_from_shift(line: Seq<char>, i: int, n: nat, d: nat)
    requires
        0 <= i,
    ensures
        scan_from(line, i, n + d) == shift_tokens(scan_from(line, i, n), d),
    decreases line.len() - i,
{
    if i >= line.len() {
        assert(shift_tokens(Seq::<TokenView>::empty(), d) =~= Seq::<TokenView>::empty());
    } else {
        let c = line[i];
        if c == '"' {
            lemma_find_from(line, '"', i + 1);
            let close = find_from(line, '"', i + 1);
            if close < line.len() {
                lemma_scan_from_shift(line, close + 1, n, d);
                let t = TokenView::String(line.subrange(i + 1, close));
                lemma_shift_tokens_add(seq![t], scan_from(line, close + 1, n), d);
                assert(shift_tokens(seq![t], d) =~= seq![t]);
            } else {
                assert(shift_tokens(scan_from(line, i, n), d) =~= scan_from(line, i, n + d));
            }
        } else if is_digit(c) {
            lemma_digit_end(line, i + 1);
            let d1 = digit_end(line, i + 1);
            if d1 < line.len() && line[d1] == '.' && d1 + 1 < line.len() && is_digit(
                line[d1 + 1],
            ) {
                lemma_digit_end(line, d1 + 1);
                let d2 = digit_end(line, d1 + 1);
                lemma_scan_from_shift(line, d2, n, d);
                let t = TokenView::Number(line.subrange(i, d2));
                lemma_shift_tokens_add(seq![t], scan_from(line, d2, n), d);
                assert(shift_tokens(seq![t], d) =~= seq![t]);
            } else {
                lemma_scan_from_shift(line, d1, n, d);
                let t = TokenView::Number(line.subrange(i, d1));
                lemma_shift_tokens_add(seq![t], scan_from(line, d1, n), d);
                assert(shift_tokens(seq![t], d) =~= seq![t]);
            }
        } else if is_ident_start(c) {
            lemma_ident_end(line, i + 1);
            let end = ident_end(line, i + 1);
            lemma_scan_from_shift(line, end, n, d);
            let text = line.subrange(i, end);
            let t = match keyword_of(text) {
                Some(k) => k,
                None => TokenView::Identifier(text),
            };
            lemma_shift_tokens_add(seq![t], scan_from(line, end, n), d);
            assert(shift_tokens(seq![t], d) =~= seq![t]);
        } else {
            let next = if i + 1 < line.len() {
                Some(line[i + 1])
            } else {
                None
            };
            let (t, two) = tokenize_char_spec(c, next, n);
            let (td, twod) = tokenize_char_spec(c, next, n + d);
            assert(twod == two);
            match t {
                None => {
                    if two {
                        assert(shift_tokens(Seq::<TokenView>::empty(), d)
                            =~= Seq::<TokenView>::empty());
                    } else {
                        lemma_scan_from_shift(line, i + 1, n, d);
                    }
                },
                Some(tok) => {
                    let tokd = td->Some_0;
                    assert(tokd == shift_line(tok, d));
                    let rest = if two {
                        i + 2
                    } else {
                        i + 1
                    };
                    lemma_scan_from_shift(line, rest, n, d);
                    lemma_shift_tokens_add(seq![tok], scan_from(line, rest, n), d);
                    assert(shift_tokens(seq![tok], d) =~= seq![shift_line(tok, d)]);
                },
            }
        }
    }
}

proof fn lemma_scan_lines_shift(ls: Seq<Seq<char>>, n: nat, d: nat)
    ensures
        scan_lines(ls, n + d) == shift_tokens(scan_lines(ls, n), d),
    decreases ls.len(),
{
    if ls.len() == 0 {
        assert(shift_tokens(Seq::<TokenView>::empty(), d) =~= Seq::<TokenView>::empty());
    } else {
        lemma_scan_from_shift(ls[0], 0, n, d);
        lemma_scan_lines_shift(ls.drop_first(), n + 1, d);
        lemma_shift_tokens_add(scan_from(ls[0], 0, n), scan_lines(ls.drop_first(), n + 1), d);
    }
}

/// Law: inserting a whitespace-only line into a line sequence adds no token;
/// the tokens of the lines before the insertion point are unchanged, and the
/// tokens of the lines after it change only in their diagnostic line numbers,
/// which grow by one.
pub proof fn lemma_insert_blank_line(ls: Seq<Seq<char>>, w: Seq<char>, at: int, n: nat)
    requires
        0 <= at <= ls.len(),
        forall|k: int| 0 <= k < w.len() ==> is_ws(w[k]),
    ensures
        scan_lines(ls, n) == scan_lines(ls.take(at), n) + scan_lines(
            ls.skip(at),
            n + at as nat,
        ),
        scan_lines(ls.insert(at, w), n) == scan_lines(ls.take(at), n) + shift_tokens(
            scan_lines(ls.skip(at), n + at as nat),
            1,
        ),
{
    let pre = ls.take(at);
    let post = ls.skip(at);
    assert(pre.len() == at);
    assert(ls =~= pre + post);
    lemma_scan_lines_add(pre, post, n);
    assert(ls.insert(at, w) =~= pre + (seq![w] + post));
    lemma_scan_lines_add(pre, seq![w] + post, n);
    lemma_scan_lines_cons(w, post, n + at as nat);
    lemma_ws_line_empty(w, 0, n + at as nat);
    assert(Seq::<TokenView>::empty() + scan_lines(post, (n + at as nat) + 1) =~= scan_lines(
        post,
        (n + at as nat) + 1,
    ));
    lemma_scan_lines_shift(post, n + at as nat, 1);
}

/// Scanning a text without newlines is scanning it as the single line 1.
proof fn lemma_single_line(s: Seq<char>)
    requires
        forall|k: int| 0 <= k < s.len() ==> s[k] != '\n',
    ensures
        scan_spec(s) == scan_from(s, 0, 1).push(TokenView::Eof),
{
    if s.len() == 0 {
        assert(scan_tokens(s) == Seq::<TokenView>::empty());
    } else {
        lemma_find_from_is(s, '\n', 0, s.len() as int);
        assert(lines_from(s, 0) == seq![s.subrange(0, s.len() as int)]);
        assert(s.subrange(0, s.len() as int) =~= s);
        assert(seq![s] =~= seq![s] + Seq::<Seq<char>>::empty());
        lemma_scan_lines_cons(s, Seq::empty(), 1);
        assert(scan_from(s, 0, 1) + Seq::<TokenView>::empty() =~= scan_from(s, 0, 1));
    }
}

proof fn lemma_scan_single_char_op(c: char, t: TokenView)
    requires
        c != '"',
        !is_digit(c),
        !is_ident_start(c),
        c != '\n',
        tokenize_char_spec(c, None, 1) == (Some(t), false),
    ensures
        scan_spec(seq![c]) == seq![t, TokenView::Eof],
{
    let s = seq![c];
    lemma_single_line(s);
    assert(scan_from(s, 1, 1) == Seq::<TokenView>::empty());
    assert(scan_from(s, 0, 1) == seq![t] + scan_from(s, 1, 1));
    assert(seq![t] + Seq::<TokenView>::empty() =~= seq![t]);
    assert(seq![t].push(TokenView::Eof) =~= seq![t, TokenView::Eof]);
}

proof fn lemma_scan_two_char_op(c: char, t: TokenView)
    requires
        c != '"',
        !is_digit(c),
        !is_ident_start(c),
        c != '\n',
        tokenize_char_spec(c, Some('='), 1) == (Some(t), true),
    ensures
        scan_spec(seq![c, '=']) == seq![t, TokenView::Eof],
{
    let s = seq![c, '='];
    lemma_single_line(s);
    assert(scan_from(s, 2, 1) == Seq::<TokenView>::empty());
    assert(scan_from(s, 0, 1) == seq![t] + scan_from(s, 2, 1));
    assert(seq![t] + Seq::<TokenView>::empty() =~= seq![t]);
    assert(seq![t].push(TokenView::Eof) =~= seq![t, TokenView::Eof]);
}

proof fn lemma_scan_keyword_text(w: Seq<char>, t: TokenView)
    requires
        w.len() >= 1,
        is_ident_start(w[0]),
        forall|k: int| 1 <= k < w.len() ==> is_ident_cont(w[k]),
        keyword_of(w) == Some(t),
    ensures
        scan_spec(w) == seq![t, TokenView::Eof],
{
    assert forall|k: int| 0 <= k < w.len() implies w[k] != '\n' by {
        if k == 0 {
            assert(is_ident_start(w[0]));
        } else {
            assert(is_ident_cont(w[k]));
        }
    }
    lemma_single_line(w);
    lemma_ident_end_is(w, 1, w.len() as int);
    assert(w.subrange(0, w.len() as int) =~= w);
    assert(scan_from(w, w.len() as int, 1) == Seq::<TokenView>::empty());
    assert(scan_from(w, 0, 1) == seq![t] + scan_from(w, w.len() as int, 1));
    assert(seq![t] + Seq::<TokenView>::empty() =~= seq![t]);
    assert(seq![t].push(TokenView::Eof) =~= seq![t, TokenView::Eof]);
}

/// Law: scanning the canonical lexeme text of any token kind that has a fixed
/// surface text, in isolation, reproduces exactly that one token followed by
/// the end-of-stream sentinel.
pub proof fn lemma_lexeme_round_trip(t: TokenView)
    requires
        has_fixed_lexeme(t),
    ensures
        scan_spec(lexeme_of(t)) == seq![t, TokenView::Eof],
{
    reveal_strlit("(");
    reveal_strlit(")");
    reveal_strlit("{");
    reveal_strlit("}");
    reveal_strlit(",");
    reveal_strlit(".");
    reveal_strlit("-");
    reveal_strlit("+");
    reveal_strlit(";");
    reveal_strlit("/");
    reveal_strlit("*");
    reveal_strlit("=");
    reveal_strlit("==");
    reveal_strlit("!");
    reveal_strlit("!=");
    reveal_strlit("<");
    reveal_strlit("<=");
    reveal_strlit(">");
    reveal_strlit(">=");
    reveal_strlit("and");
    reveal_strlit("class");
    reveal_strlit("else");
    reveal_strlit("false");
    reveal_strlit("fun");
    reveal_strlit("for");
    reveal_strlit("if");
    reveal_strlit("nil");
    reveal_strlit("or");
    reveal_strlit("print");
    reveal_strlit("return");
    reveal_strlit("super");
    reveal_strlit("this");
    reveal_strlit("true");
    reveal_strlit("var");
    reveal_strlit("while");
    match t {
        TokenView::LeftParen => {
            assert(lexeme_of(t) =~= seq!['(']);
            lemma_scan_single_char_op('(', t);
        },
        TokenView::RightParen => {
            assert(lexeme_of(t) =~= seq![')']);
            lemma_scan_single_char_op(')', t);
        },
        TokenView::LeftBrace => {
            assert(lexeme_of(t) =~= seq!['{']);
            lemma_scan_single_char_op('{', t);
        },
        TokenView::RightBrace => {
            assert(lexeme_of(t) =~= seq!['}']);
            lemma_scan_single_char_op('}', t);
        },
        TokenView::Comma => {
            assert(lexeme_of(t) =~= seq![',']);
            lemma_scan_single_char_op(',', t);
        },
        TokenView::Dot => {
            assert(lexeme_of(t) =~= seq!['.']);
            lemma_scan_single_char_op('.', t);
        },
        TokenView::Minus => {
            assert(lexeme_of(t) =~= seq!['-']);
            lemma_scan_single_char_op('-', t);
        },
        TokenView::Plus => {
            assert(lexeme_of(t) =~= seq!['+']);
            lemma_scan_single_char_op('+', t);
        },
        TokenView::Semicolon => {
            assert(lexeme_of(t) =~= seq![';']);
            lemma_scan_single_char_op(';', t);
        },
        TokenView::Slash => {
            assert(lexeme_of(t) =~= seq!['/']);
            lemma_scan_single_char_op('/', t);
        },
        TokenView::Star => {
            assert(lexeme_of(t) =~= seq!['*']);
            lemma_scan_single_char_op('*', t);
        },
        TokenView::Equal => {
            assert(lexeme_of(t) =~= seq!['=']);
            lemma_scan_single_char_op('=', t);
        },
        TokenView::EqualEqual => {
            assert(lexeme_of(t) =~= seq!['=', '=']);
            lemma_scan_two_char_op('=', t);
        },
        TokenView::Bang => {
            assert(lexeme_of(t) =~= seq!['!']);
            lemma_scan_single_char_op('!', t);
        },
        TokenView::BangEqual => {
            assert(lexeme_of(t) =~= seq!['!', '=']);
            lemma_scan_two_char_op('!', t);
        },
        TokenView::Less => {
            assert(lexeme_of(t) =~= seq!['<']);
            lemma_scan_single_char_op('<', t);
        },
        TokenView::LessEqual => {
            assert(lexeme_of(t) =~= seq!['<', '=']);
            lemma_scan_two_char_op('<', t);
        },
        TokenView::Greater => {
            assert(lexeme_of(t) =~= seq!['>']);
            lemma_scan_single_char_op('>', t);
        },
        TokenView::GreaterEqual => {
            assert(lexeme_of(t) =~= seq!['>', '=']);
            lemma_scan_two_char_op('>', t);
        },
        TokenView::And => {
            lemma_scan_keyword_text("and"@, t);
        },
        TokenView::Class => {
            lemma_scan_keyword_text("class"@, t);
        },
        TokenView::Else => {
            lemma_scan_keyword_text("else"@, t);
        },
        TokenView::False => {
            assert("false"@[0] == 'f' && "class"@[0] == 'c');
            assert("false"@ != "class"@);
            lemma_scan_keyword_text("false"@, t);
        },
        TokenView::Fun => {
            assert("fun"@[0] == 'f' && "and"@[0] == 'a');
            assert("fun"@ != "and"@);
            lemma_scan_keyword_text("fun"@, t);
        },
        TokenView::For => {
            assert("for"@[0] == 'f' && "and"@[0] == 'a');
            assert("for"@ != "and"@);
            assert("for"@[1] == 'o' && "fun"@[1] == 'u');
            assert("for"@ != "fun"@);
            lemma_scan_keyword_text("for"@, t);
        },
        TokenView::If => {
            lemma_scan_keyword_text("if"@, t);
        },
        TokenView::Nil => {
            assert("nil"@[0] == 'n' && "and"@[0] == 'a');
            assert("nil"@ != "and"@);
            assert("nil"@[0] == 'n' && "fun"@[0] == 'f');
            assert("nil"@ != "fun"@);
            assert("nil"@[0] == 'n' && "for"@[0] == 'f');
            assert("nil"@ != "for"@);
            lemma_scan_keyword_text("nil"@, t);
        },
        TokenView::Or => {
            assert("or"@[0] == 'o' && "if"@[0] == 'i');
            assert("or"@ != "if"@);
            lemma_scan_keyword_text("or"@, t);
        },
        TokenView::Print => {
            assert("print"@[0] == 'p' && "class"@[0] == 'c');
            assert("print"@ != "class"@);
            assert("print"@[0] == 'p' && "false"@[0] == 'f');
            assert("print"@ != "false"@);
            lemma_scan_keyword_text("print"@, t);
        },
        TokenView::Return => {
            lemma_scan_keyword_text("return"@, t);
        },
        TokenView::Super => {
            assert("super"@[0] == 's' && "class"@[0] == 'c');
            assert("super"@ != "class"@);
            assert("super"@[0] == 's' && "false"@[0] == 'f');
            assert("super"@ != "false"@);
            assert("super"@[0] == 's' && "print"@[0] == 'p');
            assert("super"@ != "print"@);
            lemma_scan_keyword_text("super"@, t);
        },
        TokenView::This => {
            assert("this"@[0] == 't' && "else"@[0] == 'e');
            assert("this"@ != "else"@);
            lemma_scan_keyword_text("this"@, t);
        },
        TokenView::True => {
            assert("true"@[0] == 't' && "else"@[0] == 'e');
            assert("true"@ != "else"@);
            assert("true"@[1] == 'r' && "this"@[1] == 'h');
            assert("true"@ != "this"@);
            lemma_scan_keyword_text("true"@, t);
        },
        TokenView::Var => {
            assert("var"@[0] == 'v' && "and"@[0] == 'a');
            assert("var"@ != "and"@);
            assert("var"@[0] == 'v' && "fun"@[0] == 'f');
            assert("var"@ != "fun"@);
            assert("var"@[0] == 'v' && "for"@[0] == 'f');
            assert("var"@ != "for"@);
            assert("var"@[0] == 'v' && "nil"@[0] == 'n');
            assert("var"@ != "nil"@);
            lemma_scan_keyword_text("var"@, t);
        },
        TokenView::While => {
            assert("while"@[0] == 'w' && "class"@[0] == 'c');
            assert("while"@ != "class"@);
            assert("while"@[0] == 'w' && "false"@[0] == 'f');
            assert("while"@ != "false"@);
            assert("while"@[0] == 'w' && "print"@[0] == 'p');
            assert("while"@ != "print"@);
            assert("while"@[0] == 'w' && "super"@[0] == 's');
            assert("while"@ != "super"@);
            lemma_scan_keyword_text("while"@, t);
        },
        _ => {},
    }
}

proof fn lemma_find_from_concat_high(a: Seq<char>, b: Seq<char>, c: char, k: int)
    requires
        0 <= k <= b.len(),
    ensures
        find_from(a + b, c, a.len() + k) == a.len() + find_from(b, c, k),
    decreases b.len() - k,
{
    if k < b.len() {
        assert((a + b)[a.len() + k] == b[k]);
        if b[k] != c {
            lemma_find_from_concat_high(a, b, c, k + 1);
        }
    }
}

proof fn lemma_find_from_concat_low(a: Seq<char>, b: Seq<char>, c: char, k: int)
    requires
        0 <= k <= a.len(),
        find_from(a, c, k) < a.len(),
    ensures
        find_from(a + b, c, k) == find_from(a, c, k),
    decreases a.len() - k,
{
    assert((a + b)[k] == a[k]);
    if a[k] != c {
        lemma_find_from_concat_low(a, b, c, k + 1);
    }
}

proof fn lemma_lines_from_tail(a: Seq<char>, b: Seq<char>, k: int)
    requires
        0 <= k <= b.len(),
    ensures
        lines_from(a + b, a.len() + k) == lines_from(b, k),
    decreases b.len() - k,
{
    let s = a + b;
    if k < b.len() {
        lemma_find_from_concat_high(a, b, '\n', k);
        let j = find_from(b, '\n', k);
        lemma_find_from(b, '\n', k);
        if j < b.len() {
            assert(line_seg(s, a.len() + k, a.len() + j) =~= line_seg(b, k, j));
            lemma_lines_from_tail(a, b, j + 1);
        } else {
            assert(s.subrange(a.len() + k, s.len() as int) =~= b.subrange(k, b.len() as int));
        }
    }
}

/// Splitting a text after a run of whole lines splits its line sequence.
proof fn lemma_lines_append_from(a: Seq<char>, b: Seq<char>, pos: int)
    requires
        0 <= pos <= a.len(),
        a.len() > 0 ==> a.last() == '\n',
    ensures
        lines_from(a + b, pos) == lines_from(a, pos) + lines_from(b, 0),
    decreases a.len() - pos,
{
    let s = a + b;
    if pos == a.len() {
        lemma_lines_from_tail(a, b, 0);
        assert(Seq::<Seq<char>>::empty() + lines_from(b, 0) =~= lines_from(b, 0));
    } else {
        let j = find_from(a, '\n', pos);
        lemma_find_from(a, '\n', pos);
        assert(j < a.len()) by {
            if j == a.len() {
                assert(a[a.len() - 1] == '\n');
            }
        }
        lemma_find_from_concat_low(a, b, '\n', pos);
        assert(line_seg(s, pos, j) =~= line_seg(a, pos, j));
        lemma_lines_append_from(a, b, j + 1);
        assert(seq![line_seg(a, pos, j)] + (lines_from(a, j + 1) + lines_from(b, 0)) =~= (seq![
            line_seg(a, pos, j),
        ] + lines_from(a, j + 1)) + lines_from(b, 0));
    }
}

/// A whitespace-only line closed by a newline is one line of its own.
proof fn lemma_lines_of_blank(w: Seq<char>)
    requires
        forall|k: int| 0 <= k < w.len() ==> is_ws(w[k]),
    ensures
        lines_from(w.push('\n'), 0) == seq![w],
{
    let wp = w.push('\n');
    lemma_find_from_is(wp, '\n', 0, w.len() as int);
    if w.len() > 0 {
        assert(is_ws(wp[w.len() - 1]));
    }
    assert(line_seg(wp, 0, w.len() as int) =~= w);
    assert(lines_from(wp, w.len() as int + 1) == Seq::<Seq<char>>::empty());
}

/// Law, stated on the raw text: split any source at a line boundary into a
/// leading part `a` made of whole lines and a rest `b`. Inserting a
/// whitespace-only line at the boundary leaves the tokens of `a` unchanged
/// and changes the tokens of `b` only in their diagnostic line numbers,
/// which grow by one; no token is added or dropped.
pub proof fn lemma_insert_blank_line_text(a: Seq<char>, w: Seq<char>, b: Seq<char>)
    requires
        a.len() > 0 ==> a.last() == '\n',
        forall|k: int| 0 <= k < w.len() ==> is_ws(w[k]),
    ensures
        scan_tokens(a + b) == scan_tokens(a) + scan_lines(
            lines_from(b, 0),
            1 + lines_from(a, 0).len(),
        ),
        scan_tokens(a + w.push('\n') + b) == scan_tokens(a) + shift_tokens(
            scan_lines(lines_from(b, 0), 1 + lines_from(a, 0).len()),
            1,
        ),
{
    let la = lines_from(a, 0);
    let lb = lines_from(b, 0);
    let wp = w.push('\n');
    lemma_lines_append_from(a, b, 0);
    lemma_scan_lines_add(la, lb, 1);
    assert(a + wp + b =~= a + (wp + b));
    lemma_lines_append_from(a, wp + b, 0);
    assert(wp.len() > 0 && wp.last() == '\n');
    lemma_lines_append_from(wp, b, 0);
    lemma_lines_of_blank(w);
    assert(lines_from(a + (wp + b), 0) == la + (seq![w] + lb));
    lemma_scan_lines_add(la, seq![w] + lb, 1);
    lemma_scan_lines_cons(w, lb, 1 + la.len());
    lemma_ws_line_empty(w, 0, 1 + la.len());
    assert(Seq::<TokenView>::empty() + scan_lines(lb, (1 + la.len()) + 1) =~= scan_lines(
        lb,
        (1 + la.len()) + 1,
    ));
    lemma_scan_lines_shift(lb, 1 + la.len(), 1);
}

/// Well-formed number text: one or more digits, then at most one decimal
/// point that is followed by one or more digits running to the end.
pub open spec fn is_number_text(x: Seq<char>) -> bool {
    &&& x.len() > 0
    &&& is_digit(x[0])
    &&& {
        let d = digit_end(x, 0);
        ||| d == x.len()
        ||| (d < x.len() && x[d] == '.' && d + 1 < x.len() && digit_end(x, d + 1) == x.len())
    }
}

proof fn lemma_scan_from_numbers(line: Seq<char>, i: int, n: nat)
    requires
        0 <= i,
    ensures
        forall|k: int|
            0 <= k < scan_from(line, i, n).len() ==> (scan_from(line, i, n)[k] is Number
                ==> is_number_text(scan_from(line, i, n)[k]->Number_0)),
    decreases line.len() - i,
{
    if i < line.len() {
        let c = line[i];
        if c == '"' {
            lemma_find_from(line, '"', i + 1);
            let close = find_from(line, '"', i + 1);
            if close < line.len() {
                lemma_scan_from_numbers(line, close + 1, n);
            }
        } else if is_digit(c) {
            lemma_digit_end(line, i + 1);
            let d1 = digit_end(line, i + 1);
            if d1 < line.len() && line[d1] == '.' && d1 + 1 < line.len() && is_digit(
                line[d1 + 1],
            ) {
                lemma_digit_end(line, d1 + 1);
                let d2 = digit_end(line, d1 + 1);
                let x = line.subrange(i, d2);
                lemma_digit_end_is(x, 0, d1 - i);
                lemma_digit_end_is(x, d1 - i + 1, d2 - i);
                assert(is_number_text(x));
                lemma_scan_from_numbers(line, d2, n);
            } else {
                let x = line.subrange(i, d1);
                lemma_digit_end_is(x, 0, d1 - i);
                assert(is_number_text(x));
                lemma_scan_from_numbers(line, d1, n);
            }
        } else if is_ident_start(c) {
            lemma_ident_end(line, i + 1);
            lemma_scan_from_numbers(line, ident_end(line, i + 1), n);
        } else {
            let next = if i + 1 < line.len() {
                Some(line[i + 1])
            } else {
                None
            };
            let (t, two) = tokenize_char_spec(c, next, n);
            match t {
                None => {
                    if !two {
                        lemma_scan_from_numbers(line, i + 1, n);
                    }
                },
                Some(tok) => {
                    assert(!(tok is Number));
                    if two {
                        lemma_scan_from_numbers(line, i + 2, n);
                    } else {
                        lemma_scan_from_numbers(line, i + 1, n);
                    }
                },
            }
        }
    }
}

proof fn lemma_scan_lines_numbers(ls: Seq<Seq<char>>, n: nat)
    ensures
        forall|k: int|
            0 <= k < scan_lines(ls, n).len() ==> (scan_lines(ls, n)[k] is Number
                ==> is_number_text(scan_lines(ls, n)[k]->Number_0)),
    decreases ls.len(),
{
    if ls.len() > 0 {
        lemma_scan_from_numbers(ls[0], 0, n);
        lemma_scan_lines_numbers(ls.drop_first(), n + 1);
    }
}

/// Law: every number token a scan emits carries well-formed decimal text, so
/// its decoded value and its literal rendering are derived from one and the
/// same digits and never diverge.
pub proof fn lemma_scanned_numbers_well_formed(s: Seq<char>)
    ensures
        forall|k: int|
            0 <= k < scan_spec(s).len() ==> (scan_spec(s)[k] is Number ==> is_number_text(
                scan_spec(s)[k]->Number_0,
            )),
{
    lemma_scan_lines_numbers(lines_from(s, 0), 1);
}

proof fn lemma_int_text_digits(t: Seq<char>)
    requires
        forall|k: int| 0 <= k < t.len() ==> is_digit(t[k]),
    ensures
        int_text(t).len() >= 1,
        forall|k: int| 0 <= k < int_text(t).len() ==> is_digit(int_text(t)[k]),
    decreases t.len(),
{
    if t.len() >= 2 && t[0] == '0' {
        let t1 = t.drop_first();
        assert(forall|k: int| 0 <= k < t1.len() ==> is_digit(t1[k]));
        lemma_int_text_digits(t1);
    } else if t.len() == 0 {
        reveal_strlit("0");
        assert(is_digit("0"@[0]));
    }
}

proof fn lemma_frac_text_digits(t: Seq<char>)
    requires
        forall|k: int| 0 <= k < t.len() ==> is_digit(t[k]),
    ensures
        frac_text(t).len() >= 1,
        forall|k: int| 0 <= k < frac_text(t).len() ==> is_digit(frac_text(t)[k]),
    decreases t.len(),
{
    if t.len() >= 2 && t.last() == '0' {
        let t1 = t.drop_last();
        assert(forall|k: int| 0 <= k < t1.len() ==> is_digit(t1[k]));
        lemma_frac_text_digits(t1);
    } else if t.len() == 0 {
        reveal_strlit("0");
        assert(is_digit("0"@[0]));
    }
}

/// Law: the literal rendering of well-formed number text always shows a
/// fractional part: it holds a decimal point that is not last, and only
/// digits follow it.
pub proof fn lemma_number_literal_fractional(x: Seq<char>)
    requires
        is_number_text(x),
    ensures
        ({
            let r = number_literal(x);
            let d = find_from(r, '.', 0);
            &&& 0 <= d < r.len() - 1
            &&& r[d] == '.'
            &&& forall|k: int| d < k < r.len() ==> is_digit(r[k])
        }),
{
    let r = number_literal(x);
    let dp = find_from(x, '.', 0);
    lemma_find_from(x, '.', 0);
    let de = digit_end(x, 0);
    lemma_digit_end(x, 0);
    if de < x.len() && x[de] == '.' && de + 1 < x.len() && digit_end(x, de + 1) == x.len() {
        lemma_find_from_is(x, '.', 0, de);
        assert(dp == de);
        if has_nonzero_fraction(x, dp) {
            lemma_digit_end(x, de + 1);
            lemma_nonzero_fraction_literal(x, dp);
        } else {
            lemma_constructed_literal(x, dp);
        }
    } else {
        assert(de == x.len());
        lemma_find_from_is(x, '.', 0, x.len() as int);
        assert(dp == x.len());
        lemma_constructed_literal(x, dp);
    }
}

proof fn lemma_constructed_literal(x: Seq<char>, dp: int)
    requires
        0 <= dp <= x.len(),
        forall|k: int| 0 <= k < dp ==> is_digit(x[k]),
        number_literal(x) == int_text(x.subrange(0, dp)) + ".0"@,
    ensures
        ({
            let r = number_literal(x);
            let d = find_from(r, '.', 0);
            &&& 0 <= d < r.len() - 1
            &&& r[d] == '.'
            &&& forall|k: int| d < k < r.len() ==> is_digit(r[k])
        }),
{
    reveal_strlit(".0");
    reveal_strlit("0");
    let ip = int_text(x.subrange(0, dp));
    let r = number_literal(x);
    lemma_int_text_digits(x.subrange(0, dp));
    assert(r[ip.len() as int] == '.');
    assert(forall|k: int| 0 <= k < ip.len() ==> r[k] == ip[k] && is_digit(r[k]));
    lemma_find_from_is(r, '.', 0, ip.len() as int);
    assert(r[r.len() - 1] == '0');
    assert(is_digit('0'));
}

proof fn lemma_nonzero_fraction_literal(x: Seq<char>, dp: int)
    requires
        0 <= dp,
        dp + 1 < x.len(),
        forall|k: int| 0 <= k < dp ==> is_digit(x[k]),
        forall|k: int| dp < k < x.len() ==> is_digit(x[k]),
        number_literal(x) == int_text(x.subrange(0, dp)) + "."@ + frac_text(
            x.subrange(dp + 1, x.len() as int),
        ),
    ensures
        ({
            let r = number_literal(x);
            let d = find_from(r, '.', 0);
            &&& 0 <= d < r.len() - 1
            &&& r[d] == '.'
            &&& forall|k: int| d < k < r.len() ==> is_digit(r[k])
        }),
{
    reveal_strlit(".");
    let ip = int_text(x.subrange(0, dp));
    let fp = frac_text(x.subrange(dp + 1, x.len() as int));
    let r = number_literal(x);
    lemma_int_text_digits(x.subrange(0, dp));
    lemma_frac_text_digits(x.subrange(dp + 1, x.len() as int));
    assert(r[ip.len() as int] == '.');
    assert(forall|k: int| 0 <= k < ip.len() ==> r[k] == ip[k] && is_digit(r[k]));
    lemma_find_from_is(r, '.', 0, ip.len() as int);
    assert(forall|k: int|
        ip.len() < k < r.len() ==> r[k] == fp[k - ip.len() - 1] && is_digit(r[k]));
}

} // verus!
