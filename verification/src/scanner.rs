//! The scanner: a single line-scoped pass that turns source text into an
//! ordered token sequence, with local error recovery.
//!
//! The specification mirrors the pass itself: `lines_from` splits the source
//! at newlines, `scan_from` gives the tokens of one line from a position on,
//! and `scan_spec` is the whole run with the end-of-stream sentinel appended.

use vstd::prelude::*;

verus! {

use vstd::string::StringExecFns;
use crate::text::find_from;
use crate::text::lemma_find_from;
use crate::text::digit_end;
use crate::text::lemma_digit_end;
use crate::text::lemma_digit_end_is;
use crate::text::ident_end;
use crate::text::lemma_ident_end;
use crate::text::lemma_ident_end_is;
use crate::text::is_digit;
use crate::text::is_digit_exec;
use crate::text::is_ident_cont;
use crate::text::is_ident_start;
use crate::text::is_ident_start_exec;
use crate::text::is_ident_cont_exec;
use crate::text::chars_to_string;
use crate::text::copy_range;
use crate::text::find_char;
use crate::text::str_chars;
use crate::token::Token;
use crate::token::TokenView;
use crate::token::keyword_of;
use crate::token::keyword_token;
use crate::token::is_invalid;
use crate::token::tokenize_char_spec;
use crate::token::unterminated_string_text;

/// One source line: the characters from `pos` up to the newline at `j`, with
/// one carriage return before the newline stripped.
pub open spec fn line_seg(s: Seq<char>, pos: int, j: int) -> Seq<char> {
    if j > pos && s[j - 1] == '\r' {
        s.subrange(pos, j - 1)
    } else {
        s.subrange(pos, j)
    }
}

/// The source lines from position `pos` on: newline-delimited, a carriage
/// return directly before a newline stripped, and a trailing unterminated
/// line kept as it stands.
pub open spec fn lines_from(s: Seq<char>, pos: int) -> Seq<Seq<char>>
    decreases s.len() - pos,
    when 0 <= pos
    via lines_from_decreases
{
    if pos >= s.len() {
        Seq::empty()
    } else {
        let j = find_from(s, '\n', pos);
        if j < s.len() {
            seq![line_seg(s, pos, j)] + lines_from(s, j + 1)
        } else {
            seq![s.subrange(pos, s.len() as int)]
        }
    }
}

#[via_fn]
proof fn lines_from_decreases(s: Seq<char>, pos: int) {
    if 0 <= pos < s.len() {
        lemma_find_from(s, '\n', pos);
    }
}

/// The tokens the scanner emits for the line `line` from position `i` on,
/// diagnostics carrying line number `n`.
pub open spec fn scan_from(line: Seq<char>, i: int, n: nat) -> Seq<TokenView>
    decreases line.len() - i,
    when 0 <= i
    via scan_from_decreases
{
    if i >= line.len() {
        Seq::empty()
    } else {
        let c = line[i];
        if c == '"' {
            let close = find_from(line, '"', i + 1);
            if close < line.len() {
                seq![TokenView::String(line.subrange(i + 1, close))] + scan_from(
                    line,
                    close + 1,
                    n,
                )
            } else {
                seq![TokenView::Invalid { err: unterminated_string_text(), line: n }]
            }
        } else if is_digit(c) {
            let d1 = digit_end(line, i + 1);
            if d1 < line.len() && line[d1] == '.' && d1 + 1 < line.len() && is_digit(
                line[d1 + 1],
            ) {
                let d2 = digit_end(line, d1 + 1);
                seq![TokenView::Number(line.subrange(i, d2))] + scan_from(line, d2, n)
            } else {
                seq![TokenView::Number(line.subrange(i, d1))] + scan_from(line, d1, n)
            }
        } else if is_ident_start(c) {
            let end = ident_end(line, i + 1);
            let text = line.subrange(i, end);
            let t = match keyword_of(text) {
                Some(k) => k,
                None => TokenView::Identifier(text),
            };
            seq![t] + scan_from(line, end, n)
        } else {
            let next = if i + 1 < line.len() {
                Some(line[i + 1])
            } else {
                None
            };
            let (t, two) = tokenize_char_spec(c, next, n);
            match t {
                None => if two {
                    // `//`: the rest of the line is a comment
                    Seq::empty()
                } else {
                    // whitespace
                    scan_from(line, i + 1, n)
                },
                Some(tok) => if two {
                    seq![tok] + scan_from(line, i + 2, n)
                } else {
                    seq![tok] + scan_from(line, i + 1, n)
                },
            }
        }
    }
}

#[via_fn]
proof fn scan_from_decreases(line: Seq<char>, i: int, n: nat) {
    if 0 <= i < line.len() {
        lemma_find_from(line, '"', i + 1);
        lemma_digit_end(line, i + 1);
        lemma_ident_end(line, i + 1);
        let d1 = digit_end(line, i + 1);
        if d1 + 1 <= line.len() {
            lemma_digit_end(line, d1 + 1);
        }
    }
}

/// The tokens of a sequence of lines, the first line numbered `n`.
pub open spec fn scan_lines(ls: Seq<Seq<char>>, n: nat) -> Seq<TokenView>
    decreases ls.len(),
{
    if ls.len() == 0 {
        Seq::empty()
    } else {
        scan_from(ls[0], 0, n) + scan_lines(ls.drop_first(), n + 1)
    }
}

/// All tokens a scan of `s` emits, without the end-of-stream sentinel.
pub open spec fn scan_tokens(s: Seq<char>) -> Seq<TokenView> {
    scan_lines(lines_from(s, 0), 1)
}

/// The full result of a scan of `s`: the emitted tokens with exactly one
/// end-of-stream sentinel appended.
pub open spec fn scan_spec(s: Seq<char>) -> Seq<TokenView> {
    scan_tokens(s).push(TokenView::Eof)
}

pub proof fn lemma_scan_lines_cons(l: Seq<char>, rest: Seq<Seq<char>>, n: nat)
    ensures
        scan_lines(seq![l] + rest, n) == scan_from(l, 0, n) + scan_lines(rest, n + 1),
{
    let ls = seq![l] + rest;
    assert(ls[0] == l);
    assert(ls.drop_first() =~= rest);
}

impl Token {
    /// Scans the string literal whose opening quote stands at `*i`: its
    /// contents run verbatim to the closing quote on the same line, and a
    /// string still open at the end of the line is reported as unterminated
    /// and consumes the rest of the line.
    fn parse_string_literal(
        line: &Vec<char>,
        i: &mut usize,
        tokens: &mut Vec<Token>,
        line_number: usize,
    )
        requires
            *old(i) < line@.len(),
            line@[*old(i) as int] == '"',
        ensures
            *old(i) < *final(i) <= line@.len(),
            old(tokens).deep_view() + scan_from(line@, *old(i) as int, line_number as nat)
                == final(tokens).deep_view() + scan_from(
                line@,
                *final(i) as int,
                line_number as nat,
            ),
    {
        let ghost i0 = *i as int;
        let ghost n = line_number as nat;
        let len = line.len();
        let close = find_char(line, '"', *i + 1);
        proof {
            lemma_find_from(line@, '"', i0 + 1);
        }
        if close < len {
            let content = copy_range(line, *i + 1, close);
            let s = chars_to_string(&content);
            let ghost t = TokenView::String(line@.subrange(i0 + 1, close as int));
            tokens.push(Token::String(s));
            *i = close + 1;
            proof {
                assert(tokens.deep_view() =~= old(tokens).deep_view().push(t));
                assert(scan_from(line@, i0, n) == seq![t] + scan_from(line@, *i as int, n));
                assert(old(tokens).deep_view() + (seq![t] + scan_from(line@, *i as int, n))
                    =~= old(tokens).deep_view().push(t) + scan_from(line@, *i as int, n));
            }
        } else {
            let ghost t = TokenView::Invalid { err: unterminated_string_text(), line: n };
            tokens.push(
                Token::Invalid {
                    err: String::from_str("Unterminated string."),
                    line: line_number,
                },
            );
            *i = len;
            proof {
                assert(tokens.deep_view() =~= old(tokens).deep_view().push(t));
                assert(scan_from(line@, i0, n) == seq![t]);
                assert(scan_from(line@, *i as int, n) == Seq::<TokenView>::empty());
                assert(old(tokens).deep_view() + seq![t] =~= old(tokens).deep_view().push(t)
                    + Seq::<TokenView>::empty());
            }
        }
    }

    /// Scans the number literal whose first digit stands at `*i`: consecutive
    /// digits, then at most one decimal point that is directly followed by a
    /// digit; a trailing or second decimal point is left for the next scan
    /// step to classify on its own.
    fn parse_number_literal(
        line: &Vec<char>,
        i: &mut usize,
        tokens: &mut Vec<Token>,
        Ghost(n): Ghost<nat>,
    )
        requires
            *old(i) < line@.len(),
            is_digit(line@[*old(i) as int]),
        ensures
            *old(i) < *final(i) <= line@.len(),
            old(tokens).deep_view() + scan_from(line@, *old(i) as int, n)
                == final(tokens).deep_view() + scan_from(line@, *final(i) as int, n),
    {
        let ghost i0 = *i as int;
        let len = line.len();
        let start = *i;
        let mut k = start + 1;
        while k < len && is_digit_exec(line[k])
            invariant
                len == line@.len(),
                start + 1 <= k <= line@.len(),
                forall|t: int| start + 1 <= t < k ==> is_digit(line@[t]),
            decreases line@.len() - k,
        {
            k = k + 1;
        }
        proof {
            lemma_digit_end_is(line@, i0 + 1, k as int);
        }
        if k < len && line[k] == '.' && k + 1 < len && is_digit_exec(line[k + 1]) {
            let mut k2 = k + 2;
            while k2 < len && is_digit_exec(line[k2])
                invariant
                    len == line@.len(),
                    k + 2 <= k2 <= line@.len(),
                    is_digit(line@[k + 1]),
                    forall|t: int| k + 1 <= t < k2 ==> is_digit(line@[t]),
                decreases line@.len() - k2,
            {
                k2 = k2 + 1;
            }
            proof {
                lemma_digit_end_is(line@, k + 1, k2 as int);
            }
            let text = copy_range(line, start, k2);
            let s = chars_to_string(&text);
            let ghost t = TokenView::Number(line@.subrange(i0, k2 as int));
            tokens.push(Token::Number(s));
            *i = k2;
            proof {
                assert(tokens.deep_view() =~= old(tokens).deep_view().push(t));
                assert(scan_from(line@, i0, n) == seq![t] + scan_from(line@, *i as int, n));
                assert(old(tokens).deep_view() + (seq![t] + scan_from(line@, *i as int, n))
                    =~= old(tokens).deep_view().push(t) + scan_from(line@, *i as int, n));
            }
        } else {
            let text = copy_range(line, start, k);
            let s = chars_to_string(&text);
            let ghost t = TokenView::Number(line@.subrange(i0, k as int));
            tokens.push(Token::Number(s));
            *i = k;
            proof {
                assert(tokens.deep_view() =~= old(tokens).deep_view().push(t));
                assert(scan_from(line@, i0, n) == seq![t] + scan_from(line@, *i as int, n));
                assert(old(tokens).deep_view() + (seq![t] + scan_from(line@, *i as int, n))
                    =~= old(tokens).deep_view().push(t) + scan_from(line@, *i as int, n));
            }
        }
    }

    /// Scans the identifier whose first character stands at `*i` and resolves
    /// it against the reserved-word table.
    fn parse_identifier(
        line: &Vec<char>,
        i: &mut usize,
        tokens: &mut Vec<Token>,
        Ghost(n): Ghost<nat>,
    )
        requires
            *old(i) < line@.len(),
            is_ident_start(line@[*old(i) as int]),
        ensures
            *old(i) < *final(i) <= line@.len(),
            old(tokens).deep_view() + scan_from(line@, *old(i) as int, n)
                == final(tokens).deep_view() + scan_from(line@, *final(i) as int, n),
    {
        let ghost i0 = *i as int;
        let len = line.len();
        let start = *i;
        let mut k = start + 1;
        while k < len && is_ident_cont_exec(line[k])
            invariant
                len == line@.len(),
                start + 1 <= k <= line@.len(),
                forall|t: int| start + 1 <= t < k ==> is_ident_cont(line@[t]),
            decreases line@.len() - k,
        {
            k = k + 1;
        }
        proof {
            lemma_ident_end_is(line@, i0 + 1, k as int);
        }
        let text = copy_range(line, start, k);
        let s = chars_to_string(&text);
        let ghost txt = line@.subrange(i0, k as int);
        let ghost t = match keyword_of(txt) {
            Some(kw) => kw,
            None => TokenView::Identifier(txt),
        };
        match keyword_token(s.as_str()) {
            Some(kw) => tokens.push(kw),
            None => tokens.push(Token::Identifier(s)),
        }
        *i = k;
        proof {
            assert(tokens.deep_view() =~= old(tokens).deep_view().push(t));
            assert(scan_from(line@, i0, n) == seq![t] + scan_from(line@, *i as int, n));
            assert(old(tokens).deep_view() + (seq![t] + scan_from(line@, *i as int, n))
                =~= old(tokens).deep_view().push(t) + scan_from(line@, *i as int, n));
        }
    }
}

/// Appends the tokens of one line to `tokens`.
fn scan_line_into(line: &Vec<char>, line_number: usize, tokens: &mut Vec<Token>)
    ensures
        final(tokens).deep_view() == old(tokens).deep_view() + scan_from(
            line@,
            0,
            line_number as nat,
        ),
{
    let ghost n = line_number as nat;
    let mut i: usize = 0;
    while i < line.len()
        invariant
            i <= line@.len(),
            old(tokens).deep_view() + scan_from(line@, 0, n) == tokens.deep_view() + scan_from(
                line@,
                i as int,
                n,
            ),
            n == line_number as nat,
        decreases line@.len() - i,
    {
        let c = line[i];
        if c == '"' {
            Token::parse_string_literal(line, &mut i, tokens, line_number);
        } else if is_digit_exec(c) {
            Token::parse_number_literal(line, &mut i, tokens, Ghost(n));
        } else if is_ident_start_exec(c) {
            Token::parse_identifier(line, &mut i, tokens, Ghost(n));
        } else {
            let next = if i + 1 < line.len() {
                Some(line[i + 1])
            } else {
                None
            };
            let (t, skip) = Token::tokenize_char(c, next, line_number);
            let ghost i0 = i as int;
            match t {
                Some(tok) => {
                    let ghost tv = tok.deep_view();
                    let ghost pre = tokens.deep_view();
                    tokens.push(tok);
                    if skip {
                        i = i + 2;
                    } else {
                        i = i + 1;
                    }
                    proof {
                        assert(tokens.deep_view() =~= pre.push(tv));
                        assert(scan_from(line@, i0, n) == seq![tv] + scan_from(line@, i as int, n));
                        assert(pre + (seq![tv] + scan_from(line@, i as int, n)) =~= pre.push(tv)
                            + scan_from(line@, i as int, n));
                    }
                },
                None => {
                    if skip {
                        i = line.len();
                        proof {
                            assert(scan_from(line@, i0, n) =~= Seq::<TokenView>::empty());
                        }
                    } else {
                        i = i + 1;
                        proof {
                            assert(scan_from(line@, i0, n) == scan_from(line@, i as int, n));
                        }
                    }
                },
            }
        }
    }
    proof {
        assert(scan_from(line@, line@.len() as int, n) =~= Seq::<TokenView>::empty());
        assert(old(tokens).deep_view() + scan_from(line@, 0, n) =~= tokens.deep_view());
    }
}

/// Scans the whole source text: line by line, a 1-based line number carried
/// for diagnostics, and exactly one end-of-stream sentinel appended at the
/// end. Total: every malformed construct degrades to an `Invalid` token and
/// scanning continues.
pub fn scan_file(file_contents: &str) -> (tokens: Vec<Token>)
    ensures
        tokens.deep_view() == scan_spec(file_contents@),
{
    let chars = str_chars(file_contents);
    let mut tokens: Vec<Token> = Vec::new();
    let mut pos: usize = 0;
    let mut line_number: usize = 1;
    while pos < chars.len()
        invariant
            chars@ == file_contents@,
            pos <= chars@.len(),
            1 <= line_number,
            line_number as int <= pos + 1,
            tokens.deep_view() + scan_lines(lines_from(chars@, pos as int), line_number as nat)
                == scan_lines(lines_from(chars@, 0), 1),
        decreases chars@.len() - pos,
    {
        let ghost pre = tokens.deep_view();
        let ghost n = line_number as nat;
        let j = find_char(&chars, '\n', pos);
        proof {
            lemma_find_from(chars@, '\n', pos as int);
        }
        let mut hi = j;
        if j < chars.len() && j > pos && chars[j - 1] == '\r' {
            hi = j - 1;
        }
        let line_buf = copy_range(&chars, pos, hi);
        scan_line_into(&line_buf, line_number, &mut tokens);
        proof {
            if (j as int) < chars@.len() {
                let seg = line_seg(chars@, pos as int, j as int);
                assert(line_buf@ == seg);
                assert(lines_from(chars@, pos as int) == seq![seg] + lines_from(chars@, j + 1));
                lemma_scan_lines_cons(seg, lines_from(chars@, j + 1), n);
                assert(pre + (scan_from(seg, 0, n) + scan_lines(lines_from(chars@, j + 1), n + 1))
                    =~= (pre + scan_from(seg, 0, n)) + scan_lines(lines_from(chars@, j + 1), n + 1));
            } else {
                let seg = chars@.subrange(pos as int, chars@.len() as int);
                assert(line_buf@ == seg);
                assert(lines_from(chars@, pos as int) == seq![seg]);
                assert(seq![seg] =~= seq![seg] + Seq::<Seq<char>>::empty());
                lemma_scan_lines_cons(seg, Seq::empty(), n);
                assert(scan_lines(Seq::<Seq<char>>::empty(), n + 1) == Seq::<TokenView>::empty());
                assert(scan_from(seg, 0, n) + Seq::<TokenView>::empty() =~= scan_from(seg, 0, n));
            }
        }
        if j < chars.len() {
            pos = j + 1;
            if pos < chars.len() {
                line_number = line_number + 1;
            } else {
                proof {
                    assert(lines_from(chars@, pos as int) =~= Seq::<Seq<char>>::empty());
                }
            }
        } else {
            pos = chars.len();
            proof {
                assert(lines_from(chars@, pos as int) =~= Seq::<Seq<char>>::empty());
            }
        }
    }
    proof {
        assert(lines_from(chars@, pos as int) == Seq::<Seq<char>>::empty());
        assert(scan_lines(Seq::<Seq<char>>::empty(), line_number as nat)
            == Seq::<TokenView>::empty());
        assert(tokens.deep_view() + Seq::<TokenView>::empty() =~= tokens.deep_view());
    }
    let ghost pre = tokens.deep_view();
    tokens.push(Token::Eof);
    proof {
        assert(tokens.deep_view() =~= pre.push(TokenView::Eof));
    }
    tokens
}

/// The tokens a partition keeps in the well-formed group, in their original
/// order.
pub open spec fn well_formed_of(ts: Seq<TokenView>) -> Seq<TokenView> {
    ts.filter(|t: TokenView| !is_invalid(t))
}

/// The tokens a partition moves to the diagnostics group, in their original
/// order.
pub open spec fn invalid_of(ts: Seq<TokenView>) -> Seq<TokenView> {
    ts.filter(|t: TokenView| is_invalid(t))
}

/// Stable partition of a token sequence into the well-formed tokens and the
/// `Invalid` tokens, each group keeping its original relative order.
pub fn partition_tokens(tokens: Vec<Token>) -> (r: (Vec<Token>, Vec<Token>))
    ensures
        r.0.deep_view() == well_formed_of(tokens.deep_view()),
        r.1.deep_view() == invalid_of(tokens.deep_view()),
{
    let ghost all = tokens.deep_view();
    let mut rest = tokens;
    let mut good: Vec<Token> = Vec::new();
    let mut bad: Vec<Token> = Vec::new();
    let ghost mut taken = 0int;
    while rest.len() > 0
        invariant
            0 <= taken <= all.len(),
            rest.deep_view() =~= all.subrange(taken, all.len() as int),
            good.deep_view() == well_formed_of(all.subrange(0, taken)),
            bad.deep_view() == invalid_of(all.subrange(0, taken)),
        decreases rest@.len(),
    {
        let ghost pre_rest = rest.deep_view();
        proof {
            assert(pre_rest.len() == rest@.len());
            assert(taken < all.len());
        }
        let t = rest.remove(0);
        let ghost tv = t.deep_view();
        let ghost pre_good = good.deep_view();
        let ghost pre_bad = bad.deep_view();
        proof {
            assert(tv == pre_rest[0]);
            assert(rest.deep_view() =~= pre_rest.subrange(1, pre_rest.len() as int));
        }
        let is_bad = matches!(t, Token::Invalid { .. });
        if is_bad {
            bad.push(t);
        } else {
            good.push(t);
        }
        proof {
            assert(all.subrange(0, taken + 1) =~= all.subrange(0, taken).push(tv));
            lemma_filter_push(all.subrange(0, taken), tv);
            if is_bad {
                assert(bad.deep_view() =~= pre_bad.push(tv));
            } else {
                assert(good.deep_view() =~= pre_good.push(tv));
            }
            taken = taken + 1;
            assert(rest.deep_view() =~= all.subrange(taken, all.len() as int));
        }
    }
    proof {
        assert(all.subrange(0, all.len() as int) =~= all);
    }
    (good, bad)
}

/// Filtering a sequence extended by one element keeps the filtered prefix and
/// appends the element exactly when it passes the predicate.
proof fn lemma_filter_push(ts: Seq<TokenView>, t: TokenView)
    ensures
        well_formed_of(ts.push(t)) == if !is_invalid(t) {
            well_formed_of(ts).push(t)
        } else {
            well_formed_of(ts)
        },
        invalid_of(ts.push(t)) == if is_invalid(t) {
            invalid_of(ts).push(t)
        } else {
            invalid_of(ts)
        },
{
    reveal(Seq::filter);
    assert(ts.push(t).drop_last() =~= ts);
}

/// Whether any token of the sequence is the error kind; with the scanner's
/// output this decides the failing exit status.
pub fn has_invalid(tokens: &Vec<Token>) -> (r: bool)
    ensures
        r == exists|k: int|
            0 <= k < tokens.deep_view().len() && is_invalid(tokens.deep_view()[k]),
{
    let mut i: usize = 0;
    while i < tokens.len()
        invariant
            i <= tokens@.len(),
            forall|k: int| 0 <= k < i ==> !is_invalid(tokens.deep_view()[k]),
        decreases tokens@.len() - i,
    {
        let is_bad = matches!(&tokens[i], Token::Invalid { .. });
        if is_bad {
            proof {
                assert(is_invalid(tokens.deep_view()[i as int]));
            }
            return true;
        }
        i = i + 1;
    }
    false
}

} // verus!
