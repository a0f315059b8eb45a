//! The parser stub: it consumes the scanner's token stream and handles only
//! the literal keywords, folding each into its printed value. Everything
//! else is beyond this collaborator.

use vstd::prelude::*;

verus! {

use vstd::string::StringExecFns;
use crate::scanner::scan_file;
use crate::scanner::scan_tokens;
use crate::token::Token;
use crate::token::TokenView;

/// The printed value of a literal keyword token.
pub open spec fn literal_value(t: TokenView) -> Seq<char> {
    match t {
        TokenView::True => "true"@,
        TokenView::False => "false"@,
        TokenView::Nil => "nil"@,
        _ => Seq::empty(),
    }
}

/// The printed values of a sequence of literal keyword tokens, in order.
pub open spec fn literal_values(ts: Seq<TokenView>) -> Seq<Seq<char>> {
    ts.map_values(|t: TokenView| literal_value(t))
}

/// Whether the parser stub handles a token: only the literal keywords.
pub open spec fn parseable(t: TokenView) -> bool {
    t == TokenView::True || t == TokenView::False || t == TokenView::Nil
}

/// Parses a source text whose tokens are all literal keywords into their
/// printed values, one per token, in source order.
pub fn parse(file_contents: &str) -> (ast: Vec<String>)
    requires
        forall|k: int|
            0 <= k < scan_tokens(file_contents@).len() ==> parseable(
                #[trigger] scan_tokens(file_contents@)[k],
            ),
    ensures
        ast.deep_view() == literal_values(scan_tokens(file_contents@)),
{
    let ghost st = scan_tokens(file_contents@);
    let tokens = scan_file(file_contents);
    proof {
        assert(tokens.deep_view() == st.push(TokenView::Eof));
    }
    let mut ast: Vec<String> = Vec::new();
    let mut idx: usize = 0;
    while idx < tokens.len()
        invariant
            idx <= tokens@.len(),
            tokens.deep_view() == st.push(TokenView::Eof),
            tokens@.len() == st.len() + 1,
            forall|k: int| 0 <= k < st.len() ==> parseable(#[trigger] st[k]),
            ast.deep_view().len() == if idx as int <= st.len() {
                idx as int
            } else {
                st.len() as int
            },
            forall|k: int|
                0 <= k < ast.deep_view().len() ==> ast.deep_view()[k] == literal_value(st[k]),
        decreases tokens@.len() - idx,
    {
        let t = &tokens[idx];
        let ghost pre = ast.deep_view();
        proof {
            assert(t.deep_view() == tokens.deep_view()[idx as int]);
            if (idx as int) < st.len() {
                assert(parseable(st[idx as int]));
            } else {
                assert(t.deep_view() == TokenView::Eof);
            }
        }
        match t {
            Token::True => ast.push(String::from_str("true")),
            Token::False => ast.push(String::from_str("false")),
            Token::Nil => ast.push(String::from_str("nil")),
            Token::Eof => (),
            _ => vstd::pervasive::unreached(),
        }
        proof {
            if (idx as int) < st.len() {
                assert(ast.deep_view() =~= pre.push(literal_value(st[idx as int])));
            }
        }
        idx = idx + 1;
    }
    proof {
        assert(ast.deep_view() =~= literal_values(st));
    }
    ast
}

} // verus!
