//! The presentation layer: chunks pair a token with its raw lexeme and its
//! literal rendering, derived on demand from a token sequence and never
//! mutated.

use vstd::prelude::*;

verus! {

use vstd::string::StringExecFns;
use crate::text::find_from;
use crate::text::lemma_find_from;
use crate::text::find_char;
use crate::text::chars_to_string;
use crate::text::copy_range;
use crate::text::str_chars;
use crate::token::Token;
use crate::token::TokenView;
use crate::token::kind_text;
use crate::token::lexeme_of;

/// Whether the number text has a nonzero digit after the decimal point at
/// `dp`: exactly then its decoded value has a fractional part.
pub open spec fn has_nonzero_fraction(x: Seq<char>, dp: int) -> bool {
    exists|k: int| dp < k < x.len() && x[k] != '0'
}

/// The integer part of a number text with leading zeros removed; at least
/// one digit is kept, and an empty part renders as a single zero.
pub open spec fn int_text(s: Seq<char>) -> Seq<char>
    decreases s.len(),
{
    if s.len() >= 2 && s[0] == '0' {
        int_text(s.drop_first())
    } else if s.len() == 0 {
        "0"@
    } else {
        s
    }
}

/// The fractional part of a number text with trailing zeros removed; at
/// least one digit is kept, and an empty part renders as a single zero.
pub open spec fn frac_text(s: Seq<char>) -> Seq<char>
    decreases s.len(),
{
    if s.len() >= 2 && s.last() == '0' {
        frac_text(s.drop_last())
    } else if s.len() == 0 {
        "0"@
    } else {
        s
    }
}

/// The canonical literal rendering of a number token's text: the decoded
/// value, shown with at least one fractional digit. Leading zeros of the
/// integer part and trailing zeros of the fractional part are dropped, one
/// digit always kept on each side of the decimal point; a value with no
/// fractional part shows one zero fractional digit.
pub open spec fn number_literal(x: Seq<char>) -> Seq<char> {
    let dp = find_from(x, '.', 0);
    if dp < x.len() && has_nonzero_fraction(x, dp) {
        int_text(x.subrange(0, dp)) + "."@ + frac_text(x.subrange(dp + 1, x.len() as int))
    } else {
        int_text(x.subrange(0, dp)) + ".0"@
    }
}

proof fn lemma_int_text_skip(s: Seq<char>, z: int)
    requires
        0 <= z < s.len(),
        forall|k: int| 0 <= k < z ==> s[k] == '0',
        s[z] != '0' || z == s.len() - 1,
    ensures
        int_text(s) == s.subrange(z, s.len() as int),
    decreases z,
{
    if z == 0 {
        if !(s.len() >= 2 && s[0] == '0') {
            assert(s.subrange(0, s.len() as int) =~= s);
        }
    } else {
        let s1 = s.drop_first();
        assert(forall|k: int| 0 <= k < z - 1 ==> s1[k] == '0');
        lemma_int_text_skip(s1, z - 1);
        assert(s1.subrange(z - 1, s1.len() as int) =~= s.subrange(z, s.len() as int));
    }
}

proof fn lemma_frac_text_take(s: Seq<char>, m: int)
    requires
        1 <= m <= s.len(),
        forall|k: int| m <= k < s.len() ==> s[k] == '0',
        s[m - 1] != '0' || m == 1,
    ensures
        frac_text(s) == s.subrange(0, m),
    decreases s.len(),
{
    if s.len() >= 2 && s.last() == '0' {
        assert(m < s.len()) by {
            if m == s.len() {
                assert(s[m - 1] == s.last());
            }
        }
        let s1 = s.drop_last();
        assert(forall|k: int| m <= k < s1.len() ==> s1[k] == '0');
        lemma_frac_text_take(s1, m);
        assert(s1.subrange(0, m) =~= s.subrange(0, m));
    } else {
        assert(m == s.len()) by {
            if m < s.len() {
                assert(s[s.len() - 1] == '0');
            }
        }
        assert(s.subrange(0, s.len() as int) =~= s);
    }
}

/// The literal rendering of a number token's text.
pub fn number_literal_text(x: &String) -> (r: String)
    ensures
        r@ == number_literal(x@),
{
    let chars = str_chars(x.as_str());
    let dp = find_char(&chars, '.', 0);
    proof {
        lemma_find_from(chars@, '.', 0);
    }
    let mut frac_nonzero = false;
    if dp < chars.len() {
        let mut k = dp + 1;
        while k < chars.len()
            invariant
                dp + 1 <= k <= chars@.len(),
                frac_nonzero == exists|t: int| dp < t < k && chars@[t] != '0',
            decreases chars@.len() - k,
        {
            if chars[k] != '0' {
                frac_nonzero = true;
            }
            k = k + 1;
        }
    }
    let ghost ipart_spec = chars@.subrange(0, dp as int);
    let mut r: String;
    if dp == 0 {
        r = String::from_str("0");
        proof {
            assert(ipart_spec =~= Seq::<char>::empty());
        }
    } else {
        let mut z: usize = 0;
        while z + 1 < dp && chars[z] == '0'
            invariant
                0 <= z < dp <= chars@.len(),
                forall|k: int| 0 <= k < z ==> chars@[k] == '0',
            decreases dp - z,
        {
            z = z + 1;
        }
        proof {
            assert(forall|k: int| 0 <= k < z ==> ipart_spec[k] == '0');
            assert(ipart_spec[z as int] == chars@[z as int]);
            lemma_int_text_skip(ipart_spec, z as int);
            assert(ipart_spec.subrange(z as int, dp as int) =~= chars@.subrange(
                z as int,
                dp as int,
            ));
        }
        let ipart = copy_range(&chars, z, dp);
        r = chars_to_string(&ipart);
    }
    if frac_nonzero {
        let ghost fpart_spec = chars@.subrange(dp as int + 1, chars@.len() as int);
        proof {
            assert(dp + 2 <= chars@.len());
        }
        r.append(".");
        let mut e = chars.len();
        while e > dp + 2 && chars[e - 1] == '0'
            invariant
                dp + 2 <= e <= chars@.len(),
                forall|k: int| e <= k < chars@.len() ==> chars@[k] == '0',
            decreases e,
        {
            e = e - 1;
        }
        proof {
            assert(forall|k: int| e - dp - 1 <= k < fpart_spec.len() ==> fpart_spec[k] == '0');
            assert(fpart_spec[e - dp - 2] == chars@[e - 1]);
            lemma_frac_text_take(fpart_spec, e - dp - 1);
            assert(fpart_spec.subrange(0, e - dp - 1) =~= chars@.subrange(
                dp as int + 1,
                e as int,
            ));
        }
        let fpart = copy_range(&chars, dp + 1, e);
        let fstr = chars_to_string(&fpart);
        r.append(fstr.as_str());
    } else {
        r.append(".0");
    }
    r
}

/// Presentation pairing of a token with its raw lexeme text and its optional
/// literal rendering.
#[derive(Debug, Clone, PartialEq, Eq)]
pub struct Chunk {
    pub token_type: Token,
    pub lexeme: String,
    pub literal: Option<String>,
}

/// The mathematical view of a chunk.
pub struct ChunkView {
    pub token_type: TokenView,
    pub lexeme: Seq<char>,
    pub literal: Option<Seq<char>>,
}

impl DeepView for Chunk {
    type V = ChunkView;

    open spec fn deep_view(&self) -> ChunkView {
        ChunkView {
            token_type: self.token_type.deep_view(),
            lexeme: self.lexeme@,
            literal: self.literal.deep_view(),
        }
    }
}

/// The display triple of one token: its kind, the exact source substring for
/// kinds that have one, and a literal rendering only for the string and
/// number kinds.
pub open spec fn chunk_of(t: TokenView) -> ChunkView {
    ChunkView {
        token_type: t,
        lexeme: lexeme_of(t),
        literal: match t {
            TokenView::String(s) => Some(s),
            TokenView::Number(x) => Some(number_literal(x)),
            _ => None,
        },
    }
}

impl Chunk {
    /// Pairs a token with its display texts.
    pub fn new(token_type: Token, lexeme: String, literal: Option<String>) -> (r: Chunk)
        ensures
            r.token_type == token_type,
            r.lexeme == lexeme,
            r.literal == literal,
    {
        Chunk { token_type, lexeme, literal }
    }

    /// The display line of a well-formed token: kind name, lexeme, and the
    /// literal rendering or `null`.
    pub fn render(&self) -> (r: String)
        ensures
            r@ == chunk_render(self.deep_view()),
    {
        let mut r = self.token_type.kind_name();
        r.append(" ");
        r.append(self.lexeme.as_str());
        r.append(" ");
        match &self.literal {
            Some(l) => r.append(l.as_str()),
            None => r.append("null"),
        }
        r
    }
}

/// The display text a chunk renders as.
pub open spec fn chunk_render(c: ChunkView) -> Seq<char> {
    kind_text(c.token_type) + " "@ + c.lexeme + " "@ + match c.literal {
        Some(l) => l,
        None => "null"@,
    }
}

/// The display triples of a token sequence, in order.
pub open spec fn chunks_of(ts: Seq<TokenView>) -> Seq<ChunkView> {
    ts.map_values(|t: TokenView| chunk_of(t))
}

/// Maps each token of the sequence to its display triple.
pub fn to_chunks(tokens: Vec<Token>) -> (chunks: Vec<Chunk>)
    ensures
        chunks.deep_view() == chunks_of(tokens.deep_view()),
{
    let mut chunks: Vec<Chunk> = Vec::new();
    let mut idx: usize = 0;
    while idx < tokens.len()
        invariant
            idx <= tokens@.len(),
            chunks.deep_view().len() == idx as int,
            forall|k: int|
                0 <= k < idx ==> chunks.deep_view()[k] == chunk_of(tokens.deep_view()[k]),
        decreases tokens@.len() - idx,
    {
        let t = &tokens[idx];
        let c = match t {
            Token::LeftParen => Chunk::new(Token::LeftParen, String::from_str("("), None),
            Token::RightParen => Chunk::new(Token::RightParen, String::from_str(")"), None),
            Token::LeftBrace => Chunk::new(Token::LeftBrace, String::from_str("{"), None),
            Token::RightBrace => Chunk::new(Token::RightBrace, String::from_str("}"), None),
            Token::Comma => Chunk::new(Token::Comma, String::from_str(","), None),
            Token::Dot => Chunk::new(Token::Dot, String::from_str("."), None),
            Token::Minus => Chunk::new(Token::Minus, String::from_str("-"), None),
            Token::Plus => Chunk::new(Token::Plus, String::from_str("+"), None),
            Token::Semicolon => Chunk::new(Token::Semicolon, String::from_str(";"), None),
            Token::Slash => Chunk::new(Token::Slash, String::from_str("/"), None),
            Token::Star => Chunk::new(Token::Star, String::from_str("*"), None),
            Token::Equal => Chunk::new(Token::Equal, String::from_str("="), None),
            Token::EqualEqual => Chunk::new(Token::EqualEqual, String::from_str("=="), None),
            Token::Bang => Chunk::new(Token::Bang, String::from_str("!"), None),
            Token::BangEqual => Chunk::new(Token::BangEqual, String::from_str("!="), None),
            Token::Less => Chunk::new(Token::Less, String::from_str("<"), None),
            Token::LessEqual => Chunk::new(Token::LessEqual, String::from_str("<="), None),
            Token::Greater => Chunk::new(Token::Greater, String::from_str(">"), None),
            Token::GreaterEqual => Chunk::new(
                Token::GreaterEqual,
                String::from_str(">="),
                None,
            ),
            Token::String(s) => {
                let mut lex = String::from_str("\"");
                lex.append(s.as_str());
                lex.append("\"");
                Chunk::new(Token::String(s.clone()), lex, Some(s.clone()))
            },
            Token::Number(x) => {
                let lit = number_literal_text(x);
                Chunk::new(Token::Number(x.clone()), x.clone(), Some(lit))
            },
            Token::Identifier(s) => Chunk::new(Token::Identifier(s.clone()), s.clone(), None),
            Token::And => Chunk::new(Token::And, String::from_str("and"), None),
            Token::Class => Chunk::new(Token::Class, String::from_str("class"), None),
            Token::Else => Chunk::new(Token::Else, String::from_str("else"), None),
            Token::False => Chunk::new(Token::False, String::from_str("false"), None),
            Token::Fun => Chunk::new(Token::Fun, String::from_str("fun"), None),
            Token::For => Chunk::new(Token::For, String::from_str("for"), None),
            Token::If => Chunk::new(Token::If, String::from_str("if"), None),
            Token::Nil => Chunk::new(Token::Nil, String::from_str("nil"), None),
            Token::Or => Chunk::new(Token::Or, String::from_str("or"), None),
            Token::Print => Chunk::new(Token::Print, String::from_str("print"), None),
            Token::Return => Chunk::new(Token::Return, String::from_str("return"), None),
            Token::Super => Chunk::new(Token::Super, String::from_str("super"), None),
            Token::This => Chunk::new(Token::This, String::from_str("this"), None),
            Token::True => Chunk::new(Token::True, String::from_str("true"), None),
            Token::Var => Chunk::new(Token::Var, String::from_str("var"), None),
            Token::While => Chunk::new(Token::While, String::from_str("while"), None),
            Token::Invalid { err, line } => Chunk::new(
                Token::Invalid { err: err.clone(), line: *line },
                String::new(),
                None,
            ),
            Token::Eof => Chunk::new(Token::Eof, String::new(), None),
        };
        let ghost pre = chunks.deep_view();
        chunks.push(c);
        proof {
            assert(chunks.deep_view() =~= pre.push(c.deep_view()));
            assert(c.deep_view() == chunk_of(tokens.deep_view()[idx as int]));
        }
        idx = idx + 1;
    }
    proof {
        assert(chunks.deep_view() =~= chunks_of(tokens.deep_view()));
    }
    chunks
}

} // verus!
