//! Character classification, text searching and string-building helpers that
//! the scanner and the presentation layer share.

use vstd::prelude::*;

verus! {

use vstd::string::StrSliceExecFns;
use vstd::string::StringExecFns;

/// Whitespace that the scanner skips inside a line.
pub open spec fn is_ws(c: char) -> bool {
    c == ' ' || c == '\t'
}

/// ASCII decimal digit.
pub open spec fn is_digit(c: char) -> bool {
    '0' <= c && c <= '9'
}

/// ASCII letter.
pub open spec fn is_alpha(c: char) -> bool {
    ('a' <= c && c <= 'z') || ('A' <= c && c <= 'Z')
}

/// A character that may open an identifier.
pub open spec fn is_ident_start(c: char) -> bool {
    is_alpha(c) || c == '_'
}

/// A character that may continue an identifier.
pub open spec fn is_ident_cont(c: char) -> bool {
    is_ident_start(c) || is_digit(c)
}

pub fn is_digit_exec(c: char) -> (r: bool)
    ensures
        r == is_digit(c),
{
    '0' <= c && c <= '9'
}

pub fn is_ident_start_exec(c: char) -> (r: bool)
    ensures
        r == is_ident_start(c),
{
    ('a' <= c && c <= 'z') || ('A' <= c && c <= 'Z') || c == '_'
}

pub fn is_ident_cont_exec(c: char) -> (r: bool)
    ensures
        r == is_ident_cont(c),
{
    is_ident_start_exec(c) || is_digit_exec(c)
}

/// Index of the first occurrence of `c` in `s` at or after `from`,
/// or `s.len()` if there is none.
pub open spec fn find_from(s: Seq<char>, c: char, from: int) -> int
    decreases s.len() - from,
    when 0 <= from <= s.len()
{
    if from >= s.len() {
        s.len() as int
    } else if s[from] == c {
        from
    } else {
        find_from(s, c, from + 1)
    }
}

pub proof fn lemma_find_from(s: Seq<char>, c: char, from: int)
    requires
        0 <= from <= s.len(),
    ensures
        from <= find_from(s, c, from) <= s.len(),
        find_from(s, c, from) < s.len() ==> s[find_from(s, c, from)] == c,
        forall|k: int| from <= k < find_from(s, c, from) ==> s[k] != c,
    decreases s.len() - from,
{
    if from < s.len() && s[from] != c {
        lemma_find_from(s, c, from + 1);
    }
}

pub proof fn lemma_find_from_is(s: Seq<char>, c: char, from: int, j: int)
    requires
        0 <= from <= j <= s.len(),
        forall|k: int| from <= k < j ==> s[k] != c,
        j < s.len() ==> s[j] == c,
    ensures
        find_from(s, c, from) == j,
    decreases j - from,
{
    if from < j {
        lemma_find_from_is(s, c, from + 1, j);
    }
}

/// Index of the first character at or after `from` that is not a decimal
/// digit, or `s.len()` if the digits run to the end.
pub open spec fn digit_end(s: Seq<char>, from: int) -> int
    decreases s.len() - from,
    when 0 <= from <= s.len()
{
    if from >= s.len() {
        s.len() as int
    } else if !is_digit(s[from]) {
        from
    } else {
        digit_end(s, from + 1)
    }
}

pub proof fn lemma_digit_end(s: Seq<char>, from: int)
    requires
        0 <= from <= s.len(),
    ensures
        from <= digit_end(s, from) <= s.len(),
        digit_end(s, from) < s.len() ==> !is_digit(s[digit_end(s, from)]),
        forall|k: int| from <= k < digit_end(s, from) ==> is_digit(s[k]),
    decreases s.len() - from,
{
    if from < s.len() && is_digit(s[from]) {
        lemma_digit_end(s, from + 1);
    }
}

pub proof fn lemma_digit_end_is(s: Seq<char>, from: int, j: int)
    requires
        0 <= from <= j <= s.len(),
        forall|k: int| from <= k < j ==> is_digit(s[k]),
        j < s.len() ==> !is_digit(s[j]),
    ensures
        digit_end(s, from) == j,
    decreases j - from,
{
    if from < j {
        lemma_digit_end_is(s, from + 1, j);
    }
}

/// Index of the first character at or after `from` that cannot continue an
/// identifier, or `s.len()` if the identifier runs to the end.
pub open spec fn ident_end(s: Seq<char>, from: int) -> int
    decreases s.len() - from,
    when 0 <= from <= s.len()
{
    if from >= s.len() {
        s.len() as int
    } else if !is_ident_cont(s[from]) {
        from
    } else {
        ident_end(s, from + 1)
    }
}

pub proof fn lemma_ident_end(s: Seq<char>, from: int)
    requires
        0 <= from <= s.len(),
    ensures
        from <= ident_end(s, from) <= s.len(),
        ident_end(s, from) < s.len() ==> !is_ident_cont(s[ident_end(s, from)]),
        forall|k: int| from <= k < ident_end(s, from) ==> is_ident_cont(s[k]),
    decreases s.len() - from,
{
    if from < s.len() && is_ident_cont(s[from]) {
        lemma_ident_end(s, from + 1);
    }
}

pub proof fn lemma_ident_end_is(s: Seq<char>, from: int, j: int)
    requires
        0 <= from <= j <= s.len(),
        forall|k: int| from <= k < j ==> is_ident_cont(s[k]),
        j < s.len() ==> !is_ident_cont(s[j]),
    ensures
        ident_end(s, from) == j,
    decreases j - from,
{
    if from < j {
        lemma_ident_end_is(s, from + 1, j);
    }
}

/// Relies on `String::push`: it appends the given character to the end of
/// the string.
#[verifier::external_body]
pub(crate) fn push_char(s: &mut String, c: char)
    ensures
        final(s)@ == old(s)@.push(c),
{
    s.push(c);
}

/// Builds the string holding exactly the characters of `v`, in order.
pub fn chars_to_string(v: &Vec<char>) -> (r: String)
    ensures
        r@ == v@,
{
    let mut r = String::new();
    let mut i: usize = 0;
    while i < v.len()
        invariant
            i <= v@.len(),
            r@ == v@.subrange(0, i as int),
        decreases v@.len() - i,
    {
        push_char(&mut r, v[i]);
        proof {
            assert(v@.subrange(0, i as int).push(v@[i as int]) =~= v@.subrange(0, i + 1));
        }
        i = i + 1;
    }
    proof {
        assert(v@.subrange(0, v@.len() as int) =~= v@);
    }
    r
}

/// The characters of a string slice, in order.
pub fn str_chars(s: &str) -> (r: Vec<char>)
    ensures
        r@ == s@,
{
    let n = s.unicode_len();
    let mut r: Vec<char> = Vec::new();
    let mut i: usize = 0;
    while i < n
        invariant
            i <= n,
            n == s@.len(),
            r@ == s@.subrange(0, i as int),
        decreases n - i,
    {
        r.push(s.get_char(i));
        proof {
            assert(s@.subrange(0, i as int).push(s@[i as int]) =~= s@.subrange(0, i + 1));
        }
        i = i + 1;
    }
    proof {
        assert(s@.subrange(0, s@.len() as int) =~= s@);
    }
    r
}

/// Copies the characters of `v` between `lo` (inclusive) and `hi` (exclusive).
pub fn copy_range(v: &Vec<char>, lo: usize, hi: usize) -> (r: Vec<char>)
    requires
        lo <= hi <= v@.len(),
    ensures
        r@ == v@.subrange(lo as int, hi as int),
{
    let mut r: Vec<char> = Vec::new();
    let mut i: usize = lo;
    while i < hi
        invariant
            lo <= i <= hi <= v@.len(),
            r@ == v@.subrange(lo as int, i as int),
        decreases hi - i,
    {
        r.push(v[i]);
        proof {
            assert(v@.subrange(lo as int, i as int).push(v@[i as int]) =~= v@.subrange(
                lo as int,
                i + 1,
            ));
        }
        i = i + 1;
    }
    r
}

/// Finds the first occurrence of `c` in `v` at or after `from`.
pub fn find_char(v: &Vec<char>, c: char, from: usize) -> (j: usize)
    requires
        from <= v@.len(),
    ensures
        j == find_from(v@, c, from as int),
{
    let mut j = from;
    while j < v.len()
        invariant
            from <= j <= v@.len(),
            forall|k: int| from <= k < j ==> v@[k] != c,
        decreases v@.len() - j,
    {
        if v[j] == c {
            proof {
                lemma_find_from_is(v@, c, from as int, j as int);
            }
            return j;
        }
        j = j + 1;
    }
    proof {
        lemma_find_from_is(v@, c, from as int, j as int);
    }
    j
}

/// Whether two string slices hold the same characters.
pub fn str_eq(a: &str, b: &str) -> (r: bool)
    ensures
        r == (a@ == b@),
{
    let la = a.unicode_len();
    let lb = b.unicode_len();
    if la != lb {
        return false;
    }
    let mut i: usize = 0;
    while i < la
        invariant
            i <= la,
            la == a@.len(),
            la == b@.len(),
            forall|k: int| 0 <= k < i ==> a@[k] == b@[k],
        decreases la - i,
    {
        if a.get_char(i) != b.get_char(i) {
            return false;
        }
        i = i + 1;
    }
    proof {
        assert(a@ =~= b@);
    }
    true
}

/// The decimal digit `d` as a character.
pub open spec fn digit_char(d: int) -> char {
    if d == 0 {
        '0'
    } else if d == 1 {
        '1'
    } else if d == 2 {
        '2'
    } else if d == 3 {
        '3'
    } else if d == 4 {
        '4'
    } else if d == 5 {
        '5'
    } else if d == 6 {
        '6'
    } else if d == 7 {
        '7'
    } else if d == 8 {
        '8'
    } else {
        '9'
    }
}

/// The decimal representation of `n`, most significant digit first.
pub open spec fn dec_rep(n: int) -> Seq<char>
    decreases n,
    when n >= 0
{
    if n < 10 {
        seq![digit_char(n)]
    } else {
        dec_rep(n / 10).push(digit_char(n % 10))
    }
}

fn digit_char_exec(d: usize) -> (c: char)
    requires
        d < 10,
    ensures
        c == digit_char(d as int),
{
    if d == 0 {
        '0'
    } else if d == 1 {
        '1'
    } else if d == 2 {
        '2'
    } else if d == 3 {
        '3'
    } else if d == 4 {
        '4'
    } else if d == 5 {
        '5'
    } else if d == 6 {
        '6'
    } else if d == 7 {
        '7'
    } else if d == 8 {
        '8'
    } else {
        '9'
    }
}

/// Appends the decimal representation of `n` to `out`.
fn push_dec(n: usize, out: &mut Vec<char>)
    ensures
        final(out)@ == old(out)@ + dec_rep(n as int),
    decreases n,
{
    if n < 10 {
        out.push(digit_char_exec(n));
        proof {
            assert(old(out)@.push(digit_char(n as int)) =~= old(out)@ + dec_rep(n as int));
        }
    } else {
        push_dec(n / 10, out);
        out.push(digit_char_exec(n % 10));
        proof {
            assert((old(out)@ + dec_rep(n as int / 10)).push(digit_char(n as int % 10)) =~= old(
                out,
            )@ + dec_rep(n as int));
        }
    }
}

/// The text of the diagnostic a recovered lexical error is reported with.
pub open spec fn diagnostic_text(msg: Seq<char>, line: int) -> Seq<char> {
    "[line "@ + dec_rep(line) + "] Error: "@ + msg
}

/// Renders the diagnostic line for a recovered lexical error.
pub fn diagnostic_line(message: &str, line: usize) -> (r: String)
    ensures
        r@ == diagnostic_text(message@, line as int),
{
    let mut r = String::from_str("[line ");
    let mut digits: Vec<char> = Vec::new();
    push_dec(line, &mut digits);
    let digits_str = chars_to_string(&digits);
    r.append(digits_str.as_str());
    r.append("] Error: ");
    r.append(message);
    r
}

} // verus!
