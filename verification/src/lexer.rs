//! The lexical grammar: source text to tokens.
//!
//! Tokens are read from the UTF-8 bytes of the source. Blanks (space, tab,
//! line feed, carriage return) and `//` comments up to the end of the line
//! separate tokens. A word of letters, digits and `_` that starts with a
//! letter or `_` is a keyword or an identifier; a run of digits is an integer
//! literal, or a float literal when `.` and more digits follow; a string
//! literal runs from `"` to the next `"`; the rest are one- or two-byte
//! symbols, the longer one taken first.
use vstd::prelude::*;
use vstd::utf8::{
    decode_utf8, encode_utf8, is_char_boundary, is_continuation_byte, length_of_first_scalar,
    pop_first_scalar, valid_utf8,
};

use crate::text::str_eq;

verus! {

/// The kinds of tokens.
#[derive(Debug, Clone, Copy, PartialEq, Eq, Structural)]
pub enum TokKind {
    Ident,
    Num,
    Float,
    Str,
    KwInt,
    KwFloat,
    KwBool,
    KwString,
    KwIf,
    KwThen,
    KwElse,
    KwWhile,
    KwDo,
    KwFor,
    KwTo,
    KwFunc,
    KwReturn,
    KwPrint,
    KwAnd,
    KwOr,
    KwNot,
    KwTrue,
    KwFalse,
    /// `:=`
    ColonEq,
    /// `->`
    Arrow,
    /// `<=`
    LessEq,
    /// `>=`
    GreaterEq,
    /// `!=`
    NotEq,
    /// `=`
    Eq,
    /// `<`
    Less,
    /// `>`
    Greater,
    Plus,
    Minus,
    Star,
    Slash,
    LParen,
    RParen,
    LBrace,
    RBrace,
    LBracket,
    RBracket,
    Comma,
    Semi,
}

/// A token: its kind, its source text, the text between the quotes of a
/// string literal, the value of an integer literal, and its byte offsets.
#[derive(Debug)]
pub struct Token {
    pub kind: TokKind,
    pub text: String,
    pub content: String,
    pub value: u32,
    pub start: usize,
    pub end: usize,
}

/// The model of a token.
pub struct SToken {
    pub kind: TokKind,
    pub text: Seq<char>,
    pub content: Seq<char>,
    pub value: u32,
    pub start: int,
    pub end: int,
}

impl View for Token {
    type V = SToken;

    open spec fn view(&self) -> SToken {
        SToken {
            kind: self.kind,
            text: self.text@,
            content: self.content@,
            value: self.value,
            start: self.start as int,
            end: self.end as int,
        }
    }
}

/// The models of a sequence of tokens.
pub open spec fn toks_view(v: Seq<Token>) -> Seq<SToken> {
    v.map_values(|t: Token| t@)
}

/// Why a text has no tokens: a byte that starts no token (or a string
/// literal without its closing quote), or an integer literal too large for
/// `u32`, with its start and end offsets.
#[derive(Debug, Clone, Copy, PartialEq, Eq, Structural)]
pub enum LexError {
    InvalidChar(usize),
    NumberTooLarge(usize, usize),
}

/// A blank: space, tab, line feed or carriage return.
pub open spec fn is_blank(c: u8) -> bool {
    c == 32 || c == 9 || c == 10 || c == 13
}

/// A letter or `_`, which start words.
pub open spec fn is_alpha(c: u8) -> bool {
    (65 <= c <= 90) || (97 <= c <= 122) || c == 95
}

/// A decimal digit.
pub open spec fn is_digit(c: u8) -> bool {
    48 <= c <= 57
}

/// Classes of bytes that a token or comment runs over.
#[derive(Clone, Copy)]
pub enum Class {
    /// Letters, digits and `_`.
    Word,
    /// Decimal digits.
    Digit,
    /// Everything but a line feed.
    NotNewline,
    /// Everything but `"`.
    NotQuote,
}

/// Whether a byte belongs to a class.
pub open spec fn in_class(c: u8, k: Class) -> bool {
    match k {
        Class::Word => is_alpha(c) || is_digit(c),
        Class::Digit => is_digit(c),
        Class::NotNewline => c != 10,
        Class::NotQuote => c != 34,
    }
}

/// The end of the run of bytes of class `k` that starts at `i`.
pub open spec fn scan_end(b: Seq<u8>, i: int, k: Class) -> int
    decreases b.len() - i,
{
    if 0 <= i < b.len() && in_class(b[i], k) {
        scan_end(b, i + 1, k)
    } else {
        i
    }
}

/// What bounds a run: it stays in the text, every byte in it is of the
/// class, and the byte after it is not.
pub proof fn lemma_scan_end(b: Seq<u8>, i: int, k: Class)
    requires
        0 <= i <= b.len(),
    ensures
        i <= scan_end(b, i, k) <= b.len(),
        forall|m: int| i <= m < scan_end(b, i, k) ==> in_class(#[trigger] b[m], k),
        scan_end(b, i, k) < b.len() ==> !in_class(b[scan_end(b, i, k)], k),
    decreases b.len() - i,
{
    if i < b.len() && in_class(b[i], k) {
        lemma_scan_end(b, i + 1, k);
    }
}

/// The value of the decimal digits in `b[i..j]`.
pub open spec fn digits_value(b: Seq<u8>, i: int, j: int) -> nat
    decreases j - i,
{
    if j <= i {
        0
    } else {
        digits_value(b, i, j - 1) * 10 + (b[j - 1] - 48) as nat
    }
}

proof fn lemma_digits_value_grows(b: Seq<u8>, i: int, k: int, j: int)
    requires
        i <= k <= j,
        forall|m: int| i <= m < j ==> is_digit(#[trigger] b[m]),
    ensures
        digits_value(b, i, k) <= digits_value(b, i, j),
    decreases j - k,
{
    if k < j {
        lemma_digits_value_grows(b, i, k, j - 1);
    }
}

/// The kind of a word: a keyword, or else an identifier.
pub open spec fn word_kind(t: Seq<char>) -> TokKind {
    if t == seq!['i', 'n', 't'] {
        TokKind::KwInt
    } else if t == seq!['f', 'l', 'o', 'a', 't'] {
        TokKind::KwFloat
    } else if t == seq!['b', 'o', 'o', 'l'] {
        TokKind::KwBool
    } else if t == seq!['s', 't', 'r', 'i', 'n', 'g'] {
        TokKind::KwString
    } else if t == seq!['i', 'f'] {
        TokKind::KwIf
    } else if t == seq!['t', 'h', 'e', 'n'] {
        TokKind::KwThen
    } else if t == seq!['e', 'l', 's', 'e'] {
        TokKind::KwElse
    } else if t == seq!['w', 'h', 'i', 'l', 'e'] {
        TokKind::KwWhile
    } else if t == seq!['d', 'o'] {
        TokKind::KwDo
    } else if t == seq!['f', 'o', 'r'] {
        TokKind::KwFor
    } else if t == seq!['t', 'o'] {
        TokKind::KwTo
    } else if t == seq!['f', 'u', 'n', 'c'] {
        TokKind::KwFunc
    } else if t == seq!['r', 'e', 't', 'u', 'r', 'n'] {
        TokKind::KwReturn
    } else if t == seq!['p', 'r', 'i', 'n', 't'] {
        TokKind::KwPrint
    } else if t == seq!['a', 'n', 'd'] {
        TokKind::KwAnd
    } else if t == seq!['o', 'r'] {
        TokKind::KwOr
    } else if t == seq!['n', 'o', 't'] {
        TokKind::KwNot
    } else if t == seq!['t', 'r', 'u', 'e'] {
        TokKind::KwTrue
    } else if t == seq!['f', 'a', 'l', 's', 'e'] {
        TokKind::KwFalse
    } else {
        TokKind::Ident
    }
}

/// The symbol at `i`, with its length in bytes; two-byte symbols first.
pub open spec fn symbol(b: Seq<u8>, i: int) -> Option<(TokKind, int)> {
    let c = b[i];
    let d: u8 = if i + 1 < b.len() {
        b[i + 1]
    } else {
        0
    };
    if c == 58 && d == 61 {
        Some((TokKind::ColonEq, 2))
    } else if c == 45 && d == 62 {
        Some((TokKind::Arrow, 2))
    } else if c == 60 && d == 61 {
        Some((TokKind::LessEq, 2))
    } else if c == 62 && d == 61 {
        Some((TokKind::GreaterEq, 2))
    } else if c == 33 && d == 61 {
        Some((TokKind::NotEq, 2))
    } else if c == 61 {
        Some((TokKind::Eq, 1))
    } else if c == 60 {
        Some((TokKind::Less, 1))
    } else if c == 62 {
        Some((TokKind::Greater, 1))
    } else if c == 43 {
        Some((TokKind::Plus, 1))
    } else if c == 45 {
        Some((TokKind::Minus, 1))
    } else if c == 42 {
        Some((TokKind::Star, 1))
    } else if c == 47 {
        Some((TokKind::Slash, 1))
    } else if c == 40 {
        Some((TokKind::LParen, 1))
    } else if c == 41 {
        Some((TokKind::RParen, 1))
    } else if c == 123 {
        Some((TokKind::LBrace, 1))
    } else if c == 125 {
        Some((TokKind::RBrace, 1))
    } else if c == 91 {
        Some((TokKind::LBracket, 1))
    } else if c == 93 {
        Some((TokKind::RBracket, 1))
    } else if c == 44 {
        Some((TokKind::Comma, 1))
    } else if c == 59 {
        Some((TokKind::Semi, 1))
    } else {
        None
    }
}

/// A token of the given kind over `b[s..e]`, holding its text.
pub open spec fn token_at(b: Seq<u8>, kind: TokKind, s: int, e: int) -> SToken {
    SToken {
        kind,
        text: decode_utf8(b.subrange(s, e)),
        content: Seq::empty(),
        value: 0,
        start: s,
        end: e,
    }
}

/// `r` with `t` in front of its tokens.
pub open spec fn prepend(t: SToken, r: Result<Seq<SToken>, LexError>) -> Result<Seq<SToken>, LexError> {
    match r {
        Ok(s) => Ok(seq![t] + s),
        Err(e) => Err(e),
    }
}

/// The tokens of the bytes `b` from offset `i` on.
pub open spec fn lex(b: Seq<u8>, i: int) -> Result<Seq<SToken>, LexError>
    decreases b.len() - i,
{
    if i < 0 || i >= b.len() {
        Ok(Seq::empty())
    } else if is_blank(b[i]) {
        lex(b, i + 1)
    } else if b[i] == 47 && i + 1 < b.len() && b[i + 1] == 47 {
        proof {
            lemma_scan_end(b, i + 2, Class::NotNewline);
        }
        lex(b, scan_end(b, i + 2, Class::NotNewline))
    } else if is_alpha(b[i]) {
        proof {
            lemma_scan_end(b, i + 1, Class::Word);
        }
        let j = scan_end(b, i + 1, Class::Word);
        let t = token_at(b, TokKind::Ident, i, j);
        prepend(SToken { kind: word_kind(t.text), ..t }, lex(b, j))
    } else if is_digit(b[i]) {
        proof {
            lemma_scan_end(b, i + 1, Class::Digit);
        }
        let j = scan_end(b, i + 1, Class::Digit);
        if j + 1 < b.len() && b[j] == 46 && is_digit(b[j + 1]) {
            proof {
                lemma_scan_end(b, j + 2, Class::Digit);
            }
            let k = scan_end(b, j + 2, Class::Digit);
            prepend(token_at(b, TokKind::Float, i, k), lex(b, k))
        } else if digits_value(b, i, j) > u32::MAX {
            Err(LexError::NumberTooLarge(i as usize, j as usize))
        } else {
            let t = token_at(b, TokKind::Num, i, j);
            prepend(SToken { value: digits_value(b, i, j) as u32, ..t }, lex(b, j))
        }
    } else if b[i] == 34 {
        proof {
            lemma_scan_end(b, i + 1, Class::NotQuote);
        }
        let q = scan_end(b, i + 1, Class::NotQuote);
        if q >= b.len() {
            Err(LexError::InvalidChar(i as usize))
        } else {
            let t = token_at(b, TokKind::Str, i, q + 1);
            prepend(SToken { content: decode_utf8(b.subrange(i + 1, q)), ..t }, lex(b, q + 1))
        }
    } else {
        match symbol(b, i) {
            Some((kind, n)) => prepend(token_at(b, kind, i, i + n), lex(b, i + n)),
            None => Err(LexError::InvalidChar(i as usize)),
        }
    }
}

/// Tokens that lie in order from offset `i` on, each over its own text.
pub open spec fn well_placed(b: Seq<u8>, i: int, ts: Seq<SToken>) -> bool {
    &&& forall|k: int|
        0 <= k < ts.len() ==> i <= #[trigger] ts[k].start < ts[k].end <= b.len() && ts[k].text
            == decode_utf8(b.subrange(ts[k].start, ts[k].end))
    &&& forall|k: int, m: int| 0 <= k < m < ts.len() ==> #[trigger] ts[k].end <= #[trigger] ts[m].start
}

/// The tokens of a text lie in order, each over its own text: their
/// offsets grow, they do not overlap, and each holds the text between its
/// offsets.
pub proof fn law_tokens_lie_in_order_over_their_text(b: Seq<u8>, i: int)
    requires
        0 <= i <= b.len(),
    ensures
        lex(b, i) matches Ok(ts) ==> well_placed(b, i, ts),
    decreases b.len() - i,
{
    if i < b.len() {
        if is_blank(b[i]) {
            law_tokens_lie_in_order_over_their_text(b, i + 1);
        } else if b[i] == 47 && i + 1 < b.len() && b[i + 1] == 47 {
            lemma_scan_end(b, i + 2, Class::NotNewline);
            law_tokens_lie_in_order_over_their_text(b, scan_end(b, i + 2, Class::NotNewline));
        } else if is_alpha(b[i]) {
            lemma_scan_end(b, i + 1, Class::Word);
            let j = scan_end(b, i + 1, Class::Word);
            let t = token_at(b, TokKind::Ident, i, j);
            law_tokens_lie_in_order_over_their_text(b, j);
            lemma_well_placed_prepend(b, i, j, SToken { kind: word_kind(t.text), ..t }, lex(b, j));
        } else if is_digit(b[i]) {
            lemma_scan_end(b, i + 1, Class::Digit);
            let j = scan_end(b, i + 1, Class::Digit);
            if j + 1 < b.len() && b[j] == 46 && is_digit(b[j + 1]) {
                lemma_scan_end(b, j + 2, Class::Digit);
                let k = scan_end(b, j + 2, Class::Digit);
                law_tokens_lie_in_order_over_their_text(b, k);
                lemma_well_placed_prepend(b, i, k, token_at(b, TokKind::Float, i, k), lex(b, k));
            } else if digits_value(b, i, j) <= u32::MAX {
                let t = token_at(b, TokKind::Num, i, j);
                law_tokens_lie_in_order_over_their_text(b, j);
                lemma_well_placed_prepend(
                    b,
                    i,
                    j,
                    SToken { value: digits_value(b, i, j) as u32, ..t },
                    lex(b, j),
                );
            }
        } else if b[i] == 34 {
            lemma_scan_end(b, i + 1, Class::NotQuote);
            let q = scan_end(b, i + 1, Class::NotQuote);
            if q < b.len() {
                let t = token_at(b, TokKind::Str, i, q + 1);
                law_tokens_lie_in_order_over_their_text(b, q + 1);
                lemma_well_placed_prepend(
                    b,
                    i,
                    q + 1,
                    SToken { content: decode_utf8(b.subrange(i + 1, q)), ..t },
                    lex(b, q + 1),
                );
            }
        } else if let Some((kind, n)) = symbol(b, i) {
            law_tokens_lie_in_order_over_their_text(b, i + n);
            lemma_well_placed_prepend(b, i, i + n, token_at(b, kind, i, i + n), lex(b, i + n));
        }
    }
}

proof fn lemma_well_placed_prepend(b: Seq<u8>, i: int, j: int, t: SToken, r: Result<Seq<SToken>, LexError>)
    requires
        0 <= i < j <= b.len(),
        t.start == i,
        t.end == j,
        t.text == decode_utf8(b.subrange(i, j)),
        r matches Ok(ts) ==> well_placed(b, j, ts),
    ensures
        prepend(t, r) matches Ok(ts) ==> well_placed(b, i, ts),
{
    if let Ok(rest) = r {
        let ts = seq![t] + rest;
        assert forall|k: int| 0 <= k < ts.len() implies i <= #[trigger] ts[k].start < ts[k].end <= b.len()
            && ts[k].text == decode_utf8(b.subrange(ts[k].start, ts[k].end)) by {
            if k > 0 {
                assert(ts[k] == rest[k - 1]);
            }
        }
        assert forall|k: int, m: int| 0 <= k < m < ts.len() implies #[trigger] ts[k].end
            <= #[trigger] ts[m].start by {
            assert(ts[m] == rest[m - 1]);
            if k > 0 {
                assert(ts[k] == rest[k - 1]);
            } else {
                assert(rest[m - 1].start >= j);
            }
        }
    }
}

/// The model of what `tokenize` returns.
pub open spec fn lex_view(r: Result<Vec<Token>, LexError>) -> Result<Seq<SToken>, LexError> {
    match r {
        Ok(v) => Ok(toks_view(v@)),
        Err(e) => Err(e),
    }
}

/// Every byte that is not a continuation byte starts a character; the
/// byte after an ASCII byte does too.
proof fn lemma_boundary_after_ascii(b: Seq<u8>, k: int)
    requires
        valid_utf8(b),
        0 <= k < b.len(),
        b[k] < 128,
    ensures
        is_char_boundary(b, k),
        is_char_boundary(b, k + 1),
    decreases b.len(),
{
    vstd::utf8::is_char_boundary_iff_not_is_continuation_byte(b, k);
    let n = length_of_first_scalar(b);
    let p = pop_first_scalar(b);
    assert(n >= 1);
    assert(p.len() == b.len() - n);
    if k < n {
        if k > 0 {
            assert(is_continuation_byte(b[k]));
        }
        assert(n == 1);
        assert(is_char_boundary(p, 0));
    } else {
        assert(p[k - n] == b[k]);
        lemma_boundary_after_ascii(p, k - n);
    }
}

/// A character boundary inside a prefix that ends at a character boundary
/// is a boundary of the prefix.
proof fn lemma_boundary_in_prefix(b: Seq<u8>, s: int, e: int)
    requires
        valid_utf8(b),
        0 <= s <= e <= b.len(),
        is_char_boundary(b, s),
        is_char_boundary(b, e),
    ensures
        valid_utf8(b.subrange(0, e)),
        is_char_boundary(b.subrange(0, e), s),
{
    vstd::utf8::valid_utf8_split(b, e);
    let p = b.subrange(0, e);
    if s == e {
        vstd::utf8::is_char_boundary_start_end_of_seq(p);
    } else {
        vstd::utf8::is_char_boundary_iff_not_is_continuation_byte(b, s);
        vstd::utf8::is_char_boundary_iff_not_is_continuation_byte(p, s);
    }
}

/// The text of `src` between two character boundaries of its bytes.
pub(crate) fn slice_text(src: &str, s: usize, e: usize) -> (r: String)
    requires
        s <= e <= encode_utf8(src@).len(),
        is_char_boundary(encode_utf8(src@), s as int),
        is_char_boundary(encode_utf8(src@), e as int),
    ensures
        r@ == decode_utf8(encode_utf8(src@).subrange(s as int, e as int)),
{
    let ghost b = encode_utf8(src@);
    proof {
        vstd::utf8::encode_utf8_valid_utf8(src@);
        lemma_boundary_in_prefix(b, s as int, e as int);
    }
    let (left, _) = src.split_at(e);
    assert(encode_utf8(left@) =~= b.subrange(0, e as int));
    let (_, mid) = left.split_at(s);
    assert(encode_utf8(mid@) =~= b.subrange(s as int, e as int));
    let r = mid.to_owned();
    proof {
        vstd::utf8::encode_utf8_decode_utf8(mid@);
    }
    r
}

/// Whether a byte belongs to a class.
fn in_class_of(c: u8, k: Class) -> (r: bool)
    ensures
        r == in_class(c, k),
{
    match k {
        Class::Word => (65 <= c && c <= 90) || (97 <= c && c <= 122) || c == 95 || (48 <= c && c
            <= 57),
        Class::Digit => 48 <= c && c <= 57,
        Class::NotNewline => c != 10,
        Class::NotQuote => c != 34,
    }
}

/// The end of the run of bytes of class `k` that starts at `i`.
fn scan(b: &[u8], i: usize, k: Class) -> (j: usize)
    requires
        i <= b@.len(),
    ensures
        j == scan_end(b@, i as int, k),
{
    let mut j = i;
    while j < b.len() && in_class_of(b[j], k)
        invariant
            i <= j <= b@.len(),
            scan_end(b@, i as int, k) == scan_end(b@, j as int, k),
        decreases b@.len() - j,
    {
        j = j + 1;
    }
    j
}

/// The value of the decimal digits in `b[i..j]`, if it fits in `u32`.
fn digits_number(b: &[u8], i: usize, j: usize) -> (r: Option<u32>)
    requires
        i <= j <= b@.len(),
        forall|m: int| i <= m < j ==> is_digit(#[trigger] b@[m]),
    ensures
        match r {
            Some(v) => v as nat == digits_value(b@, i as int, j as int),
            None => digits_value(b@, i as int, j as int) > u32::MAX,
        },
{
    let mut v: u64 = 0;
    let mut m = i;
    while m < j
        invariant
            i <= m <= j <= b@.len(),
            forall|x: int| i <= x < j ==> is_digit(#[trigger] b@[x]),
            v as nat == digits_value(b@, i as int, m as int),
            v <= u32::MAX,
        decreases j - m,
    {
        let d = b[m];
        assert(is_digit(b@[m as int]));
        let next: u64 = v * 10 + (d - 48) as u64;
        if next > u32::MAX as u64 {
            proof {
                lemma_digits_value_grows(b@, i as int, m as int + 1, j as int);
            }
            return None;
        }
        v = next;
        m = m + 1;
    }
    Some(v as u32)
}

/// The kind of a word.
fn word_kind_of(w: &String) -> (k: TokKind)
    ensures
        k == word_kind(w@),
{
    proof {
        reveal_strlit("int");
        reveal_strlit("float");
        reveal_strlit("bool");
        reveal_strlit("string");
        reveal_strlit("if");
        reveal_strlit("then");
        reveal_strlit("else");
        reveal_strlit("while");
        reveal_strlit("do");
        reveal_strlit("for");
        reveal_strlit("to");
        reveal_strlit("func");
        reveal_strlit("return");
        reveal_strlit("print");
        reveal_strlit("and");
        reveal_strlit("or");
        reveal_strlit("not");
        reveal_strlit("true");
        reveal_strlit("false");
        assert("int"@ =~= seq!['i', 'n', 't']);
        assert("float"@ =~= seq!['f', 'l', 'o', 'a', 't']);
        assert("bool"@ =~= seq!['b', 'o', 'o', 'l']);
        assert("string"@ =~= seq!['s', 't', 'r', 'i', 'n', 'g']);
        assert("if"@ =~= seq!['i', 'f']);
        assert("then"@ =~= seq!['t', 'h', 'e', 'n']);
        assert("else"@ =~= seq!['e', 'l', 's', 'e']);
        assert("while"@ =~= seq!['w', 'h', 'i', 'l', 'e']);
        assert("do"@ =~= seq!['d', 'o']);
        assert("for"@ =~= seq!['f', 'o', 'r']);
        assert("to"@ =~= seq!['t', 'o']);
        assert("func"@ =~= seq!['f', 'u', 'n', 'c']);
        assert("return"@ =~= seq!['r', 'e', 't', 'u', 'r', 'n']);
        assert("print"@ =~= seq!['p', 'r', 'i', 'n', 't']);
        assert("and"@ =~= seq!['a', 'n', 'd']);
        assert("or"@ =~= seq!['o', 'r']);
        assert("not"@ =~= seq!['n', 'o', 't']);
        assert("true"@ =~= seq!['t', 'r', 'u', 'e']);
        assert("false"@ =~= seq!['f', 'a', 'l', 's', 'e']);
    }
    let s = w.as_str();
    if str_eq(s, "int") {
        TokKind::KwInt
    } else if str_eq(s, "float") {
        TokKind::KwFloat
    } else if str_eq(s, "bool") {
        TokKind::KwBool
    } else if str_eq(s, "string") {
        TokKind::KwString
    } else if str_eq(s, "if") {
        TokKind::KwIf
    } else if str_eq(s, "then") {
        TokKind::KwThen
    } else if str_eq(s, "else") {
        TokKind::KwElse
    } else if str_eq(s, "while") {
        TokKind::KwWhile
    } else if str_eq(s, "do") {
        TokKind::KwDo
    } else if str_eq(s, "for") {
        TokKind::KwFor
    } else if str_eq(s, "to") {
        TokKind::KwTo
    } else if str_eq(s, "func") {
        TokKind::KwFunc
    } else if str_eq(s, "return") {
        TokKind::KwReturn
    } else if str_eq(s, "print") {
        TokKind::KwPrint
    } else if str_eq(s, "and") {
        TokKind::KwAnd
    } else if str_eq(s, "or") {
        TokKind::KwOr
    } else if str_eq(s, "not") {
        TokKind::KwNot
    } else if str_eq(s, "true") {
        TokKind::KwTrue
    } else if str_eq(s, "false") {
        TokKind::KwFalse
    } else {
        TokKind::Ident
    }
}

/// The symbol at `i`, with its length in bytes.
fn symbol_at(b: &[u8], i: usize) -> (r: Option<(TokKind, usize)>)
    requires
        i < b@.len(),
    ensures
        match r {
            Some((k, n)) => symbol(b@, i as int) == Some((k, n as int)),
            None => symbol(b@, i as int) is None,
        },
{
    let c = b[i];
    let d: u8 = if i + 1 < b.len() {
        b[i + 1]
    } else {
        0
    };
    if c == 58 && d == 61 {
        Some((TokKind::ColonEq, 2))
    } else if c == 45 && d == 62 {
        Some((TokKind::Arrow, 2))
    } else if c == 60 && d == 61 {
        Some((TokKind::LessEq, 2))
    } else if c == 62 && d == 61 {
        Some((TokKind::GreaterEq, 2))
    } else if c == 33 && d == 61 {
        Some((TokKind::NotEq, 2))
    } else if c == 61 {
        Some((TokKind::Eq, 1))
    } else if c == 60 {
        Some((TokKind::Less, 1))
    } else if c == 62 {
        Some((TokKind::Greater, 1))
    } else if c == 43 {
        Some((TokKind::Plus, 1))
    } else if c == 45 {
        Some((TokKind::Minus, 1))
    } else if c == 42 {
        Some((TokKind::Star, 1))
    } else if c == 47 {
        Some((TokKind::Slash, 1))
    } else if c == 40 {
        Some((TokKind::LParen, 1))
    } else if c == 41 {
        Some((TokKind::RParen, 1))
    } else if c == 123 {
        Some((TokKind::LBrace, 1))
    } else if c == 125 {
        Some((TokKind::RBrace, 1))
    } else if c == 91 {
        Some((TokKind::LBracket, 1))
    } else if c == 93 {
        Some((TokKind::RBracket, 1))
    } else if c == 44 {
        Some((TokKind::Comma, 1))
    } else if c == 59 {
        Some((TokKind::Semi, 1))
    } else {
        None
    }
}

/// `r` with the tokens `ts` in front of its own.
pub open spec fn prepend_all(ts: Seq<SToken>, r: Result<Seq<SToken>, LexError>) -> Result<
    Seq<SToken>,
    LexError,
> {
    match r {
        Ok(s) => Ok(ts + s),
        Err(e) => Err(e),
    }
}

proof fn lemma_prepend_all(ts: Seq<SToken>, t: SToken, r: Result<Seq<SToken>, LexError>)
    ensures
        prepend_all(ts, prepend(t, r)) == prepend_all(ts.push(t), r),
{
    if let Ok(s) = r {
        assert(ts + (seq![t] + s) =~= ts.push(t) + s);
    }
}

/// What a lexing step owes: it read the source from `i` to `j`, and the
/// tokens so far followed by the tokens from `i` on are the tokens now
/// held followed by the tokens from `j` on.
pub open spec fn lex_step(b: Seq<u8>, i: int, j: int, before: Seq<Token>, after: Seq<Token>) -> bool {
    &&& i < j <= b.len()
    &&& is_char_boundary(b, j)
    &&& prepend_all(toks_view(before), lex(b, i)) == prepend_all(toks_view(after), lex(b, j))
}

/// Reads a keyword or an identifier at `i`.
fn lex_word(src: &str, bytes: &[u8], i: usize, toks: &mut Vec<Token>) -> (j: usize)
    requires
        bytes@ == encode_utf8(src@),
        valid_utf8(bytes@),
        i < bytes@.len(),
        bytes@.len() <= usize::MAX,
        is_char_boundary(bytes@, i as int),
        is_alpha(bytes@[i as int]),
    ensures
        lex_step(bytes@, i as int, j as int, old(toks)@, final(toks)@),
{
    let ghost b = bytes@;
    let j = scan(bytes, i + 1, Class::Word);
    proof {
        lemma_scan_end(b, i + 1, Class::Word);
        assert(b[j - 1] < 128);
        lemma_boundary_after_ascii(b, j - 1);
    }
    let text = slice_text(src, i, j);
    let kind = word_kind_of(&text);
    let ghost t = token_at(b, TokKind::Ident, i as int, j as int);
    let ghost t2 = SToken { kind: word_kind(t.text), ..t };
    toks.push(Token { kind, text, content: String::new(), value: 0, start: i, end: j });
    proof {
        assert(toks_view(toks@) =~= toks_view(old(toks)@).push(t2));
        lemma_prepend_all(toks_view(old(toks)@), t2, lex(b, j as int));
    }
    j
}

/// Reads an integer or float literal at `i`.
fn lex_number(src: &str, bytes: &[u8], i: usize, toks: &mut Vec<Token>) -> (r: Result<usize, LexError>)
    requires
        bytes@ == encode_utf8(src@),
        valid_utf8(bytes@),
        i < bytes@.len(),
        is_char_boundary(bytes@, i as int),
        is_digit(bytes@[i as int]),
    ensures
        match r {
            Ok(j) => lex_step(bytes@, i as int, j as int, old(toks)@, final(toks)@),
            Err(e) => lex(bytes@, i as int) == Err::<Seq<SToken>, LexError>(e) && error_at_boundaries(bytes@, e),
        },
{
    let ghost b = bytes@;
    let n = bytes.len();
    let j = scan(bytes, i + 1, Class::Digit);
    proof {
        lemma_scan_end(b, i + 1, Class::Digit);
    }
    if j < n && n - j > 1 && bytes[j] == 46 && 48 <= bytes[j + 1] && bytes[j + 1] <= 57 {
        let k = scan(bytes, j + 2, Class::Digit);
        proof {
            lemma_scan_end(b, j + 2, Class::Digit);
            assert(b[k - 1] < 128);
            lemma_boundary_after_ascii(b, k - 1);
        }
        let text = slice_text(src, i, k);
        let ghost t = token_at(b, TokKind::Float, i as int, k as int);
        toks.push(Token { kind: TokKind::Float, text, content: String::new(), value: 0, start: i, end: k });
        proof {
            assert(toks_view(toks@) =~= toks_view(old(toks)@).push(t));
            lemma_prepend_all(toks_view(old(toks)@), t, lex(b, k as int));
        }
        Ok(k)
    } else {
        proof {
            assert(forall|m: int| i <= m < j ==> is_digit(#[trigger] b[m]));
        }
        match digits_number(bytes, i, j) {
            None => {
                proof {
                    assert(b[j - 1] < 128);
                    lemma_boundary_after_ascii(b, j - 1);
                }
                Err(LexError::NumberTooLarge(i, j))
            },
            Some(v) => {
                proof {
                    assert(b[j - 1] < 128);
                    lemma_boundary_after_ascii(b, j - 1);
                }
                let text = slice_text(src, i, j);
                let ghost t0 = token_at(b, TokKind::Num, i as int, j as int);
                let ghost t = SToken { value: digits_value(b, i as int, j as int) as u32, ..t0 };
                toks.push(Token { kind: TokKind::Num, text, content: String::new(), value: v, start: i, end: j });
                proof {
                    assert(toks_view(toks@) =~= toks_view(old(toks)@).push(t));
                    lemma_prepend_all(toks_view(old(toks)@), t, lex(b, j as int));
                }
                Ok(j)
            },
        }
    }
}

/// Reads a string literal whose opening quote is at `i`.
fn lex_string(src: &str, bytes: &[u8], i: usize, toks: &mut Vec<Token>) -> (r: Result<usize, LexError>)
    requires
        bytes@ == encode_utf8(src@),
        valid_utf8(bytes@),
        i < bytes@.len(),
        is_char_boundary(bytes@, i as int),
        bytes@[i as int] == 34,
    ensures
        match r {
            Ok(j) => lex_step(bytes@, i as int, j as int, old(toks)@, final(toks)@),
            Err(e) => lex(bytes@, i as int) == Err::<Seq<SToken>, LexError>(e) && error_at_boundaries(bytes@, e),
        },
{
    let ghost b = bytes@;
    let n = bytes.len();
    let q = scan(bytes, i + 1, Class::NotQuote);
    proof {
        lemma_scan_end(b, i + 1, Class::NotQuote);
    }
    if q >= n {
        return Err(LexError::InvalidChar(i));
    }
    proof {
        lemma_boundary_after_ascii(b, i as int);
        lemma_boundary_after_ascii(b, q as int);
    }
    let text = slice_text(src, i, q + 1);
    let content = slice_text(src, i + 1, q);
    let ghost t0 = token_at(b, TokKind::Str, i as int, q + 1);
    let ghost t = SToken { content: decode_utf8(b.subrange(i + 1, q as int)), ..t0 };
    toks.push(Token { kind: TokKind::Str, text, content, value: 0, start: i, end: q + 1 });
    proof {
        assert(toks_view(toks@) =~= toks_view(old(toks)@).push(t));
        lemma_prepend_all(toks_view(old(toks)@), t, lex(b, q + 1));
    }
    Ok(q + 1)
}

/// Reads a symbol at `i`.
fn lex_symbol(src: &str, bytes: &[u8], i: usize, toks: &mut Vec<Token>) -> (r: Result<usize, LexError>)
    requires
        bytes@ == encode_utf8(src@),
        valid_utf8(bytes@),
        i < bytes@.len(),
        bytes@.len() <= usize::MAX,
        is_char_boundary(bytes@, i as int),
        !is_blank(bytes@[i as int]),
        !(bytes@[i as int] == 47 && i + 1 < bytes@.len() && bytes@[i + 1] == 47),
        !is_alpha(bytes@[i as int]),
        !is_digit(bytes@[i as int]),
        bytes@[i as int] != 34,
    ensures
        match r {
            Ok(j) => lex_step(bytes@, i as int, j as int, old(toks)@, final(toks)@),
            Err(e) => lex(bytes@, i as int) == Err::<Seq<SToken>, LexError>(e) && error_at_boundaries(bytes@, e),
        },
{
    let ghost b = bytes@;
    match symbol_at(bytes, i) {
        None => Err(LexError::InvalidChar(i)),
        Some((kind, len)) => {
            proof {
                assert(b[i + len - 1] < 128);
                lemma_boundary_after_ascii(b, i + len - 1);
            }
            let text = slice_text(src, i, i + len);
            let ghost t = token_at(b, kind, i as int, i + len);
            toks.push(Token { kind, text, content: String::new(), value: 0, start: i, end: i + len });
            proof {
                assert(toks_view(toks@) =~= toks_view(old(toks)@).push(t));
                lemma_prepend_all(toks_view(old(toks)@), t, lex(b, i + len));
            }
            Ok(i + len)
        },
    }
}

/// The offsets that a lexical error names lie on character boundaries,
/// and the character or the digits they name are in the text.
pub open spec fn error_at_boundaries(b: Seq<u8>, e: LexError) -> bool {
    match e {
        LexError::InvalidChar(k) => k < b.len() && is_char_boundary(b, k as int),
        LexError::NumberTooLarge(s, t) => s < t <= b.len() && is_char_boundary(b, s as int)
            && is_char_boundary(b, t as int),
    }
}

/// Splits a source text into tokens.
pub fn tokenize(src: &str) -> (r: Result<Vec<Token>, LexError>)
    ensures
        lex_view(r) == lex(encode_utf8(src@), 0),
        r matches Err(e) ==> error_at_boundaries(encode_utf8(src@), e),
{
    proof {
        vstd::utf8::encode_utf8_valid_utf8(src@);
        vstd::utf8::is_char_boundary_start_end_of_seq(encode_utf8(src@));
    }
    tokenize_from(src, 0)
}

/// Splits a source text into tokens from the byte offset `start` on; the
/// tokens keep their offsets in the whole text.
pub(crate) fn tokenize_from(src: &str, start: usize) -> (r: Result<Vec<Token>, LexError>)
    requires
        start <= encode_utf8(src@).len(),
        is_char_boundary(encode_utf8(src@), start as int),
    ensures
        lex_view(r) == lex(encode_utf8(src@), start as int),
        r matches Err(e) ==> error_at_boundaries(encode_utf8(src@), e),
{
    let bytes = src.as_bytes();
    let n = bytes.len();
    let ghost b = bytes@;
    proof {
        vstd::utf8::encode_utf8_valid_utf8(src@);
        vstd::utf8::is_char_boundary_start_end_of_seq(b);
        assert(toks_view(Seq::<Token>::empty()) =~= Seq::<SToken>::empty());
        if let Ok(s) = lex(b, start as int) {
            assert(Seq::<SToken>::empty() + s =~= s);
        }
    }
    let mut toks: Vec<Token> = Vec::new();
    let mut i: usize = start;
    while i < n
        invariant
            b == bytes@,
            b == encode_utf8(src@),
            valid_utf8(b),
            n == b.len(),
            i <= n,
            is_char_boundary(b, i as int),
            is_char_boundary(b, n as int),
            lex(b, start as int) == prepend_all(toks_view(toks@), lex(b, i as int)),
        decreases n - i,
    {
        let c = bytes[i];
        if c == 32 || c == 9 || c == 10 || c == 13 {
            proof {
                lemma_boundary_after_ascii(b, i as int);
            }
            i = i + 1;
        } else if c == 47 && n - i > 1 && bytes[i + 1] == 47 {
            let j = scan(bytes, i + 2, Class::NotNewline);
            proof {
                lemma_scan_end(b, i + 2, Class::NotNewline);
                if j < n {
                    lemma_boundary_after_ascii(b, j as int);
                }
            }
            i = j;
        } else if (65 <= c && c <= 90) || (97 <= c && c <= 122) || c == 95 {
            i = lex_word(src, bytes, i, &mut toks);
        } else {
            let r = if 48 <= c && c <= 57 {
                lex_number(src, bytes, i, &mut toks)
            } else if c == 34 {
                lex_string(src, bytes, i, &mut toks)
            } else {
                lex_symbol(src, bytes, i, &mut toks)
            };
            match r {
                Ok(j) => {
                    i = j;
                },
                Err(e) => {
                    return Err(e);
                },
            }
        }
    }
    proof {
        assert(toks_view(toks@) + Seq::<SToken>::empty() =~= toks_view(toks@));
    }
    Ok(toks)
}

/// Each symbol's bytes read as its own token, the two-byte symbols first:
/// `:=` `->` `<=` `>=` `!=`, then `=` `<` `>` `+` `-` `*` `/` `(` `)` `{`
/// `}` `[` `]` `,` `;`.
pub proof fn law_symbols(b: Seq<u8>, i: int)
    requires
        0 <= i < b.len(),
    ensures
        ({
            let c = b[i];
            let next_is_eq = i + 1 < b.len() && b[i + 1] == '=' as u8;
            &&& c == ':' as u8 && next_is_eq ==> symbol(b, i) == Some((TokKind::ColonEq, 2int))
            &&& c == '-' as u8 && i + 1 < b.len() && b[i + 1] == '>' as u8 ==> symbol(b, i) == Some(
                (TokKind::Arrow, 2int),
            )
            &&& c == '<' as u8 && next_is_eq ==> symbol(b, i) == Some((TokKind::LessEq, 2int))
            &&& c == '>' as u8 && next_is_eq ==> symbol(b, i) == Some((TokKind::GreaterEq, 2int))
            &&& c == '!' as u8 && next_is_eq ==> symbol(b, i) == Some((TokKind::NotEq, 2int))
            &&& c == '=' as u8 ==> symbol(b, i) == Some((TokKind::Eq, 1int))
            &&& c == '<' as u8 && !next_is_eq ==> symbol(b, i) == Some((TokKind::Less, 1int))
            &&& c == '>' as u8 && !next_is_eq ==> symbol(b, i) == Some((TokKind::Greater, 1int))
            &&& c == '+' as u8 ==> symbol(b, i) == Some((TokKind::Plus, 1int))
            &&& c == '-' as u8 && !(i + 1 < b.len() && b[i + 1] == '>' as u8) ==> symbol(b, i) == Some(
                (TokKind::Minus, 1int),
            )
            &&& c == '*' as u8 ==> symbol(b, i) == Some((TokKind::Star, 1int))
            &&& c == '/' as u8 ==> symbol(b, i) == Some((TokKind::Slash, 1int))
            &&& c == '(' as u8 ==> symbol(b, i) == Some((TokKind::LParen, 1int))
            &&& c == ')' as u8 ==> symbol(b, i) == Some((TokKind::RParen, 1int))
            &&& c == '{' as u8 ==> symbol(b, i) == Some((TokKind::LBrace, 1int))
            &&& c == '}' as u8 ==> symbol(b, i) == Some((TokKind::RBrace, 1int))
            &&& c == '[' as u8 ==> symbol(b, i) == Some((TokKind::LBracket, 1int))
            &&& c == ']' as u8 ==> symbol(b, i) == Some((TokKind::RBracket, 1int))
            &&& c == ',' as u8 ==> symbol(b, i) == Some((TokKind::Comma, 1int))
            &&& c == ';' as u8 ==> symbol(b, i) == Some((TokKind::Semi, 1int))
            &&& c == ':' as u8 && !next_is_eq ==> symbol(b, i) is None
        }),
{
}

/// Each keyword reads as its own token kind, and every other word as an
/// identifier.
pub proof fn law_keywords(t: Seq<char>)
    ensures
        word_kind(seq!['i', 'n', 't']) == TokKind::KwInt,
        word_kind(seq!['f', 'l', 'o', 'a', 't']) == TokKind::KwFloat,
        word_kind(seq!['b', 'o', 'o', 'l']) == TokKind::KwBool,
        word_kind(seq!['s', 't', 'r', 'i', 'n', 'g']) == TokKind::KwString,
        word_kind(seq!['i', 'f']) == TokKind::KwIf,
        word_kind(seq!['t', 'h', 'e', 'n']) == TokKind::KwThen,
        word_kind(seq!['e', 'l', 's', 'e']) == TokKind::KwElse,
        word_kind(seq!['w', 'h', 'i', 'l', 'e']) == TokKind::KwWhile,
        word_kind(seq!['d', 'o']) == TokKind::KwDo,
        word_kind(seq!['f', 'o', 'r']) == TokKind::KwFor,
        word_kind(seq!['t', 'o']) == TokKind::KwTo,
        word_kind(seq!['f', 'u', 'n', 'c']) == TokKind::KwFunc,
        word_kind(seq!['r', 'e', 't', 'u', 'r', 'n']) == TokKind::KwReturn,
        word_kind(seq!['p', 'r', 'i', 'n', 't']) == TokKind::KwPrint,
        word_kind(seq!['a', 'n', 'd']) == TokKind::KwAnd,
        word_kind(seq!['o', 'r']) == TokKind::KwOr,
        word_kind(seq!['n', 'o', 't']) == TokKind::KwNot,
        word_kind(seq!['t', 'r', 'u', 'e']) == TokKind::KwTrue,
        word_kind(seq!['f', 'a', 'l', 's', 'e']) == TokKind::KwFalse,
        (t != seq!['i', 'n', 't'] && t != seq!['f', 'l', 'o', 'a', 't'] && t != seq!['b', 'o', 'o', 'l'] && t != seq!['s', 't', 'r', 'i', 'n', 'g'] && t != seq!['i', 'f'] && t != seq!['t', 'h', 'e', 'n'] && t != seq!['e', 'l', 's', 'e'] && t != seq!['w', 'h', 'i', 'l', 'e'] && t != seq!['d', 'o'] && t != seq!['f', 'o', 'r'] && t != seq!['t', 'o'] && t != seq!['f', 'u', 'n', 'c'] && t != seq!['r', 'e', 't', 'u', 'r', 'n'] && t != seq!['p', 'r', 'i', 'n', 't'] && t != seq!['a', 'n', 'd'] && t != seq!['o', 'r'] && t != seq!['n', 'o', 't'] && t != seq!['t', 'r', 'u', 'e'] && t != seq!['f', 'a', 'l', 's', 'e']) ==> word_kind(t) == TokKind::Ident,
{
}

} // verus!
