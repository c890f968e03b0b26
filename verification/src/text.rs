//! Text helpers: decimal rendering of integers, string building, and
//! line/column positions inside a source text.
use vstd::prelude::*;

verus! {

/// The character of a decimal digit `0..=9`.
pub open spec fn digit_char(d: int) -> char {
    if d == 0 {
        '0'
    } else if d == 1 {
        '1'
    } else if d == 2 {
        '2'
    } else if d == 3 {
        '3'
    } else if d == 4 {
        '4'
    } else if d == 5 {
        '5'
    } else if d == 6 {
        '6'
    } else if d == 7 {
        '7'
    } else if d == 8 {
        '8'
    } else {
        '9'
    }
}

/// The decimal digits of a natural number, most significant first, without
/// leading zeros (zero itself is `"0"`).
pub open spec fn digits(n: nat) -> Seq<char>
    decreases n,
{
    if n < 10 {
        seq![digit_char(n as int)]
    } else {
        digits(n / 10).push(digit_char((n % 10) as int))
    }
}

/// The decimal rendering of an integer, as `{}` formats it: a leading `-` for
/// negative numbers, then the digits of the magnitude.
pub open spec fn decimal(n: int) -> Seq<char> {
    if n < 0 {
        seq!['-'] + digits((-n) as nat)
    } else {
        digits(n as nat)
    }
}

/// Appends one character to a string.
/// Calls `String::push`; trusted to append exactly `c` at the end.
#[verifier::external_body]
pub(crate) fn push_char(s: &mut String, c: char)
    ensures
        final(s)@ == old(s)@.push(c),
{
    s.push(c);
}

/// Whether two string slices hold the same characters (compared byte by
/// byte on their UTF-8 encodings).
pub fn str_eq(a: &str, b: &str) -> (r: bool)
    ensures
        r == (a@ == b@),
{
    let x = a.as_bytes();
    let y = b.as_bytes();
    proof {
        vstd::utf8::encode_utf8_decode_utf8(a@);
        vstd::utf8::encode_utf8_decode_utf8(b@);
    }
    if x.len() != y.len() {
        return false;
    }
    let mut i: usize = 0;
    while i < x.len()
        invariant
            x@.len() == y@.len(),
            x@ == vstd::utf8::encode_utf8(a@),
            y@ == vstd::utf8::encode_utf8(b@),
            i <= x@.len(),
            forall|j: int| 0 <= j < i ==> x@[j] == y@[j],
        decreases x@.len() - i,
    {
        if x[i] != y[i] {
            return false;
        }
        i = i + 1;
    }
    proof {
        assert(x@ =~= y@);
    }
    true
}

fn digit(d: u64) -> (c: char)
    requires
        d < 10,
    ensures
        c == digit_char(d as int),
{
    if d == 0 {
        '0'
    } else if d == 1 {
        '1'
    } else if d == 2 {
        '2'
    } else if d == 3 {
        '3'
    } else if d == 4 {
        '4'
    } else if d == 5 {
        '5'
    } else if d == 6 {
        '6'
    } else if d == 7 {
        '7'
    } else if d == 8 {
        '8'
    } else {
        '9'
    }
}

fn push_digits(out: &mut String, m: u64)
    ensures
        final(out)@ == old(out)@ + digits(m as nat),
    decreases m,
{
    if m >= 10 {
        push_digits(out, m / 10);
        push_char(out, digit(m % 10));
        proof {
            assert(old(out)@ + digits((m / 10) as nat) + seq![digit_char((m % 10) as int)]
                =~= old(out)@ + digits(m as nat));
        }
    } else {
        push_char(out, digit(m));
        proof {
            assert(old(out)@.push(digit_char(m as int)) =~= old(out)@ + digits(m as nat));
        }
    }
}

/// Appends the decimal rendering of `n` to `out`.
pub fn push_decimal(out: &mut String, n: i64)
    ensures
        final(out)@ == old(out)@ + decimal(n as int),
{
    if n < 0 {
        push_char(out, '-');
        let m: u64 = if n == i64::MIN {
            9223372036854775808u64
        } else {
            (-n) as u64
        };
        push_digits(out, m);
        proof {
            assert(old(out)@.push('-') + digits(m as nat) =~= old(out)@ + decimal(n as int));
        }
    } else {
        push_digits(out, n as u64);
    }
}

/// Appends the decimal rendering of a count to `out`.
pub fn push_count(out: &mut String, n: usize)
    ensures
        final(out)@ == old(out)@ + decimal(n as int),
{
    push_digits(out, n as u64);
}

/// The line and column of each position of a byte text, both counted from 1:
/// `line_col(bytes, k)` is the position just after the first `k` bytes.
/// A line feed byte starts a new line; every other byte advances the column.
pub open spec fn line_col(bytes: Seq<u8>, k: nat) -> (int, int)
    decreases k,
{
    if k == 0 {
        (1, 1)
    } else {
        let prev = line_col(bytes, (k - 1) as nat);
        if bytes[k - 1] == 10u8 {
            (prev.0 + 1, 1)
        } else {
            (prev.0, prev.1 + 1)
        }
    }
}

/// Lines and columns start at 1 and grow by at most one per byte.
pub proof fn lemma_line_col_bounds(bytes: Seq<u8>, k: nat)
    ensures
        line_col(bytes, k).0 >= 1,
        line_col(bytes, k).1 >= 1,
        line_col(bytes, k).0 + line_col(bytes, k).1 <= k + 2,
    decreases k,
{
    if k > 0 {
        lemma_line_col_bounds(bytes, (k - 1) as nat);
    }
}

/// The line and column of the byte at `offset` in `source`, both counted
/// from 1. An offset past the end gives the position just after the text.
/// (Both numbers are kept in `usize`; they can only reach its limit for a text
/// of `usize::MAX` line feeds, where the count wraps as machine arithmetic does.)
pub fn get_line_col(source: &str, offset: usize) -> (r: (usize, usize))
    ensures
        r.0 as int == line_col(vstd::utf8::encode_utf8(source@), min_nat(offset as nat, vstd::utf8::encode_utf8(source@).len())).0 % (usize::MAX as int + 1),
        r.1 as int == line_col(vstd::utf8::encode_utf8(source@), min_nat(offset as nat, vstd::utf8::encode_utf8(source@).len())).1 % (usize::MAX as int + 1),
{
    let bytes = source.as_bytes();
    let mut line0: usize = 0;
    let mut col0: usize = 0;
    let mut i: usize = 0;
    while i < bytes.len() && i != offset
        invariant
            i <= bytes@.len(),
            i <= offset,
            bytes@ == vstd::utf8::encode_utf8(source@),
            line0 + 1 == line_col(bytes@, i as nat).0,
            col0 + 1 == line_col(bytes@, i as nat).1,
        decreases bytes@.len() - i,
    {
        proof {
            lemma_line_col_bounds(bytes@, i as nat);
        }
        if bytes[i] == 10u8 {
            line0 = line0 + 1;
            col0 = 0;
        } else {
            col0 = col0 + 1;
        }
        i = i + 1;
    }
    proof {
        lemma_line_col_bounds(bytes@, i as nat);
    }
    (one_more(line0), one_more(col0))
}

/// `n + 1` in machine arithmetic (zero after the largest value).
fn one_more(n: usize) -> (r: usize)
    ensures
        r as int == (n + 1) % (usize::MAX as int + 1),
{
    if n < usize::MAX {
        proof {
            vstd::arithmetic::div_mod::lemma_small_mod((n + 1) as nat, (usize::MAX as int + 1) as nat);
        }
        n + 1
    } else {
        proof {
            vstd::arithmetic::div_mod::lemma_mod_self_0(usize::MAX as int + 1);
        }
        0
    }
}

/// The line and column of the byte at `offset` in `input`, both counted
/// from 1; an offset at or past the end of the input gives line 1, column 1.
pub fn get_line_col_in_input(input: &str, offset: usize) -> (r: (usize, usize))
    ensures
        offset >= vstd::utf8::encode_utf8(input@).len() ==> r == (1usize, 1usize),
        offset < vstd::utf8::encode_utf8(input@).len() ==> r.0 == line_col(vstd::utf8::encode_utf8(input@), offset as nat).0
            && r.1 == line_col(vstd::utf8::encode_utf8(input@), offset as nat).1,
{
    let bytes = input.as_bytes();
    if offset >= bytes.len() {
        return (1, 1);
    }
    let ghost lc = line_col(bytes@, offset as nat);
    proof {
        lemma_line_col_bounds(bytes@, offset as nat);
        vstd::arithmetic::div_mod::lemma_small_mod(lc.0 as nat, (usize::MAX as int + 1) as nat);
        vstd::arithmetic::div_mod::lemma_small_mod(lc.1 as nat, (usize::MAX as int + 1) as nat);
    }
    get_line_col(input, offset)
}

/// The smaller of two natural numbers.
pub open spec fn min_nat(a: nat, b: nat) -> nat {
    if a <= b {
        a
    } else {
        b
    }
}

} // verus!
