//! Reading a program: source text to statements, or the message that says
//! where and why the text is no program.
use vstd::prelude::*;
use vstd::string::StrSliceExecFns;
use vstd::utf8::{decode_utf8, encode_utf8};

use crate::ast::{stmts_view, SStmt, Stmt};
use crate::lexer::{lex, tokenize_from, LexError, SToken, Token};
use crate::parser::{p_program, parse_tokens, SyntaxError, Want};
use crate::text::{decimal, get_line_col_in_input, line_col, push_char, push_count};

verus! {

/// The line and column reported for a byte offset of the input: those of
/// the byte, or line 1, column 1 at or past the end of the input.
pub open spec fn position(b: Seq<u8>, off: int) -> (int, int) {
    if off >= b.len() {
        (1, 1)
    } else {
        line_col(b, off as nat)
    }
}

/// `line:column ` for a byte offset, as messages begin.
pub open spec fn at_text(b: Seq<u8>, off: int) -> Seq<char> {
    decimal(position(b, off).0) + seq![':'] + decimal(position(b, off).1) + seq![' ']
}

/// How a message names what was wanted: a list of the wanted tokens, each
/// written quoted.
pub open spec fn want_text(w: Want) -> Seq<char> {
    match w {
        Want::Expr => "[\"表达式\"]"@,
        Want::Semi => "[\"\\\";\\\"\"]"@,
        Want::LParen => "[\"\\\"(\\\"\"]"@,
        Want::RParen => "[\"\\\")\\\"\"]"@,
        Want::RBracket => "[\"\\\"]\\\"\"]"@,
        Want::LBrace => "[\"\\\"{\\\"\"]"@,
        Want::RBrace => "[\"\\\"}\\\"\"]"@,
        Want::Then => "[\"\\\"then\\\"\"]"@,
        Want::Do => "[\"\\\"do\\\"\"]"@,
        Want::To => "[\"\\\"to\\\"\"]"@,
        Want::ColonEq => "[\"\\\":=\\\"\"]"@,
        Want::Arrow => "[\"\\\"->\\\"\"]"@,
        Want::Ident => "[\"标识符\"]"@,
        Want::Type => "[\"类型\"]"@,
        Want::CommaOrRParen => "[\"\\\",\\\"\", \"\\\")\\\"\"]"@,
        Want::CommaOrRBracket => "[\"\\\",\\\"\", \"\\\"]\\\"\"]"@,
    }
}

/// The message for a text that has no tokens.
pub open spec fn lex_message(src: Seq<char>, e: LexError) -> Seq<char> {
    let b = encode_utf8(src);
    match e {
        LexError::InvalidChar(k) => at_text(b, k as int) + "无效字符: '"@ + seq![
            decode_utf8(b.subrange(k as int, b.len() as int))[0],
        ] + "'"@,
        LexError::NumberTooLarge(s, t) => at_text(b, s as int) + "整数超出范围: '"@ + decode_utf8(
            b.subrange(s as int, t as int),
        ) + "'"@,
    }
}

/// The message for tokens that are no program.
pub open spec fn syntax_message(src: Seq<char>, t: Seq<SToken>, e: SyntaxError) -> Seq<char> {
    let b = encode_utf8(src);
    match e {
        SyntaxError::Expected(k, w) => if k < t.len() {
            at_text(b, t[k as int].start) + "未识别的 token '"@ + t[k as int].text + "', 期望: "@
                + want_text(w)
        } else {
            at_text(b, b.len() as int) + "未预期的文件结束, 期望: "@ + want_text(w)
        },
        SyntaxError::FloatLiteral(k) => if k < t.len() {
            at_text(b, t[k as int].start) + "不支持浮点数: '"@ + t[k as int].text + "'"@
        } else {
            at_text(b, b.len() as int) + "不支持浮点数"@
        },
    }
}

/// The statements of a source text from the byte offset `start` on, or the
/// message that says why there are none; positions count over the whole
/// text.
pub open spec fn parse_outcome_from(src: Seq<char>, start: int) -> Result<Seq<SStmt>, Seq<char>> {
    match lex(encode_utf8(src), start) {
        Err(e) => Err(lex_message(src, e)),
        Ok(t) => match p_program(t, 0, Seq::empty()) {
            Ok(s) => Ok(s),
            Err(e) => Err(syntax_message(src, t, e)),
        },
    }
}

/// The statements of a source text, or the message that says why it has
/// none.
pub open spec fn parse_outcome(src: Seq<char>) -> Result<Seq<SStmt>, Seq<char>> {
    parse_outcome_from(src, 0)
}

/// Appends `line:column ` for a byte offset of `input`.
fn push_position(out: &mut String, input: &str, off: usize)
    ensures
        final(out)@ == old(out)@ + at_text(encode_utf8(input@), off as int),
{
    let (line, col) = get_line_col_in_input(input, off);
    push_count(out, line);
    push_char(out, ':');
    push_count(out, col);
    push_char(out, ' ');
    proof {
        assert(final(out)@ =~= old(out)@ + at_text(encode_utf8(input@), off as int));
    }
}

/// The text that wanting `w` is named by.
fn want_str(w: Want) -> (r: &'static str)
    ensures
        r@ == want_text(w),
{
    match w {
        Want::Expr => "[\"表达式\"]",
        Want::Semi => "[\"\\\";\\\"\"]",
        Want::LParen => "[\"\\\"(\\\"\"]",
        Want::RParen => "[\"\\\")\\\"\"]",
        Want::RBracket => "[\"\\\"]\\\"\"]",
        Want::LBrace => "[\"\\\"{\\\"\"]",
        Want::RBrace => "[\"\\\"}\\\"\"]",
        Want::Then => "[\"\\\"then\\\"\"]",
        Want::Do => "[\"\\\"do\\\"\"]",
        Want::To => "[\"\\\"to\\\"\"]",
        Want::ColonEq => "[\"\\\":=\\\"\"]",
        Want::Arrow => "[\"\\\"->\\\"\"]",
        Want::Ident => "[\"标识符\"]",
        Want::Type => "[\"类型\"]",
        Want::CommaOrRParen => "[\"\\\",\\\"\", \"\\\")\\\"\"]",
        Want::CommaOrRBracket => "[\"\\\",\\\"\", \"\\\"]\\\"\"]",
    }
}

/// The message for a lexical error of `input`.
fn lex_error_message(input: &str, e: LexError) -> (m: String)
    requires
        crate::lexer::error_at_boundaries(encode_utf8(input@), e),
    ensures
        m@ == lex_message(input@, e),
{
    let ghost b = encode_utf8(input@);
    let mut out = String::new();
    proof {
        vstd::utf8::encode_utf8_valid_utf8(input@);
    }
    match e {
        LexError::InvalidChar(k) => {
            push_position(&mut out, input, k);
            out.append("无效字符: '");
            let (_, rest) = input.split_at(k);
            assert(encode_utf8(rest@) =~= b.subrange(k as int, b.len() as int));
            proof {
                vstd::utf8::encode_utf8_decode_utf8(rest@);
                if rest@.len() == 0 {
                    assert(encode_utf8(rest@).len() == 0);
                }
            }
            let c = rest.get_char(0);
            push_char(&mut out, c);
            out.append("'");
        },
        LexError::NumberTooLarge(s, t) => {
            push_position(&mut out, input, s);
            out.append("整数超出范围: '");
            let digits = crate::lexer::slice_text(input, s, t);
            out.append(digits.as_str());
            out.append("'");
        },
    }
    proof {
        assert(out@ =~= lex_message(input@, e));
    }
    out
}

/// The message for a syntax error in the tokens `t` of `input`.
fn syntax_error_message(input: &str, t: &Vec<Token>, e: SyntaxError) -> (m: String)
    ensures
        m@ == syntax_message(input@, crate::lexer::toks_view(t@), e),
{
    let ghost tv = crate::lexer::toks_view(t@);
    let mut out = String::new();
    match e {
        SyntaxError::Expected(k, w) => {
            if k < t.len() {
                assert(tv[k as int] == t@[k as int]@);
                push_position(&mut out, input, t[k].start);
                out.append("未识别的 token '");
                out.append(t[k].text.as_str());
                out.append("', 期望: ");
            } else {
                let len = input.as_bytes().len();
                push_position(&mut out, input, len);
                out.append("未预期的文件结束, 期望: ");
            }
            out.append(want_str(w));
        },
        SyntaxError::FloatLiteral(k) => {
            if k < t.len() {
                assert(tv[k as int] == t@[k as int]@);
                push_position(&mut out, input, t[k].start);
                out.append("不支持浮点数: '");
                out.append(t[k].text.as_str());
                out.append("'");
            } else {
                let len = input.as_bytes().len();
                push_position(&mut out, input, len);
                out.append("不支持浮点数");
            }
        },
    }
    proof {
        assert(out@ =~= syntax_message(input@, tv, e));
    }
    out
}

/// Parses a source text into statements; a text that is no program gives
/// the message that says where and why.
pub fn parse_input(input: &str) -> (r: Result<Vec<Stmt>, String>)
    ensures
        match r {
            Ok(v) => parse_outcome(input@) == Ok::<Seq<SStmt>, Seq<char>>(stmts_view(v@)),
            Err(m) => parse_outcome(input@) == Err::<Seq<SStmt>, Seq<char>>(m@),
        },
{
    proof {
        vstd::utf8::encode_utf8_valid_utf8(input@);
        vstd::utf8::is_char_boundary_start_end_of_seq(encode_utf8(input@));
    }
    parse_input_from(input, 0)
}

/// Parses the part of a source text from the byte offset `start` on into
/// statements, with positions (in the statements and in a message) counted
/// over the whole text.
fn parse_input_from(input: &str, start: usize) -> (r: Result<Vec<Stmt>, String>)
    requires
        start <= encode_utf8(input@).len(),
        vstd::utf8::is_char_boundary(encode_utf8(input@), start as int),
    ensures
        match r {
            Ok(v) => parse_outcome_from(input@, start as int) == Ok::<Seq<SStmt>, Seq<char>>(stmts_view(v@)),
            Err(m) => parse_outcome_from(input@, start as int) == Err::<Seq<SStmt>, Seq<char>>(m@),
        },
{
    match tokenize_from(input, start) {
        Err(e) => Err(lex_error_message(input, e)),
        Ok(toks) => match parse_tokens(&toks) {
            Ok(stmts) => Ok(stmts),
            Err(e) => Err(syntax_error_message(input, &toks, e)),
        },
    }
}

/// Every message for a text that is no program begins with a line and a
/// column, both at least 1, followed by a space.
pub proof fn law_parse_errors_carry_a_position(src: Seq<char>)
    ensures
        parse_outcome(src) matches Err(m) ==> exists|line: int, col: int|
            line >= 1 && col >= 1 && #[trigger] m.take(
                (decimal(line) + seq![':'] + decimal(col) + seq![' ']).len() as int,
            ) == decimal(line) + seq![':'] + decimal(col) + seq![' '],
{
    let b = encode_utf8(src);
    if let Err(m) = parse_outcome(src) {
        let off: int = match lex(b, 0) {
            Err(e) => match e {
                LexError::InvalidChar(k) => k as int,
                LexError::NumberTooLarge(s, _) => s as int,
            },
            Ok(t) => match p_program(t, 0, Seq::empty()) {
                Err(SyntaxError::Expected(k, _)) => if k < t.len() {
                    t[k as int].start
                } else {
                    b.len() as int
                },
                Err(SyntaxError::FloatLiteral(k)) => if k < t.len() {
                    t[k as int].start
                } else {
                    b.len() as int
                },
                Ok(_) => 0,
            },
        };
        let p = position(b, off);
        lemma_position_positive(b, off);
        let head = at_text(b, off);
        assert(m.take(head.len() as int) =~= head);
        assert(p.0 >= 1 && p.1 >= 1 && m.take(
            (decimal(p.0) + seq![':'] + decimal(p.1) + seq![' ']).len() as int,
        ) == decimal(p.0) + seq![':'] + decimal(p.1) + seq![' ']);
    }
}

proof fn lemma_position_positive(b: Seq<u8>, off: int)
    ensures
        position(b, off).0 >= 1,
        position(b, off).1 >= 1,
{
    if off < b.len() {
        crate::text::lemma_line_col_bounds(b, off as nat);
    }
}


} // verus!
