//! Where variables stand in the source: every variable of a parsed program
//! records the byte offset at which its name is written, which is what the
//! positions in error messages report.
use vstd::prelude::*;
use vstd::utf8::{decode_utf8, encode_utf8};

use crate::ast::{SExpr, SStmt};
use crate::lexer::{law_tokens_lie_in_order_over_their_text, lex, well_placed, SToken, TokKind};
use crate::parser::{
    at, bin_op, bin_rest, moved, p_bin, p_block, p_expr, p_for, p_func, p_if, p_items, p_list, p_not,
    p_operand, p_postfix, p_primary, p_program, p_stmt, p_stmts, p_unary, p_while, postfix_rest,
};
use crate::reader::parse_outcome;

verus! {

/// Whether the text `name` is written in `b` from offset `start` on.
pub open spec fn stands_at(b: Seq<u8>, name: Seq<char>, start: usize) -> bool {
    exists|end: int| start <= end <= b.len() && #[trigger] decode_utf8(b.subrange(start as int, end)) == name
}

/// Whether every variable in an expression is written in `b` where it
/// says.
pub open spec fn expr_ids_stand(b: Seq<u8>, e: SExpr) -> bool
    decreases e, 0nat,
{
    match e {
        SExpr::Id(name, start) => stands_at(b, name, start),
        SExpr::Op(_, l, r) => expr_ids_stand(b, *l) && expr_ids_stand(b, *r),
        SExpr::Not(x) => expr_ids_stand(b, *x),
        SExpr::Neg(x) => expr_ids_stand(b, *x),
        SExpr::Call(_, args) => exprs_ids_stand(b, args),
        SExpr::ArrayLit(elems) => exprs_ids_stand(b, elems),
        SExpr::Index(a, i) => expr_ids_stand(b, *a) && expr_ids_stand(b, *i),
        _ => true,
    }
}

/// Whether every variable in a sequence of expressions is written in `b`
/// where it says.
pub open spec fn exprs_ids_stand(b: Seq<u8>, s: Seq<SExpr>) -> bool
    decreases s, s.len(),
{
    if s.len() == 0 {
        true
    } else {
        exprs_ids_stand(b, s.drop_last()) && expr_ids_stand(b, s.last())
    }
}

/// Whether every variable in a statement is written in `b` where it says.
pub open spec fn stmt_ids_stand(b: Seq<u8>, s: SStmt) -> bool
    decreases s, 0nat,
{
    match s {
        SStmt::If(c, t) => expr_ids_stand(b, c) && stmts_ids_stand(b, t),
        SStmt::IfElse(c, t, e) => expr_ids_stand(b, c) && stmts_ids_stand(b, t) && stmts_ids_stand(b, e),
        SStmt::While(c, body) => expr_ids_stand(b, c) && stmts_ids_stand(b, body),
        SStmt::For(_, lo, hi, body) => expr_ids_stand(b, lo) && expr_ids_stand(b, hi) && stmts_ids_stand(
            b,
            body,
        ),
        SStmt::Assign(l, r) => expr_ids_stand(b, l) && expr_ids_stand(b, r),
        SStmt::VarDecl(_, _) => true,
        SStmt::Block(body) => stmts_ids_stand(b, body),
        SStmt::Expr(e) => expr_ids_stand(b, e),
        SStmt::Print(e) => expr_ids_stand(b, e),
        SStmt::FuncDef(_, _, _, _, body) => stmts_ids_stand(b, body),
        SStmt::Return(x) => match x {
            Some(e) => expr_ids_stand(b, e),
            None => true,
        },
    }
}

/// Whether every variable in a sequence of statements is written in `b`
/// where it says.
pub open spec fn stmts_ids_stand(b: Seq<u8>, s: Seq<SStmt>) -> bool
    decreases s, s.len(),
{
    if s.len() == 0 {
        true
    } else {
        stmts_ids_stand(b, s.drop_last()) && stmt_ids_stand(b, s.last())
    }
}

/// The tokens `t` are those of `b`: in order, each over its own text, and
/// `b` is short enough for its offsets to be machine offsets.
pub open spec fn tokens_of(b: Seq<u8>, t: Seq<SToken>) -> bool {
    well_placed(b, 0, t) && b.len() <= usize::MAX
}

proof fn lemma_exprs_push(b: Seq<u8>, s: Seq<SExpr>, e: SExpr)
    ensures
        exprs_ids_stand(b, s.push(e)) == (exprs_ids_stand(b, s) && expr_ids_stand(b, e)),
{
    assert(s.push(e).drop_last() =~= s);
}

proof fn lemma_stmts_push(b: Seq<u8>, s: Seq<SStmt>, x: SStmt)
    ensures
        stmts_ids_stand(b, s.push(x)) == (stmts_ids_stand(b, s) && stmt_ids_stand(b, x)),
{
    assert(s.push(x).drop_last() =~= s);
}

proof fn lemma_primary(b: Seq<u8>, t: Seq<SToken>, i: int)
    requires
        tokens_of(b, t),
    ensures
        p_primary(t, i) matches Ok((e, _)) ==> expr_ids_stand(b, e),
    decreases t.len() - i, 0int,
{
    if 0 <= i < t.len() {
        let tk = t[i];
        if tk.kind == TokKind::Ident {
            if at(t, i + 1, TokKind::LParen) {
                lemma_list(b, t, i + 2, TokKind::RParen);
            } else {
                assert(0 <= tk.start < tk.end <= b.len());
                assert(decode_utf8(b.subrange((tk.start as usize) as int, tk.end)) == tk.text);
            }
        } else if tk.kind == TokKind::LParen {
            lemma_expr(b, t, i + 1);
        } else if tk.kind == TokKind::LBracket {
            lemma_list(b, t, i + 1, TokKind::RBracket);
        }
    }
}

proof fn lemma_postfix_rest(b: Seq<u8>, t: Seq<SToken>, e: SExpr, j: int)
    requires
        tokens_of(b, t),
        expr_ids_stand(b, e),
    ensures
        postfix_rest(t, e, j) matches Ok((e2, _)) ==> expr_ids_stand(b, e2),
    decreases t.len() - j, 1int,
{
    if at(t, j, TokKind::LBracket) {
        lemma_expr(b, t, j + 1);
        if let Ok((ix, k)) = p_expr(t, j + 1) {
            if at(t, k, TokKind::RBracket) && moved(t, j, k) {
                lemma_postfix_rest(b, t, SExpr::Index(Box::new(e), Box::new(ix)), k + 1);
            }
        }
    }
}

proof fn lemma_postfix(b: Seq<u8>, t: Seq<SToken>, i: int)
    requires
        tokens_of(b, t),
    ensures
        p_postfix(t, i) matches Ok((e, _)) ==> expr_ids_stand(b, e),
    decreases t.len() - i, 2int,
{
    lemma_primary(b, t, i);
    if let Ok((e, j)) = p_primary(t, i) {
        if moved(t, i, j) {
            lemma_postfix_rest(b, t, e, j);
        }
    }
}

proof fn lemma_unary(b: Seq<u8>, t: Seq<SToken>, i: int)
    requires
        tokens_of(b, t),
    ensures
        p_unary(t, i) matches Ok((e, _)) ==> expr_ids_stand(b, e),
    decreases t.len() - i, 3int,
{
    if at(t, i, TokKind::Minus) {
        lemma_unary(b, t, i + 1);
    } else {
        lemma_postfix(b, t, i);
    }
}

proof fn lemma_operand(b: Seq<u8>, t: Seq<SToken>, i: int, lv: nat)
    requires
        tokens_of(b, t),
    ensures
        p_operand(t, i, lv) matches Ok((e, _)) ==> expr_ids_stand(b, e),
    decreases t.len() - i, 2 * lv + 4,
{
    if lv <= 1 {
        lemma_unary(b, t, i);
    } else if lv == 5 {
        lemma_not(b, t, i);
    } else {
        lemma_bin(b, t, i, (lv - 1) as nat);
    }
}

proof fn lemma_bin_rest(b: Seq<u8>, t: Seq<SToken>, l: SExpr, j: int, lv: nat)
    requires
        tokens_of(b, t),
        expr_ids_stand(b, l),
    ensures
        bin_rest(t, l, j, lv) matches Ok((e, _)) ==> expr_ids_stand(b, e),
    decreases t.len() - j, 2 * lv + 4,
{
    if 0 <= j < t.len() && bin_op(lv, t[j].kind) is Some {
        lemma_operand(b, t, j + 1, lv);
        if let Ok((r, k)) = p_operand(t, j + 1, lv) {
            if moved(t, j, k) {
                lemma_bin_rest(
                    b,
                    t,
                    SExpr::Op(bin_op(lv, t[j].kind)->0, Box::new(l), Box::new(r)),
                    k,
                    lv,
                );
            }
        }
    }
}

proof fn lemma_bin(b: Seq<u8>, t: Seq<SToken>, i: int, lv: nat)
    requires
        tokens_of(b, t),
    ensures
        p_bin(t, i, lv) matches Ok((e, _)) ==> expr_ids_stand(b, e),
    decreases t.len() - i, 2 * lv + 5,
{
    lemma_operand(b, t, i, lv);
    if let Ok((l, j)) = p_operand(t, i, lv) {
        if moved(t, i, j) {
            lemma_bin_rest(b, t, l, j, lv);
        }
    }
}

proof fn lemma_not(b: Seq<u8>, t: Seq<SToken>, i: int)
    requires
        tokens_of(b, t),
    ensures
        p_not(t, i) matches Ok((e, _)) ==> expr_ids_stand(b, e),
    decreases t.len() - i, 12int,
{
    if at(t, i, TokKind::KwNot) {
        lemma_not(b, t, i + 1);
    } else {
        lemma_bin(b, t, i, 3);
    }
}

proof fn lemma_expr(b: Seq<u8>, t: Seq<SToken>, i: int)
    requires
        tokens_of(b, t),
    ensures
        p_expr(t, i) matches Ok((e, _)) ==> expr_ids_stand(b, e),
    decreases t.len() - i, 18int,
{
    lemma_bin(b, t, i, 6);
}

proof fn lemma_items(b: Seq<u8>, t: Seq<SToken>, i: int, close: TokKind, acc: Seq<SExpr>)
    requires
        tokens_of(b, t),
        exprs_ids_stand(b, acc),
    ensures
        p_items(t, i, close, acc) matches Ok((es, _)) ==> exprs_ids_stand(b, es),
    decreases t.len() - i, 19int,
{
    lemma_expr(b, t, i);
    if let Ok((e, j)) = p_expr(t, i) {
        lemma_exprs_push(b, acc, e);
        if moved(t, i, j) && at(t, j, TokKind::Comma) {
            lemma_items(b, t, j + 1, close, acc.push(e));
        }
    }
}

proof fn lemma_list(b: Seq<u8>, t: Seq<SToken>, i: int, close: TokKind)
    requires
        tokens_of(b, t),
    ensures
        p_list(t, i, close) matches Ok((es, _)) ==> exprs_ids_stand(b, es),
    decreases t.len() - i, 20int,
{
    if !at(t, i, close) {
        lemma_items(b, t, i, close, Seq::empty());
    }
}

proof fn lemma_block(b: Seq<u8>, t: Seq<SToken>, i: int)
    requires
        tokens_of(b, t),
    ensures
        p_block(t, i) matches Ok((ss, _)) ==> stmts_ids_stand(b, ss),
    decreases t.len() - i, 0int,
{
    if at(t, i, TokKind::LBrace) {
        lemma_stmts(b, t, i + 1, Seq::empty());
    }
}

proof fn lemma_stmts(b: Seq<u8>, t: Seq<SToken>, i: int, acc: Seq<SStmt>)
    requires
        tokens_of(b, t),
        stmts_ids_stand(b, acc),
    ensures
        p_stmts(t, i, acc) matches Ok((ss, _)) ==> stmts_ids_stand(b, ss),
    decreases t.len() - i, 3int,
{
    if !at(t, i, TokKind::RBrace) && 0 <= i < t.len() {
        lemma_stmt(b, t, i);
        if let Ok((s, j)) = p_stmt(t, i) {
            if moved(t, i, j) {
                lemma_stmts_push(b, acc, s);
                lemma_stmts(b, t, j, acc.push(s));
            }
        }
    }
}

proof fn lemma_if(b: Seq<u8>, t: Seq<SToken>, i: int)
    requires
        tokens_of(b, t),
    ensures
        p_if(t, i) matches Ok((s, _)) ==> stmt_ids_stand(b, s),
    decreases t.len() - i, 1int,
{
    lemma_expr(b, t, i + 1);
    if let Ok((c, j)) = p_expr(t, i + 1) {
        if at(t, j, TokKind::KwThen) && moved(t, i, j) {
            lemma_block(b, t, j + 1);
            if let Ok((tb, k)) = p_block(t, j + 1) {
                if at(t, k, TokKind::KwElse) && moved(t, i, k) {
                    lemma_block(b, t, k + 1);
                }
            }
        }
    }
}

proof fn lemma_while(b: Seq<u8>, t: Seq<SToken>, i: int)
    requires
        tokens_of(b, t),
    ensures
        p_while(t, i) matches Ok((s, _)) ==> stmt_ids_stand(b, s),
    decreases t.len() - i, 1int,
{
    lemma_expr(b, t, i + 1);
    if let Ok((c, j)) = p_expr(t, i + 1) {
        if at(t, j, TokKind::KwDo) && moved(t, i, j) {
            lemma_block(b, t, j + 1);
        }
    }
}

proof fn lemma_for(b: Seq<u8>, t: Seq<SToken>, i: int)
    requires
        tokens_of(b, t),
    ensures
        p_for(t, i) matches Ok((s, _)) ==> stmt_ids_stand(b, s),
    decreases t.len() - i, 1int,
{
    lemma_expr(b, t, i + 3);
    if let Ok((lo, j)) = p_expr(t, i + 3) {
        lemma_expr(b, t, j + 1);
        if let Ok((hi, k)) = p_expr(t, j + 1) {
            if at(t, k, TokKind::KwDo) && moved(t, i, k) {
                lemma_block(b, t, k + 1);
            }
        }
    }
}

proof fn lemma_func(b: Seq<u8>, t: Seq<SToken>, i: int)
    requires
        tokens_of(b, t),
    ensures
        p_func(t, i) matches Ok((s, _)) ==> stmt_ids_stand(b, s),
    decreases t.len() - i, 1int,
{
    if let Ok((ps, j)) = crate::parser::p_param_list(t, i + 3) {
        if let Ok((rt, k)) = crate::parser::p_type(t, j + 1) {
            if moved(t, i, k) {
                lemma_block(b, t, k);
            }
        }
    }
}

proof fn lemma_stmt(b: Seq<u8>, t: Seq<SToken>, i: int)
    requires
        tokens_of(b, t),
    ensures
        p_stmt(t, i) matches Ok((s, _)) ==> stmt_ids_stand(b, s),
    decreases t.len() - i, 2int,
{
    if 0 <= i < t.len() {
        let k = t[i].kind;
        if crate::parser::base_type(k) is Some {
        } else if k == TokKind::KwIf {
            lemma_if(b, t, i);
        } else if k == TokKind::KwWhile {
            lemma_while(b, t, i);
        } else if k == TokKind::KwFor {
            lemma_for(b, t, i);
        } else if k == TokKind::KwFunc {
            lemma_func(b, t, i);
        } else if k == TokKind::KwReturn || k == TokKind::KwPrint {
            lemma_expr(b, t, i + 1);
        } else if k == TokKind::LBrace {
            lemma_block(b, t, i);
        } else {
            lemma_expr(b, t, i);
            if let Ok((e, j)) = p_expr(t, i) {
                lemma_expr(b, t, j + 1);
            }
        }
    }
}

proof fn lemma_program(b: Seq<u8>, t: Seq<SToken>, i: int, acc: Seq<SStmt>)
    requires
        tokens_of(b, t),
        stmts_ids_stand(b, acc),
    ensures
        p_program(t, i, acc) matches Ok(ss) ==> stmts_ids_stand(b, ss),
    decreases t.len() - i,
{
    if 0 <= i < t.len() {
        lemma_stmt(b, t, i);
        if let Ok((s, j)) = p_stmt(t, i) {
            if moved(t, i, j) {
                lemma_stmts_push(b, acc, s);
                lemma_program(b, t, j, acc.push(s));
            }
        }
    }
}

/// Every variable of a parsed program records the byte offset at which its
/// name is written in the source (for any source whose length is a machine
/// offset), so the line and column that an error about it reports are
/// those of the name.
pub proof fn law_variables_stand_where_recorded(src: Seq<char>)
    requires
        encode_utf8(src).len() <= usize::MAX,
    ensures
        parse_outcome(src) matches Ok(stmts) ==> stmts_ids_stand(encode_utf8(src), stmts),
{
    let b = encode_utf8(src);
    law_tokens_lie_in_order_over_their_text(b, 0);
    if let Ok(t) = lex(b, 0) {
        lemma_program(b, t, 0, Seq::empty());
    }
}

} // verus!
