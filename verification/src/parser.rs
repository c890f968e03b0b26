//! The grammar: tokens to statements.
//!
//! Expressions, from the loosest binding to the tightest:
//! `or`; `and`; prefix `not`; comparisons `= != < > <= >=`; `+ -`; `* /`;
//! prefix `-`; indexing `e[i]`; and the primaries: literals, variables,
//! calls `f(a, b)`, array literals `[a, b]` and parenthesised expressions.
//! All binary operators group to the left.
//!
//! Statements end with `;`: declarations `int a, b;`, assignments
//! `x := e;`, `if c then { .. } else { .. };`, `while c do { .. };`,
//! `for v := a to b do { .. };`, `func f(int a) -> int { .. };`,
//! `return e;`, `return;`, `print e;`, blocks `{ .. };` and expressions.
//!
//! Where a rule goes on after a part that it parsed, the grammar checks
//! that the part moved forward ([`moved`]). Every part does (the parsing
//! functions ensure it), so the check never decides a result; it is what
//! shows that the grammar's recursion ends.
use vstd::prelude::*;

use crate::ast::{
    exprs_view, names_view, param_types, params_view, stmts_view, Expr, Opcode, SExpr, SStmt, Stmt,
    Type,
};
use crate::lexer::{toks_view, SToken, TokKind, Token};

verus! {

/// What the parser looked for where it stopped.
#[derive(Debug, Clone, Copy, PartialEq, Eq, Structural)]
pub enum Want {
    Expr,
    Semi,
    LParen,
    RParen,
    RBracket,
    LBrace,
    RBrace,
    Then,
    Do,
    To,
    ColonEq,
    Arrow,
    Ident,
    Type,
    CommaOrRParen,
    CommaOrRBracket,
}

/// Why a token sequence is no program: the token at the index (or the end
/// of the input, at the index one past the last token) is not what was
/// wanted there, or a float literal stands at the index.
#[derive(Debug, Clone, Copy, PartialEq, Eq, Structural)]
pub enum SyntaxError {
    Expected(usize, Want),
    FloatLiteral(usize),
}

/// Whether the token at `i` is of kind `k`.
pub open spec fn at(t: Seq<SToken>, i: int, k: TokKind) -> bool {
    0 <= i < t.len() && t[i].kind == k
}

/// The error for wanting `w` at `i`.
pub open spec fn expected(i: int, w: Want) -> SyntaxError {
    SyntaxError::Expected(i as usize, w)
}

/// What a list closed by `close` wants after one of its items.
pub open spec fn after_item(close: TokKind) -> Want {
    if close == TokKind::RParen {
        Want::CommaOrRParen
    } else {
        Want::CommaOrRBracket
    }
}

/// The binary operator that a token of kind `k` stands for at level `lv`:
/// 1 for `* /`, 2 for `+ -`, 3 for comparisons, 5 for `and`, 6 for `or`.
pub open spec fn bin_op(lv: nat, k: TokKind) -> Option<Opcode> {
    if lv == 1 && k == TokKind::Star {
        Some(Opcode::Mul)
    } else if lv == 1 && k == TokKind::Slash {
        Some(Opcode::Div)
    } else if lv == 2 && k == TokKind::Plus {
        Some(Opcode::Add)
    } else if lv == 2 && k == TokKind::Minus {
        Some(Opcode::Sub)
    } else if lv == 3 && k == TokKind::Eq {
        Some(Opcode::Equal)
    } else if lv == 3 && k == TokKind::NotEq {
        Some(Opcode::NotEqual)
    } else if lv == 3 && k == TokKind::Less {
        Some(Opcode::LessThan)
    } else if lv == 3 && k == TokKind::Greater {
        Some(Opcode::GreaterThan)
    } else if lv == 3 && k == TokKind::LessEq {
        Some(Opcode::LessOrEqual)
    } else if lv == 3 && k == TokKind::GreaterEq {
        Some(Opcode::GreaterOrEqual)
    } else if lv == 5 && k == TokKind::KwAnd {
        Some(Opcode::And)
    } else if lv == 6 && k == TokKind::KwOr {
        Some(Opcode::Or)
    } else {
        None
    }
}

/// A primary expression at `i`, and where it ends.
pub open spec fn p_primary(t: Seq<SToken>, i: int) -> Result<(SExpr, int), SyntaxError>
    decreases t.len() - i, 0int,
{
    if !(0 <= i < t.len()) {
        Err(expected(i, Want::Expr))
    } else {
        let tk = t[i];
        match tk.kind {
            TokKind::Num => Ok((SExpr::Num(tk.value), i + 1)),
            TokKind::Float => Err(SyntaxError::FloatLiteral(i as usize)),
            TokKind::Str => Ok((SExpr::Str(tk.content), i + 1)),
            TokKind::KwTrue => Ok((SExpr::BoolLit(true), i + 1)),
            TokKind::KwFalse => Ok((SExpr::BoolLit(false), i + 1)),
            TokKind::Ident => if at(t, i + 1, TokKind::LParen) {
                match p_list(t, i + 2, TokKind::RParen) {
                    Ok((args, j)) => Ok((SExpr::Call(tk.text, args), j)),
                    Err(e) => Err(e),
                }
            } else {
                Ok((SExpr::Id(tk.text, tk.start as usize), i + 1))
            },
            TokKind::LParen => match p_expr(t, i + 1) {
                Ok((e, j)) => if at(t, j, TokKind::RParen) {
                    Ok((e, j + 1))
                } else {
                    Err(expected(j, Want::RParen))
                },
                Err(e) => Err(e),
            },
            TokKind::LBracket => match p_list(t, i + 1, TokKind::RBracket) {
                Ok((es, j)) => Ok((SExpr::ArrayLit(es), j)),
                Err(e) => Err(e),
            },
            _ => Err(expected(i, Want::Expr)),
        }
    }
}

/// Indexing after the expression `e` that ends at `j`.
pub open spec fn postfix_rest(t: Seq<SToken>, e: SExpr, j: int) -> Result<(SExpr, int), SyntaxError>
    decreases t.len() - j, 1int,
{
    if at(t, j, TokKind::LBracket) {
        match p_expr(t, j + 1) {
            Ok((ix, k)) => if !at(t, k, TokKind::RBracket) {
                Err(expected(k, Want::RBracket))
            } else if !moved(t, j, k) {
                Err(expected(j + 1, Want::Expr))
            } else {
                postfix_rest(t, SExpr::Index(Box::new(e), Box::new(ix)), k + 1)
            },
            Err(x) => Err(x),
        }
    } else {
        Ok((e, j))
    }
}

/// A primary expression with any indexing after it.
pub open spec fn p_postfix(t: Seq<SToken>, i: int) -> Result<(SExpr, int), SyntaxError>
    decreases t.len() - i, 2int,
{
    match p_primary(t, i) {
        Ok((e, j)) => if moved(t, i, j) {
            postfix_rest(t, e, j)
        } else {
            Err(expected(i, Want::Expr))
        },
        Err(x) => Err(x),
    }
}

/// Prefix `-`.
pub open spec fn p_unary(t: Seq<SToken>, i: int) -> Result<(SExpr, int), SyntaxError>
    decreases t.len() - i, 3int,
{
    if at(t, i, TokKind::Minus) {
        match p_unary(t, i + 1) {
            Ok((e, j)) => Ok((SExpr::Neg(Box::new(e)), j)),
            Err(x) => Err(x),
        }
    } else {
        p_postfix(t, i)
    }
}

/// An operand of the binary operators of level `lv`.
pub open spec fn p_operand(t: Seq<SToken>, i: int, lv: nat) -> Result<(SExpr, int), SyntaxError>
    decreases t.len() - i, 2 * lv + 4,
{
    if lv <= 1 {
        p_unary(t, i)
    } else if lv == 5 {
        p_not(t, i)
    } else {
        p_bin(t, i, (lv - 1) as nat)
    }
}

/// The operators of level `lv` and their right operands after `l`, which
/// ends at `j`.
pub open spec fn bin_rest(t: Seq<SToken>, l: SExpr, j: int, lv: nat) -> Result<(SExpr, int), SyntaxError>
    decreases t.len() - j, 2 * lv + 4,
{
    if 0 <= j < t.len() && bin_op(lv, t[j].kind) is Some {
        match p_operand(t, j + 1, lv) {
            Ok((r, k)) => if moved(t, j, k) {
                bin_rest(t, SExpr::Op(bin_op(lv, t[j].kind)->0, Box::new(l), Box::new(r)), k, lv)
            } else {
                Err(expected(j + 1, Want::Expr))
            },
            Err(x) => Err(x),
        }
    } else {
        Ok((l, j))
    }
}

/// An expression whose loosest operators are those of level `lv`.
pub open spec fn p_bin(t: Seq<SToken>, i: int, lv: nat) -> Result<(SExpr, int), SyntaxError>
    decreases t.len() - i, 2 * lv + 5,
{
    match p_operand(t, i, lv) {
        Ok((l, j)) => if moved(t, i, j) {
            bin_rest(t, l, j, lv)
        } else {
            Err(expected(i, Want::Expr))
        },
        Err(x) => Err(x),
    }
}

/// Prefix `not`.
pub open spec fn p_not(t: Seq<SToken>, i: int) -> Result<(SExpr, int), SyntaxError>
    decreases t.len() - i, 12int,
{
    if at(t, i, TokKind::KwNot) {
        match p_not(t, i + 1) {
            Ok((e, j)) => Ok((SExpr::Not(Box::new(e)), j)),
            Err(x) => Err(x),
        }
    } else {
        p_bin(t, i, 3)
    }
}

/// An expression at `i`, and where it ends.
pub open spec fn p_expr(t: Seq<SToken>, i: int) -> Result<(SExpr, int), SyntaxError>
    decreases t.len() - i, 18int,
{
    p_bin(t, i, 6)
}

/// The items of a list after `acc`, from `i` to the token `close`.
pub open spec fn p_items(t: Seq<SToken>, i: int, close: TokKind, acc: Seq<SExpr>) -> Result<
    (Seq<SExpr>, int),
    SyntaxError,
>
    decreases t.len() - i, 19int,
{
    match p_expr(t, i) {
        Ok((e, j)) => if !moved(t, i, j) {
            Err(expected(i, Want::Expr))
        } else if at(t, j, TokKind::Comma) {
            p_items(t, j + 1, close, acc.push(e))
        } else if at(t, j, close) {
            Ok((acc.push(e), j + 1))
        } else {
            Err(expected(j, after_item(close)))
        },
        Err(x) => Err(x),
    }
}

/// A list of expressions separated by `,` and closed by `close`, which
/// may be empty.
pub open spec fn p_list(t: Seq<SToken>, i: int, close: TokKind) -> Result<(Seq<SExpr>, int), SyntaxError>
    decreases t.len() - i, 20int,
{
    if at(t, i, close) {
        Ok((Seq::empty(), i + 1))
    } else {
        p_items(t, i, close, Seq::empty())
    }
}

/// The model of a parsed expression and where it ends.
pub open spec fn expr_res(r: Result<(Expr, usize), SyntaxError>) -> Result<(SExpr, int), SyntaxError> {
    match r {
        Ok((e, j)) => Ok((e.sview(), j as int)),
        Err(x) => Err(x),
    }
}

/// The models of parsed expressions and where they end.
pub open spec fn exprs_res(r: Result<(Vec<Expr>, usize), SyntaxError>) -> Result<
    (Seq<SExpr>, int),
    SyntaxError,
> {
    match r {
        Ok((v, j)) => Ok((exprs_view(v@), j as int)),
        Err(x) => Err(x),
    }
}

/// A successful parse from `i` ends after `i`, within the tokens.
pub open spec fn advances<A>(r: Result<(A, usize), SyntaxError>, i: int, n: int) -> bool {
    r matches Ok((_, j)) ==> i < j <= n
}

/// Whether the token at `i` is of kind `k`.
fn is_at(t: &Vec<Token>, i: usize, k: TokKind) -> (r: bool)
    ensures
        r == at(toks_view(t@), i as int, k),
        t@.len() <= usize::MAX,
{
    i < t.len() && t[i].kind == k
}

/// The operator of level `lv` at `j`, if any.
fn bin_op_at(t: &Vec<Token>, j: usize, lv: u8) -> (r: Option<Opcode>)
    ensures
        r == (if j < t@.len() {
            bin_op(lv as nat, toks_view(t@)[j as int].kind)
        } else {
            None
        }),
        t@.len() <= usize::MAX,
{
    if j >= t.len() {
        return None;
    }
    let k = t[j].kind;
    if lv == 1 && k == TokKind::Star {
        Some(Opcode::Mul)
    } else if lv == 1 && k == TokKind::Slash {
        Some(Opcode::Div)
    } else if lv == 2 && k == TokKind::Plus {
        Some(Opcode::Add)
    } else if lv == 2 && k == TokKind::Minus {
        Some(Opcode::Sub)
    } else if lv == 3 && k == TokKind::Eq {
        Some(Opcode::Equal)
    } else if lv == 3 && k == TokKind::NotEq {
        Some(Opcode::NotEqual)
    } else if lv == 3 && k == TokKind::Less {
        Some(Opcode::LessThan)
    } else if lv == 3 && k == TokKind::Greater {
        Some(Opcode::GreaterThan)
    } else if lv == 3 && k == TokKind::LessEq {
        Some(Opcode::LessOrEqual)
    } else if lv == 3 && k == TokKind::GreaterEq {
        Some(Opcode::GreaterOrEqual)
    } else if lv == 5 && k == TokKind::KwAnd {
        Some(Opcode::And)
    } else if lv == 6 && k == TokKind::KwOr {
        Some(Opcode::Or)
    } else {
        None
    }
}

/// Parses a primary expression at `i`.
fn parse_primary(t: &Vec<Token>, i: usize) -> (r: Result<(Expr, usize), SyntaxError>)
    requires
        i <= t@.len(),
    ensures
        expr_res(r) == p_primary(toks_view(t@), i as int),
        advances(r, i as int, t@.len() as int),
    decreases t@.len() - i, 0int,
{
    let ghost tv = toks_view(t@);
    if i >= t.len() {
        return Err(SyntaxError::Expected(i, Want::Expr));
    }
    let tk = &t[i];
    assert(tv[i as int] == tk@);
    match tk.kind {
        TokKind::Num => Ok((Expr::Num(tk.value, tk.start, tk.end), i + 1)),
        TokKind::Float => Err(SyntaxError::FloatLiteral(i)),
        TokKind::Str => Ok((Expr::StringLit(tk.content.clone(), tk.start, tk.end), i + 1)),
        TokKind::KwTrue => Ok((Expr::BoolLit(true, tk.start, tk.end), i + 1)),
        TokKind::KwFalse => Ok((Expr::BoolLit(false, tk.start, tk.end), i + 1)),
        TokKind::Ident => {
            if is_at(t, i + 1, TokKind::LParen) {
                match parse_list(t, i + 2, TokKind::RParen) {
                    Ok((args, j)) => Ok((Expr::Call(tk.text.clone(), args, tk.start, t[j - 1].end), j)),
                    Err(e) => Err(e),
                }
            } else {
                Ok((Expr::Id(tk.text.clone(), tk.start, tk.end), i + 1))
            }
        },
        TokKind::LParen => match parse_expr(t, i + 1) {
            Ok((e, j)) => {
                if is_at(t, j, TokKind::RParen) {
                    Ok((e, j + 1))
                } else {
                    Err(SyntaxError::Expected(j, Want::RParen))
                }
            },
            Err(e) => Err(e),
        },
        TokKind::LBracket => match parse_list(t, i + 1, TokKind::RBracket) {
            Ok((es, j)) => Ok((Expr::ArrayLit(es, tk.start, t[j - 1].end), j)),
            Err(e) => Err(e),
        },
        _ => Err(SyntaxError::Expected(i, Want::Expr)),
    }
}

/// Parses a primary expression with any indexing after it.
fn parse_postfix(t: &Vec<Token>, i: usize) -> (r: Result<(Expr, usize), SyntaxError>)
    requires
        i <= t@.len(),
    ensures
        expr_res(r) == p_postfix(toks_view(t@), i as int),
        advances(r, i as int, t@.len() as int),
    decreases t@.len() - i, 2int,
{
    let ghost tv = toks_view(t@);
    let (mut e, mut j) = match parse_primary(t, i) {
        Ok(x) => x,
        Err(x) => {
            return Err(x);
        },
    };
    while is_at(t, j, TokKind::LBracket)
        invariant
            tv == toks_view(t@),
            i < j <= t@.len(),
            p_postfix(tv, i as int) == postfix_rest(tv, e.sview(), j as int),
        decreases t@.len() - j,
    {
        match parse_expr(t, j + 1) {
            Ok((ix, k)) => {
                if !is_at(t, k, TokKind::RBracket) {
                    return Err(SyntaxError::Expected(k, Want::RBracket));
                }
                let end = t[k].end;
                e = Expr::Index(Box::new(e), Box::new(ix), t[i].start, end);
                j = k + 1;
            },
            Err(x) => {
                return Err(x);
            },
        }
    }
    Ok((e, j))
}

/// Parses an expression with any prefix `-`.
fn parse_unary(t: &Vec<Token>, i: usize) -> (r: Result<(Expr, usize), SyntaxError>)
    requires
        i <= t@.len(),
    ensures
        expr_res(r) == p_unary(toks_view(t@), i as int),
        advances(r, i as int, t@.len() as int),
    decreases t@.len() - i, 3int,
{
    if is_at(t, i, TokKind::Minus) {
        match parse_unary(t, i + 1) {
            Ok((e, j)) => Ok((Expr::Neg(Box::new(e), t[i].start, t[j - 1].end), j)),
            Err(x) => Err(x),
        }
    } else {
        parse_postfix(t, i)
    }
}

/// Parses an operand of the binary operators of level `lv`.
fn parse_operand(t: &Vec<Token>, i: usize, lv: u8) -> (r: Result<(Expr, usize), SyntaxError>)
    requires
        i <= t@.len(),
        lv <= 6,
    ensures
        expr_res(r) == p_operand(toks_view(t@), i as int, lv as nat),
        advances(r, i as int, t@.len() as int),
    decreases t@.len() - i, 2 * lv + 4,
{
    if lv <= 1 {
        parse_unary(t, i)
    } else if lv == 5 {
        parse_not(t, i)
    } else {
        parse_bin(t, i, lv - 1)
    }
}

/// Parses an expression whose loosest operators are those of level `lv`.
fn parse_bin(t: &Vec<Token>, i: usize, lv: u8) -> (r: Result<(Expr, usize), SyntaxError>)
    requires
        i <= t@.len(),
        lv <= 6,
    ensures
        expr_res(r) == p_bin(toks_view(t@), i as int, lv as nat),
        advances(r, i as int, t@.len() as int),
    decreases t@.len() - i, 2 * lv + 5,
{
    let ghost tv = toks_view(t@);
    let (mut l, mut j) = match parse_operand(t, i, lv) {
        Ok(x) => x,
        Err(x) => {
            return Err(x);
        },
    };
    loop
        invariant
            tv == toks_view(t@),
            lv <= 6,
            i < j <= t@.len(),
            p_bin(tv, i as int, lv as nat) == bin_rest(tv, l.sview(), j as int, lv as nat),
        decreases t@.len() - j,
    {
        match bin_op_at(t, j, lv) {
            None => {
                return Ok((l, j));
            },
            Some(op) => {
                match parse_operand(t, j + 1, lv) {
                    Ok((r, k)) => {
                        l = Expr::Op(op, Box::new(l), Box::new(r));
                        j = k;
                    },
                    Err(x) => {
                        return Err(x);
                    },
                }
            },
        }
    }
}

/// Parses an expression with any prefix `not`.
fn parse_not(t: &Vec<Token>, i: usize) -> (r: Result<(Expr, usize), SyntaxError>)
    requires
        i <= t@.len(),
    ensures
        expr_res(r) == p_not(toks_view(t@), i as int),
        advances(r, i as int, t@.len() as int),
    decreases t@.len() - i, 12int,
{
    if is_at(t, i, TokKind::KwNot) {
        match parse_not(t, i + 1) {
            Ok((e, j)) => Ok((Expr::Not(Box::new(e)), j)),
            Err(x) => Err(x),
        }
    } else {
        parse_bin(t, i, 3)
    }
}

/// Parses an expression at `i`.
fn parse_expr(t: &Vec<Token>, i: usize) -> (r: Result<(Expr, usize), SyntaxError>)
    requires
        i <= t@.len(),
    ensures
        expr_res(r) == p_expr(toks_view(t@), i as int),
        advances(r, i as int, t@.len() as int),
    decreases t@.len() - i, 18int,
{
    parse_bin(t, i, 6)
}

proof fn lemma_exprs_view_push(s: Seq<Expr>, e: Expr)
    ensures
        exprs_view(s.push(e)) == exprs_view(s).push(e.sview()),
{
    assert(s.push(e).drop_last() =~= s);
}

/// Parses a list of expressions separated by `,` and closed by `close`.
fn parse_list(t: &Vec<Token>, i: usize, close: TokKind) -> (r: Result<(Vec<Expr>, usize), SyntaxError>)
    requires
        i <= t@.len(),
    ensures
        exprs_res(r) == p_list(toks_view(t@), i as int, close),
        advances(r, i as int, t@.len() as int),
    decreases t@.len() - i, 20int,
{
    let ghost tv = toks_view(t@);
    let mut acc: Vec<Expr> = Vec::new();
    if is_at(t, i, close) {
        proof {
            assert(exprs_view(acc@) =~= Seq::<SExpr>::empty());
        }
        return Ok((acc, i + 1));
    }
    proof {
        assert(exprs_view(acc@) =~= Seq::<SExpr>::empty());
    }
    let mut j = i;
    loop
        invariant
            tv == toks_view(t@),
            i <= j <= t@.len(),
            p_list(tv, i as int, close) == p_items(tv, j as int, close, exprs_view(acc@)),
        decreases t@.len() - j,
    {
        match parse_expr(t, j) {
            Ok((e, k)) => {
                proof {
                    lemma_exprs_view_push(acc@, e);
                }
                acc.push(e);
                if is_at(t, k, TokKind::Comma) {
                    j = k + 1;
                } else if is_at(t, k, close) {
                    return Ok((acc, k + 1));
                } else {
                    return Err(
                        SyntaxError::Expected(
                            k,
                            if close == TokKind::RParen {
                                Want::CommaOrRParen
                            } else {
                                Want::CommaOrRBracket
                            },
                        ),
                    );
                }
            },
            Err(x) => {
                return Err(x);
            },
        }
    }
}

/// The type named by a keyword.
pub open spec fn base_type(k: TokKind) -> Option<Type> {
    if k == TokKind::KwInt {
        Some(Type::Int)
    } else if k == TokKind::KwFloat {
        Some(Type::Float)
    } else if k == TokKind::KwBool {
        Some(Type::Bool)
    } else if k == TokKind::KwString {
        Some(Type::String)
    } else {
        None
    }
}

/// Array suffixes `[]` after the type `ty`, which ends at `j`.
pub open spec fn type_rest(t: Seq<SToken>, ty: Type, j: int) -> (Type, int)
    decreases t.len() - j,
{
    if at(t, j, TokKind::LBracket) && at(t, j + 1, TokKind::RBracket) {
        type_rest(t, Type::Array(Box::new(ty)), j + 2)
    } else {
        (ty, j)
    }
}

/// Array suffixes stay within the tokens.
pub proof fn lemma_type_rest(t: Seq<SToken>, ty: Type, j: int)
    requires
        0 <= j <= t.len(),
    ensures
        j <= type_rest(t, ty, j).1 <= t.len(),
    decreases t.len() - j,
{
    if at(t, j, TokKind::LBracket) && at(t, j + 1, TokKind::RBracket) {
        lemma_type_rest(t, Type::Array(Box::new(ty)), j + 2);
    }
}

/// A type at `i`: a type keyword and any number of `[]`.
pub open spec fn p_type(t: Seq<SToken>, i: int) -> Result<(Type, int), SyntaxError> {
    if 0 <= i < t.len() && base_type(t[i].kind) is Some {
        Ok(type_rest(t, base_type(t[i].kind)->0, i + 1))
    } else {
        Err(expected(i, Want::Type))
    }
}

/// Identifiers separated by `,`, after `acc`.
pub open spec fn p_names(t: Seq<SToken>, i: int, acc: Seq<Seq<char>>) -> Result<(Seq<Seq<char>>, int), SyntaxError>
    decreases t.len() - i,
{
    if !at(t, i, TokKind::Ident) {
        Err(expected(i, Want::Ident))
    } else if at(t, i + 1, TokKind::Comma) {
        p_names(t, i + 2, acc.push(t[i].text))
    } else {
        Ok((acc.push(t[i].text), i + 1))
    }
}

/// Parameters `type name` separated by `,` up to `)`, after those with
/// the names `names` and types `types`.
pub open spec fn p_params(t: Seq<SToken>, i: int, names: Seq<Seq<char>>, types: Seq<Type>) -> Result<
    ((Seq<Seq<char>>, Seq<Type>), int),
    SyntaxError,
>
    decreases t.len() - i,
{
    match p_type(t, i) {
        Ok((ty, j)) => {
            proof {
                lemma_type_rest(t, base_type(t[i].kind)->0, i + 1);
            }
            if !at(t, j, TokKind::Ident) {
                Err(expected(j, Want::Ident))
            } else if at(t, j + 1, TokKind::Comma) {
                p_params(t, j + 2, names.push(t[j].text), types.push(ty))
            } else if at(t, j + 1, TokKind::RParen) {
                Ok(((names.push(t[j].text), types.push(ty)), j + 2))
            } else {
                Err(expected(j + 1, Want::CommaOrRParen))
            }
        },
        Err(x) => Err(x),
    }
}

/// A parameter list after `(`, up to and including `)`.
pub open spec fn p_param_list(t: Seq<SToken>, i: int) -> Result<((Seq<Seq<char>>, Seq<Type>), int), SyntaxError> {
    if at(t, i, TokKind::RParen) {
        Ok(((Seq::empty(), Seq::empty()), i + 1))
    } else {
        p_params(t, i, Seq::empty(), Seq::empty())
    }
}

/// Whether a parse from `i` that ended at `j` moved forward.
pub open spec fn moved(t: Seq<SToken>, i: int, j: int) -> bool {
    i < j <= t.len()
}

/// The statement `s` followed by `;` at `j`.
pub open spec fn expect_semi(t: Seq<SToken>, j: int, s: SStmt) -> Result<(SStmt, int), SyntaxError> {
    if at(t, j, TokKind::Semi) {
        Ok((s, j + 1))
    } else {
        Err(expected(j, Want::Semi))
    }
}

/// A declaration `type a, b;` at `i`.
pub open spec fn p_decl(t: Seq<SToken>, i: int) -> Result<(SStmt, int), SyntaxError> {
    match p_type(t, i) {
        Ok((ty, j)) => match p_names(t, j, Seq::empty()) {
            Ok((names, k)) => expect_semi(t, k, SStmt::VarDecl(names, ty)),
            Err(x) => Err(x),
        },
        Err(x) => Err(x),
    }
}

/// `return;` or `return e;` at `i`.
pub open spec fn p_return(t: Seq<SToken>, i: int) -> Result<(SStmt, int), SyntaxError> {
    if at(t, i + 1, TokKind::Semi) {
        Ok((SStmt::Return(None), i + 2))
    } else {
        match p_expr(t, i + 1) {
            Ok((e, j)) => expect_semi(t, j, SStmt::Return(Some(e))),
            Err(x) => Err(x),
        }
    }
}

/// `print e;` at `i`.
pub open spec fn p_print(t: Seq<SToken>, i: int) -> Result<(SStmt, int), SyntaxError> {
    match p_expr(t, i + 1) {
        Ok((e, j)) => expect_semi(t, j, SStmt::Print(e)),
        Err(x) => Err(x),
    }
}

/// An assignment `target := e;` or an expression statement `e;` at `i`.
pub open spec fn p_simple(t: Seq<SToken>, i: int) -> Result<(SStmt, int), SyntaxError> {
    match p_expr(t, i) {
        Ok((e, j)) => if at(t, j, TokKind::ColonEq) {
            match p_expr(t, j + 1) {
                Ok((r, k)) => expect_semi(t, k, SStmt::Assign(e, r)),
                Err(x) => Err(x),
            }
        } else {
            expect_semi(t, j, SStmt::Expr(e))
        },
        Err(x) => Err(x),
    }
}

/// A block `{ statements }` at `i`, and where it ends.
pub open spec fn p_block(t: Seq<SToken>, i: int) -> Result<(Seq<SStmt>, int), SyntaxError>
    decreases t.len() - i, 0int,
{
    if at(t, i, TokKind::LBrace) {
        p_stmts(t, i + 1, Seq::empty())
    } else {
        Err(expected(i, Want::LBrace))
    }
}

/// The statements of a block after `acc`, up to and including `}`.
pub open spec fn p_stmts(t: Seq<SToken>, i: int, acc: Seq<SStmt>) -> Result<(Seq<SStmt>, int), SyntaxError>
    decreases t.len() - i, 3int,
{
    if at(t, i, TokKind::RBrace) {
        Ok((acc, i + 1))
    } else if !(0 <= i < t.len()) {
        Err(expected(i, Want::RBrace))
    } else {
        match p_stmt(t, i) {
            Ok((s, j)) => if moved(t, i, j) {
                p_stmts(t, j, acc.push(s))
            } else {
                Err(expected(i, Want::Expr))
            },
            Err(x) => Err(x),
        }
    }
}

/// `if c then { .. };` or `if c then { .. } else { .. };` at `i`.
pub open spec fn p_if(t: Seq<SToken>, i: int) -> Result<(SStmt, int), SyntaxError>
    decreases t.len() - i, 1int,
{
    match p_expr(t, i + 1) {
        Ok((c, j)) => if !at(t, j, TokKind::KwThen) {
            Err(expected(j, Want::Then))
        } else if !moved(t, i, j) {
            Err(expected(i + 1, Want::Expr))
        } else {
            match p_block(t, j + 1) {
                Ok((tb, k)) => if !at(t, k, TokKind::KwElse) {
                    expect_semi(t, k, SStmt::If(c, tb))
                } else if !moved(t, i, k) {
                    Err(expected(k, Want::Semi))
                } else {
                    match p_block(t, k + 1) {
                        Ok((eb, m)) => expect_semi(t, m, SStmt::IfElse(c, tb, eb)),
                        Err(x) => Err(x),
                    }
                },
                Err(x) => Err(x),
            }
        },
        Err(x) => Err(x),
    }
}

/// `while c do { .. };` at `i`.
pub open spec fn p_while(t: Seq<SToken>, i: int) -> Result<(SStmt, int), SyntaxError>
    decreases t.len() - i, 1int,
{
    match p_expr(t, i + 1) {
        Ok((c, j)) => if !at(t, j, TokKind::KwDo) {
            Err(expected(j, Want::Do))
        } else if !moved(t, i, j) {
            Err(expected(i + 1, Want::Expr))
        } else {
            match p_block(t, j + 1) {
                Ok((b, k)) => expect_semi(t, k, SStmt::While(c, b)),
                Err(x) => Err(x),
            }
        },
        Err(x) => Err(x),
    }
}

/// `for v := a to b do { .. };` at `i`.
pub open spec fn p_for(t: Seq<SToken>, i: int) -> Result<(SStmt, int), SyntaxError>
    decreases t.len() - i, 1int,
{
    if !at(t, i + 1, TokKind::Ident) {
        Err(expected(i + 1, Want::Ident))
    } else if !at(t, i + 2, TokKind::ColonEq) {
        Err(expected(i + 2, Want::ColonEq))
    } else {
        match p_expr(t, i + 3) {
            Ok((a, j)) => if !at(t, j, TokKind::KwTo) {
                Err(expected(j, Want::To))
            } else {
                match p_expr(t, j + 1) {
                    Ok((b, k)) => if !at(t, k, TokKind::KwDo) {
                        Err(expected(k, Want::Do))
                    } else if !moved(t, i, k) {
                        Err(expected(i + 3, Want::Expr))
                    } else {
                        match p_block(t, k + 1) {
                            Ok((body, m)) => expect_semi(t, m, SStmt::For(t[i + 1].text, a, b, body)),
                            Err(x) => Err(x),
                        }
                    },
                    Err(x) => Err(x),
                }
            },
            Err(x) => Err(x),
        }
    }
}

/// `func f(params) -> type { .. };` at `i`.
pub open spec fn p_func(t: Seq<SToken>, i: int) -> Result<(SStmt, int), SyntaxError>
    decreases t.len() - i, 1int,
{
    if !at(t, i + 1, TokKind::Ident) {
        Err(expected(i + 1, Want::Ident))
    } else if !at(t, i + 2, TokKind::LParen) {
        Err(expected(i + 2, Want::LParen))
    } else {
        match p_param_list(t, i + 3) {
            Ok((ps, j)) => if !at(t, j, TokKind::Arrow) {
                Err(expected(j, Want::Arrow))
            } else {
                match p_type(t, j + 1) {
                    Ok((rt, k)) => if !moved(t, i, k) {
                        Err(expected(j + 1, Want::Type))
                    } else {
                        match p_block(t, k) {
                            Ok((body, m)) => expect_semi(
                                t,
                                m,
                                SStmt::FuncDef(t[i + 1].text, ps.0, ps.1, rt, body),
                            ),
                            Err(x) => Err(x),
                        }
                    },
                    Err(x) => Err(x),
                }
            },
            Err(x) => Err(x),
        }
    }
}

/// A statement at `i`, and where it ends.
pub open spec fn p_stmt(t: Seq<SToken>, i: int) -> Result<(SStmt, int), SyntaxError>
    decreases t.len() - i, 2int,
{
    if !(0 <= i < t.len()) {
        Err(expected(i, Want::Expr))
    } else {
        let k = t[i].kind;
        if base_type(k) is Some {
            p_decl(t, i)
        } else if k == TokKind::KwIf {
            p_if(t, i)
        } else if k == TokKind::KwWhile {
            p_while(t, i)
        } else if k == TokKind::KwFor {
            p_for(t, i)
        } else if k == TokKind::KwFunc {
            p_func(t, i)
        } else if k == TokKind::KwReturn {
            p_return(t, i)
        } else if k == TokKind::KwPrint {
            p_print(t, i)
        } else if k == TokKind::LBrace {
            match p_block(t, i) {
                Ok((b, j)) => expect_semi(t, j, SStmt::Block(b)),
                Err(x) => Err(x),
            }
        } else {
            p_simple(t, i)
        }
    }
}

/// The statements from `i` to the end of the tokens, after `acc`.
pub open spec fn p_program(t: Seq<SToken>, i: int, acc: Seq<SStmt>) -> Result<Seq<SStmt>, SyntaxError>
    decreases t.len() - i,
{
    if !(0 <= i < t.len()) {
        Ok(acc)
    } else {
        match p_stmt(t, i) {
            Ok((s, j)) => if moved(t, i, j) {
                p_program(t, j, acc.push(s))
            } else {
                Err(expected(i, Want::Expr))
            },
            Err(x) => Err(x),
        }
    }
}

/// The model of a parsed statement and where it ends.
pub open spec fn stmt_res(r: Result<(Stmt, usize), SyntaxError>) -> Result<(SStmt, int), SyntaxError> {
    match r {
        Ok((s, j)) => Ok((s.sview(), j as int)),
        Err(x) => Err(x),
    }
}

/// The models of parsed statements and where they end.
pub open spec fn stmts_res(r: Result<(Vec<Stmt>, usize), SyntaxError>) -> Result<
    (Seq<SStmt>, int),
    SyntaxError,
> {
    match r {
        Ok((v, j)) => Ok((stmts_view(v@), j as int)),
        Err(x) => Err(x),
    }
}

/// A parsed type and where it ends.
pub open spec fn type_res(r: Result<(Type, usize), SyntaxError>) -> Result<(Type, int), SyntaxError> {
    match r {
        Ok((ty, j)) => Ok((ty, j as int)),
        Err(x) => Err(x),
    }
}

proof fn lemma_stmts_view_push(s: Seq<Stmt>, x: Stmt)
    ensures
        stmts_view(s.push(x)) == stmts_view(s).push(x.sview()),
{
    assert(s.push(x).drop_last() =~= s);
}

/// Parses a type at `i`.
fn parse_type(t: &Vec<Token>, i: usize) -> (r: Result<(Type, usize), SyntaxError>)
    requires
        i <= t@.len(),
    ensures
        type_res(r) == p_type(toks_view(t@), i as int),
        advances(r, i as int, t@.len() as int),
{
    let ghost tv = toks_view(t@);
    let mut ty = if is_at(t, i, TokKind::KwInt) {
        Type::Int
    } else if is_at(t, i, TokKind::KwFloat) {
        Type::Float
    } else if is_at(t, i, TokKind::KwBool) {
        Type::Bool
    } else if is_at(t, i, TokKind::KwString) {
        Type::String
    } else {
        return Err(SyntaxError::Expected(i, Want::Type));
    };
    let mut j = i + 1;
    while is_at(t, j, TokKind::LBracket) && is_at(t, j + 1, TokKind::RBracket)
        invariant
            tv == toks_view(t@),
            i < j <= t@.len(),
            p_type(tv, i as int) == Ok::<(Type, int), SyntaxError>(type_rest(tv, ty, j as int)),
        decreases t@.len() - j,
    {
        ty = Type::Array(Box::new(ty));
        j = j + 2;
    }
    Ok((ty, j))
}

/// Parses identifiers separated by `,` at `i`.
fn parse_names(t: &Vec<Token>, i: usize) -> (r: Result<(Vec<String>, usize), SyntaxError>)
    requires
        i <= t@.len(),
    ensures
        match r {
            Ok((v, j)) => p_names(toks_view(t@), i as int, Seq::empty()) == Ok::<
                (Seq<Seq<char>>, int),
                SyntaxError,
            >((names_view(v@), j as int)) && i < j <= t@.len(),
            Err(x) => p_names(toks_view(t@), i as int, Seq::empty()) == Err::<
                (Seq<Seq<char>>, int),
                SyntaxError,
            >(x),
        },
{
    let ghost tv = toks_view(t@);
    let mut acc: Vec<String> = Vec::new();
    let mut j = i;
    proof {
        assert(names_view(acc@) =~= Seq::<Seq<char>>::empty());
    }
    loop
        invariant
            tv == toks_view(t@),
            i <= j <= t@.len(),
            p_names(tv, i as int, Seq::empty()) == p_names(tv, j as int, names_view(acc@)),
        decreases t@.len() - j,
    {
        if !is_at(t, j, TokKind::Ident) {
            return Err(SyntaxError::Expected(j, Want::Ident));
        }
        let name = t[j].text.clone();
        proof {
            assert(names_view(acc@.push(name)) =~= names_view(acc@).push(tv[j as int].text));
        }
        acc.push(name);
        if is_at(t, j + 1, TokKind::Comma) {
            j = j + 2;
        } else {
            return Ok((acc, j + 1));
        }
    }
}

/// Parses a parameter list after `(`, up to and including `)`.
fn parse_param_list(t: &Vec<Token>, i: usize) -> (r: Result<(Vec<(String, Type)>, usize), SyntaxError>)
    requires
        i <= t@.len(),
    ensures
        match r {
            Ok((v, j)) => p_param_list(toks_view(t@), i as int) == Ok::<
                ((Seq<Seq<char>>, Seq<Type>), int),
                SyntaxError,
            >(((params_view(v@), param_types(v@)), j as int)) && i < j <= t@.len(),
            Err(x) => p_param_list(toks_view(t@), i as int) == Err::<
                ((Seq<Seq<char>>, Seq<Type>), int),
                SyntaxError,
            >(x),
        },
{
    let ghost tv = toks_view(t@);
    let mut acc: Vec<(String, Type)> = Vec::new();
    proof {
        assert(params_view(acc@) =~= Seq::<Seq<char>>::empty());
        assert(param_types(acc@) =~= Seq::<Type>::empty());
    }
    if is_at(t, i, TokKind::RParen) {
        return Ok((acc, i + 1));
    }
    let mut j = i;
    loop
        invariant
            tv == toks_view(t@),
            i <= j <= t@.len(),
            p_param_list(tv, i as int) == p_params(tv, j as int, params_view(acc@), param_types(acc@)),
        decreases t@.len() - j,
    {
        let (ty, k) = match parse_type(t, j) {
            Ok(x) => x,
            Err(x) => {
                return Err(x);
            },
        };
        if !is_at(t, k, TokKind::Ident) {
            return Err(SyntaxError::Expected(k, Want::Ident));
        }
        let name = t[k].text.clone();
        let ghost ty_model = ty;
        proof {
            let p = (name, ty);
            assert(params_view(acc@.push(p)) =~= params_view(acc@).push(tv[k as int].text));
            assert(param_types(acc@.push(p)) =~= param_types(acc@).push(ty_model));
        }
        acc.push((name, ty));
        if is_at(t, k + 1, TokKind::Comma) {
            j = k + 2;
        } else if is_at(t, k + 1, TokKind::RParen) {
            return Ok((acc, k + 2));
        } else {
            return Err(SyntaxError::Expected(k + 1, Want::CommaOrRParen));
        }
    }
}

/// Expects `;` at `j` after the statement `s`.
fn finish_stmt(t: &Vec<Token>, j: usize, s: Stmt) -> (r: Result<(Stmt, usize), SyntaxError>)
    requires
        j <= t@.len(),
    ensures
        stmt_res(r) == expect_semi(toks_view(t@), j as int, s.sview()),
        r matches Ok((_, k)) ==> k == j + 1 && k <= t@.len(),
{
    if is_at(t, j, TokKind::Semi) {
        Ok((s, j + 1))
    } else {
        Err(SyntaxError::Expected(j, Want::Semi))
    }
}

/// Parses a declaration at `i`.
fn parse_decl(t: &Vec<Token>, i: usize) -> (r: Result<(Stmt, usize), SyntaxError>)
    requires
        i <= t@.len(),
    ensures
        stmt_res(r) == p_decl(toks_view(t@), i as int),
        advances(r, i as int, t@.len() as int),
{
    match parse_type(t, i) {
        Ok((ty, j)) => match parse_names(t, j) {
            Ok((names, k)) => finish_stmt(t, k, Stmt::VarDecl(names, ty)),
            Err(x) => Err(x),
        },
        Err(x) => Err(x),
    }
}

/// Parses `return;` or `return e;` at `i`, where `return` stands.
fn parse_return(t: &Vec<Token>, i: usize) -> (r: Result<(Stmt, usize), SyntaxError>)
    requires
        i < t@.len(),
        t@.len() <= usize::MAX,
    ensures
        stmt_res(r) == p_return(toks_view(t@), i as int),
        advances(r, i as int, t@.len() as int),
{
    if is_at(t, i + 1, TokKind::Semi) {
        Ok((Stmt::Return(None, t[i].start, t[i + 1].end), i + 2))
    } else {
        match parse_expr(t, i + 1) {
            Ok((e, j)) => {
                let end = if j < t.len() {
                    t[j].end
                } else {
                    t[j - 1].end
                };
                finish_stmt(t, j, Stmt::Return(Some(Box::new(e)), t[i].start, end))
            },
            Err(x) => Err(x),
        }
    }
}

/// Parses `print e;` at `i`, where `print` stands.
fn parse_print(t: &Vec<Token>, i: usize) -> (r: Result<(Stmt, usize), SyntaxError>)
    requires
        i < t@.len(),
        t@.len() <= usize::MAX,
    ensures
        stmt_res(r) == p_print(toks_view(t@), i as int),
        advances(r, i as int, t@.len() as int),
{
    match parse_expr(t, i + 1) {
        Ok((e, j)) => finish_stmt(t, j, Stmt::Print(Box::new(e))),
        Err(x) => Err(x),
    }
}

/// Parses an assignment or an expression statement at `i`.
fn parse_simple(t: &Vec<Token>, i: usize) -> (r: Result<(Stmt, usize), SyntaxError>)
    requires
        i <= t@.len(),
    ensures
        stmt_res(r) == p_simple(toks_view(t@), i as int),
        advances(r, i as int, t@.len() as int),
{
    match parse_expr(t, i) {
        Ok((e, j)) => {
            if is_at(t, j, TokKind::ColonEq) {
                match parse_expr(t, j + 1) {
                    Ok((rhs, k)) => finish_stmt(t, k, Stmt::Assign(Box::new(e), Box::new(rhs))),
                    Err(x) => Err(x),
                }
            } else {
                finish_stmt(t, j, Stmt::Expr(Box::new(e)))
            }
        },
        Err(x) => Err(x),
    }
}

/// Parses a block at `i`.
fn parse_block(t: &Vec<Token>, i: usize) -> (r: Result<(Vec<Stmt>, usize), SyntaxError>)
    requires
        i <= t@.len(),
    ensures
        stmts_res(r) == p_block(toks_view(t@), i as int),
        advances(r, i as int, t@.len() as int),
    decreases t@.len() - i, 0int,
{
    let ghost tv = toks_view(t@);
    if !is_at(t, i, TokKind::LBrace) {
        return Err(SyntaxError::Expected(i, Want::LBrace));
    }
    let mut acc: Vec<Stmt> = Vec::new();
    proof {
        assert(stmts_view(acc@) =~= Seq::<SStmt>::empty());
    }
    let mut j = i + 1;
    loop
        invariant
            tv == toks_view(t@),
            i < j <= t@.len(),
            p_block(tv, i as int) == p_stmts(tv, j as int, stmts_view(acc@)),
        decreases t@.len() - j,
    {
        if is_at(t, j, TokKind::RBrace) {
            return Ok((acc, j + 1));
        }
        if j >= t.len() {
            return Err(SyntaxError::Expected(j, Want::RBrace));
        }
        match parse_stmt(t, j) {
            Ok((s, k)) => {
                proof {
                    lemma_stmts_view_push(acc@, s);
                }
                acc.push(s);
                j = k;
            },
            Err(x) => {
                return Err(x);
            },
        }
    }
}

/// Parses an `if` statement at `i`, where `if` stands.
fn parse_if(t: &Vec<Token>, i: usize) -> (r: Result<(Stmt, usize), SyntaxError>)
    requires
        i < t@.len(),
        t@.len() <= usize::MAX,
    ensures
        stmt_res(r) == p_if(toks_view(t@), i as int),
        advances(r, i as int, t@.len() as int),
    decreases t@.len() - i, 1int,
{
    let (c, j) = match parse_expr(t, i + 1) {
        Ok(x) => x,
        Err(x) => {
            return Err(x);
        },
    };
    if !is_at(t, j, TokKind::KwThen) {
        return Err(SyntaxError::Expected(j, Want::Then));
    }
    let (tb, k) = match parse_block(t, j + 1) {
        Ok(x) => x,
        Err(x) => {
            return Err(x);
        },
    };
    if !is_at(t, k, TokKind::KwElse) {
        return finish_stmt(t, k, Stmt::If(Box::new(c), tb));
    }
    match parse_block(t, k + 1) {
        Ok((eb, m)) => finish_stmt(t, m, Stmt::IfElse(Box::new(c), tb, eb)),
        Err(x) => Err(x),
    }
}

/// Parses a `while` statement at `i`, where `while` stands.
fn parse_while(t: &Vec<Token>, i: usize) -> (r: Result<(Stmt, usize), SyntaxError>)
    requires
        i < t@.len(),
        t@.len() <= usize::MAX,
    ensures
        stmt_res(r) == p_while(toks_view(t@), i as int),
        advances(r, i as int, t@.len() as int),
    decreases t@.len() - i, 1int,
{
    let (c, j) = match parse_expr(t, i + 1) {
        Ok(x) => x,
        Err(x) => {
            return Err(x);
        },
    };
    if !is_at(t, j, TokKind::KwDo) {
        return Err(SyntaxError::Expected(j, Want::Do));
    }
    match parse_block(t, j + 1) {
        Ok((b, k)) => finish_stmt(t, k, Stmt::While(Box::new(c), b)),
        Err(x) => Err(x),
    }
}

/// Parses a `for` statement at `i`, where `for` stands.
fn parse_for(t: &Vec<Token>, i: usize) -> (r: Result<(Stmt, usize), SyntaxError>)
    requires
        i < t@.len(),
        t@.len() <= usize::MAX,
    ensures
        stmt_res(r) == p_for(toks_view(t@), i as int),
        advances(r, i as int, t@.len() as int),
    decreases t@.len() - i, 1int,
{
    if !is_at(t, i + 1, TokKind::Ident) {
        return Err(SyntaxError::Expected(i + 1, Want::Ident));
    }
    if !is_at(t, i + 2, TokKind::ColonEq) {
        return Err(SyntaxError::Expected(i + 2, Want::ColonEq));
    }
    let (a, j) = match parse_expr(t, i + 3) {
        Ok(x) => x,
        Err(x) => {
            return Err(x);
        },
    };
    if !is_at(t, j, TokKind::KwTo) {
        return Err(SyntaxError::Expected(j, Want::To));
    }
    let (b, k) = match parse_expr(t, j + 1) {
        Ok(x) => x,
        Err(x) => {
            return Err(x);
        },
    };
    if !is_at(t, k, TokKind::KwDo) {
        return Err(SyntaxError::Expected(k, Want::Do));
    }
    match parse_block(t, k + 1) {
        Ok((body, m)) => finish_stmt(
            t,
            m,
            Stmt::For(t[i + 1].text.clone(), Box::new(a), Box::new(b), body),
        ),
        Err(x) => Err(x),
    }
}

/// Parses a function definition at `i`, where `func` stands.
fn parse_func(t: &Vec<Token>, i: usize) -> (r: Result<(Stmt, usize), SyntaxError>)
    requires
        i < t@.len(),
        t@.len() <= usize::MAX,
    ensures
        stmt_res(r) == p_func(toks_view(t@), i as int),
        advances(r, i as int, t@.len() as int),
    decreases t@.len() - i, 1int,
{
    if !is_at(t, i + 1, TokKind::Ident) {
        return Err(SyntaxError::Expected(i + 1, Want::Ident));
    }
    if !is_at(t, i + 2, TokKind::LParen) {
        return Err(SyntaxError::Expected(i + 2, Want::LParen));
    }
    let (params, j) = match parse_param_list(t, i + 3) {
        Ok(x) => x,
        Err(x) => {
            return Err(x);
        },
    };
    if !is_at(t, j, TokKind::Arrow) {
        return Err(SyntaxError::Expected(j, Want::Arrow));
    }
    let (rt, k) = match parse_type(t, j + 1) {
        Ok(x) => x,
        Err(x) => {
            return Err(x);
        },
    };
    match parse_block(t, k) {
        Ok((body, m)) => {
            let end = if m < t.len() {
                t[m].end
            } else {
                t[m - 1].end
            };
            finish_stmt(t, m, Stmt::FuncDef(t[i + 1].text.clone(), params, rt, body, t[i].start, end))
        },
        Err(x) => Err(x),
    }
}

/// Parses a statement at `i`.
fn parse_stmt(t: &Vec<Token>, i: usize) -> (r: Result<(Stmt, usize), SyntaxError>)
    requires
        i <= t@.len(),
    ensures
        stmt_res(r) == p_stmt(toks_view(t@), i as int),
        advances(r, i as int, t@.len() as int),
    decreases t@.len() - i, 2int,
{
    let ghost tv = toks_view(t@);
    if i >= t.len() {
        return Err(SyntaxError::Expected(i, Want::Expr));
    }
    let k = t[i].kind;
    assert(tv[i as int].kind == k);
    if k == TokKind::KwInt || k == TokKind::KwFloat || k == TokKind::KwBool || k == TokKind::KwString {
        parse_decl(t, i)
    } else if k == TokKind::KwIf {
        parse_if(t, i)
    } else if k == TokKind::KwWhile {
        parse_while(t, i)
    } else if k == TokKind::KwFor {
        parse_for(t, i)
    } else if k == TokKind::KwFunc {
        parse_func(t, i)
    } else if k == TokKind::KwReturn {
        parse_return(t, i)
    } else if k == TokKind::KwPrint {
        parse_print(t, i)
    } else if k == TokKind::LBrace {
        match parse_block(t, i) {
            Ok((b, j)) => finish_stmt(t, j, Stmt::Block(b)),
            Err(x) => Err(x),
        }
    } else {
        parse_simple(t, i)
    }
}

/// The models of a parsed program.
pub open spec fn program_res(r: Result<Vec<Stmt>, SyntaxError>) -> Result<Seq<SStmt>, SyntaxError> {
    match r {
        Ok(v) => Ok(stmts_view(v@)),
        Err(x) => Err(x),
    }
}

/// Parses a whole token sequence into statements.
pub fn parse_tokens(t: &Vec<Token>) -> (r: Result<Vec<Stmt>, SyntaxError>)
    ensures
        program_res(r) == p_program(toks_view(t@), 0, Seq::empty()),
{
    let ghost tv = toks_view(t@);
    let mut acc: Vec<Stmt> = Vec::new();
    proof {
        assert(stmts_view(acc@) =~= Seq::<SStmt>::empty());
    }
    let mut j: usize = 0;
    while j < t.len()
        invariant
            tv == toks_view(t@),
            j <= t@.len(),
            p_program(tv, 0, Seq::empty()) == p_program(tv, j as int, stmts_view(acc@)),
        decreases t@.len() - j,
    {
        match parse_stmt(t, j) {
            Ok((s, k)) => {
                proof {
                    lemma_stmts_view_push(acc@, s);
                }
                acc.push(s);
                j = k;
            },
            Err(x) => {
                return Err(x);
            },
        }
    }
    Ok(acc)
}

/// The level of the operands of the binary operators of level `lv`.
spec fn operand_level(lv: nat) -> nat {
    if lv <= 1 {
        0
    } else if lv == 5 {
        3
    } else {
        (lv - 1) as nat
    }
}

proof fn lemma_last_number(t: Seq<SToken>, i: int, lv: nat)
    requires
        0 <= i,
        i + 1 == t.len(),
        t[i].kind == TokKind::Num,
    ensures
        p_operand(t, i, lv) == Ok::<(SExpr, int), SyntaxError>((SExpr::Num(t[i].value), i + 1)),
        p_bin(t, i, lv) == Ok::<(SExpr, int), SyntaxError>((SExpr::Num(t[i].value), i + 1)),
    decreases lv,
{
    let num = SExpr::Num(t[i].value);
    assert(p_primary(t, i) == Ok::<(SExpr, int), SyntaxError>((num, i + 1)));
    assert(postfix_rest(t, num, i + 1) == Ok::<(SExpr, int), SyntaxError>((num, i + 1)));
    assert(p_postfix(t, i) == Ok::<(SExpr, int), SyntaxError>((num, i + 1)));
    assert(p_unary(t, i) == Ok::<(SExpr, int), SyntaxError>((num, i + 1)));
    if lv == 5 {
        lemma_last_number(t, i, 3);
        assert(p_not(t, i) == Ok::<(SExpr, int), SyntaxError>((num, i + 1)));
    } else if lv > 1 {
        lemma_last_number(t, i, (lv - 1) as nat);
    }
    assert(bin_rest(t, num, i + 1, lv) == Ok::<(SExpr, int), SyntaxError>((num, i + 1)));
}

proof fn lemma_first_number(t: Seq<SToken>, lv: nat, level: nat, op: Opcode)
    requires
        t.len() == 3,
        t[0].kind == TokKind::Num,
        t[2].kind == TokKind::Num,
        t[1].kind != TokKind::LBracket,
        1 <= level <= 6,
        level != 4,
        bin_op(level, t[1].kind) == Some(op),
        forall|m: nat| m != level ==> bin_op(m, t[1].kind) is None,
    ensures
        p_bin(t, 0, lv) == if lv < level {
            Ok::<(SExpr, int), SyntaxError>((SExpr::Num(t[0].value), 1))
        } else {
            Ok::<(SExpr, int), SyntaxError>(
                (SExpr::Op(op, Box::new(SExpr::Num(t[0].value)), Box::new(SExpr::Num(t[2].value))), 3),
            )
        },
        p_operand(t, 0, lv) == if operand_level(lv) < level {
            Ok::<(SExpr, int), SyntaxError>((SExpr::Num(t[0].value), 1))
        } else {
            Ok::<(SExpr, int), SyntaxError>(
                (SExpr::Op(op, Box::new(SExpr::Num(t[0].value)), Box::new(SExpr::Num(t[2].value))), 3),
            )
        },
    decreases lv,
{
    let x = SExpr::Num(t[0].value);
    let both = SExpr::Op(op, Box::new(x), Box::new(SExpr::Num(t[2].value)));
    assert(p_primary(t, 0) == Ok::<(SExpr, int), SyntaxError>((x, 1)));
    assert(postfix_rest(t, x, 1) == Ok::<(SExpr, int), SyntaxError>((x, 1)));
    assert(p_postfix(t, 0) == Ok::<(SExpr, int), SyntaxError>((x, 1)));
    assert(p_unary(t, 0) == Ok::<(SExpr, int), SyntaxError>((x, 1)));
    if lv == 5 {
        lemma_first_number(t, 3, level, op);
        assert(p_not(t, 0) == p_bin(t, 0, 3));
    } else if lv > 1 {
        lemma_first_number(t, (lv - 1) as nat, level, op);
    }
    lemma_last_number(t, 2, lv);
    assert(bin_rest(t, both, 3, lv) == Ok::<(SExpr, int), SyntaxError>((both, 3)));
    if lv == level {
        assert(bin_rest(t, x, 1, lv) == Ok::<(SExpr, int), SyntaxError>((both, 3)));
    } else {
        assert(bin_op(lv, t[1].kind) is None);
        assert(bin_rest(t, x, 1, lv) == Ok::<(SExpr, int), SyntaxError>((x, 1)));
    }
}

/// Each binary operator token between two integer literals parses to its
/// own operator: `+` Add, `-` Sub, `*` Mul, `/` Div, `<` LessThan, `>`
/// GreaterThan, `<=` LessOrEqual, `>=` GreaterOrEqual, `=` Equal, `!=`
/// NotEqual, `and` And, `or` Or.
pub proof fn law_operator_tokens(t: Seq<SToken>)
    requires
        t.len() == 3,
        t[0].kind == TokKind::Num,
        t[2].kind == TokKind::Num,
    ensures
        ({
            let parsed = |op: Opcode|
                Ok::<(SExpr, int), SyntaxError>(
                    (SExpr::Op(op, Box::new(SExpr::Num(t[0].value)), Box::new(SExpr::Num(t[2].value))), 3),
                );
            let k = t[1].kind;
            &&& k == TokKind::Plus ==> p_expr(t, 0) == parsed(Opcode::Add)
            &&& k == TokKind::Minus ==> p_expr(t, 0) == parsed(Opcode::Sub)
            &&& k == TokKind::Star ==> p_expr(t, 0) == parsed(Opcode::Mul)
            &&& k == TokKind::Slash ==> p_expr(t, 0) == parsed(Opcode::Div)
            &&& k == TokKind::Less ==> p_expr(t, 0) == parsed(Opcode::LessThan)
            &&& k == TokKind::Greater ==> p_expr(t, 0) == parsed(Opcode::GreaterThan)
            &&& k == TokKind::LessEq ==> p_expr(t, 0) == parsed(Opcode::LessOrEqual)
            &&& k == TokKind::GreaterEq ==> p_expr(t, 0) == parsed(Opcode::GreaterOrEqual)
            &&& k == TokKind::Eq ==> p_expr(t, 0) == parsed(Opcode::Equal)
            &&& k == TokKind::NotEq ==> p_expr(t, 0) == parsed(Opcode::NotEqual)
            &&& k == TokKind::KwAnd ==> p_expr(t, 0) == parsed(Opcode::And)
            &&& k == TokKind::KwOr ==> p_expr(t, 0) == parsed(Opcode::Or)
        }),
{
    let k = t[1].kind;
    if k == TokKind::Plus {
        lemma_first_number(t, 6, 2, Opcode::Add);
    } else if k == TokKind::Minus {
        lemma_first_number(t, 6, 2, Opcode::Sub);
    } else if k == TokKind::Star {
        lemma_first_number(t, 6, 1, Opcode::Mul);
    } else if k == TokKind::Slash {
        lemma_first_number(t, 6, 1, Opcode::Div);
    } else if k == TokKind::Less {
        lemma_first_number(t, 6, 3, Opcode::LessThan);
    } else if k == TokKind::Greater {
        lemma_first_number(t, 6, 3, Opcode::GreaterThan);
    } else if k == TokKind::LessEq {
        lemma_first_number(t, 6, 3, Opcode::LessOrEqual);
    } else if k == TokKind::GreaterEq {
        lemma_first_number(t, 6, 3, Opcode::GreaterOrEqual);
    } else if k == TokKind::Eq {
        lemma_first_number(t, 6, 3, Opcode::Equal);
    } else if k == TokKind::NotEq {
        lemma_first_number(t, 6, 3, Opcode::NotEqual);
    } else if k == TokKind::KwAnd {
        lemma_first_number(t, 6, 5, Opcode::And);
    } else if k == TokKind::KwOr {
        lemma_first_number(t, 6, 6, Opcode::Or);
    }
}

/// Whether a token is `+` or `-`.
pub open spec fn additive(k: TokKind) -> bool {
    k == TokKind::Plus || k == TokKind::Minus
}

/// Whether a token is `*` or `/`.
pub open spec fn multiplicative(k: TokKind) -> bool {
    k == TokKind::Star || k == TokKind::Slash
}

/// The operator that an arithmetic token stands for.
pub open spec fn arithmetic_opcode(k: TokKind) -> Opcode {
    if k == TokKind::Plus {
        Opcode::Add
    } else if k == TokKind::Minus {
        Opcode::Sub
    } else if k == TokKind::Star {
        Opcode::Mul
    } else {
        Opcode::Div
    }
}

proof fn lemma_lone_number(t: Seq<SToken>, i: int)
    requires
        0 <= i < t.len(),
        t[i].kind == TokKind::Num,
        !at(t, i + 1, TokKind::LBracket),
    ensures
        p_unary(t, i) == Ok::<(SExpr, int), SyntaxError>((SExpr::Num(t[i].value), i + 1)),
        p_operand(t, i, 1) == Ok::<(SExpr, int), SyntaxError>((SExpr::Num(t[i].value), i + 1)),
{
    let num = SExpr::Num(t[i].value);
    assert(p_primary(t, i) == Ok::<(SExpr, int), SyntaxError>((num, i + 1)));
    assert(postfix_rest(t, num, i + 1) == Ok::<(SExpr, int), SyntaxError>((num, i + 1)));
    assert(p_postfix(t, i) == Ok::<(SExpr, int), SyntaxError>((num, i + 1)));
}

proof fn lemma_whole_at_top_levels(t: Seq<SToken>, x: SExpr, lv: nat)
    requires
        2 <= lv <= 6,
        t.len() >= 1,
        t[0].kind == TokKind::Num,
        p_bin(t, 0, 2) == Ok::<(SExpr, int), SyntaxError>((x, t.len() as int)),
    ensures
        p_bin(t, 0, lv) == Ok::<(SExpr, int), SyntaxError>((x, t.len() as int)),
        lv >= 3 ==> p_not(t, 0) == Ok::<(SExpr, int), SyntaxError>((x, t.len() as int)),
    decreases lv,
{
    if lv > 2 {
        if lv == 5 {
            lemma_whole_at_top_levels(t, x, 3);
        } else {
            lemma_whole_at_top_levels(t, x, (lv - 1) as nat);
        }
        assert(bin_rest(t, x, t.len() as int, lv) == Ok::<(SExpr, int), SyntaxError>((x, t.len() as int)));
    }
    if lv == 3 {
        assert(p_not(t, 0) == p_bin(t, 0, 3));
    }
}

/// `*` and `/` bind tighter than `+` and `-`, and operators of the same
/// level group to the left: `a + b * c` is `a + (b * c)`, `a * b + c` is
/// `(a * b) + c`, and `a - b - c` is `(a - b) - c`.
pub proof fn law_arithmetic_precedence(t: Seq<SToken>)
    requires
        t.len() == 5,
        t[0].kind == TokKind::Num,
        t[2].kind == TokKind::Num,
        t[4].kind == TokKind::Num,
        additive(t[1].kind) || multiplicative(t[1].kind),
        additive(t[3].kind) || multiplicative(t[3].kind),
    ensures
        ({
            let a = SExpr::Num(t[0].value);
            let b = SExpr::Num(t[2].value);
            let c = SExpr::Num(t[4].value);
            let o1 = arithmetic_opcode(t[1].kind);
            let o2 = arithmetic_opcode(t[3].kind);
            p_expr(t, 0) == Ok::<(SExpr, int), SyntaxError>(
                (
                    if additive(t[1].kind) && multiplicative(t[3].kind) {
                        SExpr::Op(o1, Box::new(a), Box::new(SExpr::Op(o2, Box::new(b), Box::new(c))))
                    } else {
                        SExpr::Op(o2, Box::new(SExpr::Op(o1, Box::new(a), Box::new(b))), Box::new(c))
                    },
                    5,
                ),
            )
        }),
{
    let a = SExpr::Num(t[0].value);
    let b = SExpr::Num(t[2].value);
    let c = SExpr::Num(t[4].value);
    let k1 = t[1].kind;
    let k3 = t[3].kind;
    let o1 = arithmetic_opcode(k1);
    let o2 = arithmetic_opcode(k3);
    lemma_lone_number(t, 0);
    lemma_lone_number(t, 2);
    lemma_lone_number(t, 4);
    let bc = SExpr::Op(o2, Box::new(b), Box::new(c));
    let ab = SExpr::Op(o1, Box::new(a), Box::new(b));
    let ab_c = SExpr::Op(o2, Box::new(ab), Box::new(c));
    let a_bc = SExpr::Op(o1, Box::new(a), Box::new(bc));
    assert(bin_op(1, k1) == if multiplicative(k1) { Some(o1) } else { None });
    assert(bin_op(2, k1) == if additive(k1) { Some(o1) } else { None });
    assert(bin_op(1, k3) == if multiplicative(k3) { Some(o2) } else { None });
    assert(bin_op(2, k3) == if additive(k3) { Some(o2) } else { None });
    // the last number at levels 1 and 2
    assert(p_bin(t, 4, 1) == Ok::<(SExpr, int), SyntaxError>((c, 5)));
    assert(p_operand(t, 4, 2) == p_bin(t, 4, 1));
    // from the second number on
    if multiplicative(k3) {
        assert(bin_rest(t, bc, 5, 1) == Ok::<(SExpr, int), SyntaxError>((bc, 5)));
        assert(p_bin(t, 2, 1) == Ok::<(SExpr, int), SyntaxError>((bc, 5)));
    } else {
        assert(p_bin(t, 2, 1) == Ok::<(SExpr, int), SyntaxError>((b, 3)));
    }
    assert(p_operand(t, 2, 2) == p_bin(t, 2, 1));
    // from the first number on
    let x = if additive(k1) && multiplicative(k3) { a_bc } else { ab_c };
    if multiplicative(k1) {
        assert(p_operand(t, 2, 1) == Ok::<(SExpr, int), SyntaxError>((b, 3)));
        if multiplicative(k3) {
            assert(bin_rest(t, ab_c, 5, 1) == Ok::<(SExpr, int), SyntaxError>((ab_c, 5)));
            assert(bin_rest(t, ab, 3, 1) == Ok::<(SExpr, int), SyntaxError>((ab_c, 5)));
            assert(p_bin(t, 0, 1) == Ok::<(SExpr, int), SyntaxError>((ab_c, 5)));
            assert(bin_rest(t, ab_c, 5, 2) == Ok::<(SExpr, int), SyntaxError>((ab_c, 5)));
        } else {
            assert(bin_rest(t, ab, 3, 1) == Ok::<(SExpr, int), SyntaxError>((ab, 3)));
            assert(p_bin(t, 0, 1) == Ok::<(SExpr, int), SyntaxError>((ab, 3)));
            assert(bin_rest(t, ab_c, 5, 2) == Ok::<(SExpr, int), SyntaxError>((ab_c, 5)));
            assert(bin_rest(t, ab, 3, 2) == Ok::<(SExpr, int), SyntaxError>((ab_c, 5)));
        }
    } else {
        assert(p_bin(t, 0, 1) == Ok::<(SExpr, int), SyntaxError>((a, 1)));
        if multiplicative(k3) {
            assert(bin_rest(t, a_bc, 5, 2) == Ok::<(SExpr, int), SyntaxError>((a_bc, 5)));
            assert(bin_rest(t, a, 1, 2) == Ok::<(SExpr, int), SyntaxError>((a_bc, 5)));
        } else {
            assert(bin_rest(t, ab_c, 5, 2) == Ok::<(SExpr, int), SyntaxError>((ab_c, 5)));
            assert(bin_rest(t, ab, 3, 2) == Ok::<(SExpr, int), SyntaxError>((ab_c, 5)));
            assert(bin_rest(t, a, 1, 2) == Ok::<(SExpr, int), SyntaxError>((ab_c, 5)));
        }
    }
    assert(p_operand(t, 0, 2) == p_bin(t, 0, 1));
    assert(p_bin(t, 0, 2) == Ok::<(SExpr, int), SyntaxError>((x, 5)));
    lemma_whole_at_top_levels(t, x, 6);
}

} // verus!
