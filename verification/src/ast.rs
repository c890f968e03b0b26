//! The abstract syntax of the language and its mathematical model.
use vstd::prelude::*;

verus! {

/// The declared type of variables and parameters.
#[derive(Debug, PartialEq)]
pub enum Type {
    Int,
    Float,
    Bool,
    String,
    Array(Box<Type>),
}

/// Binary operators.
#[derive(Debug, Clone, Copy, PartialEq)]
pub enum Opcode {
    GreaterThan,
    GreaterOrEqual,
    Equal,
    NotEqual,
    LessOrEqual,
    LessThan,
    Add,
    Sub,
    Mul,
    Div,
    And,
    Or,
}

/// Expressions. The `usize` fields are the start and end offsets of the
/// expression in the source text.
#[derive(Debug)]
pub enum Expr {
    /// A variable.
    Id(String, usize, usize),
    /// An integer literal.
    Num(u32, usize, usize),
    /// A string literal.
    StringLit(String, usize, usize),
    /// A boolean literal.
    BoolLit(bool, usize, usize),
    /// A binary operation.
    Op(Opcode, Box<Expr>, Box<Expr>),
    /// Logical negation.
    Not(Box<Expr>),
    /// Arithmetic negation.
    Neg(Box<Expr>, usize, usize),
    /// A function call.
    Call(String, Vec<Expr>, usize, usize),
    /// An array literal.
    ArrayLit(Vec<Expr>, usize, usize),
    /// Array indexing.
    Index(Box<Expr>, Box<Expr>, usize, usize),
}

/// Statements.
#[derive(Debug)]
pub enum Stmt {
    If(Box<Expr>, Vec<Stmt>),
    IfElse(Box<Expr>, Vec<Stmt>, Vec<Stmt>),
    While(Box<Expr>, Vec<Stmt>),
    /// `for name := start to end do body`; the bound is inclusive.
    For(String, Box<Expr>, Box<Expr>, Vec<Stmt>),
    Assign(Box<Expr>, Box<Expr>),
    VarDecl(Vec<String>, Type),
    Block(Vec<Stmt>),
    Expr(Box<Expr>),
    Print(Box<Expr>),
    /// A function definition: name, parameters, return type, body, and the
    /// start and end offsets in the source text.
    FuncDef(String, Vec<(String, Type)>, Type, Vec<Stmt>, usize, usize),
    /// `return`, with an optional value, and the start and end offsets.
    Return(Option<Box<Expr>>, usize, usize),
}

/// The model of an expression: what evaluation depends on. A variable keeps
/// its start offset, which error messages report.
pub enum SExpr {
    Id(Seq<char>, usize),
    Num(u32),
    Str(Seq<char>),
    BoolLit(bool),
    Op(Opcode, Box<SExpr>, Box<SExpr>),
    Not(Box<SExpr>),
    Neg(Box<SExpr>),
    Call(Seq<char>, Seq<SExpr>),
    ArrayLit(Seq<SExpr>),
    Index(Box<SExpr>, Box<SExpr>),
}

/// The model of a statement. A function definition keeps its name, the
/// names and types of its parameters, its return type and its body.
pub enum SStmt {
    If(SExpr, Seq<SStmt>),
    IfElse(SExpr, Seq<SStmt>, Seq<SStmt>),
    While(SExpr, Seq<SStmt>),
    For(Seq<char>, SExpr, SExpr, Seq<SStmt>),
    Assign(SExpr, SExpr),
    VarDecl(Seq<Seq<char>>, Type),
    Block(Seq<SStmt>),
    Expr(SExpr),
    Print(SExpr),
    FuncDef(Seq<char>, Seq<Seq<char>>, Seq<Type>, Type, Seq<SStmt>),
    Return(Option<SExpr>),
}

impl Expr {
    /// The model of this expression.
    pub open spec fn sview(&self) -> SExpr
        decreases self, 0nat,
    {
        match self {
            Expr::Id(name, start, _) => SExpr::Id(name@, *start),
            Expr::Num(n, _, _) => SExpr::Num(*n),
            Expr::StringLit(s, _, _) => SExpr::Str(s@),
            Expr::BoolLit(b, _, _) => SExpr::BoolLit(*b),
            Expr::Op(op, l, r) => SExpr::Op(*op, Box::new((**l).sview()), Box::new((**r).sview())),
            Expr::Not(e) => SExpr::Not(Box::new((**e).sview())),
            Expr::Neg(e, _, _) => SExpr::Neg(Box::new((**e).sview())),
            Expr::Call(name, args, _, _) => SExpr::Call(name@, exprs_view(args@)),
            Expr::ArrayLit(elems, _, _) => SExpr::ArrayLit(exprs_view(elems@)),
            Expr::Index(a, i, _, _) => SExpr::Index(Box::new((**a).sview()), Box::new((**i).sview())),
        }
    }
}

/// The models of a sequence of expressions.
pub open spec fn exprs_view(s: Seq<Expr>) -> Seq<SExpr>
    decreases s, s.len(),
{
    if s.len() == 0 {
        Seq::empty()
    } else {
        exprs_view(s.drop_last()).push(s.last().sview())
    }
}

/// The names of a sequence of strings.
pub open spec fn names_view(s: Seq<String>) -> Seq<Seq<char>> {
    s.map_values(|n: String| n@)
}

/// The names of a parameter list.
pub open spec fn params_view(s: Seq<(String, Type)>) -> Seq<Seq<char>> {
    s.map_values(|p: (String, Type)| p.0@)
}

/// The types of a parameter list.
pub open spec fn param_types(s: Seq<(String, Type)>) -> Seq<Type> {
    s.map_values(|p: (String, Type)| p.1)
}

impl Stmt {
    /// The model of this statement.
    pub open spec fn sview(&self) -> SStmt
        decreases self, 0nat,
    {
        match self {
            Stmt::If(c, t) => SStmt::If((**c).sview(), stmts_view(t@)),
            Stmt::IfElse(c, t, e) => SStmt::IfElse((**c).sview(), stmts_view(t@), stmts_view(e@)),
            Stmt::While(c, b) => SStmt::While((**c).sview(), stmts_view(b@)),
            Stmt::For(v, s, e, b) => SStmt::For(v@, (**s).sview(), (**e).sview(), stmts_view(b@)),
            Stmt::Assign(l, r) => SStmt::Assign((**l).sview(), (**r).sview()),
            Stmt::VarDecl(names, ty) => SStmt::VarDecl(names_view(names@), *ty),
            Stmt::Block(b) => SStmt::Block(stmts_view(b@)),
            Stmt::Expr(e) => SStmt::Expr((**e).sview()),
            Stmt::Print(e) => SStmt::Print((**e).sview()),
            Stmt::FuncDef(name, params, ret, body, _, _) => SStmt::FuncDef(
                name@,
                params_view(params@),
                param_types(params@),
                *ret,
                stmts_view(body@),
            ),
            Stmt::Return(e, _, _) => SStmt::Return(
                match e {
                    Some(x) => Some((**x).sview()),
                    None => None,
                },
            ),
        }
    }
}

/// The models of a sequence of statements.
pub open spec fn stmts_view(s: Seq<Stmt>) -> Seq<SStmt>
    decreases s, s.len(),
{
    if s.len() == 0 {
        Seq::empty()
    } else {
        stmts_view(s.drop_last()).push(s.last().sview())
    }
}

/// `exprs_view` keeps the length and maps each element.
pub proof fn lemma_exprs_view(s: Seq<Expr>)
    ensures
        exprs_view(s).len() == s.len(),
        forall|i: int| 0 <= i < s.len() ==> #[trigger] exprs_view(s)[i] == s[i].sview(),
    decreases s.len(),
{
    if s.len() > 0 {
        lemma_exprs_view(s.drop_last());
    }
}

/// `stmts_view` keeps the length and maps each element.
pub proof fn lemma_stmts_view(s: Seq<Stmt>)
    ensures
        stmts_view(s).len() == s.len(),
        forall|i: int| 0 <= i < s.len() ==> #[trigger] stmts_view(s)[i] == s[i].sview(),
    decreases s.len(),
{
    if s.len() > 0 {
        lemma_stmts_view(s.drop_last());
    }
}

/// Two sequences of expressions with the same element models have the same
/// model.
pub proof fn lemma_exprs_view_ext(a: Seq<Expr>, b: Seq<Expr>)
    requires
        a.len() == b.len(),
        forall|i: int| 0 <= i < a.len() ==> #[trigger] a[i].sview() == b[i].sview(),
    ensures
        exprs_view(a) == exprs_view(b),
{
    lemma_exprs_view(a);
    lemma_exprs_view(b);
    assert(exprs_view(a) =~= exprs_view(b));
}

/// Two sequences of statements with the same element models have the same
/// model.
pub proof fn lemma_stmts_view_ext(a: Seq<Stmt>, b: Seq<Stmt>)
    requires
        a.len() == b.len(),
        forall|i: int| 0 <= i < a.len() ==> #[trigger] a[i].sview() == b[i].sview(),
    ensures
        stmts_view(a) == stmts_view(b),
{
    lemma_stmts_view(a);
    lemma_stmts_view(b);
    assert(stmts_view(a) =~= stmts_view(b));
}

impl Type {
    /// A copy of this type.
    pub fn duplicate(&self) -> (r: Type)
        ensures
            r == *self,
        decreases self,
    {
        match self {
            Type::Int => Type::Int,
            Type::Float => Type::Float,
            Type::Bool => Type::Bool,
            Type::String => Type::String,
            Type::Array(t) => Type::Array(Box::new((**t).duplicate())),
        }
    }
}

impl Expr {
    /// A copy of this expression, with the same model.
    pub fn deep_copy(&self) -> (r: Expr)
        ensures
            r.sview() == self.sview(),
        decreases self, 1nat,
    {
        match self {
            Expr::Id(name, s, e) => Expr::Id(name.clone(), *s, *e),
            Expr::Num(n, s, e) => Expr::Num(*n, *s, *e),
            Expr::StringLit(t, s, e) => Expr::StringLit(t.clone(), *s, *e),
            Expr::BoolLit(b, s, e) => Expr::BoolLit(*b, *s, *e),
            Expr::Op(op, l, r) => Expr::Op(*op, Box::new((**l).deep_copy()), Box::new((**r).deep_copy())),
            Expr::Not(x) => Expr::Not(Box::new((**x).deep_copy())),
            Expr::Neg(x, s, e) => Expr::Neg(Box::new((**x).deep_copy()), *s, *e),
            Expr::Call(name, args, s, e) => Expr::Call(name.clone(), copy_exprs(args, Ghost(*self)), *s, *e),
            Expr::ArrayLit(elems, s, e) => Expr::ArrayLit(copy_exprs(elems, Ghost(*self)), *s, *e),
            Expr::Index(a, i, s, e) => Expr::Index(Box::new((**a).deep_copy()), Box::new((**i).deep_copy()), *s, *e),
        }
    }
}

/// Whether `a` is the list of expressions held directly by `owner`.
pub open spec fn holds_items(owner: Expr, a: Vec<Expr>) -> bool {
    match owner {
        Expr::Call(_, args, _, _) => args == a,
        Expr::ArrayLit(elems, _, _) => elems == a,
        _ => false,
    }
}

fn copy_exprs(a: &Vec<Expr>, Ghost(owner): Ghost<Expr>) -> (r: Vec<Expr>)
    requires
        holds_items(owner, *a),
    ensures
        exprs_view(r@) == exprs_view(a@),
    decreases owner, 0nat,
{
    let mut out: Vec<Expr> = Vec::new();
    let mut i: usize = 0;
    while i < a.len()
        invariant
            i <= a.len(),
            holds_items(owner, *a),
            out@.len() == i,
            forall|j: int| 0 <= j < i ==> #[trigger] out@[j].sview() == a@[j].sview(),
        decreases a.len() - i,
    {
        proof {
            match owner {
                Expr::Call(_, args, _, _) => {
                    assert(decreases_to!(owner => args));
                },
                Expr::ArrayLit(elems, _, _) => {
                    assert(decreases_to!(owner => elems));
                },
                _ => {},
            }
            assert(decreases_to!(*a => a@));
            assert(decreases_to!(a@ => a@[i as int]));
        }
        let x = a[i].deep_copy();
        out.push(x);
        i = i + 1;
    }
    proof {
        lemma_exprs_view_ext(out@, a@);
    }
    out
}

impl Stmt {
    /// A copy of this statement, with the same model.
    pub fn deep_copy(&self) -> (r: Stmt)
        ensures
            r.sview() == self.sview(),
        decreases self, 1nat,
    {
        match self {
            Stmt::If(c, t) => Stmt::If(Box::new((**c).deep_copy()), copy_stmts(t, Ghost(*self))),
            Stmt::IfElse(c, t, e) => Stmt::IfElse(
                Box::new((**c).deep_copy()),
                copy_stmts(t, Ghost(*self)),
                copy_stmts(e, Ghost(*self)),
            ),
            Stmt::While(c, b) => Stmt::While(Box::new((**c).deep_copy()), copy_stmts(b, Ghost(*self))),
            Stmt::For(v, s, e, b) => Stmt::For(
                v.clone(),
                Box::new((**s).deep_copy()),
                Box::new((**e).deep_copy()),
                copy_stmts(b, Ghost(*self)),
            ),
            Stmt::Assign(l, r) => Stmt::Assign(Box::new((**l).deep_copy()), Box::new((**r).deep_copy())),
            Stmt::VarDecl(names, ty) => {
                let ns = copy_names(names);
                Stmt::VarDecl(ns, ty.duplicate())
            },
            Stmt::Block(b) => Stmt::Block(copy_stmts(b, Ghost(*self))),
            Stmt::Expr(e) => Stmt::Expr(Box::new((**e).deep_copy())),
            Stmt::Print(e) => Stmt::Print(Box::new((**e).deep_copy())),
            Stmt::FuncDef(name, params, ret, body, s, e) => Stmt::FuncDef(
                name.clone(),
                copy_params(params),
                ret.duplicate(),
                copy_stmts(body, Ghost(*self)),
                *s,
                *e,
            ),
            Stmt::Return(x, s, e) => Stmt::Return(
                match x {
                    Some(v) => Some(Box::new((**v).deep_copy())),
                    None => None,
                },
                *s,
                *e,
            ),
        }
    }
}

/// Whether `b` is one of the statement lists held directly by `owner`.
pub open spec fn holds_body(owner: Stmt, b: Vec<Stmt>) -> bool {
    match owner {
        Stmt::If(_, t) => t == b,
        Stmt::IfElse(_, t, e) => t == b || e == b,
        Stmt::While(_, x) => x == b,
        Stmt::For(_, _, _, x) => x == b,
        Stmt::Block(x) => x == b,
        Stmt::FuncDef(_, _, _, x, _, _) => x == b,
        _ => false,
    }
}

fn copy_stmts(a: &Vec<Stmt>, Ghost(owner): Ghost<Stmt>) -> (r: Vec<Stmt>)
    requires
        holds_body(owner, *a),
    ensures
        stmts_view(r@) == stmts_view(a@),
    decreases owner, 0nat,
{
    let mut out: Vec<Stmt> = Vec::new();
    let mut i: usize = 0;
    while i < a.len()
        invariant
            i <= a.len(),
            holds_body(owner, *a),
            out@.len() == i,
            forall|j: int| 0 <= j < i ==> #[trigger] out@[j].sview() == a@[j].sview(),
        decreases a.len() - i,
    {
        proof {
            match owner {
                Stmt::If(_, t) => {
                    assert(decreases_to!(owner => t));
                },
                Stmt::IfElse(_, t, e) => {
                    assert(decreases_to!(owner => t));
                    assert(decreases_to!(owner => e));
                },
                Stmt::While(_, x) => {
                    assert(decreases_to!(owner => x));
                },
                Stmt::For(_, _, _, x) => {
                    assert(decreases_to!(owner => x));
                },
                Stmt::Block(x) => {
                    assert(decreases_to!(owner => x));
                },
                Stmt::FuncDef(_, _, _, x, _, _) => {
                    assert(decreases_to!(owner => x));
                },
                _ => {},
            }
            assert(decreases_to!(*a => a@));
            assert(decreases_to!(a@ => a@[i as int]));
        }
        let x = a[i].deep_copy();
        out.push(x);
        i = i + 1;
    }
    proof {
        lemma_stmts_view_ext(out@, a@);
    }
    out
}

/// Copies a list of names.
pub fn copy_names(a: &Vec<String>) -> (r: Vec<String>)
    ensures
        names_view(r@) == names_view(a@),
{
    let mut out: Vec<String> = Vec::new();
    let mut i: usize = 0;
    while i < a.len()
        invariant
            i <= a.len(),
            out@.len() == i,
            forall|j: int| 0 <= j < i ==> #[trigger] out@[j]@ == a@[j]@,
        decreases a.len() - i,
    {
        out.push(a[i].clone());
        i = i + 1;
    }
    proof {
        assert(names_view(out@) =~= names_view(a@));
    }
    out
}

/// Copies a parameter list.
pub fn copy_params(a: &Vec<(String, Type)>) -> (r: Vec<(String, Type)>)
    ensures
        params_view(r@) == params_view(a@),
        param_types(r@) == param_types(a@),
{
    let mut out: Vec<(String, Type)> = Vec::new();
    let mut i: usize = 0;
    while i < a.len()
        invariant
            i <= a.len(),
            out@.len() == i,
            forall|j: int| 0 <= j < i ==> (#[trigger] out@[j]).0@ == a@[j].0@ && out@[j].1 == a@[j].1,
        decreases a.len() - i,
    {
        let p = (a[i].0.clone(), a[i].1.duplicate());
        out.push(p);
        i = i + 1;
    }
    proof {
        assert(params_view(out@) =~= params_view(a@));
        assert(param_types(out@) =~= param_types(a@));
    }
    out
}

} // verus!
