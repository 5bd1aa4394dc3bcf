use vstd::prelude::*;

verus! {

/// A binary operator of the expression grammar.
#[derive(Debug, Clone, Copy, PartialEq, Eq, Structural)]
pub enum BinOperator {
    Add,
    Sub,
    Mul,
    Div,
    Eq,
    Lt,
    Gt,
}

/// An expression node.  Unary minus never appears here: the parser lowers
/// `-e` to the synthetic `0 - e`.
#[derive(Debug)]
pub enum Expr {
    Number(i32),
    String(String),
    Variable(String),
    BinOp { left: Box<Expr>, op: BinOperator, right: Box<Expr> },
}

/// A statement node.  `Import` is parsed but never lowered to bytecode;
/// module resolution is an external collaborator's job.
#[derive(Debug)]
pub enum Statement {
    VarDecl { name: String, value: Expr },
    Assignment { target: String, value: Expr },
    Print { expr: Expr },
    If { condition: Expr, then_body: Vec<Statement>, else_body: Option<Vec<Statement>> },
    While { condition: Expr, body: Vec<Statement> },
    Import { module: String },
}

/// An ordered sequence of statements: the parser's sole output, consumed
/// by code generation.
#[derive(Debug)]
pub struct Program {
    pub statements: Vec<Statement>,
}

impl Program {
    /// An empty program.
    pub fn new() -> (p: Self)
        ensures
            p.statements@ == Seq::<Statement>::empty(),
    {
        Self { statements: Vec::new() }
    }
}

/// The mathematical shape of an expression: names and text as character
/// sequences, structure unchanged.
pub enum ExprV {
    Number(i32),
    Text(Seq<char>),
    Variable(Seq<char>),
    BinOp { left: Box<ExprV>, op: BinOperator, right: Box<ExprV> },
}

/// The mathematical shape of a statement.
pub enum StmtV {
    VarDecl { name: Seq<char>, value: ExprV },
    Assignment { target: Seq<char>, value: ExprV },
    Print { expr: ExprV },
    If { condition: ExprV, then_body: Seq<StmtV>, else_body: Option<Seq<StmtV>> },
    While { condition: ExprV, body: Seq<StmtV> },
    Import { module: Seq<char> },
}

/// The shape of an expression node.
pub open spec fn view_expr(e: Expr) -> ExprV
    decreases e,
{
    match e {
        Expr::Number(n) => ExprV::Number(n),
        Expr::String(s) => ExprV::Text(s@),
        Expr::Variable(s) => ExprV::Variable(s@),
        Expr::BinOp { left, op, right } => ExprV::BinOp {
            left: Box::new(view_expr(*left)),
            op: op,
            right: Box::new(view_expr(*right)),
        },
    }
}

/// The shape of a statement node.
pub open spec fn view_stmt(s: Statement) -> StmtV
    decreases s,
{
    match s {
        Statement::VarDecl { name, value } => StmtV::VarDecl {
            name: name@,
            value: view_expr(value),
        },
        Statement::Assignment { target, value } => StmtV::Assignment {
            target: target@,
            value: view_expr(value),
        },
        Statement::Print { expr } => StmtV::Print { expr: view_expr(expr) },
        Statement::If { condition, then_body, else_body } => StmtV::If {
            condition: view_expr(condition),
            then_body: view_stmts(then_body@),
            else_body: match else_body {
                Some(b) => Some(view_stmts(b@)),
                None => None,
            },
        },
        Statement::While { condition, body } => StmtV::While {
            condition: view_expr(condition),
            body: view_stmts(body@),
        },
        Statement::Import { module } => StmtV::Import { module: module@ },
    }
}

/// The shape of a statement list.
pub open spec fn view_stmts(v: Seq<Statement>) -> Seq<StmtV>
    decreases v,
{
    if v.len() == 0 {
        Seq::empty()
    } else {
        seq![view_stmt(v.first())] + view_stmts(v.drop_first())
    }
}

/// `view_stmts` maps the list element by element.
pub proof fn lemma_view_stmts_index(v: Seq<Statement>, i: int)
    requires
        0 <= i < v.len(),
    ensures
        view_stmts(v).len() == v.len(),
        view_stmts(v)[i] == view_stmt(v[i]),
    decreases v.len(),
{
    lemma_view_stmts_len(v);
    if i > 0 {
        lemma_view_stmts_index(v.drop_first(), i - 1);
    }
}

/// Viewing one more statement appends one more shape.
pub proof fn lemma_view_stmts_push(v: Seq<Statement>, s: Statement)
    ensures
        view_stmts(v.push(s)) == view_stmts(v).push(view_stmt(s)),
    decreases v.len(),
{
    if v.len() == 0 {
        assert(v.push(s).drop_first() =~= Seq::<Statement>::empty());
        assert(view_stmts(v) == Seq::<StmtV>::empty());
        assert(v.push(s).len() == 1);
        assert(v.push(s).first() == s);
        assert(view_stmts(v.push(s)) == seq![view_stmt(s)] + view_stmts(
            v.push(s).drop_first(),
        ));
        assert(view_stmts(v.push(s).drop_first()) == Seq::<StmtV>::empty());
        assert(view_stmts(v.push(s)) =~= view_stmts(v).push(view_stmt(s)));
    } else {
        assert(v.push(s).first() == v.first());
        assert(v.push(s).drop_first() =~= v.drop_first().push(s));
        assert(view_stmts(v.push(s)) == seq![view_stmt(v.first())] + view_stmts(
            v.drop_first().push(s),
        ));
        lemma_view_stmts_push(v.drop_first(), s);
        assert(view_stmts(v.push(s)) == seq![view_stmt(v.first())] + view_stmts(
            v.drop_first(),
        ).push(view_stmt(s)));
        assert(view_stmts(v) == seq![view_stmt(v.first())] + view_stmts(v.drop_first()));
        assert(view_stmts(v.push(s)) =~= view_stmts(v).push(view_stmt(s)));
    }
}

/// `view_stmts` preserves length.
pub proof fn lemma_view_stmts_len(v: Seq<Statement>)
    ensures
        view_stmts(v).len() == v.len(),
    decreases v.len(),
{
    if v.len() > 0 {
        lemma_view_stmts_len(v.drop_first());
    }
}

} // verus!
