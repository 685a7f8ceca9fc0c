//! Abstract Syntax Tree (AST) definition
use vstd::prelude::*;
use vstd::string::StringSliceAdditionalSpecFns;
use crate::lexer::TkType;


verus! {

/// Represents a type
#[derive(Debug)]
pub enum Ty {
    Void,
    Unknown,  // an unknown type during parsing, must be infered by the type-checker
    Error,
}

/// Represents an literal
#[derive(Debug)]
pub enum Literal {
    Integer(isize),
}

/// Represents an expression
#[derive(Debug)]
pub enum Expr<'expr> {
    Literal(Literal),
    Id(&'expr str),
    Error((usize, usize)),
}

/// Represents a statement
#[derive(Debug)]
pub enum Stmt<'stmt> {
    VarDecl { name: &'stmt str, ty: Ty, expr: Expr<'stmt> },
    Block { stmts: Vec<Stmt<'stmt>> },
    Error((usize, usize)),
}

/// Represents an item inside an module ([`AstModule`])
#[derive(Debug)]
pub enum AstItem<'item> {
    Function { name: &'item str, args: Vec<(Expr<'item>, Ty)>, ret: Ty, body: Stmt<'item> },
    Error((usize, usize)),
}

/// Represents a single compilation unit (a single file)
#[derive(Debug)]
pub struct AstModule<'module> {
    pub file_id: usize,
    pub items: Vec<AstItem<'module>>,
}

/// A node of the tree that the semantic analyzer, the type checker and the C
/// back end work on. Names and string literals are byte ranges of the source;
/// a float literal is held as the decimal text of its value.
#[derive(Debug)]
pub enum Node {
    Integer(i64),
    Float(String),
    Bool(bool),
    Str(usize, usize),
    Id(usize, usize),
    BinOp { left: Box<Node>, right: Box<Node>, op: TkType },
    Unary { right: Box<Node>, op: TkType },
    VarDecl { name_s: usize, name_e: usize, vtype: TkType, value: Box<Node> },
    VarReassing { name_s: usize, name_e: usize, value: Box<Node> },
    Block(Vec<Node>),
    FuncDecl {
        name_s: usize,
        name_e: usize,
        args: Vec<(usize, usize, TkType)>,
        rtype: TkType,
        body: Option<Box<Node>>,
        is_extern: bool,
    },
    Return(Box<Node>),
    FuncCall { name: Box<Node>, args: Vec<Node> },
    While { cond: Box<Node>, body: Box<Node> },
    If { cond: Box<Node>, then_br: Box<Node>, else_br: Option<Box<Node>> },
}

/// The value of an [`Expr`]: names are taken by their bytes.
pub enum ExprV {
    Literal(Literal),
    Id(Seq<u8>),
    Error((usize, usize)),
}

/// The value of a [`Stmt`].
pub enum StmtV {
    VarDecl { name: Seq<u8>, ty: Ty, expr: ExprV },
    Block { stmts: Seq<StmtV> },
    Error((usize, usize)),
}

/// The value of an [`AstItem`].
pub enum AstItemV {
    Function { name: Seq<u8>, args: Seq<(ExprV, Ty)>, ret: Ty, body: StmtV },
    Error((usize, usize)),
}

/// The value of an [`AstModule`].
pub struct AstModuleV {
    pub file_id: usize,
    pub items: Seq<AstItemV>,
}

impl<'expr> View for Expr<'expr> {
    type V = ExprV;

    open spec fn view(&self) -> ExprV {
        match self {
            Expr::Literal(l) => ExprV::Literal(*l),
            Expr::Id(s) => ExprV::Id(s.spec_bytes()),
            Expr::Error(sp) => ExprV::Error(*sp),
        }
    }
}

impl<'stmt> View for Stmt<'stmt> {
    type V = StmtV;

    open spec fn view(&self) -> StmtV
        decreases self,
    {
        match self {
            Stmt::VarDecl { name, ty, expr } => StmtV::VarDecl {
                name: name.spec_bytes(),
                ty: *ty,
                expr: expr@,
            },
            Stmt::Block { stmts } => StmtV::Block { stmts: stmts_view(stmts@, stmts@.len() as int) },
            Stmt::Error(sp) => StmtV::Error(*sp),
        }
    }
}

/// The values of the first `k` statements of `s`.
pub open spec fn stmts_view<'a>(s: Seq<Stmt<'a>>, k: int) -> Seq<StmtV>
    decreases s, k,
{
    if k <= 0 || k > s.len() {
        seq![]
    } else {
        stmts_view(s, k - 1).push(s[k - 1].view())
    }
}

impl<'item> View for AstItem<'item> {
    type V = AstItemV;

    open spec fn view(&self) -> AstItemV {
        match self {
            AstItem::Function { name, args, ret, body } => AstItemV::Function {
                name: name.spec_bytes(),
                args: args@.map_values(|a: (Expr<'item>, Ty)| (a.0@, a.1)),
                ret: *ret,
                body: body@,
            },
            AstItem::Error(sp) => AstItemV::Error(*sp),
        }
    }
}

impl<'module> View for AstModule<'module> {
    type V = AstModuleV;

    open spec fn view(&self) -> AstModuleV {
        AstModuleV { file_id: self.file_id, items: self.items@.map_values(|i: AstItem<'module>| i@) }
    }
}

/// The values of a sequence of statements.
pub open spec fn stmt_seq_view<'a>(s: Seq<Stmt<'a>>) -> Seq<StmtV> {
    stmts_view(s, s.len() as int)
}

proof fn lemma_stmts_view_prefix<'a>(s: Seq<Stmt<'a>>, x: Stmt<'a>, k: int)
    requires
        0 <= k <= s.len(),
    ensures
        stmts_view(s.push(x), k) == stmts_view(s, k),
    decreases k,
{
    if k > 0 {
        lemma_stmts_view_prefix(s, x, k - 1);
        assert(s.push(x)[k - 1] == s[k - 1]);
    }
}

/// Appending a statement appends its value.
pub proof fn lemma_stmt_seq_view_push<'a>(s: Seq<Stmt<'a>>, x: Stmt<'a>)
    ensures
        stmt_seq_view(s.push(x)) == stmt_seq_view(s).push(x@),
{
    lemma_stmts_view_prefix(s, x, s.len() as int);
    assert(s.push(x)[s.len() as int] == x);
}

} // verus!
