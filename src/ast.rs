//! The syntax tree, and its mathematical view.
use vstd::prelude::*;
use crate::lexer::{KeyWord, Token, TokenV};
use crate::parser::{ParseError, ParseErrorV};

verus! {

/// A parsed unit: its declarations and the errors met on the way.
#[derive(Debug)]
pub struct AST {
    pub decls: GlobalDecl,
    pub errors: Vec<Diagnostic>,
}

/// An error with the number of line breaks before the point where it was
/// found.
#[derive(Debug)]
pub struct Diagnostic {
    pub error: ParseError,
    pub line: usize,
}

/// The top-level declarations, each list in declaration order.
#[derive(Debug)]
pub struct GlobalDecl {
    pub list: Vec<ValueSepc>,
    pub funcs: Vec<FuncDecl>,
}

#[derive(Debug)]
pub struct FuncDecl {
    pub typ: KeyWord,
    pub fn_name: Ident,
    pub params: Vec<Param>,
    pub body: FuncBody,
}

#[derive(Debug)]
pub struct FuncBody {
    pub list: Vec<StmtNode>,
}

#[derive(Debug)]
pub struct Param {
    pub ident: Ident,
    pub typ: KeyWord,
}

#[derive(Debug)]
pub struct Ident {
    pub name: String,
}

#[derive(Debug)]
pub struct AssignStmt {
    pub x: ExprNode,
    pub op: Token,
    pub y: ExprNode,
}

/// A declaration of one or more names of one type. `names` is never empty.
#[derive(Debug)]
pub struct ValueSepc {
    pub names: Vec<Ident>,
    pub typ: KeyWord,
}

#[derive(Debug)]
pub enum StmtNode {
    ValueSepc(ValueSepc),
    AssignStmt(AssignStmt),
}

#[derive(Debug)]
pub enum ExprNode {
    IdentExpr(Ident),
    UnaryExpr(UnaryExpr),
    BinaryExpr(BinaryExpr),
    ParenExpr(ParenExpr),
}

#[derive(Debug)]
pub struct BinaryExpr {
    pub x: Box<ExprNode>,
    pub op: Token,
    pub y: Box<ExprNode>,
}

#[derive(Debug)]
pub struct UnaryExpr {
    pub op: Token,
    pub x: Box<ExprNode>,
}

#[derive(Debug)]
pub struct ParenExpr {
    pub x: Box<ExprNode>,
}

/// Statement kinds.
pub trait Stmt {
    fn stmt_node(self) -> StmtNode;
}

impl Stmt for StmtNode {
    fn stmt_node(self) -> StmtNode {
        self
    }
}

impl Stmt for ValueSepc {
    fn stmt_node(self) -> StmtNode {
        StmtNode::ValueSepc(self)
    }
}

impl Stmt for AssignStmt {
    fn stmt_node(self) -> StmtNode {
        StmtNode::AssignStmt(self)
    }
}

/// Expression kinds.
pub trait Expr {
    fn expr_node(self) -> ExprNode;
}

impl Expr for ExprNode {
    fn expr_node(self) -> ExprNode {
        self
    }
}

impl Expr for BinaryExpr {
    fn expr_node(self) -> ExprNode {
        ExprNode::BinaryExpr(self)
    }
}

impl Expr for UnaryExpr {
    fn expr_node(self) -> ExprNode {
        ExprNode::UnaryExpr(self)
    }
}

impl Expr for ParenExpr {
    fn expr_node(self) -> ExprNode {
        ExprNode::ParenExpr(self)
    }
}

// ---- the trees as mathematical values ----

pub enum ExprV {
    Ident(Seq<char>),
    Unary(TokenV, Box<ExprV>),
    Binary(Box<ExprV>, TokenV, Box<ExprV>),
    Paren(Box<ExprV>),
}

pub struct ValueSpecV {
    pub names: Seq<Seq<char>>,
    pub typ: KeyWord,
}

pub enum StmtV {
    Value(ValueSpecV),
    Assign(ExprV, TokenV, ExprV),
}

pub struct ParamV {
    pub name: Seq<char>,
    pub typ: KeyWord,
}

pub struct FuncV {
    pub typ: KeyWord,
    pub name: Seq<char>,
    pub params: Seq<ParamV>,
    pub body: Seq<StmtV>,
}

pub struct DiagnosticV {
    pub error: ParseErrorV,
    pub line: int,
}

/// Declarations, function declarations and errors, each in order.
pub struct ProgramV {
    pub decls: Seq<ValueSpecV>,
    pub funcs: Seq<FuncV>,
    pub errors: Seq<DiagnosticV>,
}

pub open spec fn expr_view(e: ExprNode) -> ExprV
    decreases e,
{
    match e {
        ExprNode::IdentExpr(i) => ExprV::Ident(i.name@),
        ExprNode::UnaryExpr(u) => ExprV::Unary(u.op@, Box::new(expr_view(*u.x))),
        ExprNode::BinaryExpr(b) => ExprV::Binary(
            Box::new(expr_view(*b.x)),
            b.op@,
            Box::new(expr_view(*b.y)),
        ),
        ExprNode::ParenExpr(p) => ExprV::Paren(Box::new(expr_view(*p.x))),
    }
}

impl View for ExprNode {
    type V = ExprV;

    open spec fn view(&self) -> ExprV {
        expr_view(*self)
    }
}

impl View for Ident {
    type V = Seq<char>;

    open spec fn view(&self) -> Seq<char> {
        self.name@
    }
}

pub open spec fn names_of(v: Seq<Ident>) -> Seq<Seq<char>> {
    v.map_values(|i: Ident| i@)
}

impl View for ValueSepc {
    type V = ValueSpecV;

    open spec fn view(&self) -> ValueSpecV {
        ValueSpecV { names: names_of(self.names@), typ: self.typ }
    }
}

impl View for StmtNode {
    type V = StmtV;

    open spec fn view(&self) -> StmtV {
        match self {
            StmtNode::ValueSepc(v) => StmtV::Value(v@),
            StmtNode::AssignStmt(a) => StmtV::Assign(a.x@, a.op@, a.y@),
        }
    }
}

impl View for Param {
    type V = ParamV;

    open spec fn view(&self) -> ParamV {
        ParamV { name: self.ident@, typ: self.typ }
    }
}

pub open spec fn stmts_of(v: Seq<StmtNode>) -> Seq<StmtV> {
    v.map_values(|s: StmtNode| s@)
}

pub open spec fn params_of(v: Seq<Param>) -> Seq<ParamV> {
    v.map_values(|p: Param| p@)
}

impl View for FuncDecl {
    type V = FuncV;

    open spec fn view(&self) -> FuncV {
        FuncV {
            typ: self.typ,
            name: self.fn_name@,
            params: params_of(self.params@),
            body: stmts_of(self.body.list@),
        }
    }
}

pub open spec fn decls_of(v: Seq<ValueSepc>) -> Seq<ValueSpecV> {
    v.map_values(|d: ValueSepc| d@)
}

pub open spec fn funcs_of(v: Seq<FuncDecl>) -> Seq<FuncV> {
    v.map_values(|f: FuncDecl| f@)
}

impl View for Diagnostic {
    type V = DiagnosticV;

    open spec fn view(&self) -> DiagnosticV {
        DiagnosticV { error: self.error@, line: self.line as int }
    }
}

pub open spec fn errors_of(v: Seq<Diagnostic>) -> Seq<DiagnosticV> {
    v.map_values(|d: Diagnostic| d@)
}

impl View for AST {
    type V = ProgramV;

    open spec fn view(&self) -> ProgramV {
        ProgramV {
            decls: decls_of(self.decls.list@),
            funcs: funcs_of(self.decls.funcs@),
            errors: errors_of(self.errors@),
        }
    }
}

} // verus!
