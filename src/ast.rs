use vstd::prelude::*;

verus! {

/// A literal of the surface language. Floats are held by their IEEE-754 bit
/// pattern; a well-formed literal never holds that of a NaN.
#[derive(Debug, Clone)]
pub enum Literal {
    Integer(i64),
    Float(u64),
    Bool(bool),
    String(String),
    Unit,
}

impl Literal {
    pub open spec fn wf(&self) -> bool {
        *self matches Literal::Float(b) ==> crate::value::not_nan(b)
    }
}

#[derive(Debug, Clone)]
pub enum Pattern {
    Identifier(String),
}

#[derive(Debug, Clone)]
pub enum Modifier {
    Pub,
    Rec,
}

#[derive(Debug)]
pub struct LetBinding {
    pub pattern: Pattern,
    pub value: Expr,
}

#[derive(Debug)]
pub struct FnDeclaration {
    pub name: String,
    pub args: Vec<Pattern>,
    pub body: ExprBlock,
}

#[derive(Debug)]
pub struct IfElse {
    pub cond: Expr,
    pub if_expr: Expr,
    pub else_expr: Expr,
}

#[derive(Debug)]
pub struct Match {
    pub scrut: Expr,
}

/// A block of declarations and an optional trailing value; of the modifiers
/// only `rec` applies here.
#[derive(Debug)]
pub struct ExprBlock {
    pub mods: Vec<Modifier>,
    pub decls: Vec<Declaration>,
    pub value: Option<Expr>,
}

#[derive(Debug)]
pub struct Record {
    pub fields: Vec<(String, Expr)>,
}

#[derive(Debug)]
pub struct Tuple {
    pub fields: Vec<Expr>,
}

#[derive(Debug)]
pub struct List {
    pub elems: Vec<Expr>,
}

#[derive(Debug)]
pub enum Expr {
    Literal(Literal),
    Identifier(String),
    Tuple(Tuple),
    Record(Record),
    List(List),
    IfElse(Box<IfElse>),
    Match(Box<Match>),
    Block(Box<ExprBlock>),
    Unary(String, Box<Expr>),
    Infix(Box<Infix>),
    Project(Box<Expr>, String),
    Index(Box<Expr>, Box<Expr>),
    Call(Box<Expr>, Vec<Expr>),
}

/// A left operand followed by operator and operand pairs, in source order.
#[derive(Debug)]
pub struct Infix {
    pub lhs: Expr,
    pub rhs: Vec<(String, Expr)>,
}

#[derive(Debug)]
pub enum Declaration {
    Let(LetBinding),
    Fn(FnDeclaration),
}

/// A block of declarations only.
#[derive(Debug)]
pub struct DeclBlock {
    pub mods: Vec<Modifier>,
    pub decls: Vec<Declaration>,
}

/// One input to the REPL.
#[derive(Debug)]
pub enum ReplInput {
    /// An expression to evaluate; it may name a command.
    Expr(Expr),
    /// A command expression with its raw, unparsed argument tokens.
    CommandInvoke(Expr, Vec<String>),
    Declaration(Declaration),
}

} // verus!
