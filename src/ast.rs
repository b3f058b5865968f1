use vstd::prelude::*;

verus! {

/// A position in the source text.
#[derive(Debug, Clone, Copy)]
pub struct SourceLocation {
    pub line: usize,
    pub col: i64,
}

/// An occurrence of a name, with where it was written.
#[derive(Debug, Clone)]
pub struct Symbol {
    pub name: Vec<u8>,
    pub line: usize,
    pub col: i64,
}

/// A literal value written in the source.
#[derive(Debug, Clone)]
pub enum Literal {
    /// The characters of a decimal number as written.
    Number(Vec<u8>),
    String(Vec<u8>),
    True,
    False,
    Nil,
}

#[derive(Debug, Clone, Copy, PartialEq, Eq, Structural)]
pub enum UnaryOpTy {
    Minus,
    Bang,
}

#[derive(Debug, Clone, Copy)]
pub struct UnaryOp {
    pub toktype: UnaryOpTy,
    pub line: usize,
    pub col: i64,
}

#[derive(Debug, Clone, Copy, PartialEq, Eq, Structural)]
pub enum BinaryOpTy {
    EqualEqual,
    NotEqual,
    Less,
    LessEqual,
    Greater,
    GreaterEqual,
    Plus,
    Minus,
    Star,
    Slash,
}

#[derive(Debug, Clone, Copy)]
pub struct BinaryOp {
    pub toktype: BinaryOpTy,
    pub line: usize,
    pub col: i64,
}

#[derive(Debug, Clone, Copy, PartialEq, Eq, Structural)]
pub enum LogicalOp {
    Or,
    And,
}

#[derive(Debug)]
pub enum Expr {
    Literal(Literal),
    This(SourceLocation),
    Unary(UnaryOp, Box<Expr>),
    Binary(Box<Expr>, BinaryOp, Box<Expr>),
    Call(Box<Expr>, SourceLocation, Vec<Expr>),
    Get(Box<Expr>, Symbol),
    Grouping(Box<Expr>),
    Variable(Symbol),
    Assign(Symbol, Box<Expr>),
    Logical(Box<Expr>, LogicalOp, Box<Expr>),
    SetAttr(Box<Expr>, Symbol, Box<Expr>),
    Super(SourceLocation, Symbol),
    List(Vec<Expr>),
    Subscript { value: Box<Expr>, slice: Box<Expr>, source_location: SourceLocation },
    SetItem { lhs: Box<Expr>, slice: Box<Expr>, rhs: Box<Expr>, source_location: SourceLocation },
    Lambda(LambdaDecl),
}

#[derive(Debug)]
pub struct FunDecl {
    pub name: Symbol,
    pub params: Vec<Symbol>,
    pub body: Vec<Stmt>,
}

#[derive(Debug)]
pub struct LambdaDecl {
    pub params: Vec<Symbol>,
    pub body: Vec<Stmt>,
}

#[derive(Debug)]
pub struct ClassDecl {
    pub name: Symbol,
    pub superclass: Option<Symbol>,
    pub methods: Vec<FunDecl>,
}

#[derive(Debug)]
pub enum Stmt {
    Expr(Expr),
    FunDecl(FunDecl),
    ClassDecl(ClassDecl),
    If(Expr, Box<Stmt>, Option<Box<Stmt>>),
    Print(Expr),
    VarDecl(Symbol, Option<Expr>),
    Block(Vec<Stmt>),
    Return(SourceLocation, Option<Expr>),
    While(Expr, Box<Stmt>),
}

// Mathematical models of the syntax tree: the same shapes, with sequences
// in place of vectors and integers in place of machine integers.

pub struct LocView {
    pub line: int,
    pub col: int,
}

pub struct SymbolView {
    pub name: Seq<u8>,
    pub line: int,
    pub col: int,
}

pub enum LiteralView {
    Number(Seq<u8>),
    String(Seq<u8>),
    True,
    False,
    Nil,
}

pub struct UnaryOpView {
    pub toktype: UnaryOpTy,
    pub line: int,
    pub col: int,
}

pub struct BinaryOpView {
    pub toktype: BinaryOpTy,
    pub line: int,
    pub col: int,
}

pub enum ExprView {
    Literal(LiteralView),
    This(LocView),
    Unary(UnaryOpView, Box<ExprView>),
    Binary(Box<ExprView>, BinaryOpView, Box<ExprView>),
    Call(Box<ExprView>, LocView, Seq<ExprView>),
    Get(Box<ExprView>, SymbolView),
    Grouping(Box<ExprView>),
    Variable(SymbolView),
    Assign(SymbolView, Box<ExprView>),
    Logical(Box<ExprView>, LogicalOp, Box<ExprView>),
    SetAttr(Box<ExprView>, SymbolView, Box<ExprView>),
    Super(LocView, SymbolView),
    List(Seq<ExprView>),
    Subscript { value: Box<ExprView>, slice: Box<ExprView>, loc: LocView },
    SetItem { lhs: Box<ExprView>, slice: Box<ExprView>, rhs: Box<ExprView>, loc: LocView },
    Lambda(Seq<SymbolView>, Seq<StmtView>),
}

pub struct FunDeclView {
    pub name: SymbolView,
    pub params: Seq<SymbolView>,
    pub body: Seq<StmtView>,
}

pub enum StmtView {
    Expr(ExprView),
    FunDecl(FunDeclView),
    ClassDecl { name: SymbolView, superclass: Option<SymbolView>, methods: Seq<FunDeclView> },
    If(ExprView, Box<StmtView>, Option<Box<StmtView>>),
    Print(ExprView),
    VarDecl(SymbolView, Option<ExprView>),
    Block(Seq<StmtView>),
    Return(LocView, Option<ExprView>),
    While(ExprView, Box<StmtView>),
}

impl View for SourceLocation {
    type V = LocView;

    open spec fn view(&self) -> LocView {
        LocView { line: self.line as int, col: self.col as int }
    }
}

impl View for Symbol {
    type V = SymbolView;

    open spec fn view(&self) -> SymbolView {
        SymbolView { name: self.name@, line: self.line as int, col: self.col as int }
    }
}

impl View for Literal {
    type V = LiteralView;

    open spec fn view(&self) -> LiteralView {
        match self {
            Literal::Number(d) => LiteralView::Number(d@),
            Literal::String(s) => LiteralView::String(s@),
            Literal::True => LiteralView::True,
            Literal::False => LiteralView::False,
            Literal::Nil => LiteralView::Nil,
        }
    }
}

impl View for UnaryOp {
    type V = UnaryOpView;

    open spec fn view(&self) -> UnaryOpView {
        UnaryOpView { toktype: self.toktype, line: self.line as int, col: self.col as int }
    }
}

impl View for BinaryOp {
    type V = BinaryOpView;

    open spec fn view(&self) -> BinaryOpView {
        BinaryOpView { toktype: self.toktype, line: self.line as int, col: self.col as int }
    }
}

pub open spec fn symbols_view(s: Seq<Symbol>) -> Seq<SymbolView> {
    s.map_values(|x: Symbol| x@)
}

pub open spec fn expr_view(e: Expr) -> ExprView
    decreases e, 0int,
{
    match e {
        Expr::Literal(l) => ExprView::Literal(l@),
        Expr::This(loc) => ExprView::This(loc@),
        Expr::Unary(op, r) => ExprView::Unary(op@, Box::new(expr_view(*r))),
        Expr::Binary(l, op, r) => ExprView::Binary(Box::new(expr_view(*l)), op@, Box::new(expr_view(*r))),
        Expr::Call(c, loc, args) => ExprView::Call(Box::new(expr_view(*c)), loc@, exprs_view(args@)),
        Expr::Get(o, a) => ExprView::Get(Box::new(expr_view(*o)), a@),
        Expr::Grouping(i) => ExprView::Grouping(Box::new(expr_view(*i))),
        Expr::Variable(s) => ExprView::Variable(s@),
        Expr::Assign(s, v) => ExprView::Assign(s@, Box::new(expr_view(*v))),
        Expr::Logical(l, op, r) => ExprView::Logical(Box::new(expr_view(*l)), op, Box::new(expr_view(*r))),
        Expr::SetAttr(o, a, v) => ExprView::SetAttr(Box::new(expr_view(*o)), a@, Box::new(expr_view(*v))),
        Expr::Super(loc, m) => ExprView::Super(loc@, m@),
        Expr::List(items) => ExprView::List(exprs_view(items@)),
        Expr::Subscript { value, slice, source_location } => ExprView::Subscript {
            value: Box::new(expr_view(*value)),
            slice: Box::new(expr_view(*slice)),
            loc: source_location@,
        },
        Expr::SetItem { lhs, slice, rhs, source_location } => ExprView::SetItem {
            lhs: Box::new(expr_view(*lhs)),
            slice: Box::new(expr_view(*slice)),
            rhs: Box::new(expr_view(*rhs)),
            loc: source_location@,
        },
        Expr::Lambda(d) => ExprView::Lambda(symbols_view(d.params@), stmts_view(d.body@)),
    }
}

pub open spec fn exprs_view(s: Seq<Expr>) -> Seq<ExprView>
    decreases s, 0int,
{
    if s.len() == 0 {
        Seq::empty()
    } else {
        exprs_view(s.subrange(0, s.len() - 1)).push(expr_view(s[s.len() - 1]))
    }
}

pub open spec fn fun_decl_view(f: FunDecl) -> FunDeclView
    decreases f, 0int,
{
    FunDeclView { name: f.name@, params: symbols_view(f.params@), body: stmts_view(f.body@) }
}

pub open spec fn fun_decls_view(s: Seq<FunDecl>) -> Seq<FunDeclView>
    decreases s, 0int,
{
    if s.len() == 0 {
        Seq::empty()
    } else {
        fun_decls_view(s.subrange(0, s.len() - 1)).push(fun_decl_view(s[s.len() - 1]))
    }
}

pub open spec fn stmt_view(s: Stmt) -> StmtView
    decreases s, 0int,
{
    match s {
        Stmt::Expr(e) => StmtView::Expr(expr_view(e)),
        Stmt::FunDecl(f) => StmtView::FunDecl(fun_decl_view(f)),
        Stmt::ClassDecl(c) => StmtView::ClassDecl {
            name: c.name@,
            superclass: match c.superclass {
                Some(sc) => Some(sc@),
                None => None,
            },
            methods: fun_decls_view(c.methods@),
        },
        Stmt::If(c, t, e) => StmtView::If(
            expr_view(c),
            Box::new(stmt_view(*t)),
            match e {
                Some(b) => Some(Box::new(stmt_view(*b))),
                None => None,
            },
        ),
        Stmt::Print(e) => StmtView::Print(expr_view(e)),
        Stmt::VarDecl(n, i) => StmtView::VarDecl(
            n@,
            match i {
                Some(x) => Some(expr_view(x)),
                None => None,
            },
        ),
        Stmt::Block(b) => StmtView::Block(stmts_view(b@)),
        Stmt::Return(loc, v) => StmtView::Return(
            loc@,
            match v {
                Some(x) => Some(expr_view(x)),
                None => None,
            },
        ),
        Stmt::While(c, b) => StmtView::While(expr_view(c), Box::new(stmt_view(*b))),
    }
}

pub open spec fn stmts_view(s: Seq<Stmt>) -> Seq<StmtView>
    decreases s, 0int,
{
    if s.len() == 0 {
        Seq::empty()
    } else {
        stmts_view(s.subrange(0, s.len() - 1)).push(stmt_view(s[s.len() - 1]))
    }
}

impl View for Expr {
    type V = ExprView;

    open spec fn view(&self) -> ExprView {
        expr_view(*self)
    }
}

impl View for Stmt {
    type V = StmtView;

    open spec fn view(&self) -> StmtView {
        stmt_view(*self)
    }
}

impl View for FunDecl {
    type V = FunDeclView;

    open spec fn view(&self) -> FunDeclView {
        fun_decl_view(*self)
    }
}

pub proof fn lemma_exprs_view_push(s: Seq<Expr>, x: Expr)
    ensures
        exprs_view(s.push(x)) == exprs_view(s).push(expr_view(x)),
{
    assert(s.push(x).subrange(0, s.len() as int) =~= s);
}

pub proof fn lemma_exprs_view_len(s: Seq<Expr>)
    ensures
        exprs_view(s).len() == s.len(),
    decreases s.len(),
{
    if s.len() > 0 {
        lemma_exprs_view_len(s.subrange(0, s.len() - 1));
    }
}

pub proof fn lemma_stmts_view_push(s: Seq<Stmt>, x: Stmt)
    ensures
        stmts_view(s.push(x)) == stmts_view(s).push(stmt_view(x)),
{
    assert(s.push(x).subrange(0, s.len() as int) =~= s);
}

pub proof fn lemma_fun_decls_view_push(s: Seq<FunDecl>, x: FunDecl)
    ensures
        fun_decls_view(s.push(x)) == fun_decls_view(s).push(fun_decl_view(x)),
{
    assert(s.push(x).subrange(0, s.len() as int) =~= s);
}

pub proof fn lemma_stmts_view(s: Seq<Stmt>)
    ensures
        stmts_view(s).len() == s.len(),
        forall|i: int| 0 <= i < s.len() ==> #[trigger] stmts_view(s)[i] == stmt_view(s[i]),
    decreases s.len(),
{
    if s.len() > 0 {
        let init = s.subrange(0, s.len() - 1);
        lemma_stmts_view(init);
        assert forall|i: int| 0 <= i < s.len() implies #[trigger] stmts_view(s)[i] == stmt_view(s[i]) by {
            if i < s.len() - 1 {
                assert(init[i] == s[i]);
            }
        }
    }
}

} // verus!
