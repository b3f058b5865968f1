use vstd::prelude::*;
use crate::ast::{
    exprs_view, fun_decls_view, lemma_exprs_view_len, lemma_exprs_view_push, lemma_fun_decls_view_push,
    lemma_stmts_view_push, stmts_view, symbols_view, BinaryOp, BinaryOpTy, ClassDecl, Expr, ExprView, FunDecl,
    FunDeclView, LambdaDecl, Literal, LogicalOp, SourceLocation, StmtView, Stmt, Symbol, SymbolView, UnaryOp,
    UnaryOpTy,
};
use crate::grammar::{
    arguments_at, assignment_at, at_end, binary_op_of, block_at, call_at, callable_at, checks,
    class_decl_at, combine, consume, declaration_at, declarations_at, elements_at, expression_at,
    expression_statement_at, finish_call_at, for_at, fun_decl_at, if_at, level_at, level_op, level_tail, loc_of,
    methods_at, operand_at, optional_expression_at, params_at, primary_at, program, program_declaring, return_at,
    statement_at, suffix_at, symbol_of, tokens_wf, unary_at, unary_op_of, var_decl_at, while_at, Callable, Res,
    declaring_at, whole, desugar_for,
};
use crate::lexer;
use crate::lexer::{tokens_view, Token, TokenType, TokenView};

verus! {

/// Optional grammar productions, switched on per parse.
#[derive(Debug, Clone, Copy, PartialEq, Eq, Structural)]
pub struct Extensions {
    /// `[a, b]` list literals, `x[i]` subscripts and `x[i] = v`.
    pub lists: bool,
    /// `lambda (params) { body }` expressions.
    pub lambdas: bool,
}

impl Default for Extensions {
    /// Every extension switched off.
    fn default() -> (r: Extensions)
        ensures
            !r.lists,
            !r.lambdas,
    {
        Extensions { lists: false, lambdas: false }
    }
}

/// The kind of callable whose parameter list is being read.
#[derive(Debug, Clone, Copy, PartialEq, Eq, Structural)]
pub enum FunctionKind {
    Function,
    Method,
    Lambda,
}

/// What the parser was looking for when it found another token.
#[derive(Debug, Clone, Copy, PartialEq, Eq, Structural)]
pub enum Expectation {
    ClassName,
    SuperclassName,
    BraceAfterClassName,
    BraceAfterClassBody,
    FunctionName(FunctionKind),
    ParenAfterName(FunctionKind),
    ParameterName,
    ParenAfterParameters,
    BraceBeforeBody,
    VariableName,
    SemicolonAfterVarDecl,
    SemicolonAfterReturnValue,
    ParenAfterFor,
    SemicolonAfterLoopCondition,
    ParenAfterForClauses,
    ParenAfterWhile,
    ParenAfterWhileCondition,
    ParenAfterIf,
    ParenAfterIfCondition,
    BraceAfterBlock,
    SemicolonAfterValue,
    BracketAfterSubscript,
    ParenAfterArguments,
    DotAfterSuper,
    SuperclassMethodName,
    ParenAfterExpression,
    BracketAfterList,
}

/// A syntax error, with the place of the offending token.
#[derive(Debug)]
pub enum Error {
    UnexpectedToken(Token),
    TokenMismatch { expected: TokenType, found: Token, context: Expectation },
    MaxParamsExceeded { kind: FunctionKind, line: usize, col: i64 },
    ReturnNotInFun { line: usize, col: i64 },
    InvalidAssignment { line: usize, col: i64 },
    TooManyArguments { line: usize, col: i64 },
    ExpectedExpression { token_type: TokenType, line: usize, col: i64 },
    InvalidTokenInUnaryOp { token_type: TokenType, line: usize, col: i64 },
    InvalidTokenInBinaryOp { token_type: TokenType, line: usize, col: i64 },
}

/// Mathematical model of an [`Error`].
pub enum ErrorView {
    UnexpectedToken(TokenView),
    TokenMismatch { expected: TokenType, found: TokenView, context: Expectation },
    MaxParamsExceeded { kind: FunctionKind, line: int, col: int },
    ReturnNotInFun { line: int, col: int },
    InvalidAssignment { line: int, col: int },
    TooManyArguments { line: int, col: int },
    ExpectedExpression { token_type: TokenType, line: int, col: int },
    InvalidTokenInUnaryOp { token_type: TokenType, line: int, col: int },
    InvalidTokenInBinaryOp { token_type: TokenType, line: int, col: int },
}

impl View for Error {
    type V = ErrorView;

    open spec fn view(&self) -> ErrorView {
        match self {
            Error::UnexpectedToken(t) => ErrorView::UnexpectedToken(t@),
            Error::TokenMismatch { expected, found, context } => ErrorView::TokenMismatch {
                expected: *expected,
                found: found@,
                context: *context,
            },
            Error::MaxParamsExceeded { kind, line, col } => ErrorView::MaxParamsExceeded {
                kind: *kind,
                line: *line as int,
                col: *col as int,
            },
            Error::ReturnNotInFun { line, col } => ErrorView::ReturnNotInFun { line: *line as int, col: *col as int },
            Error::InvalidAssignment { line, col } => ErrorView::InvalidAssignment { line: *line as int, col: *col as int },
            Error::TooManyArguments { line, col } => ErrorView::TooManyArguments { line: *line as int, col: *col as int },
            Error::ExpectedExpression { token_type, line, col } => ErrorView::ExpectedExpression {
                token_type: *token_type,
                line: *line as int,
                col: *col as int,
            },
            Error::InvalidTokenInUnaryOp { token_type, line, col } => ErrorView::InvalidTokenInUnaryOp {
                token_type: *token_type,
                line: *line as int,
                col: *col as int,
            },
            Error::InvalidTokenInBinaryOp { token_type, line, col } => ErrorView::InvalidTokenInBinaryOp {
                token_type: *token_type,
                line: *line as int,
                col: *col as int,
            },
        }
    }
}


pub open spec fn expr_res(r: Result<(Expr, usize), Error>) -> Res<ExprView> {
    match r {
        Ok((e, q)) => Ok((e@, q as int)),
        Err(x) => Err(x@),
    }
}

pub open spec fn stmt_res(r: Result<(Stmt, usize), Error>) -> Res<StmtView> {
    match r {
        Ok((s, q)) => Ok((s@, q as int)),
        Err(x) => Err(x@),
    }
}

pub open spec fn stmts_res(r: Result<(Vec<Stmt>, usize), Error>) -> Res<Seq<StmtView>> {
    match r {
        Ok((s, q)) => Ok((stmts_view(s@), q as int)),
        Err(x) => Err(x@),
    }
}

pub open spec fn fun_decl_res(r: Result<(FunDecl, usize), Error>) -> Res<FunDeclView> {
    match r {
        Ok((f, q)) => Ok((f@, q as int)),
        Err(x) => Err(x@),
    }
}

pub open spec fn fun_decls_res(r: Result<(Vec<FunDecl>, usize), Error>) -> Res<Seq<FunDeclView>> {
    match r {
        Ok((f, q)) => Ok((fun_decls_view(f@), q as int)),
        Err(x) => Err(x@),
    }
}

pub open spec fn symbols_res(r: Result<(Vec<Symbol>, usize), Error>) -> Res<Seq<SymbolView>> {
    match r {
        Ok((s, q)) => Ok((symbols_view(s@), q as int)),
        Err(x) => Err(x@),
    }
}

pub open spec fn callable_res(r: Result<((Vec<Symbol>, Vec<Stmt>), usize), Error>) -> Res<Callable> {
    match r {
        Ok(((ps, body), q)) => Ok(((symbols_view(ps@), stmts_view(body@)), q as int)),
        Err(x) => Err(x@),
    }
}

pub open spec fn opt_expr_res(r: Result<(Option<Expr>, usize), Error>) -> Result<(Option<ExprView>, int), ErrorView> {
    match r {
        Ok((Some(e), q)) => Ok((Some(e@), q as int)),
        Ok((None, q)) => Ok((None, q as int)),
        Err(x) => Err(x@),
    }
}

pub open spec fn stmts_result(r: Result<Vec<Stmt>, Error>) -> Result<Seq<StmtView>, ErrorView> {
    match r {
        Ok(s) => Ok(stmts_view(s@)),
        Err(x) => Err(x@),
    }
}

/// A successful result ends strictly after `p` and before `n`.
pub open spec fn moves<T>(r: Result<(T, usize), Error>, p: int, n: int) -> bool {
    match r {
        Ok((_, q)) => p < q < n,
        Err(_) => true,
    }
}

/// Maps a binary operator token to its operator.
pub fn op_token_to_binop(tok: &Token) -> (r: Result<BinaryOp, Error>)
    ensures
        match r {
            Ok(op) => binary_op_of(tok@) == Ok::<_, ErrorView>(op@),
            Err(e) => binary_op_of(tok@) == Err::<crate::ast::BinaryOpView, _>(e@),
        },
{
    let ty = match tok.toktype {
        TokenType::EqualEqual => BinaryOpTy::EqualEqual,
        TokenType::BangEqual => BinaryOpTy::NotEqual,
        TokenType::Less => BinaryOpTy::Less,
        TokenType::LessEqual => BinaryOpTy::LessEqual,
        TokenType::Greater => BinaryOpTy::Greater,
        TokenType::GreaterEqual => BinaryOpTy::GreaterEqual,
        TokenType::Plus => BinaryOpTy::Plus,
        TokenType::Minus => BinaryOpTy::Minus,
        TokenType::Star => BinaryOpTy::Star,
        TokenType::Slash => BinaryOpTy::Slash,
        _ => {
            return Err(Error::InvalidTokenInBinaryOp { token_type: tok.toktype, line: tok.line, col: tok.col });
        },
    };
    Ok(BinaryOp { toktype: ty, line: tok.line, col: tok.col })
}

/// Maps a unary operator token to its operator.
pub fn op_token_to_unary_op(tok: &Token) -> (r: Result<UnaryOp, Error>)
    ensures
        match r {
            Ok(op) => unary_op_of(tok@) == Ok::<_, ErrorView>(op@),
            Err(e) => unary_op_of(tok@) == Err::<crate::ast::UnaryOpView, _>(e@),
        },
{
    match tok.toktype {
        TokenType::Minus => Ok(UnaryOp { toktype: UnaryOpTy::Minus, line: tok.line, col: tok.col }),
        TokenType::Bang => Ok(UnaryOp { toktype: UnaryOpTy::Bang, line: tok.line, col: tok.col }),
        _ => Err(Error::InvalidTokenInUnaryOp { token_type: tok.toktype, line: tok.line, col: tok.col }),
    }
}

/// Parser state: the tokens, a cursor into them, whether a function body is
/// being read, and the grammar extensions in force.
pub struct Parser {
    pub tokens: Vec<Token>,
    pub cursor: usize,
    pub in_fundec: bool,
    pub extensions: Extensions,
}

impl Parser {
    pub open spec fn ts(&self) -> Seq<TokenView> {
        tokens_view(self.tokens@)
    }

    pub open spec fn len(&self) -> int {
        self.tokens@.len() as int
    }

    /// A parser at the start of `tokens`, outside any function.
    pub fn new(extensions: Extensions, tokens: Vec<Token>) -> (r: Parser)
        ensures
            r.tokens@ == tokens@,
            r.cursor == 0,
            !r.in_fundec,
            r.extensions == extensions,
    {
        Parser { tokens, cursor: 0, in_fundec: false, extensions }
    }

    fn is_end(&self, p: usize) -> (r: bool)
        requires
            p < self.len(),
        ensures
            r == at_end(self.ts(), p as int),
            tokens_wf(self.ts()) && !r ==> p + 1 < self.tokens.len(),
    {
        self.tokens[p].toktype == TokenType::Eof
    }

    fn check(&self, p: usize, k: TokenType) -> (r: bool)
        requires
            tokens_wf(self.ts()),
            p < self.len(),
        ensures
            r == checks(self.ts(), p as int, k),
            r ==> p + 1 < self.tokens.len(),
    {
        !self.is_end(p) && self.tokens[p].toktype == k
    }

    fn consume(&self, p: usize, k: TokenType, ctx: Expectation) -> (r: Result<usize, Error>)
        requires
            tokens_wf(self.ts()),
            p < self.len(),
        ensures
            match r {
                Ok(q) => consume(self.ts(), p as int, k, ctx) == Ok::<int, ErrorView>(q as int) && q == p + 1 && q < self.len(),
                Err(e) => consume(self.ts(), p as int, k, ctx) == Err::<int, ErrorView>(e@),
            },
    {
        if self.check(p, k) {
            Ok(p + 1)
        } else {
            Err(Error::TokenMismatch { expected: k, found: self.tokens[p].copy(), context: ctx })
        }
    }

    fn stall(&self, p: usize) -> (r: Error)
        requires
            p < self.len(),
        ensures
            r@ == crate::grammar::stalled(self.ts(), p as int),
    {
        Error::UnexpectedToken(self.tokens[p].copy())
    }

    fn symbol(&self, p: usize) -> (r: Symbol)
        requires
            p < self.len(),
        ensures
            r@ == symbol_of(self.ts()[p as int]),
    {
        let t = &self.tokens[p];
        Symbol { name: t.lexing.clone(), line: t.line, col: t.col }
    }

    fn loc(&self, p: usize) -> (r: SourceLocation)
        requires
            p < self.len(),
        ensures
            r@ == loc_of(self.ts()[p as int]),
    {
        SourceLocation { line: self.tokens[p].line, col: self.tokens[p].col }
    }

    fn expression(&self, p: usize) -> (r: Result<(Expr, usize), Error>)
        requires
            tokens_wf(self.ts()),
            p < self.len(),
        ensures
            expr_res(r) == expression_at(self.ts(), self.extensions, p as int),
            moves(r, p as int, self.len()),
        decreases self.len() - p, 19int,
    {
        self.assignment(p)
    }

    fn assignment(&self, p: usize) -> (r: Result<(Expr, usize), Error>)
        requires
            tokens_wf(self.ts()),
            p < self.len(),
        ensures
            expr_res(r) == assignment_at(self.ts(), self.extensions, p as int),
            moves(r, p as int, self.len()),
        decreases self.len() - p, 18int,
    {
        let (target, q) = match self.level(6, p) {
            Ok(x) => x,
            Err(e) => return Err(e),
        };
        if self.check(q, TokenType::Equal) {
            let (value, r) = match self.assignment(q + 1) {
                Ok(x) => x,
                Err(e) => return Err(e),
            };
            match target {
                Expr::Variable(sym) => Ok((Expr::Assign(sym, Box::new(value)), r)),
                Expr::Get(o, a) => Ok((Expr::SetAttr(o, a, Box::new(value)), r)),
                Expr::Subscript { value: v, slice, source_location } => Ok(
                    (Expr::SetItem { lhs: v, slice, rhs: Box::new(value), source_location }, r),
                ),
                _ => Err(Error::InvalidAssignment { line: self.tokens[q].line, col: self.tokens[q].col }),
            }
        } else {
            Ok((target, q))
        }
    }

    fn operand(&self, k: usize, p: usize) -> (r: Result<(Expr, usize), Error>)
        requires
            tokens_wf(self.ts()),
            p < self.len(),
            1 <= k <= 6,
        ensures
            expr_res(r) == operand_at(self.ts(), self.extensions, k as int, p as int),
            moves(r, p as int, self.len()),
        decreases self.len() - p, 2 * k + 4,
    {
        if k <= 1 {
            self.unary(p)
        } else {
            self.level(k - 1, p)
        }
    }

    fn is_level_op(&self, k: usize, p: usize) -> (r: bool)
        requires
            p < self.len(),
        ensures
            r == level_op(k as int, self.ts()[p as int].toktype),
    {
        let t = self.tokens[p].toktype;
        if k == 6 {
            t == TokenType::Or
        } else if k == 5 {
            t == TokenType::And
        } else if k == 4 {
            t == TokenType::BangEqual || t == TokenType::EqualEqual
        } else if k == 3 {
            t == TokenType::Greater || t == TokenType::GreaterEqual || t == TokenType::Less || t == TokenType::LessEqual
        } else if k == 2 {
            t == TokenType::Minus || t == TokenType::Plus
        } else {
            t == TokenType::Slash || t == TokenType::Star
        }
    }

    fn combine(&self, k: usize, left: Expr, q: usize, right: Expr) -> (r: Result<Expr, Error>)
        requires
            q < self.len(),
        ensures
            match r {
                Ok(e) => combine(k as int, left@, self.ts()[q as int], right@) == Ok::<_, ErrorView>(e@),
                Err(x) => combine(k as int, left@, self.ts()[q as int], right@) == Err::<ExprView, _>(x@),
            },
    {
        if k == 6 {
            Ok(Expr::Logical(Box::new(left), LogicalOp::Or, Box::new(right)))
        } else if k == 5 {
            Ok(Expr::Logical(Box::new(left), LogicalOp::And, Box::new(right)))
        } else {
            match op_token_to_binop(&self.tokens[q]) {
                Ok(op) => Ok(Expr::Binary(Box::new(left), op, Box::new(right))),
                Err(e) => Err(e),
            }
        }
    }

    fn level(&self, k: usize, p: usize) -> (r: Result<(Expr, usize), Error>)
        requires
            tokens_wf(self.ts()),
            p < self.len(),
            1 <= k <= 6,
        ensures
            expr_res(r) == level_at(self.ts(), self.extensions, k as int, p as int),
            moves(r, p as int, self.len()),
        decreases self.len() - p, 2 * k + 5,
    {
        let (first, q0) = match self.operand(k, p) {
            Ok(x) => x,
            Err(e) => return Err(e),
        };
        let mut left = first;
        let mut q = q0;
        while !self.is_end(q) && self.is_level_op(k, q)
            invariant
                tokens_wf(self.ts()),
                p < q < self.len(),
                1 <= k <= 6,
                level_at(self.ts(), self.extensions, k as int, p as int) == level_tail(
                    self.ts(),
                    self.extensions,
                    k as int,
                    q as int,
                    left@,
                ),
            decreases self.len() - q,
        {
            let (right, q2) = match self.operand(k, q + 1) {
                Ok(x) => x,
                Err(e) => return Err(e),
            };
            left = match self.combine(k, left, q, right) {
                Ok(j) => j,
                Err(e) => return Err(e),
            };
            q = q2;
        }
        Ok((left, q))
    }

    fn unary(&self, p: usize) -> (r: Result<(Expr, usize), Error>)
        requires
            tokens_wf(self.ts()),
            p < self.len(),
        ensures
            expr_res(r) == unary_at(self.ts(), self.extensions, p as int),
            moves(r, p as int, self.len()),
        decreases self.len() - p, 3int,
    {
        if self.check(p, TokenType::Bang) || self.check(p, TokenType::Minus) {
            let (right, q) = match self.unary(p + 1) {
                Ok(x) => x,
                Err(e) => return Err(e),
            };
            match op_token_to_unary_op(&self.tokens[p]) {
                Ok(op) => Ok((Expr::Unary(op, Box::new(right)), q)),
                Err(e) => Err(e),
            }
        } else {
            self.call(p)
        }
    }

    fn call(&self, p: usize) -> (r: Result<(Expr, usize), Error>)
        requires
            tokens_wf(self.ts()),
            p < self.len(),
        ensures
            expr_res(r) == call_at(self.ts(), self.extensions, p as int),
            moves(r, p as int, self.len()),
        decreases self.len() - p, 2int,
    {
        let (callee, q) = match self.primary(p) {
            Ok(x) => x,
            Err(e) => return Err(e),
        };
        self.suffix(q, callee)
    }

    #[verifier::loop_isolation(false)]
    fn suffix(&self, p: usize, callee: Expr) -> (r: Result<(Expr, usize), Error>)
        requires
            tokens_wf(self.ts()),
            p < self.len(),
        ensures
            expr_res(r) == suffix_at(self.ts(), self.extensions, p as int, callee@),
            match r {
                Ok((_, q)) => p <= q < self.len(),
                Err(_) => true,
            },
        decreases self.len() - p, 22int,
    {
        let ghost start = callee@;
        let mut e = callee;
        let mut q = p;
        loop
            invariant
                tokens_wf(self.ts()),
                p <= q < self.len(),
                suffix_at(self.ts(), self.extensions, p as int, start) == suffix_at(
                    self.ts(),
                    self.extensions,
                    q as int,
                    e@,
                ),
            decreases self.len() - q,
        {
            if self.check(q, TokenType::LeftParen) {
                let (c, r) = match self.finish_call(q + 1, e) {
                    Ok(x) => x,
                    Err(x) => return Err(x),
                };
                e = c;
                q = r;
            } else if self.extensions.lists && self.check(q, TokenType::LeftBracket) {
                let (slice, r) = match self.expression(q + 1) {
                    Ok(x) => x,
                    Err(x) => return Err(x),
                };
                let s = match self.consume(r, TokenType::RightBracket, Expectation::BracketAfterSubscript) {
                    Ok(s) => s,
                    Err(x) => return Err(x),
                };
                e = Expr::Subscript { value: Box::new(e), slice: Box::new(slice), source_location: self.loc(r) };
                q = s;
            } else {
                return Ok((e, q));
            }
        }
    }

    fn finish_call(&self, p: usize, callee: Expr) -> (r: Result<(Expr, usize), Error>)
        requires
            tokens_wf(self.ts()),
            p < self.len(),
        ensures
            expr_res(r) == finish_call_at(self.ts(), self.extensions, p as int, callee@),
            moves(r, p as int, self.len()),
        decreases self.len() - p, 21int,
    {
        if self.check(p, TokenType::RightParen) {
            let args: Vec<Expr> = Vec::new();
            assert(exprs_view(args@) =~= Seq::<ExprView>::empty());
            Ok((Expr::Call(Box::new(callee), self.loc(p), args), p + 1))
        } else {
            let acc: Vec<Expr> = Vec::new();
            assert(exprs_view(acc@) =~= Seq::<ExprView>::empty());
            self.arguments(p, callee, acc)
        }
    }

    fn arguments(&self, p: usize, callee: Expr, acc: Vec<Expr>) -> (r: Result<(Expr, usize), Error>)
        requires
            tokens_wf(self.ts()),
            p < self.len(),
        ensures
            expr_res(r) == arguments_at(self.ts(), self.extensions, p as int, callee@, exprs_view(acc@)),
            moves(r, p as int, self.len()),
        decreases self.len() - p, 20int,
    {
        proof {
            lemma_exprs_view_len(acc@);
        }
        if acc.len() >= 255 {
            return Err(Error::TooManyArguments { line: self.tokens[p].line, col: self.tokens[p].col });
        }
        let (arg, q) = match self.expression(p) {
            Ok(x) => x,
            Err(e) => return Err(e),
        };
        let mut acc = acc;
        proof {
            lemma_exprs_view_push(acc@, arg);
        }
        if self.check(q, TokenType::Comma) {
            acc.push(arg);
            self.arguments(q + 1, callee, acc)
        } else {
            let r = match self.consume(q, TokenType::RightParen, Expectation::ParenAfterArguments) {
                Ok(r) => r,
                Err(e) => return Err(e),
            };
            acc.push(arg);
            Ok((Expr::Call(Box::new(callee), self.loc(q), acc), r))
        }
    }

    fn elements(&self, p: usize, acc: Vec<Expr>) -> (r: Result<(Expr, usize), Error>)
        requires
            tokens_wf(self.ts()),
            p < self.len(),
        ensures
            expr_res(r) == elements_at(self.ts(), self.extensions, p as int, exprs_view(acc@)),
            moves(r, p as int, self.len()),
        decreases self.len() - p, 20int,
    {
        let (item, q) = match self.expression(p) {
            Ok(x) => x,
            Err(e) => return Err(e),
        };
        let mut acc = acc;
        proof {
            lemma_exprs_view_push(acc@, item);
        }
        if self.check(q, TokenType::Comma) {
            acc.push(item);
            self.elements(q + 1, acc)
        } else {
            let r = match self.consume(q, TokenType::RightBracket, Expectation::BracketAfterList) {
                Ok(r) => r,
                Err(e) => return Err(e),
            };
            acc.push(item);
            Ok((Expr::List(acc), r))
        }
    }

    fn primary(&self, p: usize) -> (r: Result<(Expr, usize), Error>)
        requires
            tokens_wf(self.ts()),
            p < self.len(),
        ensures
            expr_res(r) == primary_at(self.ts(), self.extensions, p as int),
            moves(r, p as int, self.len()),
        decreases self.len() - p, 1int,
    {
        if self.check(p, TokenType::False) {
            return Ok((Expr::Literal(Literal::False), p + 1));
        }
        if self.check(p, TokenType::True) {
            return Ok((Expr::Literal(Literal::True), p + 1));
        }
        if self.check(p, TokenType::Nil) {
            return Ok((Expr::Literal(Literal::Nil), p + 1));
        }
        if self.check(p, TokenType::Super) {
            let q = match self.consume(p + 1, TokenType::Dot, Expectation::DotAfterSuper) {
                Ok(q) => q,
                Err(e) => return Err(e),
            };
            let r = match self.consume(q, TokenType::Identifier, Expectation::SuperclassMethodName) {
                Ok(r) => r,
                Err(e) => return Err(e),
            };
            return Ok((Expr::Super(self.loc(p), self.symbol(q)), r));
        }
        if self.check(p, TokenType::Number) {
            return match &self.tokens[p].literal {
                Some(lexer::Literal::Number(d)) => Ok((Expr::Literal(Literal::Number(d.clone())), p + 1)),
                _ => Err(self.stall(p)),
            };
        }
        if self.check(p, TokenType::String) {
            return match &self.tokens[p].literal {
                Some(lexer::Literal::Str(s)) => Ok((Expr::Literal(Literal::String(s.clone())), p + 1)),
                _ => Err(self.stall(p)),
            };
        }
        if self.check(p, TokenType::This) {
            return Ok((Expr::This(self.loc(p)), p + 1));
        }
        if self.check(p, TokenType::Identifier) {
            return match &self.tokens[p].literal {
                Some(lexer::Literal::Identifier(s)) => Ok(
                    (Expr::Variable(Symbol { name: s.clone(), line: self.tokens[p].line, col: self.tokens[p].col }), p + 1),
                ),
                _ => Err(self.stall(p)),
            };
        }
        if self.check(p, TokenType::LeftParen) {
            let (inner, q) = match self.expression(p + 1) {
                Ok(x) => x,
                Err(e) => return Err(e),
            };
            let r = match self.consume(q, TokenType::RightParen, Expectation::ParenAfterExpression) {
                Ok(r) => r,
                Err(e) => return Err(e),
            };
            return Ok((Expr::Grouping(Box::new(inner)), r));
        }
        if self.extensions.lists && self.check(p, TokenType::LeftBracket) {
            let acc: Vec<Expr> = Vec::new();
            assert(exprs_view(acc@) =~= Seq::<ExprView>::empty());
            if self.check(p + 1, TokenType::RightBracket) {
                return Ok((Expr::List(acc), p + 2));
            }
            return self.elements(p + 1, acc);
        }
        if self.extensions.lambdas && self.check(p, TokenType::Lambda) {
            return match self.callable(p + 1, FunctionKind::Lambda) {
                Ok(((params, body), q)) => Ok((Expr::Lambda(LambdaDecl { params, body }), q)),
                Err(e) => Err(e),
            };
        }
        Err(Error::ExpectedExpression {
            token_type: self.tokens[p].toktype,
            line: self.tokens[p].line,
            col: self.tokens[p].col,
        })
    }

    fn callable(&self, p: usize, kind: FunctionKind) -> (r: Result<((Vec<Symbol>, Vec<Stmt>), usize), Error>)
        requires
            tokens_wf(self.ts()),
            p < self.len(),
        ensures
            callable_res(r) == callable_at(self.ts(), self.extensions, p as int, kind),
            moves(r, p as int, self.len()),
        decreases self.len() - p, 25int,
    {
        let q = match self.consume(p, TokenType::LeftParen, Expectation::ParenAfterName(kind)) {
            Ok(q) => q,
            Err(e) => return Err(e),
        };
        let empty: Vec<Symbol> = Vec::new();
        assert(symbols_view(empty@) =~= Seq::<SymbolView>::empty());
        let (params, r) = if self.check(q, TokenType::RightParen) {
            (empty, q)
        } else {
            match self.params(q, kind, empty) {
                Ok(x) => x,
                Err(e) => return Err(e),
            }
        };
        let s = match self.consume(r, TokenType::RightParen, Expectation::ParenAfterParameters) {
            Ok(s) => s,
            Err(e) => return Err(e),
        };
        let u = match self.consume(s, TokenType::LeftBrace, Expectation::BraceBeforeBody) {
            Ok(u) => u,
            Err(e) => return Err(e),
        };
        match self.block(u, true) {
            Ok((body, v)) => Ok(((params, body), v)),
            Err(e) => Err(e),
        }
    }

    fn params(&self, p: usize, kind: FunctionKind, acc: Vec<Symbol>) -> (r: Result<(Vec<Symbol>, usize), Error>)
        requires
            tokens_wf(self.ts()),
            p < self.len(),
        ensures
            symbols_res(r) == params_at(self.ts(), p as int, kind, symbols_view(acc@)),
            moves(r, p as int, self.len()),
        decreases self.len() - p,
    {
        if acc.len() >= 255 {
            return Err(Error::MaxParamsExceeded { kind, line: self.tokens[p].line, col: self.tokens[p].col });
        }
        let q = match self.consume(p, TokenType::Identifier, Expectation::ParameterName) {
            Ok(q) => q,
            Err(e) => return Err(e),
        };
        let sym = self.symbol(p);
        let mut acc = acc;
        let ghost before = acc@;
        acc.push(sym);
        assert(symbols_view(acc@) =~= symbols_view(before).push(symbol_of(self.ts()[p as int])));
        if self.check(q, TokenType::Comma) {
            self.params(q + 1, kind, acc)
        } else {
            Ok((acc, q))
        }
    }

    fn fun_decl(&self, p: usize, kind: FunctionKind) -> (r: Result<(FunDecl, usize), Error>)
        requires
            tokens_wf(self.ts()),
            p < self.len(),
        ensures
            fun_decl_res(r) == fun_decl_at(self.ts(), self.extensions, p as int, kind),
            moves(r, p as int, self.len()),
        decreases self.len() - p, 26int,
    {
        let q = match self.consume(p, TokenType::Identifier, Expectation::FunctionName(kind)) {
            Ok(q) => q,
            Err(e) => return Err(e),
        };
        match self.callable(q, kind) {
            Ok(((params, body), r)) => Ok((FunDecl { name: self.symbol(p), params, body }, r)),
            Err(e) => Err(e),
        }
    }

    fn class_decl(&self, p: usize) -> (r: Result<(Stmt, usize), Error>)
        requires
            tokens_wf(self.ts()),
            p < self.len(),
        ensures
            stmt_res(r) == class_decl_at(self.ts(), self.extensions, p as int),
            moves(r, p as int, self.len()),
        decreases self.len() - p, 28int,
    {
        let q = match self.consume(p, TokenType::Identifier, Expectation::ClassName) {
            Ok(q) => q,
            Err(e) => return Err(e),
        };
        let (superclass, r) = if self.check(q, TokenType::Less) {
            match self.consume(q + 1, TokenType::Identifier, Expectation::SuperclassName) {
                Ok(r) => (Some(self.symbol(q + 1)), r),
                Err(e) => return Err(e),
            }
        } else {
            (None, q)
        };
        let s = match self.consume(r, TokenType::LeftBrace, Expectation::BraceAfterClassName) {
            Ok(s) => s,
            Err(e) => return Err(e),
        };
        let (methods, u) = match self.methods(s) {
            Ok(x) => x,
            Err(e) => return Err(e),
        };
        let v = match self.consume(u, TokenType::RightBrace, Expectation::BraceAfterClassBody) {
            Ok(v) => v,
            Err(e) => return Err(e),
        };
        Ok((Stmt::ClassDecl(ClassDecl { name: self.symbol(p), superclass, methods }), v))
    }

    fn methods(&self, p: usize) -> (r: Result<(Vec<FunDecl>, usize), Error>)
        requires
            tokens_wf(self.ts()),
            p < self.len(),
        ensures
            fun_decls_res(r) == methods_at(self.ts(), self.extensions, p as int, Seq::empty()),
            match r {
                Ok((_, q)) => p <= q < self.len(),
                Err(_) => true,
            },
        decreases self.len() - p, 27int,
    {
        let mut acc: Vec<FunDecl> = Vec::new();
        assert(fun_decls_view(acc@) =~= Seq::<FunDeclView>::empty());
        let mut q = p;
        while !self.check(q, TokenType::RightBrace) && !self.is_end(q)
            invariant
                tokens_wf(self.ts()),
                p <= q < self.len(),
                methods_at(self.ts(), self.extensions, p as int, Seq::empty()) == methods_at(
                    self.ts(),
                    self.extensions,
                    q as int,
                    fun_decls_view(acc@),
                ),
            decreases self.len() - q,
        {
            let (m, r) = match self.fun_decl(q, FunctionKind::Method) {
                Ok(x) => x,
                Err(e) => return Err(e),
            };
            proof {
                lemma_fun_decls_view_push(acc@, m);
            }
            acc.push(m);
            q = r;
        }
        Ok((acc, q))
    }

    fn var_decl(&self, p: usize) -> (r: Result<(Stmt, usize), Error>)
        requires
            tokens_wf(self.ts()),
            p < self.len(),
        ensures
            stmt_res(r) == var_decl_at(self.ts(), self.extensions, p as int),
            moves(r, p as int, self.len()),
        decreases self.len() - p, 21int,
    {
        let q = match self.consume(p, TokenType::Identifier, Expectation::VariableName) {
            Ok(q) => q,
            Err(e) => return Err(e),
        };
        let (init, r) = if self.check(q, TokenType::Equal) {
            match self.expression(q + 1) {
                Ok((v, r)) => (Some(v), r),
                Err(e) => return Err(e),
            }
        } else {
            (None, q)
        };
        let s = match self.consume(r, TokenType::Semicolon, Expectation::SemicolonAfterVarDecl) {
            Ok(s) => s,
            Err(e) => return Err(e),
        };
        Ok((Stmt::VarDecl(self.symbol(p), init), s))
    }

    fn declaration(&self, p: usize, in_fun: bool) -> (r: Result<(Stmt, usize), Error>)
        requires
            tokens_wf(self.ts()),
            p < self.len(),
        ensures
            stmt_res(r) == declaration_at(self.ts(), self.extensions, p as int, in_fun),
            moves(r, p as int, self.len()),
        decreases self.len() - p, 30int,
    {
        if self.check(p, TokenType::Var) {
            return self.var_decl(p + 1);
        }
        if self.check(p, TokenType::Def) {
            return match self.fun_decl(p + 1, FunctionKind::Function) {
                Ok((f, q)) => Ok((Stmt::FunDecl(f), q)),
                Err(e) => Err(e),
            };
        }
        if self.check(p, TokenType::Class) {
            return self.class_decl(p + 1);
        }
        self.statement(p, in_fun)
    }

    fn statement(&self, p: usize, in_fun: bool) -> (r: Result<(Stmt, usize), Error>)
        requires
            tokens_wf(self.ts()),
            p < self.len(),
        ensures
            stmt_res(r) == statement_at(self.ts(), self.extensions, p as int, in_fun),
            moves(r, p as int, self.len()),
        decreases self.len() - p, 29int,
    {
        if self.check(p, TokenType::Print) {
            let (v, q) = match self.expression(p + 1) {
                Ok(x) => x,
                Err(e) => return Err(e),
            };
            return match self.consume(q, TokenType::Semicolon, Expectation::SemicolonAfterValue) {
                Ok(r) => Ok((Stmt::Print(v), r)),
                Err(e) => Err(e),
            };
        }
        if self.check(p, TokenType::While) {
            return self.while_statement(p + 1, in_fun);
        }
        if self.check(p, TokenType::LeftBrace) {
            return match self.block(p + 1, in_fun) {
                Ok((b, q)) => Ok((Stmt::Block(b), q)),
                Err(e) => Err(e),
            };
        }
        if self.check(p, TokenType::For) {
            return self.for_statement(p + 1, in_fun);
        }
        if self.check(p, TokenType::If) {
            return self.if_statement(p + 1, in_fun);
        }
        if self.check(p, TokenType::Return) {
            return self.return_statement(p + 1, in_fun, p);
        }
        self.expression_statement(p)
    }

    fn expression_statement(&self, p: usize) -> (r: Result<(Stmt, usize), Error>)
        requires
            tokens_wf(self.ts()),
            p < self.len(),
        ensures
            stmt_res(r) == expression_statement_at(self.ts(), self.extensions, p as int),
            moves(r, p as int, self.len()),
        decreases self.len() - p, 21int,
    {
        let (v, q) = match self.expression(p) {
            Ok(x) => x,
            Err(e) => return Err(e),
        };
        match self.consume(q, TokenType::Semicolon, Expectation::SemicolonAfterValue) {
            Ok(r) => Ok((Stmt::Expr(v), r)),
            Err(e) => Err(e),
        }
    }

    fn return_statement(&self, p: usize, in_fun: bool, ret: usize) -> (r: Result<(Stmt, usize), Error>)
        requires
            tokens_wf(self.ts()),
            p < self.len(),
            ret < self.len(),
        ensures
            stmt_res(r) == return_at(self.ts(), self.extensions, p as int, in_fun, loc_of(self.ts()[ret as int])),
            moves(r, p as int, self.len()),
        decreases self.len() - p, 21int,
    {
        let loc = self.loc(ret);
        if !in_fun {
            return Err(Error::ReturnNotInFun { line: loc.line, col: loc.col });
        }
        if self.check(p, TokenType::Semicolon) {
            return Ok((Stmt::Return(loc, None), p + 1));
        }
        let (v, q) = match self.expression(p) {
            Ok(x) => x,
            Err(e) => return Err(e),
        };
        match self.consume(q, TokenType::Semicolon, Expectation::SemicolonAfterReturnValue) {
            Ok(r) => Ok((Stmt::Return(loc, Some(v)), r)),
            Err(e) => Err(e),
        }
    }

    fn while_statement(&self, p: usize, in_fun: bool) -> (r: Result<(Stmt, usize), Error>)
        requires
            tokens_wf(self.ts()),
            p < self.len(),
        ensures
            stmt_res(r) == while_at(self.ts(), self.extensions, p as int, in_fun),
            moves(r, p as int, self.len()),
        decreases self.len() - p, 21int,
    {
        let q = match self.consume(p, TokenType::LeftParen, Expectation::ParenAfterWhile) {
            Ok(q) => q,
            Err(e) => return Err(e),
        };
        let (cond, r) = match self.expression(q) {
            Ok(x) => x,
            Err(e) => return Err(e),
        };
        let s = match self.consume(r, TokenType::RightParen, Expectation::ParenAfterWhileCondition) {
            Ok(s) => s,
            Err(e) => return Err(e),
        };
        match self.statement(s, in_fun) {
            Ok((body, u)) => Ok((Stmt::While(cond, Box::new(body)), u)),
            Err(e) => Err(e),
        }
    }

    fn if_statement(&self, p: usize, in_fun: bool) -> (r: Result<(Stmt, usize), Error>)
        requires
            tokens_wf(self.ts()),
            p < self.len(),
        ensures
            stmt_res(r) == if_at(self.ts(), self.extensions, p as int, in_fun),
            moves(r, p as int, self.len()),
        decreases self.len() - p, 21int,
    {
        let q = match self.consume(p, TokenType::LeftParen, Expectation::ParenAfterIf) {
            Ok(q) => q,
            Err(e) => return Err(e),
        };
        let (cond, r) = match self.expression(q) {
            Ok(x) => x,
            Err(e) => return Err(e),
        };
        let s = match self.consume(r, TokenType::RightParen, Expectation::ParenAfterIfCondition) {
            Ok(s) => s,
            Err(e) => return Err(e),
        };
        let (then_branch, u) = match self.statement(s, in_fun) {
            Ok(x) => x,
            Err(e) => return Err(e),
        };
        if self.check(u, TokenType::Else) {
            match self.statement(u + 1, in_fun) {
                Ok((else_branch, v)) => Ok(
                    (Stmt::If(cond, Box::new(then_branch), Some(Box::new(else_branch))), v),
                ),
                Err(e) => Err(e),
            }
        } else {
            Ok((Stmt::If(cond, Box::new(then_branch), None), u))
        }
    }

    fn optional_expression(&self, p: usize, stop: TokenType) -> (r: Result<(Option<Expr>, usize), Error>)
        requires
            tokens_wf(self.ts()),
            p < self.len(),
        ensures
            opt_expr_res(r) == optional_expression_at(self.ts(), self.extensions, p as int, stop),
            match r {
                Ok((_, q)) => p <= q < self.len(),
                Err(_) => true,
            },
        decreases self.len() - p, 20int,
    {
        if self.check(p, stop) {
            Ok((None, p))
        } else {
            match self.expression(p) {
                Ok((v, q)) => Ok((Some(v), q)),
                Err(e) => Err(e),
            }
        }
    }

    fn for_statement(&self, p: usize, in_fun: bool) -> (r: Result<(Stmt, usize), Error>)
        requires
            tokens_wf(self.ts()),
            p < self.len(),
        ensures
            stmt_res(r) == for_at(self.ts(), self.extensions, p as int, in_fun),
            moves(r, p as int, self.len()),
        decreases self.len() - p, 21int,
    {
        let q = match self.consume(p, TokenType::LeftParen, Expectation::ParenAfterFor) {
            Ok(q) => q,
            Err(e) => return Err(e),
        };
        let (init, r) = if self.check(q, TokenType::Semicolon) {
            (None, q + 1)
        } else {
            match self.expression_statement(q) {
                Ok((s, r)) => (Some(s), r),
                Err(e) => return Err(e),
            }
        };
        let (cond, s) = match self.optional_expression(r, TokenType::Semicolon) {
            Ok(x) => x,
            Err(e) => return Err(e),
        };
        let u = match self.consume(s, TokenType::Semicolon, Expectation::SemicolonAfterLoopCondition) {
            Ok(u) => u,
            Err(e) => return Err(e),
        };
        let (incr, v) = match self.optional_expression(u, TokenType::RightParen) {
            Ok(x) => x,
            Err(e) => return Err(e),
        };
        let w = match self.consume(v, TokenType::RightParen, Expectation::ParenAfterForClauses) {
            Ok(w) => w,
            Err(e) => return Err(e),
        };
        match self.statement(w, in_fun) {
            Ok((body, x)) => Ok((desugar(init, cond, incr, body), x)),
            Err(e) => Err(e),
        }
    }

    fn block(&self, p: usize, in_fun: bool) -> (r: Result<(Vec<Stmt>, usize), Error>)
        requires
            tokens_wf(self.ts()),
            p < self.len(),
        ensures
            stmts_res(r) == block_at(self.ts(), self.extensions, p as int, in_fun, Seq::empty()),
            moves(r, p as int, self.len()),
        decreases self.len() - p, 32int,
    {
        let mut acc: Vec<Stmt> = Vec::new();
        assert(stmts_view(acc@) =~= Seq::<StmtView>::empty());
        let mut q = p;
        while !self.check(q, TokenType::RightBrace) && !self.is_end(q)
            invariant
                tokens_wf(self.ts()),
                p <= q < self.len(),
                block_at(self.ts(), self.extensions, p as int, in_fun, Seq::empty()) == block_at(
                    self.ts(),
                    self.extensions,
                    q as int,
                    in_fun,
                    stmts_view(acc@),
                ),
            decreases self.len() - q,
        {
            let (s, r) = match self.declaration(q, in_fun) {
                Ok(x) => x,
                Err(e) => return Err(e),
            };
            proof {
                lemma_stmts_view_push(acc@, s);
            }
            acc.push(s);
            q = r;
        }
        match self.consume(q, TokenType::RightBrace, Expectation::BraceAfterBlock) {
            Ok(r) => Ok((acc, r)),
            Err(e) => Err(e),
        }
    }

    #[verifier::loop_isolation(false)]
    fn declarations(&self, p: usize, in_fun: bool, acc: Vec<Stmt>) -> (r: Result<(Vec<Stmt>, usize), Error>)
        requires
            tokens_wf(self.ts()),
            p < self.len(),
        ensures
            stmts_res(r) == declarations_at(self.ts(), self.extensions, p as int, in_fun, stmts_view(acc@)),
            match r {
                Ok((_, q)) => p <= q < self.len() && at_end(self.ts(), q as int),
                Err(_) => true,
            },
        decreases self.len() - p, 32int,
    {
        let mut acc = acc;
        let ghost start = stmts_view(acc@);
        let mut q = p;
        while !self.is_end(q)
            invariant
                tokens_wf(self.ts()),
                p <= q < self.len(),
                declarations_at(self.ts(), self.extensions, p as int, in_fun, start) == declarations_at(
                    self.ts(),
                    self.extensions,
                    q as int,
                    in_fun,
                    stmts_view(acc@),
                ),
            decreases self.len() - q,
        {
            let (s, r) = match self.declaration(q, in_fun) {
                Ok(x) => x,
                Err(e) => return Err(e),
            };
            proof {
                lemma_stmts_view_push(acc@, s);
            }
            acc.push(s);
            q = r;
        }
        Ok((acc, q))
    }
}

impl Parser {
    /// Reads declarations from the cursor to the end of input; on success
    /// the cursor stands on the end-of-input token.
    pub fn parse(&mut self) -> (r: Result<Vec<Stmt>, Error>)
        requires
            tokens_wf(old(self).ts()),
            old(self).cursor < old(self).len(),
        ensures
            final(self).tokens@ == old(self).tokens@,
            final(self).extensions == old(self).extensions,
            final(self).in_fundec == old(self).in_fundec,
            final(self).cursor < final(self).len(),
            match r {
                Ok(stmts) => declarations_at(
                    old(self).ts(),
                    old(self).extensions,
                    old(self).cursor as int,
                    old(self).in_fundec,
                    Seq::empty(),
                ) == Ok::<_, ErrorView>((stmts_view(stmts@), final(self).cursor as int)),
                Err(e) => declarations_at(
                    old(self).ts(),
                    old(self).extensions,
                    old(self).cursor as int,
                    old(self).in_fundec,
                    Seq::empty(),
                ) == Err::<(Seq<StmtView>, int), _>(e@),
            },
    {
        let acc: Vec<Stmt> = Vec::new();
        assert(stmts_view(acc@) =~= Seq::<StmtView>::empty());
        match self.declarations(self.cursor, self.in_fundec, acc) {
            Ok((stmts, q)) => {
                self.cursor = q;
                Ok(stmts)
            },
            Err(e) => Err(e),
        }
    }

    /// Reads one variable declaration at the cursor, written without the
    /// `var` keyword, and moves the cursor past it.
    pub fn declvar(&mut self) -> (r: Result<Stmt, Error>)
        requires
            tokens_wf(old(self).ts()),
            old(self).cursor < old(self).len(),
        ensures
            final(self).tokens@ == old(self).tokens@,
            final(self).extensions == old(self).extensions,
            final(self).in_fundec == old(self).in_fundec,
            final(self).cursor < final(self).len(),
            r is Ok ==> old(self).cursor < final(self).cursor,
            match r {
                Ok(s) => var_decl_at(old(self).ts(), old(self).extensions, old(self).cursor as int)
                    == Ok::<_, ErrorView>((s@, final(self).cursor as int)),
                Err(e) => var_decl_at(old(self).ts(), old(self).extensions, old(self).cursor as int)
                    == Err::<(StmtView, int), _>(e@),
            },
    {
        match self.var_decl(self.cursor) {
            Ok((s, q)) => {
                self.cursor = q;
                Ok(s)
            },
            Err(e) => Err(e),
        }
    }

    /// Reads a variable declaration written without `var`, then
    /// declarations to the end of input.
    pub fn parse_varerr(&mut self) -> (r: Result<Vec<Stmt>, Error>)
        requires
            tokens_wf(old(self).ts()),
            old(self).cursor < old(self).len(),
        ensures
            final(self).tokens@ == old(self).tokens@,
            final(self).cursor < final(self).len(),
            match r {
                Ok(stmts) => declaring_at(
                    old(self).ts(),
                    old(self).extensions,
                    old(self).cursor as int,
                    old(self).in_fundec,
                ) == Ok::<_, ErrorView>((stmts_view(stmts@), final(self).cursor as int)),
                Err(e) => declaring_at(
                    old(self).ts(),
                    old(self).extensions,
                    old(self).cursor as int,
                    old(self).in_fundec,
                ) == Err::<(Seq<StmtView>, int), _>(e@),
            },
    {
        let ghost before = *self;
        let first = match self.declvar() {
            Ok(s) => s,
            Err(e) => return Err(e),
        };
        assert(declaring_at(before.ts(), before.extensions, before.cursor as int, before.in_fundec)
            == declarations_at(self.ts(), self.extensions, self.cursor as int, self.in_fundec, seq![first@]));
        let mut acc: Vec<Stmt> = Vec::new();
        proof {
            lemma_stmts_view_push(acc@, first);
        }
        acc.push(first);
        assert(stmts_view(acc@) =~= seq![first@]);
        match self.declarations(self.cursor, self.in_fundec, acc) {
            Ok((stmts, q)) => {
                self.cursor = q;
                Ok(stmts)
            },
            Err(e) => Err(e),
        }
    }
}

/// Parses a whole token sequence into statements; tokens left after the
/// last declaration are an error.
pub fn parse(extensions: Extensions, tokens: Vec<Token>) -> (r: Result<Vec<Stmt>, Error>)
    requires
        tokens_wf(tokens_view(tokens@)),
    ensures
        stmts_result(r) == program(tokens_view(tokens@), extensions),
{
    let mut p = Parser::new(extensions, tokens);
    match p.parse() {
        Ok(stmts) => {
            if !p.is_end(p.cursor) {
                Err(Error::UnexpectedToken(p.tokens[p.cursor].copy()))
            } else {
                Ok(stmts)
            }
        },
        Err(e) => Err(e),
    }
}

/// Parses a whole token sequence whose first statement is a variable
/// declaration written without `var` (`x = 5;` declares `x`).
pub fn parse_varerr(extensions: Extensions, tokens: Vec<Token>) -> (r: Result<Vec<Stmt>, Error>)
    requires
        tokens_wf(tokens_view(tokens@)),
    ensures
        stmts_result(r) == program_declaring(tokens_view(tokens@), extensions),
{
    let mut p = Parser::new(extensions, tokens);
    match p.parse_varerr() {
        Ok(stmts) => {
            if !p.is_end(p.cursor) {
                Err(Error::UnexpectedToken(p.tokens[p.cursor].copy()))
            } else {
                Ok(stmts)
            }
        },
        Err(e) => Err(e),
    }
}

pub open spec fn opt_stmt_view(s: Option<Stmt>) -> Option<StmtView> {
    match s {
        Some(x) => Some(x@),
        None => None,
    }
}

pub open spec fn opt_expr_view(e: Option<Expr>) -> Option<ExprView> {
    match e {
        Some(x) => Some(x@),
        None => None,
    }
}

/// The statement that a `for` loop stands for: the initializer, then a
/// `while` loop whose body ends with the increment.
pub fn desugar(init: Option<Stmt>, cond: Option<Expr>, incr: Option<Expr>, body: Stmt) -> (r: Stmt)
    ensures
        r@ == desugar_for(opt_stmt_view(init), opt_expr_view(cond), opt_expr_view(incr), body@),
{
    let ghost bv = body@;
    let body = match incr {
        Some(i) => {
            let mut items: Vec<Stmt> = Vec::new();
            proof {
                lemma_stmts_view_push(items@, body);
            }
            items.push(body);
            let ghost first = items@;
            let last = Stmt::Expr(i);
            proof {
                lemma_stmts_view_push(first, last);
            }
            items.push(last);
            assert(stmts_view(items@) =~= seq![bv, StmtView::Expr(i@)]);
            Stmt::Block(items)
        },
        None => body,
    };
    let cond = match cond {
        Some(c) => c,
        None => Expr::Literal(Literal::True),
    };
    let ghost body_v = body@;
    let ghost cond_v = cond@;
    let looped = Stmt::While(cond, Box::new(body));
    assert(looped@ == StmtView::While(cond_v, Box::new(body_v)));
    match init {
        Some(s) => {
            let ghost sv = s@;
            let ghost lv = looped@;
            let mut items: Vec<Stmt> = Vec::new();
            proof {
                lemma_stmts_view_push(items@, s);
            }
            items.push(s);
            let ghost first = items@;
            proof {
                lemma_stmts_view_push(first, looped);
            }
            items.push(looped);
            assert(stmts_view(items@) =~= seq![sv, lv]);
            Stmt::Block(items)
        },
        None => looped,
    }
}

} // verus!
