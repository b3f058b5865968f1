//! The grammar as spec functions over a token sequence: each production
//! reads from a position and yields a syntax tree and the position after
//! it, or the error the parser reports.
use vstd::prelude::*;
use crate::ast::{BinaryOpView, ExprView, FunDeclView, LiteralView, LocView, StmtView, SymbolView, UnaryOpView};
use crate::ast::{BinaryOpTy, LogicalOp, UnaryOpTy};
use crate::lexer::{lemma_one_eof_at_end, tokenize_spec, LiteralView as TokenLiteral, TokenType, TokenView};
use crate::parser::{ErrorView, Expectation, Extensions, FunctionKind};

verus! {

pub type Res<T> = Result<(T, int), ErrorView>;

/// The parameters and the body of a callable.
pub type Callable = (Seq<SymbolView>, Seq<StmtView>);

/// A token sequence the parser accepts: it ends with the end-of-input token.
pub open spec fn tokens_wf(ts: Seq<TokenView>) -> bool {
    &&& ts.len() > 0
    &&& ts[ts.len() - 1].toktype == TokenType::Eof
}

pub open spec fn at_end(ts: Seq<TokenView>, p: int) -> bool {
    ts[p].toktype == TokenType::Eof
}

/// The token at `p` has kind `k` (never true of the end of input).
pub open spec fn checks(ts: Seq<TokenView>, p: int, k: TokenType) -> bool {
    !at_end(ts, p) && ts[p].toktype == k
}

/// `p` is a position in a sequence that ends with the end-of-input token.
pub open spec fn inside(ts: Seq<TokenView>, p: int) -> bool {
    &&& 0 <= p < ts.len()
    &&& ts[ts.len() - 1].toktype == TokenType::Eof
}

/// `q` lies strictly after `p` and inside the sequence.
pub open spec fn fwd(ts: Seq<TokenView>, p: int, q: int) -> bool {
    p < q < ts.len()
}

pub open spec fn mismatch(ts: Seq<TokenView>, p: int, k: TokenType, ctx: Expectation) -> ErrorView {
    ErrorView::TokenMismatch { expected: k, found: ts[p], context: ctx }
}

pub open spec fn consume(ts: Seq<TokenView>, p: int, k: TokenType, ctx: Expectation) -> Result<int, ErrorView> {
    if checks(ts, p, k) {
        Ok(p + 1)
    } else {
        Err(mismatch(ts, p, k, ctx))
    }
}

/// The error for a token that cannot stand where it is: one the parser
/// does not expect there, or an identifier, string or number token that
/// carries no value of its kind.
pub open spec fn stalled(ts: Seq<TokenView>, p: int) -> ErrorView {
    ErrorView::UnexpectedToken(ts[p])
}

pub open spec fn symbol_of(t: TokenView) -> SymbolView {
    SymbolView { name: t.lexing, line: t.line, col: t.col }
}

pub open spec fn loc_of(t: TokenView) -> LocView {
    LocView { line: t.line, col: t.col }
}

pub open spec fn unary_op_of(t: TokenView) -> Result<UnaryOpView, ErrorView> {
    match t.toktype {
        TokenType::Minus => Ok(UnaryOpView { toktype: UnaryOpTy::Minus, line: t.line, col: t.col }),
        TokenType::Bang => Ok(UnaryOpView { toktype: UnaryOpTy::Bang, line: t.line, col: t.col }),
        _ => Err(ErrorView::InvalidTokenInUnaryOp { token_type: t.toktype, line: t.line, col: t.col }),
    }
}

pub open spec fn binary_op_ty(k: TokenType) -> Option<BinaryOpTy> {
    match k {
        TokenType::EqualEqual => Some(BinaryOpTy::EqualEqual),
        TokenType::BangEqual => Some(BinaryOpTy::NotEqual),
        TokenType::Less => Some(BinaryOpTy::Less),
        TokenType::LessEqual => Some(BinaryOpTy::LessEqual),
        TokenType::Greater => Some(BinaryOpTy::Greater),
        TokenType::GreaterEqual => Some(BinaryOpTy::GreaterEqual),
        TokenType::Plus => Some(BinaryOpTy::Plus),
        TokenType::Minus => Some(BinaryOpTy::Minus),
        TokenType::Star => Some(BinaryOpTy::Star),
        TokenType::Slash => Some(BinaryOpTy::Slash),
        _ => None,
    }
}

pub open spec fn binary_op_of(t: TokenView) -> Result<BinaryOpView, ErrorView> {
    match binary_op_ty(t.toktype) {
        Some(op) => Ok(BinaryOpView { toktype: op, line: t.line, col: t.col }),
        None => Err(ErrorView::InvalidTokenInBinaryOp { token_type: t.toktype, line: t.line, col: t.col }),
    }
}

/// The operators of each binary precedence level, from the loosest (6:
/// `or`) to the tightest (1: `/` and `*`).
pub open spec fn level_op(k: int, t: TokenType) -> bool {
    if k == 6 {
        t == TokenType::Or
    } else if k == 5 {
        t == TokenType::And
    } else if k == 4 {
        t == TokenType::BangEqual || t == TokenType::EqualEqual
    } else if k == 3 {
        t == TokenType::Greater || t == TokenType::GreaterEqual || t == TokenType::Less || t == TokenType::LessEqual
    } else if k == 2 {
        t == TokenType::Minus || t == TokenType::Plus
    } else {
        t == TokenType::Slash || t == TokenType::Star
    }
}

/// The node that joins two operands at level `k`.
pub open spec fn combine(k: int, left: ExprView, op: TokenView, right: ExprView) -> Result<ExprView, ErrorView> {
    if k == 6 {
        Ok(ExprView::Logical(Box::new(left), LogicalOp::Or, Box::new(right)))
    } else if k == 5 {
        Ok(ExprView::Logical(Box::new(left), LogicalOp::And, Box::new(right)))
    } else {
        match binary_op_of(op) {
            Ok(b) => Ok(ExprView::Binary(Box::new(left), b, Box::new(right))),
            Err(e) => Err(e),
        }
    }
}

/// `expression := assignment`
pub open spec fn expression_at(ts: Seq<TokenView>, ext: Extensions, p: int) -> Res<ExprView>
    decreases ts.len() - p, 19int,
    when inside(ts, p)
{
    assignment_at(ts, ext, p)
}

/// `assignment := or ['=' assignment]`, the target rewritten into a store.
pub open spec fn assignment_at(ts: Seq<TokenView>, ext: Extensions, p: int) -> Res<ExprView>
    decreases ts.len() - p, 18int,
    when inside(ts, p)
{
    match level_at(ts, ext, 6, p) {
        Err(e) => Err(e),
        Ok((target, q)) => if p <= q < ts.len() && checks(ts, q, TokenType::Equal) {
            match assignment_at(ts, ext, q + 1) {
                Err(e) => Err(e),
                Ok((value, r)) => match target {
                    ExprView::Variable(s) => Ok((ExprView::Assign(s, Box::new(value)), r)),
                    ExprView::Get(o, a) => Ok((ExprView::SetAttr(o, a, Box::new(value)), r)),
                    ExprView::Subscript { value: v, slice, loc } => Ok(
                        (ExprView::SetItem { lhs: v, slice, rhs: Box::new(value), loc }, r),
                    ),
                    _ => Err(ErrorView::InvalidAssignment { line: ts[q].line, col: ts[q].col }),
                },
            }
        } else {
            Ok((target, q))
        },
    }
}

/// The operand of level `k`: level `k - 1`, or a unary expression at level 1.
pub open spec fn operand_at(ts: Seq<TokenView>, ext: Extensions, k: int, p: int) -> Res<ExprView>
    decreases ts.len() - p, 2 * k + 4,
    when inside(ts, p) && 1 <= k <= 6
{
    if k <= 1 {
        unary_at(ts, ext, p)
    } else {
        level_at(ts, ext, k - 1, p)
    }
}

/// `level_k := level_{k-1} (op_k level_{k-1})*`, folded to the left.
pub open spec fn level_at(ts: Seq<TokenView>, ext: Extensions, k: int, p: int) -> Res<ExprView>
    decreases ts.len() - p, 2 * k + 5,
    when inside(ts, p) && 1 <= k <= 6
{
    match operand_at(ts, ext, k, p) {
        Err(e) => Err(e),
        Ok((left, q)) => if fwd(ts, p, q) {
            level_tail(ts, ext, k, q, left)
        } else {
            Err(stalled(ts, p))
        },
    }
}

pub open spec fn level_tail(ts: Seq<TokenView>, ext: Extensions, k: int, p: int, left: ExprView) -> Res<ExprView>
    decreases ts.len() - p, 2 * k + 5,
    when inside(ts, p) && 1 <= k <= 6
{
    if !at_end(ts, p) && level_op(k, ts[p].toktype) {
        match operand_at(ts, ext, k, p + 1) {
            Err(e) => Err(e),
            Ok((right, q)) => match combine(k, left, ts[p], right) {
                Err(e) => Err(e),
                Ok(joined) => if fwd(ts, p, q) {
                    level_tail(ts, ext, k, q, joined)
                } else {
                    Err(stalled(ts, p))
                },
            },
        }
    } else {
        Ok((left, p))
    }
}

/// `unary := ('!' | '-') unary | call`
pub open spec fn unary_at(ts: Seq<TokenView>, ext: Extensions, p: int) -> Res<ExprView>
    decreases ts.len() - p, 3int,
    when inside(ts, p)
{
    if checks(ts, p, TokenType::Bang) || checks(ts, p, TokenType::Minus) {
        match unary_at(ts, ext, p + 1) {
            Err(e) => Err(e),
            Ok((right, q)) => match unary_op_of(ts[p]) {
                Err(e) => Err(e),
                Ok(op) => Ok((ExprView::Unary(op, Box::new(right)), q)),
            },
        }
    } else {
        call_at(ts, ext, p)
    }
}

/// `call := primary ('(' arguments ')' | '[' expression ']')*`
pub open spec fn call_at(ts: Seq<TokenView>, ext: Extensions, p: int) -> Res<ExprView>
    decreases ts.len() - p, 2int,
    when inside(ts, p)
{
    match primary_at(ts, ext, p) {
        Err(e) => Err(e),
        Ok((callee, q)) => if fwd(ts, p, q) {
            suffix_at(ts, ext, q, callee)
        } else {
            Err(stalled(ts, p))
        },
    }
}

pub open spec fn suffix_at(ts: Seq<TokenView>, ext: Extensions, p: int, callee: ExprView) -> Res<ExprView>
    decreases ts.len() - p, 22int,
    when inside(ts, p)
{
    if checks(ts, p, TokenType::LeftParen) {
        match finish_call_at(ts, ext, p + 1, callee) {
            Err(e) => Err(e),
            Ok((call, q)) => if fwd(ts, p, q) {
                suffix_at(ts, ext, q, call)
            } else {
                Err(stalled(ts, p))
            },
        }
    } else if ext.lists && checks(ts, p, TokenType::LeftBracket) {
        match expression_at(ts, ext, p + 1) {
            Err(e) => Err(e),
            Ok((slice, q)) => match consume(ts, q, TokenType::RightBracket, Expectation::BracketAfterSubscript) {
                Err(e) => Err(e),
                Ok(r) => if fwd(ts, p, r) {
                    suffix_at(
                        ts,
                        ext,
                        r,
                        ExprView::Subscript { value: Box::new(callee), slice: Box::new(slice), loc: loc_of(ts[q]) },
                    )
                } else {
                    Err(stalled(ts, p))
                },
            },
        }
    } else {
        Ok((callee, p))
    }
}

/// The arguments of a call whose `(` has been read, and its `)`.
pub open spec fn finish_call_at(ts: Seq<TokenView>, ext: Extensions, p: int, callee: ExprView) -> Res<ExprView>
    decreases ts.len() - p, 21int,
    when inside(ts, p)
{
    if checks(ts, p, TokenType::RightParen) {
        Ok((ExprView::Call(Box::new(callee), loc_of(ts[p]), Seq::empty()), p + 1))
    } else {
        arguments_at(ts, ext, p, callee, Seq::empty())
    }
}

pub open spec fn arguments_at(ts: Seq<TokenView>, ext: Extensions, p: int, callee: ExprView, acc: Seq<ExprView>) -> Res<ExprView>
    decreases ts.len() - p, 20int,
    when inside(ts, p)
{
    if acc.len() >= 255 {
        Err(ErrorView::TooManyArguments { line: ts[p].line, col: ts[p].col })
    } else {
        match expression_at(ts, ext, p) {
            Err(e) => Err(e),
            Ok((arg, q)) => if !fwd(ts, p, q) {
                Err(stalled(ts, p))
            } else if checks(ts, q, TokenType::Comma) {
                arguments_at(ts, ext, q + 1, callee, acc.push(arg))
            } else {
                match consume(ts, q, TokenType::RightParen, Expectation::ParenAfterArguments) {
                    Err(e) => Err(e),
                    Ok(r) => Ok((ExprView::Call(Box::new(callee), loc_of(ts[q]), acc.push(arg)), r)),
                }
            },
        }
    }
}

/// The elements of a list literal whose `[` has been read, and its `]`.
pub open spec fn elements_at(ts: Seq<TokenView>, ext: Extensions, p: int, acc: Seq<ExprView>) -> Res<ExprView>
    decreases ts.len() - p, 20int,
    when inside(ts, p)
{
    match expression_at(ts, ext, p) {
        Err(e) => Err(e),
        Ok((item, q)) => if !fwd(ts, p, q) {
            Err(stalled(ts, p))
        } else if checks(ts, q, TokenType::Comma) {
            elements_at(ts, ext, q + 1, acc.push(item))
        } else {
            match consume(ts, q, TokenType::RightBracket, Expectation::BracketAfterList) {
                Err(e) => Err(e),
                Ok(r) => Ok((ExprView::List(acc.push(item)), r)),
            }
        },
    }
}

/// The primary expression at `p`.
pub open spec fn primary_at(ts: Seq<TokenView>, ext: Extensions, p: int) -> Res<ExprView>
    decreases ts.len() - p, 1int,
    when inside(ts, p)
{
    let t = ts[p];
    if checks(ts, p, TokenType::False) {
        Ok((ExprView::Literal(LiteralView::False), p + 1))
    } else if checks(ts, p, TokenType::True) {
        Ok((ExprView::Literal(LiteralView::True), p + 1))
    } else if checks(ts, p, TokenType::Nil) {
        Ok((ExprView::Literal(LiteralView::Nil), p + 1))
    } else if checks(ts, p, TokenType::Super) {
        match consume(ts, p + 1, TokenType::Dot, Expectation::DotAfterSuper) {
            Err(e) => Err(e),
            Ok(q) => match consume(ts, q, TokenType::Identifier, Expectation::SuperclassMethodName) {
                Err(e) => Err(e),
                Ok(r) => Ok((ExprView::Super(loc_of(t), symbol_of(ts[q])), r)),
            },
        }
    } else if checks(ts, p, TokenType::Number) {
        match t.literal {
            Some(TokenLiteral::Number(d)) => Ok((ExprView::Literal(LiteralView::Number(d)), p + 1)),
            _ => Err(stalled(ts, p)),
        }
    } else if checks(ts, p, TokenType::String) {
        match t.literal {
            Some(TokenLiteral::Str(s)) => Ok((ExprView::Literal(LiteralView::String(s)), p + 1)),
            _ => Err(stalled(ts, p)),
        }
    } else if checks(ts, p, TokenType::This) {
        Ok((ExprView::This(loc_of(t)), p + 1))
    } else if checks(ts, p, TokenType::Identifier) {
        match t.literal {
            Some(TokenLiteral::Identifier(s)) => Ok(
                (ExprView::Variable(SymbolView { name: s, line: t.line, col: t.col }), p + 1),
            ),
            _ => Err(stalled(ts, p)),
        }
    } else if checks(ts, p, TokenType::LeftParen) {
        match expression_at(ts, ext, p + 1) {
            Err(e) => Err(e),
            Ok((inner, q)) => match consume(ts, q, TokenType::RightParen, Expectation::ParenAfterExpression) {
                Err(e) => Err(e),
                Ok(r) => Ok((ExprView::Grouping(Box::new(inner)), r)),
            },
        }
    } else if ext.lists && checks(ts, p, TokenType::LeftBracket) {
        if checks(ts, p + 1, TokenType::RightBracket) {
            Ok((ExprView::List(Seq::empty()), p + 2))
        } else {
            elements_at(ts, ext, p + 1, Seq::empty())
        }
    } else if ext.lambdas && checks(ts, p, TokenType::Lambda) {
        match callable_at(ts, ext, p + 1, FunctionKind::Lambda) {
            Err(e) => Err(e),
            Ok(((params, body), q)) => Ok((ExprView::Lambda(params, body), q)),
        }
    } else {
        Err(ErrorView::ExpectedExpression { token_type: t.toktype, line: t.line, col: t.col })
    }
}

/// `( params ) { body }`, the body read inside a function.
pub open spec fn callable_at(ts: Seq<TokenView>, ext: Extensions, p: int, kind: FunctionKind) -> Res<Callable>
    decreases ts.len() - p, 25int,
    when inside(ts, p)
{
    match consume(ts, p, TokenType::LeftParen, Expectation::ParenAfterName(kind)) {
        Err(e) => Err(e),
        Ok(q) => {
            let params: Res<Seq<SymbolView>> = if checks(ts, q, TokenType::RightParen) {
                Ok((Seq::empty(), q))
            } else {
                params_at(ts, q, kind, Seq::empty())
            };
            match params {
                Err(e) => Err(e),
                Ok((ps, r)) => match consume(ts, r, TokenType::RightParen, Expectation::ParenAfterParameters) {
                    Err(e) => Err(e),
                    Ok(s) => match consume(ts, s, TokenType::LeftBrace, Expectation::BraceBeforeBody) {
                        Err(e) => Err(e),
                        Ok(u) => if fwd(ts, p, u) {
                            match block_at(ts, ext, u, true, Seq::empty()) {
                                Err(e) => Err(e),
                                Ok((body, v)) => Ok(((ps, body), v)),
                            }
                        } else {
                            Err(stalled(ts, p))
                        },
                    },
                },
            }
        },
    }
}

/// `param (',' param)*`, at most 255 of them.
pub open spec fn params_at(ts: Seq<TokenView>, p: int, kind: FunctionKind, acc: Seq<SymbolView>) -> Res<Seq<SymbolView>>
    decreases ts.len() - p,
    when inside(ts, p)
{
    if acc.len() >= 255 {
        Err(ErrorView::MaxParamsExceeded { kind, line: ts[p].line, col: ts[p].col })
    } else {
        match consume(ts, p, TokenType::Identifier, Expectation::ParameterName) {
            Err(e) => Err(e),
            Ok(q) => if checks(ts, q, TokenType::Comma) {
                params_at(ts, q + 1, kind, acc.push(symbol_of(ts[p])))
            } else {
                Ok((acc.push(symbol_of(ts[p])), q))
            },
        }
    }
}

/// `name ( params ) { body }`
pub open spec fn fun_decl_at(ts: Seq<TokenView>, ext: Extensions, p: int, kind: FunctionKind) -> Res<FunDeclView>
    decreases ts.len() - p, 26int,
    when inside(ts, p)
{
    match consume(ts, p, TokenType::Identifier, Expectation::FunctionName(kind)) {
        Err(e) => Err(e),
        Ok(q) => match callable_at(ts, ext, q, kind) {
            Err(e) => Err(e),
            Ok(((params, body), r)) => Ok((FunDeclView { name: symbol_of(ts[p]), params, body }, r)),
        },
    }
}

/// `name ['<' superclass] '{' method* '}'`
pub open spec fn class_decl_at(ts: Seq<TokenView>, ext: Extensions, p: int) -> Res<StmtView>
    decreases ts.len() - p, 28int,
    when inside(ts, p)
{
    match consume(ts, p, TokenType::Identifier, Expectation::ClassName) {
        Err(e) => Err(e),
        Ok(q) => {
            let sup: Result<(Option<SymbolView>, int), ErrorView> = if checks(ts, q, TokenType::Less) {
                match consume(ts, q + 1, TokenType::Identifier, Expectation::SuperclassName) {
                    Err(e) => Err(e),
                    Ok(r) => Ok((Some(symbol_of(ts[q + 1])), r)),
                }
            } else {
                Ok((None, q))
            };
            match sup {
                Err(e) => Err(e),
                Ok((superclass, r)) => match consume(ts, r, TokenType::LeftBrace, Expectation::BraceAfterClassName) {
                    Err(e) => Err(e),
                    Ok(s) => if fwd(ts, p, s) {
                        match methods_at(ts, ext, s, Seq::empty()) {
                            Err(e) => Err(e),
                            Ok((methods, u)) => match consume(ts, u, TokenType::RightBrace, Expectation::BraceAfterClassBody) {
                                Err(e) => Err(e),
                                Ok(v) => Ok((StmtView::ClassDecl { name: symbol_of(ts[p]), superclass, methods }, v)),
                            },
                        }
                    } else {
                        Err(stalled(ts, p))
                    },
                },
            }
        },
    }
}

pub open spec fn methods_at(ts: Seq<TokenView>, ext: Extensions, p: int, acc: Seq<FunDeclView>) -> Res<Seq<FunDeclView>>
    decreases ts.len() - p, 27int,
    when inside(ts, p)
{
    if !checks(ts, p, TokenType::RightBrace) && !at_end(ts, p) {
        match fun_decl_at(ts, ext, p, FunctionKind::Method) {
            Err(e) => Err(e),
            Ok((m, q)) => if fwd(ts, p, q) {
                methods_at(ts, ext, q, acc.push(m))
            } else {
                Err(stalled(ts, p))
            },
        }
    } else {
        Ok((acc, p))
    }
}

/// `name ['=' expression] ';'` (after `var`)
pub open spec fn var_decl_at(ts: Seq<TokenView>, ext: Extensions, p: int) -> Res<StmtView>
    decreases ts.len() - p, 21int,
    when inside(ts, p)
{
    match consume(ts, p, TokenType::Identifier, Expectation::VariableName) {
        Err(e) => Err(e),
        Ok(q) => {
            let init: Result<(Option<ExprView>, int), ErrorView> = if checks(ts, q, TokenType::Equal) {
                match expression_at(ts, ext, q + 1) {
                    Err(e) => Err(e),
                    Ok((v, r)) => Ok((Some(v), r)),
                }
            } else {
                Ok((None, q))
            };
            match init {
                Err(e) => Err(e),
                Ok((v, r)) => match consume(ts, r, TokenType::Semicolon, Expectation::SemicolonAfterVarDecl) {
                    Err(e) => Err(e),
                    Ok(s) => Ok((StmtView::VarDecl(symbol_of(ts[p]), v), s)),
                },
            }
        },
    }
}

/// `declaration := 'var' varDecl | 'def' funDecl | 'class' classDecl | statement`
pub open spec fn declaration_at(ts: Seq<TokenView>, ext: Extensions, p: int, in_fun: bool) -> Res<StmtView>
    decreases ts.len() - p, 30int,
    when inside(ts, p)
{
    if checks(ts, p, TokenType::Var) {
        var_decl_at(ts, ext, p + 1)
    } else if checks(ts, p, TokenType::Def) {
        match fun_decl_at(ts, ext, p + 1, FunctionKind::Function) {
            Err(e) => Err(e),
            Ok((f, q)) => Ok((StmtView::FunDecl(f), q)),
        }
    } else if checks(ts, p, TokenType::Class) {
        class_decl_at(ts, ext, p + 1)
    } else {
        statement_at(ts, ext, p, in_fun)
    }
}

/// `statement := print | while | block | for | if | return | expression ';'`
pub open spec fn statement_at(ts: Seq<TokenView>, ext: Extensions, p: int, in_fun: bool) -> Res<StmtView>
    decreases ts.len() - p, 29int,
    when inside(ts, p)
{
    if checks(ts, p, TokenType::Print) {
        match expression_at(ts, ext, p + 1) {
            Err(e) => Err(e),
            Ok((v, q)) => match consume(ts, q, TokenType::Semicolon, Expectation::SemicolonAfterValue) {
                Err(e) => Err(e),
                Ok(r) => Ok((StmtView::Print(v), r)),
            },
        }
    } else if checks(ts, p, TokenType::While) {
        while_at(ts, ext, p + 1, in_fun)
    } else if checks(ts, p, TokenType::LeftBrace) {
        match block_at(ts, ext, p + 1, in_fun, Seq::empty()) {
            Err(e) => Err(e),
            Ok((b, q)) => Ok((StmtView::Block(b), q)),
        }
    } else if checks(ts, p, TokenType::For) {
        for_at(ts, ext, p + 1, in_fun)
    } else if checks(ts, p, TokenType::If) {
        if_at(ts, ext, p + 1, in_fun)
    } else if checks(ts, p, TokenType::Return) {
        return_at(ts, ext, p + 1, in_fun, loc_of(ts[p]))
    } else {
        expression_statement_at(ts, ext, p)
    }
}

pub open spec fn expression_statement_at(ts: Seq<TokenView>, ext: Extensions, p: int) -> Res<StmtView>
    decreases ts.len() - p, 21int,
    when inside(ts, p)
{
    match expression_at(ts, ext, p) {
        Err(e) => Err(e),
        Ok((v, q)) => match consume(ts, q, TokenType::Semicolon, Expectation::SemicolonAfterValue) {
            Err(e) => Err(e),
            Ok(r) => Ok((StmtView::Expr(v), r)),
        },
    }
}

/// `[expression] ';'` after `return`, legal only inside a function.
pub open spec fn return_at(ts: Seq<TokenView>, ext: Extensions, p: int, in_fun: bool, loc: LocView) -> Res<StmtView>
    decreases ts.len() - p, 21int,
    when inside(ts, p)
{
    if !in_fun {
        Err(ErrorView::ReturnNotInFun { line: loc.line, col: loc.col })
    } else if checks(ts, p, TokenType::Semicolon) {
        Ok((StmtView::Return(loc, None), p + 1))
    } else {
        match expression_at(ts, ext, p) {
            Err(e) => Err(e),
            Ok((v, q)) => match consume(ts, q, TokenType::Semicolon, Expectation::SemicolonAfterReturnValue) {
                Err(e) => Err(e),
                Ok(r) => Ok((StmtView::Return(loc, Some(v)), r)),
            },
        }
    }
}

/// `'(' expression ')' statement` after `while`
pub open spec fn while_at(ts: Seq<TokenView>, ext: Extensions, p: int, in_fun: bool) -> Res<StmtView>
    decreases ts.len() - p, 21int,
    when inside(ts, p)
{
    match consume(ts, p, TokenType::LeftParen, Expectation::ParenAfterWhile) {
        Err(e) => Err(e),
        Ok(q) => match expression_at(ts, ext, q) {
            Err(e) => Err(e),
            Ok((cond, r)) => match consume(ts, r, TokenType::RightParen, Expectation::ParenAfterWhileCondition) {
                Err(e) => Err(e),
                Ok(s) => if fwd(ts, p, s) {
                    match statement_at(ts, ext, s, in_fun) {
                        Err(e) => Err(e),
                        Ok((body, u)) => Ok((StmtView::While(cond, Box::new(body)), u)),
                    }
                } else {
                    Err(stalled(ts, p))
                },
            },
        },
    }
}

/// `'(' expression ')' statement ['else' statement]` after `if`
pub open spec fn if_at(ts: Seq<TokenView>, ext: Extensions, p: int, in_fun: bool) -> Res<StmtView>
    decreases ts.len() - p, 21int,
    when inside(ts, p)
{
    match consume(ts, p, TokenType::LeftParen, Expectation::ParenAfterIf) {
        Err(e) => Err(e),
        Ok(q) => match expression_at(ts, ext, q) {
            Err(e) => Err(e),
            Ok((cond, r)) => match consume(ts, r, TokenType::RightParen, Expectation::ParenAfterIfCondition) {
                Err(e) => Err(e),
                Ok(s) => if fwd(ts, p, s) {
                    match statement_at(ts, ext, s, in_fun) {
                        Err(e) => Err(e),
                        Ok((then_branch, u)) => if fwd(ts, p, u) && checks(ts, u, TokenType::Else) {
                            match statement_at(ts, ext, u + 1, in_fun) {
                                Err(e) => Err(e),
                                Ok((else_branch, v)) => Ok(
                                    (StmtView::If(cond, Box::new(then_branch), Some(Box::new(else_branch))), v),
                                ),
                            }
                        } else {
                            Ok((StmtView::If(cond, Box::new(then_branch), None), u))
                        },
                    }
                } else {
                    Err(stalled(ts, p))
                },
            },
        },
    }
}

/// An expression, or nothing where the token `stop` comes first.
pub open spec fn optional_expression_at(ts: Seq<TokenView>, ext: Extensions, p: int, stop: TokenType) -> Result<(Option<ExprView>, int), ErrorView>
    decreases ts.len() - p, 20int,
    when inside(ts, p)
{
    if checks(ts, p, stop) {
        Ok((None, p))
    } else {
        match expression_at(ts, ext, p) {
            Err(e) => Err(e),
            Ok((v, q)) => Ok((Some(v), q)),
        }
    }
}

/// The statement that a `for` loop stands for.
pub open spec fn desugar_for(init: Option<StmtView>, cond: Option<ExprView>, incr: Option<ExprView>, body: StmtView) -> StmtView {
    let body = match incr {
        Some(i) => StmtView::Block(seq![body, StmtView::Expr(i)]),
        None => body,
    };
    let cond = match cond {
        Some(c) => c,
        None => ExprView::Literal(LiteralView::True),
    };
    let looped = StmtView::While(cond, Box::new(body));
    match init {
        Some(s) => StmtView::Block(seq![s, looped]),
        None => looped,
    }
}

/// `'(' [init] ';' [cond] ';' [incr] ')' statement` after `for`
pub open spec fn for_at(ts: Seq<TokenView>, ext: Extensions, p: int, in_fun: bool) -> Res<StmtView>
    decreases ts.len() - p, 21int,
    when inside(ts, p)
{
    match consume(ts, p, TokenType::LeftParen, Expectation::ParenAfterFor) {
        Err(e) => Err(e),
        Ok(q) => {
            let init: Result<(Option<StmtView>, int), ErrorView> = if checks(ts, q, TokenType::Semicolon) {
                Ok((None, q + 1))
            } else {
                match expression_statement_at(ts, ext, q) {
                    Err(e) => Err(e),
                    Ok((s, r)) => Ok((Some(s), r)),
                }
            };
            match init {
                Err(e) => Err(e),
                Ok((init, r)) => if !fwd(ts, p, r) {
                    Err(stalled(ts, p))
                } else {
                    match optional_expression_at(ts, ext, r, TokenType::Semicolon) {
                        Err(e) => Err(e),
                        Ok((cond, s)) => match consume(ts, s, TokenType::Semicolon, Expectation::SemicolonAfterLoopCondition) {
                            Err(e) => Err(e),
                            Ok(u) => if !fwd(ts, p, u) {
                                Err(stalled(ts, p))
                            } else {
                                match optional_expression_at(ts, ext, u, TokenType::RightParen) {
                                    Err(e) => Err(e),
                                    Ok((incr, v)) => match consume(ts, v, TokenType::RightParen, Expectation::ParenAfterForClauses) {
                                        Err(e) => Err(e),
                                        Ok(w) => if !fwd(ts, p, w) {
                                            Err(stalled(ts, p))
                                        } else {
                                            match statement_at(ts, ext, w, in_fun) {
                                                Err(e) => Err(e),
                                                Ok((body, x)) => Ok((desugar_for(init, cond, incr, body), x)),
                                            }
                                        },
                                    },
                                }
                            },
                        },
                    }
                },
            }
        },
    }
}

/// Declarations up to the closing `}` of a block, and the `}`.
pub open spec fn block_at(ts: Seq<TokenView>, ext: Extensions, p: int, in_fun: bool, acc: Seq<StmtView>) -> Res<Seq<StmtView>>
    decreases ts.len() - p, 31int,
    when inside(ts, p)
{
    if checks(ts, p, TokenType::RightBrace) || at_end(ts, p) {
        match consume(ts, p, TokenType::RightBrace, Expectation::BraceAfterBlock) {
            Err(e) => Err(e),
            Ok(q) => Ok((acc, q)),
        }
    } else {
        match declaration_at(ts, ext, p, in_fun) {
            Err(e) => Err(e),
            Ok((s, q)) => if fwd(ts, p, q) {
                block_at(ts, ext, q, in_fun, acc.push(s))
            } else {
                Err(stalled(ts, p))
            },
        }
    }
}

/// Declarations up to the end of input.
pub open spec fn declarations_at(ts: Seq<TokenView>, ext: Extensions, p: int, in_fun: bool, acc: Seq<StmtView>) -> Res<Seq<StmtView>>
    decreases ts.len() - p, 31int,
    when inside(ts, p)
{
    if at_end(ts, p) {
        Ok((acc, p))
    } else {
        match declaration_at(ts, ext, p, in_fun) {
            Err(e) => Err(e),
            Ok((s, q)) => if fwd(ts, p, q) {
                declarations_at(ts, ext, q, in_fun, acc.push(s))
            } else {
                Err(stalled(ts, p))
            },
        }
    }
}

/// A declaration read as a variable declaration without the `var` keyword,
/// then the declarations up to the end of input.
pub open spec fn declaring_at(ts: Seq<TokenView>, ext: Extensions, p: int, in_fun: bool) -> Res<Seq<StmtView>> {
    match var_decl_at(ts, ext, p) {
        Err(e) => Err(e),
        Ok((first, q)) => if fwd(ts, p, q) {
            declarations_at(ts, ext, q, in_fun, seq![first])
        } else {
            Err(stalled(ts, p))
        },
    }
}

/// The statements of a parse that must use up every token.
pub open spec fn whole(ts: Seq<TokenView>, r: Res<Seq<StmtView>>) -> Result<Seq<StmtView>, ErrorView> {
    match r {
        Err(e) => Err(e),
        Ok((stmts, q)) => if at_end(ts, q) {
            Ok(stmts)
        } else {
            Err(stalled(ts, q))
        },
    }
}

/// A whole program: declarations that use up every token.
pub open spec fn program(ts: Seq<TokenView>, ext: Extensions) -> Result<Seq<StmtView>, ErrorView> {
    whole(ts, declarations_at(ts, ext, 0, false, Seq::empty()))
}

/// A whole program whose first statement is read as a variable declaration
/// without the `var` keyword.
pub open spec fn program_declaring(ts: Seq<TokenView>, ext: Extensions) -> Result<Seq<StmtView>, ErrorView> {
    whole(ts, declaring_at(ts, ext, 0, false))
}

/// `return` outside a function body is an error at the `return` token,
/// whatever follows it.
pub proof fn lemma_return_outside_function(ts: Seq<TokenView>, ext: Extensions, p: int)
    requires
        inside(ts, p),
        checks(ts, p, TokenType::Return),
    ensures
        declaration_at(ts, ext, p, false) == Err::<(StmtView, int), _>(
            ErrorView::ReturnNotInFun { line: ts[p].line, col: ts[p].col },
        ),
{
    assert(inside(ts, p + 1));
}

/// Inside a function body, `return e;` is a return statement of `e`.
pub proof fn lemma_return_inside_function(ts: Seq<TokenView>, ext: Extensions, p: int)
    requires
        inside(ts, p),
        checks(ts, p, TokenType::Return),
        !checks(ts, p + 1, TokenType::Semicolon),
        expression_at(ts, ext, p + 1) is Ok,
        checks(ts, expression_at(ts, ext, p + 1)->Ok_0.1, TokenType::Semicolon),
        0 <= expression_at(ts, ext, p + 1)->Ok_0.1 < ts.len(),
    ensures
        declaration_at(ts, ext, p, true) == Ok::<_, ErrorView>(
            (
                StmtView::Return(loc_of(ts[p]), Some(expression_at(ts, ext, p + 1)->Ok_0.0)),
                expression_at(ts, ext, p + 1)->Ok_0.1 + 1,
            ),
        ),
{
    assert(inside(ts, p + 1));
}

/// Whatever the tokenizer returns, the parser accepts: tokenizing and then
/// parsing never fails for want of an end-of-input token, and the only one
/// is the last token.
pub proof fn lemma_tokens_parsable(src: Seq<u8>)
    ensures
        tokenize_spec(src) is Ok ==> tokens_wf(tokenize_spec(src)->Ok_0),
        tokenize_spec(src) is Ok ==> forall|i: int|
            0 <= i < tokenize_spec(src)->Ok_0.len() - 1 ==> !at_end(tokenize_spec(src)->Ok_0, i),
{
    lemma_one_eof_at_end(src, 0, 1, -1);
}

} // verus!
