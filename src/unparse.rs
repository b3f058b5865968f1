//! Writing parsed expressions and statements back out as token kinds: what
//! the parser reads, re-serialized, is the sequence of token kinds it was
//! read from (a `for` loop excepted, since it is read as a `while` loop).
use vstd::prelude::*;
use crate::ast::{BinaryOpTy, ExprView, FunDeclView, LiteralView, LogicalOp, StmtView, SymbolView, UnaryOpTy};
use crate::grammar::{
    at_end, block_at, callable_at, class_decl_at, declaration_at, declarations_at,
    fun_decl_at, if_at, loc_of, methods_at, params_at, program, return_at, statement_at, tokens_wf, var_decl_at,
    while_at, arguments_at, assignment_at, call_at, checks, combine, consume, elements_at,
    expression_at, finish_call_at, fwd, inside, level_at, level_op, level_tail, operand_at, primary_at, suffix_at,
    lemma_tokens_parsable, unary_at, unary_op_of,
};
use crate::lexer::{tokenize_spec, TokenType, TokenView};
use crate::parser::Extensions;

verus! {

/// The kinds of the tokens at positions `p .. q`.
pub open spec fn kinds(ts: Seq<TokenView>, p: int, q: int) -> Seq<TokenType> {
    ts.subrange(p, q).map_values(|t: TokenView| t.toktype)
}

pub open spec fn unary_kind(op: UnaryOpTy) -> TokenType {
    match op {
        UnaryOpTy::Minus => TokenType::Minus,
        UnaryOpTy::Bang => TokenType::Bang,
    }
}

pub open spec fn binary_kind(op: BinaryOpTy) -> TokenType {
    match op {
        BinaryOpTy::EqualEqual => TokenType::EqualEqual,
        BinaryOpTy::NotEqual => TokenType::BangEqual,
        BinaryOpTy::Less => TokenType::Less,
        BinaryOpTy::LessEqual => TokenType::LessEqual,
        BinaryOpTy::Greater => TokenType::Greater,
        BinaryOpTy::GreaterEqual => TokenType::GreaterEqual,
        BinaryOpTy::Plus => TokenType::Plus,
        BinaryOpTy::Minus => TokenType::Minus,
        BinaryOpTy::Star => TokenType::Star,
        BinaryOpTy::Slash => TokenType::Slash,
    }
}

pub open spec fn logical_kind(op: LogicalOp) -> TokenType {
    match op {
        LogicalOp::Or => TokenType::Or,
        LogicalOp::And => TokenType::And,
    }
}

/// The token kinds that spell an expression.
pub open spec fn unparse(e: ExprView) -> Seq<TokenType>
    decreases e, 0int,
{
    match e {
        ExprView::Literal(LiteralView::Number(_)) => seq![TokenType::Number],
        ExprView::Literal(LiteralView::String(_)) => seq![TokenType::String],
        ExprView::Literal(LiteralView::True) => seq![TokenType::True],
        ExprView::Literal(LiteralView::False) => seq![TokenType::False],
        ExprView::Literal(LiteralView::Nil) => seq![TokenType::Nil],
        ExprView::This(_) => seq![TokenType::This],
        ExprView::Unary(op, r) => seq![unary_kind(op.toktype)] + unparse(*r),
        ExprView::Binary(l, op, r) => unparse(*l) + seq![binary_kind(op.toktype)] + unparse(*r),
        ExprView::Call(c, _, args) => unparse(*c) + seq![TokenType::LeftParen] + unparse_list(args) + seq![
            TokenType::RightParen,
        ],
        ExprView::Get(o, _) => unparse(*o) + seq![TokenType::Dot, TokenType::Identifier],
        ExprView::Grouping(i) => seq![TokenType::LeftParen] + unparse(*i) + seq![TokenType::RightParen],
        ExprView::Variable(_) => seq![TokenType::Identifier],
        ExprView::Assign(_, v) => seq![TokenType::Identifier, TokenType::Equal] + unparse(*v),
        ExprView::Logical(l, op, r) => unparse(*l) + seq![logical_kind(op)] + unparse(*r),
        ExprView::SetAttr(o, _, v) => unparse(*o) + seq![TokenType::Dot, TokenType::Identifier, TokenType::Equal]
            + unparse(*v),
        ExprView::Super(_, _) => seq![TokenType::Super, TokenType::Dot, TokenType::Identifier],
        ExprView::List(items) => seq![TokenType::LeftBracket] + unparse_list(items) + seq![TokenType::RightBracket],
        ExprView::Subscript { value, slice, .. } => unparse(*value) + seq![TokenType::LeftBracket] + unparse(*slice)
            + seq![TokenType::RightBracket],
        ExprView::SetItem { lhs, slice, rhs, .. } => unparse(*lhs) + seq![TokenType::LeftBracket] + unparse(*slice)
            + seq![TokenType::RightBracket, TokenType::Equal] + unparse(*rhs),
        ExprView::Lambda(params, body) => seq![TokenType::Lambda] + unparse_callable(params, body),
    }
}

/// `( params ) { body }`
pub open spec fn unparse_callable(params: Seq<SymbolView>, body: Seq<StmtView>) -> Seq<TokenType>
    decreases body, 1int,
{
    seq![TokenType::LeftParen] + params_kinds(params) + seq![TokenType::RightParen, TokenType::LeftBrace]
        + unparse_stmts(body) + seq![TokenType::RightBrace]
}

/// `name ( params ) { body }`
pub open spec fn unparse_fun(f: FunDeclView) -> Seq<TokenType>
    decreases f, 0int,
{
    seq![TokenType::Identifier] + unparse_callable(f.params, f.body)
}

pub open spec fn unparse_funs(fs: Seq<FunDeclView>) -> Seq<TokenType>
    decreases fs, 0int,
{
    if fs.len() == 0 {
        Seq::empty()
    } else {
        unparse_funs(fs.subrange(0, fs.len() - 1)) + unparse_fun(fs[fs.len() - 1])
    }
}

/// The token kinds that spell a statement.
pub open spec fn unparse_stmt(s: StmtView) -> Seq<TokenType>
    decreases s, 0int,
{
    match s {
        StmtView::Expr(e) => unparse(e) + seq![TokenType::Semicolon],
        StmtView::Print(e) => seq![TokenType::Print] + unparse(e) + seq![TokenType::Semicolon],
        StmtView::VarDecl(_, None) => seq![TokenType::Var, TokenType::Identifier, TokenType::Semicolon],
        StmtView::VarDecl(_, Some(e)) => seq![TokenType::Var, TokenType::Identifier, TokenType::Equal] + unparse(e)
            + seq![TokenType::Semicolon],
        StmtView::FunDecl(f) => seq![TokenType::Def] + unparse_fun(f),
        StmtView::ClassDecl { superclass, methods, .. } => seq![TokenType::Class, TokenType::Identifier] + (
        match superclass {
            Some(_) => seq![TokenType::Less, TokenType::Identifier],
            None => Seq::empty(),
        }) + seq![TokenType::LeftBrace] + unparse_funs(methods) + seq![TokenType::RightBrace],
        StmtView::If(c, t, None) => seq![TokenType::If, TokenType::LeftParen] + unparse(c) + seq![
            TokenType::RightParen,
        ] + unparse_stmt(*t),
        StmtView::If(c, t, Some(e)) => seq![TokenType::If, TokenType::LeftParen] + unparse(c) + seq![
            TokenType::RightParen,
        ] + unparse_stmt(*t) + seq![TokenType::Else] + unparse_stmt(*e),
        StmtView::Block(ss) => seq![TokenType::LeftBrace] + unparse_stmts(ss) + seq![TokenType::RightBrace],
        StmtView::Return(_, None) => seq![TokenType::Return, TokenType::Semicolon],
        StmtView::Return(_, Some(e)) => seq![TokenType::Return] + unparse(e) + seq![TokenType::Semicolon],
        StmtView::While(c, b) => seq![TokenType::While, TokenType::LeftParen] + unparse(c) + seq![
            TokenType::RightParen,
        ] + unparse_stmt(*b),
    }
}

pub open spec fn unparse_stmts(ss: Seq<StmtView>) -> Seq<TokenType>
    decreases ss, 0int,
{
    if ss.len() == 0 {
        Seq::empty()
    } else {
        unparse_stmts(ss.subrange(0, ss.len() - 1)) + unparse_stmt(ss[ss.len() - 1])
    }
}

/// Parameter names separated by commas.
pub open spec fn params_kinds(ps: Seq<SymbolView>) -> Seq<TokenType>
    decreases ps.len(),
{
    if ps.len() == 0 {
        Seq::empty()
    } else if ps.len() == 1 {
        seq![TokenType::Identifier]
    } else {
        params_kinds(ps.subrange(0, ps.len() - 1)) + seq![TokenType::Comma, TokenType::Identifier]
    }
}

/// No `for` token: such a loop is read as a `while` loop, which is written
/// back out differently.
pub open spec fn no_for(ts: Seq<TokenView>) -> bool {
    forall|i: int| 0 <= i < ts.len() ==> #[trigger] ts[i].toktype != TokenType::For
}

/// Expressions separated by commas.
pub open spec fn unparse_list(s: Seq<ExprView>) -> Seq<TokenType>
    decreases s, 0int,
{
    if s.len() == 0 {
        Seq::empty()
    } else if s.len() == 1 {
        unparse(s[0])
    } else {
        unparse_list(s.subrange(0, s.len() - 1)) + seq![TokenType::Comma] + unparse(s[s.len() - 1])
    }
}

/// What precedes the next item of a comma-separated list of `acc`.
pub open spec fn list_prefix(acc: Seq<ExprView>) -> Seq<TokenType> {
    if acc.len() == 0 {
        Seq::empty()
    } else {
        unparse_list(acc) + seq![TokenType::Comma]
    }
}

proof fn lemma_kinds_join(ts: Seq<TokenView>, a: int, b: int, c: int)
    requires
        0 <= a <= b <= c <= ts.len(),
    ensures
        kinds(ts, a, c) == kinds(ts, a, b) + kinds(ts, b, c),
{
    assert(kinds(ts, a, c) =~= kinds(ts, a, b) + kinds(ts, b, c));
}

proof fn lemma_kinds_one(ts: Seq<TokenView>, a: int)
    requires
        0 <= a < ts.len(),
    ensures
        kinds(ts, a, a + 1) == seq![ts[a].toktype],
{
    assert(kinds(ts, a, a + 1) =~= seq![ts[a].toktype]);
}

proof fn lemma_list_push(acc: Seq<ExprView>, x: ExprView)
    ensures
        unparse_list(acc.push(x)) == list_prefix(acc) + unparse(x),
{
    let s = acc.push(x);
    assert(s.subrange(0, s.len() - 1) =~= acc);
    if acc.len() == 0 {
        assert(unparse_list(s) == unparse(x));
        assert(Seq::<TokenType>::empty() + unparse(x) =~= unparse(x));
    }
}

/// A successful result spells, from `from` to where it ends, the expression
/// it holds; it ends at or after `p`.
pub open spec fn spells(ts: Seq<TokenView>, from: int, p: int, r: Result<(ExprView, int), crate::parser::ErrorView>) -> bool {
    match r {
        Ok((e, q)) => p <= q < ts.len() && kinds(ts, from, q) == unparse(e),
        Err(_) => true,
    }
}

proof fn lemma_combine(k: int, left: ExprView, t: TokenView, right: ExprView)
    requires
        1 <= k <= 6,
        level_op(k, t.toktype),
    ensures
        combine(k, left, t, right) is Ok ==> unparse(combine(k, left, t, right)->Ok_0) == unparse(left) + seq![
            t.toktype,
        ] + unparse(right),
{
}

proof fn lemma_expression(ts: Seq<TokenView>, ext: Extensions, p: int)
    requires
        inside(ts, p),
        no_for(ts),
    ensures
        spells(ts, p, p + 1, expression_at(ts, ext, p)),
    decreases ts.len() - p, 19int,
{
    lemma_assignment(ts, ext, p);
}

proof fn lemma_assignment(ts: Seq<TokenView>, ext: Extensions, p: int)
    requires
        inside(ts, p),
        no_for(ts),
    ensures
        spells(ts, p, p + 1, assignment_at(ts, ext, p)),
    decreases ts.len() - p, 18int,
{
    lemma_level(ts, ext, 6, p);
    if let Ok((target, q)) = level_at(ts, ext, 6, p) {
        if p <= q < ts.len() && checks(ts, q, TokenType::Equal) {
            lemma_assignment(ts, ext, q + 1);
            if let Ok((value, r)) = assignment_at(ts, ext, q + 1) {
                lemma_kinds_join(ts, p, q, r);
                lemma_kinds_join(ts, q, q + 1, r);
                lemma_kinds_one(ts, q);
                match target {
                    ExprView::Variable(_) => {
                        assert(kinds(ts, p, r) =~= unparse(assignment_at(ts, ext, p)->Ok_0.0));
                    },
                    ExprView::Get(_, _) => {
                        assert(kinds(ts, p, r) =~= unparse(assignment_at(ts, ext, p)->Ok_0.0));
                    },
                    ExprView::Subscript { .. } => {
                        assert(kinds(ts, p, r) =~= unparse(assignment_at(ts, ext, p)->Ok_0.0));
                    },
                    _ => {},
                }
            }
        }
    }
}

proof fn lemma_operand(ts: Seq<TokenView>, ext: Extensions, k: int, p: int)
    requires
        inside(ts, p),
        no_for(ts),
        1 <= k <= 6,
    ensures
        spells(ts, p, p + 1, operand_at(ts, ext, k, p)),
    decreases ts.len() - p, 2 * k + 4,
{
    if k <= 1 {
        lemma_unary(ts, ext, p);
    } else {
        lemma_level(ts, ext, k - 1, p);
    }
}

proof fn lemma_level(ts: Seq<TokenView>, ext: Extensions, k: int, p: int)
    requires
        inside(ts, p),
        no_for(ts),
        1 <= k <= 6,
    ensures
        spells(ts, p, p + 1, level_at(ts, ext, k, p)),
    decreases ts.len() - p, 2 * k + 5,
{
    lemma_operand(ts, ext, k, p);
    if let Ok((left, q)) = operand_at(ts, ext, k, p) {
        if fwd(ts, p, q) {
            lemma_level_tail(ts, ext, k, p, q, left);
        }
    }
}

proof fn lemma_level_tail(ts: Seq<TokenView>, ext: Extensions, k: int, from: int, p: int, left: ExprView)
    requires
        inside(ts, p),
        no_for(ts),
        1 <= k <= 6,
        0 <= from < p,
        kinds(ts, from, p) == unparse(left),
    ensures
        spells(ts, from, p, level_tail(ts, ext, k, p, left)),
    decreases ts.len() - p, 2 * k + 5,
{
    if !crate::grammar::at_end(ts, p) && level_op(k, ts[p].toktype) {
        lemma_operand(ts, ext, k, p + 1);
        if let Ok((right, q)) = operand_at(ts, ext, k, p + 1) {
            lemma_combine(k, left, ts[p], right);
            if let Ok(joined) = combine(k, left, ts[p], right) {
                if fwd(ts, p, q) {
                    lemma_kinds_join(ts, from, p, q);
                    lemma_kinds_join(ts, p, p + 1, q);
                    lemma_kinds_one(ts, p);
                    assert(kinds(ts, from, q) =~= unparse(joined));
                    lemma_level_tail(ts, ext, k, from, q, joined);
                }
            }
        }
    }
}

proof fn lemma_unary(ts: Seq<TokenView>, ext: Extensions, p: int)
    requires
        inside(ts, p),
        no_for(ts),
    ensures
        spells(ts, p, p + 1, unary_at(ts, ext, p)),
    decreases ts.len() - p, 3int,
{
    if checks(ts, p, TokenType::Bang) || checks(ts, p, TokenType::Minus) {
        lemma_unary(ts, ext, p + 1);
        if let Ok((right, q)) = unary_at(ts, ext, p + 1) {
            if let Ok(op) = unary_op_of(ts[p]) {
                lemma_kinds_join(ts, p, p + 1, q);
                lemma_kinds_one(ts, p);
                assert(kinds(ts, p, q) =~= unparse(ExprView::Unary(op, Box::new(right))));
            }
        }
    } else {
        lemma_call(ts, ext, p);
    }
}

proof fn lemma_call(ts: Seq<TokenView>, ext: Extensions, p: int)
    requires
        inside(ts, p),
        no_for(ts),
    ensures
        spells(ts, p, p + 1, call_at(ts, ext, p)),
    decreases ts.len() - p, 2int,
{
    lemma_primary(ts, ext, p);
    if let Ok((callee, q)) = primary_at(ts, ext, p) {
        if fwd(ts, p, q) {
            lemma_suffix(ts, ext, p, q, callee);
        }
    }
}

proof fn lemma_suffix(ts: Seq<TokenView>, ext: Extensions, from: int, p: int, callee: ExprView)
    requires
        inside(ts, p),
        no_for(ts),
        0 <= from < p,
        kinds(ts, from, p) == unparse(callee),
    ensures
        spells(ts, from, p, suffix_at(ts, ext, p, callee)),
    decreases ts.len() - p, 22int,
{
    if checks(ts, p, TokenType::LeftParen) {
        lemma_kinds_join(ts, from, p, p + 1);
        lemma_kinds_one(ts, p);
        lemma_finish_call(ts, ext, from, p + 1, callee);
        if let Ok((call, q)) = finish_call_at(ts, ext, p + 1, callee) {
            if fwd(ts, p, q) {
                lemma_suffix(ts, ext, from, q, call);
            }
        }
    } else if ext.lists && checks(ts, p, TokenType::LeftBracket) {
        lemma_expression(ts, ext, p + 1);
        if let Ok((slice, q)) = expression_at(ts, ext, p + 1) {
            if let Ok(r) = consume(ts, q, TokenType::RightBracket, crate::parser::Expectation::BracketAfterSubscript) {
                if fwd(ts, p, r) {
                    lemma_kinds_join(ts, from, p, r);
                    lemma_kinds_join(ts, p, p + 1, r);
                    lemma_kinds_join(ts, p + 1, q, r);
                    lemma_kinds_one(ts, p);
                    lemma_kinds_one(ts, q);
                    let sub = ExprView::Subscript {
                        value: Box::new(callee),
                        slice: Box::new(slice),
                        loc: crate::grammar::loc_of(ts[q]),
                    };
                    assert(kinds(ts, from, r) =~= unparse(sub));
                    lemma_suffix(ts, ext, from, r, sub);
                }
            }
        }
    }
}

proof fn lemma_finish_call(ts: Seq<TokenView>, ext: Extensions, from: int, p: int, callee: ExprView)
    requires
        inside(ts, p),
        no_for(ts),
        0 <= from < p,
        kinds(ts, from, p) == unparse(callee) + seq![TokenType::LeftParen],
    ensures
        spells(ts, from, p + 1, finish_call_at(ts, ext, p, callee)),
    decreases ts.len() - p, 21int,
{
    if checks(ts, p, TokenType::RightParen) {
        lemma_kinds_join(ts, from, p, p + 1);
        lemma_kinds_one(ts, p);
        assert(unparse_list(Seq::empty()) =~= Seq::<TokenType>::empty());
        assert(kinds(ts, from, p + 1) =~= unparse(finish_call_at(ts, ext, p, callee)->Ok_0.0));
    } else {
        assert(unparse(callee) + seq![TokenType::LeftParen] + list_prefix(Seq::empty()) =~= unparse(callee) + seq![
            TokenType::LeftParen,
        ]);
        lemma_arguments(ts, ext, from, p, callee, Seq::empty());
    }
}

proof fn lemma_arguments(ts: Seq<TokenView>, ext: Extensions, from: int, p: int, callee: ExprView, acc: Seq<ExprView>)
    requires
        inside(ts, p),
        no_for(ts),
        0 <= from < p,
        kinds(ts, from, p) == unparse(callee) + seq![TokenType::LeftParen] + list_prefix(acc),
    ensures
        spells(ts, from, p + 1, arguments_at(ts, ext, p, callee, acc)),
    decreases ts.len() - p, 20int,
{
    if acc.len() < 255 {
        lemma_expression(ts, ext, p);
        if let Ok((arg, q)) = expression_at(ts, ext, p) {
            if fwd(ts, p, q) {
                lemma_list_push(acc, arg);
                lemma_kinds_join(ts, from, p, q);
                if checks(ts, q, TokenType::Comma) {
                    lemma_kinds_join(ts, from, q, q + 1);
                    lemma_kinds_one(ts, q);
                    assert(kinds(ts, from, q + 1) =~= unparse(callee) + seq![TokenType::LeftParen] + list_prefix(
                        acc.push(arg),
                    ));
                    lemma_arguments(ts, ext, from, q + 1, callee, acc.push(arg));
                } else if let Ok(r) = consume(ts, q, TokenType::RightParen, crate::parser::Expectation::ParenAfterArguments) {
                    lemma_kinds_join(ts, from, q, r);
                    lemma_kinds_one(ts, q);
                    assert(kinds(ts, from, r) =~= unparse(arguments_at(ts, ext, p, callee, acc)->Ok_0.0));
                }
            }
        }
    }
}

proof fn lemma_elements(ts: Seq<TokenView>, ext: Extensions, from: int, p: int, acc: Seq<ExprView>)
    requires
        inside(ts, p),
        no_for(ts),
        0 <= from < p,
        kinds(ts, from, p) == seq![TokenType::LeftBracket] + list_prefix(acc),
    ensures
        spells(ts, from, p + 1, elements_at(ts, ext, p, acc)),
    decreases ts.len() - p, 20int,
{
    lemma_expression(ts, ext, p);
    if let Ok((item, q)) = expression_at(ts, ext, p) {
        if fwd(ts, p, q) {
            lemma_list_push(acc, item);
            lemma_kinds_join(ts, from, p, q);
            if checks(ts, q, TokenType::Comma) {
                lemma_kinds_join(ts, from, q, q + 1);
                lemma_kinds_one(ts, q);
                assert(kinds(ts, from, q + 1) =~= seq![TokenType::LeftBracket] + list_prefix(acc.push(item)));
                lemma_elements(ts, ext, from, q + 1, acc.push(item));
            } else if let Ok(r) = consume(ts, q, TokenType::RightBracket, crate::parser::Expectation::BracketAfterList) {
                lemma_kinds_join(ts, from, q, r);
                lemma_kinds_one(ts, q);
                assert(kinds(ts, from, r) =~= unparse(ExprView::List(acc.push(item))));
            }
        }
    }
}

proof fn lemma_primary(ts: Seq<TokenView>, ext: Extensions, p: int)
    requires
        inside(ts, p),
        no_for(ts),
    ensures
        spells(ts, p, p + 1, primary_at(ts, ext, p)),
    decreases ts.len() - p, 1int,
{
    lemma_kinds_one(ts, p);
    if checks(ts, p, TokenType::Super) {
        if checks(ts, p + 1, TokenType::Dot) && checks(ts, p + 2, TokenType::Identifier) {
            lemma_kinds_one(ts, p + 1);
            lemma_kinds_one(ts, p + 2);
            lemma_kinds_join(ts, p, p + 1, p + 3);
            lemma_kinds_join(ts, p + 1, p + 2, p + 3);
            assert(kinds(ts, p, p + 3) =~= seq![TokenType::Super, TokenType::Dot, TokenType::Identifier]);
        }
    } else if checks(ts, p, TokenType::LeftParen) {
        lemma_expression(ts, ext, p + 1);
        if let Ok((inner, q)) = expression_at(ts, ext, p + 1) {
            if checks(ts, q, TokenType::RightParen) {
                lemma_kinds_join(ts, p, p + 1, q + 1);
                lemma_kinds_join(ts, p + 1, q, q + 1);
                lemma_kinds_one(ts, q);
                assert(kinds(ts, p, q + 1) =~= unparse(ExprView::Grouping(Box::new(inner))));
            }
        }
    } else if ext.lists && checks(ts, p, TokenType::LeftBracket) {
        if checks(ts, p + 1, TokenType::RightBracket) {
            lemma_kinds_one(ts, p + 1);
            lemma_kinds_join(ts, p, p + 1, p + 2);
            assert(unparse_list(Seq::empty()) =~= Seq::<TokenType>::empty());
            assert(kinds(ts, p, p + 2) =~= unparse(ExprView::List(Seq::empty())));
        } else {
            assert(seq![TokenType::LeftBracket] + list_prefix(Seq::empty()) =~= seq![TokenType::LeftBracket]);
            lemma_elements(ts, ext, p, p + 1, Seq::empty());
        }
    } else if ext.lambdas && checks(ts, p, TokenType::Lambda) {
        lemma_callable(ts, ext, p + 1, crate::parser::FunctionKind::Lambda);
        if let Ok(((params, body), q)) = callable_at(ts, ext, p + 1, crate::parser::FunctionKind::Lambda) {
            lemma_kinds_join(ts, p, p + 1, q);
            assert(kinds(ts, p, q) =~= unparse(ExprView::Lambda(params, body)));
        }
    }
}

proof fn lemma_params_push(acc: Seq<SymbolView>, x: SymbolView)
    ensures
        params_kinds(acc.push(x)) == (if acc.len() == 0 {
            Seq::<TokenType>::empty()
        } else {
            params_kinds(acc) + seq![TokenType::Comma]
        }) + seq![TokenType::Identifier],
{
    let s = acc.push(x);
    assert(s.subrange(0, s.len() - 1) =~= acc);
    if acc.len() == 0 {
        assert(Seq::<TokenType>::empty() + seq![TokenType::Identifier] =~= seq![TokenType::Identifier]);
    } else {
        assert(params_kinds(acc) + seq![TokenType::Comma, TokenType::Identifier] =~= params_kinds(acc) + seq![
            TokenType::Comma,
        ] + seq![TokenType::Identifier]);
    }
}

proof fn lemma_stmts_push(acc: Seq<StmtView>, x: StmtView)
    ensures
        unparse_stmts(acc.push(x)) == unparse_stmts(acc) + unparse_stmt(x),
{
    assert(acc.push(x).subrange(0, acc.len() as int) =~= acc);
}

proof fn lemma_funs_push(acc: Seq<FunDeclView>, x: FunDeclView)
    ensures
        unparse_funs(acc.push(x)) == unparse_funs(acc) + unparse_fun(x),
{
    assert(acc.push(x).subrange(0, acc.len() as int) =~= acc);
}

proof fn lemma_params(ts: Seq<TokenView>, from: int, p: int, kind: crate::parser::FunctionKind, acc: Seq<SymbolView>)
    requires
        inside(ts, p),
        0 <= from <= p,
        kinds(ts, from, p) == (if acc.len() == 0 {
            Seq::<TokenType>::empty()
        } else {
            params_kinds(acc) + seq![TokenType::Comma]
        }),
    ensures
        params_at(ts, p, kind, acc) is Ok ==> {
            let (ps, q) = params_at(ts, p, kind, acc)->Ok_0;
            p < q < ts.len() && kinds(ts, from, q) == params_kinds(ps)
        },
    decreases ts.len() - p,
{
    if acc.len() < 255 && checks(ts, p, TokenType::Identifier) {
        let sym = crate::grammar::symbol_of(ts[p]);
        lemma_params_push(acc, sym);
        lemma_kinds_join(ts, from, p, p + 1);
        lemma_kinds_one(ts, p);
        if checks(ts, p + 1, TokenType::Comma) {
            lemma_kinds_join(ts, from, p + 1, p + 2);
            lemma_kinds_one(ts, p + 1);
            assert(kinds(ts, from, p + 2) =~= params_kinds(acc.push(sym)) + seq![TokenType::Comma]);
            lemma_params(ts, from, p + 2, kind, acc.push(sym));
        } else {
            assert(kinds(ts, from, p + 1) =~= params_kinds(acc.push(sym)));
        }
    }
}

proof fn lemma_callable(ts: Seq<TokenView>, ext: Extensions, p: int, kind: crate::parser::FunctionKind)
    requires
        inside(ts, p),
        no_for(ts),
    ensures
        callable_at(ts, ext, p, kind) is Ok ==> {
            let ((ps, body), q) = callable_at(ts, ext, p, kind)->Ok_0;
            p < q < ts.len() && kinds(ts, p, q) == unparse_callable(ps, body)
        },
    decreases ts.len() - p, 25int,
{
    if checks(ts, p, TokenType::LeftParen) {
        let q = p + 1;
        assert(kinds(ts, q, q) =~= Seq::<TokenType>::empty());
        if !checks(ts, q, TokenType::RightParen) {
            lemma_params(ts, q, q, kind, Seq::empty());
        }
        let params: Result<(Seq<SymbolView>, int), crate::parser::ErrorView> = if checks(ts, q, TokenType::RightParen) {
            Ok((Seq::empty(), q))
        } else {
            params_at(ts, q, kind, Seq::empty())
        };
        if let Ok((ps, r)) = params {
            assert(kinds(ts, q, r) == params_kinds(ps));
            if checks(ts, r, TokenType::RightParen) && checks(ts, r + 1, TokenType::LeftBrace) {
                let u = r + 2;
                assert(kinds(ts, u, u) =~= unparse_stmts(Seq::empty()));
                lemma_block(ts, ext, u, u, true, Seq::empty());
                if let Ok((body, v)) = block_at(ts, ext, u, true, Seq::empty()) {
                    lemma_kinds_join(ts, p, q, v);
                    lemma_kinds_join(ts, q, r, v);
                    lemma_kinds_join(ts, r, u, v);
                    lemma_kinds_join(ts, r, r + 1, u);
                    lemma_kinds_one(ts, p);
                    lemma_kinds_one(ts, r);
                    lemma_kinds_one(ts, r + 1);
                    assert(kinds(ts, p, v) =~= unparse_callable(ps, body));
                }
            }
        }
    }
}

proof fn lemma_fun_decl(ts: Seq<TokenView>, ext: Extensions, p: int, kind: crate::parser::FunctionKind)
    requires
        inside(ts, p),
        no_for(ts),
    ensures
        fun_decl_at(ts, ext, p, kind) is Ok ==> {
            let (f, q) = fun_decl_at(ts, ext, p, kind)->Ok_0;
            p < q < ts.len() && kinds(ts, p, q) == unparse_fun(f)
        },
    decreases ts.len() - p, 26int,
{
    if checks(ts, p, TokenType::Identifier) {
        lemma_callable(ts, ext, p + 1, kind);
        if let Ok((_, q)) = callable_at(ts, ext, p + 1, kind) {
            lemma_kinds_join(ts, p, p + 1, q);
            lemma_kinds_one(ts, p);
            assert(kinds(ts, p, q) =~= unparse_fun(fun_decl_at(ts, ext, p, kind)->Ok_0.0));
        }
    }
}

proof fn lemma_methods(ts: Seq<TokenView>, ext: Extensions, from: int, p: int, acc: Seq<FunDeclView>)
    requires
        inside(ts, p),
        no_for(ts),
        0 <= from <= p,
        kinds(ts, from, p) == unparse_funs(acc),
    ensures
        methods_at(ts, ext, p, acc) is Ok ==> {
            let (ms, q) = methods_at(ts, ext, p, acc)->Ok_0;
            p <= q < ts.len() && kinds(ts, from, q) == unparse_funs(ms)
        },
    decreases ts.len() - p, 27int,
{
    if !checks(ts, p, TokenType::RightBrace) && !at_end(ts, p) {
        lemma_fun_decl(ts, ext, p, crate::parser::FunctionKind::Method);
        if let Ok((m, q)) = fun_decl_at(ts, ext, p, crate::parser::FunctionKind::Method) {
            if fwd(ts, p, q) {
                lemma_funs_push(acc, m);
                lemma_kinds_join(ts, from, p, q);
                lemma_methods(ts, ext, from, q, acc.push(m));
            }
        }
    }
}

proof fn lemma_class_decl(ts: Seq<TokenView>, ext: Extensions, p: int)
    requires
        inside(ts, p),
        no_for(ts),
    ensures
        class_decl_at(ts, ext, p) is Ok ==> {
            let (s, q) = class_decl_at(ts, ext, p)->Ok_0;
            p < q < ts.len() && seq![TokenType::Class] + kinds(ts, p, q) == unparse_stmt(s)
        },
    decreases ts.len() - p, 28int,
{
    if checks(ts, p, TokenType::Identifier) {
        let q = p + 1;
        lemma_kinds_one(ts, p);
        let r = if checks(ts, q, TokenType::Less) && checks(ts, q + 1, TokenType::Identifier) {
            q + 2
        } else {
            q
        };
        if checks(ts, q, TokenType::Less) {
            lemma_kinds_one(ts, q);
            lemma_kinds_one(ts, q + 1);
            lemma_kinds_join(ts, q, q + 1, q + 2);
        }
        if (!checks(ts, q, TokenType::Less) || checks(ts, q + 1, TokenType::Identifier)) && checks(ts, r, TokenType::LeftBrace) {
            let s = r + 1;
            assert(kinds(ts, s, s) =~= unparse_funs(Seq::empty()));
            lemma_methods(ts, ext, s, s, Seq::empty());
            if let Ok((methods, u)) = methods_at(ts, ext, s, Seq::empty()) {
                if checks(ts, u, TokenType::RightBrace) {
                    lemma_kinds_join(ts, p, q, u + 1);
                    lemma_kinds_join(ts, q, r, u + 1);
                    lemma_kinds_join(ts, r, s, u + 1);
                    lemma_kinds_join(ts, s, u, u + 1);
                    lemma_kinds_one(ts, r);
                    lemma_kinds_one(ts, u);
                    assert(kinds(ts, q, q) =~= Seq::<TokenType>::empty());
                    assert(seq![TokenType::Class] + kinds(ts, p, u + 1) =~= unparse_stmt(class_decl_at(ts, ext, p)->Ok_0.0));
                }
            }
        }
    }
}

#[verifier::spinoff_prover]
#[verifier::rlimit(100)]
proof fn lemma_var_decl(ts: Seq<TokenView>, ext: Extensions, p: int)
    requires
        inside(ts, p),
        no_for(ts),
    ensures
        var_decl_at(ts, ext, p) is Ok ==> {
            let (s, q) = var_decl_at(ts, ext, p)->Ok_0;
            p < q < ts.len() && seq![TokenType::Var] + kinds(ts, p, q) == unparse_stmt(s)
        },
    decreases ts.len() - p, 21int,
{
    if checks(ts, p, TokenType::Identifier) {
        let name = crate::grammar::symbol_of(ts[p]);
        lemma_kinds_one(ts, p);
        if checks(ts, p + 1, TokenType::Equal) {
            lemma_expression(ts, ext, p + 2);
            if let Ok((v, r)) = expression_at(ts, ext, p + 2) {
                if checks(ts, r, TokenType::Semicolon) {
                    assert(var_decl_at(ts, ext, p) == Ok::<_, crate::parser::ErrorView>(
                        (StmtView::VarDecl(name, Some(v)), r + 1),
                    ));
                    let expect = seq![TokenType::Var, TokenType::Identifier, TokenType::Equal] + unparse(v) + seq![
                        TokenType::Semicolon,
                    ];
                    assert(unparse_stmt(StmtView::VarDecl(name, Some(v))) == expect);
                    lemma_kinds_one(ts, p + 1);
                    lemma_kinds_one(ts, r);
                    lemma_kinds_join(ts, p, p + 1, r + 1);
                    lemma_kinds_join(ts, p + 1, p + 2, r + 1);
                    lemma_kinds_join(ts, p + 2, r, r + 1);
                    assert(seq![TokenType::Var] + kinds(ts, p, r + 1) =~= expect);
                }
            }
        } else if checks(ts, p + 1, TokenType::Semicolon) {
            assert(var_decl_at(ts, ext, p) == Ok::<_, crate::parser::ErrorView>(
                (StmtView::VarDecl(name, None), p + 2),
            ));
            lemma_kinds_one(ts, p + 1);
            lemma_kinds_join(ts, p, p + 1, p + 2);
            assert(seq![TokenType::Var] + kinds(ts, p, p + 2) =~= unparse_stmt(StmtView::VarDecl(name, None)));
        }
    }
}

proof fn lemma_declaration(ts: Seq<TokenView>, ext: Extensions, p: int, in_fun: bool)
    requires
        inside(ts, p),
        no_for(ts),
    ensures
        declaration_at(ts, ext, p, in_fun) is Ok ==> {
            let (s, q) = declaration_at(ts, ext, p, in_fun)->Ok_0;
            p < q < ts.len() && kinds(ts, p, q) == unparse_stmt(s)
        },
    decreases ts.len() - p, 30int,
{
    lemma_kinds_one(ts, p);
    if checks(ts, p, TokenType::Var) {
        lemma_var_decl(ts, ext, p + 1);
        if let Ok((_, q)) = var_decl_at(ts, ext, p + 1) {
            lemma_kinds_join(ts, p, p + 1, q);
        }
    } else if checks(ts, p, TokenType::Def) {
        lemma_fun_decl(ts, ext, p + 1, crate::parser::FunctionKind::Function);
        if let Ok((f, q)) = fun_decl_at(ts, ext, p + 1, crate::parser::FunctionKind::Function) {
            lemma_kinds_join(ts, p, p + 1, q);
            assert(kinds(ts, p, q) =~= unparse_stmt(StmtView::FunDecl(f)));
        }
    } else if checks(ts, p, TokenType::Class) {
        lemma_class_decl(ts, ext, p + 1);
        if let Ok((_, q)) = class_decl_at(ts, ext, p + 1) {
            lemma_kinds_join(ts, p, p + 1, q);
        }
    } else {
        lemma_statement(ts, ext, p, in_fun);
    }
}

proof fn lemma_statement(ts: Seq<TokenView>, ext: Extensions, p: int, in_fun: bool)
    requires
        inside(ts, p),
        no_for(ts),
    ensures
        statement_at(ts, ext, p, in_fun) is Ok ==> {
            let (s, q) = statement_at(ts, ext, p, in_fun)->Ok_0;
            p < q < ts.len() && kinds(ts, p, q) == unparse_stmt(s)
        },
    decreases ts.len() - p, 29int,
{
    lemma_kinds_one(ts, p);
    assert(ts[p].toktype != TokenType::For);
    if checks(ts, p, TokenType::Print) {
        lemma_expression(ts, ext, p + 1);
        if let Ok((v, q)) = expression_at(ts, ext, p + 1) {
            if checks(ts, q, TokenType::Semicolon) {
                lemma_kinds_one(ts, q);
                lemma_kinds_join(ts, p, p + 1, q + 1);
                lemma_kinds_join(ts, p + 1, q, q + 1);
                assert(kinds(ts, p, q + 1) =~= unparse_stmt(StmtView::Print(v)));
            }
        }
    } else if checks(ts, p, TokenType::While) {
        lemma_while(ts, ext, p + 1, in_fun);
        if let Ok((_, q)) = while_at(ts, ext, p + 1, in_fun) {
            lemma_kinds_join(ts, p, p + 1, q);
        }
    } else if checks(ts, p, TokenType::LeftBrace) {
        assert(kinds(ts, p + 1, p + 1) =~= unparse_stmts(Seq::empty()));
        lemma_block(ts, ext, p + 1, p + 1, in_fun, Seq::empty());
        if let Ok((b, q)) = block_at(ts, ext, p + 1, in_fun, Seq::empty()) {
            lemma_kinds_join(ts, p, p + 1, q);
            assert(kinds(ts, p, q) =~= unparse_stmt(StmtView::Block(b)));
        }
    } else if checks(ts, p, TokenType::If) {
        lemma_if(ts, ext, p + 1, in_fun);
        if let Ok((_, q)) = if_at(ts, ext, p + 1, in_fun) {
            lemma_kinds_join(ts, p, p + 1, q);
        }
    } else if checks(ts, p, TokenType::Return) {
        lemma_return(ts, ext, p + 1, in_fun, loc_of(ts[p]));
        if let Ok((_, q)) = return_at(ts, ext, p + 1, in_fun, loc_of(ts[p])) {
            lemma_kinds_join(ts, p, p + 1, q);
        }
    } else {
        lemma_expression(ts, ext, p);
        if let Ok((v, q)) = expression_at(ts, ext, p) {
            if checks(ts, q, TokenType::Semicolon) {
                lemma_kinds_one(ts, q);
                lemma_kinds_join(ts, p, q, q + 1);
                assert(kinds(ts, p, q + 1) =~= unparse_stmt(StmtView::Expr(v)));
            }
        }
    }
}

proof fn lemma_return(ts: Seq<TokenView>, ext: Extensions, p: int, in_fun: bool, loc: crate::ast::LocView)
    requires
        inside(ts, p),
        no_for(ts),
    ensures
        return_at(ts, ext, p, in_fun, loc) is Ok ==> {
            let (s, q) = return_at(ts, ext, p, in_fun, loc)->Ok_0;
            p < q < ts.len() && seq![TokenType::Return] + kinds(ts, p, q) == unparse_stmt(s)
        },
    decreases ts.len() - p, 21int,
{
    lemma_kinds_one(ts, p);
    if in_fun && !checks(ts, p, TokenType::Semicolon) {
        lemma_expression(ts, ext, p);
        if let Ok((v, q)) = expression_at(ts, ext, p) {
            if checks(ts, q, TokenType::Semicolon) {
                lemma_kinds_one(ts, q);
                lemma_kinds_join(ts, p, q, q + 1);
                assert(seq![TokenType::Return] + kinds(ts, p, q + 1) =~= unparse_stmt(StmtView::Return(loc, Some(v))));
            }
        }
    } else if in_fun {
        assert(seq![TokenType::Return] + kinds(ts, p, p + 1) =~= unparse_stmt(StmtView::Return(loc, None)));
    }
}

proof fn lemma_while(ts: Seq<TokenView>, ext: Extensions, p: int, in_fun: bool)
    requires
        inside(ts, p),
        no_for(ts),
    ensures
        while_at(ts, ext, p, in_fun) is Ok ==> {
            let (s, q) = while_at(ts, ext, p, in_fun)->Ok_0;
            p < q < ts.len() && seq![TokenType::While] + kinds(ts, p, q) == unparse_stmt(s)
        },
    decreases ts.len() - p, 21int,
{
    if checks(ts, p, TokenType::LeftParen) {
        lemma_expression(ts, ext, p + 1);
        if let Ok((c, r)) = expression_at(ts, ext, p + 1) {
            if checks(ts, r, TokenType::RightParen) && fwd(ts, p, r + 1) {
                lemma_statement(ts, ext, r + 1, in_fun);
                if let Ok((b, u)) = statement_at(ts, ext, r + 1, in_fun) {
                    lemma_kinds_one(ts, p);
                    lemma_kinds_one(ts, r);
                    lemma_kinds_join(ts, p, p + 1, u);
                    lemma_kinds_join(ts, p + 1, r, u);
                    lemma_kinds_join(ts, r, r + 1, u);
                    assert(seq![TokenType::While] + kinds(ts, p, u) =~= unparse_stmt(StmtView::While(c, Box::new(b))));
                }
            }
        }
    }
}

#[verifier::rlimit(50)]
proof fn lemma_if(ts: Seq<TokenView>, ext: Extensions, p: int, in_fun: bool)
    requires
        inside(ts, p),
        no_for(ts),
    ensures
        if_at(ts, ext, p, in_fun) is Ok ==> {
            let (s, q) = if_at(ts, ext, p, in_fun)->Ok_0;
            p < q < ts.len() && seq![TokenType::If] + kinds(ts, p, q) == unparse_stmt(s)
        },
    decreases ts.len() - p, 21int,
{
    if checks(ts, p, TokenType::LeftParen) {
        lemma_expression(ts, ext, p + 1);
        if let Ok((c, r)) = expression_at(ts, ext, p + 1) {
            if checks(ts, r, TokenType::RightParen) && fwd(ts, p, r + 1) {
                lemma_statement(ts, ext, r + 1, in_fun);
                if let Ok((t, u)) = statement_at(ts, ext, r + 1, in_fun) {
                    lemma_kinds_one(ts, p);
                    lemma_kinds_one(ts, r);
                    lemma_kinds_join(ts, p, p + 1, u);
                    lemma_kinds_join(ts, p + 1, r, u);
                    lemma_kinds_join(ts, r, r + 1, u);
                    if fwd(ts, p, u) && checks(ts, u, TokenType::Else) {
                        lemma_statement(ts, ext, u + 1, in_fun);
                        if let Ok((e, v)) = statement_at(ts, ext, u + 1, in_fun) {
                            lemma_kinds_one(ts, u);
                            lemma_kinds_join(ts, p, u, v);
                            lemma_kinds_join(ts, u, u + 1, v);
                            assert(seq![TokenType::If] + kinds(ts, p, v) =~= unparse_stmt(
                                StmtView::If(c, Box::new(t), Some(Box::new(e))),
                            ));
                        }
                    } else {
                        assert(seq![TokenType::If] + kinds(ts, p, u) =~= unparse_stmt(StmtView::If(c, Box::new(t), None)));
                    }
                }
            }
        }
    }
}

proof fn lemma_block(ts: Seq<TokenView>, ext: Extensions, from: int, p: int, in_fun: bool, acc: Seq<StmtView>)
    requires
        inside(ts, p),
        no_for(ts),
        0 <= from <= p,
        kinds(ts, from, p) == unparse_stmts(acc),
    ensures
        block_at(ts, ext, p, in_fun, acc) is Ok ==> {
            let (ss, q) = block_at(ts, ext, p, in_fun, acc)->Ok_0;
            p < q < ts.len() && kinds(ts, from, q) == unparse_stmts(ss) + seq![TokenType::RightBrace]
        },
    decreases ts.len() - p, 31int,
{
    if checks(ts, p, TokenType::RightBrace) || at_end(ts, p) {
        if checks(ts, p, TokenType::RightBrace) {
            lemma_kinds_one(ts, p);
            lemma_kinds_join(ts, from, p, p + 1);
        }
    } else {
        lemma_declaration(ts, ext, p, in_fun);
        if let Ok((s, q)) = declaration_at(ts, ext, p, in_fun) {
            if fwd(ts, p, q) {
                lemma_stmts_push(acc, s);
                lemma_kinds_join(ts, from, p, q);
                lemma_block(ts, ext, from, q, in_fun, acc.push(s));
            }
        }
    }
}

proof fn lemma_declarations(ts: Seq<TokenView>, ext: Extensions, from: int, p: int, in_fun: bool, acc: Seq<StmtView>)
    requires
        inside(ts, p),
        no_for(ts),
        0 <= from <= p,
        kinds(ts, from, p) == unparse_stmts(acc),
    ensures
        declarations_at(ts, ext, p, in_fun, acc) is Ok ==> {
            let (ss, q) = declarations_at(ts, ext, p, in_fun, acc)->Ok_0;
            p <= q < ts.len() && kinds(ts, from, q) == unparse_stmts(ss)
        },
    decreases ts.len() - p, 31int,
{
    if !at_end(ts, p) {
        lemma_declaration(ts, ext, p, in_fun);
        if let Ok((s, q)) = declaration_at(ts, ext, p, in_fun) {
            if fwd(ts, p, q) {
                lemma_stmts_push(acc, s);
                lemma_kinds_join(ts, from, p, q);
                lemma_declarations(ts, ext, from, q, in_fun, acc.push(s));
            }
        }
    }
}

/// Re-serializing a parsed expression gives back the kinds of the tokens
/// it was read from.
pub proof fn lemma_expression_round_trip(ts: Seq<TokenView>, ext: Extensions, p: int)
    requires
        inside(ts, p),
        no_for(ts),
    ensures
        expression_at(ts, ext, p) is Ok ==> kinds(ts, p, expression_at(ts, ext, p)->Ok_0.1) == unparse(
            expression_at(ts, ext, p)->Ok_0.0,
        ),
{
    lemma_expression(ts, ext, p);
}

/// Re-serializing a parsed program gives back the kinds of all its tokens
/// but the end of input, where no `for` loop was written (one is read as
/// a `while` loop) and the end-of-input token comes only last.
pub proof fn lemma_program_round_trip(ts: Seq<TokenView>, ext: Extensions)
    requires
        tokens_wf(ts),
        no_for(ts),
        forall|i: int| 0 <= i < ts.len() - 1 ==> !at_end(ts, i),
    ensures
        program(ts, ext) is Ok ==> kinds(ts, 0, ts.len() - 1) == unparse_stmts(program(ts, ext)->Ok_0),
{
    assert(kinds(ts, 0, 0) =~= unparse_stmts(Seq::empty()));
    lemma_declarations(ts, ext, 0, 0, false, Seq::empty());
}

/// Tokenizing a text with no `for` loop, parsing the tokens and writing
/// the program back out gives the kinds of the tokens read.
pub proof fn lemma_text_round_trip(src: Seq<u8>, ext: Extensions)
    ensures
        tokenize_spec(src) is Ok && no_for(tokenize_spec(src)->Ok_0) ==> {
            let ts = tokenize_spec(src)->Ok_0;
            program(ts, ext) is Ok ==> kinds(ts, 0, ts.len() - 1) == unparse_stmts(program(ts, ext)->Ok_0)
        },
{
    lemma_tokens_parsable(src);
    if tokenize_spec(src) is Ok && no_for(tokenize_spec(src)->Ok_0) {
        lemma_program_round_trip(tokenize_spec(src)->Ok_0, ext);
    }
}

} // verus!
