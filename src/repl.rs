//! The line protocol of the interactive prompt: a bare expression is
//! printed when its value is not `nil`, a missing `;` at the end of a line
//! is supplied once, and `name = value` on an undeclared name declares it.
//! The evaluator is not part of this module: a [`LineSession`] says what to
//! evaluate, and is told how the evaluation went.
use vstd::prelude::*;
use crate::ast::{
    lemma_stmts_view, lemma_stmts_view_push, stmt_view, stmts_view, BinaryOp, BinaryOpTy, BinaryOpView, Expr,
    ExprView, Literal, LiteralView, Stmt, StmtView, Symbol, SymbolView,
};
use crate::grammar::{program, program_declaring, tokens_wf};
use crate::lexer::{tokens_view, Token, TokenType, TokenView};
use crate::parser::{parse, parse_varerr, stmts_result, Error, ErrorView, Extensions};

verus! {

/// The decimal digits of `n`.
pub open spec fn decimal(n: nat) -> Seq<u8>
    decreases n,
{
    if n < 10 {
        seq![(0x30 + n) as u8]
    } else {
        decimal(n / 10).push((0x30 + n % 10) as u8)
    }
}

/// The name of the hidden variable for the statement at index `i`: `$`
/// and the index, a name that no identifier token can spell.
pub open spec fn hidden_name(i: nat) -> Seq<u8> {
    seq![0x24u8] + decimal(i)
}

pub open spec fn hidden_symbol_view(i: nat) -> SymbolView {
    SymbolView { name: hidden_name(i), line: 0, col: 0 }
}

/// `{ var h = e; if (h != nil) print h; }` for the hidden variable `h` of
/// index `i`.
pub open spec fn printed_if_not_nil(e: ExprView, i: nat) -> StmtView {
    let h = ExprView::Variable(hidden_symbol_view(i));
    StmtView::Block(
        seq![
            StmtView::VarDecl(hidden_symbol_view(i), Some(e)),
            StmtView::If(
                ExprView::Binary(
                    Box::new(h),
                    BinaryOpView { toktype: BinaryOpTy::NotEqual, line: 0, col: 0 },
                    Box::new(ExprView::Literal(LiteralView::Nil)),
                ),
                Box::new(StmtView::Print(h)),
                None,
            ),
        ],
    )
}

pub open spec fn auto_printed_stmt(s: StmtView, i: nat) -> StmtView {
    match s {
        StmtView::Expr(e) => printed_if_not_nil(e, i),
        _ => s,
    }
}

/// Every top-level expression statement rewritten to print its value
/// when that is not `nil`; other statements unchanged.
pub open spec fn auto_printed(ss: Seq<StmtView>) -> Seq<StmtView> {
    Seq::new(ss.len(), |i: int| auto_printed_stmt(ss[i], i as nat))
}

/// A parse that failed only for want of a `;` before the end of input.
pub open spec fn missing_terminator(e: ErrorView) -> bool {
    &&& e is TokenMismatch
    &&& e->TokenMismatch_expected == TokenType::Semicolon
    &&& e->TokenMismatch_found.toktype == TokenType::Eof
}

pub open spec fn terminator(line: int) -> TokenView {
    TokenView { toktype: TokenType::Semicolon, lexing: Seq::empty(), literal: None, line, col: -1 }
}

/// The tokens with a `;` inserted before the end-of-input token.
pub open spec fn with_terminator(ts: Seq<TokenView>) -> Seq<TokenView> {
    ts.drop_last().push(terminator(ts.last().line)).push(ts.last())
}

/// How the tokens of a line are read.
#[derive(Debug, Clone, Copy, PartialEq, Eq, Structural)]
pub enum Pass {
    /// As written.
    Speculative,
    /// With the first statement read as a declaration of the name assigned.
    Declaring,
}

pub open spec fn attempt(ts: Seq<TokenView>, ext: Extensions, pass: Pass) -> Result<Seq<StmtView>, ErrorView> {
    match pass {
        Pass::Speculative => program(ts, ext),
        Pass::Declaring => program_declaring(ts, ext),
    }
}

/// What a line becomes in one pass: its statements with bare expressions
/// printed, after at most one repair of a missing final `;`; or the
/// syntax error to report.
pub open spec fn prepared(ts: Seq<TokenView>, ext: Extensions, pass: Pass) -> Result<Seq<StmtView>, ErrorView> {
    match attempt(ts, ext, pass) {
        Ok(ss) => Ok(auto_printed(ss)),
        Err(e) => if missing_terminator(e) {
            match attempt(with_terminator(ts), ext, pass) {
                Ok(ss) => Ok(auto_printed(ss)),
                Err(e2) => Err(e2),
            }
        } else {
            Err(e)
        },
    }
}

fn push_decimal(n: usize, out: &mut Vec<u8>)
    ensures
        final(out)@ == old(out)@ + decimal(n as nat),
    decreases n,
{
    if n >= 10 {
        push_decimal(n / 10, out);
    }
    let ghost before = out@;
    out.push((0x30 + n % 10) as u8);
    proof {
        if n < 10 {
            assert(before =~= old(out)@);
            assert(out@ =~= old(out)@ + decimal(n as nat));
        } else {
            assert(out@ =~= old(out)@ + decimal(n as nat));
        }
    }
}

fn hidden_symbol(i: usize) -> (r: Symbol)
    ensures
        r@ == hidden_symbol_view(i as nat),
{
    let mut name: Vec<u8> = Vec::new();
    name.push(0x24);
    push_decimal(i, &mut name);
    Symbol { name, line: 0, col: 0 }
}

fn print_if_not_nil(e: Expr, i: usize) -> (r: Stmt)
    ensures
        r@ == printed_if_not_nil(e@, i as nat),
{
    let ghost ev = e@;
    let decl = Stmt::VarDecl(hidden_symbol(i), Some(e));
    let ghost h = ExprView::Variable(hidden_symbol_view(i as nat));
    let left = Expr::Variable(hidden_symbol(i));
    assert(left@ == h);
    let nil = Expr::Literal(Literal::Nil);
    assert(nil@ == ExprView::Literal(LiteralView::Nil));
    let test = Expr::Binary(Box::new(left), BinaryOp { toktype: BinaryOpTy::NotEqual, line: 0, col: 0 }, Box::new(nil));
    assert(test@ == ExprView::Binary(
        Box::new(h),
        BinaryOpView { toktype: BinaryOpTy::NotEqual, line: 0, col: 0 },
        Box::new(ExprView::Literal(LiteralView::Nil)),
    ));
    let shown_var = Expr::Variable(hidden_symbol(i));
    assert(shown_var@ == h);
    let shown = Stmt::Print(shown_var);
    assert(shown@ == StmtView::Print(h));
    let ghost tv = test@;
    let guarded = Stmt::If(test, Box::new(shown), None);
    assert(guarded@ == StmtView::If(tv, Box::new(StmtView::Print(h)), None));
    assert(decl@ == StmtView::VarDecl(hidden_symbol_view(i as nat), Some(ev)));
    let ghost dv = decl@;
    let ghost gv = guarded@;
    let mut items: Vec<Stmt> = Vec::new();
    proof {
        lemma_stmts_view_push(items@, decl);
    }
    items.push(decl);
    let ghost first = items@;
    proof {
        lemma_stmts_view_push(first, guarded);
    }
    items.push(guarded);
    assert(stmts_view(items@) =~= seq![dv, gv]);
    Stmt::Block(items)
}

/// Rewrites each top-level expression statement `e;` at index `i` into
/// `{ var $i = e; if ($i != nil) print $i; }`, so that the evaluator prints
/// the value of a bare expression when it is not `nil`.
pub fn auto_print(stmts: Vec<Stmt>) -> (r: Vec<Stmt>)
    ensures
        stmts_view(r@) == auto_printed(stmts_view(stmts@)),
{
    let ghost orig = stmts@;
    let n = stmts.len();
    let mut rest = stmts;
    let mut out: Vec<Stmt> = Vec::new();
    let mut i: usize = 0;
    while i < n
        invariant
            n == orig.len(),
            i <= n,
            rest@ == orig.subrange(i as int, n as int),
            out@.len() == i,
            forall|j: int| 0 <= j < i ==> stmt_view(#[trigger] out@[j]) == auto_printed_stmt(stmt_view(orig[j]), j as nat),
        decreases n - i,
    {
        let ghost rv = rest@;
        let s = rest.remove(0);
        assert(s == orig[i as int]) by {
            assert(rv[0] == orig[i as int]);
        }
        assert(rest@ =~= orig.subrange(i + 1, n as int));
        let t = match s {
            Stmt::Expr(e) => print_if_not_nil(e, i),
            other => other,
        };
        out.push(t);
        i = i + 1;
    }
    proof {
        lemma_stmts_view(out@);
        lemma_stmts_view(orig);
        assert(stmts_view(out@) =~= auto_printed(stmts_view(orig)));
    }
    out
}

/// Whether a parse error is a missing `;` at the end of input.
pub fn is_missing_terminator(e: &Error) -> (r: bool)
    ensures
        r == missing_terminator(e@),
{
    match e {
        Error::TokenMismatch { expected, found, .. } => *expected == TokenType::Semicolon && found.toktype
            == TokenType::Eof,
        _ => false,
    }
}

/// Inserts a `;` (on the line of the end-of-input token, at column -1)
/// before the last token.
pub fn repair_terminator(tokens: Vec<Token>) -> (r: Vec<Token>)
    requires
        tokens@.len() > 0,
    ensures
        tokens_view(r@) == with_terminator(tokens_view(tokens@)),
{
    let ghost tv = tokens_view(tokens@);
    let mut tokens = tokens;
    let last = tokens.pop().unwrap();
    let ghost init = tokens@;
    let semi = Token { toktype: TokenType::Semicolon, lexing: Vec::new(), literal: None, line: last.line, col: -1 };
    tokens.push(semi);
    tokens.push(last);
    assert(tokens_view(tokens@) =~= with_terminator(tv));
    tokens
}

/// A copy of a token sequence.
pub fn copy_tokens(ts: &Vec<Token>) -> (r: Vec<Token>)
    ensures
        tokens_view(r@) == tokens_view(ts@),
{
    let mut out: Vec<Token> = Vec::new();
    let mut i: usize = 0;
    while i < ts.len()
        invariant
            i <= ts@.len(),
            tokens_view(out@) =~= tokens_view(ts@).subrange(0, i as int),
        decreases ts@.len() - i,
    {
        let ghost before = out@;
        let t = ts[i].copy();
        out.push(t);
        assert(tokens_view(out@) =~= tokens_view(before).push(ts@[i as int]@));
        assert(tokens_view(ts@).subrange(0, i + 1) =~= tokens_view(ts@).subrange(0, i as int).push(ts@[i as int]@));
        i = i + 1;
    }
    out
}

fn attempt_pass(extensions: Extensions, tokens: &Vec<Token>, pass: Pass) -> (r: Result<Vec<Stmt>, Error>)
    requires
        tokens_wf(tokens_view(tokens@)),
    ensures
        stmts_result(r) == attempt(tokens_view(tokens@), extensions, pass),
{
    let copy = copy_tokens(tokens);
    match pass {
        Pass::Speculative => parse(extensions, copy),
        Pass::Declaring => parse_varerr(extensions, copy),
    }
}

/// Parses the tokens of a line in one pass, supplies a missing final `;`
/// once, and rewrites bare expressions to print their values.
pub fn prepare_line(extensions: Extensions, tokens: &Vec<Token>, pass: Pass) -> (r: Result<Vec<Stmt>, Error>)
    requires
        tokens_wf(tokens_view(tokens@)),
    ensures
        stmts_result(r) == prepared(tokens_view(tokens@), extensions, pass),
{
    match attempt_pass(extensions, tokens, pass) {
        Ok(stmts) => Ok(auto_print(stmts)),
        Err(e) => {
            if is_missing_terminator(&e) {
                let repaired = repair_terminator(copy_tokens(tokens));
                match attempt_pass(extensions, &repaired, pass) {
                    Ok(stmts) => Ok(auto_print(stmts)),
                    Err(e2) => Err(e2),
                }
            } else {
                Err(e)
            }
        },
    }
}

/// How the evaluator's run of a statement sequence ended.
#[derive(Debug, Clone, Copy, PartialEq, Eq, Structural)]
pub enum Outcome {
    Completed,
    /// It assigned to a variable that was never declared.
    UndeclaredAssignment,
    /// Any other runtime error.
    Failed,
}

/// Where a line stands in the protocol.
#[derive(Debug, Clone, Copy, PartialEq, Eq, Structural)]
pub enum LineState {
    /// The statements of the line as written are being evaluated.
    AwaitingSpeculative,
    /// The statements of the declaring pass are being evaluated.
    AwaitingDeclaring,
    Finished,
}

/// What the caller does next.
#[derive(Debug)]
pub enum Action {
    /// Evaluate these statements and report the outcome.
    Evaluate(Vec<Stmt>),
    /// The line does not parse; report the error.
    ReportSyntaxError(Error),
    /// Report the runtime error the evaluator gave, with its backtrace.
    ReportRuntimeError,
    /// Nothing more to do for this line.
    Idle,
}

pub enum ActionView {
    Evaluate(Seq<StmtView>),
    ReportSyntaxError(ErrorView),
    ReportRuntimeError,
    Idle,
}

impl View for Action {
    type V = ActionView;

    open spec fn view(&self) -> ActionView {
        match self {
            Action::Evaluate(ss) => ActionView::Evaluate(stmts_view(ss@)),
            Action::ReportSyntaxError(e) => ActionView::ReportSyntaxError(e@),
            Action::ReportRuntimeError => ActionView::ReportRuntimeError,
            Action::Idle => ActionView::Idle,
        }
    }
}

/// Evaluate what a pass prepared, or report why it could not be prepared;
/// and the state that follows.
pub open spec fn start_pass(r: Result<Seq<StmtView>, ErrorView>, awaiting: LineState) -> (ActionView, LineState) {
    match r {
        Ok(ss) => (ActionView::Evaluate(ss), awaiting),
        Err(e) => (ActionView::ReportSyntaxError(e), LineState::Finished),
    }
}

/// The first step of a line: the speculative pass.
pub open spec fn first_step(ts: Seq<TokenView>, ext: Extensions) -> (ActionView, LineState) {
    start_pass(prepared(ts, ext, Pass::Speculative), LineState::AwaitingSpeculative)
}

/// The step after the evaluator reports `outcome` in `state`. Only an
/// undeclared assignment in the speculative pass starts the declaring
/// pass; every other runtime error is reported.
pub open spec fn next_step(state: LineState, outcome: Outcome, ts: Seq<TokenView>, ext: Extensions) -> (ActionView, LineState) {
    match state {
        LineState::AwaitingSpeculative => match outcome {
            Outcome::Completed => (ActionView::Idle, LineState::Finished),
            Outcome::Failed => (ActionView::ReportRuntimeError, LineState::Finished),
            Outcome::UndeclaredAssignment => start_pass(
                prepared(ts, ext, Pass::Declaring),
                LineState::AwaitingDeclaring,
            ),
        },
        LineState::AwaitingDeclaring => match outcome {
            Outcome::Completed => (ActionView::Idle, LineState::Finished),
            _ => (ActionView::ReportRuntimeError, LineState::Finished),
        },
        LineState::Finished => (ActionView::Idle, LineState::Finished),
    }
}

/// One input line in the protocol: its tokens, the grammar extensions, and
/// where it stands.
pub struct LineSession {
    pub tokens: Vec<Token>,
    pub extensions: Extensions,
    pub state: LineState,
}

fn start(extensions: Extensions, tokens: &Vec<Token>, pass: Pass, awaiting: LineState) -> (r: (Action, LineState))
    requires
        tokens_wf(tokens_view(tokens@)),
    ensures
        (r.0@, r.1) == start_pass(prepared(tokens_view(tokens@), extensions, pass), awaiting),
{
    match prepare_line(extensions, tokens, pass) {
        Ok(stmts) => (Action::Evaluate(stmts), awaiting),
        Err(e) => (Action::ReportSyntaxError(e), LineState::Finished),
    }
}

impl LineSession {
    /// Starts a line: the speculative pass.
    pub fn begin(extensions: Extensions, tokens: Vec<Token>) -> (r: (LineSession, Action))
        requires
            tokens_wf(tokens_view(tokens@)),
        ensures
            r.0.tokens@ == tokens@,
            r.0.extensions == extensions,
            (r.1@, r.0.state) == first_step(tokens_view(tokens@), extensions),
    {
        let (action, state) = start(extensions, &tokens, Pass::Speculative, LineState::AwaitingSpeculative);
        (LineSession { tokens, extensions, state }, action)
    }

    /// Takes the evaluator's outcome and says what to do next.
    pub fn on_outcome(&mut self, outcome: Outcome) -> (a: Action)
        requires
            tokens_wf(tokens_view(old(self).tokens@)),
        ensures
            final(self).tokens@ == old(self).tokens@,
            final(self).extensions == old(self).extensions,
            (a@, final(self).state) == next_step(
                old(self).state,
                outcome,
                tokens_view(old(self).tokens@),
                old(self).extensions,
            ),
    {
        match self.state {
            LineState::AwaitingSpeculative => match outcome {
                Outcome::Completed => {
                    self.state = LineState::Finished;
                    Action::Idle
                },
                Outcome::Failed => {
                    self.state = LineState::Finished;
                    Action::ReportRuntimeError
                },
                Outcome::UndeclaredAssignment => {
                    let (action, state) = start(
                        self.extensions,
                        &self.tokens,
                        Pass::Declaring,
                        LineState::AwaitingDeclaring,
                    );
                    self.state = state;
                    action
                },
            },
            LineState::AwaitingDeclaring => {
                self.state = LineState::Finished;
                match outcome {
                    Outcome::Completed => Action::Idle,
                    _ => Action::ReportRuntimeError,
                }
            },
            LineState::Finished => Action::Idle,
        }
    }
}

} // verus!
