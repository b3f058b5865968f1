use std::collections::HashMap;

use pyrust::ast::{BinaryOpTy, Expr, Literal, Stmt, UnaryOpTy};
use pyrust::lexer::{check_tokens, Token, TokenType};
use pyrust::parser::{parse, Error, Extensions};
use pyrust::repl::{
    auto_print, copy_tokens, is_missing_terminator, prepare_line, repair_terminator, Action, LineSession, LineState,
    Outcome, Pass,
};

const ALL: Extensions = Extensions { lists: true, lambdas: true };

fn tokens(src: &str) -> Vec<Token> {
    check_tokens(src.to_string()).ok().expect("tokenizes")
}

#[derive(Clone, Debug, PartialEq)]
enum Value {
    Num(f64),
    Str(String),
    Bool(bool),
    Nil,
}

enum Fault {
    Undeclared,
    Other,
}

/// A small evaluator for the statements these scenarios produce.
struct Evaluator {
    scopes: Vec<HashMap<Vec<u8>, Value>>,
    output: Vec<String>,
}

impl Evaluator {
    fn new() -> Self {
        Evaluator { scopes: vec![HashMap::new()], output: Vec::new() }
    }

    fn run(&mut self, stmts: &[Stmt]) -> Outcome {
        for s in stmts {
            match self.exec(s) {
                Ok(()) => {},
                Err(Fault::Undeclared) => return Outcome::UndeclaredAssignment,
                Err(Fault::Other) => return Outcome::Failed,
            }
        }
        Outcome::Completed
    }

    fn exec(&mut self, s: &Stmt) -> Result<(), Fault> {
        match s {
            Stmt::Expr(e) => self.eval(e).map(|_| ()),
            Stmt::Print(e) => {
                let v = self.eval(e)?;
                self.output.push(show(&v));
                Ok(())
            },
            Stmt::VarDecl(sym, init) => {
                let v = match init {
                    Some(e) => self.eval(e)?,
                    None => Value::Nil,
                };
                self.scopes.last_mut().unwrap().insert(sym.name.clone(), v);
                Ok(())
            },
            Stmt::Block(items) => {
                self.scopes.push(HashMap::new());
                let mut r = Ok(());
                for i in items {
                    r = self.exec(i);
                    if r.is_err() {
                        break;
                    }
                }
                self.scopes.pop();
                r
            },
            Stmt::If(c, t, e) => {
                if truthy(&self.eval(c)?) {
                    self.exec(t)
                } else if let Some(e) = e {
                    self.exec(e)
                } else {
                    Ok(())
                }
            },
            _ => Err(Fault::Other),
        }
    }

    fn eval(&mut self, e: &Expr) -> Result<Value, Fault> {
        match e {
            Expr::Literal(Literal::Number(d)) => {
                Ok(Value::Num(String::from_utf8(d.clone()).unwrap().parse::<f64>().unwrap()))
            },
            Expr::Literal(Literal::String(s)) => Ok(Value::Str(String::from_utf8(s.clone()).unwrap())),
            Expr::Literal(Literal::True) => Ok(Value::Bool(true)),
            Expr::Literal(Literal::False) => Ok(Value::Bool(false)),
            Expr::Literal(Literal::Nil) => Ok(Value::Nil),
            Expr::Grouping(inner) => self.eval(inner),
            Expr::Variable(sym) => {
                for scope in self.scopes.iter().rev() {
                    if let Some(v) = scope.get(&sym.name) {
                        return Ok(v.clone());
                    }
                }
                Err(Fault::Other)
            },
            Expr::Assign(sym, value) => {
                let v = self.eval(value)?;
                for scope in self.scopes.iter_mut().rev() {
                    if let Some(slot) = scope.get_mut(&sym.name) {
                        *slot = v.clone();
                        return Ok(v);
                    }
                }
                Err(Fault::Undeclared)
            },
            Expr::Unary(op, r) => match (op.toktype, self.eval(r)?) {
                (UnaryOpTy::Minus, Value::Num(n)) => Ok(Value::Num(-n)),
                (UnaryOpTy::Bang, v) => Ok(Value::Bool(!truthy(&v))),
                _ => Err(Fault::Other),
            },
            Expr::Binary(l, op, r) => {
                let a = self.eval(l)?;
                let b = self.eval(r)?;
                match (op.toktype, a, b) {
                    (BinaryOpTy::Plus, Value::Num(x), Value::Num(y)) => Ok(Value::Num(x + y)),
                    (BinaryOpTy::Minus, Value::Num(x), Value::Num(y)) => Ok(Value::Num(x - y)),
                    (BinaryOpTy::Star, Value::Num(x), Value::Num(y)) => Ok(Value::Num(x * y)),
                    (BinaryOpTy::Slash, Value::Num(x), Value::Num(y)) => Ok(Value::Num(x / y)),
                    (BinaryOpTy::EqualEqual, x, y) => Ok(Value::Bool(x == y)),
                    (BinaryOpTy::NotEqual, x, y) => Ok(Value::Bool(x != y)),
                    _ => Err(Fault::Other),
                }
            },
            _ => Err(Fault::Other),
        }
    }
}

fn truthy(v: &Value) -> bool {
    !matches!(v, Value::Nil | Value::Bool(false))
}

fn show(v: &Value) -> String {
    match v {
        Value::Num(n) if n.fract() == 0.0 => format!("{}", *n as i64),
        Value::Num(n) => format!("{}", n),
        Value::Str(s) => s.clone(),
        Value::Bool(b) => format!("{}", b),
        Value::Nil => "nil".to_string(),
    }
}

/// Runs one line through the protocol; returns what was reported.
fn feed(ev: &mut Evaluator, line: &str) -> Vec<String> {
    let (mut session, mut action) = LineSession::begin(ALL, tokens(line));
    let mut reports = Vec::new();
    loop {
        match action {
            Action::Evaluate(stmts) => {
                let outcome = ev.run(&stmts);
                action = session.on_outcome(outcome);
            },
            Action::ReportSyntaxError(e) => {
                reports.push(format!("syntax: {:?}", e));
                break;
            },
            Action::ReportRuntimeError => {
                reports.push("runtime".to_string());
                break;
            },
            Action::Idle => break,
        }
    }
    assert_eq!(session.state, LineState::Finished);
    reports
}

#[test]
fn bare_expression_without_semicolon_is_repaired_and_printed() {
    match parse(ALL, tokens("1 + 1")) {
        Err(e) => {
            assert!(matches!(&e, Error::TokenMismatch { expected: TokenType::Semicolon, found, .. } if found.toktype == TokenType::Eof));
            assert!(is_missing_terminator(&e));
        },
        Ok(_) => panic!("parses without a terminator"),
    }
    let mut ev = Evaluator::new();
    assert!(feed(&mut ev, "1 + 1").is_empty());
    assert_eq!(ev.output, vec!["2".to_string()]);
}

#[test]
fn assignment_to_undeclared_name_declares_it() {
    let mut ev = Evaluator::new();
    let (mut session, action) = LineSession::begin(ALL, tokens("x = 5"));
    assert_eq!(session.state, LineState::AwaitingSpeculative);
    let stmts = match action {
        Action::Evaluate(s) => s,
        other => panic!("unexpected {:?}", other),
    };
    assert_eq!(ev.run(&stmts), Outcome::UndeclaredAssignment);
    let stmts = match session.on_outcome(Outcome::UndeclaredAssignment) {
        Action::Evaluate(s) => s,
        other => panic!("unexpected {:?}", other),
    };
    assert_eq!(session.state, LineState::AwaitingDeclaring);
    assert!(matches!(&stmts[0], Stmt::VarDecl(sym, Some(_)) if sym.name == b"x"));
    assert_eq!(ev.run(&stmts), Outcome::Completed);
    assert!(matches!(session.on_outcome(Outcome::Completed), Action::Idle));
    assert!(ev.output.is_empty());
    assert!(feed(&mut ev, "x").is_empty());
    assert_eq!(ev.output, vec!["5".to_string()]);
    // An assignment to a declared name is a bare expression: its value is printed.
    assert!(feed(&mut ev, "x = 7;").is_empty());
    assert!(feed(&mut ev, "print x;").is_empty());
    assert_eq!(ev.output, vec!["5".to_string(), "7".to_string(), "7".to_string()]);
}

#[test]
fn nil_results_are_not_printed() {
    let mut ev = Evaluator::new();
    assert!(feed(&mut ev, "nil;").is_empty());
    assert!(feed(&mut ev, "'hi'; 3 * 2").is_empty());
    assert_eq!(ev.output, vec!["hi".to_string(), "6".to_string()]);
}

#[test]
fn other_runtime_errors_are_reported() {
    let mut ev = Evaluator::new();
    assert_eq!(feed(&mut ev, "y"), vec!["runtime".to_string()]);
    let (mut session, _) = LineSession::begin(ALL, tokens("z = 1"));
    assert!(matches!(session.on_outcome(Outcome::Failed), Action::ReportRuntimeError));
    assert!(matches!(session.on_outcome(Outcome::Completed), Action::Idle));
    let (mut twice, _) = LineSession::begin(ALL, tokens("z = 1"));
    assert!(matches!(twice.on_outcome(Outcome::UndeclaredAssignment), Action::Evaluate(_)));
    assert!(matches!(twice.on_outcome(Outcome::UndeclaredAssignment), Action::ReportRuntimeError));
}

#[test]
fn syntax_errors_are_reported() {
    let mut ev = Evaluator::new();
    let reports = feed(&mut ev, "1 +");
    assert_eq!(reports.len(), 1);
    assert!(reports[0].starts_with("syntax: ExpectedExpression"));
    let reports = feed(&mut ev, "print (1");
    assert!(reports[0].starts_with("syntax: TokenMismatch"));
}

#[test]
fn auto_print_wraps_bare_expressions_only() {
    let stmts = parse(ALL, tokens("1; print 2; 3;")).ok().expect("parses");
    let out = auto_print(stmts);
    assert_eq!(out.len(), 3);
    match &out[0] {
        Stmt::Block(items) => {
            assert_eq!(items.len(), 2);
            match &items[0] {
                Stmt::VarDecl(sym, Some(Expr::Literal(Literal::Number(d)))) => {
                    assert_eq!(sym.name, b"$0".to_vec());
                    assert_eq!(d, &b"1".to_vec());
                },
                other => panic!("unexpected {:?}", other),
            }
            match &items[1] {
                Stmt::If(Expr::Binary(l, op, r), then_branch, None) => {
                    assert_eq!(op.toktype, BinaryOpTy::NotEqual);
                    assert!(matches!(&**l, Expr::Variable(s) if s.name == b"$0"));
                    assert!(matches!(&**r, Expr::Literal(Literal::Nil)));
                    assert!(matches!(&**then_branch, Stmt::Print(Expr::Variable(s)) if s.name == b"$0"));
                },
                other => panic!("unexpected {:?}", other),
            }
        },
        other => panic!("unexpected {:?}", other),
    }
    assert!(matches!(&out[1], Stmt::Print(_)));
    match &out[2] {
        Stmt::Block(items) => assert!(matches!(&items[0], Stmt::VarDecl(sym, _) if sym.name == b"$2")),
        other => panic!("unexpected {:?}", other),
    }
}

#[test]
fn hidden_names_count_in_decimal() {
    let src: String = (0..12).map(|i| format!("{};", i)).collect();
    let out = auto_print(parse(ALL, tokens(&src)).ok().expect("parses"));
    match &out[11] {
        Stmt::Block(items) => assert!(matches!(&items[0], Stmt::VarDecl(sym, _) if sym.name == b"$11")),
        other => panic!("unexpected {:?}", other),
    }
}

#[test]
fn repair_inserts_a_semicolon_before_the_end() {
    let original = tokens("a\n+ b");
    let repaired = repair_terminator(copy_tokens(&original));
    assert_eq!(repaired.len(), original.len() + 1);
    let n = repaired.len();
    assert_eq!(repaired[n - 2].toktype, TokenType::Semicolon);
    assert_eq!(repaired[n - 2].col, -1);
    assert_eq!(repaired[n - 2].line, 2);
    assert_eq!(repaired[n - 1].toktype, TokenType::Eof);
    for i in 0..original.len() - 1 {
        assert_eq!(repaired[i].toktype, original[i].toktype);
    }
}

#[test]
fn prepare_line_in_each_pass() {
    let t = tokens("x = 5");
    match prepare_line(ALL, &t, Pass::Speculative) {
        Ok(stmts) => match &stmts[0] {
            Stmt::Block(items) => assert!(matches!(&items[0], Stmt::VarDecl(_, Some(Expr::Assign(..))))),
            other => panic!("unexpected {:?}", other),
        },
        Err(e) => panic!("{:?}", e),
    }
    match prepare_line(ALL, &t, Pass::Declaring) {
        Ok(stmts) => {
            assert_eq!(stmts.len(), 1);
            assert!(matches!(&stmts[0], Stmt::VarDecl(sym, Some(_)) if sym.name == b"x"));
        },
        Err(e) => panic!("{:?}", e),
    }
    assert!(prepare_line(ALL, &tokens("print"), Pass::Speculative).is_err());
}
