use pyrust::ast::{BinaryOpTy, Expr, Literal, LogicalOp, Stmt, UnaryOpTy};
use pyrust::lexer::{check_tokens, Literal as TokenLiteral, Token, TokenType};
use pyrust::parser::{op_token_to_binop, op_token_to_unary_op, parse, parse_varerr, Error, Expectation, Extensions, FunctionKind, Parser};

const ALL: Extensions = Extensions { lists: true, lambdas: true };
const NONE: Extensions = Extensions { lists: false, lambdas: false };

fn tokens(src: &str) -> Vec<Token> {
    check_tokens(src.to_string()).ok().expect("tokenizes")
}

fn parse_ok(ext: Extensions, src: &str) -> Vec<Stmt> {
    match parse(ext, tokens(src)) {
        Ok(stmts) => stmts,
        Err(e) => panic!("parse of {:?} failed: {:?}", src, e),
    }
}

fn parse_err(ext: Extensions, src: &str) -> Error {
    match parse(ext, tokens(src)) {
        Ok(stmts) => panic!("parse of {:?} succeeded: {:?}", src, stmts),
        Err(e) => e,
    }
}

fn number(e: &Expr) -> String {
    match e {
        Expr::Literal(Literal::Number(d)) => String::from_utf8(d.clone()).unwrap(),
        other => panic!("not a number: {:?}", other),
    }
}

fn name(bytes: &[u8]) -> String {
    String::from_utf8(bytes.to_vec()).unwrap()
}

fn only_expr(stmts: &[Stmt]) -> &Expr {
    assert_eq!(stmts.len(), 1);
    match &stmts[0] {
        Stmt::Expr(e) => e,
        other => panic!("not an expression statement: {:?}", other),
    }
}

#[test]
fn multiplication_binds_tighter_than_addition() {
    let stmts = parse_ok(NONE, "1 + 2 * 3;");
    match only_expr(&stmts) {
        Expr::Binary(l, op, r) => {
            assert_eq!(number(l), "1");
            assert_eq!(op.toktype, BinaryOpTy::Plus);
            assert_eq!((op.line, op.col), (1, 2));
            match &**r {
                Expr::Binary(l2, op2, r2) => {
                    assert_eq!(number(l2), "2");
                    assert_eq!(op2.toktype, BinaryOpTy::Star);
                    assert_eq!(number(r2), "3");
                },
                other => panic!("unexpected {:?}", other),
            }
        },
        other => panic!("unexpected {:?}", other),
    }
}

#[test]
fn left_associative_chains_nest_left() {
    let stmts = parse_ok(NONE, "1 - 2 - 3;");
    match only_expr(&stmts) {
        Expr::Binary(l, op, r) => {
            assert_eq!(op.toktype, BinaryOpTy::Minus);
            assert_eq!(number(r), "3");
            match &**l {
                Expr::Binary(l2, _, r2) => {
                    assert_eq!(number(l2), "1");
                    assert_eq!(number(r2), "2");
                },
                other => panic!("unexpected {:?}", other),
            }
        },
        other => panic!("unexpected {:?}", other),
    }
}

#[test]
fn assignment_is_right_associative() {
    let stmts = parse_ok(NONE, "a = b = 3;");
    match only_expr(&stmts) {
        Expr::Assign(a, v) => {
            assert_eq!(name(&a.name), "a");
            match &**v {
                Expr::Assign(b, w) => {
                    assert_eq!(name(&b.name), "b");
                    assert_eq!(number(w), "3");
                },
                other => panic!("unexpected {:?}", other),
            }
        },
        other => panic!("unexpected {:?}", other),
    }
}

#[test]
fn precedence_of_logic_and_comparison() {
    let stmts = parse_ok(NONE, "!a == b or c < -d and e;");
    match only_expr(&stmts) {
        Expr::Logical(l, LogicalOp::Or, r) => {
            match &**l {
                Expr::Binary(u, op, _) => {
                    assert_eq!(op.toktype, BinaryOpTy::EqualEqual);
                    assert!(matches!(&**u, Expr::Unary(o, _) if o.toktype == UnaryOpTy::Bang));
                },
                other => panic!("unexpected {:?}", other),
            }
            assert!(matches!(&**r, Expr::Logical(_, LogicalOp::And, _)));
        },
        other => panic!("unexpected {:?}", other),
    }
}

fn def_with_params(n: usize) -> String {
    let names: Vec<String> = (0..n).map(|i| format!("p{}", i)).collect();
    format!("def f({}) {{ }}", names.join(", "))
}

#[test]
fn parameter_cap_is_255() {
    let stmts = parse_ok(NONE, &def_with_params(255));
    match &stmts[0] {
        Stmt::FunDecl(f) => assert_eq!(f.params.len(), 255),
        other => panic!("unexpected {:?}", other),
    }
    match parse_err(NONE, &def_with_params(256)) {
        Error::MaxParamsExceeded { kind, line, .. } => {
            assert_eq!(kind, FunctionKind::Function);
            assert_eq!(line, 1);
        },
        other => panic!("unexpected {:?}", other),
    }
}

#[test]
fn argument_cap_is_255() {
    let args = |n: usize| (0..n).map(|i| i.to_string()).collect::<Vec<_>>().join(", ");
    let stmts = parse_ok(NONE, &format!("f({});", args(255)));
    match only_expr(&stmts) {
        Expr::Call(_, _, a) => assert_eq!(a.len(), 255),
        other => panic!("unexpected {:?}", other),
    }
    assert!(matches!(parse_err(NONE, &format!("f({});", args(256))), Error::TooManyArguments { .. }));
}

#[test]
fn return_only_inside_functions() {
    match parse_err(NONE, "return 1;") {
        Error::ReturnNotInFun { line, col } => assert_eq!((line, col), (1, 5)),
        other => panic!("unexpected {:?}", other),
    }
    let stmts = parse_ok(NONE, "def f() { return 1; }");
    match &stmts[0] {
        Stmt::FunDecl(f) => {
            assert_eq!(name(&f.name.name), "f");
            assert!(matches!(&f.body[0], Stmt::Return(_, Some(_))));
        },
        other => panic!("unexpected {:?}", other),
    }
    let stmts = parse_ok(NONE, "def g() { return; }");
    match &stmts[0] {
        Stmt::FunDecl(f) => assert!(matches!(&f.body[0], Stmt::Return(_, None))),
        other => panic!("unexpected {:?}", other),
    }
}

#[test]
fn invalid_assignment_target() {
    match parse_err(NONE, "1 = 2;") {
        Error::InvalidAssignment { line, col } => assert_eq!((line, col), (1, 2)),
        other => panic!("unexpected {:?}", other),
    }
}

#[test]
fn extensions_default_to_off() {
    let ext = Extensions::default();
    assert!(!ext.lists && !ext.lambdas);
}

#[test]
fn expected_expression() {
    match parse_err(NONE, ";") {
        Error::ExpectedExpression { token_type, .. } => assert_eq!(token_type, TokenType::Semicolon),
        other => panic!("unexpected {:?}", other),
    }
}

#[test]
fn missing_semicolon_is_a_mismatch_at_end() {
    match parse_err(NONE, "print 1") {
        Error::TokenMismatch { expected, found, context } => {
            assert_eq!(expected, TokenType::Semicolon);
            assert_eq!(found.toktype, TokenType::Eof);
            assert_eq!(context, Expectation::SemicolonAfterValue);
        },
        other => panic!("unexpected {:?}", other),
    }
}

#[test]
fn token_without_value_is_unexpected() {
    let bare = Token { toktype: TokenType::Identifier, lexing: b"x".to_vec(), literal: None, line: 1, col: 0 };
    let semi = Token { toktype: TokenType::Semicolon, lexing: b";".to_vec(), literal: None, line: 1, col: 1 };
    let eof = Token { toktype: TokenType::Eof, lexing: Vec::new(), literal: None, line: 1, col: 1 };
    match parse(NONE, vec![bare, semi, eof]) {
        Err(Error::UnexpectedToken(t)) => assert_eq!(t.toktype, TokenType::Identifier),
        other => panic!("unexpected {:?}", other.map(|s| s.len())),
    }
}

#[test]
fn operator_tables_reject_other_tokens() {
    let comma = Token { toktype: TokenType::Comma, lexing: b",".to_vec(), literal: None, line: 3, col: 4 };
    match op_token_to_binop(&comma) {
        Err(Error::InvalidTokenInBinaryOp { token_type, line, col }) => {
            assert_eq!((token_type, line, col), (TokenType::Comma, 3, 4))
        },
        other => panic!("unexpected {:?}", other),
    }
    assert!(matches!(op_token_to_unary_op(&comma), Err(Error::InvalidTokenInUnaryOp { .. })));
    let slash = Token { toktype: TokenType::Slash, lexing: b"/".to_vec(), literal: None, line: 1, col: 0 };
    assert_eq!(op_token_to_binop(&slash).ok().map(|o| o.toktype), Some(BinaryOpTy::Slash));
}

#[test]
fn for_loop_desugars_to_while() {
    let stmts = parse_ok(NONE, "for (i = 0; i < 3; i = i + 1) print i;");
    assert_eq!(stmts.len(), 1);
    match &stmts[0] {
        Stmt::Block(outer) => {
            assert_eq!(outer.len(), 2);
            assert!(matches!(&outer[0], Stmt::Expr(Expr::Assign(..))));
            match &outer[1] {
                Stmt::While(cond, body) => {
                    assert!(matches!(cond, Expr::Binary(_, op, _) if op.toktype == BinaryOpTy::Less));
                    match &**body {
                        Stmt::Block(inner) => {
                            assert!(matches!(&inner[0], Stmt::Print(_)));
                            assert!(matches!(&inner[1], Stmt::Expr(Expr::Assign(..))));
                        },
                        other => panic!("unexpected {:?}", other),
                    }
                },
                other => panic!("unexpected {:?}", other),
            }
        },
        other => panic!("unexpected {:?}", other),
    }
    let stmts = parse_ok(NONE, "for (;;) print 1;");
    match &stmts[0] {
        Stmt::While(Expr::Literal(Literal::True), body) => assert!(matches!(&**body, Stmt::Print(_))),
        other => panic!("unexpected {:?}", other),
    }
}

#[test]
fn if_else_and_while() {
    let stmts = parse_ok(NONE, "if (a) print 1; else { print 2; } while (b) b = false;");
    assert_eq!(stmts.len(), 2);
    assert!(matches!(&stmts[0], Stmt::If(_, _, Some(_))));
    assert!(matches!(&stmts[1], Stmt::While(..)));
}

#[test]
fn lists_only_with_the_extension() {
    let stmts = parse_ok(ALL, "x = [1, 2][0]; x[1] = 3; [];");
    match only_expr(&stmts[..1]) {
        Expr::Assign(_, v) => match &**v {
            Expr::Subscript { value, slice, .. } => {
                assert!(matches!(&**value, Expr::List(items) if items.len() == 2));
                assert_eq!(number(slice), "0");
            },
            other => panic!("unexpected {:?}", other),
        },
        other => panic!("unexpected {:?}", other),
    }
    assert!(matches!(&stmts[1], Stmt::Expr(Expr::SetItem { .. })));
    assert!(matches!(&stmts[2], Stmt::Expr(Expr::List(items)) if items.is_empty()));
    assert!(matches!(parse_err(NONE, "[1];"), Error::ExpectedExpression { .. }));
}

#[test]
fn lambdas_only_with_the_extension() {
    let stmts = parse_ok(ALL, "f = lambda (x, y) { return x; };");
    match only_expr(&stmts) {
        Expr::Assign(_, v) => match &**v {
            Expr::Lambda(d) => {
                assert_eq!(d.params.len(), 2);
                assert_eq!(d.body.len(), 1);
            },
            other => panic!("unexpected {:?}", other),
        },
        other => panic!("unexpected {:?}", other),
    }
    assert!(matches!(parse_err(NONE, "f = lambda (x) { };"), Error::ExpectedExpression { .. }));
}

#[test]
fn classes_with_superclass_and_methods() {
    let stmts = parse_ok(NONE, "class A < B { m() { return this; } n(x) { super.m(); } }");
    match &stmts[0] {
        Stmt::ClassDecl(c) => {
            assert_eq!(name(&c.name.name), "A");
            assert_eq!(c.superclass.as_ref().map(|s| name(&s.name)), Some("B".to_string()));
            assert_eq!(c.methods.len(), 2);
            assert_eq!(name(&c.methods[1].name.name), "n");
        },
        other => panic!("unexpected {:?}", other),
    }
    match parse_err(NONE, "class { }") {
        Error::TokenMismatch { expected, context, .. } => {
            assert_eq!(expected, TokenType::Identifier);
            assert_eq!(context, Expectation::ClassName);
        },
        other => panic!("unexpected {:?}", other),
    }
}

#[test]
fn strings_and_calls() {
    let stmts = parse_ok(NONE, "print f('a')(\"b\");");
    match &stmts[0] {
        Stmt::Print(Expr::Call(inner, _, args)) => {
            assert!(matches!(&args[0], Expr::Literal(Literal::String(s)) if s == b"b"));
            assert!(matches!(&**inner, Expr::Call(..)));
        },
        other => panic!("unexpected {:?}", other),
    }
}

#[test]
fn declaring_entry_reads_assignment_as_declaration() {
    let stmts = match parse_varerr(NONE, tokens("x = 5; print x;")) {
        Ok(s) => s,
        Err(e) => panic!("{:?}", e),
    };
    assert_eq!(stmts.len(), 2);
    match &stmts[0] {
        Stmt::VarDecl(sym, Some(init)) => {
            assert_eq!(name(&sym.name), "x");
            assert_eq!(number(init), "5");
        },
        other => panic!("unexpected {:?}", other),
    }
    assert!(matches!(&stmts[1], Stmt::Print(_)));
}

#[test]
fn parser_methods_move_the_cursor() {
    let mut p = Parser::new(NONE, tokens("y = 1; z;"));
    match p.declvar() {
        Ok(Stmt::VarDecl(sym, _)) => assert_eq!(name(&sym.name), "y"),
        other => panic!("unexpected {:?}", other),
    }
    assert_eq!(p.cursor, 4);
    let rest = p.parse().ok().expect("parses");
    assert_eq!(rest.len(), 1);
    assert_eq!(p.tokens[p.cursor].toktype, TokenType::Eof);
    let mut q = Parser::new(NONE, tokens("w = 2;"));
    assert_eq!(q.parse_varerr().ok().map(|s| s.len()), Some(1));
}

#[test]
fn identifier_value_becomes_variable_name() {
    let t = Token {
        toktype: TokenType::Identifier,
        lexing: b"shown".to_vec(),
        literal: Some(TokenLiteral::Identifier(b"held".to_vec())),
        line: 1,
        col: 4,
    };
    let semi = Token { toktype: TokenType::Semicolon, lexing: b";".to_vec(), literal: None, line: 1, col: 5 };
    let eof = Token { toktype: TokenType::Eof, lexing: Vec::new(), literal: None, line: 1, col: 5 };
    let stmts = parse(NONE, vec![t, semi, eof]).ok().expect("parses");
    match only_expr(&stmts) {
        Expr::Variable(sym) => assert_eq!((name(&sym.name), sym.col), ("held".to_string(), 4)),
        other => panic!("unexpected {:?}", other),
    }
}

fn unparse(e: &Expr, out: &mut Vec<TokenType>) {
    fn list(items: &[Expr], out: &mut Vec<TokenType>) {
        for (i, item) in items.iter().enumerate() {
            if i > 0 {
                out.push(TokenType::Comma);
            }
            unparse(item, out);
        }
    }
    match e {
        Expr::Literal(Literal::Number(_)) => out.push(TokenType::Number),
        Expr::Literal(Literal::String(_)) => out.push(TokenType::String),
        Expr::Literal(Literal::True) => out.push(TokenType::True),
        Expr::Literal(Literal::False) => out.push(TokenType::False),
        Expr::Literal(Literal::Nil) => out.push(TokenType::Nil),
        Expr::This(_) => out.push(TokenType::This),
        Expr::Variable(_) => out.push(TokenType::Identifier),
        Expr::Super(..) => out.extend([TokenType::Super, TokenType::Dot, TokenType::Identifier]),
        Expr::Grouping(i) => {
            out.push(TokenType::LeftParen);
            unparse(i, out);
            out.push(TokenType::RightParen);
        },
        Expr::Unary(op, r) => {
            out.push(if op.toktype == UnaryOpTy::Minus { TokenType::Minus } else { TokenType::Bang });
            unparse(r, out);
        },
        Expr::Binary(l, op, r) => {
            unparse(l, out);
            out.push(match op.toktype {
                BinaryOpTy::Plus => TokenType::Plus,
                BinaryOpTy::Minus => TokenType::Minus,
                BinaryOpTy::Star => TokenType::Star,
                BinaryOpTy::Slash => TokenType::Slash,
                BinaryOpTy::Less => TokenType::Less,
                BinaryOpTy::LessEqual => TokenType::LessEqual,
                BinaryOpTy::Greater => TokenType::Greater,
                BinaryOpTy::GreaterEqual => TokenType::GreaterEqual,
                BinaryOpTy::EqualEqual => TokenType::EqualEqual,
                BinaryOpTy::NotEqual => TokenType::BangEqual,
            });
            unparse(r, out);
        },
        Expr::Logical(l, op, r) => {
            unparse(l, out);
            out.push(if *op == LogicalOp::Or { TokenType::Or } else { TokenType::And });
            unparse(r, out);
        },
        Expr::Assign(_, v) => {
            out.extend([TokenType::Identifier, TokenType::Equal]);
            unparse(v, out);
        },
        Expr::Call(c, _, args) => {
            unparse(c, out);
            out.push(TokenType::LeftParen);
            list(args, out);
            out.push(TokenType::RightParen);
        },
        Expr::List(items) => {
            out.push(TokenType::LeftBracket);
            list(items, out);
            out.push(TokenType::RightBracket);
        },
        Expr::Subscript { value, slice, .. } => {
            unparse(value, out);
            out.push(TokenType::LeftBracket);
            unparse(slice, out);
            out.push(TokenType::RightBracket);
        },
        Expr::SetItem { lhs, slice, rhs, .. } => {
            unparse(lhs, out);
            out.push(TokenType::LeftBracket);
            unparse(slice, out);
            out.extend([TokenType::RightBracket, TokenType::Equal]);
            unparse(rhs, out);
        },
        Expr::Lambda(d) => {
            out.push(TokenType::Lambda);
            unparse_callable(&d.params, &d.body, out);
        },
        other => panic!("not produced here: {:?}", other),
    }
}

fn unparse_callable(params: &[pyrust::ast::Symbol], body: &[Stmt], out: &mut Vec<TokenType>) {
    out.push(TokenType::LeftParen);
    for i in 0..params.len() {
        if i > 0 {
            out.push(TokenType::Comma);
        }
        out.push(TokenType::Identifier);
    }
    out.extend([TokenType::RightParen, TokenType::LeftBrace]);
    for s in body {
        unparse_stmt(s, out);
    }
    out.push(TokenType::RightBrace);
}

fn unparse_stmt(s: &Stmt, out: &mut Vec<TokenType>) {
    match s {
        Stmt::Expr(e) => {
            unparse(e, out);
            out.push(TokenType::Semicolon);
        },
        Stmt::Print(e) => {
            out.push(TokenType::Print);
            unparse(e, out);
            out.push(TokenType::Semicolon);
        },
        Stmt::VarDecl(_, init) => {
            out.extend([TokenType::Var, TokenType::Identifier]);
            if let Some(e) = init {
                out.push(TokenType::Equal);
                unparse(e, out);
            }
            out.push(TokenType::Semicolon);
        },
        Stmt::FunDecl(f) => {
            out.extend([TokenType::Def, TokenType::Identifier]);
            unparse_callable(&f.params, &f.body, out);
        },
        Stmt::ClassDecl(c) => {
            out.extend([TokenType::Class, TokenType::Identifier]);
            if c.superclass.is_some() {
                out.extend([TokenType::Less, TokenType::Identifier]);
            }
            out.push(TokenType::LeftBrace);
            for m in &c.methods {
                out.push(TokenType::Identifier);
                unparse_callable(&m.params, &m.body, out);
            }
            out.push(TokenType::RightBrace);
        },
        Stmt::If(c, t, e) => {
            out.extend([TokenType::If, TokenType::LeftParen]);
            unparse(c, out);
            out.push(TokenType::RightParen);
            unparse_stmt(t, out);
            if let Some(e) = e {
                out.push(TokenType::Else);
                unparse_stmt(e, out);
            }
        },
        Stmt::Block(items) => {
            out.push(TokenType::LeftBrace);
            for i in items {
                unparse_stmt(i, out);
            }
            out.push(TokenType::RightBrace);
        },
        Stmt::Return(_, v) => {
            out.push(TokenType::Return);
            if let Some(e) = v {
                unparse(e, out);
            }
            out.push(TokenType::Semicolon);
        },
        Stmt::While(c, b) => {
            out.extend([TokenType::While, TokenType::LeftParen]);
            unparse(c, out);
            out.push(TokenType::RightParen);
            unparse_stmt(b, out);
        },
    }
}

#[test]
fn tokenize_parse_reserialize_gives_the_token_kinds() {
    let lists = Extensions { lists: true, lambdas: false };
    let src = "a[1] = f(1, 'two', [3, 4])(x)[0] + -(y or z and !w) * 2 >= super.m == nil != this;";
    let toks = tokens(src);
    let stmts = parse_ok(lists, src);
    let mut out = Vec::new();
    unparse(only_expr(&stmts), &mut out);
    let expected: Vec<TokenType> = toks[..toks.len() - 2].iter().map(|t| t.toktype).collect();
    assert_eq!(out, expected);
}

#[test]
fn program_round_trip_without_for_loops() {
    let src = "var n = 3; def f(a, b) { if (a) { return b; } else return; } \
               class C < D { m() { print this; } } \
               while (n > 0) n = n - 1; g = lambda (x) { return [x, 1][0]; }; { var u; }";
    let toks = tokens(src);
    let stmts = parse_ok(ALL, src);
    let mut out = Vec::new();
    for s in &stmts {
        unparse_stmt(s, &mut out);
    }
    let expected: Vec<TokenType> = toks[..toks.len() - 1].iter().map(|t| t.toktype).collect();
    assert_eq!(out, expected);
}
