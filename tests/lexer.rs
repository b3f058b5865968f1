use pyrust::lexer::{check_tokens, tokenize, LexErrorKind, Literal, Token, TokenType};

fn kinds(tokens: &[Token]) -> Vec<TokenType> {
    tokens.iter().map(|t| t.toktype).collect()
}

fn lex(src: &str) -> Vec<Token> {
    check_tokens(src.to_string()).expect("tokenizes")
}

#[test]
fn lone_punctuation_is_one_token() {
    let cases = [
        ("(", TokenType::LeftParen),
        (")", TokenType::RightParen),
        ("{", TokenType::LeftBrace),
        ("}", TokenType::RightBrace),
        ("[", TokenType::LeftBracket),
        ("]", TokenType::RightBracket),
        (",", TokenType::Comma),
        (".", TokenType::Dot),
        ("-", TokenType::Minus),
        ("+", TokenType::Plus),
        (";", TokenType::Semicolon),
        ("%", TokenType::Percent),
        ("&", TokenType::And),
        ("|", TokenType::Or),
        ("=", TokenType::Equal),
        ("!", TokenType::Bang),
        ("<", TokenType::Less),
        (">", TokenType::Greater),
        ("*", TokenType::Star),
        ("/", TokenType::Slash),
    ];
    for (src, kind) in cases {
        let tokens = lex(src);
        assert_eq!(kinds(&tokens), vec![kind, TokenType::Eof], "input {:?}", src);
        assert_eq!(tokens[0].lexing, src.as_bytes().to_vec());
        assert_eq!(tokens[0].line, 1);
        assert_eq!(tokens[0].col, 0);
        assert!(tokens[0].literal.is_none());
    }
}

#[test]
fn two_byte_operators() {
    let tokens = lex("== != <= >= **");
    assert_eq!(
        kinds(&tokens),
        vec![
            TokenType::EqualEqual,
            TokenType::BangEqual,
            TokenType::LessEqual,
            TokenType::GreaterEqual,
            TokenType::StarStar,
            TokenType::Eof
        ]
    );
    assert_eq!(tokens[0].col, 1);
    assert_eq!(tokens[1].col, 4);
}

#[test]
fn double_and_single_quotes_agree() {
    let a = lex("\"abc\"");
    let b = lex("'abc'");
    assert_eq!(kinds(&a), vec![TokenType::String, TokenType::Eof]);
    assert_eq!(kinds(&b), kinds(&a));
    for t in [&a[0], &b[0]] {
        match &t.literal {
            Some(Literal::Str(s)) => assert_eq!(s, &b"abc".to_vec()),
            other => panic!("unexpected literal {:?}", other),
        }
        assert_eq!(t.line, 1);
        assert_eq!(t.col, 4);
    }
    assert_eq!(a[0].lexing, b"\"abc\"".to_vec());
    assert_eq!(b[0].lexing, b"'abc'".to_vec());
    assert_eq!((a[1].line, a[1].col), (b[1].line, b[1].col));
}

#[test]
fn unterminated_string_is_an_error() {
    for src in ["\"abc", "'abc", "'it\"s"] {
        let err = check_tokens(src.to_string()).err().expect("lexical error");
        assert_eq!(err.what, LexErrorKind::UnterminatedString);
        assert_eq!(err.line, 1);
        assert_eq!(err.col, src.len() as i64 - 1);
    }
}

#[test]
fn string_spanning_lines_counts_them() {
    let tokens = lex("\"a\nb\" x");
    assert_eq!(kinds(&tokens), vec![TokenType::String, TokenType::Identifier, TokenType::Eof]);
    assert_eq!(tokens[0].line, 2);
    assert_eq!(tokens[1].line, 2);
}

#[test]
fn unexpected_byte_is_an_error() {
    let err = check_tokens("a @".to_string()).err().expect("lexical error");
    assert_eq!(err.what, LexErrorKind::UnexpectedChar(b'@'));
    assert_eq!((err.line, err.col), (1, 2));
    let err = check_tokens("_x".to_string()).err().expect("lexical error");
    assert_eq!(err.what, LexErrorKind::UnexpectedChar(b'_'));
}

#[test]
fn numbers_keep_their_digits() {
    let tokens = lex("12.5 7 3.");
    assert_eq!(
        kinds(&tokens),
        vec![TokenType::Number, TokenType::Number, TokenType::Number, TokenType::Dot, TokenType::Eof]
    );
    let digits: Vec<Vec<u8>> = tokens[..3]
        .iter()
        .map(|t| match &t.literal {
            Some(Literal::Number(d)) => d.clone(),
            other => panic!("unexpected literal {:?}", other),
        })
        .collect();
    assert_eq!(digits, vec![b"12.5".to_vec(), b"7".to_vec(), b"3".to_vec()]);
    assert_eq!(tokens[0].col, 3);
}

#[test]
fn keywords_and_identifiers() {
    let tokens = lex("var x and or true false nil print def class return while for if elif else in lambda super this labmda");
    assert_eq!(
        kinds(&tokens),
        vec![
            TokenType::Var,
            TokenType::Identifier,
            TokenType::And,
            TokenType::Or,
            TokenType::True,
            TokenType::False,
            TokenType::Nil,
            TokenType::Print,
            TokenType::Def,
            TokenType::Class,
            TokenType::Return,
            TokenType::While,
            TokenType::For,
            TokenType::If,
            TokenType::Elif,
            TokenType::Else,
            TokenType::In,
            TokenType::Lambda,
            TokenType::Super,
            TokenType::This,
            TokenType::Identifier,
            TokenType::Eof
        ]
    );
    match &tokens[1].literal {
        Some(Literal::Identifier(s)) => assert_eq!(s, &b"x".to_vec()),
        other => panic!("unexpected literal {:?}", other),
    }
    assert!(tokens[0].literal.is_none());
}

#[test]
fn comments_and_positions() {
    let tokens = lex("a // note\n  b");
    assert_eq!(kinds(&tokens), vec![TokenType::Identifier, TokenType::Identifier, TokenType::Eof]);
    assert_eq!((tokens[0].line, tokens[0].col), (1, 0));
    assert_eq!((tokens[1].line, tokens[1].col), (2, 3));
    assert_eq!((tokens[2].line, tokens[2].col), (2, 3));
}

#[test]
fn empty_input_is_end_of_input() {
    let tokens = tokenize(&Vec::new()).ok().expect("tokenizes");
    assert_eq!(kinds(&tokens), vec![TokenType::Eof]);
    assert_eq!((tokens[0].line, tokens[0].col), (1, -1));
}

#[test]
fn copies_keep_contents() {
    let tokens = lex("'hi'");
    let copy = tokens[0].copy();
    assert_eq!(copy.lexing, tokens[0].lexing);
    assert_eq!(copy.toktype, tokens[0].toktype);
    assert_eq!((copy.line, copy.col), (tokens[0].line, tokens[0].col));
}
