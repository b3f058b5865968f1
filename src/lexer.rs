use vstd::prelude::*;
use vstd::string::*;
use vstd::utf8::*;

verus! {

/// Kind of a lexical token.
#[derive(Debug, Clone, Copy, PartialEq, Eq, Structural)]
pub enum TokenType {
    LeftParen,
    RightParen,
    LeftBrace,
    RightBrace,
    LeftBracket,
    RightBracket,
    Comma,
    Dot,
    Minus,
    Plus,
    Semicolon,
    Slash,
    Percent,
    Equal,
    Bang,
    BangEqual,
    EqualEqual,
    Greater,
    GreaterEqual,
    Less,
    LessEqual,
    Star,
    StarStar,
    Identifier,
    String,
    Number,
    And,
    True,
    False,
    Def,
    For,
    In,
    If,
    Elif,
    Else,
    Or,
    Print,
    Return,
    While,
    Class,
    Lambda,
    Nil,
    Super,
    This,
    Var,
    Eof,
}

/// Decoded value carried by identifier, string and number tokens.
#[derive(Debug, Clone)]
pub enum Literal {
    Identifier(Vec<u8>),
    Str(Vec<u8>),
    /// The characters of a decimal number as written (`12`, `3.25`).
    Number(Vec<u8>),
}

/// Mathematical model of a [`Literal`].
pub enum LiteralView {
    Identifier(Seq<u8>),
    Str(Seq<u8>),
    Number(Seq<u8>),
}

impl View for Literal {
    type V = LiteralView;

    open spec fn view(&self) -> LiteralView {
        match self {
            Literal::Identifier(s) => LiteralView::Identifier(s@),
            Literal::Str(s) => LiteralView::Str(s@),
            Literal::Number(s) => LiteralView::Number(s@),
        }
    }
}

impl Literal {
    /// A copy with the same contents.
    pub fn copy(&self) -> (r: Literal)
        ensures
            r@ == self@,
    {
        match self {
            Literal::Identifier(s) => Literal::Identifier(s.clone()),
            Literal::Str(s) => Literal::Str(s.clone()),
            Literal::Number(s) => Literal::Number(s.clone()),
        }
    }
}

/// A token: its kind, the bytes it was scanned from, its decoded value, and
/// the line (from 1) and column of its last byte.
#[derive(Debug, Clone)]
pub struct Token {
    pub toktype: TokenType,
    pub lexing: Vec<u8>,
    pub literal: Option<Literal>,
    pub line: usize,
    pub col: i64,
}

/// Mathematical model of a [`Token`].
pub struct TokenView {
    pub toktype: TokenType,
    pub lexing: Seq<u8>,
    pub literal: Option<LiteralView>,
    pub line: int,
    pub col: int,
}

pub open spec fn literal_view(l: Option<Literal>) -> Option<LiteralView> {
    match l {
        Some(v) => Some(v@),
        None => None,
    }
}

impl View for Token {
    type V = TokenView;

    open spec fn view(&self) -> TokenView {
        TokenView {
            toktype: self.toktype,
            lexing: self.lexing@,
            literal: literal_view(self.literal),
            line: self.line as int,
            col: self.col as int,
        }
    }
}

impl Token {
    /// A copy with the same contents.
    pub fn copy(&self) -> (r: Token)
        ensures
            r@ == self@,
    {
        let literal = match &self.literal {
            Some(l) => Some(l.copy()),
            None => None,
        };
        Token {
            toktype: self.toktype,
            lexing: self.lexing.clone(),
            literal,
            line: self.line,
            col: self.col,
        }
    }
}

/// What went wrong while scanning.
#[derive(Debug, Clone, Copy, PartialEq, Eq, Structural)]
pub enum LexErrorKind {
    /// The input ended before the closing quote of a string.
    UnterminatedString,
    /// A byte that starts no token.
    UnexpectedChar(u8),
}

/// A lexical error and the position where scanning stopped.
#[derive(Debug, Clone, Copy)]
pub struct Error {
    pub what: LexErrorKind,
    pub line: usize,
    pub col: i64,
}

/// Mathematical model of an [`Error`].
pub struct ErrorView {
    pub what: LexErrorKind,
    pub line: int,
    pub col: int,
}

impl View for Error {
    type V = ErrorView;

    open spec fn view(&self) -> ErrorView {
        ErrorView { what: self.what, line: self.line as int, col: self.col as int }
    }
}

pub open spec fn is_digit(c: u8) -> bool {
    0x30 <= c <= 0x39
}

pub open spec fn is_alpha(c: u8) -> bool {
    (0x41 <= c <= 0x5a) || (0x61 <= c <= 0x7a)
}

pub open spec fn is_alnum(c: u8) -> bool {
    is_alpha(c) || is_digit(c)
}

/// The token kind of a byte that always forms a token on its own.
pub open spec fn single_char_kind(c: u8) -> Option<TokenType> {
    if c == 0x25 { Some(TokenType::Percent) }
    else if c == 0x26 { Some(TokenType::And) }
    else if c == 0x7c { Some(TokenType::Or) }
    else if c == 0x28 { Some(TokenType::LeftParen) }
    else if c == 0x29 { Some(TokenType::RightParen) }
    else if c == 0x7b { Some(TokenType::LeftBrace) }
    else if c == 0x7d { Some(TokenType::RightBrace) }
    else if c == 0x5b { Some(TokenType::LeftBracket) }
    else if c == 0x5d { Some(TokenType::RightBracket) }
    else if c == 0x2c { Some(TokenType::Comma) }
    else if c == 0x2e { Some(TokenType::Dot) }
    else if c == 0x2d { Some(TokenType::Minus) }
    else if c == 0x2b { Some(TokenType::Plus) }
    else if c == 0x3b { Some(TokenType::Semicolon) }
    else { None }
}

/// For a byte that may start a one- or two-byte operator: the second byte
/// that makes it two bytes long, the two-byte kind and the one-byte kind.
pub open spec fn pair_kinds(c: u8) -> Option<(u8, TokenType, TokenType)> {
    if c == 0x21 { Some((0x3du8, TokenType::BangEqual, TokenType::Bang)) }
    else if c == 0x3d { Some((0x3du8, TokenType::EqualEqual, TokenType::Equal)) }
    else if c == 0x3c { Some((0x3du8, TokenType::LessEqual, TokenType::Less)) }
    else if c == 0x3e { Some((0x3du8, TokenType::GreaterEqual, TokenType::Greater)) }
    else if c == 0x2a { Some((0x2au8, TokenType::StarStar, TokenType::Star)) }
    else { None }
}

/// The keyword spelled by `s`, if any.
pub open spec fn keyword_kind(s: Seq<u8>) -> Option<TokenType> {
    if s =~= seq![0x61, 0x6e, 0x64u8] {
        Some(TokenType::And)
    } else if s =~= seq![0x74, 0x72, 0x75, 0x65u8] {
        Some(TokenType::True)
    } else if s =~= seq![0x66, 0x61, 0x6c, 0x73, 0x65u8] {
        Some(TokenType::False)
    } else if s =~= seq![0x69, 0x6eu8] {
        Some(TokenType::In)
    } else if s =~= seq![0x66, 0x6f, 0x72u8] {
        Some(TokenType::For)
    } else if s =~= seq![0x64, 0x65, 0x66u8] {
        Some(TokenType::Def)
    } else if s =~= seq![0x69, 0x66u8] {
        Some(TokenType::If)
    } else if s =~= seq![0x65, 0x6c, 0x69, 0x66u8] {
        Some(TokenType::Elif)
    } else if s =~= seq![0x65, 0x6c, 0x73, 0x65u8] {
        Some(TokenType::Else)
    } else if s =~= seq![0x6f, 0x72u8] {
        Some(TokenType::Or)
    } else if s =~= seq![0x70, 0x72, 0x69, 0x6e, 0x74u8] {
        Some(TokenType::Print)
    } else if s =~= seq![0x63, 0x6c, 0x61, 0x73, 0x73u8] {
        Some(TokenType::Class)
    } else if s =~= seq![0x72, 0x65, 0x74, 0x75, 0x72, 0x6eu8] {
        Some(TokenType::Return)
    } else if s =~= seq![0x77, 0x68, 0x69, 0x6c, 0x65u8] {
        Some(TokenType::While)
    } else if s =~= seq![0x6c, 0x61, 0x6d, 0x62, 0x64, 0x61u8] {
        Some(TokenType::Lambda)
    } else if s =~= seq![0x73, 0x75, 0x70, 0x65, 0x72u8] {
        Some(TokenType::Super)
    } else if s =~= seq![0x74, 0x68, 0x69, 0x73u8] {
        Some(TokenType::This)
    } else if s =~= seq![0x6e, 0x69, 0x6cu8] {
        Some(TokenType::Nil)
    } else if s =~= seq![0x76, 0x61, 0x72u8] {
        Some(TokenType::Var)
    } else {
        None
    }
}

/// The first position at or after `i` that holds no decimal digit.
pub open spec fn digits_end(src: Seq<u8>, i: int) -> int
    decreases src.len() - i,
{
    if 0 <= i < src.len() && is_digit(src[i]) {
        digits_end(src, i + 1)
    } else {
        i
    }
}

/// The first position at or after `i` that holds no letter or digit.
pub open spec fn alnum_end(src: Seq<u8>, i: int) -> int
    decreases src.len() - i,
{
    if 0 <= i < src.len() && is_alnum(src[i]) {
        alnum_end(src, i + 1)
    } else {
        i
    }
}

/// The first position at or after `i` that holds a newline, or the end.
pub open spec fn line_end(src: Seq<u8>, i: int) -> int
    decreases src.len() - i,
{
    if 0 <= i < src.len() && src[i] != 0x0a {
        line_end(src, i + 1)
    } else {
        i
    }
}

/// The first position at or after `i` that holds the byte `q`, or the end.
pub open spec fn quote_end(src: Seq<u8>, i: int, q: u8) -> int
    decreases src.len() - i,
{
    if 0 <= i < src.len() && src[i] != q {
        quote_end(src, i + 1, q)
    } else {
        i
    }
}

/// The number of newlines among the positions `i .. j`.
pub open spec fn newlines(src: Seq<u8>, i: int, j: int) -> int
    decreases j - i,
{
    if j <= i {
        0
    } else {
        newlines(src, i, j - 1) + if src[j - 1] == 0x0a { 1int } else { 0int }
    }
}

/// The end of the number that starts at `start`: digits, then optionally a
/// `.` followed by at least one digit and more digits.
pub open spec fn number_end(src: Seq<u8>, start: int) -> int {
    let a = digits_end(src, start + 1);
    if a + 1 < src.len() && src[a] == 0x2e && is_digit(src[a + 1]) {
        digits_end(src, a + 1)
    } else {
        a
    }
}

/// What scanning one lexeme does.
pub enum Scan {
    /// Nothing is emitted (blank, newline, comment); scanning goes on here.
    Skip { pos: int, line: int, col: int },
    /// A token is emitted; scanning goes on here.
    Emit { tok: TokenView, pos: int, line: int, col: int },
    /// Scanning stops with an error.
    Fail(ErrorView),
}

pub open spec fn emit(kind: TokenType, lexing: Seq<u8>, literal: Option<LiteralView>, pos: int, line: int, col: int) -> Scan {
    Scan::Emit {
        tok: TokenView { toktype: kind, lexing, literal, line, col },
        pos,
        line,
        col,
    }
}

/// One lexeme, starting at `pos` with the line and column counters `line`
/// and `col` (the column of the byte before `pos`).
pub open spec fn scan(src: Seq<u8>, pos: int, line: int, col: int) -> Scan {
    let c = src[pos];
    if single_char_kind(c) is Some {
        emit(single_char_kind(c)->0, src.subrange(pos, pos + 1), None, pos + 1, line, col + 1)
    } else if pair_kinds(c) is Some {
        let (second, two, one) = pair_kinds(c)->0;
        if pos + 1 < src.len() && src[pos + 1] == second {
            emit(two, src.subrange(pos, pos + 2), None, pos + 2, line, col + 2)
        } else {
            emit(one, src.subrange(pos, pos + 1), None, pos + 1, line, col + 1)
        }
    } else if c == 0x2f {
        if pos + 1 < src.len() && src[pos + 1] == 0x2f {
            let e = line_end(src, pos + 2);
            Scan::Skip { pos: e, line, col: col + (e - pos) }
        } else {
            emit(TokenType::Slash, src.subrange(pos, pos + 1), None, pos + 1, line, col + 1)
        }
    } else if c == 0x20 || c == 0x0d || c == 0x09 {
        Scan::Skip { pos: pos + 1, line, col: col + 1 }
    } else if c == 0x0a {
        Scan::Skip { pos: pos + 1, line: line + 1, col: 0 }
    } else if c == 0x22 || c == 0x27 {
        let e = quote_end(src, pos + 1, c);
        let l = line + newlines(src, pos + 1, e);
        if e >= src.len() {
            Scan::Fail(ErrorView { what: LexErrorKind::UnterminatedString, line: l, col: col + (e - pos) })
        } else {
            emit(
                TokenType::String,
                src.subrange(pos, e + 1),
                Some(LiteralView::Str(src.subrange(pos + 1, e))),
                e + 1,
                l,
                col + (e + 1 - pos),
            )
        }
    } else if is_digit(c) {
        let e = number_end(src, pos);
        emit(
            TokenType::Number,
            src.subrange(pos, e),
            Some(LiteralView::Number(src.subrange(pos, e))),
            e,
            line,
            col + (e - pos),
        )
    } else if is_alpha(c) {
        let e = alnum_end(src, pos + 1);
        let s = src.subrange(pos, e);
        match keyword_kind(s) {
            Some(k) => emit(k, s, None, e, line, col + (e - pos)),
            None => emit(TokenType::Identifier, s, Some(LiteralView::Identifier(s)), e, line, col + (e - pos)),
        }
    } else {
        Scan::Fail(ErrorView { what: LexErrorKind::UnexpectedChar(c), line, col: col + 1 })
    }
}

pub open spec fn eof_view(line: int, col: int) -> TokenView {
    TokenView { toktype: TokenType::Eof, lexing: Seq::empty(), literal: None, line, col }
}

/// Prepends `acc` to the tokens of a successful scan.
pub open spec fn after(acc: Seq<TokenView>, r: Result<Seq<TokenView>, ErrorView>) -> Result<Seq<TokenView>, ErrorView> {
    match r {
        Ok(ts) => Ok(acc + ts),
        Err(e) => Err(e),
    }
}

/// The tokens of `src` from `pos` on, or the first lexical error.
pub open spec fn lex_from(src: Seq<u8>, pos: int, line: int, col: int) -> Result<Seq<TokenView>, ErrorView>
    decreases src.len() - pos,
{
    if pos < 0 || pos >= src.len() {
        Ok(seq![eof_view(line, col)])
    } else {
        proof {
            lemma_scan_advances(src, pos, line, col);
        }
        match scan(src, pos, line, col) {
            Scan::Skip { pos: p, line: l, col: c } => lex_from(src, p, l, c),
            Scan::Emit { tok, pos: p, line: l, col: c } => after(seq![tok], lex_from(src, p, l, c)),
            Scan::Fail(e) => Err(e),
        }
    }
}

/// The tokens of a whole source text: lines count from 1, and the column
/// counter starts at -1.
pub open spec fn tokenize_spec(src: Seq<u8>) -> Result<Seq<TokenView>, ErrorView> {
    lex_from(src, 0, 1, -1)
}

pub open spec fn tokens_view(ts: Seq<Token>) -> Seq<TokenView> {
    ts.map_values(|t: Token| t@)
}

pub open spec fn lex_result_view(r: Result<Vec<Token>, Error>) -> Result<Seq<TokenView>, ErrorView> {
    match r {
        Ok(ts) => Ok(tokens_view(ts@)),
        Err(e) => Err(e@),
    }
}

pub proof fn lemma_digits_end(src: Seq<u8>, i: int)
    requires
        0 <= i <= src.len(),
    ensures
        i <= digits_end(src, i) <= src.len(),
    decreases src.len() - i,
{
    if i < src.len() && is_digit(src[i]) {
        lemma_digits_end(src, i + 1);
    }
}

pub proof fn lemma_alnum_end(src: Seq<u8>, i: int)
    requires
        0 <= i <= src.len(),
    ensures
        i <= alnum_end(src, i) <= src.len(),
    decreases src.len() - i,
{
    if i < src.len() && is_alnum(src[i]) {
        lemma_alnum_end(src, i + 1);
    }
}

pub proof fn lemma_line_end(src: Seq<u8>, i: int)
    requires
        0 <= i <= src.len(),
    ensures
        i <= line_end(src, i) <= src.len(),
    decreases src.len() - i,
{
    if i < src.len() && src[i] != 0x0a {
        lemma_line_end(src, i + 1);
    }
}

pub proof fn lemma_quote_end(src: Seq<u8>, i: int, q: u8)
    requires
        0 <= i <= src.len(),
    ensures
        i <= quote_end(src, i, q) <= src.len(),
        quote_end(src, i, q) < src.len() ==> src[quote_end(src, i, q)] == q,
    decreases src.len() - i,
{
    if i < src.len() && src[i] != q {
        lemma_quote_end(src, i + 1, q);
    }
}

pub proof fn lemma_newlines(src: Seq<u8>, i: int, j: int)
    requires
        i <= j,
    ensures
        0 <= newlines(src, i, j) <= j - i,
    decreases j - i,
{
    if i < j {
        lemma_newlines(src, i, j - 1);
    }
}

/// Scanning a lexeme moves forward, and the counters grow no faster than
/// the position.
pub proof fn lemma_scan_advances(src: Seq<u8>, pos: int, line: int, col: int)
    requires
        0 <= pos < src.len(),
    ensures
        match scan(src, pos, line, col) {
            Scan::Skip { pos: p, line: l, col: c } => {
                &&& pos < p <= src.len()
                &&& line <= l <= line + (p - pos)
                &&& col >= -1 ==> 0 <= c <= col + (p - pos)
            },
            Scan::Emit { tok, pos: p, line: l, col: c } => {
                &&& pos < p <= src.len()
                &&& line <= l <= line + (p - pos)
                &&& col >= -1 ==> 0 <= c <= col + (p - pos)
                &&& tok.line == l
                &&& tok.col == c
            },
            Scan::Fail(e) => {
                &&& line <= e.line <= line + (src.len() - pos)
                &&& e.col <= col + (src.len() - pos)
            },
        },
{
    lemma_digits_end(src, pos + 1);
    lemma_alnum_end(src, pos + 1);
    if pos + 2 <= src.len() {
        lemma_line_end(src, pos + 2);
    }
    lemma_quote_end(src, pos + 1, src[pos]);
    lemma_newlines(src, pos + 1, quote_end(src, pos + 1, src[pos]));
    let a = digits_end(src, pos + 1);
    if a + 1 < src.len() {
        lemma_digits_end(src, a + 1);
    }
}

/// The kind of the token that a byte forms when it stands alone: a
/// punctuation byte, or an operator byte with no second byte after it.
pub open spec fn lone_kind(c: u8) -> Option<TokenType> {
    if single_char_kind(c) is Some {
        single_char_kind(c)
    } else if pair_kinds(c) is Some {
        Some((pair_kinds(c)->0).2)
    } else if c == 0x2f {
        Some(TokenType::Slash)
    } else {
        None
    }
}

/// A single punctuation or operator byte is one token of its kind, at line
/// 1 and column 0, followed by the end of input.
pub proof fn lemma_lone_punctuation(c: u8)
    requires
        lone_kind(c) is Some,
    ensures
        tokenize_spec(seq![c]) == Ok::<_, ErrorView>(
            seq![
                TokenView { toktype: lone_kind(c)->0, lexing: seq![c], literal: None, line: 1, col: 0 },
                eof_view(1, 0),
            ],
        ),
{
    let src = seq![c];
    let tok = TokenView { toktype: lone_kind(c)->0, lexing: seq![c], literal: None, line: 1, col: 0 };
    assert(src.subrange(0, 1) =~= seq![c]);
    assert(lex_from(src, 1, 1, 0) == Ok::<_, ErrorView>(seq![eof_view(1, 0)]));
    assert(scan(src, 0, 1, -1) == emit(tok.toktype, seq![c], None, 1, 1, 0));
    assert(seq![tok] + seq![eof_view(1, 0)] =~= seq![tok, eof_view(1, 0)]);
}

/// `s` between two quote bytes `q`.
pub open spec fn quoted(q: u8, s: Seq<u8>) -> Seq<u8> {
    seq![q] + s + seq![q]
}

proof fn lemma_quote_end_inside(src: Seq<u8>, i: int, e: int, q: u8)
    requires
        0 <= i <= e <= src.len(),
        forall|j: int| i <= j < e ==> src[j] != q,
        e < src.len() ==> src[e] == q,
    ensures
        quote_end(src, i, q) == e,
    decreases e - i,
{
    if i < e {
        lemma_quote_end_inside(src, i + 1, e, q);
    }
}

proof fn lemma_newlines_agree(a: Seq<u8>, b: Seq<u8>, i: int, j: int)
    requires
        0 <= i <= j,
        j <= a.len(),
        j <= b.len(),
        forall|k: int| i <= k < j ==> a[k] == b[k],
    ensures
        newlines(a, i, j) == newlines(b, i, j),
    decreases j - i,
{
    if i < j {
        lemma_newlines_agree(a, b, i, j - 1);
    }
}

/// The tokens of a string literal alone: one string token holding `s`,
/// then the end of input on the same line and column.
pub proof fn lemma_string_literal(q: u8, s: Seq<u8>)
    requires
        q == 0x22 || q == 0x27,
        !s.contains(q),
    ensures
        tokenize_spec(quoted(q, s)) == Ok::<_, ErrorView>(
            seq![
                TokenView {
                    toktype: TokenType::String,
                    lexing: quoted(q, s),
                    literal: Some(LiteralView::Str(s)),
                    line: 1 + newlines(quoted(q, s), 1, s.len() + 1int),
                    col: s.len() + 1int,
                },
                eof_view(1 + newlines(quoted(q, s), 1, s.len() + 1int), s.len() + 1int),
            ],
        ),
{
    let src = quoted(q, s);
    let n = s.len() as int;
    assert forall|j: int| 1 <= j < n + 1 implies src[j] != q by {
        assert(src[j] == s[j - 1]);
        if src[j] == q {
            assert(s.contains(q));
        }
    }
    lemma_quote_end_inside(src, 1, n + 1, q);
    let l = 1 + newlines(src, 1, n + 1);
    let tok = TokenView {
        toktype: TokenType::String,
        lexing: src,
        literal: Some(LiteralView::Str(s)),
        line: l,
        col: n + 1,
    };
    assert(src.subrange(0, n + 2) =~= src);
    assert(src.subrange(1, n + 1) =~= s);
    assert(scan(src, 0, 1, -1) == emit(TokenType::String, src, Some(LiteralView::Str(s)), n + 2, l, n + 1));
    assert(lex_from(src, n + 2, l, n + 1) == Ok::<_, ErrorView>(seq![eof_view(l, n + 1)]));
    assert(seq![tok] + seq![eof_view(l, n + 1)] =~= seq![tok, eof_view(l, n + 1)]);
}

/// `"s"` and `'s'` give the same tokens: a string token holding `s` at the
/// same line and column, then the same end of input; only the quote bytes
/// of the lexeme differ.
pub proof fn lemma_quotes_agree(s: Seq<u8>)
    requires
        !s.contains(0x22),
        !s.contains(0x27),
    ensures
        tokenize_spec(quoted(0x22, s)) is Ok,
        tokenize_spec(quoted(0x27, s)) is Ok,
        ({
            let a = tokenize_spec(quoted(0x22, s))->Ok_0;
            let b = tokenize_spec(quoted(0x27, s))->Ok_0;
            &&& a.len() == 2 && b.len() == 2
            &&& a[0].toktype == TokenType::String && b[0].toktype == TokenType::String
            &&& a[0].literal == Some(LiteralView::Str(s)) && b[0].literal == Some(LiteralView::Str(s))
            &&& a[0].line == b[0].line && a[0].col == b[0].col
            &&& a[0].lexing == quoted(0x22, s) && b[0].lexing == quoted(0x27, s)
            &&& a[1] == b[1]
        }),
{
    lemma_string_literal(0x22, s);
    lemma_string_literal(0x27, s);
    let n = s.len() as int;
    assert forall|k: int| 1 <= k < n + 1 implies quoted(0x22, s)[k] == quoted(0x27, s)[k] by {
        assert(quoted(0x22, s)[k] == s[k - 1]);
        assert(quoted(0x27, s)[k] == s[k - 1]);
    }
    lemma_newlines_agree(quoted(0x22, s), quoted(0x27, s), 1, n + 1);
}

/// A quote byte with no closing quote after it is a lexical error, and no
/// token comes out.
pub proof fn lemma_unterminated_string(q: u8, s: Seq<u8>)
    requires
        q == 0x22 || q == 0x27,
        !s.contains(q),
    ensures
        tokenize_spec(seq![q] + s) is Err,
        tokenize_spec(seq![q] + s)->Err_0.what == LexErrorKind::UnterminatedString,
{
    let src = seq![q] + s;
    let n = s.len() as int;
    assert forall|j: int| 1 <= j < n + 1 implies src[j] != q by {
        assert(src[j] == s[j - 1]);
        if src[j] == q {
            assert(s.contains(q));
        }
    }
    lemma_quote_end_inside(src, 1, n + 1, q);
}

/// A successful scan from `pos` ends with exactly one end-of-input token,
/// and that token is the last.
pub proof fn lemma_one_eof_at_end(src: Seq<u8>, pos: int, line: int, col: int)
    ensures
        lex_from(src, pos, line, col) is Ok ==> {
            let ts = lex_from(src, pos, line, col)->Ok_0;
            &&& ts.len() >= 1
            &&& ts[ts.len() - 1].toktype == TokenType::Eof
            &&& forall|i: int| 0 <= i < ts.len() - 1 ==> #[trigger] ts[i].toktype != TokenType::Eof
        },
    decreases src.len() - pos,
{
    if 0 <= pos < src.len() {
        lemma_scan_advances(src, pos, line, col);
        match scan(src, pos, line, col) {
            Scan::Skip { pos: p, line: l, col: c } => {
                lemma_one_eof_at_end(src, p, l, c);
            },
            Scan::Emit { tok, pos: p, line: l, col: c } => {
                lemma_one_eof_at_end(src, p, l, c);
                let rest = lex_from(src, p, l, c);
                if rest is Ok {
                    let ts = seq![tok] + rest->Ok_0;
                    assert(tok.toktype != TokenType::Eof);
                    assert forall|i: int| 0 <= i < ts.len() - 1 implies #[trigger] ts[i].toktype != TokenType::Eof by {
                        if i > 0 {
                            assert(ts[i] == rest->Ok_0[i - 1]);
                        }
                    }
                }
            },
            Scan::Fail(_) => {},
        }
    }
}

fn single_char(c: u8) -> (r: Option<TokenType>)
    ensures
        r == single_char_kind(c),
{
    if c == 0x25 { Some(TokenType::Percent) }
    else if c == 0x26 { Some(TokenType::And) }
    else if c == 0x7c { Some(TokenType::Or) }
    else if c == 0x28 { Some(TokenType::LeftParen) }
    else if c == 0x29 { Some(TokenType::RightParen) }
    else if c == 0x7b { Some(TokenType::LeftBrace) }
    else if c == 0x7d { Some(TokenType::RightBrace) }
    else if c == 0x5b { Some(TokenType::LeftBracket) }
    else if c == 0x5d { Some(TokenType::RightBracket) }
    else if c == 0x2c { Some(TokenType::Comma) }
    else if c == 0x2e { Some(TokenType::Dot) }
    else if c == 0x2d { Some(TokenType::Minus) }
    else if c == 0x2b { Some(TokenType::Plus) }
    else if c == 0x3b { Some(TokenType::Semicolon) }
    else { None }
}

fn pair(c: u8) -> (r: Option<(u8, TokenType, TokenType)>)
    ensures
        r == pair_kinds(c),
{
    if c == 0x21 { Some((0x3d, TokenType::BangEqual, TokenType::Bang)) }
    else if c == 0x3d { Some((0x3d, TokenType::EqualEqual, TokenType::Equal)) }
    else if c == 0x3c { Some((0x3d, TokenType::LessEqual, TokenType::Less)) }
    else if c == 0x3e { Some((0x3d, TokenType::GreaterEqual, TokenType::Greater)) }
    else if c == 0x2a { Some((0x2a, TokenType::StarStar, TokenType::Star)) }
    else { None }
}

fn digit(c: u8) -> (r: bool)
    ensures
        r == is_digit(c),
{
    0x30 <= c && c <= 0x39
}

fn alpha(c: u8) -> (r: bool)
    ensures
        r == is_alpha(c),
{
    (0x41 <= c && c <= 0x5a) || (0x61 <= c && c <= 0x7a)
}

fn keyword(s: &Vec<u8>) -> (r: Option<TokenType>)
    ensures
        r == keyword_kind(s@),
{
    if s.len() == 3 && s[0] == 0x61 && s[1] == 0x6e && s[2] == 0x64 {
        Some(TokenType::And)
    } else if s.len() == 4 && s[0] == 0x74 && s[1] == 0x72 && s[2] == 0x75 && s[3] == 0x65 {
        Some(TokenType::True)
    } else if s.len() == 5 && s[0] == 0x66 && s[1] == 0x61 && s[2] == 0x6c && s[3] == 0x73 && s[4] == 0x65 {
        Some(TokenType::False)
    } else if s.len() == 2 && s[0] == 0x69 && s[1] == 0x6e {
        Some(TokenType::In)
    } else if s.len() == 3 && s[0] == 0x66 && s[1] == 0x6f && s[2] == 0x72 {
        Some(TokenType::For)
    } else if s.len() == 3 && s[0] == 0x64 && s[1] == 0x65 && s[2] == 0x66 {
        Some(TokenType::Def)
    } else if s.len() == 2 && s[0] == 0x69 && s[1] == 0x66 {
        Some(TokenType::If)
    } else if s.len() == 4 && s[0] == 0x65 && s[1] == 0x6c && s[2] == 0x69 && s[3] == 0x66 {
        Some(TokenType::Elif)
    } else if s.len() == 4 && s[0] == 0x65 && s[1] == 0x6c && s[2] == 0x73 && s[3] == 0x65 {
        Some(TokenType::Else)
    } else if s.len() == 2 && s[0] == 0x6f && s[1] == 0x72 {
        Some(TokenType::Or)
    } else if s.len() == 5 && s[0] == 0x70 && s[1] == 0x72 && s[2] == 0x69 && s[3] == 0x6e && s[4] == 0x74 {
        Some(TokenType::Print)
    } else if s.len() == 5 && s[0] == 0x63 && s[1] == 0x6c && s[2] == 0x61 && s[3] == 0x73 && s[4] == 0x73 {
        Some(TokenType::Class)
    } else if s.len() == 6 && s[0] == 0x72 && s[1] == 0x65 && s[2] == 0x74 && s[3] == 0x75 && s[4] == 0x72 && s[5] == 0x6e {
        Some(TokenType::Return)
    } else if s.len() == 5 && s[0] == 0x77 && s[1] == 0x68 && s[2] == 0x69 && s[3] == 0x6c && s[4] == 0x65 {
        Some(TokenType::While)
    } else if s.len() == 6 && s[0] == 0x6c && s[1] == 0x61 && s[2] == 0x6d && s[3] == 0x62 && s[4] == 0x64 && s[5] == 0x61 {
        Some(TokenType::Lambda)
    } else if s.len() == 5 && s[0] == 0x73 && s[1] == 0x75 && s[2] == 0x70 && s[3] == 0x65 && s[4] == 0x72 {
        Some(TokenType::Super)
    } else if s.len() == 4 && s[0] == 0x74 && s[1] == 0x68 && s[2] == 0x69 && s[3] == 0x73 {
        Some(TokenType::This)
    } else if s.len() == 3 && s[0] == 0x6e && s[1] == 0x69 && s[2] == 0x6c {
        Some(TokenType::Nil)
    } else if s.len() == 3 && s[0] == 0x76 && s[1] == 0x61 && s[2] == 0x72 {
        Some(TokenType::Var)
    } else {
        None
    }
}


fn copy_range(src: &Vec<u8>, start: usize, end: usize) -> (r: Vec<u8>)
    requires
        start <= end <= src@.len(),
    ensures
        r@ == src@.subrange(start as int, end as int),
{
    let mut r: Vec<u8> = Vec::new();
    let mut i: usize = start;
    while i < end
        invariant
            start <= i <= end,
            end <= src@.len(),
            r@ == src@.subrange(start as int, i as int),
        decreases end - i,
    {
        r.push(src[i]);
        i = i + 1;
    }
    r
}

fn skip_digits(src: &Vec<u8>, i: usize) -> (e: usize)
    requires
        i <= src@.len(),
    ensures
        e == digits_end(src@, i as int),
{
    let mut j: usize = i;
    while j < src.len() && digit(src[j])
        invariant
            i <= j <= src@.len(),
            digits_end(src@, j as int) == digits_end(src@, i as int),
        decreases src@.len() - j,
    {
        j = j + 1;
    }
    j
}

fn skip_alnum(src: &Vec<u8>, i: usize) -> (e: usize)
    requires
        i <= src@.len(),
    ensures
        e == alnum_end(src@, i as int),
{
    let mut j: usize = i;
    while j < src.len() && (alpha(src[j]) || digit(src[j]))
        invariant
            i <= j <= src@.len(),
            alnum_end(src@, j as int) == alnum_end(src@, i as int),
        decreases src@.len() - j,
    {
        j = j + 1;
    }
    j
}

fn skip_line(src: &Vec<u8>, i: usize) -> (e: usize)
    requires
        i <= src@.len(),
    ensures
        e == line_end(src@, i as int),
{
    let mut j: usize = i;
    while j < src.len() && src[j] != 0x0a
        invariant
            i <= j <= src@.len(),
            line_end(src@, j as int) == line_end(src@, i as int),
        decreases src@.len() - j,
    {
        j = j + 1;
    }
    j
}

/// Finds the closing quote `q` from `i` on, counting the newlines passed.
fn skip_quoted(src: &Vec<u8>, i: usize, q: u8, line: usize) -> (r: (usize, usize))
    requires
        i <= src@.len(),
        line + src@.len() - i <= usize::MAX,
    ensures
        r.0 == quote_end(src@, i as int, q),
        r.1 == line + newlines(src@, i as int, r.0 as int),
{
    let mut j: usize = i;
    let mut l: usize = line;
    while j < src.len() && src[j] != q
        invariant
            i <= j <= src@.len(),
            line + src@.len() - i <= usize::MAX,
            quote_end(src@, j as int, q) == quote_end(src@, i as int, q),
            l == line + newlines(src@, i as int, j as int),
            l <= line + (j - i),
        decreases src@.len() - j,
    {
        if src[j] == 0x0a {
            l = l + 1;
        }
        j = j + 1;
    }
    (j, l)
}

/// Exec form of [`Scan`].
enum Step {
    Skip { pos: usize, line: usize, col: i64 },
    Emit { tok: Token, pos: usize, line: usize, col: i64 },
    Fail(Error),
}

spec fn step_view(s: Step) -> Scan {
    match s {
        Step::Skip { pos, line, col } => Scan::Skip { pos: pos as int, line: line as int, col: col as int },
        Step::Emit { tok, pos, line, col } => Scan::Emit { tok: tok@, pos: pos as int, line: line as int, col: col as int },
        Step::Fail(e) => Scan::Fail(e@),
    }
}

fn emit_token(src: &Vec<u8>, kind: TokenType, start: usize, end: usize, literal: Option<Literal>, line: usize, col: i64) -> (r: Step)
    requires
        start <= end <= src@.len(),
    ensures
        step_view(r) == emit(kind, src@.subrange(start as int, end as int), literal_view(literal), end as int, line as int, col as int),
{
    let tok = Token { toktype: kind, lexing: copy_range(src, start, end), literal, line, col };
    Step::Emit { tok, pos: end, line, col }
}

fn scan_at(src: &Vec<u8>, pos: usize, line: usize, col: i64) -> (r: Step)
    requires
        pos < src@.len(),
        src@.len() < i64::MAX,
        src@.len() < usize::MAX,
        1 <= line <= pos + 1,
        -1 <= col < pos,
    ensures
        step_view(r) == scan(src@, pos as int, line as int, col as int),
{
    proof {
        lemma_scan_advances(src@, pos as int, line as int, col as int);
        lemma_digits_end(src@, pos + 1);
        lemma_alnum_end(src@, pos + 1);
        lemma_quote_end(src@, pos + 1, src@[pos as int]);
        lemma_newlines(src@, pos + 1, quote_end(src@, pos + 1, src@[pos as int]));
    }
    let c = src[pos];
    if let Some(k) = single_char(c) {
        return emit_token(src, k, pos, pos + 1, None, line, col + 1);
    }
    if let Some((second, two, one)) = pair(c) {
        if pos + 1 < src.len() && src[pos + 1] == second {
            return emit_token(src, two, pos, pos + 2, None, line, col + 2);
        } else {
            return emit_token(src, one, pos, pos + 1, None, line, col + 1);
        }
    }
    if c == 0x2f {
        if pos + 1 < src.len() && src[pos + 1] == 0x2f {
            proof {
                lemma_line_end(src@, pos + 2);
            }
            let e = skip_line(src, pos + 2);
            return Step::Skip { pos: e, line, col: col + (e - pos) as i64 };
        } else {
            return emit_token(src, TokenType::Slash, pos, pos + 1, None, line, col + 1);
        }
    }
    if c == 0x20 || c == 0x0d || c == 0x09 {
        return Step::Skip { pos: pos + 1, line, col: col + 1 };
    }
    if c == 0x0a {
        return Step::Skip { pos: pos + 1, line: line + 1, col: 0 };
    }
    if c == 0x22 || c == 0x27 {
        let (e, l) = skip_quoted(src, pos + 1, c, line);
        if e >= src.len() {
            return Step::Fail(Error { what: LexErrorKind::UnterminatedString, line: l, col: col + (e - pos) as i64 });
        }
        let content = copy_range(src, pos + 1, e);
        return emit_token(src, TokenType::String, pos, e + 1, Some(Literal::Str(content)), l, col + (e + 1 - pos) as i64);
    }
    if digit(c) {
        let a = skip_digits(src, pos + 1);
        let e = if a + 1 < src.len() && src[a] == 0x2e && digit(src[a + 1]) {
            proof {
                lemma_digits_end(src@, a + 1);
            }
            skip_digits(src, a + 1)
        } else {
            a
        };
        let digits = copy_range(src, pos, e);
        return emit_token(src, TokenType::Number, pos, e, Some(Literal::Number(digits)), line, col + (e - pos) as i64);
    }
    if alpha(c) {
        let e = skip_alnum(src, pos + 1);
        let word = copy_range(src, pos, e);
        match keyword(&word) {
            Some(k) => {
                return emit_token(src, k, pos, e, None, line, col + (e - pos) as i64);
            },
            None => {
                return emit_token(src, TokenType::Identifier, pos, e, Some(Literal::Identifier(word)), line, col + (e - pos) as i64);
            },
        }
    }
    Step::Fail(Error { what: LexErrorKind::UnexpectedChar(c), line, col: col + 1 })
}

/// Splits `src` into tokens, ending with one end-of-input token, or returns
/// the first lexical error.
pub fn tokenize(src: &Vec<u8>) -> (r: Result<Vec<Token>, Error>)
    requires
        src@.len() < i64::MAX,
        src@.len() < usize::MAX,
    ensures
        lex_result_view(r) == tokenize_spec(src@),
{
    let mut tokens: Vec<Token> = Vec::new();
    let mut pos: usize = 0;
    let mut line: usize = 1;
    let mut col: i64 = -1;
    assert(tokens_view(tokens@) =~= Seq::<TokenView>::empty());
    assert(after(Seq::empty(), lex_from(src@, 0, 1, -1)) == lex_from(src@, 0, 1, -1)) by {
        match lex_from(src@, 0, 1, -1) {
            Ok(ts) => {
                assert(Seq::<TokenView>::empty() + ts =~= ts);
            },
            Err(_) => {},
        }
    }
    while pos < src.len()
        invariant
            pos <= src@.len(),
            src@.len() < i64::MAX,
            src@.len() < usize::MAX,
            1 <= line <= pos + 1,
            -1 <= col < pos,
            tokenize_spec(src@) == after(tokens_view(tokens@), lex_from(src@, pos as int, line as int, col as int)),
        decreases src@.len() - pos,
    {
        proof {
            lemma_scan_advances(src@, pos as int, line as int, col as int);
        }
        let step = scan_at(src, pos, line, col);
        match step {
            Step::Skip { pos: p, line: l, col: c } => {
                pos = p;
                line = l;
                col = c;
            },
            Step::Emit { tok, pos: p, line: l, col: c } => {
                let ghost old_view = tokens_view(tokens@);
                let ghost rest = lex_from(src@, p as int, l as int, c as int);
                let ghost t = tok@;
                tokens.push(tok);
                assert(tokens_view(tokens@) =~= old_view + seq![t]);
                assert(after(old_view, after(seq![t], rest)) == after(old_view + seq![t], rest)) by {
                    match rest {
                        Ok(ts) => {
                            assert(old_view + (seq![t] + ts) =~= old_view + seq![t] + ts);
                        },
                        Err(_) => {},
                    }
                }
                pos = p;
                line = l;
                col = c;
            },
            Step::Fail(e) => {
                return Err(e);
            },
        }
    }
    let ghost before = tokens_view(tokens@);
    tokens.push(Token { toktype: TokenType::Eof, lexing: Vec::new(), literal: None, line, col });
    assert(tokens_view(tokens@) =~= before + seq![eof_view(line as int, col as int)]);
    Ok(tokens)
}

/// Splits the text `input` into tokens, as [`tokenize`] does on its bytes.
pub fn check_tokens(input: String) -> (r: Result<Vec<Token>, Error>)
    requires
        encode_utf8(input@).len() < i64::MAX,
        encode_utf8(input@).len() < usize::MAX,
    ensures
        lex_result_view(r) == tokenize_spec(encode_utf8(input@)),
{
    let bytes = input.as_str().as_bytes_vec();
    tokenize(&bytes)
}

} // verus!
