//! Tokens and the lexer. `tokenize` turns source text into a flat sequence of
//! tagged tokens, each annotated with its 1-based source line. Its behaviour
//! is pinned by the recursive specification `spec_tokenize`.

use vstd::prelude::*;
use crate::errors::CompileError;

verus! {

/// The type a literal or a return type names: `i32` or `bool`.
#[derive(Debug, Clone, Copy, PartialEq, Eq, Structural)]
pub enum LitKind {
    Integer,
    Bool,
}

/// One lexical token. Integer literals keep their digits as text; the code
/// generator copies them into the emitted assembly unparsed.
#[derive(Debug, PartialEq)]
pub enum Token {
    Let,
    Return,
    If,
    Else,
    ElseIf,
    FuncSig,
    IntLiteral(String),
    BooleanLiteral(bool),
    Ident(String),
    LitType(LitKind),
    SemiColon,
    Equal,
    OpenParen,
    CloseParen,
    OpenBrace,
    CloseBrace,
    ReturnSig,
    Add,
    Subtract,
    Multiply,
    Division,
    Equality,
    And,
    Or,
    GreaterThan,
    LessThan,
    GreaterThanEqual,
    LessThanEqual,
}

/// The mathematical image of a `Token`: text payloads become `Seq<char>`.
pub enum SpecToken {
    Let,
    Return,
    If,
    Else,
    ElseIf,
    FuncSig,
    IntLiteral(Seq<char>),
    BooleanLiteral(bool),
    Ident(Seq<char>),
    LitType(LitKind),
    SemiColon,
    Equal,
    OpenParen,
    CloseParen,
    OpenBrace,
    CloseBrace,
    ReturnSig,
    Add,
    Subtract,
    Multiply,
    Division,
    Equality,
    And,
    Or,
    GreaterThan,
    LessThan,
    GreaterThanEqual,
    LessThanEqual,
}

impl View for Token {
    type V = SpecToken;

    open spec fn view(&self) -> SpecToken {
        match self {
            Token::Let => SpecToken::Let,
            Token::Return => SpecToken::Return,
            Token::If => SpecToken::If,
            Token::Else => SpecToken::Else,
            Token::ElseIf => SpecToken::ElseIf,
            Token::FuncSig => SpecToken::FuncSig,
            Token::IntLiteral(s) => SpecToken::IntLiteral(s@),
            Token::BooleanLiteral(b) => SpecToken::BooleanLiteral(*b),
            Token::Ident(s) => SpecToken::Ident(s@),
            Token::LitType(k) => SpecToken::LitType(*k),
            Token::SemiColon => SpecToken::SemiColon,
            Token::Equal => SpecToken::Equal,
            Token::OpenParen => SpecToken::OpenParen,
            Token::CloseParen => SpecToken::CloseParen,
            Token::OpenBrace => SpecToken::OpenBrace,
            Token::CloseBrace => SpecToken::CloseBrace,
            Token::ReturnSig => SpecToken::ReturnSig,
            Token::Add => SpecToken::Add,
            Token::Subtract => SpecToken::Subtract,
            Token::Multiply => SpecToken::Multiply,
            Token::Division => SpecToken::Division,
            Token::Equality => SpecToken::Equality,
            Token::And => SpecToken::And,
            Token::Or => SpecToken::Or,
            Token::GreaterThan => SpecToken::GreaterThan,
            Token::LessThan => SpecToken::LessThan,
            Token::GreaterThanEqual => SpecToken::GreaterThanEqual,
            Token::LessThanEqual => SpecToken::LessThanEqual,
        }
    }
}

/// A token together with the 1-based source line it starts on.
#[derive(Debug, PartialEq)]
pub struct TokenData {
    pub token: Token,
    pub line: i32,
}

impl Clone for Token {
    fn clone(&self) -> (r: Self)
        ensures
            r == *self,
    {
        match self {
            Token::Let => Token::Let,
            Token::Return => Token::Return,
            Token::If => Token::If,
            Token::Else => Token::Else,
            Token::ElseIf => Token::ElseIf,
            Token::FuncSig => Token::FuncSig,
            Token::IntLiteral(s) => Token::IntLiteral(s.clone()),
            Token::BooleanLiteral(b) => Token::BooleanLiteral(*b),
            Token::Ident(s) => Token::Ident(s.clone()),
            Token::LitType(k) => Token::LitType(*k),
            Token::SemiColon => Token::SemiColon,
            Token::Equal => Token::Equal,
            Token::OpenParen => Token::OpenParen,
            Token::CloseParen => Token::CloseParen,
            Token::OpenBrace => Token::OpenBrace,
            Token::CloseBrace => Token::CloseBrace,
            Token::ReturnSig => Token::ReturnSig,
            Token::Add => Token::Add,
            Token::Subtract => Token::Subtract,
            Token::Multiply => Token::Multiply,
            Token::Division => Token::Division,
            Token::Equality => Token::Equality,
            Token::And => Token::And,
            Token::Or => Token::Or,
            Token::GreaterThan => Token::GreaterThan,
            Token::LessThan => Token::LessThan,
            Token::GreaterThanEqual => Token::GreaterThanEqual,
            Token::LessThanEqual => Token::LessThanEqual,
        }
    }
}

impl Clone for TokenData {
    fn clone(&self) -> (r: Self)
        ensures
            r == *self,
    {
        TokenData { token: self.token.clone(), line: self.line }
    }
}

/// The mathematical image of a `TokenData`.
pub struct SpecTokenData {
    pub token: SpecToken,
    pub line: int,
}

impl View for TokenData {
    type V = SpecTokenData;

    open spec fn view(&self) -> SpecTokenData {
        SpecTokenData { token: self.token@, line: self.line as int }
    }
}

/// The image of a token sequence under the view.
pub open spec fn view_tokens(ts: Seq<TokenData>) -> Seq<SpecTokenData> {
    ts.map_values(|t: TokenData| t@)
}

/// Whether a token is one of the binary operators of the expression grammar.
pub open spec fn spec_is_binary_operator(t: SpecToken) -> bool {
    match t {
        SpecToken::Add | SpecToken::Subtract | SpecToken::Multiply
        | SpecToken::Division | SpecToken::Equality | SpecToken::And
        | SpecToken::Or | SpecToken::GreaterThan | SpecToken::LessThan
        | SpecToken::GreaterThanEqual | SpecToken::LessThanEqual => true,
        _ => false,
    }
}

/// The operator table: `+ - || && > < >= <=` bind at level 1,
/// `* / ==` at level 2. All operators are left-associative.
pub open spec fn spec_binary_precedence(t: SpecToken) -> int {
    match t {
        SpecToken::Multiply | SpecToken::Division | SpecToken::Equality => 2,
        _ => 1,
    }
}

pub(crate) fn is_binary_operator(token: &Token) -> (r: bool)
    ensures
        r == spec_is_binary_operator(token@),
{
    match token {
        Token::Add | Token::Subtract | Token::Multiply | Token::Division
        | Token::Equality | Token::And | Token::Or | Token::GreaterThan
        | Token::LessThan | Token::GreaterThanEqual | Token::LessThanEqual => true,
        _ => false,
    }
}

/// The precedence level a binary operator binds at.
pub fn binary_precendence(token: &Token) -> (r: i8)
    requires
        spec_is_binary_operator(token@),
    ensures
        r as int == spec_binary_precedence(token@),
        1 <= r <= 2,
{
    match token {
        Token::Multiply | Token::Division | Token::Equality => 2,
        _ => 1,
    }
}

/// Whether a character has the Unicode alphabetic property — what may
/// start an identifier or keyword run. The result depends on the character
/// alone; it is named rather than written out, since the property is a
/// table of the Unicode database.
pub uninterp spec fn char_is_alpha(c: char) -> bool;

/// Whether a character is Unicode whitespace. The result depends on the
/// character alone.
pub uninterp spec fn char_is_white(c: char) -> bool;

/// Relies on char::is_alphabetic: true exactly for characters with the
/// Unicode alphabetic property.
#[verifier::external_body]
fn is_alphabetic_char(c: char) -> (r: bool)
    ensures
        r == char_is_alpha(c),
{
    c.is_alphabetic()
}

/// Relies on char::is_whitespace: true exactly for characters with the
/// Unicode whitespace property.
#[verifier::external_body]
fn is_whitespace_char(c: char) -> (r: bool)
    ensures
        r == char_is_white(c),
{
    c.is_whitespace()
}

/// An ASCII letter; with ASCII digits, what may continue an identifier or
/// keyword run.
pub open spec fn is_letter(c: char) -> bool {
    (97 <= c as u32 && c as u32 <= 122) || (65 <= c as u32 && c as u32 <= 90)
}

/// An ASCII decimal digit.
pub open spec fn is_digit(c: char) -> bool {
    48 <= c as u32 && c as u32 <= 57
}

/// A character that may continue an identifier or keyword run: ASCII
/// letters and digits only, as in the scanner's run rule.
pub open spec fn is_word_char(c: char) -> bool {
    is_letter(c) || is_digit(c)
}

/// The index at which a run of word characters starting at `i` ends.
pub open spec fn word_end(s: Seq<char>, i: int) -> int
    decreases s.len() - i,
{
    if i < s.len() && is_word_char(s[i]) {
        word_end(s, i + 1)
    } else {
        i
    }
}

/// The index at which a run of digits starting at `i` ends.
pub open spec fn digit_end(s: Seq<char>, i: int) -> int
    decreases s.len() - i,
{
    if i < s.len() && is_digit(s[i]) {
        digit_end(s, i + 1)
    } else {
        i
    }
}

/// The index of the newline that ends a line comment scanned from `i`, or
/// the end of the input. The newline itself is not part of the comment.
pub open spec fn line_comment_end(s: Seq<char>, i: int) -> int
    decreases s.len() - i,
{
    if i < s.len() && s[i] != '\n' {
        line_comment_end(s, i + 1)
    } else {
        i
    }
}

/// The index just after the `*/` that closes a block comment scanned from
/// `i`. An unterminated comment swallows the rest of the input, so the
/// result may exceed the length by up to two.
pub open spec fn block_comment_end(s: Seq<char>, i: int) -> int
    decreases s.len() - i,
{
    if i < s.len() && !(s[i] == '*' && i + 1 < s.len() && s[i + 1] == '/') {
        block_comment_end(s, i + 1)
    } else {
        i + 2
    }
}

pub proof fn lemma_word_end_bounds(s: Seq<char>, i: int)
    requires
        0 <= i <= s.len(),
    ensures
        i <= word_end(s, i) <= s.len(),
    decreases s.len() - i,
{
    if i < s.len() && is_word_char(s[i]) {
        lemma_word_end_bounds(s, i + 1);
    }
}

pub proof fn lemma_digit_end_bounds(s: Seq<char>, i: int)
    requires
        0 <= i <= s.len(),
    ensures
        i <= digit_end(s, i) <= s.len(),
    decreases s.len() - i,
{
    if i < s.len() && is_digit(s[i]) {
        lemma_digit_end_bounds(s, i + 1);
    }
}

pub proof fn lemma_line_comment_end_bounds(s: Seq<char>, i: int)
    requires
        0 <= i <= s.len(),
    ensures
        i <= line_comment_end(s, i) <= s.len(),
    decreases s.len() - i,
{
    if i < s.len() && s[i] != '\n' {
        lemma_line_comment_end_bounds(s, i + 1);
    }
}

pub proof fn lemma_block_comment_end_bounds(s: Seq<char>, i: int)
    requires
        0 <= i <= s.len(),
    ensures
        i + 2 <= block_comment_end(s, i) <= s.len() + 2,
    decreases s.len() - i,
{
    if i < s.len() && !(s[i] == '*' && i + 1 < s.len() && s[i + 1] == '/') {
        lemma_block_comment_end_bounds(s, i + 1);
    }
}

/// A token paired with its line, as `spec_tokenize_from` accumulates them.
pub open spec fn td(t: SpecToken, line: int) -> SpecTokenData {
    SpecTokenData { token: t, line }
}

/// The tokens after a completed word run `w`. Keywords map to their token;
/// `true` and `false` become boolean literals; an `if` directly after an
/// `Else` token replaces that `Else` by a single `ElseIf`; everything else
/// is an identifier.
pub open spec fn word_tokens(acc: Seq<SpecTokenData>, w: Seq<char>, line: int) -> Seq<SpecTokenData> {
    if w == "let"@ {
        acc.push(td(SpecToken::Let, line))
    } else if w == "return"@ {
        acc.push(td(SpecToken::Return, line))
    } else if w == "if"@ {
        if acc.len() > 0 && acc.last().token is Else {
            acc.drop_last().push(td(SpecToken::ElseIf, line))
        } else {
            acc.push(td(SpecToken::If, line))
        }
    } else if w == "else"@ {
        acc.push(td(SpecToken::Else, line))
    } else if w == "i32"@ {
        acc.push(td(SpecToken::LitType(LitKind::Integer), line))
    } else if w == "bool"@ {
        acc.push(td(SpecToken::LitType(LitKind::Bool), line))
    } else if w == "fn"@ {
        acc.push(td(SpecToken::FuncSig, line))
    } else if w == "true"@ {
        acc.push(td(SpecToken::BooleanLiteral(true), line))
    } else if w == "false"@ {
        acc.push(td(SpecToken::BooleanLiteral(false), line))
    } else {
        acc.push(td(SpecToken::Ident(w), line))
    }
}

/// What the lexer produces from `s` onward, given the current line number
/// and the tokens accumulated so far: the remaining tokens, or the line of
/// the first character that starts no token. Two-character operators and
/// comment openers are tried before their single-character prefixes.
pub open spec fn spec_tokenize_from(
    s: Seq<char>,
    i: int,
    line: int,
    acc: Seq<SpecTokenData>,
) -> Result<Seq<SpecTokenData>, int>
    decreases s.len() - i,
    via spec_tokenize_from_dec
{
    if i < 0 || i >= s.len() {
        Ok(acc)
    } else {
        let c = s[i];
        if char_is_alpha(c) {
            let j = word_end(s, i + 1);
            spec_tokenize_from(s, j, line, word_tokens(acc, s.subrange(i, j), line))
        } else if is_digit(c) {
            let j = digit_end(s, i + 1);
            spec_tokenize_from(s, j, line,
                acc.push(td(SpecToken::IntLiteral(s.subrange(i, j)), line)))
        } else if c == '<' && i + 1 < s.len() && s[i + 1] == '=' {
            spec_tokenize_from(s, i + 2, line, acc.push(td(SpecToken::LessThanEqual, line)))
        } else if c == '<' {
            spec_tokenize_from(s, i + 1, line, acc.push(td(SpecToken::LessThan, line)))
        } else if c == '>' && i + 1 < s.len() && s[i + 1] == '=' {
            spec_tokenize_from(s, i + 2, line, acc.push(td(SpecToken::GreaterThanEqual, line)))
        } else if c == '>' {
            spec_tokenize_from(s, i + 1, line, acc.push(td(SpecToken::GreaterThan, line)))
        } else if c == '-' && i + 1 < s.len() && s[i + 1] == '>' {
            spec_tokenize_from(s, i + 2, line, acc.push(td(SpecToken::ReturnSig, line)))
        } else if c == '/' && i + 1 < s.len() && s[i + 1] == '/' {
            spec_tokenize_from(s, line_comment_end(s, i + 2), line, acc)
        } else if c == '=' && i + 1 < s.len() && s[i + 1] == '=' {
            spec_tokenize_from(s, i + 2, line, acc.push(td(SpecToken::Equality, line)))
        } else if c == '|' && i + 1 < s.len() && s[i + 1] == '|' {
            spec_tokenize_from(s, i + 2, line, acc.push(td(SpecToken::Or, line)))
        } else if c == '&' && i + 1 < s.len() && s[i + 1] == '&' {
            spec_tokenize_from(s, i + 2, line, acc.push(td(SpecToken::And, line)))
        } else if c == '/' && i + 1 < s.len() && s[i + 1] == '*' {
            let j = block_comment_end(s, i + 2);
            spec_tokenize_from(s, if j > s.len() { s.len() as int } else { j }, line, acc)
        } else if c == '=' {
            spec_tokenize_from(s, i + 1, line, acc.push(td(SpecToken::Equal, line)))
        } else if c == ';' {
            spec_tokenize_from(s, i + 1, line, acc.push(td(SpecToken::SemiColon, line)))
        } else if c == '(' {
            spec_tokenize_from(s, i + 1, line, acc.push(td(SpecToken::OpenParen, line)))
        } else if c == ')' {
            spec_tokenize_from(s, i + 1, line, acc.push(td(SpecToken::CloseParen, line)))
        } else if c == '+' {
            spec_tokenize_from(s, i + 1, line, acc.push(td(SpecToken::Add, line)))
        } else if c == '-' {
            spec_tokenize_from(s, i + 1, line, acc.push(td(SpecToken::Subtract, line)))
        } else if c == '/' {
            spec_tokenize_from(s, i + 1, line, acc.push(td(SpecToken::Division, line)))
        } else if c == '*' {
            spec_tokenize_from(s, i + 1, line, acc.push(td(SpecToken::Multiply, line)))
        } else if c == '{' {
            spec_tokenize_from(s, i + 1, line, acc.push(td(SpecToken::OpenBrace, line)))
        } else if c == '}' {
            spec_tokenize_from(s, i + 1, line, acc.push(td(SpecToken::CloseBrace, line)))
        } else if c == '\n' {
            spec_tokenize_from(s, i + 1, line + 1, acc)
        } else if char_is_white(c) {
            spec_tokenize_from(s, i + 1, line, acc)
        } else {
            Err(line)
        }
    }
}

#[via_fn]
proof fn spec_tokenize_from_dec(s: Seq<char>, i: int, line: int, acc: Seq<SpecTokenData>) {
    if 0 <= i < s.len() {
        lemma_word_end_bounds(s, i + 1);
        lemma_digit_end_bounds(s, i + 1);
        if i + 2 <= s.len() {
            lemma_line_comment_end_bounds(s, i + 2);
            lemma_block_comment_end_bounds(s, i + 2);
        }
    }
}

/// The full lexing of `s`: tokens from the start, line counter 1, nothing
/// accumulated.
pub open spec fn spec_tokenize(s: Seq<char>) -> Result<Seq<SpecTokenData>, int> {
    spec_tokenize_from(s, 0, 1, Seq::empty())
}

pub proof fn lemma_view_tokens_push(ts: Seq<TokenData>, t: TokenData)
    ensures
        view_tokens(ts.push(t)) == view_tokens(ts).push(t@),
{
    assert(view_tokens(ts.push(t)) =~= view_tokens(ts).push(t@));
}

pub proof fn lemma_view_tokens_drop_last(ts: Seq<TokenData>)
    requires
        ts.len() > 0,
    ensures
        view_tokens(ts.drop_last()) == view_tokens(ts).drop_last(),
{
    assert(view_tokens(ts.drop_last()) =~= view_tokens(ts).drop_last());
}

/// Whether two tokens are the same token, payloads included.
pub fn token_matches(a: &Token, b: &Token) -> (r: bool)
    ensures
        r == (a@ == b@),
{
    match (a, b) {
        (Token::Let, Token::Let) => true,
        (Token::Return, Token::Return) => true,
        (Token::If, Token::If) => true,
        (Token::Else, Token::Else) => true,
        (Token::ElseIf, Token::ElseIf) => true,
        (Token::FuncSig, Token::FuncSig) => true,
        (Token::IntLiteral(x), Token::IntLiteral(y)) => *x == *y,
        (Token::BooleanLiteral(x), Token::BooleanLiteral(y)) => *x == *y,
        (Token::Ident(x), Token::Ident(y)) => *x == *y,
        (Token::LitType(x), Token::LitType(y)) => *x == *y,
        (Token::SemiColon, Token::SemiColon) => true,
        (Token::Equal, Token::Equal) => true,
        (Token::OpenParen, Token::OpenParen) => true,
        (Token::CloseParen, Token::CloseParen) => true,
        (Token::OpenBrace, Token::OpenBrace) => true,
        (Token::CloseBrace, Token::CloseBrace) => true,
        (Token::ReturnSig, Token::ReturnSig) => true,
        (Token::Add, Token::Add) => true,
        (Token::Subtract, Token::Subtract) => true,
        (Token::Multiply, Token::Multiply) => true,
        (Token::Division, Token::Division) => true,
        (Token::Equality, Token::Equality) => true,
        (Token::And, Token::And) => true,
        (Token::Or, Token::Or) => true,
        (Token::GreaterThan, Token::GreaterThan) => true,
        (Token::LessThan, Token::LessThan) => true,
        (Token::GreaterThanEqual, Token::GreaterThanEqual) => true,
        (Token::LessThanEqual, Token::LessThanEqual) => true,
        _ => false,
    }
}

/// No `If` token directly follows an `Else` token: the lexer collapsed
/// every `else if` pair into a single `ElseIf`.
pub open spec fn no_else_then_if(ts: Seq<SpecTokenData>) -> bool {
    forall|k: int| 1 <= k < ts.len() && (#[trigger] ts[k].token) is If ==> !(ts[k - 1].token is Else)
}

proof fn lemma_no_else_then_if_push(acc: Seq<SpecTokenData>, t: SpecTokenData)
    requires
        no_else_then_if(acc),
        t.token is If ==> !(acc.len() > 0 && acc.last().token is Else),
    ensures
        no_else_then_if(acc.push(t)),
{
    let p = acc.push(t);
    assert forall|k: int| 1 <= k < p.len() && (#[trigger] p[k].token) is If implies !(p[k - 1].token
        is Else) by {
        if k < acc.len() {
            assert(p[k] == acc[k]);
            assert(p[k - 1] == acc[k - 1]);
        } else {
            assert(p[k] == t);
            assert(p[k - 1] == acc[acc.len() - 1]);
        }
    }
}

proof fn lemma_no_else_then_if_drop_last(acc: Seq<SpecTokenData>)
    requires
        no_else_then_if(acc),
        acc.len() > 0,
    ensures
        no_else_then_if(acc.drop_last()),
{
    let d = acc.drop_last();
    assert forall|k: int| 1 <= k < d.len() && (#[trigger] d[k].token) is If implies !(d[k - 1].token
        is Else) by {
        assert(d[k] == acc[k]);
        assert(d[k - 1] == acc[k - 1]);
    }
}

proof fn lemma_word_tokens_no_else_then_if(acc: Seq<SpecTokenData>, w: Seq<char>, line: int)
    requires
        no_else_then_if(acc),
    ensures
        no_else_then_if(word_tokens(acc, w, line)),
{
    if w == "if"@ && acc.len() > 0 && acc.last().token is Else {
        lemma_no_else_then_if_drop_last(acc);
        lemma_no_else_then_if_push(acc.drop_last(), td(SpecToken::ElseIf, line));
    } else if w == "if"@ {
        lemma_no_else_then_if_push(acc, td(SpecToken::If, line));
    } else if w == "let"@ {
        lemma_no_else_then_if_push(acc, td(SpecToken::Let, line));
    } else if w == "return"@ {
        lemma_no_else_then_if_push(acc, td(SpecToken::Return, line));
    } else if w == "else"@ {
        lemma_no_else_then_if_push(acc, td(SpecToken::Else, line));
    } else if w == "i32"@ {
        lemma_no_else_then_if_push(acc, td(SpecToken::LitType(LitKind::Integer), line));
    } else if w == "bool"@ {
        lemma_no_else_then_if_push(acc, td(SpecToken::LitType(LitKind::Bool), line));
    } else if w == "fn"@ {
        lemma_no_else_then_if_push(acc, td(SpecToken::FuncSig, line));
    } else if w == "true"@ {
        lemma_no_else_then_if_push(acc, td(SpecToken::BooleanLiteral(true), line));
    } else if w == "false"@ {
        lemma_no_else_then_if_push(acc, td(SpecToken::BooleanLiteral(false), line));
    } else {
        lemma_no_else_then_if_push(acc, td(SpecToken::Ident(w), line));
    }
}

proof fn lemma_tokenize_from_no_else_then_if(
    s: Seq<char>,
    i: int,
    line: int,
    acc: Seq<SpecTokenData>,
)
    requires
        0 <= i,
        no_else_then_if(acc),
    ensures
        spec_tokenize_from(s, i, line, acc) matches Ok(toks) ==> no_else_then_if(toks),
    decreases s.len() - i,
{
    if i >= s.len() {
    } else {
        let c = s[i];
        if char_is_alpha(c) {
            lemma_word_end_bounds(s, i + 1);
            let j = word_end(s, i + 1);
            lemma_word_tokens_no_else_then_if(acc, s.subrange(i, j), line);
            lemma_tokenize_from_no_else_then_if(s, j, line, word_tokens(acc, s.subrange(i, j), line));
        } else if is_digit(c) {
            lemma_digit_end_bounds(s, i + 1);
            let j = digit_end(s, i + 1);
            let t = td(SpecToken::IntLiteral(s.subrange(i, j)), line);
            lemma_no_else_then_if_push(acc, t);
            lemma_tokenize_from_no_else_then_if(s, j, line, acc.push(t));
        } else if c == '<' && i + 1 < s.len() && s[i + 1] == '=' {
            lemma_no_else_then_if_push(acc, td(SpecToken::LessThanEqual, line));
            lemma_tokenize_from_no_else_then_if(s, i + 2, line, acc.push(td(SpecToken::LessThanEqual, line)));
        } else if c == '<' {
            lemma_no_else_then_if_push(acc, td(SpecToken::LessThan, line));
            lemma_tokenize_from_no_else_then_if(s, i + 1, line, acc.push(td(SpecToken::LessThan, line)));
        } else if c == '>' && i + 1 < s.len() && s[i + 1] == '=' {
            lemma_no_else_then_if_push(acc, td(SpecToken::GreaterThanEqual, line));
            lemma_tokenize_from_no_else_then_if(s, i + 2, line, acc.push(td(SpecToken::GreaterThanEqual, line)));
        } else if c == '>' {
            lemma_no_else_then_if_push(acc, td(SpecToken::GreaterThan, line));
            lemma_tokenize_from_no_else_then_if(s, i + 1, line, acc.push(td(SpecToken::GreaterThan, line)));
        } else if c == '-' && i + 1 < s.len() && s[i + 1] == '>' {
            lemma_no_else_then_if_push(acc, td(SpecToken::ReturnSig, line));
            lemma_tokenize_from_no_else_then_if(s, i + 2, line, acc.push(td(SpecToken::ReturnSig, line)));
        } else if c == '/' && i + 1 < s.len() && s[i + 1] == '/' {
            lemma_line_comment_end_bounds(s, i + 2);
            lemma_tokenize_from_no_else_then_if(s, line_comment_end(s, i + 2), line, acc);
        } else if c == '=' && i + 1 < s.len() && s[i + 1] == '=' {
            lemma_no_else_then_if_push(acc, td(SpecToken::Equality, line));
            lemma_tokenize_from_no_else_then_if(s, i + 2, line, acc.push(td(SpecToken::Equality, line)));
        } else if c == '|' && i + 1 < s.len() && s[i + 1] == '|' {
            lemma_no_else_then_if_push(acc, td(SpecToken::Or, line));
            lemma_tokenize_from_no_else_then_if(s, i + 2, line, acc.push(td(SpecToken::Or, line)));
        } else if c == '&' && i + 1 < s.len() && s[i + 1] == '&' {
            lemma_no_else_then_if_push(acc, td(SpecToken::And, line));
            lemma_tokenize_from_no_else_then_if(s, i + 2, line, acc.push(td(SpecToken::And, line)));
        } else if c == '/' && i + 1 < s.len() && s[i + 1] == '*' {
            lemma_block_comment_end_bounds(s, i + 2);
            let j = block_comment_end(s, i + 2);
            let next = if j > s.len() { s.len() as int } else { j };
            lemma_tokenize_from_no_else_then_if(s, next, line, acc);
        } else if c == '=' {
            lemma_no_else_then_if_push(acc, td(SpecToken::Equal, line));
            lemma_tokenize_from_no_else_then_if(s, i + 1, line, acc.push(td(SpecToken::Equal, line)));
        } else if c == ';' {
            lemma_no_else_then_if_push(acc, td(SpecToken::SemiColon, line));
            lemma_tokenize_from_no_else_then_if(s, i + 1, line, acc.push(td(SpecToken::SemiColon, line)));
        } else if c == '(' {
            lemma_no_else_then_if_push(acc, td(SpecToken::OpenParen, line));
            lemma_tokenize_from_no_else_then_if(s, i + 1, line, acc.push(td(SpecToken::OpenParen, line)));
        } else if c == ')' {
            lemma_no_else_then_if_push(acc, td(SpecToken::CloseParen, line));
            lemma_tokenize_from_no_else_then_if(s, i + 1, line, acc.push(td(SpecToken::CloseParen, line)));
        } else if c == '+' {
            lemma_no_else_then_if_push(acc, td(SpecToken::Add, line));
            lemma_tokenize_from_no_else_then_if(s, i + 1, line, acc.push(td(SpecToken::Add, line)));
        } else if c == '-' {
            lemma_no_else_then_if_push(acc, td(SpecToken::Subtract, line));
            lemma_tokenize_from_no_else_then_if(s, i + 1, line, acc.push(td(SpecToken::Subtract, line)));
        } else if c == '/' {
            lemma_no_else_then_if_push(acc, td(SpecToken::Division, line));
            lemma_tokenize_from_no_else_then_if(s, i + 1, line, acc.push(td(SpecToken::Division, line)));
        } else if c == '*' {
            lemma_no_else_then_if_push(acc, td(SpecToken::Multiply, line));
            lemma_tokenize_from_no_else_then_if(s, i + 1, line, acc.push(td(SpecToken::Multiply, line)));
        } else if c == '{' {
            lemma_no_else_then_if_push(acc, td(SpecToken::OpenBrace, line));
            lemma_tokenize_from_no_else_then_if(s, i + 1, line, acc.push(td(SpecToken::OpenBrace, line)));
        } else if c == '}' {
            lemma_no_else_then_if_push(acc, td(SpecToken::CloseBrace, line));
            lemma_tokenize_from_no_else_then_if(s, i + 1, line, acc.push(td(SpecToken::CloseBrace, line)));
        } else if c == '\n' {
            lemma_tokenize_from_no_else_then_if(s, i + 1, line + 1, acc);
        } else if char_is_white(c) {
            lemma_tokenize_from_no_else_then_if(s, i + 1, line, acc);
        } else {
        }
    }
}

/// Else-if collapse: in every token stream the lexer accepts, no `If` token
/// stands directly after an `Else` token — the pair was fused into `ElseIf`.
pub proof fn lemma_else_if_collapse(s: Seq<char>)
    ensures
        spec_tokenize(s) matches Ok(toks) ==> no_else_then_if(toks),
{
    assert(no_else_then_if(Seq::<SpecTokenData>::empty()));
    lemma_tokenize_from_no_else_then_if(s, 0, 1, Seq::empty());
}

fn char_is_letter(c: char) -> (r: bool)
    ensures
        r == is_letter(c),
{
    let u = c as u32;
    (97 <= u && u <= 122) || (65 <= u && u <= 90)
}

fn char_is_digit(c: char) -> (r: bool)
    ensures
        r == is_digit(c),
{
    let u = c as u32;
    48 <= u && u <= 57
}

fn char_is_word(c: char) -> (r: bool)
    ensures
        r == is_word_char(c),
{
    char_is_letter(c) || char_is_digit(c)
}

/// Whether the character at `offset` exists and is `identifier`.
pub(crate) fn peek(chars: &Vec<char>, identifier: char, offset: usize) -> (r: bool)
    ensures
        r == (offset < chars@.len() && chars@[offset as int] == identifier),
{
    if offset < chars.len() {
        chars[offset] == identifier
    } else {
        false
    }
}

/// The characters of `content`, in order.
fn chars_of(content: &str) -> (r: Vec<char>)
    ensures
        r@ == content@,
{
    let n = content.unicode_len();
    let mut v: Vec<char> = Vec::new();
    let mut k: usize = 0;
    while k < n
        invariant
            k <= n,
            n == content@.len(),
            v@ == content@.subrange(0, k as int),
        decreases n - k,
    {
        let c = content.get_char(k);
        v.push(c);
        proof {
            assert(v@ =~= content@.subrange(0, k + 1 as int));
        }
        k += 1;
    }
    proof {
        assert(v@ =~= content@);
    }
    v
}

fn scan_word_end(chars: &Vec<char>, start: usize) -> (j: usize)
    requires
        start <= chars@.len(),
    ensures
        j as int == word_end(chars@, start as int),
        start <= j <= chars@.len(),
{
    let n = chars.len();
    let mut j = start;
    while j < n
        invariant
            start <= j <= n,
            n == chars@.len(),
            word_end(chars@, start as int) == word_end(chars@, j as int),
        decreases n - j,
    {
        if !char_is_word(chars[j]) {
            return j;
        }
        proof {
            assert(word_end(chars@, j as int) == word_end(chars@, j + 1 as int));
        }
        j += 1;
    }
    j
}

fn scan_digit_end(chars: &Vec<char>, start: usize) -> (j: usize)
    requires
        start <= chars@.len(),
    ensures
        j as int == digit_end(chars@, start as int),
        start <= j <= chars@.len(),
{
    let n = chars.len();
    let mut j = start;
    while j < n
        invariant
            start <= j <= n,
            n == chars@.len(),
            digit_end(chars@, start as int) == digit_end(chars@, j as int),
        decreases n - j,
    {
        if !char_is_digit(chars[j]) {
            return j;
        }
        proof {
            assert(digit_end(chars@, j as int) == digit_end(chars@, j + 1 as int));
        }
        j += 1;
    }
    j
}

fn scan_line_comment_end(chars: &Vec<char>, start: usize) -> (j: usize)
    requires
        start <= chars@.len(),
    ensures
        j as int == line_comment_end(chars@, start as int),
        start <= j <= chars@.len(),
{
    let n = chars.len();
    let mut j = start;
    while j < n
        invariant
            start <= j <= n,
            n == chars@.len(),
            line_comment_end(chars@, start as int) == line_comment_end(chars@, j as int),
        decreases n - j,
    {
        if chars[j] == '\n' {
            return j;
        }
        proof {
            assert(line_comment_end(chars@, j as int) == line_comment_end(chars@, j + 1 as int));
        }
        j += 1;
    }
    j
}

/// The index where a block comment scan stops: at the `*` of the closing
/// `*/`, or at the end of the input when the comment is unterminated.
fn scan_block_comment_stop(chars: &Vec<char>, start: usize) -> (j: usize)
    requires
        start <= chars@.len(),
    ensures
        j as int + 2 == block_comment_end(chars@, start as int),
        start <= j <= chars@.len(),
{
    let n = chars.len();
    let mut j = start;
    while j < n
        invariant
            start <= j <= n,
            n == chars@.len(),
            block_comment_end(chars@, start as int) == block_comment_end(chars@, j as int),
        decreases n - j,
    {
        if chars[j] == '*' && peek(chars, '/', j + 1) {
            return j;
        }
        proof {
            assert(block_comment_end(chars@, j as int) == block_comment_end(chars@, j + 1 as int));
        }
        j += 1;
    }
    j
}

/// Whether the characters in `[lo, hi)` spell exactly the text of `lit`.
fn range_eq_lit(chars: &Vec<char>, lo: usize, hi: usize, lit: &str) -> (r: bool)
    requires
        lo <= hi <= chars@.len(),
    ensures
        r == (chars@.subrange(lo as int, hi as int) == lit@),
{
    let litlen = lit.unicode_len();
    if hi - lo != litlen {
        return false;
    }
    let mut k: usize = 0;
    while k < litlen
        invariant
            k <= litlen,
            litlen == lit@.len(),
            hi - lo == litlen,
            lo <= hi <= chars@.len(),
            forall|m: int| 0 <= m < k ==> chars@[lo + m] == lit@[m],
        decreases litlen - k,
    {
        if chars[lo + k] != lit.get_char(k) {
            proof {
                assert(chars@.subrange(lo as int, hi as int)[k as int] != lit@[k as int]);
            }
            return false;
        }
        k += 1;
    }
    proof {
        assert(chars@.subrange(lo as int, hi as int) =~= lit@);
    }
    true
}

/// Appends one token at `line` to the stream.
fn push_token(tokens: &mut Vec<TokenData>, token: Token, line: i32)
    ensures
        view_tokens(final(tokens)@) == view_tokens(old(tokens)@).push(td(token@, line as int)),
{
    let ghost tks = tokens@;
    let ghost tk = token@;
    let t = TokenData { token, line };
    tokens.push(t);
    proof {
        lemma_view_tokens_push(tks, t);
        assert(t@ == td(tk, line as int));
    }
}

/// Splits source text into tokens tagged with source lines, exactly as
/// `spec_tokenize` describes, or reports the line of the first character
/// that starts no token.
pub fn tokenize(content: &str) -> (r: Result<Vec<TokenData>, CompileError>)
    requires
        content@.len() < 0x7fff_ffff,
    ensures
        match spec_tokenize(content@) {
            Ok(toks) => r matches Ok(v) && view_tokens(v@) == toks,
            Err(line) => r matches Err(CompileError::InvalidChar { line: l }) && l as int == line,
        },
{
    let chars = chars_of(content);
    let ghost s = content@;
    let n = chars.len();
    let mut tokens: Vec<TokenData> = Vec::new();
    let mut i: usize = 0;
    let mut line: i32 = 1;
    proof {
        assert(view_tokens(tokens@) =~= Seq::<SpecTokenData>::empty());
    }
    while i < n
        invariant
            chars@ == s,
            s == content@,
            n == s.len(),
            i <= n,
            s.len() < 0x7fff_ffff,
            1 <= line as int,
            line as int <= 1 + i as int,
            spec_tokenize(s) == spec_tokenize_from(s, i as int, line as int, view_tokens(tokens@)),
        decreases n - i,
    {
        let c = chars[i];
        let ghost vt = view_tokens(tokens@);
        let ghost li = line as int;
        if is_alphabetic_char(c) {
            let j = scan_word_end(&chars, i + 1);
            let ghost w = s.subrange(i as int, j as int);
            proof {
                assert(spec_tokenize_from(s, i as int, li, vt)
                    == spec_tokenize_from(s, j as int, li, word_tokens(vt, w, li)));
            }
            if range_eq_lit(&chars, i, j, "let") {
                push_token(&mut tokens, Token::Let, line);
            } else if range_eq_lit(&chars, i, j, "return") {
                push_token(&mut tokens, Token::Return, line);
            } else if range_eq_lit(&chars, i, j, "if") {
                let mut collapse = false;
                if tokens.len() > 0 {
                    let prev = &tokens[tokens.len() - 1];
                    if let Token::Else = prev.token {
                        collapse = true;
                    }
                }
                proof {
                    assert(collapse == (vt.len() > 0 && vt.last().token is Else));
                }
                if collapse {
                    let ghost before_pop = tokens@;
                    let _ = tokens.pop();
                    proof {
                        lemma_view_tokens_drop_last(before_pop);
                    }
                    push_token(&mut tokens, Token::ElseIf, line);
                } else {
                    push_token(&mut tokens, Token::If, line);
                }
            } else if range_eq_lit(&chars, i, j, "else") {
                push_token(&mut tokens, Token::Else, line);
            } else if range_eq_lit(&chars, i, j, "i32") {
                push_token(&mut tokens, Token::LitType(LitKind::Integer), line);
            } else if range_eq_lit(&chars, i, j, "bool") {
                push_token(&mut tokens, Token::LitType(LitKind::Bool), line);
            } else if range_eq_lit(&chars, i, j, "fn") {
                push_token(&mut tokens, Token::FuncSig, line);
            } else if range_eq_lit(&chars, i, j, "true") {
                push_token(&mut tokens, Token::BooleanLiteral(true), line);
            } else if range_eq_lit(&chars, i, j, "false") {
                push_token(&mut tokens, Token::BooleanLiteral(false), line);
            } else {
                let text = content.substring_char(i, j).to_owned();
                push_token(&mut tokens, Token::Ident(text), line);
            }
            proof {
                assert(view_tokens(tokens@) == word_tokens(vt, w, li));
            }
            i = j;
        } else if char_is_digit(c) {
            let j = scan_digit_end(&chars, i + 1);
            proof {
                assert(spec_tokenize_from(s, i as int, li, vt) == spec_tokenize_from(
                    s,
                    j as int,
                    li,
                    vt.push(td(SpecToken::IntLiteral(s.subrange(i as int, j as int)), li)),
                ));
            }
            let digits = content.substring_char(i, j).to_owned();
            push_token(&mut tokens, Token::IntLiteral(digits), line);
            i = j;
        } else if c == '<' && peek(&chars, '=', i + 1) {
            push_token(&mut tokens, Token::LessThanEqual, line);
            i = i + 2;
        } else if c == '<' {
            push_token(&mut tokens, Token::LessThan, line);
            i = i + 1;
        } else if c == '>' && peek(&chars, '=', i + 1) {
            push_token(&mut tokens, Token::GreaterThanEqual, line);
            i = i + 2;
        } else if c == '>' {
            push_token(&mut tokens, Token::GreaterThan, line);
            i = i + 1;
        } else if c == '-' && peek(&chars, '>', i + 1) {
            push_token(&mut tokens, Token::ReturnSig, line);
            i = i + 2;
        } else if c == '/' && peek(&chars, '/', i + 1) {
            let j = scan_line_comment_end(&chars, i + 2);
            proof {
                assert(spec_tokenize_from(s, i as int, li, vt)
                    == spec_tokenize_from(s, j as int, li, vt));
            }
            i = j;
        } else if c == '=' && peek(&chars, '=', i + 1) {
            push_token(&mut tokens, Token::Equality, line);
            i = i + 2;
        } else if c == '|' && peek(&chars, '|', i + 1) {
            push_token(&mut tokens, Token::Or, line);
            i = i + 2;
        } else if c == '&' && peek(&chars, '&', i + 1) {
            push_token(&mut tokens, Token::And, line);
            i = i + 2;
        } else if c == '/' && peek(&chars, '*', i + 1) {
            let j = scan_block_comment_stop(&chars, i + 2);
            let next = if j + 2 > n { n } else { j + 2 };
            proof {
                assert(spec_tokenize_from(s, i as int, li, vt)
                    == spec_tokenize_from(s, next as int, li, vt));
            }
            i = next;
        } else if c == '=' {
            push_token(&mut tokens, Token::Equal, line);
            i = i + 1;
        } else if c == ';' {
            push_token(&mut tokens, Token::SemiColon, line);
            i = i + 1;
        } else if c == '(' {
            push_token(&mut tokens, Token::OpenParen, line);
            i = i + 1;
        } else if c == ')' {
            push_token(&mut tokens, Token::CloseParen, line);
            i = i + 1;
        } else if c == '+' {
            push_token(&mut tokens, Token::Add, line);
            i = i + 1;
        } else if c == '-' {
            push_token(&mut tokens, Token::Subtract, line);
            i = i + 1;
        } else if c == '/' {
            push_token(&mut tokens, Token::Division, line);
            i = i + 1;
        } else if c == '*' {
            push_token(&mut tokens, Token::Multiply, line);
            i = i + 1;
        } else if c == '{' {
            push_token(&mut tokens, Token::OpenBrace, line);
            i = i + 1;
        } else if c == '}' {
            push_token(&mut tokens, Token::CloseBrace, line);
            i = i + 1;
        } else if c == '\n' {
            line = line + 1;
            i = i + 1;
        } else if is_whitespace_char(c) {
            i = i + 1;
        } else {
            proof {
                assert(spec_tokenize_from(s, i as int, li, vt) == Err::<Seq<SpecTokenData>, int>(li));
            }
            return Err(CompileError::InvalidChar { line });
        }
    }
    proof {
        assert(spec_tokenize_from(s, i as int, line as int, view_tokens(tokens@))
            == Ok::<Seq<SpecTokenData>, int>(view_tokens(tokens@)));
    }
    Ok(tokens)
}

} // verus!
