//! The abstract syntax tree and the parser. Statements are parsed by
//! recursive descent, expressions by precedence climbing over the operator
//! table in `lexical`. Every parsing method is pinned in both directions by
//! the recursive specification `spec_parse_*`: it succeeds exactly when the
//! specification does, returns the node whose image the specification names,
//! and fails with exactly the specification's diagnostic. Two further spec
//! functions document the result: `unparse_*` flattens a node back to the
//! tokens it was built from, and `expr_respects` states the shape every
//! expression tree owes to the operator table (precedence levels and
//! left-associativity).

use vstd::prelude::*;
use crate::errors::{CompileError, SpecError};
use crate::lexical::{
    binary_precendence, is_binary_operator, spec_binary_precedence, spec_is_binary_operator,
    token_matches, view_tokens, LitKind, SpecToken, SpecTokenData, Token, TokenData,
};

verus! {

/// The root of a parsed program: its functions, in source order.
#[derive(Debug, PartialEq)]
pub struct NodeRoot {
    pub funcs: Vec<NodeFunc>,
}

/// One function: its name, body and declared return type.
#[derive(Debug, PartialEq)]
pub struct NodeFunc {
    pub f_name: String,
    pub stmts: Vec<NodeStmt>,
    pub return_type: Option<LitKind>,
}

impl NodeFunc {
    pub fn new(name: String, stmts: Vec<NodeStmt>, ret_type: Option<LitKind>) -> (r: NodeFunc)
        ensures
            r == (NodeFunc { f_name: name, stmts, return_type: ret_type }),
    {
        NodeFunc { f_name: name, stmts, return_type: ret_type }
    }
}

/// A braced block of statements.
#[derive(Debug, PartialEq)]
pub struct NodeScope(pub Vec<NodeStmt>);

/// One statement. `Let` and `ReAssign` keep the identifier's token so the
/// code generator can report the declaration line in diagnostics.
#[derive(Debug, PartialEq)]
pub enum NodeStmt {
    Let { ident: TokenData, expr: NodeExpr },
    Return { expr: NodeExpr },
    Scope { scope: NodeScope },
    If { expr: NodeExpr, scope: NodeScope, chain: Option<NodeElse> },
    ReAssign { expr: NodeExpr, ident: TokenData },
}

/// The continuation of an `if`: a chained `else if` or a final `else`.
#[derive(Debug, PartialEq)]
pub enum NodeElse {
    ElseIf { expr: NodeExpr, scope: NodeScope, chain: Box<Option<NodeElse>> },
    Else(NodeScope),
}

/// An expression: a binary node, a term, or a zero-argument call.
#[derive(Debug, PartialEq)]
pub enum NodeExpr {
    BinaryExpr(Box<NodeBiExpr>),
    Term(NodeTermExpr),
    Call(String),
}

/// A term of an expression. Integer literals stay as their digit text.
#[derive(Debug, PartialEq)]
pub enum NodeTermExpr {
    IntLiteral(String),
    BooleanLiteral(bool),
    Identifier(String),
    Expression(Box<NodeExpr>),
}

/// A binary node: both operands and the operator between them.
#[derive(Debug, PartialEq)]
pub struct NodeBiExpr {
    pub lhs: NodeExpr,
    pub rhs: NodeExpr,
    pub op: NodeBiOp,
}

/// The binary operators of the language.
#[derive(Debug, Clone, Copy, PartialEq, Eq, Structural)]
pub enum NodeBiOp {
    Add,
    Multiply,
    Subtract,
    Division,
    Equality,
    Or,
    And,
    GreaterThan,
    LessThan,
    LessThanEqual,
    GreaterThanEqual,
}

/// The token an operator was parsed from.
pub open spec fn op_token(op: NodeBiOp) -> SpecToken {
    match op {
        NodeBiOp::Add => SpecToken::Add,
        NodeBiOp::Multiply => SpecToken::Multiply,
        NodeBiOp::Subtract => SpecToken::Subtract,
        NodeBiOp::Division => SpecToken::Division,
        NodeBiOp::Equality => SpecToken::Equality,
        NodeBiOp::Or => SpecToken::Or,
        NodeBiOp::And => SpecToken::And,
        NodeBiOp::GreaterThan => SpecToken::GreaterThan,
        NodeBiOp::LessThan => SpecToken::LessThan,
        NodeBiOp::LessThanEqual => SpecToken::LessThanEqual,
        NodeBiOp::GreaterThanEqual => SpecToken::GreaterThanEqual,
    }
}

/// The precedence level of an operator, per the operator table.
pub open spec fn op_prec(op: NodeBiOp) -> int {
    spec_binary_precedence(op_token(op))
}

pub(crate) fn operator_to_binary_op(token: &Token) -> (r: NodeBiOp)
    requires
        spec_is_binary_operator(token@),
    ensures
        op_token(r) == token@,
        r == token_bi_op(token@),
{
    match token {
        Token::Add => NodeBiOp::Add,
        Token::Multiply => NodeBiOp::Multiply,
        Token::Subtract => NodeBiOp::Subtract,
        Token::Division => NodeBiOp::Division,
        Token::Equality => NodeBiOp::Equality,
        Token::Or => NodeBiOp::Or,
        Token::And => NodeBiOp::And,
        Token::GreaterThan => NodeBiOp::GreaterThan,
        Token::LessThan => NodeBiOp::LessThan,
        Token::GreaterThanEqual => NodeBiOp::GreaterThanEqual,
        _ => NodeBiOp::LessThanEqual,
    }
}

/// The tokens an expression was parsed from, in order.
pub open spec fn unparse_expr(e: NodeExpr) -> Seq<SpecToken>
    decreases e,
{
    match e {
        NodeExpr::BinaryExpr(b) => unparse_expr(b.lhs) + seq![op_token(b.op)] + unparse_expr(b.rhs),
        NodeExpr::Term(t) => unparse_term(t),
        NodeExpr::Call(name) => seq![
            SpecToken::Ident(name@),
            SpecToken::OpenParen,
            SpecToken::CloseParen,
        ],
    }
}

/// The tokens a term was parsed from.
pub open spec fn unparse_term(t: NodeTermExpr) -> Seq<SpecToken>
    decreases t,
{
    match t {
        NodeTermExpr::IntLiteral(s) => seq![SpecToken::IntLiteral(s@)],
        NodeTermExpr::BooleanLiteral(b) => seq![SpecToken::BooleanLiteral(b)],
        NodeTermExpr::Identifier(s) => seq![SpecToken::Ident(s@)],
        NodeTermExpr::Expression(inner) => seq![SpecToken::OpenParen] + unparse_expr(*inner)
            + seq![SpecToken::CloseParen],
    }
}

/// The shape the precedence climb gives a tree parsed with minimum
/// precedence `min`: the operator binds at least at `min`; the left operand
/// has the same shape (the climb extends trees leftward); the right operand
/// was parsed one level tighter, so equal precedence associates to the left;
/// and the climb hands an operator to the node only after the left operand's
/// own parse could not consume it, so a binary left child never binds looser
/// than its parent.
pub open spec fn expr_respects(e: NodeExpr, min: int) -> bool
    decreases e,
{
    match e {
        NodeExpr::BinaryExpr(b) => op_prec(b.op) >= min && expr_respects(b.lhs, min)
            && expr_respects(b.rhs, op_prec(b.op) + 1) && (match b.lhs {
            NodeExpr::BinaryExpr(l) => !(l.rhs is Call) ==> op_prec(b.op) <= op_prec(l.op),
            _ => true,
        }),
        NodeExpr::Term(t) => term_respects(t),
        NodeExpr::Call(_) => true,
    }
}

/// The shape of a term: a parenthesized expression restarts the climb at
/// level 1.
pub open spec fn term_respects(t: NodeTermExpr) -> bool
    decreases t,
{
    match t {
        NodeTermExpr::Expression(inner) => expr_respects(*inner, 1),
        _ => true,
    }
}

/// The tokens a statement was parsed from.
pub open spec fn unparse_stmt(s: NodeStmt) -> Seq<SpecToken>
    decreases s,
{
    match s {
        NodeStmt::Let { ident, expr } => seq![SpecToken::Let, ident.token@, SpecToken::Equal]
            + unparse_expr(expr) + seq![SpecToken::SemiColon],
        NodeStmt::Return { expr } => seq![SpecToken::Return] + unparse_expr(expr)
            + seq![SpecToken::SemiColon],
        NodeStmt::Scope { scope } => seq![SpecToken::OpenBrace] + unparse_stmts(scope.0@)
            + seq![SpecToken::CloseBrace],
        NodeStmt::If { expr, scope, chain } => seq![SpecToken::If, SpecToken::OpenParen]
            + unparse_expr(expr) + seq![SpecToken::CloseParen, SpecToken::OpenBrace]
            + unparse_stmts(scope.0@) + seq![SpecToken::CloseBrace] + unparse_chain(chain),
        NodeStmt::ReAssign { expr, ident } => seq![ident.token@, SpecToken::Equal]
            + unparse_expr(expr) + seq![SpecToken::SemiColon],
    }
}

/// The tokens a statement list was parsed from.
pub open spec fn unparse_stmts(ss: Seq<NodeStmt>) -> Seq<SpecToken>
    decreases ss,
{
    if ss.len() == 0 {
        Seq::empty()
    } else {
        unparse_stmts(ss.drop_last()) + unparse_stmt(ss.last())
    }
}

/// The tokens an optional else-chain was parsed from.
pub open spec fn unparse_chain(chain: Option<NodeElse>) -> Seq<SpecToken>
    decreases chain,
{
    match chain {
        None => Seq::empty(),
        Some(e) => unparse_else(e),
    }
}

/// The tokens an else-chain link was parsed from.
pub open spec fn unparse_else(e: NodeElse) -> Seq<SpecToken>
    decreases e,
{
    match e {
        NodeElse::ElseIf { expr, scope, chain } => seq![SpecToken::ElseIf, SpecToken::OpenParen]
            + unparse_expr(expr) + seq![SpecToken::CloseParen, SpecToken::OpenBrace]
            + unparse_stmts(scope.0@) + seq![SpecToken::CloseBrace] + unparse_chain(*chain),
        NodeElse::Else(scope) => seq![SpecToken::Else, SpecToken::OpenBrace]
            + unparse_stmts(scope.0@) + seq![SpecToken::CloseBrace],
    }
}

/// Every expression inside a statement respects the operator table.
pub open spec fn stmt_respects(s: NodeStmt) -> bool
    decreases s,
{
    match s {
        NodeStmt::Let { ident, expr } => expr_respects(expr, 1) && ident.token is Ident,
        NodeStmt::Return { expr } => expr_respects(expr, 1),
        NodeStmt::Scope { scope } => stmts_respect(scope.0@),
        NodeStmt::If { expr, scope, chain } => expr_respects(expr, 1) && stmts_respect(scope.0@)
            && chain_respects(chain),
        NodeStmt::ReAssign { expr, ident } => expr_respects(expr, 1) && ident.token is Ident,
    }
}

/// Every expression inside a statement list respects the operator table.
pub open spec fn stmts_respect(ss: Seq<NodeStmt>) -> bool
    decreases ss,
{
    if ss.len() == 0 {
        true
    } else {
        stmts_respect(ss.drop_last()) && stmt_respects(ss.last())
    }
}

/// Every expression inside an optional else-chain respects the operator
/// table.
pub open spec fn chain_respects(chain: Option<NodeElse>) -> bool
    decreases chain,
{
    match chain {
        None => true,
        Some(e) => else_respects(e),
    }
}

/// Every expression inside an else-chain link respects the operator table.
pub open spec fn else_respects(e: NodeElse) -> bool
    decreases e,
{
    match e {
        NodeElse::ElseIf { expr, scope, chain } => expr_respects(expr, 1)
            && stmts_respect(scope.0@) && chain_respects(*chain),
        NodeElse::Else(scope) => stmts_respect(scope.0@),
    }
}

/// Every expression inside a function body respects the operator table.
pub open spec fn func_respects(f: NodeFunc) -> bool {
    stmts_respect(f.stmts@)
}

/// The tokens a function was parsed from, after its introducing `fn`.
pub open spec fn unparse_func_rest(f: NodeFunc) -> Seq<SpecToken> {
    seq![
        SpecToken::Ident(f.f_name@),
        SpecToken::OpenParen,
        SpecToken::CloseParen,
        SpecToken::ReturnSig,
        SpecToken::LitType(f.return_type->Some_0),
        SpecToken::OpenBrace,
    ] + unparse_stmts(f.stmts@) + seq![SpecToken::CloseBrace]
}

/// Whether a token may start a term.
pub open spec fn is_term_start(t: SpecToken) -> bool {
    t is IntLiteral || t is BooleanLiteral || t is Ident || t is OpenParen
}

proof fn lemma_subrange_split(t: Seq<SpecToken>, a: int, b: int, c: int)
    requires
        0 <= a <= b <= c <= t.len(),
    ensures
        t.subrange(a, c) == t.subrange(a, b) + t.subrange(b, c),
{
    assert(t.subrange(a, c) =~= t.subrange(a, b) + t.subrange(b, c));
}

proof fn lemma_unparse_stmts_push(ss: Seq<NodeStmt>, s: NodeStmt)
    ensures
        unparse_stmts(ss.push(s)) == unparse_stmts(ss) + unparse_stmt(s),
{
    assert(ss.push(s).drop_last() =~= ss);
    assert(ss.push(s).last() == s);
}

proof fn lemma_stmts_respect_push(ss: Seq<NodeStmt>, s: NodeStmt)
    requires
        stmts_respect(ss),
        stmt_respects(s),
    ensures
        stmts_respect(ss.push(s)),
{
    assert(ss.push(s).drop_last() =~= ss);
    assert(ss.push(s).last() == s);
}

/// The mathematical image of a term: text payloads become `Seq<char>`; the
/// nested expression of a parenthesized term is a one-element sequence.
pub enum SpecTerm {
    IntLiteral { digits: Seq<char> },
    BooleanLiteral { value: bool },
    Identifier { name: Seq<char> },
    Expression { inner: Seq<SpecExpr> },
}

/// The mathematical image of an expression; a binary node's operands are the
/// two-element sequence `[lhs, rhs]`.
pub enum SpecExpr {
    Binary { operands: Seq<SpecExpr>, op: NodeBiOp },
    Term { term: SpecTerm },
    Call { name: Seq<char> },
}

/// The mathematical image of a statement.
pub enum SpecStmt {
    Let { ident: SpecTokenData, expr: SpecExpr },
    Return { expr: SpecExpr },
    Scope { body: Seq<SpecStmt> },
    If { cond: SpecExpr, body: Seq<SpecStmt>, chain: Seq<SpecElse> },
    ReAssign { expr: SpecExpr, ident: SpecTokenData },
}

/// The mathematical image of an else-chain link; a chain is an empty or
/// one-element sequence.
pub enum SpecElse {
    ElseIf { cond: SpecExpr, body: Seq<SpecStmt>, chain: Seq<SpecElse> },
    Else { body: Seq<SpecStmt> },
}

/// The mathematical image of a function.
pub struct SpecFunc {
    pub name: Seq<char>,
    pub stmts: Seq<SpecStmt>,
    pub ret: Option<LitKind>,
}

pub open spec fn view_term(t: NodeTermExpr) -> SpecTerm
    decreases t,
{
    match t {
        NodeTermExpr::IntLiteral(s) => SpecTerm::IntLiteral { digits: s@ },
        NodeTermExpr::BooleanLiteral(b) => SpecTerm::BooleanLiteral { value: b },
        NodeTermExpr::Identifier(s) => SpecTerm::Identifier { name: s@ },
        NodeTermExpr::Expression(inner) => SpecTerm::Expression {
            inner: seq![view_expr(*inner)],
        },
    }
}

pub open spec fn view_expr(e: NodeExpr) -> SpecExpr
    decreases e,
{
    match e {
        NodeExpr::BinaryExpr(b) => SpecExpr::Binary {
            operands: seq![view_expr(b.lhs), view_expr(b.rhs)],
            op: b.op,
        },
        NodeExpr::Term(t) => SpecExpr::Term { term: view_term(t) },
        NodeExpr::Call(n) => SpecExpr::Call { name: n@ },
    }
}

pub open spec fn view_stmt(s: NodeStmt) -> SpecStmt
    decreases s,
{
    match s {
        NodeStmt::Let { ident, expr } => SpecStmt::Let { ident: ident@, expr: view_expr(expr) },
        NodeStmt::Return { expr } => SpecStmt::Return { expr: view_expr(expr) },
        NodeStmt::Scope { scope } => SpecStmt::Scope { body: view_stmts(scope.0@) },
        NodeStmt::If { expr, scope, chain } => SpecStmt::If {
            cond: view_expr(expr),
            body: view_stmts(scope.0@),
            chain: view_chain(chain),
        },
        NodeStmt::ReAssign { expr, ident } => SpecStmt::ReAssign {
            expr: view_expr(expr),
            ident: ident@,
        },
    }
}

pub open spec fn view_stmts(ss: Seq<NodeStmt>) -> Seq<SpecStmt>
    decreases ss,
{
    if ss.len() == 0 {
        Seq::empty()
    } else {
        view_stmts(ss.drop_last()).push(view_stmt(ss.last()))
    }
}

pub open spec fn view_chain(c: Option<NodeElse>) -> Seq<SpecElse>
    decreases c,
{
    match c {
        None => Seq::empty(),
        Some(e) => seq![view_else(e)],
    }
}

pub open spec fn view_else(e: NodeElse) -> SpecElse
    decreases e,
{
    match e {
        NodeElse::ElseIf { expr, scope, chain } => SpecElse::ElseIf {
            cond: view_expr(expr),
            body: view_stmts(scope.0@),
            chain: view_chain(*chain),
        },
        NodeElse::Else(scope) => SpecElse::Else { body: view_stmts(scope.0@) },
    }
}

pub open spec fn view_func(f: NodeFunc) -> SpecFunc {
    SpecFunc { name: f.f_name@, stmts: view_stmts(f.stmts@), ret: f.return_type }
}

pub open spec fn view_funcs(fs: Seq<NodeFunc>) -> Seq<SpecFunc>
    decreases fs,
{
    if fs.len() == 0 {
        Seq::empty()
    } else {
        view_funcs(fs.drop_last()).push(view_func(fs.last()))
    }
}

proof fn lemma_view_stmts_push(ss: Seq<NodeStmt>, s: NodeStmt)
    ensures
        view_stmts(ss.push(s)) == view_stmts(ss).push(view_stmt(s)),
{
    assert(ss.push(s).drop_last() =~= ss);
    assert(ss.push(s).last() == s);
}

proof fn lemma_view_funcs_push(fs: Seq<NodeFunc>, f: NodeFunc)
    ensures
        view_funcs(fs.push(f)) == view_funcs(fs).push(view_func(f)),
{
    assert(fs.push(f).drop_last() =~= fs);
    assert(fs.push(f).last() == f);
}

pub proof fn lemma_view_funcs_len(fs: Seq<NodeFunc>)
    ensures
        view_funcs(fs).len() == fs.len(),
    decreases fs.len(),
{
    if fs.len() > 0 {
        lemma_view_funcs_len(fs.drop_last());
    }
}

/// The image of each function of a program, in order.
pub proof fn lemma_view_funcs_index(fs: Seq<NodeFunc>, i: int)
    requires
        0 <= i < fs.len(),
    ensures
        view_funcs(fs).len() == fs.len(),
        view_funcs(fs)[i] == view_func(fs[i]),
    decreases fs.len(),
{
    lemma_view_funcs_len(fs);
    if fs.len() > 0 {
        lemma_view_funcs_len(fs.drop_last());
        if i < fs.len() - 1 {
            assert(fs.drop_last()[i] == fs[i]);
            lemma_view_funcs_index(fs.drop_last(), i);
        }
    }
}

/// The operator a binary-operator token stands for.
pub open spec fn token_bi_op(t: SpecToken) -> NodeBiOp {
    match t {
        SpecToken::Add => NodeBiOp::Add,
        SpecToken::Multiply => NodeBiOp::Multiply,
        SpecToken::Subtract => NodeBiOp::Subtract,
        SpecToken::Division => NodeBiOp::Division,
        SpecToken::Equality => NodeBiOp::Equality,
        SpecToken::Or => NodeBiOp::Or,
        SpecToken::And => NodeBiOp::And,
        SpecToken::GreaterThan => NodeBiOp::GreaterThan,
        SpecToken::LessThan => NodeBiOp::LessThan,
        SpecToken::GreaterThanEqual => NodeBiOp::GreaterThanEqual,
        _ => NodeBiOp::LessThanEqual,
    }
}

/// Clips a position into `[lo, hi]`; the recursive parsing specification
/// applies it to positions returned by nested parses, where it never moves
/// them, so that each recursion visibly advances.
pub open spec fn pos_clip(p: int, lo: int, hi: int) -> int {
    if p < lo {
        lo
    } else if p > hi {
        hi
    } else {
        p
    }
}

/// The line to blame for an error at `pos`: the line of that token, or 0
/// past the end.
pub open spec fn spec_line_at(ts: Seq<SpecTokenData>, pos: int) -> int {
    if 0 <= pos < ts.len() {
        ts[pos].line
    } else {
        0
    }
}

/// What consuming one expected token yields: the next position, or the §7
/// diagnostic (expected token, found token, line) or end-of-input report.
pub open spec fn spec_expect(ts: Seq<SpecTokenData>, pos: int, t: SpecToken) -> Result<
    int,
    SpecError,
> {
    if 0 <= pos < ts.len() {
        if ts[pos].token == t {
            Ok(pos + 1)
        } else {
            Err(SpecError::MissingToken { expected: t, found: ts[pos].token, line: ts[pos].line })
        }
    } else {
        Err(SpecError::UnexpectedEnd { expected: t })
    }
}

/// What parsing one term from `pos` yields: the term and the next position,
/// `None` when no term starts here, or the first error.
pub open spec fn spec_parse_term(ts: Seq<SpecTokenData>, pos: int) -> Result<
    Option<(SpecTerm, int)>,
    SpecError,
>
    decreases ts.len() - pos, 0int,
{
    if pos < 0 || pos >= ts.len() {
        Ok(None)
    } else {
        match ts[pos].token {
            SpecToken::BooleanLiteral(b) => Ok(
                Some((SpecTerm::BooleanLiteral { value: b }, pos + 1)),
            ),
            SpecToken::IntLiteral(s) => Ok(Some((SpecTerm::IntLiteral { digits: s }, pos + 1))),
            SpecToken::Ident(s) => Ok(Some((SpecTerm::Identifier { name: s }, pos + 1))),
            SpecToken::OpenParen => match spec_parse_expr(ts, pos + 1, 1) {
                Err(e) => Err(e),
                Ok(None) => Err(
                    SpecError::ExpectedExpression { line: spec_line_at(ts, pos + 1) },
                ),
                Ok(Some((e, p))) => match spec_expect(ts, p, SpecToken::CloseParen) {
                    Err(er) => Err(er),
                    Ok(p2) => Ok(Some((SpecTerm::Expression { inner: seq![e] }, p2))),
                },
            },
            _ => Ok(None),
        }
    }
}

/// What the precedence climb yields from `pos` with `lhs` already parsed:
/// while the next token is an operator binding at least at `min`, the right
/// operand is parsed one level tighter and the tree extends leftward.
pub open spec fn spec_parse_climb(
    ts: Seq<SpecTokenData>,
    pos: int,
    lhs: SpecExpr,
    min: int,
) -> Result<Option<(SpecExpr, int)>, SpecError>
    decreases ts.len() - pos, 1int,
{
    if 0 <= pos < ts.len() && spec_is_binary_operator(ts[pos].token) && spec_binary_precedence(
        ts[pos].token,
    ) >= min {
        let prec = spec_binary_precedence(ts[pos].token);
        match spec_parse_expr(ts, pos + 1, prec + 1) {
            Err(e) => Err(e),
            Ok(None) => Err(SpecError::ExpectedExpression { line: spec_line_at(ts, pos + 1) }),
            Ok(Some((rhs, p))) => spec_parse_climb(
                ts,
                pos_clip(p, pos + 1, ts.len() as int),
                SpecExpr::Binary {
                    operands: seq![lhs, rhs],
                    op: token_bi_op(ts[pos].token),
                },
                min,
            ),
        }
    } else {
        Ok(Some((lhs, pos)))
    }
}

/// What parsing one expression from `pos` with minimum precedence `min`
/// yields. A lone `Ident ( )` is a zero-argument call, taken whole — exactly
/// three tokens — and returned without climbing.
pub open spec fn spec_parse_expr(ts: Seq<SpecTokenData>, pos: int, min: int) -> Result<
    Option<(SpecExpr, int)>,
    SpecError,
>
    decreases ts.len() - pos, 2int,
{
    if pos >= 0 && pos + 2 < ts.len() && ts[pos].token is Ident && ts[pos + 1].token is OpenParen
        && ts[pos + 2].token is CloseParen {
        Ok(Some((SpecExpr::Call { name: ts[pos].token->Ident_0 }, pos + 3)))
    } else {
        match spec_parse_term(ts, pos) {
            Err(e) => Err(e),
            Ok(None) => Ok(None),
            Ok(Some((t, p))) => {
                if 0 <= pos < ts.len() {
                    spec_parse_climb(
                        ts,
                        pos_clip(p, pos + 1, ts.len() as int),
                        SpecExpr::Term { term: t },
                        min,
                    )
                } else {
                    Ok(None)
                }
            },
        }
    }
}

/// What an expression that must be present yields.
pub open spec fn spec_expect_expr(ts: Seq<SpecTokenData>, pos: int) -> Result<
    (SpecExpr, int),
    SpecError,
> {
    match spec_parse_expr(ts, pos, 1) {
        Err(e) => Err(e),
        Ok(None) => Err(SpecError::ExpectedExpression { line: spec_line_at(ts, pos) }),
        Ok(Some((e, p))) => Ok((e, p)),
    }
}

/// What parsing statements until a consumed `}` yields: the statement list
/// and the position after the closing brace, or the first error.
pub open spec fn spec_parse_stmts(ts: Seq<SpecTokenData>, pos: int) -> Result<
    (Seq<SpecStmt>, int),
    SpecError,
>
    decreases ts.len() - pos, 3int,
{
    if pos < 0 || pos >= ts.len() {
        Err(SpecError::UnexpectedEnd { expected: SpecToken::CloseBrace })
    } else {
        match ts[pos].token {
            SpecToken::CloseBrace => Ok((Seq::empty(), pos + 1)),
            SpecToken::Return => match spec_expect_expr(ts, pos + 1) {
                Err(e) => Err(e),
                Ok((e, p)) => match spec_expect(ts, p, SpecToken::SemiColon) {
                    Err(er) => Err(er),
                    Ok(p2) => match spec_parse_stmts(ts, pos_clip(p2, pos + 1, ts.len() as int)) {
                        Err(er) => Err(er),
                        Ok((rest, p3)) => Ok(
                            (seq![SpecStmt::Return { expr: e }] + rest, p3),
                        ),
                    },
                },
            },
            SpecToken::Let => {
                if !(pos + 1 < ts.len() && ts[pos + 1].token is Ident) {
                    Err(SpecError::ExpectedIdentifier { line: spec_line_at(ts, pos + 1) })
                } else {
                    match spec_expect(ts, pos + 2, SpecToken::Equal) {
                        Err(er) => Err(er),
                        Ok(p0) => match spec_expect_expr(ts, p0) {
                            Err(e) => Err(e),
                            Ok((e, p)) => match spec_expect(ts, p, SpecToken::SemiColon) {
                                Err(er) => Err(er),
                                Ok(p2) => match spec_parse_stmts(
                                    ts,
                                    pos_clip(p2, pos + 1, ts.len() as int),
                                ) {
                                    Err(er) => Err(er),
                                    Ok((rest, p3)) => Ok(
                                        (
                                            seq![
                                                SpecStmt::Let { ident: ts[pos + 1], expr: e },
                                            ] + rest,
                                            p3,
                                        ),
                                    ),
                                },
                            },
                        },
                    }
                }
            },
            SpecToken::OpenBrace => match spec_parse_stmts(ts, pos + 1) {
                Err(e) => Err(e),
                Ok((body, p)) => match spec_parse_stmts(ts, pos_clip(p, pos + 1, ts.len() as int)) {
                    Err(er) => Err(er),
                    Ok((rest, p2)) => Ok((seq![SpecStmt::Scope { body }] + rest, p2)),
                },
            },
            SpecToken::If => match spec_expect(ts, pos + 1, SpecToken::OpenParen) {
                Err(er) => Err(er),
                Ok(p0) => match spec_expect_expr(ts, p0) {
                    Err(e) => Err(e),
                    Ok((cond, p1)) => match spec_expect(ts, p1, SpecToken::CloseParen) {
                        Err(er) => Err(er),
                        Ok(p2) => match spec_expect(ts, p2, SpecToken::OpenBrace) {
                            Err(er) => Err(er),
                            Ok(p3) => match spec_parse_stmts(
                                ts,
                                pos_clip(p3, pos + 1, ts.len() as int),
                            ) {
                                Err(er) => Err(er),
                                Ok((body, p4)) => match spec_parse_chain(
                                    ts,
                                    pos_clip(p4, pos + 1, ts.len() as int),
                                ) {
                                    Err(er) => Err(er),
                                    Ok((c, p5)) => match spec_parse_stmts(
                                        ts,
                                        pos_clip(p5, pos + 1, ts.len() as int),
                                    ) {
                                        Err(er) => Err(er),
                                        Ok((rest, p6)) => Ok(
                                            (
                                                seq![
                                                    SpecStmt::If { cond, body, chain: c },
                                                ] + rest,
                                                p6,
                                            ),
                                        ),
                                    },
                                },
                            },
                        },
                    },
                },
            },
            SpecToken::Ident(_) => {
                if pos + 1 < ts.len() && ts[pos + 1].token is Equal {
                    match spec_expect_expr(ts, pos + 2) {
                        Err(e) => Err(e),
                        Ok((e, p)) => match spec_expect(ts, p, SpecToken::SemiColon) {
                            Err(er) => Err(er),
                            Ok(p2) => match spec_parse_stmts(
                                ts,
                                pos_clip(p2, pos + 1, ts.len() as int),
                            ) {
                                Err(er) => Err(er),
                                Ok((rest, p3)) => Ok(
                                    (
                                        seq![
                                            SpecStmt::ReAssign { expr: e, ident: ts[pos] },
                                        ] + rest,
                                        p3,
                                    ),
                                ),
                            },
                        },
                    }
                } else {
                    Err(SpecError::ExpectedStatement { line: ts[pos].line })
                }
            },
            _ => Err(SpecError::ExpectedStatement { line: ts[pos].line }),
        }
    }
}

/// What the continuation of an `if` yields: an `elif` link and its own
/// continuation, a final `else`, or nothing.
pub open spec fn spec_parse_chain(ts: Seq<SpecTokenData>, pos: int) -> Result<
    (Seq<SpecElse>, int),
    SpecError,
>
    decreases ts.len() - pos, 3int,
{
    if pos < 0 || pos >= ts.len() {
        Ok((Seq::empty(), pos))
    } else {
        match ts[pos].token {
            SpecToken::ElseIf => match spec_expect(ts, pos + 1, SpecToken::OpenParen) {
                Err(er) => Err(er),
                Ok(p0) => match spec_expect_expr(ts, p0) {
                    Err(e) => Err(e),
                    Ok((cond, p1)) => match spec_expect(ts, p1, SpecToken::CloseParen) {
                        Err(er) => Err(er),
                        Ok(p2) => match spec_expect(ts, p2, SpecToken::OpenBrace) {
                            Err(er) => Err(er),
                            Ok(p3) => match spec_parse_stmts(
                                ts,
                                pos_clip(p3, pos + 1, ts.len() as int),
                            ) {
                                Err(er) => Err(er),
                                Ok((body, p4)) => match spec_parse_chain(
                                    ts,
                                    pos_clip(p4, pos + 1, ts.len() as int),
                                ) {
                                    Err(er) => Err(er),
                                    Ok((c, p5)) => Ok(
                                        (seq![SpecElse::ElseIf { cond, body, chain: c }], p5),
                                    ),
                                },
                            },
                        },
                    },
                },
            },
            SpecToken::Else => match spec_expect(ts, pos + 1, SpecToken::OpenBrace) {
                Err(er) => Err(er),
                Ok(p0) => match spec_parse_stmts(ts, pos_clip(p0, pos + 1, ts.len() as int)) {
                    Err(er) => Err(er),
                    Ok((body, p)) => Ok((seq![SpecElse::Else { body }], p)),
                },
            },
            _ => Ok((Seq::empty(), pos)),
        }
    }
}

/// What parsing one function after its `fn` keyword yields.
pub open spec fn spec_parse_func(ts: Seq<SpecTokenData>, pos: int) -> Result<
    (SpecFunc, int),
    SpecError,
>
    decreases ts.len() - pos, 4int,
{
    if !(0 <= pos < ts.len() && ts[pos].token is Ident) {
        Err(SpecError::ExpectedIdentifier { line: spec_line_at(ts, pos) })
    } else {
        match spec_expect(ts, pos + 1, SpecToken::OpenParen) {
            Err(er) => Err(er),
            Ok(p0) => match spec_expect(ts, p0, SpecToken::CloseParen) {
                Err(er) => Err(er),
                Ok(p1) => match spec_expect(ts, p1, SpecToken::ReturnSig) {
                    Err(er) => Err(er),
                    Ok(p2) => {
                        if !(p2 < ts.len() && ts[p2].token is LitType) {
                            Err(SpecError::ExpectedType { line: spec_line_at(ts, p2) })
                        } else {
                            match spec_expect(ts, p2 + 1, SpecToken::OpenBrace) {
                                Err(er) => Err(er),
                                Ok(p3) => match spec_parse_stmts(
                                    ts,
                                    pos_clip(p3, pos + 1, ts.len() as int),
                                ) {
                                    Err(er) => Err(er),
                                    Ok((body, p4)) => Ok(
                                        (
                                            SpecFunc {
                                                name: ts[pos].token->Ident_0,
                                                stmts: body,
                                                ret: Some(ts[p2].token->LitType_0),
                                            },
                                            p4,
                                        ),
                                    ),
                                },
                            }
                        }
                    },
                },
            },
        }
    }
}

/// What parsing a whole file yields: tokens outside any `fn` item are
/// skipped; each `fn` introduces one function, in order.
pub open spec fn spec_parse_file(ts: Seq<SpecTokenData>, pos: int) -> Result<
    (Seq<SpecFunc>, int),
    SpecError,
>
    decreases ts.len() - pos, 5int,
{
    if pos < 0 || pos >= ts.len() {
        Ok((Seq::empty(), pos))
    } else if ts[pos].token is FuncSig {
        match spec_parse_func(ts, pos + 1) {
            Err(e) => Err(e),
            Ok((f, p)) => match spec_parse_file(ts, pos_clip(p, pos + 1, ts.len() as int)) {
                Err(er) => Err(er),
                Ok((rest, p2)) => Ok((seq![f] + rest, p2)),
            },
        }
    } else {
        spec_parse_file(ts, pos + 1)
    }
}

/// What the whole parse of a token stream yields: the program's functions,
/// or its first parse error.
pub open spec fn spec_parse(ts: Seq<SpecTokenData>) -> Result<Seq<SpecFunc>, SpecError> {
    match spec_parse_file(ts, 0) {
        Err(e) => Err(e),
        Ok((fs, p)) => Ok(fs),
    }
}

/// Prepends the image of already-parsed statements to the outcome of
/// parsing the rest.
pub open spec fn spec_stmts_cont(acc: Seq<NodeStmt>, r: Result<(Seq<SpecStmt>, int), SpecError>) -> Result<
    (Seq<SpecStmt>, int),
    SpecError,
> {
    match r {
        Ok((rest, p)) => Ok((view_stmts(acc) + rest, p)),
        Err(e) => Err(e),
    }
}

proof fn lemma_stmts_cont_step(
    tds: Seq<SpecTokenData>,
    p0: int,
    q0: int,
    acc: Seq<NodeStmt>,
    st: NodeStmt,
    newp: int,
)
    requires
        spec_parse_stmts(tds, p0) == spec_stmts_cont(acc, spec_parse_stmts(tds, q0)),
        spec_parse_stmts(tds, q0) == (match spec_parse_stmts(tds, newp) {
            Ok(pr) => Ok::<(Seq<SpecStmt>, int), SpecError>(
                (seq![view_stmt(st)] + pr.0, pr.1),
            ),
            Err(e) => Err(e),
        }),
    ensures
        spec_parse_stmts(tds, p0) == spec_stmts_cont(acc.push(st), spec_parse_stmts(tds, newp)),
{
    lemma_view_stmts_push(acc, st);
    match spec_parse_stmts(tds, newp) {
        Ok(pr) => {
            assert(view_stmts(acc) + (seq![view_stmt(st)] + pr.0) =~= view_stmts(acc.push(st))
                + pr.0);
        },
        Err(_) => {},
    }
}

/// Prepends the image of already-parsed functions to the outcome of
/// parsing the rest of the file.
pub open spec fn spec_funcs_cont(acc: Seq<NodeFunc>, r: Result<(Seq<SpecFunc>, int), SpecError>) -> Result<
    (Seq<SpecFunc>, int),
    SpecError,
> {
    match r {
        Ok((rest, p)) => Ok((view_funcs(acc) + rest, p)),
        Err(e) => Err(e),
    }
}

proof fn lemma_funcs_cont_step(
    tds: Seq<SpecTokenData>,
    p0: int,
    q0: int,
    acc: Seq<NodeFunc>,
    f: NodeFunc,
    newp: int,
)
    requires
        spec_parse_file(tds, p0) == spec_funcs_cont(acc, spec_parse_file(tds, q0)),
        spec_parse_file(tds, q0) == (match spec_parse_file(tds, newp) {
            Ok(pr) => Ok::<(Seq<SpecFunc>, int), SpecError>(
                (seq![view_func(f)] + pr.0, pr.1),
            ),
            Err(e) => Err(e),
        }),
    ensures
        spec_parse_file(tds, p0) == spec_funcs_cont(acc.push(f), spec_parse_file(tds, newp)),
{
    lemma_view_funcs_push(acc, f);
    match spec_parse_file(tds, newp) {
        Ok(pr) => {
            assert(view_funcs(acc) + (seq![view_func(f)] + pr.0) =~= view_funcs(acc.push(f))
                + pr.0);
        },
        Err(_) => {},
    }
}

/// The parser state: the token stream and a cursor into it. Tokens before
/// the cursor have been consumed.
struct Parser {
    tokens: Vec<TokenData>,
    pos: usize,
}

impl Parser {
    /// The whole token stream, stripped to its token values.
    spec fn all_toks(&self) -> Seq<SpecToken> {
        self.tokens@.map_values(|t: TokenData| t@.token)
    }

    /// The whole token stream, with lines, as the parsing specification
    /// reads it.
    spec fn all_tds(&self) -> Seq<SpecTokenData> {
        self.tokens@.map_values(|t: TokenData| t@)
    }

    spec fn wf(&self) -> bool {
        self.pos <= self.tokens@.len()
    }

    /// Advances the cursor over `count` tokens.
    fn consume_count(&mut self, count: usize)
        requires
            old(self).pos + count <= old(self).tokens@.len(),
        ensures
            final(self).tokens@ == old(self).tokens@,
            final(self).pos == old(self).pos + count,
    {
        let n = self.tokens.len();
        self.pos = self.pos + count;
    }

    /// The token `offset` places past the cursor, if the stream still has
    /// one there.
    fn peek(&self, offset: usize) -> (r: Option<&TokenData>)
        requires
            self.wf(),
        ensures
            match r {
                Some(t) => self.pos + offset < self.tokens@.len() && *t == self.tokens@[self.pos
                    + offset],
                None => self.pos + offset >= self.tokens@.len(),
            },
    {
        if offset < self.tokens.len() - self.pos {
            Some(&self.tokens[self.pos + offset])
        } else {
            None
        }
    }

    /// Whether the token `offset` places past the cursor exists and equals
    /// `token`.
    fn peek_expect(&self, offset: usize, token: &Token) -> (r: bool)
        requires
            self.wf(),
        ensures
            r == (self.pos + offset < self.tokens@.len() && self.all_toks()[self.pos + offset
                as int] == token@),
    {
        match self.peek(offset) {
            Some(found) => token_matches(&found.token, token),
            None => false,
        }
    }

    /// Consumes the next token, which must be `token`; reports the expected
    /// token, the found token and its line otherwise.
    fn expect(&mut self, token: &Token) -> (r: Result<(), CompileError>)
        requires
            old(self).wf(),
        ensures
            final(self).tokens@ == old(self).tokens@,
            final(self).wf(),
            r is Ok <==> old(self).pos < old(self).tokens@.len() && old(self).all_toks()[old(
                self,
            ).pos as int] == token@,
            r is Ok ==> final(self).pos == old(self).pos + 1,
            r is Err ==> final(self).tokens@ == old(self).tokens@ && final(self).pos == old(self).pos,
            r matches Err(e) ==> (match e {
                CompileError::MissingToken { expected, found, line } => old(self).pos < old(
                    self,
                ).tokens@.len() && expected@ == token@ && found == old(self).tokens@[old(
                    self,
                ).pos as int].token && line == old(self).tokens@[old(self).pos as int].line,
                CompileError::UnexpectedEnd { expected } => old(self).pos == old(
                    self,
                ).tokens@.len() && expected@ == token@,
                _ => false,
            }),
            r is Ok ==> spec_expect(old(self).all_tds(), old(self).pos as int, token@) == Ok::<
                int,
                SpecError,
            >(final(self).pos as int),
            r matches Err(e) ==> spec_expect(old(self).all_tds(), old(self).pos as int, token@)
                == Err::<int, SpecError>(e@),
    {
        if self.pos < self.tokens.len() {
            let found = &self.tokens[self.pos];
            if token_matches(&found.token, token) {
                self.pos = self.pos + 1;
                Ok(())
            } else {
                Err(CompileError::MissingToken {
                    expected: token.clone(),
                    found: found.token.clone(),
                    line: found.line,
                })
            }
        } else {
            Err(CompileError::UnexpectedEnd { expected: token.clone() })
        }
    }

    /// The source line to blame for an error at the cursor: the line of the
    /// next token, or 0 when the stream has ended.
    fn line_here(&self) -> (r: i32)
        requires
            self.wf(),
        ensures
            r == (if self.pos < self.tokens@.len() {
                self.tokens@[self.pos as int].line
            } else {
                0
            }),
    {
        if self.pos < self.tokens.len() {
            self.tokens[self.pos].line
        } else {
            0
        }
    }

    /// Parses an expression that must be present.
    fn expect_expr(&mut self) -> (r: Result<NodeExpr, CompileError>)
        requires
            old(self).wf(),
        ensures
            final(self).tokens@ == old(self).tokens@,
            final(self).wf(),
            old(self).pos <= final(self).pos,
            r matches Ok(e) ==> expr_respects(e, 1) && unparse_expr(e) == old(
                self,
            ).all_toks().subrange(old(self).pos as int, final(self).pos as int) && final(self).pos
                > old(self).pos,
            r matches Ok(e) ==> spec_expect_expr(old(self).all_tds(), old(self).pos as int) == Ok::<
                (SpecExpr, int),
                SpecError,
            >((view_expr(e), final(self).pos as int)),
            r matches Err(e) ==> spec_expect_expr(old(self).all_tds(), old(self).pos as int)
                == Err::<(SpecExpr, int), SpecError>(e@),
        decreases old(self).tokens@.len() - old(self).pos, 2int,
    {
        let line = self.line_here();
        match self.parse_expr(1) {
            Err(e) => Err(e),
            Ok(None) => Err(CompileError::ExpectedExpression { line }),
            Ok(Some(e)) => Ok(e),
        }
    }

    /// Precedence climbing: parses a term, then extends it leftward with
    /// every following operator that binds at least at `min_prec`, parsing
    /// each right operand one level tighter so that equal levels associate
    /// to the left. A lone `Ident ( )` is a zero-argument call and is taken
    /// whole, before any climbing.
    #[verifier::rlimit(100)]
    #[verifier::spinoff_prover]
    fn parse_expr(&mut self, min_prec: i8) -> (r: Result<Option<NodeExpr>, CompileError>)
        requires
            old(self).wf(),
            1 <= min_prec <= 3,
        ensures
            final(self).tokens@ == old(self).tokens@,
            final(self).wf(),
            old(self).pos <= final(self).pos,
            r matches Ok(Some(e)) ==> expr_respects(e, min_prec as int) && unparse_expr(e) == old(
                self,
            ).all_toks().subrange(old(self).pos as int, final(self).pos as int) && final(self).pos
                > old(self).pos,
            r matches Ok(Some(e)) ==> (!(e is Call) && final(self).pos < old(self).tokens@.len()
                ==> !(spec_is_binary_operator(old(self).all_toks()[final(self).pos as int])
                && spec_binary_precedence(old(self).all_toks()[final(self).pos as int]) >= min_prec
                as int)),
            r matches Ok(None) ==> final(self).tokens@ == old(self).tokens@ && final(self).pos == old(self).pos && (old(self).pos == old(
                self,
            ).tokens@.len() || !is_term_start(old(self).all_toks()[old(self).pos as int])),
            r matches Ok(Some(e)) ==> spec_parse_expr(
                old(self).all_tds(),
                old(self).pos as int,
                min_prec as int,
            ) == Ok::<Option<(SpecExpr, int)>, SpecError>(
                Some((view_expr(e), final(self).pos as int)),
            ),
            r matches Ok(None) ==> spec_parse_expr(
                old(self).all_tds(),
                old(self).pos as int,
                min_prec as int,
            ) == Ok::<Option<(SpecExpr, int)>, SpecError>(None),
            r matches Err(e) ==> spec_parse_expr(
                old(self).all_tds(),
                old(self).pos as int,
                min_prec as int,
            ) == Err::<Option<(SpecExpr, int)>, SpecError>(e@),
        decreases old(self).tokens@.len() - old(self).pos, 1int,
    {
        let ghost toks0 = self.tokens@;
        let ghost t0 = self.all_toks();
        let ghost tds = self.all_tds();
        let ghost p0 = self.pos as int;
        let ghost mn = min_prec as int;
        proof {
            assert(forall|i: int| 0 <= i < tds.len() ==> (#[trigger] tds[i]).token == t0[i]);
        }
        if self.pos < self.tokens.len() && self.peek_expect(1, &Token::OpenParen) && self.peek_expect(
            2,
            &Token::CloseParen,
        ) {
            if let Token::Ident(n) = &self.tokens[self.pos].token {
                let name = n.clone();
                let ghost nm = name@;
                self.consume_count(3);
                proof {
                    assert(t0[p0] == SpecToken::Ident(nm));
                    assert(unparse_expr(NodeExpr::Call(name)) =~= t0.subrange(p0, p0 + 3));
                    assert(spec_parse_expr(tds, p0, mn) == Ok::<
                        Option<(SpecExpr, int)>,
                        SpecError,
                    >(Some((SpecExpr::Call { name: nm }, p0 + 3))));
                }
                return Ok(Some(NodeExpr::Call(name)));
            }
        }
        proof {
            assert(!(p0 + 2 < tds.len() && tds[p0].token is Ident && tds[p0 + 1].token is OpenParen
                && tds[p0 + 2].token is CloseParen));
        }
        let term = match self.parse_term() {
            Err(e) => {
                proof {
                    assert(spec_parse_expr(tds, p0, mn) == Err::<
                        Option<(SpecExpr, int)>,
                        SpecError,
                    >(e@));
                }
                return Err(e);
            },
            Ok(None) => {
                proof {
                    assert(spec_parse_expr(tds, p0, mn) == Ok::<
                        Option<(SpecExpr, int)>,
                        SpecError,
                    >(None));
                }
                return Ok(None);
            },
            Ok(Some(t)) => t,
        };
        let mut lhs = NodeExpr::Term(term);
        proof {
            assert(spec_parse_expr(tds, p0, mn) == spec_parse_climb(
                tds,
                self.pos as int,
                view_expr(lhs),
                mn,
            ));
        }
        while self.pos < self.tokens.len() && is_binary_operator(&self.tokens[self.pos].token)
            && binary_precendence(&self.tokens[self.pos].token) >= min_prec
            invariant
                self.wf(),
                self.tokens@ == toks0,
                self.all_toks() == t0,
                !(lhs is Call),
                self.tokens@.len() == t0.len(),
                0 <= p0 < self.pos as int <= t0.len(),
                expr_respects(lhs, min_prec as int),
                unparse_expr(lhs) == t0.subrange(p0, self.pos as int),
                (match lhs {
                    NodeExpr::BinaryExpr(l) => !(l.rhs is Call) ==> ((self.pos as int) < t0.len()
                        ==> !(spec_is_binary_operator(t0[self.pos as int])
                        && spec_binary_precedence(t0[self.pos as int]) > op_prec(l.op))),
                    _ => true,
                }),
                tds == self.all_tds(),
                forall|i: int| 0 <= i < tds.len() ==> (#[trigger] tds[i]).token == t0[i],
                spec_parse_expr(tds, p0, mn) == spec_parse_climb(
                    tds,
                    self.pos as int,
                    view_expr(lhs),
                    mn,
                ),
                mn == min_prec as int,
            decreases t0.len() - self.pos,
        {
            let prec = binary_precendence(&self.tokens[self.pos].token);
            let op = operator_to_binary_op(&self.tokens[self.pos].token);
            let ghost op_pos = self.pos as int;
            self.consume_count(1);
            let line = self.line_here();
            let rhs = match self.parse_expr(prec + 1) {
                Err(e) => {
                    proof {
                        assert(spec_parse_climb(tds, op_pos, view_expr(lhs), mn) == Err::<
                            Option<(SpecExpr, int)>,
                            SpecError,
                        >(e@));
                    }
                    return Err(e);
                },
                Ok(None) => {
                    proof {
                        assert(spec_parse_climb(tds, op_pos, view_expr(lhs), mn) == Err::<
                            Option<(SpecExpr, int)>,
                            SpecError,
                        >(SpecError::ExpectedExpression { line: spec_line_at(tds, op_pos + 1) }));
                    }
                    return Err(CompileError::ExpectedExpression { line });
                },
                Ok(Some(e)) => e,
            };
            let ghost rhs_end = self.pos as int;
            let prev = lhs;
            let ghost vprev = view_expr(prev);
            let ghost vrhs = view_expr(rhs);
            lhs = NodeExpr::BinaryExpr(Box::new(NodeBiExpr { lhs: prev, rhs, op }));
            proof {
                assert(t0.subrange(p0, rhs_end) =~= t0.subrange(p0, op_pos) + seq![t0[op_pos]]
                    + t0.subrange(op_pos + 1, rhs_end));
                assert(view_expr(lhs) == SpecExpr::Binary {
                    operands: seq![vprev, vrhs],
                    op: token_bi_op(tds[op_pos].token),
                });
                assert(pos_clip(rhs_end, op_pos + 1, tds.len() as int) == rhs_end);
                assert(spec_parse_climb(tds, op_pos, vprev, mn) == spec_parse_climb(
                    tds,
                    rhs_end,
                    view_expr(lhs),
                    mn,
                ));
            }
        }
        proof {
            assert(spec_parse_climb(tds, self.pos as int, view_expr(lhs), mn) == Ok::<
                Option<(SpecExpr, int)>,
                SpecError,
            >(Some((view_expr(lhs), self.pos as int))));
        }
        Ok(Some(lhs))
    }

    /// Parses one term: a literal, an identifier, or a parenthesized
    /// expression, which restarts the climb at level 1.
    #[verifier::rlimit(100)]
    #[verifier::spinoff_prover]
    fn parse_term(&mut self) -> (r: Result<Option<NodeTermExpr>, CompileError>)
        requires
            old(self).wf(),
        ensures
            final(self).tokens@ == old(self).tokens@,
            final(self).wf(),
            old(self).pos <= final(self).pos,
            r matches Ok(Some(t)) ==> term_respects(t) && unparse_term(t) == old(
                self,
            ).all_toks().subrange(old(self).pos as int, final(self).pos as int) && final(self).pos
                > old(self).pos,
            r matches Ok(None) ==> final(self).tokens@ == old(self).tokens@ && final(self).pos == old(self).pos && (old(self).pos == old(
                self,
            ).tokens@.len() || !is_term_start(old(self).all_toks()[old(self).pos as int])),
            r matches Ok(Some(t)) ==> spec_parse_term(old(self).all_tds(), old(self).pos as int)
                == Ok::<Option<(SpecTerm, int)>, SpecError>(
                Some((view_term(t), final(self).pos as int)),
            ),
            r matches Ok(None) ==> spec_parse_term(old(self).all_tds(), old(self).pos as int)
                == Ok::<Option<(SpecTerm, int)>, SpecError>(None),
            r matches Err(e) ==> spec_parse_term(old(self).all_tds(), old(self).pos as int)
                == Err::<Option<(SpecTerm, int)>, SpecError>(e@),
        decreases old(self).tokens@.len() - old(self).pos, 0int,
    {
        let ghost t0 = self.all_toks();
        let ghost tds = self.all_tds();
        let ghost p0 = self.pos as int;
        proof {
            assert(forall|i: int| 0 <= i < tds.len() ==> (#[trigger] tds[i]).token == t0[i]);
        }
        if self.pos >= self.tokens.len() {
            return Ok(None);
        }
        match &self.tokens[self.pos] {
            TokenData { token: Token::BooleanLiteral(b), line: _ } => {
                let value = *b;
                self.consume_count(1);
                proof {
                    assert(unparse_term(NodeTermExpr::BooleanLiteral(value)) =~= t0.subrange(
                        p0,
                        p0 + 1,
                    ));
                    assert(tds[p0].token == SpecToken::BooleanLiteral(value));
                    assert(spec_parse_term(tds, p0) == Ok::<Option<(SpecTerm, int)>, SpecError>(
                        Some((view_term(NodeTermExpr::BooleanLiteral(value)), p0 + 1)),
                    ));
                }
                Ok(Some(NodeTermExpr::BooleanLiteral(value)))
            },
            TokenData { token: Token::IntLiteral(s), line: _ } => {
                let text = s.clone();
                let ghost tx = text@;
                self.consume_count(1);
                proof {
                    assert(unparse_term(NodeTermExpr::IntLiteral(text)) =~= t0.subrange(
                        p0,
                        p0 + 1,
                    ));
                    assert(tds[p0].token == SpecToken::IntLiteral(tx));
                    assert(spec_parse_term(tds, p0) == Ok::<Option<(SpecTerm, int)>, SpecError>(
                        Some((view_term(NodeTermExpr::IntLiteral(text)), p0 + 1)),
                    ));
                }
                Ok(Some(NodeTermExpr::IntLiteral(text)))
            },
            TokenData { token: Token::Ident(s), line: _ } => {
                let text = s.clone();
                let ghost tx = text@;
                self.consume_count(1);
                proof {
                    assert(unparse_term(NodeTermExpr::Identifier(text)) =~= t0.subrange(
                        p0,
                        p0 + 1,
                    ));
                    assert(tds[p0].token == SpecToken::Ident(tx));
                    assert(spec_parse_term(tds, p0) == Ok::<Option<(SpecTerm, int)>, SpecError>(
                        Some((view_term(NodeTermExpr::Identifier(text)), p0 + 1)),
                    ));
                }
                Ok(Some(NodeTermExpr::Identifier(text)))
            },
            TokenData { token: Token::OpenParen, line: _ } => {
                self.consume_count(1);
                let inner = match self.parse_expr(1) {
                    Err(e) => {
                        proof {
                            assert(spec_parse_term(tds, p0) == Err::<
                                Option<(SpecTerm, int)>,
                                SpecError,
                            >(e@));
                        }
                        return Err(e);
                    },
                    Ok(None) => {
                        let line = self.line_here();
                        proof {
                            assert(spec_parse_term(tds, p0) == Err::<
                                Option<(SpecTerm, int)>,
                                SpecError,
                            >(SpecError::ExpectedExpression {
                                line: spec_line_at(tds, p0 + 1),
                            }));
                        }
                        return Err(CompileError::ExpectedExpression { line });
                    },
                    Ok(Some(e)) => e,
                };
                let ghost close_pos = self.pos as int;
                match self.expect(&Token::CloseParen) {
                    Err(e) => {
                        proof {
                            assert(spec_parse_term(tds, p0) == Err::<
                                Option<(SpecTerm, int)>,
                                SpecError,
                            >(e@));
                        }
                        return Err(e);
                    },
                    Ok(()) => {},
                }
                let t = NodeTermExpr::Expression(Box::new(inner));
                proof {
                    assert(unparse_term(t) =~= t0.subrange(p0, close_pos + 1));
                    assert(view_term(t) == SpecTerm::Expression { inner: seq![view_expr(inner)] });
                    assert(spec_parse_term(tds, p0) == Ok::<Option<(SpecTerm, int)>, SpecError>(
                        Some((view_term(t), close_pos + 1)),
                    ));
                }
                Ok(Some(t))
            },
            _ => Ok(None),
        }
    }

    /// Parses one `return` statement, the cursor on its keyword.
    #[verifier::rlimit(100)]
    #[verifier::spinoff_prover]
    fn parse_return_stmt(&mut self) -> (r: Result<NodeStmt, CompileError>)
        requires
            old(self).wf(),
            old(self).pos < old(self).tokens@.len(),
            old(self).all_tds()[old(self).pos as int].token is Return,
        ensures
            final(self).tokens@ == old(self).tokens@,
            final(self).wf(),
            old(self).pos <= final(self).pos,
            r matches Ok(st) ==> stmt_respects(st) && old(self).all_toks().subrange(
                old(self).pos as int,
                final(self).pos as int,
            ) == unparse_stmt(st) && old(self).pos < final(self).pos && spec_parse_stmts(
                old(self).all_tds(),
                old(self).pos as int,
            ) == (match spec_parse_stmts(old(self).all_tds(), final(self).pos as int) {
                Ok(pr) => Ok::<(Seq<SpecStmt>, int), SpecError>(
                    (seq![view_stmt(st)] + pr.0, pr.1),
                ),
                Err(e2) => Err(e2),
            }),
            r matches Err(e) ==> spec_parse_stmts(old(self).all_tds(), old(self).pos as int)
                == Err::<(Seq<SpecStmt>, int), SpecError>(e@),
        decreases old(self).tokens@.len() - old(self).pos, 2int,
    {
        let ghost t0 = self.all_toks();
        let ghost tds = self.all_tds();
        let ghost q0 = self.pos as int;
        proof {
            assert(forall|i: int| 0 <= i < tds.len() ==> (#[trigger] tds[i]).token == t0[i]);
        }
        self.consume_count(1);
        let expr = match self.expect_expr() {
            Err(e) => {
                proof {
                    assert(spec_parse_stmts(tds, q0) == Err::<(Seq<SpecStmt>, int), SpecError>(
                        e@,
                    ));
                }
                return Err(e);
            },
            Ok(e) => e,
        };
        match self.expect(&Token::SemiColon) {
            Err(e) => {
                proof {
                    assert(spec_parse_stmts(tds, q0) == Err::<(Seq<SpecStmt>, int), SpecError>(
                        e@,
                    ));
                }
                return Err(e);
            },
            Ok(()) => {},
        }
        let st = NodeStmt::Return { expr };
        proof {
            assert(t0.subrange(q0, self.pos as int) =~= unparse_stmt(st));
            assert(spec_parse_stmts(tds, q0) == (match spec_parse_stmts(tds, self.pos as int) {
                Ok(pr) => Ok::<(Seq<SpecStmt>, int), SpecError>(
                    (seq![view_stmt(st)] + pr.0, pr.1),
                ),
                Err(e2) => Err(e2),
            })) by {
                assert(pos_clip(self.pos as int, q0 + 1, tds.len() as int) == self.pos as int);
            }
        }
        Ok(st)
    }

    /// Parses one `let` statement, the cursor on its keyword.
    #[verifier::rlimit(100)]
    #[verifier::spinoff_prover]
    fn parse_let_stmt(&mut self) -> (r: Result<NodeStmt, CompileError>)
        requires
            old(self).wf(),
            old(self).pos < old(self).tokens@.len(),
            old(self).all_tds()[old(self).pos as int].token is Let,
        ensures
            final(self).tokens@ == old(self).tokens@,
            final(self).wf(),
            old(self).pos <= final(self).pos,
            r matches Ok(st) ==> stmt_respects(st) && old(self).all_toks().subrange(
                old(self).pos as int,
                final(self).pos as int,
            ) == unparse_stmt(st) && old(self).pos < final(self).pos && spec_parse_stmts(
                old(self).all_tds(),
                old(self).pos as int,
            ) == (match spec_parse_stmts(old(self).all_tds(), final(self).pos as int) {
                Ok(pr) => Ok::<(Seq<SpecStmt>, int), SpecError>(
                    (seq![view_stmt(st)] + pr.0, pr.1),
                ),
                Err(e2) => Err(e2),
            }),
            r matches Err(e) ==> spec_parse_stmts(old(self).all_tds(), old(self).pos as int)
                == Err::<(Seq<SpecStmt>, int), SpecError>(e@),
        decreases old(self).tokens@.len() - old(self).pos, 2int,
    {
        let ghost t0 = self.all_toks();
        let ghost tds = self.all_tds();
        let ghost q0 = self.pos as int;
        proof {
            assert(forall|i: int| 0 <= i < tds.len() ==> (#[trigger] tds[i]).token == t0[i]);
        }
        self.consume_count(1);
        let line = self.line_here();
        if self.pos >= self.tokens.len() {
            proof {
                assert(spec_parse_stmts(tds, q0) == Err::<(Seq<SpecStmt>, int), SpecError>(
                    SpecError::ExpectedIdentifier { line: spec_line_at(tds, q0 + 1) },
                ));
            }
            return Err(CompileError::ExpectedIdentifier { line });
        }
        let ident = self.tokens[self.pos].clone();
        match &ident.token {
            Token::Ident(_) => {},
            _ => {
                proof {
                    assert(spec_parse_stmts(tds, q0) == Err::<(Seq<SpecStmt>, int), SpecError>(
                        SpecError::ExpectedIdentifier { line: spec_line_at(tds, q0 + 1) },
                    ));
                }
                return Err(CompileError::ExpectedIdentifier { line });
            },
        }
        self.consume_count(1);
        match self.expect(&Token::Equal) {
            Err(e) => {
                proof {
                    assert(spec_parse_stmts(tds, q0) == Err::<(Seq<SpecStmt>, int), SpecError>(
                        e@,
                    ));
                }
                return Err(e);
            },
            Ok(()) => {},
        }
        let expr = match self.expect_expr() {
            Err(e) => {
                proof {
                    assert(spec_parse_stmts(tds, q0) == Err::<(Seq<SpecStmt>, int), SpecError>(
                        e@,
                    ));
                }
                return Err(e);
            },
            Ok(e) => e,
        };
        match self.expect(&Token::SemiColon) {
            Err(e) => {
                proof {
                    assert(spec_parse_stmts(tds, q0) == Err::<(Seq<SpecStmt>, int), SpecError>(
                        e@,
                    ));
                }
                return Err(e);
            },
            Ok(()) => {},
        }
        let st = NodeStmt::Let { ident, expr };
        proof {
            assert(t0.subrange(q0, self.pos as int) =~= unparse_stmt(st));
            assert(view_stmt(st) == SpecStmt::Let {
                ident: tds[q0 + 1],
                expr: view_expr(st->Let_expr),
            });
            assert(spec_parse_stmts(tds, q0) == (match spec_parse_stmts(tds, self.pos as int) {
                Ok(pr) => Ok::<(Seq<SpecStmt>, int), SpecError>(
                    (seq![view_stmt(st)] + pr.0, pr.1),
                ),
                Err(e2) => Err(e2),
            })) by {
                assert(pos_clip(self.pos as int, q0 + 1, tds.len() as int) == self.pos as int);
            }
        }
        Ok(st)
    }

    /// Parses one nested block statement, the cursor on its opening brace.
    #[verifier::rlimit(100)]
    #[verifier::spinoff_prover]
    fn parse_block_stmt(&mut self) -> (r: Result<NodeStmt, CompileError>)
        requires
            old(self).wf(),
            old(self).pos < old(self).tokens@.len(),
            old(self).all_tds()[old(self).pos as int].token is OpenBrace,
        ensures
            final(self).tokens@ == old(self).tokens@,
            final(self).wf(),
            old(self).pos <= final(self).pos,
            r matches Ok(st) ==> stmt_respects(st) && old(self).all_toks().subrange(
                old(self).pos as int,
                final(self).pos as int,
            ) == unparse_stmt(st) && old(self).pos < final(self).pos && spec_parse_stmts(
                old(self).all_tds(),
                old(self).pos as int,
            ) == (match spec_parse_stmts(old(self).all_tds(), final(self).pos as int) {
                Ok(pr) => Ok::<(Seq<SpecStmt>, int), SpecError>(
                    (seq![view_stmt(st)] + pr.0, pr.1),
                ),
                Err(e2) => Err(e2),
            }),
            r matches Err(e) ==> spec_parse_stmts(old(self).all_tds(), old(self).pos as int)
                == Err::<(Seq<SpecStmt>, int), SpecError>(e@),
        decreases old(self).tokens@.len() - old(self).pos, 2int,
    {
        let ghost t0 = self.all_toks();
        let ghost tds = self.all_tds();
        let ghost q0 = self.pos as int;
        proof {
            assert(forall|i: int| 0 <= i < tds.len() ==> (#[trigger] tds[i]).token == t0[i]);
        }
        self.consume_count(1);
        let inner = match self.parse_stmts() {
            Err(e) => {
                proof {
                    assert(spec_parse_stmts(tds, q0) == Err::<(Seq<SpecStmt>, int), SpecError>(
                        e@,
                    ));
                }
                return Err(e);
            },
            Ok(ss) => ss,
        };
        let ghost u = inner@;
        let st = NodeStmt::Scope { scope: NodeScope(inner) };
        proof {
            let end = self.pos as int;
            lemma_subrange_split(t0, q0, q0 + 1, end);
            assert(t0.subrange(q0, q0 + 1) =~= seq![SpecToken::OpenBrace]);
            assert(unparse_stmt(st) =~= seq![SpecToken::OpenBrace] + (unparse_stmts(u)
                + seq![SpecToken::CloseBrace]));
            assert(t0.subrange(q0, end) == unparse_stmt(st));
            assert(view_stmt(st) == SpecStmt::Scope { body: view_stmts(u) });
            assert(spec_parse_stmts(tds, q0) == (match spec_parse_stmts(tds, self.pos as int) {
                Ok(pr) => Ok::<(Seq<SpecStmt>, int), SpecError>(
                    (seq![view_stmt(st)] + pr.0, pr.1),
                ),
                Err(e2) => Err(e2),
            })) by {
                assert(pos_clip(self.pos as int, q0 + 1, tds.len() as int) == self.pos as int);
            }
        }
        Ok(st)
    }

    /// Parses one `if` statement with its whole else-chain, the cursor on
    /// the keyword.
    #[verifier::rlimit(100)]
    #[verifier::spinoff_prover]
    fn parse_if_stmt(&mut self) -> (r: Result<NodeStmt, CompileError>)
        requires
            old(self).wf(),
            old(self).pos < old(self).tokens@.len(),
            old(self).all_tds()[old(self).pos as int].token is If,
        ensures
            final(self).tokens@ == old(self).tokens@,
            final(self).wf(),
            old(self).pos <= final(self).pos,
            r matches Ok(st) ==> stmt_respects(st) && old(self).all_toks().subrange(
                old(self).pos as int,
                final(self).pos as int,
            ) == unparse_stmt(st) && old(self).pos < final(self).pos && spec_parse_stmts(
                old(self).all_tds(),
                old(self).pos as int,
            ) == (match spec_parse_stmts(old(self).all_tds(), final(self).pos as int) {
                Ok(pr) => Ok::<(Seq<SpecStmt>, int), SpecError>(
                    (seq![view_stmt(st)] + pr.0, pr.1),
                ),
                Err(e2) => Err(e2),
            }),
            r matches Err(e) ==> spec_parse_stmts(old(self).all_tds(), old(self).pos as int)
                == Err::<(Seq<SpecStmt>, int), SpecError>(e@),
        decreases old(self).tokens@.len() - old(self).pos, 2int,
    {
        let ghost t0 = self.all_toks();
        let ghost tds = self.all_tds();
        let ghost q0 = self.pos as int;
        proof {
            assert(forall|i: int| 0 <= i < tds.len() ==> (#[trigger] tds[i]).token == t0[i]);
        }
        self.consume_count(1);
        match self.expect(&Token::OpenParen) {
            Err(e) => {
                proof {
                    assert(spec_parse_stmts(tds, q0) == Err::<(Seq<SpecStmt>, int), SpecError>(
                        e@,
                    ));
                }
                return Err(e);
            },
            Ok(()) => {},
        }
        let cond = match self.expect_expr() {
            Err(e) => {
                proof {
                    assert(spec_parse_stmts(tds, q0) == Err::<(Seq<SpecStmt>, int), SpecError>(
                        e@,
                    ));
                }
                return Err(e);
            },
            Ok(e) => e,
        };
        let ghost ce = self.pos as int;
        match self.expect(&Token::CloseParen) {
            Err(e) => {
                proof {
                    assert(spec_parse_stmts(tds, q0) == Err::<(Seq<SpecStmt>, int), SpecError>(
                        e@,
                    ));
                }
                return Err(e);
            },
            Ok(()) => {},
        }
        match self.expect(&Token::OpenBrace) {
            Err(e) => {
                proof {
                    assert(spec_parse_stmts(tds, q0) == Err::<(Seq<SpecStmt>, int), SpecError>(
                        e@,
                    ));
                }
                return Err(e);
            },
            Ok(()) => {},
        }
        let body = match self.parse_stmts() {
            Err(e) => {
                proof {
                    assert(spec_parse_stmts(tds, q0) == Err::<(Seq<SpecStmt>, int), SpecError>(
                        e@,
                    ));
                }
                return Err(e);
            },
            Ok(ss) => ss,
        };
        let ghost be = self.pos as int;
        let chain = match self.parse_else() {
            Err(e) => {
                proof {
                    assert(spec_parse_stmts(tds, q0) == Err::<(Seq<SpecStmt>, int), SpecError>(
                        e@,
                    ));
                }
                return Err(e);
            },
            Ok(c) => c,
        };
        let ghost cnd = cond;
        let ghost u = body@;
        let ghost ch = chain;
        let st = NodeStmt::If { expr: cond, scope: NodeScope(body), chain };
        proof {
            let end = self.pos as int;
            lemma_subrange_split(t0, q0, q0 + 2, end);
            lemma_subrange_split(t0, q0 + 2, ce, end);
            lemma_subrange_split(t0, ce, ce + 2, end);
            lemma_subrange_split(t0, ce + 2, be, end);
            assert(t0.subrange(q0, q0 + 2) =~= seq![SpecToken::If, SpecToken::OpenParen]);
            assert(t0.subrange(ce, ce + 2) =~= seq![
                SpecToken::CloseParen,
                SpecToken::OpenBrace,
            ]);
            assert(unparse_stmt(st) =~= seq![SpecToken::If, SpecToken::OpenParen] + (unparse_expr(
                cnd,
            ) + (seq![SpecToken::CloseParen, SpecToken::OpenBrace] + ((unparse_stmts(u)
                + seq![SpecToken::CloseBrace]) + unparse_chain(ch)))));
            assert(t0.subrange(q0, end) == unparse_stmt(st));
            assert(view_stmt(st) == SpecStmt::If {
                cond: view_expr(cnd),
                body: view_stmts(u),
                chain: view_chain(ch),
            });
            assert(spec_parse_stmts(tds, q0) == (match spec_parse_stmts(tds, self.pos as int) {
                Ok(pr) => Ok::<(Seq<SpecStmt>, int), SpecError>(
                    (seq![view_stmt(st)] + pr.0, pr.1),
                ),
                Err(e2) => Err(e2),
            })) by {
                assert(pos_clip(self.pos as int, q0 + 1, tds.len() as int) == self.pos as int);
            }
        }
        Ok(st)
    }

    /// Parses one re-assignment, the cursor on the identifier; any other
    /// token after the identifier is the statement-position diagnostic.
    #[verifier::rlimit(100)]
    #[verifier::spinoff_prover]
    fn parse_reassign_stmt(&mut self) -> (r: Result<NodeStmt, CompileError>)
        requires
            old(self).wf(),
            old(self).pos < old(self).tokens@.len(),
            old(self).all_tds()[old(self).pos as int].token is Ident,
        ensures
            final(self).tokens@ == old(self).tokens@,
            final(self).wf(),
            old(self).pos <= final(self).pos,
            r matches Ok(st) ==> stmt_respects(st) && old(self).all_toks().subrange(
                old(self).pos as int,
                final(self).pos as int,
            ) == unparse_stmt(st) && old(self).pos < final(self).pos && spec_parse_stmts(
                old(self).all_tds(),
                old(self).pos as int,
            ) == (match spec_parse_stmts(old(self).all_tds(), final(self).pos as int) {
                Ok(pr) => Ok::<(Seq<SpecStmt>, int), SpecError>(
                    (seq![view_stmt(st)] + pr.0, pr.1),
                ),
                Err(e2) => Err(e2),
            }),
            r matches Err(e) ==> spec_parse_stmts(old(self).all_tds(), old(self).pos as int)
                == Err::<(Seq<SpecStmt>, int), SpecError>(e@),
        decreases old(self).tokens@.len() - old(self).pos, 2int,
    {
        let ghost t0 = self.all_toks();
        let ghost tds = self.all_tds();
        let ghost q0 = self.pos as int;
        proof {
            assert(forall|i: int| 0 <= i < tds.len() ==> (#[trigger] tds[i]).token == t0[i]);
        }
        let cur = self.tokens[self.pos].clone();
        if self.peek_expect(1, &Token::Equal) {
            self.consume_count(2);
            let expr = match self.expect_expr() {
                Err(e) => {
                    proof {
                        assert(spec_parse_stmts(tds, q0) == Err::<
                            (Seq<SpecStmt>, int),
                            SpecError,
                        >(e@));
                    }
                    return Err(e);
                },
                Ok(e) => e,
            };
            match self.expect(&Token::SemiColon) {
                Err(e) => {
                    proof {
                        assert(spec_parse_stmts(tds, q0) == Err::<
                            (Seq<SpecStmt>, int),
                            SpecError,
                        >(e@));
                    }
                    return Err(e);
                },
                Ok(()) => {},
            }
            let st = NodeStmt::ReAssign { expr, ident: cur };
            proof {
                assert(t0.subrange(q0, self.pos as int) =~= unparse_stmt(st));
                assert(view_stmt(st) == SpecStmt::ReAssign {
                    expr: view_expr(st->ReAssign_expr),
                    ident: tds[q0],
                });
                assert(spec_parse_stmts(tds, q0) == (match spec_parse_stmts(
                    tds,
                    self.pos as int,
                ) {
                    Ok(pr) => Ok::<(Seq<SpecStmt>, int), SpecError>(
                        (seq![view_stmt(st)] + pr.0, pr.1),
                    ),
                    Err(e2) => Err(e2),
                })) by {
                    assert(pos_clip(self.pos as int, q0 + 1, tds.len() as int)
                        == self.pos as int);
                }
            }
            Ok(st)
        } else {
            proof {
                assert(spec_parse_stmts(tds, q0) == Err::<(Seq<SpecStmt>, int), SpecError>(
                    SpecError::ExpectedStatement { line: tds[q0].line },
                ));
            }
            Err(CompileError::ExpectedStatement { line: cur.line })
        }
    }

    /// Parses statements until the `}` that closes the enclosing block is
    /// consumed. The consumed tokens are exactly the statements' tokens
    /// followed by that closing brace, and the result is exactly what
    /// `spec_parse_stmts` yields.
    #[verifier::rlimit(100)]
    #[verifier::spinoff_prover]
    fn parse_stmts(&mut self) -> (r: Result<Vec<NodeStmt>, CompileError>)
        requires
            old(self).wf(),
        ensures
            final(self).tokens@ == old(self).tokens@,
            final(self).wf(),
            old(self).pos <= final(self).pos,
            r matches Ok(ss) ==> stmts_respect(ss@) && old(self).all_toks().subrange(
                old(self).pos as int,
                final(self).pos as int,
            ) == unparse_stmts(ss@) + seq![SpecToken::CloseBrace],
            r matches Ok(ss) ==> spec_parse_stmts(old(self).all_tds(), old(self).pos as int)
                == Ok::<(Seq<SpecStmt>, int), SpecError>(
                (view_stmts(ss@), final(self).pos as int),
            ),
            r matches Err(e) ==> spec_parse_stmts(old(self).all_tds(), old(self).pos as int)
                == Err::<(Seq<SpecStmt>, int), SpecError>(e@),
        decreases old(self).tokens@.len() - old(self).pos, 3int,
    {
        let ghost toks0 = self.tokens@;
        let ghost t0 = self.all_toks();
        let ghost tds = self.all_tds();
        let ghost p0 = self.pos as int;
        let mut stmts: Vec<NodeStmt> = Vec::new();
        proof {
            assert(t0.subrange(p0, p0) =~= unparse_stmts(stmts@));
            assert(forall|i: int| 0 <= i < tds.len() ==> (#[trigger] tds[i]).token == t0[i]);
            assert(view_stmts(stmts@) + spec_parse_stmts(tds, p0)->Ok_0.0 =~= spec_parse_stmts(
                tds,
                p0,
            )->Ok_0.0);
        }
        while self.pos < self.tokens.len()
            invariant
                self.wf(),
                self.tokens@ == toks0,
                tds == self.all_tds(),
                forall|i: int| 0 <= i < tds.len() ==> (#[trigger] tds[i]).token == t0[i],
                p0 <= self.pos as int <= t0.len(),
                stmts_respect(stmts@),
                t0.subrange(p0, self.pos as int) == unparse_stmts(stmts@),
                spec_parse_stmts(tds, p0) == spec_stmts_cont(
                    stmts@,
                    spec_parse_stmts(tds, self.pos as int),
                ),
            decreases t0.len() - self.pos,
        {
            let ghost q0 = self.pos as int;
            let ghost before = stmts@;
            let is_close = token_matches(&self.tokens[self.pos].token, &Token::CloseBrace);
            if is_close {
                self.consume_count(1);
                proof {
                    assert(t0.subrange(p0, self.pos as int) =~= unparse_stmts(stmts@)
                        + seq![SpecToken::CloseBrace]);
                    assert(spec_parse_stmts(tds, q0) == Ok::<(Seq<SpecStmt>, int), SpecError>(
                        (Seq::empty(), q0 + 1),
                    ));
                    assert(view_stmts(stmts@) + Seq::<SpecStmt>::empty() =~= view_stmts(stmts@));
                }
                return Ok(stmts);
            }
            let st = match &self.tokens[self.pos].token {
                Token::Return => match self.parse_return_stmt() {
                    Err(e) => {
                        return Err(e);
                    },
                    Ok(st) => st,
                },
                Token::Let => match self.parse_let_stmt() {
                    Err(e) => {
                        return Err(e);
                    },
                    Ok(st) => st,
                },
                Token::OpenBrace => match self.parse_block_stmt() {
                    Err(e) => {
                        return Err(e);
                    },
                    Ok(st) => st,
                },
                Token::If => match self.parse_if_stmt() {
                    Err(e) => {
                        return Err(e);
                    },
                    Ok(st) => st,
                },
                Token::Ident(_) => match self.parse_reassign_stmt() {
                    Err(e) => {
                        return Err(e);
                    },
                    Ok(st) => st,
                },
                _ => {
                    let line = self.tokens[self.pos].line;
                    proof {
                        assert(spec_parse_stmts(tds, q0) == Err::<
                            (Seq<SpecStmt>, int),
                            SpecError,
                        >(SpecError::ExpectedStatement { line: tds[q0].line }));
                    }
                    return Err(CompileError::ExpectedStatement { line });
                },
            };
            proof {
                assert(t0.subrange(p0, self.pos as int) =~= t0.subrange(p0, q0) + t0.subrange(
                    q0,
                    self.pos as int,
                ));
                lemma_unparse_stmts_push(before, st);
                lemma_stmts_respect_push(before, st);
                lemma_stmts_cont_step(tds, p0, q0, before, st, self.pos as int);
            }
            stmts.push(st);
        }
        proof {
            assert(spec_parse_stmts(tds, self.pos as int) == Err::<
                (Seq<SpecStmt>, int),
                SpecError,
            >(SpecError::UnexpectedEnd { expected: SpecToken::CloseBrace }));
        }
        Err(CompileError::UnexpectedEnd { expected: Token::CloseBrace })
    }

    /// Parses the continuation of an `if`: a chain of `elif` links ended by
    /// an optional `else`, or nothing when the next token starts neither.
    #[verifier::rlimit(100)]
    #[verifier::spinoff_prover]
    fn parse_else(&mut self) -> (r: Result<Option<NodeElse>, CompileError>)
        requires
            old(self).wf(),
        ensures
            final(self).tokens@ == old(self).tokens@,
            final(self).wf(),
            old(self).pos <= final(self).pos,
            r matches Ok(c) ==> chain_respects(c) && old(self).all_toks().subrange(
                old(self).pos as int,
                final(self).pos as int,
            ) == unparse_chain(c),
            r matches Ok(c) ==> spec_parse_chain(old(self).all_tds(), old(self).pos as int)
                == Ok::<(Seq<SpecElse>, int), SpecError>(
                (view_chain(c), final(self).pos as int),
            ),
            r matches Err(e) ==> spec_parse_chain(old(self).all_tds(), old(self).pos as int)
                == Err::<(Seq<SpecElse>, int), SpecError>(e@),
        decreases old(self).tokens@.len() - old(self).pos, 3int,
    {
        let ghost t0 = self.all_toks();
        let ghost tds = self.all_tds();
        let ghost p0 = self.pos as int;
        proof {
            assert(forall|i: int| 0 <= i < tds.len() ==> (#[trigger] tds[i]).token == t0[i]);
        }
        if self.pos >= self.tokens.len() {
            proof {
                assert(t0.subrange(p0, p0) =~= unparse_chain(None));
                assert(view_chain(None) =~= Seq::<SpecElse>::empty());
            }
            return Ok(None);
        }
        let cur = self.tokens[self.pos].clone();
        match &cur.token {
            Token::ElseIf => {
                self.consume_count(1);
                match self.expect(&Token::OpenParen) {
                    Err(e) => {
                        proof {
                            assert(spec_parse_chain(tds, p0) == Err::<
                                (Seq<SpecElse>, int),
                                SpecError,
                            >(e@));
                        }
                        return Err(e);
                    },
                    Ok(()) => {},
                }
                let cond = match self.expect_expr() {
                    Err(e) => {
                        proof {
                            assert(spec_parse_chain(tds, p0) == Err::<
                                (Seq<SpecElse>, int),
                                SpecError,
                            >(e@));
                        }
                        return Err(e);
                    },
                    Ok(e) => e,
                };
                let ghost ce = self.pos as int;
                match self.expect(&Token::CloseParen) {
                    Err(e) => {
                        proof {
                            assert(spec_parse_chain(tds, p0) == Err::<
                                (Seq<SpecElse>, int),
                                SpecError,
                            >(e@));
                        }
                        return Err(e);
                    },
                    Ok(()) => {},
                }
                match self.expect(&Token::OpenBrace) {
                    Err(e) => {
                        proof {
                            assert(spec_parse_chain(tds, p0) == Err::<
                                (Seq<SpecElse>, int),
                                SpecError,
                            >(e@));
                        }
                        return Err(e);
                    },
                    Ok(()) => {},
                }
                let body = match self.parse_stmts() {
                    Err(e) => {
                        proof {
                            assert(spec_parse_chain(tds, p0) == Err::<
                                (Seq<SpecElse>, int),
                                SpecError,
                            >(e@));
                        }
                        return Err(e);
                    },
                    Ok(ss) => ss,
                };
                let ghost be = self.pos as int;
                let chain = match self.parse_else() {
                    Err(e) => {
                        proof {
                            assert(spec_parse_chain(tds, p0) == Err::<
                                (Seq<SpecElse>, int),
                                SpecError,
                            >(e@));
                        }
                        return Err(e);
                    },
                    Ok(c) => c,
                };
                let ghost cnd = cond;
                let ghost u = body@;
                let ghost ch = chain;
                let link = NodeElse::ElseIf {
                    expr: cond,
                    scope: NodeScope(body),
                    chain: Box::new(chain),
                };
                proof {
                    let end = self.pos as int;
                    lemma_subrange_split(t0, p0, p0 + 2, end);
                    lemma_subrange_split(t0, p0 + 2, ce, end);
                    lemma_subrange_split(t0, ce, ce + 2, end);
                    lemma_subrange_split(t0, ce + 2, be, end);
                    assert(t0.subrange(p0, p0 + 2) =~= seq![
                        SpecToken::ElseIf,
                        SpecToken::OpenParen,
                    ]);
                    assert(t0.subrange(ce, ce + 2) =~= seq![
                        SpecToken::CloseParen,
                        SpecToken::OpenBrace,
                    ]);
                    assert(unparse_else(link) =~= seq![SpecToken::ElseIf, SpecToken::OpenParen] + (
                    unparse_expr(cnd) + (seq![SpecToken::CloseParen, SpecToken::OpenBrace] + ((
                    unparse_stmts(u) + seq![SpecToken::CloseBrace]) + unparse_chain(ch)))));
                    assert(t0.subrange(p0, end) == unparse_else(link));
                    assert(view_else(link) == SpecElse::ElseIf {
                        cond: view_expr(cnd),
                        body: view_stmts(u),
                        chain: view_chain(ch),
                    });
                    assert(spec_parse_chain(tds, p0) == Ok::<(Seq<SpecElse>, int), SpecError>(
                        (seq![view_else(link)], end),
                    ));
                    assert(view_chain(Some(link)) =~= seq![view_else(link)]);
                }
                Ok(Some(link))
            },
            Token::Else => {
                self.consume_count(1);
                match self.expect(&Token::OpenBrace) {
                    Err(e) => {
                        proof {
                            assert(spec_parse_chain(tds, p0) == Err::<
                                (Seq<SpecElse>, int),
                                SpecError,
                            >(e@));
                        }
                        return Err(e);
                    },
                    Ok(()) => {},
                }
                let body = match self.parse_stmts() {
                    Err(e) => {
                        proof {
                            assert(spec_parse_chain(tds, p0) == Err::<
                                (Seq<SpecElse>, int),
                                SpecError,
                            >(e@));
                        }
                        return Err(e);
                    },
                    Ok(ss) => ss,
                };
                let ghost u = body@;
                let link = NodeElse::Else(NodeScope(body));
                proof {
                    let end = self.pos as int;
                    lemma_subrange_split(t0, p0, p0 + 2, end);
                    assert(t0.subrange(p0, p0 + 2) =~= seq![SpecToken::Else, SpecToken::OpenBrace]);
                    assert(unparse_else(link) =~= seq![SpecToken::Else, SpecToken::OpenBrace] + (
                    unparse_stmts(u) + seq![SpecToken::CloseBrace]));
                    assert(t0.subrange(p0, end) == unparse_else(link));
                    assert(view_else(link) == SpecElse::Else { body: view_stmts(u) });
                    assert(spec_parse_chain(tds, p0) == Ok::<(Seq<SpecElse>, int), SpecError>(
                        (seq![view_else(link)], end),
                    ));
                    assert(view_chain(Some(link)) =~= seq![view_else(link)]);
                }
                Ok(Some(link))
            },
            _ => {
                proof {
                    assert(t0.subrange(p0, p0) =~= unparse_chain(None));
                    assert(spec_parse_chain(tds, p0) == Ok::<(Seq<SpecElse>, int), SpecError>(
                        (Seq::empty(), p0),
                    ));
                    assert(view_chain(None) =~= Seq::<SpecElse>::empty());
                }
                Ok(None)
            },
        }
    }

    /// Parses one function after its introducing `fn` keyword: name, empty
    /// parameter parens, `->`, return type, and a braced body.
    #[verifier::rlimit(100)]
    #[verifier::spinoff_prover]
    fn parse_func(&mut self) -> (r: Result<NodeFunc, CompileError>)
        requires
            old(self).wf(),
        ensures
            final(self).tokens@ == old(self).tokens@,
            final(self).wf(),
            old(self).pos <= final(self).pos,
            r matches Ok(f) ==> func_respects(f) && f.return_type is Some && old(
                self,
            ).all_toks().subrange(old(self).pos as int, final(self).pos as int)
                == unparse_func_rest(f),
            r matches Ok(f) ==> spec_parse_func(old(self).all_tds(), old(self).pos as int)
                == Ok::<(SpecFunc, int), SpecError>((view_func(f), final(self).pos as int)),
            r matches Err(e) ==> spec_parse_func(old(self).all_tds(), old(self).pos as int)
                == Err::<(SpecFunc, int), SpecError>(e@),
        decreases old(self).tokens@.len() - old(self).pos, 4int,
    {
        let ghost t0 = self.all_toks();
        let ghost tds = self.all_tds();
        let ghost p0 = self.pos as int;
        proof {
            assert(forall|i: int| 0 <= i < tds.len() ==> (#[trigger] tds[i]).token == t0[i]);
        }
        let line = self.line_here();
        if self.pos >= self.tokens.len() {
            return Err(CompileError::ExpectedIdentifier { line });
        }
        let name = match &self.tokens[self.pos].token {
            Token::Ident(n) => n.clone(),
            _ => {
                return Err(CompileError::ExpectedIdentifier { line });
            },
        };
        self.consume_count(1);
        match self.expect(&Token::OpenParen) {
            Err(e) => {
                proof {
                    assert(spec_parse_func(tds, p0) == Err::<(SpecFunc, int), SpecError>(e@));
                }
                return Err(e);
            },
            Ok(()) => {},
        }
        match self.expect(&Token::CloseParen) {
            Err(e) => {
                proof {
                    assert(spec_parse_func(tds, p0) == Err::<(SpecFunc, int), SpecError>(e@));
                }
                return Err(e);
            },
            Ok(()) => {},
        }
        match self.expect(&Token::ReturnSig) {
            Err(e) => {
                proof {
                    assert(spec_parse_func(tds, p0) == Err::<(SpecFunc, int), SpecError>(e@));
                }
                return Err(e);
            },
            Ok(()) => {},
        }
        let tline = self.line_here();
        if self.pos >= self.tokens.len() {
            proof {
                assert(spec_parse_func(tds, p0) == Err::<(SpecFunc, int), SpecError>(
                    SpecError::ExpectedType { line: spec_line_at(tds, self.pos as int) },
                ));
            }
            return Err(CompileError::ExpectedType { line: tline });
        }
        let kind = match &self.tokens[self.pos].token {
            Token::LitType(k) => *k,
            _ => {
                proof {
                    assert(spec_parse_func(tds, p0) == Err::<(SpecFunc, int), SpecError>(
                        SpecError::ExpectedType { line: spec_line_at(tds, self.pos as int) },
                    ));
                }
                return Err(CompileError::ExpectedType { line: tline });
            },
        };
        self.consume_count(1);
        match self.expect(&Token::OpenBrace) {
            Err(e) => {
                proof {
                    assert(spec_parse_func(tds, p0) == Err::<(SpecFunc, int), SpecError>(e@));
                }
                return Err(e);
            },
            Ok(()) => {},
        }
        let stmts = match self.parse_stmts() {
            Err(e) => {
                proof {
                    assert(spec_parse_func(tds, p0) == Err::<(SpecFunc, int), SpecError>(e@));
                }
                return Err(e);
            },
            Ok(ss) => ss,
        };
        let ghost nm = name@;
        let ghost u = stmts@;
        let f = NodeFunc::new(name, stmts, Some(kind));
        proof {
            let end = self.pos as int;
            lemma_subrange_split(t0, p0, p0 + 6, end);
            assert(t0.subrange(p0, p0 + 6) =~= seq![
                SpecToken::Ident(nm),
                SpecToken::OpenParen,
                SpecToken::CloseParen,
                SpecToken::ReturnSig,
                SpecToken::LitType(kind),
                SpecToken::OpenBrace,
            ]);
            assert(unparse_func_rest(f) =~= seq![
                SpecToken::Ident(nm),
                SpecToken::OpenParen,
                SpecToken::CloseParen,
                SpecToken::ReturnSig,
                SpecToken::LitType(kind),
                SpecToken::OpenBrace,
            ] + (unparse_stmts(u) + seq![SpecToken::CloseBrace]));
            assert(t0.subrange(p0, end) == unparse_func_rest(f));
            assert(view_func(f) == SpecFunc { name: nm, stmts: view_stmts(u), ret: Some(kind) });
            assert(spec_parse_func(tds, p0) == Ok::<(SpecFunc, int), SpecError>(
                (view_func(f), end),
            )) by {
                assert(pos_clip(end, p0 + 1, tds.len() as int) == end);
            }
        }
        Ok(f)
    }

    /// Parses a whole file: tokens outside any `fn` item are skipped, and
    /// each `fn` introduces a function.
    fn parse_file(&mut self) -> (r: Result<Vec<NodeFunc>, CompileError>)
        requires
            old(self).wf(),
        ensures
            final(self).tokens@ == old(self).tokens@,
            final(self).wf(),
            r matches Ok(fs) ==> forall|i: int|
                0 <= i < fs@.len() ==> func_respects(#[trigger] fs@[i]) && fs@[i].return_type
                    is Some,
            r matches Ok(fs) ==> spec_parse_file(old(self).all_tds(), old(self).pos as int)
                == Ok::<(Seq<SpecFunc>, int), SpecError>(
                (view_funcs(fs@), final(self).pos as int),
            ),
            r matches Err(e) ==> spec_parse_file(old(self).all_tds(), old(self).pos as int)
                == Err::<(Seq<SpecFunc>, int), SpecError>(e@),
        decreases old(self).tokens@.len() - old(self).pos, 5int,
    {
        let ghost toks0 = self.tokens@;
        let ghost t0 = self.all_toks();
        let ghost tds = self.all_tds();
        let ghost p0 = self.pos as int;
        let mut funcs: Vec<NodeFunc> = Vec::new();
        proof {
            assert(forall|i: int| 0 <= i < tds.len() ==> (#[trigger] tds[i]).token == t0[i]);
            assert(view_funcs(funcs@) + spec_parse_file(tds, p0)->Ok_0.0 =~= spec_parse_file(
                tds,
                p0,
            )->Ok_0.0);
        }
        while self.pos < self.tokens.len()
            invariant
                self.wf(),
                self.tokens@ == toks0,
                tds == self.all_tds(),
                forall|i: int| 0 <= i < tds.len() ==> (#[trigger] tds[i]).token == t0[i],
                p0 <= self.pos as int <= tds.len(),
                forall|i: int|
                    0 <= i < funcs@.len() ==> func_respects(#[trigger] funcs@[i])
                        && funcs@[i].return_type is Some,
                spec_parse_file(tds, p0) == spec_funcs_cont(
                    funcs@,
                    spec_parse_file(tds, self.pos as int),
                ),
            decreases self.tokens@.len() - self.pos,
        {
            let ghost q0 = self.pos as int;
            let ghost before = funcs@;
            let is_fn = token_matches(&self.tokens[self.pos].token, &Token::FuncSig);
            self.consume_count(1);
            if is_fn {
                let f = match self.parse_func() {
                    Err(e) => {
                        proof {
                            assert(spec_parse_file(tds, q0) == Err::<
                                (Seq<SpecFunc>, int),
                                SpecError,
                            >(e@));
                        }
                        return Err(e);
                    },
                    Ok(f) => f,
                };
                funcs.push(f);
                proof {
                    assert(forall|i: int|
                        0 <= i < before.len() ==> funcs@[i] == before[i]);
                    assert(spec_parse_file(tds, q0) == (match spec_parse_file(
                        tds,
                        self.pos as int,
                    ) {
                        Ok(pr) => Ok::<(Seq<SpecFunc>, int), SpecError>(
                            (seq![view_func(f)] + pr.0, pr.1),
                        ),
                        Err(e2) => Err(e2),
                    })) by {
                        assert(pos_clip(self.pos as int, q0 + 1, tds.len() as int)
                            == self.pos as int);
                    }
                    lemma_funcs_cont_step(tds, p0, q0, before, f, self.pos as int);
                }
            } else {
                proof {
                    assert(spec_parse_file(tds, q0) == spec_parse_file(tds, q0 + 1));
                }
            }
        }
        proof {
            assert(spec_parse_file(tds, self.pos as int) == Ok::<
                (Seq<SpecFunc>, int),
                SpecError,
            >((Seq::empty(), self.pos as int)));
            assert(view_funcs(funcs@) + Seq::<SpecFunc>::empty() =~= view_funcs(funcs@));
        }
        Ok(funcs)
    }
}

/// Parses a token stream into a program. On success, every expression in
/// every function respects the operator table, and every function carries
/// its declared return type.
pub fn parse(tokens: Vec<TokenData>) -> (r: Result<NodeRoot, CompileError>)
    ensures
        r matches Ok(root) ==> forall|i: int|
            0 <= i < root.funcs@.len() ==> func_respects(#[trigger] root.funcs@[i])
                && root.funcs@[i].return_type is Some,
        r is Ok <==> spec_parse(view_tokens(tokens@)) is Ok,
        r matches Ok(root) ==> spec_parse(view_tokens(tokens@)) == Ok::<
            Seq<SpecFunc>,
            SpecError,
        >(view_funcs(root.funcs@)),
        r matches Err(e) ==> spec_parse(view_tokens(tokens@)) == Err::<
            Seq<SpecFunc>,
            SpecError,
        >(e@),
{
    let mut parser = Parser { tokens, pos: 0 };
    proof {
        assert(parser.all_tds() =~= view_tokens(parser.tokens@));
    }
    match parser.parse_file() {
        Err(e) => Err(e),
        Ok(funcs) => Ok(NodeRoot { funcs }),
    }
}

} // verus!
