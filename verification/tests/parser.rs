use hydrogen::errors::CompileError;
use hydrogen::lexical::tokenize;
use hydrogen::parse_validation::parse_validation;
use hydrogen::parsing::{parse, NodeBiOp, NodeExpr, NodeRoot, NodeStmt, NodeTermExpr};

fn parse_src(src: &str) -> Result<NodeRoot, CompileError> {
    parse(tokenize(src).expect("lexing failed"))
}

fn num(n: &str) -> NodeExpr {
    NodeExpr::Term(NodeTermExpr::IntLiteral(String::from(n)))
}

fn bin(lhs: NodeExpr, op: NodeBiOp, rhs: NodeExpr) -> NodeExpr {
    NodeExpr::BinaryExpr(Box::new(hydrogen::parsing::NodeBiExpr { lhs, rhs, op }))
}

fn main_body(src: &str) -> Vec<NodeStmt> {
    let root = parse_src(src).expect("parsing failed");
    assert_eq!(root.funcs.len(), 1);
    let f = root.funcs.into_iter().next().unwrap();
    assert_eq!(f.f_name, "main");
    f.stmts
}

#[test]
fn multiplication_binds_tighter_than_addition() {
    let stmts = main_body("fn main() -> i32 { return 2 + 3 * 4; }");
    match &stmts[0] {
        NodeStmt::Return { expr } => {
            assert_eq!(
                *expr,
                bin(num("2"), NodeBiOp::Add, bin(num("3"), NodeBiOp::Multiply, num("4")))
            );
        },
        other => panic!("expected a return statement, got {:?}", other),
    }
}

#[test]
fn equal_precedence_associates_left() {
    let stmts = main_body("fn main() -> i32 { return 1 - 2 - 3; }");
    match &stmts[0] {
        NodeStmt::Return { expr } => {
            assert_eq!(
                *expr,
                bin(bin(num("1"), NodeBiOp::Subtract, num("2")), NodeBiOp::Subtract, num("3"))
            );
        },
        other => panic!("expected a return statement, got {:?}", other),
    }
}

#[test]
fn equality_binds_like_multiplication() {
    // `==` sits at level 2 with `*` and `/`, so `a == b + c` parses as
    // `(a == b) + c`.
    let stmts = main_body("fn main() -> i32 { return 1 == 2 + 3; }");
    match &stmts[0] {
        NodeStmt::Return { expr } => {
            assert_eq!(
                *expr,
                bin(bin(num("1"), NodeBiOp::Equality, num("2")), NodeBiOp::Add, num("3"))
            );
        },
        other => panic!("expected a return statement, got {:?}", other),
    }
}

#[test]
fn parentheses_override_precedence() {
    let stmts = main_body("fn main() -> i32 { return (2 + 3) * 4; }");
    match &stmts[0] {
        NodeStmt::Return { expr } => {
            assert_eq!(
                *expr,
                bin(
                    NodeExpr::Term(NodeTermExpr::Expression(Box::new(bin(
                        num("2"),
                        NodeBiOp::Add,
                        num("3")
                    )))),
                    NodeBiOp::Multiply,
                    num("4")
                )
            );
        },
        other => panic!("expected a return statement, got {:?}", other),
    }
}

#[test]
fn zero_argument_call_is_taken_whole() {
    let stmts = main_body("fn main() -> i32 { return helper(); }");
    match &stmts[0] {
        NodeStmt::Return { expr } => {
            assert_eq!(*expr, NodeExpr::Call(String::from("helper")));
        },
        other => panic!("expected a return statement, got {:?}", other),
    }
}

#[test]
fn if_else_chain_shape() {
    let stmts = main_body(
        "fn main() -> i32 { if (1) { return 1; } else if (2) { return 2; } else { return 3; } }",
    );
    match &stmts[0] {
        NodeStmt::If { chain, .. } => match chain {
            Some(hydrogen::parsing::NodeElse::ElseIf { chain: inner, .. }) => match **inner {
                Some(hydrogen::parsing::NodeElse::Else(_)) => {},
                ref other => panic!("expected a final else, got {:?}", other),
            },
            other => panic!("expected an else-if link, got {:?}", other),
        },
        other => panic!("expected an if statement, got {:?}", other),
    }
}

#[test]
fn missing_semicolon_is_reported() {
    let r = parse_src("fn main() -> i32 { return 1 }");
    match r {
        Err(CompileError::MissingToken { line, .. }) => assert_eq!(line, 1),
        other => panic!("expected a missing-token error, got {:?}", other),
    }
}

#[test]
fn missing_close_paren_is_reported() {
    let r = parse_src("fn main() -> i32 { return (1 + 2; }");
    match r {
        Err(CompileError::MissingToken { .. }) => {},
        other => panic!("expected a missing-token error, got {:?}", other),
    }
}

#[test]
fn missing_main_is_reported() {
    let root = parse_src("fn helper() -> i32 { return 1; }").expect("parsing failed");
    match parse_validation(&root) {
        Err(CompileError::MissingMain) => {},
        other => panic!("expected a missing-main error, got {:?}", other),
    }
}

#[test]
fn present_main_passes_validation() {
    let root = parse_src("fn main() -> i32 { return 1; }").expect("parsing failed");
    assert!(parse_validation(&root).is_ok());
}
