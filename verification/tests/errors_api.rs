use hydrogen::assembly::{AsmLine, CondCode, Reg};
use hydrogen::codegen::code_gen_structs::Generator;
use hydrogen::compile;
use hydrogen::errors::CompileError;
use hydrogen::lexical::{tokenize, Token};
use hydrogen::parsing::parse;

#[test]
fn empty_source_has_no_main() {
    match compile("") {
        Err(CompileError::MissingMain) => {},
        other => panic!("expected a missing-main error, got {:?}", other),
    }
}

#[test]
fn tokens_outside_functions_are_skipped() {
    let out = compile("stray ; tokens fn main() -> i32 { return 1; }");
    assert!(out.is_ok());
}

#[test]
fn junk_at_statement_position_is_reported() {
    match compile("fn main() -> i32 { ; return 1; }") {
        Err(CompileError::ExpectedStatement { line }) => assert_eq!(line, 1),
        other => panic!("expected a statement-position error, got {:?}", other),
    }
}

#[test]
fn missing_function_name_is_reported() {
    match compile("fn () -> i32 { return 1; }") {
        Err(CompileError::ExpectedIdentifier { line }) => assert_eq!(line, 1),
        other => panic!("expected an identifier error, got {:?}", other),
    }
}

#[test]
fn missing_return_type_is_reported() {
    match compile("fn main() -> { return 1; }") {
        Err(CompileError::ExpectedType { line }) => assert_eq!(line, 1),
        other => panic!("expected a type error, got {:?}", other),
    }
}

#[test]
fn unterminated_body_is_reported() {
    match compile("fn main() -> i32 { return 1;") {
        Err(CompileError::UnexpectedEnd { expected }) => {
            assert_eq!(expected, Token::CloseBrace);
        },
        other => panic!("expected an end-of-input error, got {:?}", other),
    }
}

#[test]
fn missing_expression_is_reported() {
    match compile("fn main() -> i32 { return ; }") {
        Err(CompileError::ExpectedExpression { line }) => assert_eq!(line, 1),
        other => panic!("expected an expression error, got {:?}", other),
    }
}

#[test]
fn missing_operand_is_reported() {
    match compile("fn main() -> i32 { return 1 + ; }") {
        Err(CompileError::ExpectedExpression { line }) => assert_eq!(line, 1),
        other => panic!("expected an expression error, got {:?}", other),
    }
}

#[test]
fn comparison_condition_codes() {
    let program = |op: &str| format!("fn main() -> i32 {{ return 1 {} 2; }}", op);
    let emitted = |op: &str| compile(&program(op)).expect("compilation failed").join("\n");
    assert!(emitted(">").contains("CMP X1, X2\nCSET X1, gt"));
    assert!(emitted("<").contains("CMP X1, X2\nCSET X1, lt"));
    assert!(emitted(">=").contains("CMP X1, X2\nCSET X1, ge"));
    assert!(emitted("<=").contains("CMP X1, X2\nCSET X1, le"));
    assert!(emitted("==").contains("SUBS X1, X1, X2\nCSET X1, eq"));
    assert!(emitted("-").contains("SUBS X1, X1, X2\nSTP"));
    assert!(emitted("/").contains("SDIV X1, X1, X2"));
}

#[test]
fn generator_stack_primitives_render() {
    let mut g = Generator::new();
    g.comment("scratch traffic");
    g.push(Reg::X1);
    g.push(Reg::X3);
    g.pop(Reg::X2);
    g.buffer_push(AsmLine::Cset(CondCode::Ge));
    g.pop_with_offset(Reg::X0, 1);
    assert_eq!(g.current_stack_pointer(), 0);
    let lines = g.finalize();
    assert_eq!(
        lines,
        vec![
            ";scratch traffic",
            "STP X1, X9, [SP, #-16]!",
            "STP X3, X9, [SP, #-16]!",
            "LDP X2, X9, [SP], #16",
            "CSET X1, ge",
            "LDP X0, X9, [SP, #16]",
            "ADD SP, SP, #16",
        ]
    );
}

#[test]
fn generator_scopes_shadow_innermost_first() {
    let mut g = Generator::new();
    g.begin_func(String::from("main"));
    g.push(Reg::X1);
    g.insert_ident(&String::from("x"), 1);
    g.begin_scope();
    g.push(Reg::X1);
    g.insert_ident(&String::from("x"), 2);
    let inner = g.get_variable(&String::from("x")).expect("x should be visible");
    assert_eq!(inner.stack_location, 2);
    assert_eq!(inner.line_number, 2);
    g.end_scope();
    let outer = g.get_variable(&String::from("x")).expect("x should be visible");
    assert_eq!(outer.stack_location, 1);
    assert_eq!(outer.line_number, 1);
    assert!(g.get_variable(&String::from("y")).is_none());
}

#[test]
fn large_literals_render_their_digits() {
    let out = compile("fn main() -> i32 { return 18446744073709551616; }").expect(
        "compilation failed",
    );
    assert!(out.contains(&String::from("MOV X1, #18446744073709551616")));
}

#[test]
fn generate_code_matches_rendering() {
    let tokens = tokenize("fn main() -> i32 { return 7; }").expect("lexing failed");
    let root = parse(tokens).expect("parsing failed");
    let structured = hydrogen::codegen::code_generator::generate_code(&root).expect(
        "code generation failed",
    );
    let rendered = hydrogen::codegen::generate(&root).expect("code generation failed");
    assert_eq!(structured.len(), rendered.len());
    assert!(structured.contains(&AsmLine::MovInt(String::from("7"))));
}
