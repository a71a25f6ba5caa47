use hydrogen::compile;
use hydrogen::errors::CompileError;

fn lines(src: &str) -> Vec<String> {
    compile(src).expect("compilation failed")
}

fn expect_error(src: &str) -> CompileError {
    match compile(src) {
        Err(e) => e,
        Ok(_) => panic!("compilation unexpectedly succeeded"),
    }
}

#[test]
fn return_42() {
    assert_eq!(
        lines("fn main() -> i32 { return 42; }"),
        vec![
            ".global _start",
            ".align 2",
            "_start:",
            "MOV X1, #42",
            "STP X1, X9, [SP, #-16]!",
            "LDP X0, X9, [SP], #16",
            "mov X16, #1",
            "svc #0x80",
            "ADD SP, SP, #0",
        ]
    );
}

#[test]
fn precedence_multiply_before_add() {
    assert_eq!(
        lines("fn main() -> i32 { return 2 + 3 * 4; }"),
        vec![
            ".global _start",
            ".align 2",
            "_start:",
            "MOV X1, #2",
            "STP X1, X9, [SP, #-16]!",
            "MOV X1, #3",
            "STP X1, X9, [SP, #-16]!",
            "MOV X1, #4",
            "STP X1, X9, [SP, #-16]!",
            "LDP X2, X9, [SP], #16",
            "LDP X1, X9, [SP], #16",
            "MUL X1, X1, X2",
            "STP X1, X9, [SP, #-16]!",
            "LDP X2, X9, [SP], #16",
            "LDP X1, X9, [SP], #16",
            "ADD X1, X1, X2",
            "STP X1, X9, [SP, #-16]!",
            "LDP X0, X9, [SP], #16",
            "mov X16, #1",
            "svc #0x80",
            "ADD SP, SP, #0",
        ]
    );
}

#[test]
fn two_locals_added() {
    assert_eq!(
        lines("fn main() -> i32 { let x = 10; let y = 20; return x + y; }"),
        vec![
            ".global _start",
            ".align 2",
            "_start:",
            "MOV X1, #10",
            "STP X1, X9, [SP, #-16]!",
            "MOV X1, #20",
            "STP X1, X9, [SP, #-16]!",
            "LDP X1, X2, [SP, #16]",
            "STP X1, X9, [SP, #-16]!",
            "LDP X1, X2, [SP, #16]",
            "STP X1, X9, [SP, #-16]!",
            "LDP X2, X9, [SP], #16",
            "LDP X1, X9, [SP], #16",
            "ADD X1, X1, X2",
            "STP X1, X9, [SP, #-16]!",
            "LDP X0, X9, [SP], #16",
            "mov X16, #1",
            "svc #0x80",
            "ADD SP, SP, #32",
        ]
    );
}

#[test]
fn if_else_branches_and_labels() {
    assert_eq!(
        lines("fn main() -> i32 { let x = 5; if (x == 5) { return 1; } else { return 0; } }"),
        vec![
            ".global _start",
            ".align 2",
            "_start:",
            "MOV X1, #5",
            "STP X1, X9, [SP, #-16]!",
            "LDP X1, X2, [SP, #0]",
            "STP X1, X9, [SP, #-16]!",
            "MOV X1, #5",
            "STP X1, X9, [SP, #-16]!",
            "LDP X2, X9, [SP], #16",
            "LDP X1, X9, [SP], #16",
            "SUBS X1, X1, X2",
            "CSET X1, eq",
            "STP X1, X9, [SP, #-16]!",
            "LDP X1, X9, [SP], #16",
            "cmp X1, 0",
            "b.eq label1",
            "MOV X1, #1",
            "STP X1, X9, [SP, #-16]!",
            "LDP X0, X9, [SP], #16",
            "mov X16, #1",
            "svc #0x80",
            "ADD SP, SP, #0",
            "MOV X2, 0",
            "cmp X2, 0",
            "b.eq label0",
            "label1:",
            "MOV X1, #0",
            "STP X1, X9, [SP, #-16]!",
            "LDP X0, X9, [SP], #16",
            "mov X16, #1",
            "svc #0x80",
            "ADD SP, SP, #0",
            "label0:",
            "ADD SP, SP, #16",
        ]
    );
}

#[test]
fn inner_shadow_does_not_leak() {
    assert_eq!(
        lines("fn main() -> i32 { let x = 1; { let x = 7; } return x; }"),
        vec![
            ".global _start",
            ".align 2",
            "_start:",
            "MOV X1, #1",
            "STP X1, X9, [SP, #-16]!",
            "MOV X1, #7",
            "STP X1, X9, [SP, #-16]!",
            "ADD SP, SP, #16",
            "LDP X1, X2, [SP, #0]",
            "STP X1, X9, [SP, #-16]!",
            "LDP X0, X9, [SP], #16",
            "mov X16, #1",
            "svc #0x80",
            "ADD SP, SP, #16",
        ]
    );
}

#[test]
fn zero_argument_call_links_and_returns() {
    assert_eq!(
        lines("fn helper() -> i32 { return 9; } fn main() -> i32 { return helper(); }"),
        vec![
            ".global _start",
            ".align 2",
            "_helper:",
            "MOV X1, #9",
            "STP X1, X9, [SP, #-16]!",
            "LDP X0, X9, [SP], #16",
            "ADD SP, SP, #0",
            "RET",
            "_start:",
            "MOV X29, X30",
            "BL _helper",
            "MOV X30, X29",
            "STP X0, X9, [SP, #-16]!",
            "LDP X0, X9, [SP], #16",
            "mov X16, #1",
            "svc #0x80",
            "ADD SP, SP, #0",
        ]
    );
}

#[test]
fn integer_digits_pass_through_unparsed() {
    let out = lines("fn main() -> i32 { return 300; }");
    assert!(out.contains(&String::from("MOV X1, #300")));
    let out = lines("fn main() -> i32 { return 0; }");
    assert!(out.contains(&String::from("MOV X1, #0")));
}

#[test]
fn boolean_literals_load_one_and_zero() {
    let out = lines("fn main() -> i32 { let b = true; let c = false; return 1; }");
    assert!(out.contains(&String::from("MOV X1, #1")));
    assert!(out.contains(&String::from("MOV X1, #0")));
}

#[test]
fn or_emission_sequence() {
    let out = lines("fn main() -> i32 { return 1 || 0; }");
    let text = out.join("\n");
    assert!(text.contains("MOV X0, #0\nCMN X1, X2\nCSET X0, NE\nORR X0, X0, X2"));
}

#[test]
fn and_emission_sequence() {
    let out = lines("fn main() -> i32 { return 1 && 0; }");
    let text = out.join("\n");
    assert!(text.contains(
        "MOV X3, #0\nMOV X4, #0\nCMN X1, X2\nCSET X3, NE\nCMN X1, X1\nCSET X4, NE\nAND X3, X3, X4"
    ));
}

#[test]
fn reassignment_stores_to_slot() {
    let out = lines("fn main() -> i32 { let x = 1; x = 2; return x; }");
    let text = out.join("\n");
    assert!(text.contains("STP X1, X2, [SP, #0]"));
}

#[test]
fn labels_are_unique_across_chains() {
    let out = lines(
        "fn main() -> i32 { if (1) { return 1; } else if (2) { return 2; } else { return 3; } if (0) { return 4; } return 5; }",
    );
    let mut defs: Vec<&String> = out.iter().filter(|l| l.starts_with("label") && l.ends_with(":")).collect();
    let n = defs.len();
    defs.sort();
    defs.dedup();
    assert_eq!(defs.len(), n);
    assert!(n >= 4);
}

#[test]
fn redeclaration_reports_prior_line() {
    let e = expect_error("fn main() -> i32 { let x = 1;\n let x = 2; return x; }");
    match e {
        CompileError::AlreadyDefined { name, line } => {
            assert_eq!(name, "x");
            assert_eq!(line, 1);
        },
        other => panic!("expected a redeclaration error, got {:?}", other),
    }
}

#[test]
fn undeclared_identifier_in_expression() {
    let e = expect_error("fn main() -> i32 { return y; }");
    match e {
        CompileError::UndefinedVariable { name } => assert_eq!(name, "y"),
        other => panic!("expected an undefined-variable error, got {:?}", other),
    }
}

#[test]
fn reassignment_to_undeclared_name() {
    let e = expect_error("fn main() -> i32 {\n y = 1; return 0; }");
    match e {
        CompileError::NotDeclared { name, line } => {
            assert_eq!(name, "y");
            assert_eq!(line, 2);
        },
        other => panic!("expected a not-declared error, got {:?}", other),
    }
}

#[test]
fn shadowing_resolves_innermost_inside_block() {
    // Inside the inner block, `x` is the inner binding (slot 2, depth 2 at
    // the reassignment's load): the store goes to offset 0, not 16.
    let out = lines("fn main() -> i32 { let x = 1; { let x = 7; x = 8; } return x; }");
    let text = out.join("\n");
    assert!(text.contains("STP X1, X2, [SP, #0]"));
}
