use lumen::compiler::{compile, CompileError};
use lumen::constant_pool::ConstantPool;
use lumen::instructions::OpCode;
use lumen::vm::{VMError, VM};

fn run_source(src: &str) -> (Vec<String>, Result<bool, VMError>) {
    let artifact = compile(src).expect("source should compile");
    let mut vm = VM::new(artifact.bytecode, artifact.pool).expect("bytecode should verify");
    let r = vm.run(1_000_000);
    (vm.output().clone(), r)
}

#[test]
fn arithmetic_print() {
    let (out, r) = run_source("numero x = 2 + 3\nimprimir(x)");
    assert_eq!(r, Ok(true));
    assert_eq!(out, vec!["5".to_string()]);
}

#[test]
fn if_else_takes_then_branch() {
    let (out, r) = run_source("si (1 < 2) { imprimir(1) } sino { imprimir(0) }");
    assert_eq!(r, Ok(true));
    assert_eq!(out, vec!["1".to_string()]);
}

#[test]
fn if_else_takes_else_branch() {
    let (out, r) = run_source("si (2 < 1) { imprimir(1) } sino { imprimir(0) }");
    assert_eq!(r, Ok(true));
    assert_eq!(out, vec!["0".to_string()]);
}

#[test]
fn while_counts_to_three() {
    let (out, r) = run_source("numero x = 0\nmientras (x < 3) { imprimir(x) x = x + 1 }");
    assert_eq!(r, Ok(true));
    assert_eq!(out, vec!["0".to_string(), "1".to_string(), "2".to_string()]);
}

#[test]
fn divide_by_zero_fails_at_runtime_only() {
    // Hand-built bytecode: push 5, push 0, divide, halt.  The verifier does
    // no data-flow analysis, so construction succeeds; running it raises a
    // division-by-zero error and prints nothing.
    let mut pool = ConstantPool::new();
    pool.add_int(5);
    pool.add_int(0);
    let code = vec![
        OpCode::PushNum.byte(), 0, 0, 0, 0,
        OpCode::PushNum.byte(), 1, 0, 0, 0,
        OpCode::Div.byte(),
        OpCode::Halt.byte(),
    ];
    let mut vm = VM::new(code, pool).expect("structurally valid");
    let r = vm.run(100);
    assert_eq!(r, Err(VMError::DivisionByZero));
    assert!(vm.output().is_empty());
}

#[test]
fn undeclared_variable_reads_as_zero() {
    // Reading a never-assigned name creates its slot; memory is
    // zero-initialized, so the read yields integer zero at runtime.
    let (out, r) = run_source("imprimir(y)");
    assert_eq!(r, Ok(true));
    assert_eq!(out, vec!["0".to_string()]);
}

#[test]
fn assignment_to_undeclared_name_creates_it() {
    // A bare assignment to a never-declared name silently creates it.
    let (out, r) = run_source("x = 41 + 1\nimprimir(x)");
    assert_eq!(r, Ok(true));
    assert_eq!(out, vec!["42".to_string()]);
}

#[test]
fn english_keywords_fold_to_the_same_tokens() {
    let (out, r) = run_source("number x = 4\nprint(x)");
    assert_eq!(r, Ok(true));
    assert_eq!(out, vec!["4".to_string()]);
}

#[test]
fn comparison_prints_boolean() {
    let (out, r) = run_source("imprimir(1 < 2)");
    assert_eq!(r, Ok(true));
    assert_eq!(out, vec!["true".to_string()]);
    let (out2, _) = run_source("imprimir(2 < 1)");
    assert_eq!(out2, vec!["false".to_string()]);
}

#[test]
fn precedence_and_unary_minus() {
    let (out, _) = run_source("imprimir(2 + 3 * 4)");
    assert_eq!(out, vec!["14".to_string()]);
    let (out2, _) = run_source("imprimir(-5 + 2)");
    assert_eq!(out2, vec!["-3".to_string()]);
    let (out3, _) = run_source("imprimir((2 + 3) * 4)");
    assert_eq!(out3, vec!["20".to_string()]);
    let (out4, _) = run_source("imprimir(7 / 2)");
    assert_eq!(out4, vec!["3".to_string()]);
}

#[test]
fn compiling_twice_is_byte_identical() {
    let src = "numero x = 1\nmientras (x < 10) { x = x * 2 }\nimprimir(x)";
    let a = compile(src).expect("compiles");
    let b = compile(src).expect("compiles");
    assert_eq!(a.bytecode, b.bytecode);
    assert_eq!(a.pool.len(), b.pool.len());
    for i in 0..a.pool.len() {
        assert_eq!(a.pool.get_int(i as u32), b.pool.get_int(i as u32));
    }
}

#[test]
fn generated_bytecode_always_verifies() {
    let sources = [
        "",
        "imprimir(1)",
        "numero a = 1\nnumero b = 2\nimprimir(a + b)",
        "si (1 == 1) { imprimir(1) }",
        "si (1 == 2) { imprimir(1) } sino { si (1 < 2) { imprimir(3) } }",
        "mientras (0 == 1) { imprimir(0) }",
        "import modulo\nimprimir(9)",
    ];
    for src in sources {
        let artifact = compile(src).expect("compiles");
        assert!(
            lumen::checker::verify(&artifact.bytecode).is_ok(),
            "bytecode of {:?} should verify",
            src
        );
        // Every compiled program ends in the mandatory terminal Halt.
        assert_eq!(artifact.bytecode.last(), Some(&OpCode::Halt.byte()));
        assert!(VM::new(artifact.bytecode, artifact.pool).is_ok());
    }
}

#[test]
fn unterminated_string_is_a_lexical_error() {
    match compile("imprimir(\"hola") {
        Err(CompileError::Lexical(e)) => {
            assert_eq!(e.kind, lumen::lexer::LexErrorKind::UnterminatedString);
        }
        other => panic!("expected a lexical error, got {:?}", other.is_ok()),
    }
}

#[test]
fn unexpected_character_is_a_lexical_error() {
    match compile("numero x = 1 @ 2") {
        Err(CompileError::Lexical(e)) => {
            assert_eq!(e.kind, lumen::lexer::LexErrorKind::UnexpectedChar('@'));
            assert_eq!(e.line, 1);
        }
        other => panic!("expected a lexical error, got {:?}", other.is_ok()),
    }
}

#[test]
fn missing_identifier_is_a_syntax_error() {
    match compile("numero = 5") {
        Err(CompileError::Syntax(e)) => {
            assert_eq!(e.expected, lumen::parser::Expected::IdentifierAfterNumero);
        }
        other => panic!("expected a syntax error, got {:?}", other.is_ok()),
    }
}

#[test]
fn missing_paren_is_a_syntax_error() {
    match compile("si 1 < 2 { imprimir(1) }") {
        Err(CompileError::Syntax(e)) => {
            assert_eq!(e.expected, lumen::parser::Expected::LParenAfterSi);
            assert_eq!(e.line, 1);
            assert_eq!(e.col, 3);
        }
        other => panic!("expected a syntax error, got {:?}", other.is_ok()),
    }
}

#[test]
fn string_escapes_are_cooked() {
    // Strings are parsed and interned even though the machine never runs
    // them; a lone string statement is not valid grammar, so exercise the
    // lexer through an import with a quoted module name.
    let artifact = compile("import \"mod\\tname\"\nimprimir(1)").expect("compiles");
    assert!(lumen::checker::verify(&artifact.bytecode).is_ok());
}
