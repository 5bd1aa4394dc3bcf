use lumen::checker::VerifyError;
use lumen::constant_pool::ConstantPool;
use lumen::instructions::OpCode;
use lumen::keywords::{detect_language, Keywords, Language};
use lumen::lexer::{Lexer, Token};
use lumen::value::{as_bool, as_int, boolv, intv, is_bool, render_value};
use lumen::vm::{VMError, VM};

#[test]
fn value_encoding_roundtrips() {
    assert_eq!(as_int(intv(7)), 7);
    assert_eq!(as_int(intv(-7)), -7);
    assert_eq!(as_int(intv(0)), 0);
    assert!(!is_bool(intv(5)));
    assert!(is_bool(boolv(true)));
    assert!(is_bool(boolv(false)));
    assert!(as_bool(boolv(true)));
    assert!(!as_bool(boolv(false)));
}

#[test]
fn values_render_per_tag() {
    assert_eq!(render_value(intv(5)), "5");
    assert_eq!(render_value(intv(-123)), "-123");
    assert_eq!(render_value(intv(0)), "0");
    assert_eq!(render_value(boolv(true)), "true");
    assert_eq!(render_value(boolv(false)), "false");
    assert_eq!(render_value(intv(1048576)), "1048576");
}

#[test]
fn opcode_bytes_roundtrip() {
    let ops = [
        OpCode::PushNum, OpCode::Add, OpCode::Print, OpCode::Sub, OpCode::Mul,
        OpCode::Div, OpCode::Store, OpCode::Load, OpCode::Eq, OpCode::Lt,
        OpCode::Gt, OpCode::Jmp, OpCode::JmpIfFalse, OpCode::PushStr,
        OpCode::DebugStack, OpCode::Halt,
    ];
    for op in ops {
        assert_eq!(OpCode::from(op.byte()), Some(op));
    }
    assert_eq!(OpCode::PushNum.byte(), 0x01);
    assert_eq!(OpCode::Store.byte(), 0x10);
    assert_eq!(OpCode::Jmp.byte(), 0x30);
    assert_eq!(OpCode::Halt.byte(), 0xFF);
    assert_eq!(OpCode::from(0x00), None);
    assert_eq!(OpCode::from(0x07), None);
    assert_eq!(OpCode::from(0x32), None);
    assert_eq!(OpCode::Halt.name(), "HALT");
    assert_eq!(OpCode::PushNum.name(), "PUSH_NUM");
}

#[test]
fn constant_pool_indices_are_stable() {
    let mut pool = ConstantPool::new();
    assert_eq!(pool.len(), 0);
    let a = pool.add_int(11);
    let b = pool.add_int(-4);
    assert_eq!((a, b), (0, 1));
    assert_eq!(pool.get_int(0), 11);
    assert_eq!(pool.get_int(1), -4);
    assert_eq!(pool.len(), 2);
}

#[test]
fn keyword_table_is_bilingual() {
    let kw = Keywords::new(Language::Spanish);
    assert_eq!(kw.get_language(), Language::Spanish);
    assert!(kw.is_keyword("mientras"));
    assert!(!kw.is_keyword("while"));
    assert!(kw.is_number("numero") && kw.is_number("number"));
    assert!(kw.is_print("imprimir") && kw.is_print("print"));
    assert!(kw.is_if("si") && kw.is_if("if"));
    assert!(kw.is_else("sino") && kw.is_else("else"));
    assert!(kw.is_while("mientras") && kw.is_while("while"));
    assert!(!kw.is_if("sino"));

    let en = Keywords::new(Language::English);
    assert!(en.is_keyword("while"));
    assert!(!en.is_keyword("mientras"));
}

#[test]
fn language_detection_looks_for_spanish_keywords() {
    assert_eq!(detect_language("numero x = 1"), Language::Spanish);
    assert_eq!(detect_language("number x = 1"), Language::English);
    assert_eq!(detect_language("print(1)"), Language::English);
    assert_eq!(detect_language("while (x < 3) {}"), Language::English);
}

#[test]
fn lexer_reports_positions() {
    let mut lexer = Lexer::new("numero x\n  = 5".to_string());
    let tokens = lexer.tokenize().expect("lexes");
    assert!(matches!(tokens[0].token, Token::Numero));
    assert_eq!((tokens[0].line, tokens[0].col), (1, 1));
    assert!(matches!(tokens[1].token, Token::Identifier(_)));
    assert!(matches!(tokens[2].token, Token::Newline));
    assert!(matches!(tokens[3].token, Token::Assign));
    assert_eq!(tokens[3].line, 2);
    assert!(matches!(tokens[4].token, Token::Number(5)));
    assert!(matches!(tokens[5].token, Token::Eof));
}

#[test]
fn numeric_overflow_defaults_to_zero() {
    let mut lexer = Lexer::new("99999999999999999999".to_string());
    let tokens = lexer.tokenize().expect("lexes");
    assert!(matches!(tokens[0].token, Token::Number(0)));
    let mut ok = Lexer::new("2147483647".to_string());
    let tokens2 = ok.tokenize().expect("lexes");
    assert!(matches!(tokens2[0].token, Token::Number(2147483647)));
}

#[test]
fn construction_checks_memory_slots() {
    // A store into slot 300 exceeds the fixed 256-slot memory: that is a
    // construction-time error, not a silent truncation.
    let mut pool = ConstantPool::new();
    pool.add_int(1);
    let code = vec![
        OpCode::PushNum.byte(), 0, 0, 0, 0,
        OpCode::Store.byte(), 44, 1, 0, 0,
        OpCode::Halt.byte(),
    ];
    match VM::new(code, pool) {
        Err(VerifyError::MemorySlotOutOfRange { pos, slot }) => {
            assert_eq!((pos, slot), (5, 300));
        }
        other => panic!("expected a slot error, got ok={}", other.is_ok()),
    }
}

#[test]
fn vm_runs_out_of_fuel_and_resumes() {
    let artifact =
        lumen::compiler::compile("numero x = 0\nmientras (x < 50) { x = x + 1 }\nimprimir(x)")
            .expect("compiles");
    let mut vm = VM::new(artifact.bytecode, artifact.pool).expect("verifies");
    let mut halted = vm.run(10).expect("no fault");
    let mut rounds = 1;
    while !halted {
        halted = vm.run(10).expect("no fault");
        rounds += 1;
        assert!(rounds < 1000, "should halt eventually");
    }
    assert_eq!(vm.output().as_slice(), &["50".to_string()]);
}
