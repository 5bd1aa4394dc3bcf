use lumen::checker::{verify, VerifyError};
use lumen::instructions::OpCode;

#[test]
fn invalid_bytecode_table() {
    // The first case feeds an unmapped opcode byte.  0x00 is outside the
    // instruction set; 0xFF would not do, since 0xFF is the Halt opcode and
    // the verifier rejects unknown opcode bytes, not known ones.
    let cases: &[(&str, Vec<u8>)] = &[
        ("opcode invalido", vec![0]),
        ("push truncado", vec![OpCode::PushNum.byte(), 1, 2]),
        ("add sin stack", vec![OpCode::Add.byte()]),
        ("store sin valor", vec![OpCode::Store.byte(), 0, 0, 0, 0]),
        ("jmp truncado", vec![OpCode::Jmp.byte(), 1, 2]),
        ("jmpiffalse sin stack", vec![OpCode::JmpIfFalse.byte(), 0, 0, 0, 0]),
    ];

    for (name, code) in cases {
        assert!(
            verify(code).is_err(),
            "el caso '{}' debería fallar",
            name
        );
    }
}

#[test]
fn valid_bytecode() {
    let code = vec![
        OpCode::PushNum.byte(), 0, 0, 0, 0,
        OpCode::PushNum.byte(), 0, 0, 0, 1,
        OpCode::Add.byte(),
        OpCode::Halt.byte(),
    ];

    assert!(verify(&code).is_ok());
}

#[test]
fn jump_out_of_range_is_rejected() {
    let code = vec![OpCode::Jmp.byte(), 9, 0, 0, 0, OpCode::Halt.byte()];
    assert_eq!(
        verify(&code),
        Err(VerifyError::JumpOutOfRange { pos: 0, target: 9 })
    );
}

#[test]
fn unknown_opcode_reports_position() {
    let code = vec![OpCode::DebugStack.byte(), 77];
    assert_eq!(verify(&code), Err(VerifyError::UnknownOpcode { pos: 1 }));
}

#[test]
fn stack_underflow_reports_position() {
    let code = vec![
        OpCode::PushNum.byte(), 0, 0, 0, 0,
        OpCode::Print.byte(),
        OpCode::Print.byte(),
    ];
    assert_eq!(verify(&code), Err(VerifyError::StackUnderflow { pos: 6 }));
}

#[test]
fn truncated_operand_reports_position() {
    let code = vec![OpCode::Load.byte(), 1];
    assert_eq!(verify(&code), Err(VerifyError::TruncatedOperand { pos: 0 }));
}

#[test]
fn empty_bytecode_is_accepted() {
    let code: Vec<u8> = vec![];
    assert!(verify(&code).is_ok());
}
