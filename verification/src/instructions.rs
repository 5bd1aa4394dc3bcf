use vstd::prelude::*;

verus! {

/// One bytecode operation.
///
/// On the wire an instruction is one opcode byte, optionally followed by a
/// 4-byte little-endian unsigned operand (a constant-pool index, a memory
/// slot, or a jump target).  The byte values are part of the compiled
/// artifact's external layout and are given by `OpCode::byte`; `OpCode::from`
/// is its inverse on the 16 mapped bytes and rejects every other byte.
#[derive(Debug, Clone, Copy, PartialEq, Eq, Structural)]
pub enum OpCode {
    PushNum,
    Add,
    Print,
    Sub,
    Mul,
    Div,
    Store,
    Load,
    Eq,
    Lt,
    Gt,
    Jmp,
    JmpIfFalse,
    PushStr,
    DebugStack,
    Halt,
}

/// The byte that encodes `op` in a bytecode buffer.
pub open spec fn spec_opcode_byte(op: OpCode) -> u8 {
    match op {
        OpCode::PushNum => 0x01,
        OpCode::Add => 0x02,
        OpCode::Print => 0x03,
        OpCode::Sub => 0x04,
        OpCode::Mul => 0x05,
        OpCode::Div => 0x06,
        OpCode::Store => 0x10,
        OpCode::Load => 0x11,
        OpCode::Eq => 0x20,
        OpCode::Lt => 0x21,
        OpCode::Gt => 0x22,
        OpCode::Jmp => 0x30,
        OpCode::JmpIfFalse => 0x31,
        OpCode::PushStr => 0x40,
        OpCode::DebugStack => 0xFE,
        OpCode::Halt => 0xFF,
    }
}

/// The opcode a byte decodes to, if any.
pub open spec fn spec_opcode_of_byte(b: u8) -> Option<OpCode> {
    if b == 0x01 {
        Some(OpCode::PushNum)
    } else if b == 0x02 {
        Some(OpCode::Add)
    } else if b == 0x03 {
        Some(OpCode::Print)
    } else if b == 0x04 {
        Some(OpCode::Sub)
    } else if b == 0x05 {
        Some(OpCode::Mul)
    } else if b == 0x06 {
        Some(OpCode::Div)
    } else if b == 0x10 {
        Some(OpCode::Store)
    } else if b == 0x11 {
        Some(OpCode::Load)
    } else if b == 0x20 {
        Some(OpCode::Eq)
    } else if b == 0x21 {
        Some(OpCode::Lt)
    } else if b == 0x22 {
        Some(OpCode::Gt)
    } else if b == 0x30 {
        Some(OpCode::Jmp)
    } else if b == 0x31 {
        Some(OpCode::JmpIfFalse)
    } else if b == 0x40 {
        Some(OpCode::PushStr)
    } else if b == 0xFE {
        Some(OpCode::DebugStack)
    } else if b == 0xFF {
        Some(OpCode::Halt)
    } else {
        None
    }
}

impl OpCode {
    /// Decode a byte into an opcode; `None` marks an unknown opcode byte.
    pub fn from(byte: u8) -> (r: Option<OpCode>)
        ensures
            r == spec_opcode_of_byte(byte),
    {
        match byte {
            0x01 => Some(OpCode::PushNum),
            0x02 => Some(OpCode::Add),
            0x03 => Some(OpCode::Print),
            0x04 => Some(OpCode::Sub),
            0x05 => Some(OpCode::Mul),
            0x06 => Some(OpCode::Div),
            0x10 => Some(OpCode::Store),
            0x11 => Some(OpCode::Load),
            0x20 => Some(OpCode::Eq),
            0x21 => Some(OpCode::Lt),
            0x22 => Some(OpCode::Gt),
            0x30 => Some(OpCode::Jmp),
            0x31 => Some(OpCode::JmpIfFalse),
            0x40 => Some(OpCode::PushStr),
            0xFE => Some(OpCode::DebugStack),
            0xFF => Some(OpCode::Halt),
            _ => None,
        }
    }

    /// The byte that encodes this opcode.
    pub fn byte(self) -> (r: u8)
        ensures
            r == spec_opcode_byte(self),
    {
        match self {
            OpCode::PushNum => 0x01,
            OpCode::Add => 0x02,
            OpCode::Print => 0x03,
            OpCode::Sub => 0x04,
            OpCode::Mul => 0x05,
            OpCode::Div => 0x06,
            OpCode::Store => 0x10,
            OpCode::Load => 0x11,
            OpCode::Eq => 0x20,
            OpCode::Lt => 0x21,
            OpCode::Gt => 0x22,
            OpCode::Jmp => 0x30,
            OpCode::JmpIfFalse => 0x31,
            OpCode::PushStr => 0x40,
            OpCode::DebugStack => 0xFE,
            OpCode::Halt => 0xFF,
        }
    }

    /// The mnemonic of this opcode.
    pub open spec fn spec_name(self) -> Seq<char> {
        match self {
            OpCode::PushNum => "PUSH_NUM"@,
            OpCode::Add => "ADD"@,
            OpCode::Print => "PRINT"@,
            OpCode::Sub => "SUB"@,
            OpCode::Mul => "MUL"@,
            OpCode::Div => "DIV"@,
            OpCode::Store => "STORE"@,
            OpCode::Load => "LOAD"@,
            OpCode::Eq => "EQ"@,
            OpCode::Lt => "LT"@,
            OpCode::Gt => "GT"@,
            OpCode::Jmp => "JMP"@,
            OpCode::JmpIfFalse => "JMP_IF_FALSE"@,
            OpCode::PushStr => "PUSH_STR"@,
            OpCode::DebugStack => "DEBUG_STACK"@,
            OpCode::Halt => "HALT"@,
        }
    }

    /// A human-readable mnemonic, for diagnostics.
    pub fn name(&self) -> (r: &'static str)
        ensures
            r@ == self.spec_name(),
    {
        match self {
            OpCode::PushNum => "PUSH_NUM",
            OpCode::Add => "ADD",
            OpCode::Print => "PRINT",
            OpCode::Sub => "SUB",
            OpCode::Mul => "MUL",
            OpCode::Div => "DIV",
            OpCode::Store => "STORE",
            OpCode::Load => "LOAD",
            OpCode::Eq => "EQ",
            OpCode::Lt => "LT",
            OpCode::Gt => "GT",
            OpCode::Jmp => "JMP",
            OpCode::JmpIfFalse => "JMP_IF_FALSE",
            OpCode::PushStr => "PUSH_STR",
            OpCode::DebugStack => "DEBUG_STACK",
            OpCode::Halt => "HALT",
        }
    }
}

/// Decoding is a left inverse of encoding: every opcode is recovered from
/// its byte.
pub proof fn lemma_opcode_byte_roundtrip(op: OpCode)
    ensures
        spec_opcode_of_byte(spec_opcode_byte(op)) == Some(op),
{
}

} // verus!
