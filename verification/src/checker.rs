use vstd::prelude::*;

use crate::decoder::spec_u32_le;
use crate::instructions::{spec_opcode_of_byte, OpCode};

verus! {

/// A structural fault in a bytecode buffer, found before execution.
///
/// `pos` is always the offset of the opcode byte of the offending
/// instruction.
#[derive(Debug, Clone, Copy, PartialEq, Eq, Structural)]
pub enum VerifyError {
    /// `code[pos]` is not an opcode.
    UnknownOpcode { pos: usize },
    /// The instruction's 4-byte operand would run past the buffer end.
    TruncatedOperand { pos: usize },
    /// A jump's target lies outside the buffer.
    JumpOutOfRange { pos: usize, target: usize },
    /// The conservative stack-effect counter goes negative here.
    StackUnderflow { pos: usize },
    /// A `Store` or `Load` operand names a slot outside the fixed memory
    /// capacity chosen at VM construction.
    MemorySlotOutOfRange { pos: usize, slot: usize },
}

/// One linear pass over bytecode, from offset `ip` with estimated stack
/// depth `depth`: rejects unknown opcode bytes, operands running past the
/// buffer end, jump targets outside the buffer, and any point where the
/// per-opcode stack-effect counter would go negative.  The scan stops at
/// the first `Halt` or at the buffer end.
pub open spec fn spec_scan(code: Seq<u8>, ip: int, depth: int) -> Result<(), VerifyError>
    decreases code.len() - ip,
{
    if !(0 <= ip < code.len()) {
        Ok(())
    } else {
        match spec_opcode_of_byte(code[ip]) {
            None => Err(VerifyError::UnknownOpcode { pos: ip as usize }),
            Some(op) => match op {
                OpCode::PushNum | OpCode::Load | OpCode::PushStr => {
                    if ip + 5 > code.len() {
                        Err(VerifyError::TruncatedOperand { pos: ip as usize })
                    } else {
                        spec_scan(code, ip + 5, depth + 1)
                    }
                },
                OpCode::Store => {
                    if ip + 5 > code.len() {
                        Err(VerifyError::TruncatedOperand { pos: ip as usize })
                    } else if depth - 1 < 0 {
                        Err(VerifyError::StackUnderflow { pos: ip as usize })
                    } else {
                        spec_scan(code, ip + 5, depth - 1)
                    }
                },
                OpCode::Add | OpCode::Sub | OpCode::Mul | OpCode::Div | OpCode::Eq | OpCode::Lt
                    | OpCode::Gt | OpCode::Print => {
                    if depth - 1 < 0 {
                        Err(VerifyError::StackUnderflow { pos: ip as usize })
                    } else {
                        spec_scan(code, ip + 1, depth - 1)
                    }
                },
                OpCode::Jmp => {
                    if ip + 5 > code.len() {
                        Err(VerifyError::TruncatedOperand { pos: ip as usize })
                    } else if spec_u32_le(code, ip + 1) >= code.len() {
                        Err(VerifyError::JumpOutOfRange {
                            pos: ip as usize,
                            target: spec_u32_le(code, ip + 1) as usize,
                        })
                    } else {
                        spec_scan(code, ip + 5, depth)
                    }
                },
                OpCode::JmpIfFalse => {
                    if ip + 5 > code.len() {
                        Err(VerifyError::TruncatedOperand { pos: ip as usize })
                    } else if spec_u32_le(code, ip + 1) >= code.len() {
                        Err(VerifyError::JumpOutOfRange {
                            pos: ip as usize,
                            target: spec_u32_le(code, ip + 1) as usize,
                        })
                    } else if depth - 1 < 0 {
                        Err(VerifyError::StackUnderflow { pos: ip as usize })
                    } else {
                        spec_scan(code, ip + 5, depth - 1)
                    }
                },
                OpCode::DebugStack => spec_scan(code, ip + 1, depth),
                OpCode::Halt => Ok(()),
            },
        }
    }
}

/// Bytecode is structurally sound when the scan of the whole buffer accepts.
pub open spec fn spec_verify_ok(code: Seq<u8>) -> bool {
    spec_scan(code, 0, 0) is Ok
}

/// A second linear pass, run at VM construction after `spec_scan` accepts:
/// every `Store` or `Load` operand must name a slot below the fixed memory
/// capacity `cap`, so that exceeding the capacity is a construction-time
/// error, never a silent truncation.  Structural faults are ignored here;
/// `spec_scan` has already rejected them.
pub open spec fn spec_slot_scan(code: Seq<u8>, ip: int, cap: int) -> Result<(), VerifyError>
    decreases code.len() - ip,
{
    if !(0 <= ip < code.len()) {
        Ok(())
    } else {
        match spec_opcode_of_byte(code[ip]) {
            None => Ok(()),
            Some(op) => match op {
                OpCode::Store | OpCode::Load => {
                    if ip + 5 > code.len() {
                        Ok(())
                    } else if spec_u32_le(code, ip + 1) >= cap {
                        Err(VerifyError::MemorySlotOutOfRange {
                            pos: ip as usize,
                            slot: spec_u32_le(code, ip + 1) as usize,
                        })
                    } else {
                        spec_slot_scan(code, ip + 5, cap)
                    }
                },
                OpCode::PushNum | OpCode::PushStr | OpCode::Jmp | OpCode::JmpIfFalse => {
                    if ip + 5 > code.len() {
                        Ok(())
                    } else {
                        spec_slot_scan(code, ip + 5, cap)
                    }
                },
                OpCode::Add | OpCode::Sub | OpCode::Mul | OpCode::Div | OpCode::Eq | OpCode::Lt
                    | OpCode::Gt | OpCode::Print | OpCode::DebugStack => spec_slot_scan(
                    code,
                    ip + 1,
                    cap,
                ),
                OpCode::Halt => Ok(()),
            },
        }
    }
}

/// Check every memory-slot operand against the capacity `cap`; accepts
/// exactly the buffers `spec_slot_scan` accepts.
pub fn check_slots(code: &[u8], cap: usize) -> (r: Result<(), VerifyError>)
    ensures
        r == spec_slot_scan(code@, 0, cap as int),
{
    let n = code.len();
    let mut ip: usize = 0;

    while ip < n
        invariant
            ip <= n,
            n == code@.len(),
            spec_slot_scan(code@, 0, cap as int) == spec_slot_scan(
                code@,
                ip as int,
                cap as int,
            ),
        decreases n - ip,
    {
        let pos = ip;
        let op = match OpCode::from(code[ip]) {
            Some(op) => op,
            None => {
                return Ok(());
            },
        };
        ip = ip + 1;

        match op {
            OpCode::Store | OpCode::Load => {
                if n - ip < 4 {
                    return Ok(());
                }
                let slot = read_u32_at(code, ip) as usize;
                if slot >= cap {
                    return Err(VerifyError::MemorySlotOutOfRange { pos, slot });
                }
                ip = ip + 4;
            },
            OpCode::PushNum | OpCode::PushStr | OpCode::Jmp | OpCode::JmpIfFalse => {
                if n - ip < 4 {
                    return Ok(());
                }
                ip = ip + 4;
            },
            OpCode::Add | OpCode::Sub | OpCode::Mul | OpCode::Div | OpCode::Eq | OpCode::Lt
                | OpCode::Gt | OpCode::Print | OpCode::DebugStack => {},
            OpCode::Halt => {
                return Ok(());
            },
        }
    }
    Ok(())
}

/// Read the 4-byte little-endian operand at offset `i`.
fn read_u32_at(code: &[u8], i: usize) -> (r: u32)
    requires
        i + 4 <= code@.len(),
    ensures
        r == spec_u32_le(code@, i as int),
{
    let n = code.len();
    let b0 = code[i] as u32;
    let b1 = code[i + 1] as u32;
    let b2 = code[i + 2] as u32;
    let b3 = code[i + 3] as u32;
    b0 + 256 * b1 + 65536 * b2 + 16777216 * b3
}

/// The static bytecode verifier: one linear pass that rejects structurally
/// invalid bytecode, run once during VM construction before any instruction
/// executes.  It does no type checking and no data-flow analysis; it is a
/// structural safety net, and it accepts exactly the buffers `spec_scan`
/// accepts.
pub fn verify(code: &[u8]) -> (r: Result<(), VerifyError>)
    ensures
        r == spec_scan(code@, 0, 0),
        r is Ok <==> spec_verify_ok(code@),
{
    let n = code.len();
    let mut ip: usize = 0;
    let mut depth: usize = 0;

    while ip < n
        invariant
            ip <= n,
            depth <= ip,
            n == code@.len(),
            spec_scan(code@, 0, 0) == spec_scan(code@, ip as int, depth as int),
        decreases n - ip,
    {
        let pos = ip;
        let op = match OpCode::from(code[ip]) {
            Some(op) => op,
            None => {
                return Err(VerifyError::UnknownOpcode { pos });
            },
        };
        ip = ip + 1;

        match op {
            OpCode::PushNum | OpCode::Load | OpCode::PushStr => {
                if n - ip < 4 {
                    return Err(VerifyError::TruncatedOperand { pos });
                }
                ip = ip + 4;
                depth = depth + 1;
            },
            OpCode::Store => {
                if n - ip < 4 {
                    return Err(VerifyError::TruncatedOperand { pos });
                }
                ip = ip + 4;
                if depth == 0 {
                    return Err(VerifyError::StackUnderflow { pos });
                }
                depth = depth - 1;
            },
            OpCode::Add | OpCode::Sub | OpCode::Mul | OpCode::Div | OpCode::Eq | OpCode::Lt
                | OpCode::Gt | OpCode::Print => {
                if depth == 0 {
                    return Err(VerifyError::StackUnderflow { pos });
                }
                depth = depth - 1;
            },
            OpCode::Jmp => {
                if n - ip < 4 {
                    return Err(VerifyError::TruncatedOperand { pos });
                }
                let target = read_u32_at(code, ip) as usize;
                if target >= n {
                    return Err(VerifyError::JumpOutOfRange { pos, target });
                }
                ip = ip + 4;
            },
            OpCode::JmpIfFalse => {
                if n - ip < 4 {
                    return Err(VerifyError::TruncatedOperand { pos });
                }
                let target = read_u32_at(code, ip) as usize;
                if target >= n {
                    return Err(VerifyError::JumpOutOfRange { pos, target });
                }
                ip = ip + 4;
                if depth == 0 {
                    return Err(VerifyError::StackUnderflow { pos });
                }
                depth = depth - 1;
            },
            OpCode::DebugStack => {},
            OpCode::Halt => {
                return Ok(());
            },
        }
    }
    Ok(())
}

} // verus!
