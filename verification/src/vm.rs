use vstd::prelude::*;

use crate::checker::{check_slots, spec_scan, spec_slot_scan, verify, VerifyError};
use crate::constant_pool::ConstantPool;
use crate::decoder::{spec_u32_le, Decoder};
use crate::instructions::{spec_opcode_of_byte, OpCode};
use crate::value::{
    as_bool, as_int, boolv, intv, is_bool, render_value, spec_as_bool, spec_as_int, spec_boolv,
    spec_int, spec_is_bool, spec_render, Value,
};

verus! {

/// The fixed number of memory slots a VM is constructed with.
pub const MEM_SIZE: usize = 256;

/// A fatal runtime condition; raising one terminates the run immediately.
///
/// The verifier makes most of these unreachable for bytecode it accepts,
/// but the VM keeps its defensive bounds checks as a second line of
/// defense.
#[derive(Debug, Clone, Copy, PartialEq, Eq, Structural)]
pub enum VMError {
    /// An opcode byte with no handler was reached despite verification.
    UnknownOpcode(u8),
    /// A pop found the operand stack empty.
    StackUnderflow,
    /// A jump aims outside the bytecode buffer.
    InvalidJump(usize),
    /// The divisor popped by a divide instruction was zero.
    DivisionByZero,
    /// A memory slot index lies outside the fixed memory capacity.
    InvalidMemoryAccess(usize),
    /// A constant-pool index lies outside the pool.
    InvalidConstIndex(usize),
    /// The cursor ran past the end of the buffer.
    CodeExhausted,
}

/// The whole machine state, as the contracts speak of it: the immutable
/// bytecode and pool, the cursor, the operand stack, the flat memory, the
/// lines written to the output sink so far, and the running flag.
#[verifier::ext_equal]
pub struct StateV {
    pub code: Seq<u8>,
    pub ip: int,
    pub stack: Seq<Value>,
    pub mem: Seq<Value>,
    pub pool: Seq<i64>,
    pub out: Seq<Seq<char>>,
    pub running: bool,
}

/// The quotient a divide instruction pushes, before re-tagging.  Both
/// operands come from `spec_as_int`, so they fit in 63 bits and
/// `checked_div` never fails for a nonzero divisor; the zero fallback is
/// unreachable.
pub open spec fn spec_div_trunc(a: i64, b: i64) -> i64 {
    match a.checked_div(b) {
        Some(q) => q,
        None => 0,
    }
}

/// The diagnostic lines the debug-stack instruction writes: one line per
/// stack value, top of stack first.
pub open spec fn spec_debug_lines(stack: Seq<Value>) -> Seq<Seq<char>>
    decreases stack.len(),
{
    if stack.len() == 0 {
        Seq::empty()
    } else {
        spec_debug_lines(stack.drop_first()).push(spec_debug_line(stack.first()))
    }
}

/// One diagnostic line for one stack value.
pub open spec fn spec_debug_line(v: Value) -> Seq<char> {
    (if spec_is_bool(v) {
        "  bool "@
    } else {
        "  int "@
    }) + spec_render(v)
}

/// One step of the machine: decode the instruction under the cursor and
/// apply its effect, or report the fatal runtime condition it raises.  A
/// faulting step changes nothing: no instruction partially mutates state
/// before its error is raised.
pub open spec fn spec_step(s: StateV) -> Result<StateV, VMError> {
    if !(0 <= s.ip < s.code.len()) {
        Err(VMError::CodeExhausted)
    } else {
        match spec_opcode_of_byte(s.code[s.ip]) {
            None => Err(VMError::UnknownOpcode(s.code[s.ip])),
            Some(op) => match op {
                OpCode::PushNum => {
                    if s.ip + 5 > s.code.len() {
                        Err(VMError::CodeExhausted)
                    } else {
                        let idx = spec_u32_le(s.code, s.ip + 1) as int;
                        if idx >= s.pool.len() {
                            Err(VMError::InvalidConstIndex(idx as usize))
                        } else {
                            Ok(
                                StateV {
                                    ip: s.ip + 5,
                                    stack: s.stack.push(spec_int(s.pool[idx])),
                                    ..s
                                },
                            )
                        }
                    }
                },
                OpCode::Add | OpCode::Sub | OpCode::Mul | OpCode::Div | OpCode::Eq | OpCode::Lt
                    | OpCode::Gt => {
                    if s.stack.len() < 2 {
                        Err(VMError::StackUnderflow)
                    } else {
                        let b = spec_as_int(s.stack[s.stack.len() - 1]);
                        let a = spec_as_int(s.stack[s.stack.len() - 2]);
                        if op == OpCode::Div && b == 0 {
                            Err(VMError::DivisionByZero)
                        } else {
                            let r = match op {
                                OpCode::Add => spec_int((a + b) as i64),
                                OpCode::Sub => spec_int((a - b) as i64),
                                OpCode::Mul => spec_int(a.wrapping_mul(b)),
                                OpCode::Div => spec_int(spec_div_trunc(a, b)),
                                OpCode::Eq => spec_boolv(a == b),
                                OpCode::Lt => spec_boolv(a < b),
                                _ => spec_boolv(a > b),
                            };
                            Ok(
                                StateV {
                                    ip: s.ip + 1,
                                    stack: s.stack.subrange(0, s.stack.len() - 2).push(r),
                                    ..s
                                },
                            )
                        }
                    }
                },
                OpCode::Store => {
                    if s.ip + 5 > s.code.len() {
                        Err(VMError::CodeExhausted)
                    } else {
                        let slot = spec_u32_le(s.code, s.ip + 1) as int;
                        if s.stack.len() == 0 {
                            Err(VMError::StackUnderflow)
                        } else if slot >= s.mem.len() {
                            Err(VMError::InvalidMemoryAccess(slot as usize))
                        } else {
                            Ok(
                                StateV {
                                    ip: s.ip + 5,
                                    stack: s.stack.drop_last(),
                                    mem: s.mem.update(slot, s.stack.last()),
                                    ..s
                                },
                            )
                        }
                    }
                },
                OpCode::Load => {
                    if s.ip + 5 > s.code.len() {
                        Err(VMError::CodeExhausted)
                    } else {
                        let slot = spec_u32_le(s.code, s.ip + 1) as int;
                        if slot >= s.mem.len() {
                            Err(VMError::InvalidMemoryAccess(slot as usize))
                        } else {
                            Ok(StateV { ip: s.ip + 5, stack: s.stack.push(s.mem[slot]), ..s })
                        }
                    }
                },
                OpCode::Jmp => {
                    if s.ip + 5 > s.code.len() {
                        Err(VMError::CodeExhausted)
                    } else {
                        let target = spec_u32_le(s.code, s.ip + 1) as int;
                        if target >= s.code.len() {
                            Err(VMError::InvalidJump(target as usize))
                        } else {
                            Ok(StateV { ip: target, ..s })
                        }
                    }
                },
                OpCode::JmpIfFalse => {
                    if s.ip + 5 > s.code.len() {
                        Err(VMError::CodeExhausted)
                    } else {
                        let target = spec_u32_le(s.code, s.ip + 1) as int;
                        if s.stack.len() == 0 {
                            Err(VMError::StackUnderflow)
                        } else if !spec_as_bool(s.stack.last()) {
                            if target >= s.code.len() {
                                Err(VMError::InvalidJump(target as usize))
                            } else {
                                Ok(StateV { ip: target, stack: s.stack.drop_last(), ..s })
                            }
                        } else {
                            Ok(StateV { ip: s.ip + 5, stack: s.stack.drop_last(), ..s })
                        }
                    }
                },
                OpCode::Print => {
                    if s.stack.len() == 0 {
                        Err(VMError::StackUnderflow)
                    } else {
                        Ok(
                            StateV {
                                ip: s.ip + 1,
                                stack: s.stack.drop_last(),
                                out: s.out.push(spec_render(s.stack.last())),
                                ..s
                            },
                        )
                    }
                },
                OpCode::DebugStack => Ok(
                    StateV {
                        ip: s.ip + 1,
                        out: s.out + seq!["STACK:"@] + spec_debug_lines(s.stack),
                        ..s
                    },
                ),
                OpCode::Halt => Ok(StateV { ip: s.ip + 1, running: false, ..s }),
                OpCode::PushStr => Err(VMError::UnknownOpcode(s.code[s.ip])),
            },
        }
    }
}

/// The machine state after up to `n` steps: stepping stops early at the
/// first fault or once the running flag clears.
pub open spec fn spec_run_n(s: StateV, n: nat) -> StateV
    decreases n,
{
    if n == 0 {
        s
    } else {
        let prev = spec_run_n(s, (n - 1) as nat);
        if prev.running {
            match spec_step(prev) {
                Ok(s2) => s2,
                Err(_) => prev,
            }
        } else {
            prev
        }
    }
}

/// The state a freshly constructed VM starts in: cursor at zero, empty
/// stack, `MEM_SIZE` zero-initialized memory slots, no output, running.
pub open spec fn spec_init_state(code: Seq<u8>, pool: Seq<i64>) -> StateV {
    StateV {
        code: code,
        ip: 0,
        stack: Seq::empty(),
        mem: Seq::new(MEM_SIZE as nat, |i: int| 0i64),
        pool: pool,
        out: Seq::empty(),
        running: true,
    }
}

/// What VM construction yields: the structural verifier runs first, then
/// the memory-slot check; only bytecode that passes both yields a machine.
pub open spec fn spec_construct(code: Seq<u8>, pool: Seq<i64>) -> Result<StateV, VerifyError> {
    match spec_scan(code, 0, 0) {
        Err(e) => Err(e),
        Ok(_) => match spec_slot_scan(code, 0, MEM_SIZE as int) {
            Err(e) => Err(e),
            Ok(_) => Ok(spec_init_state(code, pool)),
        },
    }
}

/// **Verifier soundness.**  Bytecode with a structural fault — an unknown
/// opcode byte, a truncated operand, an out-of-range jump, or a provable
/// stack underflow — is always rejected before execution: construction
/// reports exactly the fault the scan finds, so the machine never starts
/// on such bytecode.
pub proof fn lemma_verifier_soundness(code: Seq<u8>, pool: Seq<i64>)
    requires
        spec_scan(code, 0, 0) is Err,
    ensures
        spec_construct(code, pool) == Err::<StateV, VerifyError>(spec_scan(code, 0, 0)->Err_0),
{
}

/// The memory-slot check is equally final: bytecode that scans clean but
/// names a slot beyond the machine's capacity is rejected at construction
/// too.
pub proof fn lemma_slot_check_soundness(code: Seq<u8>, pool: Seq<i64>)
    requires
        spec_scan(code, 0, 0) is Ok,
        spec_slot_scan(code, 0, MEM_SIZE as int) is Err,
    ensures
        spec_construct(code, pool) == Err::<StateV, VerifyError>(
            spec_slot_scan(code, 0, MEM_SIZE as int)->Err_0,
        ),
{
}

/// A stack-based virtual machine: a decoder cursor over owned bytecode, a
/// growable operand stack, a fixed-capacity zero-initialized memory array,
/// an owned constant pool, the rendered output lines, and a running flag.
pub struct VM {
    dec: Decoder,
    stack: Vec<Value>,
    memory: Vec<Value>,
    pool: ConstantPool,
    output: Vec<String>,
    running: bool,
}

/// Packaging of the run loop's error exit: the faulting state is reachable
/// in `steps` steps, which witnesses the existential in `run`'s contract.
proof fn lemma_err_exit(init: StateV, cur: StateV, steps: nat, fuel: u64, e: VMError)
    requires
        cur == spec_run_n(init, steps),
        steps <= fuel,
        cur.running,
        spec_step(cur) == Err::<StateV, VMError>(e),
    ensures
        exists|n: nat|
            n <= fuel && cur == spec_run_n(init, n) && cur.running && spec_step(cur) == Err::<
                StateV,
                VMError,
            >(e),
{
    assert(steps <= fuel && cur == spec_run_n(init, steps) && cur.running && spec_step(cur)
        == Err::<StateV, VMError>(e));
}

impl View for VM {
    type V = StateV;

    closed spec fn view(&self) -> StateV {
        StateV {
            code: self.dec.spec_code(),
            ip: self.dec.ip as int,
            stack: self.stack@,
            mem: self.memory@,
            pool: self.pool@,
            out: self.output.deep_view(),
            running: self.running,
        }
    }
}

impl VM {
    /// Construct a machine over a compiled artifact, taking ownership of
    /// it.  The bytecode is verified once, here, before any instruction
    /// executes; the machine never starts on bytecode the verifier or the
    /// memory-slot check rejects.
    pub fn new(code: Vec<u8>, pool: ConstantPool) -> (r: Result<VM, VerifyError>)
        ensures
            match r {
                Ok(vm) => spec_construct(code@, pool@) == Ok::<StateV, VerifyError>(vm@),
                Err(e) => spec_construct(code@, pool@) == Err::<StateV, VerifyError>(e),
            },
    {
        if let Err(e) = verify(code.as_slice()) {
            return Err(e);
        }
        if let Err(e) = check_slots(code.as_slice(), MEM_SIZE) {
            return Err(e);
        }
        let memory: Vec<Value> = vec![0i64; MEM_SIZE];
        let vm = VM {
            dec: Decoder::new(code),
            stack: Vec::new(),
            memory,
            pool,
            output: Vec::new(),
            running: true,
        };
        proof {
            assert(vm@.mem =~= spec_init_state(vm@.code, vm@.pool).mem);
            assert(vm@.out =~= Seq::<Seq<char>>::empty());
            assert(vm@ =~= spec_init_state(vm@.code, vm@.pool));
        }
        Ok(vm)
    }

    /// The lines printed so far, in order.
    pub fn output(&self) -> (r: &Vec<String>)
        ensures
            r.deep_view() == self@.out,
    {
        &self.output
    }

    /// Whether the machine is still running.
    pub fn is_running(&self) -> (r: bool)
        ensures
            r == self@.running,
    {
        self.running
    }

    /// The main loop: execute up to `fuel` instructions, reading the opcode
    /// under the cursor and applying its handler, until the running flag
    /// clears, a fatal runtime condition is raised, or the budget runs out.
    /// `Ok(true)` means the terminal `Halt` cleared the running flag and the
    /// final state is what some number of `spec_step` steps yields;
    /// `Ok(false)` means exactly `fuel` instructions ran, every one of them
    /// succeeded, and the machine is still running (the caller may simply
    /// call `run` again); on `Err` the machine stands exactly at the
    /// faulting state and the error is the one `spec_step` raises there, so
    /// a fault within the budget is always reported, never swallowed.
    pub fn run(&mut self, fuel: u64) -> (r: Result<bool, VMError>)
        ensures
            match r {
                Ok(true) => exists|n: nat|
                    n <= fuel && final(self)@ == spec_run_n(old(self)@, n)
                        && !final(self)@.running,
                Ok(false) => final(self)@ == spec_run_n(old(self)@, fuel as nat)
                    && final(self)@.running && (forall|k: nat|
                    k < fuel ==> #[trigger] spec_step(spec_run_n(old(self)@, k)) is Ok),
                Err(e) => exists|n: nat|
                    n <= fuel && final(self)@ == spec_run_n(old(self)@, n)
                        && final(self)@.running && spec_step(final(self)@) == Err::<
                    StateV,
                    VMError,
                >(e),
            },
    {
        let ghost init = self@;
        let ghost mut steps: nat = 0;
        let mut remaining: u64 = fuel;

        while self.running && remaining > 0
            invariant
                init == old(self)@,
                self@ == spec_run_n(init, steps),
                steps + remaining == fuel,
                forall|k: nat| k < steps ==> #[trigger] spec_step(spec_run_n(init, k)) is Ok,
            decreases remaining,
        {
            remaining = remaining - 1;
            let ghost pre = self@;
            let ip0 = self.dec.ip;
            let code_len = self.dec.code_len();

            if ip0 >= code_len {
                proof {
                    lemma_err_exit(init, self@, steps, fuel, VMError::CodeExhausted);
                }
                return Err(VMError::CodeExhausted);
            }
            let byte = self.dec.read_u8();
            let op = match OpCode::from(byte) {
                Some(op) => op,
                None => {
                    self.dec.jump(ip0);
                    proof {
                        assert(self@ =~= pre);
                        lemma_err_exit(init, self@, steps, fuel, VMError::UnknownOpcode(byte));
                    }
                    return Err(VMError::UnknownOpcode(byte));
                },
            };

            match op {
                OpCode::PushNum => {
                    if code_len - self.dec.ip < 4 {
                        self.dec.jump(ip0);
                        proof {
                            assert(self@ =~= pre);
                            lemma_err_exit(init, self@, steps, fuel, VMError::CodeExhausted);
                        }
                        return Err(VMError::CodeExhausted);
                    }
                    let idx = self.dec.read_u32();
                    if idx as usize >= self.pool.len() {
                        self.dec.jump(ip0);
                        proof {
                            assert(self@ =~= pre);
                            lemma_err_exit(init, self@, steps, fuel, VMError::InvalidConstIndex(idx as usize));
                        }
                        return Err(VMError::InvalidConstIndex(idx as usize));
                    }
                    let v = self.pool.get_int(idx);
                    self.stack.push(intv(v));
                },
                OpCode::Add | OpCode::Sub | OpCode::Mul | OpCode::Div | OpCode::Eq | OpCode::Lt
                    | OpCode::Gt => {
                    let len = self.stack.len();
                    if len < 2 {
                        self.dec.jump(ip0);
                        proof {
                            assert(self@ =~= pre);
                            lemma_err_exit(init, self@, steps, fuel, VMError::StackUnderflow);
                        }
                        return Err(VMError::StackUnderflow);
                    }
                    let b = as_int(self.stack[len - 1]);
                    let a = as_int(self.stack[len - 2]);
                    let r: Value = match op {
                        OpCode::Add => intv(a + b),
                        OpCode::Sub => intv(a - b),
                        OpCode::Mul => intv(a.wrapping_mul(b)),
                        OpCode::Div => {
                            if b == 0 {
                                self.dec.jump(ip0);
                                proof {
                                    assert(self@ =~= pre);
                                    lemma_err_exit(init, self@, steps, fuel, VMError::DivisionByZero);
                                }
                                return Err(VMError::DivisionByZero);
                            }
                            let q = match a.checked_div(b) {
                                Some(q) => q,
                                None => 0,
                            };
                            intv(q)
                        },
                        OpCode::Eq => boolv(a == b),
                        OpCode::Lt => boolv(a < b),
                        _ => boolv(a > b),
                    };
                    self.stack.truncate(len - 2);
                    self.stack.push(r);
                },
                OpCode::Store => {
                    if code_len - self.dec.ip < 4 {
                        self.dec.jump(ip0);
                        proof {
                            assert(self@ =~= pre);
                            lemma_err_exit(init, self@, steps, fuel, VMError::CodeExhausted);
                        }
                        return Err(VMError::CodeExhausted);
                    }
                    let slot = self.dec.read_u32() as usize;
                    let len = self.stack.len();
                    if len == 0 {
                        self.dec.jump(ip0);
                        proof {
                            assert(self@ =~= pre);
                            lemma_err_exit(init, self@, steps, fuel, VMError::StackUnderflow);
                        }
                        return Err(VMError::StackUnderflow);
                    }
                    if slot >= self.memory.len() {
                        self.dec.jump(ip0);
                        proof {
                            assert(self@ =~= pre);
                            lemma_err_exit(init, self@, steps, fuel, VMError::InvalidMemoryAccess(slot));
                        }
                        return Err(VMError::InvalidMemoryAccess(slot));
                    }
                    let v = self.stack[len - 1];
                    self.stack.truncate(len - 1);
                    self.memory[slot] = v;
                    proof {
                        assert(self@.stack =~= pre.stack.drop_last());
                    }
                },
                OpCode::Load => {
                    if code_len - self.dec.ip < 4 {
                        self.dec.jump(ip0);
                        proof {
                            assert(self@ =~= pre);
                            lemma_err_exit(init, self@, steps, fuel, VMError::CodeExhausted);
                        }
                        return Err(VMError::CodeExhausted);
                    }
                    let slot = self.dec.read_u32() as usize;
                    if slot >= self.memory.len() {
                        self.dec.jump(ip0);
                        proof {
                            assert(self@ =~= pre);
                            lemma_err_exit(init, self@, steps, fuel, VMError::InvalidMemoryAccess(slot));
                        }
                        return Err(VMError::InvalidMemoryAccess(slot));
                    }
                    let v = self.memory[slot];
                    self.stack.push(v);
                },
                OpCode::Jmp => {
                    if code_len - self.dec.ip < 4 {
                        self.dec.jump(ip0);
                        proof {
                            assert(self@ =~= pre);
                            lemma_err_exit(init, self@, steps, fuel, VMError::CodeExhausted);
                        }
                        return Err(VMError::CodeExhausted);
                    }
                    let target = self.dec.read_u32() as usize;
                    if target >= code_len {
                        self.dec.jump(ip0);
                        proof {
                            assert(self@ =~= pre);
                            lemma_err_exit(init, self@, steps, fuel, VMError::InvalidJump(target));
                        }
                        return Err(VMError::InvalidJump(target));
                    }
                    self.dec.jump(target);
                },
                OpCode::JmpIfFalse => {
                    if code_len - self.dec.ip < 4 {
                        self.dec.jump(ip0);
                        proof {
                            assert(self@ =~= pre);
                            lemma_err_exit(init, self@, steps, fuel, VMError::CodeExhausted);
                        }
                        return Err(VMError::CodeExhausted);
                    }
                    let target = self.dec.read_u32() as usize;
                    let len = self.stack.len();
                    if len == 0 {
                        self.dec.jump(ip0);
                        proof {
                            assert(self@ =~= pre);
                            lemma_err_exit(init, self@, steps, fuel, VMError::StackUnderflow);
                        }
                        return Err(VMError::StackUnderflow);
                    }
                    let cond = self.stack[len - 1];
                    if !as_bool(cond) {
                        if target >= code_len {
                            self.dec.jump(ip0);
                            proof {
                                assert(self@ =~= pre);
                                lemma_err_exit(init, self@, steps, fuel, VMError::InvalidJump(target));
                            }
                            return Err(VMError::InvalidJump(target));
                        }
                        self.stack.truncate(len - 1);
                        self.dec.jump(target);
                    } else {
                        self.stack.truncate(len - 1);
                    }
                    proof {
                        assert(self@.stack =~= pre.stack.drop_last());
                    }
                },
                OpCode::Print => {
                    let len = self.stack.len();
                    if len == 0 {
                        self.dec.jump(ip0);
                        proof {
                            assert(self@ =~= pre);
                            lemma_err_exit(init, self@, steps, fuel, VMError::StackUnderflow);
                        }
                        return Err(VMError::StackUnderflow);
                    }
                    let v = self.stack[len - 1];
                    self.stack.truncate(len - 1);
                    let line = render_value(v);
                    let ghost outs_before = self.output.deep_view();
                    self.output.push(line);
                    proof {
                        assert(self@.stack =~= pre.stack.drop_last());
                        assert(self@.out =~= outs_before.push(line@));
                        assert(self@.out =~= pre.out.push(spec_render(pre.stack.last())));
                    }
                },
                OpCode::DebugStack => {
                    self.debug_stack();
                    proof {
                        assert(self@.out =~= pre.out + seq!["STACK:"@] + spec_debug_lines(
                            pre.stack,
                        ));
                    }
                },
                OpCode::Halt => {
                    self.running = false;
                },
                OpCode::PushStr => {
                    self.dec.jump(ip0);
                    proof {
                        assert(self@ =~= pre);
                        lemma_err_exit(init, self@, steps, fuel, VMError::UnknownOpcode(byte));
                    }
                    return Err(VMError::UnknownOpcode(byte));
                },
            }

            proof {
                assert(spec_step(pre) == Ok::<StateV, VMError>(self@)) by {
                    assert(spec_step(pre) is Ok);
                    assert(spec_step(pre)->Ok_0 =~= self@);
                }
                steps = steps + 1;
            }
        }
        proof {
            assert(self@ == spec_run_n(init, steps) && steps <= fuel);
        }
        if self.running {
            Ok(false)
        } else {
            Ok(true)
        }
    }

    /// Render the whole stack, top of stack first, to the output sink,
    /// without changing the stack.
    fn debug_stack(&mut self)
        ensures
            final(self)@ == (StateV {
                out: old(self)@.out + seq!["STACK:"@] + spec_debug_lines(old(self)@.stack),
                ..old(self)@
            }),
    {
        let ghost pre = self@;
        let head = "STACK:".to_owned();
        let ghost outs0 = self.output.deep_view();
        let ghost head_view = head@;
        self.output.push(head);
        let mut i = self.stack.len();
        proof {
            assert(self@.out =~= outs0.push(head_view));
            assert(self@.out =~= pre.out + seq!["STACK:"@]);
            assert(spec_debug_lines(pre.stack.subrange(i as int, pre.stack.len() as int))
                =~= Seq::<Seq<char>>::empty());
            assert(self@.out =~= pre.out + seq!["STACK:"@] + spec_debug_lines(
                pre.stack.subrange(i as int, pre.stack.len() as int),
            ));
        }
        while i > 0
            invariant
                i <= self.stack.len(),
                self@ == (StateV {
                    out: pre.out + seq!["STACK:"@] + spec_debug_lines(
                        pre.stack.subrange(i as int, pre.stack.len() as int),
                    ),
                    ..pre
                }),
            decreases i,
        {
            i = i - 1;
            let v = self.stack[i];
            let mut line = if is_bool(v) {
                "  bool ".to_owned()
            } else {
                "  int ".to_owned()
            };
            let rendered = render_value(v);
            line.append(rendered.as_str());
            let ghost outs_before = self.output.deep_view();
            let ghost line_view = line@;
            self.output.push(line);
            proof {
                let hi = pre.stack.len() as int;
                let tail = pre.stack.subrange(i + 1, hi);
                let cur = pre.stack.subrange(i as int, hi);
                assert(cur.first() == pre.stack[i as int]);
                assert(cur.drop_first() =~= tail);
                assert(line_view =~= spec_debug_line(pre.stack[i as int]));
                assert(spec_debug_lines(cur) =~= spec_debug_lines(tail).push(
                    spec_debug_line(pre.stack[i as int]),
                ));
                assert(self@.out =~= outs_before.push(line_view));
                assert(self@.out =~= pre.out + seq!["STACK:"@] + spec_debug_lines(cur));
            }
        }
        proof {
            assert(pre.stack.subrange(0, pre.stack.len() as int) =~= pre.stack);
        }
    }
}

} // verus!
