use vstd::prelude::*;

use crate::ast::{
    lemma_view_stmts_index, lemma_view_stmts_len, view_expr, view_stmt, view_stmts, BinOperator,
    Expr, ExprV, Program, Statement, StmtV,
};
use crate::compiler::CompiledProgram;
use crate::constant_pool::ConstantPool;
use crate::checker::spec_scan;
use crate::instructions::{spec_opcode_byte, OpCode};
use crate::keywords::str_eq;

verus! {

/// The generator's whole state: the bytecode emitted so far, the variable
/// slot table (a name's address is its index, assigned in first-appearance
/// order), the constant pool, and the interned string literals.
#[verifier::ext_equal]
pub struct GenStateV {
    pub code: Seq<u8>,
    pub vars: Seq<Seq<char>>,
    pub pool: Seq<i64>,
    pub strs: Seq<Seq<char>>,
}

/// The 4-byte little-endian encoding of `v` (of `v`'s low 32 bits, when
/// `v` does not fit).
pub open spec fn spec_le32(v: int) -> Seq<u8> {
    seq![
        (v % 256) as u8,
        ((v / 256) % 256) as u8,
        ((v / 65536) % 256) as u8,
        ((v / 16777216) % 256) as u8,
    ]
}

/// Overwriting a zero-filled placeholder in place: the four operand bytes
/// at `pos` become the little-endian encoding of `target`.
pub open spec fn spec_patch(code: Seq<u8>, pos: int, target: int) -> Seq<u8> {
    code.update(pos, spec_le32(target)[0]).update(pos + 1, spec_le32(target)[1]).update(
        pos + 2,
        spec_le32(target)[2],
    ).update(pos + 3, spec_le32(target)[3])
}

/// The little-endian encoding reads only the low 32 bits.
pub proof fn lemma_le32_mod(v: int)
    requires
        0 <= v,
    ensures
        spec_le32(v % 0x1_0000_0000) == spec_le32(v),
{
    let r = v % 0x1_0000_0000;
    let q = v / 0x1_0000_0000;
    vstd::arithmetic::div_mod::lemma_fundamental_div_mod(v, 0x1_0000_0000);
    assert(v == 0x1_0000_0000 * q + r);
    vstd::arithmetic::div_mod::lemma_mod_mod(v, 256, 0x100_0000);
    assert(r % 256 == v % 256);

    assert(0 <= r < 0x1_0000_0000);
    assert(0 <= q) by {
        vstd::arithmetic::div_mod::lemma_div_pos_is_pos(v, 0x1_0000_0000);
    }

    vstd::arithmetic::div_mod::lemma_fundamental_div_mod(r, 256);
    assert(v == 256 * (0x100_0000 * q + r / 256) + r % 256);
    vstd::arithmetic::div_mod::lemma_div_multiples_vanish_fancy(
        0x100_0000 * q + r / 256,
        r % 256,
        256,
    );
    assert(v / 256 == 0x100_0000 * q + r / 256);
    vstd::arithmetic::div_mod::lemma_mod_multiples_vanish(0x1_0000 * q, r / 256, 256);
    assert((v / 256) % 256 == (r / 256) % 256);

    vstd::arithmetic::div_mod::lemma_fundamental_div_mod(r, 65536);
    assert(v == 65536 * (0x1_0000 * q + r / 65536) + r % 65536);
    vstd::arithmetic::div_mod::lemma_div_multiples_vanish_fancy(
        0x1_0000 * q + r / 65536,
        r % 65536,
        65536,
    );
    assert(v / 65536 == 0x1_0000 * q + r / 65536);
    vstd::arithmetic::div_mod::lemma_mod_multiples_vanish(256 * q, r / 65536, 256);
    assert((v / 65536) % 256 == (r / 65536) % 256);

    vstd::arithmetic::div_mod::lemma_fundamental_div_mod(r, 16777216);
    assert(v == 16777216 * (256 * q + r / 16777216) + r % 16777216);
    vstd::arithmetic::div_mod::lemma_div_multiples_vanish_fancy(
        256 * q + r / 16777216,
        r % 16777216,
        16777216,
    );
    assert(v / 16777216 == 256 * q + r / 16777216);
    vstd::arithmetic::div_mod::lemma_mod_multiples_vanish(q, r / 16777216, 256);
    assert((v / 16777216) % 256 == (r / 16777216) % 256);

    assert(spec_le32(v % 0x1_0000_0000) =~= spec_le32(v));
}

/// The emitted code only ever grows: expressions append.
pub proof fn lemma_gen_expr_len(st: GenStateV, e: ExprV)
    ensures
        spec_gen_expr(st, e).code.len() >= st.code.len(),
    decreases e,
{
    match e {
        ExprV::BinOp { left, op, right } => {
            lemma_gen_expr_len(st, *left);
            lemma_gen_expr_len(spec_gen_expr(st, *left), *right);
        },
        _ => {},
    }
}

/// The emitted code only ever grows: statements append and patch in place.
pub proof fn lemma_gen_stmt_len(st: GenStateV, s: StmtV)
    ensures
        spec_gen_stmt(st, s).code.len() >= st.code.len(),
    decreases s,
{
    match s {
        StmtV::VarDecl { name, value } => {
            lemma_gen_expr_len(st, value);
        },
        StmtV::Assignment { target, value } => {
            lemma_gen_expr_len(st, value);
        },
        StmtV::Print { expr } => {
            lemma_gen_expr_len(st, expr);
        },
        StmtV::If { condition, then_body, else_body } => {
            let st1 = spec_gen_expr(st, condition);
            lemma_gen_expr_len(st, condition);
            let st2 = GenStateV {
                code: st1.code + seq![spec_opcode_byte(OpCode::JmpIfFalse)] + spec_le32(0),
                ..st1
            };
            lemma_gen_stmts_len(st2, then_body);
            match else_body {
                None => {},
                Some(eb) => {
                    let st3 = spec_gen_stmts(st2, then_body);
                    let st4 = GenStateV {
                        code: st3.code + seq![spec_opcode_byte(OpCode::Jmp)] + spec_le32(0),
                        ..st3
                    };
                    let else_start = st4.code.len();
                    let jump_to_else = st1.code.len() + 1;
                    let st5 = GenStateV {
                        code: spec_patch(st4.code, jump_to_else as int, else_start as int),
                        ..st4
                    };
                    lemma_gen_stmts_len(st5, eb);
                },
            }
        },
        StmtV::While { condition, body } => {
            let st1 = spec_gen_expr(st, condition);
            lemma_gen_expr_len(st, condition);
            let st2 = GenStateV {
                code: st1.code + seq![spec_opcode_byte(OpCode::JmpIfFalse)] + spec_le32(0),
                ..st1
            };
            lemma_gen_stmts_len(st2, body);
        },
        StmtV::Import { module } => {},
    }
}

/// The emitted code only ever grows: statement lists append and patch.
pub proof fn lemma_gen_stmts_len(st: GenStateV, ss: Seq<StmtV>)
    ensures
        spec_gen_stmts(st, ss).code.len() >= st.code.len(),
    decreases ss,
{
    if ss.len() > 0 {
        lemma_gen_stmt_len(st, ss.first());
        lemma_gen_stmts_len(spec_gen_stmt(st, ss.first()), ss.drop_first());
    }
}

/// The first index at which `name` stands in `table`, or -1 when it is
/// absent.
pub open spec fn spec_first_index(table: Seq<Seq<char>>, name: Seq<char>) -> int
    decreases table.len(),
{
    if table.len() == 0 {
        -1
    } else if table.first() == name {
        0
    } else {
        let r = spec_first_index(table.drop_first(), name);
        if r < 0 {
            -1
        } else {
            r + 1
        }
    }
}

/// `spec_first_index` returns the index of the first occurrence.
pub proof fn lemma_first_index_found(table: Seq<Seq<char>>, name: Seq<char>, i: int)
    requires
        0 <= i < table.len(),
        table[i] == name,
        forall|j: int| 0 <= j < i ==> table[j] != name,
    ensures
        spec_first_index(table, name) == i,
    decreases i,
{
    if i > 0 {
        assert(table[0] != name);
        assert(table.drop_first()[i - 1] == name);
        assert forall|j: int| 0 <= j < i - 1 implies table.drop_first()[j] != name by {
            assert(table[j + 1] != name);
        }
        lemma_first_index_found(table.drop_first(), name, i - 1);
    }
}

/// `spec_first_index` reports absence exactly.
pub proof fn lemma_first_index_absent(table: Seq<Seq<char>>, name: Seq<char>)
    requires
        forall|j: int| 0 <= j < table.len() ==> table[j] != name,
    ensures
        spec_first_index(table, name) == -1,
    decreases table.len(),
{
    if table.len() > 0 {
        assert forall|j: int| 0 <= j < table.len() - 1 implies table.drop_first()[j] != name by {
            assert(table[j + 1] != name);
        }
        lemma_first_index_absent(table.drop_first(), name);
    }
}

/// Interning: look `name` up; when absent, append it, so that its index is
/// assigned at first appearance and stays stable.
pub open spec fn spec_intern(table: Seq<Seq<char>>, name: Seq<char>) -> (Seq<Seq<char>>, int) {
    let i = spec_first_index(table, name);
    if i >= 0 {
        (table, i)
    } else {
        (table.push(name), table.len() as int)
    }
}

/// The opcode a binary operator lowers to.
pub open spec fn spec_binop_opcode(op: BinOperator) -> OpCode {
    match op {
        BinOperator::Add => OpCode::Add,
        BinOperator::Sub => OpCode::Sub,
        BinOperator::Mul => OpCode::Mul,
        BinOperator::Div => OpCode::Div,
        BinOperator::Eq => OpCode::Eq,
        BinOperator::Lt => OpCode::Lt,
        BinOperator::Gt => OpCode::Gt,
    }
}

/// Code generation for one expression: the emitted code leaves exactly one
/// value on the operand stack.  Integer literals go to the constant pool;
/// string literals are interned; variable reads load the variable's slot,
/// creating the slot at first appearance.
pub open spec fn spec_gen_expr(st: GenStateV, e: ExprV) -> GenStateV
    decreases e,
{
    match e {
        ExprV::Number(n) => GenStateV {
            code: st.code + seq![spec_opcode_byte(OpCode::PushNum)] + spec_le32(
                st.pool.len() as int,
            ),
            pool: st.pool.push(n as i64),
            ..st
        },
        ExprV::Text(s) => {
            let (strs2, idx) = spec_intern(st.strs, s);
            GenStateV {
                code: st.code + seq![spec_opcode_byte(OpCode::PushStr)] + spec_le32(idx),
                strs: strs2,
                ..st
            }
        },
        ExprV::Variable(name) => {
            let (vars2, idx) = spec_intern(st.vars, name);
            GenStateV {
                code: st.code + seq![spec_opcode_byte(OpCode::Load)] + spec_le32(idx),
                vars: vars2,
                ..st
            }
        },
        ExprV::BinOp { left, op, right } => {
            let st1 = spec_gen_expr(st, *left);
            let st2 = spec_gen_expr(st1, *right);
            GenStateV { code: st2.code + seq![spec_opcode_byte(spec_binop_opcode(op))], ..st2 }
        },
    }
}

/// Code generation for one statement: the emitted code leaves the stack
/// depth unchanged.  Control flow uses back-patching: conditional jumps are
/// emitted with a zero-filled placeholder and patched once the true
/// destination's offset is known.
pub open spec fn spec_gen_stmt(st: GenStateV, s: StmtV) -> GenStateV
    decreases s,
{
    match s {
        StmtV::VarDecl { name, value } => {
            let st1 = spec_gen_expr(st, value);
            let (vars2, addr) = spec_intern(st1.vars, name);
            GenStateV {
                code: st1.code + seq![spec_opcode_byte(OpCode::Store)] + spec_le32(addr),
                vars: vars2,
                ..st1
            }
        },
        StmtV::Assignment { target, value } => {
            let st1 = spec_gen_expr(st, value);
            let (vars2, addr) = spec_intern(st1.vars, target);
            GenStateV {
                code: st1.code + seq![spec_opcode_byte(OpCode::Store)] + spec_le32(addr),
                vars: vars2,
                ..st1
            }
        },
        StmtV::Print { expr } => {
            let st1 = spec_gen_expr(st, expr);
            GenStateV { code: st1.code + seq![spec_opcode_byte(OpCode::Print)], ..st1 }
        },
        StmtV::If { condition, then_body, else_body } => {
            let st1 = spec_gen_expr(st, condition);
            let jump_to_else = st1.code.len() + 1;
            let st2 = GenStateV {
                code: st1.code + seq![spec_opcode_byte(OpCode::JmpIfFalse)] + spec_le32(0),
                ..st1
            };
            let st3 = spec_gen_stmts(st2, then_body);
            match else_body {
                None => GenStateV {
                    code: spec_patch(st3.code, jump_to_else as int, st3.code.len() as int),
                    ..st3
                },
                Some(eb) => {
                    let jump_to_end = st3.code.len() + 1;
                    let st4 = GenStateV {
                        code: st3.code + seq![spec_opcode_byte(OpCode::Jmp)] + spec_le32(0),
                        ..st3
                    };
                    let else_start = st4.code.len();
                    let st5 = GenStateV {
                        code: spec_patch(st4.code, jump_to_else as int, else_start as int),
                        ..st4
                    };
                    let st6 = spec_gen_stmts(st5, eb);
                    GenStateV {
                        code: spec_patch(st6.code, jump_to_end as int, st6.code.len() as int),
                        ..st6
                    }
                },
            }
        },
        StmtV::While { condition, body } => {
            let loop_start = st.code.len();
            let st1 = spec_gen_expr(st, condition);
            let jump_to_end = st1.code.len() + 1;
            let st2 = GenStateV {
                code: st1.code + seq![spec_opcode_byte(OpCode::JmpIfFalse)] + spec_le32(0),
                ..st1
            };
            let st3 = spec_gen_stmts(st2, body);
            let st4 = GenStateV {
                code: st3.code + seq![spec_opcode_byte(OpCode::Jmp)] + spec_le32(
                    loop_start as int,
                ),
                ..st3
            };
            GenStateV {
                code: spec_patch(st4.code, jump_to_end as int, st4.code.len() as int),
                ..st4
            }
        },
        StmtV::Import { module } => st,
    }
}

/// Code generation for a statement list, first to last.
pub open spec fn spec_gen_stmts(st: GenStateV, stmts: Seq<StmtV>) -> GenStateV
    decreases stmts,
{
    if stmts.len() == 0 {
        st
    } else {
        spec_gen_stmts(spec_gen_stmt(st, stmts.first()), stmts.drop_first())
    }
}

/// Generating `ss` then one more statement is generating `ss.push(s)`.
pub proof fn lemma_gen_stmts_snoc(st: GenStateV, ss: Seq<StmtV>, s: StmtV)
    ensures
        spec_gen_stmts(st, ss.push(s)) == spec_gen_stmt(spec_gen_stmts(st, ss), s),
    decreases ss.len(),
{
    if ss.len() == 0 {
        assert(ss.push(s).drop_first() =~= Seq::<StmtV>::empty());
        assert(ss.push(s).first() == s);
        assert(spec_gen_stmts(st, ss.push(s)) == spec_gen_stmts(
            spec_gen_stmt(st, s),
            Seq::<StmtV>::empty(),
        ));
        assert(spec_gen_stmts(spec_gen_stmt(st, s), Seq::<StmtV>::empty()) == spec_gen_stmt(
            st,
            s,
        ));
        assert(spec_gen_stmts(st, ss) == st);
    } else {
        assert(ss.push(s).first() == ss.first());
        assert(ss.push(s).drop_first() =~= ss.drop_first().push(s));
        lemma_gen_stmts_snoc(spec_gen_stmt(st, ss.first()), ss.drop_first(), s);
    }
}

/// The generator's starting state: everything empty.
pub open spec fn spec_gen_init() -> GenStateV {
    GenStateV {
        code: Seq::empty(),
        vars: Seq::empty(),
        pool: Seq::empty(),
        strs: Seq::empty(),
    }
}

/// The whole compiled artifact of a program: every statement in order,
/// then the mandatory terminal `Halt`.
pub open spec fn spec_generate(prog: Seq<StmtV>) -> GenStateV {
    let st = spec_gen_stmts(spec_gen_init(), prog);
    GenStateV { code: st.code + seq![spec_opcode_byte(OpCode::Halt)], ..st }
}

/// A single-pass code generator: append-only bytecode buffer (with
/// in-place back-patching of jump placeholders), variable slot table,
/// constant pool, and interned string literals.
pub struct CodeGenerator {
    bytecode: Vec<u8>,
    variables: Vec<String>,
    pool: ConstantPool,
    string_pool: Vec<String>,
}

impl View for CodeGenerator {
    type V = GenStateV;

    closed spec fn view(&self) -> GenStateV {
        GenStateV {
            code: self.bytecode@,
            vars: self.variables.deep_view(),
            pool: self.pool@,
            strs: self.string_pool.deep_view(),
        }
    }
}

impl CodeGenerator {
    /// A fresh generator with empty state.
    pub fn new() -> (r: Self)
        ensures
            r@ == spec_gen_init(),
    {
        let r = CodeGenerator {
            bytecode: Vec::new(),
            variables: Vec::new(),
            pool: ConstantPool::new(),
            string_pool: Vec::new(),
        };
        proof {
            assert(r@ =~= spec_gen_init());
        }
        r
    }

    /// Append one opcode byte.
    fn emit_opcode(&mut self, opcode: OpCode)
        ensures
            final(self)@ == (GenStateV {
                code: old(self)@.code + seq![spec_opcode_byte(opcode)],
                ..old(self)@
            }),
    {
        self.bytecode.push(opcode.byte());
        proof {
            assert(final(self)@ =~= (GenStateV {
                code: old(self)@.code + seq![spec_opcode_byte(opcode)],
                ..old(self)@
            }));
        }
    }

    /// Append a 4-byte little-endian operand.
    fn emit_u32(&mut self, value: u32)
        ensures
            final(self)@ == (GenStateV {
                code: old(self)@.code + spec_le32(value as int),
                ..old(self)@
            }),
    {
        self.bytecode.push((value % 256) as u8);
        self.bytecode.push(((value / 256) % 256) as u8);
        self.bytecode.push(((value / 65536) % 256) as u8);
        self.bytecode.push(((value / 16777216) % 256) as u8);
        proof {
            assert(final(self)@ =~= (GenStateV {
                code: old(self)@.code + spec_le32(value as int),
                ..old(self)@
            }));
        }
    }

    /// Append a machine-word operand; only its low 32 bits are encoded.
    fn emit_usize(&mut self, value: usize)
        ensures
            final(self)@ == (GenStateV {
                code: old(self)@.code + spec_le32(value as int),
                ..old(self)@
            }),
    {
        proof {
            lemma_le32_mod(value as int);
        }
        self.emit_u32(((value as u64) % 0x1_0000_0000) as u32);
    }

    /// The offset the next emitted byte will have.
    fn current_position(&self) -> (r: usize)
        ensures
            r == self@.code.len(),
    {
        self.bytecode.len()
    }

    /// Overwrite the zero-filled placeholder at `position` with `target`,
    /// in place.
    fn patch_jump(&mut self, position: usize, target: usize)
        requires
            position + 4 <= old(self)@.code.len(),
        ensures
            final(self)@ == (GenStateV {
                code: spec_patch(old(self)@.code, position as int, target as int),
                ..old(self)@
            }),
    {
        proof {
            lemma_le32_mod(target as int);
        }
        let n = self.bytecode.len();
        let t = ((target as u64) % 0x1_0000_0000) as u32;
        self.bytecode[position] = (t % 256) as u8;
        self.bytecode[position + 1] = ((t / 256) % 256) as u8;
        self.bytecode[position + 2] = ((t / 65536) % 256) as u8;
        self.bytecode[position + 3] = ((t / 16777216) % 256) as u8;
        proof {
            assert(final(self)@ =~= (GenStateV {
                code: spec_patch(old(self)@.code, position as int, target as int),
                ..old(self)@
            }));
        }
    }

    /// The slot of `name`: its existing address, or a fresh dense address
    /// assigned at this first appearance.  Declarations and plain
    /// assignments share this table, so assigning to a never-declared name
    /// silently creates its slot.
    fn get_or_create_var(&mut self, name: &str) -> (addr: usize)
        ensures
            (final(self)@.vars, addr as int) == spec_intern(old(self)@.vars, name@),
            final(self)@ == (GenStateV { vars: final(self)@.vars, ..old(self)@ }),
    {
        let n = self.variables.len();
        let mut i: usize = 0;
        while i < n
            invariant
                i <= n,
                n == self.variables@.len(),
                forall|j: int| 0 <= j < i ==> self@.vars[j] != name@,
            decreases n - i,
        {
            if str_eq(self.variables[i].as_str(), name) {
                proof {
                    assert(self@.vars[i as int] == name@);
                    lemma_first_index_found(self@.vars, name@, i as int);
                }
                return i;
            }
            i = i + 1;
        }
        proof {
            lemma_first_index_absent(self@.vars, name@);
        }
        let ghost pre = self@;
        self.variables.push(name.to_owned());
        proof {
            assert(self@.vars =~= pre.vars.push(name@));
            assert(self@ =~= (GenStateV { vars: pre.vars.push(name@), ..pre }));
        }
        n
    }

    /// The pool index of the string literal `value`: its existing index, or
    /// a fresh one at first appearance; the index is stable afterwards.
    fn intern_string(&mut self, value: &str) -> (idx: usize)
        ensures
            (final(self)@.strs, idx as int) == spec_intern(old(self)@.strs, value@),
            final(self)@ == (GenStateV { strs: final(self)@.strs, ..old(self)@ }),
    {
        let n = self.string_pool.len();
        let mut i: usize = 0;
        while i < n
            invariant
                i <= n,
                n == self.string_pool@.len(),
                forall|j: int| 0 <= j < i ==> self@.strs[j] != value@,
            decreases n - i,
        {
            if str_eq(self.string_pool[i].as_str(), value) {
                proof {
                    assert(self@.strs[i as int] == value@);
                    lemma_first_index_found(self@.strs, value@, i as int);
                }
                return i;
            }
            i = i + 1;
        }
        proof {
            lemma_first_index_absent(self@.strs, value@);
        }
        let ghost pre = self@;
        self.string_pool.push(value.to_owned());
        proof {
            assert(self@.strs =~= pre.strs.push(value@));
            assert(self@ =~= (GenStateV { strs: pre.strs.push(value@), ..pre }));
        }
        n
    }

    /// Lower one expression to bytecode.
    fn generate_expr(&mut self, expr: &Expr)
        ensures
            final(self)@ == spec_gen_expr(old(self)@, view_expr(*expr)),
        decreases *expr,
    {
        match expr {
            Expr::Number(n) => {
                let idx = self.pool.add_int(*n as i64);
                self.emit_opcode(OpCode::PushNum);
                self.emit_u32(idx);
                proof {
                    lemma_le32_mod(old(self)@.pool.len() as int);
                    assert(final(self)@ =~= spec_gen_expr(old(self)@, view_expr(*expr)));
                }
            },
            Expr::String(value) => {
                let idx = self.intern_string(value.as_str());
                self.emit_opcode(OpCode::PushStr);
                self.emit_usize(idx);
                proof {
                    assert(final(self)@ =~= spec_gen_expr(old(self)@, view_expr(*expr)));
                }
            },
            Expr::Variable(name) => {
                let addr = self.get_or_create_var(name.as_str());
                self.emit_opcode(OpCode::Load);
                self.emit_usize(addr);
                proof {
                    assert(final(self)@ =~= spec_gen_expr(old(self)@, view_expr(*expr)));
                }
            },
            Expr::BinOp { left, op, right } => {
                self.generate_expr(left);
                self.generate_expr(right);
                let opcode = match op {
                    BinOperator::Add => OpCode::Add,
                    BinOperator::Sub => OpCode::Sub,
                    BinOperator::Mul => OpCode::Mul,
                    BinOperator::Div => OpCode::Div,
                    BinOperator::Eq => OpCode::Eq,
                    BinOperator::Lt => OpCode::Lt,
                    BinOperator::Gt => OpCode::Gt,
                };
                self.emit_opcode(opcode);
                proof {
                    assert(final(self)@ =~= spec_gen_expr(old(self)@, view_expr(*expr)));
                }
            },
        }
    }

    /// Lower one statement to bytecode.
    fn generate_statement(&mut self, stmt: &Statement)
        ensures
            final(self)@ == spec_gen_stmt(old(self)@, view_stmt(*stmt)),
        decreases *stmt,
    {
        match stmt {
            Statement::Import { .. } => {
                // Imports are resolved in an earlier phase; no bytecode here.
            },
            Statement::VarDecl { name, value } => {
                self.generate_expr(value);
                let addr = self.get_or_create_var(name.as_str());
                self.emit_opcode(OpCode::Store);
                self.emit_usize(addr);
                proof {
                    assert(final(self)@ =~= spec_gen_stmt(old(self)@, view_stmt(*stmt)));
                }
            },
            Statement::Assignment { target, value } => {
                self.generate_expr(value);
                let addr = self.get_or_create_var(target.as_str());
                self.emit_opcode(OpCode::Store);
                self.emit_usize(addr);
                proof {
                    assert(final(self)@ =~= spec_gen_stmt(old(self)@, view_stmt(*stmt)));
                }
            },
            Statement::Print { expr } => {
                self.generate_expr(expr);
                self.emit_opcode(OpCode::Print);
                proof {
                    assert(final(self)@ =~= spec_gen_stmt(old(self)@, view_stmt(*stmt)));
                }
            },
            Statement::If { condition, then_body, else_body } => {
                self.generate_expr(condition);

                self.emit_opcode(OpCode::JmpIfFalse);
                let jump_to_else = self.current_position();
                self.emit_usize(0);

                let ghost st2 = self@;
                self.generate_block(then_body);
                proof {
                    lemma_gen_stmts_len(st2, view_stmts(then_body@));
                }

                match else_body {
                    Some(else_stmts) => {
                        self.emit_opcode(OpCode::Jmp);
                        let jump_to_end = self.current_position();
                        self.emit_usize(0);

                        let else_start = self.current_position();
                        self.patch_jump(jump_to_else, else_start);

                        let ghost st5 = self@;
                        self.generate_block(else_stmts);
                        proof {
                            lemma_gen_stmts_len(st5, view_stmts(else_stmts@));
                        }

                        let end_pos = self.current_position();
                        self.patch_jump(jump_to_end, end_pos);
                        proof {
                            assert(final(self)@ =~= spec_gen_stmt(old(self)@, view_stmt(*stmt)));
                        }
                    },
                    None => {
                        let end_pos = self.current_position();
                        self.patch_jump(jump_to_else, end_pos);
                        proof {
                            assert(final(self)@ =~= spec_gen_stmt(old(self)@, view_stmt(*stmt)));
                        }
                    },
                }
            },
            Statement::While { condition, body } => {
                let loop_start = self.current_position();

                self.generate_expr(condition);

                self.emit_opcode(OpCode::JmpIfFalse);
                let jump_to_end = self.current_position();
                self.emit_usize(0);

                let ghost st2 = self@;
                self.generate_block(body);
                proof {
                    lemma_gen_stmts_len(st2, view_stmts(body@));
                }

                self.emit_opcode(OpCode::Jmp);
                self.emit_usize(loop_start);

                let end_pos = self.current_position();
                self.patch_jump(jump_to_end, end_pos);
                proof {
                    assert(final(self)@ =~= spec_gen_stmt(old(self)@, view_stmt(*stmt)));
                }
            },
        }
    }

    /// Lower a statement list, first to last.
    fn generate_block(&mut self, stmts: &Vec<Statement>)
        ensures
            final(self)@ == spec_gen_stmts(old(self)@, view_stmts(stmts@)),
        decreases stmts@,
    {
        let ghost st0 = self@;
        let ghost views = view_stmts(stmts@);
        proof {
            lemma_view_stmts_len(stmts@);
            assert(views.subrange(0, 0) =~= Seq::<StmtV>::empty());
        }
        let n = stmts.len();
        let mut i: usize = 0;
        while i < n
            invariant
                i <= n,
                n == stmts@.len(),
                views == view_stmts(stmts@),
                views.len() == n,
                self@ == spec_gen_stmts(st0, views.subrange(0, i as int)),
            decreases n - i,
        {
            proof {
                assert(decreases_to!(stmts@ => stmts@[i as int]));
            }
            self.generate_statement(&stmts[i]);
            proof {
                lemma_view_stmts_index(stmts@, i as int);
                lemma_gen_stmts_snoc(st0, views.subrange(0, i as int), views[i as int]);
                assert(views.subrange(0, i as int).push(views[i as int]) =~= views.subrange(
                    0,
                    i as int + 1,
                ));
            }
            i = i + 1;
        }
        proof {
            assert(views.subrange(0, n as int) =~= views);
        }
    }

    /// Lower a whole program: every statement in order, then the mandatory
    /// terminal `Halt`.  The generator is consumed; the artifact it built
    /// is handed over by move.
    pub fn generate(self, program: &Program) -> (r: CompiledProgram)
        ensures
            ({
                let st = spec_gen_stmts(self@, view_stmts(program.statements@));
                r.bytecode@ == st.code + seq![spec_opcode_byte(OpCode::Halt)] && r.pool@
                    == st.pool
            }),
            self@ == spec_gen_init() ==> r.bytecode@ == spec_generate(
                view_stmts(program.statements@),
            ).code && r.pool@ == spec_generate(view_stmts(program.statements@)).pool,
    {
        let mut this = self;
        this.generate_block(&program.statements);
        this.emit_opcode(OpCode::Halt);
        CompiledProgram { bytecode: this.bytecode, pool: this.pool }
    }
}

/// Reading back four little-endian bytes recovers the encoded value.
pub proof fn lemma_le32_decode(code: Seq<u8>, i: int, v: int)
    requires
        0 <= v < 0x1_0000_0000,
        0 <= i,
        i + 4 <= code.len(),
        code[i] == spec_le32(v)[0],
        code[i + 1] == spec_le32(v)[1],
        code[i + 2] == spec_le32(v)[2],
        code[i + 3] == spec_le32(v)[3],
    ensures
        crate::decoder::spec_u32_le(code, i) == v,
{
    let u = v as u64;
    assert(u < 0x1_0000_0000 ==> (u % 256) + 256 * ((u / 256) % 256) + 65536 * ((u / 65536)
        % 256) + 16777216 * ((u / 16777216) % 256) == u) by (bit_vector);
}

/// **Back-patch correctness, `if` without `else`.**  The patched
/// conditional jump lands exactly on the first instruction after the
/// construct.
pub proof fn lemma_if_backpatch(st: GenStateV, condition: ExprV, then_body: Seq<StmtV>)
    requires
        spec_gen_stmt(
            st,
            StmtV::If { condition, then_body, else_body: None },
        ).code.len() < 0x1_0000_0000,
    ensures
        ({
            let st1 = spec_gen_expr(st, condition);
            let out = spec_gen_stmt(st, StmtV::If { condition, then_body, else_body: None });
            crate::decoder::spec_u32_le(out.code, st1.code.len() as int + 1) == out.code.len()
        }),
{
    let st1 = spec_gen_expr(st, condition);
    let jp: int = st1.code.len() as int + 1;
    let st2 = GenStateV {
        code: st1.code + seq![spec_opcode_byte(OpCode::JmpIfFalse)] + spec_le32(0),
        ..st1
    };
    let st3 = spec_gen_stmts(st2, then_body);
    lemma_gen_stmts_len(st2, then_body);
    let out = spec_gen_stmt(st, StmtV::If { condition, then_body, else_body: None });
    assert(out.code == spec_patch(st3.code, jp, st3.code.len() as int));
    let target = st3.code.len() as int;
    assert(out.code.len() == st3.code.len());
    assert(out.code[jp] == spec_le32(target)[0]);
    assert(out.code[jp + 1] == spec_le32(target)[1]);
    assert(out.code[jp + 2] == spec_le32(target)[2]);
    assert(out.code[jp + 3] == spec_le32(target)[3]);
    lemma_le32_decode(out.code, jp, target);
}

/// **Back-patch correctness, `while`.**  The patched exit jump lands
/// exactly on the first instruction after the construct, and the backward
/// jump lands exactly on the condition re-evaluation instruction.
pub proof fn lemma_while_backpatch(st: GenStateV, condition: ExprV, body: Seq<StmtV>)
    requires
        spec_gen_stmt(st, StmtV::While { condition, body }).code.len() < 0x1_0000_0000,
    ensures
        ({
            let st1 = spec_gen_expr(st, condition);
            let out = spec_gen_stmt(st, StmtV::While { condition, body });
            // The conditional exit jump lands just after the construct.
            crate::decoder::spec_u32_le(out.code, st1.code.len() as int + 1) == out.code.len()
            // The unconditional backward jump lands on the condition.
            && crate::decoder::spec_u32_le(out.code, out.code.len() as int - 4) == st.code.len()
        }),
{
    let loop_start = st.code.len() as int;
    let st1 = spec_gen_expr(st, condition);
    lemma_gen_expr_len(st, condition);
    let jp: int = st1.code.len() as int + 1;
    let st2 = GenStateV {
        code: st1.code + seq![spec_opcode_byte(OpCode::JmpIfFalse)] + spec_le32(0),
        ..st1
    };
    let st3 = spec_gen_stmts(st2, body);
    lemma_gen_stmts_len(st2, body);
    let st4 = GenStateV {
        code: st3.code + seq![spec_opcode_byte(OpCode::Jmp)] + spec_le32(loop_start),
        ..st3
    };
    let out = spec_gen_stmt(st, StmtV::While { condition, body });
    assert(out.code == spec_patch(st4.code, jp, st4.code.len() as int));
    let target = st4.code.len() as int;
    assert(out.code.len() == st4.code.len());

    assert(out.code[jp] == spec_le32(target)[0]);
    assert(out.code[jp + 1] == spec_le32(target)[1]);
    assert(out.code[jp + 2] == spec_le32(target)[2]);
    assert(out.code[jp + 3] == spec_le32(target)[3]);
    lemma_le32_decode(out.code, jp, target);

    let bp: int = st4.code.len() as int - 4;
    assert(st4.code[bp] == spec_le32(loop_start)[0]);
    assert(st4.code[bp + 1] == spec_le32(loop_start)[1]);
    assert(st4.code[bp + 2] == spec_le32(loop_start)[2]);
    assert(st4.code[bp + 3] == spec_le32(loop_start)[3]);
    assert(jp + 4 <= st3.code.len() < bp + 1);
    assert(out.code[bp] == st4.code[bp]);
    assert(out.code[bp + 1] == st4.code[bp + 1]);
    assert(out.code[bp + 2] == st4.code[bp + 2]);
    assert(out.code[bp + 3] == st4.code[bp + 3]);
    lemma_le32_decode(out.code, bp, loop_start);
}

/// Generating an expression never changes already-emitted bytes.
pub proof fn lemma_gen_expr_prefix(st: GenStateV, e: ExprV, i: int)
    requires
        0 <= i < st.code.len(),
    ensures
        spec_gen_expr(st, e).code[i] == st.code[i],
    decreases e,
{
    match e {
        ExprV::BinOp { left, op, right } => {
            let st1 = spec_gen_expr(st, *left);
            lemma_gen_expr_len(st, *left);
            lemma_gen_expr_len(st1, *right);
            lemma_gen_expr_prefix(st, *left, i);
            lemma_gen_expr_prefix(st1, *right, i);
        },
        _ => {},
    }
}

/// Generating a statement never changes already-emitted bytes: appends
/// only grow the buffer, and every patch lands inside the region the
/// statement itself emitted.
pub proof fn lemma_gen_stmt_prefix(st: GenStateV, s: StmtV, i: int)
    requires
        0 <= i < st.code.len(),
    ensures
        spec_gen_stmt(st, s).code[i] == st.code[i],
    decreases s,
{
    match s {
        StmtV::VarDecl { name, value } => {
            lemma_gen_expr_len(st, value);
            lemma_gen_expr_prefix(st, value, i);
        },
        StmtV::Assignment { target, value } => {
            lemma_gen_expr_len(st, value);
            lemma_gen_expr_prefix(st, value, i);
        },
        StmtV::Print { expr } => {
            lemma_gen_expr_len(st, expr);
            lemma_gen_expr_prefix(st, expr, i);
        },
        StmtV::If { condition, then_body, else_body } => {
            let st1 = spec_gen_expr(st, condition);
            lemma_gen_expr_len(st, condition);
            lemma_gen_expr_prefix(st, condition, i);
            let st2 = GenStateV {
                code: st1.code + seq![spec_opcode_byte(OpCode::JmpIfFalse)] + spec_le32(0),
                ..st1
            };
            let st3 = spec_gen_stmts(st2, then_body);
            lemma_gen_stmts_len(st2, then_body);
            lemma_gen_stmts_prefix(st2, then_body, i);
            match else_body {
                None => {},
                Some(eb) => {
                    let jump_to_end = st3.code.len() + 1;
                    let st4 = GenStateV {
                        code: st3.code + seq![spec_opcode_byte(OpCode::Jmp)] + spec_le32(0),
                        ..st3
                    };
                    let else_start = st4.code.len();
                    let jump_to_else = st1.code.len() + 1;
                    let st5 = GenStateV {
                        code: spec_patch(st4.code, jump_to_else as int, else_start as int),
                        ..st4
                    };
                    lemma_gen_stmts_len(st5, eb);
                    lemma_gen_stmts_prefix(st5, eb, i);
                },
            }
        },
        StmtV::While { condition, body } => {
            let st1 = spec_gen_expr(st, condition);
            lemma_gen_expr_len(st, condition);
            lemma_gen_expr_prefix(st, condition, i);
            let st2 = GenStateV {
                code: st1.code + seq![spec_opcode_byte(OpCode::JmpIfFalse)] + spec_le32(0),
                ..st1
            };
            lemma_gen_stmts_len(st2, body);
            lemma_gen_stmts_prefix(st2, body, i);
        },
        StmtV::Import { module } => {},
    }
}

/// Generating a statement list never changes already-emitted bytes.
pub proof fn lemma_gen_stmts_prefix(st: GenStateV, ss: Seq<StmtV>, i: int)
    requires
        0 <= i < st.code.len(),
    ensures
        spec_gen_stmts(st, ss).code[i] == st.code[i],
    decreases ss,
{
    if ss.len() > 0 {
        lemma_gen_stmt_len(st, ss.first());
        lemma_gen_stmt_prefix(st, ss.first(), i);
        lemma_gen_stmts_prefix(spec_gen_stmt(st, ss.first()), ss.drop_first(), i);
    }
}

/// **Back-patch correctness, `if` with `else`.**  The patched conditional
/// jump lands exactly on the else branch's first instruction, and the
/// patched unconditional jump at the end of the then branch lands exactly
/// on the first instruction after the whole construct.
pub proof fn lemma_if_else_backpatch(
    st: GenStateV,
    condition: ExprV,
    then_body: Seq<StmtV>,
    else_body: Seq<StmtV>,
)
    requires
        spec_gen_stmt(
            st,
            StmtV::If { condition, then_body, else_body: Some(else_body) },
        ).code.len() < 0x1_0000_0000,
    ensures
        ({
            let st1 = spec_gen_expr(st, condition);
            let st2 = GenStateV {
                code: st1.code + seq![spec_opcode_byte(OpCode::JmpIfFalse)] + spec_le32(0),
                ..st1
            };
            let st3 = spec_gen_stmts(st2, then_body);
            let else_start = st3.code.len() as int + 5;
            let out = spec_gen_stmt(
                st,
                StmtV::If { condition, then_body, else_body: Some(else_body) },
            );
            // The conditional jump lands on the else branch's first
            // instruction.
            crate::decoder::spec_u32_le(out.code, st1.code.len() as int + 1) == else_start
            // The then branch's exit jump lands just after the construct.
            && crate::decoder::spec_u32_le(out.code, st3.code.len() as int + 1)
                == out.code.len()
        }),
{
    let st1 = spec_gen_expr(st, condition);
    let jp_else: int = st1.code.len() as int + 1;
    let st2 = GenStateV {
        code: st1.code + seq![spec_opcode_byte(OpCode::JmpIfFalse)] + spec_le32(0),
        ..st1
    };
    let st3 = spec_gen_stmts(st2, then_body);
    lemma_gen_stmts_len(st2, then_body);
    let jp_end: int = st3.code.len() as int + 1;
    let st4 = GenStateV {
        code: st3.code + seq![spec_opcode_byte(OpCode::Jmp)] + spec_le32(0),
        ..st3
    };
    let else_start = st4.code.len() as int;
    let st5 = GenStateV { code: spec_patch(st4.code, jp_else, else_start), ..st4 };
    let st6 = spec_gen_stmts(st5, else_body);
    lemma_gen_stmts_len(st5, else_body);
    let out = spec_gen_stmt(st, StmtV::If { condition, then_body, else_body: Some(else_body) });
    assert(out.code == spec_patch(st6.code, jp_end, st6.code.len() as int));
    assert(out.code.len() == st6.code.len());

    // The conditional jump's operand was patched to `else_start` in `st5`,
    // survived the else branch's generation, and lies below the region the
    // final patch overwrites.
    assert(st5.code[jp_else] == spec_le32(else_start)[0]);
    assert(st5.code[jp_else + 1] == spec_le32(else_start)[1]);
    assert(st5.code[jp_else + 2] == spec_le32(else_start)[2]);
    assert(st5.code[jp_else + 3] == spec_le32(else_start)[3]);
    lemma_gen_stmts_prefix(st5, else_body, jp_else);
    lemma_gen_stmts_prefix(st5, else_body, jp_else + 1);
    lemma_gen_stmts_prefix(st5, else_body, jp_else + 2);
    lemma_gen_stmts_prefix(st5, else_body, jp_else + 3);
    assert(jp_else + 4 <= st3.code.len() < jp_end);
    assert(out.code[jp_else] == spec_le32(else_start)[0]);
    assert(out.code[jp_else + 1] == spec_le32(else_start)[1]);
    assert(out.code[jp_else + 2] == spec_le32(else_start)[2]);
    assert(out.code[jp_else + 3] == spec_le32(else_start)[3]);
    lemma_le32_decode(out.code, jp_else, else_start);

    // The exit jump's operand is the final patch itself.
    let target = st6.code.len() as int;
    assert(out.code[jp_end] == spec_le32(target)[0]);
    assert(out.code[jp_end + 1] == spec_le32(target)[1]);
    assert(out.code[jp_end + 2] == spec_le32(target)[2]);
    assert(out.code[jp_end + 3] == spec_le32(target)[3]);
    lemma_le32_decode(out.code, jp_end, target);
}

/// Scanning an expression's emitted code: the scan walks the segment
/// without faulting and leaves the estimated stack exactly one deeper —
/// generating an expression leaves exactly one value on the operand stack.
/// `code` is any buffer that holds the segment unchanged at its position.
pub proof fn lemma_scan_expr_seg(code: Seq<u8>, st: GenStateV, e: ExprV, d: int)
    requires
        spec_gen_expr(st, e).code.len() <= code.len(),
        forall|i: int|
            st.code.len() <= i < spec_gen_expr(st, e).code.len() ==> #[trigger] code[i]
                == spec_gen_expr(st, e).code[i],
        0 <= d,
    ensures
        spec_scan(code, st.code.len() as int, d) == spec_scan(
            code,
            spec_gen_expr(st, e).code.len() as int,
            d + 1,
        ),
    decreases e,
{
    let gen = spec_gen_expr(st, e);
    match e {
        ExprV::Number(n) => {
            assert(code[st.code.len() as int] == spec_opcode_byte(OpCode::PushNum));
        },
        ExprV::Text(s) => {
            assert(code[st.code.len() as int] == spec_opcode_byte(OpCode::PushStr));
        },
        ExprV::Variable(name) => {
            assert(code[st.code.len() as int] == spec_opcode_byte(OpCode::Load));
        },
        ExprV::BinOp { left, op, right } => {
            let st1 = spec_gen_expr(st, *left);
            let st2 = spec_gen_expr(st1, *right);
            lemma_gen_expr_len(st, *left);
            lemma_gen_expr_len(st1, *right);
            assert forall|i: int| st.code.len() <= i < st1.code.len() implies #[trigger] code[i]
                == st1.code[i] by {
                assert(code[i] == gen.code[i]);
                lemma_gen_expr_prefix(st1, *right, i);
            }
            lemma_scan_expr_seg(code, st, *left, d);
            assert forall|i: int| st1.code.len() <= i < st2.code.len() implies #[trigger] code[i]
                == st2.code[i] by {
                assert(code[i] == gen.code[i]);
            }
            lemma_scan_expr_seg(code, st1, *right, d + 1);
            assert(code[st2.code.len() as int] == spec_opcode_byte(spec_binop_opcode(op)));
        },
    }
}

/// Scanning a statement's emitted code: the scan walks the segment without
/// faulting and leaves the estimated stack unchanged — generating a
/// statement leaves the stack depth as it was.  Every jump target the
/// statement patched lies within its own segment's bounds, so it is inside
/// any buffer that extends the segment by at least one byte (the terminal
/// `Halt` at the very least).
#[verifier::rlimit(100)]
#[verifier::spinoff_prover]
pub proof fn lemma_scan_stmt_seg(code: Seq<u8>, st: GenStateV, s: StmtV, d: int)
    requires
        spec_gen_stmt(st, s).code.len() < code.len(),
        code.len() < 0x1_0000_0000,
        forall|i: int|
            st.code.len() <= i < spec_gen_stmt(st, s).code.len() ==> #[trigger] code[i]
                == spec_gen_stmt(st, s).code[i],
        0 <= d,
    ensures
        spec_scan(code, st.code.len() as int, d) == spec_scan(
            code,
            spec_gen_stmt(st, s).code.len() as int,
            d,
        ),
    decreases s,
{
    let gen = spec_gen_stmt(st, s);
    match s {
        StmtV::VarDecl { name, value } => {
            let st1 = spec_gen_expr(st, value);
            lemma_gen_expr_len(st, value);
            assert forall|i: int| st.code.len() <= i < st1.code.len() implies #[trigger] code[i]
                == st1.code[i] by {
                assert(code[i] == gen.code[i]);
            }
            lemma_scan_expr_seg(code, st, value, d);
            assert(code[st1.code.len() as int] == spec_opcode_byte(OpCode::Store));
        },
        StmtV::Assignment { target, value } => {
            let st1 = spec_gen_expr(st, value);
            lemma_gen_expr_len(st, value);
            assert forall|i: int| st.code.len() <= i < st1.code.len() implies #[trigger] code[i]
                == st1.code[i] by {
                assert(code[i] == gen.code[i]);
            }
            lemma_scan_expr_seg(code, st, value, d);
            assert(code[st1.code.len() as int] == spec_opcode_byte(OpCode::Store));
        },
        StmtV::Print { expr } => {
            let st1 = spec_gen_expr(st, expr);
            lemma_gen_expr_len(st, expr);
            assert forall|i: int| st.code.len() <= i < st1.code.len() implies #[trigger] code[i]
                == st1.code[i] by {
                assert(code[i] == gen.code[i]);
            }
            lemma_scan_expr_seg(code, st, expr, d);
            assert(code[st1.code.len() as int] == spec_opcode_byte(OpCode::Print));
        },
        StmtV::If { condition, then_body, else_body } => {
            let st1 = spec_gen_expr(st, condition);
            lemma_gen_expr_len(st, condition);
            let jp: int = st1.code.len() as int + 1;
            let st2 = GenStateV {
                code: st1.code + seq![spec_opcode_byte(OpCode::JmpIfFalse)] + spec_le32(0),
                ..st1
            };
            let st3 = spec_gen_stmts(st2, then_body);
            lemma_gen_stmts_len(st2, then_body);
            match else_body {
                None => {
                    let target = st3.code.len() as int;
                    assert(gen.code == spec_patch(st3.code, jp, target));
                    assert(gen.code.len() == st3.code.len());

                    // The condition's bytes are untouched by the later
                    // appends and the patch.
                    assert forall|i: int|
                        st.code.len() <= i < st1.code.len() implies #[trigger] code[i]
                        == st1.code[i] by {
                        assert(code[i] == gen.code[i]);
                        lemma_gen_stmts_prefix(st2, then_body, i);
                    }
                    lemma_scan_expr_seg(code, st, condition, d);

                    // The conditional jump: its opcode byte survived, its
                    // operand was patched to just past the construct.
                    assert(code[st1.code.len() as int] == spec_opcode_byte(
                        OpCode::JmpIfFalse,
                    )) by {
                        lemma_gen_stmts_prefix(st2, then_body, st1.code.len() as int);
                    }
                    assert(code[jp] == spec_le32(target)[0]);
                    assert(code[jp + 1] == spec_le32(target)[1]);
                    assert(code[jp + 2] == spec_le32(target)[2]);
                    assert(code[jp + 3] == spec_le32(target)[3]);
                    lemma_le32_decode(code, jp, target);

                    // The then branch.
                    assert forall|i: int|
                        st2.code.len() <= i < st3.code.len() implies #[trigger] code[i]
                        == st3.code[i] by {
                        assert(code[i] == gen.code[i]);
                    }
                    lemma_scan_stmts_seg(code, st2, then_body, d);
                },
                Some(eb) => {
                    let jp_end: int = st3.code.len() as int + 1;
                    let st4 = GenStateV {
                        code: st3.code + seq![spec_opcode_byte(OpCode::Jmp)] + spec_le32(0),
                        ..st3
                    };
                    let else_start = st4.code.len() as int;
                    let st5 = GenStateV {
                        code: spec_patch(st4.code, jp, else_start),
                        ..st4
                    };
                    let st6 = spec_gen_stmts(st5, eb);
                    lemma_gen_stmts_len(st5, eb);
                    let target_end = st6.code.len() as int;
                    assert(gen.code == spec_patch(st6.code, jp_end, target_end));
                    assert(gen.code.len() == st6.code.len());

                    // The condition's bytes are untouched by everything
                    // that follows.
                    assert forall|i: int|
                        st.code.len() <= i < st1.code.len() implies #[trigger] code[i]
                        == st1.code[i] by {
                        assert(code[i] == gen.code[i]);
                        lemma_gen_stmts_prefix(st5, eb, i);
                        lemma_gen_stmts_prefix(st2, then_body, i);
                        assert(gen.code[i] == st6.code[i]);
                        assert(st6.code[i] == st5.code[i]);
                        assert(st5.code[i] == st4.code[i]);
                        assert(st4.code[i] == st3.code[i]);
                        assert(st3.code[i] == st2.code[i]);
                    }
                    lemma_scan_expr_seg(code, st, condition, d);

                    // The conditional jump lands on the else branch.
                    assert(code[st1.code.len() as int] == spec_opcode_byte(
                        OpCode::JmpIfFalse,
                    )) by {
                        lemma_gen_stmts_prefix(st2, then_body, st1.code.len() as int);
                        lemma_gen_stmts_prefix(st5, eb, st1.code.len() as int);
                    }
                    assert(st5.code[jp] == spec_le32(else_start)[0]);
                    assert(st5.code[jp + 1] == spec_le32(else_start)[1]);
                    assert(st5.code[jp + 2] == spec_le32(else_start)[2]);
                    assert(st5.code[jp + 3] == spec_le32(else_start)[3]);
                    lemma_gen_stmts_prefix(st5, eb, jp);
                    lemma_gen_stmts_prefix(st5, eb, jp + 1);
                    lemma_gen_stmts_prefix(st5, eb, jp + 2);
                    lemma_gen_stmts_prefix(st5, eb, jp + 3);
                    assert(code[jp] == spec_le32(else_start)[0]);
                    assert(code[jp + 1] == spec_le32(else_start)[1]);
                    assert(code[jp + 2] == spec_le32(else_start)[2]);
                    assert(code[jp + 3] == spec_le32(else_start)[3]);
                    lemma_le32_decode(code, jp, else_start);

                    // The then branch.
                    assert forall|i: int|
                        st2.code.len() <= i < st3.code.len() implies #[trigger] code[i]
                        == st3.code[i] by {
                        assert(code[i] == gen.code[i]);
                        lemma_gen_stmts_prefix(st5, eb, i);
                        assert(gen.code[i] == st6.code[i]);
                        assert(st6.code[i] == st5.code[i]);
                        assert(st5.code[i] == st4.code[i]);
                    }
                    lemma_scan_stmts_seg(code, st2, then_body, d);

                    // The then branch's exit jump lands past the construct.
                    assert(code[st3.code.len() as int] == spec_opcode_byte(OpCode::Jmp)) by {
                        lemma_gen_stmts_prefix(st5, eb, st3.code.len() as int);
                    }
                    assert(code[jp_end] == spec_le32(target_end)[0]);
                    assert(code[jp_end + 1] == spec_le32(target_end)[1]);
                    assert(code[jp_end + 2] == spec_le32(target_end)[2]);
                    assert(code[jp_end + 3] == spec_le32(target_end)[3]);
                    lemma_le32_decode(code, jp_end, target_end);

                    // The else branch.
                    assert forall|i: int|
                        st5.code.len() <= i < st6.code.len() implies #[trigger] code[i]
                        == st6.code[i] by {
                        assert(code[i] == gen.code[i]);
                    }
                    lemma_scan_stmts_seg(code, st5, eb, d);
                },
            }
        },
        StmtV::While { condition, body } => {
            let loop_start = st.code.len() as int;
            let st1 = spec_gen_expr(st, condition);
            lemma_gen_expr_len(st, condition);
            let jp: int = st1.code.len() as int + 1;
            let st2 = GenStateV {
                code: st1.code + seq![spec_opcode_byte(OpCode::JmpIfFalse)] + spec_le32(0),
                ..st1
            };
            let st3 = spec_gen_stmts(st2, body);
            lemma_gen_stmts_len(st2, body);
            let st4 = GenStateV {
                code: st3.code + seq![spec_opcode_byte(OpCode::Jmp)] + spec_le32(loop_start),
                ..st3
            };
            let target = st4.code.len() as int;
            assert(gen.code == spec_patch(st4.code, jp, target));
            assert(gen.code.len() == st4.code.len());

            // The condition's bytes are untouched by everything after.
            assert forall|i: int| st.code.len() <= i < st1.code.len() implies #[trigger] code[i]
                == st1.code[i] by {
                assert(code[i] == gen.code[i]);
                lemma_gen_stmts_prefix(st2, body, i);
                assert(gen.code[i] == st4.code[i]);
                assert(st4.code[i] == st3.code[i]);
                assert(st3.code[i] == st2.code[i]);
            }
            lemma_scan_expr_seg(code, st, condition, d);

            // The exit jump lands just past the construct.
            assert(code[st1.code.len() as int] == spec_opcode_byte(OpCode::JmpIfFalse)) by {
                lemma_gen_stmts_prefix(st2, body, st1.code.len() as int);
            }
            assert(code[jp] == spec_le32(target)[0]);
            assert(code[jp + 1] == spec_le32(target)[1]);
            assert(code[jp + 2] == spec_le32(target)[2]);
            assert(code[jp + 3] == spec_le32(target)[3]);
            lemma_le32_decode(code, jp, target);

            // The body.
            assert forall|i: int| st2.code.len() <= i < st3.code.len() implies #[trigger] code[i]
                == st3.code[i] by {
                assert(code[i] == gen.code[i]);
            }
            lemma_scan_stmts_seg(code, st2, body, d);

            // The backward jump lands on the condition re-evaluation.
            assert(code[st3.code.len() as int] == spec_opcode_byte(OpCode::Jmp));
            let bp: int = st3.code.len() as int + 1;
            assert(code[bp] == spec_le32(loop_start)[0]);
            assert(code[bp + 1] == spec_le32(loop_start)[1]);
            assert(code[bp + 2] == spec_le32(loop_start)[2]);
            assert(code[bp + 3] == spec_le32(loop_start)[3]);
            lemma_le32_decode(code, bp, loop_start);
        },
        StmtV::Import { module } => {},
    }
}

/// Scanning a statement list's emitted code: the scan walks every
/// statement's segment in order, never faults, and leaves the estimated
/// stack unchanged.
pub proof fn lemma_scan_stmts_seg(code: Seq<u8>, st: GenStateV, ss: Seq<StmtV>, d: int)
    requires
        spec_gen_stmts(st, ss).code.len() < code.len(),
        code.len() < 0x1_0000_0000,
        forall|i: int|
            st.code.len() <= i < spec_gen_stmts(st, ss).code.len() ==> #[trigger] code[i]
                == spec_gen_stmts(st, ss).code[i],
        0 <= d,
    ensures
        spec_scan(code, st.code.len() as int, d) == spec_scan(
            code,
            spec_gen_stmts(st, ss).code.len() as int,
            d,
        ),
    decreases ss,
{
    if ss.len() > 0 {
        let gen = spec_gen_stmts(st, ss);
        let st_mid = spec_gen_stmt(st, ss.first());
        lemma_gen_stmt_len(st, ss.first());
        lemma_gen_stmts_len(st_mid, ss.drop_first());
        assert forall|i: int| st.code.len() <= i < st_mid.code.len() implies #[trigger] code[i]
            == st_mid.code[i] by {
            assert(code[i] == gen.code[i]);
            lemma_gen_stmts_prefix(st_mid, ss.drop_first(), i);
        }
        lemma_scan_stmt_seg(code, st, ss.first(), d);
        lemma_scan_stmts_seg(code, st_mid, ss.drop_first(), d);
    }
}

/// **Verifier completeness.**  Bytecode produced from any successfully
/// parsed program always passes verification: every statement's code scans
/// cleanly with the stack estimate back where it started, every patched
/// jump target lies within the buffer, and the mandatory terminal `Halt`
/// ends the scan.  The one excluded input is an artifact of 2^32 bytes or
/// more, where the 4-byte operands can no longer hold the patched offsets.
pub proof fn lemma_generate_verifies(prog: Seq<StmtV>)
    requires
        spec_generate(prog).code.len() < 0x1_0000_0000,
    ensures
        crate::checker::spec_verify_ok(spec_generate(prog).code),
{
    let st0 = spec_gen_init();
    let stn = spec_gen_stmts(st0, prog);
    let code = spec_generate(prog).code;
    lemma_gen_stmts_len(st0, prog);
    assert(code.len() == stn.code.len() + 1);
    assert forall|i: int| st0.code.len() <= i < stn.code.len() implies #[trigger] code[i]
        == stn.code[i] by {}
    lemma_scan_stmts_seg(code, st0, prog, 0);
    assert(code[stn.code.len() as int] == spec_opcode_byte(OpCode::Halt));
    assert(spec_scan(code, stn.code.len() as int, 0) == Ok::<(), crate::checker::VerifyError>(
        (),
    ));
}

} // verus!
