use vstd::prelude::*;

use crate::instructions::{spec_opcode_of_byte, OpCode};

verus! {

/// A 4-byte little-endian unsigned operand, read at offset `i` of `code`.
pub open spec fn spec_u32_le(code: Seq<u8>, i: int) -> u32 {
    (code[i] + 256 * code[i + 1] + 65536 * code[i + 2] + 16777216 * code[i + 3]) as u32
}

/// A cursor over a bytecode buffer: reads opcode bytes and little-endian
/// operands, and jumps to absolute offsets.
pub struct Decoder {
    pub code: Vec<u8>,
    pub ip: usize,
}

impl Decoder {
    /// The bytes the cursor walks over; they never change after construction.
    pub open spec fn spec_code(&self) -> Seq<u8> {
        self.code@
    }

    /// A fresh cursor at offset zero.
    pub fn new(code: Vec<u8>) -> (r: Self)
        ensures
            r.spec_code() == code@,
            r.ip == 0,
    {
        Self { code, ip: 0 }
    }

    /// How many bytes the buffer holds.
    pub fn code_len(&self) -> (r: usize)
        ensures
            r == self.spec_code().len(),
    {
        self.code.len()
    }

    /// Read one byte and advance past it.
    #[inline(always)]
    pub fn read_u8(&mut self) -> (r: u8)
        requires
            old(self).ip < old(self).spec_code().len(),
        ensures
            r == old(self).spec_code()[old(self).ip as int],
            final(self).ip == old(self).ip + 1,
            final(self).spec_code() == old(self).spec_code(),
    {
        let n = self.code.len();
        let v = self.code[self.ip];
        self.ip = self.ip + 1;
        v
    }

    /// Read a 4-byte little-endian operand and advance past it.
    #[inline(always)]
    pub fn read_u32(&mut self) -> (r: u32)
        requires
            old(self).ip + 4 <= old(self).spec_code().len(),
        ensures
            r == spec_u32_le(old(self).spec_code(), old(self).ip as int),
            final(self).ip == old(self).ip + 4,
            final(self).spec_code() == old(self).spec_code(),
    {
        let n = self.code.len();
        let b0 = self.code[self.ip] as u32;
        let b1 = self.code[self.ip + 1] as u32;
        let b2 = self.code[self.ip + 2] as u32;
        let b3 = self.code[self.ip + 3] as u32;
        self.ip = self.ip + 4;
        b0 + 256 * b1 + 65536 * b2 + 16777216 * b3
    }

    /// Read one byte as an opcode; `None` marks an unknown opcode byte.
    #[inline(always)]
    pub fn read_opcode(&mut self) -> (r: Option<OpCode>)
        requires
            old(self).ip < old(self).spec_code().len(),
        ensures
            r == spec_opcode_of_byte(old(self).spec_code()[old(self).ip as int]),
            final(self).ip == old(self).ip + 1,
            final(self).spec_code() == old(self).spec_code(),
    {
        let b = self.read_u8();
        OpCode::from(b)
    }

    /// Move the cursor to an absolute offset.
    #[inline(always)]
    pub fn jump(&mut self, target: usize)
        ensures
            final(self).ip == target,
            final(self).spec_code() == old(self).spec_code(),
    {
        self.ip = target;
    }
}

} // verus!
