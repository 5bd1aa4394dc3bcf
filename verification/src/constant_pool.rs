use vstd::prelude::*;

verus! {

/// An append-only table of wide integer constants, referenced from bytecode
/// by index.  An index is assigned at insertion, monotonically increasing,
/// and stays valid for the pool's whole lifetime.
pub struct ConstantPool {
    ints: Vec<i64>,
}

impl View for ConstantPool {
    type V = Seq<i64>;

    closed spec fn view(&self) -> Seq<i64> {
        self.ints@
    }
}

impl ConstantPool {
    /// An empty pool.
    pub fn new() -> (r: Self)
        ensures
            r@ == Seq::<i64>::empty(),
    {
        Self { ints: Vec::new() }
    }

    /// Append a constant; the returned index is the constant's position
    /// (its low 32 bits, when the pool has outgrown the 4-byte operand
    /// width), stable from here on.
    pub fn add_int(&mut self, v: i64) -> (id: u32)
        ensures
            id as int == old(self)@.len() as int % 0x1_0000_0000,
            final(self)@ == old(self)@.push(v),
    {
        let id = ((self.ints.len() as u64) % 0x1_0000_0000) as u32;
        self.ints.push(v);
        id
    }

    /// Look a constant up by index.
    pub fn get_int(&self, id: u32) -> (r: i64)
        requires
            id < self@.len(),
        ensures
            r == self@[id as int],
    {
        self.ints[id as usize]
    }

    /// How many constants the pool holds.
    pub fn len(&self) -> (r: usize)
        ensures
            r == self@.len(),
    {
        self.ints.len()
    }
}

impl Clone for ConstantPool {
    /// A clone holds the same constants.
    fn clone(&self) -> (r: Self)
        ensures
            r@ == self@,
    {
        Self { ints: self.ints.clone() }
    }
}

} // verus!
