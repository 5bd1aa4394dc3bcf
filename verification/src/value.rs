use vstd::prelude::*;

use crate::keywords::push_char;

verus! {

/// A runtime scalar, packed into one machine word with no heap indirection.
///
/// The low bit is the tag: 0 marks an integer stored shifted left by one,
/// 1 marks a boolean, encoded as one of two reserved odd values (1 for
/// false, 3 for true).  The integer payload is therefore 63 bits wide.
pub type Value = i64;

/// What a packed scalar denotes: a 63-bit signed integer or a boolean.
pub enum ValueV {
    Int(int),
    Bool(bool),
}

/// The reserved encoding of `false`.
pub open spec fn spec_false_value() -> Value {
    1
}

/// The reserved encoding of `true`.
pub open spec fn spec_true_value() -> Value {
    3
}

/// The encoding of the boolean `b`.
pub open spec fn spec_boolv(b: bool) -> Value {
    if b {
        spec_true_value()
    } else {
        spec_false_value()
    }
}

/// The encoding of the integer `v`: shifted left by one, dropping the top
/// bit of `v`.
pub open spec fn spec_int(v: i64) -> Value {
    v << 1
}

/// Whether the low tag bit marks a boolean.
pub open spec fn spec_is_bool(v: Value) -> bool {
    v & 1 == 1
}

/// The integer a scalar denotes when read as an integer: the payload above
/// the tag bit, sign extended.
pub open spec fn spec_as_int(v: Value) -> i64 {
    v >> 1
}

/// The boolean a scalar denotes when read as a boolean: only the reserved
/// `true` encoding reads as true.
pub open spec fn spec_as_bool(v: Value) -> bool {
    v == spec_true_value()
}

/// The denotation of a packed scalar.
pub open spec fn spec_value_view(v: Value) -> ValueV {
    if spec_is_bool(v) {
        ValueV::Bool(spec_as_bool(v))
    } else {
        ValueV::Int(spec_as_int(v) as int)
    }
}

/// Pack an integer; the top bit of `v` is dropped by the shift.
#[inline(always)]
pub fn intv(v: i64) -> (r: Value)
    ensures
        r == spec_int(v),
        !spec_is_bool(r),
{
    proof {
        assert((v << 1) & 1 == 0) by (bit_vector);
    }
    v << 1
}

/// Pack a boolean.
#[inline(always)]
pub fn boolv(v: bool) -> (r: Value)
    ensures
        r == spec_boolv(v),
        spec_is_bool(r),
{
    proof {
        assert(1i64 & 1 == 1 && 3i64 & 1 == 1) by (bit_vector);
    }
    if v {
        3
    } else {
        1
    }
}

/// Read the tag bit.
#[inline(always)]
pub fn is_bool(v: Value) -> (r: bool)
    ensures
        r == spec_is_bool(v),
{
    (v & 1) == 1
}

/// Read a scalar as an integer.  The result always fits in 63 bits, which
/// keeps the virtual machine's additions and subtractions free of overflow.
#[inline(always)]
pub fn as_int(v: Value) -> (r: i64)
    ensures
        r == spec_as_int(v),
        -0x4000_0000_0000_0000 <= r < 0x4000_0000_0000_0000,
{
    proof {
        assert(-0x4000_0000_0000_0000 <= (v >> 1) < 0x4000_0000_0000_0000) by (bit_vector);
    }
    v >> 1
}

/// Read a scalar as a boolean.
#[inline(always)]
pub fn as_bool(v: Value) -> (r: bool)
    ensures
        r == spec_as_bool(v),
{
    v == 3
}

/// Packing an integer that fits in 63 bits loses nothing: reading it back
/// returns the same integer.
pub proof fn lemma_int_roundtrip(v: i64)
    requires
        -0x4000_0000_0000_0000 <= v < 0x4000_0000_0000_0000,
    ensures
        spec_as_int(spec_int(v)) == v,
        spec_value_view(spec_int(v)) == ValueV::Int(v as int),
{
    assert((v << 1) >> 1 == v && (v << 1) & 1 == 0) by (bit_vector)
        requires
            -0x4000_0000_0000_0000 <= v < 0x4000_0000_0000_0000,
    ;
}

/// The decimal digit character for `d`.
pub open spec fn spec_digit_char(d: int) -> char {
    if d == 0 {
        '0'
    } else if d == 1 {
        '1'
    } else if d == 2 {
        '2'
    } else if d == 3 {
        '3'
    } else if d == 4 {
        '4'
    } else if d == 5 {
        '5'
    } else if d == 6 {
        '6'
    } else if d == 7 {
        '7'
    } else if d == 8 {
        '8'
    } else {
        '9'
    }
}

/// The decimal digits of `n`, most significant first.
pub open spec fn spec_udec(n: nat) -> Seq<char>
    decreases n,
{
    if n < 10 {
        seq![spec_digit_char(n as int)]
    } else {
        spec_udec(n / 10).push(spec_digit_char((n % 10) as int))
    }
}

/// The decimal text of the signed integer `v`.
pub open spec fn spec_int_text(v: int) -> Seq<char> {
    if v < 0 {
        seq!['-'] + spec_udec((-v) as nat)
    } else {
        spec_udec(v as nat)
    }
}

/// How a scalar renders when printed: integers as decimal text, booleans as
/// `true` or `false`.
pub open spec fn spec_render(v: Value) -> Seq<char> {
    if spec_is_bool(v) {
        if spec_as_bool(v) {
            "true"@
        } else {
            "false"@
        }
    } else {
        spec_int_text(spec_as_int(v) as int)
    }
}

/// The character for one decimal digit.
fn digit_char(d: u64) -> (c: char)
    requires
        d < 10,
    ensures
        c == spec_digit_char(d as int),
{
    match d {
        0 => '0',
        1 => '1',
        2 => '2',
        3 => '3',
        4 => '4',
        5 => '5',
        6 => '6',
        7 => '7',
        8 => '8',
        _ => '9',
    }
}

/// Append the decimal digits of `n` to `out`, most significant first.
fn push_udec(n: u64, out: &mut String)
    ensures
        final(out)@ == old(out)@ + spec_udec(n as nat),
    decreases n,
{
    if n < 10 {
        push_char(out, digit_char(n));
        assert(final(out)@ =~= old(out)@ + spec_udec(n as nat));
    } else {
        push_udec(n / 10, out);
        push_char(out, digit_char(n % 10));
        assert(final(out)@ =~= old(out)@ + spec_udec(n as nat));
    }
}

/// Render a scalar as text, per its tag: an integer becomes decimal text,
/// a boolean becomes `true` or `false`.
pub fn render_value(v: Value) -> (s: String)
    ensures
        s@ == spec_render(v),
{
    if is_bool(v) {
        if as_bool(v) {
            "true".to_owned()
        } else {
            "false".to_owned()
        }
    } else {
        let a = as_int(v);
        let mut s = String::new();
        if a < 0 {
            push_char(&mut s, '-');
            let m = (-a) as u64;
            push_udec(m, &mut s);
            assert(s@ =~= spec_int_text(a as int));
        } else {
            push_udec(a as u64, &mut s);
        }
        s
    }
}

/// Packing a boolean loses nothing either.
pub proof fn lemma_bool_roundtrip(b: bool)
    ensures
        spec_as_bool(spec_boolv(b)) == b,
        spec_value_view(spec_boolv(b)) == ValueV::Bool(b),
{
    assert(1i64 & 1 == 1 && 3i64 & 1 == 1) by (bit_vector);
}

} // verus!
