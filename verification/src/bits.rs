//! Address arithmetic and opcode field extraction, proved against the
//! arithmetic definitions the model uses.
use vstd::prelude::*;

verus! {

/// `addr` reduced into the 4 KiB address space.
pub fn wrap_address(addr: usize) -> (r: usize)
    ensures
        r == addr % 4096,
{
    assert(addr & 4095 == addr % 4096) by (bit_vector);
    addr & 4095
}

/// `a + b` within the 12-bit address space.
pub fn add_address(a: u16, b: u16) -> (r: u16)
    ensures
        r == (a + b) % 4096,
{
    let w = a.wrapping_add(b);
    assert(w & 0x0FFF == w % 4096) by (bit_vector);
    assert(w == (a + b) % 65536);
    assert((a + b) % 65536 % 4096 == (a + b) % 4096) by (nonlinear_arith)
        requires
            0 <= a + b,
    ;
    w & 0x0FFF
}

/// The opcode fields, extracted with masks and shifts, are the arithmetic
/// digits the model decodes.
pub proof fn lemma_decode(op: u16)
    ensures
        op & 0x0FFF == op % 0x1000,
        op & 0x00FF == op % 0x100,
        op & 0x000F == op % 0x10,
        (op >> 8u16) & 0x000F == (op / 0x100) % 0x10,
        (op >> 4u16) & 0x000F == (op / 0x10) % 0x10,
        op & 0xF000 == 0x1000 * (op / 0x1000),
        op / 0x1000 < 16,
{
    assert(op & 0x0FFF == op % 0x1000) by (bit_vector);
    assert(op & 0x00FF == op % 0x100) by (bit_vector);
    assert(op & 0x000F == op % 0x10) by (bit_vector);
    assert((op >> 8u16) & 0x000F == (op / 0x100) % 0x10) by (bit_vector);
    assert((op >> 4u16) & 0x000F == (op / 0x10) % 0x10) by (bit_vector);
    assert(op & 0xF000 == 0x1000 * (op / 0x1000)) by (bit_vector);
}

/// Within the 4 KiB address space, `a` is `offset` bytes past `i` exactly
/// when `a` is the address `i + offset` wraps to.
pub proof fn lemma_offset_address(a: int, i: int, offset: int)
    requires
        0 <= a < 4096,
        0 <= i,
        0 <= offset < 4096,
    ensures
        ((a - i) % 4096 == offset) <==> (a == (i + offset) % 4096),
{
    assert(((a - i) % 4096 == offset) <==> (a == (i + offset) % 4096)) by (nonlinear_arith)
        requires
            0 <= a < 4096,
            0 <= i,
            0 <= offset < 4096,
    ;
}

} // verus!
