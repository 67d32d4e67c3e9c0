//! The execute unit's pure part: what each opcode computes from the two
//! operand snapshots, independent of where the results are stored.

use vstd::prelude::*;
use vstd::arithmetic::div_mod::*;
use crate::redcode::{Field, Instruction, OpCode, OpMode, Offset};
use crate::ring::{norm, norm_offset, valid_size, wrap_offset};

verus! {

/// `i` with its A-offset replaced by `v`
pub open spec fn with_a(i: Instruction, v: Offset) -> Instruction {
    Instruction { a: Field { offset: v, mode: i.a.mode }, ..i }
}

/// `i` with its B-offset replaced by `v`
pub open spec fn with_b(i: Instruction, v: Offset) -> Instruction {
    Instruction { b: Field { offset: v, mode: i.b.mode }, ..i }
}

/// `v + 1`, reduced into `[0, size)`
pub open spec fn inc(size: int, v: Offset) -> Offset {
    norm(size, v + 1) as Offset
}

/// `v - 1`, reduced into `[0, size)`
pub open spec fn dec(size: int, v: Offset) -> Offset {
    norm(size, v - 1) as Offset
}

/// One arithmetic operation on two canonical values `x` (from B) and `y`
/// (from A); for `DIV` and `MOD`, `y` is not zero
pub open spec fn arith(code: OpCode, size: int, x: int, y: int) -> int {
    match code {
        OpCode::Add => (x + y) % size,
        OpCode::Sub => (x - y) % size,
        OpCode::Mul => (x * y) % size,
        OpCode::Div => x / y,
        OpCode::Mod => x % y,
        _ => x,
    }
}

/// Arithmetic on two raw offsets: both are first reduced into `[0, size)`
pub open spec fn arith_field(code: OpCode, size: int, bv: Offset, av: Offset) -> Offset {
    arith(code, size, norm(size, bv as int), norm(size, av as int)) as Offset
}

/// The opcodes that divide
pub open spec fn is_division(code: OpCode) -> bool {
    code == OpCode::Div || code == OpCode::Mod
}

/// A division whose divisor, a participating half of `a`, is zero
pub open spec fn divides_by_zero(code: OpCode, mode: OpMode, a: Instruction, size: int) -> bool {
    is_division(code) && match mode {
        OpMode::A | OpMode::AB => norm(size, a.a.offset as int) == 0,
        OpMode::B | OpMode::BA => norm(size, a.b.offset as int) == 0,
        _ => norm(size, a.a.offset as int) == 0 || norm(size, a.b.offset as int) == 0,
    }
}

/// The instruction written back to B by `ADD`, `SUB`, `MUL`, `DIV` or `MOD`
pub open spec fn arith_result(code: OpCode, mode: OpMode, a: Instruction, b: Instruction, size: int) -> Instruction {
    match mode {
        OpMode::A => with_a(b, arith_field(code, size, b.a.offset, a.a.offset)),
        OpMode::B => with_b(b, arith_field(code, size, b.b.offset, a.b.offset)),
        OpMode::AB => with_b(b, arith_field(code, size, b.b.offset, a.a.offset)),
        OpMode::BA => with_a(b, arith_field(code, size, b.a.offset, a.b.offset)),
        OpMode::X => with_b(
            with_a(b, arith_field(code, size, b.a.offset, a.b.offset)),
            arith_field(code, size, b.b.offset, a.a.offset),
        ),
        _ => with_b(
            with_a(b, arith_field(code, size, b.a.offset, a.a.offset)),
            arith_field(code, size, b.b.offset, a.b.offset),
        ),
    }
}

/// The instruction written to B by a copy from `a` (`MOV`, `LDP`, `STP`)
pub open spec fn mov_result(mode: OpMode, a: Instruction, b: Instruction) -> Instruction {
    match mode {
        OpMode::A => with_a(b, a.a.offset),
        OpMode::B => with_b(b, a.b.offset),
        OpMode::AB => with_b(b, a.a.offset),
        OpMode::BA => with_a(b, a.b.offset),
        OpMode::F => with_b(with_a(b, a.a.offset), a.b.offset),
        OpMode::X => with_b(with_a(b, a.b.offset), a.a.offset),
        OpMode::I => a,
    }
}

/// The B operand is zero under `mode` (`JMZ`)
pub open spec fn is_zero(mode: OpMode, b: Instruction) -> bool {
    match mode {
        OpMode::A | OpMode::BA => b.a.offset == 0,
        OpMode::B | OpMode::AB => b.b.offset == 0,
        _ => b.a.offset == 0 && b.b.offset == 0,
    }
}

/// The B operand is non-zero under `mode` (`JMN`, `DJN`)
pub open spec fn is_nonzero(mode: OpMode, b: Instruction) -> bool {
    match mode {
        OpMode::A | OpMode::BA => b.a.offset != 0,
        OpMode::B | OpMode::AB => b.b.offset != 0,
        _ => b.a.offset != 0 && b.b.offset != 0,
    }
}

/// The B operand decremented under `mode` (`DJN`)
pub open spec fn djn_result(mode: OpMode, b: Instruction, size: int) -> Instruction {
    match mode {
        OpMode::A | OpMode::BA => with_a(b, dec(size, b.a.offset)),
        OpMode::B | OpMode::AB => with_b(b, dec(size, b.b.offset)),
        _ => with_b(with_a(b, dec(size, b.a.offset)), dec(size, b.b.offset)),
    }
}

/// The operands are equal under `mode` (`SEQ`; `SNE` is its negation)
pub open spec fn is_equal(mode: OpMode, a: Instruction, b: Instruction) -> bool {
    match mode {
        OpMode::A => a.a.offset == b.a.offset,
        OpMode::B => a.b.offset == b.b.offset,
        OpMode::AB => a.a.offset == b.b.offset,
        OpMode::BA => a.b.offset == b.a.offset,
        OpMode::F => a.a.offset == b.a.offset && a.b.offset == b.b.offset,
        OpMode::X => a.a.offset == b.b.offset && a.b.offset == b.a.offset,
        OpMode::I => a == b,
    }
}

/// `a` is less than `b` under `mode`, on signed offsets (`SLT`)
pub open spec fn is_less(mode: OpMode, a: Instruction, b: Instruction) -> bool {
    match mode {
        OpMode::A => a.a.offset < b.a.offset,
        OpMode::B => a.b.offset < b.b.offset,
        OpMode::AB => a.a.offset < b.b.offset,
        OpMode::BA => a.b.offset < b.a.offset,
        OpMode::X => a.a.offset < b.b.offset && a.b.offset < b.a.offset,
        _ => a.a.offset < b.a.offset && a.b.offset < b.b.offset,
    }
}

/// Replace the A-offset of `i`
pub fn set_a(i: Instruction, v: Offset) -> (r: Instruction)
    ensures
        r == with_a(i, v),
{
    Instruction { a: Field { offset: v, mode: i.a.mode }, ..i }
}

/// Replace the B-offset of `i`
pub fn set_b(i: Instruction, v: Offset) -> (r: Instruction)
    ensures
        r == with_b(i, v),
{
    Instruction { b: Field { offset: v, mode: i.b.mode }, ..i }
}

/// `v + 1` reduced into `[0, size)`
pub fn inc_offset(size: usize, v: Offset) -> (r: Offset)
    requires
        valid_size(size as int),
    ensures
        r == inc(size as int, v),
        0 <= r < size,
{
    let n = norm_offset(size, v);
    let r = wrap_offset(size, n, 1);
    proof {
        lemma_add_mod_noop(v as int, 1, size as int);
        lemma_add_mod_noop_right(n as int, 1, size as int);
    }
    r as Offset
}

/// `v - 1` reduced into `[0, size)`
pub fn dec_offset(size: usize, v: Offset) -> (r: Offset)
    requires
        valid_size(size as int),
    ensures
        r == dec(size as int, v),
        0 <= r < size,
{
    let n = norm_offset(size, v);
    let r = wrap_offset(size, n, -1);
    proof {
        lemma_add_mod_noop(v as int, -1, size as int);
        lemma_add_mod_noop_right(n as int, -1, size as int);
    }
    r as Offset
}

/// One arithmetic operation on two raw offsets, reduced into `[0, size)`
pub fn arith_offset(code: OpCode, size: usize, bv: Offset, av: Offset) -> (r: Offset)
    requires
        valid_size(size as int),
        is_division(code) ==> norm(size as int, av as int) != 0,
    ensures
        r == arith_field(code, size as int, bv, av),
        0 <= r < size,
{
    let x = norm_offset(size, bv);
    let y = norm_offset(size, av);
    let r: usize = match code {
        OpCode::Add => wrap_offset(size, x, y as isize),
        OpCode::Sub => wrap_offset(size, x, -(y as isize)),
        OpCode::Mul => {
            proof {
                assert((x as int) * (y as int) <= (isize::MAX as int) * (isize::MAX as int)) by (nonlinear_arith)
                    requires x < size, y < size, size <= isize::MAX;
            }
            let p: u128 = (x as u128) * (y as u128);
            let q = (p % (size as u128)) as usize;
            q
        },
        OpCode::Div => x / y,
        OpCode::Mod => {
            proof { lemma_mod_bound(x as int, y as int); }
            x % y
        },
        _ => x,
    };
    proof {
        if code == OpCode::Div {
            lemma_div_basics_4(x as int, y as int);
            lemma_div_basics_5(x as int, y as int);
        }
    }
    r as Offset
}

/// The result of a division is undefined on a zero divisor
pub fn divides_by_zero_check(code: OpCode, mode: OpMode, a: Instruction, size: usize) -> (r: bool)
    requires
        valid_size(size as int),
    ensures
        r == divides_by_zero(code, mode, a, size as int),
{
    if code != OpCode::Div && code != OpCode::Mod {
        return false;
    }
    let za = norm_offset(size, a.a.offset) == 0;
    let zb = norm_offset(size, a.b.offset) == 0;
    match mode {
        OpMode::A | OpMode::AB => za,
        OpMode::B | OpMode::BA => zb,
        _ => za || zb,
    }
}

/// The instruction that `ADD`, `SUB`, `MUL`, `DIV` or `MOD` writes back to B
pub fn arith_instruction(code: OpCode, mode: OpMode, a: Instruction, b: Instruction, size: usize) -> (r: Instruction)
    requires
        valid_size(size as int),
        !divides_by_zero(code, mode, a, size as int),
    ensures
        r == arith_result(code, mode, a, b, size as int),
{
    match mode {
        OpMode::A => set_a(b, arith_offset(code, size, b.a.offset, a.a.offset)),
        OpMode::B => set_b(b, arith_offset(code, size, b.b.offset, a.b.offset)),
        OpMode::AB => set_b(b, arith_offset(code, size, b.b.offset, a.a.offset)),
        OpMode::BA => set_a(b, arith_offset(code, size, b.a.offset, a.b.offset)),
        OpMode::X => {
            let na = arith_offset(code, size, b.a.offset, a.b.offset);
            let nb = arith_offset(code, size, b.b.offset, a.a.offset);
            set_b(set_a(b, na), nb)
        },
        _ => {
            let na = arith_offset(code, size, b.a.offset, a.a.offset);
            let nb = arith_offset(code, size, b.b.offset, a.b.offset);
            set_b(set_a(b, na), nb)
        },
    }
}

/// The instruction that a copy from `a` into `b` produces
pub fn mov_instruction(mode: OpMode, a: Instruction, b: Instruction) -> (r: Instruction)
    ensures
        r == mov_result(mode, a, b),
{
    match mode {
        OpMode::A => set_a(b, a.a.offset),
        OpMode::B => set_b(b, a.b.offset),
        OpMode::AB => set_b(b, a.a.offset),
        OpMode::BA => set_a(b, a.b.offset),
        OpMode::F => set_b(set_a(b, a.a.offset), a.b.offset),
        OpMode::X => set_b(set_a(b, a.b.offset), a.a.offset),
        OpMode::I => a,
    }
}

/// Is the B operand zero under `mode`
pub fn zero_check(mode: OpMode, b: Instruction) -> (r: bool)
    ensures
        r == is_zero(mode, b),
{
    match mode {
        OpMode::A | OpMode::BA => b.a.offset == 0,
        OpMode::B | OpMode::AB => b.b.offset == 0,
        _ => b.a.offset == 0 && b.b.offset == 0,
    }
}

/// Is the B operand non-zero under `mode`
pub fn nonzero_check(mode: OpMode, b: Instruction) -> (r: bool)
    ensures
        r == is_nonzero(mode, b),
{
    match mode {
        OpMode::A | OpMode::BA => b.a.offset != 0,
        OpMode::B | OpMode::AB => b.b.offset != 0,
        _ => b.a.offset != 0 && b.b.offset != 0,
    }
}

/// The B operand decremented under `mode`
pub fn djn_instruction(mode: OpMode, b: Instruction, size: usize) -> (r: Instruction)
    requires
        valid_size(size as int),
    ensures
        r == djn_result(mode, b, size as int),
{
    match mode {
        OpMode::A | OpMode::BA => set_a(b, dec_offset(size, b.a.offset)),
        OpMode::B | OpMode::AB => set_b(b, dec_offset(size, b.b.offset)),
        _ => {
            let na = dec_offset(size, b.a.offset);
            let nb = dec_offset(size, b.b.offset);
            set_b(set_a(b, na), nb)
        },
    }
}

/// Are the operands equal under `mode`
pub fn equal_check(mode: OpMode, a: Instruction, b: Instruction) -> (r: bool)
    ensures
        r == is_equal(mode, a, b),
{
    match mode {
        OpMode::A => a.a.offset == b.a.offset,
        OpMode::B => a.b.offset == b.b.offset,
        OpMode::AB => a.a.offset == b.b.offset,
        OpMode::BA => a.b.offset == b.a.offset,
        OpMode::F => a.a.offset == b.a.offset && a.b.offset == b.b.offset,
        OpMode::X => a.a.offset == b.b.offset && a.b.offset == b.a.offset,
        OpMode::I => a == b,
    }
}

/// Is `a` less than `b` under `mode`
pub fn less_check(mode: OpMode, a: Instruction, b: Instruction) -> (r: bool)
    ensures
        r == is_less(mode, a, b),
{
    match mode {
        OpMode::A => a.a.offset < b.a.offset,
        OpMode::B => a.b.offset < b.b.offset,
        OpMode::AB => a.a.offset < b.b.offset,
        OpMode::BA => a.b.offset < b.a.offset,
        OpMode::X => a.a.offset < b.b.offset && a.b.offset < b.a.offset,
        _ => a.a.offset < b.a.offset && a.b.offset < b.b.offset,
    }
}

} // verus!
