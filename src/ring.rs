//! Arithmetic on the circular address space.

use vstd::prelude::*;
use vstd::arithmetic::div_mod::*;

verus! {

/// The address `off` cells away from `base` on a ring of `size` cells
pub open spec fn wrap(size: int, base: int, off: int) -> int {
    (base + off) % size
}

/// The canonical value in `[0, size)` of a signed offset
pub open spec fn norm(size: int, v: int) -> int {
    v % size
}

/// A core or p-space size that the ring arithmetic can work with
pub open spec fn valid_size(size: int) -> bool {
    0 < size <= isize::MAX
}

/// Magnitude of a signed offset, as an unsigned number
fn magnitude(off: isize) -> (r: usize)
    ensures
        r as int == if off < 0 { -off } else { off as int },
{
    if off < 0 {
        ((-(off + 1)) as usize) + 1
    } else {
        off as usize
    }
}

/// `(base + off) mod size`, with `off` of any sign
pub fn wrap_offset(size: usize, base: usize, off: isize) -> (r: usize)
    requires
        valid_size(size as int),
        base < size,
    ensures
        r as int == wrap(size as int, base as int, off as int),
        r < size,
{
    let m = magnitude(off);
    let d = m % size;
    let ghost s = size as int;
    proof {
        lemma_fundamental_div_mod(m as int, s);
        let q = m as int / s;
        if off < 0 {
            assert(base as int + off as int == (base as int - d as int) + s * (-q)) by (nonlinear_arith)
                requires m as int == s * q + d as int, m as int == -(off as int);
            lemma_mod_multiples_vanish(-q, base as int - d as int, s);
        } else {
            assert(base as int + off as int == (base as int + d as int) + s * q) by (nonlinear_arith)
                requires m as int == s * q + d as int, m as int == off as int;
            lemma_mod_multiples_vanish(q, base as int + d as int, s);
        }
    }
    if off < 0 {
        if base >= d {
            proof { lemma_small_mod((base - d) as nat, s as nat); }
            base - d
        } else {
            proof {
                lemma_mod_multiples_vanish(1, base as int - d as int, s);
                lemma_small_mod((base + (size - d)) as nat, s as nat);
            }
            base + (size - d)
        }
    } else {
        if d < size - base {
            proof { lemma_small_mod((base + d) as nat, s as nat); }
            base + d
        } else {
            proof {
                lemma_mod_multiples_vanish(-1, base as int + d as int, s);
                lemma_small_mod((d - (size - base)) as nat, s as nat);
            }
            d - (size - base)
        }
    }
}

/// The canonical value in `[0, size)` of a signed offset
pub fn norm_offset(size: usize, v: isize) -> (r: usize)
    requires
        valid_size(size as int),
    ensures
        r as int == norm(size as int, v as int),
        r < size,
{
    wrap_offset(size, 0, v)
}

} // verus!
