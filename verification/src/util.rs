//! Small arithmetic helpers.

use vstd::prelude::*;

verus! {

/// The least multiple of `align` that is not below `x`.
pub open spec fn spec_roundup(x: int, align: int) -> int {
    ((x + align - 1) / align) * align
}

/// `spec_roundup` yields a multiple of `align` in `[x, x + align)`.
pub proof fn lemma_roundup(x: int, align: int)
    requires
        0 <= x,
        0 < align,
    ensures
        spec_roundup(x, align) % align == 0,
        x <= spec_roundup(x, align) < x + align,
{
    let q = (x + align - 1) / align;
    assert(spec_roundup(x, align) % align == 0) by (nonlinear_arith)
        requires
            spec_roundup(x, align) == q * align,
            0 < align,
    ;
    assert(x <= q * align < x + align) by (nonlinear_arith)
        requires
            q == (x + align - 1) / align,
            0 <= x,
            0 < align,
    ;
}

/// Rounds `x` up to the next multiple of `align`.
pub fn roundup(x: usize, align: usize) -> (r: usize)
    requires
        0 < align,
        x + align - 1 <= usize::MAX,
    ensures
        r == spec_roundup(x as int, align as int),
        r % align == 0,
        x <= r < x + align,
{
    proof {
        lemma_roundup(x as int, align as int);
    }
    let q: usize = (x + (align - 1)) / align;
    assert(q * align <= x + align - 1) by (nonlinear_arith)
        requires
            q == (x + align - 1) / (align as int),
            0 < align,
    ;
    q * align
}

} // verus!
