//! An experimental pass that rewrites scalar operations into their
//! AVX-512 counterparts where simple loop, array and reduction shapes are
//! recognised.  It looks at the shape of the code only: it checks neither
//! dependences nor strides nor types, so its result computes the same as
//! its input only where the programmer has made sure of that.

use vstd::prelude::*;
use crate::gen_ir::{views, Function, FunctionView, IROp, IR};
use crate::irdump::dumpable;

verus! {

/// Whether `op` is a scalar load.
pub open spec fn is_load(op: IROp) -> bool {
    op is Load
}

/// Whether `op` is a scalar store.
pub open spec fn is_store(op: IROp) -> bool {
    op is Store
}

/// Whether `op` is one of the four scalar arithmetic operations on two
/// registers.
pub open spec fn is_arith(op: IROp) -> bool {
    op is Add || op is Sub || op is Mul || op is Div
}

/// Whether the instruction at `j` jumps back to the label defined at `i`.
pub open spec fn jumps_back(ir: Seq<IR>, i: int, j: int) -> bool {
    &&& 0 <= i < j < ir.len()
    &&& ir[i].op is Label
    &&& ir[j].op is Jmp
    &&& ir[j].lhs == ir[i].lhs
}

/// Whether the instruction at `i` and both its neighbours are loads.
pub open spec fn load_run_at(ir: Seq<IR>, i: int) -> bool {
    &&& 0 < i < ir.len() - 1
    &&& is_load(ir[i - 1].op)
    &&& is_load(ir[i].op)
    &&& is_load(ir[i + 1].op)
}

/// Whether the instruction at `i` is a scalar arithmetic operation.
pub open spec fn arith_at(ir: Seq<IR>, i: int) -> bool {
    0 <= i < ir.len() && is_arith(ir[i].op)
}

/// Whether some label is the target of a later jump.
pub open spec fn has_back_edge(ir: Seq<IR>) -> bool {
    exists|i: int, j: int| jumps_back(ir, i, j)
}

/// Whether three loads stand in a row somewhere.
pub open spec fn has_load_run(ir: Seq<IR>) -> bool {
    exists|i: int| load_run_at(ir, i)
}

/// Whether some instruction is a scalar arithmetic operation.
pub open spec fn has_arith(ir: Seq<IR>) -> bool {
    exists|i: int| arith_at(ir, i)
}

/// Whether the whole function is rewritten: it has a loop, regular
/// accesses and simple arithmetic.
pub open spec fn loop_vectorizable(ir: Seq<IR>) -> bool {
    has_back_edge(ir) && has_load_run(ir) && has_arith(ir)
}

fn is_load_op(op: &IROp) -> (b: bool)
    ensures
        b == is_load(*op),
{
    matches!(op, IROp::Load(_))
}

fn is_store_op(op: &IROp) -> (b: bool)
    ensures
        b == is_store(*op),
{
    matches!(op, IROp::Store(_))
}

fn is_arith_op(op: &IROp) -> (b: bool)
    ensures
        b == is_arith(*op),
{
    matches!(op, IROp::Add | IROp::Sub | IROp::Mul | IROp::Div)
}

/// Whether a later instruction jumps to the label defined at `i`.
fn label_has_back_jump(ir: &[IR], i: usize) -> (found: bool)
    requires
        i < ir.len(),
    ensures
        found == exists|j: int| jumps_back(ir@, i as int, j),
{
    if !matches!(ir[i].op, IROp::Label) {
        return false;
    }
    let mut j: usize = i + 1;
    while j < ir.len()
        invariant
            i < j <= ir.len(),
            ir@[i as int].op is Label,
            forall|b: int| i < b < j ==> !jumps_back(ir@, i as int, b),
        decreases ir.len() - j,
    {
        if matches!(ir[j].op, IROp::Jmp) && ir[j].lhs == ir[i].lhs {
            assert(jumps_back(ir@, i as int, j as int));
            return true;
        }
        j += 1;
    }
    false
}

/// Whether the whole function is to be rewritten.
pub fn can_vectorize_loop(ir: &[IR]) -> (b: bool)
    ensures
        b == loop_vectorizable(ir@),
{
    let mut has_loop = false;
    let mut has_regular_access = false;
    let mut has_simple_arithmetic = false;
    let mut i: usize = 0;
    while i < ir.len()
        invariant
            i <= ir.len(),
            has_loop == exists|a: int, b: int| a < i && jumps_back(ir@, a, b),
            has_regular_access == exists|a: int| a < i && load_run_at(ir@, a),
            has_simple_arithmetic == exists|a: int| a < i && arith_at(ir@, a),
        decreases ir.len() - i,
    {
        let back = label_has_back_jump(ir, i);
        let run = i > 0 && i < ir.len() - 1 && is_load_op(&ir[i].op) && is_load_op(&ir[i - 1].op)
            && is_load_op(&ir[i + 1].op);
        let arith = is_arith_op(&ir[i].op);
        proof {
            assert(run == load_run_at(ir@, i as int));
            assert(arith == arith_at(ir@, i as int));
            if back {
                let j = choose|j: int| jumps_back(ir@, i as int, j);
                assert(i < i + 1 && jumps_back(ir@, i as int, j));
            }
            if has_loop {
                let (a, b) = choose|a: int, b: int| a < i && jumps_back(ir@, a, b);
                assert(a < i + 1 && jumps_back(ir@, a, b));
            }
            if exists|a: int, b: int| a < i + 1 && jumps_back(ir@, a, b) {
                let (a, b) = choose|a: int, b: int| a < i + 1 && jumps_back(ir@, a, b);
                if a == i {
                    assert(jumps_back(ir@, i as int, b));
                } else {
                    assert(a < i && jumps_back(ir@, a, b));
                }
            }
            if has_regular_access {
                let a = choose|a: int| a < i && load_run_at(ir@, a);
                assert(a < i + 1 && load_run_at(ir@, a));
            }
            if run {
                assert(i < i + 1 && load_run_at(ir@, i as int));
            }
            if exists|a: int| a < i + 1 && load_run_at(ir@, a) {
                let a = choose|a: int| a < i + 1 && load_run_at(ir@, a);
                if a != i {
                    assert(a < i && load_run_at(ir@, a));
                }
            }
            if has_simple_arithmetic {
                let a = choose|a: int| a < i && arith_at(ir@, a);
                assert(a < i + 1 && arith_at(ir@, a));
            }
            if arith {
                assert(i < i + 1 && arith_at(ir@, i as int));
            }
            if exists|a: int| a < i + 1 && arith_at(ir@, a) {
                let a = choose|a: int| a < i + 1 && arith_at(ir@, a);
                if a != i {
                    assert(a < i && arith_at(ir@, a));
                }
            }
        }
        has_loop = has_loop || back;
        has_regular_access = has_regular_access || run;
        has_simple_arithmetic = has_simple_arithmetic || arith;
        i += 1;
    }
    proof {
        if has_back_edge(ir@) {
            let (a, b) = choose|a: int, b: int| jumps_back(ir@, a, b);
            assert(a < i && jumps_back(ir@, a, b));
        }
        if has_load_run(ir@) {
            let a = choose|a: int| load_run_at(ir@, a);
            assert(a < i && load_run_at(ir@, a));
        }
        if has_arith(ir@) {
            let a = choose|a: int| arith_at(ir@, a);
            assert(a < i && arith_at(ir@, a));
        }
    }
    has_loop && has_regular_access && has_simple_arithmetic
}

/// Whether a load, an arithmetic operation and a store stand in a row
/// from `i` on.
pub open spec fn is_triplet(ir: Seq<IR>, i: int) -> bool {
    &&& 0 <= i
    &&& i + 2 < ir.len()
    &&& is_load(ir[i].op)
    &&& is_arith(ir[i + 1].op)
    &&& is_store(ir[i + 2].op)
}

/// The first and last index of each triplet that starts before `n`, in
/// ascending order.
pub open spec fn triplets_before(ir: Seq<IR>, n: int) -> Seq<(usize, usize)>
    decreases n,
{
    if n <= 0 {
        Seq::empty()
    } else if is_triplet(ir, n - 1) {
        triplets_before(ir, n - 1).push(((n - 1) as usize, (n + 1) as usize))
    } else {
        triplets_before(ir, n - 1)
    }
}

/// The first and last index of each triplet of `ir`, in ascending order.
pub open spec fn triplets(ir: Seq<IR>) -> Seq<(usize, usize)> {
    triplets_before(ir, ir.len() as int)
}

/// The ranges of the array operations: each load that is followed by an
/// arithmetic operation and a store, with the index of that store.
pub fn identify_array_operations(ir: &[IR]) -> (vector_ops: Vec<(usize, usize)>)
    ensures
        vector_ops@ == triplets(ir@),
{
    let mut vector_ops: Vec<(usize, usize)> = Vec::new();
    let mut i: usize = 0;
    while i < ir.len()
        invariant
            i <= ir.len(),
            vector_ops@ == triplets_before(ir@, i as int),
        decreases ir.len() - i,
    {
        if ir.len() - i > 2 && is_load_op(&ir[i].op) && is_arith_op(&ir[i + 1].op) && is_store_op(
            &ir[i + 2].op,
        ) {
            vector_ops.push((i, i + 2));
            proof {
                assert(is_triplet(ir@, i as int));
                assert(!is_triplet(ir@, i + 1));
                assert(!is_triplet(ir@, i + 2));
                assert(triplets_before(ir@, i + 1) == triplets_before(ir@, i as int).push(
                    (i, (i + 2) as usize),
                ));
                assert(triplets_before(ir@, i + 2) == triplets_before(ir@, i + 1));
                assert(triplets_before(ir@, i + 3) == triplets_before(ir@, i + 2));
            }
            i += 3;
        } else {
            assert(!is_triplet(ir@, i as int));
            i += 1;
        }
    }
    vector_ops
}

/// Whether a triplet from `i` on loads from and stores to the same place
/// through the same register, around an addition or a multiplication.
pub open spec fn is_reduction(ir: Seq<IR>, i: int) -> bool {
    &&& 0 <= i
    &&& i + 2 < ir.len()
    &&& is_load(ir[i].op)
    &&& (ir[i + 1].op is Add || ir[i + 1].op is Mul)
    &&& is_store(ir[i + 2].op)
    &&& ir[i + 2].rhs == ir[i].lhs
    &&& ir[i + 2].lhs == ir[i].rhs
}

/// The vector operation that takes the place of the middle of the
/// reduction that starts at `i`.
pub open spec fn reduction_op(ir: Seq<IR>, i: int) -> IROp {
    if ir[i + 1].op is Add {
        IROp::AVX512Add
    } else {
        IROp::AVX512Mul
    }
}

/// First index, last index and vector operation of each reduction that
/// starts before `n`, in ascending order.
pub open spec fn reductions_before(ir: Seq<IR>, n: int) -> Seq<(usize, usize, IROp)>
    decreases n,
{
    if n <= 0 {
        Seq::empty()
    } else if is_reduction(ir, n - 1) {
        reductions_before(ir, n - 1).push(
            ((n - 1) as usize, (n + 1) as usize, reduction_op(ir, n - 1)),
        )
    } else {
        reductions_before(ir, n - 1)
    }
}

/// First index, last index and vector operation of each reduction of
/// `ir`, in ascending order.
pub open spec fn reductions(ir: Seq<IR>) -> Seq<(usize, usize, IROp)> {
    reductions_before(ir, ir.len() as int)
}

/// The reductions of `ir`: each load that is followed by an addition or a
/// multiplication and by a store of the loaded register to the address it
/// was loaded from.
pub fn detect_reduction_patterns(ir: &[IR]) -> (found: Vec<(usize, usize, IROp)>)
    ensures
        found@ == reductions(ir@),
{
    let mut found: Vec<(usize, usize, IROp)> = Vec::new();
    let mut i: usize = 0;
    while i < ir.len()
        invariant
            i <= ir.len(),
            found@ == reductions_before(ir@, i as int),
        decreases ir.len() - i,
    {
        if ir.len() - i > 2 && is_load_op(&ir[i].op) && is_store_op(&ir[i + 2].op) && ir[i
            + 2].rhs == ir[i].lhs && ir[i + 2].lhs == ir[i].rhs {
            if matches!(ir[i + 1].op, IROp::Add) {
                found.push((i, i + 2, IROp::AVX512Add));
            } else if matches!(ir[i + 1].op, IROp::Mul) {
                found.push((i, i + 2, IROp::AVX512Mul));
            }
        }
        i += 1;
    }
    found
}


/// The instruction `ir` with its operation replaced by `op`.
pub open spec fn with_op(ir: IR, op: IROp) -> IR {
    IR { op, lhs: ir.lhs, rhs: ir.rhs }
}

/// The vector counterpart of a scalar operation; an operation that has
/// none stands for itself.
pub open spec fn simd_op(op: IROp) -> IROp {
    match op {
        IROp::Add => IROp::AVX512Add,
        IROp::Sub => IROp::AVX512Sub,
        IROp::Mul => IROp::AVX512Mul,
        IROp::Div => IROp::AVX512Div,
        IROp::AddImm => IROp::AVX512Addi,
        IROp::SubImm => IROp::AVX512Subi,
        IROp::MulImm => IROp::AVX512Muli,
        IROp::Load(_) => IROp::AVX512Load,
        IROp::Store(_) => IROp::AVX512Store,
        IROp::Mov => IROp::AVX512Mov,
        IROp::LT => IROp::AVX512Cmplt,
        IROp::LE => IROp::AVX512Cmple,
        IROp::EQ => IROp::AVX512Cmpeq,
        _ => op,
    }
}

/// Whether `op` has a vector counterpart.
pub open spec fn is_scalar(op: IROp) -> bool {
    op is Add || op is Sub || op is Mul || op is Div || op is AddImm || op is SubImm
        || op is MulImm || op is Load || op is Store || op is Mov || op is LT || op is LE
        || op is EQ
}

/// The vector counterpart of `op`, if it has one.
pub fn simd_of(op: &IROp) -> (r: Option<IROp>)
    ensures
        r is Some == is_scalar(*op),
        r is Some ==> r->0 == simd_op(*op),
        r is None ==> simd_op(*op) == *op,
{
    match op {
        IROp::Add => Some(IROp::AVX512Add),
        IROp::Sub => Some(IROp::AVX512Sub),
        IROp::Mul => Some(IROp::AVX512Mul),
        IROp::Div => Some(IROp::AVX512Div),
        IROp::AddImm => Some(IROp::AVX512Addi),
        IROp::SubImm => Some(IROp::AVX512Subi),
        IROp::MulImm => Some(IROp::AVX512Muli),
        IROp::Load(_) => Some(IROp::AVX512Load),
        IROp::Store(_) => Some(IROp::AVX512Store),
        IROp::Mov => Some(IROp::AVX512Mov),
        IROp::LT => Some(IROp::AVX512Cmplt),
        IROp::LE => Some(IROp::AVX512Cmple),
        IROp::EQ => Some(IROp::AVX512Cmpeq),
        _ => None,
    }
}

/// Whether the multiplication at `i` and the addition after it, into the
/// same register, become one fused multiply-add.
pub open spec fn fuses(ir: Seq<IR>, i: int) -> bool {
    &&& 0 <= i
    &&& i + 1 < ir.len()
    &&& ir[i].op is Mul
    &&& ir[i + 1].op is Add
    &&& ir[i].lhs == ir[i + 1].lhs
}

/// The operation at `i` after the rewrite of the whole function: the
/// second half of a fused pair becomes `Nop`, its first half `AVX512FMA`,
/// anything else its vector counterpart.
pub open spec fn fused_op(ir: Seq<IR>, i: int) -> IROp {
    if fuses(ir, i - 1) {
        IROp::Nop
    } else if fuses(ir, i) {
        IROp::AVX512FMA
    } else {
        simd_op(ir[i].op)
    }
}

/// The rewrite of the whole function.
pub open spec fn simd_all(ir: Seq<IR>) -> Seq<IR> {
    Seq::new(ir.len(), |i: int| with_op(ir[i], fused_op(ir, i)))
}

/// Rewrites every scalar operation that has a vector counterpart, and
/// fuses each multiplication with an addition that follows it into the
/// same register.
pub fn convert_to_avx512(ir: &mut [IR])
    ensures
        final(ir)@ == simd_all(old(ir)@),
{
    let mut i: usize = 0;
    while i < ir.len()
        invariant
            i <= ir.len(),
            ir.len() == old(ir).len(),
            forall|j: int| 0 <= j < i ==> ir@[j] == simd_all(old(ir)@)[j],
            forall|j: int| i < j < ir.len() ==> ir@[j] == old(ir)@[j],
            i < ir.len() ==> ir@[i as int] == if fuses(old(ir)@, i - 1) {
                with_op(old(ir)@[i as int], IROp::Nop)
            } else {
                old(ir)@[i as int]
            },
        decreases ir.len() - i,
    {
        let fuse = matches!(ir[i].op, IROp::Mul) && ir.len() - i > 1 && matches!(
            ir[i + 1].op,
            IROp::Add
        ) && ir[i].lhs == ir[i + 1].lhs;
        assert(fuse == fuses(old(ir)@, i as int));
        if fuse {
            ir[i].op = IROp::AVX512FMA;
            ir[i + 1].op = IROp::Nop;
        } else {
            match simd_of(&ir[i].op) {
                Some(op) => {
                    ir[i].op = op;
                },
                None => {},
            }
        }
        i += 1;
    }
    assert(ir@ =~= simd_all(old(ir)@));
}

/// Whether `i` lies in one of `ranges`, each given by its first and last
/// index.
pub open spec fn covered(ranges: Seq<(usize, usize)>, i: int) -> bool {
    exists|k: int| in_range(ranges, k, i)
}

/// Whether `i` lies in the range with number `k`.
pub open spec fn in_range(ranges: Seq<(usize, usize)>, k: int, i: int) -> bool {
    0 <= k < ranges.len() && ranges[k].0 <= i <= ranges[k].1
}

/// The rewrite of the instructions inside `ranges`.
pub open spec fn apply_ranges(ir: Seq<IR>, ranges: Seq<(usize, usize)>) -> Seq<IR> {
    Seq::new(
        ir.len(),
        |i: int|
            if covered(ranges, i) {
                with_op(ir[i], simd_op(ir[i].op))
            } else {
                ir[i]
            },
    )
}

/// Whether each range that is not empty ends inside a sequence of `len`
/// instructions.
pub open spec fn ranges_within(ranges: Seq<(usize, usize)>, len: nat) -> bool {
    forall|k: int|
        0 <= k < ranges.len() && (#[trigger] ranges[k]).0 <= ranges[k].1 ==> ranges[k].1 < len
}

/// Rewrites the scalar operations inside `ranges` into their vector
/// counterparts.
pub fn vectorize_ranges(ir: &mut [IR], ranges: &[(usize, usize)])
    requires
        ranges_within(ranges@, old(ir).len() as nat),
    ensures
        final(ir)@ == apply_ranges(old(ir)@, ranges@),
{
    let mut k: usize = 0;
    assert(ir@ =~= apply_ranges(old(ir)@, ranges@.take(0))) by {
        assert forall|j: int| !covered(ranges@.take(0), j) by {
            assert forall|k: int| !in_range(ranges@.take(0), k, j) by {}
        }
    }
    while k < ranges.len()
        invariant
            k <= ranges.len(),
            ir.len() == old(ir).len(),
            ranges_within(ranges@, old(ir).len() as nat),
            ir@ == apply_ranges(old(ir)@, ranges@.take(k as int)),
        decreases ranges.len() - k,
    {
        let start = ranges[k].0;
        let end = ranges[k].1;
        let ghost done = ranges@.take(k as int);
        let ghost next = ranges@.take(k + 1);
        if start <= end {
            let mut i: usize = start;
            while i <= end
                invariant
                    start <= i <= end + 1,
                    end < ir.len(),
                    ir.len() == old(ir).len(),
                    forall|j: int|
                        0 <= j < ir.len() ==> #[trigger] ir@[j] == if covered(done, j) || start <= j
                            < i {
                            with_op(old(ir)@[j], simd_op(old(ir)@[j].op))
                        } else {
                            old(ir)@[j]
                        },
                decreases end + 1 - i,
            {
                let ghost prev = ir@;
                assert(simd_op(simd_op(old(ir)@[i as int].op)) == simd_op(old(ir)@[i as int].op));
                match simd_of(&ir[i].op) {
                    Some(op) => {
                        ir[i].op = op;
                    },
                    None => {},
                }
                proof {
                    assert(ir@[i as int] == with_op(prev[i as int], simd_op(prev[i as int].op)));
                    assert(ir@[i as int] == with_op(
                        old(ir)@[i as int],
                        simd_op(old(ir)@[i as int].op),
                    ));
                    assert forall|j: int| 0 <= j < ir.len() && j != i implies ir@[j] == prev[j] by {}
                }
                i += 1;
            }
        }
        proof {
            assert forall|j: int| covered(next, j) == (covered(done, j) || start <= j <= end) by {
                if covered(done, j) {
                    let w = choose|w: int| in_range(done, w, j);
                    assert(in_range(next, w, j));
                }
                if start <= j <= end {
                    assert(in_range(next, k as int, j));
                }
                if covered(next, j) {
                    let w = choose|w: int| in_range(next, w, j);
                    if w < k {
                        assert(in_range(done, w, j));
                    }
                }
            }
            assert(ir@ =~= apply_ranges(old(ir)@, next));
        }
        k += 1;
    }
    assert(ranges@.take(k as int) =~= ranges@);
}

/// Whether `ir` loads from or stores to memory at all.
pub open spec fn touches_memory(ir: Seq<IR>) -> bool {
    exists|i: int| memory_at(ir, i)
}

/// Whether the instruction at `i` is a scalar load or store.
pub open spec fn memory_at(ir: Seq<IR>, i: int) -> bool {
    0 <= i < ir.len() && (is_load(ir[i].op) || is_store(ir[i].op))
}

/// Whether the function loads from or stores to memory at all.
pub fn has_array_operations(f: &Function) -> (b: bool)
    ensures
        b == touches_memory(f.ir@),
{
    let mut i: usize = 0;
    while i < f.ir.len()
        invariant
            i <= f.ir.len(),
            forall|j: int| 0 <= j < i ==> !memory_at(f.ir@, j),
        decreases f.ir.len() - i,
    {
        if is_load_op(&f.ir[i].op) || is_store_op(&f.ir[i].op) {
            assert(memory_at(f.ir@, i as int));
            return true;
        }
        i += 1;
    }
    false
}

/// What a call of a mathematical function becomes: `sqrt` and `fabs`
/// with one argument, `fmax` and `fmin` with two have a vector operation
/// in their place; any other operation stands for itself.
pub open spec fn math_op(op: IROp) -> IROp {
    match op {
        IROp::Call(name, nargs, _) => if name@ == "sqrt"@ && nargs == 1 {
            IROp::AVX512Sqrt
        } else if name@ == "fabs"@ && nargs == 1 {
            IROp::AVX512And
        } else if name@ == "fmax"@ && nargs == 2 {
            IROp::AVX512Max
        } else if name@ == "fmin"@ && nargs == 2 {
            IROp::AVX512Min
        } else {
            op
        },
        _ => op,
    }
}

/// The rewrite of the calls of mathematical functions.
pub open spec fn math_rewrite(ir: Seq<IR>) -> Seq<IR> {
    Seq::new(ir.len(), |i: int| with_op(ir[i], math_op(ir[i].op)))
}

/// Replaces calls of `sqrt`, `fabs`, `fmax` and `fmin` by vector
/// operations.
pub fn optimize_math_functions(ir: &mut [IR])
    ensures
        final(ir)@ == math_rewrite(old(ir)@),
{
    let sqrt = String::from_str("sqrt");
    let fabs = String::from_str("fabs");
    let fmax = String::from_str("fmax");
    let fmin = String::from_str("fmin");
    let mut i: usize = 0;
    while i < ir.len()
        invariant
            i <= ir.len(),
            ir.len() == old(ir).len(),
            sqrt@ == "sqrt"@,
            fabs@ == "fabs"@,
            fmax@ == "fmax"@,
            fmin@ == "fmin"@,
            forall|j: int| 0 <= j < i ==> ir@[j] == math_rewrite(old(ir)@)[j],
            forall|j: int| i <= j < ir.len() ==> ir@[j] == old(ir)@[j],
        decreases ir.len() - i,
    {
        let replacement = match &ir[i].op {
            IROp::Call(name, nargs, _) => {
                if *name == sqrt && *nargs == 1 {
                    Some(IROp::AVX512Sqrt)
                } else if *name == fabs && *nargs == 1 {
                    Some(IROp::AVX512And)
                } else if *name == fmax && *nargs == 2 {
                    Some(IROp::AVX512Max)
                } else if *name == fmin && *nargs == 2 {
                    Some(IROp::AVX512Min)
                } else {
                    None
                }
            },
            _ => None,
        };
        match replacement {
            Some(op) => {
                ir[i].op = op;
            },
            None => {},
        }
        i += 1;
    }
    assert(ir@ =~= math_rewrite(old(ir)@));
}

/// The rewrite of one reduction: between its first and last index the
/// second instruction gets the vector operation `r.2`, the others become
/// `Nop`.
pub open spec fn apply_reduction(ir: Seq<IR>, r: (usize, usize, IROp)) -> Seq<IR> {
    Seq::new(
        ir.len(),
        |i: int|
            if r.0 <= i <= r.1 {
                with_op(
                    ir[i],
                    if i == r.0 + 1 {
                        r.2
                    } else {
                        IROp::Nop
                    },
                )
            } else {
                ir[i]
            },
    )
}

/// The rewrite of the reductions `rs`, one after the other.
pub open spec fn apply_reductions(ir: Seq<IR>, rs: Seq<(usize, usize, IROp)>) -> Seq<IR>
    decreases rs.len(),
{
    if rs.len() == 0 {
        ir
    } else {
        apply_reduction(apply_reductions(ir, rs.drop_last()), rs.last())
    }
}

/// Whether each reduction that is not empty ends inside a sequence of
/// `len` instructions.
pub open spec fn reductions_within(rs: Seq<(usize, usize, IROp)>, len: nat) -> bool {
    forall|k: int| 0 <= k < rs.len() && (#[trigger] rs[k]).0 <= rs[k].1 ==> rs[k].1 < len
}

/// Rewrites each of the reductions `rs`: the operation in the middle
/// becomes the vector operation, the load and the store around it become
/// `Nop`.
pub fn rewrite_reductions(ir: &mut [IR], rs: &[(usize, usize, IROp)])
    requires
        reductions_within(rs@, old(ir).len() as nat),
    ensures
        final(ir)@ == apply_reductions(old(ir)@, rs@),
{
    let mut k: usize = 0;
    assert(rs@.take(0) =~= Seq::<(usize, usize, IROp)>::empty());
    while k < rs.len()
        invariant
            k <= rs.len(),
            ir.len() == old(ir).len(),
            reductions_within(rs@, old(ir).len() as nat),
            ir@ == apply_reductions(old(ir)@, rs@.take(k as int)),
        decreases rs.len() - k,
    {
        let start = rs[k].0;
        let end = rs[k].1;
        let ghost before = ir@;
        if start <= end {
            let mut i: usize = start;
            while i <= end
                invariant
                    start <= i <= end + 1,
                    end < ir.len(),
                    k < rs.len(),
                    start == rs@[k as int].0,
                    end == rs@[k as int].1,
                    ir.len() == before.len(),
                    forall|j: int|
                        0 <= j < ir.len() ==> ir@[j] == if start <= j < i {
                            apply_reduction(before, rs@[k as int])[j]
                        } else {
                            before[j]
                        },
                decreases end + 1 - i,
            {
                if i - start == 1 {
                    ir[i].op = rs[k].2.duplicate();
                } else {
                    ir[i].op = IROp::Nop;
                }
                i += 1;
            }
        }
        proof {
            let next = rs@.take(k + 1);
            assert(next.drop_last() =~= rs@.take(k as int));
            assert(next.last() == rs@[k as int]);
            assert(ir@ =~= apply_reduction(before, rs@[k as int]));
        }
        k += 1;
    }
    assert(rs@.take(k as int) =~= rs@);
}


/// What the pass makes of the instructions of one function.  Where the
/// function has a loop with regular accesses and simple arithmetic, all
/// of it is rewritten.  Otherwise each triplet of load, arithmetic and
/// store is rewritten, then each reduction that is still found.  Calls
/// of mathematical functions are replaced in either case.
pub open spec fn vectorized(ir: Seq<IR>) -> Seq<IR> {
    math_rewrite(
        if loop_vectorizable(ir) {
            simd_all(ir)
        } else {
            let ranged = apply_ranges(ir, triplets(ir));
            apply_reductions(ranged, reductions(ranged))
        },
    )
}

/// The function `f` after the pass: only the instructions differ.
pub open spec fn vectorized_function(f: FunctionView) -> FunctionView {
    FunctionView { name: f.name, stacksize: f.stacksize, ir: vectorized(f.ir) }
}

/// The functions `fns` after the pass.
pub open spec fn vectorized_all(fns: Seq<FunctionView>) -> Seq<FunctionView> {
    Seq::new(fns.len(), |k: int| vectorized_function(fns[k]))
}

proof fn lemma_triplets_within(ir: Seq<IR>, n: int)
    requires
        n <= ir.len(),
    ensures
        ranges_within(triplets_before(ir, n), ir.len()),
    decreases n,
{
    if n > 0 {
        lemma_triplets_within(ir, n - 1);
    }
}

proof fn lemma_triplets_touch_memory(ir: Seq<IR>, n: int)
    requires
        !touches_memory(ir),
    ensures
        triplets_before(ir, n).len() == 0,
    decreases n,
{
    if n > 0 {
        lemma_triplets_touch_memory(ir, n - 1);
        if is_triplet(ir, n - 1) {
            assert(memory_at(ir, n - 1));
        }
    }
}

proof fn lemma_reductions_within(ir: Seq<IR>, n: int)
    requires
        n <= ir.len(),
    ensures
        reductions_within(reductions_before(ir, n), ir.len()),
    decreases n,
{
    if n > 0 {
        lemma_reductions_within(ir, n - 1);
    }
}

proof fn lemma_no_ranges(ir: Seq<IR>, ranges: Seq<(usize, usize)>)
    requires
        ranges.len() == 0,
    ensures
        apply_ranges(ir, ranges) == ir,
{
    assert forall|j: int| !covered(ranges, j) by {
        assert forall|k: int| !in_range(ranges, k, j) by {}
    }
    assert(apply_ranges(ir, ranges) =~= ir);
}

/// Runs the pass on the instructions of one function.
pub fn vectorize_function(f: &mut Function)
    ensures
        final(f)@ == vectorized_function(old(f)@),
{
    if can_vectorize_loop(&f.ir) {
        convert_to_avx512(&mut f.ir);
    } else {
        let ghost start = f.ir@;
        proof {
            lemma_triplets_within(start, start.len() as int);
            if triplets(start).len() == 0 {
                lemma_no_ranges(start, triplets(start));
            }
        }
        if has_array_operations(f) {
            let vector_ops = identify_array_operations(&f.ir);
            if vector_ops.len() != 0 {
                vectorize_ranges(&mut f.ir, &vector_ops);
            }
        } else {
            proof {
                lemma_triplets_touch_memory(start, start.len() as int);
            }
        }
        assert(f.ir@ == apply_ranges(start, triplets(start)));
        let ghost ranged = f.ir@;
        proof {
            lemma_reductions_within(ranged, ranged.len() as int);
        }
        let found = detect_reduction_patterns(&f.ir);
        if found.len() != 0 {
            rewrite_reductions(&mut f.ir, &found);
        }
    }
    optimize_math_functions(&mut f.ir);
}

/// Runs the pass on every function of `fns`.
pub fn vectorize(fns: &mut Vec<Function>)
    ensures
        views(final(fns)@) == vectorized_all(views(old(fns)@)),
{
    let mut k: usize = 0;
    while k < fns.len()
        invariant
            k <= fns.len(),
            fns.len() == old(fns).len(),
            forall|j: int| 0 <= j < k ==> (#[trigger] fns[j])@ == vectorized_function(old(fns)[j]@),
            forall|j: int| k <= j < fns.len() ==> fns[j] == old(fns)[j],
        decreases fns.len() - k,
    {
        vectorize_function(&mut fns[k]);
        k += 1;
    }
    assert(views(fns@) =~= vectorized_all(views(old(fns)@)));
}


proof fn lemma_triplet_listed(ir: Seq<IR>, i: int, n: int, j: int)
    requires
        ir.len() <= usize::MAX,
        is_triplet(ir, i),
        i < n,
        i <= j <= i + 2,
    ensures
        covered(triplets_before(ir, n), j),
    decreases n,
{
    let found = triplets_before(ir, n);
    if i == n - 1 {
        let k = found.len() - 1;
        assert(found[k] == (i as usize, (i + 2) as usize));
        assert(in_range(found, k, j));
    } else {
        lemma_triplet_listed(ir, i, n - 1, j);
        let before = triplets_before(ir, n - 1);
        let k = choose|k: int| in_range(before, k, j);
        assert(in_range(found, k, j));
    }
}

proof fn lemma_no_reductions_before(ir: Seq<IR>, n: int)
    requires
        ir.len() <= usize::MAX,
        n <= ir.len(),
    ensures
        reductions_before(apply_ranges(ir, triplets(ir)), n).len() == 0,
    decreases n,
{
    if n > 0 {
        lemma_no_reductions_before(ir, n - 1);
        let ranged = apply_ranges(ir, triplets(ir));
        let i = n - 1;
        if is_reduction(ranged, i) {
            if is_triplet(ir, i) {
                lemma_triplet_listed(ir, i, ir.len() as int, i);
                lemma_triplet_listed(ir, i, ir.len() as int, i + 1);
                lemma_triplet_listed(ir, i, ir.len() as int, i + 2);
            }
            assert(false);
        }
    }
}

/// After the rewrite of the triplets no reduction is left to find: each
/// reduction is a triplet, and its load has become a vector load.
pub proof fn lemma_reductions_subsumed(ir: Seq<IR>)
    requires
        ir.len() <= usize::MAX,
    ensures
        reductions(apply_ranges(ir, triplets(ir))).len() == 0,
        vectorized(ir) == math_rewrite(
            if loop_vectorizable(ir) {
                simd_all(ir)
            } else {
                apply_ranges(ir, triplets(ir))
            },
        ),
{
    lemma_no_reductions_before(ir, ir.len() as int);
}

/// The pass leaves every instruction with the operands that its shape
/// asks for.
pub proof fn lemma_vectorized_present(ir: Seq<IR>)
    requires
        ir.len() <= usize::MAX,
        forall|i: int| 0 <= i < ir.len() ==> dumpable(#[trigger] ir[i]),
    ensures
        vectorized(ir).len() == ir.len(),
        forall|i: int| 0 <= i < ir.len() ==> dumpable(#[trigger] vectorized(ir)[i]),
{
    lemma_reductions_subsumed(ir);
    let mid = if loop_vectorizable(ir) {
        simd_all(ir)
    } else {
        apply_ranges(ir, triplets(ir))
    };
    assert forall|i: int| 0 <= i < ir.len() implies dumpable(#[trigger] vectorized(ir)[i]) by {
        assert(dumpable(ir[i]));
        assert(dumpable(mid[i]));
    }
}

/// Runs the pass if it is enabled, and changes nothing if it is not.
pub fn optional_vectorize(fns: &mut Vec<Function>, enabled: bool)
    ensures
        !enabled ==> *final(fns) == *old(fns),
        views(final(fns)@) == if enabled {
            vectorized_all(views(old(fns)@))
        } else {
            views(old(fns)@)
        },
{
    if enabled {
        vectorize(fns);
    }
}

} // verus!
