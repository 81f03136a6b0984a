//! Register allocation: the unbounded virtual registers of the IR are
//! mapped to the seven physical registers by one scan over each function.
//!
//! A first walk finds where each virtual register is used last.  A second
//! walk gives every virtual register, where it is first met, the free
//! physical register with the lowest index, renames its operands, and frees
//! the physical register again where the range of the virtual register
//! ends: at its last use, or at a `Kill`.  `Kill` itself becomes `Nop`.

use vstd::prelude::*;
use std::collections::HashMap;
use crate::gen_ir::{views, Function, FunctionView, IROp, IRType, IR};
use crate::irdump::{dumpable, op_type, operand_of, IRInfo};
use crate::REGS_N;

verus! {

broadcast use vstd::std_specs::hash::group_hash_axioms;

/// The allocator ran out of physical registers.
#[derive(Clone, Copy, Debug, PartialEq, Eq, Structural)]
pub struct AllocError {
    /// Index of the function.
    pub function: usize,
    /// Index of the instruction at which no register was free.
    pub instruction: usize,
}

/// The number of arguments of a call that are passed in registers.
pub open spec fn arg_count(nargs: usize) -> int {
    if nargs <= 6 {
        nargs as int
    } else {
        6
    }
}

/// The operands of `ir` that name registers, in the order in which the
/// allocator meets them: the left operand, then the right operand or the
/// arguments of a call.
pub open spec fn reg_operands(ir: IR) -> Seq<usize> {
    match ir.op {
        IROp::Call(_, nargs, args) => seq![operand_of(ir.lhs)] + args@.take(arg_count(nargs)),
        _ => match op_type(ir.op) {
            IRType::Reg | IRType::RegImm | IRType::RegLabel | IRType::LabelAddr => seq![
                operand_of(ir.lhs),
            ],
            IRType::Mem | IRType::RegReg => seq![operand_of(ir.lhs), operand_of(ir.rhs)],
            _ => Seq::empty(),
        },
    }
}

/// Whether `v` is a register operand of `ir`.
pub open spec fn occurs(ir: IR, v: usize) -> bool {
    reg_operands(ir).contains(v)
}

/// Index of the last instruction of `irs` that has `v` as a register
/// operand; -1 if there is none.
pub open spec fn last_use(irs: Seq<IR>, v: usize) -> int
    decreases irs.len(),
{
    if irs.len() == 0 {
        -1
    } else if occurs(irs.last(), v) {
        irs.len() - 1
    } else {
        last_use(irs.drop_last(), v)
    }
}

/// Whether the range of `v` ends at instruction `i`: `v` is an operand
/// there, and the instruction is a `Kill` or the last use of `v`.
pub open spec fn ends_at(irs: Seq<IR>, i: int, v: usize) -> bool {
    occurs(irs[i], v) && (irs[i].op is Kill || last_use(irs, v) == i)
}

/// The state in which no physical register is taken.  A state holds, for
/// each physical register, the virtual register that has it.
pub open spec fn all_free() -> Seq<Option<usize>> {
    Seq::new(REGS_N as nat, |p: int| None)
}

/// The lowest physical register from `from` on that `v` has; the number
/// of registers if there is none.
pub open spec fn find_holder(st: Seq<Option<usize>>, v: usize, from: int) -> int
    decreases st.len() - from,
{
    if from < 0 || from >= st.len() {
        st.len() as int
    } else if st[from] == Some(v) {
        from
    } else {
        find_holder(st, v, from + 1)
    }
}

/// The lowest physical register from `from` on that is free; the number of
/// registers if there is none.
pub open spec fn find_free(st: Seq<Option<usize>>, from: int) -> int
    decreases st.len() - from,
{
    if from < 0 || from >= st.len() {
        st.len() as int
    } else if st[from] is None {
        from
    } else {
        find_free(st, from + 1)
    }
}

/// The physical register of `v`, and the state after it: the register
/// that `v` has already, else the free register with the lowest index,
/// which `v` then has.  `None` if `v` has none and none is free.
pub open spec fn claim(st: Seq<Option<usize>>, v: usize) -> Option<(Seq<Option<usize>>, usize)> {
    let h = find_holder(st, v, 0);
    if h < st.len() {
        Some((st, h as usize))
    } else {
        let f = find_free(st, 0);
        if f < st.len() {
            Some((st.update(f, Some(v)), f as usize))
        } else {
            None
        }
    }
}

/// The physical registers of the virtual registers `vs`, claimed in
/// order, and the state after that.
pub open spec fn claim_all(st: Seq<Option<usize>>, vs: Seq<usize>) -> Option<
    (Seq<Option<usize>>, Seq<usize>),
>
    decreases vs.len(),
{
    if vs.len() == 0 {
        Some((st, Seq::empty()))
    } else {
        match claim_all(st, vs.drop_last()) {
            None => None,
            Some((st1, ps)) => match claim(st1, vs.last()) {
                None => None,
                Some((st2, p)) => Some((st2, ps.push(p))),
            },
        }
    }
}

/// The state after instruction `i`: every physical register whose
/// virtual register ends its range there is free again.
pub open spec fn release_ended(st: Seq<Option<usize>>, irs: Seq<IR>, i: int) -> Seq<Option<usize>> {
    Seq::new(
        st.len(),
        |p: int|
            match st[p] {
                Some(v) => if ends_at(irs, i, v) {
                    None
                } else {
                    st[p]
                },
                None => None,
            },
    )
}

/// Argument `j` of a renamed call with `n` arguments: the physical
/// register of the argument, 0 behind the last argument.
pub open spec fn pick(ps: Seq<usize>, n: int, j: int) -> usize {
    if j < n {
        ps[j + 1]
    } else {
        0
    }
}

/// The instruction `ir` with its register operands replaced by the
/// physical registers `ps`, and with `Nop` in the place of `Kill`.
pub open spec fn renamed(ir: IR, ps: Seq<usize>) -> IR {
    match ir.op {
        IROp::Call(name, nargs, args) => {
            let n = arg_count(nargs);
            IR {
                op: IROp::Call(
                    name,
                    nargs,
                    [
                        pick(ps, n, 0),
                        pick(ps, n, 1),
                        pick(ps, n, 2),
                        pick(ps, n, 3),
                        pick(ps, n, 4),
                        pick(ps, n, 5),
                    ],
                ),
                lhs: Some(ps[0]),
                rhs: ir.rhs,
            }
        },
        IROp::Kill => IR { op: IROp::Nop, lhs: Some(ps[0]), rhs: ir.rhs },
        _ => match op_type(ir.op) {
            IRType::Reg | IRType::RegImm | IRType::RegLabel | IRType::LabelAddr => IR {
                op: ir.op,
                lhs: Some(ps[0]),
                rhs: ir.rhs,
            },
            IRType::Mem | IRType::RegReg => IR { op: ir.op, lhs: Some(ps[0]), rhs: Some(ps[1]) },
            _ => ir,
        },
    }
}

/// What the allocator makes of instruction `i` in the state `st`: the
/// state after it and the renamed instruction, or `None` where a register
/// is needed and none is free.
pub open spec fn step(st: Seq<Option<usize>>, irs: Seq<IR>, i: int) -> Option<
    (Seq<Option<usize>>, IR),
> {
    match claim_all(st, reg_operands(irs[i])) {
        None => None,
        Some((st1, ps)) => Some((release_ended(st1, irs, i), renamed(irs[i], ps))),
    }
}

/// The state and the renamed instructions after the first `n`
/// instructions of `irs`, or `None` where one of them found no register.
pub open spec fn run(irs: Seq<IR>, n: int) -> Option<(Seq<Option<usize>>, Seq<IR>)>
    decreases n,
{
    if n <= 0 {
        Some((all_free(), Seq::empty()))
    } else {
        match run(irs, n - 1) {
            None => None,
            Some((st, out)) => match step(st, irs, n - 1) {
                None => None,
                Some((st2, ir2)) => Some((st2, out.push(ir2))),
            },
        }
    }
}

/// The instructions of a function after allocation, or `None` where more
/// virtual registers are live at once than there are physical registers.
pub open spec fn allocated(irs: Seq<IR>) -> Option<Seq<IR>> {
    match run(irs, irs.len() as int) {
        Some((_, out)) => Some(out),
        None => None,
    }
}

/// Whether every instruction of `irs` has the operands that its shape
/// asks for.
pub open spec fn all_present(irs: Seq<IR>) -> bool {
    forall|i: int| 0 <= i < irs.len() ==> dumpable(#[trigger] irs[i])
}

/// Whether every register operand of `ir` is a physical register.
pub open spec fn in_budget(ir: IR) -> bool {
    forall|j: int| 0 <= j < reg_operands(ir).len() ==> #[trigger] reg_operands(ir)[j] < REGS_N
}

/// Once the allocator has failed it stays failed.
pub proof fn lemma_run_stays_failed(irs: Seq<IR>, n: int, m: int)
    requires
        0 <= n <= m,
        run(irs, n) is None,
    ensures
        run(irs, m) is None,
    decreases m - n,
{
    if n < m {
        lemma_run_stays_failed(irs, n, m - 1);
    }
}

/// The register operands of `ir`.
fn operands(ir: &IR) -> (ops: Vec<usize>)
    requires
        dumpable(*ir),
    ensures
        ops@ == reg_operands(*ir),
{
    let mut ops: Vec<usize> = Vec::new();
    match &ir.op {
        IROp::Call(_, nargs, args) => {
            ops.push(ir.lhs.unwrap());
            let n: usize = if *nargs <= 6 {
                *nargs
            } else {
                6
            };
            let mut j: usize = 0;
            while j < n
                invariant
                    j <= n <= 6,
                    ir.lhs is Some,
                    ops@ == seq![operand_of(ir.lhs)] + args@.take(j as int),
                decreases n - j,
            {
                ops.push(args[j]);
                assert(ops@ =~= seq![operand_of(ir.lhs)] + args@.take(j + 1));
                j += 1;
            }
        },
        _ => {
            let info = IRInfo::from(&ir.op);
            match info.ty {
                IRType::Reg | IRType::RegImm | IRType::RegLabel | IRType::LabelAddr => {
                    ops.push(ir.lhs.unwrap());
                    assert(ops@ =~= reg_operands(*ir));
                },
                IRType::Mem | IRType::RegReg => {
                    ops.push(ir.lhs.unwrap());
                    ops.push(ir.rhs.unwrap());
                    assert(ops@ =~= reg_operands(*ir));
                },
                _ => {},
            }
        },
    }
    ops
}


/// A last use that is found lies at an instruction that has the register
/// as an operand.
pub proof fn lemma_last_use_occurs(irs: Seq<IR>, v: usize)
    ensures
        -1 <= last_use(irs, v) < irs.len(),
        last_use(irs, v) >= 0 ==> occurs(irs[last_use(irs, v)], v),
        forall|i: int| last_use(irs, v) < i < irs.len() ==> !occurs(irs[i], v),
    decreases irs.len(),
{
    if irs.len() > 0 && !occurs(irs.last(), v) {
        let front = irs.drop_last();
        lemma_last_use_occurs(front, v);
        assert forall|i: int| last_use(irs, v) < i < irs.len() implies !occurs(irs[i], v) by {
            if i < front.len() {
                assert(front[i] == irs[i]);
            }
        }
        if last_use(irs, v) >= 0 {
            assert(front[last_use(irs, v)] == irs[last_use(irs, v)]);
        }
    }
}

/// Whether `last` holds the last use of every virtual register of `irs`,
/// and nothing else.
pub open spec fn is_liveness(last: Map<usize, usize>, irs: Seq<IR>) -> bool {
    forall|v: usize|
        #![trigger last.contains_key(v)]
        #![trigger last_use(irs, v)]
        {
            &&& last.contains_key(v) == (last_use(irs, v) >= 0)
            &&& last.contains_key(v) ==> last[v] == last_use(irs, v)
        }
}

/// The liveness walk: the index of the last use of each virtual register.
fn last_uses(ir: &[IR]) -> (last: HashMap<usize, usize>)
    requires
        all_present(ir@),
    ensures
        is_liveness(last@, ir@),
{
    let mut last: HashMap<usize, usize> = HashMap::new();
    let mut i: usize = 0;
    assert(ir@.take(0) =~= Seq::<IR>::empty());
    while i < ir.len()
        invariant
            i <= ir.len(),
            all_present(ir@),
            is_liveness(last@, ir@.take(i as int)),
        decreases ir.len() - i,
    {
        let ops = operands(&ir[i]);
        let ghost before = last@;
        let ghost done = ir@.take(i as int);
        let ghost next = ir@.take(i + 1);
        proof {
            assert(next.drop_last() =~= done);
            assert(next.last() == ir@[i as int]);
        }
        let mut j: usize = 0;
        while j < ops.len()
            invariant
                j <= ops.len(),
                ops@ == reg_operands(ir@[i as int]),
                is_liveness(before, done),
                forall|v: usize|
                    #![trigger last@.contains_key(v)]
                    {
                        &&& last@.contains_key(v) == (before.contains_key(v) || ops@.take(
                            j as int,
                        ).contains(v))
                        &&& last@.contains_key(v) ==> last@[v] == if ops@.take(j as int).contains(
                            v,
                        ) {
                            i
                        } else {
                            before[v]
                        }
                    },
            decreases ops.len() - j,
        {
            let ghost seen = ops@.take(j as int);
            last.insert(ops[j], i);
            proof {
                let more = ops@.take(j + 1);
                assert(more =~= seen.push(ops@[j as int]));
                assert forall|v: usize| more.contains(v) == (seen.contains(v) || v == ops@[j as int]) by {
                    if seen.contains(v) {
                        let w = choose|w: int| 0 <= w < seen.len() && seen[w] == v;
                        assert(more[w] == v);
                    }
                    if v == ops@[j as int] {
                        assert(more[j as int] == v);
                    }
                }
            }
            j += 1;
        }
        proof {
            assert(ops@.take(j as int) =~= ops@);
            assert forall|v: usize|
                #![trigger last@.contains_key(v)]
                #![trigger last_use(next, v)]
                {
                    &&& last@.contains_key(v) == (last_use(next, v) >= 0)
                    &&& last@.contains_key(v) ==> last@[v] == last_use(next, v)
                } by {
                assert(before.contains_key(v) == (last_use(done, v) >= 0));
                lemma_last_use_occurs(done, v);
            }
        }
        i += 1;
    }
    assert(ir@.take(i as int) =~= ir@);
    last
}

/// Gives `v` its physical register.
fn claim_reg(holders: &mut Vec<Option<usize>>, v: usize) -> (r: Option<usize>)
    requires
        old(holders).len() == 7,
    ensures
        final(holders).len() == 7,
        match claim(old(holders)@, v) {
            Some((st, p)) => r == Some(p) && final(holders)@ == st,
            None => r is None,
        },
{
    let mut p: usize = 0;
    while p < 7
        invariant
            p <= 7,
            holders.len() == 7,
            holders@ == old(holders)@,
            find_holder(holders@, v, 0) == find_holder(holders@, v, p as int),
        decreases 7 - p,
    {
        match holders[p] {
            Some(w) => {
                if w == v {
                    return Some(p);
                }
            },
            None => {},
        }
        p += 1;
    }
    let mut f: usize = 0;
    while f < 7
        invariant
            f <= 7,
            holders.len() == 7,
            holders@ == old(holders)@,
            find_holder(holders@, v, 0) == 7,
            find_free(holders@, 0) == find_free(holders@, f as int),
        decreases 7 - f,
    {
        if holders[f].is_none() {
            holders[f] = Some(v);
            return Some(f);
        }
        f += 1;
    }
    None
}

/// Gives each of `ops` its physical register, in order.
fn claim_operands(holders: &mut Vec<Option<usize>>, ops: &Vec<usize>) -> (r: Option<Vec<usize>>)
    requires
        old(holders).len() == 7,
    ensures
        final(holders).len() == 7,
        match claim_all(old(holders)@, ops@) {
            Some((st, ps)) => r is Some && r->0@ == ps && final(holders)@ == st,
            None => r is None,
        },
{
    let mut ps: Vec<usize> = Vec::new();
    let mut j: usize = 0;
    assert(ops@.take(0) =~= Seq::<usize>::empty());
    while j < ops.len()
        invariant
            j <= ops.len(),
            holders.len() == 7,
            claim_all(old(holders)@, ops@.take(j as int)) == Some((holders@, ps@)),
        decreases ops.len() - j,
    {
        let ghost next = ops@.take(j + 1);
        proof {
            assert(next.drop_last() =~= ops@.take(j as int));
            assert(next.last() == ops@[j as int]);
        }
        match claim_reg(holders, ops[j]) {
            Some(p) => {
                ps.push(p);
            },
            None => {
                proof {
                    lemma_claim_all_stays_failed(old(holders)@, ops@, j + 1);
                }
                return None;
            },
        }
        j += 1;
    }
    assert(ops@.take(j as int) =~= ops@);
    Some(ps)
}

/// Once a claim has failed, the claims of a longer list fail too.
proof fn lemma_claim_all_stays_failed(st: Seq<Option<usize>>, vs: Seq<usize>, n: int)
    requires
        0 <= n <= vs.len(),
        claim_all(st, vs.take(n)) is None,
    ensures
        claim_all(st, vs) is None,
    decreases vs.len() - n,
{
    if n < vs.len() {
        let next = vs.take(n + 1);
        assert(next.drop_last() =~= vs.take(n));
        lemma_claim_all_stays_failed(st, vs, n + 1);
    } else {
        assert(vs.take(n) =~= vs);
    }
}

/// The instruction `ir` with the physical registers `ps` in the place of
/// its register operands.
fn rename(ir: &IR, ps: &Vec<usize>) -> (r: IR)
    requires
        ps.len() == reg_operands(*ir).len(),
    ensures
        r == renamed(*ir, ps@),
{
    match &ir.op {
        IROp::Call(name, nargs, args) => {
            let n: usize = if *nargs <= 6 {
                *nargs
            } else {
                6
            };
            let mut renamed_args: [usize; 6] = [0;6];
            let mut j: usize = 0;
            while j < n
                invariant
                    j <= n <= 6,
                    ps.len() == n + 1,
                    forall|k: int| 0 <= k < j ==> renamed_args@[k] == ps@[k + 1],
                    forall|k: int| j <= k < 6 ==> renamed_args@[k] == 0,
                decreases n - j,
            {
                renamed_args[j] = ps[j + 1];
                j += 1;
            }
            let r = IR { op: IROp::Call(name.clone(), *nargs, renamed_args), lhs: Some(ps[0]), rhs: ir.rhs };
            proof {
                let want = renamed(*ir, ps@);
                assert(want.op is Call);
                assert(renamed_args@ =~= want.op->Call_2@);
                assert(renamed_args =~= want.op->Call_2);
            }
            r
        },
        IROp::Kill => IR { op: IROp::Nop, lhs: Some(ps[0]), rhs: ir.rhs },
        _ => {
            let info = IRInfo::from(&ir.op);
            match info.ty {
                IRType::Reg | IRType::RegImm | IRType::RegLabel | IRType::LabelAddr => IR {
                    op: ir.op.duplicate(),
                    lhs: Some(ps[0]),
                    rhs: ir.rhs,
                },
                IRType::Mem | IRType::RegReg => IR {
                    op: ir.op.duplicate(),
                    lhs: Some(ps[0]),
                    rhs: Some(ps[1]),
                },
                _ => ir.duplicate(),
            }
        },
    }
}

/// Frees the physical registers of the virtual registers whose range ends
/// at instruction `i`.
fn release(holders: &mut Vec<Option<usize>>, ir: &[IR], i: usize, last: &HashMap<usize, usize>)
    requires
        old(holders).len() == 7,
        i < ir.len(),
        dumpable(ir@[i as int]),
        is_liveness(last@, ir@),
    ensures
        final(holders)@ == release_ended(old(holders)@, ir@, i as int),
{
    let kill = matches!(ir[i].op, IROp::Kill);
    let mut p: usize = 0;
    while p < 7
        invariant
            p <= 7,
            holders.len() == 7,
            i < ir.len(),
            dumpable(ir@[i as int]),
            is_liveness(last@, ir@),
            kill == (ir@[i as int].op is Kill),
            old(holders).len() == 7,
            forall|q: int| 0 <= q < p ==> holders@[q] == release_ended(old(holders)@, ir@, i as int)[q],
            forall|q: int| p <= q < 7 ==> holders@[q] == old(holders)@[q],
        decreases 7 - p,
    {
        match holders[p] {
            Some(v) => {
                let killed = kill && ir[i].lhs == Some(v);
                let dead = match last.get(&v) {
                    Some(l) => *l == i,
                    None => false,
                };
                proof {
                    lemma_last_use_occurs(ir@, v);
                    assert(last@.contains_key(v) == (last_use(ir@, v) >= 0));
                    if kill {
                        assert(reg_operands(ir@[i as int]) =~= seq![operand_of(ir@[i as int].lhs)]);
                        assert(occurs(ir@[i as int], v) == (operand_of(ir@[i as int].lhs) == v)) by {
                            if operand_of(ir@[i as int].lhs) == v {
                                assert(reg_operands(ir@[i as int])[0] == v);
                            }
                        }
                    }
                    assert((killed || dead) == ends_at(ir@, i as int, v));
                }
                if killed || dead {
                    holders[p] = None;
                }
            },
            None => {},
        }
        p += 1;
    }
    assert(holders@ =~= release_ended(old(holders)@, ir@, i as int));
}

/// Allocates the registers of one function.  On success the result is the
/// renamed instructions; on failure it is the index of the instruction
/// at which no register was free.
pub fn allocate(ir: &[IR]) -> (r: Result<Vec<IR>, usize>)
    requires
        all_present(ir@),
    ensures
        match r {
            Ok(out) => allocated(ir@) == Some(out@),
            Err(i) => {
                &&& i < ir.len()
                &&& run(ir@, i as int) is Some
                &&& run(ir@, i + 1) is None
                &&& allocated(ir@) is None
            },
        },
{
    let last = last_uses(ir);
    let mut holders: Vec<Option<usize>> = Vec::new();
    let mut p: usize = 0;
    while p < 7
        invariant
            p <= 7,
            holders.len() == p,
            forall|q: int| 0 <= q < p ==> holders@[q] is None,
        decreases 7 - p,
    {
        holders.push(None);
        p += 1;
    }
    assert(holders@ =~= all_free());
    let mut out: Vec<IR> = Vec::new();
    let mut i: usize = 0;
    while i < ir.len()
        invariant
            i <= ir.len(),
            holders.len() == 7,
            all_present(ir@),
            is_liveness(last@, ir@),
            run(ir@, i as int) == Some((holders@, out@)),
        decreases ir.len() - i,
    {
        let ops = operands(&ir[i]);
        let ghost before = holders@;
        match claim_operands(&mut holders, &ops) {
            Some(ps) => {
                proof {
                    lemma_claim_all_len(before, ops@);
                }
                out.push(rename(&ir[i], &ps));
                release(&mut holders, ir, i, &last);
            },
            None => {
                proof {
                    lemma_run_stays_failed(ir@, i + 1, ir@.len() as int);
                }
                return Err(i);
            },
        }
        i += 1;
    }
    Ok(out)
}

/// A claim that succeeds yields one physical register for each operand.
proof fn lemma_claim_all_len(st: Seq<Option<usize>>, vs: Seq<usize>)
    ensures
        claim_all(st, vs) matches Some(r) ==> r.1.len() == vs.len(),
    decreases vs.len(),
{
    if vs.len() > 0 {
        lemma_claim_all_len(st, vs.drop_last());
    }
}


proof fn lemma_find_holder(st: Seq<Option<usize>>, v: usize, from: int)
    requires
        0 <= from <= st.len(),
    ensures
        from <= find_holder(st, v, from) <= st.len(),
    decreases st.len() - from,
{
    if from < st.len() && st[from] != Some(v) {
        lemma_find_holder(st, v, from + 1);
    }
}

proof fn lemma_find_free(st: Seq<Option<usize>>, from: int)
    requires
        0 <= from <= st.len(),
    ensures
        from <= find_free(st, from) <= st.len(),
    decreases st.len() - from,
{
    if from < st.len() && st[from] is Some {
        lemma_find_free(st, from + 1);
    }
}

proof fn lemma_claim(st: Seq<Option<usize>>, v: usize)
    requires
        st.len() == 7,
    ensures
        claim(st, v) matches Some(r) ==> r.0.len() == 7 && r.1 < 7,
{
    lemma_find_holder(st, v, 0);
    lemma_find_free(st, 0);
}

proof fn lemma_claim_all(st: Seq<Option<usize>>, vs: Seq<usize>)
    requires
        st.len() == 7,
    ensures
        claim_all(st, vs) matches Some(r) ==> {
            &&& r.0.len() == 7
            &&& r.1.len() == vs.len()
            &&& forall|j: int| 0 <= j < r.1.len() ==> #[trigger] r.1[j] < 7
        },
    decreases vs.len(),
{
    if vs.len() > 0 {
        lemma_claim_all(st, vs.drop_last());
        match claim_all(st, vs.drop_last()) {
            Some((st1, ps)) => {
                lemma_claim(st1, vs.last());
            },
            None => {},
        }
    }
}

proof fn lemma_renamed_in_budget(ir: IR, ps: Seq<usize>)
    requires
        ps.len() == reg_operands(ir).len(),
        forall|j: int| 0 <= j < ps.len() ==> #[trigger] ps[j] < 7,
    ensures
        in_budget(renamed(ir, ps)),
{
    let r = renamed(ir, ps);
    match ir.op {
        IROp::Call(name, nargs, args) => {
            let n = arg_count(nargs);
            assert(reg_operands(ir).len() == n + 1);
            assert forall|j: int| 0 <= j < reg_operands(r).len() implies #[trigger] reg_operands(
                r,
            )[j] < 7 by {
                if j > 0 {
                    assert(reg_operands(r)[j] == r.op->Call_2@[j - 1]);
                    assert(r.op->Call_2@[j - 1] == pick(ps, n, j - 1));
                    assert(ps[j] < 7);
                } else {
                    assert(ps[0] < 7);
                }
            }
        },
        IROp::Kill => {
            assert(reg_operands(r) =~= Seq::<usize>::empty());
        },
        _ => {
            assert(r.op == ir.op);
            assert forall|j: int| 0 <= j < reg_operands(r).len() implies #[trigger] reg_operands(
                r,
            )[j] < 7 by {
                assert(ps[j] < 7);
            }
        },
    }
}

proof fn lemma_run_in_budget(irs: Seq<IR>, n: int)
    requires
        0 <= n <= irs.len(),
    ensures
        run(irs, n) matches Some(r) ==> {
            &&& r.0.len() == 7
            &&& r.1.len() == n
            &&& forall|i: int| 0 <= i < n ==> in_budget(#[trigger] r.1[i])
        },
    decreases n,
{
    if n > 0 {
        lemma_run_in_budget(irs, n - 1);
        match run(irs, n - 1) {
            Some((st, out)) => {
                lemma_claim_all(st, reg_operands(irs[n - 1]));
                match claim_all(st, reg_operands(irs[n - 1])) {
                    Some((st1, ps)) => {
                        lemma_renamed_in_budget(irs[n - 1], ps);
                    },
                    None => {},
                }
            },
            None => {},
        }
    }
}

/// After allocation, every operand that names a register is the index of
/// one of the seven physical registers, and no instruction has been added
/// or dropped.
pub proof fn lemma_register_budget(irs: Seq<IR>)
    ensures
        allocated(irs) matches Some(out) ==> {
            &&& out.len() == irs.len()
            &&& forall|i: int| 0 <= i < out.len() ==> in_budget(#[trigger] out[i])
        },
{
    lemma_run_in_budget(irs, irs.len() as int);
}

/// The function `f` after allocation, where that succeeds: only the
/// instructions differ.
pub open spec fn allocated_function(f: FunctionView) -> FunctionView {
    FunctionView { name: f.name, stacksize: f.stacksize, ir: allocated(f.ir).unwrap() }
}

/// Whether the allocation of every function of `fns` succeeds.
pub open spec fn allocatable(fns: Seq<FunctionView>) -> bool {
    forall|k: int| 0 <= k < fns.len() ==> allocated(#[trigger] fns[k].ir) is Some
}

/// The functions `fns` after allocation, or `None` where the allocation
/// of one of them fails.
pub open spec fn allocated_all(fns: Seq<FunctionView>) -> Option<Seq<FunctionView>> {
    if allocatable(fns) {
        Some(Seq::new(fns.len(), |k: int| allocated_function(fns[k])))
    } else {
        None
    }
}

/// Whether every function of `fns` has the operands that the shapes of
/// its instructions ask for.
pub open spec fn all_functions_present(fns: Seq<FunctionView>) -> bool {
    forall|k: int| 0 <= k < fns.len() ==> all_present(#[trigger] fns[k].ir)
}

/// Whether no register operand of `fns` lies outside the physical
/// registers.
pub open spec fn all_in_budget(fns: Seq<FunctionView>) -> bool {
    forall|k: int, i: int|
        0 <= k < fns.len() && 0 <= i < fns[k].ir.len() ==> in_budget(#[trigger] fns[k].ir[i])
}

/// Allocates the registers of every function of `fns`.
///
/// On success each function holds its renamed instructions.  Where some
/// function has more virtual registers live at once than there are
/// physical registers, nothing is changed, and the error names the first
/// such function and the instruction at which no register was free.
pub fn alloc_regs(fns: &mut Vec<Function>) -> (r: Result<(), AllocError>)
    requires
        all_functions_present(views(old(fns)@)),
    ensures
        match r {
            Ok(_) => {
                &&& allocated_all(views(old(fns)@)) == Some(views(final(fns)@))
                &&& all_in_budget(views(final(fns)@))
            },
            Err(e) => {
                &&& allocated_all(views(old(fns)@)) is None
                &&& *final(fns) == *old(fns)
                &&& e.function < old(fns).len()
                &&& forall|k: int|
                    0 <= k < e.function ==> allocated(#[trigger] old(fns)[k].ir@) is Some
                &&& e.instruction < old(fns)[e.function as int].ir.len()
                &&& run(old(fns)[e.function as int].ir@, e.instruction as int) is Some
                &&& run(old(fns)[e.function as int].ir@, e.instruction + 1) is None
            },
        },
{
    let mut results: Vec<Vec<IR>> = Vec::new();
    let mut k: usize = 0;
    while k < fns.len()
        invariant
            k <= fns.len(),
            *fns == *old(fns),
            results.len() == k,
            all_functions_present(views(fns@)),
            forall|j: int| 0 <= j < k ==> allocated(fns[j].ir@) == Some(#[trigger] results[j]@),
            forall|j: int| 0 <= j < k ==> allocated(#[trigger] fns[j].ir@) is Some,
        decreases fns.len() - k,
    {
        assert(all_present(views(fns@)[k as int].ir));
        match allocate(&fns[k].ir) {
            Ok(out) => {
                results.push(out);
            },
            Err(i) => {
                assert(allocated(views(fns@)[k as int].ir) is None);
                return Err(AllocError { function: k, instruction: i });
            },
        }
        k += 1;
    }
    assert(allocatable(views(fns@))) by {
        assert forall|j: int| 0 <= j < fns.len() implies allocated(
            #[trigger] views(fns@)[j].ir,
        ) is Some by {
            assert(allocated(fns[j].ir@) is Some);
        }
    }
    while k > 0
        invariant
            k <= fns.len(),
            fns.len() == old(fns).len(),
            results.len() == k,
            forall|j: int| 0 <= j < k ==> fns[j] == old(fns)[j],
            forall|j: int| 0 <= j < k ==> allocated(old(fns)[j].ir@) == Some(#[trigger] results[j]@),
            forall|j: int|
                k <= j < fns.len() ==> (#[trigger] fns[j])@ == allocated_function(old(fns)[j]@),
        decreases k,
    {
        k -= 1;
        let out = results.pop().unwrap();
        fns[k].ir = out;
    }
    proof {
        assert(views(fns@) =~= allocated_all(views(old(fns)@)).unwrap());
        assert forall|j: int, i: int|
            0 <= j < views(fns@).len() && 0 <= i < views(fns@)[j].ir.len() implies in_budget(
            #[trigger] views(fns@)[j].ir[i],
        ) by {
            assert(fns[j]@ == allocated_function(old(fns)[j]@));
            lemma_register_budget(old(fns)[j].ir@);
        }
    }
    Ok(())
}


proof fn lemma_renamed_present(ir: IR, ps: Seq<usize>)
    requires
        dumpable(ir),
    ensures
        dumpable(renamed(ir, ps)),
{
}

proof fn lemma_run_present(irs: Seq<IR>, n: int)
    requires
        0 <= n <= irs.len(),
        all_present(irs),
    ensures
        run(irs, n) matches Some(r) ==> all_present(r.1),
    decreases n,
{
    if n > 0 {
        lemma_run_present(irs, n - 1);
        match run(irs, n - 1) {
            Some((st, out)) => {
                match claim_all(st, reg_operands(irs[n - 1])) {
                    Some((st1, ps)) => {
                        lemma_renamed_present(irs[n - 1], ps);
                        let next = out.push(renamed(irs[n - 1], ps));
                        assert forall|i: int| 0 <= i < next.len() implies dumpable(
                            #[trigger] next[i],
                        ) by {
                            if i < out.len() {
                                assert(dumpable(out[i]));
                            }
                        }
                    },
                    None => {},
                }
            },
            None => {},
        }
    }
}

/// Allocation leaves every instruction with the operands that its shape
/// asks for.
pub proof fn lemma_allocated_present(irs: Seq<IR>)
    requires
        all_present(irs),
    ensures
        allocated(irs) matches Some(out) ==> all_present(out),
{
    lemma_run_present(irs, irs.len() as int);
}


proof fn lemma_run_operations(irs: Seq<IR>, n: int)
    requires
        0 <= n <= irs.len(),
    ensures
        run(irs, n) matches Some(r) ==> {
            &&& r.1.len() == n
            &&& forall|i: int|
                0 <= i < n ==> {
                    &&& (#[trigger] irs[i]).op is Kill ==> r.1[i].op == IROp::Nop
                    &&& irs[i].op is Call ==> r.1[i].op is Call && r.1[i].op->Call_0
                        == irs[i].op->Call_0 && r.1[i].op->Call_1 == irs[i].op->Call_1
                    &&& !(irs[i].op is Kill) && !(irs[i].op is Call) ==> r.1[i].op == irs[i].op
                }
        },
    decreases n,
{
    if n > 0 {
        lemma_run_operations(irs, n - 1);
    }
}

/// Allocation keeps the operations: a `Kill` survives as a `Nop`, a call
/// keeps its callee and the number of its arguments, and every other
/// instruction keeps its operation as it is.
pub proof fn lemma_allocated_operations(irs: Seq<IR>)
    ensures
        allocated(irs) matches Some(out) ==> {
            &&& out.len() == irs.len()
            &&& forall|i: int|
                0 <= i < irs.len() ==> {
                    &&& (#[trigger] irs[i]).op is Kill ==> out[i].op == IROp::Nop
                    &&& irs[i].op is Call ==> out[i].op is Call && out[i].op->Call_0
                        == irs[i].op->Call_0 && out[i].op->Call_1 == irs[i].op->Call_1
                    &&& !(irs[i].op is Kill) && !(irs[i].op is Call) ==> out[i].op == irs[i].op
                }
        },
{
    lemma_run_operations(irs, irs.len() as int);
}

} // verus!
