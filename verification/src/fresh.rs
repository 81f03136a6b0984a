//! Why the labels of generated IR do not collide: every `Label`
//! instruction that the generator writes defines a label that it has
//! taken from the counter for this one use.

use vstd::prelude::*;
use crate::ast::{Expr, FunctionDef, Place, Stmt};
use crate::gen_ir::{FunctionView, IROp, IR};
use crate::gen_x86::lhs_of;
use crate::labels::{label_numbers, label_numbers_of};
use crate::lower::{
    args_gen, block_gen, discard_gen, emit, enter_loop, entry_state, expr_gen, fresh_label,
    fresh_reg, function_gen, functions_gen, jump_to, kill_all, label_here, leave_loop,
    optional_gen, optional_test_gen, params_code, place_gen, stmt_gen, test_gen, Counters,
    GenError, GenState,
};

verus! {

/// Whether the instructions of `code` from `from` on define labels from
/// `lo` on and below `hi` only, and none of them twice.
pub open spec fn defines_within(code: Seq<IR>, from: int, lo: int, hi: int) -> bool {
    &&& forall|i: int|
        from <= i < code.len() && (#[trigger] code[i]).op is Label ==> code[i].lhs is Some && lo
            <= code[i].lhs->0 < hi
    &&& forall|i: int, j: int|
        from <= i < j < code.len() && (#[trigger] code[i]).op is Label && (
        #[trigger] code[j]).op is Label ==> code[i].lhs != code[j].lhs
}

/// Whether `b` is a state that the generator can reach from `a`: the
/// instructions of `a` still stand and others may follow them, the
/// counters have not gone back, the loops around are the same, and the
/// labels that the new instructions define are labels taken from the
/// counter since `a`, none of them defined twice.
pub open spec fn grows(a: GenState, b: GenState) -> bool {
    &&& a.code.len() <= b.code.len()
    &&& forall|i: int| 0 <= i < a.code.len() ==> #[trigger] b.code[i] == a.code[i]
    &&& a.nreg <= b.nreg
    &&& a.nlabel <= b.nlabel
    &&& a.loops == b.loops
    &&& defines_within(b.code, a.code.len() as int, a.nlabel as int, b.nlabel as int)
}

/// A state that is reached in two steps is reached.
proof fn lemma_grows_twice(a: GenState, b: GenState, c: GenState)
    requires
        grows(a, b),
        grows(b, c),
    ensures
        grows(a, c),
{
    assert forall|i: int| 0 <= i < a.code.len() implies #[trigger] c.code[i] == a.code[i] by {
        assert(b.code[i] == a.code[i]);
    }
    assert forall|i: int|
        a.code.len() <= i < c.code.len() && (#[trigger] c.code[i]).op is Label implies c.code[i].lhs is Some
        && a.nlabel <= c.code[i].lhs->0 < c.nlabel by {
        if i < b.code.len() {
            assert(c.code[i] == b.code[i]);
        }
    }
    assert forall|i: int, j: int|
        a.code.len() <= i < j < c.code.len() && (#[trigger] c.code[i]).op is Label && (
        #[trigger] c.code[j]).op is Label implies c.code[i].lhs != c.code[j].lhs by {
        if i < b.code.len() {
            assert(c.code[i] == b.code[i]);
        }
        if j < b.code.len() {
            assert(c.code[j] == b.code[j]);
        }
    }
}

/// An instruction that defines no label leaves the defined labels as they
/// are.
proof fn lemma_emit(a: GenState, b: GenState, op: IROp, lhs: Option<usize>, rhs: Option<usize>)
    requires
        grows(a, b),
        !(op is Label),
    ensures
        grows(a, emit(b, op, lhs, rhs)),
{
    let c = emit(b, op, lhs, rhs);
    assert forall|i: int| 0 <= i < a.code.len() implies #[trigger] c.code[i] == a.code[i] by {
        assert(b.code[i] == a.code[i]);
    }
    assert forall|i: int|
        a.code.len() <= i < c.code.len() && (#[trigger] c.code[i]).op is Label implies c.code[i].lhs is Some
        && a.nlabel <= c.code[i].lhs->0 < c.nlabel by {
        if i < b.code.len() {
            assert(c.code[i] == b.code[i]);
        }
    }
    assert forall|i: int, j: int|
        a.code.len() <= i < j < c.code.len() && (#[trigger] c.code[i]).op is Label && (
        #[trigger] c.code[j]).op is Label implies c.code[i].lhs != c.code[j].lhs by {
        assert(c.code[i] == b.code[i]);
        if j < b.code.len() {
            assert(c.code[j] == b.code[j]);
        }
    }
}

/// Whether no instruction of `code` from `from` on defines the label
/// `label`.
pub open spec fn undefined_from(code: Seq<IR>, from: int, label: usize) -> bool {
    forall|i: int|
        from <= i < code.len() && (#[trigger] code[i]).op is Label ==> code[i].lhs != Some(label)
}

/// The definition of a label that has been taken from the counter and is
/// not defined yet adds a label that is defined once.
proof fn lemma_label(a: GenState, b: GenState, label: usize)
    requires
        grows(a, b),
        a.nlabel <= label < b.nlabel,
        undefined_from(b.code, a.code.len() as int, label),
    ensures
        grows(a, label_here(b, label)),
{
    let c = label_here(b, label);
    assert forall|i: int| 0 <= i < a.code.len() implies #[trigger] c.code[i] == a.code[i] by {
        assert(b.code[i] == a.code[i]);
    }
    assert forall|i: int|
        a.code.len() <= i < c.code.len() && (#[trigger] c.code[i]).op is Label implies c.code[i].lhs is Some
        && a.nlabel <= c.code[i].lhs->0 < c.nlabel by {
        if i < b.code.len() {
            assert(c.code[i] == b.code[i]);
        }
    }
    assert forall|i: int, j: int|
        a.code.len() <= i < j < c.code.len() && (#[trigger] c.code[i]).op is Label && (
        #[trigger] c.code[j]).op is Label implies c.code[i].lhs != c.code[j].lhs by {
        assert(c.code[i] == b.code[i]);
        if j < b.code.len() {
            assert(c.code[j] == b.code[j]);
        }
    }
}

/// A label below those that the generator has taken since `a` is not
/// defined by what it has written since.
proof fn lemma_undefined(a: GenState, b: GenState, from: int, label: usize)
    requires
        grows(a, b),
        label < a.nlabel,
        0 <= from <= a.code.len(),
        undefined_from(a.code, from, label),
    ensures
        undefined_from(b.code, from, label),
{
    assert forall|i: int| from <= i < b.code.len() && (#[trigger] b.code[i]).op is Label implies b.code[i].lhs
        != Some(label) by {
        if i < a.code.len() {
            assert(b.code[i] == a.code[i]);
        }
    }
}

/// An instruction that defines no label defines none.
proof fn lemma_undefined_emit(
    b: GenState,
    from: int,
    label: usize,
    op: IROp,
    lhs: Option<usize>,
    rhs: Option<usize>,
)
    requires
        0 <= from,
        undefined_from(b.code, from, label),
        !(op is Label) || lhs != Some(label),
    ensures
        undefined_from(emit(b, op, lhs, rhs).code, from, label),
{
    let c = emit(b, op, lhs, rhs);
    assert forall|i: int| from <= i < c.code.len() && (#[trigger] c.code[i]).op is Label implies c.code[i].lhs
        != Some(label) by {
        if i < b.code.len() {
            assert(c.code[i] == b.code[i]);
        }
    }
}


/// Whether the label `x` has been taken from the counter since `a` and is
/// not defined by what has been written since.
pub open spec fn pending(a: GenState, cur: GenState, x: usize) -> bool {
    a.nlabel <= x < cur.nlabel && undefined_from(cur.code, a.code.len() as int, x)
}

proof fn lemma_same(a: GenState)
    ensures
        grows(a, a),
{
}

proof fn lemma_step_reg(a: GenState, b: GenState)
    requires
        grows(a, b),
    ensures
        fresh_reg(b) matches Ok(c) ==> grows(a, c.0) && c.0.code == b.code && c.0.nlabel
            == b.nlabel,
{
}

proof fn lemma_step_label(a: GenState, b: GenState)
    requires
        grows(a, b),
    ensures
        fresh_label(b) matches Ok(c) ==> grows(a, c.0) && c.0.code == b.code && pending(
            a,
            c.0,
            c.1,
        ) && c.1 == b.nlabel && c.0.nlabel == b.nlabel + 1,
{
}

proof fn lemma_pending_sub(a: GenState, cur: GenState, next: GenState, x: usize)
    requires
        grows(a, cur),
        grows(cur, next),
        pending(a, cur, x),
    ensures
        pending(a, next, x),
{
    lemma_undefined(cur, next, a.code.len() as int, x);
}

proof fn lemma_pending_emit(
    a: GenState,
    cur: GenState,
    x: usize,
    op: IROp,
    lhs: Option<usize>,
    rhs: Option<usize>,
)
    requires
        pending(a, cur, x),
        !(op is Label) || lhs != Some(x),
    ensures
        pending(a, emit(cur, op, lhs, rhs), x),
{
    lemma_undefined_emit(cur, a.code.len() as int, x, op, lhs, rhs);
}

proof fn lemma_pending_label(a: GenState, cur: GenState, x: usize)
    requires
        grows(a, cur),
        pending(a, cur, x),
    ensures
        fresh_label(cur) matches Ok(c) ==> pending(a, c.0, x) && c.1 != x,
{
}

proof fn lemma_kill_all(a: GenState, b: GenState, regs: Seq<usize>)
    requires
        grows(a, b),
    ensures
        grows(a, kill_all(b, regs)),
    decreases regs.len(),
{
    if regs.len() > 0 {
        lemma_kill_all(a, b, regs.drop_last());
        lemma_emit(a, kill_all(b, regs.drop_last()), IROp::Kill, Some(regs.last()), None);
    }
}

/// What the generator writes for a place defines labels of its own only.
pub proof fn lemma_place_grows(p: Place, st: GenState)
    ensures
        place_gen(p, st) matches Ok(r) ==> grows(st, r.0),
    decreases p,
{
    lemma_same(st);
    match p {
        Place::Local(offset) => {
            lemma_step_reg(st, st);
            match fresh_reg(st) {
                Ok((s1, r)) => {
                    lemma_emit(st, s1, IROp::Bprel, Some(r), Some(offset));
                },
                Err(_) => {},
            }
        },
        Place::Global(name) => {
            lemma_step_reg(st, st);
            match fresh_reg(st) {
                Ok((s1, r)) => {
                    lemma_emit(st, s1, IROp::LabelAddr(name), Some(r), None);
                },
                Err(_) => {},
            }
        },
        Place::Deref(e) => {
            lemma_expr_grows(*e, st);
        },
        Place::Member(inner, offset) => {
            lemma_place_grows(*inner, st);
            match place_gen(*inner, st) {
                Ok((s1, r)) => {
                    lemma_emit(st, s1, IROp::AddImm, Some(r), Some(offset));
                },
                Err(_) => {},
            }
        },
        Place::Element(base, index, stride) => {
            lemma_expr_grows(*base, st);
            match expr_gen(*base, st) {
                Ok((s1, r)) => {
                    if *index is Num && (*index)->Num_0 * stride <= usize::MAX {
                        lemma_emit(
                            st,
                            s1,
                            IROp::AddImm,
                            Some(r),
                            Some(((*index)->Num_0 * stride) as usize),
                        );
                    } else {
                        lemma_expr_grows(*index, s1);
                        match expr_gen(*index, s1) {
                            Ok((s2, i)) => {
                                lemma_grows_twice(st, s1, s2);
                                let s3 = emit(s2, IROp::MulImm, Some(i), Some(stride));
                                lemma_emit(st, s2, IROp::MulImm, Some(i), Some(stride));
                                let s4 = emit(s3, IROp::Add, Some(r), Some(i));
                                lemma_emit(st, s3, IROp::Add, Some(r), Some(i));
                                lemma_emit(st, s4, IROp::Kill, Some(i), None);
                            },
                            Err(_) => {},
                        }
                    }
                },
                Err(_) => {},
            }
        },
    }
}

/// What the generator writes for an expression defines labels of its own
/// only.
pub proof fn lemma_expr_grows(e: Expr, st: GenState)
    ensures
        expr_gen(e, st) matches Ok(r) ==> grows(st, r.0),
    decreases e,
{
    lemma_same(st);
    match e {
        Expr::Num(value) => {
            lemma_step_reg(st, st);
            match fresh_reg(st) {
                Ok((s1, r)) => {
                    lemma_emit(st, s1, IROp::Imm, Some(r), Some(value));
                },
                Err(_) => {},
            }
        },
        Expr::Load(place, size) => {
            lemma_place_grows(*place, st);
            match place_gen(*place, st) {
                Ok((s1, r)) => {
                    lemma_emit(st, s1, IROp::Load(size), Some(r), Some(r));
                },
                Err(_) => {},
            }
        },
        Expr::Addr(place) => {
            lemma_place_grows(*place, st);
        },
        Expr::Assign(place, value, size) => {
            lemma_place_grows(*place, st);
            match place_gen(*place, st) {
                Ok((s1, a)) => {
                    lemma_expr_grows(*value, s1);
                    match expr_gen(*value, s1) {
                        Ok((s2, v)) => {
                            lemma_grows_twice(st, s1, s2);
                            lemma_emit(st, s2, IROp::Store(size), Some(a), Some(v));
                            lemma_emit(
                                st,
                                emit(s2, IROp::Store(size), Some(a), Some(v)),
                                IROp::Kill,
                                Some(a),
                                None,
                            );
                        },
                        Err(_) => {},
                    }
                },
                Err(_) => {},
            }
        },
        Expr::Binary(op, left, right) => {
            lemma_expr_grows(*left, st);
            match expr_gen(*left, st) {
                Ok((s1, x)) => {
                    if *right is Num && crate::lower::imm_ir(op) is Some {
                        lemma_emit(
                            st,
                            s1,
                            crate::lower::imm_ir(op)->0,
                            Some(x),
                            Some((*right)->Num_0),
                        );
                    } else {
                        lemma_expr_grows(*right, s1);
                        match expr_gen(*right, s1) {
                            Ok((s2, y)) => {
                                lemma_grows_twice(st, s1, s2);
                                lemma_emit(st, s2, crate::lower::binop_ir(op), Some(x), Some(y));
                                lemma_emit(
                                    st,
                                    emit(s2, crate::lower::binop_ir(op), Some(x), Some(y)),
                                    IROp::Kill,
                                    Some(y),
                                    None,
                                );
                            },
                            Err(_) => {},
                        }
                    }
                },
                Err(_) => {},
            }
        },
        Expr::LogAnd(left, right) => {
            lemma_step_label(st, st);
            match fresh_label(st) {
                Ok((s0, end)) => {
                    lemma_expr_grows(*left, s0);
                    match expr_gen(*left, s0) {
                        Ok((s1, x)) => {
                            lemma_grows_twice(st, s0, s1);
                            lemma_pending_sub(st, s0, s1, end);
                            let s1u = emit(s1, IROp::Unless, Some(x), Some(end));
                            lemma_emit(st, s1, IROp::Unless, Some(x), Some(end));
                            lemma_pending_emit(st, s1, end, IROp::Unless, Some(x), Some(end));
                            lemma_expr_grows(*right, s1u);
                            match expr_gen(*right, s1u) {
                                Ok((s2, y)) => {
                                    lemma_grows_twice(st, s1u, s2);
                                    lemma_pending_sub(st, s1u, s2, end);
                                    let a1 = emit(s2, IROp::Mov, Some(x), Some(y));
                                    lemma_emit(st, s2, IROp::Mov, Some(x), Some(y));
                                    lemma_pending_emit(st, s2, end, IROp::Mov, Some(x), Some(y));
                                    let a2 = emit(a1, IROp::Kill, Some(y), None);
                                    lemma_emit(st, a1, IROp::Kill, Some(y), None);
                                    lemma_pending_emit(st, a1, end, IROp::Kill, Some(y), None);
                                    let a3 = emit(a2, IROp::Unless, Some(x), Some(end));
                                    lemma_emit(st, a2, IROp::Unless, Some(x), Some(end));
                                    lemma_pending_emit(
                                        st,
                                        a2,
                                        end,
                                        IROp::Unless,
                                        Some(x),
                                        Some(end),
                                    );
                                    let a4 = emit(a3, IROp::Imm, Some(x), Some(1));
                                    lemma_emit(st, a3, IROp::Imm, Some(x), Some(1));
                                    lemma_pending_emit(st, a3, end, IROp::Imm, Some(x), Some(1));
                                    lemma_label(st, a4, end);
                                },
                                Err(_) => {},
                            }
                        },
                        Err(_) => {},
                    }
                },
                Err(_) => {},
            }
        },
        Expr::LogOr(left, right) => {
            lemma_step_label(st, st);
            match fresh_label(st) {
                Ok((s0, other)) => {
                    lemma_step_label(st, s0);
                    lemma_pending_label(st, s0, other);
                    match fresh_label(s0) {
                        Ok((s00, end)) => {
                            lemma_expr_grows(*left, s00);
                            match expr_gen(*left, s00) {
                                Ok((s1, x)) => {
                                    lemma_grows_twice(st, s00, s1);
                                    lemma_pending_sub(st, s00, s1, other);
                                    lemma_pending_sub(st, s00, s1, end);
                                    let b1 = emit(s1, IROp::Unless, Some(x), Some(other));
                                    lemma_emit(st, s1, IROp::Unless, Some(x), Some(other));
                                    lemma_pending_emit(st, s1, other, IROp::Unless, Some(x), Some(other));
                                    lemma_pending_emit(st, s1, end, IROp::Unless, Some(x), Some(other));
                                    let b2 = emit(b1, IROp::Imm, Some(x), Some(1));
                                    lemma_emit(st, b1, IROp::Imm, Some(x), Some(1));
                                    lemma_pending_emit(st, b1, other, IROp::Imm, Some(x), Some(1));
                                    lemma_pending_emit(st, b1, end, IROp::Imm, Some(x), Some(1));
                                    let b3 = emit(b2, IROp::Jmp, Some(end), None);
                                    lemma_emit(st, b2, IROp::Jmp, Some(end), None);
                                    lemma_pending_emit(st, b2, other, IROp::Jmp, Some(end), None);
                                    lemma_pending_emit(st, b2, end, IROp::Jmp, Some(end), None);
                                    let b4 = label_here(b3, other);
                                    lemma_label(st, b3, other);
                                    lemma_pending_emit(st, b3, end, IROp::Label, Some(other), None);
                                    lemma_expr_grows(*right, b4);
                                    match expr_gen(*right, b4) {
                                        Ok((s2, y)) => {
                                            lemma_grows_twice(st, b4, s2);
                                            lemma_pending_sub(st, b4, s2, end);
                                            let a1 = emit(s2, IROp::Mov, Some(x), Some(y));
                                            lemma_emit(st, s2, IROp::Mov, Some(x), Some(y));
                                            lemma_pending_emit(st, s2, end, IROp::Mov, Some(x), Some(y));
                                            let a2 = emit(a1, IROp::Kill, Some(y), None);
                                            lemma_emit(st, a1, IROp::Kill, Some(y), None);
                                            lemma_pending_emit(st, a1, end, IROp::Kill, Some(y), None);
                                            let a3 = emit(a2, IROp::Unless, Some(x), Some(end));
                                            lemma_emit(st, a2, IROp::Unless, Some(x), Some(end));
                                            lemma_pending_emit(st, a2, end, IROp::Unless, Some(x), Some(end));
                                            let a4 = emit(a3, IROp::Imm, Some(x), Some(1));
                                            lemma_emit(st, a3, IROp::Imm, Some(x), Some(1));
                                            lemma_pending_emit(st, a3, end, IROp::Imm, Some(x), Some(1));
                                            lemma_label(st, a4, end);
                                        },
                                        Err(_) => {},
                                    }
                                },
                                Err(_) => {},
                            }
                        },
                        Err(_) => {},
                    }
                },
                Err(_) => {},
            }
        },
        Expr::Step(place, size, by, down, post) => {
            lemma_place_grows(*place, st);
            match place_gen(*place, st) {
                Ok((s1, a)) => {
                    lemma_step_reg(st, s1);
                    match fresh_reg(s1) {
                        Ok((s2, v)) => {
                            let forth = if down {
                                IROp::SubImm
                            } else {
                                IROp::AddImm
                            };
                            let back = if down {
                                IROp::AddImm
                            } else {
                                IROp::SubImm
                            };
                            let c1 = emit(s2, IROp::Load(size), Some(v), Some(a));
                            lemma_emit(st, s2, IROp::Load(size), Some(v), Some(a));
                            let c2 = emit(c1, forth, Some(v), Some(by));
                            lemma_emit(st, c1, forth, Some(v), Some(by));
                            let c3 = emit(c2, IROp::Store(size), Some(a), Some(v));
                            lemma_emit(st, c2, IROp::Store(size), Some(a), Some(v));
                            let c4 = emit(c3, IROp::Kill, Some(a), None);
                            lemma_emit(st, c3, IROp::Kill, Some(a), None);
                            lemma_emit(st, c4, back, Some(v), Some(by));
                        },
                        Err(_) => {},
                    }
                },
                Err(_) => {},
            }
        },
        Expr::Call(name, args) => {
            if args.len() <= 6 {
                lemma_args_grows(args@, st);
                match args_gen(args@, st) {
                    Ok((s1, regs)) => {
                        lemma_step_reg(st, s1);
                        match fresh_reg(s1) {
                            Ok((s2, r)) => {
                                let op = IROp::Call(name, args.len(), crate::lower::call_regs(regs));
                                lemma_emit(st, s2, op, Some(r), None);
                                lemma_kill_all(st, emit(s2, op, Some(r), None), regs);
                            },
                            Err(_) => {},
                        }
                    },
                    Err(_) => {},
                }
            }
        },
    }
}

/// What the generator writes for the arguments of a call defines labels
/// of its own only.
pub proof fn lemma_args_grows(args: Seq<Expr>, st: GenState)
    ensures
        args_gen(args, st) matches Ok(r) ==> grows(st, r.0),
    decreases args,
{
    lemma_same(st);
    if args.len() > 0 {
        lemma_args_grows(args.drop_last(), st);
        match args_gen(args.drop_last(), st) {
            Ok((s1, regs)) => {
                lemma_expr_grows(args.last(), s1);
                match expr_gen(args.last(), s1) {
                    Ok((s2, r)) => {
                        lemma_grows_twice(st, s1, s2);
                    },
                    Err(_) => {},
                }
            },
            Err(_) => {},
        }
    }
}


proof fn lemma_discard_grows(e: Expr, st: GenState)
    ensures
        discard_gen(e, st) matches Ok(s) ==> grows(st, s),
{
    lemma_expr_grows(e, st);
    match expr_gen(e, st) {
        Ok((s1, r)) => {
            lemma_emit(st, s1, IROp::Kill, Some(r), None);
        },
        Err(_) => {},
    }
}

proof fn lemma_optional_grows(e: Option<Expr>, st: GenState)
    ensures
        optional_gen(e, st) matches Ok(s) ==> grows(st, s),
{
    lemma_same(st);
    match e {
        Some(e) => {
            lemma_discard_grows(e, st);
        },
        None => {},
    }
}

proof fn lemma_test_grows(e: Expr, target: usize, st: GenState)
    ensures
        test_gen(e, target, st) matches Ok(s) ==> grows(st, s),
{
    lemma_expr_grows(e, st);
    match expr_gen(e, st) {
        Ok((s1, r)) => {
            lemma_emit(st, s1, IROp::Unless, Some(r), Some(target));
            lemma_emit(
                st,
                emit(s1, IROp::Unless, Some(r), Some(target)),
                IROp::Kill,
                Some(r),
                None,
            );
        },
        Err(_) => {},
    }
}

proof fn lemma_optional_test_grows(e: Option<Expr>, target: usize, st: GenState)
    ensures
        optional_test_gen(e, target, st) matches Ok(s) ==> grows(st, s),
{
    lemma_same(st);
    match e {
        Some(e) => {
            lemma_test_grows(e, target, st);
        },
        None => {},
    }
}

/// What is written inside a loop is written, and the loop is left behind
/// it.
proof fn lemma_loop(a: GenState, b: GenState, c: GenState, brk: usize, cont: usize)
    requires
        grows(a, b),
        grows(enter_loop(b, brk, cont), c),
    ensures
        grows(b, leave_loop(c)),
        grows(a, leave_loop(c)),
{
    let d = leave_loop(c);
    assert(d.loops =~= b.loops);
    assert(grows(b, d));
    lemma_grows_twice(a, b, d);
}

/// A step of the generator from `b` to `c`, seen from the state `a` that
/// came before: the state `c` is reached from `a`, and each of the labels
/// `x`, `y` and `z` that was pending at `b` is pending at `c`.
proof fn lemma_sub(a: GenState, b: GenState, c: GenState, x: usize, y: usize, z: usize)
    requires
        grows(a, b),
        grows(b, c),
    ensures
        grows(a, c),
        pending(a, b, x) ==> pending(a, c, x),
        pending(a, b, y) ==> pending(a, c, y),
        pending(a, b, z) ==> pending(a, c, z),
{
    lemma_grows_twice(a, b, c);
    if pending(a, b, x) {
        lemma_pending_sub(a, b, c, x);
    }
    if pending(a, b, y) {
        lemma_pending_sub(a, b, c, y);
    }
    if pending(a, b, z) {
        lemma_pending_sub(a, b, c, z);
    }
}

/// The definition of the pending label `x` at `b`, seen from `a`: it is
/// defined once, and the other labels `y` and `z` that were pending are
/// still pending.
proof fn lemma_define(a: GenState, b: GenState, x: usize, y: usize, z: usize)
    requires
        grows(a, b),
        pending(a, b, x),
    ensures
        grows(a, label_here(b, x)),
        pending(a, b, y) && y != x ==> pending(a, label_here(b, x), y),
        pending(a, b, z) && z != x ==> pending(a, label_here(b, x), z),
{
    lemma_label(a, b, x);
    if pending(a, b, y) && y != x {
        lemma_pending_emit(a, b, y, IROp::Label, Some(x), None);
    }
    if pending(a, b, z) && z != x {
        lemma_pending_emit(a, b, z, IROp::Label, Some(x), None);
    }
}

/// An instruction that is no label at `b`, seen from `a`.
proof fn lemma_plain(
    a: GenState,
    b: GenState,
    op: IROp,
    lhs: Option<usize>,
    rhs: Option<usize>,
    x: usize,
    y: usize,
    z: usize,
)
    requires
        grows(a, b),
        !(op is Label),
    ensures
        grows(a, emit(b, op, lhs, rhs)),
        pending(a, b, x) ==> pending(a, emit(b, op, lhs, rhs), x),
        pending(a, b, y) ==> pending(a, emit(b, op, lhs, rhs), y),
        pending(a, b, z) ==> pending(a, emit(b, op, lhs, rhs), z),
{
    lemma_emit(a, b, op, lhs, rhs);
    if pending(a, b, x) {
        lemma_pending_emit(a, b, x, op, lhs, rhs);
    }
    if pending(a, b, y) {
        lemma_pending_emit(a, b, y, op, lhs, rhs);
    }
    if pending(a, b, z) {
        lemma_pending_emit(a, b, z, op, lhs, rhs);
    }
}

/// Three labels taken one after the other are pending and differ.
proof fn lemma_three_labels(st: GenState)
    ensures
        fresh_label(st) matches Ok(c1) ==> {
            &&& grows(st, c1.0)
            &&& pending(st, c1.0, c1.1)
            &&& fresh_label(c1.0) matches Ok(c2) ==> {
                &&& grows(st, c2.0)
                &&& pending(st, c2.0, c1.1)
                &&& pending(st, c2.0, c2.1)
                &&& c1.1 != c2.1
                &&& fresh_label(c2.0) matches Ok(c3) ==> {
                    &&& grows(st, c3.0)
                    &&& pending(st, c3.0, c1.1)
                    &&& pending(st, c3.0, c2.1)
                    &&& pending(st, c3.0, c3.1)
                    &&& c1.1 != c3.1
                    &&& c2.1 != c3.1
                }
            }
        },
{
}

/// What the generator writes for a statement defines labels of its own
/// only.
pub proof fn lemma_stmt_grows(s: Stmt, st: GenState)
    ensures
        stmt_gen(s, st) matches Ok(r) ==> grows(st, r),
    decreases s,
{
    lemma_same(st);
    lemma_three_labels(st);
    match s {
        Stmt::If(cond, then, None) => {
            match fresh_label(st) {
                Ok((s0, end)) => {
                    lemma_test_grows(cond, end, s0);
                    match test_gen(cond, end, s0) {
                        Ok(s1) => {
                            lemma_sub(st, s0, s1, end, end, end);
                            lemma_stmt_grows(*then, s1);
                            match stmt_gen(*then, s1) {
                                Ok(s2) => {
                                    lemma_sub(st, s1, s2, end, end, end);
                                    lemma_define(st, s2, end, end, end);
                                },
                                Err(_) => {},
                            }
                        },
                        Err(_) => {},
                    }
                },
                Err(_) => {},
            }
        },
        Stmt::If(cond, then, Some(otherwise)) => {
            match fresh_label(st) {
                Ok((s0, other)) => match fresh_label(s0) {
                    Ok((s00, end)) => {
                        lemma_test_grows(cond, other, s00);
                        match test_gen(cond, other, s00) {
                            Ok(s1) => {
                                lemma_sub(st, s00, s1, other, end, end);
                                lemma_stmt_grows(*then, s1);
                                match stmt_gen(*then, s1) {
                                    Ok(s2) => {
                                        lemma_sub(st, s1, s2, other, end, end);
                                        let j = jump_to(s2, end);
                                        lemma_plain(st, s2, IROp::Jmp, Some(end), None, other, end, end);
                                        let l = label_here(j, other);
                                        lemma_define(st, j, other, end, end);
                                        lemma_stmt_grows(*otherwise, l);
                                        match stmt_gen(*otherwise, l) {
                                            Ok(s3) => {
                                                lemma_sub(st, l, s3, end, end, end);
                                                lemma_define(st, s3, end, end, end);
                                            },
                                            Err(_) => {},
                                        }
                                    },
                                    Err(_) => {},
                                }
                            },
                            Err(_) => {},
                        }
                    },
                    Err(_) => {},
                },
                Err(_) => {},
            }
        },
        Stmt::While(cond, body) => {
            match fresh_label(st) {
                Ok((s0, top)) => match fresh_label(s0) {
                    Ok((s00, brk)) => {
                        let l = label_here(s00, top);
                        lemma_define(st, s00, top, brk, brk);
                        lemma_test_grows(cond, brk, l);
                        match test_gen(cond, brk, l) {
                            Ok(s1) => {
                                lemma_sub(st, l, s1, brk, brk, brk);
                                let inside = enter_loop(s1, brk, top);
                                lemma_stmt_grows(*body, inside);
                                match stmt_gen(*body, inside) {
                                    Ok(s2) => {
                                        lemma_loop(st, s1, s2, brk, top);
                                        let out = leave_loop(s2);
                                        lemma_sub(st, s1, out, brk, brk, brk);
                                        let j = jump_to(out, top);
                                        lemma_plain(st, out, IROp::Jmp, Some(top), None, brk, brk, brk);
                                        lemma_define(st, j, brk, brk, brk);
                                    },
                                    Err(_) => {},
                                }
                            },
                            Err(_) => {},
                        }
                    },
                    Err(_) => {},
                },
                Err(_) => {},
            }
        },
        Stmt::For(init, cond, step, body) => {
            match fresh_label(st) {
                Ok((s0, top)) => match fresh_label(s0) {
                    Ok((s00, cont)) => match fresh_label(s00) {
                        Ok((s000, brk)) => {
                            lemma_optional_grows(init, s000);
                            match optional_gen(init, s000) {
                                Ok(s1) => {
                                    lemma_sub(st, s000, s1, top, cont, brk);
                                    let l = label_here(s1, top);
                                    lemma_define(st, s1, top, cont, brk);
                                    lemma_optional_test_grows(cond, brk, l);
                                    match optional_test_gen(cond, brk, l) {
                                        Ok(s2) => {
                                            lemma_sub(st, l, s2, cont, brk, brk);
                                            let inside = enter_loop(s2, brk, cont);
                                            lemma_stmt_grows(*body, inside);
                                            match stmt_gen(*body, inside) {
                                                Ok(s3) => {
                                                    lemma_loop(st, s2, s3, brk, cont);
                                                    let out = leave_loop(s3);
                                                    lemma_sub(st, s2, out, cont, brk, brk);
                                                    let lc = label_here(out, cont);
                                                    lemma_define(st, out, cont, brk, brk);
                                                    lemma_optional_grows(step, lc);
                                                    match optional_gen(step, lc) {
                                                        Ok(s4) => {
                                                            lemma_sub(st, lc, s4, brk, brk, brk);
                                                            let j = jump_to(s4, top);
                                                            lemma_plain(st, s4, IROp::Jmp, Some(top), None, brk, brk, brk);
                                                            lemma_define(st, j, brk, brk, brk);
                                                        },
                                                        Err(_) => {},
                                                    }
                                                },
                                                Err(_) => {},
                                            }
                                        },
                                        Err(_) => {},
                                    }
                                },
                                Err(_) => {},
                            }
                        },
                        Err(_) => {},
                    },
                    Err(_) => {},
                },
                Err(_) => {},
            }
        },
        Stmt::DoWhile(body, cond) => {
            match fresh_label(st) {
                Ok((s0, top)) => match fresh_label(s0) {
                    Ok((s00, cont)) => match fresh_label(s00) {
                        Ok((s000, brk)) => {
                            let l = label_here(s000, top);
                            lemma_define(st, s000, top, cont, brk);
                            let inside = enter_loop(l, brk, cont);
                            lemma_stmt_grows(*body, inside);
                            match stmt_gen(*body, inside) {
                                Ok(s1) => {
                                    lemma_loop(st, l, s1, brk, cont);
                                    let out = leave_loop(s1);
                                    lemma_sub(st, l, out, cont, brk, brk);
                                    let lc = label_here(out, cont);
                                    lemma_define(st, out, cont, brk, brk);
                                    lemma_expr_grows(cond, lc);
                                    match expr_gen(cond, lc) {
                                        Ok((s2, r)) => {
                                            lemma_sub(st, lc, s2, brk, brk, brk);
                                            let i1 = emit(s2, IROp::If, Some(r), Some(top));
                                            lemma_plain(st, s2, IROp::If, Some(r), Some(top), brk, brk, brk);
                                            let i2 = emit(i1, IROp::Kill, Some(r), None);
                                            lemma_plain(st, i1, IROp::Kill, Some(r), None, brk, brk, brk);
                                            lemma_define(st, i2, brk, brk, brk);
                                        },
                                        Err(_) => {},
                                    }
                                },
                                Err(_) => {},
                            }
                        },
                        Err(_) => {},
                    },
                    Err(_) => {},
                },
                Err(_) => {},
            }
        },
        Stmt::Break => {
            if st.loops.len() > 0 {
                lemma_emit(st, st, IROp::Jmp, Some(st.loops.last().0), None);
            }
        },
        Stmt::Continue => {
            if st.loops.len() > 0 {
                lemma_emit(st, st, IROp::Jmp, Some(st.loops.last().1), None);
            }
        },
        Stmt::Return(value) => {
            lemma_expr_grows(value, st);
            match expr_gen(value, st) {
                Ok((s1, r)) => {
                    lemma_emit(st, s1, IROp::Return, Some(r), None);
                    lemma_emit(st, emit(s1, IROp::Return, Some(r), None), IROp::Kill, Some(r), None);
                },
                Err(_) => {},
            }
        },
        Stmt::Expr(e) => {
            lemma_discard_grows(e, st);
        },
        Stmt::Block(stmts) => {
            lemma_block_grows(stmts@, st);
        },
    }
}

/// What the generator writes for a block defines labels of its own only.
pub proof fn lemma_block_grows(stmts: Seq<Stmt>, st: GenState)
    ensures
        block_gen(stmts, st) matches Ok(r) ==> grows(st, r),
    decreases stmts,
{
    lemma_same(st);
    if stmts.len() > 0 {
        lemma_block_grows(stmts.drop_last(), st);
        match block_gen(stmts.drop_last(), st) {
            Ok(s1) => {
                lemma_stmt_grows(stmts.last(), s1);
                match stmt_gen(stmts.last(), s1) {
                    Ok(s2) => {
                        lemma_grows_twice(st, s1, s2);
                    },
                    Err(_) => {},
                }
            },
            Err(_) => {},
        }
    }
}

/// The numbers of the labels that instructions define, where none is
/// defined twice: each is the number of a `Label` instruction, and no two
/// are the same.
proof fn lemma_numbers(irs: Seq<IR>, lo: int, hi: int)
    requires
        defines_within(irs, 0, lo, hi),
    ensures
        label_numbers_of(irs).no_duplicates(),
        forall|k: int|
            0 <= k < label_numbers_of(irs).len() ==> lo <= #[trigger] label_numbers_of(irs)[k]
                < hi && exists|i: int|
                0 <= i < irs.len() && (#[trigger] irs[i]).op is Label && lhs_of(irs[i])
                    == label_numbers_of(irs)[k],
    decreases irs.len(),
{
    if irs.len() > 0 {
        let front = irs.drop_last();
        let last = irs.last();
        assert(defines_within(front, 0, lo, hi)) by {
            assert forall|i: int| 0 <= i < front.len() && (#[trigger] front[i]).op is Label implies front[i].lhs is Some
                && lo <= front[i].lhs->0 < hi by {
                assert(front[i] == irs[i]);
            }
            assert forall|i: int, j: int|
                0 <= i < j < front.len() && (#[trigger] front[i]).op is Label && (
                #[trigger] front[j]).op is Label implies front[i].lhs != front[j].lhs by {
                assert(front[i] == irs[i]);
                assert(front[j] == irs[j]);
            }
        }
        lemma_numbers(front, lo, hi);
        let rest = label_numbers_of(front);
        let all = label_numbers_of(irs);
        assert forall|k: int| 0 <= k < all.len() implies lo <= #[trigger] all[k] < hi && exists|
            i: int,
        |
            0 <= i < irs.len() && (#[trigger] irs[i]).op is Label && lhs_of(irs[i]) == all[k] by {
            if k < rest.len() {
                assert(all[k] == rest[k]);
                let i = choose|i: int|
                    0 <= i < front.len() && (#[trigger] front[i]).op is Label && lhs_of(front[i])
                        == rest[k];
                assert(front[i] == irs[i]);
            } else {
                assert(irs[irs.len() - 1].op is Label);
                assert(all[k] == lhs_of(last));
            }
        }
        if last.op is Label {
            assert forall|a: int, b: int| 0 <= a < all.len() && 0 <= b < all.len() && a != b implies all[a]
                != all[b] by {
                let n = rest.len() as int;
                if a < n && b < n {
                    assert(rest[a] != rest[b]);
                } else {
                    let k = if a < n {
                        a
                    } else {
                        b
                    };
                    let i = choose|i: int|
                        0 <= i < front.len() && (#[trigger] front[i]).op is Label && lhs_of(front[i])
                            == rest[k];
                    assert(front[i] == irs[i]);
                    assert(irs[irs.len() - 1].op is Label);
                    assert(irs[i].lhs != irs[irs.len() - 1].lhs);
                }
            }
        }
    }
}

/// What the generator writes for a function defines labels that it has
/// taken from the counter for this function, none of them twice.
pub proof fn lemma_function_labels(def: FunctionDef, counters: Counters)
    ensures
        function_gen(def, counters) matches Ok(r) ==> {
            &&& counters.nlabel <= r.1.nlabel
            &&& label_numbers_of(r.0.ir).no_duplicates()
            &&& forall|k: int|
                0 <= k < label_numbers_of(r.0.ir).len() ==> counters.nlabel
                    <= #[trigger] label_numbers_of(r.0.ir)[k] < r.1.nlabel
        },
{
    let st = entry_state(def, counters);
    lemma_block_grows(def.body@, st);
    match function_gen(def, counters) {
        Ok((f, after)) => {
            let lo = counters.nlabel as int;
            let hi = after.nlabel as int;
            assert(defines_within(f.ir, 0, lo, hi)) by {
                assert forall|i: int| 0 <= i < f.ir.len() && (#[trigger] f.ir[i]).op is Label implies f.ir[i].lhs is Some
                    && lo <= f.ir[i].lhs->0 < hi by {
                    if i < st.code.len() {
                        assert(f.ir[i] == st.code[i]);
                    }
                }
                assert forall|i: int, j: int|
                    0 <= i < j < f.ir.len() && (#[trigger] f.ir[i]).op is Label && (
                    #[trigger] f.ir[j]).op is Label implies f.ir[i].lhs != f.ir[j].lhs by {
                    if i < st.code.len() {
                        assert(f.ir[i] == st.code[i]);
                    }
                    if j < st.code.len() {
                        assert(f.ir[j] == st.code[j]);
                    }
                }
            }
            lemma_numbers(f.ir, lo, hi);
        },
        Err(_) => {},
    }
}

proof fn lemma_functions_labels(defs: Seq<FunctionDef>, counters: Counters)
    ensures
        functions_gen(defs, counters) matches Ok(r) ==> {
            &&& counters.nlabel <= r.1.nlabel
            &&& label_numbers(r.0).no_duplicates()
            &&& forall|k: int|
                0 <= k < label_numbers(r.0).len() ==> counters.nlabel <= #[trigger] label_numbers(
                    r.0,
                )[k] < r.1.nlabel
        },
    decreases defs.len(),
{
    if defs.len() > 0 {
        lemma_functions_labels(defs.drop_last(), counters);
        match functions_gen(defs.drop_last(), counters) {
            Ok((fns, c1)) => {
                lemma_function_labels(defs.last(), c1);
                match function_gen(defs.last(), c1) {
                    Ok((f, c2)) => {
                        let all = fns.push(f);
                        assert(all.drop_last() =~= fns);
                        assert(all.last() == f);
                        let a = label_numbers(fns);
                        let b = label_numbers_of(f.ir);
                        assert(label_numbers(all) == a + b);
                        assert forall|i: int, j: int| 0 <= i < a.len() && 0 <= j < b.len() implies a[i]
                            != b[j] by {
                            assert(a[i] < c1.nlabel);
                            assert(b[j] >= c1.nlabel);
                        }
                        vstd::seq_lib::lemma_no_dup_in_concat(a, b);
                        assert forall|k: int| 0 <= k < (a + b).len() implies counters.nlabel
                            <= #[trigger] (a + b)[k] < c2.nlabel by {
                            if k < a.len() {
                                assert((a + b)[k] == a[k]);
                            } else {
                                assert((a + b)[k] == b[k - a.len()]);
                            }
                        }
                    },
                    Err(_) => {},
                }
            },
            Err(_) => {},
        }
    }
}

/// No two `Label` instructions of the functions that the generator makes
/// of a program define the same label.
pub proof fn lemma_generated_labels(defs: Seq<FunctionDef>, counters: Counters)
    ensures
        functions_gen(defs, counters) matches Ok(r) ==> label_numbers(r.0).no_duplicates(),
{
    lemma_functions_labels(defs, counters);
}

} // verus!
