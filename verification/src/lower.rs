//! Generation of the IR: a tree of statements and expressions becomes a
//! flat list of instructions over virtual registers.
//!
//! Expressions are lowered operands first; each yields the virtual
//! register that holds its value.  An operation on two values works on the
//! register of its left operand and ends the range of the right one with a
//! `Kill`.  Control flow becomes labels and jumps.  Registers and labels
//! are numbered by two counters that only ever count up.

use vstd::prelude::*;
use crate::ast::{BinOp, Expr, FunctionDef, Param, Place, Stmt};
use crate::gen_ir::{views, Function, FunctionView, IROp, IR};

verus! {

/// Why no IR was generated.
#[derive(Clone, Copy, Debug, PartialEq, Eq, Structural)]
pub enum GenError {
    /// A call passes more than six arguments.
    TooManyArguments,
    /// A function takes more than six parameters.
    TooManyParameters,
    /// A `break` stands outside every loop.
    StrayBreak,
    /// A `continue` stands outside every loop.
    StrayContinue,
    /// A counter of registers or labels would overflow.
    Overflow,
}

/// What the generator holds while it works: the instructions so far, the
/// next free register and label, and for each loop around the current
/// statement the labels that `break` and `continue` jump to.
pub struct Gen {
    pub code: Vec<IR>,
    pub nreg: usize,
    pub nlabel: usize,
    pub loops: Vec<(usize, usize)>,
}

/// The state of the generator as a mathematical value.
pub struct GenState {
    pub code: Seq<IR>,
    pub nreg: usize,
    pub nlabel: usize,
    pub loops: Seq<(usize, usize)>,
}

impl View for Gen {
    type V = GenState;

    open spec fn view(&self) -> GenState {
        GenState { code: self.code@, nreg: self.nreg, nlabel: self.nlabel, loops: self.loops@ }
    }
}

/// The state with one more instruction.
pub open spec fn emit(st: GenState, op: IROp, lhs: Option<usize>, rhs: Option<usize>) -> GenState {
    GenState {
        code: st.code.push(IR { op, lhs, rhs }),
        nreg: st.nreg,
        nlabel: st.nlabel,
        loops: st.loops,
    }
}

/// A register that has not been used, and the state after it is taken.
pub open spec fn fresh_reg(st: GenState) -> Result<(GenState, usize), GenError> {
    if st.nreg < usize::MAX {
        Ok(
            (
                GenState {
                    code: st.code,
                    nreg: (st.nreg + 1) as usize,
                    nlabel: st.nlabel,
                    loops: st.loops,
                },
                st.nreg,
            ),
        )
    } else {
        Err(GenError::Overflow)
    }
}

/// A label that has not been used, and the state after it is taken.
pub open spec fn fresh_label(st: GenState) -> Result<(GenState, usize), GenError> {
    if st.nlabel < usize::MAX {
        Ok(
            (
                GenState {
                    code: st.code,
                    nreg: st.nreg,
                    nlabel: (st.nlabel + 1) as usize,
                    loops: st.loops,
                },
                st.nlabel,
            ),
        )
    } else {
        Err(GenError::Overflow)
    }
}

/// The state inside a loop with the given labels for `break` and
/// `continue`.
pub open spec fn enter_loop(st: GenState, brk: usize, cont: usize) -> GenState {
    GenState { code: st.code, nreg: st.nreg, nlabel: st.nlabel, loops: st.loops.push((brk, cont)) }
}

/// The state behind the innermost loop.
pub open spec fn leave_loop(st: GenState) -> GenState {
    GenState {
        code: st.code,
        nreg: st.nreg,
        nlabel: st.nlabel,
        loops: if st.loops.len() > 0 {
            st.loops.drop_last()
        } else {
            st.loops
        },
    }
}

/// The instruction of an operation on two registers.
pub open spec fn binop_ir(op: BinOp) -> IROp {
    match op {
        BinOp::Add => IROp::Add,
        BinOp::Sub => IROp::Sub,
        BinOp::Mul => IROp::Mul,
        BinOp::Div => IROp::Div,
        BinOp::Mod => IROp::Mod,
        BinOp::And => IROp::AND,
        BinOp::Or => IROp::OR,
        BinOp::Xor => IROp::XOR,
        BinOp::Shl => IROp::SHL,
        BinOp::Shr => IROp::SHR,
        BinOp::Eq => IROp::EQ,
        BinOp::Ne => IROp::NE,
        BinOp::Lt => IROp::LT,
        BinOp::Le => IROp::LE,
    }
}

/// The instruction of an operation on a register and a constant, for the
/// operations that have one.
pub open spec fn imm_ir(op: BinOp) -> Option<IROp> {
    match op {
        BinOp::Add => Some(IROp::AddImm),
        BinOp::Sub => Some(IROp::SubImm),
        BinOp::Mul => Some(IROp::MulImm),
        _ => None,
    }
}

/// The six registers of a call with the arguments `regs`: these, and 0
/// behind them.
pub open spec fn call_regs(regs: Seq<usize>) -> [usize; 6] {
    [
        arg_or_zero(regs, 0),
        arg_or_zero(regs, 1),
        arg_or_zero(regs, 2),
        arg_or_zero(regs, 3),
        arg_or_zero(regs, 4),
        arg_or_zero(regs, 5),
    ]
}

/// The register of argument `j`, 0 behind the last argument.
pub open spec fn arg_or_zero(regs: Seq<usize>, j: int) -> usize {
    if j < regs.len() {
        regs[j]
    } else {
        0
    }
}

/// The state after a `Kill` for each of `regs`, in order.
pub open spec fn kill_all(st: GenState, regs: Seq<usize>) -> GenState
    decreases regs.len(),
{
    if regs.len() == 0 {
        st
    } else {
        emit(kill_all(st, regs.drop_last()), IROp::Kill, Some(regs.last()), None)
    }
}

/// The address of a place: the state after its instructions, and the
/// register that holds the address.
pub open spec fn place_gen(p: Place, st: GenState) -> Result<(GenState, usize), GenError>
    decreases p,
{
    match p {
        Place::Local(offset) => match fresh_reg(st) {
            Ok((s1, r)) => Ok((emit(s1, IROp::Bprel, Some(r), Some(offset)), r)),
            Err(e) => Err(e),
        },
        Place::Global(name) => match fresh_reg(st) {
            Ok((s1, r)) => Ok((emit(s1, IROp::LabelAddr(name), Some(r), None), r)),
            Err(e) => Err(e),
        },
        Place::Deref(e) => expr_gen(*e, st),
        Place::Member(inner, offset) => match place_gen(*inner, st) {
            Ok((s1, r)) => Ok((emit(s1, IROp::AddImm, Some(r), Some(offset)), r)),
            Err(e) => Err(e),
        },
        Place::Element(base, index, stride) => match expr_gen(*base, st) {
            Ok((s1, r)) => if *index is Num && (*index)->Num_0 * stride <= usize::MAX {
                Ok((emit(s1, IROp::AddImm, Some(r), Some(((*index)->Num_0 * stride) as usize)), r))
            } else {
                match expr_gen(*index, s1) {
                    Ok((s2, i)) => Ok(
                        (
                            emit(
                                emit(
                                    emit(s2, IROp::MulImm, Some(i), Some(stride)),
                                    IROp::Add,
                                    Some(r),
                                    Some(i),
                                ),
                                IROp::Kill,
                                Some(i),
                                None,
                            ),
                            r,
                        ),
                    ),
                    Err(e) => Err(e),
                }
            },
            Err(e) => Err(e),
        },
    }
}

/// The value of an expression: the state after its instructions, and the
/// register that holds the value.
///
/// A binary operation works in the register of its left operand, which
/// holds the result afterwards, and the register of the right operand is
/// killed.  No `Mov` into a fresh register stands before the operation:
/// the value of the left operand is used once, so nothing needs the copy.
/// With it `1+2*3` would take a third and a fourth register; without it
/// the product is built in the register of `2` and added to the register
/// of `1`, which after allocation reads `imul r11, r11, 3` and
/// `add r10, r11`.
pub open spec fn expr_gen(e: Expr, st: GenState) -> Result<(GenState, usize), GenError>
    decreases e,
{
    match e {
        Expr::Num(value) => match fresh_reg(st) {
            Ok((s1, r)) => Ok((emit(s1, IROp::Imm, Some(r), Some(value)), r)),
            Err(e) => Err(e),
        },
        Expr::Load(place, size) => match place_gen(*place, st) {
            Ok((s1, r)) => Ok((emit(s1, IROp::Load(size), Some(r), Some(r)), r)),
            Err(e) => Err(e),
        },
        Expr::Addr(place) => place_gen(*place, st),
        Expr::Assign(place, value, size) => match place_gen(*place, st) {
            Ok((s1, a)) => match expr_gen(*value, s1) {
                Ok((s2, v)) => Ok(
                    (
                        emit(
                            emit(s2, IROp::Store(size), Some(a), Some(v)),
                            IROp::Kill,
                            Some(a),
                            None,
                        ),
                        v,
                    ),
                ),
                Err(e) => Err(e),
            },
            Err(e) => Err(e),
        },
        Expr::Binary(op, left, right) => match expr_gen(*left, st) {
            Ok((s1, x)) => if *right is Num && imm_ir(op) is Some {
                Ok((emit(s1, imm_ir(op)->0, Some(x), Some((*right)->Num_0)), x))
            } else {
                match expr_gen(*right, s1) {
                    Ok((s2, y)) => Ok(
                        (
                            emit(
                                emit(s2, binop_ir(op), Some(x), Some(y)),
                                IROp::Kill,
                                Some(y),
                                None,
                            ),
                            x,
                        ),
                    ),
                    Err(e) => Err(e),
                }
            },
            Err(e) => Err(e),
        },
        Expr::LogAnd(left, right) => match fresh_label(st) {
            Ok((s0, end)) => match expr_gen(*left, s0) {
                Ok((s1, x)) => match expr_gen(*right, emit(s1, IROp::Unless, Some(x), Some(end))) {
                    Ok((s2, y)) => Ok(
                        (
                            emit(
                                emit(
                                    emit(
                                        emit(
                                            emit(s2, IROp::Mov, Some(x), Some(y)),
                                            IROp::Kill,
                                            Some(y),
                                            None,
                                        ),
                                        IROp::Unless,
                                        Some(x),
                                        Some(end),
                                    ),
                                    IROp::Imm,
                                    Some(x),
                                    Some(1),
                                ),
                                IROp::Label,
                                Some(end),
                                None,
                            ),
                            x,
                        ),
                    ),
                    Err(e) => Err(e),
                },
                Err(e) => Err(e),
            },
            Err(e) => Err(e),
        },
        Expr::LogOr(left, right) => match fresh_label(st) {
            Ok((s0, other)) => match fresh_label(s0) {
                Ok((s00, end)) => match expr_gen(*left, s00) {
                    Ok((s1, x)) => match expr_gen(
                        *right,
                        emit(
                            emit(
                                emit(
                                    emit(s1, IROp::Unless, Some(x), Some(other)),
                                    IROp::Imm,
                                    Some(x),
                                    Some(1),
                                ),
                                IROp::Jmp,
                                Some(end),
                                None,
                            ),
                            IROp::Label,
                            Some(other),
                            None,
                        ),
                    ) {
                        Ok((s2, y)) => Ok(
                            (
                                emit(
                                    emit(
                                        emit(
                                            emit(
                                                emit(s2, IROp::Mov, Some(x), Some(y)),
                                                IROp::Kill,
                                                Some(y),
                                                None,
                                            ),
                                            IROp::Unless,
                                            Some(x),
                                            Some(end),
                                        ),
                                        IROp::Imm,
                                        Some(x),
                                        Some(1),
                                    ),
                                    IROp::Label,
                                    Some(end),
                                    None,
                                ),
                                x,
                            ),
                        ),
                        Err(e) => Err(e),
                    },
                    Err(e) => Err(e),
                },
                Err(e) => Err(e),
            },
            Err(e) => Err(e),
        },
        Expr::Step(place, size, by, down, post) => match place_gen(*place, st) {
            Ok((s1, a)) => match fresh_reg(s1) {
                Ok((s2, v)) => {
                    let forth = if down {
                        IROp::SubImm
                    } else {
                        IROp::AddImm
                    };
                    let back = if down {
                        IROp::AddImm
                    } else {
                        IROp::SubImm
                    };
                    let stored = emit(
                        emit(
                            emit(
                                emit(s2, IROp::Load(size), Some(v), Some(a)),
                                forth,
                                Some(v),
                                Some(by),
                            ),
                            IROp::Store(size),
                            Some(a),
                            Some(v),
                        ),
                        IROp::Kill,
                        Some(a),
                        None,
                    );
                    if post {
                        Ok((emit(stored, back, Some(v), Some(by)), v))
                    } else {
                        Ok((stored, v))
                    }
                },
                Err(e) => Err(e),
            },
            Err(e) => Err(e),
        },
        Expr::Call(name, args) => if args.len() > 6 {
            Err(GenError::TooManyArguments)
        } else {
            match args_gen(args@, st) {
                Ok((s1, regs)) => match fresh_reg(s1) {
                    Ok((s2, r)) => Ok(
                        (
                            kill_all(
                                emit(
                                    s2,
                                    IROp::Call(name, args.len(), call_regs(regs)),
                                    Some(r),
                                    None,
                                ),
                                regs,
                            ),
                            r,
                        ),
                    ),
                    Err(e) => Err(e),
                },
                Err(e) => Err(e),
            }
        },
    }
}

/// The values of the arguments `args`, lowered in order: the state after
/// their instructions and the registers that hold them.
pub open spec fn args_gen(args: Seq<Expr>, st: GenState) -> Result<(GenState, Seq<usize>), GenError>
    decreases args,
{
    if args.len() == 0 {
        Ok((st, Seq::empty()))
    } else {
        match args_gen(args.drop_last(), st) {
            Ok((s1, regs)) => match expr_gen(args.last(), s1) {
                Ok((s2, r)) => Ok((s2, regs.push(r))),
                Err(e) => Err(e),
            },
            Err(e) => Err(e),
        }
    }
}


/// The state after an expression whose value is not used: its
/// instructions, and a `Kill` for its register.
pub open spec fn discard_gen(e: Expr, st: GenState) -> Result<GenState, GenError> {
    match expr_gen(e, st) {
        Ok((s1, r)) => Ok(emit(s1, IROp::Kill, Some(r), None)),
        Err(e) => Err(e),
    }
}

/// The state after an expression that may be absent and whose value is not
/// used.
pub open spec fn optional_gen(e: Option<Expr>, st: GenState) -> Result<GenState, GenError> {
    match e {
        Some(e) => discard_gen(e, st),
        None => Ok(st),
    }
}

/// The state after the test of a loop or of an `if`: the instructions of
/// the condition, a jump to `target` if it is zero, and a `Kill` for its
/// register.
pub open spec fn test_gen(e: Expr, target: usize, st: GenState) -> Result<GenState, GenError> {
    match expr_gen(e, st) {
        Ok((s1, r)) => Ok(
            emit(emit(s1, IROp::Unless, Some(r), Some(target)), IROp::Kill, Some(r), None),
        ),
        Err(e) => Err(e),
    }
}

/// The state after a test that may be absent.
pub open spec fn optional_test_gen(e: Option<Expr>, target: usize, st: GenState) -> Result<
    GenState,
    GenError,
> {
    match e {
        Some(e) => test_gen(e, target, st),
        None => Ok(st),
    }
}

/// The state with a label defined at this point.
pub open spec fn label_here(st: GenState, label: usize) -> GenState {
    emit(st, IROp::Label, Some(label), None)
}

/// The state with a jump to `label` at this point.
pub open spec fn jump_to(st: GenState, label: usize) -> GenState {
    emit(st, IROp::Jmp, Some(label), None)
}

/// The state after the instructions of a statement.
pub open spec fn stmt_gen(s: Stmt, st: GenState) -> Result<GenState, GenError>
    decreases s,
{
    match s {
        Stmt::If(cond, then, None) => match fresh_label(st) {
            Ok((s0, end)) => match test_gen(cond, end, s0) {
                Ok((s1)) => match stmt_gen(*then, s1) {
                    Ok(s2) => Ok(label_here(s2, end)),
                    Err(e) => Err(e),
                },
                Err(e) => Err(e),
            },
            Err(e) => Err(e),
        },
        Stmt::If(cond, then, Some(otherwise)) => match fresh_label(st) {
            Ok((s0, other)) => match fresh_label(s0) {
                Ok((s00, end)) => match test_gen(cond, other, s00) {
                    Ok(s1) => match stmt_gen(*then, s1) {
                        Ok(s2) => match stmt_gen(*otherwise, label_here(jump_to(s2, end), other)) {
                            Ok(s3) => Ok(label_here(s3, end)),
                            Err(e) => Err(e),
                        },
                        Err(e) => Err(e),
                    },
                    Err(e) => Err(e),
                },
                Err(e) => Err(e),
            },
            Err(e) => Err(e),
        },
        Stmt::While(cond, body) => match fresh_label(st) {
            Ok((s0, top)) => match fresh_label(s0) {
                Ok((s00, brk)) => match test_gen(cond, brk, label_here(s00, top)) {
                    Ok(s1) => match stmt_gen(*body, enter_loop(s1, brk, top)) {
                        Ok(s2) => Ok(label_here(jump_to(leave_loop(s2), top), brk)),
                        Err(e) => Err(e),
                    },
                    Err(e) => Err(e),
                },
                Err(e) => Err(e),
            },
            Err(e) => Err(e),
        },
        Stmt::For(init, cond, step, body) => match fresh_label(st) {
            Ok((s0, top)) => match fresh_label(s0) {
                Ok((s00, cont)) => match fresh_label(s00) {
                    Ok((s000, brk)) => match optional_gen(init, s000) {
                        Ok(s1) => match optional_test_gen(cond, brk, label_here(s1, top)) {
                            Ok(s2) => match stmt_gen(*body, enter_loop(s2, brk, cont)) {
                                Ok(s3) => match optional_gen(
                                    step,
                                    label_here(leave_loop(s3), cont),
                                ) {
                                    Ok(s4) => Ok(label_here(jump_to(s4, top), brk)),
                                    Err(e) => Err(e),
                                },
                                Err(e) => Err(e),
                            },
                            Err(e) => Err(e),
                        },
                        Err(e) => Err(e),
                    },
                    Err(e) => Err(e),
                },
                Err(e) => Err(e),
            },
            Err(e) => Err(e),
        },
        Stmt::DoWhile(body, cond) => match fresh_label(st) {
            Ok((s0, top)) => match fresh_label(s0) {
                Ok((s00, cont)) => match fresh_label(s00) {
                    Ok((s000, brk)) => match stmt_gen(
                        *body,
                        enter_loop(label_here(s000, top), brk, cont),
                    ) {
                        Ok(s1) => match expr_gen(cond, label_here(leave_loop(s1), cont)) {
                            Ok((s2, r)) => Ok(
                                label_here(
                                    emit(
                                        emit(s2, IROp::If, Some(r), Some(top)),
                                        IROp::Kill,
                                        Some(r),
                                        None,
                                    ),
                                    brk,
                                ),
                            ),
                            Err(e) => Err(e),
                        },
                        Err(e) => Err(e),
                    },
                    Err(e) => Err(e),
                },
                Err(e) => Err(e),
            },
            Err(e) => Err(e),
        },
        Stmt::Break => if st.loops.len() == 0 {
            Err(GenError::StrayBreak)
        } else {
            Ok(jump_to(st, st.loops.last().0))
        },
        Stmt::Continue => if st.loops.len() == 0 {
            Err(GenError::StrayContinue)
        } else {
            Ok(jump_to(st, st.loops.last().1))
        },
        Stmt::Return(value) => match expr_gen(value, st) {
            Ok((s1, r)) => Ok(
                emit(emit(s1, IROp::Return, Some(r), None), IROp::Kill, Some(r), None),
            ),
            Err(e) => Err(e),
        },
        Stmt::Expr(e) => discard_gen(e, st),
        Stmt::Block(stmts) => block_gen(stmts@, st),
    }
}

/// The state after the instructions of the statements `stmts`, in order.
pub open spec fn block_gen(stmts: Seq<Stmt>, st: GenState) -> Result<GenState, GenError>
    decreases stmts,
{
    if stmts.len() == 0 {
        Ok(st)
    } else {
        match block_gen(stmts.drop_last(), st) {
            Ok(s1) => stmt_gen(stmts.last(), s1),
            Err(e) => Err(e),
        }
    }
}

/// Whether the generator has done what it was to do: it yields `r` and is
/// in the state `st` where `want` is a value and a state, and it fails
/// with the error of `want` where that is one.
pub open spec fn done<T>(r: Result<T, GenError>, st: GenState, want: Result<(GenState, T), GenError>) -> bool {
    match want {
        Ok((s, v)) => r == Ok::<T, GenError>(v) && st == s,
        Err(e) => r == Err::<T, GenError>(e),
    }
}

/// Whether the generator has done what it was to do, where it yields no
/// value.
pub open spec fn done_unit(r: Result<(), GenError>, st: GenState, want: Result<GenState, GenError>) -> bool {
    match want {
        Ok(s) => r is Ok && st == s,
        Err(e) => r == Err::<(), GenError>(e),
    }
}

fn put(gen: &mut Gen, op: IROp, lhs: Option<usize>, rhs: Option<usize>)
    ensures
        final(gen)@ == emit(old(gen)@, op, lhs, rhs),
{
    gen.code.push(IR { op, lhs, rhs });
}

fn new_reg(gen: &mut Gen) -> (r: Result<usize, GenError>)
    ensures
        done(r, final(gen)@, fresh_reg(old(gen)@)),
{
    if gen.nreg == usize::MAX {
        return Err(GenError::Overflow);
    }
    let r = gen.nreg;
    gen.nreg = r + 1;
    Ok(r)
}

fn new_label(gen: &mut Gen) -> (r: Result<usize, GenError>)
    ensures
        done(r, final(gen)@, fresh_label(old(gen)@)),
{
    if gen.nlabel == usize::MAX {
        return Err(GenError::Overflow);
    }
    let r = gen.nlabel;
    gen.nlabel = r + 1;
    Ok(r)
}

fn binop(op: BinOp) -> (r: IROp)
    ensures
        r == binop_ir(op),
{
    match op {
        BinOp::Add => IROp::Add,
        BinOp::Sub => IROp::Sub,
        BinOp::Mul => IROp::Mul,
        BinOp::Div => IROp::Div,
        BinOp::Mod => IROp::Mod,
        BinOp::And => IROp::AND,
        BinOp::Or => IROp::OR,
        BinOp::Xor => IROp::XOR,
        BinOp::Shl => IROp::SHL,
        BinOp::Shr => IROp::SHR,
        BinOp::Eq => IROp::EQ,
        BinOp::Ne => IROp::NE,
        BinOp::Lt => IROp::LT,
        BinOp::Le => IROp::LE,
    }
}

fn imm_form(op: BinOp) -> (r: Option<IROp>)
    ensures
        r == imm_ir(op),
{
    match op {
        BinOp::Add => Some(IROp::AddImm),
        BinOp::Sub => Some(IROp::SubImm),
        BinOp::Mul => Some(IROp::MulImm),
        _ => None,
    }
}

proof fn lemma_args_gen_stays_failed(args: Seq<Expr>, st: GenState, n: int)
    requires
        0 <= n <= args.len(),
        args_gen(args.take(n), st) is Err,
    ensures
        args_gen(args, st) == args_gen(args.take(n), st),
    decreases args.len() - n,
{
    if n < args.len() {
        let next = args.take(n + 1);
        assert(next.drop_last() =~= args.take(n));
        lemma_args_gen_stays_failed(args, st, n + 1);
    } else {
        assert(args.take(n) =~= args);
    }
}

proof fn lemma_block_gen_stays_failed(stmts: Seq<Stmt>, st: GenState, n: int)
    requires
        0 <= n <= stmts.len(),
        block_gen(stmts.take(n), st) is Err,
    ensures
        block_gen(stmts, st) == block_gen(stmts.take(n), st),
    decreases stmts.len() - n,
{
    if n < stmts.len() {
        let next = stmts.take(n + 1);
        assert(next.drop_last() =~= stmts.take(n));
        lemma_block_gen_stays_failed(stmts, st, n + 1);
    } else {
        assert(stmts.take(n) =~= stmts);
    }
}

fn reg_at(regs: &Vec<usize>, j: usize) -> (r: usize)
    ensures
        r == arg_or_zero(regs@, j as int),
{
    if j < regs.len() {
        regs[j]
    } else {
        0
    }
}

fn put_kills(gen: &mut Gen, regs: &Vec<usize>)
    ensures
        final(gen)@ == kill_all(old(gen)@, regs@),
{
    let mut i: usize = 0;
    assert(regs@.take(0) =~= Seq::<usize>::empty());
    while i < regs.len()
        invariant
            i <= regs.len(),
            gen@ == kill_all(old(gen)@, regs@.take(i as int)),
        decreases regs.len() - i,
    {
        put(gen, IROp::Kill, Some(regs[i]), None);
        proof {
            let next = regs@.take(i + 1);
            assert(next.drop_last() =~= regs@.take(i as int));
            assert(next.last() == regs@[i as int]);
        }
        i += 1;
    }
    assert(regs@.take(i as int) =~= regs@);
}

/// Generates the instructions that compute the address of `p`, and yields
/// the register that holds it.
pub fn gen_place(gen: &mut Gen, p: &Place) -> (r: Result<usize, GenError>)
    ensures
        done(r, final(gen)@, place_gen(*p, old(gen)@)),
    decreases p,
{
    match p {
        Place::Local(offset) => {
            let r = new_reg(gen)?;
            put(gen, IROp::Bprel, Some(r), Some(*offset));
            Ok(r)
        },
        Place::Global(name) => {
            let r = new_reg(gen)?;
            put(gen, IROp::LabelAddr(name.clone()), Some(r), None);
            Ok(r)
        },
        Place::Deref(e) => gen_expr(gen, e),
        Place::Member(inner, offset) => {
            let r = gen_place(gen, inner)?;
            put(gen, IROp::AddImm, Some(r), Some(*offset));
            Ok(r)
        },
        Place::Element(base, index, stride) => {
            let r = gen_expr(gen, base)?;
            let scaled = match &**index {
                Expr::Num(k) => k.checked_mul(*stride),
                _ => None,
            };
            match scaled {
                Some(offset) => {
                    put(gen, IROp::AddImm, Some(r), Some(offset));
                },
                None => {
                    let i = gen_expr(gen, index)?;
                    put(gen, IROp::MulImm, Some(i), Some(*stride));
                    put(gen, IROp::Add, Some(r), Some(i));
                    put(gen, IROp::Kill, Some(i), None);
                },
            }
            Ok(r)
        },
    }
}

/// Generates the instructions that compute the value of `e`, and yields
/// the register that holds it.
pub fn gen_expr(gen: &mut Gen, e: &Expr) -> (r: Result<usize, GenError>)
    ensures
        done(r, final(gen)@, expr_gen(*e, old(gen)@)),
    decreases e,
{
    match e {
        Expr::Num(value) => {
            let r = new_reg(gen)?;
            put(gen, IROp::Imm, Some(r), Some(*value));
            Ok(r)
        },
        Expr::Load(place, size) => {
            let r = gen_place(gen, place)?;
            put(gen, IROp::Load(*size), Some(r), Some(r));
            Ok(r)
        },
        Expr::Addr(place) => gen_place(gen, place),
        Expr::Assign(place, value, size) => {
            let a = gen_place(gen, place)?;
            let v = gen_expr(gen, value)?;
            put(gen, IROp::Store(*size), Some(a), Some(v));
            put(gen, IROp::Kill, Some(a), None);
            Ok(v)
        },
        Expr::Binary(op, left, right) => {
            let x = gen_expr(gen, left)?;
            let constant = match &**right {
                Expr::Num(k) => match imm_form(*op) {
                    Some(ir) => Some((ir, *k)),
                    None => None,
                },
                _ => None,
            };
            match constant {
                Some((ir, k)) => {
                    put(gen, ir, Some(x), Some(k));
                },
                None => {
                    let y = gen_expr(gen, right)?;
                    put(gen, binop(*op), Some(x), Some(y));
                    put(gen, IROp::Kill, Some(y), None);
                },
            }
            Ok(x)
        },
        Expr::LogAnd(left, right) => {
            let end = new_label(gen)?;
            let x = gen_expr(gen, left)?;
            put(gen, IROp::Unless, Some(x), Some(end));
            let y = gen_expr(gen, right)?;
            put(gen, IROp::Mov, Some(x), Some(y));
            put(gen, IROp::Kill, Some(y), None);
            put(gen, IROp::Unless, Some(x), Some(end));
            put(gen, IROp::Imm, Some(x), Some(1));
            put(gen, IROp::Label, Some(end), None);
            Ok(x)
        },
        Expr::LogOr(left, right) => {
            let other = new_label(gen)?;
            let end = new_label(gen)?;
            let x = gen_expr(gen, left)?;
            put(gen, IROp::Unless, Some(x), Some(other));
            put(gen, IROp::Imm, Some(x), Some(1));
            put(gen, IROp::Jmp, Some(end), None);
            put(gen, IROp::Label, Some(other), None);
            let y = gen_expr(gen, right)?;
            put(gen, IROp::Mov, Some(x), Some(y));
            put(gen, IROp::Kill, Some(y), None);
            put(gen, IROp::Unless, Some(x), Some(end));
            put(gen, IROp::Imm, Some(x), Some(1));
            put(gen, IROp::Label, Some(end), None);
            Ok(x)
        },
        Expr::Step(place, size, by, down, post) => {
            let a = gen_place(gen, place)?;
            let v = new_reg(gen)?;
            put(gen, IROp::Load(*size), Some(v), Some(a));
            if *down {
                put(gen, IROp::SubImm, Some(v), Some(*by));
            } else {
                put(gen, IROp::AddImm, Some(v), Some(*by));
            }
            put(gen, IROp::Store(*size), Some(a), Some(v));
            put(gen, IROp::Kill, Some(a), None);
            if *post {
                if *down {
                    put(gen, IROp::AddImm, Some(v), Some(*by));
                } else {
                    put(gen, IROp::SubImm, Some(v), Some(*by));
                }
            }
            Ok(v)
        },
        Expr::Call(name, args) => {
            if args.len() > 6 {
                return Err(GenError::TooManyArguments);
            }
            let ghost start = gen@;
            let mut regs: Vec<usize> = Vec::new();
            let mut i: usize = 0;
            assert(args@.take(0) =~= Seq::<Expr>::empty());
            while i < args.len()
                invariant
                    i <= args.len() <= 6,
                    start == old(gen)@,
                    *e == Expr::Call(*name, *args),
                    args_gen(args@.take(i as int), start) == Ok::<
                        (GenState, Seq<usize>),
                        GenError,
                    >((gen@, regs@)),
                decreases args.len() - i,
            {
                proof {
                    let next = args@.take(i + 1);
                    assert(next.drop_last() =~= args@.take(i as int));
                    assert(next.last() == args@[i as int]);
                }
                match gen_expr(gen, &args[i]) {
                    Ok(r) => {
                        regs.push(r);
                    },
                    Err(error) => {
                        proof {
                            assert(args_gen(args@.take(i + 1), start) == Err::<
                                (GenState, Seq<usize>),
                                GenError,
                            >(error));
                            lemma_args_gen_stays_failed(args@, start, i + 1);
                        }
                        return Err(error);
                    },
                }
                i += 1;
            }
            assert(args@.take(i as int) =~= args@);
            let r = new_reg(gen)?;
            let six = [
                reg_at(&regs, 0),
                reg_at(&regs, 1),
                reg_at(&regs, 2),
                reg_at(&regs, 3),
                reg_at(&regs, 4),
                reg_at(&regs, 5),
            ];
            assert(six =~= call_regs(regs@));
            put(gen, IROp::Call(name.clone(), args.len(), six), Some(r), None);
            put_kills(gen, &regs);
            Ok(r)
        },
    }
}


fn gen_discard(gen: &mut Gen, e: &Expr) -> (r: Result<(), GenError>)
    ensures
        done_unit(r, final(gen)@, discard_gen(*e, old(gen)@)),
{
    let r = gen_expr(gen, e)?;
    put(gen, IROp::Kill, Some(r), None);
    Ok(())
}

fn gen_optional(gen: &mut Gen, e: &Option<Expr>) -> (r: Result<(), GenError>)
    ensures
        done_unit(r, final(gen)@, optional_gen(*e, old(gen)@)),
{
    match e {
        Some(e) => gen_discard(gen, e),
        None => Ok(()),
    }
}

fn gen_test(gen: &mut Gen, e: &Expr, target: usize) -> (r: Result<(), GenError>)
    ensures
        done_unit(r, final(gen)@, test_gen(*e, target, old(gen)@)),
{
    let r = gen_expr(gen, e)?;
    put(gen, IROp::Unless, Some(r), Some(target));
    put(gen, IROp::Kill, Some(r), None);
    Ok(())
}

fn gen_optional_test(gen: &mut Gen, e: &Option<Expr>, target: usize) -> (r: Result<(), GenError>)
    ensures
        done_unit(r, final(gen)@, optional_test_gen(*e, target, old(gen)@)),
{
    match e {
        Some(e) => gen_test(gen, e, target),
        None => Ok(()),
    }
}

fn put_label(gen: &mut Gen, label: usize)
    ensures
        final(gen)@ == label_here(old(gen)@, label),
{
    put(gen, IROp::Label, Some(label), None);
}

fn put_jump(gen: &mut Gen, label: usize)
    ensures
        final(gen)@ == jump_to(old(gen)@, label),
{
    put(gen, IROp::Jmp, Some(label), None);
}

fn enter(gen: &mut Gen, brk: usize, cont: usize)
    ensures
        final(gen)@ == enter_loop(old(gen)@, brk, cont),
{
    gen.loops.push((brk, cont));
}

fn leave(gen: &mut Gen)
    ensures
        final(gen)@ == leave_loop(old(gen)@),
{
    if gen.loops.len() > 0 {
        gen.loops.pop();
    }
}

/// Generates the instructions of an `if`.
fn gen_if(gen: &mut Gen, s: &Stmt) -> (r: Result<(), GenError>)
    requires
        s is If,
    ensures
        done_unit(r, final(gen)@, stmt_gen(*s, old(gen)@)),
    decreases s, 0int,
{
    match s {
        Stmt::If(cond, then, None) => {
            let end = new_label(gen)?;
            gen_test(gen, cond, end)?;
            gen_stmt(gen, then)?;
            put_label(gen, end);
            Ok(())
        },
        Stmt::If(cond, then, Some(otherwise)) => {
            let other = new_label(gen)?;
            let end = new_label(gen)?;
            gen_test(gen, cond, other)?;
            gen_stmt(gen, then)?;
            put_jump(gen, end);
            put_label(gen, other);
            gen_stmt(gen, otherwise)?;
            put_label(gen, end);
            Ok(())
        },
        _ => Ok(()),
    }
}

/// Generates the instructions of a `while`.
fn gen_while(gen: &mut Gen, s: &Stmt) -> (r: Result<(), GenError>)
    requires
        s is While,
    ensures
        done_unit(r, final(gen)@, stmt_gen(*s, old(gen)@)),
    decreases s, 0int,
{
    match s {
        Stmt::While(cond, body) => {
            let top = new_label(gen)?;
            let brk = new_label(gen)?;
            put_label(gen, top);
            gen_test(gen, cond, brk)?;
            enter(gen, brk, top);
            gen_stmt(gen, body)?;
            leave(gen);
            put_jump(gen, top);
            put_label(gen, brk);
            Ok(())
        },
        _ => Ok(()),
    }
}

/// Generates the instructions of a `for`.
fn gen_for(gen: &mut Gen, s: &Stmt) -> (r: Result<(), GenError>)
    requires
        s is For,
    ensures
        done_unit(r, final(gen)@, stmt_gen(*s, old(gen)@)),
    decreases s, 0int,
{
    match s {
        Stmt::For(init, cond, step, body) => {
            let top = new_label(gen)?;
            let cont = new_label(gen)?;
            let brk = new_label(gen)?;
            gen_optional(gen, init)?;
            put_label(gen, top);
            gen_optional_test(gen, cond, brk)?;
            enter(gen, brk, cont);
            gen_stmt(gen, body)?;
            leave(gen);
            put_label(gen, cont);
            gen_optional(gen, step)?;
            put_jump(gen, top);
            put_label(gen, brk);
            Ok(())
        },
        _ => Ok(()),
    }
}

/// Generates the instructions of a `do` with its `while`.
fn gen_do(gen: &mut Gen, s: &Stmt) -> (r: Result<(), GenError>)
    requires
        s is DoWhile,
    ensures
        done_unit(r, final(gen)@, stmt_gen(*s, old(gen)@)),
    decreases s, 0int,
{
    match s {
        Stmt::DoWhile(body, cond) => {
            let top = new_label(gen)?;
            let cont = new_label(gen)?;
            let brk = new_label(gen)?;
            put_label(gen, top);
            enter(gen, brk, cont);
            gen_stmt(gen, body)?;
            leave(gen);
            put_label(gen, cont);
            let r = gen_expr(gen, cond)?;
            put(gen, IROp::If, Some(r), Some(top));
            put(gen, IROp::Kill, Some(r), None);
            put_label(gen, brk);
            Ok(())
        },
        _ => Ok(()),
    }
}

/// Generates the instructions of a block.
fn gen_block(gen: &mut Gen, s: &Stmt) -> (r: Result<(), GenError>)
    requires
        s is Block,
    ensures
        done_unit(r, final(gen)@, stmt_gen(*s, old(gen)@)),
    decreases s, 0int,
{
    match s {
        Stmt::Block(stmts) => {
            let ghost start = gen@;
            let mut i: usize = 0;
            assert(stmts@.take(0) =~= Seq::<Stmt>::empty());
            while i < stmts.len()
                invariant
                    i <= stmts.len(),
                    start == old(gen)@,
                    *s == Stmt::Block(*stmts),
                    block_gen(stmts@.take(i as int), start) == Ok::<GenState, GenError>(gen@),
                decreases stmts.len() - i,
            {
                proof {
                    let next = stmts@.take(i + 1);
                    assert(next.drop_last() =~= stmts@.take(i as int));
                    assert(next.last() == stmts@[i as int]);
                }
                match gen_stmt(gen, &stmts[i]) {
                    Ok(_) => {},
                    Err(error) => {
                        proof {
                            assert(block_gen(stmts@.take(i + 1), start) == Err::<
                                GenState,
                                GenError,
                            >(error));
                            lemma_block_gen_stays_failed(stmts@, start, i + 1);
                        }
                        return Err(error);
                    },
                }
                i += 1;
            }
            assert(stmts@.take(i as int) =~= stmts@);
            Ok(())
        },
        _ => Ok(()),
    }
}

/// Generates the instructions of the statement `s`.
pub fn gen_stmt(gen: &mut Gen, s: &Stmt) -> (r: Result<(), GenError>)
    ensures
        done_unit(r, final(gen)@, stmt_gen(*s, old(gen)@)),
    decreases s, 1int,
{
    match s {
        Stmt::If(_, _, _) => gen_if(gen, s),
        Stmt::While(_, _) => gen_while(gen, s),
        Stmt::For(_, _, _, _) => gen_for(gen, s),
        Stmt::DoWhile(_, _) => gen_do(gen, s),
        Stmt::Break => {
            if gen.loops.len() == 0 {
                return Err(GenError::StrayBreak);
            }
            let target = gen.loops[gen.loops.len() - 1].0;
            put_jump(gen, target);
            Ok(())
        },
        Stmt::Continue => {
            if gen.loops.len() == 0 {
                return Err(GenError::StrayContinue);
            }
            let target = gen.loops[gen.loops.len() - 1].1;
            put_jump(gen, target);
            Ok(())
        },
        Stmt::Return(value) => {
            let r = gen_expr(gen, value)?;
            put(gen, IROp::Return, Some(r), None);
            put(gen, IROp::Kill, Some(r), None);
            Ok(())
        },
        Stmt::Expr(e) => gen_discard(gen, e),
        Stmt::Block(_) => gen_block(gen, s),
    }
}

/// The two counters that number the registers and the labels of all the
/// functions of a program.
#[derive(Clone, Copy, Debug, PartialEq, Eq, Structural)]
pub struct Counters {
    pub nreg: usize,
    pub nlabel: usize,
}

/// The instructions that bring the parameters of a function from their
/// registers into their frame slots.
pub open spec fn params_code(params: Seq<Param>) -> Seq<IR> {
    Seq::new(
        params.len(),
        |i: int|
            IR {
                op: IROp::StoreArg(params[i].size),
                lhs: Some(params[i].offset),
                rhs: Some(i as usize),
            },
    )
}

/// The state in which the body of a function is lowered.
pub open spec fn entry_state(def: FunctionDef, counters: Counters) -> GenState {
    GenState {
        code: params_code(def.params@),
        nreg: counters.nreg,
        nlabel: counters.nlabel,
        loops: Seq::empty(),
    }
}

/// The function that a definition is lowered to, and the counters after
/// it.
pub open spec fn function_gen(def: FunctionDef, counters: Counters) -> Result<
    (FunctionView, Counters),
    GenError,
> {
    if def.params.len() > 6 {
        Err(GenError::TooManyParameters)
    } else {
        match block_gen(def.body@, entry_state(def, counters)) {
            Ok(st) => Ok(
                (
                    FunctionView { name: def.name@, stacksize: def.stacksize, ir: st.code },
                    Counters { nreg: st.nreg, nlabel: st.nlabel },
                ),
            ),
            Err(e) => Err(e),
        }
    }
}

/// The functions that the definitions `defs` are lowered to, in order, and
/// the counters after them.
pub open spec fn functions_gen(defs: Seq<FunctionDef>, counters: Counters) -> Result<
    (Seq<FunctionView>, Counters),
    GenError,
>
    decreases defs.len(),
{
    if defs.len() == 0 {
        Ok((Seq::empty(), counters))
    } else {
        match functions_gen(defs.drop_last(), counters) {
            Ok((fns, c1)) => match function_gen(defs.last(), c1) {
                Ok((f, c2)) => Ok((fns.push(f), c2)),
                Err(e) => Err(e),
            },
            Err(e) => Err(e),
        }
    }
}

proof fn lemma_functions_gen_stays_failed(defs: Seq<FunctionDef>, counters: Counters, n: int)
    requires
        0 <= n <= defs.len(),
        functions_gen(defs.take(n), counters) is Err,
    ensures
        functions_gen(defs, counters) == functions_gen(defs.take(n), counters),
    decreases defs.len() - n,
{
    if n < defs.len() {
        let next = defs.take(n + 1);
        assert(next.drop_last() =~= defs.take(n));
        lemma_functions_gen_stays_failed(defs, counters, n + 1);
    } else {
        assert(defs.take(n) =~= defs);
    }
}

/// Lowers the definition of one function.
pub fn gen_function(def: &FunctionDef, counters: &mut Counters) -> (r: Result<Function, GenError>)
    ensures
        match function_gen(*def, *old(counters)) {
            Ok((f, after)) => r is Ok && r->Ok_0@ == f && *final(counters) == after,
            Err(e) => r == Err::<Function, GenError>(e) && *final(counters) == *old(counters),
        },
{
    if def.params.len() > 6 {
        return Err(GenError::TooManyParameters);
    }
    let mut gen = Gen {
        code: Vec::new(),
        nreg: counters.nreg,
        nlabel: counters.nlabel,
        loops: Vec::new(),
    };
    let mut i: usize = 0;
    while i < def.params.len()
        invariant
            i <= def.params.len() <= 6,
            gen.nreg == counters.nreg,
            gen.nlabel == counters.nlabel,
            gen.loops@ == Seq::<(usize, usize)>::empty(),
            gen.code@ == params_code(def.params@).take(i as int),
        decreases def.params.len() - i,
    {
        let p = def.params[i];
        gen.code.push(IR { op: IROp::StoreArg(p.size), lhs: Some(p.offset), rhs: Some(i) });
        assert(gen.code@ =~= params_code(def.params@).take(i + 1));
        i += 1;
    }
    assert(params_code(def.params@).take(i as int) =~= params_code(def.params@));
    let ghost start = gen@;
    let mut k: usize = 0;
    assert(def.body@.take(0) =~= Seq::<Stmt>::empty());
    while k < def.body.len()
        invariant
            k <= def.body.len(),
            def.params.len() <= 6,
            start == entry_state(*def, *counters),
            *counters == *old(counters),
            block_gen(def.body@.take(k as int), start) == Ok::<GenState, GenError>(gen@),
        decreases def.body.len() - k,
    {
        proof {
            let next = def.body@.take(k + 1);
            assert(next.drop_last() =~= def.body@.take(k as int));
            assert(next.last() == def.body@[k as int]);
        }
        match gen_stmt(&mut gen, &def.body[k]) {
            Ok(_) => {},
            Err(error) => {
                proof {
                    assert(block_gen(def.body@.take(k + 1), start) == Err::<GenState, GenError>(
                        error,
                    ));
                    lemma_block_gen_stays_failed(def.body@, start, k + 1);
                }
                return Err(error);
            },
        }
        k += 1;
    }
    assert(def.body@.take(k as int) =~= def.body@);
    counters.nreg = gen.nreg;
    counters.nlabel = gen.nlabel;
    Ok(Function { name: def.name.clone(), stacksize: def.stacksize, ir: gen.code })
}

/// Lowers the definitions `defs` to the functions of the IR.  The
/// registers and labels are numbered from `counters` on, which is advanced
/// past the last of them; where the lowering fails, `counters` keeps its
/// value.
pub fn gen_ir(defs: &[FunctionDef], counters: &mut Counters) -> (r: Result<Vec<Function>, GenError>)
    ensures
        match functions_gen(defs@, *old(counters)) {
            Ok((fns, after)) => r is Ok && views(r->Ok_0@) == fns && *final(counters) == after,
            Err(e) => r == Err::<Vec<Function>, GenError>(e) && *final(counters) == *old(counters),
        },
{
    let mut fns: Vec<Function> = Vec::new();
    let mut now = *counters;
    let mut k: usize = 0;
    assert(defs@.take(0) =~= Seq::<FunctionDef>::empty());
    assert(views(fns@) =~= Seq::<FunctionView>::empty());
    while k < defs.len()
        invariant
            k <= defs.len(),
            *counters == *old(counters),
            functions_gen(defs@.take(k as int), *counters) == Ok::<
                (Seq<FunctionView>, Counters),
                GenError,
            >((views(fns@), now)),
        decreases defs.len() - k,
    {
        proof {
            let next = defs@.take(k + 1);
            assert(next.drop_last() =~= defs@.take(k as int));
            assert(next.last() == defs@[k as int]);
        }
        let ghost before = views(fns@);
        match gen_function(&defs[k], &mut now) {
            Ok(f) => {
                fns.push(f);
                assert(views(fns@) =~= before.push(f@));
            },
            Err(error) => {
                proof {
                    assert(functions_gen(defs@.take(k + 1), *counters) == Err::<
                        (Seq<FunctionView>, Counters),
                        GenError,
                    >(error));
                    lemma_functions_gen_stays_failed(defs@, *counters, k + 1);
                }
                return Err(error);
            },
        }
        k += 1;
    }
    assert(defs@.take(k as int) =~= defs@);
    *counters = now;
    Ok(fns)
}

} // verus!
