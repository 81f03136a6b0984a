//! The passes of the back end in their order: check, allocate, vectorize,
//! generate, with a printed form of the IR after each pass on request.

use vstd::prelude::*;
use crate::gen_ir::{views, Function, FunctionView, IROp, IR};
use crate::gen_x86::{
    emittable, function_emittable, gen_x86, is_emittable, program_emittable, program_lines,
};
use crate::irdump::{all_dumpable, dump_ir, dump_text, dumpable, is_dumpable, mnemonic, IRInfo};
use crate::regalloc::{
    all_functions_present, all_present, alloc_regs, allocated, allocated_all, allocated_function,
    lemma_allocated_present, run,
};
use crate::irdump::operand_of;
use crate::text::{decimal, imm32, push_decimal, render};
use crate::vectorize::{
    lemma_vectorized_present, optional_vectorize, vectorized_all, vectorized_function,
};
use crate::Var;

verus! {

/// What the caller asks for besides the assembly.
#[derive(Clone, Copy, Debug, PartialEq, Eq, Structural)]
pub struct Options {
    /// Print the IR as it comes in.
    pub dump_ir1: bool,
    /// Print the IR after register allocation.
    pub dump_ir2: bool,
    /// Print the IR after vectorization.
    pub dump_ir3: bool,
    /// Run the vectorizer.
    pub vectorize: bool,
}

/// Why no assembly was generated.  Each of these means that the IR breaks
/// a rule that its producer has to keep.
#[derive(Clone, Copy, Debug, PartialEq, Eq, Structural)]
pub enum CompileError {
    /// An instruction lacks an operand that its shape asks for.
    MissingOperand { function: usize, instruction: usize },
    /// More virtual registers are live at an instruction than there are
    /// physical registers.
    RegisterExhausted { function: usize, instruction: usize },
    /// The frame of a function is too large to be rounded up.
    FrameTooLarge { function: usize },
    /// An instruction has an access width other than 1, 4 or 8 bytes,
    /// more than six arguments, or an operand that names a register that
    /// does not exist.
    BadOperand { function: usize, instruction: usize },
    /// An instruction jumps to a label that no instruction of its function
    /// defines.
    UndefinedLabel { function: usize, instruction: usize },
    /// The counter of the epilogue labels would overflow.
    LabelOverflow,
}

/// The outcome of a compilation.
#[derive(Debug)]
pub struct Compiled {
    /// The printed forms of the IR that were asked for, as far as the
    /// passes came.
    pub dump: String,
    /// The assembly, or why there is none.
    pub code: Result<String, CompileError>,
    /// Where there is no assembly, what is to be said of it: the rule that
    /// is broken, the place, and the operation and operands of the
    /// instruction that breaks it.  Empty where there is assembly.
    pub diagnostic: String,
}

/// Whether `(k, i)` is the first place, function by function, at which an
/// instruction fails `pred`.
pub open spec fn is_first_failing(
    fns: Seq<FunctionView>,
    pred: spec_fn(IR) -> bool,
    k: int,
    i: int,
) -> bool {
    &&& 0 <= k < fns.len()
    &&& 0 <= i < fns[k].ir.len()
    &&& !pred(fns[k].ir[i])
    &&& forall|b: int| 0 <= b < i ==> pred(#[trigger] fns[k].ir[b])
    &&& forall|a: int, b: int|
        0 <= a < k && 0 <= b < fns[a].ir.len() ==> pred(#[trigger] fns[a].ir[b])
}

/// The first instruction that lacks an operand, if there is one.
pub fn find_missing_operand(fns: &[Function]) -> (r: Option<(usize, usize)>)
    ensures
        match r {
            Some((k, i)) => is_first_failing(
                views(fns@),
                |ir: IR| dumpable(ir),
                k as int,
                i as int,
            ),
            None => all_dumpable(views(fns@)),
        },
{
    let ghost all = views(fns@);
    let mut k: usize = 0;
    while k < fns.len()
        invariant
            k <= fns.len(),
            all == views(fns@),
            forall|a: int, b: int|
                0 <= a < k && 0 <= b < all[a].ir.len() ==> dumpable(#[trigger] all[a].ir[b]),
        decreases fns.len() - k,
    {
        let mut i: usize = 0;
        while i < fns[k].ir.len()
            invariant
                k < fns.len(),
                i <= fns[k as int].ir.len(),
                all == views(fns@),
                forall|b: int| 0 <= b < i ==> dumpable(#[trigger] all[k as int].ir[b]),
                forall|a: int, b: int|
                    0 <= a < k && 0 <= b < all[a].ir.len() ==> dumpable(#[trigger] all[a].ir[b]),
            decreases fns[k as int].ir.len() - i,
        {
            if !is_dumpable(&fns[k].ir[i]) {
                assert(all[k as int].ir[i as int] == fns[k as int].ir[i as int]);
                return Some((k, i));
            }
            i += 1;
        }
        k += 1;
    }
    None
}

/// What stands in the way of generating assembly for `fns`.
#[derive(Clone, Copy, Debug, PartialEq, Eq, Structural)]
pub enum Obstacle {
    /// The frame of function `.0` is too large to be rounded up.
    Frame(usize),
    /// Instruction `.1` of function `.0` cannot be written.
    Operand(usize, usize),
}

/// The first function whose frame is too large or that holds an instruction
/// for which no assembly can be written, with that instruction.
pub fn find_obstacle(fns: &[Function]) -> (r: Option<Obstacle>)
    ensures
        match r {
            None => program_emittable(views(fns@)),
            Some(Obstacle::Frame(k)) => {
                &&& k < fns.len()
                &&& forall|a: int| 0 <= a < k ==> function_emittable(#[trigger] views(fns@)[a])
                &&& fns[k as int].stacksize + 63 > usize::MAX
            },
            Some(Obstacle::Operand(k, i)) => {
                &&& k < fns.len()
                &&& forall|a: int| 0 <= a < k ==> function_emittable(#[trigger] views(fns@)[a])
                &&& fns[k as int].stacksize + 63 <= usize::MAX
                &&& i < fns[k as int].ir.len()
                &&& !emittable(fns[k as int].ir[i as int])
                &&& forall|b: int| 0 <= b < i ==> emittable(#[trigger] fns[k as int].ir[b])
            },
        },
{
    let ghost all = views(fns@);
    let mut k: usize = 0;
    while k < fns.len()
        invariant
            k <= fns.len(),
            all == views(fns@),
            forall|a: int| 0 <= a < k ==> function_emittable(#[trigger] all[a]),
        decreases fns.len() - k,
    {
        if fns[k].stacksize > usize::MAX - 63 {
            return Some(Obstacle::Frame(k));
        }
        let mut i: usize = 0;
        while i < fns[k].ir.len()
            invariant
                k < fns.len(),
                i <= fns[k as int].ir.len(),
                all == views(fns@),
                fns[k as int].stacksize + 63 <= usize::MAX,
                forall|a: int| 0 <= a < k ==> function_emittable(#[trigger] all[a]),
                forall|b: int| 0 <= b < i ==> emittable(#[trigger] fns[k as int].ir[b]),
            decreases fns[k as int].ir.len() - i,
        {
            if !is_emittable(&fns[k].ir[i]) {
                return Some(Obstacle::Operand(k, i));
            }
            i += 1;
        }
        assert(function_emittable(all[k as int]));
        k += 1;
    }
    None
}

/// The functions as the generator gets them: after allocation, and after
/// vectorization if that is asked for.  `None` where allocation fails.
pub open spec fn lowered(fns: Seq<FunctionView>, vectorize: bool) -> Option<Seq<FunctionView>> {
    match allocated_all(fns) {
        None => None,
        Some(done) => Some(
            if vectorize {
                vectorized_all(done)
            } else {
                done
            },
        ),
    }
}

/// The printed form of `fns` if it is asked for, else nothing.
pub open spec fn dump_if(wanted: bool, fns: Seq<FunctionView>) -> Seq<char> {
    if wanted {
        dump_text(fns)
    } else {
        Seq::empty()
    }
}

/// The printed forms of the IR that are asked for: as it comes in, after
/// allocation, and after vectorization if that runs.  A form is left out
/// where its pass is not reached.
pub open spec fn dumps(fns: Seq<FunctionView>, options: Options) -> Seq<char> {
    if !all_dumpable(fns) {
        Seq::empty()
    } else {
        match allocated_all(fns) {
            None => dump_if(options.dump_ir1, fns),
            Some(done) => dump_if(options.dump_ir1, fns) + dump_if(options.dump_ir2, done)
                + dump_if(options.vectorize && options.dump_ir3, vectorized_all(done)),
        }
    }
}

/// The label that `ir` jumps to, if it is a jump.
pub open spec fn jump_target(ir: IR) -> Option<usize> {
    match ir.op {
        IROp::Jmp => Some(operand_of(ir.lhs)),
        IROp::If | IROp::Unless => Some(operand_of(ir.rhs)),
        _ => None,
    }
}

/// Whether the instruction at `j` defines the label `label`.
pub open spec fn defines_at(irs: Seq<IR>, j: int, label: usize) -> bool {
    0 <= j < irs.len() && irs[j].op is Label && operand_of(irs[j].lhs) == label
}

/// Whether some instruction of `irs` defines the label `label`.
pub open spec fn defines(irs: Seq<IR>, label: usize) -> bool {
    exists|j: int| defines_at(irs, j, label)
}

/// Whether the instruction at `i` jumps nowhere, or to a label that an
/// instruction of `irs` defines.  A label is known inside its function
/// only.
pub open spec fn target_defined(irs: Seq<IR>, i: int) -> bool {
    jump_target(irs[i]) matches Some(label) ==> defines(irs, label)
}

/// Whether every jump of `irs` goes to a label that `irs` defines.
pub open spec fn jumps_defined(irs: Seq<IR>) -> bool {
    forall|i: int| 0 <= i < irs.len() ==> #[trigger] target_defined(irs, i)
}

/// Whether every jump of `fns` goes to a label that its function defines.
pub open spec fn labels_defined(fns: Seq<FunctionView>) -> bool {
    forall|k: int| 0 <= k < fns.len() ==> jumps_defined(#[trigger] fns[k].ir)
}

/// Whether `(k, i)` is the first place, function by function, at which an
/// instruction jumps to a label that its function does not define.
pub open spec fn is_first_undefined(fns: Seq<FunctionView>, k: int, i: int) -> bool {
    &&& 0 <= k < fns.len()
    &&& 0 <= i < fns[k].ir.len()
    &&& !target_defined(fns[k].ir, i)
    &&& forall|b: int| 0 <= b < i ==> #[trigger] target_defined(fns[k].ir, b)
    &&& forall|a: int| 0 <= a < k ==> jumps_defined(#[trigger] fns[a].ir)
}

/// The label that `ir` jumps to, if it is a jump.
fn target_of(ir: &IR) -> (r: Option<usize>)
    ensures
        r == jump_target(*ir),
{
    match &ir.op {
        IROp::Jmp => Some(
            match ir.lhs {
                Some(x) => x,
                None => 0,
            },
        ),
        IROp::If | IROp::Unless => Some(
            match ir.rhs {
                Some(x) => x,
                None => 0,
            },
        ),
        _ => None,
    }
}

/// Whether some instruction of `ir` defines the label `label`.
fn defines_label(ir: &[IR], label: usize) -> (b: bool)
    ensures
        b == defines(ir@, label),
{
    let mut j: usize = 0;
    while j < ir.len()
        invariant
            j <= ir.len(),
            forall|a: int| 0 <= a < j ==> !defines_at(ir@, a, label),
        decreases ir.len() - j,
    {
        let here = match ir[j].lhs {
            Some(x) => x,
            None => 0,
        };
        if matches!(ir[j].op, IROp::Label) && here == label {
            assert(defines_at(ir@, j as int, label));
            return true;
        }
        j += 1;
    }
    false
}

/// The first instruction of `ir` that jumps to a label that `ir` does not
/// define.
fn first_undefined(ir: &[IR]) -> (r: Option<usize>)
    ensures
        match r {
            Some(i) => {
                &&& i < ir.len()
                &&& !target_defined(ir@, i as int)
                &&& forall|b: int| 0 <= b < i ==> #[trigger] target_defined(ir@, b)
            },
            None => jumps_defined(ir@),
        },
{
    let mut i: usize = 0;
    while i < ir.len()
        invariant
            i <= ir.len(),
            forall|b: int| 0 <= b < i ==> #[trigger] target_defined(ir@, b),
        decreases ir.len() - i,
    {
        match target_of(&ir[i]) {
            Some(label) => {
                if !defines_label(ir, label) {
                    return Some(i);
                }
            },
            None => {},
        }
        i += 1;
    }
    None
}

/// The first instruction that jumps to a label that its function does not
/// define, if there is one.
pub fn find_undefined_label(fns: &[Function]) -> (r: Option<(usize, usize)>)
    ensures
        match r {
            Some((k, i)) => is_first_undefined(views(fns@), k as int, i as int),
            None => labels_defined(views(fns@)),
        },
{
    let ghost all = views(fns@);
    let mut k: usize = 0;
    while k < fns.len()
        invariant
            k <= fns.len(),
            all == views(fns@),
            forall|a: int| 0 <= a < k ==> jumps_defined(#[trigger] all[a].ir),
        decreases fns.len() - k,
    {
        assert(all[k as int].ir == fns[k as int].ir@);
        match first_undefined(fns[k].ir.as_slice()) {
            Some(i) => {
                return Some((k, i));
            },
            None => {},
        }
        k += 1;
    }
    None
}

/// How an operand is named in a diagnostic.
pub open spec fn operand_text(x: Option<usize>) -> Seq<char> {
    match x {
        Some(v) => decimal(v as nat),
        None => "none"@,
    }
}

/// How an operation is named in a diagnostic: by its mnemonic, with its
/// width or the number of its arguments behind it where it has one.
pub open spec fn opcode_text(op: IROp) -> Seq<char> {
    match op {
        IROp::Label => "LABEL"@,
        IROp::Load(size) | IROp::Store(size) | IROp::StoreArg(size) => mnemonic(op)@ + decimal(
            size as nat,
        ),
        IROp::Call(_, nargs, _) => mnemonic(op)@ + "/"@ + decimal(nargs as nat),
        _ => mnemonic(op)@,
    }
}

/// How an instruction is named in a diagnostic: its operation and its two
/// operands.
pub open spec fn offence_text(ir: IR) -> Seq<char> {
    opcode_text(ir.op) + " "@ + operand_text(ir.lhs) + ", "@ + operand_text(ir.rhs)
}

/// The instruction that an error is about, if it is about one: for an
/// error of the first two passes an instruction as it came in, for a later
/// one an instruction as the generator gets it.
pub open spec fn culprit(e: CompileError, fns: Seq<FunctionView>, vectorize: bool) -> Option<IR> {
    match e {
        CompileError::MissingOperand { function, instruction } => Some(
            fns[function as int].ir[instruction as int],
        ),
        CompileError::RegisterExhausted { function, instruction } => Some(
            fns[function as int].ir[instruction as int],
        ),
        CompileError::BadOperand { function, instruction } => Some(
            lowered(fns, vectorize)->0[function as int].ir[instruction as int],
        ),
        CompileError::UndefinedLabel { function, instruction } => Some(
            lowered(fns, vectorize)->0[function as int].ir[instruction as int],
        ),
        _ => None,
    }
}

/// What is said of a failed compilation: the error, and the operation and
/// operands of the instruction that it is about.
pub open spec fn diagnostic_text(e: CompileError, culprit: Option<IR>) -> Seq<char> {
    match culprit {
        Some(ir) => error_text(e) + ": "@ + offence_text(ir),
        None => error_text(e),
    }
}

/// Appends the name of an operand.
fn push_operand(s: &mut String, x: Option<usize>)
    ensures
        final(s)@ == old(s)@ + operand_text(x),
{
    match x {
        Some(v) => push_decimal(s, v as u64),
        None => s.append("none"),
    }
}

/// Appends the name of an instruction.
fn push_offence(s: &mut String, ir: &IR)
    ensures
        final(s)@ == old(s)@ + offence_text(*ir),
{
    let ghost start = s@;
    match &ir.op {
        IROp::Label => {
            s.append("LABEL");
        },
        IROp::Load(size) | IROp::Store(size) | IROp::StoreArg(size) => {
            s.append(IRInfo::from(&ir.op).name);
            push_decimal(s, *size as u64);
        },
        IROp::Call(_, nargs, _) => {
            s.append(IRInfo::from(&ir.op).name);
            s.append("/");
            push_decimal(s, *nargs as u64);
        },
        _ => {
            s.append(IRInfo::from(&ir.op).name);
        },
    }
    assert(s@ =~= start + opcode_text(ir.op));
    s.append(" ");
    push_operand(s, ir.lhs);
    s.append(", ");
    push_operand(s, ir.rhs);
    assert(s@ =~= start + offence_text(*ir));
}

/// A failed compilation with its diagnostic.
fn failed(dump: String, e: CompileError, culprit: Option<&IR>) -> (out: Compiled)
    ensures
        out.dump == dump,
        out.code == Err::<String, CompileError>(e),
        out.diagnostic@ == diagnostic_text(
            e,
            match culprit {
                Some(ir) => Some(*ir),
                None => None,
            },
        ),
{
    let mut diagnostic = e.to_string();
    match culprit {
        Some(ir) => {
            diagnostic.append(": ");
            push_offence(&mut diagnostic, ir);
            assert(diagnostic@ =~= error_text(e) + ": "@ + offence_text(*ir));
        },
        None => {},
    }
    Compiled { dump, code: Err(e), diagnostic }
}

/// The functions after the first passes: checked for their operands,
/// allocated, and vectorized if that is asked for; with the printed forms
/// that are asked for appended to `dump`.  Where a pass fails the functions
/// are as they came in.
fn lower_all(fns: &mut Vec<Function>, options: &Options, dump: &mut String) -> (r: Result<
    (),
    CompileError,
>)
    requires
        old(dump)@.len() == 0,
    ensures
        final(dump)@ == dumps(views(old(fns)@), *options),
        match r {
            Ok(_) => {
                &&& all_dumpable(views(old(fns)@))
                &&& lowered(views(old(fns)@), options.vectorize) == Some(views(final(fns)@))
                &&& final(fns).len() == old(fns).len()
            },
            Err(e) => {
                &&& *final(fns) == *old(fns)
                &&& match e {
                    CompileError::MissingOperand { function, instruction } => is_first_failing(
                        views(old(fns)@),
                        |ir: IR| dumpable(ir),
                        function as int,
                        instruction as int,
                    ),
                    CompileError::RegisterExhausted { function, instruction } => {
                        &&& all_dumpable(views(old(fns)@))
                        &&& function < old(fns).len()
                        &&& forall|k: int|
                            0 <= k < function ==> allocated(#[trigger] old(fns)[k].ir@) is Some
                        &&& instruction < old(fns)[function as int].ir.len()
                        &&& run(old(fns)[function as int].ir@, instruction as int) is Some
                        &&& run(old(fns)[function as int].ir@, instruction + 1) is None
                    },
                    _ => false,
                }
            },
        },
{
    let ghost input = views(fns@);
    match find_missing_operand(fns.as_slice()) {
        Some((function, instruction)) => {
            assert(dump@ =~= dumps(input, *options));
            return Err(CompileError::MissingOperand { function, instruction });
        },
        None => {},
    }
    if options.dump_ir1 {
        let text = dump_ir(fns.as_slice());
        dump.append(text.as_str());
    }
    assert(dump@ =~= dump_if(options.dump_ir1, input));
    assert(all_functions_present(input)) by {
        assert forall|k: int| 0 <= k < input.len() implies all_present(#[trigger] input[k].ir) by {
            assert forall|i: int| 0 <= i < input[k].ir.len() implies dumpable(
                #[trigger] input[k].ir[i],
            ) by {}
        }
    }
    match alloc_regs(fns) {
        Ok(_) => {},
        Err(e) => {
            return Err(
                CompileError::RegisterExhausted {
                    function: e.function,
                    instruction: e.instruction,
                },
            );
        },
    }
    let ghost done = views(fns@);
    let ghost done_fns = fns@;
    proof {
        assert forall|k: int, i: int|
            0 <= k < done.len() && 0 <= i < done[k].ir.len() implies dumpable(
            #[trigger] done[k].ir[i],
        ) by {
            assert(all_present(input[k].ir));
            lemma_allocated_present(input[k].ir);
            assert(done[k] == allocated_function(input[k]));
        }
    }
    if options.dump_ir2 {
        let text = dump_ir(fns.as_slice());
        dump.append(text.as_str());
    }
    optional_vectorize(fns, options.vectorize);
    let ghost last = views(fns@);
    if options.vectorize {
        proof {
            assert forall|k: int, i: int|
                0 <= k < last.len() && 0 <= i < last[k].ir.len() implies dumpable(
                #[trigger] last[k].ir[i],
            ) by {
                assert(done[k].ir == done_fns[k].ir@);
                assert(done_fns[k].ir.len() <= usize::MAX);
                lemma_vectorized_present(done[k].ir);
                assert(last[k] == vectorized_function(done[k]));
            }
        }
        if options.dump_ir3 {
            let text = dump_ir(fns.as_slice());
            dump.append(text.as_str());
        }
    }
    assert(dump@ =~= dumps(input, *options));
    assert(lowered(input, options.vectorize) == Some(last));
    assert(last.len() == input.len());
    Ok(())
}

/// Compiles the functions `fns` and the globals `globals` to assembly.
///
/// The instructions are checked for their operands, the registers are
/// allocated, the vectorizer runs if `options.vectorize` is set, the
/// result is checked for what the generator cannot write and for jumps to
/// labels that are not defined, and the assembly is generated, its
/// epilogue labels numbered from `label` on.  The first pass that fails
/// ends the compilation with its error and a diagnostic that names the
/// instruction, and `label` keeps its value.
pub fn compile(globals: Vec<Var>, fns: Vec<Function>, options: &Options, label: &mut usize) -> (out:
    Compiled)
    ensures
        out.dump@ == dumps(views(fns@), *options),
        match out.code {
            Ok(code) => {
                &&& all_dumpable(views(fns@))
                &&& lowered(views(fns@), options.vectorize) matches Some(last)
                &&& program_emittable(last)
                &&& labels_defined(last)
                &&& code@ == render(program_lines(globals@, last, *old(label) as int))
                &&& *final(label) == *old(label) + fns.len()
                &&& out.diagnostic@.len() == 0
            },
            Err(e) => {
                &&& *final(label) == *old(label)
                &&& out.diagnostic@ == diagnostic_text(
                    e,
                    culprit(e, views(fns@), options.vectorize),
                )
                &&& match e {
                    CompileError::MissingOperand { function, instruction } => is_first_failing(
                        views(fns@),
                        |ir: IR| dumpable(ir),
                        function as int,
                        instruction as int,
                    ),
                    CompileError::RegisterExhausted { function, instruction } => {
                        &&& all_dumpable(views(fns@))
                        &&& function < fns.len()
                        &&& forall|k: int|
                            0 <= k < function ==> allocated(#[trigger] fns[k].ir@) is Some
                        &&& instruction < fns[function as int].ir.len()
                        &&& run(fns[function as int].ir@, instruction as int) is Some
                        &&& run(fns[function as int].ir@, instruction + 1) is None
                    },
                    CompileError::FrameTooLarge { function } => {
                        &&& all_dumpable(views(fns@))
                        &&& lowered(views(fns@), options.vectorize) matches Some(last)
                        &&& function < last.len()
                        &&& forall|a: int|
                            0 <= a < function ==> function_emittable(#[trigger] last[a])
                        &&& last[function as int].stacksize + 63 > usize::MAX
                    },
                    CompileError::BadOperand { function, instruction } => {
                        &&& all_dumpable(views(fns@))
                        &&& lowered(views(fns@), options.vectorize) matches Some(last)
                        &&& function < last.len()
                        &&& forall|a: int|
                            0 <= a < function ==> function_emittable(#[trigger] last[a])
                        &&& last[function as int].stacksize + 63 <= usize::MAX
                        &&& instruction < last[function as int].ir.len()
                        &&& !emittable(last[function as int].ir[instruction as int])
                        &&& forall|b: int|
                            0 <= b < instruction ==> emittable(
                                #[trigger] last[function as int].ir[b],
                            )
                    },
                    CompileError::UndefinedLabel { function, instruction } => {
                        &&& all_dumpable(views(fns@))
                        &&& lowered(views(fns@), options.vectorize) matches Some(last)
                        &&& program_emittable(last)
                        &&& is_first_undefined(last, function as int, instruction as int)
                    },
                    CompileError::LabelOverflow => {
                        &&& all_dumpable(views(fns@))
                        &&& lowered(views(fns@), options.vectorize) matches Some(last)
                        &&& program_emittable(last)
                        &&& labels_defined(last)
                        &&& *old(label) + fns.len() > usize::MAX
                    },
                }
            },
        },
{
    let ghost input = views(fns@);
    let mut fns = fns;
    let mut dump = String::new();
    match lower_all(&mut fns, options, &mut dump) {
        Ok(_) => {},
        Err(e) => {
            return match e {
                CompileError::MissingOperand { function, instruction } => {
                    assert(input[function as int].ir[instruction as int]
                        == fns[function as int].ir[instruction as int]);
                    failed(dump, e, Some(&fns[function].ir[instruction]))
                },
                CompileError::RegisterExhausted { function, instruction } => {
                    assert(input[function as int].ir[instruction as int]
                        == fns[function as int].ir[instruction as int]);
                    failed(dump, e, Some(&fns[function].ir[instruction]))
                },
                _ => failed(dump, e, None),
            };
        },
    }
    let ghost last = views(fns@);
    match find_obstacle(fns.as_slice()) {
        Some(Obstacle::Frame(function)) => {
            return failed(dump, CompileError::FrameTooLarge { function }, None);
        },
        Some(Obstacle::Operand(function, instruction)) => {
            assert(last[function as int].ir[instruction as int]
                == fns[function as int].ir[instruction as int]);
            return failed(
                dump,
                CompileError::BadOperand { function, instruction },
                Some(&fns[function].ir[instruction]),
            );
        },
        None => {},
    }
    match find_undefined_label(fns.as_slice()) {
        Some((function, instruction)) => {
            assert(last[function as int].ir[instruction as int]
                == fns[function as int].ir[instruction as int]);
            return failed(
                dump,
                CompileError::UndefinedLabel { function, instruction },
                Some(&fns[function].ir[instruction]),
            );
        },
        None => {},
    }
    if fns.len() > usize::MAX - *label {
        return failed(dump, CompileError::LabelOverflow, None);
    }
    let code = gen_x86(globals, fns, label);
    Compiled { dump, code: Ok(code), diagnostic: String::new() }
}

/// How far below the frame pointer the instruction `ir` reaches: the
/// depth of the frame slot that it addresses, 0 if it addresses none
/// below the frame pointer.
pub open spec fn frame_reach(ir: IR) -> int {
    let offset = match ir.op {
        IROp::Bprel => imm32(operand_of(ir.rhs) as int),
        IROp::StoreArg(_) => imm32(operand_of(ir.lhs) as int),
        _ => 0,
    };
    if offset < 0 {
        -offset
    } else {
        0
    }
}

/// The size of the frame that the instructions `irs` address: the
/// greatest depth of a frame slot among them.
pub open spec fn frame_extent(irs: Seq<IR>) -> int
    decreases irs.len(),
{
    if irs.len() == 0 {
        0
    } else if frame_reach(irs.last()) > frame_extent(irs.drop_last()) {
        frame_reach(irs.last())
    } else {
        frame_extent(irs.drop_last())
    }
}

/// The frame extent covers every slot, and is the depth of one of them
/// unless it is 0.
pub proof fn lemma_frame_extent(irs: Seq<IR>)
    ensures
        0 <= frame_extent(irs) <= 0x8000_0000,
        forall|i: int| 0 <= i < irs.len() ==> frame_reach(#[trigger] irs[i]) <= frame_extent(irs),
        frame_extent(irs) > 0 ==> exists|i: int|
            0 <= i < irs.len() && frame_reach(#[trigger] irs[i]) == frame_extent(irs),
    decreases irs.len(),
{
    if irs.len() > 0 {
        let front = irs.drop_last();
        lemma_frame_extent(front);
        assert forall|i: int| 0 <= i < irs.len() implies frame_reach(#[trigger] irs[i])
            <= frame_extent(irs) by {
            if i < front.len() {
                assert(front[i] == irs[i]);
            }
        }
        if frame_extent(irs) > 0 {
            if frame_reach(irs.last()) > frame_extent(front) {
                assert(frame_reach(irs[irs.len() - 1]) == frame_extent(irs));
            } else {
                let i = choose|i: int|
                    0 <= i < front.len() && frame_reach(#[trigger] front[i]) == frame_extent(front);
                assert(front[i] == irs[i]);
            }
        }
    }
}

/// How far below the frame pointer `ir` reaches.
fn reach(ir: &IR) -> (r: usize)
    ensures
        r == frame_reach(*ir),
{
    let offset = match &ir.op {
        IROp::Bprel => ir.rhs,
        IROp::StoreArg(_) => ir.lhs,
        _ => None,
    };
    match offset {
        Some(x) => {
            let low: u64 = (x as u64) % 0x1_0000_0000;
            if low < 0x8000_0000 {
                0
            } else {
                (0x1_0000_0000 - low) as usize
            }
        },
        None => 0,
    }
}

/// The size of the frame that the instructions `ir` address.
pub fn frame_needed(ir: &[IR]) -> (size: usize)
    ensures
        size == frame_extent(ir@),
{
    let mut size: usize = 0;
    let mut i: usize = 0;
    assert(ir@.take(0) =~= Seq::<IR>::empty());
    while i < ir.len()
        invariant
            i <= ir.len(),
            size == frame_extent(ir@.take(i as int)),
        decreases ir.len() - i,
    {
        let r = reach(&ir[i]);
        proof {
            let next = ir@.take(i + 1);
            assert(next.drop_last() =~= ir@.take(i as int));
            assert(next.last() == ir@[i as int]);
        }
        if r > size {
            size = r;
        }
        i += 1;
    }
    assert(ir@.take(i as int) =~= ir@);
    size
}

/// Gives every function the frame that its instructions address.
pub fn assign_frames(fns: &mut Vec<Function>)
    ensures
        final(fns).len() == old(fns).len(),
        forall|k: int|
            0 <= k < old(fns).len() ==> {
                &&& (#[trigger] final(fns)[k]).name == old(fns)[k].name
                &&& final(fns)[k].ir == old(fns)[k].ir
                &&& final(fns)[k].stacksize == frame_extent(old(fns)[k].ir@)
            },
{
    let mut k: usize = 0;
    while k < fns.len()
        invariant
            k <= fns.len(),
            fns.len() == old(fns).len(),
            forall|j: int|
                0 <= j < k ==> {
                    &&& (#[trigger] fns[j]).name == old(fns)[j].name
                    &&& fns[j].ir == old(fns)[j].ir
                    &&& fns[j].stacksize == frame_extent(old(fns)[j].ir@)
                },
            forall|j: int| k <= j < fns.len() ==> fns[j] == old(fns)[j],
        decreases fns.len() - k,
    {
        let size = frame_needed(fns[k].ir.as_slice());
        fns[k].stacksize = size;
        k += 1;
    }
}

/// What is said of an error by itself: the rule that is broken, and
/// where.
pub open spec fn error_text(e: CompileError) -> Seq<char> {
    match e {
        CompileError::MissingOperand { function, instruction } => "missing operand"@ + place_text(
            function,
            instruction,
        ),
        CompileError::RegisterExhausted { function, instruction } => "register exhausted"@
            + place_text(function, instruction),
        CompileError::FrameTooLarge { function } => "frame too large in function "@ + decimal(
            function as nat,
        ),
        CompileError::BadOperand { function, instruction } => "bad operand"@ + place_text(
            function,
            instruction,
        ),
        CompileError::UndefinedLabel { function, instruction } => "undefined label"@
            + place_text(function, instruction),
        CompileError::LabelOverflow => "too many labels"@,
    }
}

/// How the place of an instruction is named.
pub open spec fn place_text(function: usize, instruction: usize) -> Seq<char> {
    " in function "@ + decimal(function as nat) + " at instruction "@ + decimal(
        instruction as nat,
    )
}

/// Appends the name of a place.
fn push_place(s: &mut String, function: usize, instruction: usize)
    ensures
        final(s)@ == old(s)@ + place_text(function, instruction),
{
    s.append(" in function ");
    push_decimal(s, function as u64);
    s.append(" at instruction ");
    push_decimal(s, instruction as u64);
    assert(final(s)@ =~= old(s)@ + place_text(function, instruction));
}

impl CompileError {
    /// What is said of the error: the rule that is broken, and where.
    pub fn to_string(&self) -> (s: String)
        ensures
            s@ == error_text(*self),
    {
        match self {
            CompileError::MissingOperand { function, instruction } => {
                let mut s = String::from_str("missing operand");
                push_place(&mut s, *function, *instruction);
                s
            },
            CompileError::RegisterExhausted { function, instruction } => {
                let mut s = String::from_str("register exhausted");
                push_place(&mut s, *function, *instruction);
                s
            },
            CompileError::FrameTooLarge { function } => {
                let mut s = String::from_str("frame too large in function ");
                push_decimal(&mut s, *function as u64);
                s
            },
            CompileError::BadOperand { function, instruction } => {
                let mut s = String::from_str("bad operand");
                push_place(&mut s, *function, *instruction);
                s
            },
            CompileError::UndefinedLabel { function, instruction } => {
                let mut s = String::from_str("undefined label");
                push_place(&mut s, *function, *instruction);
                s
            },
            CompileError::LabelOverflow => String::from_str("too many labels"),
        }
    }
}

} // verus!
