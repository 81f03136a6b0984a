//! Printing the IR in a readable form.

use vstd::prelude::*;
use crate::gen_ir::{views, Function, FunctionView, IROp, IRType, IR};
use crate::text::{decimal, imm32, push_decimal, push_imm32, signed_decimal};

verus! {

/// How an operation is printed: its mnemonic and the shape of its operands.
#[derive(Clone, Debug)]
pub struct IRInfo {
    pub name: &'static str,
    pub ty: IRType,
}

/// The mnemonic of an operation.
pub open spec fn mnemonic(op: IROp) -> &'static str {
    match op {
        IROp::Add => "ADD",
        IROp::AddImm => "ADD",
        IROp::Call(_, _, _) => "CALL",
        IROp::Div => "DIV",
        IROp::Imm => "MOV",
        IROp::Jmp => "JMP",
        IROp::Kill => "KILL",
        IROp::Label => "",
        IROp::LabelAddr(_) => "LABEL_ADDR",
        IROp::EQ => "EQ",
        IROp::NE => "NE",
        IROp::LE => "LE",
        IROp::LT => "LT",
        IROp::AND => "AND",
        IROp::OR => "OR",
        IROp::XOR => "XOR",
        IROp::SHL => "SHL",
        IROp::SHR => "SHR",
        IROp::Mod => "MOD",
        IROp::Neg => "NEG",
        IROp::Load(_) => "LOAD",
        IROp::Mov => "MOV",
        IROp::Mul => "MUL",
        IROp::MulImm => "MUL",
        IROp::Nop => "NOP",
        IROp::Return => "RET",
        IROp::Store(_) => "STORE",
        IROp::StoreArg(_) => "STORE_ARG",
        IROp::Sub => "SUB",
        IROp::SubImm => "SUB",
        IROp::Bprel => "BPREL",
        IROp::If => "IF",
        IROp::Unless => "UNLESS",
        IROp::AVX512Add => "AVX512_ADD",
        IROp::AVX512Sub => "AVX512_SUB",
        IROp::AVX512Mul => "AVX512_MUL",
        IROp::AVX512Div => "AVX512_DIV",
        IROp::AVX512Load => "AVX512_LOAD",
        IROp::AVX512LoadStack => "AVX512_LOAD_STACK",
        IROp::AVX512Store => "AVX512_STORE",
        IROp::AVX512StoreStack => "AVX512_STORE_STACK",
        IROp::AVX512Mov => "AVX512_MOV",
        IROp::AVX512Addi => "AVX512_ADDI",
        IROp::AVX512Subi => "AVX512_SUBI",
        IROp::AVX512Muli => "AVX512_MULI",
        IROp::AVX512Loadi => "AVX512_LOADI",
        IROp::AVX512Storei => "AVX512_STOREI",
        IROp::AVX512Movi => "AVX512_MOVI",
        IROp::AVX512Zero => "AVX512_ZERO",
        IROp::AVX512Set1 => "AVX512_SET1",
        IROp::AVX512Set1i => "AVX512_SET1I",
        IROp::AVX512Cmplt => "AVX512_CMPLT",
        IROp::AVX512Cmple => "AVX512_CMPLE",
        IROp::AVX512Cmpeq => "AVX512_CMPEQ",
        IROp::AVX512MaskMove => "AVX512_MASK_MOV",
        IROp::AVX512MaskLoad => "AVX512_MASK_LOAD",
        IROp::AVX512MaskStore => "AVX512_MASK_STORE",
        IROp::AVX512Cvtdq2pd => "AVX512_CVTDQ2PD",
        IROp::AVX512Cvtpd2dq => "AVX512_CVTPD2DQ",
        IROp::AVX512Extract => "AVX512_EXTRACT",
        IROp::AVX512Insert => "AVX512_INSERT",
        IROp::AVX512FMA => "AVX512_FMA",
        IROp::AVX512Sqrt => "AVX512_SQRT",
        IROp::AVX512And => "AVX512_AND",
        IROp::AVX512Max => "AVX512_MAX",
        IROp::AVX512Min => "AVX512_MIN",
    }
}

/// The operand shape of an operation.
pub open spec fn op_type(op: IROp) -> IRType {
    match op {
        IROp::Add => IRType::RegReg,
        IROp::AddImm => IRType::RegImm,
        IROp::Call(_, _, _) => IRType::Call,
        IROp::Div => IRType::RegReg,
        IROp::Imm => IRType::RegImm,
        IROp::Jmp => IRType::Jmp,
        IROp::Kill => IRType::Reg,
        IROp::Label => IRType::Label,
        IROp::LabelAddr(_) => IRType::LabelAddr,
        IROp::EQ => IRType::RegReg,
        IROp::NE => IRType::RegReg,
        IROp::LE => IRType::RegReg,
        IROp::LT => IRType::RegReg,
        IROp::AND => IRType::RegReg,
        IROp::OR => IRType::RegReg,
        IROp::XOR => IRType::RegReg,
        IROp::SHL => IRType::RegReg,
        IROp::SHR => IRType::RegReg,
        IROp::Mod => IRType::RegReg,
        IROp::Neg => IRType::Reg,
        IROp::Load(_) => IRType::Mem,
        IROp::Mov => IRType::RegReg,
        IROp::Mul => IRType::RegReg,
        IROp::MulImm => IRType::RegImm,
        IROp::Nop => IRType::Noarg,
        IROp::Return => IRType::Reg,
        IROp::Store(_) => IRType::Mem,
        IROp::StoreArg(_) => IRType::StoreArg,
        IROp::Sub => IRType::RegReg,
        IROp::SubImm => IRType::RegImm,
        IROp::Bprel => IRType::RegImm,
        IROp::If => IRType::RegLabel,
        IROp::Unless => IRType::RegLabel,
        IROp::AVX512Add => IRType::RegReg,
        IROp::AVX512Sub => IRType::RegReg,
        IROp::AVX512Mul => IRType::RegReg,
        IROp::AVX512Div => IRType::RegReg,
        IROp::AVX512Load => IRType::Mem,
        IROp::AVX512LoadStack => IRType::Reg,
        IROp::AVX512Store => IRType::Mem,
        IROp::AVX512StoreStack => IRType::RegReg,
        IROp::AVX512Mov => IRType::RegReg,
        IROp::AVX512Addi => IRType::RegReg,
        IROp::AVX512Subi => IRType::RegReg,
        IROp::AVX512Muli => IRType::RegReg,
        IROp::AVX512Loadi => IRType::Mem,
        IROp::AVX512Storei => IRType::Mem,
        IROp::AVX512Movi => IRType::RegReg,
        IROp::AVX512Zero => IRType::Reg,
        IROp::AVX512Set1 => IRType::RegReg,
        IROp::AVX512Set1i => IRType::RegReg,
        IROp::AVX512Cmplt => IRType::RegReg,
        IROp::AVX512Cmple => IRType::RegReg,
        IROp::AVX512Cmpeq => IRType::RegReg,
        IROp::AVX512MaskMove => IRType::RegReg,
        IROp::AVX512MaskLoad => IRType::Mem,
        IROp::AVX512MaskStore => IRType::Mem,
        IROp::AVX512Cvtdq2pd => IRType::RegReg,
        IROp::AVX512Cvtpd2dq => IRType::RegReg,
        IROp::AVX512Extract => IRType::RegReg,
        IROp::AVX512Insert => IRType::RegReg,
        IROp::AVX512FMA => IRType::RegReg,
        IROp::AVX512Sqrt => IRType::Reg,
        IROp::AVX512And => IRType::Reg,
        IROp::AVX512Max => IRType::Reg,
        IROp::AVX512Min => IRType::Reg,
    }
}

impl IRInfo {
    /// The description with the given mnemonic and operand shape.
    pub fn new(name: &'static str, ty: IRType) -> (info: IRInfo)
        ensures
            info.name == name,
            info.ty == ty,
    {
        IRInfo { name, ty }
    }

    /// The mnemonic and operand shape of `op`.
    pub fn from(op: &IROp) -> (info: IRInfo)
        ensures
            info.name == mnemonic(*op),
            info.ty == op_type(*op),
    {
        match op {
            IROp::Add => IRInfo::new("ADD", IRType::RegReg),
            IROp::AddImm => IRInfo::new("ADD", IRType::RegImm),
            IROp::Call(_, _, _) => IRInfo::new("CALL", IRType::Call),
            IROp::Div => IRInfo::new("DIV", IRType::RegReg),
            IROp::Imm => IRInfo::new("MOV", IRType::RegImm),
            IROp::Jmp => IRInfo::new("JMP", IRType::Jmp),
            IROp::Kill => IRInfo::new("KILL", IRType::Reg),
            IROp::Label => IRInfo::new("", IRType::Label),
            IROp::LabelAddr(_) => IRInfo::new("LABEL_ADDR", IRType::LabelAddr),
            IROp::EQ => IRInfo::new("EQ", IRType::RegReg),
            IROp::NE => IRInfo::new("NE", IRType::RegReg),
            IROp::LE => IRInfo::new("LE", IRType::RegReg),
            IROp::LT => IRInfo::new("LT", IRType::RegReg),
            IROp::AND => IRInfo::new("AND", IRType::RegReg),
            IROp::OR => IRInfo::new("OR", IRType::RegReg),
            IROp::XOR => IRInfo::new("XOR", IRType::RegReg),
            IROp::SHL => IRInfo::new("SHL", IRType::RegReg),
            IROp::SHR => IRInfo::new("SHR", IRType::RegReg),
            IROp::Mod => IRInfo::new("MOD", IRType::RegReg),
            IROp::Neg => IRInfo::new("NEG", IRType::Reg),
            IROp::Load(_) => IRInfo::new("LOAD", IRType::Mem),
            IROp::Mov => IRInfo::new("MOV", IRType::RegReg),
            IROp::Mul => IRInfo::new("MUL", IRType::RegReg),
            IROp::MulImm => IRInfo::new("MUL", IRType::RegImm),
            IROp::Nop => IRInfo::new("NOP", IRType::Noarg),
            IROp::Return => IRInfo::new("RET", IRType::Reg),
            IROp::Store(_) => IRInfo::new("STORE", IRType::Mem),
            IROp::StoreArg(_) => IRInfo::new("STORE_ARG", IRType::StoreArg),
            IROp::Sub => IRInfo::new("SUB", IRType::RegReg),
            IROp::SubImm => IRInfo::new("SUB", IRType::RegImm),
            IROp::Bprel => IRInfo::new("BPREL", IRType::RegImm),
            IROp::If => IRInfo::new("IF", IRType::RegLabel),
            IROp::Unless => IRInfo::new("UNLESS", IRType::RegLabel),
            IROp::AVX512Add => IRInfo::new("AVX512_ADD", IRType::RegReg),
            IROp::AVX512Sub => IRInfo::new("AVX512_SUB", IRType::RegReg),
            IROp::AVX512Mul => IRInfo::new("AVX512_MUL", IRType::RegReg),
            IROp::AVX512Div => IRInfo::new("AVX512_DIV", IRType::RegReg),
            IROp::AVX512Load => IRInfo::new("AVX512_LOAD", IRType::Mem),
            IROp::AVX512LoadStack => IRInfo::new("AVX512_LOAD_STACK", IRType::Reg),
            IROp::AVX512Store => IRInfo::new("AVX512_STORE", IRType::Mem),
            IROp::AVX512StoreStack => IRInfo::new("AVX512_STORE_STACK", IRType::RegReg),
            IROp::AVX512Mov => IRInfo::new("AVX512_MOV", IRType::RegReg),
            IROp::AVX512Addi => IRInfo::new("AVX512_ADDI", IRType::RegReg),
            IROp::AVX512Subi => IRInfo::new("AVX512_SUBI", IRType::RegReg),
            IROp::AVX512Muli => IRInfo::new("AVX512_MULI", IRType::RegReg),
            IROp::AVX512Loadi => IRInfo::new("AVX512_LOADI", IRType::Mem),
            IROp::AVX512Storei => IRInfo::new("AVX512_STOREI", IRType::Mem),
            IROp::AVX512Movi => IRInfo::new("AVX512_MOVI", IRType::RegReg),
            IROp::AVX512Zero => IRInfo::new("AVX512_ZERO", IRType::Reg),
            IROp::AVX512Set1 => IRInfo::new("AVX512_SET1", IRType::RegReg),
            IROp::AVX512Set1i => IRInfo::new("AVX512_SET1I", IRType::RegReg),
            IROp::AVX512Cmplt => IRInfo::new("AVX512_CMPLT", IRType::RegReg),
            IROp::AVX512Cmple => IRInfo::new("AVX512_CMPLE", IRType::RegReg),
            IROp::AVX512Cmpeq => IRInfo::new("AVX512_CMPEQ", IRType::RegReg),
            IROp::AVX512MaskMove => IRInfo::new("AVX512_MASK_MOV", IRType::RegReg),
            IROp::AVX512MaskLoad => IRInfo::new("AVX512_MASK_LOAD", IRType::Mem),
            IROp::AVX512MaskStore => IRInfo::new("AVX512_MASK_STORE", IRType::Mem),
            IROp::AVX512Cvtdq2pd => IRInfo::new("AVX512_CVTDQ2PD", IRType::RegReg),
            IROp::AVX512Cvtpd2dq => IRInfo::new("AVX512_CVTPD2DQ", IRType::RegReg),
            IROp::AVX512Extract => IRInfo::new("AVX512_EXTRACT", IRType::RegReg),
            IROp::AVX512Insert => IRInfo::new("AVX512_INSERT", IRType::RegReg),
            IROp::AVX512FMA => IRInfo::new("AVX512_FMA", IRType::RegReg),
            IROp::AVX512Sqrt => IRInfo::new("AVX512_SQRT", IRType::Reg),
            IROp::AVX512And => IRInfo::new("AVX512_AND", IRType::Reg),
            IROp::AVX512Max => IRInfo::new("AVX512_MAX", IRType::Reg),
            IROp::AVX512Min => IRInfo::new("AVX512_MIN", IRType::Reg),
        }
    }
}


impl<'a> From<&'a IROp> for IRInfo {
    fn from(op: &'a IROp) -> (info: IRInfo) {
        IRInfo::from(op)
    }
}

impl<'a> vstd::std_specs::convert::FromSpecImpl<&'a IROp> for IRInfo {
    open spec fn obeys_from_spec() -> bool {
        true
    }

    open spec fn from_spec(op: &'a IROp) -> IRInfo {
        IRInfo { name: mnemonic(*op), ty: op_type(*op) }
    }
}

/// The operand, 0 where there is none.
pub open spec fn operand_of(x: Option<usize>) -> usize {
    match x {
        Some(v) => v,
        None => 0,
    }
}

/// How the register with number `r` is printed.
pub open spec fn reg_text(r: usize) -> Seq<char> {
    "r"@ + decimal(r as nat)
}

/// How the label with number `n` is printed.
pub open spec fn label_text(n: usize) -> Seq<char> {
    ".L"@ + decimal(n as nat)
}

/// The first `n` argument registers of a call, separated by commas.
pub open spec fn call_args_text(args: Seq<usize>, n: int) -> Seq<char>
    decreases n,
{
    if n <= 0 {
        Seq::empty()
    } else if n == 1 {
        reg_text(args[0])
    } else {
        call_args_text(args, n - 1) + ", "@ + reg_text(args[n - 1])
    }
}

/// The number of arguments of a call that are printed.
pub open spec fn printed_args(nargs: usize) -> int {
    if nargs <= 6 {
        nargs as int
    } else {
        6
    }
}

/// Whether the operands that the shape of `ir` asks for are there.
pub open spec fn dumpable(ir: IR) -> bool {
    match op_type(ir.op) {
        IRType::Noarg => true,
        IRType::Label | IRType::Imm | IRType::Reg | IRType::Jmp | IRType::LabelAddr
        | IRType::Call => ir.lhs is Some,
        IRType::RegReg | IRType::Mem | IRType::StoreArg | IRType::RegImm | IRType::RegLabel => {
            ir.lhs is Some && ir.rhs is Some
        },
    }
}

/// The printed form of one instruction, without a line feed.
pub open spec fn ir_text(ir: IR) -> Seq<char> {
    let name = mnemonic(ir.op)@;
    let l = operand_of(ir.lhs);
    let r = operand_of(ir.rhs);
    match ir.op {
        IROp::LabelAddr(label) => "  "@ + name + " "@ + reg_text(l) + ", "@ + label@,
        IROp::Load(size) | IROp::Store(size) => "  "@ + name + decimal(size as nat) + " "@
            + reg_text(l) + ", "@ + reg_text(r),
        IROp::StoreArg(size) => "  "@ + name + decimal(size as nat) + " "@ + signed_decimal(
            imm32(l as int),
        ) + ", "@ + reg_text(r),
        IROp::Call(callee, nargs, args) => "  "@ + reg_text(l) + " = "@ + callee@ + "("@
            + call_args_text(args@, printed_args(nargs)) + ")"@,
        _ => match op_type(ir.op) {
            IRType::Label => label_text(l) + ":"@,
            IRType::Imm => "  "@ + name + " "@ + decimal(l as nat),
            IRType::Reg => "  "@ + name + " "@ + reg_text(l),
            IRType::Jmp => "  "@ + name + " "@ + label_text(l),
            IRType::RegReg | IRType::Mem => "  "@ + name + " "@ + reg_text(l) + ", "@ + reg_text(
                r,
            ),
            IRType::RegImm => "  "@ + name + " "@ + reg_text(l) + ", "@ + signed_decimal(
                imm32(r as int),
            ),
            IRType::RegLabel => "  "@ + name + " "@ + reg_text(l) + ", "@ + label_text(r),
            _ => "  "@ + name,
        },
    }
}

fn push_reg(s: &mut String, r: usize)
    ensures
        final(s)@ == old(s)@ + reg_text(r),
{
    s.append("r");
    push_decimal(s, r as u64);
    assert(final(s)@ =~= old(s)@ + reg_text(r));
}

fn push_label(s: &mut String, n: usize)
    ensures
        final(s)@ == old(s)@ + label_text(n),
{
    s.append(".L");
    push_decimal(s, n as u64);
    assert(final(s)@ =~= old(s)@ + label_text(n));
}

fn push_call_args(s: &mut String, args: &[usize; 6], nargs: usize)
    ensures
        final(s)@ == old(s)@ + call_args_text(args@, printed_args(nargs)),
{
    let n: usize = if nargs <= 6 {
        nargs
    } else {
        6
    };
    let mut i: usize = 0;
    assert(s@ =~= old(s)@ + call_args_text(args@, 0));
    while i < n
        invariant
            i <= n <= 6,
            s@ == old(s)@ + call_args_text(args@, i as int),
        decreases n - i,
    {
        if i != 0 {
            s.append(", ");
        }
        push_reg(s, args[i]);
        assert(s@ =~= old(s)@ + call_args_text(args@, i + 1));
        i += 1;
    }
}

fn operand(x: Option<usize>) -> (v: usize)
    ensures
        v == operand_of(x),
{
    match x {
        Some(y) => y,
        None => 0,
    }
}

/// Whether the operands that the shape of `ir` asks for are there.
pub fn is_dumpable(ir: &IR) -> (b: bool)
    ensures
        b == dumpable(*ir),
{
    let info = IRInfo::from(&ir.op);
    match info.ty {
        IRType::Noarg => true,
        IRType::Label | IRType::Imm | IRType::Reg | IRType::Jmp | IRType::LabelAddr
        | IRType::Call => ir.lhs.is_some(),
        IRType::RegReg | IRType::Mem | IRType::StoreArg | IRType::RegImm | IRType::RegLabel => {
            ir.lhs.is_some() && ir.rhs.is_some()
        },
    }
}

impl IR {
    /// The printed form of the instruction, without a line feed.
    pub fn to_string(&self) -> (s: String)
        requires
            dumpable(*self),
        ensures
            s@ == ir_text(*self),
    {
        let info = IRInfo::from(&self.op);
        let lhs = operand(self.lhs);
        let rhs = operand(self.rhs);
        let mut s = String::new();
        match &self.op {
            IROp::LabelAddr(label) => {
                s.append("  ");
                s.append(info.name);
                s.append(" ");
                push_reg(&mut s, lhs);
                s.append(", ");
                s.append(label.as_str());
            },
            IROp::Load(size) | IROp::Store(size) => {
                s.append("  ");
                s.append(info.name);
                push_decimal(&mut s, *size as u64);
                s.append(" ");
                push_reg(&mut s, lhs);
                s.append(", ");
                push_reg(&mut s, rhs);
            },
            IROp::StoreArg(size) => {
                s.append("  ");
                s.append(info.name);
                push_decimal(&mut s, *size as u64);
                s.append(" ");
                push_imm32(&mut s, lhs);
                s.append(", ");
                push_reg(&mut s, rhs);
            },
            IROp::Call(callee, nargs, args) => {
                s.append("  ");
                push_reg(&mut s, lhs);
                s.append(" = ");
                s.append(callee.as_str());
                s.append("(");
                push_call_args(&mut s, args, *nargs);
                s.append(")");
            },
            _ => {
                match info.ty {
                    IRType::Label => {
                        push_label(&mut s, lhs);
                        s.append(":");
                    },
                    IRType::Imm => {
                        s.append("  ");
                        s.append(info.name);
                        s.append(" ");
                        push_decimal(&mut s, lhs as u64);
                    },
                    IRType::Reg => {
                        s.append("  ");
                        s.append(info.name);
                        s.append(" ");
                        push_reg(&mut s, lhs);
                    },
                    IRType::Jmp => {
                        s.append("  ");
                        s.append(info.name);
                        s.append(" ");
                        push_label(&mut s, lhs);
                    },
                    IRType::RegReg | IRType::Mem => {
                        s.append("  ");
                        s.append(info.name);
                        s.append(" ");
                        push_reg(&mut s, lhs);
                        s.append(", ");
                        push_reg(&mut s, rhs);
                    },
                    IRType::RegImm => {
                        s.append("  ");
                        s.append(info.name);
                        s.append(" ");
                        push_reg(&mut s, lhs);
                        s.append(", ");
                        push_imm32(&mut s, rhs);
                    },
                    IRType::RegLabel => {
                        s.append("  ");
                        s.append(info.name);
                        s.append(" ");
                        push_reg(&mut s, lhs);
                        s.append(", ");
                        push_label(&mut s, rhs);
                    },
                    _ => {
                        s.append("  ");
                        s.append(info.name);
                    },
                }
            },
        }
        assert(s@ =~= ir_text(*self));
        s
    }
}

/// The printed form of the instructions `irs`, one per line.
pub open spec fn body_text(irs: Seq<IR>) -> Seq<char>
    decreases irs.len(),
{
    if irs.len() == 0 {
        Seq::empty()
    } else {
        body_text(irs.drop_last()) + ir_text(irs.last()) + "\n"@
    }
}

/// The printed form of a function: a line with its name, then its
/// instructions.
pub open spec fn function_text(f: FunctionView) -> Seq<char> {
    f.name + "(): \n"@ + body_text(f.ir)
}

/// The printed form of the functions `fns`, in order.
pub open spec fn dump_text(fns: Seq<FunctionView>) -> Seq<char>
    decreases fns.len(),
{
    if fns.len() == 0 {
        Seq::empty()
    } else {
        dump_text(fns.drop_last()) + function_text(fns.last())
    }
}

/// Whether every instruction of every function of `fns` can be printed.
pub open spec fn all_dumpable(fns: Seq<FunctionView>) -> bool {
    forall|k: int, i: int|
        0 <= k < fns.len() && 0 <= i < fns[k].ir.len() ==> dumpable(#[trigger] fns[k].ir[i])
}

fn dump_function(out: &mut String, f: &Function)
    requires
        forall|i: int| 0 <= i < f.ir.len() ==> dumpable(#[trigger] f.ir[i]),
    ensures
        final(out)@ == old(out)@ + function_text(f@),
{
    out.append(f.name.as_str());
    out.append("(): \n");
    let ghost start = out@;
    let mut i: usize = 0;
    assert(f.ir@.take(0) =~= Seq::<IR>::empty());
    assert(out@ =~= start + body_text(f.ir@.take(0)));
    while i < f.ir.len()
        invariant
            i <= f.ir.len(),
            forall|i: int| 0 <= i < f.ir.len() ==> dumpable(#[trigger] f.ir[i]),
            out@ == start + body_text(f.ir@.take(i as int)),
        decreases f.ir.len() - i,
    {
        let line = f.ir[i].to_string();
        out.append(line.as_str());
        out.append("\n");
        proof {
            let next = f.ir@.take(i + 1);
            assert(next.drop_last() =~= f.ir@.take(i as int));
            assert(next.last() == f.ir@[i as int]);
            assert(out@ =~= start + body_text(next));
        }
        i += 1;
    }
    proof {
        assert(f.ir@.take(i as int) =~= f.ir@);
        assert(out@ =~= old(out)@ + function_text(f@));
    }
}

/// The printed form of the functions `fns`: for each a line with its name,
/// then its instructions, one per line.
pub fn dump_ir(fns: &[Function]) -> (out: String)
    requires
        all_dumpable(views(fns@)),
    ensures
        out@ == dump_text(views(fns@)),
{
    let mut out = String::new();
    let mut k: usize = 0;
    let ghost all = views(fns@);
    assert(all.take(0) =~= Seq::<FunctionView>::empty());
    while k < fns.len()
        invariant
            k <= fns.len(),
            all == views(fns@),
            all_dumpable(all),
            out@ == dump_text(all.take(k as int)),
        decreases fns.len() - k,
    {
        assert forall|i: int| 0 <= i < fns[k as int].ir.len() implies dumpable(
            #[trigger] fns[k as int].ir[i],
        ) by {
            assert(dumpable(all[k as int].ir[i]));
        }
        dump_function(&mut out, &fns[k]);
        proof {
            let next = all.take(k + 1);
            assert(next.drop_last() =~= all.take(k as int));
            assert(next.last() == fns@[k as int]@);
        }
        k += 1;
    }
    proof {
        assert(all.take(k as int) =~= all);
    }
    out
}

} // verus!
