//! The intermediate representation: a flat list of three-address
//! instructions per function.  [`gen_ir`] makes it of a syntax tree.

use vstd::prelude::*;

pub use crate::lower::gen_ir;

verus! {

/// Operation of an IR instruction.
#[derive(Clone, Debug, PartialEq, Eq)]
pub enum IROp {
    Add,
    AddImm,
    Sub,
    SubImm,
    Mul,
    MulImm,
    Div,
    Imm,
    Bprel,
    Mov,
    Return,
    /// Callee name, number of arguments, argument registers.
    Call(String, usize, [usize; 6]),
    Label,
    /// Name of the global whose address is taken.
    LabelAddr(String),
    EQ,
    NE,
    LE,
    LT,
    AND,
    OR,
    XOR,
    SHL,
    SHR,
    Mod,
    Neg,
    Jmp,
    If,
    Unless,
    /// Width of the access in bytes.
    Load(u8),
    /// Width of the access in bytes.
    Store(u8),
    /// Width of the access in bytes.
    StoreArg(u8),
    Kill,
    Nop,
    AVX512Add,
    AVX512Sub,
    AVX512Mul,
    AVX512Div,
    /// A vector load from the address in the right register.
    AVX512Load,
    /// A vector load from the stack slot of the left register.
    AVX512LoadStack,
    /// A vector store to the address in the left register.
    AVX512Store,
    /// A vector store of the right register to the stack slot with the
    /// number of the left operand.
    AVX512StoreStack,
    AVX512Mov,
    AVX512Addi,
    AVX512Subi,
    AVX512Muli,
    AVX512Loadi,
    AVX512Storei,
    AVX512Movi,
    AVX512Zero,
    AVX512Set1,
    AVX512Set1i,
    AVX512Cmplt,
    AVX512Cmple,
    AVX512Cmpeq,
    AVX512MaskMove,
    AVX512MaskLoad,
    AVX512MaskStore,
    AVX512Cvtdq2pd,
    AVX512Cvtpd2dq,
    AVX512Extract,
    AVX512Insert,
    AVX512FMA,
    AVX512Sqrt,
    AVX512And,
    AVX512Max,
    AVX512Min,
}

/// The shape of the operands of an operation.
#[derive(Clone, Copy, Debug, PartialEq, Eq, Structural)]
pub enum IRType {
    /// No operand.
    Noarg,
    /// `lhs` is a register.
    Reg,
    /// `lhs` is a number.
    Imm,
    /// `lhs` and `rhs` are registers, one of them holding an address.
    Mem,
    /// `lhs` is the label to jump to.
    Jmp,
    /// `lhs` is the label defined here.
    Label,
    /// `lhs` is a register; the operation carries a name.
    LabelAddr,
    /// `lhs` and `rhs` are registers.
    RegReg,
    /// `lhs` is a register, `rhs` an immediate or a frame offset.
    RegImm,
    /// `lhs` is a frame offset, `rhs` the index of an argument register.
    StoreArg,
    /// `lhs` is a register, `rhs` a label.
    RegLabel,
    /// `lhs` is the register of the result; the operation carries the
    /// callee and the argument registers.
    Call,
}

impl IROp {
    /// A copy of the operation.
    pub fn duplicate(&self) -> (op: IROp)
        ensures
            op == *self,
    {
        match self {
            IROp::Add => IROp::Add,
            IROp::AddImm => IROp::AddImm,
            IROp::Sub => IROp::Sub,
            IROp::SubImm => IROp::SubImm,
            IROp::Mul => IROp::Mul,
            IROp::MulImm => IROp::MulImm,
            IROp::Div => IROp::Div,
            IROp::Imm => IROp::Imm,
            IROp::Bprel => IROp::Bprel,
            IROp::Mov => IROp::Mov,
            IROp::Return => IROp::Return,
            IROp::Call(name, nargs, args) => IROp::Call(name.clone(), *nargs, *args),
            IROp::Label => IROp::Label,
            IROp::LabelAddr(name) => IROp::LabelAddr(name.clone()),
            IROp::EQ => IROp::EQ,
            IROp::NE => IROp::NE,
            IROp::LE => IROp::LE,
            IROp::LT => IROp::LT,
            IROp::AND => IROp::AND,
            IROp::OR => IROp::OR,
            IROp::XOR => IROp::XOR,
            IROp::SHL => IROp::SHL,
            IROp::SHR => IROp::SHR,
            IROp::Mod => IROp::Mod,
            IROp::Neg => IROp::Neg,
            IROp::Jmp => IROp::Jmp,
            IROp::If => IROp::If,
            IROp::Unless => IROp::Unless,
            IROp::Load(size) => IROp::Load(*size),
            IROp::Store(size) => IROp::Store(*size),
            IROp::StoreArg(size) => IROp::StoreArg(*size),
            IROp::Kill => IROp::Kill,
            IROp::Nop => IROp::Nop,
            IROp::AVX512Add => IROp::AVX512Add,
            IROp::AVX512Sub => IROp::AVX512Sub,
            IROp::AVX512Mul => IROp::AVX512Mul,
            IROp::AVX512Div => IROp::AVX512Div,
            IROp::AVX512Load => IROp::AVX512Load,
            IROp::AVX512LoadStack => IROp::AVX512LoadStack,
            IROp::AVX512Store => IROp::AVX512Store,
            IROp::AVX512StoreStack => IROp::AVX512StoreStack,
            IROp::AVX512Mov => IROp::AVX512Mov,
            IROp::AVX512Addi => IROp::AVX512Addi,
            IROp::AVX512Subi => IROp::AVX512Subi,
            IROp::AVX512Muli => IROp::AVX512Muli,
            IROp::AVX512Loadi => IROp::AVX512Loadi,
            IROp::AVX512Storei => IROp::AVX512Storei,
            IROp::AVX512Movi => IROp::AVX512Movi,
            IROp::AVX512Zero => IROp::AVX512Zero,
            IROp::AVX512Set1 => IROp::AVX512Set1,
            IROp::AVX512Set1i => IROp::AVX512Set1i,
            IROp::AVX512Cmplt => IROp::AVX512Cmplt,
            IROp::AVX512Cmple => IROp::AVX512Cmple,
            IROp::AVX512Cmpeq => IROp::AVX512Cmpeq,
            IROp::AVX512MaskMove => IROp::AVX512MaskMove,
            IROp::AVX512MaskLoad => IROp::AVX512MaskLoad,
            IROp::AVX512MaskStore => IROp::AVX512MaskStore,
            IROp::AVX512Cvtdq2pd => IROp::AVX512Cvtdq2pd,
            IROp::AVX512Cvtpd2dq => IROp::AVX512Cvtpd2dq,
            IROp::AVX512Extract => IROp::AVX512Extract,
            IROp::AVX512Insert => IROp::AVX512Insert,
            IROp::AVX512FMA => IROp::AVX512FMA,
            IROp::AVX512Sqrt => IROp::AVX512Sqrt,
            IROp::AVX512And => IROp::AVX512And,
            IROp::AVX512Max => IROp::AVX512Max,
            IROp::AVX512Min => IROp::AVX512Min,
        }
    }
}

/// One instruction: an operation and up to two numeric operands.
#[derive(Clone, Debug, PartialEq, Eq)]
pub struct IR {
    pub op: IROp,
    pub lhs: Option<usize>,
    pub rhs: Option<usize>,
}

impl IR {
    /// The instruction with the given operation and operands.
    pub fn new(op: IROp, lhs: Option<usize>, rhs: Option<usize>) -> (ir: IR)
        ensures
            ir.op == op,
            ir.lhs == lhs,
            ir.rhs == rhs,
    {
        IR { op, lhs, rhs }
    }

    /// A copy of the instruction.
    pub fn duplicate(&self) -> (ir: IR)
        ensures
            ir == *self,
    {
        IR { op: self.op.duplicate(), lhs: self.lhs, rhs: self.rhs }
    }
}

/// A function: its name, the size of its frame in bytes, its instructions.
#[derive(Clone, Debug, PartialEq, Eq)]
pub struct Function {
    pub name: String,
    pub stacksize: usize,
    pub ir: Vec<IR>,
}

/// What a function is, as a mathematical value.
pub struct FunctionView {
    pub name: Seq<char>,
    pub stacksize: usize,
    pub ir: Seq<IR>,
}

impl View for Function {
    type V = FunctionView;

    open spec fn view(&self) -> FunctionView {
        FunctionView { name: self.name@, stacksize: self.stacksize, ir: self.ir@ }
    }
}

/// The functions `fns` as mathematical values.
pub open spec fn views(fns: Seq<Function>) -> Seq<FunctionView> {
    Seq::new(fns.len(), |k: int| fns[k]@)
}

} // verus!
