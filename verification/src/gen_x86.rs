//! Generation of x86-64 assembly in NASM syntax from allocated IR.

use vstd::prelude::*;
use crate::gen_ir::{views, Function, FunctionView, IROp, IR};
use crate::text::{
    decimal, decimal_string, digit_char, emit0, emit1, emit2, emit3, emit4, emit_label, emit_plain,
    group_render, imm32, lemma_render_concat, lemma_render_more, imm32_string, one, op0, op1, op2, op3, op4, push_char, push_decimal, push_digit, render,
    signed_decimal, AsmLine,
};
use crate::util::{lemma_roundup, roundup, spec_roundup};
use crate::{Scope, Var, REGS_N};

verus! {

/// Name of the 64-bit register with index `r`.
pub open spec fn reg64(r: int) -> Seq<char> {
    if r == 0 {
        "r10"@
    } else if r == 1 {
        "r11"@
    } else if r == 2 {
        "rbx"@
    } else if r == 3 {
        "r12"@
    } else if r == 4 {
        "r13"@
    } else if r == 5 {
        "r14"@
    } else {
        "r15"@
    }
}

/// Name of the low byte of the register with index `r`.
pub open spec fn reg8(r: int) -> Seq<char> {
    if r == 0 {
        "r10b"@
    } else if r == 1 {
        "r11b"@
    } else if r == 2 {
        "bl"@
    } else if r == 3 {
        "r12b"@
    } else if r == 4 {
        "r13b"@
    } else if r == 5 {
        "r14b"@
    } else {
        "r15b"@
    }
}

/// Name of the low 32 bits of the register with index `r`.
pub open spec fn reg32(r: int) -> Seq<char> {
    if r == 0 {
        "r10d"@
    } else if r == 1 {
        "r11d"@
    } else if r == 2 {
        "ebx"@
    } else if r == 3 {
        "r12d"@
    } else if r == 4 {
        "r13d"@
    } else if r == 5 {
        "r14d"@
    } else {
        "r15d"@
    }
}

/// Name of the part of register `r` that is `size` bytes wide.
pub open spec fn reg_name(r: int, size: int) -> Seq<char> {
    if size == 1 {
        reg8(r)
    } else if size == 4 {
        reg32(r)
    } else {
        reg64(r)
    }
}

/// Name of the 64-bit register that passes argument `r`.
pub open spec fn argreg64(r: int) -> Seq<char> {
    if r == 0 {
        "rdi"@
    } else if r == 1 {
        "rsi"@
    } else if r == 2 {
        "rdx"@
    } else if r == 3 {
        "rcx"@
    } else if r == 4 {
        "r8"@
    } else {
        "r9"@
    }
}

/// Name of the low byte of the register that passes argument `r`.
pub open spec fn argreg8(r: int) -> Seq<char> {
    if r == 0 {
        "dil"@
    } else if r == 1 {
        "sil"@
    } else if r == 2 {
        "dl"@
    } else if r == 3 {
        "cl"@
    } else if r == 4 {
        "r8b"@
    } else {
        "r9b"@
    }
}

/// Name of the low 32 bits of the register that passes argument `r`.
pub open spec fn argreg32(r: int) -> Seq<char> {
    if r == 0 {
        "edi"@
    } else if r == 1 {
        "esi"@
    } else if r == 2 {
        "edx"@
    } else if r == 3 {
        "ecx"@
    } else if r == 4 {
        "r8d"@
    } else {
        "r9d"@
    }
}

/// Name of the part of argument register `r` that is `size` bytes wide.
pub open spec fn argreg_name(r: int, size: int) -> Seq<char> {
    if size == 1 {
        argreg8(r)
    } else if size == 4 {
        argreg32(r)
    } else {
        argreg64(r)
    }
}

/// Name of the vector register `r` of the class `prefix` (`zmm`, `ymm`, `xmm`).
pub open spec fn simd_name(prefix: Seq<char>, r: int) -> Seq<char> {
    prefix + decimal(r as nat)
}

/// Name of the 512-bit vector register `r`.
pub open spec fn zmm(r: int) -> Seq<char> {
    simd_name("zmm"@, r)
}

/// Name of the 256-bit vector register `r`.
pub open spec fn ymm(r: int) -> Seq<char> {
    simd_name("ymm"@, r)
}

/// Name of the 128-bit vector register `r`.
pub open spec fn xmm(r: int) -> Seq<char> {
    simd_name("xmm"@, r)
}

/// The memory operand at the address held in the register named `r`.
pub open spec fn mem(r: Seq<char>) -> Seq<char> {
    "["@ + r + "]"@
}

/// A memory operand with its width keyword before it.
pub open spec fn sized_mem(width: Seq<char>, addr: Seq<char>) -> Seq<char> {
    width + " "@ + addr
}

/// A memory operand written under the mask register `k1`.
pub open spec fn masked(operand: Seq<char>) -> Seq<char> {
    operand + " {k1}"@
}

/// The memory operand at `offset` bytes from the frame pointer.
pub open spec fn frame_addr(offset: int) -> Seq<char> {
    if offset < 0 {
        "[rbp-"@ + decimal((-offset) as nat) + "]"@
    } else {
        "[rbp+"@ + decimal(offset as nat) + "]"@
    }
}

/// The memory operand at `offset` bytes from the stack pointer.
pub open spec fn stack_addr(offset: int) -> Seq<char> {
    "[rsp+"@ + decimal(offset as nat) + "]"@
}

/// Name of the label with number `n` inside a function.
pub open spec fn local_label(n: int) -> Seq<char> {
    ".L"@ + decimal(n as nat)
}

/// Name of the label before the epilogue with number `n`.
pub open spec fn end_label(n: int) -> Seq<char> {
    ".Lend"@ + decimal(n as nat)
}

/// The left operand, 0 where there is none.
pub open spec fn lhs_of(ir: IR) -> int {
    match ir.lhs {
        Some(x) => x as int,
        None => 0,
    }
}

/// The right operand, 0 where there is none.
pub open spec fn rhs_of(ir: IR) -> int {
    match ir.rhs {
        Some(x) => x as int,
        None => 0,
    }
}

/// Width keyword of a memory access of `size` bytes.
pub open spec fn width_keyword(size: int) -> Seq<char> {
    if size == 1 {
        "byte"@
    } else if size == 4 {
        "dword"@
    } else {
        "qword"@
    }
}

/// Whether `size` is a width that a memory access can have.
pub open spec fn valid_size(size: u8) -> bool {
    size == 1 || size == 4 || size == 8
}

/// The moves that bring the first `n` arguments of a call into the argument
/// registers: one per argument, in ascending order.
pub open spec fn arg_moves(args: Seq<usize>, n: int) -> Seq<AsmLine> {
    Seq::new(n as nat, |i: int| op2("mov"@, argreg64(i), reg64(args[i] as int)))
}

/// The lines of a call: the argument moves, then the call between the
/// saving and restoring of the caller-saved registers, then the move of the
/// result.
pub open spec fn call_lines(name: Seq<char>, nargs: usize, args: Seq<usize>, lhs: int) -> Seq<
    AsmLine,
> {
    arg_moves(args, nargs as int) + one(op1("push"@, "r10"@)) + one(op1("push"@, "r11"@)) + one(
        op2("mov"@, "rax"@, "0"@),
    ) + one(op1("call"@, name)) + one(op1("pop"@, "r11"@)) + one(op1("pop"@, "r10"@)) + one(
        op2("mov"@, reg64(lhs), "rax"@),
    )
}

/// The lines of a comparison that leaves 0 or 1 in the left register.
pub open spec fn compare_lines(insn: Seq<char>, l: int, r: int) -> Seq<AsmLine> {
    one(op2("cmp"@, reg64(l), reg64(r))) + one(op1(insn, reg8(l))) + one(
        op2("movzx"@, reg64(l), reg8(l)),
    )
}

/// The lines of a shift, whose count goes through `cl`.
pub open spec fn shift_lines(insn: Seq<char>, l: int, r: int) -> Seq<AsmLine> {
    one(op2("mov"@, "cl"@, reg8(r))) + one(op2(insn, reg64(l), "cl"@))
}

/// The lines of a signed division; `result` names the half of `rdx:rax`
/// that is kept.
pub open spec fn div_lines(result: Seq<char>, l: int, r: int) -> Seq<AsmLine> {
    one(op2("mov"@, "rax"@, reg64(l))) + one(op0("cqo"@)) + one(op1("idiv"@, reg64(r))) + one(
        op2("mov"@, reg64(l), result),
    )
}

/// The lines of a conditional jump on whether the left register is zero.
pub open spec fn branch_lines(insn: Seq<char>, l: int, target: int) -> Seq<AsmLine> {
    one(op2("cmp"@, reg64(l), "0"@)) + one(op1(insn, local_label(target)))
}

/// The line of a load of `size` bytes.
pub open spec fn load_lines(size: u8, l: int, r: int) -> Seq<AsmLine> {
    if size == 1 {
        one(op2("movzx"@, reg64(l), sized_mem("byte"@, mem(reg64(r)))))
    } else if size == 4 {
        one(op2("movsxd"@, reg64(l), sized_mem("dword"@, mem(reg64(r)))))
    } else {
        one(op2("mov"@, reg64(l), mem(reg64(r))))
    }
}

/// The line of a store of `size` bytes.
pub open spec fn store_lines(size: u8, l: int, r: int) -> Seq<AsmLine> {
    if size == 1 {
        one(op2("mov"@, sized_mem("byte"@, mem(reg64(l))), reg8(r)))
    } else if size == 4 {
        one(op2("mov"@, sized_mem("dword"@, mem(reg64(l))), reg32(r)))
    } else {
        one(op2("mov"@, mem(reg64(l)), reg64(r)))
    }
}

/// The line that spills argument register `r` into its frame slot.
pub open spec fn store_arg_lines(size: u8, offset: int, r: int) -> Seq<AsmLine> {
    one(
        op2(
            "mov"@,
            sized_mem(width_keyword(size as int), frame_addr(imm32(offset))),
            argreg_name(r, size as int),
        ),
    )
}

/// A vector instruction that combines the right register into the left.
pub open spec fn simd3_lines(insn: Seq<char>, l: int, r: int) -> Seq<AsmLine> {
    one(op3(insn, zmm(l), zmm(l), zmm(r)))
}

/// The assembly lines of one instruction; `ret` is the label of the
/// epilogue of its function.
pub open spec fn insn_lines(ir: IR, ret: Seq<char>) -> Seq<AsmLine> {
    let l = lhs_of(ir);
    let r = rhs_of(ir);
    match ir.op {
        IROp::Imm => one(op2("mov"@, reg64(l), signed_decimal(imm32(r)))),
        IROp::Mov => one(op2("mov"@, reg64(l), reg64(r))),
        IROp::Return => one(op2("mov"@, "rax"@, reg64(l))) + one(op1("jmp"@, ret)),
        IROp::Call(name, nargs, args) => call_lines(name@, nargs, args@, l),
        IROp::Label => one(AsmLine::Label(local_label(l))),
        IROp::LabelAddr(name) => one(op2("lea"@, reg64(l), name@)),
        IROp::Neg => one(op1("neg"@, reg64(l))),
        IROp::EQ => compare_lines("sete"@, l, r),
        IROp::NE => compare_lines("setne"@, l, r),
        IROp::LT => compare_lines("setl"@, l, r),
        IROp::LE => compare_lines("setle"@, l, r),
        IROp::AND => one(op2("and"@, reg64(l), reg64(r))),
        IROp::OR => one(op2("or"@, reg64(l), reg64(r))),
        IROp::XOR => one(op2("xor"@, reg64(l), reg64(r))),
        IROp::SHL => shift_lines("shl"@, l, r),
        IROp::SHR => shift_lines("shr"@, l, r),
        IROp::Mod => div_lines("rdx"@, l, r),
        IROp::Jmp => one(op1("jmp"@, local_label(l))),
        IROp::If => branch_lines("jne"@, l, r),
        IROp::Unless => branch_lines("je"@, l, r),
        IROp::Load(size) => load_lines(size, l, r),
        IROp::Store(size) => store_lines(size, l, r),
        IROp::StoreArg(size) => store_arg_lines(size, l, r),
        IROp::Add => one(op2("add"@, reg64(l), reg64(r))),
        IROp::AddImm => one(op2("add"@, reg64(l), signed_decimal(imm32(r)))),
        IROp::Sub => one(op2("sub"@, reg64(l), reg64(r))),
        IROp::SubImm => one(op2("sub"@, reg64(l), signed_decimal(imm32(r)))),
        IROp::Bprel => one(op2("lea"@, reg64(l), frame_addr(imm32(r)))),
        IROp::Mul => one(op2("mov"@, "rax"@, reg64(r))) + one(op1("mul"@, reg64(l))) + one(
            op2("mov"@, reg64(l), "rax"@),
        ),
        IROp::MulImm => one(op3("imul"@, reg64(l), reg64(l), signed_decimal(imm32(r)))),
        IROp::Div => div_lines("rax"@, l, r),
        IROp::Nop | IROp::Kill => Seq::empty(),
        IROp::AVX512Add => simd3_lines("vaddpd"@, l, r),
        IROp::AVX512Sub => simd3_lines("vsubpd"@, l, r),
        IROp::AVX512Mul => simd3_lines("vmulpd"@, l, r),
        IROp::AVX512Div => simd3_lines("vdivpd"@, l, r),
        IROp::AVX512Load => one(op2("vmovapd"@, zmm(l), mem(reg64(r)))),
        IROp::AVX512LoadStack => one(op2("vmovapd"@, zmm(l), stack_addr(l * 8))),
        IROp::AVX512Store => one(op2("vmovapd"@, mem(reg64(l)), zmm(r))),
        IROp::AVX512StoreStack => one(op2("vmovapd"@, stack_addr(l * 8), zmm(r))),
        IROp::AVX512Mov => one(op2("vmovapd"@, zmm(l), zmm(r))),
        IROp::AVX512Addi => simd3_lines("vpaddd"@, l, r),
        IROp::AVX512Subi => simd3_lines("vpsubd"@, l, r),
        IROp::AVX512Muli => simd3_lines("vpmulld"@, l, r),
        IROp::AVX512Loadi => one(op2("vmovdqu32"@, zmm(l), mem(reg64(r)))),
        IROp::AVX512Storei => one(op2("vmovdqu32"@, mem(reg64(l)), zmm(r))),
        IROp::AVX512Movi => one(op2("vmovdqu32"@, zmm(l), zmm(r))),
        IROp::AVX512Zero => one(op3("vpxord"@, zmm(l), zmm(l), zmm(l))),
        IROp::AVX512Set1 => one(op2("vbroadcastsd"@, zmm(l), reg64(r))),
        IROp::AVX512Set1i => one(op2("vpbroadcastd"@, zmm(l), reg64(r))),
        IROp::AVX512Cmplt => one(op3("vcmpltpd"@, "k1"@, zmm(l), zmm(r))),
        IROp::AVX512Cmple => one(op3("vcmplepd"@, "k1"@, zmm(l), zmm(r))),
        IROp::AVX512Cmpeq => one(op3("vcmpeqpd"@, "k1"@, zmm(l), zmm(r))),
        IROp::AVX512MaskMove => one(op2("vmovapd"@, masked(zmm(l)), zmm(r))),
        IROp::AVX512MaskLoad => one(op2("vmovapd"@, masked(zmm(l)), mem(reg64(r)))),
        IROp::AVX512MaskStore => one(op2("vmovapd"@, masked(mem(reg64(l))), zmm(r))),
        IROp::AVX512Cvtdq2pd => one(op2("vcvtdq2pd"@, zmm(l), ymm(r))),
        IROp::AVX512Cvtpd2dq => one(op2("vcvtpd2dq"@, ymm(l), zmm(r))),
        IROp::AVX512Extract => one(op2("vmovq"@, reg64(l), xmm(r))),
        IROp::AVX512Insert => one(op4("vpinsrq"@, xmm(l), xmm(l), reg64(r), "0"@)),
        IROp::AVX512FMA => simd3_lines("vfmadd231pd"@, l, r),
        IROp::AVX512Sqrt => one(op2("vsqrtpd"@, zmm(l), zmm(r))),
        IROp::AVX512And => simd3_lines("vandpd"@, l, r),
        IROp::AVX512Max => simd3_lines("vmaxpd"@, l, r),
        IROp::AVX512Min => simd3_lines("vminpd"@, l, r),
    }
}


/// Whether `x` is the index of a register of the allocator's pool.
pub open spec fn is_pool_reg(x: int) -> bool {
    0 <= x < REGS_N
}

/// Whether `x` is the index of a vector register.
pub open spec fn is_simd_reg(x: int) -> bool {
    0 <= x < 32
}

/// Whether assembly can be generated for `ir`: every operand that selects
/// a register names one that exists, a comparison has both operands, an
/// access has a width of 1, 4 or 8 bytes, and a call passes at most six
/// arguments.
pub open spec fn emittable(ir: IR) -> bool {
    let l = lhs_of(ir);
    let r = rhs_of(ir);
    match ir.op {
        IROp::Imm | IROp::Return | IROp::LabelAddr(_) | IROp::Neg | IROp::If | IROp::Unless
        | IROp::AddImm | IROp::SubImm | IROp::Bprel | IROp::MulImm => is_pool_reg(l),
        IROp::Mov | IROp::AND | IROp::OR | IROp::XOR | IROp::SHL | IROp::SHR | IROp::Mod
        | IROp::Add | IROp::Sub | IROp::Mul | IROp::Div => is_pool_reg(l) && is_pool_reg(r),
        IROp::EQ | IROp::NE | IROp::LT | IROp::LE => ir.lhs is Some && ir.rhs is Some
            && is_pool_reg(l) && is_pool_reg(r),
        IROp::Call(_, nargs, args) => nargs <= 6 && is_pool_reg(l) && forall|i: int|
            0 <= i < nargs ==> is_pool_reg(#[trigger] args@[i] as int),
        IROp::Label | IROp::Jmp | IROp::Nop | IROp::Kill => true,
        IROp::Load(size) | IROp::Store(size) => valid_size(size) && is_pool_reg(l)
            && is_pool_reg(r),
        IROp::StoreArg(size) => valid_size(size) && 0 <= r < 6,
        IROp::AVX512Add | IROp::AVX512Sub | IROp::AVX512Mul | IROp::AVX512Div
        | IROp::AVX512Mov | IROp::AVX512Addi | IROp::AVX512Subi | IROp::AVX512Muli
        | IROp::AVX512Movi | IROp::AVX512Cmplt | IROp::AVX512Cmple | IROp::AVX512Cmpeq
        | IROp::AVX512MaskMove | IROp::AVX512Cvtdq2pd | IROp::AVX512Cvtpd2dq | IROp::AVX512FMA
        | IROp::AVX512Sqrt | IROp::AVX512And | IROp::AVX512Max | IROp::AVX512Min
        | IROp::AVX512StoreStack => is_simd_reg(l) && is_simd_reg(r),
        IROp::AVX512Zero | IROp::AVX512LoadStack => is_simd_reg(l),
        IROp::AVX512Load | IROp::AVX512Loadi | IROp::AVX512Set1 | IROp::AVX512Set1i
        | IROp::AVX512MaskLoad | IROp::AVX512Insert => is_simd_reg(l) && is_pool_reg(r),
        IROp::AVX512Store | IROp::AVX512Storei | IROp::AVX512MaskStore
        | IROp::AVX512Extract => is_pool_reg(l) && is_simd_reg(r),
    }
}

/// Name of the part of pool register `r` that is `size` bytes wide.
pub fn reg(r: usize, size: u8) -> (name: &'static str)
    requires
        r < 7,
        valid_size(size),
    ensures
        name@ == reg_name(r as int, size as int),
{
    if size == 1 {
        if r == 0 {
            "r10b"
        } else if r == 1 {
            "r11b"
        } else if r == 2 {
            "bl"
        } else if r == 3 {
            "r12b"
        } else if r == 4 {
            "r13b"
        } else if r == 5 {
            "r14b"
        } else {
            "r15b"
        }
    } else if size == 4 {
        if r == 0 {
            "r10d"
        } else if r == 1 {
            "r11d"
        } else if r == 2 {
            "ebx"
        } else if r == 3 {
            "r12d"
        } else if r == 4 {
            "r13d"
        } else if r == 5 {
            "r14d"
        } else {
            "r15d"
        }
    } else {
        if r == 0 {
            "r10"
        } else if r == 1 {
            "r11"
        } else if r == 2 {
            "rbx"
        } else if r == 3 {
            "r12"
        } else if r == 4 {
            "r13"
        } else if r == 5 {
            "r14"
        } else {
            "r15"
        }
    }
}

/// Name of the part of argument register `r` that is `size` bytes wide.
pub fn argreg(r: usize, size: u8) -> (name: &'static str)
    requires
        r < 6,
        valid_size(size),
    ensures
        name@ == argreg_name(r as int, size as int),
{
    if size == 1 {
        if r == 0 {
            "dil"
        } else if r == 1 {
            "sil"
        } else if r == 2 {
            "dl"
        } else if r == 3 {
            "cl"
        } else if r == 4 {
            "r8b"
        } else {
            "r9b"
        }
    } else if size == 4 {
        if r == 0 {
            "edi"
        } else if r == 1 {
            "esi"
        } else if r == 2 {
            "edx"
        } else if r == 3 {
            "ecx"
        } else if r == 4 {
            "r8d"
        } else {
            "r9d"
        }
    } else {
        if r == 0 {
            "rdi"
        } else if r == 1 {
            "rsi"
        } else if r == 2 {
            "rdx"
        } else if r == 3 {
            "rcx"
        } else if r == 4 {
            "r8"
        } else {
            "r9"
        }
    }
}

fn simd_reg(prefix: &str, r: usize) -> (s: String)
    ensures
        s@ == simd_name(prefix@, r as int),
{
    let mut s = String::from_str(prefix);
    push_decimal(&mut s, r as u64);
    s
}

fn mem_operand(r: &str) -> (s: String)
    ensures
        s@ == mem(r@),
{
    let mut s = String::from_str("[");
    s.append(r);
    s.append("]");
    s
}

fn sized_operand(width: &str, addr: &str) -> (s: String)
    ensures
        s@ == sized_mem(width@, addr@),
{
    let mut s = String::from_str(width);
    s.append(" ");
    s.append(addr);
    s
}

fn masked_operand(operand: &str) -> (s: String)
    ensures
        s@ == masked(operand@),
{
    let mut s = String::from_str(operand);
    s.append(" {k1}");
    s
}

fn frame_operand(offset: usize) -> (s: String)
    ensures
        s@ == frame_addr(imm32(offset as int)),
{
    let low: u64 = (offset as u64) % 0x1_0000_0000;
    if low < 0x8000_0000 {
        let mut s = String::from_str("[rbp+");
        push_decimal(&mut s, low);
        s.append("]");
        s
    } else {
        let mut s = String::from_str("[rbp-");
        push_decimal(&mut s, 0x1_0000_0000 - low);
        s.append("]");
        s
    }
}

fn stack_operand(offset: usize) -> (s: String)
    ensures
        s@ == stack_addr(offset as int),
{
    let mut s = String::from_str("[rsp+");
    push_decimal(&mut s, offset as u64);
    s.append("]");
    s
}

fn local_label_name(n: usize) -> (s: String)
    ensures
        s@ == local_label(n as int),
{
    let mut s = String::from_str(".L");
    push_decimal(&mut s, n as u64);
    s
}

fn width_name(size: u8) -> (s: &'static str)
    requires
        valid_size(size),
    ensures
        s@ == width_keyword(size as int),
{
    if size == 1 {
        "byte"
    } else if size == 4 {
        "dword"
    } else {
        "qword"
    }
}


fn operand(x: Option<usize>) -> (v: usize)
    ensures
        v == match x {
            Some(y) => y,
            None => 0,
        },
{
    match x {
        Some(y) => y,
        None => 0,
    }
}

/// Appends a comparison whose set instruction is `insn`.
pub fn emit_cmp(out: &mut String, ir: &IR, insn: &'static str)
    requires
        ir.lhs is Some,
        ir.rhs is Some,
        is_pool_reg(lhs_of(*ir)),
        is_pool_reg(rhs_of(*ir)),
    ensures
        final(out)@ == old(out)@ + render(compare_lines(insn@, lhs_of(*ir), rhs_of(*ir))),
{
    broadcast use group_render;

    let lhs = ir.lhs.unwrap();
    let rhs = ir.rhs.unwrap();
    emit2(out, "cmp", reg(lhs, 8), reg(rhs, 8));
    emit1(out, insn, reg(lhs, 1));
    emit2(out, "movzx", reg(lhs, 8), reg(lhs, 1));
    assert(final(out)@ =~= old(out)@ + render(
        compare_lines(insn@, lhs_of(*ir), rhs_of(*ir)),
    ));
}

fn emit_return(out: &mut String, lhs: usize, ret: &str)
    requires
        lhs < 7,
    ensures
        final(out)@ == old(out)@ + render(
            one(op2("mov"@, "rax"@, reg64(lhs as int))) + one(op1("jmp"@, ret@)),
        ),
{
    broadcast use group_render;

    emit2(out, "mov", "rax", reg(lhs, 8));
    emit1(out, "jmp", ret);
    assert(final(out)@ =~= old(out)@ + render(
        one(op2("mov"@, "rax"@, reg64(lhs as int))) + one(op1("jmp"@, ret@)),
    ));
}

fn emit_shift(out: &mut String, insn: &str, lhs: usize, rhs: usize)
    requires
        lhs < 7,
        rhs < 7,
    ensures
        final(out)@ == old(out)@ + render(shift_lines(insn@, lhs as int, rhs as int)),
{
    broadcast use group_render;

    emit2(out, "mov", "cl", reg(rhs, 1));
    emit2(out, insn, reg(lhs, 8), "cl");
    assert(final(out)@ =~= old(out)@ + render(shift_lines(insn@, lhs as int, rhs as int)));
}

fn emit_div(out: &mut String, result: &str, lhs: usize, rhs: usize)
    requires
        lhs < 7,
        rhs < 7,
    ensures
        final(out)@ == old(out)@ + render(div_lines(result@, lhs as int, rhs as int)),
{
    broadcast use group_render;

    emit2(out, "mov", "rax", reg(lhs, 8));
    emit0(out, "cqo");
    emit1(out, "idiv", reg(rhs, 8));
    emit2(out, "mov", reg(lhs, 8), result);
    assert(final(out)@ =~= old(out)@ + render(div_lines(result@, lhs as int, rhs as int)));
}

fn emit_mul(out: &mut String, lhs: usize, rhs: usize)
    requires
        lhs < 7,
        rhs < 7,
    ensures
        final(out)@ == old(out)@ + render(
            one(op2("mov"@, "rax"@, reg64(rhs as int))) + one(op1("mul"@, reg64(lhs as int)))
                + one(op2("mov"@, reg64(lhs as int), "rax"@)),
        ),
{
    broadcast use group_render;

    emit2(out, "mov", "rax", reg(rhs, 8));
    emit1(out, "mul", reg(lhs, 8));
    emit2(out, "mov", reg(lhs, 8), "rax");
    assert(final(out)@ =~= old(out)@ + render(
        one(op2("mov"@, "rax"@, reg64(rhs as int))) + one(op1("mul"@, reg64(lhs as int)))
            + one(op2("mov"@, reg64(lhs as int), "rax"@)),
    ));
}

fn emit_branch(out: &mut String, insn: &str, lhs: usize, target: usize)
    requires
        lhs < 7,
    ensures
        final(out)@ == old(out)@ + render(branch_lines(insn@, lhs as int, target as int)),
{
    broadcast use group_render;

    let label = local_label_name(target);
    emit2(out, "cmp", reg(lhs, 8), "0");
    emit1(out, insn, label.as_str());
    assert(final(out)@ =~= old(out)@ + render(
        branch_lines(insn@, lhs as int, target as int),
    ));
}

fn emit_call(out: &mut String, name: &str, nargs: usize, args: &[usize; 6], lhs: usize)
    requires
        nargs <= 6,
        lhs < 7,
        forall|i: int| 0 <= i < nargs ==> is_pool_reg(#[trigger] args@[i] as int),
    ensures
        final(out)@ == old(out)@ + render(call_lines(name@, nargs, args@, lhs as int)),
{
    broadcast use group_render;

    let mut i: usize = 0;
    while i < nargs
        invariant
            i <= nargs <= 6,
            forall|i: int| 0 <= i < nargs ==> is_pool_reg(#[trigger] args@[i] as int),
            out@ == old(out)@ + render(arg_moves(args@, i as int)),
        decreases nargs - i,
    {
        assert(is_pool_reg(args@[i as int] as int));
        let ghost before = out@;
        emit2(out, "mov", argreg(i, 8), reg(args[i], 8));
        proof {
            let done = arg_moves(args@, i as int);
            let next = one(op2("mov"@, argreg64(i as int), reg64(args@[i as int] as int)));
            assert(arg_moves(args@, i + 1) =~= done + next);
            lemma_render_concat(done, next);
            assert(out@ == before + render(next));
            assert(out@ =~= old(out)@ + render(arg_moves(args@, i + 1)));
        }
        i += 1;
    }
    let ghost start = old(out)@;
    let ghost moves = arg_moves(args@, nargs as int);
    let ghost t0 = out@;
    emit1(out, "push", "r10");
    let ghost t1 = out@;
    let ghost l1 = op1("push"@, "r10"@);
    proof {
        lemma_render_more(start, moves, l1, t0, t1);
    }
    emit1(out, "push", "r11");
    let ghost t2 = out@;
    let ghost l2 = op1("push"@, "r11"@);
    proof {
        lemma_render_more(start, moves + one(l1), l2, t1, t2);
    }
    emit2(out, "mov", "rax", "0");
    let ghost t3 = out@;
    let ghost l3 = op2("mov"@, "rax"@, "0"@);
    proof {
        lemma_render_more(start, moves + one(l1) + one(l2), l3, t2, t3);
    }
    emit1(out, "call", name);
    let ghost t4 = out@;
    let ghost l4 = op1("call"@, name@);
    proof {
        lemma_render_more(start, moves + one(l1) + one(l2) + one(l3), l4, t3, t4);
    }
    emit1(out, "pop", "r11");
    let ghost t5 = out@;
    let ghost l5 = op1("pop"@, "r11"@);
    proof {
        lemma_render_more(start, moves + one(l1) + one(l2) + one(l3) + one(l4), l5, t4, t5);
    }
    emit1(out, "pop", "r10");
    let ghost t6 = out@;
    let ghost l6 = op1("pop"@, "r10"@);
    proof {
        lemma_render_more(
            start,
            moves + one(l1) + one(l2) + one(l3) + one(l4) + one(l5),
            l6,
            t5,
            t6,
        );
    }
    emit2(out, "mov", reg(lhs, 8), "rax");
    proof {
        lemma_render_more(
            start,
            moves + one(l1) + one(l2) + one(l3) + one(l4) + one(l5) + one(l6),
            op2("mov"@, reg64(lhs as int), "rax"@),
            t6,
            out@,
        );
    }
}

fn emit_load(out: &mut String, size: u8, lhs: usize, rhs: usize)
    requires
        valid_size(size),
        lhs < 7,
        rhs < 7,
    ensures
        final(out)@ == old(out)@ + render(load_lines(size, lhs as int, rhs as int)),
{
    let addr = mem_operand(reg(rhs, 8));
    if size == 1 {
        let src = sized_operand("byte", addr.as_str());
        emit2(out, "movzx", reg(lhs, 8), src.as_str());
    } else if size == 4 {
        let src = sized_operand("dword", addr.as_str());
        emit2(out, "movsxd", reg(lhs, 8), src.as_str());
    } else {
        emit2(out, "mov", reg(lhs, 8), addr.as_str());
    }
}

fn emit_store(out: &mut String, size: u8, lhs: usize, rhs: usize)
    requires
        valid_size(size),
        lhs < 7,
        rhs < 7,
    ensures
        final(out)@ == old(out)@ + render(store_lines(size, lhs as int, rhs as int)),
{
    let addr = mem_operand(reg(lhs, 8));
    if size == 1 {
        let dst = sized_operand("byte", addr.as_str());
        emit2(out, "mov", dst.as_str(), reg(rhs, 1));
    } else if size == 4 {
        let dst = sized_operand("dword", addr.as_str());
        emit2(out, "mov", dst.as_str(), reg(rhs, 4));
    } else {
        emit2(out, "mov", addr.as_str(), reg(rhs, 8));
    }
}

fn emit_store_arg(out: &mut String, size: u8, offset: usize, rhs: usize)
    requires
        valid_size(size),
        rhs < 6,
    ensures
        final(out)@ == old(out)@ + render(store_arg_lines(size, offset as int, rhs as int)),
{
    let addr = frame_operand(offset);
    let dst = sized_operand(width_name(size), addr.as_str());
    emit2(out, "mov", dst.as_str(), argreg(rhs, size));
}

fn emit_simd3(out: &mut String, insn: &str, lhs: usize, rhs: usize)
    ensures
        final(out)@ == old(out)@ + render(simd3_lines(insn@, lhs as int, rhs as int)),
{
    let l = simd_reg("zmm", lhs);
    let r = simd_reg("zmm", rhs);
    emit3(out, insn, l.as_str(), l.as_str(), r.as_str());
}

/// Appends `insn zmmL, zmmR`.
fn emit_simd2(out: &mut String, insn: &str, lhs: usize, rhs: usize)
    ensures
        final(out)@ == old(out)@ + render(one(op2(insn@, zmm(lhs as int), zmm(rhs as int)))),
{
    let l = simd_reg("zmm", lhs);
    let r = simd_reg("zmm", rhs);
    emit2(out, insn, l.as_str(), r.as_str());
}

/// Appends a comparison of two vector registers into the mask register.
fn emit_simd_mask(out: &mut String, insn: &str, lhs: usize, rhs: usize)
    ensures
        final(out)@ == old(out)@ + render(
            one(op3(insn@, "k1"@, zmm(lhs as int), zmm(rhs as int))),
        ),
{
    let l = simd_reg("zmm", lhs);
    let r = simd_reg("zmm", rhs);
    emit3(out, insn, "k1", l.as_str(), r.as_str());
}

/// Appends `insn zmmL, [R]`, under the mask if `mask` is set.
fn emit_simd_load(out: &mut String, insn: &str, lhs: usize, rhs: usize, mask: bool)
    requires
        rhs < 7,
    ensures
        final(out)@ == old(out)@ + render(
            one(
                op2(
                    insn@,
                    if mask {
                        masked(zmm(lhs as int))
                    } else {
                        zmm(lhs as int)
                    },
                    mem(reg64(rhs as int)),
                ),
            ),
        ),
{
    let l = simd_reg("zmm", lhs);
    let addr = mem_operand(reg(rhs, 8));
    if mask {
        let dst = masked_operand(l.as_str());
        emit2(out, insn, dst.as_str(), addr.as_str());
    } else {
        emit2(out, insn, l.as_str(), addr.as_str());
    }
}

/// Appends `insn [L], zmmR`, under the mask if `mask` is set.
fn emit_simd_store(out: &mut String, insn: &str, lhs: usize, rhs: usize, mask: bool)
    requires
        lhs < 7,
    ensures
        final(out)@ == old(out)@ + render(
            one(
                op2(
                    insn@,
                    if mask {
                        masked(mem(reg64(lhs as int)))
                    } else {
                        mem(reg64(lhs as int))
                    },
                    zmm(rhs as int),
                ),
            ),
        ),
{
    let r = simd_reg("zmm", rhs);
    let addr = mem_operand(reg(lhs, 8));
    if mask {
        let dst = masked_operand(addr.as_str());
        emit2(out, insn, dst.as_str(), r.as_str());
    } else {
        emit2(out, insn, addr.as_str(), r.as_str());
    }
}

/// Appends `insn zmmL, R` with a pool register as the source.
fn emit_simd_set(out: &mut String, insn: &str, lhs: usize, rhs: usize)
    requires
        rhs < 7,
    ensures
        final(out)@ == old(out)@ + render(one(op2(insn@, zmm(lhs as int), reg64(rhs as int)))),
{
    let l = simd_reg("zmm", lhs);
    emit2(out, insn, l.as_str(), reg(rhs, 8));
}


/// Appends the assembly of one instruction; `ret` is the label of the
/// epilogue of its function.
pub fn gen_insn(out: &mut String, ir: &IR, ret: &str)
    requires
        emittable(*ir),
    ensures
        final(out)@ == old(out)@ + render(insn_lines(*ir, ret@)),
{
    let lhs = operand(ir.lhs);
    let rhs = operand(ir.rhs);
    match &ir.op {
        IROp::Imm => {
            let value = imm32_string(rhs);
            emit2(out, "mov", reg(lhs, 8), value.as_str());
        },
        IROp::Mov => emit2(out, "mov", reg(lhs, 8), reg(rhs, 8)),
        IROp::Return => emit_return(out, lhs, ret),
        IROp::Call(name, nargs, args) => emit_call(out, name.as_str(), *nargs, args, lhs),
        IROp::Label => {
            let name = local_label_name(lhs);
            emit_label(out, name.as_str());
        },
        IROp::LabelAddr(name) => emit2(out, "lea", reg(lhs, 8), name.as_str()),
        IROp::Neg => emit1(out, "neg", reg(lhs, 8)),
        IROp::EQ => emit_cmp(out, ir, "sete"),
        IROp::NE => emit_cmp(out, ir, "setne"),
        IROp::LT => emit_cmp(out, ir, "setl"),
        IROp::LE => emit_cmp(out, ir, "setle"),
        IROp::AND => emit2(out, "and", reg(lhs, 8), reg(rhs, 8)),
        IROp::OR => emit2(out, "or", reg(lhs, 8), reg(rhs, 8)),
        IROp::XOR => emit2(out, "xor", reg(lhs, 8), reg(rhs, 8)),
        IROp::SHL => emit_shift(out, "shl", lhs, rhs),
        IROp::SHR => emit_shift(out, "shr", lhs, rhs),
        IROp::Mod => emit_div(out, "rdx", lhs, rhs),
        IROp::Jmp => {
            let name = local_label_name(lhs);
            emit1(out, "jmp", name.as_str());
        },
        IROp::If => emit_branch(out, "jne", lhs, rhs),
        IROp::Unless => emit_branch(out, "je", lhs, rhs),
        IROp::Load(size) => emit_load(out, *size, lhs, rhs),
        IROp::Store(size) => emit_store(out, *size, lhs, rhs),
        IROp::StoreArg(size) => emit_store_arg(out, *size, lhs, rhs),
        IROp::Add => emit2(out, "add", reg(lhs, 8), reg(rhs, 8)),
        IROp::AddImm => {
            let value = imm32_string(rhs);
            emit2(out, "add", reg(lhs, 8), value.as_str());
        },
        IROp::Sub => emit2(out, "sub", reg(lhs, 8), reg(rhs, 8)),
        IROp::SubImm => {
            let value = imm32_string(rhs);
            emit2(out, "sub", reg(lhs, 8), value.as_str());
        },
        IROp::Bprel => {
            let addr = frame_operand(rhs);
            emit2(out, "lea", reg(lhs, 8), addr.as_str());
        },
        IROp::Mul => emit_mul(out, lhs, rhs),
        IROp::MulImm => {
            let value = imm32_string(rhs);
            emit3(out, "imul", reg(lhs, 8), reg(lhs, 8), value.as_str());
        },
        IROp::Div => emit_div(out, "rax", lhs, rhs),
        IROp::Nop | IROp::Kill => {
            assert(out@ =~= old(out)@ + render(Seq::<AsmLine>::empty()));
        },
        IROp::AVX512Add => emit_simd3(out, "vaddpd", lhs, rhs),
        IROp::AVX512Sub => emit_simd3(out, "vsubpd", lhs, rhs),
        IROp::AVX512Mul => emit_simd3(out, "vmulpd", lhs, rhs),
        IROp::AVX512Div => emit_simd3(out, "vdivpd", lhs, rhs),
        IROp::AVX512Load => emit_simd_load(out, "vmovapd", lhs, rhs, false),
        IROp::AVX512LoadStack => {
            let dst = simd_reg("zmm", lhs);
            let addr = stack_operand(lhs * 8);
            emit2(out, "vmovapd", dst.as_str(), addr.as_str());
        },
        IROp::AVX512Store => emit_simd_store(out, "vmovapd", lhs, rhs, false),
        IROp::AVX512StoreStack => {
            let src = simd_reg("zmm", rhs);
            let addr = stack_operand(lhs * 8);
            emit2(out, "vmovapd", addr.as_str(), src.as_str());
        },
        IROp::AVX512Mov => emit_simd2(out, "vmovapd", lhs, rhs),
        IROp::AVX512Addi => emit_simd3(out, "vpaddd", lhs, rhs),
        IROp::AVX512Subi => emit_simd3(out, "vpsubd", lhs, rhs),
        IROp::AVX512Muli => emit_simd3(out, "vpmulld", lhs, rhs),
        IROp::AVX512Loadi => emit_simd_load(out, "vmovdqu32", lhs, rhs, false),
        IROp::AVX512Storei => emit_simd_store(out, "vmovdqu32", lhs, rhs, false),
        IROp::AVX512Movi => emit_simd2(out, "vmovdqu32", lhs, rhs),
        IROp::AVX512Zero => {
            let dst = simd_reg("zmm", lhs);
            emit3(out, "vpxord", dst.as_str(), dst.as_str(), dst.as_str());
        },
        IROp::AVX512Set1 => emit_simd_set(out, "vbroadcastsd", lhs, rhs),
        IROp::AVX512Set1i => emit_simd_set(out, "vpbroadcastd", lhs, rhs),
        IROp::AVX512Cmplt => emit_simd_mask(out, "vcmpltpd", lhs, rhs),
        IROp::AVX512Cmple => emit_simd_mask(out, "vcmplepd", lhs, rhs),
        IROp::AVX512Cmpeq => emit_simd_mask(out, "vcmpeqpd", lhs, rhs),
        IROp::AVX512MaskMove => {
            let l = simd_reg("zmm", lhs);
            let dst = masked_operand(l.as_str());
            let src = simd_reg("zmm", rhs);
            emit2(out, "vmovapd", dst.as_str(), src.as_str());
        },
        IROp::AVX512MaskLoad => emit_simd_load(out, "vmovapd", lhs, rhs, true),
        IROp::AVX512MaskStore => emit_simd_store(out, "vmovapd", lhs, rhs, true),
        IROp::AVX512Cvtdq2pd => {
            let dst = simd_reg("zmm", lhs);
            let src = simd_reg("ymm", rhs);
            emit2(out, "vcvtdq2pd", dst.as_str(), src.as_str());
        },
        IROp::AVX512Cvtpd2dq => {
            let dst = simd_reg("ymm", lhs);
            let src = simd_reg("zmm", rhs);
            emit2(out, "vcvtpd2dq", dst.as_str(), src.as_str());
        },
        IROp::AVX512Extract => {
            let src = simd_reg("xmm", rhs);
            emit2(out, "vmovq", reg(lhs, 8), src.as_str());
        },
        IROp::AVX512Insert => {
            let dst = simd_reg("xmm", lhs);
            emit4(out, "vpinsrq", dst.as_str(), dst.as_str(), reg(rhs, 8), "0");
        },
        IROp::AVX512FMA => emit_simd3(out, "vfmadd231pd", lhs, rhs),
        IROp::AVX512Sqrt => emit_simd2(out, "vsqrtpd", lhs, rhs),
        IROp::AVX512And => emit_simd3(out, "vandpd", lhs, rhs),
        IROp::AVX512Max => emit_simd3(out, "vmaxpd", lhs, rhs),
        IROp::AVX512Min => emit_simd3(out, "vminpd", lhs, rhs),
    }
}

/// The lines of the instructions `irs`, in order.
pub open spec fn body_lines(irs: Seq<IR>, ret: Seq<char>) -> Seq<AsmLine>
    decreases irs.len(),
{
    if irs.len() == 0 {
        Seq::empty()
    } else {
        body_lines(irs.drop_last(), ret) + insn_lines(irs.last(), ret)
    }
}

/// The number of bytes that the prologue takes from the stack for a frame
/// of `stacksize` bytes: `stacksize` rounded up to a multiple of 64.
pub open spec fn frame_size(stacksize: usize) -> int {
    spec_roundup(stacksize as int, 64)
}

/// The lines that open a function: directives, its label, and the set-up
/// of its frame.
pub open spec fn prologue_lines(name: Seq<char>, stacksize: usize) -> Seq<AsmLine> {
    one(AsmLine::Plain(".text"@)) + one(AsmLine::Plain(".global "@ + name)) + one(
        AsmLine::Label(name),
    ) + one(op1("push"@, "rbp"@)) + one(op2("mov"@, "rbp"@, "rsp"@)) + one(
        op2("sub"@, "rsp"@, decimal(frame_size(stacksize) as nat)),
    ) + one(op1("push"@, "r12"@)) + one(op1("push"@, "r13"@)) + one(op1("push"@, "r14"@)) + one(
        op1("push"@, "r15"@),
    )
}

/// The lines that close a function: the label that `Return` jumps to, and
/// the restoring of registers and frame.
pub open spec fn epilogue_lines(ret: Seq<char>) -> Seq<AsmLine> {
    one(AsmLine::Label(ret)) + one(op1("pop"@, "r15"@)) + one(op1("pop"@, "r14"@)) + one(
        op1("pop"@, "r13"@),
    ) + one(op1("pop"@, "r12"@)) + one(op2("mov"@, "rsp"@, "rbp"@)) + one(op1("pop"@, "rbp"@))
        + one(op0("ret"@))
}

/// The lines of the function `f`, whose epilogue label has the number
/// `label`.
pub open spec fn function_lines(f: FunctionView, label: int) -> Seq<AsmLine> {
    prologue_lines(f.name, f.stacksize) + body_lines(f.ir, end_label(label)) + epilogue_lines(
        end_label(label),
    )
}

/// Whether assembly can be generated for `f`: for each of its
/// instructions, and its frame size can be rounded up.
pub open spec fn function_emittable(f: FunctionView) -> bool {
    &&& f.stacksize + 63 <= usize::MAX
    &&& forall|i: int| 0 <= i < f.ir.len() ==> emittable(#[trigger] f.ir[i])
}

fn emit_prologue(out: &mut String, name: &str, stacksize: usize)
    requires
        stacksize + 63 <= usize::MAX,
    ensures
        final(out)@ == old(out)@ + render(prologue_lines(name@, stacksize)),
{
    let mut global = String::from_str(".global ");
    global.append(name);
    let frame = decimal_string(roundup(stacksize, 64));
    let ghost start = out@;
    let ghost l0 = AsmLine::Plain(".text"@);
    let ghost l1 = AsmLine::Plain(".global "@ + name@);
    let ghost l2 = AsmLine::Label(name@);
    let ghost l3 = op1("push"@, "rbp"@);
    let ghost l4 = op2("mov"@, "rbp"@, "rsp"@);
    let ghost l5 = op2("sub"@, "rsp"@, decimal(frame_size(stacksize) as nat));
    let ghost l6 = op1("push"@, "r12"@);
    let ghost l7 = op1("push"@, "r13"@);
    let ghost l8 = op1("push"@, "r14"@);
    let ghost l9 = op1("push"@, "r15"@);
    emit_plain(out, ".text");
    let ghost t0 = out@;
    emit_plain(out, global.as_str());
    let ghost t1 = out@;
    proof {
        lemma_render_more(start, one(l0), l1, t0, t1);
    }
    emit_label(out, name);
    let ghost t2 = out@;
    proof {
        lemma_render_more(start, one(l0) + one(l1), l2, t1, t2);
    }
    emit1(out, "push", "rbp");
    let ghost t3 = out@;
    proof {
        lemma_render_more(start, one(l0) + one(l1) + one(l2), l3, t2, t3);
    }
    emit2(out, "mov", "rbp", "rsp");
    let ghost t4 = out@;
    proof {
        lemma_render_more(start, one(l0) + one(l1) + one(l2) + one(l3), l4, t3, t4);
    }
    emit2(out, "sub", "rsp", frame.as_str());
    let ghost t5 = out@;
    proof {
        lemma_render_more(start, one(l0) + one(l1) + one(l2) + one(l3) + one(l4), l5, t4, t5);
    }
    emit1(out, "push", "r12");
    let ghost t6 = out@;
    proof {
        lemma_render_more(
            start,
            one(l0) + one(l1) + one(l2) + one(l3) + one(l4) + one(l5),
            l6,
            t5,
            t6,
        );
    }
    emit1(out, "push", "r13");
    let ghost t7 = out@;
    proof {
        lemma_render_more(
            start,
            one(l0) + one(l1) + one(l2) + one(l3) + one(l4) + one(l5) + one(l6),
            l7,
            t6,
            t7,
        );
    }
    emit1(out, "push", "r14");
    let ghost t8 = out@;
    proof {
        lemma_render_more(
            start,
            one(l0) + one(l1) + one(l2) + one(l3) + one(l4) + one(l5) + one(l6) + one(l7),
            l8,
            t7,
            t8,
        );
    }
    emit1(out, "push", "r15");
    proof {
        lemma_render_more(
            start,
            one(l0) + one(l1) + one(l2) + one(l3) + one(l4) + one(l5) + one(l6) + one(l7) + one(
                l8,
            ),
            l9,
            t8,
            out@,
        );
    }
}

fn emit_epilogue(out: &mut String, ret: &str)
    ensures
        final(out)@ == old(out)@ + render(epilogue_lines(ret@)),
{
    let ghost start = out@;
    let ghost l0 = AsmLine::Label(ret@);
    let ghost l1 = op1("pop"@, "r15"@);
    let ghost l2 = op1("pop"@, "r14"@);
    let ghost l3 = op1("pop"@, "r13"@);
    let ghost l4 = op1("pop"@, "r12"@);
    let ghost l5 = op2("mov"@, "rsp"@, "rbp"@);
    let ghost l6 = op1("pop"@, "rbp"@);
    let ghost l7 = op0("ret"@);
    emit_label(out, ret);
    let ghost t0 = out@;
    emit1(out, "pop", "r15");
    let ghost t1 = out@;
    proof {
        lemma_render_more(start, one(l0), l1, t0, t1);
    }
    emit1(out, "pop", "r14");
    let ghost t2 = out@;
    proof {
        lemma_render_more(start, one(l0) + one(l1), l2, t1, t2);
    }
    emit1(out, "pop", "r13");
    let ghost t3 = out@;
    proof {
        lemma_render_more(start, one(l0) + one(l1) + one(l2), l3, t2, t3);
    }
    emit1(out, "pop", "r12");
    let ghost t4 = out@;
    proof {
        lemma_render_more(start, one(l0) + one(l1) + one(l2) + one(l3), l4, t3, t4);
    }
    emit2(out, "mov", "rsp", "rbp");
    let ghost t5 = out@;
    proof {
        lemma_render_more(start, one(l0) + one(l1) + one(l2) + one(l3) + one(l4), l5, t4, t5);
    }
    emit1(out, "pop", "rbp");
    let ghost t6 = out@;
    proof {
        lemma_render_more(
            start,
            one(l0) + one(l1) + one(l2) + one(l3) + one(l4) + one(l5),
            l6,
            t5,
            t6,
        );
    }
    emit0(out, "ret");
    proof {
        lemma_render_more(
            start,
            one(l0) + one(l1) + one(l2) + one(l3) + one(l4) + one(l5) + one(l6),
            l7,
            t6,
            out@,
        );
    }
}

/// Appends the assembly of the function `f`.  Its epilogue label gets its
/// number from the counter `label`, which is advanced by one.
pub fn gen(out: &mut String, f: &Function, label: &mut usize)
    requires
        function_emittable(f@),
        *old(label) < usize::MAX,
    ensures
        final(out)@ == old(out)@ + render(function_lines(f@, *old(label) as int)),
        *final(label) == *old(label) + 1,
{
    let mut ret = String::from_str(".Lend");
    push_decimal(&mut ret, *label as u64);
    let ghost number = *label as int;
    *label = *label + 1;
    emit_prologue(out, f.name.as_str(), f.stacksize);
    let ghost start = out@;
    let mut i: usize = 0;
    proof {
        assert(f.ir@.take(0) =~= Seq::<IR>::empty());
        assert(render(body_lines(f.ir@.take(0), ret@)) =~= Seq::<char>::empty());
        assert(out@ =~= start + render(body_lines(f.ir@.take(0), ret@)));
    }
    while i < f.ir.len()
        invariant
            i <= f.ir.len(),
            function_emittable(f@),
            out@ == start + render(body_lines(f.ir@.take(i as int), ret@)),
        decreases f.ir.len() - i,
    {
        let ghost before = out@;
        assert(emittable(f@.ir[i as int]));
        gen_insn(out, &f.ir[i], ret.as_str());
        proof {
            let done = f.ir@.take(i as int);
            let next = f.ir@.take(i + 1);
            assert(next.drop_last() =~= done);
            assert(next.last() == f.ir@[i as int]);
            assert(body_lines(next, ret@) == body_lines(done, ret@) + insn_lines(
                f.ir@[i as int],
                ret@,
            ));
            lemma_render_concat(body_lines(done, ret@), insn_lines(f.ir@[i as int], ret@));
            assert(out@ == before + render(insn_lines(f.ir@[i as int], ret@)));
            assert(out@ =~= start + render(body_lines(next, ret@)));
        }
        i += 1;
    }
    let ghost filled = out@;
    emit_epilogue(out, ret.as_str());
    proof {
        assert(f.ir@.take(i as int) =~= f.ir@);
        let head = prologue_lines(f@.name, f@.stacksize);
        let body = body_lines(f@.ir, ret@);
        let tail = epilogue_lines(ret@);
        assert(ret@ == end_label(number));
        assert(function_lines(f@, number) == head + body + tail);
        lemma_render_concat(head, body);
        lemma_render_concat(head + body, tail);
        assert(start == old(out)@ + render(head));
        assert(filled == start + render(body));
        assert(out@ == filled + render(tail));
        assert(out@ =~= old(out)@ + (render(head) + render(body) + render(tail)));
    }
}

/// How one byte of initial data is escaped: the six characters with a
/// short escape as a backslash and a letter or mark, every other visible
/// character and the space as themselves, and every other byte as a
/// backslash and three octal digits.
pub open spec fn escape_byte(b: u8) -> Seq<char> {
    if b == 10 {
        seq!['\\', 'n']
    } else if b == 13 {
        seq!['\\', 'r']
    } else if b == 9 {
        seq!['\\', 't']
    } else if b == 92 {
        seq!['\\', '\\']
    } else if b == 39 {
        seq!['\\', '\'']
    } else if b == 34 {
        seq!['\\', '"']
    } else if 32 <= b <= 126 {
        seq![b as char]
    } else {
        seq!['\\', digit_char(b as int / 64), digit_char((b as int / 8) % 8), digit_char(b as int % 8)]
    }
}

/// The escaped form of a sequence of bytes.
pub open spec fn escape_bytes(bytes: Seq<u8>) -> Seq<char>
    decreases bytes.len(),
{
    if bytes.len() == 0 {
        Seq::empty()
    } else {
        escape_bytes(bytes.drop_last()) + escape_byte(bytes.last())
    }
}

/// The first `len` bytes of `data`, with zeros where `data` is shorter.
pub open spec fn padded(data: Seq<u8>, len: nat) -> Seq<u8> {
    Seq::new(
        len,
        |i: int|
            if i < data.len() {
                data[i]
            } else {
                0u8
            },
    )
}

/// The bytes that a global of `len` bytes with the initial data `data`
/// occupies: `data` cut or zero-filled to `len` bytes, and a terminating
/// zero byte unless the filling has already supplied one.
pub open spec fn initializer(data: Seq<u8>, len: nat) -> Seq<u8> {
    if len <= data.len() {
        padded(data, len).push(0u8)
    } else {
        padded(data, len)
    }
}

/// The character `c` as it stands inside a string in backquotes: the
/// backquote with a backslash before it, every other character as it is.
pub open spec fn guarded_char(c: char) -> Seq<char> {
    if c == '`' {
        seq!['\\', '`']
    } else {
        seq![c]
    }
}

/// The text `t` as it stands inside a string in backquotes: each of its
/// backquotes has a backslash before it, so that none ends the string.
pub open spec fn guarded(t: Seq<char>) -> Seq<char>
    decreases t.len(),
{
    if t.len() == 0 {
        Seq::empty()
    } else {
        guarded(t.drop_last()) + guarded_char(t.last())
    }
}

fn push_escaped(sb: &mut String, b: u8)
    ensures
        final(sb)@ == old(sb)@ + escape_byte(b),
{
    if b == 10 {
        sb.append("\\n");
        proof {
            reveal_strlit("\\n");
            assert("\\n"@ =~= escape_byte(b));
        }
    } else if b == 13 {
        sb.append("\\r");
        proof {
            reveal_strlit("\\r");
            assert("\\r"@ =~= escape_byte(b));
        }
    } else if b == 9 {
        sb.append("\\t");
        proof {
            reveal_strlit("\\t");
            assert("\\t"@ =~= escape_byte(b));
        }
    } else if b == 92 {
        sb.append("\\\\");
        proof {
            reveal_strlit("\\\\");
            assert("\\\\"@ =~= escape_byte(b));
        }
    } else if b == 39 {
        sb.append("\\'");
        proof {
            reveal_strlit("\\'");
            assert("\\'"@ =~= escape_byte(b));
        }
    } else if b == 34 {
        sb.append("\\\"");
        proof {
            reveal_strlit("\\\"");
            assert("\\\""@ =~= escape_byte(b));
        }
    } else if 32 <= b && b <= 126 {
        push_char(sb, b as char);
        assert(final(sb)@ =~= old(sb)@ + escape_byte(b));
    } else {
        push_char(sb, '\\');
        push_digit(sb, b / 64);
        push_digit(sb, (b / 8) % 8);
        push_digit(sb, b % 8);
        assert(final(sb)@ =~= old(sb)@ + escape_byte(b));
    }
}

/// The initial data of a global of `len` bytes in their escaped form.
pub fn backslash_escape(data: &[u8], len: usize) -> (sb: String)
    ensures
        sb@ == escape_bytes(initializer(data@, len as nat)),
{
    let mut sb = String::new();
    let mut i: usize = 0;
    assert(padded(data@, 0) =~= Seq::<u8>::empty());
    while i < len
        invariant
            i <= len,
            sb@ == escape_bytes(padded(data@, i as nat)),
        decreases len - i,
    {
        let b = if i < data.len() {
            data[i]
        } else {
            0u8
        };
        push_escaped(&mut sb, b);
        proof {
            let next = padded(data@, (i + 1) as nat);
            assert(next.drop_last() =~= padded(data@, i as nat));
            assert(next.last() == b);
        }
        i += 1;
    }
    if len <= data.len() {
        push_escaped(&mut sb, 0);
        proof {
            let all = padded(data@, len as nat).push(0u8);
            assert(all.drop_last() =~= padded(data@, len as nat));
            assert(all.last() == 0u8);
        }
    }
    sb
}

/// The lines before anything else: the mode, and the names that the
/// program exports and imports.
pub open spec fn header_lines() -> Seq<AsmLine> {
    one(AsmLine::Plain("bits 64"@)) + one(AsmLine::Plain("section .text"@)) + one(
        AsmLine::Plain("global main"@),
    ) + one(AsmLine::Plain("extern printf"@)) + one(AsmLine::Plain("extern exit"@)) + one(
        AsmLine::Plain(""@),
    )
}

/// The text `text` as it stands inside a string in backquotes.
pub fn guard_backquotes(text: &str) -> (r: String)
    ensures
        r@ == guarded(text@),
{
    let n = text.unicode_len();
    let mut r = String::new();
    let mut i: usize = 0;
    while i < n
        invariant
            i <= n,
            n == text@.len(),
            r@ == guarded(text@.take(i as int)),
        decreases n - i,
    {
        let c = text.get_char(i);
        proof {
            let next = text@.take(i + 1);
            assert(next.drop_last() =~= text@.take(i as int));
            assert(next.last() == c);
        }
        if c == '`' {
            proof {
                reveal_strlit("\\`");
            }
            r.append("\\`");
            assert(r@ =~= guarded(text@.take(i as int)) + guarded_char(c));
        } else {
            push_char(&mut r, c);
            assert(r@ =~= guarded(text@.take(i as int)) + guarded_char(c));
        }
        i += 1;
    }
    assert(text@.take(n as int) =~= text@);
    r
}

/// The directive that reserves and fills the storage of a global: `len`
/// zero bytes where it has no initial data, else its initial data as a
/// string in backquotes, escaped, with every backquote among them
/// guarded.
pub open spec fn data_directive(data: Seq<u8>, len: usize) -> Seq<char> {
    if data.len() == 0 {
        "    times "@ + decimal(len as nat) + " db 0"@
    } else {
        "    db `"@ + guarded(escape_bytes(initializer(data, len as nat))) + "`"@
    }
}

/// The lines of one declared object: a global that is defined here gets
/// its label and its data, anything else gets nothing.
pub open spec fn global_lines(v: Var) -> Seq<AsmLine> {
    match v.scope {
        Scope::Global(data, len, is_extern) => if is_extern {
            Seq::empty()
        } else {
            one(AsmLine::Label(v.name@)) + one(AsmLine::Plain(data_directive(data@, len)))
        },
        Scope::Local(_, _) => Seq::empty(),
    }
}

/// The lines of the declared objects `globals`, in order.
pub open spec fn globals_lines(globals: Seq<Var>) -> Seq<AsmLine>
    decreases globals.len(),
{
    if globals.len() == 0 {
        Seq::empty()
    } else {
        globals_lines(globals.drop_last()) + global_lines(globals.last())
    }
}

/// The data section: absent if no global is defined here.
pub open spec fn data_lines(globals: Seq<Var>) -> Seq<AsmLine> {
    if globals_lines(globals).len() == 0 {
        Seq::empty()
    } else {
        one(AsmLine::Plain("section .data"@)) + globals_lines(globals) + one(AsmLine::Plain(""@))
    }
}

/// The lines of the functions `fns`, each followed by an empty line; the
/// epilogue labels are numbered from `label` on.
pub open spec fn functions_lines(fns: Seq<FunctionView>, label: int) -> Seq<AsmLine>
    decreases fns.len(),
{
    if fns.len() == 0 {
        Seq::empty()
    } else {
        functions_lines(fns.drop_last(), label) + function_lines(
            fns.last(),
            label + fns.len() - 1,
        ) + one(AsmLine::Plain(""@))
    }
}

/// The lines of a whole program.
pub open spec fn program_lines(globals: Seq<Var>, fns: Seq<FunctionView>, label: int) -> Seq<
    AsmLine,
> {
    header_lines() + data_lines(globals) + one(AsmLine::Plain("section .text"@))
        + functions_lines(fns, label)
}

/// Whether assembly can be generated for each function of `fns`.
pub open spec fn program_emittable(fns: Seq<FunctionView>) -> bool {
    forall|i: int| 0 <= i < fns.len() ==> function_emittable(#[trigger] fns[i])
}

/// Appends the lines before anything else.
pub fn emit_header(out: &mut String)
    ensures
        final(out)@ == old(out)@ + render(header_lines()),
{
    let ghost start = out@;
    let ghost l0 = AsmLine::Plain("bits 64"@);
    let ghost l1 = AsmLine::Plain("section .text"@);
    let ghost l2 = AsmLine::Plain("global main"@);
    let ghost l3 = AsmLine::Plain("extern printf"@);
    let ghost l4 = AsmLine::Plain("extern exit"@);
    let ghost l5 = AsmLine::Plain(""@);
    emit_plain(out, "bits 64");
    let ghost t0 = out@;
    emit_plain(out, "section .text");
    let ghost t1 = out@;
    proof {
        lemma_render_more(start, one(l0), l1, t0, t1);
    }
    emit_plain(out, "global main");
    let ghost t2 = out@;
    proof {
        lemma_render_more(start, one(l0) + one(l1), l2, t1, t2);
    }
    emit_plain(out, "extern printf");
    let ghost t3 = out@;
    proof {
        lemma_render_more(start, one(l0) + one(l1) + one(l2), l3, t2, t3);
    }
    emit_plain(out, "extern exit");
    let ghost t4 = out@;
    proof {
        lemma_render_more(start, one(l0) + one(l1) + one(l2) + one(l3), l4, t3, t4);
    }
    emit_plain(out, "");
    proof {
        lemma_render_more(start, one(l0) + one(l1) + one(l2) + one(l3) + one(l4), l5, t4, out@);
    }
}

fn emit_global(out: &mut String, v: &Var) -> (defined: bool)
    ensures
        final(out)@ == old(out)@ + render(global_lines(*v)),
        defined == (global_lines(*v).len() > 0),
{
    broadcast use group_render;

    match &v.scope {
        Scope::Global(data, len, is_extern) => {
            if *is_extern {
                assert(out@ =~= old(out)@ + render(Seq::<AsmLine>::empty()));
                false
            } else {
                emit_label(out, v.name.as_str());
                if data.len() == 0 {
                    let mut directive = String::from_str("    times ");
                    push_decimal(&mut directive, *len as u64);
                    directive.append(" db 0");
                    emit_plain(out, directive.as_str());
                } else {
                    let mut directive = String::from_str("    db `");
                    let escaped = backslash_escape(data.as_slice(), *len);
                    let string = guard_backquotes(escaped.as_str());
                    directive.append(string.as_str());
                    directive.append("`");
                    emit_plain(out, directive.as_str());
                }
                assert(final(out)@ =~= old(out)@ + render(global_lines(*v)));
                true
            }
        },
        Scope::Local(_, _) => {
            assert(out@ =~= old(out)@ + render(Seq::<AsmLine>::empty()));
            false
        },
    }
}

fn emit_data(out: &mut String, globals: &Vec<Var>)
    ensures
        final(out)@ == old(out)@ + render(data_lines(globals@)),
{
    broadcast use group_render;

    let mut data = String::new();
    let mut any = false;
    let mut i: usize = 0;
    assert(globals@.take(0) =~= Seq::<Var>::empty());
    while i < globals.len()
        invariant
            i <= globals.len(),
            data@ == render(globals_lines(globals@.take(i as int))),
            any == (globals_lines(globals@.take(i as int)).len() > 0),
        decreases globals.len() - i,
    {
        let ghost before = data@;
        let defined = emit_global(&mut data, &globals[i]);
        proof {
            let done = globals@.take(i as int);
            let next = globals@.take(i + 1);
            assert(next.drop_last() =~= done);
            assert(next.last() == globals@[i as int]);
            assert(globals_lines(next) == globals_lines(done) + global_lines(
                globals@[i as int],
            ));
            lemma_render_concat(globals_lines(done), global_lines(globals@[i as int]));
        }
        any = any || defined;
        i += 1;
    }
    proof {
        assert(globals@.take(i as int) =~= globals@);
    }
    if any {
        emit_plain(out, "section .data");
        out.append(data.as_str());
        emit_plain(out, "");
    }
    assert(final(out)@ =~= old(out)@ + render(data_lines(globals@)));
}

/// The assembly of a whole program: the header, the data section with
/// every global that is defined here, and the text section with every
/// function.  The epilogue labels take their numbers from `label`, which
/// is advanced by one for each function.
pub fn gen_x86(globals: Vec<Var>, fns: Vec<Function>, label: &mut usize) -> (out: String)
    requires
        program_emittable(views(fns@)),
        *old(label) + fns.len() <= usize::MAX,
    ensures
        out@ == render(program_lines(globals@, views(fns@), *old(label) as int)),
        *final(label) == *old(label) + fns.len(),
{
    broadcast use group_render;

    let mut out = String::new();
    emit_header(&mut out);
    emit_data(&mut out, &globals);
    emit_plain(&mut out, "section .text");
    let ghost start = out@;
    let ghost first = *label as int;
    let mut i: usize = 0;
    let ghost all = views(fns@);
    assert(all.take(0) =~= Seq::<FunctionView>::empty());
    while i < fns.len()
        invariant
            i <= fns.len(),
            all == views(fns@),
            program_emittable(all),
            first + fns.len() <= usize::MAX,
            *label == first + i,
            out@ == start + render(functions_lines(all.take(i as int), first)),
        decreases fns.len() - i,
    {
        let ghost before = out@;
        assert(function_emittable(all[i as int]));
        gen(&mut out, &fns[i], label);
        emit_plain(&mut out, "");
        proof {
            let done = all.take(i as int);
            let next = all.take(i + 1);
            assert(next.drop_last() =~= done);
            assert(next.last() == fns@[i as int]@);
            let added = function_lines(fns@[i as int]@, first + i) + one(AsmLine::Plain(""@));
            assert(functions_lines(next, first) == functions_lines(done, first) + function_lines(
                fns@[i as int]@,
                first + i,
            ) + one(AsmLine::Plain(""@)));
            assert(functions_lines(next, first) =~= functions_lines(done, first) + added);
            lemma_render_concat(functions_lines(done, first), added);
            lemma_render_concat(
                function_lines(fns@[i as int]@, first + i),
                one(AsmLine::Plain(""@)),
            );
            assert(out@ =~= before + render(added));
            assert(out@ =~= start + render(functions_lines(next, first)));
        }
        i += 1;
    }
    proof {
        assert(all.take(i as int) =~= all);
        assert(out@ =~= render(program_lines(globals@, all, first)));
    }
    out
}


fn args_in_pool(args: &[usize; 6], nargs: usize) -> (b: bool)
    requires
        nargs <= 6,
    ensures
        b == forall|i: int| 0 <= i < nargs ==> is_pool_reg(#[trigger] args@[i] as int),
{
    let mut i: usize = 0;
    while i < nargs
        invariant
            i <= nargs <= 6,
            forall|j: int| 0 <= j < i ==> is_pool_reg(#[trigger] args@[j] as int),
        decreases nargs - i,
    {
        if args[i] >= 7 {
            assert(!is_pool_reg(args@[i as int] as int));
            return false;
        }
        i += 1;
    }
    true
}

/// Whether assembly can be generated for `ir`.
pub fn is_emittable(ir: &IR) -> (b: bool)
    ensures
        b == emittable(*ir),
{
    let l = operand(ir.lhs);
    let r = operand(ir.rhs);
    match &ir.op {
        IROp::Imm | IROp::Return | IROp::LabelAddr(_) | IROp::Neg | IROp::If | IROp::Unless
        | IROp::AddImm | IROp::SubImm | IROp::Bprel | IROp::MulImm => l < 7,
        IROp::Mov | IROp::AND | IROp::OR | IROp::XOR | IROp::SHL | IROp::SHR | IROp::Mod
        | IROp::Add | IROp::Sub | IROp::Mul | IROp::Div => l < 7 && r < 7,
        IROp::EQ | IROp::NE | IROp::LT | IROp::LE => ir.lhs.is_some() && ir.rhs.is_some() && l < 7
            && r < 7,
        IROp::Call(_, nargs, args) => *nargs <= 6 && l < 7 && args_in_pool(args, *nargs),
        IROp::Label | IROp::Jmp | IROp::Nop | IROp::Kill => true,
        IROp::Load(size) | IROp::Store(size) => (*size == 1 || *size == 4 || *size == 8) && l < 7
            && r < 7,
        IROp::StoreArg(size) => (*size == 1 || *size == 4 || *size == 8) && r < 6,
        IROp::AVX512Add | IROp::AVX512Sub | IROp::AVX512Mul | IROp::AVX512Div
        | IROp::AVX512Mov | IROp::AVX512Addi | IROp::AVX512Subi | IROp::AVX512Muli
        | IROp::AVX512Movi | IROp::AVX512Cmplt | IROp::AVX512Cmple | IROp::AVX512Cmpeq
        | IROp::AVX512MaskMove | IROp::AVX512Cvtdq2pd | IROp::AVX512Cvtpd2dq | IROp::AVX512FMA
        | IROp::AVX512Sqrt | IROp::AVX512And | IROp::AVX512Max | IROp::AVX512Min
        | IROp::AVX512StoreStack => l < 32 && r < 32,
        IROp::AVX512Zero | IROp::AVX512LoadStack => l < 32,
        IROp::AVX512Load | IROp::AVX512Loadi | IROp::AVX512Set1 | IROp::AVX512Set1i
        | IROp::AVX512MaskLoad | IROp::AVX512Insert => l < 32 && r < 7,
        IROp::AVX512Store | IROp::AVX512Storei | IROp::AVX512MaskStore
        | IROp::AVX512Extract => l < 7 && r < 32,
    }
}


/// The prologue of every function takes a multiple of 64 bytes from the
/// stack, and not less than the frame of the function: its sixth line is
/// `sub rsp, K` for such a `K`.
pub proof fn lemma_frame_alignment(f: FunctionView, label: int)
    ensures
        function_lines(f, label)[5] == op2(
            "sub"@,
            "rsp"@,
            decimal(frame_size(f.stacksize) as nat),
        ),
        frame_size(f.stacksize) % 64 == 0,
        f.stacksize <= frame_size(f.stacksize) < f.stacksize + 64,
{
    lemma_roundup(f.stacksize as int, 64);
}

/// The names of the argument registers differ from each other.
pub proof fn lemma_argument_registers_differ(i: int, j: int)
    requires
        0 <= i < 6,
        0 <= j < 6,
        i != j,
    ensures
        argreg64(i) != argreg64(j),
{
    reveal_strlit("rdi");
    reveal_strlit("rsi");
    reveal_strlit("rdx");
    reveal_strlit("rcx");
    reveal_strlit("r8");
    reveal_strlit("r9");
    assert("rdi"@[1] == 'd' && "rsi"@[1] == 's' && "rdx"@[2] == 'x' && "rcx"@[1] == 'c');
    assert("rdi"@[2] == 'i' && "rdi"@.len() == 3 && "r8"@.len() == 2 && "r9"@.len() == 2);
    assert("r8"@[1] == '8' && "r9"@[1] == '9' && "rdx"@[1] == 'd' && "rsi"@.len() == 3);
    assert("rdx"@.len() == 3 && "rcx"@.len() == 3);
}

/// No argument register is a register of the allocator's pool, nor `rax`:
/// a move into one of these is no move into an argument register.
pub proof fn lemma_argument_registers_apart(i: int, p: int)
    requires
        0 <= i < 6,
        0 <= p < 7,
    ensures
        argreg64(i) != reg64(p),
        argreg64(i) != "rax"@,
{
    reveal_strlit("rdi");
    reveal_strlit("rsi");
    reveal_strlit("rdx");
    reveal_strlit("rcx");
    reveal_strlit("r8");
    reveal_strlit("r9");
    reveal_strlit("r10");
    reveal_strlit("r11");
    reveal_strlit("rbx");
    reveal_strlit("r12");
    reveal_strlit("r13");
    reveal_strlit("r14");
    reveal_strlit("r15");
    reveal_strlit("rax");
    assert("rdi"@[1] == 'd' && "rsi"@[1] == 's' && "rdx"@[2] == 'x' && "rcx"@[1] == 'c');
    assert("rdi"@[2] == 'i' && "rdi"@.len() == 3 && "r8"@.len() == 2 && "r9"@.len() == 2);
    assert("rdx"@[1] == 'd' && "rsi"@.len() == 3 && "rdx"@.len() == 3 && "rcx"@.len() == 3);
    assert("r10"@[1] == '1' && "r11"@[1] == '1' && "rbx"@[1] == 'b' && "r12"@[1] == '1');
    assert("r13"@[1] == '1' && "r14"@[1] == '1' && "r15"@[1] == '1' && "rax"@[1] == 'a');
    assert("r10"@.len() == 3 && "r11"@.len() == 3 && "r12"@.len() == 3 && "r13"@.len() == 3);
    assert("r14"@.len() == 3 && "r15"@.len() == 3 && "rbx"@.len() == 3 && "rax"@.len() == 3);
    assert("rbx"@[2] == 'x' && "rax"@[2] == 'x');
}

/// A call with `n` arguments moves each of them into its argument
/// register, the first `n` of `rdi`, `rsi`, `rdx`, `rcx`, `r8`, `r9` in
/// this order, by one `mov` each.  Right behind these moves the two
/// caller-saved registers are pushed, `rax` is set to zero and the callee
/// is called; then the two registers are restored and the result is moved
/// out of `rax`.  No other line stands among them.
pub proof fn lemma_calling_convention(ir: IR, ret: Seq<char>)
    requires
        ir.op is Call,
        ir.op->Call_1 <= 6,
    ensures
        ({
            let n = ir.op->Call_1 as int;
            let args = ir.op->Call_2@;
            let lines = insn_lines(ir, ret);
            &&& lines.len() == n + 7
            &&& forall|i: int|
                0 <= i < n ==> #[trigger] lines[i] == op2(
                    "mov"@,
                    argreg64(i),
                    reg64(args[i] as int),
                )
            &&& lines[n] == op1("push"@, "r10"@)
            &&& lines[n + 1] == op1("push"@, "r11"@)
            &&& lines[n + 2] == op2("mov"@, "rax"@, "0"@)
            &&& lines[n + 3] == op1("call"@, ir.op->Call_0@)
            &&& lines[n + 4] == op1("pop"@, "r11"@)
            &&& lines[n + 5] == op1("pop"@, "r10"@)
            &&& lines[n + 6] == op2("mov"@, reg64(lhs_of(ir)), "rax"@)
        }),
{
}


/// The byte that a backslash and the character `c` stand for, for the
/// characters that form an escape of two characters.
pub open spec fn short_escape(c: char) -> Option<u8> {
    if c == 'n' {
        Some(10u8)
    } else if c == 'r' {
        Some(13u8)
    } else if c == 't' {
        Some(9u8)
    } else if c == '\\' {
        Some(92u8)
    } else if c == '\'' {
        Some(39u8)
    } else if c == '"' {
        Some(34u8)
    } else if c == '`' {
        Some(96u8)
    } else if c == '?' {
        Some(63u8)
    } else if c == 'a' {
        Some(7u8)
    } else if c == 'b' {
        Some(8u8)
    } else if c == 'v' {
        Some(11u8)
    } else if c == 'f' {
        Some(12u8)
    } else if c == 'e' {
        Some(27u8)
    } else {
        None
    }
}

/// The value of an octal digit; `None` for any other character.
pub open spec fn octal_value(c: char) -> Option<int> {
    if c == '0' {
        Some(0int)
    } else if c == '1' {
        Some(1int)
    } else if c == '2' {
        Some(2int)
    } else if c == '3' {
        Some(3int)
    } else if c == '4' {
        Some(4int)
    } else if c == '5' {
        Some(5int)
    } else if c == '6' {
        Some(6int)
    } else if c == '7' {
        Some(7int)
    } else {
        None
    }
}

/// The bytes `rest` with `b` before them.
pub open spec fn prepend(b: u8, rest: Option<Seq<u8>>) -> Option<Seq<u8>> {
    match rest {
        Some(r) => Some(seq![b] + r),
        None => None,
    }
}

/// The bytes that the assembler reads from the inside `t` of a string in
/// backquotes: an ASCII character other than the backslash stands for
/// itself; a backslash forms an escape with the character after it, or
/// with the up to three octal digits after it.  `None` where `t` is no
/// such string: a backquote that no backslash stands before would end it,
/// and a character beyond ASCII is more than one byte.
pub open spec fn unescape(t: Seq<char>) -> Option<Seq<u8>>
    decreases t.len(),
{
    if t.len() == 0 {
        Some(Seq::empty())
    } else if t[0] == '`' {
        None
    } else if t[0] != '\\' {
        if (t[0] as u32) < 128 {
            prepend(t[0] as u8, unescape(t.skip(1)))
        } else {
            None
        }
    } else if t.len() < 2 {
        None
    } else if short_escape(t[1]) is Some {
        prepend(short_escape(t[1])->0, unescape(t.skip(2)))
    } else if octal_value(t[1]) is None {
        None
    } else if t.len() < 3 || octal_value(t[2]) is None {
        prepend(octal_value(t[1])->0 as u8, unescape(t.skip(2)))
    } else if t.len() < 4 || octal_value(t[3]) is None {
        prepend((octal_value(t[1])->0 * 8 + octal_value(t[2])->0) as u8, unescape(t.skip(3)))
    } else {
        let value = octal_value(t[1])->0 * 64 + octal_value(t[2])->0 * 8 + octal_value(t[3])->0;
        if value < 256 {
            prepend(value as u8, unescape(t.skip(4)))
        } else {
            None
        }
    }
}

/// Guarding goes character by character.
pub proof fn lemma_guarded_concat(a: Seq<char>, b: Seq<char>)
    ensures
        guarded(a + b) == guarded(a) + guarded(b),
    decreases b.len(),
{
    if b.len() == 0 {
        assert(a + b =~= a);
        assert(guarded(a) + guarded(b) =~= guarded(a));
    } else {
        lemma_guarded_concat(a, b.drop_last());
        assert((a + b).drop_last() =~= a + b.drop_last());
        assert((a + b).last() == b.last());
        assert(guarded(a + b) =~= guarded(a) + guarded(b));
    }
}

/// A text without a backquote stands in backquotes as it is.
pub proof fn lemma_guarded_plain(t: Seq<char>)
    requires
        forall|i: int| 0 <= i < t.len() ==> t[i] != '`',
    ensures
        guarded(t) == t,
    decreases t.len(),
{
    if t.len() > 0 {
        lemma_guarded_plain(t.drop_last());
        assert(guarded(t) =~= t);
    }
}

/// How one byte stands in the string of a directive: the backquote as a
/// backslash and a backquote, every other byte in its escaped form.
pub proof fn lemma_guarded_byte(b: u8)
    ensures
        guarded(escape_byte(b)) == if b == 96 {
            seq!['\\', '`']
        } else {
            escape_byte(b)
        },
{
    let e = escape_byte(b);
    if b == 96 {
        assert(e =~= seq!['`']);
        assert(e.drop_last() =~= Seq::<char>::empty());
        assert(guarded(e.drop_last()) =~= Seq::<char>::empty());
        assert(guarded(e) =~= seq!['\\', '`']);
    } else {
        if 32 <= b <= 126 && b != 10 && b != 13 && b != 9 && b != 92 && b != 39 && b != 34 {
            assert(e[0] == b as char);
        }
        lemma_guarded_plain(e);
    }
}

proof fn lemma_unescape_step(b: u8, tail: Seq<char>)
    ensures
        unescape(guarded(escape_byte(b)) + tail) == prepend(b, unescape(tail)),
{
    lemma_guarded_byte(b);
    let e = guarded(escape_byte(b));
    let t = e + tail;
    if b == 10 || b == 13 || b == 9 || b == 92 || b == 39 || b == 34 || b == 96 {
        assert(t[0] == '\\');
        assert(t[1] == e[1]);
        assert(t.skip(2) =~= tail);
    } else if 32 <= b <= 126 {
        assert(t[0] == b as char);
        assert(t[0] != '\\');
        assert(t[0] != '`');
        assert(t[0] as u8 == b);
        assert(t.skip(1) =~= tail);
    } else {
        let d2 = b as int / 64;
        let d1 = (b as int / 8) % 8;
        let d0 = b as int % 8;
        assert(0 <= d2 < 4 && 0 <= d1 < 8 && 0 <= d0 < 8);
        assert(d2 * 64 + d1 * 8 + d0 == b);
        assert(t[0] == '\\');
        assert(t[1] == digit_char(d2));
        assert(t[2] == digit_char(d1));
        assert(t[3] == digit_char(d0));
        assert(octal_value(t[1]) == Some(d2));
        assert(octal_value(t[2]) == Some(d1));
        assert(octal_value(t[3]) == Some(d0));
        assert(short_escape(t[1]) is None);
        assert(t.skip(4) =~= tail);
    }
}

proof fn lemma_escape_bytes_front(b: u8, rest: Seq<u8>)
    ensures
        escape_bytes(seq![b] + rest) == escape_byte(b) + escape_bytes(rest),
    decreases rest.len(),
{
    let all = seq![b] + rest;
    if rest.len() == 0 {
        assert(all.drop_last() =~= Seq::<u8>::empty());
        assert(all.last() == b);
        assert(rest =~= Seq::<u8>::empty());
        assert(escape_bytes(all.drop_last()) =~= Seq::<char>::empty());
        assert(escape_bytes(rest) =~= Seq::<char>::empty());
        assert(escape_bytes(all) =~= escape_byte(b) + escape_bytes(rest));
    } else {
        lemma_escape_bytes_front(b, rest.drop_last());
        assert(all.drop_last() =~= seq![b] + rest.drop_last());
        assert(all.last() == rest.last());
        assert(escape_bytes(all) =~= escape_byte(b) + escape_bytes(rest));
    }
}

/// What the directive holds for a sequence of bytes, their escaped form
/// with its backquotes guarded, is read back as these bytes.
pub proof fn lemma_escape_round_trip(bytes: Seq<u8>)
    ensures
        unescape(guarded(escape_bytes(bytes))) == Some(bytes),
    decreases bytes.len(),
{
    if bytes.len() > 0 {
        let rest = bytes.skip(1);
        assert(bytes =~= seq![bytes[0]] + rest);
        lemma_escape_bytes_front(bytes[0], rest);
        lemma_guarded_concat(escape_byte(bytes[0]), escape_bytes(rest));
        lemma_unescape_step(bytes[0], guarded(escape_bytes(rest)));
        lemma_escape_round_trip(rest);
    } else {
        assert(guarded(escape_bytes(bytes)) =~= Seq::<char>::empty());
    }
}

/// Where the data hold no backquote, their escaped form is what the
/// assembler reads them back from.
pub proof fn lemma_escape_round_trip_plain(bytes: Seq<u8>)
    requires
        forall|i: int| 0 <= i < bytes.len() ==> bytes[i] != 96,
    ensures
        guarded(escape_bytes(bytes)) == escape_bytes(bytes),
        unescape(escape_bytes(bytes)) == Some(bytes),
    decreases bytes.len(),
{
    lemma_escape_round_trip(bytes);
    if bytes.len() > 0 {
        let front = bytes.drop_last();
        lemma_escape_round_trip_plain(front);
        lemma_guarded_concat(escape_bytes(front), escape_byte(bytes.last()));
        lemma_guarded_byte(bytes.last());
    } else {
        assert(guarded(escape_bytes(bytes)) =~= Seq::<char>::empty());
    }
}

/// The initial data of a string are written so that the assembler reads
/// back exactly the bytes of the string followed by a zero byte: where the
/// string is declared with its own length, and also where it is declared
/// with room for its terminator.  What the assembler reads is the string
/// of the directive: the escaped form of the bytes, its backquotes
/// guarded.
pub proof fn lemma_escape_complete(data: Seq<u8>)
    ensures
        unescape(guarded(escape_bytes(initializer(data, data.len())))) == Some(data.push(0u8)),
        unescape(guarded(escape_bytes(initializer(data, data.len() + 1)))) == Some(
            data.push(0u8),
        ),
{
    assert(initializer(data, data.len()) =~= data.push(0u8));
    assert(initializer(data, data.len() + 1) =~= data.push(0u8));
    lemma_escape_round_trip(data.push(0u8));
}

} // verus!
