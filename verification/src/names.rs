//! Facts about the mnemonics.

use vstd::prelude::*;
use crate::gen_ir::IROp;
use crate::irdump::mnemonic;

verus! {

/// The operations that are printed under one mnemonic with operands of
/// different shapes.
pub open spec fn same_mnemonic(a: IROp, b: IROp) -> bool {
    ||| a == b
    ||| (a is Add || a is AddImm) && (b is Add || b is AddImm)
    ||| (a is Sub || a is SubImm) && (b is Sub || b is SubImm)
    ||| (a is Mul || a is MulImm) && (b is Mul || b is MulImm)
    ||| (a is Mov || a is Imm) && (b is Mov || b is Imm)
    ||| a is Call && b is Call
    ||| a is LabelAddr && b is LabelAddr
    ||| a is Load && b is Load
    ||| a is Store && b is Store
    ||| a is StoreArg && b is StoreArg
}

/// What the characters of the mnemonics are not: a mnemonic holds no
/// space and no line feed, and begins with none of the characters that
/// begin a register, a label or an indented line.  But for that of
/// `Label`, which is empty, each has at least two characters.
pub proof fn lemma_mnemonic_chars()
    ensures
        forall|op: IROp| #![trigger mnemonic(op)] !(op is Label) ==> mnemonic(op)@.len() >= 2,
        forall|op: IROp, i: int|
            0 <= i < mnemonic(op)@.len() ==> #[trigger] mnemonic(op)@[i] != ' ',
        forall|op: IROp, i: int|
            0 <= i < mnemonic(op)@.len() ==> #[trigger] mnemonic(op)@[i] != '\n',
        forall|op: IROp|
            #![trigger mnemonic(op)]
            mnemonic(op)@.len() > 0 ==> mnemonic(op)@[0] != 'r' && mnemonic(op)@[0] != '.'
                && mnemonic(op)@[0] != ' ',
{
    reveal_strlit("");
    reveal_strlit("ADD");
    reveal_strlit("AND");
    reveal_strlit("AVX512_ADD");
    reveal_strlit("AVX512_ADDI");
    reveal_strlit("AVX512_AND");
    reveal_strlit("AVX512_CMPEQ");
    reveal_strlit("AVX512_CMPLE");
    reveal_strlit("AVX512_CMPLT");
    reveal_strlit("AVX512_CVTDQ2PD");
    reveal_strlit("AVX512_CVTPD2DQ");
    reveal_strlit("AVX512_DIV");
    reveal_strlit("AVX512_EXTRACT");
    reveal_strlit("AVX512_FMA");
    reveal_strlit("AVX512_INSERT");
    reveal_strlit("AVX512_LOAD");
    reveal_strlit("AVX512_LOADI");
    reveal_strlit("AVX512_LOAD_STACK");
    reveal_strlit("AVX512_MASK_LOAD");
    reveal_strlit("AVX512_MASK_MOV");
    reveal_strlit("AVX512_MASK_STORE");
    reveal_strlit("AVX512_MAX");
    reveal_strlit("AVX512_MIN");
    reveal_strlit("AVX512_MOV");
    reveal_strlit("AVX512_MOVI");
    reveal_strlit("AVX512_MUL");
    reveal_strlit("AVX512_MULI");
    reveal_strlit("AVX512_SET1");
    reveal_strlit("AVX512_SET1I");
    reveal_strlit("AVX512_SQRT");
    reveal_strlit("AVX512_STORE");
    reveal_strlit("AVX512_STOREI");
    reveal_strlit("AVX512_STORE_STACK");
    reveal_strlit("AVX512_SUB");
    reveal_strlit("AVX512_SUBI");
    reveal_strlit("AVX512_ZERO");
    reveal_strlit("BPREL");
    reveal_strlit("CALL");
    reveal_strlit("DIV");
    reveal_strlit("EQ");
    reveal_strlit("IF");
    reveal_strlit("JMP");
    reveal_strlit("KILL");
    reveal_strlit("LABEL_ADDR");
    reveal_strlit("LE");
    reveal_strlit("LOAD");
    reveal_strlit("LT");
    reveal_strlit("MOD");
    reveal_strlit("MOV");
    reveal_strlit("MUL");
    reveal_strlit("NE");
    reveal_strlit("NEG");
    reveal_strlit("NOP");
    reveal_strlit("OR");
    reveal_strlit("RET");
    reveal_strlit("SHL");
    reveal_strlit("SHR");
    reveal_strlit("STORE");
    reveal_strlit("STORE_ARG");
    reveal_strlit("SUB");
    reveal_strlit("UNLESS");
    reveal_strlit("XOR");
}

/// The character of `s` at `i`, a space behind its end.
pub open spec fn char_at(s: Seq<char>, i: int) -> char {
    if 0 <= i < s.len() {
        s[i]
    } else {
        ' '
    }
}

/// The length of `s` and its characters at a few places which between
/// them tell every mnemonic from every other.
pub open spec fn name_key(s: Seq<char>) -> (nat, char, char, char, char, char, char) {
    (s.len(), char_at(s, 0), char_at(s, 1), char_at(s, 2), char_at(s, 7), char_at(s, 8), char_at(s, 11))
}

/// The key of the mnemonic of `op`.
pub open spec fn key_of(op: IROp) -> (nat, char, char, char, char, char, char) {
    match op {
        IROp::Add => (3nat, 'A', 'D', 'D', ' ', ' ', ' '),
        IROp::AddImm => (3nat, 'A', 'D', 'D', ' ', ' ', ' '),
        IROp::Call(_, _, _) => (4nat, 'C', 'A', 'L', ' ', ' ', ' '),
        IROp::Div => (3nat, 'D', 'I', 'V', ' ', ' ', ' '),
        IROp::Imm => (3nat, 'M', 'O', 'V', ' ', ' ', ' '),
        IROp::Jmp => (3nat, 'J', 'M', 'P', ' ', ' ', ' '),
        IROp::Kill => (4nat, 'K', 'I', 'L', ' ', ' ', ' '),
        IROp::Label => (0nat, ' ', ' ', ' ', ' ', ' ', ' '),
        IROp::LabelAddr(_) => (10nat, 'L', 'A', 'B', 'D', 'D', ' '),
        IROp::EQ => (2nat, 'E', 'Q', ' ', ' ', ' ', ' '),
        IROp::NE => (2nat, 'N', 'E', ' ', ' ', ' ', ' '),
        IROp::LE => (2nat, 'L', 'E', ' ', ' ', ' ', ' '),
        IROp::LT => (2nat, 'L', 'T', ' ', ' ', ' ', ' '),
        IROp::AND => (3nat, 'A', 'N', 'D', ' ', ' ', ' '),
        IROp::OR => (2nat, 'O', 'R', ' ', ' ', ' ', ' '),
        IROp::XOR => (3nat, 'X', 'O', 'R', ' ', ' ', ' '),
        IROp::SHL => (3nat, 'S', 'H', 'L', ' ', ' ', ' '),
        IROp::SHR => (3nat, 'S', 'H', 'R', ' ', ' ', ' '),
        IROp::Mod => (3nat, 'M', 'O', 'D', ' ', ' ', ' '),
        IROp::Neg => (3nat, 'N', 'E', 'G', ' ', ' ', ' '),
        IROp::Load(_) => (4nat, 'L', 'O', 'A', ' ', ' ', ' '),
        IROp::Mov => (3nat, 'M', 'O', 'V', ' ', ' ', ' '),
        IROp::Mul => (3nat, 'M', 'U', 'L', ' ', ' ', ' '),
        IROp::MulImm => (3nat, 'M', 'U', 'L', ' ', ' ', ' '),
        IROp::Nop => (3nat, 'N', 'O', 'P', ' ', ' ', ' '),
        IROp::Return => (3nat, 'R', 'E', 'T', ' ', ' ', ' '),
        IROp::Store(_) => (5nat, 'S', 'T', 'O', ' ', ' ', ' '),
        IROp::StoreArg(_) => (9nat, 'S', 'T', 'O', 'R', 'G', ' '),
        IROp::Sub => (3nat, 'S', 'U', 'B', ' ', ' ', ' '),
        IROp::SubImm => (3nat, 'S', 'U', 'B', ' ', ' ', ' '),
        IROp::Bprel => (5nat, 'B', 'P', 'R', ' ', ' ', ' '),
        IROp::If => (2nat, 'I', 'F', ' ', ' ', ' ', ' '),
        IROp::Unless => (6nat, 'U', 'N', 'L', ' ', ' ', ' '),
        IROp::AVX512Add => (10nat, 'A', 'V', 'X', 'A', 'D', ' '),
        IROp::AVX512Sub => (10nat, 'A', 'V', 'X', 'S', 'U', ' '),
        IROp::AVX512Mul => (10nat, 'A', 'V', 'X', 'M', 'U', ' '),
        IROp::AVX512Div => (10nat, 'A', 'V', 'X', 'D', 'I', ' '),
        IROp::AVX512Load => (11nat, 'A', 'V', 'X', 'L', 'O', ' '),
        IROp::AVX512LoadStack => (17nat, 'A', 'V', 'X', 'L', 'O', '_'),
        IROp::AVX512Store => (12nat, 'A', 'V', 'X', 'S', 'T', 'E'),
        IROp::AVX512StoreStack => (18nat, 'A', 'V', 'X', 'S', 'T', 'E'),
        IROp::AVX512Mov => (10nat, 'A', 'V', 'X', 'M', 'O', ' '),
        IROp::AVX512Addi => (11nat, 'A', 'V', 'X', 'A', 'D', ' '),
        IROp::AVX512Subi => (11nat, 'A', 'V', 'X', 'S', 'U', ' '),
        IROp::AVX512Muli => (11nat, 'A', 'V', 'X', 'M', 'U', ' '),
        IROp::AVX512Loadi => (12nat, 'A', 'V', 'X', 'L', 'O', 'I'),
        IROp::AVX512Storei => (13nat, 'A', 'V', 'X', 'S', 'T', 'E'),
        IROp::AVX512Movi => (11nat, 'A', 'V', 'X', 'M', 'O', ' '),
        IROp::AVX512Zero => (11nat, 'A', 'V', 'X', 'Z', 'E', ' '),
        IROp::AVX512Set1 => (11nat, 'A', 'V', 'X', 'S', 'E', ' '),
        IROp::AVX512Set1i => (12nat, 'A', 'V', 'X', 'S', 'E', 'I'),
        IROp::AVX512Cmplt => (12nat, 'A', 'V', 'X', 'C', 'M', 'T'),
        IROp::AVX512Cmple => (12nat, 'A', 'V', 'X', 'C', 'M', 'E'),
        IROp::AVX512Cmpeq => (12nat, 'A', 'V', 'X', 'C', 'M', 'Q'),
        IROp::AVX512MaskMove => (15nat, 'A', 'V', 'X', 'M', 'A', '_'),
        IROp::AVX512MaskLoad => (16nat, 'A', 'V', 'X', 'M', 'A', '_'),
        IROp::AVX512MaskStore => (17nat, 'A', 'V', 'X', 'M', 'A', '_'),
        IROp::AVX512Cvtdq2pd => (15nat, 'A', 'V', 'X', 'C', 'V', 'Q'),
        IROp::AVX512Cvtpd2dq => (15nat, 'A', 'V', 'X', 'C', 'V', 'D'),
        IROp::AVX512Extract => (14nat, 'A', 'V', 'X', 'E', 'X', 'A'),
        IROp::AVX512Insert => (13nat, 'A', 'V', 'X', 'I', 'N', 'R'),
        IROp::AVX512FMA => (10nat, 'A', 'V', 'X', 'F', 'M', ' '),
        IROp::AVX512Sqrt => (11nat, 'A', 'V', 'X', 'S', 'Q', ' '),
        IROp::AVX512And => (10nat, 'A', 'V', 'X', 'A', 'N', ' '),
        IROp::AVX512Max => (10nat, 'A', 'V', 'X', 'M', 'A', ' '),
        IROp::AVX512Min => (10nat, 'A', 'V', 'X', 'M', 'I', ' '),
    }
}

/// The key of a mnemonic is the one that the table gives for its operation.
pub proof fn lemma_key(op: IROp)
    ensures
        name_key(mnemonic(op)@) == key_of(op),
{
    match op {
        IROp::Add => {
            reveal_strlit("ADD");
            assert(mnemonic(op)@[0] == 'A');
            assert(mnemonic(op)@[1] == 'D');
            assert(mnemonic(op)@[2] == 'D');
        },
        IROp::AddImm => {
            reveal_strlit("ADD");
            assert(mnemonic(op)@[0] == 'A');
            assert(mnemonic(op)@[1] == 'D');
            assert(mnemonic(op)@[2] == 'D');
        },
        IROp::Call(_, _, _) => {
            reveal_strlit("CALL");
            assert(mnemonic(op)@[0] == 'C');
            assert(mnemonic(op)@[1] == 'A');
            assert(mnemonic(op)@[2] == 'L');
        },
        IROp::Div => {
            reveal_strlit("DIV");
            assert(mnemonic(op)@[0] == 'D');
            assert(mnemonic(op)@[1] == 'I');
            assert(mnemonic(op)@[2] == 'V');
        },
        IROp::Imm => {
            reveal_strlit("MOV");
            assert(mnemonic(op)@[0] == 'M');
            assert(mnemonic(op)@[1] == 'O');
            assert(mnemonic(op)@[2] == 'V');
        },
        IROp::Jmp => {
            reveal_strlit("JMP");
            assert(mnemonic(op)@[0] == 'J');
            assert(mnemonic(op)@[1] == 'M');
            assert(mnemonic(op)@[2] == 'P');
        },
        IROp::Kill => {
            reveal_strlit("KILL");
            assert(mnemonic(op)@[0] == 'K');
            assert(mnemonic(op)@[1] == 'I');
            assert(mnemonic(op)@[2] == 'L');
        },
        IROp::Label => {
            reveal_strlit("");

        },
        IROp::LabelAddr(_) => {
            reveal_strlit("LABEL_ADDR");
            assert(mnemonic(op)@[0] == 'L');
            assert(mnemonic(op)@[1] == 'A');
            assert(mnemonic(op)@[2] == 'B');
            assert(mnemonic(op)@[7] == 'D');
            assert(mnemonic(op)@[8] == 'D');
        },
        IROp::EQ => {
            reveal_strlit("EQ");
            assert(mnemonic(op)@[0] == 'E');
            assert(mnemonic(op)@[1] == 'Q');
        },
        IROp::NE => {
            reveal_strlit("NE");
            assert(mnemonic(op)@[0] == 'N');
            assert(mnemonic(op)@[1] == 'E');
        },
        IROp::LE => {
            reveal_strlit("LE");
            assert(mnemonic(op)@[0] == 'L');
            assert(mnemonic(op)@[1] == 'E');
        },
        IROp::LT => {
            reveal_strlit("LT");
            assert(mnemonic(op)@[0] == 'L');
            assert(mnemonic(op)@[1] == 'T');
        },
        IROp::AND => {
            reveal_strlit("AND");
            assert(mnemonic(op)@[0] == 'A');
            assert(mnemonic(op)@[1] == 'N');
            assert(mnemonic(op)@[2] == 'D');
        },
        IROp::OR => {
            reveal_strlit("OR");
            assert(mnemonic(op)@[0] == 'O');
            assert(mnemonic(op)@[1] == 'R');
        },
        IROp::XOR => {
            reveal_strlit("XOR");
            assert(mnemonic(op)@[0] == 'X');
            assert(mnemonic(op)@[1] == 'O');
            assert(mnemonic(op)@[2] == 'R');
        },
        IROp::SHL => {
            reveal_strlit("SHL");
            assert(mnemonic(op)@[0] == 'S');
            assert(mnemonic(op)@[1] == 'H');
            assert(mnemonic(op)@[2] == 'L');
        },
        IROp::SHR => {
            reveal_strlit("SHR");
            assert(mnemonic(op)@[0] == 'S');
            assert(mnemonic(op)@[1] == 'H');
            assert(mnemonic(op)@[2] == 'R');
        },
        IROp::Mod => {
            reveal_strlit("MOD");
            assert(mnemonic(op)@[0] == 'M');
            assert(mnemonic(op)@[1] == 'O');
            assert(mnemonic(op)@[2] == 'D');
        },
        IROp::Neg => {
            reveal_strlit("NEG");
            assert(mnemonic(op)@[0] == 'N');
            assert(mnemonic(op)@[1] == 'E');
            assert(mnemonic(op)@[2] == 'G');
        },
        IROp::Load(_) => {
            reveal_strlit("LOAD");
            assert(mnemonic(op)@[0] == 'L');
            assert(mnemonic(op)@[1] == 'O');
            assert(mnemonic(op)@[2] == 'A');
        },
        IROp::Mov => {
            reveal_strlit("MOV");
            assert(mnemonic(op)@[0] == 'M');
            assert(mnemonic(op)@[1] == 'O');
            assert(mnemonic(op)@[2] == 'V');
        },
        IROp::Mul => {
            reveal_strlit("MUL");
            assert(mnemonic(op)@[0] == 'M');
            assert(mnemonic(op)@[1] == 'U');
            assert(mnemonic(op)@[2] == 'L');
        },
        IROp::MulImm => {
            reveal_strlit("MUL");
            assert(mnemonic(op)@[0] == 'M');
            assert(mnemonic(op)@[1] == 'U');
            assert(mnemonic(op)@[2] == 'L');
        },
        IROp::Nop => {
            reveal_strlit("NOP");
            assert(mnemonic(op)@[0] == 'N');
            assert(mnemonic(op)@[1] == 'O');
            assert(mnemonic(op)@[2] == 'P');
        },
        IROp::Return => {
            reveal_strlit("RET");
            assert(mnemonic(op)@[0] == 'R');
            assert(mnemonic(op)@[1] == 'E');
            assert(mnemonic(op)@[2] == 'T');
        },
        IROp::Store(_) => {
            reveal_strlit("STORE");
            assert(mnemonic(op)@[0] == 'S');
            assert(mnemonic(op)@[1] == 'T');
            assert(mnemonic(op)@[2] == 'O');
        },
        IROp::StoreArg(_) => {
            reveal_strlit("STORE_ARG");
            assert(mnemonic(op)@[0] == 'S');
            assert(mnemonic(op)@[1] == 'T');
            assert(mnemonic(op)@[2] == 'O');
            assert(mnemonic(op)@[7] == 'R');
            assert(mnemonic(op)@[8] == 'G');
        },
        IROp::Sub => {
            reveal_strlit("SUB");
            assert(mnemonic(op)@[0] == 'S');
            assert(mnemonic(op)@[1] == 'U');
            assert(mnemonic(op)@[2] == 'B');
        },
        IROp::SubImm => {
            reveal_strlit("SUB");
            assert(mnemonic(op)@[0] == 'S');
            assert(mnemonic(op)@[1] == 'U');
            assert(mnemonic(op)@[2] == 'B');
        },
        IROp::Bprel => {
            reveal_strlit("BPREL");
            assert(mnemonic(op)@[0] == 'B');
            assert(mnemonic(op)@[1] == 'P');
            assert(mnemonic(op)@[2] == 'R');
        },
        IROp::If => {
            reveal_strlit("IF");
            assert(mnemonic(op)@[0] == 'I');
            assert(mnemonic(op)@[1] == 'F');
        },
        IROp::Unless => {
            reveal_strlit("UNLESS");
            assert(mnemonic(op)@[0] == 'U');
            assert(mnemonic(op)@[1] == 'N');
            assert(mnemonic(op)@[2] == 'L');
        },
        IROp::AVX512Add => {
            reveal_strlit("AVX512_ADD");
            assert(mnemonic(op)@[0] == 'A');
            assert(mnemonic(op)@[1] == 'V');
            assert(mnemonic(op)@[2] == 'X');
            assert(mnemonic(op)@[7] == 'A');
            assert(mnemonic(op)@[8] == 'D');
        },
        IROp::AVX512Sub => {
            reveal_strlit("AVX512_SUB");
            assert(mnemonic(op)@[0] == 'A');
            assert(mnemonic(op)@[1] == 'V');
            assert(mnemonic(op)@[2] == 'X');
            assert(mnemonic(op)@[7] == 'S');
            assert(mnemonic(op)@[8] == 'U');
        },
        IROp::AVX512Mul => {
            reveal_strlit("AVX512_MUL");
            assert(mnemonic(op)@[0] == 'A');
            assert(mnemonic(op)@[1] == 'V');
            assert(mnemonic(op)@[2] == 'X');
            assert(mnemonic(op)@[7] == 'M');
            assert(mnemonic(op)@[8] == 'U');
        },
        IROp::AVX512Div => {
            reveal_strlit("AVX512_DIV");
            assert(mnemonic(op)@[0] == 'A');
            assert(mnemonic(op)@[1] == 'V');
            assert(mnemonic(op)@[2] == 'X');
            assert(mnemonic(op)@[7] == 'D');
            assert(mnemonic(op)@[8] == 'I');
        },
        IROp::AVX512Load => {
            reveal_strlit("AVX512_LOAD");
            assert(mnemonic(op)@[0] == 'A');
            assert(mnemonic(op)@[1] == 'V');
            assert(mnemonic(op)@[2] == 'X');
            assert(mnemonic(op)@[7] == 'L');
            assert(mnemonic(op)@[8] == 'O');
        },
        IROp::AVX512LoadStack => {
            reveal_strlit("AVX512_LOAD_STACK");
            assert(mnemonic(op)@[0] == 'A');
            assert(mnemonic(op)@[1] == 'V');
            assert(mnemonic(op)@[2] == 'X');
            assert(mnemonic(op)@[7] == 'L');
            assert(mnemonic(op)@[8] == 'O');
            assert(mnemonic(op)@[11] == '_');
        },
        IROp::AVX512Store => {
            reveal_strlit("AVX512_STORE");
            assert(mnemonic(op)@[0] == 'A');
            assert(mnemonic(op)@[1] == 'V');
            assert(mnemonic(op)@[2] == 'X');
            assert(mnemonic(op)@[7] == 'S');
            assert(mnemonic(op)@[8] == 'T');
            assert(mnemonic(op)@[11] == 'E');
        },
        IROp::AVX512StoreStack => {
            reveal_strlit("AVX512_STORE_STACK");
            assert(mnemonic(op)@[0] == 'A');
            assert(mnemonic(op)@[1] == 'V');
            assert(mnemonic(op)@[2] == 'X');
            assert(mnemonic(op)@[7] == 'S');
            assert(mnemonic(op)@[8] == 'T');
            assert(mnemonic(op)@[11] == 'E');
        },
        IROp::AVX512Mov => {
            reveal_strlit("AVX512_MOV");
            assert(mnemonic(op)@[0] == 'A');
            assert(mnemonic(op)@[1] == 'V');
            assert(mnemonic(op)@[2] == 'X');
            assert(mnemonic(op)@[7] == 'M');
            assert(mnemonic(op)@[8] == 'O');
        },
        IROp::AVX512Addi => {
            reveal_strlit("AVX512_ADDI");
            assert(mnemonic(op)@[0] == 'A');
            assert(mnemonic(op)@[1] == 'V');
            assert(mnemonic(op)@[2] == 'X');
            assert(mnemonic(op)@[7] == 'A');
            assert(mnemonic(op)@[8] == 'D');
        },
        IROp::AVX512Subi => {
            reveal_strlit("AVX512_SUBI");
            assert(mnemonic(op)@[0] == 'A');
            assert(mnemonic(op)@[1] == 'V');
            assert(mnemonic(op)@[2] == 'X');
            assert(mnemonic(op)@[7] == 'S');
            assert(mnemonic(op)@[8] == 'U');
        },
        IROp::AVX512Muli => {
            reveal_strlit("AVX512_MULI");
            assert(mnemonic(op)@[0] == 'A');
            assert(mnemonic(op)@[1] == 'V');
            assert(mnemonic(op)@[2] == 'X');
            assert(mnemonic(op)@[7] == 'M');
            assert(mnemonic(op)@[8] == 'U');
        },
        IROp::AVX512Loadi => {
            reveal_strlit("AVX512_LOADI");
            assert(mnemonic(op)@[0] == 'A');
            assert(mnemonic(op)@[1] == 'V');
            assert(mnemonic(op)@[2] == 'X');
            assert(mnemonic(op)@[7] == 'L');
            assert(mnemonic(op)@[8] == 'O');
            assert(mnemonic(op)@[11] == 'I');
        },
        IROp::AVX512Storei => {
            reveal_strlit("AVX512_STOREI");
            assert(mnemonic(op)@[0] == 'A');
            assert(mnemonic(op)@[1] == 'V');
            assert(mnemonic(op)@[2] == 'X');
            assert(mnemonic(op)@[7] == 'S');
            assert(mnemonic(op)@[8] == 'T');
            assert(mnemonic(op)@[11] == 'E');
        },
        IROp::AVX512Movi => {
            reveal_strlit("AVX512_MOVI");
            assert(mnemonic(op)@[0] == 'A');
            assert(mnemonic(op)@[1] == 'V');
            assert(mnemonic(op)@[2] == 'X');
            assert(mnemonic(op)@[7] == 'M');
            assert(mnemonic(op)@[8] == 'O');
        },
        IROp::AVX512Zero => {
            reveal_strlit("AVX512_ZERO");
            assert(mnemonic(op)@[0] == 'A');
            assert(mnemonic(op)@[1] == 'V');
            assert(mnemonic(op)@[2] == 'X');
            assert(mnemonic(op)@[7] == 'Z');
            assert(mnemonic(op)@[8] == 'E');
        },
        IROp::AVX512Set1 => {
            reveal_strlit("AVX512_SET1");
            assert(mnemonic(op)@[0] == 'A');
            assert(mnemonic(op)@[1] == 'V');
            assert(mnemonic(op)@[2] == 'X');
            assert(mnemonic(op)@[7] == 'S');
            assert(mnemonic(op)@[8] == 'E');
        },
        IROp::AVX512Set1i => {
            reveal_strlit("AVX512_SET1I");
            assert(mnemonic(op)@[0] == 'A');
            assert(mnemonic(op)@[1] == 'V');
            assert(mnemonic(op)@[2] == 'X');
            assert(mnemonic(op)@[7] == 'S');
            assert(mnemonic(op)@[8] == 'E');
            assert(mnemonic(op)@[11] == 'I');
        },
        IROp::AVX512Cmplt => {
            reveal_strlit("AVX512_CMPLT");
            assert(mnemonic(op)@[0] == 'A');
            assert(mnemonic(op)@[1] == 'V');
            assert(mnemonic(op)@[2] == 'X');
            assert(mnemonic(op)@[7] == 'C');
            assert(mnemonic(op)@[8] == 'M');
            assert(mnemonic(op)@[11] == 'T');
        },
        IROp::AVX512Cmple => {
            reveal_strlit("AVX512_CMPLE");
            assert(mnemonic(op)@[0] == 'A');
            assert(mnemonic(op)@[1] == 'V');
            assert(mnemonic(op)@[2] == 'X');
            assert(mnemonic(op)@[7] == 'C');
            assert(mnemonic(op)@[8] == 'M');
            assert(mnemonic(op)@[11] == 'E');
        },
        IROp::AVX512Cmpeq => {
            reveal_strlit("AVX512_CMPEQ");
            assert(mnemonic(op)@[0] == 'A');
            assert(mnemonic(op)@[1] == 'V');
            assert(mnemonic(op)@[2] == 'X');
            assert(mnemonic(op)@[7] == 'C');
            assert(mnemonic(op)@[8] == 'M');
            assert(mnemonic(op)@[11] == 'Q');
        },
        IROp::AVX512MaskMove => {
            reveal_strlit("AVX512_MASK_MOV");
            assert(mnemonic(op)@[0] == 'A');
            assert(mnemonic(op)@[1] == 'V');
            assert(mnemonic(op)@[2] == 'X');
            assert(mnemonic(op)@[7] == 'M');
            assert(mnemonic(op)@[8] == 'A');
            assert(mnemonic(op)@[11] == '_');
        },
        IROp::AVX512MaskLoad => {
            reveal_strlit("AVX512_MASK_LOAD");
            assert(mnemonic(op)@[0] == 'A');
            assert(mnemonic(op)@[1] == 'V');
            assert(mnemonic(op)@[2] == 'X');
            assert(mnemonic(op)@[7] == 'M');
            assert(mnemonic(op)@[8] == 'A');
            assert(mnemonic(op)@[11] == '_');
        },
        IROp::AVX512MaskStore => {
            reveal_strlit("AVX512_MASK_STORE");
            assert(mnemonic(op)@[0] == 'A');
            assert(mnemonic(op)@[1] == 'V');
            assert(mnemonic(op)@[2] == 'X');
            assert(mnemonic(op)@[7] == 'M');
            assert(mnemonic(op)@[8] == 'A');
            assert(mnemonic(op)@[11] == '_');
        },
        IROp::AVX512Cvtdq2pd => {
            reveal_strlit("AVX512_CVTDQ2PD");
            assert(mnemonic(op)@[0] == 'A');
            assert(mnemonic(op)@[1] == 'V');
            assert(mnemonic(op)@[2] == 'X');
            assert(mnemonic(op)@[7] == 'C');
            assert(mnemonic(op)@[8] == 'V');
            assert(mnemonic(op)@[11] == 'Q');
        },
        IROp::AVX512Cvtpd2dq => {
            reveal_strlit("AVX512_CVTPD2DQ");
            assert(mnemonic(op)@[0] == 'A');
            assert(mnemonic(op)@[1] == 'V');
            assert(mnemonic(op)@[2] == 'X');
            assert(mnemonic(op)@[7] == 'C');
            assert(mnemonic(op)@[8] == 'V');
            assert(mnemonic(op)@[11] == 'D');
        },
        IROp::AVX512Extract => {
            reveal_strlit("AVX512_EXTRACT");
            assert(mnemonic(op)@[0] == 'A');
            assert(mnemonic(op)@[1] == 'V');
            assert(mnemonic(op)@[2] == 'X');
            assert(mnemonic(op)@[7] == 'E');
            assert(mnemonic(op)@[8] == 'X');
            assert(mnemonic(op)@[11] == 'A');
        },
        IROp::AVX512Insert => {
            reveal_strlit("AVX512_INSERT");
            assert(mnemonic(op)@[0] == 'A');
            assert(mnemonic(op)@[1] == 'V');
            assert(mnemonic(op)@[2] == 'X');
            assert(mnemonic(op)@[7] == 'I');
            assert(mnemonic(op)@[8] == 'N');
            assert(mnemonic(op)@[11] == 'R');
        },
        IROp::AVX512FMA => {
            reveal_strlit("AVX512_FMA");
            assert(mnemonic(op)@[0] == 'A');
            assert(mnemonic(op)@[1] == 'V');
            assert(mnemonic(op)@[2] == 'X');
            assert(mnemonic(op)@[7] == 'F');
            assert(mnemonic(op)@[8] == 'M');
        },
        IROp::AVX512Sqrt => {
            reveal_strlit("AVX512_SQRT");
            assert(mnemonic(op)@[0] == 'A');
            assert(mnemonic(op)@[1] == 'V');
            assert(mnemonic(op)@[2] == 'X');
            assert(mnemonic(op)@[7] == 'S');
            assert(mnemonic(op)@[8] == 'Q');
        },
        IROp::AVX512And => {
            reveal_strlit("AVX512_AND");
            assert(mnemonic(op)@[0] == 'A');
            assert(mnemonic(op)@[1] == 'V');
            assert(mnemonic(op)@[2] == 'X');
            assert(mnemonic(op)@[7] == 'A');
            assert(mnemonic(op)@[8] == 'N');
        },
        IROp::AVX512Max => {
            reveal_strlit("AVX512_MAX");
            assert(mnemonic(op)@[0] == 'A');
            assert(mnemonic(op)@[1] == 'V');
            assert(mnemonic(op)@[2] == 'X');
            assert(mnemonic(op)@[7] == 'M');
            assert(mnemonic(op)@[8] == 'A');
        },
        IROp::AVX512Min => {
            reveal_strlit("AVX512_MIN");
            assert(mnemonic(op)@[0] == 'A');
            assert(mnemonic(op)@[1] == 'V');
            assert(mnemonic(op)@[2] == 'X');
            assert(mnemonic(op)@[7] == 'M');
            assert(mnemonic(op)@[8] == 'I');
        },
    }
}

/// Two operations with the same mnemonic are the same operation, or two
/// that share a mnemonic and differ in the shape of their operands.
pub proof fn lemma_distinct_mnemonics(a: IROp, b: IROp)
    requires
        mnemonic(a)@ == mnemonic(b)@,
    ensures
        same_mnemonic(a, b),
{
    lemma_key(a);
    lemma_key(b);
}

} // verus!
