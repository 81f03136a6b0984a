//! Reading the printed form of the IR.  The reader is the inverse of the
//! printer: it yields the instructions whose printed form a text is, and
//! nothing where the text is the printed form of none.

use vstd::prelude::*;
use crate::gen_ir::{IROp, IRType, IR};
use crate::irdump::{
    call_args_text, dumpable, ir_text, label_text, mnemonic, op_type, operand_of, reg_text, IRInfo,
};
use crate::scan::{
    find_char, has_word, is_imm_operand, lacks, lemma_signed_decimal_chars, read_imm, read_number,
};
use crate::text::{
    decimal, imm32, is_digit, lemma_decimal_digits, lemma_decimal_injective, push_char,
    signed_decimal,
};

verus! {

/// Whether `s` can stand for a name in the printed form: it is not empty
/// and holds no space, no opening parenthesis and no line feed.
pub open spec fn is_name(s: Seq<char>) -> bool {
    &&& s.len() > 0
    &&& lacks(s, ' ')
    &&& lacks(s, '(')
    &&& lacks(s, '\n')
}

/// Whether `ir` has a printed form that can be read back: it has the
/// operands that its shape asks for, a call has at most six arguments, and
/// a name that it carries is one.
pub open spec fn printable(ir: IR) -> bool {
    &&& dumpable(ir)
    &&& match ir.op {
        IROp::Call(name, nargs, _) => is_name(name@) && nargs <= 6,
        IROp::LabelAddr(name) => is_name(name@),
        _ => true,
    }
}

/// Whether `ir` holds nothing but what its printed form shows: there is
/// no operand that its shape does not ask for, an immediate is the operand
/// of its low 32 bits, and the registers behind the last argument of a
/// call are 0.
pub open spec fn is_normal(ir: IR) -> bool {
    match ir.op {
        IROp::Call(_, nargs, args) => ir.rhs is None && forall|j: int|
            nargs <= j < 6 ==> #[trigger] args@[j] == 0,
        IROp::LabelAddr(_) => ir.rhs is None,
        IROp::StoreArg(_) => is_imm_operand(operand_of(ir.lhs)),
        IROp::Load(_) | IROp::Store(_) => true,
        _ => match op_type(ir.op) {
            IRType::Noarg => ir.lhs is None && ir.rhs is None,
            IRType::Label | IRType::Reg | IRType::Jmp => ir.rhs is None,
            IRType::RegImm => is_imm_operand(operand_of(ir.rhs)),
            _ => true,
        },
    }
}

/// Whether `op` is printed by its mnemonic and its operands alone: it
/// carries nothing, and is no label.
pub open spec fn is_plain(op: IROp) -> bool {
    !(op is Call || op is LabelAddr || op is Load || op is Store || op is StoreArg || op is Label)
}

/// What the printed form of a register is made of: the letter `r` and
/// the digits of its number.
pub proof fn lemma_reg_text(n: usize)
    ensures
        reg_text(n).len() >= 2,
        reg_text(n)[0] == 'r',
        forall|i: int| 1 <= i < reg_text(n).len() ==> is_digit(#[trigger] reg_text(n)[i]),
        lacks(reg_text(n), ','),
        lacks(reg_text(n), ' '),
        lacks(reg_text(n), '\n'),
        lacks(reg_text(n), ')'),
        reg_text(n).subrange(1, reg_text(n).len() as int) == decimal(n as nat),
{
    reveal_strlit("r");
    lemma_decimal_digits(n as nat);
    assert forall|i: int| 1 <= i < reg_text(n).len() implies is_digit(#[trigger] reg_text(n)[i]) by {
        assert(reg_text(n)[i] == decimal(n as nat)[i - 1]);
    }
    assert(reg_text(n).subrange(1, reg_text(n).len() as int) =~= decimal(n as nat));
}

/// What the printed form of a label is made of: `.L` and the digits of
/// its number.
pub proof fn lemma_label_text(n: usize)
    ensures
        label_text(n).len() >= 3,
        label_text(n)[0] == '.',
        label_text(n)[1] == 'L',
        forall|i: int| 2 <= i < label_text(n).len() ==> is_digit(#[trigger] label_text(n)[i]),
        lacks(label_text(n), ':'),
        lacks(label_text(n), '\n'),
        lacks(label_text(n), ' '),
        label_text(n).subrange(2, label_text(n).len() as int) == decimal(n as nat),
{
    reveal_strlit(".L");
    lemma_decimal_digits(n as nat);
    assert forall|i: int| 2 <= i < label_text(n).len() implies is_digit(
        #[trigger] label_text(n)[i],
    ) by {
        assert(label_text(n)[i] == decimal(n as nat)[i - 2]);
    }
    assert(label_text(n).subrange(2, label_text(n).len() as int) =~= decimal(n as nat));
}

/// What the printed form of an immediate holds: no comma, no space and
/// no line feed, and it does not begin like a register.
pub proof fn lemma_imm_text(v: int)
    ensures
        signed_decimal(v).len() >= 1,
        lacks(signed_decimal(v), ','),
        lacks(signed_decimal(v), ' '),
        lacks(signed_decimal(v), '\n'),
        signed_decimal(v)[0] != 'r',
{
    lemma_signed_decimal_chars(v);
}

/// The register whose printed form is `text[from..to]`.
pub fn read_reg(text: &[char], from: usize, to: usize) -> (r: Option<usize>)
    requires
        from <= to <= text.len(),
    ensures
        match r {
            Some(n) => reg_text(n) == text@.subrange(from as int, to as int),
            None => forall|n: usize| #[trigger] reg_text(n) != text@.subrange(from as int, to as int),
        },
{
    let ghost s = text@.subrange(from as int, to as int);
    if from < to && text[from] == 'r' {
        let r = read_number(text, from + 1, to, usize::MAX);
        proof {
            reveal_strlit("r");
            let rest = text@.subrange(from + 1, to as int);
            match r {
                Some(n) => {
                    assert(reg_text(n) =~= s);
                },
                None => {
                    assert forall|n: usize| #[trigger] reg_text(n) != s by {
                        lemma_reg_text(n);
                        if reg_text(n) == s {
                            assert(s.subrange(1, s.len() as int) =~= rest);
                        }
                    }
                },
            }
        }
        r
    } else {
        assert forall|n: usize| #[trigger] reg_text(n) != s by {
            lemma_reg_text(n);
            if reg_text(n) == s {
                assert(s[0] == text@[from as int]);
            }
        }
        None
    }
}

/// The label whose printed form is `text[from..to]`.
pub fn read_label(text: &[char], from: usize, to: usize) -> (r: Option<usize>)
    requires
        from <= to <= text.len(),
    ensures
        match r {
            Some(n) => label_text(n) == text@.subrange(from as int, to as int),
            None => forall|n: usize| #[trigger]
                label_text(n) != text@.subrange(from as int, to as int),
        },
{
    let ghost s = text@.subrange(from as int, to as int);
    if to - from >= 2 && text[from] == '.' && text[from + 1] == 'L' {
        let r = read_number(text, from + 2, to, usize::MAX);
        proof {
            reveal_strlit(".L");
            let rest = text@.subrange(from + 2, to as int);
            match r {
                Some(n) => {
                    assert(label_text(n) =~= s);
                },
                None => {
                    assert forall|n: usize| #[trigger] label_text(n) != s by {
                        lemma_label_text(n);
                        if label_text(n) == s {
                            assert(s.subrange(2, s.len() as int) =~= rest);
                        }
                    }
                },
            }
        }
        r
    } else {
        assert forall|n: usize| #[trigger] label_text(n) != s by {
            lemma_label_text(n);
            if label_text(n) == s {
                assert(s[0] == text@[from as int]);
                assert(s[1] == text@[from + 1]);
            }
        }
        None
    }
}

/// Where the first of two operands ends: at the first comma, if a space
/// comes after it.
pub fn split_operands(text: &[char], from: usize, to: usize) -> (r: Option<usize>)
    requires
        from <= to <= text.len(),
    ensures
        match r {
            Some(c) => {
                &&& from <= c
                &&& c + 2 <= to
                &&& text@[c as int] == ','
                &&& text@[c + 1] == ' '
                &&& forall|i: int| from <= i < c ==> text@[i] != ','
            },
            None => forall|a: Seq<char>, b: Seq<char>|
                lacks(a, ',') ==> text@.subrange(from as int, to as int) != #[trigger] (a + ", "@
                    + b),
        },
{
    let c = find_char(text, from, to, ',');
    if c < to && to - c >= 2 && text[c + 1] == ' ' {
        Some(c)
    } else {
        proof {
            reveal_strlit(", ");
            let s = text@.subrange(from as int, to as int);
            assert forall|a: Seq<char>, b: Seq<char>| lacks(a, ',') implies s != #[trigger] (a
                + ", "@ + b) by {
                let t = a + ", "@ + b;
                if s == t {
                    assert(", "@.len() == 2);
                    assert(t.len() == a.len() + 2 + b.len());
                    assert(s.len() == to - from);
                    assert(t[a.len() as int] == ',');
                    assert(t[a.len() as int + 1] == ' ');
                    assert(s[a.len() as int] == text@[from + a.len()]);
                    assert(s[a.len() as int + 1] == text@[from + a.len() + 1]);
                    if c < from + a.len() {
                        assert(s[c - from] == text@[c as int]);
                        assert(t[c - from] == a[c - from]);
                    }
                }
            }
        }
        None
    }
}

/// The two operands that stand around the first comma of `s`.
pub proof fn lemma_split_unique(s: Seq<char>, c: int, a: Seq<char>, b: Seq<char>)
    requires
        0 <= c,
        c + 2 <= s.len(),
        s[c] == ',',
        forall|i: int| 0 <= i < c ==> s[i] != ',',
        lacks(a, ','),
        s == a + ", "@ + b,
    ensures
        a == s.subrange(0, c),
        b == s.subrange(c + 2, s.len() as int),
{
    reveal_strlit(", ");
    let t = a + ", "@ + b;
    assert(t[a.len() as int] == ',');
    if c < a.len() {
        assert(t[c] == a[c]);
    }
    assert(c == a.len());
    assert(a =~= s.subrange(0, c));
    assert(b =~= s.subrange(c + 2, s.len() as int));
}

/// The printed operands of a plain operation of the shape `ty`.
pub open spec fn operands_text(ty: IRType, l: usize, r: usize) -> Seq<char> {
    match ty {
        IRType::Reg => reg_text(l),
        IRType::Jmp => label_text(l),
        IRType::RegReg | IRType::Mem => reg_text(l) + ", "@ + reg_text(r),
        IRType::RegImm => reg_text(l) + ", "@ + signed_decimal(imm32(r as int)),
        IRType::RegLabel => reg_text(l) + ", "@ + label_text(r),
        _ => Seq::empty(),
    }
}

/// Whether a plain operation can have the shape `ty`.
pub open spec fn is_plain_shape(ty: IRType) -> bool {
    ty == IRType::Noarg || ty == IRType::Reg || ty == IRType::Jmp || ty == IRType::RegReg || ty
        == IRType::Mem || ty == IRType::RegImm || ty == IRType::RegLabel
}

/// The printed form of a plain operation with the mnemonic `name`, the
/// shape `ty` and the operands `l` and `r`.
pub open spec fn plain_form(name: Seq<char>, ty: IRType, l: usize, r: usize) -> Seq<char> {
    if ty == IRType::Noarg {
        "  "@ + name
    } else {
        "  "@ + name + " "@ + operands_text(ty, l, r)
    }
}

/// The printed form of a plain operation is made of its mnemonic and its
/// operands.
pub proof fn lemma_plain_text(ir: IR)
    requires
        is_plain(ir.op),
    ensures
        is_plain_shape(op_type(ir.op)),
        ir_text(ir) == plain_form(
            mnemonic(ir.op)@,
            op_type(ir.op),
            operand_of(ir.lhs),
            operand_of(ir.rhs),
        ),
{
    let ty = op_type(ir.op);
    let rest = operands_text(ty, operand_of(ir.lhs), operand_of(ir.rhs));
    if ty != IRType::Noarg {
        assert(ir_text(ir) =~= "  "@ + mnemonic(ir.op)@ + " "@ + rest);
    }
}

/// Where the parts of the printed form of a plain operation stand.
proof fn lemma_plain_form(name: Seq<char>, ty: IRType, l: usize, r: usize)
    ensures
        ({
            let t = plain_form(name, ty, l, r);
            let rest = operands_text(ty, l, r);
            &&& t.len() >= 2 + name.len()
            &&& t.subrange(0, 2) == "  "@
            &&& t.subrange(2, 2 + name.len() as int) == name
            &&& ty == IRType::Noarg ==> t.len() == 2 + name.len()
            &&& ty != IRType::Noarg ==> {
                &&& t.len() == 3 + name.len() + rest.len()
                &&& t[2 + name.len() as int] == ' '
                &&& t.subrange(3 + name.len() as int, t.len() as int) == rest
            }
        }),
{
    reveal_strlit("  ");
    reveal_strlit(" ");
    let t = plain_form(name, ty, l, r);
    let rest = operands_text(ty, l, r);
    assert(t.subrange(0, 2) =~= "  "@);
    assert(t.subrange(2, 2 + name.len() as int) =~= name);
    if ty != IRType::Noarg {
        assert(t.subrange(3 + name.len() as int, t.len() as int) =~= rest);
    }
}

/// Where the operands of a line with the mnemonic `name` begin, if it has
/// operands; the length of the line, if it is the mnemonic alone.
fn read_mnemonic(line: &[char], name: &str) -> (r: Option<usize>)
    ensures
        match r {
            Some(q) => {
                &&& q <= line.len()
                &&& q == line.len() ==> line@ == "  "@ + name@
                &&& q < line.len() ==> line@ == "  "@ + name@ + " "@ + line@.subrange(
                    q as int,
                    line.len() as int,
                )
                &&& q < line.len() ==> q == 3 + name@.len()
            },
            None => {
                &&& line@ != "  "@ + name@
                &&& forall|rest: Seq<char>|
                    rest.len() > 0 ==> line@ != #[trigger] ("  "@ + name@ + " "@ + rest)
            },
        },
{
    proof {
        reveal_strlit("  ");
        reveal_strlit(" ");
    }
    let n = name.unicode_len();
    if !has_word(line, 0, "  ") || !has_word(line, 2, name) {
        assert(("  "@ + name@).subrange(0, 2) =~= "  "@);
        assert(("  "@ + name@).subrange(2, 2 + name@.len() as int) =~= name@);
        assert forall|rest: Seq<char>| rest.len() > 0 implies line@ != #[trigger] ("  "@ + name@
            + " "@ + rest) by {
            let t = "  "@ + name@ + " "@ + rest;
            assert(t.subrange(0, 2) =~= "  "@);
            assert(t.subrange(2, 2 + name@.len() as int) =~= name@);
        }
        return None;
    }
    let p = 2 + n;
    if p == line.len() {
        assert(line@ =~= "  "@ + name@);
        return Some(p);
    }
    if line[p] != ' ' || p + 1 == line.len() {
        assert forall|rest: Seq<char>| rest.len() > 0 implies line@ != #[trigger] ("  "@ + name@
            + " "@ + rest) by {
            let t = "  "@ + name@ + " "@ + rest;
            assert(t[p as int] == ' ');
            assert(t.len() == 3 + name@.len() + rest.len());
        }
        return None;
    }
    assert(line@ =~= "  "@ + name@ + " "@ + line@.subrange(p + 1, line.len() as int));
    Some(p + 1)
}

/// The printed operands of an operation that has operands are not empty.
proof fn lemma_operands_text(ty: IRType, l: usize, r: usize)
    ensures
        ty != IRType::Noarg && is_plain_shape(ty) ==> operands_text(ty, l, r).len() > 0,
{
    lemma_reg_text(l);
    lemma_label_text(l);
}

/// The second of two operands, of the kind that the shape `ty` asks for.
pub open spec fn second_text(ty: IRType, r: usize) -> Seq<char> {
    match ty {
        IRType::RegImm => signed_decimal(imm32(r as int)),
        IRType::RegLabel => label_text(r),
        _ => reg_text(r),
    }
}

/// Whether an operation of the shape `ty` has two operands.
pub open spec fn has_two(ty: IRType) -> bool {
    ty == IRType::RegReg || ty == IRType::Mem || ty == IRType::RegImm || ty == IRType::RegLabel
}

/// The two operands of the shape `ty` whose printed form is
/// `line[q..]`.
fn read_two(line: &[char], q: usize, ty: IRType) -> (r: Option<(usize, usize)>)
    requires
        q <= line.len(),
        has_two(ty),
    ensures
        match r {
            Some((l, r)) => {
                &&& operands_text(ty, l, r) == line@.subrange(q as int, line.len() as int)
                &&& ty == IRType::RegImm ==> is_imm_operand(r)
            },
            None => forall|l: usize, r: usize| #[trigger]
                operands_text(ty, l, r) != line@.subrange(q as int, line.len() as int),
        },
{
    let end = line.len();
    let ghost rest = line@.subrange(q as int, end as int);
    proof {
        reveal_strlit(", ");
    }
    let c = match split_operands(line, q, end) {
        Some(c) => c,
        None => {
            assert forall|l: usize, r: usize| #[trigger] operands_text(ty, l, r) != rest by {
                lemma_reg_text(l);
                assert(operands_text(ty, l, r) == reg_text(l) + ", "@ + second_text(ty, r));
            }
            return None;
        },
    };
    let ghost first = line@.subrange(q as int, c as int);
    let ghost second = line@.subrange(c + 2, end as int);
    assert(rest =~= first + ", "@ + second);
    proof {
        assert forall|l: usize, r: usize| #[trigger] operands_text(ty, l, r) == rest implies reg_text(
            l,
        ) == first && second_text(ty, r) == second by {
            lemma_reg_text(l);
            let a = reg_text(l);
            let b = second_text(ty, r);
            assert(rest == a + ", "@ + b);
            assert(rest[c - q] == line@[c as int]);
            assert forall|i: int| 0 <= i < c - q implies rest[i] != ',' by {
                assert(rest[i] == line@[q + i]);
            }
            lemma_split_unique(rest, c - q, a, b);
            assert(rest.subrange(0, c - q) =~= first);
            assert(rest.subrange(c - q + 2, rest.len() as int) =~= second);
        }
    }
    let l = match read_reg(line, q, c) {
        Some(l) => l,
        None => {
            return None;
        },
    };
    let r = match ty {
        IRType::RegImm => read_imm(line, c + 2, end),
        IRType::RegLabel => read_label(line, c + 2, end),
        _ => read_reg(line, c + 2, end),
    };
    match r {
        Some(r) => Some((l, r)),
        None => None,
    }
}

/// The operands of the shape `ty` whose printed form `line` is, behind
/// the mnemonic `name`.
fn read_form(line: &[char], name: &str, ty: IRType) -> (r: Option<(Option<usize>, Option<usize>)>)
    requires
        is_plain_shape(ty),
    ensures
        match r {
            Some((lhs, rhs)) => {
                &&& plain_form(name@, ty, operand_of(lhs), operand_of(rhs)) == line@
                &&& ty == IRType::Noarg ==> lhs is None && rhs is None
                &&& (ty == IRType::Reg || ty == IRType::Jmp) ==> lhs is Some && rhs is None
                &&& has_two(ty) ==> lhs is Some && rhs is Some
                &&& ty == IRType::RegImm ==> is_imm_operand(operand_of(rhs))
            },
            None => forall|l: usize, r: usize| #[trigger] plain_form(name@, ty, l, r) != line@,
        },
{
    let q = match read_mnemonic(line, name) {
        Some(q) => q,
        None => {
            assert forall|l: usize, r: usize| #[trigger] plain_form(name@, ty, l, r) != line@ by {
                lemma_operands_text(ty, l, r);
                assert(plain_form(name@, ty, l, r) == if ty == IRType::Noarg {
                    "  "@ + name@
                } else {
                    "  "@ + name@ + " "@ + operands_text(ty, l, r)
                });
            }
            return None;
        },
    };
    let end = line.len();
    let ghost rest = line@.subrange(q as int, end as int);
    if q == end {
        if matches!(ty, IRType::Noarg) {
            return Some((None, None));
        }
        assert forall|l: usize, r: usize| #[trigger] plain_form(name@, ty, l, r) != line@ by {
            lemma_plain_form(name@, ty, l, r);
            lemma_operands_text(ty, l, r);
            reveal_strlit(" ");
        }
        return None;
    }
    assert forall|l: usize, r: usize| #[trigger] plain_form(name@, ty, l, r) == line@ implies ty
        != IRType::Noarg && operands_text(ty, l, r) == rest by {
        lemma_plain_form(name@, ty, l, r);
    }
    match ty {
        IRType::Noarg => None,
        IRType::Reg => {
            match read_reg(line, q, end) {
                Some(l) => Some((Some(l), None)),
                None => None,
            }
        },
        IRType::Jmp => {
            match read_label(line, q, end) {
                Some(l) => Some((Some(l), None)),
                None => None,
            }
        },
        _ => {
            match read_two(line, q, ty) {
                Some((l, r)) => Some((Some(l), Some(r))),
                None => None,
            }
        },
    }
}

/// The instruction with the plain operation `op` whose printed form is
/// `line`.
pub fn read_plain(line: &[char], op: &IROp) -> (r: Option<IR>)
    requires
        is_plain(*op),
    ensures
        match r {
            Some(ir) => ir.op == *op && printable(ir) && is_normal(ir) && ir_text(ir) == line@,
            None => forall|ir: IR| ir.op == *op && printable(ir) ==> #[trigger] ir_text(ir) != line@,
        },
{
    let info = IRInfo::from(op);
    proof {
        lemma_plain_text(IR { op: *op, lhs: None, rhs: None });
    }
    match read_form(line, info.name, info.ty) {
        Some((lhs, rhs)) => {
            let ir = IR { op: op.duplicate(), lhs, rhs };
            proof {
                lemma_plain_text(ir);
            }
            Some(ir)
        },
        None => {
            assert forall|ir: IR| ir.op == *op && printable(ir) implies #[trigger] ir_text(ir)
                != line@ by {
                lemma_plain_text(ir);
            }
            None
        },
    }
}

/// The instruction that defines a label and whose printed form is `line`.
pub fn read_label_line(line: &[char]) -> (r: Option<IR>)
    ensures
        match r {
            Some(ir) => ir.op is Label && printable(ir) && is_normal(ir) && ir_text(ir) == line@,
            None => forall|ir: IR| ir.op is Label && printable(ir) ==> #[trigger] ir_text(ir)
                != line@,
        },
{
    proof {
        reveal_strlit(":");
    }
    let end = line.len();
    if end == 0 || line[end - 1] != ':' {
        assert forall|ir: IR| ir.op is Label && printable(ir) implies #[trigger] ir_text(ir)
            != line@ by {
            let t = ir_text(ir);
            assert(t == label_text(operand_of(ir.lhs)) + ":"@);
            assert(t[t.len() - 1] == ':');
        }
        return None;
    }
    match read_label(line, 0, end - 1) {
        Some(l) => {
            let ir = IR { op: IROp::Label, lhs: Some(l), rhs: None };
            assert(ir_text(ir) =~= line@);
            Some(ir)
        },
        None => {
            assert forall|ir: IR| ir.op is Label && printable(ir) implies #[trigger] ir_text(ir)
                != line@ by {
                let t = ir_text(ir);
                let l = label_text(operand_of(ir.lhs));
                assert(t == l + ":"@);
                if t == line@ {
                    assert(line@.subrange(0, end - 1) =~= l);
                }
            }
            None
        },
    }
}

/// The first operand of an operation with a width: an immediate if
/// `offset` is set, a register if not.
pub open spec fn first_text(offset: bool, l: usize) -> Seq<char> {
    if offset {
        signed_decimal(imm32(l as int))
    } else {
        reg_text(l)
    }
}

/// The printed operands of an operation with a width.
pub open spec fn pair_text(offset: bool, l: usize, r: usize) -> Seq<char> {
    first_text(offset, l) + ", "@ + reg_text(r)
}

/// The printed form of an operation with a width up to its operands: the
/// mnemonic with the width behind it, and a space.
pub open spec fn sized_head(name: Seq<char>, size: u8) -> Seq<char> {
    "  "@ + name + decimal(size as nat) + " "@
}

/// The printed form of an operation with a width.
pub open spec fn sized_form(name: Seq<char>, offset: bool, size: u8, l: usize, r: usize) -> Seq<
    char,
> {
    sized_head(name, size) + pair_text(offset, l, r)
}

proof fn lemma_sized_head(name: Seq<char>, size: u8, rest: Seq<char>)
    ensures
        ({
            let t = sized_head(name, size) + rest;
            let width = decimal(size as nat);
            let p = 2 + name.len() as int;
            let e = p + width.len();
            &&& sized_head(name, size).len() == e + 1
            &&& t.len() == e + 1 + rest.len()
            &&& t.subrange(0, 2) == "  "@
            &&& t.subrange(2, p) == name
            &&& t.subrange(p, e) == width
            &&& t[e] == ' '
            &&& t.subrange(e + 1, t.len() as int) == rest
            &&& forall|i: int| p <= i < e ==> t[i] != ' '
        }),
{
    reveal_strlit("  ");
    reveal_strlit(" ");
    let t = sized_head(name, size) + rest;
    let width = decimal(size as nat);
    let p = 2 + name.len() as int;
    let e = p + width.len();
    lemma_decimal_digits(size as nat);
    assert(t =~= "  "@ + name + width + " "@ + rest);
    assert(t.subrange(0, 2) =~= "  "@);
    assert(t.subrange(2, p) =~= name);
    assert(t.subrange(p, e) =~= width);
    assert(t.subrange(e + 1, t.len() as int) =~= rest);
    assert forall|i: int| p <= i < e implies t[i] != ' ' by {
        assert(t[i] == width[i - p]);
        assert(is_digit(width[i - p]));
    }
}

/// The width of the operation with the mnemonic `name` whose printed form
/// begins `line`, and where its operands begin.
fn read_width(line: &[char], name: &str) -> (r: Option<(u8, usize)>)
    ensures
        match r {
            Some((size, q)) => {
                &&& q <= line.len()
                &&& line@.subrange(0, q as int) == sized_head(name@, size)
                &&& forall|other: u8, rest: Seq<char>|
                    line@ == #[trigger] (sized_head(name@, other) + rest) ==> q == sized_head(
                        name@,
                        other,
                    ).len()
            },
            None => forall|other: u8, rest: Seq<char>|
                line@ != #[trigger] (sized_head(name@, other) + rest),
        },
{
    proof {
        reveal_strlit("  ");
        reveal_strlit(" ");
    }
    let n = name.unicode_len();
    if !has_word(line, 0, "  ") || !has_word(line, 2, name) {
        assert forall|other: u8, rest: Seq<char>|
            line@ != #[trigger] (sized_head(name@, other) + rest) by {
            lemma_sized_head(name@, other, rest);
        }
        return None;
    }
    let p = 2 + n;
    let end = line.len();
    let e = find_char(line, p, end, ' ');
    proof {
        assert forall|other: u8, rest: Seq<char>|
            line@ == #[trigger] (sized_head(name@, other) + rest) implies e == p + decimal(
            other as nat,
        ).len() && line@.subrange(p as int, e as int) == decimal(other as nat) by {
            lemma_sized_head(name@, other, rest);
        }
    }
    if e >= end {
        return None;
    }
    match read_number(line, p, e, 255) {
        Some(v) => {
            let size = v as u8;
            proof {
                lemma_sized_head(name@, size, Seq::empty());
                assert(line@.subrange(0, e + 1) =~= sized_head(name@, size));
                assert forall|other: u8, rest: Seq<char>|
                    line@ == #[trigger] (sized_head(name@, other) + rest) implies e + 1
                    == sized_head(name@, other).len() by {
                    lemma_sized_head(name@, other, rest);
                }
            }
            Some((size, e + 1))
        },
        None => None,
    }
}

/// The two operands of an operation with a width whose printed form is
/// `line[q..]`.
fn read_pair(line: &[char], q: usize, offset: bool) -> (r: Option<(usize, usize)>)
    requires
        q <= line.len(),
    ensures
        match r {
            Some((l, r)) => {
                &&& pair_text(offset, l, r) == line@.subrange(q as int, line.len() as int)
                &&& offset ==> is_imm_operand(l)
            },
            None => forall|l: usize, r: usize| #[trigger]
                pair_text(offset, l, r) != line@.subrange(q as int, line.len() as int),
        },
{
    let end = line.len();
    let ghost rest = line@.subrange(q as int, end as int);
    proof {
        reveal_strlit(", ");
    }
    let c = match split_operands(line, q, end) {
        Some(c) => c,
        None => {
            assert forall|l: usize, r: usize| #[trigger] pair_text(offset, l, r) != rest by {
                lemma_reg_text(l);
                lemma_imm_text(imm32(l as int));
            }
            return None;
        },
    };
    let ghost first = line@.subrange(q as int, c as int);
    let ghost second = line@.subrange(c + 2, end as int);
    assert(rest =~= first + ", "@ + second);
    proof {
        assert forall|l: usize, r: usize| #[trigger] pair_text(offset, l, r) == rest implies first_text(
            offset,
            l,
        ) == first && reg_text(r) == second by {
            lemma_reg_text(l);
            lemma_imm_text(imm32(l as int));
            let a = first_text(offset, l);
            let b = reg_text(r);
            assert(rest == a + ", "@ + b);
            assert(rest[c - q] == line@[c as int]);
            assert forall|i: int| 0 <= i < c - q implies rest[i] != ',' by {
                assert(rest[i] == line@[q + i]);
            }
            lemma_split_unique(rest, c - q, a, b);
            assert(rest.subrange(0, c - q) =~= first);
            assert(rest.subrange(c - q + 2, rest.len() as int) =~= second);
        }
    }
    let l = if offset {
        read_imm(line, q, c)
    } else {
        read_reg(line, q, c)
    };
    let l = match l {
        Some(l) => l,
        None => {
            return None;
        },
    };
    match read_reg(line, c + 2, end) {
        Some(r) => Some((l, r)),
        None => None,
    }
}

/// The width and the operands of the operation with the mnemonic `name`
/// whose printed form is `line`.
fn read_sized(line: &[char], name: &str, offset: bool) -> (r: Option<(u8, usize, usize)>)
    ensures
        match r {
            Some((size, l, r)) => {
                &&& sized_form(name@, offset, size, l, r) == line@
                &&& offset ==> is_imm_operand(l)
            },
            None => forall|size: u8, l: usize, r: usize| #[trigger]
                sized_form(name@, offset, size, l, r) != line@,
        },
{
    let (size, q) = match read_width(line, name) {
        Some(found) => found,
        None => {
            assert forall|size: u8, l: usize, r: usize| #[trigger]
                sized_form(name@, offset, size, l, r) != line@ by {
                assert(sized_form(name@, offset, size, l, r) == sized_head(name@, size)
                    + pair_text(offset, l, r));
            }
            return None;
        },
    };
    let ghost rest = line@.subrange(q as int, line.len() as int);
    assert(line@ =~= sized_head(name@, size) + rest);
    proof {
        assert forall|other: u8, l: usize, r: usize| #[trigger]
            sized_form(name@, offset, other, l, r) == line@ implies pair_text(offset, l, r)
            == rest by {
            let head = sized_head(name@, other);
            assert(line@ == head + pair_text(offset, l, r));
            assert(q == head.len());
            assert((head + pair_text(offset, l, r)).subrange(q as int, line.len() as int)
                =~= pair_text(offset, l, r));
        }
    }
    match read_pair(line, q, offset) {
        Some((l, r)) => Some((size, l, r)),
        None => None,
    }
}

/// The printed form of an operation with a width is made of its mnemonic,
/// its width and its operands.
pub proof fn lemma_sized_text(ir: IR)
    requires
        ir.op is Load || ir.op is Store || ir.op is StoreArg,
    ensures
        ir_text(ir) == sized_form(
            mnemonic(ir.op)@,
            ir.op is StoreArg,
            match ir.op {
                IROp::Load(size) => size,
                IROp::Store(size) => size,
                IROp::StoreArg(size) => size,
                _ => 0u8,
            },
            operand_of(ir.lhs),
            operand_of(ir.rhs),
        ),
{
}

/// The load whose printed form is `line`.
pub fn read_load(line: &[char]) -> (r: Option<IR>)
    ensures
        match r {
            Some(ir) => ir.op is Load && printable(ir) && is_normal(ir) && ir_text(ir) == line@,
            None => forall|ir: IR| ir.op is Load && printable(ir) ==> #[trigger] ir_text(ir)
                != line@,
        },
{
    match read_sized(line, "LOAD", false) {
        Some((size, l, r)) => {
            let ir = IR { op: IROp::Load(size), lhs: Some(l), rhs: Some(r) };
            proof {
                lemma_sized_text(ir);
            }
            Some(ir)
        },
        None => {
            assert forall|ir: IR| ir.op is Load && printable(ir) implies #[trigger] ir_text(ir)
                != line@ by {
                lemma_sized_text(ir);
            }
            None
        },
    }
}

/// The store whose printed form is `line`.
pub fn read_store(line: &[char]) -> (r: Option<IR>)
    ensures
        match r {
            Some(ir) => ir.op is Store && printable(ir) && is_normal(ir) && ir_text(ir) == line@,
            None => forall|ir: IR| ir.op is Store && printable(ir) ==> #[trigger] ir_text(ir)
                != line@,
        },
{
    match read_sized(line, "STORE", false) {
        Some((size, l, r)) => {
            let ir = IR { op: IROp::Store(size), lhs: Some(l), rhs: Some(r) };
            proof {
                lemma_sized_text(ir);
            }
            Some(ir)
        },
        None => {
            assert forall|ir: IR| ir.op is Store && printable(ir) implies #[trigger] ir_text(ir)
                != line@ by {
                lemma_sized_text(ir);
            }
            None
        },
    }
}

/// The store of an argument whose printed form is `line`.
pub fn read_store_arg(line: &[char]) -> (r: Option<IR>)
    ensures
        match r {
            Some(ir) => ir.op is StoreArg && printable(ir) && is_normal(ir) && ir_text(ir)
                == line@,
            None => forall|ir: IR| ir.op is StoreArg && printable(ir) ==> #[trigger] ir_text(ir)
                != line@,
        },
{
    match read_sized(line, "STORE_ARG", true) {
        Some((size, l, r)) => {
            let ir = IR { op: IROp::StoreArg(size), lhs: Some(l), rhs: Some(r) };
            proof {
                lemma_sized_text(ir);
            }
            Some(ir)
        },
        None => {
            assert forall|ir: IR| ir.op is StoreArg && printable(ir) implies #[trigger] ir_text(
                ir,
            ) != line@ by {
                lemma_sized_text(ir);
            }
            None
        },
    }
}

/// The name that is `text[from..to]`.
pub fn read_name(text: &[char], from: usize, to: usize) -> (r: Option<String>)
    requires
        from <= to <= text.len(),
    ensures
        match r {
            Some(name) => name@ == text@.subrange(from as int, to as int) && is_name(name@),
            None => !is_name(text@.subrange(from as int, to as int)),
        },
{
    let ghost s = text@.subrange(from as int, to as int);
    if from == to {
        return None;
    }
    let mut name = String::new();
    let mut i: usize = from;
    while i < to
        invariant
            from <= i <= to <= text.len(),
            s == text@.subrange(from as int, to as int),
            name@ == s.take(i - from),
            forall|j: int| 0 <= j < i - from ==> s[j] != ' ' && s[j] != '(' && s[j] != '\n',
        decreases to - i,
    {
        let c = text[i];
        assert(s[i - from] == c);
        if c == ' ' || c == '(' || c == '\n' {
            return None;
        }
        push_char(&mut name, c);
        assert(name@ =~= s.take(i - from + 1));
        i += 1;
    }
    assert(s.take(i - from) =~= s);
    Some(name)
}

/// The instruction that takes the address of a global and whose printed
/// form is `line`.
pub fn read_label_addr(line: &[char]) -> (r: Option<IR>)
    ensures
        match r {
            Some(ir) => ir.op is LabelAddr && printable(ir) && is_normal(ir) && ir_text(ir)
                == line@,
            None => forall|ir: IR| ir.op is LabelAddr && printable(ir) ==> #[trigger] ir_text(ir)
                != line@,
        },
{
    proof {
        reveal_strlit(", ");
    }
    let end = line.len();
    let q = match read_mnemonic(line, "LABEL_ADDR") {
        Some(q) => q,
        None => {
            assert forall|ir: IR| ir.op is LabelAddr && printable(ir) implies #[trigger] ir_text(
                ir,
            ) != line@ by {
                let rest = reg_text(operand_of(ir.lhs)) + ", "@ + ir.op->LabelAddr_0@;
                assert(ir_text(ir) =~= "  "@ + "LABEL_ADDR"@ + " "@ + rest);
            }
            return None;
        },
    };
    let ghost rest = line@.subrange(q as int, end as int);
    proof {
        assert forall|ir: IR|
            ir.op is LabelAddr && printable(ir) && #[trigger] ir_text(ir) == line@ implies q < end
            && rest == reg_text(operand_of(ir.lhs)) + ", "@ + ir.op->LabelAddr_0@ by {
            let tail = reg_text(operand_of(ir.lhs)) + ", "@ + ir.op->LabelAddr_0@;
            let head = "  "@ + "LABEL_ADDR"@ + " "@;
            assert(ir_text(ir) =~= head + tail);
            reveal_strlit("  ");
            reveal_strlit(" ");
            assert(head.len() == 3 + "LABEL_ADDR"@.len());
            assert(line@.len() > head.len());
            assert((head + tail).subrange(head.len() as int, line@.len() as int) =~= tail);
        }
    }
    if q >= end {
        return None;
    }
    let c = match split_operands(line, q, end) {
        Some(c) => c,
        None => {
            assert forall|ir: IR| ir.op is LabelAddr && printable(ir) implies #[trigger] ir_text(
                ir,
            ) != line@ by {
                lemma_reg_text(operand_of(ir.lhs));
            }
            return None;
        },
    };
    let ghost first = line@.subrange(q as int, c as int);
    let ghost second = line@.subrange(c + 2, end as int);
    assert(rest =~= first + ", "@ + second);
    proof {
        assert forall|ir: IR|
            ir.op is LabelAddr && printable(ir) && #[trigger] ir_text(ir) == line@ implies reg_text(
            operand_of(ir.lhs),
        ) == first && ir.op->LabelAddr_0@ == second by {
            lemma_reg_text(operand_of(ir.lhs));
            let a = reg_text(operand_of(ir.lhs));
            let b = ir.op->LabelAddr_0@;
            assert(rest == a + ", "@ + b);
            assert(rest[c - q] == line@[c as int]);
            assert forall|i: int| 0 <= i < c - q implies rest[i] != ',' by {
                assert(rest[i] == line@[q + i]);
            }
            lemma_split_unique(rest, c - q, a, b);
            assert(rest.subrange(0, c - q) =~= first);
            assert(rest.subrange(c - q + 2, rest.len() as int) =~= second);
        }
    }
    let l = match read_reg(line, q, c) {
        Some(l) => l,
        None => {
            return None;
        },
    };
    match read_name(line, c + 2, end) {
        Some(name) => {
            let ir = IR { op: IROp::LabelAddr(name), lhs: Some(l), rhs: None };
            assert(ir_text(ir) =~= line@);
            Some(ir)
        },
        None => None,
    }
}

/// Two registers with the same printed form are the same register.
pub proof fn lemma_reg_injective(x: usize, y: usize)
    requires
        reg_text(x) == reg_text(y),
    ensures
        x == y,
{
    lemma_reg_text(x);
    lemma_reg_text(y);
    lemma_decimal_injective(x as nat, y as nat);
}

/// The printed form of the arguments from `from` on and before `to`,
/// each with a comma and a space before it.
pub open spec fn args_tail(a: Seq<usize>, from: int, to: int) -> Seq<char>
    decreases to - from,
{
    if to <= from {
        Seq::empty()
    } else {
        args_tail(a, from, to - 1) + ", "@ + reg_text(a[to - 1])
    }
}

proof fn lemma_args_split(a: Seq<usize>, k: int, n: int)
    requires
        1 <= k <= n,
    ensures
        call_args_text(a, n) == call_args_text(a, k) + args_tail(a, k, n),
    decreases n - k,
{
    if k < n {
        lemma_args_split(a, k, n - 1);
        assert(call_args_text(a, n) =~= call_args_text(a, k) + args_tail(a, k, n));
    } else {
        assert(call_args_text(a, n) =~= call_args_text(a, k) + args_tail(a, k, n));
    }
}

proof fn lemma_tail_front(a: Seq<usize>, k: int, n: int)
    requires
        k < n,
    ensures
        args_tail(a, k, n) == ", "@ + reg_text(a[k]) + args_tail(a, k + 1, n),
    decreases n - k,
{
    if k + 1 < n {
        lemma_tail_front(a, k, n - 1);
        assert(args_tail(a, k, n) =~= ", "@ + reg_text(a[k]) + args_tail(a, k + 1, n));
    } else {
        assert(args_tail(a, k, k) =~= Seq::<char>::empty());
        assert(args_tail(a, k + 1, n) =~= Seq::<char>::empty());
        assert(args_tail(a, k, n) =~= ", "@ + reg_text(a[k]) + args_tail(a, k + 1, n));
    }
}

/// What follows the first `k` of `n` printed arguments: nothing if they
/// are all, else a comma, a space, the next argument and the rest.
proof fn lemma_args_next(a: Seq<usize>, k: int, n: int)
    requires
        0 <= k <= n,
    ensures
        call_args_text(a, k).len() <= call_args_text(a, n).len(),
        k == n ==> call_args_text(a, n).subrange(
            call_args_text(a, k).len() as int,
            call_args_text(a, n).len() as int,
        ) == Seq::<char>::empty(),
        k < n && k == 0 ==> call_args_text(a, n) == reg_text(a[0]) + args_tail(a, 1, n),
        k < n && k > 0 ==> call_args_text(a, n) == call_args_text(a, k) + (", "@ + reg_text(a[k])
            + args_tail(a, k + 1, n)),
        k < n ==> call_args_text(a, k).len() < call_args_text(a, n).len(),
        args_tail(a, k + 1, n).len() > 0 ==> args_tail(a, k + 1, n)[0] == ',',
{
    reveal_strlit(", ");
    if k == n {
        assert(call_args_text(a, n).subrange(
            call_args_text(a, k).len() as int,
            call_args_text(a, n).len() as int,
        ) =~= Seq::<char>::empty());
    } else if k == 0 {
        lemma_args_split(a, 1, n);
        lemma_reg_text(a[0]);
        assert(call_args_text(a, 0).len() == 0);
    } else {
        lemma_args_split(a, k, n);
        lemma_tail_front(a, k, n);
        lemma_reg_text(a[k]);
    }
    if k + 1 < n {
        lemma_tail_front(a, k + 1, n);
    }
}

/// The printed form of the first `n` arguments depends on these alone.
proof fn lemma_args_agree(a: Seq<usize>, b: Seq<usize>, n: int)
    requires
        forall|j: int| 0 <= j < n ==> a[j] == b[j],
    ensures
        call_args_text(a, n) == call_args_text(b, n),
    decreases n,
{
    if n > 1 {
        lemma_args_agree(a, b, n - 1);
    }
}

/// The register whose printed form begins at `start` and ends before the
/// next comma, or at `to`; and where it ends.
fn read_next(text: &[char], start: usize, to: usize) -> (r: Option<(usize, usize)>)
    requires
        start <= to <= text.len(),
    ensures
        match r {
            Some((x, c)) => {
                &&& start <= c <= to
                &&& reg_text(x) == text@.subrange(start as int, c as int)
                &&& c < to ==> text@[c as int] == ','
            },
            None => true,
        },
        forall|y: usize, rest: Seq<char>|
            text@.subrange(start as int, to as int) == #[trigger] (reg_text(y) + rest) && (
            rest.len() == 0 || rest[0] == ',') ==> r == Some((y, (start + reg_text(y).len()) as usize)),
{
    let c = find_char(text, start, to, ',');
    let found = read_reg(text, start, c);
    let out = match found {
        Some(x) => Some((x, c)),
        None => None,
    };
    proof {
        let s = text@.subrange(start as int, to as int);
        assert forall|y: usize, rest: Seq<char>|
            s == #[trigger] (reg_text(y) + rest) && (rest.len() == 0 || rest[0]
                == ',') implies out == Some((y, (start + reg_text(y).len()) as usize)) by {
            lemma_reg_text(y);
            let a = reg_text(y);
            let at = start + a.len();
            assert(s.len() == a.len() + rest.len());
            if c < at {
                assert(s[c - start] == text@[c as int]);
                assert(s[c - start] == a[c - start]);
            }
            if c > at {
                assert(s[a.len() as int] == rest[0]);
                assert(s[a.len() as int] == text@[at as int]);
            }
            assert(c == at);
            assert(text@.subrange(start as int, c as int) =~= a);
            match found {
                Some(x) => {
                    lemma_reg_injective(x, y);
                },
                None => {},
            }
        }
    }
    out
}

/// Whether every list of at most six arguments whose printed form is `s`
/// begins with the `k` arguments `args`, printed in `done` characters.
pub open spec fn args_so_far(s: Seq<char>, args: Seq<usize>, k: int, done: int) -> bool {
    forall|a: Seq<usize>, n: int|
        0 <= n <= 6 && a.len() == 6 && #[trigger] call_args_text(a, n) == s ==> {
            &&& n >= k
            &&& forall|j: int| 0 <= j < k ==> a[j] == args[j]
            &&& call_args_text(a, k).len() == done
        }
}

/// What stands behind the first `k` of the `n` arguments printed as `s`,
/// where that is not all of `s`: a comma, a space, and the next argument,
/// which ends `s` or has a comma after it.
proof fn lemma_next_arg(s: Seq<char>, a: Seq<usize>, n: int, k: int)
    requires
        1 <= k <= n,
        call_args_text(a, n) == s,
        call_args_text(a, k).len() < s.len(),
    ensures
        k < n,
        ({
            let d = call_args_text(a, k).len() as int;
            let tail = args_tail(a, k + 1, n);
            &&& s.len() >= d + 4
            &&& s[d] == ','
            &&& s[d + 1] == ' '
            &&& s.subrange(d + 2, s.len() as int) == reg_text(a[k]) + tail
            &&& tail.len() == 0 || tail[0] == ','
            &&& call_args_text(a, k + 1).len() == d + 2 + reg_text(a[k]).len()
            &&& call_args_text(a, k + 1) == call_args_text(a, k) + ", "@ + reg_text(a[k])
        }),
{
    reveal_strlit(", ");
    lemma_args_next(a, k, n);
    lemma_reg_text(a[k]);
    let done = call_args_text(a, k);
    let tail = args_tail(a, k + 1, n);
    let more = ", "@ + reg_text(a[k]) + tail;
    assert(s == done + more);
    assert(more.subrange(2, more.len() as int) =~= reg_text(a[k]) + tail);
    assert(s.subrange(done.len() as int + 2, s.len() as int) =~= more.subrange(
        2,
        more.len() as int,
    ));
    assert(s[done.len() as int] == more[0]);
    assert(s[done.len() as int + 1] == more[1]);
}

/// The arguments whose printed form is `text[from..to]`.
fn read_args(text: &[char], from: usize, to: usize) -> (r: Option<(usize, [usize; 6])>)
    requires
        from <= to <= text.len(),
    ensures
        match r {
            Some((n, args)) => {
                &&& n <= 6
                &&& call_args_text(args@, n as int) == text@.subrange(from as int, to as int)
                &&& forall|j: int| n <= j < 6 ==> #[trigger] args@[j] == 0
            },
            None => forall|a: Seq<usize>, n: int|
                0 <= n <= 6 && a.len() == 6 ==> #[trigger] call_args_text(a, n) != text@.subrange(
                    from as int,
                    to as int,
                ),
        },
{
    let ghost s = text@.subrange(from as int, to as int);
    let mut args: [usize; 6] = [0;6];
    if from == to {
        assert(call_args_text(args@, 0) =~= s);
        return Some((0, args));
    }
    let (first, c) = match read_next(text, from, to) {
        Some(found) => found,
        None => {
            assert forall|a: Seq<usize>, n: int| 0 <= n <= 6 && a.len() == 6 implies #[trigger] call_args_text(
                a,
                n,
            ) != s by {
                if call_args_text(a, n) == s {
                    lemma_args_next(a, 0, n);
                    assert(s == reg_text(a[0]) + args_tail(a, 1, n));
                }
            }
            return None;
        },
    };
    args[0] = first;
    let mut k: usize = 1;
    let mut pos: usize = c;
    proof {
        assert(call_args_text(args@, 1) =~= text@.subrange(from as int, pos as int));
        assert forall|a: Seq<usize>, n: int|
            0 <= n <= 6 && a.len() == 6 && #[trigger] call_args_text(a, n) == s implies n >= 1
            && (forall|j: int| 0 <= j < 1 ==> a[j] == args@[j]) && call_args_text(a, 1).len()
            == pos - from by {
            lemma_args_next(a, 0, n);
            assert(s == reg_text(a[0]) + args_tail(a, 1, n));
        }
    }
    while pos < to
        invariant
            1 <= k <= 6,
            from <= pos <= to <= text.len(),
            s == text@.subrange(from as int, to as int),
            pos < to ==> text@[pos as int] == ',',
            call_args_text(args@, k as int) == text@.subrange(from as int, pos as int),
            forall|j: int| k <= j < 6 ==> #[trigger] args@[j] == 0,
            args_so_far(s, args@, k as int, pos - from),
        decreases to - pos,
    {
        proof {
            assert forall|a: Seq<usize>, n: int|
                0 <= n <= 6 && a.len() == 6 && #[trigger] call_args_text(a, n) == s implies {
                let tail = args_tail(a, k + 1, n);
                &&& k < n
                &&& to - pos >= 4
                &&& text@[pos + 1] == ' '
                &&& text@.subrange(pos + 2, to as int) == reg_text(a[k as int]) + tail
                &&& tail.len() == 0 || tail[0] == ','
                &&& call_args_text(a, k + 1).len() == pos - from + 2 + reg_text(a[k as int]).len()
            } by {
                lemma_next_arg(s, a, n, k as int);
                let d = pos - from;
                assert(s[d + 1] == text@[pos + 1]);
                assert(s.subrange(d + 2, s.len() as int) =~= text@.subrange(pos + 2, to as int));
            }
        }
        if k == 6 {
            return None;
        }
        if to - pos < 2 || text[pos + 1] != ' ' {
            return None;
        }
        let ghost before = args@;
        let (next, c) = match read_next(text, pos + 2, to) {
            Some(found) => found,
            None => {
                return None;
            },
        };
        args[k] = next;
        proof {
            reveal_strlit(", ");
            lemma_args_agree(before, args@, k as int);
            assert(call_args_text(args@, k + 1) == call_args_text(args@, k as int) + ", "@
                + reg_text(args@[k as int]));
            assert(call_args_text(args@, k + 1) =~= text@.subrange(from as int, c as int));
            assert forall|a: Seq<usize>, n: int|
                0 <= n <= 6 && a.len() == 6 && #[trigger] call_args_text(a, n) == s implies n >= k
                + 1 && (forall|j: int| 0 <= j < k + 1 ==> a[j] == args@[j]) && call_args_text(
                a,
                k + 1,
            ).len() == c - from by {
                assert(next == a[k as int]);
                assert forall|j: int| 0 <= j < k + 1 implies a[j] == args@[j] by {
                    if j < k {
                        assert(a[j] == before[j]);
                    }
                }
            }
        }
        k += 1;
        pos = c;
    }
    proof {
        assert(text@.subrange(from as int, pos as int) =~= s);
    }
    Some((k, args))
}

/// The printed form of a call up to the name of the callee.
pub open spec fn call_head(l: usize) -> Seq<char> {
    "  "@ + reg_text(l) + " = "@
}

/// The printed form of a call from the name of the callee on.
pub open spec fn call_tail(callee: Seq<char>, args: Seq<usize>, n: int) -> Seq<char> {
    wrap(callee, call_args_text(args, n))
}

proof fn lemma_call_head(l: usize, rest: Seq<char>)
    ensures
        ({
            let t = call_head(l) + rest;
            let e = 2 + reg_text(l).len() as int;
            &&& call_head(l).len() == e + 3
            &&& t.len() == e + 3 + rest.len()
            &&& t.subrange(0, 2) == "  "@
            &&& t.subrange(2, e) == reg_text(l)
            &&& t.subrange(e, e + 3) == " = "@
            &&& t[e] == ' '
            &&& forall|i: int| 2 <= i < e ==> t[i] != ' '
            &&& t.subrange(e + 3, t.len() as int) == rest
        }),
{
    reveal_strlit("  ");
    reveal_strlit(" = ");
    lemma_reg_text(l);
    let t = call_head(l) + rest;
    let e = 2 + reg_text(l).len() as int;
    assert(t =~= "  "@ + reg_text(l) + " = "@ + rest);
    assert(t.subrange(0, 2) =~= "  "@);
    assert(t.subrange(2, e) =~= reg_text(l));
    assert(t.subrange(e, e + 3) =~= " = "@);
    assert(t.subrange(e + 3, t.len() as int) =~= rest);
    assert forall|i: int| 2 <= i < e implies t[i] != ' ' by {
        assert(t[i] == reg_text(l)[i - 2]);
    }
}

/// The register of the result of the call whose printed form begins
/// `line`, and where the name of the callee begins.
fn read_call_head(line: &[char]) -> (r: Option<(usize, usize)>)
    ensures
        match r {
            Some((l, q)) => {
                &&& q <= line.len()
                &&& line@.subrange(0, q as int) == call_head(l)
            },
            None => true,
        },
        forall|other: usize, rest: Seq<char>|
            line@ == #[trigger] (call_head(other) + rest) ==> r == Some(
                (other, call_head(other).len() as usize),
            ),
{
    proof {
        reveal_strlit("  ");
        reveal_strlit(" = ");
    }
    let end = line.len();
    let mut out: Option<(usize, usize)> = None;
    let ghost mut e_found: int = 0;
    if has_word(line, 0, "  ") {
        let e = find_char(line, 2, end, ' ');
        proof {
            e_found = e as int;
        }
        match read_reg(line, 2, e) {
            Some(l) => {
                if has_word(line, e, " = ") {
                    proof {
                        lemma_call_head(l, Seq::empty());
                        assert(line@.subrange(0, e + 3) =~= call_head(l));
                    }
                    out = Some((l, e + 3));
                }
            },
            None => {},
        }
    }
    proof {
        assert forall|other: usize, rest: Seq<char>|
            line@ == #[trigger] (call_head(other) + rest) implies out == Some(
            (other, call_head(other).len() as usize),
        ) by {
            lemma_call_head(other, rest);
            let at = 2 + reg_text(other).len() as int;
            assert(line@[at] == ' ');
            assert(e_found == at);
            match out {
                Some((l, q)) => {
                    lemma_reg_injective(l, other);
                },
                None => {},
            }
        }
    }
    out
}

/// A name, and a list in parentheses behind it.
pub open spec fn wrap(callee: Seq<char>, list: Seq<char>) -> Seq<char> {
    callee + "("@ + list + ")"@
}

proof fn lemma_wrap(callee: Seq<char>, list: Seq<char>)
    ensures
        ({
            let t = wrap(callee, list);
            let f = callee.len() as int;
            &&& t.len() == f + 1 + list.len() + 1
            &&& t.subrange(0, f) == callee
            &&& t[f] == '('
            &&& t.subrange(f + 1, t.len() - 1) == list
            &&& t[t.len() - 1] == ')'
        }),
{
    reveal_strlit("(");
    reveal_strlit(")");
    let t = wrap(callee, list);
    let f = callee.len() as int;
    assert(t.subrange(0, f) =~= callee);
    assert(t.subrange(f + 1, t.len() - 1) =~= list);
}

/// Where the opening parenthesis stands in a line that ends with a name
/// and a list in parentheses.
proof fn lemma_wrap_at(line: Seq<char>, q: int, f: int, callee: Seq<char>, list: Seq<char>)
    requires
        0 <= q <= f <= line.len(),
        lacks(callee, '('),
        wrap(callee, list) == line.subrange(q, line.len() as int),
        f < line.len() ==> line[f] == '(',
        forall|i: int| q <= i < f ==> line[i] != '(',
    ensures
        f == q + callee.len(),
        line.len() == f + list.len() + 2,
{
    let end = line.len() as int;
    let s = line.subrange(q, end);
    let t = wrap(callee, list);
    lemma_wrap(callee, list);
    let at = q + callee.len();
    assert(s.len() == end - q);
    assert(t[callee.len() as int] == '(');
    assert(s[callee.len() as int] == line[at]);
    if f < at {
        assert(line[f] == s[f - q]);
        assert(t.subrange(0, callee.len() as int)[f - q] == t[f - q]);
        assert(callee[f - q] != '(');
    }
}

/// Where the parts of a name with a list in parentheses stand in a line
/// that ends with them.
proof fn lemma_wrap_position(line: Seq<char>, q: int, f: int, callee: Seq<char>, list: Seq<char>)
    requires
        0 <= q <= f <= line.len(),
        lacks(callee, '('),
        wrap(callee, list) == line.subrange(q, line.len() as int),
        f < line.len() ==> line[f] == '(',
        forall|i: int| q <= i < f ==> line[i] != '(',
    ensures
        f == q + callee.len(),
        f < line.len() - 1,
        line[line.len() - 1] == ')',
        line.subrange(q, f) == callee,
        line.subrange(f + 1, line.len() - 1) == list,
{
    let end = line.len() as int;
    let s = line.subrange(q, end);
    lemma_wrap_at(line, q, f, callee, list);
    lemma_wrap(callee, list);
    assert(s[s.len() - 1] == line[end - 1]);
    assert(line.subrange(q, f) =~= s.subrange(0, f - q));
    assert(line.subrange(f + 1, end - 1) =~= s.subrange(f - q + 1, s.len() - 1));
}

proof fn lemma_tail_position(
    line: Seq<char>,
    q: int,
    f: int,
    callee: Seq<char>,
    a: Seq<usize>,
    n: int,
)
    requires
        0 <= q <= f <= line.len(),
        is_name(callee),
        call_tail(callee, a, n) == line.subrange(q, line.len() as int),
        f < line.len() ==> line[f] == '(',
        forall|i: int| q <= i < f ==> line[i] != '(',
    ensures
        f == q + callee.len(),
        f < line.len() - 1,
        line[line.len() - 1] == ')',
        line.subrange(q, f) == callee,
        line.subrange(f + 1, line.len() - 1) == call_args_text(a, n),
{
    lemma_wrap_position(line, q, f, callee, call_args_text(a, n));
}

/// The callee and the arguments of the call whose printed form ends with
/// `line[q..]`.
#[verifier::rlimit(40)]
fn read_call_tail(line: &[char], q: usize) -> (r: Option<(String, usize, [usize; 6])>)
    requires
        q <= line.len(),
    ensures
        match r {
            Some((callee, n, args)) => {
                &&& is_name(callee@)
                &&& n <= 6
                &&& forall|j: int| n <= j < 6 ==> #[trigger] args@[j] == 0
                &&& call_tail(callee@, args@, n as int) == line@.subrange(
                    q as int,
                    line.len() as int,
                )
            },
            None => forall|callee: Seq<char>, a: Seq<usize>, n: int|
                is_name(callee) && a.len() == 6 && 0 <= n <= 6 ==> #[trigger] call_tail(
                    callee,
                    a,
                    n,
                ) != line@.subrange(q as int, line.len() as int),
        },
{
    let end = line.len();
    let ghost s = line@.subrange(q as int, end as int);
    let f = find_char(line, q, end, '(');
    if f >= end || end - f < 2 || line[end - 1] != ')' {
        assert forall|callee: Seq<char>, a: Seq<usize>, n: int|
            is_name(callee) && a.len() == 6 && 0 <= n <= 6 implies #[trigger] call_tail(
            callee,
            a,
            n,
        ) != s by {
            if call_tail(callee, a, n) == s {
                lemma_tail_position(line@, q as int, f as int, callee, a, n);
            }
        }
        return None;
    }
    let callee = match read_name(line, q, f) {
        Some(name) => name,
        None => {
            assert forall|callee: Seq<char>, a: Seq<usize>, n: int|
                is_name(callee) && a.len() == 6 && 0 <= n <= 6 implies #[trigger] call_tail(
                callee,
                a,
                n,
            ) != s by {
                if call_tail(callee, a, n) == s {
                    lemma_tail_position(line@, q as int, f as int, callee, a, n);
                }
            }
            return None;
        },
    };
    match read_args(line, f + 1, end - 1) {
        Some((n, args)) => {
            proof {
                reveal_strlit("(");
                reveal_strlit(")");
                assert(call_tail(callee@, args@, n as int) =~= s);
            }
            Some((callee, n, args))
        },
        None => {
            assert forall|callee: Seq<char>, a: Seq<usize>, n: int|
                is_name(callee) && a.len() == 6 && 0 <= n <= 6 implies #[trigger] call_tail(
                callee,
                a,
                n,
            ) != s by {
                if call_tail(callee, a, n) == s {
                    lemma_tail_position(line@, q as int, f as int, callee, a, n);
                }
            }
            None
        },
    }
}

/// The call whose printed form is `line`.
pub fn read_call(line: &[char]) -> (r: Option<IR>)
    ensures
        match r {
            Some(ir) => ir.op is Call && printable(ir) && is_normal(ir) && ir_text(ir) == line@,
            None => forall|ir: IR| ir.op is Call && printable(ir) ==> #[trigger] ir_text(ir)
                != line@,
        },
{
    proof {
        assert forall|ir: IR| ir.op is Call && printable(ir) implies #[trigger] ir_text(ir)
            == call_head(operand_of(ir.lhs)) + call_tail(
            ir.op->Call_0@,
            ir.op->Call_2@,
            ir.op->Call_1 as int,
        ) by {
            assert(ir_text(ir) =~= call_head(operand_of(ir.lhs)) + call_tail(
                ir.op->Call_0@,
                ir.op->Call_2@,
                ir.op->Call_1 as int,
            ));
        }
    }
    let (l, q) = match read_call_head(line) {
        Some(found) => found,
        None => {
            return None;
        },
    };
    let ghost rest = line@.subrange(q as int, line.len() as int);
    assert(line@ =~= call_head(l) + rest);
    proof {
        assert forall|ir: IR|
            ir.op is Call && printable(ir) && #[trigger] ir_text(ir) == line@ implies call_tail(
            ir.op->Call_0@,
            ir.op->Call_2@,
            ir.op->Call_1 as int,
        ) == rest by {
            let head = call_head(operand_of(ir.lhs));
            let tail = call_tail(ir.op->Call_0@, ir.op->Call_2@, ir.op->Call_1 as int);
            assert(line@ == head + tail);
            assert(q == head.len());
            assert((head + tail).subrange(q as int, line.len() as int) =~= tail);
        }
    }
    match read_call_tail(line, q) {
        Some((callee, n, args)) => {
            let ir = IR { op: IROp::Call(callee, n, args), lhs: Some(l), rhs: None };
            assert(ir_text(ir) =~= line@);
            Some(ir)
        },
        None => None,
    }
}

/// The number of the plain operations.
pub const PLAIN_OPS: usize = 60;

/// The place of a plain operation in their list.
pub open spec fn plain_index(op: IROp) -> int {
    match op {
        IROp::Add => 0,
        IROp::AddImm => 1,
        IROp::Sub => 2,
        IROp::SubImm => 3,
        IROp::Mul => 4,
        IROp::MulImm => 5,
        IROp::Div => 6,
        IROp::Imm => 7,
        IROp::Bprel => 8,
        IROp::Mov => 9,
        IROp::Return => 10,
        IROp::EQ => 11,
        IROp::NE => 12,
        IROp::LE => 13,
        IROp::LT => 14,
        IROp::AND => 15,
        IROp::OR => 16,
        IROp::XOR => 17,
        IROp::SHL => 18,
        IROp::SHR => 19,
        IROp::Mod => 20,
        IROp::Neg => 21,
        IROp::Jmp => 22,
        IROp::If => 23,
        IROp::Unless => 24,
        IROp::Kill => 25,
        IROp::Nop => 26,
        IROp::AVX512Add => 27,
        IROp::AVX512Sub => 28,
        IROp::AVX512Mul => 29,
        IROp::AVX512Div => 30,
        IROp::AVX512Load => 31,
        IROp::AVX512LoadStack => 32,
        IROp::AVX512Store => 33,
        IROp::AVX512StoreStack => 34,
        IROp::AVX512Mov => 35,
        IROp::AVX512Addi => 36,
        IROp::AVX512Subi => 37,
        IROp::AVX512Muli => 38,
        IROp::AVX512Loadi => 39,
        IROp::AVX512Storei => 40,
        IROp::AVX512Movi => 41,
        IROp::AVX512Zero => 42,
        IROp::AVX512Set1 => 43,
        IROp::AVX512Set1i => 44,
        IROp::AVX512Cmplt => 45,
        IROp::AVX512Cmple => 46,
        IROp::AVX512Cmpeq => 47,
        IROp::AVX512MaskMove => 48,
        IROp::AVX512MaskLoad => 49,
        IROp::AVX512MaskStore => 50,
        IROp::AVX512Cvtdq2pd => 51,
        IROp::AVX512Cvtpd2dq => 52,
        IROp::AVX512Extract => 53,
        IROp::AVX512Insert => 54,
        IROp::AVX512FMA => 55,
        IROp::AVX512Sqrt => 56,
        IROp::AVX512And => 57,
        IROp::AVX512Max => 58,
        IROp::AVX512Min => 59,
        _ => -1,
    }
}

/// The plain operation at the place `i` of their list.
pub fn plain_op(i: usize) -> (r: Option<IROp>)
    ensures
        i < PLAIN_OPS ==> r is Some && is_plain(r->0) && plain_index(r->0) == i,
        i >= PLAIN_OPS ==> r is None,
{
    match i {
        0 => Some(IROp::Add),
        1 => Some(IROp::AddImm),
        2 => Some(IROp::Sub),
        3 => Some(IROp::SubImm),
        4 => Some(IROp::Mul),
        5 => Some(IROp::MulImm),
        6 => Some(IROp::Div),
        7 => Some(IROp::Imm),
        8 => Some(IROp::Bprel),
        9 => Some(IROp::Mov),
        10 => Some(IROp::Return),
        11 => Some(IROp::EQ),
        12 => Some(IROp::NE),
        13 => Some(IROp::LE),
        14 => Some(IROp::LT),
        15 => Some(IROp::AND),
        16 => Some(IROp::OR),
        17 => Some(IROp::XOR),
        18 => Some(IROp::SHL),
        19 => Some(IROp::SHR),
        20 => Some(IROp::Mod),
        21 => Some(IROp::Neg),
        22 => Some(IROp::Jmp),
        23 => Some(IROp::If),
        24 => Some(IROp::Unless),
        25 => Some(IROp::Kill),
        26 => Some(IROp::Nop),
        27 => Some(IROp::AVX512Add),
        28 => Some(IROp::AVX512Sub),
        29 => Some(IROp::AVX512Mul),
        30 => Some(IROp::AVX512Div),
        31 => Some(IROp::AVX512Load),
        32 => Some(IROp::AVX512LoadStack),
        33 => Some(IROp::AVX512Store),
        34 => Some(IROp::AVX512StoreStack),
        35 => Some(IROp::AVX512Mov),
        36 => Some(IROp::AVX512Addi),
        37 => Some(IROp::AVX512Subi),
        38 => Some(IROp::AVX512Muli),
        39 => Some(IROp::AVX512Loadi),
        40 => Some(IROp::AVX512Storei),
        41 => Some(IROp::AVX512Movi),
        42 => Some(IROp::AVX512Zero),
        43 => Some(IROp::AVX512Set1),
        44 => Some(IROp::AVX512Set1i),
        45 => Some(IROp::AVX512Cmplt),
        46 => Some(IROp::AVX512Cmple),
        47 => Some(IROp::AVX512Cmpeq),
        48 => Some(IROp::AVX512MaskMove),
        49 => Some(IROp::AVX512MaskLoad),
        50 => Some(IROp::AVX512MaskStore),
        51 => Some(IROp::AVX512Cvtdq2pd),
        52 => Some(IROp::AVX512Cvtpd2dq),
        53 => Some(IROp::AVX512Extract),
        54 => Some(IROp::AVX512Insert),
        55 => Some(IROp::AVX512FMA),
        56 => Some(IROp::AVX512Sqrt),
        57 => Some(IROp::AVX512And),
        58 => Some(IROp::AVX512Max),
        59 => Some(IROp::AVX512Min),
        _ => None,
    }
}

/// Every plain operation has its place in the list.
pub proof fn lemma_plain_index(op: IROp)
    requires
        is_plain(op),
    ensures
        0 <= plain_index(op) < PLAIN_OPS,
{
}

/// The instruction whose printed form is `line`.
#[verifier::loop_isolation(false)]
pub fn read_ir(line: &[char]) -> (r: Option<IR>)
    ensures
        match r {
            Some(ir) => printable(ir) && is_normal(ir) && ir_text(ir) == line@,
            None => forall|ir: IR| printable(ir) ==> #[trigger] ir_text(ir) != line@,
        },
{
    match read_label_line(line) {
        Some(ir) => {
            return Some(ir);
        },
        None => {},
    }
    match read_call(line) {
        Some(ir) => {
            return Some(ir);
        },
        None => {},
    }
    match read_label_addr(line) {
        Some(ir) => {
            return Some(ir);
        },
        None => {},
    }
    match read_load(line) {
        Some(ir) => {
            return Some(ir);
        },
        None => {},
    }
    match read_store(line) {
        Some(ir) => {
            return Some(ir);
        },
        None => {},
    }
    match read_store_arg(line) {
        Some(ir) => {
            return Some(ir);
        },
        None => {},
    }
    let mut i: usize = 0;
    while i < PLAIN_OPS
        invariant
            i <= PLAIN_OPS,
            forall|ir: IR|
                printable(ir) && is_plain(ir.op) && plain_index(ir.op) < i ==> #[trigger] ir_text(
                    ir,
                ) != line@,
        decreases PLAIN_OPS - i,
    {
        let op = plain_op(i).unwrap();
        match read_plain(line, &op) {
            Some(ir) => {
                return Some(ir);
            },
            None => {},
        }
        proof {
            assert forall|ir: IR|
                printable(ir) && is_plain(ir.op) && plain_index(ir.op) < i + 1 implies #[trigger] ir_text(
                ir,
            ) != line@ by {
                if plain_index(ir.op) == i {
                    assert(ir.op == op);
                }
            }
        }
        i += 1;
    }
    proof {
        assert forall|ir: IR| printable(ir) implies #[trigger] ir_text(ir) != line@ by {
            if is_plain(ir.op) {
                lemma_plain_index(ir.op);
            }
        }
    }
    None
}

} // verus!
