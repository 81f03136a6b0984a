//! Why reading the printed form of the IR yields the IR that was printed:
//! no two instructions that differ in what their printed form shows have
//! the same printed form.

use vstd::prelude::*;
use crate::dumpread::{all_normal, dump_lines, header_text, join, lemma_dump_lines, readable};
use crate::gen_ir::{FunctionView, IROp, IRType, IR};
use crate::irdump::{
    call_args_text, dump_text, ir_text, label_text, mnemonic, op_type, operand_of, reg_text,
};
use crate::irparse::{
    call_head, call_tail, first_text, is_name, is_normal, is_plain, lemma_imm_text,
    lemma_label_text, lemma_plain_text, lemma_reg_injective, lemma_reg_text, lemma_sized_text,
    lemma_split_unique, operands_text, pair_text, printable, second_text, wrap,
};
use crate::names::{
    char_at, lemma_distinct_mnemonics, lemma_key, lemma_mnemonic_chars, same_mnemonic,
};
use crate::scan::{
    imm_operand, is_imm_operand, lacks, lemma_imm32_range, lemma_imm_operand,
    lemma_signed_decimal_chars,
};
use crate::text::{
    decimal, imm32, is_digit, lemma_decimal_digits, lemma_decimal_injective, signed_decimal,
};

verus! {

/// Two labels with the same printed form are the same label.
pub proof fn lemma_label_injective(x: usize, y: usize)
    requires
        label_text(x) == label_text(y),
    ensures
        x == y,
{
    lemma_label_text(x);
    lemma_label_text(y);
    lemma_decimal_injective(x as nat, y as nat);
}

/// Two integers with the same printed form are the same integer.
pub proof fn lemma_signed_injective(v: int, w: int)
    requires
        signed_decimal(v) == signed_decimal(w),
    ensures
        v == w,
{
    lemma_signed_decimal_chars(v);
    lemma_signed_decimal_chars(w);
    if v < 0 {
        assert(signed_decimal(v).skip(1) =~= decimal((-v) as nat));
        assert(signed_decimal(w).skip(1) =~= decimal((-w) as nat));
        lemma_decimal_injective((-v) as nat, (-w) as nat);
    } else {
        lemma_decimal_injective(v as nat, w as nat);
    }
}

/// Two operands that hold immediates with the same printed form are the
/// same operand.
pub proof fn lemma_imm_injective(x: usize, y: usize)
    requires
        is_imm_operand(x),
        is_imm_operand(y),
        signed_decimal(imm32(x as int)) == signed_decimal(imm32(y as int)),
    ensures
        x == y,
{
    lemma_signed_injective(imm32(x as int), imm32(y as int));
}

/// A text that begins with a word and has a space behind it begins with
/// no other word that has a space behind it or ends the text.
pub proof fn lemma_same_word(a: Seq<char>, x: Seq<char>, b: Seq<char>, y: Seq<char>)
    requires
        lacks(a, ' '),
        lacks(b, ' '),
        a + " "@ + x == b + " "@ + y || a + " "@ + x == b,
    ensures
        a + " "@ + x == b + " "@ + y,
        a == b,
        x == y,
{
    reveal_strlit(" ");
    let s = a + " "@ + x;
    assert(s[a.len() as int] == ' ');
    if s == b {
        assert(b[a.len() as int] == ' ');
    }
    let t = b + " "@ + y;
    assert(t[b.len() as int] == ' ');
    if a.len() < b.len() {
        assert(t[a.len() as int] == b[a.len() as int]);
    }
    if b.len() < a.len() {
        assert(s[b.len() as int] == a[b.len() as int]);
    }
    assert(a =~= s.subrange(0, a.len() as int));
    assert(b =~= t.subrange(0, b.len() as int));
    assert(x =~= s.subrange(a.len() as int + 1, s.len() as int));
    assert(y =~= t.subrange(b.len() as int + 1, t.len() as int));
}

/// Two pairs of operands with the same printed form have the same first
/// and the same second operand, where no first operand holds a comma.
pub proof fn lemma_same_pair(a: Seq<char>, x: Seq<char>, b: Seq<char>, y: Seq<char>)
    requires
        lacks(a, ','),
        lacks(b, ','),
        a + ", "@ + x == b + ", "@ + y,
    ensures
        a == b,
        x == y,
{
    reveal_strlit(", ");
    let s = a + ", "@ + x;
    let c = a.len() as int;
    assert(s[c] == ',');
    assert forall|i: int| 0 <= i < c implies s[i] != ',' by {
        assert(s[i] == a[i]);
    }
    lemma_split_unique(s, c, a, x);
    lemma_split_unique(s, c, b, y);
}

/// Two lists of arguments with the same printed form have the same length
/// and the same arguments.
pub proof fn lemma_args_injective(a: Seq<usize>, n: int, b: Seq<usize>, m: int)
    requires
        0 <= n,
        0 <= m,
        call_args_text(a, n) == call_args_text(b, m),
    ensures
        n == m,
        forall|j: int| 0 <= j < n ==> a[j] == b[j],
    decreases n,
{
    reveal_strlit(", ");
    if n >= 1 {
        lemma_reg_text(a[n - 1]);
    }
    if m >= 1 {
        lemma_reg_text(b[m - 1]);
    }
    if n == 0 || m == 0 {
        if n >= 2 {
            assert(call_args_text(a, n).len() > 0);
        }
        if m >= 2 {
            assert(call_args_text(b, m).len() > 0);
        }
    } else if n == 1 || m == 1 {
        if n >= 2 {
            let t = call_args_text(a, n);
            assert(t[call_args_text(a, n - 1).len() as int] == ',');
        }
        if m >= 2 {
            let t = call_args_text(b, m);
            assert(t[call_args_text(b, m - 1).len() as int] == ',');
        }
        assert(n == 1 && m == 1);
        lemma_reg_injective(a[0], b[0]);
    } else {
        let s = call_args_text(a, n);
        let pa = call_args_text(a, n - 1);
        let pb = call_args_text(b, m - 1);
        let ra = reg_text(a[n - 1]);
        let rb = reg_text(b[m - 1]);
        assert(s == pa + ", "@ + ra);
        assert(s == pb + ", "@ + rb);
        // The last comma of the text stands before its last argument.
        let ca = pa.len() as int;
        let cb = pb.len() as int;
        assert(s[ca] == ',');
        assert(s[cb] == ',');
        if ca < cb {
            assert(s[cb] == ra[cb - ca - 2] || cb == ca + 1);
            assert(s[ca + 1] == ' ');
        }
        if cb < ca {
            assert(s[ca] == rb[ca - cb - 2] || ca == cb + 1);
            assert(s[cb + 1] == ' ');
        }
        assert(ca == cb);
        assert(pa =~= s.subrange(0, ca));
        assert(pb =~= s.subrange(0, cb));
        assert(ra =~= s.subrange(ca + 2, s.len() as int));
        assert(rb =~= s.subrange(cb + 2, s.len() as int));
        lemma_reg_injective(a[n - 1], b[m - 1]);
        lemma_args_injective(a, n - 1, b, m - 1);
    }
}

/// Whether `a` and `b` are the same operation, with names that read the
/// same.
pub open spec fn same_op(a: IROp, b: IROp) -> bool {
    match a {
        IROp::Call(callee, nargs, args) => b is Call && b->Call_0@ == callee@ && b->Call_1
            == nargs && b->Call_2 == args,
        IROp::LabelAddr(name) => b is LabelAddr && b->LabelAddr_0@ == name@,
        _ => a == b,
    }
}

/// Whether `a` and `b` are the same instruction, with names that read the
/// same.
pub open spec fn same_ir(a: IR, b: IR) -> bool {
    same_op(a.op, b.op) && a.lhs == b.lhs && a.rhs == b.rhs
}

/// Whether `op` is printed with a width behind its mnemonic.
pub open spec fn is_sized(op: IROp) -> bool {
    op is Load || op is Store || op is StoreArg
}

/// The width of an operation that has one.
pub open spec fn size_of(op: IROp) -> u8 {
    match op {
        IROp::Load(size) => size,
        IROp::Store(size) => size,
        IROp::StoreArg(size) => size,
        _ => 0u8,
    }
}

/// The word that the printed form of `ir` begins with behind its
/// indentation: the mnemonic, with the width behind it if there is one.
pub open spec fn word_of(ir: IR) -> Seq<char> {
    if is_sized(ir.op) {
        mnemonic(ir.op)@ + decimal(size_of(ir.op) as nat)
    } else {
        mnemonic(ir.op)@
    }
}

/// The operands in the printed form of `ir`.
pub open spec fn rest_of(ir: IR) -> Seq<char> {
    let l = operand_of(ir.lhs);
    let r = operand_of(ir.rhs);
    match ir.op {
        IROp::LabelAddr(name) => reg_text(l) + ", "@ + name@,
        IROp::Load(_) | IROp::Store(_) => pair_text(false, l, r),
        IROp::StoreArg(_) => pair_text(true, l, r),
        _ => operands_text(op_type(ir.op), l, r),
    }
}

/// Whether the printed form of `ir` has operands.
pub open spec fn has_rest(ir: IR) -> bool {
    op_type(ir.op) != IRType::Noarg
}

/// The printed form of an instruction that is neither a label nor a call
/// is made of two spaces, its word, and its operands behind a space.
proof fn lemma_shape(ir: IR)
    requires
        printable(ir),
        !(ir.op is Label),
        !(ir.op is Call),
    ensures
        lacks(word_of(ir), ' '),
        word_of(ir).len() >= 2,
        word_of(ir)[0] != 'r',
        word_of(ir)[0] == mnemonic(ir.op)@[0],
        has_rest(ir) ==> ir_text(ir) == "  "@ + (word_of(ir) + " "@ + rest_of(ir)),
        !has_rest(ir) ==> ir_text(ir) == "  "@ + word_of(ir),
{
    lemma_mnemonic_chars();
    let name = mnemonic(ir.op)@;
    assert(lacks(name, ' ')) by {
        assert forall|i: int| 0 <= i < name.len() implies #[trigger] name[i] != ' ' by {
            assert(mnemonic(ir.op)@[i] != ' ');
        }
    }
    assert(name.len() >= 2);
    assert(name[0] != 'r');
    if is_sized(ir.op) {
        lemma_sized_text(ir);
        let width = decimal(size_of(ir.op) as nat);
        lemma_decimal_digits(size_of(ir.op) as nat);
        assert forall|i: int| 0 <= i < word_of(ir).len() implies #[trigger] word_of(ir)[i]
            != ' ' by {
            if i >= name.len() {
                assert(word_of(ir)[i] == width[i - name.len()]);
                assert(is_digit(width[i - name.len()]));
            } else {
                assert(word_of(ir)[i] == name[i]);
            }
        }
        assert(ir_text(ir) =~= "  "@ + (word_of(ir) + " "@ + rest_of(ir)));
    } else if ir.op is LabelAddr {
        assert(ir_text(ir) =~= "  "@ + (word_of(ir) + " "@ + rest_of(ir)));
    } else {
        lemma_plain_text(ir);
        if has_rest(ir) {
            assert(ir_text(ir) =~= "  "@ + (word_of(ir) + " "@ + rest_of(ir)));
        }
    }
}

/// How the printed form of an instruction begins: that of a label with a
/// period, any other with two spaces; that of a call goes on with the
/// register of its result.
proof fn lemma_start(ir: IR)
    requires
        printable(ir),
    ensures
        ir_text(ir).len() >= 3,
        ir.op is Label ==> ir_text(ir)[0] == '.',
        !(ir.op is Label) ==> ir_text(ir)[0] == ' ' && ir_text(ir)[1] == ' ',
        ir.op is Call ==> ir_text(ir)[2] == 'r',
        !(ir.op is Label) && !(ir.op is Call) ==> ir_text(ir)[2] != 'r',
{
    reveal_strlit("  ");
    reveal_strlit(":");
    let l = operand_of(ir.lhs);
    lemma_label_text(l);
    lemma_reg_text(l);
    if ir.op is Label {
        assert(ir_text(ir) == label_text(l) + ":"@);
    } else if ir.op is Call {
        let t = ir_text(ir);
        assert(t == call_head(l) + call_tail(ir.op->Call_0@, ir.op->Call_2@, ir.op->Call_1 as int));
        assert(call_head(l) == "  "@ + reg_text(l) + " = "@);
        assert(t[2] == reg_text(l)[0]);
    } else {
        lemma_shape(ir);
        let t = ir_text(ir);
        assert(t[2] == word_of(ir)[0]);
    }
}

/// Two texts with the same two characters before them are the same text.
proof fn lemma_strip(a: Seq<char>, b: Seq<char>)
    requires
        "  "@ + a == "  "@ + b,
    ensures
        a == b,
{
    let p = "  "@;
    assert(a =~= (p + a).subrange(p.len() as int, (p + a).len() as int));
    assert(b =~= (p + b).subrange(p.len() as int, (p + b).len() as int));
}

/// Two instructions, neither a label nor a call, that have the same
/// printed form begin with the same word and have the same operands.
proof fn lemma_same_shape(a: IR, b: IR)
    requires
        printable(a),
        printable(b),
        !(a.op is Label) && !(a.op is Call),
        !(b.op is Label) && !(b.op is Call),
        ir_text(a) == ir_text(b),
    ensures
        word_of(a) == word_of(b),
        has_rest(a) == has_rest(b),
        has_rest(a) ==> rest_of(a) == rest_of(b),
{
    lemma_shape(a);
    lemma_shape(b);
    let wa = word_of(a);
    let wb = word_of(b);
    if has_rest(a) && has_rest(b) {
        lemma_strip(wa + " "@ + rest_of(a), wb + " "@ + rest_of(b));
        lemma_same_word(wa, rest_of(a), wb, rest_of(b));
    } else if has_rest(a) {
        lemma_strip(wa + " "@ + rest_of(a), wb);
        lemma_same_word(wa, rest_of(a), wb, Seq::empty());
        reveal_strlit(" ");
        assert((wb + " "@ + Seq::<char>::empty()).len() == wb.len() + 1);
    } else if has_rest(b) {
        lemma_strip(wb + " "@ + rest_of(b), wa);
        lemma_same_word(wb, rest_of(b), wa, Seq::empty());
        reveal_strlit(" ");
        assert((wa + " "@ + Seq::<char>::empty()).len() == wa.len() + 1);
    } else {
        lemma_strip(wa, wb);
    }
}

/// Two instructions that begin with the same word are both plain, with
/// operations that share their mnemonic, or have the same operation and
/// width.
proof fn lemma_same_word_class(a: IR, b: IR)
    requires
        printable(a),
        printable(b),
        !(a.op is Label) && !(a.op is Call),
        !(b.op is Label) && !(b.op is Call),
        word_of(a) == word_of(b),
    ensures
        is_sized(a.op) ==> a.op == b.op,
        is_sized(b.op) ==> a.op == b.op,
        same_mnemonic(a.op, b.op),
{
    reveal_strlit("LOAD");
    reveal_strlit("STORE");
    reveal_strlit("STORE_ARG");
    lemma_key(a.op);
    lemma_key(b.op);
    let na = mnemonic(a.op)@;
    let nb = mnemonic(b.op)@;
    let da = decimal(size_of(a.op) as nat);
    let db = decimal(size_of(b.op) as nat);
    lemma_decimal_digits(size_of(a.op) as nat);
    lemma_decimal_digits(size_of(b.op) as nat);
    let w = word_of(a);
    if !is_sized(a.op) && !is_sized(b.op) {
        lemma_distinct_mnemonics(a.op, b.op);
    } else if is_sized(a.op) && is_sized(b.op) {
        assert(w[0] == na[0] && w[0] == nb[0]);
        if na.len() != nb.len() {
            // One of the two is STORE, the other STORE_ARG.
            assert(w[5] == '_' || is_digit(w[5]));
            if a.op is Store {
                assert(w[5] == da[0]);
                assert(w[5] == nb[5]);
            } else {
                assert(w[5] == db[0]);
                assert(w[5] == na[5]);
            }
        }
        assert(da =~= w.subrange(na.len() as int, w.len() as int));
        assert(db =~= w.subrange(nb.len() as int, w.len() as int));
        lemma_decimal_injective(size_of(a.op) as nat, size_of(b.op) as nat);
    } else if is_sized(a.op) {
        assert(char_at(nb, 0) == w[0] && w[0] == na[0]);
        assert(char_at(nb, 1) == w[1] && w[1] == na[1]);
        assert(char_at(nb, 2) == w[2] && w[2] == na[2]);
    } else {
        assert(char_at(na, 0) == w[0] && w[0] == nb[0]);
        assert(char_at(na, 1) == w[1] && w[1] == nb[1]);
        assert(char_at(na, 2) == w[2] && w[2] == nb[2]);
    }
}

/// Two names with the same list in parentheses behind them, printed the
/// same, are the same name with the same list.
proof fn lemma_same_wrap(a: Seq<char>, x: Seq<char>, b: Seq<char>, y: Seq<char>)
    requires
        lacks(a, '('),
        lacks(b, '('),
        wrap(a, x) == wrap(b, y),
    ensures
        a == b,
        x == y,
{
    reveal_strlit("(");
    reveal_strlit(")");
    let s = wrap(a, x);
    let t = wrap(b, y);
    assert(s[a.len() as int] == '(');
    assert(t[b.len() as int] == '(');
    if a.len() < b.len() {
        assert(t[a.len() as int] == b[a.len() as int]);
    }
    if b.len() < a.len() {
        assert(s[b.len() as int] == a[b.len() as int]);
    }
    assert(a =~= s.subrange(0, a.len() as int));
    assert(b =~= t.subrange(0, b.len() as int));
    assert(x =~= s.subrange(a.len() as int + 1, s.len() - 1));
    assert(y =~= t.subrange(b.len() as int + 1, t.len() - 1));
}

proof fn lemma_same_label(a: IR, b: IR)
    requires
        printable(a),
        printable(b),
        is_normal(a),
        is_normal(b),
        a.op is Label,
        b.op is Label,
        ir_text(a) == ir_text(b),
    ensures
        same_ir(a, b),
{
    reveal_strlit(":");
    let la = label_text(operand_of(a.lhs));
    let lb = label_text(operand_of(b.lhs));
    let t = ir_text(a);
    assert(t == la + ":"@);
    assert(t == lb + ":"@);
    assert(la =~= t.subrange(0, t.len() - 1));
    assert(lb =~= t.subrange(0, t.len() - 1));
    lemma_label_injective(operand_of(a.lhs), operand_of(b.lhs));
}

/// The printed form of a call: the register of the result, the sign of
/// equality, and the call.
proof fn lemma_call_form(a: IR)
    requires
        printable(a),
        is_normal(a),
        a.op is Call,
    ensures
        ir_text(a) == "  "@ + (reg_text(operand_of(a.lhs)) + " "@ + ("= "@ + call_tail(
            a.op->Call_0@,
            a.op->Call_2@,
            a.op->Call_1 as int,
        ))),
{
    reveal_strlit(" = ");
    reveal_strlit(" ");
    reveal_strlit("= ");
    let la = operand_of(a.lhs);
    let ta = call_tail(a.op->Call_0@, a.op->Call_2@, a.op->Call_1 as int);
    assert(" = "@ =~= " "@ + "= "@);
    assert(ir_text(a) =~= "  "@ + (reg_text(la) + " "@ + ("= "@ + ta)));
}

proof fn lemma_same_call(a: IR, b: IR)
    requires
        printable(a),
        printable(b),
        is_normal(a),
        is_normal(b),
        a.op is Call,
        b.op is Call,
        ir_text(a) == ir_text(b),
    ensures
        same_ir(a, b),
{
    let la = operand_of(a.lhs);
    let lb = operand_of(b.lhs);
    let ta = call_tail(a.op->Call_0@, a.op->Call_2@, a.op->Call_1 as int);
    let tb = call_tail(b.op->Call_0@, b.op->Call_2@, b.op->Call_1 as int);
    lemma_reg_text(la);
    lemma_reg_text(lb);
    lemma_call_form(a);
    lemma_call_form(b);
    reveal_strlit("= ");
    lemma_strip(reg_text(la) + " "@ + ("= "@ + ta), reg_text(lb) + " "@ + ("= "@ + tb));
    lemma_same_word(reg_text(la), "= "@ + ta, reg_text(lb), "= "@ + tb);
    lemma_reg_injective(la, lb);
    assert(ta =~= ("= "@ + ta).subrange(2, ("= "@ + ta).len() as int));
    assert(tb =~= ("= "@ + tb).subrange(2, ("= "@ + tb).len() as int));
    lemma_same_wrap(
        a.op->Call_0@,
        call_args_text(a.op->Call_2@, a.op->Call_1 as int),
        b.op->Call_0@,
        call_args_text(b.op->Call_2@, b.op->Call_1 as int),
    );
    lemma_args_injective(a.op->Call_2@, a.op->Call_1 as int, b.op->Call_2@, b.op->Call_1 as int);
    assert(a.op->Call_2@ =~= b.op->Call_2@);
    assert(a.op->Call_2 =~= b.op->Call_2);
}

proof fn lemma_same_sized(a: IR, b: IR)
    requires
        printable(a),
        printable(b),
        is_normal(a),
        is_normal(b),
        is_sized(a.op),
        a.op == b.op,
        rest_of(a) == rest_of(b),
    ensures
        same_ir(a, b),
{
    let offset = a.op is StoreArg;
    let la = operand_of(a.lhs);
    let lb = operand_of(b.lhs);
    let ra = operand_of(a.rhs);
    let rb = operand_of(b.rhs);
    lemma_reg_text(la);
    lemma_reg_text(lb);
    lemma_imm_text(imm32(la as int));
    lemma_imm_text(imm32(lb as int));
    lemma_same_pair(first_text(offset, la), reg_text(ra), first_text(offset, lb), reg_text(rb));
    lemma_reg_injective(ra, rb);
    if offset {
        lemma_imm_injective(la, lb);
    } else {
        lemma_reg_injective(la, lb);
    }
}

proof fn lemma_same_label_addr(a: IR, b: IR)
    requires
        printable(a),
        printable(b),
        is_normal(a),
        is_normal(b),
        a.op is LabelAddr,
        b.op is LabelAddr,
        rest_of(a) == rest_of(b),
    ensures
        same_ir(a, b),
{
    let la = operand_of(a.lhs);
    let lb = operand_of(b.lhs);
    lemma_reg_text(la);
    lemma_reg_text(lb);
    lemma_same_pair(reg_text(la), a.op->LabelAddr_0@, reg_text(lb), b.op->LabelAddr_0@);
    lemma_reg_injective(la, lb);
}

/// Two plain instructions with operations that share their mnemonic and
/// with the same printed operands are the same instruction.
proof fn lemma_same_plain(a: IR, b: IR)
    requires
        printable(a),
        printable(b),
        is_normal(a),
        is_normal(b),
        is_plain(a.op),
        is_plain(b.op),
        same_mnemonic(a.op, b.op),
        has_rest(a) == has_rest(b),
        has_rest(a) ==> rest_of(a) == rest_of(b),
    ensures
        same_ir(a, b),
{
    let la = operand_of(a.lhs);
    let lb = operand_of(b.lhs);
    let ra = operand_of(a.rhs);
    let rb = operand_of(b.rhs);
    let ta = op_type(a.op);
    let tb = op_type(b.op);
    lemma_reg_text(la);
    lemma_reg_text(lb);
    lemma_reg_text(ra);
    lemma_reg_text(rb);
    lemma_label_text(la);
    lemma_label_text(lb);
    lemma_label_text(ra);
    lemma_label_text(rb);
    lemma_imm_text(imm32(ra as int));
    lemma_imm_text(imm32(rb as int));
    lemma_plain_text(a);
    lemma_plain_text(b);
    if ta == IRType::Noarg {
    } else if ta == IRType::Reg {
        lemma_reg_injective(la, lb);
    } else if ta == IRType::Jmp {
        lemma_label_injective(la, lb);
    } else {
        lemma_same_pair(reg_text(la), second_text(ta, ra), reg_text(lb), second_text(tb, rb));
        lemma_reg_injective(la, lb);
        if ta == IRType::RegImm && tb == IRType::RegImm {
            lemma_imm_injective(ra, rb);
        } else if ta == IRType::RegLabel {
            lemma_label_injective(ra, rb);
        } else if ta != IRType::RegImm && tb != IRType::RegImm {
            lemma_reg_injective(ra, rb);
        } else {
            assert(second_text(ta, ra)[0] == second_text(tb, rb)[0]);
        }
    }
}

/// No two instructions that differ in what their printed form shows have
/// the same printed form.
pub proof fn lemma_printed_form_injective(a: IR, b: IR)
    requires
        printable(a),
        printable(b),
        is_normal(a),
        is_normal(b),
        ir_text(a) == ir_text(b),
    ensures
        same_ir(a, b),
{
    lemma_start(a);
    lemma_start(b);
    if a.op is Label {
        lemma_same_label(a, b);
    } else if a.op is Call {
        lemma_same_call(a, b);
    } else {
        lemma_same_shape(a, b);
        lemma_same_word_class(a, b);
        if is_sized(a.op) || is_sized(b.op) {
            lemma_same_sized(a, b);
        } else if a.op is LabelAddr || b.op is LabelAddr {
            lemma_same_label_addr(a, b);
        } else {
            lemma_same_plain(a, b);
        }
    }
}

/// Argument `j` of a call with `n` arguments as its printed form shows
/// it: the argument itself, 0 behind the last argument.
pub open spec fn shown_arg(args: Seq<usize>, n: int, j: int) -> usize {
    if j < n {
        args[j]
    } else {
        0
    }
}

/// The operand that the printed form shows for an immediate.
pub open spec fn shown_imm(x: usize) -> usize {
    imm_operand(imm32(x as int)) as usize
}

/// The instruction `ir` with nothing but what its printed form shows.
pub open spec fn normalize(ir: IR) -> IR {
    match ir.op {
        IROp::Call(name, nargs, args) => {
            let n = nargs as int;
            IR {
                op: IROp::Call(
                    name,
                    nargs,
                    [
                        shown_arg(args@, n, 0),
                        shown_arg(args@, n, 1),
                        shown_arg(args@, n, 2),
                        shown_arg(args@, n, 3),
                        shown_arg(args@, n, 4),
                        shown_arg(args@, n, 5),
                    ],
                ),
                lhs: ir.lhs,
                rhs: None,
            }
        },
        IROp::LabelAddr(_) => IR { op: ir.op, lhs: ir.lhs, rhs: None },
        IROp::StoreArg(_) => IR {
            op: ir.op,
            lhs: Some(shown_imm(operand_of(ir.lhs))),
            rhs: ir.rhs,
        },
        IROp::Load(_) | IROp::Store(_) => ir,
        _ => match op_type(ir.op) {
            IRType::Noarg => IR { op: ir.op, lhs: None, rhs: None },
            IRType::Label | IRType::Reg | IRType::Jmp => IR { op: ir.op, lhs: ir.lhs, rhs: None },
            IRType::RegImm => IR {
                op: ir.op,
                lhs: ir.lhs,
                rhs: Some(shown_imm(operand_of(ir.rhs))),
            },
            _ => ir,
        },
    }
}

proof fn lemma_args_shown(a: Seq<usize>, b: Seq<usize>, n: int)
    requires
        forall|j: int| 0 <= j < n ==> a[j] == b[j],
    ensures
        call_args_text(a, n) == call_args_text(b, n),
    decreases n,
{
    if n > 1 {
        lemma_args_shown(a, b, n - 1);
    }
}

/// The instruction with nothing but what its printed form shows has the
/// same printed form.
pub proof fn lemma_normalize(ir: IR)
    requires
        printable(ir),
    ensures
        printable(normalize(ir)),
        is_normal(normalize(ir)),
        ir_text(normalize(ir)) == ir_text(ir),
{
    let l = operand_of(ir.lhs);
    let r = operand_of(ir.rhs);
    lemma_imm32_range(l as int);
    lemma_imm32_range(r as int);
    lemma_imm_operand(imm32(l as int));
    lemma_imm_operand(imm32(r as int));
    match ir.op {
        IROp::Call(name, nargs, args) => {
            let shown = normalize(ir).op->Call_2@;
            lemma_args_shown(args@, shown, nargs as int);
        },
        _ => {},
    }
}

/// Two sequences of lines without line feeds that make up the same text
/// are the same sequence.
proof fn lemma_join_injective(a: Seq<Seq<char>>, b: Seq<Seq<char>>)
    requires
        forall|m: int| 0 <= m < a.len() ==> lacks(#[trigger] a[m], '\n'),
        forall|m: int| 0 <= m < b.len() ==> lacks(#[trigger] b[m], '\n'),
        join(a) == join(b),
    ensures
        a == b,
    decreases a.len(),
{
    reveal_strlit("\n");
    if a.len() == 0 || b.len() == 0 {
        if a.len() > 0 {
            assert(join(a).len() > 0);
        }
        if b.len() > 0 {
            assert(join(b).len() > 0);
        }
        assert(a =~= b);
    } else {
        let t = join(a);
        let fa = a.drop_last();
        let fb = b.drop_last();
        let pa = join(fa).len() as int;
        let pb = join(fb).len() as int;
        assert(t =~= join(fa) + a.last() + "\n"@);
        assert(t =~= join(fb) + b.last() + "\n"@);
        assert forall|i: int| pa <= i < t.len() - 1 implies t[i] != '\n' by {
            assert(t[i] == a.last()[i - pa]);
        }
        assert forall|i: int| pb <= i < t.len() - 1 implies t[i] != '\n' by {
            assert(t[i] == b.last()[i - pb]);
        }
        if pa < pb {
            assert(join(fb) =~= join(fb.drop_last()) + fb.last() + "\n"@);
            assert(t[pb - 1] == join(fb)[pb - 1]);
        }
        if pb < pa {
            assert(join(fa) =~= join(fa.drop_last()) + fa.last() + "\n"@);
            assert(t[pa - 1] == join(fa)[pa - 1]);
        }
        assert(pa == pb);
        assert(a.last() =~= t.subrange(pa, t.len() - 1));
        assert(b.last() =~= t.subrange(pb, t.len() - 1));
        assert(join(fa) =~= t.subrange(0, pa));
        assert(join(fb) =~= t.subrange(0, pb));
        assert forall|m: int| 0 <= m < fa.len() implies lacks(#[trigger] fa[m], '\n') by {
            assert(fa[m] == a[m]);
        }
        assert forall|m: int| 0 <= m < fb.len() implies lacks(#[trigger] fb[m], '\n') by {
            assert(fb[m] == b[m]);
        }
        lemma_join_injective(fa, fb);
        assert(a =~= fa.push(a.last()));
        assert(b =~= fb.push(b.last()));
    }
}

/// No line opens a function and is an instruction too.
proof fn lemma_header_or_instruction(name: Seq<char>, ir: IR)
    requires
        is_name(name),
        printable(ir),
    ensures
        header_text(name) != ir_text(ir),
{
    reveal_strlit("(): ");
    reveal_strlit(":");
    let h = header_text(name);
    let t = ir_text(ir);
    lemma_start(ir);
    assert(h[0] == name[0]);
    assert(h[h.len() - 1] == ' ');
    if ir.op is Label {
        assert(t == label_text(operand_of(ir.lhs)) + ":"@);
        assert(t[t.len() - 1] == ':');
    }
}

/// Two functions with the same header have the same name.
proof fn lemma_header_injective(a: Seq<char>, b: Seq<char>)
    requires
        header_text(a) == header_text(b),
    ensures
        a == b,
{
    let t = header_text(a);
    assert(a =~= t.subrange(0, t.len() - "(): "@.len()));
    assert(b =~= t.subrange(0, t.len() - "(): "@.len()));
}

/// Whether `back` is `fns` as far as the printed form shows it: the same
/// functions by their names, with the same instructions but for what
/// their printed form does not show.
pub open spec fn same_functions(fns: Seq<FunctionView>, back: Seq<FunctionView>) -> bool {
    &&& back.len() == fns.len()
    &&& forall|k: int|
        0 <= k < fns.len() ==> {
            &&& (#[trigger] back[k]).name == fns[k].name
            &&& back[k].ir.len() == fns[k].ir.len()
            &&& forall|i: int|
                0 <= i < fns[k].ir.len() ==> same_ir(
                    #[trigger] back[k].ir[i],
                    normalize(fns[k].ir[i]),
                )
        }
}

proof fn lemma_same_lines(fns: Seq<FunctionView>, back: Seq<FunctionView>)
    requires
        readable(fns),
        readable(back),
        all_normal(back),
        dump_lines(back) == dump_lines(fns),
    ensures
        same_functions(fns, back),
    decreases fns.len(),
{
    if fns.len() == 0 || back.len() == 0 {
        if fns.len() > 0 {
            assert(dump_lines(fns).len() > 0);
        }
        if back.len() > 0 {
            assert(dump_lines(back).len() > 0);
        }
    } else {
        let lines = dump_lines(fns);
        let f = fns.last();
        let g = back.last();
        let ff = fns.drop_last();
        let gg = back.drop_last();
        let hf = dump_lines(ff).len() as int;
        let hg = dump_lines(gg).len() as int;
        assert(is_name(fns[fns.len() - 1].name));
        assert(is_name(back[back.len() - 1].name));
        assert(lines[hf] == header_text(f.name));
        assert(lines[hg] == header_text(g.name));
        assert(lines.len() == hf + 1 + f.ir.len());
        assert(lines.len() == hg + 1 + g.ir.len());
        if hf < hg {
            let i = hg - hf - 1;
            assert(lines[hg] == ir_text(f.ir[i]));
            assert(printable(fns[fns.len() - 1].ir[i]));
            lemma_header_or_instruction(g.name, f.ir[i]);
        }
        if hg < hf {
            let i = hf - hg - 1;
            assert(lines[hf] == ir_text(g.ir[i]));
            assert(printable(back[back.len() - 1].ir[i]));
            lemma_header_or_instruction(f.name, g.ir[i]);
        }
        assert(hf == hg);
        lemma_header_injective(f.name, g.name);
        assert(dump_lines(ff) =~= lines.subrange(0, hf));
        assert(dump_lines(gg) =~= lines.subrange(0, hg));
        assert forall|k: int| 0 <= k < ff.len() implies is_name(#[trigger] ff[k].name)
            && forall|i: int| 0 <= i < ff[k].ir.len() ==> printable(#[trigger] ff[k].ir[i]) by {
            assert(ff[k] == fns[k]);
            assert(is_name(fns[k].name));
            assert forall|i: int| 0 <= i < ff[k].ir.len() implies printable(
                #[trigger] ff[k].ir[i],
            ) by {
                assert(printable(fns[k].ir[i]));
            }
        }
        assert forall|k: int| 0 <= k < gg.len() implies is_name(#[trigger] gg[k].name)
            && forall|i: int| 0 <= i < gg[k].ir.len() ==> printable(#[trigger] gg[k].ir[i]) by {
            assert(gg[k] == back[k]);
            assert(is_name(back[k].name));
            assert forall|i: int| 0 <= i < gg[k].ir.len() implies printable(
                #[trigger] gg[k].ir[i],
            ) by {
                assert(printable(back[k].ir[i]));
            }
        }
        assert forall|k: int| 0 <= k < gg.len() implies (#[trigger] gg[k]).stacksize == 0
            && forall|i: int| 0 <= i < gg[k].ir.len() ==> is_normal(#[trigger] gg[k].ir[i]) by {
            assert(gg[k] == back[k]);
            assert(back[k].stacksize == 0);
            assert forall|i: int| 0 <= i < gg[k].ir.len() implies is_normal(
                #[trigger] gg[k].ir[i],
            ) by {
                assert(is_normal(back[k].ir[i]));
            }
        }
        lemma_same_lines(ff, gg);
        assert forall|k: int| 0 <= k < fns.len() implies (#[trigger] back[k]).name == fns[k].name
            && back[k].ir.len() == fns[k].ir.len() && forall|i: int|
            0 <= i < fns[k].ir.len() ==> same_ir(
                #[trigger] back[k].ir[i],
                normalize(fns[k].ir[i]),
            ) by {
            if k < ff.len() {
                assert(back[k] == gg[k]);
                assert(fns[k] == ff[k]);
            } else {
                assert forall|i: int| 0 <= i < f.ir.len() implies same_ir(
                    #[trigger] g.ir[i],
                    normalize(f.ir[i]),
                ) by {
                    assert(lines[hf + 1 + i] == ir_text(f.ir[i]));
                    assert(lines[hg + 1 + i] == ir_text(g.ir[i]));
                    assert(printable(fns[fns.len() - 1].ir[i]));
                    assert(printable(back[back.len() - 1].ir[i]));
                    assert(is_normal(back[back.len() - 1].ir[i]));
                    lemma_normalize(f.ir[i]);
                    lemma_printed_form_injective(g.ir[i], normalize(f.ir[i]));
                }
            }
        }
    }
}

/// Reading the printed form of functions yields the functions that were
/// printed: whatever functions are read from the printed form of `fns`
/// are the functions `fns` by their names, with the same instructions but
/// for what the printed form does not show.
pub proof fn lemma_round_trip(fns: Seq<FunctionView>, back: Seq<FunctionView>)
    requires
        readable(fns),
        readable(back),
        all_normal(back),
        dump_text(back) == dump_text(fns),
    ensures
        same_functions(fns, back),
{
    lemma_dump_lines(fns);
    lemma_dump_lines(back);
    lemma_join_injective(dump_lines(back), dump_lines(fns));
    lemma_same_lines(fns, back);
}

} // verus!
