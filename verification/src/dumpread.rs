//! Reading the printed form of whole functions.

use vstd::prelude::*;
use vstd::slice::slice_subrange;
use crate::gen_ir::{views, Function, FunctionView, IROp, IR};
use crate::irdump::{
    body_text, call_args_text, dump_text, function_text, ir_text, label_text, mnemonic, op_type,
    operand_of, reg_text,
};
use crate::irparse::{
    is_name, is_normal, lemma_imm_text, lemma_label_text, lemma_plain_text, lemma_reg_text,
    lemma_sized_text, operands_text, pair_text, printable, read_ir, read_name,
};
use crate::names::lemma_mnemonic_chars;
use crate::scan::{find_char, has_word, lacks};
use crate::text::{decimal, imm32, lemma_decimal_digits, signed_decimal};

verus! {

/// The line that opens the printed form of the function `name`.
pub open spec fn header_text(name: Seq<char>) -> Seq<char> {
    name + "(): "@
}

/// Whether every function of `fns` has a name that can be read back, and
/// instructions that can.
pub open spec fn readable(fns: Seq<FunctionView>) -> bool {
    forall|k: int|
        0 <= k < fns.len() ==> is_name(#[trigger] fns[k].name) && forall|i: int|
            0 <= i < fns[k].ir.len() ==> printable(#[trigger] fns[k].ir[i])
}

/// Whether every instruction of `fns` holds nothing but what its printed
/// form shows, and every frame has the size 0.
pub open spec fn all_normal(fns: Seq<FunctionView>) -> bool {
    forall|k: int|
        0 <= k < fns.len() ==> (#[trigger] fns[k]).stacksize == 0 && forall|i: int|
            0 <= i < fns[k].ir.len() ==> is_normal(#[trigger] fns[k].ir[i])
}

proof fn lemma_lacks_concat(a: Seq<char>, b: Seq<char>, c: char)
    requires
        lacks(a, c),
        lacks(b, c),
    ensures
        lacks(a + b, c),
{
    assert forall|i: int| 0 <= i < (a + b).len() implies #[trigger] (a + b)[i] != c by {
        if i < a.len() {
            assert((a + b)[i] == a[i]);
        } else {
            assert((a + b)[i] == b[i - a.len()]);
        }
    }
}

proof fn lemma_args_one_line(a: Seq<usize>, n: int)
    ensures
        lacks(call_args_text(a, n), '\n'),
    decreases n,
{
    reveal_strlit(", ");
    if n == 1 {
        lemma_reg_text(a[0]);
    } else if n > 1 {
        lemma_args_one_line(a, n - 1);
        lemma_reg_text(a[n - 1]);
        lemma_lacks_concat(call_args_text(a, n - 1), ", "@, '\n');
        lemma_lacks_concat(call_args_text(a, n - 1) + ", "@, reg_text(a[n - 1]), '\n');
    }
}

proof fn lemma_operands_one_line(ir: IR)
    ensures
        lacks(operands_text(op_type(ir.op), operand_of(ir.lhs), operand_of(ir.rhs)), '\n'),
        lacks(pair_text(ir.op is StoreArg, operand_of(ir.lhs), operand_of(ir.rhs)), '\n'),
{
    reveal_strlit(", ");
    let l = operand_of(ir.lhs);
    let r = operand_of(ir.rhs);
    lemma_reg_text(l);
    lemma_reg_text(r);
    lemma_label_text(l);
    lemma_label_text(r);
    lemma_imm_text(imm32(l as int));
    lemma_imm_text(imm32(r as int));
    lemma_lacks_concat(reg_text(l), ", "@, '\n');
    lemma_lacks_concat(signed_decimal(imm32(l as int)), ", "@, '\n');
    lemma_lacks_concat(reg_text(l) + ", "@, reg_text(r), '\n');
    lemma_lacks_concat(reg_text(l) + ", "@, label_text(r), '\n');
    lemma_lacks_concat(reg_text(l) + ", "@, signed_decimal(imm32(r as int)), '\n');
    lemma_lacks_concat(signed_decimal(imm32(l as int)) + ", "@, reg_text(r), '\n');
}

/// The printed form of an instruction holds no line feed.
pub proof fn lemma_one_line(ir: IR)
    requires
        printable(ir),
    ensures
        lacks(ir_text(ir), '\n'),
{
    reveal_strlit("  ");
    reveal_strlit(" ");
    reveal_strlit(", ");
    lemma_mnemonic_chars();
    lemma_operands_one_line(ir);
    let name = mnemonic(ir.op)@;
    let l = operand_of(ir.lhs);
    let r = operand_of(ir.rhs);
    assert(lacks(name, '\n')) by {
        assert forall|i: int| 0 <= i < name.len() implies #[trigger] name[i] != '\n' by {
            assert(mnemonic(ir.op)@[i] != '\n');
        }
    }
    lemma_lacks_concat("  "@, name, '\n');
    let head = "  "@ + name;
    match ir.op {
        IROp::Call(callee, nargs, args) => {
            reveal_strlit(" = ");
            reveal_strlit("(");
            reveal_strlit(")");
            lemma_reg_text(l);
            lemma_args_one_line(args@, nargs as int);
            let list = call_args_text(args@, nargs as int);
            lemma_lacks_concat("  "@, reg_text(l), '\n');
            lemma_lacks_concat("  "@ + reg_text(l), " = "@, '\n');
            lemma_lacks_concat("  "@ + reg_text(l) + " = "@, callee@, '\n');
            lemma_lacks_concat("  "@ + reg_text(l) + " = "@ + callee@, "("@, '\n');
            lemma_lacks_concat("  "@ + reg_text(l) + " = "@ + callee@ + "("@, list, '\n');
            lemma_lacks_concat("  "@ + reg_text(l) + " = "@ + callee@ + "("@ + list, ")"@, '\n');
        },
        IROp::LabelAddr(label) => {
            lemma_reg_text(l);
            lemma_lacks_concat(head, " "@, '\n');
            lemma_lacks_concat(head + " "@, reg_text(l), '\n');
            lemma_lacks_concat(head + " "@ + reg_text(l), ", "@, '\n');
            lemma_lacks_concat(head + " "@ + reg_text(l) + ", "@, label@, '\n');
        },
        IROp::Load(size) | IROp::Store(size) | IROp::StoreArg(size) => {
            lemma_sized_text(ir);
            lemma_decimal_digits(size as nat);
            let width = decimal(size as nat);
            lemma_lacks_concat(head, width, '\n');
            lemma_lacks_concat(head + width, " "@, '\n');
            lemma_lacks_concat(
                head + width + " "@,
                pair_text(ir.op is StoreArg, l, r),
                '\n',
            );
        },
        IROp::Label => {
            reveal_strlit(":");
            lemma_label_text(l);
            lemma_lacks_concat(label_text(l), ":"@, '\n');
        },
        _ => {
            lemma_plain_text(ir);
            let rest = operands_text(op_type(ir.op), l, r);
            lemma_lacks_concat(head, " "@, '\n');
            lemma_lacks_concat(head + " "@, rest, '\n');
        },
    }
}

/// The name of the function whose printed form `line` opens.
pub fn read_header(line: &[char]) -> (r: Option<String>)
    ensures
        match r {
            Some(name) => is_name(name@) && header_text(name@) == line@,
            None => forall|name: Seq<char>| is_name(name) ==> #[trigger] header_text(name) != line@,
        },
{
    proof {
        reveal_strlit("(): ");
    }
    let end = line.len();
    if end < 4 || !has_word(line, end - 4, "(): ") {
        assert forall|name: Seq<char>| is_name(name) implies #[trigger] header_text(name)
            != line@ by {
            let t = header_text(name);
            assert(t.subrange(t.len() - 4, t.len() as int) =~= "(): "@);
        }
        return None;
    }
    match read_name(line, 0, end - 4) {
        Some(name) => {
            assert(header_text(name@) =~= line@);
            Some(name)
        },
        None => {
            assert forall|name: Seq<char>| is_name(name) implies #[trigger] header_text(name)
                != line@ by {
                let t = header_text(name);
                assert(t.subrange(0, t.len() - 4) =~= name);
            }
            None
        },
    }
}

/// The characters of `lines`, each with a line feed after it.
pub open spec fn join(lines: Seq<Seq<char>>) -> Seq<char>
    decreases lines.len(),
{
    if lines.len() == 0 {
        Seq::empty()
    } else {
        join(lines.drop_last()) + lines.last() + "\n"@
    }
}

/// The printed forms of the instructions `irs`, one line each.
pub open spec fn body_lines(irs: Seq<IR>) -> Seq<Seq<char>> {
    Seq::new(irs.len(), |i: int| ir_text(irs[i]))
}

/// The lines of the printed form of the functions `fns`.
pub open spec fn dump_lines(fns: Seq<FunctionView>) -> Seq<Seq<char>>
    decreases fns.len(),
{
    if fns.len() == 0 {
        Seq::empty()
    } else {
        dump_lines(fns.drop_last()) + seq![header_text(fns.last().name)] + body_lines(
            fns.last().ir,
        )
    }
}

/// Whether `line` opens the printed form of a function.
pub open spec fn is_header(line: Seq<char>) -> bool {
    exists|name: Seq<char>| is_name(name) && line == #[trigger] header_text(name)
}

/// Whether `line` is the printed form of an instruction.
pub open spec fn is_instruction(line: Seq<char>) -> bool {
    exists|ir: IR| printable(ir) && line == #[trigger] ir_text(ir)
}

/// Whether `lines` can be the lines of the printed form of functions: each
/// is a header or an instruction and holds no line feed, and the first is
/// a header.
pub open spec fn are_dump_lines(lines: Seq<Seq<char>>) -> bool {
    &&& forall|m: int|
        0 <= m < lines.len() ==> lacks(#[trigger] lines[m], '\n') && (is_header(lines[m])
            || is_instruction(lines[m]))
    &&& lines.len() > 0 ==> is_header(lines[0])
}

proof fn lemma_join_concat(a: Seq<Seq<char>>, b: Seq<Seq<char>>)
    ensures
        join(a + b) == join(a) + join(b),
    decreases b.len(),
{
    if b.len() == 0 {
        assert(a + b =~= a);
        assert(join(a) + join(b) =~= join(a));
    } else {
        lemma_join_concat(a, b.drop_last());
        assert((a + b).drop_last() =~= a + b.drop_last());
        assert((a + b).last() == b.last());
        assert(join(a + b) =~= join(a) + join(b));
    }
}

proof fn lemma_body_join(irs: Seq<IR>)
    ensures
        body_text(irs) == join(body_lines(irs)),
    decreases irs.len(),
{
    if irs.len() > 0 {
        lemma_body_join(irs.drop_last());
        assert(body_lines(irs).drop_last() =~= body_lines(irs.drop_last()));
        assert(body_lines(irs).last() == ir_text(irs.last()));
    } else {
        assert(body_lines(irs) =~= Seq::<Seq<char>>::empty());
    }
}

proof fn lemma_header_one_line(name: Seq<char>)
    requires
        is_name(name),
    ensures
        lacks(header_text(name), '\n'),
        header_text(name).len() >= 5,
        header_text(name)[header_text(name).len() - 1] == ' ',
        header_text(name)[0] != ' ',
{
    reveal_strlit("(): ");
    lemma_lacks_concat(name, "(): "@, '\n');
    assert(header_text(name)[0] == name[0]);
}

/// The printed form of functions is made of their lines.
pub proof fn lemma_dump_lines(fns: Seq<FunctionView>)
    requires
        readable(fns),
    ensures
        dump_text(fns) == join(dump_lines(fns)),
        are_dump_lines(dump_lines(fns)),
    decreases fns.len(),
{
    if fns.len() > 0 {
        let front = fns.drop_last();
        let f = fns.last();
        assert(readable(front)) by {
            assert forall|k: int| 0 <= k < front.len() implies is_name(#[trigger] front[k].name)
                && forall|i: int|
                0 <= i < front[k].ir.len() ==> printable(#[trigger] front[k].ir[i]) by {
                assert(front[k] == fns[k]);
            }
        }
        lemma_dump_lines(front);
        lemma_body_join(f.ir);
        let head = seq![header_text(f.name)];
        let body = body_lines(f.ir);
        lemma_join_concat(dump_lines(front), head);
        lemma_join_concat(dump_lines(front) + head, body);
        reveal_strlit("(): \n");
        reveal_strlit("(): ");
        reveal_strlit("\n");
        assert("(): \n"@ =~= "(): "@ + "\n"@);
        assert(head.drop_last() =~= Seq::<Seq<char>>::empty());
        assert(join(head.drop_last()) =~= Seq::<char>::empty());
        assert(join(head) =~= header_text(f.name) + "\n"@);
        assert(function_text(f) =~= join(head) + join(body));
        assert(dump_text(fns) =~= join(dump_lines(fns)));
        let all = dump_lines(fns);
        let before = dump_lines(front);
        assert(is_name(fns[fns.len() - 1].name));
        lemma_header_one_line(f.name);
        assert forall|m: int| 0 <= m < all.len() implies lacks(#[trigger] all[m], '\n') && (
        is_header(all[m]) || is_instruction(all[m])) by {
            if m < before.len() {
                assert(all[m] == before[m]);
            } else if m == before.len() {
                assert(all[m] == header_text(f.name));
            } else {
                let i = m - before.len() - 1;
                assert(all[m] == ir_text(f.ir[i]));
                assert(printable(fns[fns.len() - 1].ir[i]));
                lemma_one_line(f.ir[i]);
            }
        }
        if before.len() > 0 {
            assert(all[0] == before[0]);
        } else {
            assert(all[0] == header_text(f.name));
        }
    }
}

/// The line that begins at the start `pos` of a line of `text`.
proof fn lemma_line_at(lines: Seq<Seq<char>>, text: Seq<char>, pos: int, nl: int)
    requires
        text == join(lines),
        forall|m: int| 0 <= m < lines.len() ==> lacks(#[trigger] lines[m], '\n'),
        0 <= pos < text.len(),
        pos == 0 || text[pos - 1] == '\n',
        pos <= nl <= text.len(),
        nl < text.len() ==> text[nl] == '\n',
        forall|i: int| pos <= i < nl ==> text[i] != '\n',
    ensures
        nl < text.len(),
        exists|m: int|
            0 <= m < lines.len() && #[trigger] lines[m] == text.subrange(pos, nl) && (pos == 0
                ==> m == 0),
    decreases lines.len(),
{
    reveal_strlit("\n");
    if lines.len() == 0 {
        assert(text.len() == 0);
    } else {
        let front = lines.drop_last();
        let last = lines.last();
        let start = join(front).len() as int;
        assert(text =~= join(front) + last + "\n"@);
        assert(text.len() == start + last.len() + 1);
        assert(text[text.len() - 1] == '\n');
        assert forall|i: int| start <= i < text.len() - 1 implies text[i] != '\n' by {
            assert(text[i] == last[i - start]);
        }
        if pos >= start {
            if pos > start {
                assert(text[pos - 1] != '\n');
            }
            assert(pos == start);
            assert(nl == text.len() - 1);
            assert(text.subrange(pos, nl) =~= last);
            assert(lines[lines.len() - 1] == text.subrange(pos, nl));
            if pos == 0 {
                if front.len() > 0 {
                    assert(join(front) =~= join(front.drop_last()) + front.last() + "\n"@);
                }
                assert(front.len() == 0);
            }
        } else {
            let shorter = join(front);
            assert(shorter =~= text.subrange(0, start));
            assert(front.len() > 0);
            assert(shorter =~= join(front.drop_last()) + front.last() + "\n"@);
            assert(shorter[start - 1] == '\n');
            assert(text[start - 1] == '\n');
            assert(nl < start);
            assert forall|m: int| 0 <= m < front.len() implies lacks(#[trigger] front[m], '\n') by {
                assert(front[m] == lines[m]);
            }
            lemma_line_at(front, shorter, pos, nl);
            let m = choose|m: int|
                0 <= m < front.len() && #[trigger] front[m] == shorter.subrange(pos, nl) && (pos
                    == 0 ==> m == 0);
            assert(shorter.subrange(pos, nl) =~= text.subrange(pos, nl));
            assert(lines[m] == text.subrange(pos, nl));
        }
    }
}

/// The functions `fns` with a function of the name `name` behind them,
/// which has no instruction and a frame of the size 0.
pub open spec fn opened(fns: Seq<FunctionView>, name: Seq<char>) -> Seq<FunctionView> {
    fns.push(FunctionView { name, stacksize: 0, ir: Seq::empty() })
}

/// The functions `fns` with the instruction `ir` behind the instructions of
/// the last of them.
pub open spec fn extended(fns: Seq<FunctionView>, ir: IR) -> Seq<FunctionView> {
    fns.drop_last().push(
        FunctionView {
            name: fns.last().name,
            stacksize: fns.last().stacksize,
            ir: fns.last().ir.push(ir),
        },
    )
}

/// A function that is opened adds its header to the printed form.
proof fn lemma_opened(fns: Seq<FunctionView>, name: Seq<char>)
    requires
        readable(fns),
        all_normal(fns),
        is_name(name),
    ensures
        readable(opened(fns, name)),
        all_normal(opened(fns, name)),
        dump_text(opened(fns, name)) == dump_text(fns) + header_text(name) + "\n"@,
{
    reveal_strlit("(): \n");
    reveal_strlit("(): ");
    reveal_strlit("\n");
    let now = opened(fns, name);
    assert(now.drop_last() =~= fns);
    assert("(): \n"@ =~= "(): "@ + "\n"@);
    assert(body_text(now.last().ir) =~= Seq::<char>::empty());
    assert(function_text(now.last()) =~= header_text(name) + "\n"@);
    assert(dump_text(now) =~= dump_text(fns) + header_text(name) + "\n"@);
    assert forall|k: int| 0 <= k < now.len() implies is_name(#[trigger] now[k].name) && forall|
        i: int,
    | 0 <= i < now[k].ir.len() ==> printable(#[trigger] now[k].ir[i]) by {
        if k < fns.len() {
            assert(now[k] == fns[k]);
            assert(is_name(fns[k].name));
            assert forall|i: int| 0 <= i < now[k].ir.len() implies printable(
                #[trigger] now[k].ir[i],
            ) by {
                assert(printable(fns[k].ir[i]));
            }
        } else {
            assert(now[k].name == name);
            assert(now[k].ir.len() == 0);
        }
    }
    assert forall|k: int| 0 <= k < now.len() implies (#[trigger] now[k]).stacksize == 0 && forall|
        i: int,
    | 0 <= i < now[k].ir.len() ==> is_normal(#[trigger] now[k].ir[i]) by {
        if k < fns.len() {
            assert(now[k] == fns[k]);
            assert(fns[k].stacksize == 0);
            assert forall|i: int| 0 <= i < now[k].ir.len() implies is_normal(
                #[trigger] now[k].ir[i],
            ) by {
                assert(is_normal(fns[k].ir[i]));
            }
        } else {
            assert(now[k].stacksize == 0);
            assert(now[k].ir.len() == 0);
        }
    }
}

/// An instruction that is added to the last function adds its line to the
/// printed form.
proof fn lemma_extended(fns: Seq<FunctionView>, ir: IR)
    requires
        fns.len() > 0,
        readable(fns),
        all_normal(fns),
        printable(ir),
        is_normal(ir),
    ensures
        readable(extended(fns, ir)),
        all_normal(extended(fns, ir)),
        dump_text(extended(fns, ir)) == dump_text(fns) + ir_text(ir) + "\n"@,
{
    let now = extended(fns, ir);
    let last = fns.len() - 1;
    let f = fns.last();
    let g = now.last();
    assert(now.drop_last() =~= fns.drop_last());
    assert(g.ir.drop_last() =~= f.ir);
    assert(g.ir.last() == ir);
    assert(body_text(g.ir) == body_text(f.ir) + ir_text(ir) + "\n"@);
    assert(function_text(g) =~= function_text(f) + ir_text(ir) + "\n"@);
    assert(dump_text(fns) == dump_text(fns.drop_last()) + function_text(f));
    assert(dump_text(now) == dump_text(now.drop_last()) + function_text(g));
    assert(dump_text(now) =~= dump_text(fns) + ir_text(ir) + "\n"@);
    assert(is_name(fns[last].name));
    assert(fns[last].stacksize == 0);
    assert forall|k: int| 0 <= k < now.len() implies is_name(#[trigger] now[k].name) && forall|
        i: int,
    | 0 <= i < now[k].ir.len() ==> printable(#[trigger] now[k].ir[i]) by {
        if k < last {
            assert(now[k] == fns[k]);
            assert(is_name(fns[k].name));
            assert forall|i: int| 0 <= i < now[k].ir.len() implies printable(
                #[trigger] now[k].ir[i],
            ) by {
                assert(printable(fns[k].ir[i]));
            }
        } else {
            assert(now[k] == g);
            assert(g.name == fns[last].name);
            assert forall|i: int| 0 <= i < now[k].ir.len() implies printable(
                #[trigger] now[k].ir[i],
            ) by {
                if i < f.ir.len() {
                    assert(g.ir[i] == fns[last].ir[i]);
                    assert(printable(fns[last].ir[i]));
                } else {
                    assert(g.ir[i] == ir);
                }
            }
        }
    }
    assert forall|k: int| 0 <= k < now.len() implies (#[trigger] now[k]).stacksize == 0 && forall|
        i: int,
    | 0 <= i < now[k].ir.len() ==> is_normal(#[trigger] now[k].ir[i]) by {
        if k < last {
            assert(now[k] == fns[k]);
            assert(fns[k].stacksize == 0);
            assert forall|i: int| 0 <= i < now[k].ir.len() implies is_normal(
                #[trigger] now[k].ir[i],
            ) by {
                assert(is_normal(fns[k].ir[i]));
            }
        } else {
            assert(now[k] == g);
            assert(g.stacksize == fns[last].stacksize);
            assert forall|i: int| 0 <= i < now[k].ir.len() implies is_normal(
                #[trigger] now[k].ir[i],
            ) by {
                if i < f.ir.len() {
                    assert(g.ir[i] == fns[last].ir[i]);
                    assert(is_normal(fns[last].ir[i]));
                } else {
                    assert(g.ir[i] == ir);
                }
            }
        }
    }
}

/// What the line that begins at the start `pos` of a line of `text` is,
/// where `text` is the printed form of functions.
proof fn lemma_next_line(other: Seq<FunctionView>, text: Seq<char>, pos: int, nl: int)
    requires
        readable(other),
        dump_text(other) == text,
        0 <= pos < text.len(),
        pos == 0 || text[pos - 1] == '\n',
        pos <= nl <= text.len(),
        nl < text.len() ==> text[nl] == '\n',
        forall|i: int| pos <= i < nl ==> text[i] != '\n',
    ensures
        nl < text.len(),
        is_header(text.subrange(pos, nl)) || is_instruction(text.subrange(pos, nl)),
        pos == 0 ==> is_header(text.subrange(pos, nl)),
{
    lemma_dump_lines(other);
    let lines = dump_lines(other);
    lemma_line_at(lines, text, pos, nl);
    let m = choose|m: int|
        0 <= m < lines.len() && #[trigger] lines[m] == text.subrange(pos, nl) && (pos == 0 ==> m
            == 0);
    assert(lacks(lines[m], '\n'));
}

fn open_function(fns: &mut Vec<Function>, name: String)
    ensures
        views(final(fns)@) == opened(views(old(fns)@), name@),
{
    fns.push(Function { name, stacksize: 0, ir: Vec::new() });
    assert(views(fns@) =~= opened(views(old(fns)@), name@));
}

fn add_instruction(fns: &mut Vec<Function>, ir: IR)
    requires
        old(fns).len() > 0,
    ensures
        views(final(fns)@) == extended(views(old(fns)@), ir),
{
    let last = fns.len() - 1;
    fns[last].ir.push(ir);
    assert(views(fns@) =~= extended(views(old(fns)@), ir));
}

/// The functions whose printed form is `text`.  Their frames have the
/// size 0: the printed form does not show the size of a frame.
pub fn read_dump(text: &[char]) -> (r: Option<Vec<Function>>)
    ensures
        match r {
            Some(fns) => {
                &&& readable(views(fns@))
                &&& all_normal(views(fns@))
                &&& dump_text(views(fns@)) == text@
            },
            None => forall|fns: Seq<FunctionView>|
                readable(fns) ==> #[trigger] dump_text(fns) != text@,
        },
{
    let mut fns: Vec<Function> = Vec::new();
    let mut pos: usize = 0;
    let end = text.len();
    proof {
        assert(views(fns@) =~= Seq::<FunctionView>::empty());
        assert(dump_text(views(fns@)) =~= text@.subrange(0, 0));
    }
    while pos < end
        invariant
            pos <= end == text.len(),
            pos == 0 || text@[pos - 1] == '\n',
            pos > 0 ==> fns.len() > 0,
            readable(views(fns@)),
            all_normal(views(fns@)),
            dump_text(views(fns@)) == text@.subrange(0, pos as int),
        decreases end - pos,
    {
        let nl = find_char(text, pos, end, '\n');
        proof {
            assert forall|other: Seq<FunctionView>| readable(other) && #[trigger] dump_text(other)
                == text@ implies {
                &&& nl < end
                &&& is_header(text@.subrange(pos as int, nl as int)) || is_instruction(
                    text@.subrange(pos as int, nl as int),
                )
                &&& pos == 0 ==> is_header(text@.subrange(pos as int, nl as int))
            } by {
                lemma_next_line(other, text@, pos as int, nl as int);
            }
        }
        if nl >= end {
            return None;
        }
        let line = slice_subrange(text, pos, nl);
        let ghost before = views(fns@);
        proof {
            reveal_strlit("\n");
            assert(text@.subrange(0, nl + 1) =~= text@.subrange(0, pos as int) + line@ + "\n"@);
        }
        match read_header(line) {
            Some(name) => {
                proof {
                    lemma_opened(before, name@);
                }
                open_function(&mut fns, name);
            },
            None => {
                assert(!is_header(line@));
                match read_ir(line) {
                    Some(ir) => {
                        if fns.len() == 0 {
                            return None;
                        }
                        proof {
                            lemma_extended(before, ir);
                        }
                        add_instruction(&mut fns, ir);
                    },
                    None => {
                        assert(!is_instruction(line@));
                        return None;
                    },
                }
            },
        }
        pos = nl + 1;
    }
    proof {
        assert(text@.subrange(0, pos as int) =~= text@);
    }
    Some(fns)
}

} // verus!
