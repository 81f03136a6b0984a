//! Building assembly text: decimal numbers, operands, and lines.

use vstd::prelude::*;

verus! {

/// The character of a decimal digit.
pub open spec fn digit_char(d: int) -> char {
    if d == 0 {
        '0'
    } else if d == 1 {
        '1'
    } else if d == 2 {
        '2'
    } else if d == 3 {
        '3'
    } else if d == 4 {
        '4'
    } else if d == 5 {
        '5'
    } else if d == 6 {
        '6'
    } else if d == 7 {
        '7'
    } else if d == 8 {
        '8'
    } else {
        '9'
    }
}

/// Decimal notation of a natural number, without leading zeros.
pub open spec fn decimal(n: nat) -> Seq<char>
    decreases n,
{
    if n < 10 {
        seq![digit_char(n as int)]
    } else {
        decimal(n / 10).push(digit_char((n % 10) as int))
    }
}

/// Decimal notation of an integer, with a leading minus sign if negative.
pub open spec fn signed_decimal(x: int) -> Seq<char> {
    if x < 0 {
        seq!['-'] + decimal((-x) as nat)
    } else {
        decimal(x as nat)
    }
}

/// The signed value of the low 32 bits of an operand.
///
/// Immediates and frame offsets are kept in unsigned operand fields; this
/// is the number they stand for.
pub open spec fn imm32(x: int) -> int {
    let low = x % 0x1_0000_0000;
    if low < 0x8000_0000 {
        low
    } else {
        low - 0x1_0000_0000
    }
}

fn digit_str(d: u64) -> (r: &'static str)
    requires
        d < 10,
    ensures
        r@ == seq![digit_char(d as int)],
{
    let r = if d == 0 {
        "0"
    } else if d == 1 {
        "1"
    } else if d == 2 {
        "2"
    } else if d == 3 {
        "3"
    } else if d == 4 {
        "4"
    } else if d == 5 {
        "5"
    } else if d == 6 {
        "6"
    } else if d == 7 {
        "7"
    } else if d == 8 {
        "8"
    } else {
        "9"
    };
    proof {
        reveal_strlit("0");
        reveal_strlit("1");
        reveal_strlit("2");
        reveal_strlit("3");
        reveal_strlit("4");
        reveal_strlit("5");
        reveal_strlit("6");
        reveal_strlit("7");
        reveal_strlit("8");
        reveal_strlit("9");
        assert(r@ =~= seq![digit_char(d as int)]);
    }
    r
}

/// `String::push` of the standard library: appends the one character `c`
/// to `s` and leaves what `s` held before it.
#[verifier::external_body]
pub(crate) fn push_char(s: &mut String, c: char)
    ensures
        final(s)@ == old(s)@.push(c),
{
    s.push(c)
}

/// Appends the character of the digit `d`.
pub fn push_digit(s: &mut String, d: u8)
    requires
        d < 10,
    ensures
        final(s)@ == old(s)@.push(digit_char(d as int)),
{
    s.append(digit_str(d as u64));
    assert(final(s)@ =~= old(s)@.push(digit_char(d as int)));
}

/// Appends the decimal notation of `n`.
pub fn push_decimal(s: &mut String, n: u64)
    ensures
        final(s)@ == old(s)@ + decimal(n as nat),
    decreases n,
{
    if n >= 10 {
        push_decimal(s, n / 10);
    }
    s.append(digit_str(n % 10));
    proof {
        if n >= 10 {
            assert(final(s)@ =~= old(s)@ + decimal(n as nat));
        } else {
            assert(final(s)@ =~= old(s)@ + decimal(n as nat));
        }
    }
}

/// Appends the decimal notation of the signed low 32 bits of `x`.
pub fn push_imm32(s: &mut String, x: usize)
    ensures
        final(s)@ == old(s)@ + signed_decimal(imm32(x as int)),
{
    let low: u64 = (x as u64) % 0x1_0000_0000;
    if low < 0x8000_0000 {
        push_decimal(s, low);
    } else {
        s.append("-");
        push_decimal(s, 0x1_0000_0000 - low);
        proof {
            reveal_strlit("-");
            assert("-"@ =~= seq!['-']);
            assert(final(s)@ =~= old(s)@ + signed_decimal(imm32(x as int)));
        }
    }
}

/// The decimal notation of `n` as a string.
pub fn decimal_string(n: usize) -> (s: String)
    ensures
        s@ == decimal(n as nat),
{
    let mut s = String::new();
    push_decimal(&mut s, n as u64);
    assert(s@ =~= decimal(n as nat));
    s
}

/// The decimal notation of the signed low 32 bits of `x` as a string.
pub fn imm32_string(x: usize) -> (s: String)
    ensures
        s@ == signed_decimal(imm32(x as int)),
{
    let mut s = String::new();
    push_imm32(&mut s, x);
    assert(s@ =~= signed_decimal(imm32(x as int)));
    s
}

/// One line of assembly output.
pub enum AsmLine {
    /// A directive or other text written as it is.
    Plain(Seq<char>),
    /// The definition of a label: its name, written with a colon after it.
    Label(Seq<char>),
    /// An instruction, written after a tab.
    Insn(Seq<char>),
}

/// The characters of one line, with the line feed that ends it.
pub open spec fn line_text(l: AsmLine) -> Seq<char> {
    match l {
        AsmLine::Plain(t) => t + "\n"@,
        AsmLine::Label(n) => n + ":\n"@,
        AsmLine::Insn(t) => "\t"@ + t + "\n"@,
    }
}

/// The characters of a sequence of lines.
pub open spec fn render(lines: Seq<AsmLine>) -> Seq<char>
    decreases lines.len(),
{
    if lines.len() == 0 {
        Seq::empty()
    } else {
        render(lines.drop_last()) + line_text(lines.last())
    }
}

/// The sequence that holds the single line `l`.
pub open spec fn one(l: AsmLine) -> Seq<AsmLine> {
    seq![l]
}

/// The rendering of a single line is the text of that line.
pub broadcast proof fn lemma_render_one(l: AsmLine)
    ensures
        #[trigger] render(one(l)) == line_text(l),
{
    assert(one(l).drop_last() =~= Seq::<AsmLine>::empty());
    assert(render(one(l).drop_last()) =~= Seq::<char>::empty());
    assert(render(one(l)) =~= line_text(l));
}

/// The rendering of lines put together is the rendering of the first
/// lines, then that of the others.
pub broadcast proof fn lemma_render_concat(a: Seq<AsmLine>, b: Seq<AsmLine>)
    ensures
        #[trigger] render(a + b) == render(a) + render(b),
    decreases b.len(),
{
    if b.len() == 0 {
        assert(a + b =~= a);
        assert(render(a) + render(b) =~= render(a));
    } else {
        lemma_render_concat(a, b.drop_last());
        assert((a + b).drop_last() =~= a + b.drop_last());
        assert((a + b).last() == b.last());
        assert(render(a + b) =~= render(a) + render(b));
    }
}

/// A text that ends with rendered lines, with one more rendered line
/// after it, ends with the rendering of these lines and that one.
pub proof fn lemma_render_more(
    start: Seq<char>,
    lines: Seq<AsmLine>,
    l: AsmLine,
    before: Seq<char>,
    after: Seq<char>,
)
    requires
        before == start + render(lines),
        after == before + render(one(l)),
    ensures
        after == start + render(lines + one(l)),
{
    lemma_render_concat(lines, one(l));
    assert(after =~= start + render(lines + one(l)));
}

pub broadcast group group_render {
    lemma_render_one,
    lemma_render_concat,
}

/// An instruction without operands.
pub open spec fn op0(m: Seq<char>) -> AsmLine {
    AsmLine::Insn(m)
}

/// An instruction with one operand.
pub open spec fn op1(m: Seq<char>, a: Seq<char>) -> AsmLine {
    AsmLine::Insn(m + " "@ + a)
}

/// An instruction with two operands.
pub open spec fn op2(m: Seq<char>, a: Seq<char>, b: Seq<char>) -> AsmLine {
    AsmLine::Insn(m + " "@ + a + ", "@ + b)
}

/// An instruction with three operands.
pub open spec fn op3(m: Seq<char>, a: Seq<char>, b: Seq<char>, c: Seq<char>) -> AsmLine {
    AsmLine::Insn(m + " "@ + a + ", "@ + b + ", "@ + c)
}

/// An instruction with four operands.
pub open spec fn op4(
    m: Seq<char>,
    a: Seq<char>,
    b: Seq<char>,
    c: Seq<char>,
    d: Seq<char>,
) -> AsmLine {
    AsmLine::Insn(m + " "@ + a + ", "@ + b + ", "@ + c + ", "@ + d)
}

/// Appends a line written as it is.
pub fn emit_plain(out: &mut String, t: &str)
    ensures
        final(out)@ == old(out)@ + render(one(AsmLine::Plain(t@))),
{
    broadcast use group_render;

    out.append(t);
    out.append("\n");
    assert(final(out)@ =~= old(out)@ + render(one(AsmLine::Plain(t@))));
}

/// Appends the definition of the label `name`.
pub fn emit_label(out: &mut String, name: &str)
    ensures
        final(out)@ == old(out)@ + render(one(AsmLine::Label(name@))),
{
    broadcast use group_render;

    out.append(name);
    out.append(":\n");
    assert(final(out)@ =~= old(out)@ + render(one(AsmLine::Label(name@))));
}

/// Appends an instruction without operands.
pub fn emit0(out: &mut String, m: &str)
    ensures
        final(out)@ == old(out)@ + render(one(op0(m@))),
{
    broadcast use group_render;

    out.append("\t");
    out.append(m);
    out.append("\n");
    assert(final(out)@ =~= old(out)@ + render(one(op0(m@))));
}

/// Appends an instruction with one operand.
pub fn emit1(out: &mut String, m: &str, a: &str)
    ensures
        final(out)@ == old(out)@ + render(one(op1(m@, a@))),
{
    broadcast use group_render;

    out.append("\t");
    out.append(m);
    out.append(" ");
    out.append(a);
    out.append("\n");
    assert(final(out)@ =~= old(out)@ + render(one(op1(m@, a@))));
}

/// Appends an instruction with two operands.
pub fn emit2(out: &mut String, m: &str, a: &str, b: &str)
    ensures
        final(out)@ == old(out)@ + render(one(op2(m@, a@, b@))),
{
    broadcast use group_render;

    out.append("\t");
    out.append(m);
    out.append(" ");
    out.append(a);
    out.append(", ");
    out.append(b);
    out.append("\n");
    assert(final(out)@ =~= old(out)@ + render(one(op2(m@, a@, b@))));
}

/// Appends an instruction with three operands.
pub fn emit3(out: &mut String, m: &str, a: &str, b: &str, c: &str)
    ensures
        final(out)@ == old(out)@ + render(one(op3(m@, a@, b@, c@))),
{
    broadcast use group_render;

    out.append("\t");
    out.append(m);
    out.append(" ");
    out.append(a);
    out.append(", ");
    out.append(b);
    out.append(", ");
    out.append(c);
    out.append("\n");
    assert(final(out)@ =~= old(out)@ + render(one(op3(m@, a@, b@, c@))));
}

/// Appends an instruction with four operands.
pub fn emit4(out: &mut String, m: &str, a: &str, b: &str, c: &str, d: &str)
    ensures
        final(out)@ == old(out)@ + render(one(op4(m@, a@, b@, c@, d@))),
{
    broadcast use group_render;

    out.append("\t");
    out.append(m);
    out.append(" ");
    out.append(a);
    out.append(", ");
    out.append(b);
    out.append(", ");
    out.append(c);
    out.append(", ");
    out.append(d);
    out.append("\n");
    assert(final(out)@ =~= old(out)@ + render(one(op4(m@, a@, b@, c@, d@))));
}


/// Whether `c` is a decimal digit.
pub open spec fn is_digit(c: char) -> bool {
    c == '0' || c == '1' || c == '2' || c == '3' || c == '4' || c == '5' || c == '6' || c == '7'
        || c == '8' || c == '9'
}

/// Decimal notation is not empty and holds digits only.
pub proof fn lemma_decimal_digits(n: nat)
    ensures
        decimal(n).len() >= 1,
        forall|i: int| 0 <= i < decimal(n).len() ==> is_digit(#[trigger] decimal(n)[i]),
    decreases n,
{
    if n >= 10 {
        lemma_decimal_digits(n / 10);
    }
}

/// Two numbers with the same decimal notation are the same number.
pub proof fn lemma_decimal_injective(a: nat, b: nat)
    requires
        decimal(a) == decimal(b),
    ensures
        a == b,
    decreases a,
{
    lemma_decimal_digits(a / 10);
    lemma_decimal_digits(b / 10);
    if a >= 10 && b >= 10 {
        let da = decimal(a / 10);
        let db = decimal(b / 10);
        assert(decimal(a).drop_last() =~= da);
        assert(decimal(b).drop_last() =~= db);
        assert(decimal(a).last() == digit_char((a % 10) as int));
        assert(decimal(b).last() == digit_char((b % 10) as int));
        lemma_decimal_injective(a / 10, b / 10);
    } else if a < 10 && b < 10 {
        assert(decimal(a)[0] == digit_char(a as int));
        assert(decimal(b)[0] == digit_char(b as int));
    } else if a < 10 {
        assert(decimal(a).len() == 1);
        assert(decimal(b).len() == decimal(b / 10).len() + 1);
    } else {
        assert(decimal(b).len() == 1);
        assert(decimal(a).len() == decimal(a / 10).len() + 1);
    }
}

} // verus!
