//! Reading the data section in the form in which the generator writes it.
//! The reader is the inverse of the writer: it yields the globals whose
//! data section a text is, and nothing where the text is the data section
//! of none.

use vstd::prelude::*;
use vstd::slice::slice_subrange;
use crate::gen_x86::{
    backslash_escape, data_directive, data_lines, escape_byte, escape_bytes, global_lines,
    globals_lines, guard_backquotes, guarded, initializer, lemma_escape_round_trip,
    lemma_guarded_byte, lemma_guarded_concat, octal_value, prepend, short_escape, unescape,
};
use crate::scan::{find_char, has_word, lacks, read_number};
use crate::dumpread::{all_normal, read_dump, readable};
use crate::gen_ir::{views, Function, FunctionView};
use crate::irdump::{body_text, dump_text, function_text};
use crate::irparse::is_name;
use crate::text::{
    decimal, is_digit, lemma_decimal_digits, lemma_render_concat, lemma_render_one, one,
    push_char, render, AsmLine,
};
use crate::{Scope, Var};

verus! {

/// The bytes `rest` with the bytes `first` before them.
pub open spec fn lead(first: Seq<u8>, rest: Option<Seq<u8>>) -> Option<Seq<u8>> {
    match rest {
        Some(r) => Some(first + r),
        None => None,
    }
}

/// The byte that a backslash and `c` stand for, where `c` is no digit.
fn escape_of(c: char) -> (r: Option<u8>)
    ensures
        r == short_escape(c),
{
    if c == 'n' {
        Some(10)
    } else if c == 'r' {
        Some(13)
    } else if c == 't' {
        Some(9)
    } else if c == '\\' {
        Some(92)
    } else if c == '\'' {
        Some(39)
    } else if c == '"' {
        Some(34)
    } else if c == '`' {
        Some(96)
    } else if c == '?' {
        Some(63)
    } else if c == 'a' {
        Some(7)
    } else if c == 'b' {
        Some(8)
    } else if c == 'v' {
        Some(11)
    } else if c == 'f' {
        Some(12)
    } else if c == 'e' {
        Some(27)
    } else {
        None
    }
}

/// The value of `c` as an octal digit.
fn octal_of(c: char) -> (r: Option<u16>)
    ensures
        r is Some == octal_value(c) is Some,
        r is Some ==> r->0 == octal_value(c)->0 && r->0 < 8,
{
    if c == '0' {
        Some(0)
    } else if c == '1' {
        Some(1)
    } else if c == '2' {
        Some(2)
    } else if c == '3' {
        Some(3)
    } else if c == '4' {
        Some(4)
    } else if c == '5' {
        Some(5)
    } else if c == '6' {
        Some(6)
    } else if c == '7' {
        Some(7)
    } else {
        None
    }
}

/// The byte that the text `t` begins with, and the number of characters
/// that stand for it; `None` where `t` begins with no byte.
pub open spec fn first_byte(t: Seq<char>) -> Option<(u8, int)> {
    if t.len() == 0 || t[0] == '`' {
        None
    } else if t[0] != '\\' {
        if (t[0] as u32) < 128 {
            Some((t[0] as u8, 1))
        } else {
            None
        }
    } else if t.len() < 2 {
        None
    } else if short_escape(t[1]) is Some {
        Some((short_escape(t[1])->0, 2))
    } else if octal_value(t[1]) is None {
        None
    } else if t.len() < 3 || octal_value(t[2]) is None {
        Some((octal_value(t[1])->0 as u8, 2))
    } else if t.len() < 4 || octal_value(t[3]) is None {
        Some(((octal_value(t[1])->0 * 8 + octal_value(t[2])->0) as u8, 3))
    } else {
        let value = octal_value(t[1])->0 * 64 + octal_value(t[2])->0 * 8 + octal_value(t[3])->0;
        if value < 256 {
            Some((value as u8, 4))
        } else {
            None
        }
    }
}

/// A text that is not empty is read byte by byte.
proof fn lemma_unescape_first(t: Seq<char>)
    requires
        t.len() > 0,
    ensures
        unescape(t) == match first_byte(t) {
            Some((b, k)) => prepend(b, unescape(t.skip(k))),
            None => None,
        },
        first_byte(t) matches Some(f) ==> 1 <= f.1 <= t.len(),
{
}

/// The byte that `text[pos..to]` begins with, and where the next begins.
fn read_byte(text: &[char], pos: usize, to: usize) -> (r: Option<(u8, usize)>)
    requires
        pos < to <= text.len(),
    ensures
        match first_byte(text@.subrange(pos as int, to as int)) {
            Some((b, k)) => r == Some((b, (pos + k) as usize)) && pos + k <= to,
            None => r is None,
        },
{
    let ghost t = text@.subrange(pos as int, to as int);
    assert(t[0] == text@[pos as int]);
    let c = text[pos];
    if c == '`' {
        return None;
    }
    if c != '\\' {
        if (c as u32) < 128 {
            return Some((c as u8, pos + 1));
        }
        return None;
    }
    if to - pos < 2 {
        return None;
    }
    assert(t[1] == text@[pos + 1]);
    let d = text[pos + 1];
    match escape_of(d) {
        Some(b) => {
            return Some((b, pos + 2));
        },
        None => {},
    }
    let d1 = match octal_of(d) {
        Some(v) => v,
        None => {
            return None;
        },
    };
    if to - pos < 3 {
        return Some((d1 as u8, pos + 2));
    }
    assert(t[2] == text@[pos + 2]);
    let d2 = match octal_of(text[pos + 2]) {
        Some(v) => v,
        None => {
            return Some((d1 as u8, pos + 2));
        },
    };
    if to - pos < 4 {
        return Some(((d1 * 8 + d2) as u8, pos + 3));
    }
    assert(t[3] == text@[pos + 3]);
    let d3 = match octal_of(text[pos + 3]) {
        Some(v) => v,
        None => {
            return Some(((d1 * 8 + d2) as u8, pos + 3));
        },
    };
    let value = d1 * 64 + d2 * 8 + d3;
    if value < 256 {
        Some((value as u8, pos + 4))
    } else {
        None
    }
}

/// The bytes that the assembler reads from `text[from..to]`, the inside
/// of a string in backquotes.
pub fn read_escaped(text: &[char], from: usize, to: usize) -> (r: Option<Vec<u8>>)
    requires
        from <= to <= text.len(),
    ensures
        match r {
            Some(bytes) => unescape(text@.subrange(from as int, to as int)) == Some(bytes@),
            None => unescape(text@.subrange(from as int, to as int)) is None,
        },
{
    let ghost s = text@.subrange(from as int, to as int);
    let mut bytes: Vec<u8> = Vec::new();
    let mut pos: usize = from;
    proof {
        assert(s.skip(0) =~= s);
        assert(lead(bytes@, unescape(s)) == unescape(s)) by {
            match unescape(s) {
                Some(x) => {
                    assert(bytes@ + x =~= x);
                },
                None => {},
            }
        }
    }
    while pos < to
        invariant
            from <= pos <= to <= text.len(),
            s == text@.subrange(from as int, to as int),
            unescape(s) == lead(bytes@, unescape(s.skip(pos - from))),
        decreases to - pos,
    {
        let ghost t = s.skip(pos - from);
        let ghost before = bytes@;
        proof {
            assert(t =~= text@.subrange(pos as int, to as int));
            lemma_unescape_first(t);
        }
        match read_byte(text, pos, to) {
            Some((b, next)) => {
                bytes.push(b);
                proof {
                    let k = next - pos;
                    assert(t.skip(k) =~= s.skip(next - from));
                    match unescape(t.skip(k)) {
                        Some(x) => {
                            assert(before + (seq![b] + x) =~= before.push(b) + x);
                        },
                        None => {},
                    }
                }
                pos = next;
            },
            None => {
                return None;
            },
        }
    }
    proof {
        assert(s.skip(pos - from) =~= Seq::<char>::empty());
        assert(bytes@ + Seq::<u8>::empty() =~= bytes@);
    }
    Some(bytes)
}


/// What a global occupies ends with a zero byte, and is what a global with
/// these bytes as its data and one byte less as its length occupies.
proof fn lemma_initializer(data: Seq<u8>, len: nat)
    ensures
        initializer(data, len).len() >= 1,
        initializer(data, len).last() == 0,
        initializer(initializer(data, len), (initializer(data, len).len() - 1) as nat)
            == initializer(data, len),
{
    let b = initializer(data, len);
    assert(initializer(b, (b.len() - 1) as nat) =~= b);
}

/// The string of bytes in a directive holds no line feed.
proof fn lemma_escaped_one_line(bytes: Seq<u8>)
    ensures
        lacks(guarded(escape_bytes(bytes)), '\n'),
    decreases bytes.len(),
{
    if bytes.len() > 0 {
        lemma_escaped_one_line(bytes.drop_last());
        lemma_guarded_concat(escape_bytes(bytes.drop_last()), escape_byte(bytes.last()));
        lemma_guarded_byte(bytes.last());
        let front = guarded(escape_bytes(bytes.drop_last()));
        let last = guarded(escape_byte(bytes.last()));
        assert forall|i: int| 0 <= i < (front + last).len() implies #[trigger] (front + last)[i]
            != '\n' by {
            if i < front.len() {
                assert((front + last)[i] == front[i]);
            } else {
                assert((front + last)[i] == last[i - front.len()]);
            }
        }
    }
}

/// The directive of a global holds no line feed.
proof fn lemma_directive_one_line(data: Seq<u8>, len: usize)
    ensures
        lacks(data_directive(data, len), '\n'),
{
    reveal_strlit("    times ");
    reveal_strlit(" db 0");
    reveal_strlit("    db `");
    reveal_strlit("`");
    lemma_decimal_digits(len as nat);
    lemma_escaped_one_line(initializer(data, len as nat));
    let t = data_directive(data, len);
    if data.len() == 0 {
        let d = decimal(len as nat);
        assert forall|i: int| 0 <= i < t.len() implies #[trigger] t[i] != '\n' by {
            if 10 <= i < 10 + d.len() {
                assert(t[i] == d[i - 10]);
                assert(is_digit(d[i - 10]));
            }
        }
    } else {
        let e = guarded(escape_bytes(initializer(data, len as nat)));
        assert forall|i: int| 0 <= i < t.len() implies #[trigger] t[i] != '\n' by {
            if 8 <= i < 8 + e.len() {
                assert(t[i] == e[i - 8]);
            }
        }
    }
}

/// The data and the length of the global whose directive is `line`.  Of
/// the globals with this directive it yields the one whose data are all
/// the bytes that the directive stores.
pub fn read_directive(line: &[char]) -> (r: Option<(Vec<u8>, usize)>)
    ensures
        match r {
            Some((data, len)) => data_directive(data@, len) == line@,
            None => forall|data: Seq<u8>, len: usize| #[trigger]
                data_directive(data, len) != line@,
        },
{
    proof {
        reveal_strlit("    times ");
        reveal_strlit(" db 0");
        reveal_strlit("    db `");
        reveal_strlit("`");
    }
    let end = line.len();
    if has_word(line, 0, "    times ") {
        assert forall|data: Seq<u8>, len: usize| #[trigger] data_directive(data, len)
            == line@ implies data.len() == 0 && end >= 15 && line@.subrange(end - 5, end as int)
            == " db 0"@ && line@.subrange(10, end - 5) == decimal(len as nat) by {
            let t = data_directive(data, len);
            if data.len() > 0 {
                assert(t[4] == 'd');
                assert(line@.subrange(0, 10)[4] == line@[4]);
            }
            let d = decimal(len as nat);
            lemma_decimal_digits(len as nat);
            assert(t =~= "    times "@ + d + " db 0"@);
            assert(t.subrange(t.len() - 5, t.len() as int) =~= " db 0"@);
            assert(t.subrange(10, t.len() - 5) =~= d);
        }
        if end < 15 || !has_word(line, end - 5, " db 0") {
            return None;
        }
        return match read_number(line, 10, end - 5, usize::MAX) {
            Some(len) => {
                let data: Vec<u8> = Vec::new();
                assert(data_directive(data@, len) =~= line@);
                Some((data, len))
            },
            None => None,
        };
    }
    if !has_word(line, 0, "    db `") || end < 9 || line[end - 1] != '`' {
        assert forall|data: Seq<u8>, len: usize| #[trigger] data_directive(data, len)
            != line@ by {
            let t = data_directive(data, len);
            if data.len() == 0 {
                assert(t.subrange(0, 10) =~= "    times "@);
            } else {
                assert(t.subrange(0, 8) =~= "    db `"@);
                assert(t[t.len() - 1] == '`');
            }
        }
        return None;
    }
    let ghost inside = line@.subrange(8, end - 1);
    proof {
        assert(line@ =~= "    db `"@ + inside + "`"@);
        assert forall|data: Seq<u8>, len: usize| #[trigger] data_directive(data, len)
            == line@ implies data.len() > 0 && inside == guarded(
            escape_bytes(initializer(data, len as nat)),
        ) by {
            let t = data_directive(data, len);
            if data.len() == 0 {
                assert(t.subrange(0, 10) =~= "    times "@);
                assert(t[4] == 't');
                assert(line@.subrange(0, 8)[4] == line@[4]);
            } else {
                let e = guarded(escape_bytes(initializer(data, len as nat)));
                assert(t.subrange(8, t.len() - 1) =~= e);
            }
        }
        assert forall|data: Seq<u8>, len: usize| #[trigger] data_directive(data, len)
            == line@ implies unescape(inside) == Some(initializer(data, len as nat)) by {
            lemma_escape_round_trip(initializer(data, len as nat));
        }
    }
    let bytes = match read_escaped(line, 8, end - 1) {
        Some(bytes) => bytes,
        None => {
            return None;
        },
    };
    proof {
        assert forall|data: Seq<u8>, len: usize| #[trigger] data_directive(data, len)
            == line@ implies bytes@.len() >= 1 && guarded(
            escape_bytes(initializer(bytes@, (bytes@.len() - 1) as nat)),
        ) == inside by {
            lemma_initializer(data, len as nat);
        }
    }
    if bytes.len() == 0 {
        return None;
    }
    let len = bytes.len() - 1;
    let escaped = backslash_escape(bytes.as_slice(), len);
    let string = guard_backquotes(escaped.as_str());
    let n = string.as_str().unicode_len();
    if n != end - 9 || !has_word(line, 8, string.as_str()) {
        return None;
    }
    assert(inside =~= string@);
    assert(data_directive(bytes@, len) =~= line@);
    Some((bytes, len))
}

/// The name whose label is `line`: the line without the colon that ends
/// it.
pub fn read_symbol(line: &[char]) -> (r: Option<String>)
    ensures
        match r {
            Some(name) => name@ + ":"@ == line@,
            None => forall|name: Seq<char>| #[trigger] (name + ":"@) != line@,
        },
{
    proof {
        reveal_strlit(":");
    }
    let end = line.len();
    if end == 0 || line[end - 1] != ':' {
        assert forall|name: Seq<char>| #[trigger] (name + ":"@) != line@ by {
            let t = name + ":"@;
            assert(t[t.len() - 1] == ':');
        }
        return None;
    }
    let mut name = String::new();
    let mut i: usize = 0;
    assert(name@ =~= line@.subrange(0, 0));
    while i < end - 1
        invariant
            i <= end - 1,
            end == line.len(),
            name@ == line@.subrange(0, i as int),
        decreases end - 1 - i,
    {
        push_char(&mut name, line[i]);
        assert(name@ =~= line@.subrange(0, i + 1));
        i += 1;
    }
    assert(name@ + ":"@ =~= line@);
    Some(name)
}


/// Whether `v` is a global that is defined here and whose name holds no
/// line feed.
pub open spec fn is_defined_global(v: Var) -> bool {
    &&& v.scope matches Scope::Global(_, _, is_extern) && !is_extern
    &&& lacks(v.name@, '\n')
}

/// Whether each of `globals` is a global that is defined here.
pub open spec fn all_defined(globals: Seq<Var>) -> bool {
    forall|i: int| 0 <= i < globals.len() ==> is_defined_global(#[trigger] globals[i])
}

/// The line with the label of a global.
pub open spec fn symbol_line(v: Var) -> Seq<char> {
    v.name@ + ":"@
}

/// The line with the directive of a global.
pub open spec fn directive_line(v: Var) -> Seq<char> {
    match v.scope {
        Scope::Global(data, len, _) => data_directive(data@, len),
        Scope::Local(_, _) => Seq::empty(),
    }
}

/// The label and the directive of each of `globals`, one line each.
pub open spec fn section_text(globals: Seq<Var>) -> Seq<char>
    decreases globals.len(),
{
    if globals.len() == 0 {
        Seq::empty()
    } else {
        section_text(globals.drop_last()) + symbol_line(globals.last()) + "\n"@ + directive_line(
            globals.last(),
        ) + "\n"@
    }
}

/// The data section of `globals`: nothing where there is no global, else
/// the line that opens the section, the globals, and an empty line.
pub open spec fn data_text(globals: Seq<Var>) -> Seq<char> {
    if globals.len() == 0 {
        Seq::empty()
    } else {
        "section .data\n"@ + section_text(globals) + "\n"@
    }
}

/// The text of one global more is the text so far and its two lines.
proof fn lemma_section_step(globals: Seq<Var>, k: int)
    requires
        0 <= k < globals.len(),
    ensures
        section_text(globals.take(k + 1)) == section_text(globals.take(k)) + symbol_line(
            globals[k],
        ) + "\n"@ + directive_line(globals[k]) + "\n"@,
{
    let next = globals.take(k + 1);
    assert(next.drop_last() =~= globals.take(k));
    assert(next.last() == globals[k]);
}

/// The text of the first `k` globals is where the text of all begins.
proof fn lemma_section_prefix(globals: Seq<Var>, k: int)
    requires
        0 <= k <= globals.len(),
    ensures
        section_text(globals.take(k)).len() <= section_text(globals).len(),
        section_text(globals).subrange(0, section_text(globals.take(k)).len() as int)
            == section_text(globals.take(k)),
    decreases globals.len() - k,
{
    if k < globals.len() {
        lemma_section_prefix(globals, k + 1);
        lemma_section_step(globals, k);
        let whole = section_text(globals);
        let more = section_text(globals.take(k + 1));
        let less = section_text(globals.take(k));
        assert(more.subrange(0, less.len() as int) =~= less);
        assert(whole.subrange(0, less.len() as int) =~= whole.subrange(
            0,
            more.len() as int,
        ).subrange(0, less.len() as int));
    } else {
        assert(globals.take(k) =~= globals);
        assert(section_text(globals).subrange(0, section_text(globals).len() as int)
            =~= section_text(globals));
    }
}

/// What stands in a text that begins with the globals `globals` and an
/// empty line, behind the first `k` of them: the empty line if they are
/// all, else the two lines of the next global.
proof fn lemma_section_at(globals: Seq<Var>, s: Seq<char>, rest: Seq<char>, k: int)
    requires
        all_defined(globals),
        s == section_text(globals) + "\n"@ + rest,
        0 <= k <= globals.len(),
    ensures
        ({
            let p = section_text(globals.take(k)).len() as int;
            &&& p < s.len()
            &&& k == globals.len() ==> s[p] == '\n'
            &&& k < globals.len() ==> {
                let a = symbol_line(globals[k]);
                let d = directive_line(globals[k]);
                &&& a.len() >= 1
                &&& lacks(a, '\n')
                &&& lacks(d, '\n')
                &&& p + a.len() + d.len() + 2 < s.len()
                &&& s.subrange(p, p + a.len()) == a
                &&& s[p + a.len()] == '\n'
                &&& s.subrange(p + a.len() + 1, p + a.len() + 1 + d.len()) == d
                &&& s[p + a.len() + 1 + d.len()] == '\n'
                &&& section_text(globals.take(k + 1)).len() == p + a.len() + d.len() + 2
            }
        }),
{
    reveal_strlit("\n");
    reveal_strlit(":");
    let whole = section_text(globals);
    let less = section_text(globals.take(k));
    let p = less.len() as int;
    lemma_section_prefix(globals, k);
    assert(s[whole.len() as int] == '\n');
    if k == globals.len() {
        assert(globals.take(k) =~= globals);
    } else {
        let v = globals[k];
        let a = symbol_line(v);
        let d = directive_line(v);
        assert(is_defined_global(v));
        match v.scope {
            Scope::Global(data, len, _) => {
                lemma_directive_one_line(data@, len);
            },
            Scope::Local(_, _) => {},
        }
        assert forall|i: int| 0 <= i < a.len() implies #[trigger] a[i] != '\n' by {
            if i < v.name@.len() {
                assert(a[i] == v.name@[i]);
            }
        }
        lemma_section_step(globals, k);
        lemma_section_prefix(globals, k + 1);
        let more = section_text(globals.take(k + 1));
        assert(more =~= less + a + "\n"@ + d + "\n"@);
        assert(more.len() == p + a.len() + d.len() + 2);
        assert forall|i: int| 0 <= i < more.len() implies s[i] == more[i] by {
            assert(whole.subrange(0, more.len() as int)[i] == whole[i]);
            assert(s[i] == whole[i]);
        }
        assert(s.subrange(p, p + a.len()) =~= a) by {
            assert forall|i: int| 0 <= i < a.len() implies s[p + i] == a[i] by {
                assert(more[p + i] == a[i]);
            }
        }
        assert(s[p + a.len()] == more[p + a.len()]);
        assert(s.subrange(p + a.len() + 1, p + a.len() + 1 + d.len()) =~= d) by {
            assert forall|i: int| 0 <= i < d.len() implies s[p + a.len() + 1 + i] == d[i] by {
                assert(more[p + a.len() + 1 + i] == d[i]);
            }
        }
        assert(s[p + a.len() + 1 + d.len()] == more[p + a.len() + 1 + d.len()]);
    }
}

/// Whether the text `s` begins with the globals `other` and an empty
/// line, and goes on with `rest`.
pub open spec fn begins_with_section(s: Seq<char>, other: Seq<Var>, rest: Seq<char>) -> bool {
    &&& all_defined(other)
    &&& other.len() > 0
    &&& s == section_text(other) + "\n"@ + rest
}

/// Whether the reader has come as far in every section that `s` begins
/// with as the `k` globals that it has read, which take `done` characters.
pub open spec fn section_so_far(s: Seq<char>, k: int, done: int) -> bool {
    forall|other: Seq<Var>, rest: Seq<char>| #[trigger]
        begins_with_section(s, other, rest) ==> k <= other.len() && done == section_text(
            other.take(k),
        ).len()
}

/// The globals of the data section that `text[start..]` begins with, and
/// where the text goes on behind the empty line that ends the section.
pub fn read_section(text: &[char], start: usize) -> (r: Option<(Vec<Var>, usize)>)
    requires
        start <= text.len(),
    ensures
        match r {
            Some((globals, pos)) => {
                &&& globals.len() > 0
                &&& all_defined(globals@)
                &&& start <= pos <= text.len()
                &&& text@.subrange(start as int, pos as int) == section_text(globals@) + "\n"@
            },
            None => true,
        },
        forall|other: Seq<Var>, rest: Seq<char>| #[trigger]
            begins_with_section(text@.skip(start as int), other, rest) ==> (r matches Some(found)
                && found.1 == start + section_text(other).len() + 1),
{
    let ghost s = text@.skip(start as int);
    let end = text.len();
    let mut globals: Vec<Var> = Vec::new();
    let mut pos: usize = start;
    proof {
        reveal_strlit("\n");
        assert(text@.subrange(start as int, pos as int) =~= section_text(globals@));
        assert forall|other: Seq<Var>, rest: Seq<char>| #[trigger]
            begins_with_section(s, other, rest) implies 0 <= other.len() && 0 == section_text(
            other.take(0),
        ).len() by {
            assert(other.take(0) =~= Seq::<Var>::empty());
        }
    }
    loop
        invariant
            start <= pos <= end == text.len(),
            s == text@.skip(start as int),
            all_defined(globals@),
            text@.subrange(start as int, pos as int) == section_text(globals@),
            section_so_far(s, globals.len() as int, pos - start),
        decreases end - pos,
    {
        let ghost k = globals.len() as int;
        let nl = find_char(text, pos, end, '\n');
        proof {
            reveal_strlit("\n");
            assert forall|other: Seq<Var>, rest: Seq<char>| #[trigger]
                begins_with_section(s, other, rest) implies {
                let a = symbol_line(other[k]);
                &&& nl < end
                &&& k == other.len() ==> nl == pos
                &&& k < other.len() ==> nl == pos + a.len() && nl > pos && text@.subrange(
                    pos as int,
                    nl as int,
                ) == a
            } by {
                lemma_section_at(other, s, rest, k);
                let p = pos - start;
                if k == other.len() {
                    assert(s[p] == text@[pos as int]);
                } else {
                    let a = symbol_line(other[k]);
                    assert(s[p + a.len()] == text@[pos + a.len()]);
                    if nl < pos + a.len() {
                        assert(s.subrange(p, p + a.len())[nl - pos] == s[nl - start]);
                        assert(s[nl - start] == text@[nl as int]);
                    }
                    assert(s.subrange(p, p + a.len()) =~= text@.subrange(
                        pos as int,
                        pos + a.len(),
                    ));
                }
            }
        }
        if nl >= end {
            return None;
        }
        if nl == pos {
            if globals.len() == 0 {
                return None;
            }
            proof {
                assert(text@.subrange(start as int, pos + 1) =~= section_text(globals@) + "\n"@);
                assert forall|other: Seq<Var>, rest: Seq<char>| #[trigger]
                    begins_with_section(s, other, rest) implies pos + 1 == start + section_text(
                    other,
                ).len() + 1 by {
                    assert(other.take(k) =~= other);
                }
            }
            return Some((globals, pos + 1));
        }
        let line = slice_subrange(text, pos, nl);
        let name = match read_symbol(line) {
            Some(name) => name,
            None => {
                return None;
            },
        };
        let from = nl + 1;
        let nl2 = find_char(text, from, end, '\n');
        proof {
            assert forall|other: Seq<Var>, rest: Seq<char>| #[trigger]
                begins_with_section(s, other, rest) implies {
                let d = directive_line(other[k]);
                &&& k < other.len()
                &&& nl2 < end
                &&& nl2 == from + d.len()
                &&& text@.subrange(from as int, nl2 as int) == d
                &&& nl2 + 1 - start == section_text(other.take(k + 1)).len()
            } by {
                lemma_section_at(other, s, rest, k);
                let p = pos - start;
                let a = symbol_line(other[k]);
                let d = directive_line(other[k]);
                let q = p + a.len() + 1;
                assert(s[q + d.len()] == text@[from + d.len()]);
                if nl2 < from + d.len() {
                    assert(s.subrange(q, q + d.len())[nl2 - from] == s[nl2 - start]);
                    assert(s[nl2 - start] == text@[nl2 as int]);
                }
                assert(s.subrange(q, q + d.len()) =~= text@.subrange(
                    from as int,
                    from + d.len(),
                ));
            }
        }
        if nl2 >= end {
            return None;
        }
        let line2 = slice_subrange(text, from, nl2);
        let (data, len) = match read_directive(line2) {
            Some(found) => found,
            None => {
                proof {
                    assert forall|other: Seq<Var>, rest: Seq<char>| #[trigger]
                        begins_with_section(s, other, rest) implies false by {
                        let v = other[k];
                        assert(is_defined_global(v));
                        match v.scope {
                            Scope::Global(d, l, _) => {
                                assert(directive_line(v) == data_directive(d@, l));
                            },
                            Scope::Local(_, _) => {},
                        }
                    }
                }
                return None;
            },
        };
        let ghost before = globals@;
        let v = Var { name, scope: Scope::Global(data, len, false) };
        globals.push(v);
        proof {
            reveal_strlit(":");
            let now = globals@;
            assert(now.drop_last() =~= before);
            assert(line@ == v.name@ + ":"@);
            assert(line@.len() == v.name@.len() + 1);
            assert(line@.len() == nl - pos);
            assert forall|i: int| 0 <= i < v.name@.len() implies #[trigger] v.name@[i]
                != '\n' by {
                assert((v.name@ + ":"@)[i] == v.name@[i]);
                assert(line@[i] == text@[pos + i]);
            }
            assert forall|i: int| 0 <= i < now.len() implies is_defined_global(
                #[trigger] now[i],
            ) by {
                if i < before.len() {
                    assert(now[i] == before[i]);
                }
            }
            assert(text@.subrange(start as int, nl2 + 1) =~= text@.subrange(
                start as int,
                pos as int,
            ) + line@ + "\n"@ + line2@ + "\n"@);
            assert(section_text(now) == section_text(before) + symbol_line(v) + "\n"@
                + directive_line(v) + "\n"@);
        }
        pos = nl2 + 1;
    }
}


/// The printed form of functions does not begin like a data section.
proof fn lemma_dump_start(fns: Seq<FunctionView>)
    requires
        readable(fns),
        dump_text(fns).len() >= 14,
    ensures
        dump_text(fns).subrange(0, 14) != "section .data\n"@,
{
    reveal_strlit("section .data\n");
    reveal_strlit("(): \n");
    let t = dump_text(fns);
    let name = fns[0].name;
    assert(is_name(name));
    lemma_first_header(fns);
    let h = name + "(): \n"@;
    assert(t.subrange(0, h.len() as int) == h);
    let w = "section .data\n"@;
    if t.subrange(0, 14) == w {
        if name.len() <= 13 {
            assert(t[name.len() as int] == h[name.len() as int]);
            assert(h[name.len() as int] == '(');
            assert(t[name.len() as int] == t.subrange(0, 14)[name.len() as int]);
        } else {
            assert(t[7] == h[7]);
            assert(h[7] == name[7]);
            assert(t[7] == t.subrange(0, 14)[7]);
        }
    }
}

/// The printed form of functions begins with the header of the first.
proof fn lemma_first_header(fns: Seq<FunctionView>)
    requires
        fns.len() > 0,
    ensures
        dump_text(fns).len() >= (fns[0].name + "(): \n"@).len(),
        dump_text(fns).subrange(0, (fns[0].name + "(): \n"@).len() as int) == fns[0].name
            + "(): \n"@,
    decreases fns.len(),
{
    let h = fns[0].name + "(): \n"@;
    let f = fns.last();
    if fns.len() == 1 {
        assert(fns.drop_last() =~= Seq::<FunctionView>::empty());
        assert(dump_text(fns.drop_last()) =~= Seq::<char>::empty());
        assert(dump_text(fns) =~= h + body_text(f.ir));
        assert(dump_text(fns).subrange(0, h.len() as int) =~= h);
    } else {
        let front = fns.drop_last();
        lemma_first_header(front);
        assert(front[0] == fns[0]);
        assert(dump_text(fns) == dump_text(front) + function_text(f));
        assert(dump_text(fns).subrange(0, h.len() as int) =~= dump_text(front).subrange(
            0,
            h.len() as int,
        ));
    }
}

/// The data section that the generator writes for globals that are all
/// defined here is the one that the reader reads.
pub proof fn lemma_data_section(globals: Seq<Var>)
    requires
        all_defined(globals),
    ensures
        render(globals_lines(globals)) == section_text(globals),
        render(data_lines(globals)) == data_text(globals),
        globals.len() > 0 ==> globals_lines(globals).len() > 0,
    decreases globals.len(),
{
    reveal_strlit("section .data\n");
    reveal_strlit("section .data");
    reveal_strlit("\n");
    reveal_strlit(":\n");
    reveal_strlit(":");
    reveal_strlit("");
    if globals.len() > 0 {
        let front = globals.drop_last();
        let v = globals.last();
        assert(all_defined(front)) by {
            assert forall|i: int| 0 <= i < front.len() implies is_defined_global(
                #[trigger] front[i],
            ) by {
                assert(front[i] == globals[i]);
            }
        }
        lemma_data_section(front);
        assert(is_defined_global(globals[globals.len() - 1]));
        let label = AsmLine::Label(v.name@);
        let plain = AsmLine::Plain(directive_line(v));
        assert(global_lines(v) == one(label) + one(plain));
        lemma_render_one(label);
        lemma_render_one(plain);
        lemma_render_concat(one(label), one(plain));
        lemma_render_concat(globals_lines(front), global_lines(v));
        assert(":\n"@ =~= ":"@ + "\n"@);
        assert(render(global_lines(v)) =~= symbol_line(v) + "\n"@ + directive_line(v) + "\n"@);
        assert(render(globals_lines(globals)) =~= section_text(globals));
        let open = AsmLine::Plain("section .data"@);
        let close = AsmLine::Plain(""@);
        lemma_render_one(open);
        lemma_render_one(close);
        lemma_render_concat(one(open), globals_lines(globals));
        lemma_render_concat(one(open) + globals_lines(globals), one(close));
        assert("section .data\n"@ =~= "section .data"@ + "\n"@);
        assert(render(data_lines(globals)) =~= data_text(globals));
    } else {
        assert(globals_lines(globals) =~= Seq::<AsmLine>::empty());
    }
}

/// The text of a program: its data section, then the printed form of its
/// functions.
pub open spec fn program_text(globals: Seq<Var>, fns: Seq<FunctionView>) -> Seq<char> {
    data_text(globals) + dump_text(fns)
}

/// The globals and the functions of the program whose text is `text`: a
/// data section as the generator writes it, or none, and then the printed
/// form of the functions.
pub fn read_program(text: &[char]) -> (r: Option<(Vec<Var>, Vec<Function>)>)
    ensures
        match r {
            Some((globals, fns)) => {
                &&& all_defined(globals@)
                &&& readable(views(fns@))
                &&& all_normal(views(fns@))
                &&& program_text(globals@, views(fns@)) == text@
            },
            None => forall|globals: Seq<Var>, fns: Seq<FunctionView>|
                all_defined(globals) && readable(fns) ==> #[trigger] program_text(globals, fns)
                    != text@,
        },
{
    proof {
        reveal_strlit("section .data\n");
        reveal_strlit("\n");
    }
    let end = text.len();
    if has_word(text, 0, "section .data\n") {
        proof {
            assert forall|globals: Seq<Var>, fns: Seq<FunctionView>|
                all_defined(globals) && readable(fns) && #[trigger] program_text(globals, fns)
                    == text@ implies begins_with_section(text@.skip(14), globals, dump_text(fns)) by {
                if globals.len() == 0 {
                    assert(program_text(globals, fns) =~= dump_text(fns));
                    lemma_dump_start(fns);
                }
                assert(text@.skip(14) =~= section_text(globals) + "\n"@ + dump_text(fns));
            }
        }
        let (globals, pos) = match read_section(text, 14) {
            Some(found) => found,
            None => {
                return None;
            },
        };
        let rest = slice_subrange(text, pos, end);
        proof {
            assert(text@ =~= "section .data\n"@ + (section_text(globals@) + "\n"@) + rest@);
            assert forall|other: Seq<Var>, fns: Seq<FunctionView>|
                all_defined(other) && readable(fns) && #[trigger] program_text(other, fns)
                    == text@ implies dump_text(fns) == rest@ by {
                assert(begins_with_section(text@.skip(14), other, dump_text(fns)));
                let head = section_text(other) + "\n"@;
                assert(pos == 14 + head.len());
                assert(text@.skip(14) == head + dump_text(fns));
                assert((head + dump_text(fns)).skip(head.len() as int) =~= dump_text(fns));
                assert(text@.skip(14).skip(head.len() as int) =~= rest@);
            }
        }
        match read_dump(rest) {
            Some(fns) => {
                assert(program_text(globals@, views(fns@)) =~= text@);
                Some((globals, fns))
            },
            None => None,
        }
    } else {
        proof {
            assert forall|globals: Seq<Var>, fns: Seq<FunctionView>|
                all_defined(globals) && readable(fns) && #[trigger] program_text(globals, fns)
                    == text@ implies dump_text(fns) == text@ by {
                if globals.len() > 0 {
                    let t = program_text(globals, fns);
                    assert(t =~= "section .data\n"@ + (section_text(globals) + "\n"@ + dump_text(
                        fns,
                    )));
                    assert(t.subrange(0, 14) =~= "section .data\n"@);
                } else {
                    assert(program_text(globals, fns) =~= dump_text(fns));
                }
            }
        }
        match read_dump(text) {
            Some(fns) => {
                let globals: Vec<Var> = Vec::new();
                assert(program_text(globals@, views(fns@)) =~= text@);
                Some((globals, fns))
            },
            None => None,
        }
    }
}

} // verus!
