//! Reading numbers and fixed words from a line of characters.  Each reader
//! is the inverse of a printer: it yields the value whose printed form the
//! characters are, and nothing where they are no printed form.

use vstd::prelude::*;
use crate::text::{decimal, digit_char, imm32, is_digit, lemma_decimal_digits, signed_decimal};

verus! {

/// The value of a decimal digit.
pub open spec fn digit_value(c: char) -> nat {
    if c == '1' {
        1
    } else if c == '2' {
        2
    } else if c == '3' {
        3
    } else if c == '4' {
        4
    } else if c == '5' {
        5
    } else if c == '6' {
        6
    } else if c == '7' {
        7
    } else if c == '8' {
        8
    } else if c == '9' {
        9
    } else {
        0
    }
}

/// The number that the digits `s` denote.
pub open spec fn digits_value(s: Seq<char>) -> nat
    decreases s.len(),
{
    if s.len() == 0 {
        0
    } else {
        digits_value(s.drop_last()) * 10 + digit_value(s.last())
    }
}

/// Whether `s` is the decimal notation of a number: digits only, at least
/// one, and no zero before another digit.
pub open spec fn is_decimal(s: Seq<char>) -> bool {
    &&& s.len() >= 1
    &&& forall|i: int| 0 <= i < s.len() ==> is_digit(#[trigger] s[i])
    &&& s.len() > 1 ==> s[0] != '0'
}

/// A decimal notation denotes the number that it is the notation of.
pub proof fn lemma_decimal_value(n: nat)
    ensures
        is_decimal(decimal(n)),
        digits_value(decimal(n)) == n,
        n >= 10 ==> decimal(n).len() >= 2,
        n > 0 ==> decimal(n)[0] != '0',
    decreases n,
{
    lemma_decimal_digits(n);
    if n >= 10 {
        lemma_decimal_value(n / 10);
        lemma_decimal_digits(n / 10);
        let front = decimal(n / 10);
        assert(decimal(n).drop_last() =~= front);
        assert(decimal(n).last() == digit_char((n % 10) as int));
        assert(decimal(n)[0] == front[0]);
    } else {
        assert(decimal(n).drop_last() =~= Seq::<char>::empty());
        assert(digits_value(decimal(n).drop_last()) == 0);
    }
}

/// A sequence of digits without a leading zero is the decimal notation of
/// the number that it denotes.
pub proof fn lemma_value_decimal(s: Seq<char>)
    requires
        is_decimal(s),
    ensures
        decimal(digits_value(s)) == s,
        s.len() > 1 ==> digits_value(s) >= 10,
        s[0] != '0' ==> digits_value(s) > 0,
    decreases s.len(),
{
    let d = digit_value(s.last());
    assert(is_digit(s.last()));
    assert(digit_char(d as int) == s.last());
    if s.len() == 1 {
        assert(s.drop_last() =~= Seq::<char>::empty());
        assert(digits_value(s.drop_last()) == 0);
        assert(decimal(d) =~= s);
    } else {
        let front = s.drop_last();
        assert forall|i: int| 0 <= i < front.len() implies is_digit(#[trigger] front[i]) by {
            assert(front[i] == s[i]);
        }
        assert(front[0] == s[0]);
        lemma_value_decimal(front);
        let v = digits_value(front);
        assert(v > 0);
        let n = v * 10 + d;
        assert(n / 10 == v && n % 10 == d);
        assert(decimal(n) =~= s);
    }
}

/// The value of the digit `c`, if it is one.
pub fn digit_of(c: char) -> (r: Option<u8>)
    ensures
        r is Some == is_digit(c),
        r is Some ==> r->0 == digit_value(c) && r->0 < 10 && digit_char(r->0 as int) == c,
{
    if c == '0' {
        Some(0)
    } else if c == '1' {
        Some(1)
    } else if c == '2' {
        Some(2)
    } else if c == '3' {
        Some(3)
    } else if c == '4' {
        Some(4)
    } else if c == '5' {
        Some(5)
    } else if c == '6' {
        Some(6)
    } else if c == '7' {
        Some(7)
    } else if c == '8' {
        Some(8)
    } else if c == '9' {
        Some(9)
    } else {
        None
    }
}

proof fn lemma_digits_value_grows(s: Seq<char>, n: int)
    requires
        0 <= n <= s.len(),
    ensures
        digits_value(s.take(n)) <= digits_value(s),
    decreases s.len() - n,
{
    if n < s.len() {
        lemma_digits_value_grows(s, n + 1);
        assert(s.take(n + 1).drop_last() =~= s.take(n));
    } else {
        assert(s.take(n) =~= s);
    }
}

/// The number up to `limit` whose decimal notation is `text[from..to]`.
pub fn read_number(text: &[char], from: usize, to: usize, limit: usize) -> (r: Option<usize>)
    requires
        from <= to <= text.len(),
    ensures
        match r {
            Some(n) => n <= limit && decimal(n as nat) == text@.subrange(from as int, to as int),
            None => forall|n: nat|
                n <= limit ==> #[trigger] decimal(n) != text@.subrange(from as int, to as int),
        },
{
    let ghost s = text@.subrange(from as int, to as int);
    if from == to {
        assert forall|n: nat| #[trigger] decimal(n) != s by {
            lemma_decimal_digits(n);
        }
        return None;
    }
    if to - from > 1 && text[from] == '0' {
        assert forall|n: nat| #[trigger] decimal(n) != s by {
            lemma_decimal_value(n);
            if decimal(n) == s {
                assert(s[0] == '0');
                assert(n >= 10 || decimal(n).len() == 1);
            }
        }
        return None;
    }
    let mut value: usize = 0;
    let mut i: usize = from;
    assert(s.take(0) =~= Seq::<char>::empty());
    while i < to
        invariant
            from <= i <= to <= text.len(),
            s == text@.subrange(from as int, to as int),
            forall|j: int| 0 <= j < i - from ==> is_digit(#[trigger] s[j]),
            value == digits_value(s.take(i - from)),
            value <= limit,
        decreases to - i,
    {
        let ghost seen = s.take(i - from);
        let ghost more = s.take(i - from + 1);
        proof {
            assert(more.drop_last() =~= seen);
            assert(more.last() == s[i - from]);
            assert(s[i - from] == text@[i as int]);
        }
        match digit_of(text[i]) {
            None => {
                assert forall|n: nat| #[trigger] decimal(n) != s by {
                    lemma_decimal_digits(n);
                    if decimal(n) == s {
                        assert(is_digit(decimal(n)[i - from]));
                    }
                }
                return None;
            },
            Some(d) => {
                if limit < d as usize || value > (limit - d as usize) / 10 {
                    proof {
                        assert(digits_value(more) > limit) by (nonlinear_arith)
                            requires
                                digits_value(more) == value * 10 + d,
                                value > (limit - d) / 10 || limit < d,
                                0 <= d < 10,
                                0 <= value,
                                0 <= limit,
                        ;
                        lemma_digits_value_grows(s, i - from + 1);
                        assert forall|n: nat| n <= limit implies #[trigger] decimal(n) != s by {
                            lemma_decimal_value(n);
                        }
                    }
                    return None;
                }
                assert(value * 10 + d <= limit) by (nonlinear_arith)
                    requires
                        value <= (limit - d) / 10,
                        d <= limit,
                        0 <= d < 10,
                ;
                value = value * 10 + d as usize;
            },
        }
        i += 1;
    }
    proof {
        assert(s.take(i - from) =~= s);
        lemma_value_decimal(s);
    }
    Some(value)
}


/// The operand that holds the immediate `v`: `v` itself, or for a
/// negative `v` the number that differs from it by the range of an
/// operand.
pub open spec fn imm_operand(v: int) -> int {
    if v >= 0 {
        v
    } else {
        usize::MAX + 1 + v
    }
}

/// Whether `x` holds an immediate in the one way in which the reader
/// yields it: as the operand of its signed low 32 bits.
pub open spec fn is_imm_operand(x: usize) -> bool {
    x == imm_operand(imm32(x as int))
}

/// The operand of an immediate of 32 bits stands for that immediate.
pub proof fn lemma_imm_operand(v: int)
    requires
        -0x8000_0000 <= v < 0x8000_0000,
    ensures
        0 <= imm_operand(v) <= usize::MAX,
        imm32(imm_operand(v)) == v,
{
    assert(usize::MAX == 0xffff_ffff || usize::MAX == 0xffff_ffff_ffff_ffff);
}

/// The immediate of an operand has 32 bits.
pub proof fn lemma_imm32_range(x: int)
    ensures
        -0x8000_0000 <= imm32(x) < 0x8000_0000,
{
}

/// Whether `c` does not occur in `s`.
pub open spec fn lacks(s: Seq<char>, c: char) -> bool {
    forall|i: int| 0 <= i < s.len() ==> #[trigger] s[i] != c
}

/// The printed form of an immediate is not empty, and holds the minus sign
/// and digits only.
pub proof fn lemma_signed_decimal_chars(v: int)
    ensures
        signed_decimal(v).len() >= 1,
        forall|i: int|
            0 <= i < signed_decimal(v).len() ==> is_digit(#[trigger] signed_decimal(v)[i])
                || signed_decimal(v)[i] == '-',
        v >= 0 ==> is_digit(signed_decimal(v)[0]),
        v < 0 ==> signed_decimal(v)[0] == '-',
{
    if v < 0 {
        lemma_decimal_digits((-v) as nat);
    } else {
        lemma_decimal_digits(v as nat);
    }
}

/// The operand whose immediate has the printed form `text[from..to]`.
pub fn read_imm(text: &[char], from: usize, to: usize) -> (r: Option<usize>)
    requires
        from <= to <= text.len(),
    ensures
        match r {
            Some(x) => is_imm_operand(x) && signed_decimal(imm32(x as int)) == text@.subrange(
                from as int,
                to as int,
            ),
            None => forall|x: usize| #[trigger]
                signed_decimal(imm32(x as int)) != text@.subrange(from as int, to as int),
        },
{
    let ghost s = text@.subrange(from as int, to as int);
    if from < to && text[from] == '-' {
        let ghost rest = text@.subrange(from + 1, to as int);
        assert(rest =~= s.skip(1));
        match read_number(text, from + 1, to, 0x8000_0000) {
            Some(m) => {
                if m == 0 {
                    assert forall|x: usize| #[trigger] signed_decimal(imm32(x as int)) != s by {
                        let v = imm32(x as int);
                        lemma_signed_decimal_chars(v);
                        if signed_decimal(v) == s {
                            assert(v < 0);
                            assert(signed_decimal(v).skip(1) =~= decimal((-v) as nat));
                            crate::text::lemma_decimal_injective((-v) as nat, 0);
                        }
                    }
                    None
                } else {
                    proof {
                        lemma_imm_operand(-(m as int));
                        assert(signed_decimal(-(m as int)) =~= s);
                    }
                    Some(usize::MAX - (m - 1))
                }
            },
            None => {
                assert forall|x: usize| #[trigger] signed_decimal(imm32(x as int)) != s by {
                    let v = imm32(x as int);
                    lemma_imm32_range(x as int);
                    lemma_signed_decimal_chars(v);
                    if signed_decimal(v) == s {
                        assert(v < 0);
                        assert(signed_decimal(v).skip(1) =~= decimal((-v) as nat));
                        assert(decimal((-v) as nat) != rest);
                    }
                }
                None
            },
        }
    } else {
        match read_number(text, from, to, 0x7fff_ffff) {
            Some(m) => {
                proof {
                    lemma_imm_operand(m as int);
                }
                Some(m)
            },
            None => {
                assert forall|x: usize| #[trigger] signed_decimal(imm32(x as int)) != s by {
                    let v = imm32(x as int);
                    lemma_imm32_range(x as int);
                    lemma_signed_decimal_chars(v);
                    if signed_decimal(v) == s {
                        assert(s[0] == text@[from as int]);
                        assert(v >= 0);
                        assert(decimal(v as nat) != s);
                    }
                }
                None
            },
        }
    }
}

/// Whether `word` stands in `text` from `at` on.
pub fn has_word(text: &[char], at: usize, word: &str) -> (b: bool)
    requires
        at <= text.len(),
    ensures
        b == (at + word@.len() <= text.len() && text@.subrange(
            at as int,
            at + word@.len(),
        ) == word@),
{
    let n = word.unicode_len();
    if n > text.len() - at {
        return false;
    }
    let mut i: usize = 0;
    while i < n
        invariant
            i <= n,
            n == word@.len(),
            at + n <= text.len(),
            forall|j: int| 0 <= j < i ==> text@[at + j] == word@[j],
        decreases n - i,
    {
        if text[at + i] != word.get_char(i) {
            assert(text@.subrange(at as int, at + n)[i as int] != word@[i as int]);
            return false;
        }
        i += 1;
    }
    assert(text@.subrange(at as int, at + n) =~= word@);
    true
}

/// The first place from `from` on and before `to` at which `c` stands;
/// `to` if there is none.
pub fn find_char(text: &[char], from: usize, to: usize, c: char) -> (at: usize)
    requires
        from <= to <= text.len(),
    ensures
        from <= at <= to,
        at < to ==> text@[at as int] == c,
        forall|i: int| from <= i < at ==> text@[i] != c,
{
    let mut at: usize = from;
    while at < to
        invariant
            from <= at <= to <= text.len(),
            forall|i: int| from <= i < at ==> text@[i] != c,
        decreases to - at,
    {
        if text[at] == c {
            return at;
        }
        at += 1;
    }
    at
}

} // verus!
