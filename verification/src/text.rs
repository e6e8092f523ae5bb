//! Decimal digits in text: reading fixed-width digit fields and writing
//! numbers.

use vstd::prelude::*;
use vstd::string::*;

verus! {

/// Whether `c` is one of the ten ASCII digits.
pub open spec fn is_digit(c: char) -> bool {
    '0' <= c <= '9'
}

/// The number that the digit `c` stands for.
pub open spec fn digit_value(c: char) -> int {
    c as int - '0' as int
}

/// The digit that stands for `d`, for `d` below ten.
pub open spec fn digit_char(d: int) -> char {
    ('0' as int + d) as char
}

/// Whether every character of `s` is a digit.
pub open spec fn all_digits(s: Seq<char>) -> bool {
    forall|i: int| 0 <= i < s.len() ==> is_digit(#[trigger] s[i])
}

/// The number written by the digits `s`, most significant digit first.
/// The empty sequence writes zero.
pub open spec fn decimal_value(s: Seq<char>) -> int
    decreases s.len(),
{
    if s.len() == 0 {
        0
    } else {
        decimal_value(s.drop_last()) * 10 + digit_value(s.last())
    }
}

/// `n` written with exactly `width` digits, keeping the low digits and
/// filling with zeros on the left.
pub open spec fn fixed_digits(n: nat, width: nat) -> Seq<char>
    decreases width,
{
    if width == 0 {
        Seq::empty()
    } else {
        fixed_digits(n / 10, (width - 1) as nat).push(digit_char((n % 10) as int))
    }
}

/// `n` in decimal with at least `width` digits, filled with zeros on the
/// left where it has fewer.
pub open spec fn padded_digits(n: nat, width: nat) -> Seq<char>
    decreases n + width,
{
    if n < 10 && width <= 1 {
        seq![digit_char(n as int)]
    } else {
        padded_digits(
            n / 10,
            if width > 0 {
                (width - 1) as nat
            } else {
                0
            },
        ).push(digit_char((n % 10) as int))
    }
}

/// `10` to the power `width`.
pub open spec fn pow10(width: nat) -> nat
    decreases width,
{
    if width == 0 {
        1
    } else {
        10 * pow10((width - 1) as nat)
    }
}

/// `v` in decimal with at least `width` digits, and a minus sign in front
/// of a negative number.
pub open spec fn signed_digits(v: int, width: nat) -> Seq<char> {
    if v < 0 {
        seq!['-'] + padded_digits((-v) as nat, width)
    } else {
        padded_digits(v as nat, width)
    }
}

/// The text of the digit `d`.
fn digit_str(d: u64) -> (r: &'static str)
    requires
        d < 10,
    ensures
        r@ == seq![digit_char(d as int)],
{
    proof {
        reveal_strlit("0");
        reveal_strlit("1");
        reveal_strlit("2");
        reveal_strlit("3");
        reveal_strlit("4");
        reveal_strlit("5");
        reveal_strlit("6");
        reveal_strlit("7");
        reveal_strlit("8");
        reveal_strlit("9");
    }
    let r = match d {
        0 => "0",
        1 => "1",
        2 => "2",
        3 => "3",
        4 => "4",
        5 => "5",
        6 => "6",
        7 => "7",
        8 => "8",
        _ => "9",
    };
    assert(r@ =~= seq![digit_char(d as int)]);
    r
}

/// Appends `n` in decimal with at least `width` digits.
pub fn push_padded(out: &mut String, n: u64, width: u32)
    ensures
        final(out)@ == old(out)@ + padded_digits(n as nat, width as nat),
    decreases n + width,
{
    if n >= 10 || width > 1 {
        let narrower: u32 = if width > 0 {
            width - 1
        } else {
            0
        };
        push_padded(out, n / 10, narrower);
    }
    let ghost before = out@;
    out.append(digit_str(n % 10));
    assert(before + seq![digit_char((n % 10) as int)] =~= before.push(
        digit_char((n % 10) as int),
    ));
    assert(old(out)@ + padded_digits(n as nat, width as nat) =~= out@);
}

/// Appends `v` in decimal with at least `width` digits, and a minus sign
/// in front of a negative number.
pub fn push_signed(out: &mut String, v: i64, width: u32)
    ensures
        final(out)@ == old(out)@ + signed_digits(v as int, width as nat),
{
    if v < 0 {
        proof {
            reveal_strlit("-");
        }
        out.append("-");
        let magnitude: u64 = (-(v as i128)) as u64;
        push_padded(out, magnitude, width);
        assert(old(out)@ + signed_digits(v as int, width as nat) =~= out@);
    } else {
        push_padded(out, v as u64, width);
    }
}

/// A fixed-width writing has the width asked for and holds digits only.
pub proof fn lemma_fixed_digits_shape(n: nat, width: nat)
    ensures
        fixed_digits(n, width).len() == width,
        all_digits(fixed_digits(n, width)),
    decreases width,
{
    if width > 0 {
        lemma_fixed_digits_shape(n / 10, (width - 1) as nat);
    }
}

/// Reading a fixed-width writing gives the number back, as long as the
/// number fits the width.
pub proof fn lemma_fixed_digits_value(n: nat, width: nat)
    requires
        n < pow10(width),
    ensures
        decimal_value(fixed_digits(n, width)) == n,
    decreases width,
{
    if width > 0 {
        let head = fixed_digits(n / 10, (width - 1) as nat);
        let low = digit_char((n % 10) as int);
        assert(n / 10 < pow10((width - 1) as nat));
        lemma_fixed_digits_value(n / 10, (width - 1) as nat);
        assert(head.push(low).drop_last() =~= head);
        assert(head.push(low).last() == low);
        assert(digit_value(low) == n % 10);
    }
}

/// The number written in the digit field `s[from..to]`, or nothing where
/// the field holds anything but digits.
pub open spec fn number_at(s: Seq<char>, from: int, to: int) -> Option<int> {
    if all_digits(s.subrange(from, to)) {
        Some(decimal_value(s.subrange(from, to)))
    } else {
        None
    }
}

/// The number written by digits is not negative and has no more digits
/// than were written.
pub proof fn lemma_decimal_value_bound(s: Seq<char>)
    requires
        all_digits(s),
    ensures
        0 <= decimal_value(s) < pow10(s.len()),
    decreases s.len(),
{
    if s.len() > 0 {
        assert(is_digit(s[s.len() - 1]));
        assert forall|i: int| 0 <= i < s.drop_last().len() implies is_digit(
            #[trigger] s.drop_last()[i],
        ) by {
            assert(is_digit(s[i]));
        }
        lemma_decimal_value_bound(s.drop_last());
    }
}

/// Reads the digit field `text[from..to]`: its value when every character
/// is a digit, nothing otherwise.
pub fn parse_digits(text: &str, from: usize, to: usize) -> (r: Option<u32>)
    requires
        from <= to <= text@.len(),
        to - from <= 9,
    ensures
        match r {
            Some(v) => number_at(text@, from as int, to as int) == Some(v as int) && v < pow10(
                (to - from) as nat,
            ),
            None => number_at(text@, from as int, to as int) is None,
        },
{
    let ghost field = text@.subrange(from as int, to as int);
    let mut value: u32 = 0;
    let mut at: usize = from;
    while at < to
        invariant
            from <= at <= to <= text@.len(),
            to - from <= 9,
            field == text@.subrange(from as int, to as int),
            all_digits(field.subrange(0, at - from)),
            value == decimal_value(field.subrange(0, at - from)),
            value < pow10((at - from) as nat),
        decreases to - at,
    {
        let c = text.get_char(at);
        assert(c == field[at - from]);
        if !('0' <= c && c <= '9') {
            return None;
        }
        let ghost before = field.subrange(0, at - from);
        let ghost after = field.subrange(0, at - from + 1);
        assert(after.drop_last() =~= before);
        assert(after.last() == c);
        proof {
            lemma_pow10_bound((at - from) as nat);
            lemma_pow10_bound((at - from + 1) as nat);
        }
        value = value * 10 + (c as u32 - '0' as u32);
        at = at + 1;
    }
    assert(field.subrange(0, to - from) =~= field);
    Some(value)
}

/// The number written by `s`: digits, with or without one sign in front.
/// Nothing where `s` is not of that form.
pub open spec fn signed_value(s: Seq<char>) -> Option<int> {
    if s.len() > 0 && (s[0] == '-' || s[0] == '+') {
        let digits = s.subrange(1, s.len() as int);
        if digits.len() > 0 && all_digits(digits) {
            Some(
                if s[0] == '-' {
                    -decimal_value(digits)
                } else {
                    decimal_value(digits)
                },
            )
        } else {
            None
        }
    } else if s.len() > 0 && all_digits(s) {
        Some(decimal_value(s))
    } else {
        None
    }
}

/// Reads the signed number `text[from..to]`.
pub fn parse_signed(text: &str, from: usize, to: usize) -> (r: Option<i32>)
    requires
        from <= to <= text@.len(),
        to - from <= 9,
    ensures
        match r {
            Some(v) => signed_value(text@.subrange(from as int, to as int)) == Some(v as int),
            None => signed_value(text@.subrange(from as int, to as int)) is None,
        },
{
    if from == to {
        return None;
    }
    let ghost field = text@.subrange(from as int, to as int);
    let sign = text.get_char(from);
    assert(sign == field[0]);
    if sign == '-' || sign == '+' {
        assert(field.subrange(1, field.len() as int) =~= text@.subrange(from + 1, to as int));
        if from + 1 == to {
            return None;
        }
        match parse_digits(text, from + 1, to) {
            None => None,
            Some(magnitude) => {
                proof {
                    lemma_pow10_bound((to - from - 1) as nat);
                }
                if sign == '-' {
                    Some(-(magnitude as i32))
                } else {
                    Some(magnitude as i32)
                }
            },
        }
    } else {
        match parse_digits(text, from, to) {
            None => None,
            Some(magnitude) => {
                proof {
                    lemma_pow10_bound((to - from) as nat);
                }
                Some(magnitude as i32)
            },
        }
    }
}

/// Whether `s` begins with `prefix`.
pub open spec fn has_prefix(s: Seq<char>, prefix: Seq<char>) -> bool {
    prefix.len() <= s.len() && s.subrange(0, prefix.len() as int) == prefix
}

/// Whether `text` begins with `prefix`.
pub fn starts_with(text: &str, prefix: &str) -> (r: bool)
    ensures
        r == has_prefix(text@, prefix@),
{
    let width: usize = prefix.unicode_len();
    if text.unicode_len() < width {
        return false;
    }
    let mut at: usize = 0;
    while at < width
        invariant
            width == prefix@.len(),
            width <= text@.len(),
            at <= width,
            text@.subrange(0, at as int) == prefix@.subrange(0, at as int),
        decreases width - at,
    {
        if text.get_char(at) != prefix.get_char(at) {
            assert(text@.subrange(0, width as int)[at as int] != prefix@[at as int]);
            return false;
        }
        assert(text@.subrange(0, at + 1) =~= text@.subrange(0, at as int).push(text@[at as int]));
        assert(prefix@.subrange(0, at + 1) =~= prefix@.subrange(0, at as int).push(
            prefix@[at as int],
        ));
        at = at + 1;
    }
    assert(prefix@.subrange(0, width as int) =~= prefix@);
    true
}

/// Powers of ten grow, and nine digits stay below a billion.
pub proof fn lemma_pow10_bound(width: nat)
    ensures
        pow10(width) >= 1,
        width <= 9 ==> pow10(width) <= 1_000_000_000,
        pow10(width + 1) == 10 * pow10(width),
    decreases width,
{
    reveal_with_fuel(pow10, 11);
    if width > 0 {
        lemma_pow10_bound((width - 1) as nat);
    }
}

} // verus!
