//! Decimal text: an optional sign and then one or more digits.

use vstd::prelude::*;
use vstd::string::*;

verus! {

/// Whether `c` is one of the ten decimal digits.
pub open spec fn is_digit(c: char) -> bool {
    '0' <= c <= '9'
}

/// Whether every character of `text` is a decimal digit.
pub open spec fn all_digits(text: Seq<char>) -> bool {
    forall|i: int| 0 <= i < text.len() ==> is_digit(#[trigger] text[i])
}

/// The number that the digits of `text` write, the first digit counting most.
pub open spec fn digits_value(text: Seq<char>) -> int
    decreases text.len(),
{
    if text.len() == 0 {
        0
    } else {
        10 * digits_value(text.drop_last()) + (text.last() as int - '0' as int)
    }
}

/// How many leading characters of `text` are a sign: a `+` always counts,
/// a `-` only where `signed` allows it.
pub open spec fn sign_len(text: Seq<char>, signed: bool) -> int {
    if text.len() > 0 && (text[0] == '+' || (signed && text[0] == '-')) {
        1
    } else {
        0
    }
}

/// The number that `text` writes in decimal, if it writes one: an optional
/// sign followed by at least one digit and nothing else. There is no limit
/// on the number of digits, and no blank is skipped.
pub open spec fn decimal_value(text: Seq<char>, signed: bool) -> Option<int> {
    let digits = text.skip(sign_len(text, signed));
    if digits.len() > 0 && all_digits(digits) {
        if signed && text[0] == '-' {
            Some(-digits_value(digits))
        } else {
            Some(digits_value(digits))
        }
    } else {
        None
    }
}

/// A number is never smaller than what any of its leading digits write.
pub proof fn lemma_digits_value_grows(text: Seq<char>, k: int)
    requires
        all_digits(text),
        0 <= k <= text.len(),
    ensures
        0 <= digits_value(text.take(k)) <= digits_value(text),
    decreases text.len(),
{
    if k == text.len() {
        assert(text.take(k) =~= text);
        if text.len() > 0 {
            lemma_digits_value_grows(text.drop_last(), k - 1);
            assert(is_digit(text[text.len() - 1]));
        }
    } else {
        assert(is_digit(text[text.len() - 1]));
        lemma_digits_value_grows(text.drop_last(), k);
        assert(text.drop_last().take(k) =~= text.take(k));
    }
}

/// Reads `input` as a decimal number of magnitude at most `limit`.
///
/// Returns the number where `input` writes one, with a `-` sign accepted only
/// if `signed` is set, and the number lies between `-limit` and `limit`.
/// Returns `None` for every other text. Without a `-` sign no number is
/// negative.
pub fn read_decimal(input: &str, signed: bool, limit: u32) -> (number: Option<i64>)
    ensures
        number == match decimal_value(input@, signed) {
            Some(v) if -(limit as int) <= v <= limit as int => Some(v as i64),
            _ => None::<i64>,
        },
        number matches Some(v) ==> signed || v >= 0,
{
    broadcast use is_ascii_spec_bytes;

    if !input.is_ascii() {
        proof {
            let text = input@;
            let start = sign_len(text, signed);
            let digits = text.skip(start);
            if all_digits(digits) {
                assert forall|i: int| 0 <= i < text.len() implies '\0' <= #[trigger] text[i]
                    <= '\u{7f}' by {
                    if i >= start {
                        assert(is_digit(digits[i - start]));
                    }
                }
            }
        }
        return None;
    }
    let n: usize = input.as_bytes().len();
    proof {
        is_ascii_spec_bytes(input);
    }
    if n == 0 {
        return None;
    }
    let first: u8 = input.get_ascii(0);
    let negative: bool = signed && first == 45;
    let start: usize = if first == 43 || negative {
        1
    } else {
        0
    };
    assert(start == sign_len(input@, signed));
    assert(negative == (signed && input@[0] == '-'));
    if start == n {
        return None;
    }
    let ghost digits = input@.skip(start as int);
    let mut value: u32 = 0;
    let mut i: usize = start;
    while i < n
        invariant
            is_ascii(input),
            n == input@.len(),
            start <= i <= n,
            start == sign_len(input@, signed),
            digits == input@.skip(start as int),
            all_digits(digits.take(i - start)),
            value == digits_value(digits.take(i - start)),
            value <= limit,
        decreases n - i,
    {
        let byte: u8 = input.get_ascii(i);
        let ghost c = input@[i as int];
        assert(c == digits[i - start]);
        assert(c as int == byte as int);
        if byte < 48 || byte > 57 {
            return None;
        }
        let next: u64 = value as u64 * 10 + (byte - 48) as u64;
        proof {
            let longer = digits.take(i - start + 1);
            assert(longer.drop_last() =~= digits.take(i - start));
            assert(longer.last() == c);
            assert(next == digits_value(longer));
            assert forall|j: int| 0 <= j < longer.len() implies is_digit(#[trigger] longer[j]) by {
                if j < i - start {
                    assert(longer[j] == digits.take(i - start)[j]);
                }
            }
            if all_digits(digits) {
                lemma_digits_value_grows(digits, i - start + 1);
            }
        }
        if next > limit as u64 {
            return None;
        }
        value = next as u32;
        i = i + 1;
    }
    assert(digits.take(i - start) =~= digits);
    if negative {
        Some(-(value as i64))
    } else {
        Some(value as i64)
    }
}

/// The character that writes the digit `d`.
pub open spec fn digit_char(d: int) -> char {
    ('0' as u8 + d) as u8 as char
}

/// The digits that write `n`, the first digit counting most: at least one,
/// and no zero at the start but for zero itself.
pub open spec fn digits_of(n: nat) -> Seq<char>
    decreases n,
{
    if n < 10 {
        seq![digit_char(n as int)]
    } else {
        digits_of(n / 10).push(digit_char(n as int % 10))
    }
}

/// The text that writes `n` in decimal: its digits, after a `-` where `n` is
/// negative.
pub open spec fn decimal_text(n: int) -> Seq<char> {
    if n < 0 {
        seq!['-'] + digits_of((-n) as nat)
    } else {
        digits_of(n as nat)
    }
}

/// The digits of a number write that number.
pub proof fn lemma_digits_read_back(n: nat)
    ensures
        digits_of(n).len() > 0,
        all_digits(digits_of(n)),
        digits_value(digits_of(n)) == n,
    decreases n,
{
    if n < 10 {
        let text = digits_of(n);
        assert(text.drop_last() =~= Seq::<char>::empty());
        assert(digits_value(text.drop_last()) == 0);
    } else {
        lemma_digits_read_back(n / 10);
        let text = digits_of(n);
        assert(text.drop_last() =~= digits_of(n / 10));
        assert forall|i: int| 0 <= i < text.len() implies is_digit(#[trigger] text[i]) by {
            if i < text.len() - 1 {
                assert(text[i] == digits_of(n / 10)[i]);
            }
        }
    }
}

/// The text that writes a number reads back as that number.
pub proof fn lemma_decimal_text_reads_back(n: int)
    ensures
        decimal_value(decimal_text(n), true) == Some(n),
        n >= 0 ==> decimal_value(decimal_text(n), false) == Some(n),
{
    let text = decimal_text(n);
    if n < 0 {
        let digits = digits_of((-n) as nat);
        lemma_digits_read_back((-n) as nat);
        assert(text.skip(1) =~= digits);
    } else {
        lemma_digits_read_back(n as nat);
        assert(is_digit(text[0]));
        assert(text.skip(0) =~= text);
    }
}

/// The text of one digit.
fn digit_text(d: u8) -> (text: &'static str)
    requires
        d < 10,
    ensures
        text@ == seq![digit_char(d as int)],
{
    proof {
        reveal_strlit("0");
        reveal_strlit("1");
        reveal_strlit("2");
        reveal_strlit("3");
        reveal_strlit("4");
        reveal_strlit("5");
        reveal_strlit("6");
        reveal_strlit("7");
        reveal_strlit("8");
        reveal_strlit("9");
    }
    let text: &'static str = match d {
        0 => "0",
        1 => "1",
        2 => "2",
        3 => "3",
        4 => "4",
        5 => "5",
        6 => "6",
        7 => "7",
        8 => "8",
        _ => "9",
    };
    assert(text@ =~= seq![digit_char(d as int)]);
    text
}

/// Writes the digits of `n` at the end of `out`.
fn write_digits(n: u64, out: &mut String)
    ensures
        final(out)@ == old(out)@ + digits_of(n as nat),
    decreases n,
{
    if n >= 10 {
        write_digits(n / 10, out);
    }
    out.append(digit_text((n % 10) as u8));
    proof {
        let digit = seq![digit_char(n as int % 10)];
        if n >= 10 {
            assert(old(out)@ + digits_of(n as nat / 10) + digit =~= old(out)@ + digits_of(
                n as nat,
            ));
        } else {
            assert(old(out)@ + digit =~= old(out)@ + digits_of(n as nat));
        }
    }
}

/// Writes `n` in decimal at the end of `out`.
pub fn write_decimal(n: i64, out: &mut String)
    ensures
        final(out)@ == old(out)@ + decimal_text(n as int),
{
    if n < 0 {
        proof {
            reveal_strlit("-");
        }
        out.append("-");
        let magnitude: u64 = (-(n + 1)) as u64 + 1;
        write_digits(magnitude, out);
        assert(old(out)@ + "-"@ + digits_of(magnitude as nat) =~= old(out)@ + decimal_text(
            n as int,
        ));
    } else {
        write_digits(n as u64, out);
    }
}

} // verus!
