//! Numbers in decimal notation: written as text and read from bytes.

use vstd::prelude::*;
use vstd::string::StringExecFns;
use vstd::utf8::{encode_utf8, is_ascii_chars, is_ascii_chars_encode_utf8};

verus! {

/// The character of a decimal digit.
pub open spec fn digit_char(d: nat) -> char {
    if d == 0 {
        '0'
    } else if d == 1 {
        '1'
    } else if d == 2 {
        '2'
    } else if d == 3 {
        '3'
    } else if d == 4 {
        '4'
    } else if d == 5 {
        '5'
    } else if d == 6 {
        '6'
    } else if d == 7 {
        '7'
    } else if d == 8 {
        '8'
    } else {
        '9'
    }
}

/// A number in decimal notation, without leading zeros.
pub open spec fn decimal_text(n: nat) -> Seq<char>
    decreases n,
{
    if n < 10 {
        seq![digit_char(n)]
    } else {
        decimal_text(n / 10).push(digit_char(n % 10))
    }
}

/// The text of a decimal digit.
fn digit_text(d: u8) -> (r: &'static str)
    requires
        d < 10,
    ensures
        r@ == seq![digit_char(d as nat)],
{
    proof {
        reveal_strlit("0");
        reveal_strlit("1");
        reveal_strlit("2");
        reveal_strlit("3");
        reveal_strlit("4");
        reveal_strlit("5");
        reveal_strlit("6");
        reveal_strlit("7");
        reveal_strlit("8");
        reveal_strlit("9");
    }
    let r = if d == 0 {
        "0"
    } else if d == 1 {
        "1"
    } else if d == 2 {
        "2"
    } else if d == 3 {
        "3"
    } else if d == 4 {
        "4"
    } else if d == 5 {
        "5"
    } else if d == 6 {
        "6"
    } else if d == 7 {
        "7"
    } else if d == 8 {
        "8"
    } else {
        "9"
    };
    assert(r@ =~= seq![digit_char(d as nat)]);
    r
}

/// Writes a number in decimal notation.
pub fn decimal(n: u128) -> (r: String)
    ensures
        r@ == decimal_text(n as nat),
    decreases n,
{
    if n < 10 {
        String::from_str(digit_text(n as u8))
    } else {
        let mut text = decimal(n / 10);
        let ghost before = text@;
        text.append(digit_text((n % 10) as u8));
        assert(text@ =~= before.push(digit_char((n % 10) as nat)));
        text
    }
}

/// The number that a run of decimal digits stands for.
pub open spec fn digits_value(digits: Seq<u8>) -> nat
    decreases digits.len(),
{
    if digits.len() == 0 {
        0
    } else {
        (10 * digits_value(digits.drop_last()) + (digits.last() - 48)) as nat
    }
}

/// Whether every byte is a decimal digit.
pub open spec fn all_digits(text: Seq<u8>) -> bool {
    forall|i: int| 0 <= i < text.len() ==> 48 <= #[trigger] text[i] <= 57
}

/// The number that `text` spells without a sign: decimal digits, at least
/// one, after an optional `+` (byte 43). `None` for any other text.
pub open spec fn unsigned_decimal(text: Seq<u8>) -> Option<nat> {
    let digits = if text.len() > 0 && text[0] == 43 {
        text.skip(1)
    } else {
        text
    };
    if digits.len() == 0 || !all_digits(digits) {
        None
    } else {
        Some(digits_value(digits))
    }
}

/// The count that `text` spells: a number without a sign that fits `usize`.
pub open spec fn count_of(text: Seq<u8>) -> Option<usize> {
    match unsigned_decimal(text) {
        Some(v) => if v <= usize::MAX {
            Some(v as usize)
        } else {
            None
        },
        None => None,
    }
}

/// A run of digits stands for no less than any of its beginnings.
proof fn lemma_value_grows(digits: Seq<u8>, upto: int)
    requires
        all_digits(digits),
        0 <= upto <= digits.len(),
    ensures
        digits_value(digits.take(upto)) <= digits_value(digits),
    decreases digits.len() - upto,
{
    if upto < digits.len() {
        let longer = digits.take(upto + 1);
        assert(longer.drop_last() =~= digits.take(upto));
        assert(48 <= digits[upto] <= 57);
        assert(longer.last() == digits[upto]);
        lemma_value_grows(digits, upto + 1);
    } else {
        assert(digits.take(upto) =~= digits);
    }
}

/// Reads a count: a number in decimal notation without a sign.
pub fn parse_count(text: &[u8]) -> (r: Option<usize>)
    ensures
        r == count_of(text@),
{
    let start: usize = if text.len() > 0 && text[0] == 43 {
        1
    } else {
        0
    };
    if start == text.len() {
        return None;
    }
    let ghost digits = text@.skip(start as int);
    let mut value: usize = 0;
    let mut i: usize = start;
    proof {
        assert(digits.take(0) =~= Seq::<u8>::empty());
        assert(text@.skip(0) =~= text@);
    }
    while i < text.len()
        invariant
            start <= i <= text@.len(),
            digits == text@.skip(start as int),
            digits == (if text@.len() > 0 && text@[0] == 43 {
                text@.skip(1)
            } else {
                text@
            }),
            start < text@.len(),
            all_digits(digits.take(i - start)),
            value == digits_value(digits.take(i - start)),
        decreases text@.len() - i,
    {
        let byte = text[i];
        let ghost longer = digits.take(i - start + 1);
        proof {
            assert(longer.drop_last() =~= digits.take(i - start));
            assert(longer.last() == byte);
        }
        if byte < 48 || byte > 57 {
            assert(!all_digits(digits)) by {
                assert(digits[i - start] == byte);
            }
            return None;
        }
        let d: usize = (byte - 48) as usize;
        proof {
            assert(digits_value(longer) == 10 * value + d);
        }
        if value > (usize::MAX - d) / 10 {
            proof {
                assert(10 * value + d > usize::MAX);
                if all_digits(digits) {
                    lemma_value_grows(digits, i - start + 1);
                }
            }
            return None;
        }
        proof {
            assert forall|j: int| 0 <= j < longer.len() implies 48 <= #[trigger] longer[j]
                <= 57 by {
                if j < i - start {
                    assert(digits.take(i - start)[j] == longer[j]);
                }
            }
        }
        value = value * 10 + d;
        i += 1;
    }
    proof {
        assert(digits.take(i - start) =~= digits);
        assert(digits.len() == text@.len() - start);
    }
    Some(value)
}

/// The bytes of a number written in decimal notation are digits, do not
/// start with a sign, and stand for the number.
proof fn lemma_decimal_digits(n: nat)
    ensures
        is_ascii_chars(decimal_text(n)),
        encode_utf8(decimal_text(n)).len() == decimal_text(n).len(),
        decimal_text(n).len() >= 1,
        all_digits(encode_utf8(decimal_text(n))),
        digits_value(encode_utf8(decimal_text(n))) == n,
    decreases n,
{
    let text = decimal_text(n);
    if n < 10 {
        assert(text[0] as u8 == 48 + n);
        assert(is_ascii_chars(text));
        is_ascii_chars_encode_utf8(text);
        let bytes = encode_utf8(text);
        assert(bytes[0] == text[0] as u8);
        assert(bytes.drop_last().len() == 0);
        assert(digits_value(bytes.drop_last()) == 0);
    } else {
        let front = decimal_text(n / 10);
        lemma_decimal_digits(n / 10);
        let last = digit_char(n % 10);
        assert(last as u8 == 48 + n % 10);
        assert(text == front.push(last));
        assert forall|i: int| 0 <= i < text.len() implies '\0' <= #[trigger] text[i]
            <= '\u{7f}' by {
            if i < front.len() {
                assert(text[i] == front[i]);
            }
        }
        is_ascii_chars_encode_utf8(text);
        is_ascii_chars_encode_utf8(front);
        let bytes = encode_utf8(text);
        let front_bytes = encode_utf8(front);
        assert forall|i: int| 0 <= i < front_bytes.len() implies bytes.drop_last()[i]
            == front_bytes[i] by {
            assert(bytes[i] == text[i] as u8);
            assert(front_bytes[i] == front[i] as u8);
            assert(text[i] == front[i]);
        }
        assert(bytes.drop_last() =~= front_bytes);
        assert(bytes.last() == text[text.len() - 1] as u8);
        assert forall|i: int| 0 <= i < bytes.len() implies 48 <= #[trigger] bytes[i] <= 57 by {
            if i < front_bytes.len() {
                assert(bytes[i] == bytes.drop_last()[i]);
            }
        }
    }
}

/// What is written reads back: a count written in decimal notation is read
/// as that count.
pub proof fn law_written_count_reads_back(n: usize)
    ensures
        count_of(encode_utf8(decimal_text(n as nat))) == Some(n),
{
    lemma_decimal_digits(n as nat);
    let bytes = encode_utf8(decimal_text(n as nat));
    assert(48 <= bytes[0] <= 57);
}

} // verus!
