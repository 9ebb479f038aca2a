//! Hexadecimal text: how an identifier is written into a URI and read back
//! from one.

use vstd::arithmetic::{div_mod, power};
use vstd::prelude::*;

verus! {

/// The lower-case digit for a value below sixteen.
pub open spec fn digit_char(value: int) -> char {
    if value < 10 {
        ('0' as int + value) as char
    } else {
        ('a' as int + value - 10) as char
    }
}

/// The value of a hexadecimal digit of either case.
pub open spec fn digit_value(c: char) -> Option<int> {
    if '0' <= c <= '9' {
        Some(c as int - '0' as int)
    } else if 'a' <= c <= 'f' {
        Some(c as int - 'a' as int + 10)
    } else if 'A' <= c <= 'F' {
        Some(c as int - 'A' as int + 10)
    } else {
        None
    }
}

/// A number in lower-case digits, most significant first, without leading
/// zeros.
pub open spec fn hex(n: int) -> Seq<char>
    decreases n,
{
    if n < 16 {
        seq![digit_char(n)]
    } else {
        hex(n / 16).push(digit_char(n % 16))
    }
}

/// What a run of digits amounts to, or `None` where one of them is no digit.
pub open spec fn hex_value(digits: Seq<char>) -> Option<int>
    decreases digits.len(),
{
    if digits.len() == 0 {
        Some(0)
    } else {
        match (hex_value(digits.drop_last()), digit_value(digits.last())) {
            (Some(high), Some(low)) => Some(high * 16 + low),
            _ => None,
        }
    }
}

/// The digits of a number that may carry a plus sign.
pub open spec fn unsigned_digits(text: Seq<char>) -> Seq<char> {
    if text.len() > 0 && text[0] == '+' {
        text.drop_first()
    } else {
        text
    }
}

/// The 32-bit number that `text` spells: an optional plus sign, then at least
/// one digit and nothing else.
pub open spec fn parsed(text: Seq<char>) -> Option<u32> {
    let digits = unsigned_digits(text);
    match hex_value(digits) {
        Some(value) if digits.len() > 0 && value <= u32::MAX => Some(value as u32),
        _ => None,
    }
}

/// A run of digits is worth no less than any run it begins with.
proof fn lemma_value_grows(digits: Seq<char>, len: int)
    requires
        0 <= len <= digits.len(),
    ensures
        hex_value(digits) matches Some(value) ==> {
            &&& hex_value(digits.take(len)) matches Some(part)
            &&& 0 <= part <= value
        },
    decreases digits.len(),
{
    if len < digits.len() {
        lemma_value_grows(digits.drop_last(), len);
        assert(digits.drop_last().take(len) =~= digits.take(len));
    } else {
        assert(digits.take(len) =~= digits);
        if digits.len() > 0 {
            lemma_value_grows(digits.drop_last(), len - 1);
            assert(digits.drop_last().take(len - 1) =~= digits.drop_last());
        }
    }
}

/// A run that holds something else than a digit is worth nothing.
pub proof fn lemma_no_digit_no_value(digits: Seq<char>, at: int)
    requires
        0 <= at < digits.len(),
        digit_value(digits[at]) is None,
    ensures
        hex_value(digits) is None,
{
    lemma_value_grows(digits, at + 1);
    assert(digits.take(at + 1).last() == digits[at]);
}

/// A number is read back from its own digits.
pub proof fn law_hex_reads_back(n: int)
    requires
        0 <= n,
    ensures
        hex_value(hex(n)) == Some(n),
        hex(n).len() > 0,
    decreases n,
{
    if n < 16 {
        assert(hex(n).drop_last() =~= Seq::<char>::empty());
        assert(hex_value(Seq::<char>::empty()) == Some(0int));
    } else {
        law_hex_reads_back(n / 16);
        assert(hex(n).drop_last() =~= hex(n / 16));
    }
}

/// Every character of a written number is a digit.
pub proof fn law_hex_is_digits(n: int)
    requires
        0 <= n,
    ensures
        forall|i: int| 0 <= i < hex(n).len() ==> digit_value(#[trigger] hex(n)[i]) is Some,
    decreases n,
{
    if n >= 16 {
        law_hex_is_digits(n / 16);
        assert forall|i: int| 0 <= i < hex(n).len() implies digit_value(#[trigger] hex(n)[i]) is Some by {
            if i < hex(n / 16).len() {
                assert(hex(n)[i] == hex(n / 16)[i]);
            }
        }
    }
}

/// Every 32-bit number is parsed back from its own digits.
pub proof fn law_hex_parses_back(n: u32)
    ensures
        parsed(hex(n as int)) == Some(n),
{
    law_hex_reads_back(n as int);
    law_hex_is_digits(n as int);
    assert(digit_value(hex(n as int)[0]) is Some);
}

/// The sixteen digits, in order: the value below sixteen is written as the
/// character at that place, and either case of it is read as that value.
pub proof fn law_digits_in_order(value: int)
    requires
        0 <= value < 16,
    ensures
        digit_char(value) == "0123456789abcdef"@[value],
        digit_value("0123456789abcdef"@[value]) == Some(value),
        digit_value("0123456789ABCDEF"@[value]) == Some(value),
{
    reveal_strlit("0123456789abcdef");
    reveal_strlit("0123456789ABCDEF");
}

/// These twenty-two characters are digits, and no others.
pub proof fn law_digits_are_these(c: char)
    ensures
        digit_value(c) is Some <==> "0123456789abcdefABCDEF"@.contains(c),
{
    let all = "0123456789abcdefABCDEF"@;
    reveal_strlit("0123456789abcdefABCDEF");
    if let Some(value) = digit_value(c) {
        if 'A' <= c <= 'F' {
            assert(all[value + 6] == c);
        } else {
            assert(all[value] == c);
        }
    }
    if all.contains(c) {
        let at = choose|at: int| 0 <= at < all.len() && all[at] == c;
        assert(digit_value(all[at]) is Some);
    }
}

/// A number is written place by place: the digit for the sixteens' power that
/// belongs there, in as many places as the number needs and no more.
pub proof fn law_hex_by_places(n: int)
    requires
        0 <= n,
    ensures
        forall|place: int|
            0 <= place < hex(n).len() ==> #[trigger] hex(n)[hex(n).len() - 1 - place]
                == "0123456789abcdef"@[(n / power::pow(16, place as nat)) % 16],
        n < power::pow(16, hex(n).len()),
        hex(n).len() > 0,
        hex(n).len() > 1 ==> power::pow(16, (hex(n).len() - 1) as nat) <= n,
        hex(n).len() > 1 ==> hex(n)[0] != '0',
    decreases n,
{
    reveal(power::pow);
    let digits = hex(n);
    assert(power::pow(16, 0) == 1);
    if n < 16 {
        law_digits_in_order(n);
        assert(power::pow(16, 1) == 16 * power::pow(16, 0));
    } else {
        let high = hex(n / 16);
        law_hex_by_places(n / 16);
        law_digits_in_order(n % 16);
        assert(digits.len() == high.len() + 1);
        assert forall|place: int| 0 <= place < digits.len() implies #[trigger] digits[digits.len()
            - 1 - place] == "0123456789abcdef"@[(n / power::pow(16, place as nat)) % 16] by {
            if place > 0 {
                let below = power::pow(16, (place - 1) as nat);
                power::lemma_pow_positive(16, (place - 1) as nat);
                div_mod::lemma_div_denominator(n, 16, below);
                assert(power::pow(16, place as nat) == 16 * below);
                assert(high[high.len() - 1 - (place - 1)] == "0123456789abcdef"@[((n / 16) / below)
                    % 16]);
            }
        }
        assert(power::pow(16, digits.len()) == 16 * power::pow(16, high.len()));
        assert(power::pow(16, high.len()) == 16 * power::pow(16, (high.len() - 1) as nat));
        if high.len() == 1 {
            law_digits_in_order(n / 16);
            reveal_strlit("0123456789abcdef");
            assert(power::pow(16, 1) == 16);
        }
    }
}

/// A run of digits with one more behind it is worth sixteen times what it was
/// and the digit; with anything else behind it, nothing.
pub proof fn law_value_digit_by_digit(digits: Seq<char>, c: char)
    ensures
        hex_value(Seq::empty()) == Some(0int),
        forall|value: int|
            0 <= value < 16 && (c == #[trigger] "0123456789abcdef"@[value] || c
                == "0123456789ABCDEF"@[value]) ==> hex_value(digits.push(c)) == match hex_value(
                digits,
            ) {
                Some(high) => Some(high * 16 + value),
                None => None,
            },
        !"0123456789abcdefABCDEF"@.contains(c) ==> hex_value(digits.push(c)) is None,
{
    assert(digits.push(c).drop_last() =~= digits);
    law_digits_are_these(c);
    assert forall|value: int|
        0 <= value < 16 && (c == #[trigger] "0123456789abcdef"@[value] || c
            == "0123456789ABCDEF"@[value]) implies digit_value(c) == Some(value) by {
        law_digits_in_order(value);
    }
}

/// Digits in either case, worth `values` each, are worth what those come to
/// in places of sixteen.
proof fn lemma_value_of(digits: Seq<char>, values: Seq<int>)
    requires
        digits.len() == values.len(),
        forall|i: int|
            0 <= i < values.len() ==> {
                &&& 0 <= #[trigger] values[i] < 16
                &&& digits[i] == "0123456789abcdef"@[values[i]] || digits[i]
                    == "0123456789ABCDEF"@[values[i]]
            },
    ensures
        hex_value(digits) == Some(
            values.fold_left(0int, |high: int, value: int| high * 16 + value),
        ),
    decreases digits.len(),
{
    if digits.len() > 0 {
        lemma_value_of(digits.drop_last(), values.drop_last());
        assert(0 <= values[values.len() - 1] < 16);
        law_digits_in_order(values.last());
    }
}

/// What a parsed number is: the digits' worth in places of sixteen, with or
/// without a plus sign before them, for digits of either case and as many
/// leading zeros as may be, if 32 bits hold it.
pub proof fn law_parsed_by_places(digits: Seq<char>, values: Seq<int>)
    requires
        digits.len() == values.len(),
        digits.len() > 0,
        forall|i: int|
            0 <= i < values.len() ==> {
                &&& 0 <= #[trigger] values[i] < 16
                &&& digits[i] == "0123456789abcdef"@[values[i]] || digits[i]
                    == "0123456789ABCDEF"@[values[i]]
            },
    ensures
        ({
            let number = values.fold_left(0int, |high: int, value: int| high * 16 + value);
            &&& number <= 0xffff_ffff ==> parsed(digits) == Some(number as u32)
            &&& number > 0xffff_ffff ==> parsed(digits) is None
        }),
        0 <= values.fold_left(0int, |high: int, value: int| high * 16 + value),
        parsed(seq!['+'] + digits) == parsed(digits),
{
    lemma_value_of(digits, values);
    lemma_value_grows(digits, digits.len() as int);
    assert(0 <= values[0] < 16);
    law_digits_in_order(values[0]);
    assert((seq!['+'] + digits).drop_first() =~= digits);
}

/// What is no number: text without a digit, and text that holds anything but
/// digits behind an optional plus sign.
pub proof fn law_parsed_refuses(text: Seq<char>, at: int)
    ensures
        parsed(Seq::empty()) is None,
        parsed(seq!['+']) is None,
        0 <= at < text.len() && !"0123456789abcdefABCDEF"@.contains(text[at]) && !(at == 0
            && text[0] == '+') ==> parsed(text) is None,
{
    assert(seq!['+'].drop_first() =~= Seq::<char>::empty());
    if 0 <= at < text.len() && !"0123456789abcdefABCDEF"@.contains(text[at]) && !(at == 0
        && text[0] == '+') {
        law_digits_are_these(text[at]);
        if text[0] == '+' {
            assert(text.drop_first()[at - 1] == text[at]);
            lemma_no_digit_no_value(text.drop_first(), at - 1);
        } else {
            lemma_no_digit_no_value(text, at);
        }
    }
}

/// The digit for a value below sixteen, as text.
fn digit_text(value: u32) -> (text: &'static str)
    requires
        value < 16,
    ensures
        text@ == seq![digit_char(value as int)],
{
    proof {
        reveal_strlit("0");
        reveal_strlit("1");
        reveal_strlit("2");
        reveal_strlit("3");
        reveal_strlit("4");
        reveal_strlit("5");
        reveal_strlit("6");
        reveal_strlit("7");
        reveal_strlit("8");
        reveal_strlit("9");
        reveal_strlit("a");
        reveal_strlit("b");
        reveal_strlit("c");
        reveal_strlit("d");
        reveal_strlit("e");
        reveal_strlit("f");
    }
    match value {
        0 => "0",
        1 => "1",
        2 => "2",
        3 => "3",
        4 => "4",
        5 => "5",
        6 => "6",
        7 => "7",
        8 => "8",
        9 => "9",
        10 => "a",
        11 => "b",
        12 => "c",
        13 => "d",
        14 => "e",
        _ => "f",
    }
}

/// Write `n` in hexadecimal behind what `text` holds.
pub fn append_hex(text: &mut String, n: u32)
    ensures
        final(text)@ == old(text)@ + hex(n as int),
    decreases n,
{
    if n >= 16 {
        append_hex(text, n / 16);
    }
    text.append(digit_text(n % 16));
    assert(text@ =~= old(text)@ + hex(n as int));
}

/// The value of one digit.
fn read_digit(c: char) -> (value: Option<u32>)
    ensures
        value matches Some(v) ==> digit_value(c) == Some(v as int) && v < 16,
        value is None ==> digit_value(c) is None,
{
    if '0' <= c && c <= '9' {
        Some(c as u32 - '0' as u32)
    } else if 'a' <= c && c <= 'f' {
        Some(c as u32 - 'a' as u32 + 10)
    } else if 'A' <= c && c <= 'F' {
        Some(c as u32 - 'A' as u32 + 10)
    } else {
        None
    }
}

/// The 32-bit number that `chars` spells from `from` on.
pub fn parse_hex(chars: &[char], from: usize) -> (number: Option<u32>)
    requires
        from <= chars@.len(),
    ensures
        number == parsed(chars@.skip(from as int)),
{
    let ghost text = chars@.skip(from as int);
    let ghost digits = unsigned_digits(text);
    let start: usize = if from < chars.len() && chars[from] == '+' {
        from + 1
    } else {
        from
    };
    assert(digits =~= chars@.skip(start as int));
    if start == chars.len() {
        return None;
    }
    let mut number: u32 = 0;
    let mut at: usize = start;
    while at < chars.len()
        invariant
            from <= start <= at <= chars@.len(),
            start < chars@.len(),
            text == chars@.skip(from as int),
            digits == unsigned_digits(text),
            digits == chars@.skip(start as int),
            hex_value(digits.take(at - start)) == Some(number as int),
        decreases chars@.len() - at,
    {
        let ghost so_far = digits.take(at - start + 1);
        assert(so_far.drop_last() =~= digits.take(at - start));
        assert(so_far.last() == chars@[at as int]);
        proof {
            lemma_value_grows(digits, at - start + 1);
        }
        match read_digit(chars[at]) {
            None => {
                return None;
            },
            Some(digit) => {
                if number > 0x0fff_ffff {
                    return None;
                }
                number = number * 16 + digit;
            },
        }
        at += 1;
    }
    assert(digits.take(at - start) =~= digits);
    Some(number)
}

} // verus!
