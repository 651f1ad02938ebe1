//! Text that the manager reads and writes: decimal numbers and hashes.
use vstd::prelude::*;
use vstd::string::*;

verus! {

/// The lower-case hexadecimal digit of a value below sixteen.
pub open spec fn hex_digit(value: int) -> char {
    if value < 10 {
        (48 + value) as char
    } else {
        (87 + value) as char
    }
}

/// Two lower-case hexadecimal digits for each byte, the high half first.
pub open spec fn hex(bytes: Seq<u8>) -> Seq<char> {
    Seq::new(
        2 * bytes.len(),
        |i: int|
            hex_digit(
                if i % 2 == 0 {
                    bytes[i / 2] as int / 16
                } else {
                    bytes[i / 2] as int % 16
                },
            ),
    )
}

fn hex_str(value: u8) -> (s: &'static str)
    requires
        value < 16,
    ensures
        s@ == seq![hex_digit(value as int)],
{
    proof {
        reveal_strlit("0");
        reveal_strlit("1");
        reveal_strlit("2");
        reveal_strlit("3");
        reveal_strlit("4");
        reveal_strlit("5");
        reveal_strlit("6");
        reveal_strlit("7");
        reveal_strlit("8");
        reveal_strlit("9");
        reveal_strlit("a");
        reveal_strlit("b");
        reveal_strlit("c");
        reveal_strlit("d");
        reveal_strlit("e");
        reveal_strlit("f");
    }
    match value {
        0 => "0",
        1 => "1",
        2 => "2",
        3 => "3",
        4 => "4",
        5 => "5",
        6 => "6",
        7 => "7",
        8 => "8",
        9 => "9",
        10 => "a",
        11 => "b",
        12 => "c",
        13 => "d",
        14 => "e",
        _ => "f",
    }
}

/// Writes a hash the way it appears in log lines and error messages: lower-case
/// hexadecimal, without a prefix.
pub fn hash_hex(hash: &[u8; 32]) -> (s: String)
    ensures
        s@ == hex(hash@),
{
    let mut s = String::new();
    let mut i: usize = 0;
    while i < 32
        invariant
            i <= 32,
            s@ == hex(hash@.take(i as int)),
        decreases 32 - i,
    {
        let high: u8 = hash[i] / 16;
        let low: u8 = hash[i] % 16;
        s.append(hex_str(high));
        s.append(hex_str(low));
        assert(s@ =~= hex(hash@.take(i + 1)));
        i = i + 1;
    }
    assert(hash@.take(32) =~= hash@);
    s
}

/// Whether a character is one of the ten decimal digits.
pub open spec fn is_digit(c: char) -> bool {
    '0' <= c && c <= '9'
}

/// The number that a sequence of decimal digits stands for.
pub open spec fn decimal(digits: Seq<char>) -> nat
    decreases digits.len(),
{
    if digits.len() == 0 {
        0
    } else {
        (10 * decimal(digits.drop_last()) + (digits.last() as int - '0' as int)) as nat
    }
}

/// The digits of a number: what follows the sign, where there is one.
pub open spec fn unsigned_digits(text: Seq<char>) -> Seq<char> {
    if text.len() > 0 && text[0] == '+' {
        text.skip(1)
    } else {
        text
    }
}

/// The `u64` that a text stands for: an optional `+` and then one or more decimal
/// digits, nothing else, with a value that fits.
pub open spec fn u64_of(text: Seq<char>) -> Option<u64> {
    let digits = unsigned_digits(text);
    if digits.len() > 0 && (forall|i: int| 0 <= i < digits.len() ==> is_digit(#[trigger] digits[i]))
        && decimal(digits) <= u64::MAX {
        Some(decimal(digits) as u64)
    } else {
        None
    }
}

/// More digits stand for no smaller number.
proof fn lemma_decimal_grows(digits: Seq<char>, n: int)
    requires
        0 <= n <= digits.len(),
        forall|i: int| 0 <= i < digits.len() ==> is_digit(#[trigger] digits[i]),
    ensures
        decimal(digits.take(n)) <= decimal(digits),
    decreases digits.len() - n,
{
    if n == digits.len() {
        assert(digits.take(n) =~= digits);
    } else {
        lemma_decimal_grows(digits, n + 1);
        assert(digits.take(n + 1).drop_last() =~= digits.take(n));
        assert(is_digit(digits[n]));
        assert(digits.take(n + 1).last() == digits[n]);
    }
}

/// Reads a decimal number.
pub fn parse_u64(text: &str) -> (r: Option<u64>)
    ensures
        r == u64_of(text@),
{
    let len: usize = text.unicode_len();
    let mut i: usize = 0;
    if len > 0 && text.get_char(0) == '+' {
        i = 1;
    }
    let ghost digits = unsigned_digits(text@);
    let start: usize = i;
    if i == len {
        return None;
    }
    let mut value: u64 = 0;
    while i < len
        invariant
            start <= i <= len,
            len == text@.len(),
            digits == unsigned_digits(text@),
            digits == text@.skip(start as int),
            digits.len() > 0,
            forall|k: int| 0 <= k < i - start ==> is_digit(#[trigger] digits[k]),
            value == decimal(digits.take(i - start)),
        decreases len - i,
    {
        let c = text.get_char(i);
        assert(digits[i - start] == c);
        if c < '0' || c > '9' {
            return None;
        }
        let digit: u64 = c as u64 - 48;
        assert(digits.take(i + 1 - start).drop_last() =~= digits.take(i - start));
        proof {
            if forall|k: int| 0 <= k < digits.len() ==> is_digit(#[trigger] digits[k]) {
                lemma_decimal_grows(digits, i + 1 - start);
            }
        }
        if value > (u64::MAX - digit) / 10 {
            return None;
        }
        value = 10 * value + digit;
        i = i + 1;
    }
    assert(digits.take(len - start) =~= digits);
    Some(value)
}

/// The value of a lower-case hexadecimal digit, or sixteen for any other character.
pub open spec fn hex_value(c: char) -> int {
    if '0' <= c && c <= '9' {
        c as int - '0' as int
    } else if 'a' <= c && c <= 'f' {
        c as int - 'a' as int + 10
    } else {
        16
    }
}

/// What is written for some bytes can be read back: it is made of lower-case hexadecimal
/// digits, two for each byte, and the two that stand in the place of a byte have its value.
pub proof fn law_hex_can_be_read_back(bytes: Seq<u8>)
    ensures
        hex(bytes).len() == 2 * bytes.len(),
        forall|i: int|
            0 <= i < bytes.len() ==> {
                &&& hex_value(hex(bytes)[2 * i]) < 16
                &&& hex_value(hex(bytes)[2 * i + 1]) < 16
                &&& #[trigger] bytes[i] == 16 * hex_value(hex(bytes)[2 * i]) + hex_value(
                    hex(bytes)[2 * i + 1],
                )
            },
{
    assert forall|i: int| 0 <= i < bytes.len() implies {
        &&& hex_value(hex(bytes)[2 * i]) < 16
        &&& hex_value(hex(bytes)[2 * i + 1]) < 16
        &&& #[trigger] bytes[i] == 16 * hex_value(hex(bytes)[2 * i]) + hex_value(
            hex(bytes)[2 * i + 1],
        )
    } by {
        let byte = bytes[i] as int;
        assert((2 * i) % 2 == 0 && (2 * i) / 2 == i);
        assert((2 * i + 1) % 2 == 1 && (2 * i + 1) / 2 == i);
        assert(hex(bytes)[2 * i] == hex_digit(byte / 16));
        assert(hex(bytes)[2 * i + 1] == hex_digit(byte % 16));
        lemma_hex_value(byte / 16);
        lemma_hex_value(byte % 16);
    }
}

proof fn lemma_hex_value(value: int)
    requires
        0 <= value < 16,
    ensures
        hex_value(hex_digit(value)) == value,
{
}

/// The decimal digits of a number, without leading zeros.
pub open spec fn digits_of(n: nat) -> Seq<char>
    decreases n,
{
    if n < 10 {
        seq![(48 + n) as char]
    } else {
        digits_of(n / 10).push((48 + n % 10) as char)
    }
}

proof fn lemma_digits_of(n: nat)
    ensures
        digits_of(n).len() > 0,
        forall|i: int| 0 <= i < digits_of(n).len() ==> is_digit(#[trigger] digits_of(n)[i]),
        decimal(digits_of(n)) == n,
    decreases n,
{
    if n < 10 {
        reveal_with_fuel(decimal, 2);
        assert(digits_of(n).drop_last() =~= Seq::empty());
    } else {
        lemma_digits_of(n / 10);
        assert(digits_of(n).drop_last() =~= digits_of(n / 10));
    }
}

/// Every number that fits is read from its digits, and no number that does not fit is.
pub proof fn law_numbers_are_read_from_their_digits(n: nat)
    ensures
        n <= u64::MAX ==> u64_of(digits_of(n)) == Some(n as u64),
        n > u64::MAX ==> u64_of(digits_of(n)) is None,
{
    lemma_digits_of(n);
    assert(is_digit(digits_of(n)[0]));
    assert(unsigned_digits(digits_of(n)) == digits_of(n));
}

proof fn lemma_leading_zero(digits: Seq<char>)
    ensures
        decimal(seq!['0'] + digits) == decimal(digits),
    decreases digits.len(),
{
    let padded = seq!['0'] + digits;
    if digits.len() == 0 {
        assert(padded.drop_last() =~= Seq::empty());
        reveal_with_fuel(decimal, 2);
    } else {
        lemma_leading_zero(digits.drop_last());
        assert(padded.drop_last() =~= seq!['0'] + digits.drop_last());
    }
}

/// A leading zero makes no difference to a number, and neither does a plus sign in front of
/// one; there is no number without a digit, nor with a character that is no digit behind the
/// place of the sign.
pub proof fn law_what_makes_a_number(text: Seq<char>)
    ensures
        text.len() > 0 && text[0] != '+' ==> u64_of(seq!['0'] + text) == u64_of(text),
        text.len() == 0 || text[0] != '+' ==> u64_of(seq!['+'] + text) == u64_of(text),
        text.len() == 0 ==> u64_of(text) is None,
        (exists|i: int|
            0 <= i < text.len() && !(#[trigger] text[i] == '+' && i == 0) && !('0' <= text[i]
                && text[i] <= '9')) ==> u64_of(text) is None,
{
    let padded = seq!['0'] + text;
    let signed = seq!['+'] + text;
    if text.len() > 0 && text[0] != '+' {
        lemma_leading_zero(text);
        assert(unsigned_digits(padded) == padded);
        if forall|i: int| 0 <= i < text.len() ==> is_digit(#[trigger] text[i]) {
            assert forall|i: int| 0 <= i < padded.len() implies is_digit(
                #[trigger] padded[i],
            ) by {
                if i > 0 {
                    assert(is_digit(text[i - 1]));
                }
            }
        } else {
            let i = choose|i: int| 0 <= i < text.len() && !is_digit(#[trigger] text[i]);
            assert(!is_digit(padded[i + 1]));
        }
    }
    if text.len() == 0 || text[0] != '+' {
        assert(signed.skip(1) =~= text);
        assert(unsigned_digits(signed) == text);
        assert(unsigned_digits(text) == text);
    }
    if exists|i: int|
        0 <= i < text.len() && !(#[trigger] text[i] == '+' && i == 0) && !('0' <= text[i]
            && text[i] <= '9') {
        let i = choose|i: int|
            0 <= i < text.len() && !(#[trigger] text[i] == '+' && i == 0) && !('0' <= text[i]
                && text[i] <= '9');
        let digits = unsigned_digits(text);
        if text[0] == '+' {
            assert(digits[i - 1] == text[i]);
        } else {
            assert(digits[i] == text[i]);
        }
    }
}

} // verus!
