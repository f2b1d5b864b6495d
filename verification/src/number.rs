//! Text as numbers.

use crate::text;
use vstd::prelude::*;

verus! {

/// The value of a digit: 0 to 9, then the letters of either case.
pub open spec fn digit_value(c: char) -> Option<nat> {
    if '0' <= c <= '9' {
        Some((c as int - '0' as int) as nat)
    } else if 'a' <= c <= 'z' {
        Some((c as int - 'a' as int + 10) as nat)
    } else if 'A' <= c <= 'Z' {
        Some((c as int - 'A' as int + 10) as nat)
    } else {
        None
    }
}

/// The number that `digits` stand for to the base `radix`, if all of them are digits to it.
pub open spec fn number(digits: Seq<char>, radix: nat) -> Option<nat>
    decreases digits.len(),
{
    if digits.len() == 0 {
        Some(0)
    } else {
        match (number(digits.drop_last(), radix), digit_value(digits.last())) {
            (Some(front), Some(d)) if d < radix => Some(front * radix + d),
            _ => None,
        }
    }
}

/// The number that `raw` stands for: an optional plus sign, then at least one digit.
pub open spec fn unsigned(raw: Seq<char>, radix: nat) -> Option<nat> {
    let digits = if raw.len() > 0 && raw[0] == '+' {
        raw.skip(1)
    } else {
        raw
    };
    if digits.len() == 0 {
        None
    } else {
        number(digits, radix)
    }
}

/// The complaint of `u32::from_str_radix`.
pub uninterp spec fn u32_complaint(raw: Seq<char>, radix: u32) -> Seq<char>;

/// The complaint of `u64::from_str_radix`.
pub uninterp spec fn u64_complaint(raw: Seq<char>, radix: u32) -> Seq<char>;

/// Calls `u32::from_str_radix`: an optional plus sign and digits to the base `radix` are a
/// number, if it fits; the text of the complaint about anything else is named by
/// `u32_complaint`.
#[verifier::external_body]
fn read_u32(raw: &str, radix: u32) -> (result: Result<u32, String>)
    requires
        2 <= radix <= 36,
    ensures
        match result {
            Ok(n) => unsigned(raw@, radix as nat) == Some(n as nat),
            Err(complaint) => {
                &&& unsigned(raw@, radix as nat) matches Some(n) ==> n > u32::MAX
                &&& complaint@ == u32_complaint(raw@, radix)
            },
        },
{
    u32::from_str_radix(raw, radix).map_err(|error| error.to_string())
}

/// Calls `u64::from_str_radix`: an optional plus sign and digits to the base `radix` are a
/// number, if it fits; the text of the complaint about anything else is named by
/// `u64_complaint`.
#[verifier::external_body]
fn read_u64(raw: &str, radix: u32) -> (result: Result<u64, String>)
    requires
        2 <= radix <= 36,
    ensures
        match result {
            Ok(n) => unsigned(raw@, radix as nat) == Some(n as nat),
            Err(complaint) => {
                &&& unsigned(raw@, radix as nat) matches Some(n) ==> n > u64::MAX
                &&& complaint@ == u64_complaint(raw@, radix)
            },
        },
{
    u64::from_str_radix(raw, radix).map_err(|error| error.to_string())
}

/// A number as it was written: in hexadecimal behind a prefix, or in decimal.
pub ghost struct Written {
    pub digits: Seq<char>,
    pub radix: u32,
}

/// How `raw` is to be read.
pub open spec fn notation(raw: Seq<char>) -> Written {
    if raw.len() >= 2 && raw[0] == '0' && (raw[1] == 'x' || raw[1] == 'X') {
        Written { digits: raw.skip(2), radix: 16 }
    } else {
        Written { digits: raw, radix: 10 }
    }
}

/// The number of 32 bits that `raw` stands for, or the complaint about it.
pub open spec fn auto_u32(raw: Seq<char>) -> Result<u32, Seq<char>> {
    let w = notation(raw);
    match unsigned(w.digits, w.radix as nat) {
        Some(n) if n <= u32::MAX => Ok(n as u32),
        _ => Err(u32_complaint(w.digits, w.radix)),
    }
}

/// The number of 64 bits that `raw` stands for, or the complaint about it.
pub open spec fn auto_u64(raw: Seq<char>) -> Result<u64, Seq<char>> {
    let w = notation(raw);
    match unsigned(w.digits, w.radix as nat) {
        Some(n) if n <= u64::MAX => Ok(n as u64),
        _ => Err(u64_complaint(w.digits, w.radix)),
    }
}

/// What stands behind the prefix of a hexadecimal number.
fn strip_hex(raw: &str) -> (digits: Option<&str>)
    ensures
        digits is Some <==> notation(raw@).radix == 16,
        digits matches Some(d) ==> d@ == notation(raw@).digits,
{
    let len: usize = raw.unicode_len();
    if len >= 2 && raw.get_char(0) == '0' {
        let mark = raw.get_char(1);
        if mark == 'x' || mark == 'X' {
            return Some(raw.substring_char(2, len));
        }
    }
    None
}

/// Reads a number of 32 bits; a complaint comes with whether the number was hexadecimal.
pub fn read_auto_u32(raw: &str) -> (result: Result<u32, (bool, String)>)
    ensures
        match result {
            Ok(n) => auto_u32(raw@) == Ok::<u32, Seq<char>>(n),
            Err((hex, complaint)) => {
                &&& auto_u32(raw@) == Err::<u32, Seq<char>>(complaint@)
                &&& hex == (notation(raw@).radix == 16)
            },
        },
{
    match strip_hex(raw) {
        Some(digits) => match read_u32(digits, 16) {
            Ok(n) => Ok(n),
            Err(complaint) => Err((true, complaint)),
        },
        None => match read_u32(raw, 10) {
            Ok(n) => Ok(n),
            Err(complaint) => Err((false, complaint)),
        },
    }
}

/// Reads a number of 64 bits; a complaint comes with whether the number was hexadecimal.
pub fn read_auto_u64(raw: &str) -> (result: Result<u64, (bool, String)>)
    ensures
        match result {
            Ok(n) => auto_u64(raw@) == Ok::<u64, Seq<char>>(n),
            Err((hex, complaint)) => {
                &&& auto_u64(raw@) == Err::<u64, Seq<char>>(complaint@)
                &&& hex == (notation(raw@).radix == 16)
            },
        },
{
    match strip_hex(raw) {
        Some(digits) => match read_u64(digits, 16) {
            Ok(n) => Ok(n),
            Err(complaint) => Err((true, complaint)),
        },
        None => match read_u64(raw, 10) {
            Ok(n) => Ok(n),
            Err(complaint) => Err((false, complaint)),
        },
    }
}

/// The text of digits reads back as the number they were made from.
proof fn lemma_digits_read_back(n: nat, base: nat)
    requires
        2 <= base <= 16,
    ensures
        number(text::digits(n, base), base) == Some(n),
        text::digits(n, base).len() > 0,
        text::digits(n, base)[0] != '+',
        text::digits(n, base)[0] == '0' ==> n == 0 && text::digits(n, base).len() == 1,
    decreases n,
{
    reveal_strlit("0123456789abcdef");
    let all = text::digits(n, base);
    if n < base {
        assert(all.drop_last() == Seq::<char>::empty());
        assert(number(all.drop_last(), base) == Some(0nat));
        assert(digit_value(text::digit(n as int)) == Some(n));
        assert(0 * base == 0) by (nonlinear_arith);
    } else {
        vstd::arithmetic::div_mod::lemma_div_decreases(n as int, base as int);
        vstd::arithmetic::div_mod::lemma_fundamental_div_mod(n as int, base as int);
        lemma_digits_read_back(n / base, base);
        let low = n % base;
        assert(all.drop_last() == text::digits(n / base, base));
        assert(digit_value(text::digit(low as int)) == Some(low));
        assert((n / base) * base == base * (n / base)) by (nonlinear_arith);
        assert(n / base > 0) by (nonlinear_arith)
            requires
                n >= base,
                base >= 2,
        ;
    }
}

/// Leading zeros do not change a number.
proof fn lemma_zeros_in_front(zeros: nat, digits: Seq<char>, radix: nat)
    requires
        radix >= 2,
        number(digits, radix) is Some,
    ensures
        number(Seq::new(zeros, |i: int| '0') + digits, radix) == number(digits, radix),
    decreases zeros + digits.len(),
{
    let front = Seq::new(zeros, |i: int| '0');
    let all = front + digits;
    if digits.len() > 0 {
        assert(all.drop_last() == front + digits.drop_last());
        assert(number(digits.drop_last(), radix) is Some);
        lemma_zeros_in_front(zeros, digits.drop_last(), radix);
    } else if zeros > 0 {
        let fewer = Seq::new((zeros - 1) as nat, |i: int| '0');
        assert(all.drop_last() == fewer + digits);
        lemma_zeros_in_front((zeros - 1) as nat, digits, radix);
        assert(0 * radix == 0) by (nonlinear_arith);
    }
}

/// A number in decimal reads back as that number.
pub proof fn law_decimal_reads_back(n: u32)
    ensures
        auto_u32(text::dec(n as nat)) == Ok::<u32, Seq<char>>(n),
{
    lemma_digits_read_back(n as nat, 10);
}

/// A number in hexadecimal behind its prefix, in either case of its letter, filled up with zeros
/// to any width, reads back as that number.
pub proof fn law_hexadecimal_reads_back(n: u32, width: nat)
    ensures
        auto_u32("0x"@ + text::hex_padded(n as nat, width)) == Ok::<u32, Seq<char>>(n),
        auto_u32("0X"@ + text::hex_padded(n as nat, width)) == Ok::<u32, Seq<char>>(n),
{
    reveal_strlit("0x");
    reveal_strlit("0X");
    let plain = text::hex(n as nat);
    let digits = text::hex_padded(n as nat, width);
    lemma_digits_read_back(n as nat, 16);
    if plain.len() < width {
        lemma_zeros_in_front((width - plain.len()) as nat, plain, 16);
        assert(digits[0] == '0');
    }
    let raw = "0x"@ + digits;
    assert(raw.skip(2) == digits);
    assert(raw[0] == '0' && raw[1] == 'x');
    let upper = "0X"@ + digits;
    assert(upper.skip(2) == digits);
    assert(upper[0] == '0' && upper[1] == 'X');
}

/// A number of 64 bits in decimal, or in hexadecimal behind its prefix, reads back as that number.
pub proof fn law_long_numbers_read_back(n: u64, width: nat)
    ensures
        auto_u64(text::dec(n as nat)) == Ok::<u64, Seq<char>>(n),
        auto_u64("0x"@ + text::hex_padded(n as nat, width)) == Ok::<u64, Seq<char>>(n),
        auto_u64("0X"@ + text::hex_padded(n as nat, width)) == Ok::<u64, Seq<char>>(n),
{
    reveal_strlit("0x");
    reveal_strlit("0X");
    lemma_digits_read_back(n as nat, 10);
    let plain = text::hex(n as nat);
    let digits = text::hex_padded(n as nat, width);
    lemma_digits_read_back(n as nat, 16);
    if plain.len() < width {
        lemma_zeros_in_front((width - plain.len()) as nat, plain, 16);
        assert(digits[0] == '0');
    }
    let raw = "0x"@ + digits;
    assert(raw.skip(2) == digits);
    assert(raw[0] == '0' && raw[1] == 'x');
    let upper = "0X"@ + digits;
    assert(upper.skip(2) == digits);
    assert(upper[0] == '0' && upper[1] == 'X');
}

/// A plus sign in front of digits changes nothing, and digits there have to be.
pub proof fn law_plus_signs(digits: Seq<char>, radix: nat)
    ensures
        digits.len() > 0 && digits[0] != '+' ==> unsigned(seq!['+'] + digits, radix) == unsigned(
            digits,
            radix,
        ),
        unsigned(seq!['+'], radix) is None,
        unsigned(Seq::empty(), radix) is None,
{
    assert((seq!['+'] + digits).skip(1) == digits);
}

/// The value of a digit: decimal digits count from zero, letters of either case from ten on, and
/// nothing else is a digit.
pub proof fn law_digit_values(c: char)
    ensures
        '0' <= c <= '9' ==> digit_value(c) == Some((c as int - '0' as int) as nat),
        'a' <= c <= 'z' ==> digit_value(c) == Some((c as int - 'a' as int + 10) as nat),
        'A' <= c <= 'Z' ==> digit_value(c) == Some((c as int - 'A' as int + 10) as nat),
        !('0' <= c <= '9') && !('a' <= c <= 'z') && !('A' <= c <= 'Z') ==> digit_value(c) is None,
{
}

/// One more digit makes a number as many times as large as the base says, and adds the digit; what
/// is no digit of the base makes it no number.
pub proof fn law_digits_read(front: Seq<char>, radix: nat, c: char)
    ensures
        number(Seq::empty(), radix) == Some(0nat),
        ({
            let before = number(front, radix);
            let after = number(front.push(c), radix);
            let d = digit_value(c);
            if before is Some && d is Some && d->0 < radix {
                after == Some((before->0 * radix + d->0) as nat)
            } else {
                after is None
            }
        }),
{
    assert(front.push(c).drop_last() == front);
}

/// The prefix of a hexadecimal number is told by its first two characters alone; everything else
/// is decimal, as a whole.
pub proof fn law_prefixes(raw: Seq<char>)
    ensures
        notation("0x"@ + raw).radix == 16 && notation("0x"@ + raw).digits == raw,
        notation("0X"@ + raw).radix == 16 && notation("0X"@ + raw).digits == raw,
        raw.len() > 0 && raw[0] != '0' ==> notation(raw).radix == 10 && notation(raw).digits == raw,
        raw.len() > 1 && raw[1] != 'x' && raw[1] != 'X' ==> notation(raw).radix == 10
            && notation(raw).digits == raw,
        raw.len() < 2 ==> notation(raw).radix == 10 && notation(raw).digits == raw,
{
    reveal_strlit("0x");
    reveal_strlit("0X");
    assert(("0x"@ + raw).skip(2) == raw);
    assert(("0X"@ + raw).skip(2) == raw);
}

/// What reads as a number of 32 bits reads as the same number of 64 bits; numbers that do not fit
/// are refused.
pub proof fn law_widths_agree(raw: Seq<char>)
    ensures
        auto_u32(raw) matches Ok(n) ==> auto_u64(raw) == Ok::<u64, Seq<char>>(n as u64),
        auto_u64(raw) matches Ok(n) ==> (auto_u32(raw) is Ok <==> n <= 0xffff_ffff),
{
}

/// The complaint about a text that is no number is about what stands behind its prefix, if it has
/// one.
pub proof fn law_complaints_about_numbers(raw: Seq<char>)
    ensures
        unsigned(raw, 16) is None ==> auto_u32("0x"@ + raw) == Err::<u32, Seq<char>>(
            u32_complaint(raw, 16),
        ) && auto_u64("0x"@ + raw) == Err::<u64, Seq<char>>(u64_complaint(raw, 16)),
        raw.len() > 0 && raw[0] != '0' && unsigned(raw, 10) is None ==> auto_u32(raw) == Err::<
            u32,
            Seq<char>,
        >(u32_complaint(raw, 10)) && auto_u64(raw) == Err::<u64, Seq<char>>(u64_complaint(raw, 10)),
{
    law_prefixes(raw);
}

} // verus!
