//! Numbers as text.

use vstd::prelude::*;

verus! {

/// The character of the digit `d`, in lower case.
pub open spec fn digit(d: int) -> char {
    "0123456789abcdef"@[d]
}

/// `n` in positional notation to the base `base`, without leading zeros.
pub open spec fn digits(n: nat, base: nat) -> Seq<char>
    decreases n,
{
    if n < base || base < 2 {
        seq![digit(n as int)]
    } else {
        proof {
            vstd::arithmetic::div_mod::lemma_div_decreases(n as int, base as int);
        }
        digits(n / base, base).push(digit((n % base) as int))
    }
}

/// `n` in decimal.
pub open spec fn dec(n: nat) -> Seq<char> {
    digits(n, 10)
}

/// `n` in decimal, with a sign if it is negative.
pub open spec fn signed(n: int) -> Seq<char> {
    if n < 0 {
        "-"@ + dec((-n) as nat)
    } else {
        dec(n as nat)
    }
}

/// `n` in hexadecimal.
pub open spec fn hex(n: nat) -> Seq<char> {
    digits(n, 16)
}

/// `text` filled up with zeros in front to `width` characters.
pub open spec fn zero_padded(text: Seq<char>, width: nat) -> Seq<char> {
    if text.len() >= width {
        text
    } else {
        Seq::new((width - text.len()) as nat, |i: int| '0') + text
    }
}

/// `n` in hexadecimal, filled up with zeros to `width` digits.
pub open spec fn hex_padded(n: nat, width: nat) -> Seq<char> {
    zero_padded(hex(n), width)
}

fn to_digits(n: u64, base: u64) -> (text: String)
    requires
        2 <= base <= 16,
    ensures
        text@ == digits(n as nat, base as nat),
    decreases n,
{
    let all = "0123456789abcdef";
    proof {
        reveal_strlit("0123456789abcdef");
    }
    if n < base {
        let text = all.substring_char(n as usize, n as usize + 1).to_owned();
        assert(text@ == seq![digit(n as int)]);
        text
    } else {
        proof {
            vstd::arithmetic::div_mod::lemma_div_decreases(n as int, base as int);
        }
        let low: usize = (n % base) as usize;
        let text = to_digits(n / base, base).concat(all.substring_char(low, low + 1));
        assert(text@ == digits((n / base) as nat, base as nat).push(digit(low as int)));
        text
    }
}

/// `n` in decimal.
pub fn to_dec(n: u64) -> (text: String)
    ensures
        text@ == dec(n as nat),
{
    to_digits(n, 10)
}

/// `n` in decimal, with a sign if it is negative.
pub fn to_signed(n: i32) -> (text: String)
    ensures
        text@ == signed(n as int),
{
    if n < 0 {
        "-".to_owned().concat(to_dec((-(n as i64)) as u64).as_str())
    } else {
        to_dec(n as u64)
    }
}

/// `n` in hexadecimal.
pub fn to_hex(n: u32) -> (text: String)
    ensures
        text@ == hex(n as nat),
{
    to_digits(n as u64, 16)
}

/// `n` in hexadecimal, filled up with zeros to `width` digits.
pub fn to_hex_padded(n: u32, width: usize) -> (text: String)
    ensures
        text@ == hex_padded(n as nat, width as nat),
{
    let mut text = to_hex(n);
    let ghost plain = text@;
    let mut len: usize = text.as_str().unicode_len();
    proof {
        reveal_strlit("0");
        assert("0"@ == seq!['0']);
    }
    while len < width
        invariant
            "0"@ == seq!['0'],
            plain.len() <= len == text@.len(),
            len <= width || text@ == plain,
            text@ == Seq::new((len - plain.len()) as nat, |i: int| '0') + plain,
        decreases width - len,
    {
        text = "0".to_owned().concat(text.as_str());
        len = len + 1;
    }
    text
}

/// Whether two texts are the same.
pub fn same(a: &str, b: &str) -> (equal: bool)
    ensures
        equal == (a@ == b@),
{
    let a = a.to_owned();
    let b = b.to_owned();
    a == b
}

/// A number with less than `width` places to the base `base` beyond it has no more digits.
proof fn lemma_digits_len(n: nat, base: nat, width: nat)
    requires
        base >= 2,
        width >= 1,
        n < vstd::arithmetic::power::pow(base as int, width),
    ensures
        1 <= digits(n, base).len() <= width,
    decreases width,
{
    if n >= base {
        if width == 1 {
            vstd::arithmetic::power::lemma_pow1(base as int);
        } else {
            vstd::arithmetic::power::lemma_pow_adds(base as int, 1, (width - 1) as nat);
            vstd::arithmetic::power::lemma_pow1(base as int);
            let top = vstd::arithmetic::power::pow(base as int, (width - 1) as nat);
            vstd::arithmetic::div_mod::lemma_multiply_divide_lt(n as int, base as int, top);
            lemma_digits_len(n / base, base, (width - 1) as nat);
        }
    }
}

/// A number of 32 bits has at most eight hexadecimal digits, and exactly eight when it is filled
/// up to eight.
pub proof fn law_eight_digits(n: u32)
    ensures
        hex(n as nat).len() <= 8,
        hex_padded(n as nat, 8).len() == 8,
{
    vstd::arithmetic::power2::lemma2_to64();
    vstd::arithmetic::power::lemma_pow_multiplies(2, 4, 8);
    vstd::arithmetic::power2::lemma_pow2(32);
    vstd::arithmetic::power2::lemma_pow2(4);
    lemma_digits_len(n as nat, 16, 8);
}

/// A byte has at most two hexadecimal digits, and exactly two when it is filled up to two.
pub proof fn law_two_digits(b: u8)
    ensures
        hex(b as nat).len() <= 2,
        hex_padded(b as nat, 2).len() == 2,
{
    vstd::arithmetic::power2::lemma2_to64();
    vstd::arithmetic::power::lemma_pow_multiplies(2, 4, 2);
    vstd::arithmetic::power2::lemma_pow2(8);
    vstd::arithmetic::power2::lemma_pow2(4);
    lemma_digits_len(b as nat, 16, 2);
}

/// The characters of the digits: from `0` to `9`, then from `a` on.
pub proof fn law_digit_characters(d: int)
    requires
        0 <= d < 16,
    ensures
        d < 10 ==> digit(d) as int == '0' as int + d,
        d >= 10 ==> digit(d) as int == 'a' as int + d - 10,
{
    reveal_strlit("0123456789abcdef");
}

/// Ten times a number and another digit are written as the number with that digit behind it.
pub proof fn law_decimal_places(n: nat, d: int)
    requires
        0 <= d < 10,
    ensures
        n > 0 ==> dec(10 * n + d as nat) == dec(n).push(('0' as int + d) as char),
        dec(d as nat) == seq![('0' as int + d) as char],
{
    law_digit_characters(d);
    let m = 10 * n + d as nat;
    assert(m / 10 == n && m % 10 == d);
}

/// Sixteen times a number and another digit are written in hexadecimal as the number with that
/// digit behind it, in lower case.
pub proof fn law_hexadecimal_places(n: nat, d: int)
    requires
        0 <= d < 16,
    ensures
        n > 0 ==> hex(16 * n + d as nat) == hex(n).push(
            if d < 10 {
                ('0' as int + d) as char
            } else {
                ('a' as int + d - 10) as char
            },
        ),
        hex(d as nat) == seq![
            if d < 10 {
                ('0' as int + d) as char
            } else {
                ('a' as int + d - 10) as char
            },
        ],
{
    law_digit_characters(d);
    let m = 16 * n + d as nat;
    assert(m / 16 == n && m % 16 == d);
}

/// A number and its opposite differ in the sign in front alone.
pub proof fn law_signs(n: nat)
    ensures
        signed(n as int) == dec(n),
        n > 0 ==> signed(-(n as int)) == seq!['-'] + dec(n),
{
    reveal_strlit("-");
    if n > 0 {
        assert("-"@ == seq!['-']);
    }
}

/// Filling up keeps the text at the end, puts only zeros in front of it, and gives the asked-for
/// length unless the text is longer.
pub proof fn law_filled_up(text: Seq<char>, width: nat)
    ensures
        ({
            let filled = zero_padded(text, width);
            let front = filled.len() - text.len();
            &&& text.len() <= width ==> filled.len() == width
            &&& text.len() >= width ==> filled == text
            &&& filled.skip(front) == text
            &&& forall|i: int| 0 <= i < front ==> filled[i] == '0'
        }),
        forall|n: nat| hex_padded(n, width).len() >= width,
        forall|n: nat|
            hex(n) == #[trigger] hex_padded(n, width).skip(
                hex_padded(n, width).len() - hex(n).len(),
            ),
{
    assert(zero_padded(text, width).skip(zero_padded(text, width).len() - text.len()) == text);
    assert forall|n: nat| hex(n) == #[trigger] hex_padded(n, width).skip(
        hex_padded(n, width).len() - hex(n).len(),
    ) by {
        assert(hex(n) =~= hex_padded(n, width).skip(hex_padded(n, width).len() - hex(n).len()));
    }
}

} // verus!
