//! Parsing and printing of the integers that `/proc` text carries:
//! decimal counters, `0x`-prefixed argument words, octal open-flag fields
//! and hexadecimal signal masks.

use vstd::prelude::*;
use vstd::string::*;

verus! {

/// Value of a decimal digit character, 10 for anything else.
pub open spec fn dec_digit_val(c: char) -> nat {
    if c == '0' {
        0
    } else if c == '1' {
        1
    } else if c == '2' {
        2
    } else if c == '3' {
        3
    } else if c == '4' {
        4
    } else if c == '5' {
        5
    } else if c == '6' {
        6
    } else if c == '7' {
        7
    } else if c == '8' {
        8
    } else if c == '9' {
        9
    } else {
        10
    }
}

/// Extra value of the hexadecimal letter digits, 16 for anything else.
pub open spec fn hex_digit_val(c: char) -> nat {
    if dec_digit_val(c) < 10 {
        dec_digit_val(c)
    } else if c == 'a' || c == 'A' {
        10
    } else if c == 'b' || c == 'B' {
        11
    } else if c == 'c' || c == 'C' {
        12
    } else if c == 'd' || c == 'D' {
        13
    } else if c == 'e' || c == 'E' {
        14
    } else if c == 'f' || c == 'F' {
        15
    } else {
        16
    }
}

pub open spec fn is_dec_digit(c: char) -> bool {
    dec_digit_val(c) < 10
}

pub open spec fn is_hex_digit(c: char) -> bool {
    hex_digit_val(c) < 16
}

/// Value of `s` read as a number in base `radix`, digits taken by
/// [`hex_digit_val`].
pub open spec fn radix_val(s: Seq<char>, radix: nat) -> nat
    decreases s.len(),
{
    if s.len() == 0 {
        0
    } else {
        radix_val(s.drop_last(), radix) * radix + hex_digit_val(s.last())
    }
}

/// All characters of `s` are digits of base `radix`.
pub open spec fn all_digits(s: Seq<char>, radix: nat) -> bool {
    forall|i: int| 0 <= i < s.len() ==> hex_digit_val(#[trigger] s[i]) < radix
}

/// Executable digit reader: the value of `c` in base `radix`, or `None`.
pub fn digit_of(c: char, radix: u32) -> (r: Option<u32>)
    requires
        radix == 8 || radix == 10 || radix == 16,
    ensures
        match r {
            Some(v) => hex_digit_val(c) < radix && v == hex_digit_val(c),
            None => hex_digit_val(c) >= radix,
        },
{
    let v: u32 = if c == '0' {
        0
    } else if c == '1' {
        1
    } else if c == '2' {
        2
    } else if c == '3' {
        3
    } else if c == '4' {
        4
    } else if c == '5' {
        5
    } else if c == '6' {
        6
    } else if c == '7' {
        7
    } else if c == '8' {
        8
    } else if c == '9' {
        9
    } else if c == 'a' || c == 'A' {
        10
    } else if c == 'b' || c == 'B' {
        11
    } else if c == 'c' || c == 'C' {
        12
    } else if c == 'd' || c == 'D' {
        13
    } else if c == 'e' || c == 'E' {
        14
    } else if c == 'f' || c == 'F' {
        15
    } else {
        16
    };
    if v < radix {
        Some(v)
    } else {
        None
    }
}

/// Executable test for [`is_dec_digit`].
pub fn char_is_digit(c: char) -> (r: bool)
    ensures
        r == is_dec_digit(c),
{
    digit_of(c, 10).is_some()
}

/// Executable test for [`is_hex_digit`].
pub fn char_is_hex(c: char) -> (r: bool)
    ensures
        r == is_hex_digit(c),
{
    digit_of(c, 16).is_some()
}

proof fn lemma_radix_val_grows(s: Seq<char>, radix: nat, i: int)
    requires
        2 <= radix,
        0 <= i <= s.len(),
    ensures
        radix_val(s.subrange(0, i), radix) <= radix_val(s, radix),
    decreases s.len() - i,
{
    if i == s.len() {
        assert(s.subrange(0, i) =~= s);
    } else {
        lemma_radix_val_grows(s, radix, i + 1);
        let t = s.subrange(0, i + 1);
        assert(t.drop_last() =~= s.subrange(0, i));
        assert(t.last() == s[i]);
        let a = radix_val(s.subrange(0, i), radix);
        assert(a <= a * radix) by (nonlinear_arith)
            requires
                radix >= 2,
        ;
        assert(radix_val(s.subrange(0, i), radix) <= radix_val(t, radix));
    }
}

/// Parse an unsigned number in base `radix` (8, 10 or 16).  Returns the value
/// exactly when `s` is a non-empty run of digits of that base whose value
/// fits in a `u64`.
pub fn parse_u64_radix(s: &str, radix: u32) -> (r: Option<u64>)
    requires
        radix == 8 || radix == 10 || radix == 16,
    ensures
        match r {
            Some(v) => s@.len() > 0 && all_digits(s@, radix as nat) && v == radix_val(
                s@,
                radix as nat,
            ),
            None => s@.len() == 0 || !all_digits(s@, radix as nat) || radix_val(
                s@,
                radix as nat,
            ) > u64::MAX,
        },
{
    let sl = s.unicode_len();
    if sl == 0 {
        return None;
    }
    let mut acc: u64 = 0;
    let mut i: usize = 0;
    while i < sl
        invariant
            radix == 8 || radix == 10 || radix == 16,
            sl == s@.len(),
            i <= sl,
            forall|k: int| 0 <= k < i ==> hex_digit_val(#[trigger] s@[k]) < radix,
            acc == radix_val(s@.subrange(0, i as int), radix as nat),
        decreases sl - i,
    {
        let c = s.get_char(i);
        let d = match digit_of(c, radix) {
            Some(d) => d,
            None => {
                return None;
            },
        };
        let next = match acc.checked_mul(radix as u64) {
            Some(m) => match m.checked_add(d as u64) {
                Some(a) => a,
                None => {
                    proof {
                        let t = s@.subrange(0, i + 1);
                        assert(t.drop_last() =~= s@.subrange(0, i as int));
                        assert(t.last() == s@[i as int]);
                        lemma_radix_val_grows(s@, radix as nat, i + 1);
                    }
                    return None;
                },
            },
            None => {
                proof {
                    let t = s@.subrange(0, i + 1);
                    assert(t.drop_last() =~= s@.subrange(0, i as int));
                    assert(t.last() == s@[i as int]);
                    assert(radix_val(t, radix as nat) > u64::MAX);
                    lemma_radix_val_grows(s@, radix as nat, i + 1);
                }
                return None;
            },
        };
        proof {
            let t = s@.subrange(0, i + 1);
            assert(t.drop_last() =~= s@.subrange(0, i as int));
            assert(t.last() == s@[i as int]);
        }
        acc = next;
        i += 1;
    }
    proof {
        assert(s@.subrange(0, sl as int) =~= s@);
    }
    Some(acc)
}

/// Parse a decimal `u64`.
pub fn parse_u64_dec(s: &str) -> (r: Option<u64>)
    ensures
        match r {
            Some(v) => s@.len() > 0 && all_digits(s@, 10) && v == radix_val(s@, 10),
            None => s@.len() == 0 || !all_digits(s@, 10) || radix_val(s@, 10) > u64::MAX,
        },
{
    parse_u64_radix(s, 10)
}

/// Parse a decimal `u32`.
pub fn parse_u32_dec(s: &str) -> (r: Option<u32>)
    ensures
        match r {
            Some(v) => s@.len() > 0 && all_digits(s@, 10) && v == radix_val(s@, 10),
            None => s@.len() == 0 || !all_digits(s@, 10) || radix_val(s@, 10) > u32::MAX,
        },
{
    match parse_u64_dec(s) {
        Some(v) => if v <= u32::MAX as u64 {
            Some(v as u32)
        } else {
            None
        },
        None => None,
    }
}

/// The digits of a signed decimal string, an optional leading sign dropped.
pub open spec fn i32_digits(s: Seq<char>) -> Seq<char> {
    if s.len() > 0 && (s[0] == '-' || s[0] == '+') {
        s.drop_first()
    } else {
        s
    }
}

/// Whether a signed decimal string denotes a negative number.
pub open spec fn i32_negative(s: Seq<char>) -> bool {
    s.len() > 0 && s[0] == '-'
}

/// The signed value a decimal string denotes.
pub open spec fn i32_val(s: Seq<char>) -> int {
    if i32_negative(s) {
        -(radix_val(i32_digits(s), 10) as int)
    } else {
        radix_val(i32_digits(s), 10) as int
    }
}

/// Whether a string is a well-formed signed decimal whose value fits `i32`.
pub open spec fn is_i32_str(s: Seq<char>) -> bool {
    let d = i32_digits(s);
    d.len() > 0 && all_digits(d, 10) && i32::MIN <= i32_val(s) <= i32::MAX
}

/// Parse a decimal `i32` with an optional leading sign, as `str::parse::<i32>`
/// reads it.
pub fn parse_i32_dec(s: &str) -> (r: Option<i32>)
    ensures
        match r {
            Some(v) => is_i32_str(s@) && v as int == i32_val(s@),
            None => !is_i32_str(s@),
        },
{
    let sl = s.unicode_len();
    if sl == 0 {
        return None;
    }
    let c0 = s.get_char(0);
    let (neg, digits) = if c0 == '-' {
        (true, s.substring_char(1, sl))
    } else if c0 == '+' {
        (false, s.substring_char(1, sl))
    } else {
        (false, s.substring_char(0, sl))
    };
    proof {
        if c0 == '-' || c0 == '+' {
            assert(s@.subrange(1, sl as int) =~= s@.drop_first());
        } else {
            assert(s@.subrange(0, sl as int) =~= s@);
        }
        assert(digits@ == i32_digits(s@));
    }
    match parse_u64_dec(digits) {
        Some(v) => {
            if neg {
                if v <= 2147483648u64 {
                    Some((0i64 - v as i64) as i32)
                } else {
                    None
                }
            } else {
                if v <= 2147483647u64 {
                    Some(v as i32)
                } else {
                    None
                }
            }
        },
        None => None,
    }
}

/// Decimal digit character for a value below ten.
pub open spec fn digit_char(d: nat) -> char {
    if d == 0 {
        '0'
    } else if d == 1 {
        '1'
    } else if d == 2 {
        '2'
    } else if d == 3 {
        '3'
    } else if d == 4 {
        '4'
    } else if d == 5 {
        '5'
    } else if d == 6 {
        '6'
    } else if d == 7 {
        '7'
    } else if d == 8 {
        '8'
    } else {
        '9'
    }
}

/// Hexadecimal digit character for a value below sixteen, lower case.
pub open spec fn hex_char(d: nat) -> char {
    if d < 10 {
        digit_char(d)
    } else if d == 10 {
        'a'
    } else if d == 11 {
        'b'
    } else if d == 12 {
        'c'
    } else if d == 13 {
        'd'
    } else if d == 14 {
        'e'
    } else {
        'f'
    }
}

/// The decimal digit string of `n`.
pub open spec fn dec_str(n: nat) -> Seq<char>
    decreases n,
{
    if n < 10 {
        seq![digit_char(n)]
    } else {
        dec_str(n / 10) + seq![digit_char(n % 10)]
    }
}

/// The hexadecimal digit string of `n`, lower case, no prefix.
pub open spec fn hex_str(n: nat) -> Seq<char>
    decreases n,
{
    if n < 16 {
        seq![hex_char(n)]
    } else {
        hex_str(n / 16) + seq![hex_char(n % 16)]
    }
}

/// The octal digit string of `n`.
pub open spec fn oct_str(n: nat) -> Seq<char>
    decreases n,
{
    if n < 8 {
        seq![digit_char(n)]
    } else {
        oct_str(n / 8) + seq![digit_char(n % 8)]
    }
}

fn digit_str(d: u64) -> (r: &'static str)
    requires
        d < 10,
    ensures
        r@ == seq![digit_char(d as nat)],
{
    proof {
        reveal_strlit("0");
        reveal_strlit("1");
        reveal_strlit("2");
        reveal_strlit("3");
        reveal_strlit("4");
        reveal_strlit("5");
        reveal_strlit("6");
        reveal_strlit("7");
        reveal_strlit("8");
        reveal_strlit("9");
    }
    if d == 0 {
        "0"
    } else if d == 1 {
        "1"
    } else if d == 2 {
        "2"
    } else if d == 3 {
        "3"
    } else if d == 4 {
        "4"
    } else if d == 5 {
        "5"
    } else if d == 6 {
        "6"
    } else if d == 7 {
        "7"
    } else if d == 8 {
        "8"
    } else {
        "9"
    }
}

pub fn hex_digit_str(d: u64) -> (r: &'static str)
    requires
        d < 16,
    ensures
        r@ == seq![hex_char(d as nat)],
{
    proof {
        reveal_strlit("a");
        reveal_strlit("b");
        reveal_strlit("c");
        reveal_strlit("d");
        reveal_strlit("e");
        reveal_strlit("f");
    }
    if d < 10 {
        digit_str(d)
    } else if d == 10 {
        "a"
    } else if d == 11 {
        "b"
    } else if d == 12 {
        "c"
    } else if d == 13 {
        "d"
    } else if d == 14 {
        "e"
    } else {
        "f"
    }
}

/// `n` printed in decimal.
pub fn u64_to_dec(n: u64) -> (r: String)
    ensures
        r@ == dec_str(n as nat),
    decreases n,
{
    if n < 10 {
        digit_str(n).to_owned()
    } else {
        let mut s = u64_to_dec(n / 10);
        s.append(digit_str(n % 10));
        s
    }
}

/// `n` printed in hexadecimal, lower case, no prefix.
pub fn u64_to_hex(n: u64) -> (r: String)
    ensures
        r@ == hex_str(n as nat),
    decreases n,
{
    if n < 16 {
        hex_digit_str(n).to_owned()
    } else {
        let mut s = u64_to_hex(n / 16);
        s.append(hex_digit_str(n % 16));
        s
    }
}

/// `n` printed in octal.
pub fn u64_to_oct(n: u64) -> (r: String)
    ensures
        r@ == oct_str(n as nat),
    decreases n,
{
    if n < 8 {
        digit_str(n).to_owned()
    } else {
        let mut s = u64_to_oct(n / 8);
        s.append(digit_str(n % 8));
        s
    }
}

/// The decimal string of a signed value: a minus sign before the digits of
/// its magnitude when it is negative.
pub open spec fn dec_str_i64(n: int) -> Seq<char> {
    if n < 0 {
        seq!['-'] + dec_str((0 - n) as nat)
    } else {
        dec_str(n as nat)
    }
}

/// `n` printed in decimal, with a sign when negative.
pub fn i64_to_dec(n: i64) -> (r: String)
    ensures
        r@ == dec_str_i64(n as int),
{
    if n >= 0 {
        u64_to_dec(n as u64)
    } else {
        proof {
            reveal_strlit("-");
        }
        let mag: u64 = if n == i64::MIN {
            9223372036854775808u64
        } else {
            (0i64 - n) as u64
        };
        let mut s = "-".to_owned();
        s.append(u64_to_dec(mag).as_str());
        s
    }
}

/// `n` printed in decimal, with a sign when negative.
pub fn i32_to_dec(n: i32) -> (r: String)
    ensures
        r@ == dec_str_i64(n as int),
{
    i64_to_dec(n as i64)
}

/// Major part of a Linux `dev_t` packed into 32 bits.
pub fn linux_major(dev: u32) -> (r: u32)
    ensures
        r == (dev >> 8) & 0xfff,
{
    (dev >> 8) & 0xfff
}

/// Minor part of a Linux `dev_t` packed into 32 bits.
pub fn linux_minor(dev: u32) -> (r: u32)
    ensures
        r == (dev & 0xff) | ((dev >> 12) & 0xfff00),
{
    (dev & 0xff) | ((dev >> 12) & 0xfff00)
}

} // verus!
