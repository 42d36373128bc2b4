//! Integers written as text and read back.

use crate::text::chars_of;
use vstd::prelude::*;
use vstd::string::*;

verus! {

/// The digit that stands for `value`, in lower case.
pub open spec fn digit_char(value: nat) -> char {
    if value < 10 {
        (48 + value) as u8 as char
    } else {
        (87 + value) as u8 as char
    }
}

fn to_digit_char(value: u64) -> (r: char)
    requires
        value < 16,
    ensures
        r == digit_char(value as nat),
{
    let small: u8 = value as u8;
    if small < 10 {
        (48 + small) as char
    } else {
        (87 + small) as char
    }
}

/// `n` in decimal, without leading zeros.
pub open spec fn decimal(n: nat) -> Seq<char>
    decreases n,
{
    if n < 10 {
        seq![digit_char(n)]
    } else {
        decimal(n / 10).push(digit_char(n % 10))
    }
}

pub fn decimal_text(n: u64) -> (r: String)
    ensures
        r@ == decimal(n as nat),
    decreases n,
{
    if n < 10 {
        let mut r = String::new();
        r.push(to_digit_char(n));
        assert(r@ =~= decimal(n as nat));
        r
    } else {
        let mut r = decimal_text(n / 10);
        r.push(to_digit_char(n % 10));
        r
    }
}

/// `n` in decimal, with a minus sign in front where it is negative.
pub open spec fn signed_decimal(n: int) -> Seq<char> {
    if n < 0 {
        seq!['-'] + decimal((-n) as nat)
    } else {
        decimal(n as nat)
    }
}

pub fn signed_decimal_text(n: i64) -> (r: String)
    ensures
        r@ == signed_decimal(n as int),
{
    if n < 0 {
        let magnitude: u64 = (-(n + 1)) as u64 + 1;
        let mut r = String::new();
        r.push('-');
        r.append(&decimal_text(magnitude));
        assert(r@ =~= seq!['-'] + decimal((-n) as nat));
        r
    } else {
        decimal_text(n as u64)
    }
}

/// The last `width` hexadecimal digits of `n`, in lower case.
pub open spec fn hex_digits(n: nat, width: nat) -> Seq<char>
    decreases width,
{
    if width == 0 {
        seq![]
    } else {
        hex_digits(n / 16, (width - 1) as nat).push(digit_char(n % 16))
    }
}

pub fn hex_text(n: u64, width: u64) -> (r: String)
    ensures
        r@ == hex_digits(n as nat, width as nat),
    decreases width,
{
    if width == 0 {
        let r = String::new();
        assert(r@ =~= hex_digits(n as nat, 0));
        r
    } else {
        let mut r = hex_text(n / 16, width - 1);
        r.push(to_digit_char(n % 16));
        r
    }
}

/// What `c` counts for as a digit.
pub open spec fn digit_value(c: char, radix: nat) -> Option<nat> {
    let u = c as u32;
    let value = if '0' <= c <= '9' {
        (u - 48) as nat
    } else if 'a' <= c <= 'z' {
        (u - 87) as nat
    } else if 'A' <= c <= 'Z' {
        (u - 55) as nat
    } else {
        radix
    };
    if value < radix {
        Some(value)
    } else {
        None
    }
}

fn to_digit_value(c: char, radix: u64) -> (r: Option<u64>)
    ensures
        r is Some == digit_value(c, radix as nat) is Some,
        r matches Some(v) ==> v == digit_value(c, radix as nat)->0,
{
    let u: u64 = c as u64;
    let value: u64 = if '0' <= c && c <= '9' {
        u - 48
    } else if 'a' <= c && c <= 'z' {
        u - 87
    } else if 'A' <= c && c <= 'Z' {
        u - 55
    } else {
        radix
    };
    if value < radix {
        Some(value)
    } else {
        None
    }
}

/// Whether `s` is one digit or more.
pub open spec fn all_digits(s: Seq<char>, radix: nat) -> bool {
    s.len() > 0 && forall|i: int|
        0 <= i < s.len() ==> (#[trigger] digit_value(s[i], radix)) is Some
}

/// The number that the digits of `s` spell.
pub open spec fn number(s: Seq<char>, radix: nat) -> nat
    decreases s.len(),
{
    if s.len() == 0 {
        0
    } else {
        number(s.drop_last(), radix) * radix + digit_value(s.last(), radix).unwrap_or(0)
    }
}

/// `s` without the one sign `sign` that it may begin with.
pub open spec fn without_sign(s: Seq<char>, sign: char) -> Seq<char> {
    if s.len() > 0 && s[0] == sign {
        s.subrange(1, s.len() as int)
    } else {
        s
    }
}

/// The unsigned integer up to `max` that `s` spells: digits after an optional `+`.
pub open spec fn unsigned(s: Seq<char>, radix: nat, max: nat) -> Option<nat> {
    let digits = without_sign(s, '+');
    if all_digits(digits, radix) && number(digits, radix) <= max {
        Some(number(digits, radix))
    } else {
        None
    }
}

proof fn lemma_number_grows(s: Seq<char>, radix: nat, at: int)
    requires
        0 <= at <= s.len(),
        radix > 0,
    ensures
        number(s.take(at), radix) <= number(s, radix),
    decreases s.len(),
{
    if at < s.len() {
        lemma_number_grows(s.drop_last(), radix, at);
        assert(s.drop_last().take(at) =~= s.take(at));
        let n = number(s.drop_last(), radix);
        assert(n * radix >= n) by (nonlinear_arith)
            requires
                radix >= 1,
                n >= 0,
        ;
    } else {
        assert(s.take(at) =~= s);
    }
}

/// The number that the digits from `from` on spell, if it is at most `max`.
fn read_digits(chars: &Vec<char>, from: usize, radix: u64, max: u64) -> (r: Option<u64>)
    requires
        from <= chars.len(),
        2 <= radix <= 36,
    ensures
        ({
            let s = chars@.subrange(from as int, chars@.len() as int);
            match r {
                Some(n) => all_digits(s, radix as nat) && number(s, radix as nat) == n && n <= max,
                None => !(all_digits(s, radix as nat) && number(s, radix as nat) <= max),
            }
        }),
{
    let ghost s = chars@.subrange(from as int, chars@.len() as int);
    if from == chars.len() {
        return None;
    }
    let mut i: usize = from;
    let mut total: u64 = 0;
    while i < chars.len()
        invariant
            from <= i <= chars.len(),
            2 <= radix <= 36,
            s == chars@.subrange(from as int, chars@.len() as int),
            forall|k: int| 0 <= k < i - from ==> (#[trigger] digit_value(s[k], radix as nat)) is Some,
            total == number(s.take(i - from), radix as nat),
            total <= max,
        decreases chars.len() - i,
    {
        assert(s[i - from] == chars@[i as int]);
        match to_digit_value(chars[i], radix) {
            None => {
                assert(digit_value(s[i - from], radix as nat) is None);
                return None;
            },
            Some(d) => {
                proof {
                    let t = s.take(i - from + 1);
                    assert(t.drop_last() =~= s.take(i - from));
                    assert(number(t, radix as nat) == total * radix + d);
                    lemma_number_grows(s, radix as nat, i - from + 1);
                }
                let wide: u128 = total as u128;
                assert(wide * radix + d <= u64::MAX * 36 + 36) by (nonlinear_arith)
                    requires
                        0 <= wide <= u64::MAX,
                        0 <= radix <= 36,
                        0 <= d <= 36,
                ;
                let next: u128 = wide * (radix as u128) + (d as u128);
                if next > max as u128 {
                    return None;
                }
                total = next as u64;
            },
        }
        i += 1;
    }
    assert(s.take(i - from) =~= s);
    Some(total)
}

/// Reads an unsigned integer up to `max`.
pub fn parse_unsigned(s: &str, radix: u64, max: u64) -> (r: Option<u64>)
    requires
        2 <= radix <= 36,
    ensures
        r is Some == unsigned(s@, radix as nat, max as nat) is Some,
        r matches Some(n) ==> n == unsigned(s@, radix as nat, max as nat)->0,
{
    let chars = chars_of(s);
    let from: usize = if chars.len() > 0 && chars[0] == '+' {
        1
    } else {
        0
    };
    proof {
        assert(s@.subrange(from as int, s@.len() as int) =~= without_sign(s@, '+'));
    }
    read_digits(&chars, from, radix, max)
}

/// The 64-bit signed integer that `s` spells: digits after an optional sign.
pub open spec fn signed(s: Seq<char>) -> Option<int> {
    if s.len() > 0 && s[0] == '-' {
        let digits = s.subrange(1, s.len() as int);
        if all_digits(digits, 10) && number(digits, 10) <= 0x8000_0000_0000_0000 {
            Some(-(number(digits, 10) as int))
        } else {
            None
        }
    } else {
        match unsigned(s, 10, i64::MAX as nat) {
            Some(n) => Some(n as int),
            None => None,
        }
    }
}

pub fn parse_signed(s: &str) -> (r: Option<i64>)
    ensures
        r is Some == signed(s@) is Some,
        r matches Some(n) ==> n == signed(s@)->0,
{
    let chars = chars_of(s);
    if chars.len() > 0 && chars[0] == '-' {
        match read_digits(&chars, 1, 10, 0x8000_0000_0000_0000) {
            Some(n) => if n == 0x8000_0000_0000_0000 {
                Some(i64::MIN)
            } else {
                Some(-(n as i64))
            },
            None => None,
        }
    } else {
        match parse_unsigned(s, 10, i64::MAX as u64) {
            Some(n) => Some(n as i64),
            None => None,
        }
    }
}

proof fn lemma_digit_round_trip(value: nat, radix: nat)
    requires
        value < radix <= 16,
    ensures
        digit_value(digit_char(value), radix) == Some(value),
        digit_char(value) != '+',
        digit_char(value) != ':',
{
}

/// A number written in decimal is read back as itself.
pub proof fn decimal_reads_back(n: nat, max: nat)
    requires
        n <= max,
    ensures
        unsigned(decimal(n), 10, max) == Some(n),
        all_digits(decimal(n), 10),
        !decimal(n).contains('+'),
        !decimal(n).contains(':'),
    decreases n,
{
    let s = decimal(n);
    if n < 10 {
        lemma_digit_round_trip(n, 10);
        assert(s.drop_last() =~= seq![]);
        assert(number(s.drop_last(), 10) == 0);
        assert(without_sign(s, '+') == s);
    } else {
        decimal_reads_back(n / 10, max);
        lemma_digit_round_trip(n % 10, 10);
        assert(s.drop_last() =~= decimal(n / 10));
        let head = decimal(n / 10);
        assert forall|i: int| 0 <= i < s.len() implies (#[trigger] digit_value(s[i], 10)) is Some by {
            if i < head.len() {
                assert(s[i] == head[i]);
            }
        }
        assert(without_sign(head, '+') == head) by {
            assert(head.contains(head[0]));
        }
        assert(s[0] == head[0]);
        assert(number(s, 10) == number(head, 10) * 10 + n % 10);
        assert forall|i: int| 0 <= i < s.len() implies s[i] != '+' && s[i] != ':' by {
            if i < head.len() {
                assert(s[i] == head[i]);
                assert(head.contains(head[i]));
            }
        }
        assert(without_sign(s, '+') == s);
    }
}

/// A number written with enough hexadecimal digits is read back as itself.
pub proof fn hex_reads_back(n: nat, width: nat, max: nat)
    requires
        n <= max,
        n < pow16(width),
        width > 0,
    ensures
        unsigned(hex_digits(n, width), 16, max) == Some(n),
        hex_digits(n, width).len() == width,
        !hex_digits(n, width).contains('+'),
        !hex_digits(n, width).contains(':'),
    decreases width,
{
    let s = hex_digits(n, width);
    let head = hex_digits(n / 16, (width - 1) as nat);
    lemma_digit_round_trip(n % 16, 16);
    assert(s.drop_last() =~= head);
    if width > 1 {
        assert(n / 16 < pow16((width - 1) as nat)) by (nonlinear_arith)
            requires
                n < 16 * pow16((width - 1) as nat),
                n >= 0,
        ;
        hex_reads_back(n / 16, (width - 1) as nat, max);
        assert(head.contains(head[0]));
        assert(without_sign(head, '+') == head);
        assert(s[0] == head[0]);
    } else {
        assert(pow16(1) == 16 * pow16(0));
        assert(head =~= seq![]);
    }
    assert forall|i: int| 0 <= i < s.len() implies (#[trigger] digit_value(s[i], 16)) is Some && s[i]
        != '+' && s[i] != ':' by {
        if i < head.len() {
            assert(s[i] == head[i]);
            assert(head.contains(head[i]));
        }
    }
    assert(without_sign(s, '+') == s);
    assert(number(s, 16) == number(head, 16) * 16 + n % 16);
}

/// How many numbers `width` hexadecimal digits can tell apart.
pub open spec fn pow16(width: nat) -> nat
    decreases width,
{
    if width == 0 {
        1
    } else {
        16 * pow16((width - 1) as nat)
    }
}

} // verus!
