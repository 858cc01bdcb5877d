//! Integers written as digit strings in base 2, 8, 10 or 16, and read back.
use vstd::prelude::*;
use crate::text::{chars_of, string_of};

verus! {

/// A numeral base, with the letter case of hexadecimal digits.
#[derive(Clone, Copy, Debug, PartialEq, Eq, Structural)]
pub enum Radix {
    Binary,
    Octal,
    Decimal,
    LowerHex,
    UpperHex,
}

pub open spec fn base(r: Radix) -> nat {
    match r {
        Radix::Binary => 2,
        Radix::Octal => 8,
        Radix::Decimal => 10,
        Radix::LowerHex => 16,
        Radix::UpperHex => 16,
    }
}

/// The character written for digit `d` (below 16).
pub open spec fn digit_char(d: nat, upper: bool) -> char {
    if d < 10 {
        ((48 + d) as u8) as char
    } else if upper {
        ((55 + d) as u8) as char
    } else {
        ((87 + d) as u8) as char
    }
}

/// The value of character `c` as a digit of base `b`, if it is one; letters
/// are read in either case.
pub open spec fn digit_value(c: char, b: nat) -> Option<nat> {
    let d: int = if '0' <= c && c <= '9' {
        c as int - '0' as int
    } else if 'a' <= c && c <= 'z' {
        c as int - 'a' as int + 10
    } else if 'A' <= c && c <= 'Z' {
        c as int - 'A' as int + 10
    } else {
        b as int
    };
    if d < b { Some(d as nat) } else { None }
}

/// The digits of `n` in base `b`, most significant first, without leading zeros.
pub open spec fn digits(n: nat, b: nat, upper: bool) -> Seq<char>
    decreases n
    via digits_decreases
{
    if b < 2 || n < b {
        seq![digit_char(n % 16, upper)]
    } else {
        digits(n / b, b, upper).push(digit_char(n % b, upper))
    }
}

#[via_fn]
proof fn digits_decreases(n: nat, b: nat, upper: bool) {
    if !(b < 2 || n < b) {
        assert(n / b < n) by (nonlinear_arith)
            requires
                b >= 2,
                n >= b,
        ;
    }
}

/// `n` written in radix `r`, with a leading `-` when negative.
pub open spec fn render_spec(n: int, r: Radix) -> Seq<char> {
    let ds = digits(abs(n), base(r), r == Radix::UpperHex);
    if n < 0 { seq!['-'] + ds } else { ds }
}

pub open spec fn abs(n: int) -> nat {
    if n < 0 { (-n) as nat } else { n as nat }
}

/// Whether every character of `s` is a digit of base `b`.
pub open spec fn all_digits(s: Seq<char>, b: nat) -> bool {
    forall|i: int| 0 <= i < s.len() ==> (#[trigger] digit_value(s[i], b)).is_some()
}

/// The number that the digits `s` of base `b` denote.
pub open spec fn value_of(s: Seq<char>, b: nat) -> nat
    decreases s.len(),
{
    if s.len() == 0 {
        0
    } else {
        value_of(s.drop_last(), b) * b + digit_value(s.last(), b).unwrap_or(0)
    }
}

pub open spec fn has_sign(s: Seq<char>) -> bool {
    s.len() > 0 && s[0] == '-'
}

/// `s` without its leading `-`, if any.
pub open spec fn unsigned_part(s: Seq<char>) -> Seq<char> {
    if has_sign(s) { s.drop_first() } else { s }
}

/// The integer that `s` denotes in radix `r`: an optional `-`, then one or
/// more digits; `None` when `s` has another form or the value leaves `i128`.
pub open spec fn parse_spec(s: Seq<char>, r: Radix) -> Option<int> {
    let neg = has_sign(s);
    let ds = unsigned_part(s);
    let v: int = if neg { -value_of(ds, base(r)) } else { value_of(ds, base(r)) as int };
    if ds.len() > 0 && all_digits(ds, base(r)) && i128::MIN <= v <= i128::MAX {
        Some(v)
    } else {
        None
    }
}

fn base_of(r: Radix) -> (b: u32)
    ensures
        b == base(r),
{
    match r {
        Radix::Binary => 2,
        Radix::Octal => 8,
        Radix::Decimal => 10,
        Radix::LowerHex => 16,
        Radix::UpperHex => 16,
    }
}

fn digit_to_char(d: u32, upper: bool) -> (c: char)
    requires
        d < 16,
    ensures
        c == digit_char(d as nat, upper),
{
    let d8 = d as u8;
    if d < 10 {
        (48 + d8) as char
    } else if upper {
        (55 + d8) as char
    } else {
        (87 + d8) as char
    }
}

/// The value of `c` as a digit of base `b`.
fn char_digit(c: char, b: u32) -> (r: Option<u32>)
    requires
        2 <= b <= 16,
    ensures
        r matches Some(d) ==> digit_value(c, b as nat) == Some(d as nat),
        r is None ==> digit_value(c, b as nat) is None,
{
    let d: u32 = if '0' <= c && c <= '9' {
        c as u32 - '0' as u32
    } else if 'a' <= c && c <= 'z' {
        c as u32 - 'a' as u32 + 10
    } else if 'A' <= c && c <= 'Z' {
        c as u32 - 'A' as u32 + 10
    } else {
        b
    };
    if d < b { Some(d) } else { None }
}

/// Appends the digits of `n` in base `b` to `out`.
fn push_digits(n: u128, b: u32, upper: bool, out: &mut Vec<char>)
    requires
        2 <= b <= 16,
    ensures
        final(out)@ == old(out)@ + digits(n as nat, b as nat, upper),
    decreases n,
{
    let b128 = b as u128;
    if n < b128 {
        out.push(digit_to_char(n as u32, upper));
        assert(digits(n as nat, b as nat, upper) == seq![digit_char(n as nat % 16, upper)]);
        assert(n as nat % 16 == n as nat);
    } else {
        let q = n / b128;
        let m = n % b128;
        assert(q < n) by (nonlinear_arith)
            requires
                b128 >= 2,
                n >= b128,
                q == n / b128,
        ;
        push_digits(q, b, upper, out);
        out.push(digit_to_char(m as u32, upper));
    }
}

/// The absolute value of `n`, which always fits a `u128`.
fn magnitude(n: i128) -> (m: u128)
    ensures
        m as nat == abs(n as int),
{
    if n < 0 {
        ((-(n + 1)) as u128) + 1
    } else {
        n as u128
    }
}

/// The characters of `n` written in radix `r`.
pub fn render_chars(n: i128, r: Radix) -> (s: Vec<char>)
    ensures
        s@ == render_spec(n as int, r),
{
    let mut s: Vec<char> = Vec::new();
    if n < 0 {
        s.push('-');
    }
    push_digits(magnitude(n), base_of(r), r == Radix::UpperHex, &mut s);
    s
}

/// `n` written in radix `r`: a `-` when negative, then its digits, most
/// significant first, without leading zeros (`0` alone for zero).
pub fn render_integer(n: i128, r: Radix) -> (s: String)
    ensures
        s@ == render_spec(n as int, r),
{
    string_of(&render_chars(n, r))
}

proof fn lemma_value_of_step(s: Seq<char>, i: int, b: nat)
    requires
        0 <= i < s.len(),
    ensures
        value_of(s.take(i + 1), b) == value_of(s.take(i), b) * b + digit_value(s[i], b).unwrap_or(0),
{
    assert(s.take(i + 1).drop_last() =~= s.take(i));
}

proof fn lemma_value_of_grows(s: Seq<char>, i: int, j: int, b: nat)
    requires
        0 <= i <= j <= s.len(),
        b >= 1,
    ensures
        value_of(s.take(i), b) <= value_of(s.take(j), b),
    decreases j - i,
{
    if i < j {
        lemma_value_of_grows(s, i, j - 1, b);
        lemma_value_of_step(s, j - 1, b);
        let v = value_of(s.take(j - 1), b);
        assert(v <= v * b) by (nonlinear_arith)
            requires
                b >= 1,
        ;
    }
}

/// The integer that `s` denotes in radix `r` (hexadecimal letters in either
/// case), or `None` when it is not an optional `-` followed by one or more
/// digits, or its value does not fit an `i128`.
pub fn parse_chars(s: &Vec<char>, r: Radix) -> (v: Option<i128>)
    ensures
        v matches Some(x) ==> parse_spec(s@, r) == Some(x as int),
        v is None ==> parse_spec(s@, r) is None,
{
    let b = base_of(r);
    let neg = s.len() > 0 && s[0] == '-';
    let start: usize = if neg { 1 } else { 0 };
    let ghost ds = unsigned_part(s@);
    assert(neg == has_sign(s@));
    assert(ds =~= s@.subrange(start as int, s@.len() as int));
    if s.len() <= start {
        return None;
    }
    let limit: u128 = if neg { 0x8000_0000_0000_0000_0000_0000_0000_0000 } else { 0x7fff_ffff_ffff_ffff_ffff_ffff_ffff_ffff };
    let mut acc: u128 = 0;
    let mut i: usize = start;
    while i < s.len()
        invariant
            b == base(r),
            2 <= b <= 16,
            start <= i <= s@.len(),
            ds == s@.subrange(start as int, s@.len() as int),
            ds == unsigned_part(s@),
            neg == has_sign(s@),
            acc as nat == value_of(ds.take(i - start), b as nat),
            acc <= limit,
            all_digits(ds.take(i - start), b as nat),
            limit == if neg { 0x8000_0000_0000_0000_0000_0000_0000_0000u128 } else { 0x7fff_ffff_ffff_ffff_ffff_ffff_ffff_ffffu128 },
        decreases s.len() - i,
    {
        let ghost k = (i - start) as int;
        assert(ds[k] == s@[i as int]);
        proof {
            lemma_value_of_step(ds, k, b as nat);
        }
        match char_digit(s[i], b) {
            None => {
                assert(!all_digits(ds, b as nat)) by {
                    assert(digit_value(ds[k], b as nat) is None);
                }
                return None;
            },
            Some(d) => {
                if acc > (limit - d as u128) / b as u128 {
                    assert(acc as int * b as int + d as int > limit as int) by (nonlinear_arith)
                        requires
                            acc as int > (limit as int - d as int) / b as int,
                            b >= 2,
                            d < b,
                            d <= limit,
                    ;
                    proof {
                        lemma_value_of_grows(ds, k + 1, ds.len() as int, b as nat);
                        assert(ds.take(ds.len() as int) =~= ds);
                    }
                    return None;
                }
                assert(acc as int * b as int + d as int <= limit as int) by (nonlinear_arith)
                    requires
                        acc as int <= (limit as int - d as int) / b as int,
                        b >= 2,
                        d <= limit,
                ;
                acc = acc * b as u128 + d as u128;
                assert forall|j: int| 0 <= j < k + 1 implies (#[trigger] digit_value(ds.take(k + 1)[j], b as nat)).is_some() by {
                    if j < k {
                        assert(ds.take(k + 1)[j] == ds.take(k)[j]);
                    }
                }
                i = i + 1;
            },
        }
    }
    assert(ds.take(i - start) =~= ds);
    if neg {
        if acc == limit {
            Some(i128::MIN)
        } else {
            Some(-(acc as i128))
        }
    } else {
        Some(acc as i128)
    }
}

/// The integer that `s` denotes in radix `r`; see [`parse_chars`].
pub fn parse_integer(s: &str, r: Radix) -> (v: Option<i128>)
    ensures
        v matches Some(x) ==> parse_spec(s@, r) == Some(x as int),
        v is None ==> parse_spec(s@, r) is None,
{
    parse_chars(&chars_of(s), r)
}

proof fn lemma_digit_round_trip(d: nat, b: nat, upper: bool)
    requires
        d < b <= 16,
    ensures
        digit_value(digit_char(d, upper), b) == Some(d),
        digit_char(d, upper) != '-',
{
}

proof fn lemma_digits(n: nat, b: nat, upper: bool)
    requires
        2 <= b <= 16,
    ensures
        digits(n, b, upper).len() > 0,
        all_digits(digits(n, b, upper), b),
        value_of(digits(n, b, upper), b) == n,
        digits(n, b, upper)[0] != '-',
    decreases n,
{
    let ds = digits(n, b, upper);
    if n < b {
        lemma_digit_round_trip(n, b, upper);
        assert(n % 16 == n);
        assert(ds.drop_last() =~= Seq::<char>::empty());
        assert(value_of(ds.drop_last(), b) == 0);
        assert(value_of(ds, b) == 0 * b + n);
    } else {
        assert(n / b < n) by (nonlinear_arith)
            requires
                b >= 2,
                n >= b,
        ;
        lemma_digits(n / b, b, upper);
        lemma_digit_round_trip(n % b, b, upper);
        let front = digits(n / b, b, upper);
        assert(ds.drop_last() =~= front);
        assert forall|i: int| 0 <= i < ds.len() implies (#[trigger] digit_value(ds[i], b)).is_some() by {
            if i < front.len() {
                assert(ds[i] == front[i]);
            }
        }
        assert(n == (n / b) * b + n % b) by (nonlinear_arith)
            requires
                b >= 2,
        ;
        assert(ds.last() == digit_char(n % b, upper));
        assert(value_of(ds, b) == value_of(front, b) * b + n % b);
    }
}

/// Rendering an integer in a radix and reading the text back in the same
/// radix gives the integer again.
pub proof fn lemma_render_parse_round_trip(n: int, r: Radix)
    requires
        i128::MIN <= n <= i128::MAX,
    ensures
        parse_spec(render_spec(n, r), r) == Some(n),
{
    let s = render_spec(n, r);
    let ds = digits(abs(n), base(r), r == Radix::UpperHex);
    lemma_digits(abs(n), base(r), r == Radix::UpperHex);
    if n < 0 {
        assert(s.drop_first() =~= ds);
    }
}

} // verus!
