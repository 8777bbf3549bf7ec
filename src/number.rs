//! The texts of numbers: integer literals with a base prefix, decimal
//! floating-point literals, and the decimal form of an integer.

use vstd::prelude::*;
use crate::tokenize::chars_of;

verus! {

pub open spec fn is_digit(c: char) -> bool {
    '0' <= c && c <= '9'
}

/// The value of `c` as a digit of a base up to 36 (letters of either case
/// count from ten); 36 for any other character.
pub open spec fn digit_value(c: char) -> int {
    if '0' <= c && c <= '9' {
        c as int - '0' as int
    } else if 'a' <= c && c <= 'z' {
        c as int - 'a' as int + 10
    } else if 'A' <= c && c <= 'Z' {
        c as int - 'A' as int + 10
    } else {
        36
    }
}

/// One where `s` starts with a sign, else zero.
pub open spec fn sign_len(s: Seq<char>) -> int {
    if s.len() > 0 && (s[0] == '+' || s[0] == '-') {
        1
    } else {
        0
    }
}

/// The base that the prefix of `s` (`0x`, `0o`, `0b`, else none) names.
pub open spec fn radix_of(s: Seq<char>) -> int {
    if s.len() >= 2 && s[0] == '0' && s[1] == 'x' {
        16
    } else if s.len() >= 2 && s[0] == '0' && s[1] == 'o' {
        8
    } else if s.len() >= 2 && s[0] == '0' && s[1] == 'b' {
        2
    } else {
        10
    }
}

/// Digits of base `radix` with underscores among them: at least one digit,
/// and in base ten no underscore ahead of the first digit.
pub open spec fn valid_digits(d: Seq<char>, radix: int) -> bool {
    &&& forall|j: int| 0 <= j < d.len() ==> d[j] == '_' || digit_value(#[trigger] d[j]) < radix
    &&& exists|j: int| 0 <= j < d.len() && #[trigger] d[j] != '_'
    &&& (radix == 10 ==> d[0] != '_')
}

/// The number that the digits `d` spell in base `radix`, underscores skipped.
pub open spec fn digits_value(d: Seq<char>, radix: int) -> int
    decreases d.len(),
{
    if d.len() == 0 {
        0
    } else if d.last() == '_' {
        digits_value(d.drop_last(), radix)
    } else {
        digits_value(d.drop_last(), radix) * radix + digit_value(d.last())
    }
}

/// The integer that `s` spells as a literal: an optional sign, an optional
/// base prefix, then digits with underscores among them; of any size.
pub open spec fn integer_text_value(s: Seq<char>) -> Option<int> {
    let body = s.skip(sign_len(s));
    let radix = radix_of(body);
    let d = body.skip(if radix == 10 { 0int } else { 2int });
    if valid_digits(d, radix) {
        Some(
            if s[0] == '-' {
                -digits_value(d, radix)
            } else {
                digits_value(d, radix)
            },
        )
    } else {
        None
    }
}

/// What `strtoint::<i128>` returns on `s`: the literal's value where it fits.
pub open spec fn strtoint_i128(s: Seq<char>) -> Option<int> {
    match integer_text_value(s) {
        Some(v) => if i128::MIN <= v <= i128::MAX {
            Some(v)
        } else {
            None
        },
        None => None,
    }
}

/// The value of the signed literal `s`, where it fits an `isize`.
pub open spec fn signed_value(s: Seq<char>) -> Option<int> {
    match strtoint_i128(s) {
        Some(v) => if isize::MIN <= v <= isize::MAX {
            Some(v)
        } else {
            None
        },
        None => None,
    }
}

/// The value of the unsigned literal `s` (no minus sign), where it is at most
/// `max`.
pub open spec fn unsigned_value(s: Seq<char>, max: int) -> Option<int> {
    match strtoint_i128(s) {
        Some(v) => if s[0] != '-' && 0 <= v <= max {
            Some(v)
        } else {
            None
        },
        None => None,
    }
}

/// Relies on `strtoint::strtoint::<i128>`: an optional `+` or `-`, an optional
/// prefix `0x`, `0o` or `0b`, then one or more digits of that base with
/// underscores among them (none ahead of the first digit in base ten); the
/// value when it fits an `i128`, else an error.
#[verifier::external_body]
fn strtoint_wide(s: &str) -> (r: Option<i128>)
    ensures
        match r {
            Some(v) => strtoint_i128(s@) == Some(v as int),
            None => strtoint_i128(s@) is None,
        },
{
    strtoint::strtoint::<i128>(s).ok()
}

/// Parses a signed integer literal into an `isize`.
pub fn parse_isize(s: &str) -> (r: Option<isize>)
    ensures
        match r {
            Some(v) => signed_value(s@) == Some(v as int),
            None => signed_value(s@) is None,
        },
{
    match strtoint_wide(s) {
        Some(v) => if isize::MIN as i128 <= v && v <= isize::MAX as i128 {
            Some(v as isize)
        } else {
            None
        },
        None => None,
    }
}

/// Whether `s` starts with a minus sign.
fn starts_negative(s: &str) -> (r: bool)
    ensures
        r == (s@.len() > 0 && s@[0] == '-'),
{
    let cs = chars_of(s);
    cs.len() > 0 && cs[0] == '-'
}

/// Parses an unsigned integer literal into a `usize`.
pub fn parse_usize(s: &str) -> (r: Option<usize>)
    ensures
        match r {
            Some(v) => unsigned_value(s@, usize::MAX as int) == Some(v as int),
            None => unsigned_value(s@, usize::MAX as int) is None,
        },
{
    let neg = starts_negative(s);
    match strtoint_wide(s) {
        Some(v) => if !neg && 0 <= v && v <= usize::MAX as i128 {
            Some(v as usize)
        } else {
            None
        },
        None => None,
    }
}

/// Parses an unsigned integer literal into a `u32`.
pub fn parse_u32(s: &str) -> (r: Option<u32>)
    ensures
        match r {
            Some(v) => unsigned_value(s@, u32::MAX as int) == Some(v as int),
            None => unsigned_value(s@, u32::MAX as int) is None,
        },
{
    let neg = starts_negative(s);
    match strtoint_wide(s) {
        Some(v) => if !neg && 0 <= v && v <= u32::MAX as i128 {
            Some(v as u32)
        } else {
            None
        },
        None => None,
    }
}

/// The number of decimal digits that `s` starts with.
pub open spec fn lead_digits(s: Seq<char>) -> nat
    decreases s.len(),
{
    if s.len() > 0 && is_digit(s[0]) {
        1 + lead_digits(s.drop_first())
    } else {
        0
    }
}

/// An exponent: `e` or `E`, an optional sign, one or more digits.
pub open spec fn is_exponent(r: Seq<char>) -> bool {
    let y = r.skip(1);
    let z = y.skip(sign_len(y));
    r.len() >= 1 && (r[0] == 'e' || r[0] == 'E') && z.len() > 0 && lead_digits(z) == z.len()
}

/// A decimal number: digits, a point, digits (one side of the point may be
/// empty, and the point may be left out), then an optional exponent.
pub open spec fn is_decimal(b: Seq<char>) -> bool {
    let a = lead_digits(b);
    let r = b.skip(a as int);
    if r.len() > 0 && r[0] == '.' {
        let f = lead_digits(r.skip(1));
        let r2 = r.skip(1 + f as int);
        a + f > 0 && (r2.len() == 0 || is_exponent(r2))
    } else {
        a > 0 && (r.len() == 0 || is_exponent(r))
    }
}

/// `c` is the lower-case letter `l`, or its upper case.
pub open spec fn same_letter(c: char, l: char) -> bool {
    c == l || ('A' <= c && c <= 'Z' && c as u32 + 32 == l as u32)
}

/// `b` is the lower-case word `w`, in any mix of cases.
pub open spec fn is_word(b: Seq<char>, w: Seq<char>) -> bool {
    b.len() == w.len() && forall|j: int| 0 <= j < b.len() ==> same_letter(#[trigger] b[j], w[j])
}

/// The text of a floating-point literal: an optional sign, then a decimal
/// number or one of the words `inf`, `infinity`, `nan` in any case.
pub open spec fn is_float_text(s: Seq<char>) -> bool {
    let b = s.skip(sign_len(s));
    is_decimal(b) || is_word(b, "inf"@) || is_word(b, "infinity"@) || is_word(b, "nan"@)
}

/// The number of digits in `cs` from `start` on, before the first other
/// character.
fn count_digits(cs: &Vec<char>, start: usize) -> (r: usize)
    requires
        start <= cs@.len(),
    ensures
        r == lead_digits(cs@.skip(start as int)),
        start + r <= cs@.len(),
{
    let mut j: usize = start;
    while j < cs.len() && '0' <= cs[j] && cs[j] <= '9'
        invariant
            start <= j <= cs@.len(),
            lead_digits(cs@.skip(start as int)) == (j - start) + lead_digits(cs@.skip(j as int)),
        decreases cs@.len() - j,
    {
        assert(cs@.skip(j as int).drop_first() =~= cs@.skip(j + 1));
        j += 1;
    }
    j - start
}

fn sign_len_at(cs: &Vec<char>, start: usize) -> (r: usize)
    requires
        start <= cs@.len(),
    ensures
        r == sign_len(cs@.skip(start as int)),
{
    if start < cs.len() && (cs[start] == '+' || cs[start] == '-') {
        1
    } else {
        0
    }
}

fn exponent_at(cs: &Vec<char>, start: usize) -> (r: bool)
    requires
        start <= cs@.len(),
    ensures
        r == is_exponent(cs@.skip(start as int)),
{
    let ghost rr = cs@.skip(start as int);
    if start < cs.len() && (cs[start] == 'e' || cs[start] == 'E') {
        assert(rr.skip(1) =~= cs@.skip(start + 1));
        let sg = sign_len_at(cs, start + 1);
        assert(rr.skip(1).skip(sg as int) =~= cs@.skip(start + 1 + sg));
        let k = count_digits(cs, start + 1 + sg);
        k > 0 && start + 1 + sg + k == cs.len()
    } else {
        false
    }
}

fn word_at(cs: &Vec<char>, start: usize, w: &str) -> (r: bool)
    requires
        start <= cs@.len(),
    ensures
        r == is_word(cs@.skip(start as int), w@),
{
    let wc = chars_of(w);
    let b = Ghost(cs@.skip(start as int));
    let n = cs.len();
    if n - start != wc.len() {
        return false;
    }
    let mut j: usize = 0;
    while j < wc.len()
        invariant
            wc@ == w@,
            b@ == cs@.skip(start as int),
            b@.len() == wc@.len(),
            start + wc@.len() == cs@.len(),
            n == cs@.len(),
            j <= wc@.len(),
            forall|i: int| 0 <= i < j ==> same_letter(#[trigger] b@[i], wc@[i]),
        decreases wc@.len() - j,
    {
        let c = cs[start + j];
        let l = wc[j];
        assert(b@[j as int] == c);
        let upper = 'A' <= c && c <= 'Z';
        if upper {
            assert(c as u32 <= 90);
        }
        if !(c == l || (upper && c as u32 + 32 == l as u32)) {
            return false;
        }
        assert(same_letter(b@[j as int], wc@[j as int]));
        j += 1;
    }
    true
}

fn decimal_at(cs: &Vec<char>, sg: usize) -> (r: bool)
    requires
        sg <= cs@.len(),
    ensures
        r == is_decimal(cs@.skip(sg as int)),
{
    let ghost b = cs@.skip(sg as int);
    let n = cs.len();
    let a = count_digits(cs, sg);
    assert(b.skip(a as int) =~= cs@.skip(sg + a));
    if sg + a < cs.len() && cs[sg + a] == '.' {
        assert(b.skip(a as int).skip(1) =~= cs@.skip(sg + a + 1));
        let f = count_digits(cs, sg + a + 1);
        assert(b.skip(a as int).skip(1 + f as int) =~= cs@.skip(sg + a + 1 + f));
        a + f > 0 && (sg + a + 1 + f == cs.len() || exponent_at(cs, sg + a + 1 + f))
    } else {
        a > 0 && (sg + a == cs.len() || exponent_at(cs, sg + a))
    }
}

/// Whether `s` is the text of a floating-point literal.
pub fn float_text(s: &str) -> (r: bool)
    ensures
        r == is_float_text(s@),
{
    let cs = chars_of(s);
    let sg = sign_len_at(&cs, 0);
    assert(cs@.skip(0) =~= cs@);
    decimal_at(&cs, sg) || word_at(&cs, sg, "inf") || word_at(&cs, sg, "infinity") || word_at(&cs, sg, "nan")
}

pub open spec fn digit_char(d: int) -> char {
    (d + '0' as int) as char
}

/// The decimal digits of `n`, without leading zeros.
pub open spec fn nat_text(n: nat) -> Seq<char>
    decreases n,
{
    if n < 10 {
        seq![digit_char(n as int)]
    } else {
        nat_text(n / 10).push(digit_char((n % 10) as int))
    }
}

/// The decimal form of `v`, with a minus sign where it is negative.
pub open spec fn int_text(v: int) -> Seq<char> {
    if v < 0 {
        seq!['-'] + nat_text((-v) as nat)
    } else {
        nat_text(v as nat)
    }
}

fn digit_to_char(d: u8) -> (c: char)
    requires
        d < 10,
    ensures
        c == digit_char(d as int),
{
    (d + 48) as char
}

/// The decimal form of `v`.
pub fn int_to_text(v: i128) -> (r: String)
    ensures
        r@ == int_text(v as int),
{
    let mut m: u128 = if v < 0 {
        (-(v + 1)) as u128 + 1
    } else {
        v as u128
    };
    let ghost m0 = m as nat;
    let mut tail: Vec<char> = Vec::new();
    while m >= 10
        invariant
            nat_text(m0) == nat_text(m as nat) + tail@,
        decreases m,
    {
        let c = digit_to_char((m % 10) as u8);
        tail.insert(0, c);
        m = m / 10;
        assert(nat_text(m0) =~= nat_text(m as nat) + tail@);
    }
    let mut r = String::new();
    if v < 0 {
        r.push('-');
    }
    r.push(digit_to_char(m as u8));
    let mut i: usize = 0;
    while i < tail.len()
        invariant
            r@ == (if v < 0 { seq!['-'] } else { Seq::<char>::empty() }) + nat_text(m as nat)
                + tail@.take(i as int),
            i <= tail@.len(),
        decreases tail@.len() - i,
    {
        r.push(tail[i]);
        i += 1;
    }
    r
}

} // verus!
