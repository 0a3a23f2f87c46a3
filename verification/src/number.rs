//! YAML numbers: unsigned and negative integers, and binary64 floats held by their bit pattern.

use crate::text::{
    chars_equal, chars_have_prefix, chars_of, chars_skip, chars_start_with_sign, chars_strip_one,
    has_prefix, starts_with_sign, strip_one,
};
use vstd::prelude::*;

verus! {

/// The internal form of a [`Number`].
#[derive(Copy, Clone, Debug)]
pub enum N {
    PosInt(u64),
    /// Always less than zero.
    NegInt(i64),
    /// The IEEE-754 binary64 bit pattern of a float; it may be infinite or NaN.
    Float(u64),
}

/// A YAML number, whether integer or floating point.
#[derive(Clone, Debug)]
pub struct Number(pub N);

/// The bit pattern of the one NaN that YAML knows (positive, quiet, no payload).
pub const NAN_BITS: u64 = 0x7ff8_0000_0000_0000u64;
/// The bit pattern of positive infinity.
pub const INFINITY_BITS: u64 = 0x7ff0_0000_0000_0000u64;
/// The bit pattern of negative infinity.
pub const NEG_INFINITY_BITS: u64 = 0xfff0_0000_0000_0000u64;

/// The biased exponent field of a binary64 bit pattern.
pub open spec fn float_exponent(b: u64) -> int {
    (b as int / 0x10_0000_0000_0000) % 0x800
}

/// The fraction field of a binary64 bit pattern.
pub open spec fn float_fraction(b: u64) -> int {
    b as int % 0x10_0000_0000_0000
}

/// The bit pattern without its sign bit.
pub open spec fn float_magnitude(b: u64) -> int {
    b as int % 0x8000_0000_0000_0000
}

/// Whether the sign bit is set.
pub open spec fn float_sign_negative(b: u64) -> bool {
    b >= 0x8000_0000_0000_0000u64
}

pub open spec fn float_is_nan(b: u64) -> bool {
    float_exponent(b) == 0x7ff && float_fraction(b) != 0
}

pub open spec fn float_is_infinite(b: u64) -> bool {
    float_exponent(b) == 0x7ff && float_fraction(b) == 0
}

pub open spec fn float_is_finite(b: u64) -> bool {
    float_exponent(b) != 0x7ff
}

/// IEEE-754 equality of two binary64 values: NaN equals nothing, and the two zeros are equal.
pub open spec fn float_eq(a: u64, b: u64) -> bool {
    !float_is_nan(a) && !float_is_nan(b) && (a == b || (float_magnitude(a) == 0
        && float_magnitude(b) == 0))
}

/// A key that orders non-NaN binary64 values as the reals that they stand for.
pub open spec fn float_order_key(b: u64) -> int {
    if float_sign_negative(b) {
        -float_magnitude(b)
    } else {
        float_magnitude(b)
    }
}

/// The bit pattern that a float is stored with: every NaN becomes the one YAML NaN.
pub open spec fn canonical_float(b: u64) -> u64 {
    if float_is_nan(b) {
        NAN_BITS
    } else {
        b
    }
}

fn exec_float_exponent(b: u64) -> (r: u64)
    ensures
        r == float_exponent(b),
{
    (b / 0x10_0000_0000_0000u64) % 0x800
}

fn exec_float_fraction(b: u64) -> (r: u64)
    ensures
        r == float_fraction(b),
{
    b % 0x10_0000_0000_0000u64
}

/// Whether the bit pattern is a NaN.
pub fn bits_are_nan(b: u64) -> (r: bool)
    ensures
        r == float_is_nan(b),
{
    exec_float_exponent(b) == 0x7ff && exec_float_fraction(b) != 0
}

/// Whether the bit pattern is an infinity.
pub fn bits_are_infinite(b: u64) -> (r: bool)
    ensures
        r == float_is_infinite(b),
{
    exec_float_exponent(b) == 0x7ff && exec_float_fraction(b) == 0
}

/// Whether the bit pattern is neither infinite nor NaN.
pub fn bits_are_finite(b: u64) -> (r: bool)
    ensures
        r == float_is_finite(b),
{
    exec_float_exponent(b) != 0x7ff
}

/// IEEE-754 equality on bit patterns.
pub fn bits_float_eq(a: u64, b: u64) -> (r: bool)
    ensures
        r == float_eq(a, b),
{
    !bits_are_nan(a) && !bits_are_nan(b) && (a == b || (a % 0x8000_0000_0000_0000u64 == 0 && b
        % 0x8000_0000_0000_0000u64 == 0))
}

/// The number that a signed integer stands for: negative ones are kept as such, others as unsigned.
pub open spec fn n_from_i64(i: i64) -> N {
    if i < 0 {
        N::NegInt(i)
    } else {
        N::PosInt(i as u64)
    }
}

/// YAML equality of numbers: integers by value within their variant, floats by IEEE equality
/// except that NaN equals NaN (YAML has only one NaN).
pub open spec fn n_eq(x: N, y: N) -> bool {
    match (x, y) {
        (N::PosInt(a), N::PosInt(b)) => a == b,
        (N::NegInt(a), N::NegInt(b)) => a == b,
        (N::Float(a), N::Float(b)) => (float_is_nan(a) && float_is_nan(b)) || float_eq(a, b),
        _ => false,
    }
}

/// Whether a number is an integer between `i64::MIN` and `i64::MAX`.
pub open spec fn n_is_i64(n: N) -> bool {
    match n {
        N::PosInt(v) => v <= i64::MAX,
        N::NegInt(_) => true,
        N::Float(_) => false,
    }
}

/// A number as an `i64`, if it is an integer in that range.
pub open spec fn n_as_i64(n: N) -> Option<i64> {
    match n {
        N::PosInt(v) => if v <= i64::MAX {
            Some(v as i64)
        } else {
            None
        },
        N::NegInt(v) => Some(v),
        N::Float(_) => None,
    }
}

/// A number as a `u64`, if it is a non-negative integer.
pub open spec fn n_as_u64(n: N) -> Option<u64> {
    match n {
        N::PosInt(v) => Some(v),
        _ => None,
    }
}

impl View for Number {
    type V = N;

    open spec fn view(&self) -> N {
        self.0
    }
}

impl Number {
    /// A number from a signed integer.
    pub fn from_i64(i: i64) -> (n: Number)
        ensures
            n@ == n_from_i64(i),
    {
        if i < 0 {
            Number(N::NegInt(i))
        } else {
            Number(N::PosInt(i as u64))
        }
    }

    /// A number from an unsigned integer.
    pub fn from_u64(u: u64) -> (n: Number)
        ensures
            n@ == N::PosInt(u),
    {
        Number(N::PosInt(u))
    }

    /// A number from the bit pattern of a binary64 float; every NaN becomes the one YAML NaN.
    pub fn from_f64_bits(bits: u64) -> (n: Number)
        ensures
            n@ == N::Float(canonical_float(bits)),
    {
        if bits_are_nan(bits) {
            Number(N::Float(NAN_BITS))
        } else {
            Number(N::Float(bits))
        }
    }

    /// Whether the number is an integer between `i64::MIN` and `i64::MAX`.
    pub fn is_i64(&self) -> (r: bool)
        ensures
            r == n_is_i64(self@),
    {
        match self.0 {
            N::PosInt(v) => v <= i64::MAX as u64,
            N::NegInt(_) => true,
            N::Float(_) => false,
        }
    }

    /// Whether the number is an integer between zero and `u64::MAX`.
    pub fn is_u64(&self) -> (r: bool)
        ensures
            r == (self@ is PosInt),
    {
        match self.0 {
            N::PosInt(_) => true,
            N::NegInt(_) | N::Float(_) => false,
        }
    }

    /// Whether the number is a float.
    pub fn is_f64(&self) -> (r: bool)
        ensures
            r == (self@ is Float),
    {
        match self.0 {
            N::Float(_) => true,
            N::PosInt(_) | N::NegInt(_) => false,
        }
    }

    /// The number as an `i64`, if it is an integer in range.
    pub fn as_i64(&self) -> (r: Option<i64>)
        ensures
            r == n_as_i64(self@),
    {
        match self.0 {
            N::PosInt(n) => {
                if n <= i64::MAX as u64 {
                    Some(n as i64)
                } else {
                    None
                }
            },
            N::NegInt(n) => Some(n),
            N::Float(_) => None,
        }
    }

    /// The number as a `u64`, if it is a non-negative integer.
    pub fn as_u64(&self) -> (r: Option<u64>)
        ensures
            r == n_as_u64(self@),
    {
        match self.0 {
            N::PosInt(n) => Some(n),
            N::NegInt(_) | N::Float(_) => None,
        }
    }

    /// The bit pattern of the number, if it is a float.
    pub fn as_f64_bits(&self) -> (r: Option<u64>)
        ensures
            r == match self@ {
                N::Float(b) => Some(b),
                _ => None,
            },
    {
        match self.0 {
            N::Float(b) => Some(b),
            N::PosInt(_) | N::NegInt(_) => None,
        }
    }

    /// Whether the number is NaN.
    pub fn is_nan(&self) -> (r: bool)
        ensures
            r == match self@ {
                N::Float(b) => float_is_nan(b),
                _ => false,
            },
    {
        match self.0 {
            N::PosInt(_) | N::NegInt(_) => false,
            N::Float(f) => bits_are_nan(f),
        }
    }

    /// Whether the number is positive or negative infinity.
    pub fn is_infinite(&self) -> (r: bool)
        ensures
            r == match self@ {
                N::Float(b) => float_is_infinite(b),
                _ => false,
            },
    {
        match self.0 {
            N::PosInt(_) | N::NegInt(_) => false,
            N::Float(f) => bits_are_infinite(f),
        }
    }

    /// Whether the number is neither infinite nor NaN.
    pub fn is_finite(&self) -> (r: bool)
        ensures
            r == match self@ {
                N::Float(b) => float_is_finite(b),
                _ => true,
            },
    {
        match self.0 {
            N::PosInt(_) | N::NegInt(_) => true,
            N::Float(f) => bits_are_finite(f),
        }
    }

    /// YAML equality of numbers (see [`n_eq`]).
    pub fn equals(&self, other: &Number) -> (r: bool)
        ensures
            r == n_eq(self@, other@),
    {
        match (self.0, other.0) {
            (N::PosInt(a), N::PosInt(b)) => a == b,
            (N::NegInt(a), N::NegInt(b)) => a == b,
            (N::Float(a), N::Float(b)) => (bits_are_nan(a) && bits_are_nan(b)) || bits_float_eq(
                a,
                b,
            ),
            _ => false,
        }
    }
}
/// The value of `c` as a digit in base 36, or 36 when it is no digit.
pub open spec fn char_digit(c: char) -> int {
    if '0' <= c && c <= '9' {
        c as int - '0' as int
    } else if 'a' <= c && c <= 'z' {
        c as int - 'a' as int + 10
    } else if 'A' <= c && c <= 'Z' {
        c as int - 'A' as int + 10
    } else {
        36
    }
}

/// The value of a sequence of digits in the given radix, or `None` when some character is no
/// digit in that radix. The empty sequence has value 0.
pub open spec fn digits_value(s: Seq<char>, radix: int) -> Option<int>
    decreases s.len(),
{
    if s.len() == 0 {
        Some(0)
    } else {
        match digits_value(s.drop_last(), radix) {
            Some(v) => if char_digit(s.last()) < radix {
                Some(v * radix + char_digit(s.last()))
            } else {
                None
            },
            None => None,
        }
    }
}

/// `Some(v)` when `v` is an integer that fits in a `u64`.
pub open spec fn bounded_u64(v: Option<int>) -> Option<u64> {
    match v {
        Some(x) => if 0 <= x <= u64::MAX {
            Some(x as u64)
        } else {
            None
        },
        None => None,
    }
}

/// What `u64::from_str_radix` gives back: an optional `+`, then at least one digit in the radix,
/// and a value that fits.
pub open spec fn u64_from_str_radix(s: Seq<char>, radix: int) -> Option<u64> {
    if s.len() == 0 || (s.len() == 1 && starts_with_sign(s)) {
        None
    } else {
        bounded_u64(digits_value(strip_one(s, '+'), radix))
    }
}

/// What `i64::from_str_radix` gives back: an optional sign, then at least one digit in the radix,
/// and a value that fits.
pub open spec fn i64_from_str_radix(s: Seq<char>, radix: int) -> Option<i64> {
    if s.len() == 0 || (s.len() == 1 && starts_with_sign(s)) {
        None
    } else if s[0] == '-' {
        match digits_value(s.drop_first(), radix) {
            Some(v) => if v <= 0x8000_0000_0000_0000 {
                Some((-v) as i64)
            } else {
                None
            },
            None => None,
        }
    } else {
        match digits_value(strip_one(s, '+'), radix) {
            Some(v) => if v <= i64::MAX {
                Some(v as i64)
            } else {
                None
            },
            None => None,
        }
    }
}

proof fn lemma_digits_value_nonneg(s: Seq<char>, radix: int)
    requires
        radix >= 1,
    ensures
        digits_value(s, radix) matches Some(v) ==> v >= 0,
    decreases s.len(),
{
    if s.len() > 0 {
        lemma_digits_value_nonneg(s.drop_last(), radix);
        if let Some(v) = digits_value(s.drop_last(), radix) {
            assert(v * radix >= 0) by (nonlinear_arith)
                requires
                    v >= 0,
                    radix >= 1,
            ;
        }
    }
}

/// A prefix of a digit sequence with a value has a value, and it is no larger.
proof fn lemma_digits_value_prefix(s: Seq<char>, radix: int, k: int)
    requires
        radix >= 1,
        0 <= k <= s.len(),
        digits_value(s, radix) is Some,
    ensures
        digits_value(s.take(k), radix) is Some,
        digits_value(s.take(k), radix)->0 <= digits_value(s, radix)->0,
    decreases s.len(),
{
    if k == s.len() {
        assert(s.take(k) =~= s);
    } else {
        lemma_digits_value_prefix(s.drop_last(), radix, k);
        assert(s.drop_last().take(k) =~= s.take(k));
        lemma_digits_value_nonneg(s.drop_last(), radix);
        let v = digits_value(s.drop_last(), radix)->0;
        let d = char_digit(s.last());
        assert(v * radix + d >= v) by (nonlinear_arith)
            requires
                v >= 0,
                radix >= 1,
                d >= 0,
        ;
    }
}

fn exec_char_digit(c: char) -> (d: u32)
    ensures
        d == char_digit(c),
{
    let u = c as u32;
    if '0' <= c && c <= '9' {
        u - ('0' as u32)
    } else if 'a' <= c && c <= 'z' {
        u - ('a' as u32) + 10
    } else if 'A' <= c && c <= 'Z' {
        u - ('A' as u32) + 10
    } else {
        36
    }
}

/// The value of `s[start..]` as digits in `radix`, when every character is a digit and the value
/// fits in a `u64`.
fn parse_digits(s: &Vec<char>, start: usize, radix: u32) -> (r: Option<u64>)
    requires
        start <= s.len(),
        2 <= radix <= 36,
    ensures
        r == bounded_u64(digits_value(s@.skip(start as int), radix as int)),
{
    let ghost full = s@.skip(start as int);
    let mut acc: u64 = 0;
    let mut i = start;
    assert(s@.subrange(start as int, start as int) =~= Seq::<char>::empty());
    while i < s.len()
        invariant
            start <= i <= s.len(),
            2 <= radix <= 36,
            full == s@.skip(start as int),
            digits_value(s@.subrange(start as int, i as int), radix as int) == Some(acc as int),
        decreases s.len() - i,
    {
        let ghost prefix = s@.subrange(start as int, i as int + 1);
        assert(prefix.drop_last() =~= s@.subrange(start as int, i as int));
        assert(prefix =~= full.take(i - start + 1));
        let d = exec_char_digit(s[i]);
        if d >= radix {
            proof {
                if digits_value(full, radix as int) is Some {
                    lemma_digits_value_prefix(full, radix as int, i - start + 1);
                }
            }
            return None;
        }
        let m = acc.checked_mul(radix as u64);
        match m {
            None => {
                proof {
                    assert(acc * radix + d > u64::MAX);
                    if digits_value(full, radix as int) is Some {
                        lemma_digits_value_prefix(full, radix as int, i - start + 1);
                    }
                }
                return None;
            },
            Some(m) => {
                let a = m.checked_add(d as u64);
                match a {
                    None => {
                        proof {
                            if digits_value(full, radix as int) is Some {
                                lemma_digits_value_prefix(full, radix as int, i - start + 1);
                            }
                        }
                        return None;
                    },
                    Some(a) => {
                        acc = a;
                    },
                }
            },
        }
        i = i + 1;
    }
    assert(s@.subrange(start as int, s.len() as int) =~= full);
    Some(acc)
}

/// Exec form of [`u64_from_str_radix`] on `s[start..]`.
fn u64_from_chars_radix(s: &Vec<char>, start: usize, radix: u32) -> (r: Option<u64>)
    requires
        start <= s.len(),
        2 <= radix <= 36,
    ensures
        r == u64_from_str_radix(s@.skip(start as int), radix as int),
{
    let ghost t = s@.skip(start as int);
    let n = s.len() - start;
    if n == 0 || (n == 1 && (s[start] == '+' || s[start] == '-')) {
        return None;
    }
    if s[start] == '+' {
        assert(s@.skip(start as int + 1) =~= strip_one(t, '+'));
        parse_digits(s, start + 1, radix)
    } else {
        assert(t =~= strip_one(t, '+'));
        parse_digits(s, start, radix)
    }
}

/// Exec form of [`i64_from_str_radix`] on `s[start..]`.
fn i64_from_chars_radix(s: &Vec<char>, start: usize, radix: u32) -> (r: Option<i64>)
    requires
        start <= s.len(),
        2 <= radix <= 36,
    ensures
        r == i64_from_str_radix(s@.skip(start as int), radix as int),
{
    let ghost t = s@.skip(start as int);
    let n = s.len() - start;
    if n == 0 || (n == 1 && (s[start] == '+' || s[start] == '-')) {
        return None;
    }
    assert(t[0] == s@[start as int]);
    if s[start] == '-' {
        assert(s@.skip(start as int + 1) =~= t.drop_first());
        let digits = parse_digits(s, start + 1, radix);
        match digits {
            Some(v) => {
                if v < 0x8000_0000_0000_0000u64 {
                    let r = -(v as i64);
                    assert(r == (-(v as int)) as i64);
                    Some(r)
                } else if v == 0x8000_0000_0000_0000u64 {
                    assert((-(v as int)) as i64 == i64::MIN);
                    Some(i64::MIN)
                } else {
                    None
                }
            },
            None => {
                proof {
                    lemma_digits_value_nonneg(t.drop_first(), radix as int);
                }
                None
            },
        }
    } else {
        let digits = if s[start] == '+' {
            assert(s@.skip(start as int + 1) =~= strip_one(t, '+'));
            parse_digits(s, start + 1, radix)
        } else {
            assert(t =~= strip_one(t, '+'));
            parse_digits(s, start, radix)
        };
        match digits {
            Some(v) => {
                if v <= i64::MAX as u64 {
                    Some(v as i64)
                } else {
                    None
                }
            },
            None => {
                proof {
                    lemma_digits_value_nonneg(strip_one(t, '+'), radix as int);
                }
                None
            },
        }
    }
}

/// Whether `c` is one of `0`..`9`.
pub open spec fn is_ascii_digit(c: char) -> bool {
    '0' <= c && c <= '9'
}

/// `s` without one leading sign character, if it begins with one.
pub open spec fn unsigned_part(s: Seq<char>) -> Seq<char> {
    if starts_with_sign(s) {
        s.drop_first()
    } else {
        s
    }
}

/// Whether every character of `t` from index `k` on is an ASCII digit.
pub open spec fn all_ascii_digits_from(t: Seq<char>, k: int) -> bool {
    forall|i: int| k <= i < t.len() ==> is_ascii_digit(#[trigger] t[i])
}

/// Leading zeros followed by digits are a string in YAML 1.2, not a number: an optional sign,
/// then `0`, then at least one more character, all of them ASCII digits.
pub open spec fn leading_zero_digits(s: Seq<char>) -> bool {
    let t = unsigned_part(s);
    t.len() > 1 && t[0] == '0' && all_ascii_digits_from(t, 1)
}

/// The unsigned integer that a scalar denotes: hexadecimal (`0x`), octal (`0o`), binary (`0b`)
/// or decimal, after at most one leading `+`.
pub open spec fn parse_unsigned_int_spec(s: Seq<char>) -> Option<u64> {
    let unp = strip_one(s, '+');
    if has_prefix(unp, seq!['0', 'x']) && starts_with_sign(unp.skip(2)) {
        None
    } else if has_prefix(unp, seq!['0', 'x']) && u64_from_str_radix(unp.skip(2), 16) is Some {
        u64_from_str_radix(unp.skip(2), 16)
    } else if has_prefix(unp, seq!['0', 'o']) && starts_with_sign(unp.skip(2)) {
        None
    } else if has_prefix(unp, seq!['0', 'o']) && u64_from_str_radix(unp.skip(2), 8) is Some {
        u64_from_str_radix(unp.skip(2), 8)
    } else if has_prefix(unp, seq!['0', 'b']) && starts_with_sign(unp.skip(2)) {
        None
    } else if has_prefix(unp, seq!['0', 'b']) && u64_from_str_radix(unp.skip(2), 2) is Some {
        u64_from_str_radix(unp.skip(2), 2)
    } else if starts_with_sign(unp) {
        None
    } else if leading_zero_digits(s) {
        None
    } else {
        u64_from_str_radix(unp, 10)
    }
}

/// The signed integer that a scalar denotes: `-0x`, `-0o`, `-0b` prefixed, or decimal.
pub open spec fn parse_negative_int_spec(s: Seq<char>) -> Option<i64> {
    if has_prefix(s, seq!['-', '0', 'x']) && i64_from_str_radix(seq!['-'] + s.skip(3), 16) is Some {
        i64_from_str_radix(seq!['-'] + s.skip(3), 16)
    } else if has_prefix(s, seq!['-', '0', 'o']) && i64_from_str_radix(seq!['-'] + s.skip(3), 8) is Some {
        i64_from_str_radix(seq!['-'] + s.skip(3), 8)
    } else if has_prefix(s, seq!['-', '0', 'b']) && i64_from_str_radix(seq!['-'] + s.skip(3), 2) is Some {
        i64_from_str_radix(seq!['-'] + s.skip(3), 2)
    } else if leading_zero_digits(s) {
        None
    } else {
        i64_from_str_radix(s, 10)
    }
}

/// The float that a scalar denotes, as a bit pattern. `reading` is what the text without one
/// leading `+` gives when parsed as a Rust `f64`; only a finite reading is taken.
pub open spec fn parse_f64_spec(s: Seq<char>, reading: Option<u64>) -> Option<u64> {
    if s.len() > 0 && s[0] == '+' && starts_with_sign(s.drop_first()) {
        None
    } else {
        let unp = strip_one(s, '+');
        if unp == seq!['.', 'i', 'n', 'f'] || unp == seq!['.', 'I', 'n', 'f'] || unp == seq![
            '.',
            'I',
            'N',
            'F',
        ] {
            Some(INFINITY_BITS)
        } else if s == seq!['-', '.', 'i', 'n', 'f'] || s == seq!['-', '.', 'I', 'n', 'f'] || s
            == seq!['-', '.', 'I', 'N', 'F'] {
            Some(NEG_INFINITY_BITS)
        } else if s == seq!['.', 'n', 'a', 'n'] || s == seq!['.', 'N', 'a', 'N'] || s == seq![
            '.',
            'N',
            'A',
            'N',
        ] {
            Some(NAN_BITS)
        } else {
            match reading {
                Some(b) => if float_is_finite(b) {
                    Some(b)
                } else {
                    None
                },
                None => None,
            }
        }
    }
}

/// The number that a plain scalar denotes, if any: an unsigned integer, else a signed integer,
/// else (unless it has leading zeros) a float.
pub open spec fn parse_number_spec(s: Seq<char>, reading: Option<u64>) -> Option<N> {
    match parse_unsigned_int_spec(s) {
        Some(u) => Some(N::PosInt(u)),
        None => match parse_negative_int_spec(s) {
            Some(i) => Some(n_from_i64(i)),
            None => if !leading_zero_digits(s) {
                match parse_f64_spec(s, reading) {
                    Some(b) => Some(N::Float(canonical_float(b))),
                    None => None,
                }
            } else {
                None
            },
        },
    }
}

/// Exec form of [`leading_zero_digits`].
pub fn digits_but_not_number(s: &Vec<char>) -> (r: bool)
    ensures
        r == leading_zero_digits(s@),
{
    let start: usize = if chars_start_with_sign(s) {
        1
    } else {
        0
    };
    let ghost t = unsigned_part(s@);
    assert(t =~= s@.skip(start as int));
    if s.len() - start <= 1 || s[start] != '0' {
        return false;
    }
    let mut i = start + 1;
    while i < s.len()
        invariant
            start + 1 <= i <= s.len(),
            t =~= s@.skip(start as int),
            t == unsigned_part(s@),
            t.len() > 1,
            t[0] == '0',
            forall|j: int| 1 <= j < i - start ==> is_ascii_digit(#[trigger] t[j]),
        decreases s.len() - i,
    {
        if !('0' <= s[i] && s[i] <= '9') {
            assert(t[i - start] == s@[i as int]);
            assert(!is_ascii_digit(t[i - start]));
            return false;
        }
        i = i + 1;
    }
    true
}

/// Exec form of [`parse_unsigned_int_spec`].
fn parse_unsigned_int(s: &Vec<char>) -> (r: Option<u64>)
    ensures
        r == parse_unsigned_int_spec(s@),
{
    let unp = chars_strip_one(s, '+');
    let hex = chars_have_prefix(&unp, &vec!['0', 'x']);
    let oct = chars_have_prefix(&unp, &vec!['0', 'o']);
    let bin = chars_have_prefix(&unp, &vec!['0', 'b']);
    proof {
        if hex {
            assert(unp@.take(2)[1] == 'x');
        }
        if oct {
            assert(unp@.take(2)[1] == 'o');
        }
        if bin {
            assert(unp@.take(2)[1] == 'b');
        }
    }
    assert(unp@.skip(0) =~= unp@);
    if hex || oct || bin {
        let rest = chars_skip(&unp, 2);
        if chars_start_with_sign(&rest) {
            return None;
        }
        let radix: u32 = if hex {
            16
        } else if oct {
            8
        } else {
            2
        };
        let v = u64_from_chars_radix(&unp, 2, radix);
        if v.is_some() {
            return v;
        }
    }
    if chars_start_with_sign(&unp) {
        return None;
    }
    if digits_but_not_number(s) {
        return None;
    }
    u64_from_chars_radix(&unp, 0, 10)
}

/// Exec form of [`parse_negative_int_spec`].
fn parse_negative_int(s: &Vec<char>) -> (r: Option<i64>)
    ensures
        r == parse_negative_int_spec(s@),
{
    let hex = chars_have_prefix(s, &vec!['-', '0', 'x']);
    let oct = chars_have_prefix(s, &vec!['-', '0', 'o']);
    let bin = chars_have_prefix(s, &vec!['-', '0', 'b']);
    proof {
        if hex {
            assert(s@.take(3)[2] == 'x');
        }
        if oct {
            assert(s@.take(3)[2] == 'o');
        }
        if bin {
            assert(s@.take(3)[2] == 'b');
        }
    }
    if hex || oct || bin {
        let mut negative: Vec<char> = vec!['-'];
        let mut rest = chars_skip(s, 3);
        negative.append(&mut rest);
        let radix: u32 = if hex {
            16
        } else if oct {
            8
        } else {
            2
        };
        assert(negative@.skip(0) =~= seq!['-'] + s@.skip(3));
        let v = i64_from_chars_radix(&negative, 0, radix);
        if v.is_some() {
            return v;
        }
    }
    if digits_but_not_number(s) {
        return None;
    }
    assert(s@.skip(0) =~= s@);
    i64_from_chars_radix(s, 0, 10)
}

/// Exec form of [`parse_f64_spec`].
fn parse_f64(s: &Vec<char>, reading: Option<u64>) -> (r: Option<u64>)
    ensures
        r == parse_f64_spec(s@, reading),
{
    if s.len() > 0 && s[0] == '+' {
        let rest = chars_skip(s, 1);
        assert(rest@ =~= s@.drop_first());
        if chars_start_with_sign(&rest) {
            return None;
        }
    }
    let unp = chars_strip_one(s, '+');
    if chars_equal(&unp, &vec!['.', 'i', 'n', 'f']) || chars_equal(&unp, &vec!['.', 'I', 'n', 'f'])
        || chars_equal(&unp, &vec!['.', 'I', 'N', 'F']) {
        return Some(INFINITY_BITS);
    }
    if chars_equal(s, &vec!['-', '.', 'i', 'n', 'f']) || chars_equal(s, &vec!['-', '.', 'I', 'n', 'f'])
        || chars_equal(s, &vec!['-', '.', 'I', 'N', 'F']) {
        return Some(NEG_INFINITY_BITS);
    }
    if chars_equal(s, &vec!['.', 'n', 'a', 'n']) || chars_equal(s, &vec!['.', 'N', 'a', 'N'])
        || chars_equal(s, &vec!['.', 'N', 'A', 'N']) {
        return Some(NAN_BITS);
    }
    match reading {
        Some(b) => {
            if bits_are_finite(b) {
                Some(b)
            } else {
                None
            }
        },
        None => None,
    }
}

/// The number that a plain scalar denotes, if any (see [`parse_number_spec`]). `float_reading`
/// is what the scalar without one leading `+` gives when parsed as a Rust `f64`.
pub fn parse_number(value: &str, float_reading: Option<u64>) -> (r: Option<Number>)
    ensures
        r matches Some(n) ==> parse_number_spec(value@, float_reading) == Some(n@),
        r is None ==> parse_number_spec(value@, float_reading) is None,
{
    let s = chars_of(value);
    parse_number_chars(&s, float_reading)
}

impl Number {
    /// The number that a text denotes (see [`parse_number_spec`]); `float_reading` is what the
    /// text without one leading `+` gives when read as a Rust `f64`. A text that is no number is
    /// an unknown format.
    pub fn from_str_with(repr: &str, float_reading: Option<u64>) -> (r: Result<Number, crate::error::InvalidNumberError>)
        ensures
            match parse_number_spec(repr@, float_reading) {
                Some(n) => r matches Ok(x) && x@ == n,
                None => r matches Err(crate::error::InvalidNumberError::UnknownFormat(s)) && s@ == repr@,
            },
    {
        match parse_number(repr, float_reading) {
            Some(n) => Ok(n),
            None => Err(crate::error::InvalidNumberError::UnknownFormat(repr.to_owned())),
        }
    }
}

/// [`parse_number`] on the characters of a scalar.
pub fn parse_number_chars(s: &Vec<char>, float_reading: Option<u64>) -> (r: Option<Number>)
    ensures
        r matches Some(n) ==> parse_number_spec(s@, float_reading) == Some(n@),
        r is None ==> parse_number_spec(s@, float_reading) is None,
{
    if let Some(unsigned) = parse_unsigned_int(s) {
        return Some(Number::from_u64(unsigned));
    }
    if let Some(signed) = parse_negative_int(s) {
        return Some(Number::from_i64(signed));
    }
    if !digits_but_not_number(s) {
        if let Some(float) = parse_f64(s, float_reading) {
            return Some(Number::from_f64_bits(float));
        }
    }
    None
}

} // verus!

verus! {

/// Calls `itoa::Buffer::format` on an unsigned integer: its decimal digits, without leading
/// zeros.
#[verifier::external_body]
fn format_u64(u: u64) -> (r: String)
    ensures
        r@ == crate::text::decimal(u as nat),
{
    itoa::Buffer::new().format(u).to_owned()
}

/// How a number is written in YAML, where the library writes it itself: integers in decimal,
/// `.nan`, `.inf` and `-.inf`. Finite floats are written by the shortest round-trip decimal,
/// which is left to the caller.
pub open spec fn number_text(n: N) -> Option<Seq<char>> {
    match n {
        N::PosInt(u) => Some(crate::text::decimal(u as nat)),
        N::NegInt(i) => Some(if i < 0 {
            seq!['-'] + crate::text::decimal((-i) as nat)
        } else {
            crate::text::decimal(i as nat)
        }),
        N::Float(b) => if float_is_nan(b) {
            Some(seq!['.', 'n', 'a', 'n'])
        } else if float_is_infinite(b) {
            if float_sign_negative(b) {
                Some(seq!['-', '.', 'i', 'n', 'f'])
            } else {
                Some(seq!['.', 'i', 'n', 'f'])
            }
        } else {
            None
        },
    }
}

impl Number {
    /// The text of the number (see [`number_text`]); nothing for a finite float.
    pub fn display_text(&self) -> (r: Option<String>)
        ensures
            match r {
                Some(t) => number_text(self@) == Some(t@),
                None => number_text(self@) is None,
            },
    {
        match self.0 {
            N::PosInt(u) => Some(format_u64(u)),
            N::NegInt(i) => {
                if i < 0 {
                    let magnitude: u64 = if i == i64::MIN {
                        0x8000_0000_0000_0000u64
                    } else {
                        (-i) as u64
                    };
                    let mut out = String::new();
                    crate::text::push_char(&mut out, '-');
                    let digits = format_u64(magnitude);
                    crate::text::push_str(&mut out, digits.as_str());
                    Some(out)
                } else {
                    Some(format_u64(i as u64))
                }
            },
            N::Float(b) => {
                if bits_are_nan(b) {
                    let t = vec!['.', 'n', 'a', 'n'];
                    Some(chars_to_string(&t))
                } else if bits_are_infinite(b) {
                    if b >= 0x8000_0000_0000_0000u64 {
                        Some(chars_to_string(&vec!['-', '.', 'i', 'n', 'f']))
                    } else {
                        Some(chars_to_string(&vec!['.', 'i', 'n', 'f']))
                    }
                } else {
                    None
                }
            },
        }
    }
}

/// A string of the given characters.
fn chars_to_string(c: &Vec<char>) -> (s: String)
    ensures
        s@ == c@,
{
    let mut s = String::new();
    let mut i: usize = 0;
    while i < c.len()
        invariant
            i <= c@.len(),
            s@ == c@.take(i as int),
        decreases c.len() - i,
    {
        crate::text::push_char(&mut s, c[i]);
        assert(c@.take(i as int + 1) =~= c@.take(i as int).push(c@[i as int]));
        i = i + 1;
    }
    assert(c@.take(c@.len() as int) =~= c@);
    s
}

} // verus!
