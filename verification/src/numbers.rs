//! Numbers written as text: whole numbers, and decimal numbers read as the nearest
//! double-precision value.

use crate::doubles::{decimal_product, rounds_to_zero};
#[allow(unused_imports)]
use crate::doubles::{capped, denominator, numerator, product, stands_for, vanishes};
use crate::text::{chars_of, same, to_ascii_lower_all};
#[allow(unused_imports)]
use crate::text::ascii_lower_all;
use vstd::prelude::*;

verus! {

// ---------------------------------------------------------------------------
// Digits
// ---------------------------------------------------------------------------
pub open spec fn is_digit(c: char) -> bool {
    '0' <= c <= '9'
}

pub open spec fn all_digits(s: Seq<char>) -> bool {
    forall|i: int| 0 <= i < s.len() ==> is_digit(#[trigger] s[i])
}

/// The digits of a text of digits.
pub open spec fn digits_of(s: Seq<char>) -> Seq<u8> {
    s.map_values(|c: char| (c as u32 - 48) as u8)
}

/// The number that a list of decimal digits denotes.
pub open spec fn digits_value(ds: Seq<u8>) -> nat
    decreases ds.len(),
{
    if ds.len() == 0 {
        0
    } else {
        digits_value(ds.drop_last()) * 10 + ds.last() as nat
    }
}

/// The power of ten.
pub open spec fn tens(k: nat) -> nat
    decreases k,
{
    if k == 0 {
        1
    } else {
        10 * tens((k - 1) as nat)
    }
}

pub open spec fn proper(ds: Seq<u8>) -> bool {
    forall|i: int| 0 <= i < ds.len() ==> #[trigger] ds[i] <= 9
}

pub proof fn lemma_tens_adds(a: nat, b: nat)
    ensures
        tens(a + b) == tens(a) * tens(b),
    decreases a,
{
    if a == 0 {
        assert(tens(0 + b) == tens(b));
        assert(1 * tens(b) == tens(b));
    } else {
        lemma_tens_adds((a - 1) as nat, b);
        assert((a - 1) as nat + b == (a + b - 1) as nat);
        assert(10 * (tens((a - 1) as nat) * tens(b)) == (10 * tens((a - 1) as nat)) * tens(b))
            by (nonlinear_arith);
    }
}

pub proof fn lemma_tens_positive(k: nat)
    ensures
        tens(k) >= 1,
    decreases k,
{
    if k > 0 {
        lemma_tens_positive((k - 1) as nat);
    }
}

pub proof fn lemma_tens_grows(a: nat, b: nat)
    requires
        a <= b,
    ensures
        tens(a) <= tens(b),
    decreases b - a,
{
    if a < b {
        lemma_tens_grows(a, (b - 1) as nat);
    }
}

/// A list of digits is smaller than the power of ten of its length, and at least the one below
/// it where it does not start with a zero.
pub proof fn lemma_digits_bound(ds: Seq<u8>)
    requires
        proper(ds),
    ensures
        digits_value(ds) < tens(ds.len()),
        ds.len() > 0 && ds[0] > 0 ==> digits_value(ds) >= tens((ds.len() - 1) as nat),
    decreases ds.len(),
{
    if ds.len() > 0 {
        assert(proper(ds.drop_last())) by {
            assert forall|i: int| 0 <= i < ds.len() - 1 implies #[trigger] ds.drop_last()[i] <= 9 by {
                assert(ds.drop_last()[i] == ds[i]);
            }
        }
        lemma_digits_bound(ds.drop_last());
        assert(ds.last() <= 9);
        if ds.len() > 1 {
            assert(ds.drop_last()[0] == ds[0]);
        } else {
            assert(digits_value(ds.drop_last()) == 0);
        }
    }
}

/// A list of digits is its head, shifted by the length of the rest, plus the rest.
pub proof fn lemma_digits_split(ds: Seq<u8>, k: int)
    requires
        0 <= k <= ds.len(),
    ensures
        digits_value(ds) == digits_value(ds.take(k)) * tens((ds.len() - k) as nat) + digits_value(
            ds.skip(k),
        ),
    decreases ds.len() - k,
{
    if k == ds.len() {
        assert(ds.take(k) =~= ds);
        assert(digits_value(ds.skip(k)) == 0);
        assert(digits_value(ds) * 1 == digits_value(ds));
    } else {
        lemma_digits_split(ds, k + 1);
        let head = digits_value(ds.take(k));
        assert(ds.take(k + 1).drop_last() =~= ds.take(k));
        assert(ds.take(k + 1).last() == ds[k]);
        let r = (ds.len() - k - 1) as nat;
        lemma_digits_front(ds.skip(k));
        assert(ds.skip(k).drop_first() =~= ds.skip(k + 1));
        assert(ds.skip(k)[0] == ds[k]);
        assert((head * 10 + ds[k] as nat) * tens(r) == head * (10 * tens(r)) + ds[k] as nat * tens(
            r,
        )) by (nonlinear_arith);
        assert(tens((ds.len() - k) as nat) == 10 * tens(r));
    }
}

pub proof fn lemma_digits_front(ds: Seq<u8>)
    requires
        ds.len() > 0,
    ensures
        digits_value(ds) == ds[0] as nat * tens((ds.len() - 1) as nat) + digits_value(
            ds.drop_first(),
        ),
    decreases ds.len(),
{
    if ds.len() == 1 {
        assert(digits_value(ds.drop_last()) == 0);
        assert(digits_value(ds.drop_first()) == 0);
        assert(ds[0] as nat * 1 == ds[0] as nat);
    } else {
        lemma_digits_front(ds.drop_last());
        assert(ds.drop_last().drop_first() =~= ds.drop_first().drop_last());
        assert(ds.drop_first().last() == ds.last());
        let t = tens((ds.len() - 2) as nat);
        assert((ds[0] as nat * t + digits_value(ds.drop_first().drop_last())) * 10 == ds[0] as nat
            * (10 * t) + digits_value(ds.drop_first().drop_last()) * 10) by (nonlinear_arith);
    }
}

fn digit_value(c: char) -> (r: u8)
    requires
        is_digit(c),
    ensures
        r == (c as u32 - 48) as u8,
        r <= 9,
{
    (c as u32 - 48u32) as u8
}

fn is_decimal_digit(c: char) -> (r: bool)
    ensures
        r == is_digit(c),
{
    '0' <= c && c <= '9'
}

/// The digits of the characters from `from` to `to`, where all of them are digits.
fn digits_between(chars: &Vec<char>, from: usize, to: usize) -> (r: Option<Vec<u8>>)
    requires
        from <= to <= chars@.len(),
    ensures
        match r {
            Some(ds) => all_digits(chars@.subrange(from as int, to as int)) && ds@ == digits_of(
                chars@.subrange(from as int, to as int),
            ) && proper(ds@),
            None => !all_digits(chars@.subrange(from as int, to as int)),
        },
{
    let ghost s = chars@.subrange(from as int, to as int);
    let mut out: Vec<u8> = Vec::new();
    let mut i: usize = from;
    while i < to
        invariant
            from <= i <= to <= chars@.len(),
            s == chars@.subrange(from as int, to as int),
            out@.len() == i - from,
            forall|j: int| 0 <= j < i - from ==> is_digit(#[trigger] s[j]),
            forall|j: int|
                0 <= j < i - from ==> #[trigger] out@[j] == (s[j] as u32 - 48) as u8 && out@[j]
                    <= 9,
        decreases to - i,
    {
        let c: char = chars[i];
        assert(s[i - from] == c);
        if !is_decimal_digit(c) {
            return None;
        }
        out.push(digit_value(c));
        i += 1;
    }
    assert(out@ =~= digits_of(s));
    Some(out)
}

// ---------------------------------------------------------------------------
// The grammar
// ---------------------------------------------------------------------------
/// The position of the first `c`, or the length where there is none.
pub open spec fn first_at(s: Seq<char>, c: char) -> int
    decreases s.len(),
{
    if s.len() == 0 || s[0] == c {
        0
    } else {
        1 + first_at(s.drop_first(), c)
    }
}

pub open spec fn is_negative(s: Seq<char>) -> bool {
    s.len() > 0 && s[0] == '-'
}

/// A text without its sign.
pub open spec fn without_sign(s: Seq<char>) -> Seq<char> {
    if s.len() > 0 && (s[0] == '-' || s[0] == '+') {
        s.skip(1)
    } else {
        s
    }
}

/// The whole number that a text denotes: an optional sign and at least one digit.
pub open spec fn whole_number(s: Seq<char>) -> Option<int> {
    let body = without_sign(s);
    if body.len() == 0 || !all_digits(body) {
        None
    } else if is_negative(s) {
        Some(-(digits_value(digits_of(body)) as int))
    } else {
        Some(digits_value(digits_of(body)) as int)
    }
}

/// What a decimal number denotes: its digits times a power of ten, or no number.
pub ghost enum Number {
    Nan,
    Infinite { negative: bool },
    Finite { negative: bool, digits: Seq<u8>, exponent: int },
}

/// The number in front of an exponent: digits with at most one point among them.
pub open spec fn mantissa_digits(s: Seq<char>) -> Option<(Seq<u8>, int)> {
    let dot = first_at(s, '.');
    let whole = s.take(dot);
    let fraction = if dot < s.len() {
        s.skip(dot + 1)
    } else {
        Seq::empty()
    };
    if !all_digits(whole) || !all_digits(fraction) || whole.len() + fraction.len() == 0 {
        None
    } else {
        Some((digits_of(whole) + digits_of(fraction), fraction.len() as int))
    }
}

/// The decimal number that a text denotes: an optional sign, then `inf`, `infinity` or `nan`,
/// or digits with at most one point and an optional exponent. Case does not matter.
pub open spec fn number_of(s: Seq<char>) -> Option<Number> {
    let negative = is_negative(s);
    let body = ascii_lower_all(without_sign(s));
    if body == "inf"@ || body == "infinity"@ {
        Some(Number::Infinite { negative })
    } else if body == "nan"@ {
        Some(Number::Nan)
    } else {
        let at = first_at(body, 'e');
        let power = if at < body.len() {
            whole_number(body.skip(at + 1))
        } else {
            Some(0)
        };
        match (mantissa_digits(body.take(at)), power) {
            (Some((digits, places)), Some(e)) => Some(
                Number::Finite { negative, digits, exponent: e - places },
            ),
            _ => None,
        }
    }
}

/// A decimal number as read.
enum Numeral {
    Nan,
    Infinite { negative: bool },
    Finite { negative: bool, digits: Vec<u8>, exponent: i128 },
}

spec fn denotes(n: Numeral, m: Number) -> bool {
    match (n, m) {
        (Numeral::Nan, Number::Nan) => true,
        (Numeral::Infinite { negative: a }, Number::Infinite { negative: b }) => a == b,
        (
            Numeral::Finite { negative: a, digits: ds, exponent: e },
            Number::Finite { negative: b, digits, exponent },
        ) => a == b && ds@ == digits && proper(digits) && stands_for(e, exponent) && -0x1_0000_0000_0000_0000_0000_0000_0000 < e
            < 0x1_0000_0000_0000_0000_0000_0000_0000,
        _ => false,
    }
}

pub proof fn lemma_first_at(s: Seq<char>, c: char, k: int)
    requires
        0 <= k <= s.len(),
        forall|j: int| 0 <= j < k ==> #[trigger] s[j] != c,
        k < s.len() ==> s[k] == c,
    ensures
        first_at(s, c) == k,
    decreases s.len(),
{
    if k > 0 {
        assert(s[0] != c);
        let t = s.drop_first();
        assert forall|j: int| 0 <= j < k - 1 implies #[trigger] t[j] != c by {
            assert(t[j] == s[j + 1]);
        }
        lemma_first_at(t, c, k - 1);
    }
}

fn position(chars: &Vec<char>, from: usize, to: usize, c: char) -> (r: usize)
    requires
        from <= to <= chars@.len(),
    ensures
        from <= r <= to,
        r - from == first_at(chars@.subrange(from as int, to as int), c),
        r < to ==> chars@[r as int] == c,
{
    let ghost s = chars@.subrange(from as int, to as int);
    let mut i: usize = from;
    while i < to
        invariant
            from <= i <= to <= chars@.len(),
            s == chars@.subrange(from as int, to as int),
            forall|j: int| 0 <= j < i - from ==> #[trigger] s[j] != c,
        decreases to - i,
    {
        assert(s[i - from] == chars@[i as int]);
        if chars[i] == c {
            proof {
                lemma_first_at(s, c, i - from);
            }
            return i;
        }
        i += 1;
    }
    proof {
        lemma_first_at(s, c, to - from);
    }
    to
}

/// The value of a list of digits, held at 10^30 where it is more.
fn bounded_value(ds: &Vec<u8>) -> (r: i128)
    requires
        proper(ds@),
    ensures
        0 <= r <= 1_000_000_000_000_000_000_000_000_000_000,
        r < 1_000_000_000_000_000_000_000_000_000_000 ==> r == digits_value(ds@),
        r == 1_000_000_000_000_000_000_000_000_000_000 ==> digits_value(ds@) >= r,
{
    let mut n: i128 = 0;
    let mut i: usize = 0;
    assert(ds@.take(0) =~= Seq::<u8>::empty());
    while i < ds.len()
        invariant
            i <= ds@.len(),
            proper(ds@),
            0 <= n <= 1_000_000_000_000_000_000_000_000_000_000,
            n < 1_000_000_000_000_000_000_000_000_000_000 ==> n == digits_value(
                ds@.take(i as int),
            ),
            n == 1_000_000_000_000_000_000_000_000_000_000 ==> digits_value(ds@.take(i as int))
                >= n,
        decreases ds.len() - i,
    {
        assert(ds@.take(i + 1).drop_last() =~= ds@.take(i as int));
        assert(ds@.take(i + 1).last() == ds@[i as int]);
        let next: i128 = n * 10 + ds[i] as i128;
        if next < 1_000_000_000_000_000_000_000_000_000_000 {
            n = next;
        } else {
            n = 1_000_000_000_000_000_000_000_000_000_000;
        }
        i += 1;
    }
    assert(ds@.take(i as int) =~= ds@);
    n
}

/// The exponent that the characters from `from` denote, held within bounds.
fn exponent_at(chars: &Vec<char>, from: usize) -> (r: Option<i128>)
    requires
        from <= chars@.len(),
    ensures
        match r {
            Some(e) => {
                &&& whole_number(chars@.skip(from as int)) is Some
                &&& -1_000_000_000_000_000_000_000_000_000_000 <= e
                    <= 1_000_000_000_000_000_000_000_000_000_000
                &&& ({
                    let exact = whole_number(chars@.skip(from as int))->0;
                    ||| e == exact
                    ||| e == 1_000_000_000_000_000_000_000_000_000_000 && exact >= e
                    ||| e == -1_000_000_000_000_000_000_000_000_000_000 && exact <= e
                })
            },
            None => whole_number(chars@.skip(from as int)) is None,
        },
{
    let ghost s = chars@.skip(from as int);
    let mut start: usize = from;
    let mut negative: bool = false;
    if from < chars.len() {
        assert(s[0] == chars@[from as int]);
        if chars[from] == '-' {
            negative = true;
            start = from + 1;
        } else if chars[from] == '+' {
            start = from + 1;
        }
    }
    assert(chars@.subrange(start as int, chars@.len() as int) =~= without_sign(s));
    if start == chars.len() {
        return None;
    }
    match digits_between(chars, start, chars.len()) {
        Some(ds) => {
            let n: i128 = bounded_value(&ds);
            if negative {
                Some(-n)
            } else {
                Some(n)
            }
        },
        None => None,
    }
}

/// The digits of the number in front of position `at`, with how many stand behind its point.
fn mantissa_at(chars: &Vec<char>, at: usize) -> (r: Option<(Vec<u8>, usize)>)
    requires
        at <= chars@.len(),
    ensures
        match r {
            Some((ds, places)) => mantissa_digits(chars@.take(at as int)) == Some(
                (ds@, places as int),
            ) && proper(ds@),
            None => mantissa_digits(chars@.take(at as int)) is None,
        },
{
    let ghost front = chars@.take(at as int);
    assert(chars@.subrange(0, at as int) =~= front);
    let dot: usize = position(chars, 0, at, '.');
    assert(chars@.subrange(0, dot as int) =~= front.take(dot as int));
    let rest: usize = if dot < at {
        dot + 1
    } else {
        at
    };
    let ghost fraction = if dot < front.len() {
        front.skip(dot + 1)
    } else {
        Seq::empty()
    };
    assert(chars@.subrange(rest as int, at as int) =~= fraction);
    let whole_digits: Vec<u8> = match digits_between(chars, 0, dot) {
        Some(ds) => ds,
        None => {
            return None;
        },
    };
    let fraction_digits: Vec<u8> = match digits_between(chars, rest, at) {
        Some(ds) => ds,
        None => {
            return None;
        },
    };
    if whole_digits.len() == 0 && fraction_digits.len() == 0 {
        return None;
    }
    let places: usize = fraction_digits.len();
    let ghost a = whole_digits@;
    let ghost b = fraction_digits@;
    let mut digits: Vec<u8> = whole_digits;
    let mut more: Vec<u8> = fraction_digits;
    digits.append(&mut more);
    assert(proper(digits@)) by {
        assert forall|i: int| 0 <= i < digits@.len() implies #[trigger] digits@[i] <= 9 by {
            if i < a.len() {
                assert(digits@[i] == a[i]);
            } else {
                assert(digits@[i] == b[i - a.len()]);
            }
        }
    }
    Some((digits, places))
}

fn read_number(s: &str) -> (r: Option<Numeral>)
    ensures
        match r {
            Some(n) => number_of(s@) is Some && denotes(n, number_of(s@)->0),
            None => number_of(s@) is None,
        },
{
    let all: Vec<char> = chars_of(s);
    let mut negative: bool = false;
    let mut start: usize = 0;
    if all.len() > 0 {
        if all[0] == '-' {
            negative = true;
            start = 1;
        } else if all[0] == '+' {
            start = 1;
        }
    }
    let unsigned: String = crate::text::text_of(&all, start, all.len());
    assert(unsigned@ =~= without_sign(s@));
    let lower: String = to_ascii_lower_all(unsigned.as_str());
    let ghost body = lower@;
    if same(lower.as_str(), "inf") || same(lower.as_str(), "infinity") {
        return Some(Numeral::Infinite { negative });
    }
    if same(lower.as_str(), "nan") {
        return Some(Numeral::Nan);
    }
    let chars: Vec<char> = chars_of(lower.as_str());
    let n: usize = chars.len();
    assert(chars@.subrange(0, n as int) =~= body);
    let at: usize = position(&chars, 0, n, 'e');
    let mut power: i128 = 0;
    if at < n {
        match exponent_at(&chars, at + 1) {
            Some(e) => {
                power = e;
            },
            None => {
                return None;
            },
        }
    }
    match mantissa_at(&chars, at) {
        Some((digits, places)) => {
            let exponent: i128 = power - places as i128;
            Some(Numeral::Finite { negative, digits, exponent })
        },
        None => None,
    }
}

// ---------------------------------------------------------------------------
// Sizes
// ---------------------------------------------------------------------------
/// A number in double precision, times a factor, as a whole number of bytes: what is below
/// zero or no number at all counts as none, and nothing exceeds the largest `u64`.
pub open spec fn bytes_of(n: Number, factor: nat) -> nat {
    match n {
        Number::Nan => 0,
        Number::Infinite { negative } => if negative {
            0
        } else {
            u64::MAX as nat
        },
        Number::Finite { negative, digits, exponent } => if negative {
            0
        } else {
            capped(product(numerator(digits, exponent), denominator(exponent), factor))
        },
    }
}

/// A number in double precision is below zero.
pub open spec fn below_zero(n: Number) -> bool {
    match n {
        Number::Nan => false,
        Number::Infinite { negative } => negative,
        Number::Finite { negative, digits, exponent } => negative && !vanishes(
            numerator(digits, exponent),
            denominator(exponent),
        ),
    }
}

/// Reads a decimal number and gives it, times a factor, as a whole number of bytes, with
/// whether it is below zero.
pub fn read_bytes(s: &str, factor: u64) -> (r: Option<(u64, bool)>)
    requires
        1 <= factor <= 1_000_000_000_000,
    ensures
        match r {
            Some((bytes, below)) => {
                &&& number_of(s@) is Some
                &&& bytes == bytes_of(number_of(s@)->0, factor as nat)
                &&& below == below_zero(number_of(s@)->0)
            },
            None => number_of(s@) is None,
        },
{
    match read_number(s) {
        None => None,
        Some(Numeral::Nan) => Some((0, false)),
        Some(Numeral::Infinite { negative }) => if negative {
            Some((0, true))
        } else {
            Some((u64::MAX, false))
        },
        Some(Numeral::Finite { negative, digits, exponent }) => {
            if negative {
                let vanished: bool = rounds_to_zero(&digits, exponent);
                Some((0, !vanished))
            } else {
                Some((decimal_product(&digits, exponent, factor), false))
            }
        },
    }
}

/// Reads a whole number that an `i64` can hold.
pub fn read_i64(s: &str) -> (r: Option<i64>)
    ensures
        match r {
            Some(n) => whole_number(s@) == Some(n as int),
            None => whole_number(s@) is None || whole_number(s@)->0 < i64::MIN
                || whole_number(s@)->0 > i64::MAX,
        },
{
    let chars: Vec<char> = chars_of(s);
    assert(chars@.skip(0) =~= s@);
    match exponent_at(&chars, 0) {
        Some(n) => if -0x8000_0000_0000_0000 <= n && n <= 0x7fff_ffff_ffff_ffff {
            Some(n as i64)
        } else {
            None
        },
        None => None,
    }
}

} // verus!
