//! Positive decimal numbers as double-precision values: rounded to 53 binary digits, ties to
//! the even neighbour.

#[allow(unused_imports)]
use crate::numbers::{
    digits_value, lemma_digits_bound, lemma_digits_front, lemma_digits_split, lemma_tens_adds,
    lemma_tens_grows, lemma_tens_positive, proper, tens,
};
#[allow(unused_imports)]
use vstd::arithmetic::div_mod::{lemma_div_denominator, lemma_fundamental_div_mod_converse};
#[allow(unused_imports)]
use vstd::arithmetic::power2::{
    lemma2_to64, lemma2_to64_rest, lemma_pow2_adds, lemma_pow2_pos, lemma_pow2_strictly_increases,
    lemma_pow2_unfold, pow2,
};
use vstd::prelude::*;

verus! {

// ---------------------------------------------------------------------------
// Rounding
// ---------------------------------------------------------------------------
/// The quotient rounded to the nearest whole number, a tie to the even one.
pub open spec fn half_even(a: nat, b: nat) -> nat {
    let q = a / b;
    let r = a % b;
    if 2 * r < b || (2 * r == b && q % 2 == 0) {
        q
    } else {
        q + 1
    }
}

/// `n / d`, scaled by two to the `s`, has 53 binary digits before its point.
pub open spec fn fits(n: nat, d: nat, s: int) -> bool {
    if s >= 0 {
        pow2(52) * d <= n * pow2(s as nat) && n * pow2(s as nat) < pow2(53) * d
    } else {
        pow2(52) * (d * pow2((-s) as nat)) <= n && n < pow2(53) * (d * pow2((-s) as nat))
    }
}

pub open spec fn scale(n: nat, d: nat) -> int {
    choose|s: int| fits(n, d, s)
}

pub open spec fn rounded_at(n: nat, d: nat, s: int) -> nat {
    if s >= 0 {
        half_even(n * pow2(s as nat), d)
    } else {
        half_even(n, d * pow2((-s) as nat))
    }
}

/// The double nearest to the positive number `n / d` is this, divided by two to the `scale`.
pub open spec fn significand(n: nat, d: nat) -> nat {
    rounded_at(n, d, scale(n, d))
}

/// `m`, divided by two to the `s`, without its fraction.
pub open spec fn shifted(m: nat, s: int) -> nat {
    if s >= 0 {
        m / pow2(s as nat)
    } else {
        m * pow2((-s) as nat)
    }
}

/// The whole part of a product in double precision: `n / d` is rounded, multiplied, and the
/// product is rounded again.
pub open spec fn product(n: nat, d: nat, factor: nat) -> nat {
    if n == 0 {
        0
    } else {
        let p = significand(n, d) * factor;
        shifted(significand(p, 1), scale(n, d) + scale(p, 1))
    }
}

proof fn lemma_literals()
    ensures
        pow2(0) == 1,
        pow2(1) == 2,
        pow2(11) == 0x800,
        pow2(12) == 0x1000,
        pow2(40) == 0x100_0000_0000,
        pow2(41) == 0x200_0000_0000,
        pow2(52) == 0x10_0000_0000_0000,
        pow2(53) == 0x20_0000_0000_0000,
        pow2(54) == 0x40_0000_0000_0000,
        pow2(64) == 0x1_0000_0000_0000_0000,
{
    lemma2_to64();
    lemma2_to64_rest();
}

proof fn lemma_pow2_two(k: nat)
    requires
        k >= 1,
    ensures
        pow2(k) >= 2,
{
    lemma_literals();
    if k > 1 {
        lemma_pow2_strictly_increases(1, k);
    }
}

proof fn lemma_scale_unique(n: nat, d: nat, s: int, t: int)
    requires
        d > 0,
        fits(n, d, s),
        fits(n, d, t),
    ensures
        s == t,
{
    if s < t {
        lemma_scale_order(n, d, s, t);
    } else if t < s {
        lemma_scale_order(n, d, t, s);
    }
}

proof fn lemma_scale_order(n: nat, d: nat, s: int, t: int)
    requires
        d > 0,
        fits(n, d, s),
        s < t,
    ensures
        !fits(n, d, t),
{
    lemma_literals();
    let a = pow2(52);
    let b = pow2(53);
    assert(b == 2 * a);
    if s >= 0 {
        let k = (t - s) as nat;
        lemma_pow2_adds(s as nat, k);
        assert(s as nat + k == t as nat);
        lemma_pow2_two(k);
        let p = pow2(s as nat);
        let q = pow2(k);
        assert(n * (p * q) >= b * d) by (nonlinear_arith)
            requires
                a * d <= n * p,
                q >= 2,
                b == 2 * a,
        ;
    } else if t >= 0 {
        lemma_pow2_two((-s) as nat);
        let p = pow2((-s) as nat);
        lemma_pow2_pos(t as nat);
        let q = pow2(t as nat);
        assert(n * q >= b * d) by (nonlinear_arith)
            requires
                a * (d * p) <= n,
                p >= 2,
                q >= 1,
                b == 2 * a,
        ;
    } else {
        let k = (t - s) as nat;
        lemma_pow2_adds((-t) as nat, k);
        assert((-t) as nat + k == (-s) as nat);
        lemma_pow2_two(k);
        let p = pow2((-t) as nat);
        let q = pow2(k);
        assert(n >= b * (d * p)) by (nonlinear_arith)
            requires
                a * (d * (p * q)) <= n,
                q >= 2,
                b == 2 * a,
        ;
    }
}

proof fn lemma_scale_above(n: nat, d: nat, s: nat)
    requires
        n > 0,
        d > 0,
        n * pow2(s) < pow2(53) * d,
    ensures
        exists|t: int| fits(n, d, t),
    decreases pow2(53) * d - n * pow2(s),
{
    lemma_literals();
    if pow2(52) * d <= n * pow2(s) {
        assert(fits(n, d, s as int));
    } else {
        lemma_pow2_unfold(s + 1);
        lemma_pow2_pos(s);
        let p = pow2(s);
        assert(n * pow2(s + 1) == 2 * (n * p)) by (nonlinear_arith)
            requires
                pow2(s + 1) == 2 * p,
        ;
        assert(n * p >= 1) by (nonlinear_arith)
            requires
                n > 0,
                p > 0,
        ;
        lemma_scale_above(n, d, s + 1);
    }
}

proof fn lemma_scale_below(n: nat, d: nat, s: nat)
    requires
        d > 0,
        n >= pow2(52) * (d * pow2(s)),
    ensures
        exists|t: int| fits(n, d, t),
    decreases n - d * pow2(s),
{
    lemma_literals();
    lemma_pow2_pos(s);
    let p = pow2(s);
    if n < pow2(53) * (d * p) {
        if s == 0 {
            assert(n * pow2(0) == n);
            assert(d * pow2(0) == d);
            assert(fits(n, d, 0));
        } else {
            assert(fits(n, d, -(s as int)));
        }
    } else {
        lemma_pow2_unfold(s + 1);
        assert(d * pow2(s + 1) == 2 * (d * p)) by (nonlinear_arith)
            requires
                pow2(s + 1) == 2 * p,
        ;
        assert(d * p >= 1) by (nonlinear_arith)
            requires
                d > 0,
                p > 0,
        ;
        lemma_scale_below(n, d, s + 1);
    }
}

/// Every positive number has its scale.
proof fn lemma_scale(n: nat, d: nat)
    requires
        n > 0,
        d > 0,
    ensures
        fits(n, d, scale(n, d)),
{
    lemma_literals();
    assert(n * pow2(0) == n);
    assert(d * pow2(0) == d);
    if n < pow2(53) * d {
        lemma_scale_above(n, d, 0);
    } else {
        lemma_scale_below(n, d, 0);
    }
}

/// A rounded significand has 53 binary digits, or is the first with 54.
proof fn lemma_rounded_range(n: nat, d: nat, s: int)
    requires
        d > 0,
        fits(n, d, s),
    ensures
        pow2(52) <= rounded_at(n, d, s) <= pow2(53),
{
    lemma_literals();
    if s >= 0 {
        lemma_quotient_range(n * pow2(s as nat), d);
    } else {
        lemma_pow2_pos((-s) as nat);
        let e = d * pow2((-s) as nat);
        assert(e > 0) by (nonlinear_arith)
            requires
                d > 0,
                pow2((-s) as nat) > 0,
                e == d * pow2((-s) as nat),
        ;
        lemma_quotient_range(n, e);
    }
}

proof fn lemma_quotient_range(a: nat, b: nat)
    requires
        b > 0,
        0x10_0000_0000_0000 * b <= a < 0x20_0000_0000_0000 * b,
    ensures
        0x10_0000_0000_0000 <= half_even(a, b) <= 0x20_0000_0000_0000,
{
    let q = a / b;
    assert(0x10_0000_0000_0000 <= q < 0x20_0000_0000_0000) by (nonlinear_arith)
        requires
            b > 0,
            0x10_0000_0000_0000 * b <= a < 0x20_0000_0000_0000 * b,
            q == a / b,
    ;
}

// ---------------------------------------------------------------------------
// Fractions as lists of digits
// ---------------------------------------------------------------------------
/// Doubles a fraction; tells whether it reached one.
fn double_fraction(f: &mut Vec<u8>) -> (carry: bool)
    requires
        proper(old(f)@),
    ensures
        final(f)@.len() == old(f)@.len(),
        proper(final(f)@),
        2 * digits_value(old(f)@) == (if carry {
            tens(old(f)@.len())
        } else {
            0
        }) + digits_value(final(f)@),
{
    let ghost before = f@;
    let n: usize = f.len();
    let mut carry: bool = false;
    let mut i: usize = n;
    assert(before.skip(n as int) =~= Seq::<u8>::empty());
    while i > 0
        invariant
            i <= n,
            n == before.len(),
            f@.len() == n,
            proper(before),
            proper(f@),
            forall|j: int| 0 <= j < i ==> #[trigger] f@[j] == before[j],
            2 * digits_value(before.skip(i as int)) == (if carry {
                tens((n - i) as nat)
            } else {
                0
            }) + digits_value(f@.skip(i as int)),
        decreases i,
    {
        let ghost now = f@;
        let k: usize = i - 1;
        let sum: u8 = 2 * f[k] + if carry {
            1u8
        } else {
            0u8
        };
        let ghost c = carry;
        let d: u8 = if sum >= 10 {
            sum - 10
        } else {
            sum
        };
        f.set(k, d);
        carry = sum >= 10;
        proof {
            let t = tens((n - i) as nat);
            lemma_digits_front(before.skip(k as int));
            lemma_digits_front(f@.skip(k as int));
            assert(before.skip(k as int).drop_first() =~= before.skip(i as int));
            assert(f@.skip(k as int).drop_first() =~= now.skip(i as int));
            assert(before.skip(k as int)[0] == before[k as int]);
            assert(f@.skip(k as int)[0] == d);
            assert(tens((n - k) as nat) == 10 * t);
            let x = before[k as int] as nat;
            assert(2 * (x * t) + (if c {
                t
            } else {
                0
            }) == (if carry {
                10 * t
            } else {
                0
            }) + d as nat * t) by (nonlinear_arith)
                requires
                    2 * x + (if c {
                        1nat
                    } else {
                        0nat
                    }) == (if carry {
                        10nat
                    } else {
                        0nat
                    }) + d as nat,
            ;
        }
        i = k;
    }
    assert(before.skip(0) =~= before);
    assert(f@.skip(0) =~= f@);
    carry
}

fn all_zero(f: &Vec<u8>) -> (r: bool)
    requires
        proper(f@),
    ensures
        r == (digits_value(f@) == 0),
{
    let mut i: usize = 0;
    assert(f@.take(0) =~= Seq::<u8>::empty());
    while i < f.len()
        invariant
            i <= f@.len(),
            digits_value(f@.take(i as int)) == 0,
        decreases f.len() - i,
    {
        assert(f@.take(i + 1).drop_last() =~= f@.take(i as int));
        assert(f@.take(i + 1).last() == f@[i as int]);
        if f[i] != 0 {
            proof {
                lemma_digits_split(f@, i + 1);
                lemma_tens_positive((f@.len() - i - 1) as nat);
                let a = digits_value(f@.take(i + 1));
                let t = tens((f@.len() - i - 1) as nat);
                assert(a * t >= 1) by (nonlinear_arith)
                    requires
                        a >= 1,
                        t >= 1,
                ;
            }
            return false;
        }
        i += 1;
    }
    assert(f@.take(i as int) =~= f@);
    true
}

/// A number below one: `head` parts of `room`, and its digits behind that.
struct Fraction {
    head: u128,
    room: u128,
    digits: Vec<u8>,
}

impl Fraction {
    spec fn wf(self) -> bool {
        &&& proper(self.digits@)
        &&& self.head < self.room <= 100_000_000_000_000_000_000
    }

    /// Its numerator.
    spec fn value(self) -> nat {
        (self.head * tens(self.digits@.len()) + digits_value(self.digits@)) as nat
    }

    /// Its denominator.
    spec fn size(self) -> nat {
        (self.room * tens(self.digits@.len())) as nat
    }
}

proof fn lemma_fraction(f: Fraction)
    requires
        f.wf(),
    ensures
        f.size() >= 1,
        f.value() < f.size(),
{
    let t = tens(f.digits@.len());
    lemma_tens_positive(f.digits@.len());
    lemma_digits_bound(f.digits@);
    assert(f.head * t + t <= f.room * t) by (nonlinear_arith)
        requires
            f.head + 1 <= f.room,
    ;
}

/// No fraction.
fn nothing() -> (r: Fraction)
    ensures
        r.wf(),
        r.value() == 0,
        r.size() == 1,
{
    let digits: Vec<u8> = Vec::new();
    proof {
        assert(tens(digits@.len()) == 1);
        assert(digits_value(digits@) == 0);
        assert(0 * tens(digits@.len()) == 0);
        assert(1 * tens(digits@.len()) == 1);
    }
    Fraction { head: 0, room: 1, digits }
}

/// Doubles a fraction; tells whether it reached one.
fn double_whole(f: &mut Fraction) -> (carry: bool)
    requires
        old(f).wf(),
    ensures
        final(f).wf(),
        final(f).size() == old(f).size(),
        2 * old(f).value() == (if carry {
            old(f).size()
        } else {
            0
        }) + final(f).value(),
{
    let ghost before = *f;
    let ghost t = tens(f.digits@.len());
    let low: bool = double_fraction(&mut f.digits);
    let sum: u128 = 2 * f.head + if low {
        1u128
    } else {
        0u128
    };
    let carry: bool = sum >= f.room;
    if carry {
        f.head = sum - f.room;
    } else {
        f.head = sum;
    }
    proof {
        assert(2 * (before.head * t) + (if low {
            t
        } else {
            0
        }) == (if carry {
            before.room * t
        } else {
            0
        }) + f.head * t) by (nonlinear_arith)
            requires
                2 * before.head + (if low {
                    1int
                } else {
                    0int
                }) == (if carry {
                    before.room as int
                } else {
                    0int
                }) + f.head,
        ;
    }
    carry
}

fn is_zero(f: &Fraction) -> (r: bool)
    requires
        f.wf(),
    ensures
        r == (f.value() == 0),
{
    proof {
        let t = tens(f.digits@.len());
        lemma_tens_positive(f.digits@.len());
        assert(f.head > 0 ==> f.head * t > 0) by (nonlinear_arith)
            requires
                t >= 1,
        ;
        assert(0 * t == 0);
    }
    f.head == 0 && all_zero(&f.digits)
}

proof fn lemma_divides(a: nat, b: nat, q: nat, r: nat)
    requires
        a == q * b + r,
        r < b,
    ensures
        a / b == q,
        a % b == r,
{
    lemma_fundamental_div_mod_converse(a as int, b as int, q as int, r as int);
}

// ---------------------------------------------------------------------------
// The nearest double
// ---------------------------------------------------------------------------
/// A number with 53 binary digits or fewer before the point, doubled until it has 53, and
/// rounded.
fn round_up_to(x0: u128, f0: Fraction) -> (r: (u64, i32))
    requires
        f0.wf(),
        x0 < 0x20_0000_0000_0000,
        (x0 * f0.size() + f0.value()) * pow2(70) >= f0.size(),
    ensures
        fits((x0 * f0.size() + f0.value()) as nat, f0.size(), r.1 as int),
        r.0 == rounded_at(
            (x0 * f0.size() + f0.value()) as nat,
            f0.size(),
            r.1 as int,
        ),
        0 <= r.1 <= 122,
{
    let ghost d = f0.size();
    let ghost n = (x0 * d + f0.value()) as nat;
    let mut x: u128 = x0;
    let mut f: Fraction = f0;
    let mut s: i32 = 0;
    proof {
        lemma_literals();
        lemma_fraction(f0);
        assert(n * 1 == n);
    }
    while x < 0x10_0000_0000_0000
        invariant
            0 <= s <= 122,
            x < 0x20_0000_0000_0000,
            f.wf(),
            d == f.size(),
            d >= 1,
            n * pow2(s as nat) == x * d + f.value(),
            n * pow2(70) >= d,
            pow2(52) == 0x10_0000_0000_0000,
        decreases 122 - s,
    {
        proof {
            lemma_fraction(f);
            if s == 122 {
                lemma_pow2_adds(70, 52);
                let a = n * pow2(70);
                let b = pow2(52);
                assert(n * (pow2(70) * b) == a * b) by (nonlinear_arith)
                    requires
                        a == n * pow2(70),
                ;
                assert(a * b >= d * b) by (nonlinear_arith)
                    requires
                        a >= d,
                ;
                assert(false) by (nonlinear_arith)
                    requires
                        x * d + f.value() >= d * b,
                        x + 1 <= b,
                        f.value() < d,
                ;
            }
            lemma_pow2_unfold((s + 1) as nat);
            assert(n * (2 * pow2(s as nat)) == 2 * (n * pow2(s as nat))) by (nonlinear_arith);
        }
        let ghost before = f.value();
        let ghost was = x;
        let carry: bool = double_whole(&mut f);
        x = 2 * x + if carry {
            1u128
        } else {
            0u128
        };
        s += 1;
        proof {
            assert(2 * (was * d) + (if carry {
                d
            } else {
                0
            }) == x * d) by (nonlinear_arith)
                requires
                    x == 2 * was + (if carry {
                        1int
                    } else {
                        0int
                    }),
            ;
        }
    }
    let ghost rest = f.value();
    let carry: bool = double_whole(&mut f);
    let tie: bool = is_zero(&f);
    let up: bool = carry && (!tie || x % 2 == 1);
    let m: u64 = x as u64 + if up {
        1u64
    } else {
        0u64
    };
    proof {
        lemma_fraction(f);
        lemma_literals();
        let a = n * pow2(s as nat);
        assert(rest < d) by {
            assert(2 * rest == (if carry {
                d
            } else {
                0
            }) + f.value());
        }
        lemma_divides(a, d, x as nat, rest);
        assert(0x10_0000_0000_0000 * d <= x * d && x * d + d <= 0x20_0000_0000_0000 * d)
            by (nonlinear_arith)
            requires
                0x10_0000_0000_0000 <= x < 0x20_0000_0000_0000,
        ;
    }
    (m, s)
}

/// A number with 53 binary digits or more before the point, halved until it has 53, and
/// rounded.
fn round_down_to(x0: u128, f: Fraction) -> (r: (u64, i32))
    requires
        f.wf(),
        0x20_0000_0000_0000 <= x0 < 0x10_0000_0000_0000_0000_0000_0000,
    ensures
        fits((x0 * f.size() + f.value()) as nat, f.size(), r.1 as int),
        r.0 == rounded_at(
            (x0 * f.size() + f.value()) as nat,
            f.size(),
            r.1 as int,
        ),
        -100 <= r.1 < 0,
{
    let ghost d = f.size();
    let ghost n = (x0 * d + f.value()) as nat;
    let mut y: u128 = x0;
    let mut t: i32 = 0;
    let mut guard: bool = false;
    let mut sticky: bool = false;
    let ghost mut low: nat = 0;
    let ghost mut half: nat = 0;
    proof {
        lemma_literals();
        assert(y * 1 == y);
    }
    while y >= 0x20_0000_0000_0000
        invariant
            0 <= t <= 100,
            0x10_0000_0000_0000 <= y < 0x10_0000_0000_0000_0000_0000_0000,
            t > 0 ==> 2 * half == pow2(t as nat),
            t > 0 ==> low < half,
            t == 0 ==> half == 0 && low == 0 && !guard && y >= 0x20_0000_0000_0000,
            x0 == y * pow2(t as nat) + (if guard {
                half
            } else {
                0
            }) + low,
            sticky == (low != 0),
            y * pow2(t as nat) < 0x10_0000_0000_0000_0000_0000_0000,
        decreases y,
    {
        proof {
            lemma_pow2_unfold((t + 1) as nat);
            lemma_pow2_pos(t as nat);
            if t == 100 {
                lemma_literals();
                lemma_pow2_adds(53, 47);
                lemma2_to64_rest();
                lemma_pow2_strictly_increases(0, 47);
                assert(false) by (nonlinear_arith)
                    requires
                        y >= 0x20_0000_0000_0000,
                        y * pow2(100) < 0x10_0000_0000_0000_0000_0000_0000,
                        pow2(100) == pow2(53) * pow2(47),
                        pow2(53) == 0x20_0000_0000_0000,
                        pow2(47) == 0x8000_0000_0000,
                ;
            }
        }
        let ghost was = y;
        let ghost p = pow2(t as nat);
        let bit: bool = y % 2 == 1;
        sticky = sticky || guard;
        proof {
            low = low + (if guard {
                half
            } else {
                0
            });
            half = p;
        }
        guard = bit;
        y = y / 2;
        t += 1;
        proof {
            assert(was * p == y * (2 * p) + (if bit {
                p
            } else {
                0
            })) by (nonlinear_arith)
                requires
                    was == 2 * y + (if bit {
                        1int
                    } else {
                        0int
                    }),
            ;
            assert(y * (2 * p) <= was * p);
        }
    }
    let tie: bool = !sticky && is_zero(&f);
    let up: bool = guard && (!tie || y % 2 == 1);
    let m: u64 = y as u64 + if up {
        1u64
    } else {
        0u64
    };
    proof {
        lemma_literals();
        lemma_fraction(f);
        lemma_fraction(f);
        let p = pow2(t as nat);
        lemma_pow2_pos(t as nat);
        let v = f.value();
        let g: nat = if guard {
            half
        } else {
            0
        };
        let e = d * p;
        let r = ((g + low) * d + v) as nat;
        assert(n == y * e + r) by (nonlinear_arith)
            requires
                n == x0 * d + v,
                x0 == y * p + g + low,
                e == d * p,
                r == (g + low) * d + v,
        ;
        assert(r < e) by (nonlinear_arith)
            requires
                r == (g + low) * d + v,
                g <= half,
                low + 1 <= half,
                2 * half == p,
                v < d,
                e == d * p,
        ;
        lemma_divides(n, e, y as nat, r);
        if guard {
            assert(2 * r == e + 2 * (low * d + v)) by (nonlinear_arith)
                requires
                    r == (half + low) * d + v,
                    2 * half == p,
                    e == d * p,
            ;
            assert(low > 0 ==> low * d > 0) by (nonlinear_arith)
                requires
                    d >= 1,
            ;
            assert(low == 0 ==> low * d == 0);
        } else {
            assert(2 * r < e) by (nonlinear_arith)
                requires
                    r == low * d + v,
                    low + 1 <= half,
                    2 * half == p,
                    v < d,
                    e == d * p,
            ;
        }
        assert(0x10_0000_0000_0000 * e <= y * e && y * e + e <= 0x20_0000_0000_0000 * e)
            by (nonlinear_arith)
            requires
                0x10_0000_0000_0000 <= y < 0x20_0000_0000_0000,
        ;
    }
    (m, -t)
}

/// The significand and scale of the double nearest to a number with `x` before the point and
/// the digits `f` behind it.
fn nearest(x: u128, f: Fraction) -> (r: (u64, i32))
    requires
        f.wf(),
        x < 0x10_0000_0000_0000_0000_0000_0000,
        (x * f.size() + f.value()) * pow2(70) >= f.size(),
    ensures
        r.1 == scale((x * f.size() + f.value()) as nat, f.size()),
        r.0 == significand((x * f.size() + f.value()) as nat, f.size()),
        0x10_0000_0000_0000 <= r.0 <= 0x20_0000_0000_0000,
        -100 <= r.1 <= 122,
{
    let ghost d = f.size();
    let ghost n = (x * d + f.value()) as nat;
    let r: (u64, i32) = if x < 0x20_0000_0000_0000 {
        round_up_to(x, f)
    } else {
        round_down_to(x, f)
    };
    proof {
        lemma_literals();
        lemma_fraction(f);
        assert(n > 0) by (nonlinear_arith)
            requires
                n * pow2(70) >= d,
                d >= 1,
        ;
        lemma_scale(n, d);
        lemma_scale_unique(n, d, r.1 as int, scale(n, d));
        lemma_rounded_range(n, d, r.1 as int);
    }
    r
}

// ---------------------------------------------------------------------------
// The product
// ---------------------------------------------------------------------------
/// `m`, divided by two to the `s`, without its fraction and held at the largest `u64`.
fn shift(m: u64, s: i32) -> (r: u64)
    requires
        m > 0,
        -1000 <= s <= 1000,
    ensures
        r == (if shifted(m as nat, s as int) <= u64::MAX {
            shifted(m as nat, s as int)
        } else {
            u64::MAX as nat
        }),
{
    proof {
        lemma_literals();
        assert(m as nat / 1 == m);
        assert(m * 1 == m);
    }
    if s >= 0 {
        let mut x: u64 = m;
        let mut k: i32 = 0;
        while k < s
            invariant
                0 <= k <= s <= 1000,
                x == m as nat / pow2(k as nat),
                x <= m,
            decreases s - k,
        {
            proof {
                let p = pow2(k as nat);
                lemma_pow2_pos(k as nat);
                lemma_pow2_unfold((k + 1) as nat);
                lemma_div_denominator(m as int, p as int, 2);
                assert(p * 2 == 2 * p);
            }
            x = x / 2;
            k += 1;
        }
        x
    } else {
        let mut x: u64 = m;
        let mut k: i32 = 0;
        while k < -s
            invariant
                0 <= k <= -s <= 1000,
                m > 0,
                x == m * pow2(k as nat),
            decreases -s - k,
        {
            proof {
                let p = pow2(k as nat);
                lemma_pow2_unfold((k + 1) as nat);
                assert(m * (2 * p) == 2 * (m * p)) by (nonlinear_arith);
                if k + 1 < -s {
                    lemma_pow2_strictly_increases((k + 1) as nat, (-s) as nat);
                }
                assert(m * pow2((k + 1) as nat) <= m * pow2((-s) as nat)) by (nonlinear_arith)
                    requires
                        pow2((k + 1) as nat) <= pow2((-s) as nat),
                        m > 0,
                ;
            }
            if x > 0x7fff_ffff_ffff_ffff {
                return u64::MAX;
            }
            x = 2 * x;
            k += 1;
        }
        x
    }
}

/// The product with a factor, for a number with `x` before the point and the digits `f` behind
/// it.
fn product_of_parts(x: u128, f: Fraction, factor: u64) -> (r: u64)
    requires
        f.wf(),
        x < 0x10_0000_0000_0000_0000_0000_0000,
        (x * f.size() + f.value()) * pow2(70) >= f.size(),
        1 <= factor <= 1_000_000_000_000,
    ensures
        r == capped(
            product(
                (x * f.size() + f.value()) as nat,
                f.size(),
                factor as nat,
            ),
        ),
{
    let ghost d = f.size();
    let ghost n = (x * d + f.value()) as nat;
    proof {
        lemma_fraction(f);
        assert(n > 0) by (nonlinear_arith)
            requires
                n * pow2(70) >= d,
                d >= 1,
        ;
    }
    let a: (u64, i32) = nearest(x, f);
    let m: u128 = a.0 as u128;
    let k: u128 = factor as u128;
    assert(0x10_0000_0000_0000 <= m * k <= 0x20_0000_0000_0000 * 1_000_000_000_000)
        by (nonlinear_arith)
        requires
            0x10_0000_0000_0000 <= m <= 0x20_0000_0000_0000,
            1 <= k <= 1_000_000_000_000,
    ;
    let p: u128 = m * k;
    let none: Fraction = nothing();
    proof {
        assert(p * 1 + 0 == p);
        lemma_pow2_pos(70);
        assert(p * pow2(70) >= 1) by (nonlinear_arith)
            requires
                p >= 1,
                pow2(70) >= 1,
        ;
    }
    let b: (u64, i32) = nearest(p, none);
    shift(b.0, a.1 + b.1)
}

pub open spec fn capped(n: nat) -> nat {
    if n <= u64::MAX {
        n
    } else {
        u64::MAX as nat
    }
}

/// The number that digits and a power of ten denote, over its denominator.
pub open spec fn numerator(ds: Seq<u8>, e: int) -> nat {
    if e >= 0 {
        digits_value(ds) * tens(e as nat)
    } else {
        digits_value(ds)
    }
}

pub open spec fn denominator(e: int) -> nat {
    if e >= 0 {
        1
    } else {
        tens((-e) as nat)
    }
}

/// A number that no `u64` holds has a product that none holds.
proof fn lemma_huge(n: nat, d: nat, factor: nat)
    requires
        d > 0,
        n >= pow2(64) * d,
        factor >= 1,
    ensures
        product(n, d, factor) > u64::MAX,
{
    lemma_literals();
    assert(n > 0) by (nonlinear_arith)
        requires
            n >= pow2(64) * d,
            d > 0,
            pow2(64) == 0x1_0000_0000_0000_0000,
    ;
    lemma_scale(n, d);
    let s = scale(n, d);
    if s > -12 {
        if s >= 0 {
            lemma_pow2_pos(s as nat);
            let q = pow2(s as nat);
            assert(n * q >= n) by (nonlinear_arith)
                requires
                    q >= 1,
            ;
        } else {
            let q = pow2((-s) as nat);
            if -s < 11 {
                lemma_pow2_strictly_increases((-s) as nat, 11);
            }
            assert(pow2(53) * (d * q) <= pow2(64) * d) by (nonlinear_arith)
                requires
                    q <= 0x800,
                    pow2(53) == 0x20_0000_0000_0000,
                    pow2(64) == 0x1_0000_0000_0000_0000,
            ;
        }
        assert(false);
    }
    lemma_rounded_range(n, d, s);
    let m = significand(n, d);
    let p = m * factor;
    assert(p >= m) by (nonlinear_arith)
        requires
            p == m * factor,
            factor >= 1,
    ;
    lemma_scale(p, 1);
    lemma_rounded_range(p, 1, scale(p, 1));
    let t = scale(p, 1);
    if t > 0 {
        lemma_pow2_two(t as nat);
        let q = pow2(t as nat);
        assert(p * q >= 0x20_0000_0000_0000) by (nonlinear_arith)
            requires
                p >= 0x10_0000_0000_0000,
                q >= 2,
        ;
        assert(false);
    }
    let k = (-(s + t)) as nat;
    if k > 12 {
        lemma_pow2_strictly_increases(12, k);
    }
    let m2 = significand(p, 1);
    assert(m2 * pow2(k) >= 0x10_0000_0000_0000 * 0x1000) by (nonlinear_arith)
        requires
            m2 >= 0x10_0000_0000_0000,
            pow2(k) >= 0x1000,
    ;
}

/// A number far below one, times a factor that is not too large, has no whole part.
proof fn lemma_tiny(n: nat, d: nat, factor: nat)
    requires
        n > 0,
        n * pow2(66) < d,
        1 <= factor <= 1_000_000_000_000,
    ensures
        product(n, d, factor) == 0,
{
    lemma_literals();
    lemma_scale(n, d);
    let s = scale(n, d);
    if s <= 118 {
        lemma_pow2_adds(66, 52);
        assert(n * pow2(118) == (n * pow2(66)) * pow2(52)) by (nonlinear_arith)
            requires
                pow2(118) == pow2(66) * pow2(52),
        ;
        assert((n * pow2(66)) * pow2(52) < pow2(52) * d) by (nonlinear_arith)
            requires
                n * pow2(66) < d,
                pow2(52) > 0,
        ;
        if s >= 0 {
            if s < 118 {
                lemma_pow2_strictly_increases(s as nat, 118);
            }
            let q = pow2(s as nat);
            assert(n * q <= n * pow2(118)) by (nonlinear_arith)
                requires
                    q <= pow2(118),
            ;
        } else {
            lemma_pow2_pos((-s) as nat);
            lemma_pow2_pos(66);
            let q = pow2((-s) as nat);
            assert(pow2(52) * (d * q) > n) by (nonlinear_arith)
                requires
                    n * pow2(66) < d,
                    pow2(66) >= 1,
                    q >= 1,
                    pow2(52) >= 1,
            ;
        }
        assert(false);
    }
    lemma_rounded_range(n, d, s);
    let m = significand(n, d);
    let p = m * factor;
    assert(0x10_0000_0000_0000 <= p <= 0x20_0000_0000_0000 * 0x100_0000_0000) by (nonlinear_arith)
        requires
            p == m * factor,
            1 <= factor <= 0x100_0000_0000,
            0x10_0000_0000_0000 <= m <= 0x20_0000_0000_0000,
    ;
    lemma_scale(p, 1);
    let t = scale(p, 1);
    lemma_rounded_range(p, 1, t);
    if t < -41 {
        lemma_pow2_strictly_increases(41, (-t) as nat);
        let q = pow2((-t) as nat);
        assert(pow2(52) * (1 * q) > p) by (nonlinear_arith)
            requires
                q > 0x200_0000_0000,
                pow2(52) == 0x10_0000_0000_0000,
                p <= 0x20_0000_0000_0000 * 0x100_0000_0000,
        ;
        assert(false);
    }
    let k = (s + t) as nat;
    assert(k >= 78);
    lemma_pow2_strictly_increases(54, k);
    let m2 = significand(p, 1);
    lemma_divides(m2, pow2(k), 0, m2);
}

/// The digits behind the leading zeros.
fn strip(ds: &Vec<u8>) -> (r: Vec<u8>)
    requires
        proper(ds@),
    ensures
        proper(r@),
        digits_value(r@) == digits_value(ds@),
        r@.len() > 0 ==> r@[0] > 0,
        r@.len() <= ds@.len(),
{
    let mut k: usize = 0;
    assert(ds@.take(0) =~= Seq::<u8>::empty());
    while k < ds.len() && ds[k] == 0
        invariant
            k <= ds@.len(),
            digits_value(ds@.take(k as int)) == 0,
        decreases ds.len() - k,
    {
        assert(ds@.take(k + 1).drop_last() =~= ds@.take(k as int));
        assert(ds@.take(k + 1).last() == ds@[k as int]);
        k += 1;
    }
    proof {
        lemma_digits_split(ds@, k as int);
        assert(0 * tens((ds@.len() - k) as nat) == 0);
    }
    trailing(ds, k)
}

/// The value of the first `k` digits, at most twenty of them, followed by `zeros` zeros.
fn leading(ds: &Vec<u8>, k: usize, zeros: usize) -> (r: u128)
    requires
        proper(ds@),
        k <= ds@.len(),
        k + zeros <= 20,
    ensures
        r == digits_value(ds@.take(k as int)) * tens(zeros as nat),
        r < 0x10_0000_0000_0000_0000_0000_0000,
{
    let mut n: u128 = 0;
    let mut i: usize = 0;
    proof {
        assert(ds@.take(0) =~= Seq::<u8>::empty());
        reveal_with_fuel(tens, 21);
    }
    while i < k
        invariant
            i <= k <= ds@.len(),
            k + zeros <= 20,
            proper(ds@),
            n == digits_value(ds@.take(i as int)),
            tens(20) == 100_000_000_000_000_000_000,
        decreases k - i,
    {
        proof {
            assert(ds@.take(i + 1).drop_last() =~= ds@.take(i as int));
            assert(ds@.take(i + 1).last() == ds@[i as int]);
            assert(proper(ds@.take(i as int)));
            lemma_digits_bound(ds@.take(i as int));
            lemma_tens_grows(i as nat, 20);
        }
        n = n * 10 + ds[i] as u128;
        i += 1;
    }
    let ghost v = n as nat;
    proof {
        assert(proper(ds@.take(k as int)));
        lemma_digits_bound(ds@.take(k as int));
        lemma_tens_positive(k as nat);
        assert(v * 1 == v);
    }
    let mut j: usize = 0;
    while j < zeros
        invariant
            j <= zeros,
            k + zeros <= 20,
            v < tens(k as nat),
            n == v * tens(j as nat),
            tens(20) == 100_000_000_000_000_000_000,
        decreases zeros - j,
    {
        proof {
            lemma_tens_adds(k as nat, j as nat);
            lemma_tens_grows((k + j) as nat, 20);
            lemma_tens_positive(j as nat);
            let t = tens(j as nat);
            assert(v * t <= tens(k as nat) * t) by (nonlinear_arith)
                requires
                    v <= tens(k as nat),
            ;
            assert(v * (10 * t) == (v * t) * 10) by (nonlinear_arith);
        }
        n = n * 10;
        j += 1;
    }
    proof {
        lemma_tens_adds(k as nat, zeros as nat);
        lemma_tens_grows((k + zeros) as nat, 20);
        let t = tens(zeros as nat);
        assert(v * t <= tens(k as nat) * t) by (nonlinear_arith)
            requires
                v <= tens(k as nat),
        ;
    }
    n
}

/// The digits from position `k` on.
fn trailing(ds: &Vec<u8>, k: usize) -> (r: Vec<u8>)
    requires
        proper(ds@),
        k <= ds@.len(),
    ensures
        proper(r@),
        r@ == ds@.skip(k as int),
{
    let mut out: Vec<u8> = Vec::new();
    let mut i: usize = k;
    while i < ds.len()
        invariant
            k <= i <= ds@.len(),
            out@ == ds@.subrange(k as int, i as int),
        decreases ds.len() - i,
    {
        out.push(ds[i]);
        assert(out@ =~= ds@.subrange(k as int, i + 1));
        i += 1;
    }
    proof {
        assert(out@ =~= ds@.skip(k as int));
        assert forall|j: int| 0 <= j < out@.len() implies #[trigger] out@[j] <= 9 by {
            assert(out@[j] == ds@[k + j]);
        }
    }
    out
}

/// The power of ten, for a small exponent.
fn power_of_ten(k: usize) -> (r: u128)
    requires
        k <= 20,
    ensures
        r == tens(k as nat),
        1 <= r <= 100_000_000_000_000_000_000,
{
    let mut n: u128 = 1;
    let mut i: usize = 0;
    proof {
        reveal_with_fuel(tens, 21);
        lemma_tens_positive(k as nat);
        lemma_tens_grows(k as nat, 20);
    }
    while i < k
        invariant
            i <= k <= 20,
            n == tens(i as nat),
            tens(20) == 100_000_000_000_000_000_000,
        decreases k - i,
    {
        proof {
            lemma_tens_grows(i as nat, 20);
        }
        n = n * 10;
        i += 1;
    }
    n
}

// ---------------------------------------------------------------------------
// Digits with an exponent
// ---------------------------------------------------------------------------
/// An exponent this large decides on its own.
pub open spec fn vast() -> int {
    0x400_0000_0000_0000_0000_0000
}

/// An exponent as held: the exact one, unless it is vast.
pub open spec fn stands_for(e: i128, exact: int) -> bool {
    ||| e == exact
    ||| e >= vast() && exact >= vast()
    ||| e <= -vast() && exact <= -vast()
}

proof fn lemma_large(ds: Seq<u8>, e: int)
    requires
        proper(ds),
        ds.len() > 0,
        ds[0] > 0,
        ds.len() + e > 20,
    ensures
        numerator(ds, e) >= pow2(64) * denominator(e),
        denominator(e) > 0,
{
    lemma_literals();
    lemma_digits_bound(ds);
    reveal_with_fuel(tens, 21);
    let v = digits_value(ds);
    let k = (ds.len() - 1) as nat;
    if e >= 0 {
        lemma_tens_adds(k, e as nat);
        lemma_tens_grows(20, k + e as nat);
        let t = tens(e as nat);
        assert(v * t >= tens(k) * t) by (nonlinear_arith)
            requires
                v >= tens(k),
        ;
    } else {
        let f = (-e) as nat;
        lemma_tens_positive(f);
        lemma_tens_adds((k - f) as nat, f);
        assert((k - f) as nat + f == k);
        lemma_tens_grows(20, (k - f) as nat);
        let t = tens(f);
        assert(tens((k - f) as nat) * t >= pow2(64) * t) by (nonlinear_arith)
            requires
                tens((k - f) as nat) >= pow2(64),
        ;
    }
}

proof fn lemma_small(ds: Seq<u8>, e: int)
    requires
        proper(ds),
        ds.len() > 0,
        ds[0] > 0,
        ds.len() + e < -20,
    ensures
        numerator(ds, e) > 0,
        numerator(ds, e) * pow2(66) < denominator(e),
{
    lemma_literals();
    lemma_digits_bound(ds);
    lemma_tens_positive((ds.len() - 1) as nat);
    reveal_with_fuel(tens, 22);
    let v = digits_value(ds);
    let f = (-e) as nat;
    let k = (f - ds.len()) as nat;
    lemma_tens_adds(ds.len(), k);
    assert(ds.len() + k == f);
    lemma_tens_grows(21, k);
    lemma_pow2_adds(64, 2);
    lemma2_to64();
    assert(pow2(66) == 0x4_0000_0000_0000_0000);
    let t = tens(k);
    assert(v * pow2(66) < tens(ds.len()) * t) by (nonlinear_arith)
        requires
            v < tens(ds.len()),
            pow2(66) <= t,
            pow2(66) > 0,
    ;
}

proof fn lemma_middle(ds: Seq<u8>, e: int)
    requires
        proper(ds),
        ds.len() > 0,
        ds[0] > 0,
        -20 <= ds.len() + e,
    ensures
        numerator(ds, e) * pow2(70) >= denominator(e),
{
    lemma_literals();
    lemma_digits_bound(ds);
    reveal_with_fuel(tens, 22);
    lemma_pow2_adds(64, 6);
    lemma2_to64();
    assert(pow2(70) == 0x40_0000_0000_0000_0000);
    let v = digits_value(ds);
    let k = (ds.len() - 1) as nat;
    lemma_tens_positive(k);
    if e >= 0 {
        lemma_tens_positive(e as nat);
        let t = tens(e as nat);
        assert((v * t) * pow2(70) >= 1) by (nonlinear_arith)
            requires
                v >= 1,
                t >= 1,
                pow2(70) >= 1,
        ;
    } else {
        let f = (-e) as nat;
        lemma_tens_adds(k, 21);
        lemma_tens_grows(f, k + 21);
        assert(v * pow2(70) >= tens(k) * tens(21)) by (nonlinear_arith)
            requires
                v >= tens(k),
                pow2(70) >= tens(21),
        ;
    }
}

/// The product of a decimal number and a factor, in double precision, held at the largest
/// `u64`.
pub fn decimal_product(digits: &Vec<u8>, e: i128, factor: u64) -> (r: u64)
    requires
        proper(digits@),
        -0x1_0000_0000_0000_0000_0000_0000_0000 < e < 0x1_0000_0000_0000_0000_0000_0000_0000,
        1 <= factor <= 1_000_000_000_000,
    ensures
        forall|exact: int| #[trigger]
            stands_for(e, exact) ==> r == capped(
                product(numerator(digits@, exact), denominator(exact), factor as nat),
            ),
{
    let ds: Vec<u8> = strip(digits);
    let n: usize = ds.len();
    assert forall|x: int| numerator(ds@, x) == #[trigger] numerator(digits@, x) by {}
    if n == 0 {
        assert forall|x: int| #[trigger] stands_for(e, x) implies product(
            numerator(digits@, x),
            denominator(x),
            factor as nat,
        ) == 0 by {
            assert(digits_value(ds@) == 0);
            assert(0 * tens(x as nat) == 0);
        }
        return 0;
    }
    let top: i128 = n as i128 + e;
    if top > 20 {
        assert forall|x: int| #[trigger] stands_for(e, x) implies product(
            numerator(digits@, x),
            denominator(x),
            factor as nat,
        ) > u64::MAX by {
            lemma_large(ds@, x);
            lemma_huge(numerator(ds@, x), denominator(x), factor as nat);
        }
        return u64::MAX;
    }
    if top < -20 {
        assert forall|x: int| #[trigger] stands_for(e, x) implies product(
            numerator(digits@, x),
            denominator(x),
            factor as nat,
        ) == 0 by {
            lemma_small(ds@, x);
            lemma_tiny(numerator(ds@, x), denominator(x), factor as nat);
        }
        return 0;
    }
    proof {
        lemma_middle(ds@, e as int);
    }
    if e >= 0 {
        let x: u128 = leading(&ds, n, e as usize);
        let none: Fraction = nothing();
        proof {
            assert(ds@.take(n as int) =~= ds@);
            assert(x * 1 + 0 == x);
        }
        product_of_parts(x, none, factor)
    } else if -e <= n as i128 {
        let places: usize = (-e) as usize;
        let k: usize = n - places;
        let x: u128 = leading(&ds, k, 0);
        let f: Fraction = Fraction { head: 0, room: 1, digits: trailing(&ds, k) };
        proof {
            let t = tens(places as nat);
            lemma_digits_split(ds@, k as int);
            let v = digits_value(ds@.take(k as int));
            assert(v * tens(0) == v) by (nonlinear_arith)
                requires
                    tens(0) == 1,
            ;
            assert(0 * t == 0);
            assert(1 * t == t);
            assert(f.digits@.len() == places);
        }
        product_of_parts(x, f, factor)
    } else {
        let gap: usize = (-e - n as i128) as usize;
        let f: Fraction = Fraction { head: 0, room: power_of_ten(gap), digits: ds };
        proof {
            lemma_tens_adds(gap as nat, n as nat);
            assert(gap as nat + n as nat == (-e) as nat);
            assert(0 * tens(n as nat) == 0);
            assert(0 * f.size() == 0);
        }
        product_of_parts(0, f, factor)
    }
}

// ---------------------------------------------------------------------------
// Numbers too small for a double
// ---------------------------------------------------------------------------
/// The positive number `n / d` rounds to zero: it is at most half the smallest double.
pub open spec fn vanishes(n: nat, d: nat) -> bool {
    n * pow2(1075) <= d
}

/// Twice a number, as digits.
fn double_number(f: Vec<u8>) -> (r: Vec<u8>)
    requires
        proper(f@),
    ensures
        proper(r@),
        digits_value(r@) == 2 * digits_value(f@),
{
    let mut low: Vec<u8> = f;
    let ghost before = low@;
    let carry: bool = double_fraction(&mut low);
    if !carry {
        return low;
    }
    let ghost tail = low@;
    let mut out: Vec<u8> = Vec::new();
    out.push(1);
    out.append(&mut low);
    proof {
        lemma_digits_front(out@);
        assert(out@.drop_first() =~= tail);
        assert(1 * tens(tail.len()) == tens(tail.len()));
        assert forall|i: int| 0 <= i < out@.len() implies #[trigger] out@[i] <= 9 by {
            if i > 0 {
                assert(out@[i] == tail[i - 1]);
            }
        }
    }
    out
}

/// Whether a number is at most the power of ten.
fn at_most_power(ds: &Vec<u8>, f: u128) -> (r: bool)
    requires
        proper(ds@),
        f < 0x1_0000_0000_0000_0000_0000,
    ensures
        r == (digits_value(ds@) <= tens(f as nat)),
{
    let n: Vec<u8> = strip(ds);
    let len: u128 = n.len() as u128;
    proof {
        lemma_digits_bound(n@);
        lemma_tens_positive(f as nat);
    }
    if len <= f {
        proof {
            lemma_tens_grows(n@.len(), f as nat);
        }
        return true;
    }
    if len > f + 1 {
        proof {
            lemma_tens_grows((f + 1) as nat, (n@.len() - 1) as nat);
        }
        return false;
    }
    let rest: Vec<u8> = trailing(&n, 1);
    let exact: bool = n[0] == 1 && all_zero(&rest);
    proof {
        lemma_digits_front(n@);
        assert(n@.drop_first() =~= rest@);
        let t = tens(f as nat);
        let h = n@[0] as nat;
        assert(h >= 2 ==> h * t >= 2 * t) by (nonlinear_arith);
        assert(h == 1 ==> h * t == t) by (nonlinear_arith);
    }
    exact
}

proof fn lemma_vanishing(ds: Seq<u8>, e: int)
    requires
        proper(ds),
        ds.len() > 0,
        ds.len() + e < -1100,
    ensures
        vanishes(numerator(ds, e), denominator(e)),
{
    lemma_digits_bound(ds);
    let v = digits_value(ds);
    let f = (-e) as nat;
    let k = (f - ds.len()) as nat;
    lemma_tens_adds(ds.len(), k);
    assert(ds.len() + k == f);
    lemma_tens_grows(1100, k);
    lemma_tens_exceed(1100);
    lemma_pow2_strictly_increases(1075, 1100);
    let t = tens(k);
    let q = pow2(1075);
    assert(v * q <= tens(ds.len()) * t) by (nonlinear_arith)
        requires
            v <= tens(ds.len()),
            q <= t,
    ;
}

proof fn lemma_tens_exceed(k: nat)
    ensures
        pow2(k) <= tens(k),
    decreases k,
{
    lemma_literals();
    if k > 0 {
        lemma_tens_exceed((k - 1) as nat);
        lemma_pow2_unfold(k);
    }
}

proof fn lemma_lasting(ds: Seq<u8>, e: int)
    requires
        proper(ds),
        ds.len() > 0,
        ds[0] > 0,
        ds.len() + e > 0,
    ensures
        !vanishes(numerator(ds, e), denominator(e)),
{
    lemma_literals();
    lemma_digits_bound(ds);
    let v = digits_value(ds);
    let k = (ds.len() - 1) as nat;
    lemma_tens_positive(k);
    lemma_pow2_strictly_increases(0, 1075);
    let q = pow2(1075);
    if e >= 0 {
        lemma_tens_positive(e as nat);
        let t = tens(e as nat);
        assert((v * t) * q > 1) by (nonlinear_arith)
            requires
                v >= 1,
                t >= 1,
                q > 1,
        ;
    } else {
        lemma_tens_grows((-e) as nat, k);
        assert(v * q > tens(k)) by (nonlinear_arith)
            requires
                v >= tens(k),
                v >= 1,
                q > 1,
        ;
    }
}

/// Whether a decimal number rounds to zero.
pub fn rounds_to_zero(digits: &Vec<u8>, e: i128) -> (r: bool)
    requires
        proper(digits@),
        -0x1_0000_0000_0000_0000_0000_0000_0000 < e < 0x1_0000_0000_0000_0000_0000_0000_0000,
    ensures
        forall|exact: int| #[trigger]
            stands_for(e, exact) ==> r == vanishes(numerator(digits@, exact), denominator(exact)),
{
    let ds: Vec<u8> = strip(digits);
    let n: usize = ds.len();
    assert forall|x: int| numerator(ds@, x) == #[trigger] numerator(digits@, x) by {}
    if n == 0 {
        assert forall|x: int| #[trigger] stands_for(e, x) implies vanishes(
            numerator(digits@, x),
            denominator(x),
        ) by {
            assert(digits_value(ds@) == 0);
            assert(0 * tens(x as nat) == 0);
            assert(0 * pow2(1075) == 0);
        }
        return true;
    }
    let top: i128 = n as i128 + e;
    if top > 0 {
        assert forall|x: int| #[trigger] stands_for(e, x) implies !vanishes(
            numerator(digits@, x),
            denominator(x),
        ) by {
            lemma_lasting(ds@, x);
        }
        return false;
    }
    if top < -1100 {
        assert forall|x: int| #[trigger] stands_for(e, x) implies vanishes(
            numerator(digits@, x),
            denominator(x),
        ) by {
            lemma_vanishing(ds@, x);
        }
        return true;
    }
    let ghost v = digits_value(ds@);
    let mut m: Vec<u8> = ds;
    let mut k: u32 = 0;
    proof {
        lemma_literals();
        assert(v * 1 == v);
    }
    while k < 1075
        invariant
            k <= 1075,
            proper(m@),
            digits_value(m@) == v * pow2(k as nat),
        decreases 1075 - k,
    {
        proof {
            lemma_pow2_unfold((k + 1) as nat);
            let p = pow2(k as nat);
            assert(v * (2 * p) == 2 * (v * p)) by (nonlinear_arith);
        }
        m = double_number(m);
        k += 1;
    }
    at_most_power(&m, (-e) as u128)
}

// ---------------------------------------------------------------------------
// Whole numbers
// ---------------------------------------------------------------------------
proof fn lemma_exact_quotient(m: nat, k: nat)
    ensures
        (m * pow2(k)) / pow2(k) == m,
        half_even(m * pow2(k), pow2(k)) == m,
{
    lemma_pow2_pos(k);
    lemma_divides(m * pow2(k), pow2(k), m, 0);
}

/// A product of whole numbers that a double holds exactly is the product itself.
pub proof fn whole_products_are_exact(n: nat, factor: nat)
    requires
        n > 0,
        factor > 0,
        n * factor < 0x20_0000_0000_0000,
    ensures
        product(n, 1, factor) == n * factor,
{
    lemma_literals();
    let m = n * factor;
    assert(n <= m) by (nonlinear_arith)
        requires
            factor > 0,
            m == n * factor,
    ;
    let s = scale(n, 1);
    lemma_scale(n, 1);
    if s < 0 {
        lemma_pow2_two((-s) as nat);
    }
    let a = pow2(s as nat);
    lemma_pow2_pos(s as nat);
    assert(half_even(n * a, 1) == n * a);
    let p = n * a * factor;
    assert(p == m * a) by (nonlinear_arith)
        requires
            p == n * a * factor,
            m == n * factor,
    ;
    assert(p > 0) by (nonlinear_arith)
        requires
            p == m * a,
            m > 0,
            a > 0,
    ;
    let t = scale(p, 1);
    lemma_scale(p, 1);
    if t >= 0 {
        let b = pow2(t as nat);
        assert(half_even(p * b, 1) == p * b);
        lemma_pow2_adds(s as nat, t as nat);
        assert(p * b == m * (a * b)) by (nonlinear_arith)
            requires
                p == m * a,
        ;
        lemma_exact_quotient(m, (s + t) as nat);
    } else {
        let u = (-t) as nat;
        if u > s {
            lemma_pow2_unfold(u);
            if u > s + 1 {
                lemma_pow2_strictly_increases((s + 1) as nat, u);
            }
            lemma_pow2_unfold((s + 1) as nat);
            assert(m * a < 0x20_0000_0000_0000 * a) by (nonlinear_arith)
                requires
                    m < 0x20_0000_0000_0000,
                    a > 0,
            ;
        }
        let k = (s - u) as nat;
        let (c, e) = (pow2(k), pow2(u));
        lemma_pow2_adds(k, u);
        assert(p == (m * c) * e) by (nonlinear_arith)
            requires
                p == m * a,
                a == c * e,
        ;
        assert(1 * e == e);
        lemma_exact_quotient(m * c, u);
        lemma_exact_quotient(m, k);
    }
}

} // verus!
