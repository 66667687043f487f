//! What holds of numbers that are written and read.

use crate::doctor::{ends_in, need_parts, size_of_text};
use crate::doubles::whole_products_are_exact;
use crate::grant_cmd::{
    bad_bytes, bad_category, bad_lifetime, byte_unit, category_of, plain_name, reads_as_bytes,
    reads_as_lifetime, time_unit, Lifetime,
};
use crate::grant::GrantCategory;
use crate::numbers::{
    all_digits, bytes_of, digits_of, digits_value, first_at, is_digit, lemma_first_at,
    mantissa_digits, number_of, tens, whole_number, Number,
};
use crate::size_laws::{lemma_unit_stays, units_are_powers_of_1024};
use crate::text::{
    ascii_lower, ascii_lower_all, decimal, decimal_int, digit, hex_digit, hexadecimal, is_all_ascii,
    is_white_space, trim_start, trimmed,
};
use vstd::prelude::*;

verus! {

/// A number is written in decimal digits, without one too many in front.
pub proof fn numbers_are_written_in_digits(n: nat)
    ensures
        decimal(n).len() > 0,
        all_digits(decimal(n)),
        n > 0 ==> decimal(n)[0] != '0',
        digits_value(digits_of(decimal(n))) == n,
    decreases n,
{
    let d = n % 10;
    let c = digit(d);
    assert(c as u32 == 48 + d);
    if n < 10 {
        let ds = digits_of(decimal(n));
        assert(ds.drop_last() =~= Seq::<u8>::empty());
        assert(ds.last() == d);
        assert(digits_value(Seq::<u8>::empty()) == 0);
    } else {
        let rest = decimal(n / 10);
        numbers_are_written_in_digits(n / 10);
        let ds = digits_of(decimal(n));
        assert(ds.drop_last() =~= digits_of(rest));
        assert(ds.last() == d);
        assert forall|i: int| 0 <= i < decimal(n).len() implies is_digit(#[trigger] decimal(n)[i])
            by {
            if i < rest.len() {
                assert(decimal(n)[i] == rest[i]);
            }
        }
    }
}

/// A whole number is read as the one that was written.
pub proof fn written_numbers_are_read_back(n: int)
    ensures
        whole_number(decimal_int(n)) == Some(n),
{
    let m = if n < 0 {
        (-n) as nat
    } else {
        n as nat
    };
    numbers_are_written_in_digits(m);
    let s = decimal_int(n);
    assert(is_digit(decimal(m)[0]));
    if n < 0 {
        assert(s[0] == '-');
        assert(s.skip(1) =~= decimal(m));
    }
}

proof fn lemma_not_found(s: Seq<char>, c: char)
    requires
        forall|i: int| 0 <= i < s.len() ==> #[trigger] s[i] != c,
    ensures
        first_at(s, c) == s.len(),
    decreases s.len(),
{
    if s.len() > 0 {
        assert(s[0] != c);
        assert forall|i: int| 0 <= i < s.len() - 1 implies #[trigger] s.drop_first()[i] != c by {
            assert(s.drop_first()[i] == s[i + 1]);
        }
        lemma_not_found(s.drop_first(), c);
    }
}

proof fn lemma_digits_number(s: Seq<char>)
    requires
        s.len() > 0,
        all_digits(s),
    ensures
        number_of(s) == Some(
            Number::Finite { negative: false, digits: digits_of(s), exponent: 0 },
        ),
        ascii_lower_all(s) == s,
        trimmed(s) == s,
        is_all_ascii(s),
{
    assert(is_digit(s[0]));
    assert(is_digit(s[s.len() - 1]));
    assert forall|i: int| 0 <= i < s.len() implies ascii_lower(#[trigger] s[i]) == s[i] && s[i]
        != 'e' && s[i] != '.' && (s[i] as u32) < 128 by {
        assert(is_digit(s[i]));
    }
    assert(ascii_lower_all(s) =~= s);
    reveal_strlit("inf");
    reveal_strlit("infinity");
    reveal_strlit("nan");
    assert("inf"@[0] == 'i' && "infinity"@[0] == 'i' && "nan"@[0] == 'n');
    lemma_not_found(s, 'e');
    lemma_not_found(s, '.');
    assert(s.take(s.len() as int) =~= s);
    let (whole, fraction) = (s, Seq::<char>::empty());
    assert(digits_of(whole) + digits_of(fraction) =~= digits_of(s));
    assert(mantissa_digits(s) == Some((digits_of(s), 0int)));
}

proof fn lemma_digits_bytes(n: nat, factor: nat)
    requires
        factor > 0,
        n * factor < 0x20_0000_0000_0000,
    ensures
        number_of(decimal(n)) is Some,
        bytes_of(number_of(decimal(n))->0, factor) == n * factor,
        !crate::numbers::below_zero(number_of(decimal(n))->0),
{
    numbers_are_written_in_digits(n);
    lemma_digits_number(decimal(n));
    assert(tens(0) == 1);
    assert(n * tens(0) == n);
    if n > 0 {
        whole_products_are_exact(n, factor);
    } else {
        assert(n * factor == 0);
    }
}

/// A size that is written as a whole number with a unit is that many of the unit, a power of 1024;
/// without a unit it is that many bytes.
pub proof fn sizes_are_whole_units(n: nat)
    ensures
        n * 1_073_741_824 < 0x20_0000_0000_0000 ==> size_of_text(decimal(n) + "g"@) == Some(
            (n * 1_073_741_824) as u64,
        ),
        n * 1_048_576 < 0x20_0000_0000_0000 ==> size_of_text(decimal(n) + "m"@) == Some(
            (n * 1_048_576) as u64,
        ),
        n * 1_024 < 0x20_0000_0000_0000 ==> size_of_text(decimal(n) + "k"@) == Some(
            (n * 1_024) as u64,
        ),
        n < 0x20_0000_0000_0000 ==> size_of_text(decimal(n)) == Some(n as u64),
{
    reveal_strlit("g");
    reveal_strlit("m");
    reveal_strlit("k");
    units_are_powers_of_1024(decimal(n));
    if n * 1_073_741_824 < 0x20_0000_0000_0000 {
        lemma_size_with_unit(n, "g"@, 1_073_741_824);
    }
    if n * 1_048_576 < 0x20_0000_0000_0000 {
        lemma_size_with_unit(n, "m"@, 1_048_576);
    }
    if n * 1_024 < 0x20_0000_0000_0000 {
        lemma_size_with_unit(n, "k"@, 1_024);
    }
    if n < 0x20_0000_0000_0000 {
        lemma_size_without_unit(n);
    }
}

proof fn lemma_size_with_unit(n: nat, unit: Seq<char>, factor: u64)
    requires
        unit.len() > 0,
        forall|i: int| 0 <= i < unit.len() ==> 'a' <= #[trigger] unit[i] <= 'z',
        need_parts(decimal(n) + unit) == (decimal(n), factor),
        factor > 0,
        n * factor < 0x20_0000_0000_0000,
    ensures
        size_of_text(decimal(n) + unit) == Some((n * factor) as u64),
{
    let s = decimal(n);
    numbers_are_written_in_digits(n);
    lemma_digits_number(s);
    assert(is_digit(s[0]) && is_digit(s[s.len() - 1]));
    assert(trim_start(s) == s);
    lemma_unit_stays(s, unit);
    lemma_digits_bytes(n, factor as nat);
}

proof fn lemma_size_without_unit(n: nat)
    requires
        n < 0x20_0000_0000_0000,
    ensures
        size_of_text(decimal(n)) == Some(n as u64),
{
    let s = decimal(n);
    numbers_are_written_in_digits(n);
    lemma_digits_number(s);
    assert(is_digit(s[0]) && is_digit(s[s.len() - 1]));
    assert(trim_start(s) == s);
    assert(n * 1 == n);
    lemma_digits_bytes(n, 1);
    lemma_no_unit(s);
}

proof fn lemma_no_unit(s: Seq<char>)
    requires
        s.len() > 0,
        all_digits(s),
    ensures
        need_parts(s) == (s, 1u64),
{
    reveal_strlit("gb");
    reveal_strlit("g");
    reveal_strlit("mb");
    reveal_strlit("m");
    reveal_strlit("kb");
    reveal_strlit("k");
    assert(is_digit(s[s.len() - 1]));
    assert forall|u: Seq<char>| #[trigger] ends_in(s, u) && u.len() > 0 implies s.last() == u.last()
        by {
        assert(s.skip(s.len() - u.len())[u.len() - 1] == s.last());
    }
    assert("gb"@.last() == 'b' && "g"@.last() == 'g' && "mb"@.last() == 'b' && "m"@.last() == 'm'
        && "kb"@.last() == 'b' && "k"@.last() == 'k');
}

/// The byte units of a grant are each a thousand of the one before, in either case, and a letter that
/// is none of them is no unit.
pub proof fn grant_units_are_powers_of_a_thousand(c: char)
    ensures
        c == 'b' || c == 'B' ==> byte_unit(c) == Some(1u64),
        c == 'k' || c == 'K' ==> byte_unit(c) == Some(1_000u64),
        c == 'm' || c == 'M' ==> byte_unit(c) == Some(1_000_000u64),
        c == 'g' || c == 'G' ==> byte_unit(c) == Some(1_000_000_000u64),
        c == 't' || c == 'T' ==> byte_unit(c) == Some(1_000_000_000_000u64),
        byte_unit(c) is Some ==> c == 'b' || c == 'B' || c == 'k' || c == 'K' || c == 'm' || c
            == 'M' || c == 'g' || c == 'G' || c == 't' || c == 'T',
{
}

/// The time units of a grant are seconds, minutes, hours, days and weeks, in either case, and a letter
/// that is none of them is no unit.
pub proof fn grant_times_are_in_seconds(c: char)
    ensures
        c == 's' || c == 'S' ==> time_unit(c) == Some(1i64),
        c == 'm' || c == 'M' ==> time_unit(c) == Some(60i64),
        c == 'h' || c == 'H' ==> time_unit(c) == Some(3_600i64),
        c == 'd' || c == 'D' ==> time_unit(c) == Some(86_400i64),
        c == 'w' || c == 'W' ==> time_unit(c) == Some(604_800i64),
        time_unit(c) is Some ==> c == 's' || c == 'S' || c == 'm' || c == 'M' || c == 'h' || c
            == 'H' || c == 'd' || c == 'D' || c == 'w' || c == 'W',
{
}

proof fn lemma_with_unit(n: nat, c: char)
    requires
        !is_white_space(c),
    ensures
        trimmed(decimal(n).push(c)) == decimal(n).push(c),
        decimal(n).push(c).last() == c,
        decimal(n).push(c).drop_last() == decimal(n),
        trimmed(decimal(n)) == decimal(n),
{
    numbers_are_written_in_digits(n);
    lemma_digits_number(decimal(n));
    let s = decimal(n).push(c);
    assert(is_digit(decimal(n)[0]));
    assert(s[0] == decimal(n)[0]);
    assert(s.drop_last() =~= decimal(n));
}

/// A budget that is written as a whole number with a unit is that many of the unit.
pub proof fn budgets_are_whole_units(n: nat, c: char, bytes: u64)
    requires
        byte_unit(c) is Some,
        n * byte_unit(c)->0 < 0x20_0000_0000_0000,
    ensures
        reads_as_bytes(decimal(n).push(c), bytes) <==> bytes == n * byte_unit(c)->0,
{
    grant_units_are_powers_of_a_thousand(c);
    lemma_with_unit(n, c);
    lemma_digits_bytes(n, byte_unit(c)->0 as nat);
}

/// A lifetime that is written as a whole number with a unit is that many of the unit; none is no
/// lifetime.
pub proof fn lifetimes_are_whole_units(n: nat, c: char, d: Lifetime)
    requires
        time_unit(c) is Some,
        n <= i64::MAX,
    ensures
        reads_as_lifetime(decimal(n).push(c), d) <==> n > 0 && d.count == n && d.unit_secs
            == time_unit(c)->0,
{
    grant_times_are_in_seconds(c);
    lemma_with_unit(n, c);
    written_numbers_are_read_back(n as int);
    assert(decimal_int(n as int) == decimal(n));
}

/// The categories of a grant have these plain names.
pub proof fn grant_categories_by_name(name: Seq<char>)
    ensures
        category_of(name) == Some(GrantCategory::BuildRecovery) <==> name == "buildrecovery"@,
        category_of(name) == Some(GrantCategory::RoutineCleanup) <==> name == "routinecleanup"@,
        category_of(name) == Some(GrantCategory::AgentAutonomy) <==> name == "agentautonomy"@,
{
    reveal_strlit("buildrecovery");
    reveal_strlit("routinecleanup");
    reveal_strlit("agentautonomy");
    assert("buildrecovery"@.len() == 13 && "routinecleanup"@.len() == 14);
    assert("buildrecovery"@[0] == 'b' && "agentautonomy"@[0] == 'a');
}

/// A blank text is neither a size nor a lifetime, and is told so.
pub proof fn blanks_are_refused(s: Seq<char>, e: Seq<char>)
    requires
        trimmed(s).len() == 0,
    ensures
        bad_bytes(s, e) <==> e == "empty byte size"@,
        bad_lifetime(s, e) <==> e == "empty duration"@,
        forall|bytes: u64| !reads_as_bytes(s, bytes),
        forall|d: Lifetime| !reads_as_lifetime(s, d),
{
}

/// A budget below nothing is refused.
pub proof fn negative_budgets_are_refused(n: nat, c: char, bytes: u64)
    requires
        n > 0,
        byte_unit(c) is Some,
    ensures
        !reads_as_bytes(seq!['-'] + decimal(n).push(c), bytes),
{
    grant_units_are_powers_of_a_thousand(c);
    numbers_are_written_in_digits(n);
    lemma_digits_number(decimal(n));
    let s = seq!['-'] + decimal(n);
    let t = seq!['-'] + decimal(n).push(c);
    assert(t.last() == c && t[0] == '-');
    assert(trimmed(t) == t);
    assert(t.drop_last() =~= s);
    assert(s.last() == decimal(n).last());
    assert(is_digit(decimal(n)[decimal(n).len() - 1]));
    assert(trimmed(s) == s);
    assert(s[0] == '-');
    assert(s.skip(1) =~= decimal(n));
    let d = decimal(n);
    reveal_strlit("inf");
    reveal_strlit("infinity");
    reveal_strlit("nan");
    assert("inf"@[0] == 'i' && "infinity"@[0] == 'i' && "nan"@[0] == 'n');
    assert(is_digit(d[0]));
    assert forall|i: int| 0 <= i < d.len() implies #[trigger] d[i] != 'e' && d[i] != '.' by {
        assert(is_digit(d[i]));
    }
    lemma_not_found(d, 'e');
    lemma_not_found(d, '.');
    assert(d.take(d.len() as int) =~= d);
    assert(digits_of(d) + digits_of(Seq::<char>::empty()) =~= digits_of(d));
    assert(number_of(s) == Some(
        Number::Finite { negative: true, digits: digits_of(d), exponent: 0 },
    ));
    assert(tens(0) == 1);
    assert(n * tens(0) == n);
    vstd::arithmetic::power2::lemma_pow2_pos(1075);
    vstd::arithmetic::power2::lemma_pow2_strictly_increases(0, 1075);
    vstd::arithmetic::power2::lemma2_to64();
    assert(n * vstd::arithmetic::power2::pow2(1075) > 1) by (nonlinear_arith)
        requires
            n >= 1,
            vstd::arithmetic::power2::pow2(1075) > 1,
    ;
}

/// A number with a point has its digits on both sides of it, and as many places as stand behind it; an
/// exponent moves them on.
pub proof fn points_and_exponents_shift_the_digits(a: Seq<char>, b: Seq<char>, e: nat)
    requires
        all_digits(a),
        all_digits(b),
        a.len() + b.len() > 0,
    ensures
        number_of(a + seq!['.'] + b) == Some(
            Number::Finite {
                negative: false,
                digits: digits_of(a) + digits_of(b),
                exponent: -(b.len() as int),
            },
        ),
        number_of(a + seq!['.'] + b + seq!['e'] + decimal(e)) == Some(
            Number::Finite {
                negative: false,
                digits: digits_of(a) + digits_of(b),
                exponent: e - b.len(),
            },
        ),
{
    let m = a + seq!['.'] + b;
    let d = decimal(e);
    let s = m + seq!['e'] + d;
    numbers_are_written_in_digits(e);
    written_numbers_are_read_back(e as int);
    assert(decimal_int(e as int) == d);
    assert forall|i: int| 0 <= i < m.len() implies (#[trigger] m[i] == '.' || is_digit(m[i])) by {
        if i < a.len() {
            assert(is_digit(a[i]));
        } else if i > a.len() {
            assert(is_digit(b[i - a.len() - 1]));
        }
    }
    assert forall|i: int| 0 <= i < s.len() implies ascii_lower(#[trigger] s[i]) == s[i] by {
        if i < m.len() {
            assert(m[i] == '.' || is_digit(m[i]));
        } else if i > m.len() {
            assert(is_digit(d[i - m.len() - 1]));
        }
    }
    assert forall|i: int| 0 <= i < m.len() implies ascii_lower(#[trigger] m[i]) == m[i] by {
        assert(s[i] == m[i]);
    }
    assert(ascii_lower_all(s) =~= s);
    assert(ascii_lower_all(m) =~= m);
    reveal_strlit("inf");
    reveal_strlit("infinity");
    reveal_strlit("nan");
    assert("inf"@[0] == 'i' && "infinity"@[0] == 'i' && "nan"@[0] == 'n');
    assert(m[0] == '.' || is_digit(m[0]));
    assert(s[0] == m[0]);
    lemma_not_found(m, 'e');
    assert(m.take(m.len() as int) =~= m);
    lemma_first_at(s, 'e', m.len() as int);
    assert(s.take(m.len() as int) =~= m);
    assert(s.skip(m.len() as int + 1) =~= d);
    assert forall|i: int| 0 <= i < a.len() implies #[trigger] m[i] != '.' by {
        assert(is_digit(a[i]));
    }
    lemma_first_at(m, '.', a.len() as int);
    assert(m.take(a.len() as int) =~= a);
    assert(m.skip(a.len() as int + 1) =~= b);
}

/// A lifetime without a unit is in seconds.
pub proof fn plain_lifetimes_are_seconds(n: nat, d: Lifetime)
    requires
        n <= i64::MAX,
    ensures
        reads_as_lifetime(decimal(n), d) <==> n > 0 && d.count == n && d.unit_secs == 1,
{
    numbers_are_written_in_digits(n);
    lemma_digits_number(decimal(n));
    written_numbers_are_read_back(n as int);
    assert(decimal_int(n as int) == decimal(n));
    assert(is_digit(decimal(n)[decimal(n).len() - 1]));
    grant_times_are_in_seconds(decimal(n).last());
    lemma_with_unit(n, 's');
}

/// A number in base sixteen is written with the digits 0 to 9 and a to f, the last of them for what is
/// left over sixteen.
pub proof fn hexadecimals_are_written_in_digits(n: nat, d: nat)
    ensures
        n < 16 ==> hexadecimal(n) == seq![hex_digit(n)],
        n >= 16 ==> hexadecimal(n) == hexadecimal(n / 16).push(hex_digit(n % 16)),
        d < 10 ==> hex_digit(d) as u32 == '0' as u32 + d,
        10 <= d < 16 ==> hex_digit(d) as u32 == 'a' as u32 + (d - 10),
{
}

/// A category that has none of the plain names is told, with what was read.
pub proof fn unknown_categories_are_told(s: Seq<char>, e: Seq<char>)
    ensures
        bad_category(s, e) <==> plain_name(s) != "buildrecovery"@ && plain_name(s)
            != "routinecleanup"@ && plain_name(s) != "agentautonomy"@ && e == "unknown category '"@
            + plain_name(s) + "' (use build-recovery | routine-cleanup | agent-autonomy)"@,
        forall|i: int|
            0 <= i < plain_name(s).len() ==> #[trigger] plain_name(s)[i] != '-' && plain_name(s)[i]
                != '_',
{
    let f = |c: char| c != '-' && c != '_';
    let low = ascii_lower_all(trimmed(s));
    assert forall|i: int| 0 <= i < plain_name(s).len() implies #[trigger] plain_name(s)[i] != '-'
        && plain_name(s)[i] != '_' by {
        low.lemma_filter_pred(f, i);
    }
}

} // verus!
