//! What holds of the sizes that a person writes.

#[allow(unused_imports)]
use crate::doctor::{ends_in, need_parts, size_of_text};
#[allow(unused_imports)]
use crate::text::{
    ascii_lower, ascii_lower_all, is_all_ascii, is_white_space, lowered, trim_end, trim_start,
    trimmed,
};
use vstd::prelude::*;

verus! {

/// Every character is white space.
pub open spec fn is_blank(s: Seq<char>) -> bool {
    forall|i: int| 0 <= i < s.len() ==> is_white_space(#[trigger] s[i])
}

proof fn lemma_lower_white_space(c: char)
    ensures
        is_white_space(ascii_lower(c)) == is_white_space(c),
{
}

proof fn lemma_trim_start_lower(s: Seq<char>)
    ensures
        trim_start(ascii_lower_all(s)) == ascii_lower_all(trim_start(s)),
    decreases s.len(),
{
    if s.len() > 0 {
        lemma_lower_white_space(s[0]);
        assert(ascii_lower_all(s)[0] == ascii_lower(s[0]));
        assert(ascii_lower_all(s).drop_first() =~= ascii_lower_all(s.drop_first()));
        lemma_trim_start_lower(s.drop_first());
    }
}

proof fn lemma_trim_end_lower(s: Seq<char>)
    ensures
        trim_end(ascii_lower_all(s)) == ascii_lower_all(trim_end(s)),
    decreases s.len(),
{
    if s.len() > 0 {
        lemma_lower_white_space(s.last());
        assert(ascii_lower_all(s).last() == ascii_lower(s.last()));
        assert(ascii_lower_all(s).drop_last() =~= ascii_lower_all(s.drop_last()));
        lemma_trim_end_lower(s.drop_last());
    }
}

proof fn lemma_trim_start_ascii(s: Seq<char>)
    requires
        is_all_ascii(s),
    ensures
        is_all_ascii(trim_start(s)),
    decreases s.len(),
{
    if s.len() > 0 && is_white_space(s[0]) {
        assert(is_all_ascii(s.drop_first())) by {
            assert forall|i: int| 0 <= i < s.len() - 1 implies (#[trigger] s.drop_first()[i] as u32)
                < 128 by {
                assert(s.drop_first()[i] == s[i + 1]);
            }
        }
        lemma_trim_start_ascii(s.drop_first());
    }
}

proof fn lemma_trim_end_ascii(s: Seq<char>)
    requires
        is_all_ascii(s),
    ensures
        is_all_ascii(trim_end(s)),
    decreases s.len(),
{
    if s.len() > 0 && is_white_space(s.last()) {
        assert(is_all_ascii(s.drop_last())) by {
            assert forall|i: int| 0 <= i < s.len() - 1 implies (#[trigger] s.drop_last()[i] as u32)
                < 128 by {
                assert(s.drop_last()[i] == s[i]);
            }
        }
        lemma_trim_end_ascii(s.drop_last());
    }
}

/// For ASCII the lower-case form of the trimmed text is the trimmed lower-case form.
proof fn lemma_trimmed_lower(s: Seq<char>)
    requires
        is_all_ascii(s),
    ensures
        lowered(trimmed(s)) == trimmed(ascii_lower_all(s)),
{
    lemma_trim_start_ascii(s);
    lemma_trim_end_ascii(trim_start(s));
    lemma_trim_start_lower(s);
    lemma_trim_end_lower(trim_start(s));
}

/// The case of ASCII letters does not matter: sizes that differ in it alone are the same.
pub proof fn sizes_ignore_case(a: Seq<char>, b: Seq<char>)
    requires
        is_all_ascii(a),
        is_all_ascii(b),
        ascii_lower_all(a) == ascii_lower_all(b),
    ensures
        size_of_text(a) == size_of_text(b),
{
    lemma_trimmed_lower(a);
    lemma_trimmed_lower(b);
}

proof fn lemma_trim_start_blank(pre: Seq<char>, s: Seq<char>)
    requires
        is_blank(pre),
    ensures
        trim_start(pre + s) == trim_start(s),
    decreases pre.len(),
{
    if pre.len() > 0 {
        assert((pre + s)[0] == pre[0]);
        assert((pre + s).drop_first() =~= pre.drop_first() + s);
        assert forall|i: int| 0 <= i < pre.drop_first().len() implies is_white_space(
            #[trigger] pre.drop_first()[i],
        ) by {
            assert(pre.drop_first()[i] == pre[i + 1]);
        }
        lemma_trim_start_blank(pre.drop_first(), s);
    } else {
        assert(pre + s =~= s);
    }
}

proof fn lemma_trim_end_blank(s: Seq<char>, post: Seq<char>)
    requires
        is_blank(post),
    ensures
        trim_end(s + post) == trim_end(s),
    decreases post.len(),
{
    if post.len() > 0 {
        assert((s + post).last() == post.last());
        assert((s + post).drop_last() =~= s + post.drop_last());
        assert forall|i: int| 0 <= i < post.drop_last().len() implies is_white_space(
            #[trigger] post.drop_last()[i],
        ) by {
            assert(post.drop_last()[i] == post[i]);
        }
        lemma_trim_end_blank(s, post.drop_last());
    } else {
        assert(s + post =~= s);
    }
}

/// Where something of the text is left, what follows it stays too.
proof fn lemma_trim_start_keeps_tail(s: Seq<char>, tail: Seq<char>)
    requires
        trim_start(s).len() > 0 || (tail.len() > 0 && !is_white_space(tail[0])),
    ensures
        trim_start(s + tail) == trim_start(s) + tail,
    decreases s.len(),
{
    if s.len() > 0 {
        assert((s + tail)[0] == s[0]);
        if is_white_space(s[0]) {
            assert((s + tail).drop_first() =~= s.drop_first() + tail);
            lemma_trim_start_keeps_tail(s.drop_first(), tail);
        }
    } else {
        assert(s + tail =~= tail);
    }
}

proof fn lemma_trim_start_all(s: Seq<char>)
    requires
        trim_start(s).len() == 0,
    ensures
        is_blank(s),
    decreases s.len(),
{
    if s.len() > 0 {
        lemma_trim_start_all(s.drop_first());
        assert forall|i: int| 0 <= i < s.len() implies is_white_space(#[trigger] s[i]) by {
            if i > 0 {
                assert(s.drop_first()[i - 1] == s[i]);
            }
        }
    }
}

/// White space around a size does not matter.
pub proof fn sizes_ignore_blanks(pre: Seq<char>, s: Seq<char>, post: Seq<char>)
    requires
        is_blank(pre),
        is_blank(post),
    ensures
        size_of_text(pre + s + post) == size_of_text(s),
{
    assert(pre + s + post =~= pre + (s + post));
    lemma_trim_start_blank(pre, s + post);
    if trim_start(s).len() > 0 {
        lemma_trim_start_keeps_tail(s, post);
        lemma_trim_end_blank(trim_start(s), post);
    } else {
        lemma_trim_start_all(s);
        lemma_trim_start_blank(s, post);
        assert(post + Seq::<char>::empty() =~= post);
        lemma_trim_start_blank(post, Seq::<char>::empty());
    }
    assert(trimmed(pre + s + post) == trimmed(s));
}

/// A unit in lower case at the end of a text stays when the text is trimmed and lowered.
pub proof fn lemma_unit_stays(n: Seq<char>, unit: Seq<char>)
    requires
        is_all_ascii(n),
        unit.len() > 0,
        forall|i: int| 0 <= i < unit.len() ==> 'a' <= #[trigger] unit[i] <= 'z',
    ensures
        lowered(trimmed(n + unit)) == ascii_lower_all(trim_start(n)) + unit,
{
    let s = n + unit;
    assert(is_all_ascii(s)) by {
        assert forall|i: int| 0 <= i < s.len() implies (#[trigger] s[i] as u32) < 128 by {
            if i < n.len() {
                assert(s[i] == n[i]);
            } else {
                assert(s[i] == unit[i - n.len()]);
            }
        }
    }
    assert(unit[0] == unit[0] && unit[unit.len() - 1] == unit.last());
    lemma_trim_start_keeps_tail(n, unit);
    assert((trim_start(n) + unit).last() == unit.last());
    assert(trimmed(s) == trim_start(n) + unit);
    lemma_trim_start_ascii(s);
    assert(ascii_lower_all(trim_start(n) + unit) =~= ascii_lower_all(trim_start(n)) + unit);
}

proof fn lemma_tail(x: Seq<char>, unit: Seq<char>)
    ensures
        (x + unit).skip(x.len() as int) == unit,
        (x + unit).take(x.len() as int) == x,
{
    assert((x + unit).skip(x.len() as int) =~= unit);
    assert((x + unit).take(x.len() as int) =~= x);
}

/// The long form of a unit means what the short one does: `gb` what `g` does, `mb` what `m` does
/// and `kb` what `k` does.
pub proof fn sizes_ignore_the_long_form(n: Seq<char>)
    requires
        is_all_ascii(n),
    ensures
        size_of_text(n + "gb"@) == size_of_text(n + "g"@),
        size_of_text(n + "mb"@) == size_of_text(n + "m"@),
        size_of_text(n + "kb"@) == size_of_text(n + "k"@),
{
    reveal_strlit("gb");
    reveal_strlit("g");
    reveal_strlit("mb");
    reveal_strlit("m");
    reveal_strlit("kb");
    reveal_strlit("k");
    lemma_unit_stays(n, "gb"@);
    lemma_unit_stays(n, "g"@);
    lemma_unit_stays(n, "mb"@);
    lemma_unit_stays(n, "m"@);
    lemma_unit_stays(n, "kb"@);
    lemma_unit_stays(n, "k"@);
    units_are_powers_of_1024(ascii_lower_all(trim_start(n)));
}

/// A unit in lower case at the end of a size is taken off it and multiplies what stands before: by
/// 1024 for each step from kilo to mega to giga.
pub proof fn units_are_powers_of_1024(x: Seq<char>)
    ensures
        need_parts(x + "gb"@) == (x, 1_073_741_824u64),
        need_parts(x + "g"@) == (x, 1_073_741_824u64),
        need_parts(x + "mb"@) == (x, 1_048_576u64),
        need_parts(x + "m"@) == (x, 1_048_576u64),
        need_parts(x + "kb"@) == (x, 1024u64),
        need_parts(x + "k"@) == (x, 1024u64),
{
    reveal_strlit("gb");
    reveal_strlit("g");
    reveal_strlit("mb");
    reveal_strlit("m");
    reveal_strlit("kb");
    reveal_strlit("k");
    lemma_tail(x, "gb"@);
    lemma_tail(x, "g"@);
    lemma_tail(x, "mb"@);
    lemma_tail(x, "m"@);
    lemma_tail(x, "kb"@);
    lemma_tail(x, "k"@);
    assert forall|s: Seq<char>, u: Seq<char>| #[trigger] ends_in(s, u) && u.len() > 0 implies s.last()
        == u.last() && (u.len() == 2 ==> s[s.len() - 2] == u[0]) by {
        assert(s.skip(s.len() - u.len())[u.len() - 1] == s.last());
        assert(s.skip(s.len() - u.len())[0] == s[s.len() - u.len()]);
    }
    assert((x + "mb"@)[x.len() as int] == 'm');
    assert((x + "kb"@)[x.len() as int] == 'k');
}

} // verus!
