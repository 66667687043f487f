//! Shell patterns, as the `glob` crate reads them.

use vstd::prelude::*;

verus! {

/// The pattern is well formed and matches the whole text, by the `glob` crate with its default
/// options on Unix.
pub uninterp spec fn glob_accepts(pattern: Seq<char>, text: Seq<char>) -> bool;

/// A pattern without a wildcard: it stands for itself.
pub open spec fn literal(pattern: Seq<char>) -> bool {
    forall|i: int|
        0 <= i < pattern.len() ==> #[trigger] pattern[i] != '*' && pattern[i] != '?' && pattern[i]
            != '['
}

/// A pattern such as `/a/b/**`: everything beneath a directory.
pub open spec fn tree(pattern: Seq<char>) -> bool {
    let n = pattern.len() as int;
    n >= 3 && pattern[n - 1] == '*' && pattern[n - 2] == '*' && pattern[n - 3] == '/'
        && literal(pattern.take(n - 2))
}

/// A pattern such as `**/a/b`: a path of these names anywhere.
pub open spec fn anywhere(pattern: Seq<char>) -> bool {
    pattern.len() > 3 && pattern[0] == '*' && pattern[1] == '*' && pattern[2] == '/' && literal(
        pattern.skip(3),
    )
}

/// The text is the tail, or ends with a slash and the tail.
pub open spec fn ends_with_names(text: Seq<char>, tail: Seq<char>) -> bool {
    text == tail || (text.len() > tail.len() && text[text.len() - tail.len() - 1] == '/'
        && text.skip(text.len() - tail.len()) == tail)
}

/// The pattern matches the whole text. The simple forms are spelled out; the others are left to
/// the `glob` crate.
pub open spec fn glob_matches(pattern: Seq<char>, text: Seq<char>) -> bool {
    if literal(pattern) {
        pattern == text
    } else if tree(pattern) {
        pattern.take(pattern.len() - 2).is_prefix_of(text)
    } else if anywhere(pattern) {
        ends_with_names(text, pattern.skip(3))
    } else {
        glob_accepts(pattern, text)
    }
}

/// Compiles a pattern with `glob::Pattern::new` and asks `glob::Pattern::matches` for the text.
/// A pattern that `new` rejects matches nothing. What a pattern matches is named, and stated for
/// three forms: without a wildcard it matches itself alone; a directory with `/**` behind it
/// matches every text that begins with the directory and the slash; `**/` before plain names
/// matches them alone or behind a slash.
#[verifier::external_body]
fn pattern_match(pattern: &str, text: &str) -> (r: bool)
    ensures
        r == glob_accepts(pattern@, text@),
        literal(pattern@) ==> r == (pattern@ == text@),
        tree(pattern@) ==> r == pattern@.take(pattern@.len() - 2).is_prefix_of(text@),
        anywhere(pattern@) ==> r == ends_with_names(text@, pattern@.skip(3)),
{
    match glob::Pattern::new(pattern) {
        Ok(compiled) => compiled.matches(text),
        Err(_) => false,
    }
}

/// Whether a pattern matches a text.
pub(crate) fn glob_match(pattern: &str, text: &str) -> (r: bool)
    ensures
        r == glob_matches(pattern@, text@),
{
    pattern_match(pattern, text)
}

} // verus!
