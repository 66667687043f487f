//! What holds of paths and of the patterns that accept them.

use crate::globs::{anywhere, ends_with_names, glob_accepts, glob_matches, literal, tree};
use crate::paths::{
    expanded, file_name_spec, is_name, joined_path, parent_parts, parts, path_text, same_path,
    under,
};
use crate::text::{
    ascii_lower, is_white_space, joined, last_run, last_word, occurs, occurs_at, split_on,
};
use vstd::prelude::*;

verus! {

proof fn lemma_split_nonempty(s: Seq<char>, sep: char)
    ensures
        split_on(s, sep).len() >= 1,
    decreases s.len(),
{
    if s.len() > 0 {
        lemma_split_nonempty(s.drop_last(), sep);
    }
}

proof fn lemma_split_extends(s: Seq<char>, t: Seq<char>, sep: char)
    requires
        forall|i: int| 0 <= i < t.len() ==> #[trigger] t[i] != sep,
    ensures
        split_on(s + t, sep) == split_on(s, sep).drop_last().push(split_on(s, sep).last() + t),
    decreases t.len(),
{
    lemma_split_nonempty(s, sep);
    let p = split_on(s, sep);
    if t.len() == 0 {
        assert(s + t =~= s);
        assert(p.last() + t =~= p.last());
        assert(p.drop_last().push(p.last()) =~= p);
    } else {
        let d = t.drop_last();
        assert forall|i: int| 0 <= i < d.len() implies #[trigger] d[i] != sep by {
            assert(d[i] == t[i]);
        }
        lemma_split_extends(s, d, sep);
        assert((s + t).drop_last() =~= s + d);
        assert((s + t).last() == t.last());
        assert(t[t.len() - 1] == t.last());
        let q = p.drop_last().push(p.last() + d);
        assert(q.drop_last() =~= p.drop_last());
        assert((p.last() + d).push(t.last()) =~= p.last() + t);
    }
}

/// Texts that are split at a character are put together again by it: a piece that holds none of it,
/// behind one, is the last piece.
pub proof fn pieces_stand_between_separators(s: Seq<char>, sep: char, t: Seq<char>)
    requires
        forall|i: int| 0 <= i < t.len() ==> #[trigger] t[i] != sep,
    ensures
        split_on(t, sep) == seq![t],
        split_on(s.push(sep) + t, sep) == split_on(s, sep).push(t),
{
    let e = Seq::<char>::empty();
    lemma_split_extends(e, t, sep);
    assert(e + t =~= t);
    assert(seq![e].drop_last().push(e + t) =~= seq![t]);
    lemma_split_nonempty(s, sep);
    lemma_split_extends(s.push(sep), t, sep);
    assert(s.push(sep).drop_last() =~= s);
    let p = split_on(s, sep);
    assert(split_on(s.push(sep), sep) == p.push(e));
    assert(p.push(e).drop_last() =~= p);
    assert(e + t =~= t);
}

proof fn lemma_filter_push(v: Seq<Seq<char>>, p: Seq<char>)
    ensures
        v.push(p).filter(|x: Seq<char>| is_name(x)) == if is_name(p) {
            v.filter(|x: Seq<char>| is_name(x)).push(p)
        } else {
            v.filter(|x: Seq<char>| is_name(x))
        },
{
    reveal(Seq::filter);
    assert(v.push(p).drop_last() =~= v);
}

/// A name joined to a path is one more part behind the path's own, however many slashes the path ends
/// in; so the result lies under the path and has that name.
pub proof fn joined_name_is_the_last_part(base: Seq<char>, name: Seq<char>)
    requires
        base.len() > 0,
        name.len() > 0,
        name != seq!['.'],
        forall|i: int| 0 <= i < name.len() ==> #[trigger] name[i] != '/',
    ensures
        parts(joined_path(base, name)) == parts(base).push(name),
        under(joined_path(base, name), base),
        name != seq!['.', '.'] ==> file_name_spec(joined_path(base, name)) == Some(name),
{
    let f = |x: Seq<char>| is_name(x);
    let p = split_on(base, '/');
    lemma_split_nonempty(base, '/');
    assert(name[0] != '/');
    let joined = joined_path(base, name);
    let q = split_on(joined, '/');
    if base.last() != '/' {
        assert(joined =~= base.push('/') + name);
        pieces_stand_between_separators(base, '/', name);
        lemma_filter_push(p, name);
        assert(q[0] == p[0]);
    } else {
        let s = base.drop_last();
        lemma_split_nonempty(s, '/');
        assert(base =~= s.push('/'));
        assert(joined =~= s.push('/') + name);
        pieces_stand_between_separators(s, '/', name);
        lemma_filter_push(split_on(s, '/'), name);
        assert(p == split_on(s, '/').push(Seq::<char>::empty()));
        lemma_filter_push(split_on(s, '/'), Seq::<char>::empty());
        assert(q[0] == p[0]);
    }
    let names = p.filter(f);
    assert(q.filter(f) == names.push(name));
    assert(joined[0] == base[0]);
    assert(seq![seq!['/']] + names.push(name) =~= (seq![seq!['/']] + names).push(name));
    assert(seq![seq!['.']] + names.push(name) =~= (seq![seq!['.']] + names).push(name));
    assert(parts(base).is_prefix_of(parts(base).push(name)));
    assert(parts(joined).last() == name);
    if name == seq!['/'] {
        assert(name[0] == '/');
    }
}

/// A slash at the end of a path changes nothing of it.
pub proof fn slash_at_the_end_is_ignored(path: Seq<char>)
    requires
        path.len() > 0,
    ensures
        same_path(path.push('/'), path),
        parts(path.push('/')) == parts(path),
{
    let p = split_on(path, '/');
    lemma_split_nonempty(path, '/');
    assert(path.push('/').drop_last() =~= path);
    assert(split_on(path.push('/'), '/') == p.push(Seq::<char>::empty()));
    lemma_filter_push(p, Seq::<char>::empty());
    assert(path.push('/')[0] == path[0]);
    assert(p.push(Seq::<char>::empty())[0] == p[0]);
}

/// A tilde alone is the home directory, one with a slash behind it a path in it, and every other text
/// stays as it is.
pub proof fn tilde_is_home(rest: Seq<char>, home: Seq<char>, text: Seq<char>)
    ensures
        expanded(seq!['~'], home) == home,
        rest.len() > 0 && rest[0] != '/' && home.len() > 0 && home.last() != '/' ==> expanded(
            seq!['~', '/'] + rest,
            home,
        ) == home + seq!['/'] + rest,
        text.len() > 0 && text[0] != '~' ==> expanded(text, home) == text,
        text.len() > 1 && text[1] != '/' ==> expanded(text, home) == text,
{
    let t = seq!['~', '/'] + rest;
    assert(t.skip(2) =~= rest);
    assert(t[0] == '~' && t[1] == '/');
    assert(seq!['~'].len() == 1);
}

/// A path lies under another exactly where the other's parts are the first of its own.
pub proof fn paths_lie_under_their_parts(path: Seq<char>, base: Seq<char>)
    ensures
        under(path, base) <==> parts(base).len() <= parts(path).len() && forall|i: int|
            0 <= i < parts(base).len() ==> #[trigger] parts(base)[i] == parts(path)[i],
        same_path(path, base) <==> under(path, base) && under(base, path),
{
    let (p, b) = (parts(path), parts(base));
    if under(path, base) {
        assert forall|i: int| 0 <= i < b.len() implies #[trigger] b[i] == p[i] by {
            assert(p.subrange(0, b.len() as int)[i] == p[i]);
        }
    }
    if b.len() <= p.len() && forall|i: int| 0 <= i < b.len() ==> #[trigger] b[i] == p[i] {
        assert(p.subrange(0, b.len() as int) =~= b);
    }
    if under(path, base) && under(base, path) {
        assert(p.subrange(0, b.len() as int) =~= p);
    }
    if p == b {
        assert(p.subrange(0, b.len() as int) =~= b);
    }
}

/// A pattern without wildcards accepts itself alone. One that ends in a slash and two stars accepts
/// what begins as it does before them. One that begins with two stars and a slash accepts what ends in
/// the names behind them. What every other pattern accepts, the matcher says.
pub proof fn patterns_accept_by_their_form(pattern: Seq<char>, dir: Seq<char>, text: Seq<char>)
    requires
        forall|i: int|
            0 <= i < dir.len() ==> #[trigger] dir[i] != '*' && dir[i] != '?' && dir[i] != '[',
    ensures
        glob_matches(dir, text) <==> dir == text,
        glob_matches(dir + seq!['/', '*', '*'], text) <==> dir.push('/').is_prefix_of(text),
        dir.len() > 0 ==> (glob_matches(seq!['*', '*', '/'] + dir, text) <==> ends_with_names(
            text,
            dir,
        )),
        !literal(pattern) && !tree(pattern) && !anywhere(pattern) ==> (glob_matches(pattern, text)
            <==> glob_accepts(pattern, text)),
{
    let t = dir + seq!['/', '*', '*'];
    let n = t.len() as int;
    assert(t.take(n - 2) =~= dir.push('/'));
    assert(literal(t.take(n - 2))) by {
        assert forall|i: int| 0 <= i < t.take(n - 2).len() implies #[trigger] t.take(n - 2)[i] != '*'
            && t.take(n - 2)[i] != '?' && t.take(n - 2)[i] != '[' by {
            if i < dir.len() {
                assert(dir.push('/')[i] == dir[i]);
            }
        }
    }
    assert(t[n - 1] == '*');
    assert(!literal(t));
    let a = seq!['*', '*', '/'] + dir;
    assert(a.skip(3) =~= dir);
    assert(a[0] == '*');
    assert(!literal(a));
    if dir.len() > 0 {
        assert(a[a.len() - 1] == dir[dir.len() - 1]);
        assert(!tree(a));
        assert(anywhere(a));
    }
}

/// A text holds another exactly where it is that text with something before and behind it.
pub proof fn texts_hold_their_middle(pre: Seq<char>, s: Seq<char>, post: Seq<char>)
    ensures
        occurs(pre + s + post, s),
{
    let hay = pre + s + post;
    assert(hay.subrange(pre.len() as int, (pre.len() + s.len()) as int) =~= s);
    assert(occurs_at(hay, s, pre.len() as int));
}

/// The text of a path is its parts with slashes between them, and one in front where it begins at the
/// root.
pub proof fn texts_of_paths_join_their_parts(p: Seq<Seq<char>>, name: Seq<char>)
    ensures
        path_text(seq![seq!['/'], name]) == seq!['/'] + name,
        name != seq!['/'] ==> path_text(seq![name]) == name,
        p.len() >= 2 || (p.len() == 1 && p[0] != seq!['/']) ==> path_text(p.push(name)) == path_text(
            p,
        ) + seq!['/'] + name,
{
    let root = seq!['/'];
    let two = seq![root, name];
    assert(two.drop_first() =~= seq![name]);
    assert(joined(seq![name], root) == name);
    let q = p.push(name);
    if p.len() >= 1 {
        assert(q[0] == p[0]);
        assert(q.drop_last() =~= p);
        assert(q.last() == name);
        if p[0] == root && p.len() >= 2 {
            let d = p.drop_first();
            assert(q.drop_first() =~= d.push(name));
            assert(d.push(name).drop_last() =~= d);
            assert(root + (joined(d, root) + root + name) =~= root + joined(d, root) + root + name);
        }
    }
}

/// The directory around a path is the path without its last part; the root has none.
pub proof fn parents_are_one_part_shorter(p: Seq<Seq<char>>, name: Seq<char>)
    ensures
        name != seq!['/'] ==> parent_parts(p.push(name)) == Some(p),
        parent_parts(seq![seq!['/']]) is None,
        parent_parts(Seq::empty()) is None,
{
    assert(p.push(name).drop_last() =~= p);
    assert(seq![seq!['/']].last() == seq!['/']);
}

/// Texts are joined with the separator between each two, and letters are lowered one by one.
pub proof fn texts_are_joined_and_lowered(
    parts: Seq<Seq<char>>,
    p: Seq<char>,
    sep: Seq<char>,
    c: char,
)
    ensures
        joined(seq![p], sep) == p,
        parts.len() > 0 ==> joined(parts.push(p), sep) == joined(parts, sep) + sep + p,
        'A' <= c <= 'Z' ==> ascii_lower(c) as u32 == c as u32 + 32,
        !('A' <= c <= 'Z') ==> ascii_lower(c) == c,
{
    assert(parts.push(p).drop_last() =~= parts);
}

/// A path has a file name exactly where its last part is an ordinary one, and that part is it.
pub proof fn file_names_are_last_parts(s: Seq<char>)
    ensures
        parts(s).len() == 0 ==> file_name_spec(s) is None,
        parts(s).len() > 0 && (parts(s).last() == seq!['/'] || parts(s).last() == seq!['.'] || parts(
            s,
        ).last() == seq!['.', '.']) ==> file_name_spec(s) is None,
        parts(s).len() > 0 && parts(s).last() != seq!['/'] && parts(s).last() != seq!['.'] && parts(
            s,
        ).last() != seq!['.', '.'] ==> file_name_spec(s) == Some(parts(s).last()),
{
}

/// The text of no parts is empty, and the last word of a text stands behind its last blank, whatever
/// blanks follow it.
pub proof fn last_words_stand_behind_blanks(s: Seq<char>, word: Seq<char>, blank: char)
    requires
        is_white_space(blank),
        word.len() > 0,
        forall|i: int| 0 <= i < word.len() ==> !is_white_space(#[trigger] word[i]),
    ensures
        path_text(Seq::empty()).len() == 0,
        last_word(word) == Some(word),
        last_word(s.push(blank) + word) == Some(word),
        last_word((s.push(blank) + word).push(blank)) == Some(word),
{
    lemma_run(Seq::empty(), word);
    lemma_run(s.push(blank), word);
    assert(Seq::<char>::empty() + word =~= word);
    assert(word.last() == word[word.len() - 1]);
    let t = s.push(blank) + word;
    assert(t.last() == word.last());
    assert(t.push(blank).drop_last() =~= t);
}

proof fn lemma_run(s: Seq<char>, word: Seq<char>)
    requires
        s.len() > 0 ==> is_white_space(s.last()),
        forall|i: int| 0 <= i < word.len() ==> !is_white_space(#[trigger] word[i]),
    ensures
        last_run(s + word) == word,
    decreases word.len(),
{
    let t = s + word;
    if word.len() == 0 {
        assert(t =~= s);
    } else {
        assert(t.last() == word[word.len() - 1]);
        assert(t.drop_last() =~= s + word.drop_last());
        assert forall|i: int| 0 <= i < word.len() - 1 implies !is_white_space(
            #[trigger] word.drop_last()[i],
        ) by {
            assert(word.drop_last()[i] == word[i]);
        }
        lemma_run(s, word.drop_last());
        assert(word.drop_last().push(word.last()) =~= word);
    }
}

} // verus!
