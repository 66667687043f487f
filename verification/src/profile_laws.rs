//! What holds of settings in the profile.

use crate::number_laws::written_numbers_are_read_back;
use crate::numbers::{number_of, whole_number};
use crate::profile_cmd::{
    key_path, put_at, scalar_of, toml_entry, toml_set, toml_text, toml_value, toml_with, ScalarView,
};
use crate::path_laws::pieces_stand_between_separators;
use crate::text::decimal_int;
use vstd::prelude::*;

verus! {

/// A setting is a truth value exactly where it is written so, a whole number where it is one that fits,
/// another number where it is one, and else a text.
pub proof fn settings_are_read_by_their_form(s: Seq<char>, n: i64)
    ensures
        scalar_of("true"@) == ScalarView::Bool(true),
        scalar_of("false"@) == ScalarView::Bool(false),
        scalar_of(s) is Bool <==> s == "true"@ || s == "false"@,
        scalar_of(decimal_int(n as int)) == ScalarView::Integer(n),
        scalar_of(s) matches ScalarView::Integer(m) ==> whole_number(s) == Some(m as int),
        scalar_of(s) matches ScalarView::Float(t) ==> t == s && number_of(s) is Some,
        scalar_of(s) matches ScalarView::Text(t) ==> t == s && number_of(s) is None,
{
    reveal_strlit("true");
    reveal_strlit("false");
    assert("true"@.len() != "false"@.len());
    written_numbers_are_read_back(n as int);
    let d = decimal_int(n as int);
    assert("true"@[0] == 't' && "false"@[0] == 'f');
    if d == "true"@ || d == "false"@ {
        crate::number_laws::numbers_are_written_in_digits(
            if n < 0 {
                (-n) as nat
            } else {
                n as nat
            },
        );
        let m = if n < 0 {
            crate::text::decimal((-n) as nat)
        } else {
            crate::text::decimal(n as nat)
        };
        assert(crate::numbers::is_digit(m[0]));
        assert(d[0] == '-' || d[0] == m[0]);
    }
}

/// A key is cut at its points into the names of the tables it runs through.
pub proof fn keys_run_through_their_names(key: Seq<char>, name: Seq<char>)
    requires
        forall|i: int| 0 <= i < name.len() ==> #[trigger] name[i] != '.',
    ensures
        key_path(name) == seq![name],
        key_path(key.push('.') + name) == key_path(key).push(name),
{
    pieces_stand_between_separators(key, '.', name);
}

/// A value is put under its key: a key of one name changes the slot of that name alone, and one of
/// several the slot of its first name, by what the rest of the key makes of what is there.
pub proof fn values_are_put_under_their_key(
    item: Seq<char>,
    name: Seq<char>,
    rest: Seq<Seq<char>>,
    value: Seq<char>,
    trailing: Seq<char>,
    v: ScalarView,
)
    ensures
        toml_entry(item, name) is None ==> put_at(item, seq![name] + rest, value) is None,
        toml_entry(item, name) is Some ==> put_at(item, seq![name], value) == Some(
            toml_with(item, name, value),
        ),
        toml_entry(item, name) is Some ==> put_at(item, seq![name] + rest, value) == (match put_at(
            toml_entry(item, name)->0,
            rest,
            value,
        ) {
            Some(changed) => Some(toml_with(item, name, changed)),
            None => None,
        }),
        toml_entry(item, name) is Some ==> toml_set((item, trailing), seq![name], v) == Some(
            toml_text(toml_with(item, name, toml_value(v)), trailing),
        ),
{
    reveal_with_fuel(put_at, 2);
    let p = seq![name] + rest;
    assert(p.drop_first() =~= rest);
    assert(seq![name].drop_first() =~= Seq::<Seq<char>>::empty());
    assert(p[0] == name && seq![name][0] == name);
}

} // verus!
