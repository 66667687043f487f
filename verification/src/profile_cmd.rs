//! Setting a value in the profile file.

use crate::numbers::{read_bytes, read_i64};
#[allow(unused_imports)]
use crate::numbers::{number_of, whole_number};
use crate::text::{chars_of, pieces_between, same, text_of};
#[allow(unused_imports)]
use crate::text::{split_on, views};
use toml_edit::Item as TomlItem;
use vstd::prelude::*;

verus! {

/// The profile that is written where there is none.
pub const DEFAULT_PROFILE: &'static str = "# disk-advisor profile\n# Edit this file to personalize your cleanup recommendations.\n# Your agent can also write to this with: disk-advisor profile set key=value\n\n[focus]\ncurrent = \"\"\nupdated = \"\"\n\n[domains]\n# Set active = false for domains you no longer work in.\n# disk-advisor will rank those candidates higher.\n#\n# ios_development = { active = false, last_active = \"2024-11\" }\n# web_development = { active = true }\n# python_development = { active = true }\n# rust_development = { active = true }\n# docker = { active = true }\n# android_development = { active = false }\n# music_production = { active = false, never_did = true }\n# video_editing = { active = false }\n# virtualization = { active = false }\n\n[paths]\nnever_touch = [\n    # \"~/Documents/**\",\n    # \"~/Clients/**\",\n]\nalways_safe = [\n    # \"~/Library/Developer/Xcode/DerivedData/**\",\n]\nnever_suggest = []\n\n[preferences]\nairlock_retention_days = 7\nmin_candidate_size_gb = 0.1\nconfirm_before_airlock = true\n";

pub fn default_profile_toml() -> (r: &'static str)
    ensures
        r@ == DEFAULT_PROFILE@,
{
    DEFAULT_PROFILE
}

// ---------------------------------------------------------------------------
// Assignments
// ---------------------------------------------------------------------------
/// `at` is the position of the first `=`.
pub open spec fn first_equals(s: Seq<char>, at: int) -> bool {
    0 <= at < s.len() && s[at] == '=' && forall|i: int| 0 <= i < at ==> #[trigger] s[i] != '='
}

/// Cuts `key=value` at the first `=`.
pub fn parse_assignment(s: &str) -> (r: Result<(String, String), String>)
    ensures
        match r {
            Ok((k, v)) => first_equals(s@, k@.len() as int) && k@ == s@.take(k@.len() as int) && v@
                == s@.skip(k@.len() as int + 1),
            Err(e) => (forall|i: int| 0 <= i < s@.len() ==> #[trigger] s@[i] != '=') && e@
                == "Expected key=value, got: "@ + s@,
        },
{
    let v: Vec<char> = chars_of(s);
    let mut i: usize = 0;
    while i < v.len()
        invariant
            i <= v@.len(),
            v@ == s@,
            forall|j: int| 0 <= j < i ==> #[trigger] s@[j] != '=',
        decreases v.len() - i,
    {
        if v[i] == '=' {
            let key: String = text_of(&v, 0, i);
            let value: String = text_of(&v, i + 1, v.len());
            assert(key@ =~= s@.take(i as int));
            assert(value@ =~= s@.skip(i + 1));
            return Ok((key, value));
        }
        i += 1;
    }
    let mut e: String = "Expected key=value, got: ".to_owned();
    e.append(s);
    Err(e)
}

/// A value with its type: what reads as a truth value, else as a whole number, else as a number,
/// is one; anything else is text.
#[derive(Debug)]
pub enum Scalar {
    Bool(bool),
    Integer(i64),
    /// A number with a fraction or an exponent, as it was written.
    Float(String),
    Text(String),
}

pub ghost enum ScalarView {
    Bool(bool),
    Integer(i64),
    Float(Seq<char>),
    Text(Seq<char>),
}

impl View for Scalar {
    type V = ScalarView;

    open spec fn view(&self) -> ScalarView {
        match self {
            Scalar::Bool(b) => ScalarView::Bool(*b),
            Scalar::Integer(n) => ScalarView::Integer(*n),
            Scalar::Float(t) => ScalarView::Float(t@),
            Scalar::Text(t) => ScalarView::Text(t@),
        }
    }
}

/// The whole number of a text, where an `i64` holds it.
pub open spec fn small_number(s: Seq<char>) -> Option<i64> {
    match whole_number(s) {
        Some(n) => if i64::MIN <= n <= i64::MAX {
            Some(n as i64)
        } else {
            None
        },
        None => None,
    }
}

pub open spec fn scalar_of(s: Seq<char>) -> ScalarView {
    if s == "true"@ {
        ScalarView::Bool(true)
    } else if s == "false"@ {
        ScalarView::Bool(false)
    } else {
        match small_number(s) {
            Some(n) => ScalarView::Integer(n),
            None => if number_of(s) is Some {
                ScalarView::Float(s)
            } else {
                ScalarView::Text(s)
            },
        }
    }
}

pub fn read_scalar(s: &str) -> (r: Scalar)
    ensures
        r@ == scalar_of(s@),
{
    if same(s, "true") {
        return Scalar::Bool(true);
    }
    if same(s, "false") {
        return Scalar::Bool(false);
    }
    match read_i64(s) {
        Some(n) => Scalar::Integer(n),
        None => match read_bytes(s, 1) {
            Some(_) => Scalar::Float(s.to_owned()),
            None => Scalar::Text(s.to_owned()),
        },
    }
}

// ---------------------------------------------------------------------------
// The file
// ---------------------------------------------------------------------------
/// The error of the TOML parser.
#[verifier::external_type_specification]
#[verifier::external_body]
pub struct ExTomlError(toml_edit::TomlError);

/// A document of `toml_edit`.
#[verifier::external_type_specification]
#[verifier::external_body]
pub struct ExDocument(toml_edit::DocumentMut);

/// A table or a value of a document.
#[verifier::external_type_specification]
#[verifier::external_body]
pub struct ExItem(TomlItem);

/// All that an item holds, keys, values, their order and their layout, as one text.
pub uninterp spec fn item_held(item: TomlItem) -> Seq<char>;

/// All that the root table of a document holds.
pub uninterp spec fn root_held(doc: toml_edit::DocumentMut) -> Seq<char>;

/// An item is a table with a header of its own, as `toml_edit::Item::is_table` tells; a value
/// that is written in line is none.
pub uninterp spec fn item_is_table(item: TomlItem) -> bool;

/// The root of a document is such a table.
pub uninterp spec fn root_is_table(doc: toml_edit::DocumentMut) -> bool;

/// What stands in a document behind its last entry.
pub uninterp spec fn trailing_held(doc: toml_edit::DocumentMut) -> Seq<char>;

/// The root table and the trailing text that `toml_edit` reads from a text; none where the text
/// is not TOML.
pub uninterp spec fn toml_read(content: Seq<char>) -> Option<(Seq<char>, Seq<char>)>;

/// What an item holds under a key, an empty slot where it has no such key; none where the item
/// is not a table.
pub uninterp spec fn toml_entry(item: Seq<char>, key: Seq<char>) -> Option<Seq<char>>;

/// The item with something else under a key.
pub uninterp spec fn toml_with(item: Seq<char>, key: Seq<char>, entry: Seq<char>) -> Seq<char>;

/// What the item for a scalar holds.
pub uninterp spec fn toml_value(value: ScalarView) -> Seq<char>;

/// The text of a document with the given root table and trailing text.
pub uninterp spec fn toml_text(root: Seq<char>, trailing: Seq<char>) -> Seq<char>;

/// Reads a text with `toml_edit::DocumentMut::from_str`. The root of what it reads is a table; what
/// the document holds is only named.
#[verifier::external_body]
fn read_toml(content: &str) -> (r: Result<toml_edit::DocumentMut, toml_edit::TomlError>)
    ensures
        match r {
            Ok(doc) => toml_read(content@) == Some((root_held(doc), trailing_held(doc)))
                && root_is_table(doc),
            Err(_) => toml_read(content@) is None,
        },
{
    content.parse()
}

/// Borrows the root with `toml_edit::DocumentMut::as_item_mut`. What is written there, a table or
/// not, is the document's root afterwards; the trailing text stays.
#[verifier::external_body]
fn root_of(doc: &mut toml_edit::DocumentMut) -> (r: &mut TomlItem)
    ensures
        item_held(*r) == root_held(*old(doc)),
        root_held(*final(doc)) == item_held(*final(r)),
        item_is_table(*r) == root_is_table(*old(doc)),
        root_is_table(*final(doc)) == item_is_table(*final(r)),
        trailing_held(*final(doc)) == trailing_held(*old(doc)),
{
    doc.as_item_mut()
}

/// Borrows the slot of a key with `toml_edit::Item::get_mut`, which adds an empty slot where the
/// key is missing and turns an item that holds nothing into an inline table first. A table stays a
/// table, whatever is written into the slot. What is found there, and what the item holds once the
/// slot is written, is only named.
#[verifier::external_body]
fn entry_of<'a>(item: &'a mut TomlItem, key: &str) -> (r: Option<&'a mut TomlItem>)
    ensures
        match r {
            Some(slot) => toml_entry(item_held(*old(item)), key@) == Some(item_held(*slot))
                && item_held(*final(item)) == toml_with(
                item_held(*old(item)),
                key@,
                item_held(*final(slot)),
            ),
            None => toml_entry(item_held(*old(item)), key@) is None,
        },
        item_is_table(*old(item)) ==> item_is_table(*final(item)),
{
    item.get_mut(key)
}

/// `toml_edit::value` of a truth value. What it holds is only named.
#[verifier::external_body]
fn bool_item(b: bool) -> (r: TomlItem)
    ensures
        item_held(r) == toml_value(ScalarView::Bool(b)),
{
    toml_edit::value(b)
}

/// `toml_edit::value` of a whole number. What it holds is only named.
#[verifier::external_body]
fn integer_item(n: i64) -> (r: TomlItem)
    ensures
        item_held(r) == toml_value(ScalarView::Integer(n)),
{
    toml_edit::value(n)
}

/// `toml_edit::value` of the floating-point number that a text reads as; none for a text that is
/// not a number. What the item holds is only named.
#[verifier::external_body]
fn number_item(t: &str) -> (r: Option<TomlItem>)
    ensures
        match r {
            Some(item) => item_held(item) == toml_value(ScalarView::Float(t@)),
            None => number_of(t@) is None,
        },
{
    let number = toml_edit::Formatted::new(t.parse().ok()?);
    Some(toml_edit::value(toml_edit::Value::Float(number)))
}

/// `toml_edit::value` of a text. What it holds is only named.
#[verifier::external_body]
fn text_item(t: &str) -> (r: TomlItem)
    ensures
        item_held(r) == toml_value(ScalarView::Text(t@)),
{
    toml_edit::value(t)
}

/// Writes a document with `toml_edit::DocumentMut::to_string`, which panics where the root is not
/// a table. The text is only named.
#[verifier::external_body]
fn write_toml(doc: &toml_edit::DocumentMut) -> (r: String)
    requires
        root_is_table(*doc),
    ensures
        r@ == toml_text(root_held(*doc), trailing_held(*doc)),
{
    doc.to_string()
}

#[derive(Debug)]
pub enum SetError {
    /// The file is not TOML.
    NotToml(toml_edit::TomlError),
    /// The key has more than three levels.
    TooDeep(String),
    /// The key runs through something that is not a table.
    NotATable,
}

/// The names in a key.
pub open spec fn key_path(key: Seq<char>) -> Seq<Seq<char>> {
    split_on(key, '.')
}

/// An item with a value put at a path, tables made on the way where there is nothing; none where
/// the path runs through something that is not a table.
pub open spec fn put_at(item: Seq<char>, path: Seq<Seq<char>>, value: Seq<char>) -> Option<
    Seq<char>,
>
    decreases path.len(),
{
    if path.len() == 0 {
        Some(value)
    } else {
        match toml_entry(item, path[0]) {
            Some(entry) => match put_at(entry, path.drop_first(), value) {
                Some(changed) => Some(toml_with(item, path[0], changed)),
                None => None,
            },
            None => None,
        }
    }
}

/// Puts a value at the rest of a path, from the position `at` on.
fn put(item: &mut TomlItem, path: &Vec<String>, at: usize, value: TomlItem) -> (r:
    bool)
    requires
        at <= path@.len(),
    ensures
        match put_at(item_held(*old(item)), views(path@).skip(at as int), item_held(value)) {
            Some(changed) => r && item_held(*final(item)) == changed,
            None => !r,
        },
        at < path@.len() && item_is_table(*old(item)) ==> item_is_table(*final(item)),
    decreases path@.len() - at,
{
    let ghost rest = views(path@).skip(at as int);
    if at == path.len() {
        *item = value;
        return true;
    }
    proof {
        assert(rest[0] == path@[at as int]@);
        assert(rest.drop_first() =~= views(path@).skip(at + 1));
    }
    match entry_of(item, path[at].as_str()) {
        Some(slot) => put(slot, path, at + 1, value),
        None => false,
    }
}

fn scalar_item(value: &Scalar) -> (r: Option<TomlItem>)
    ensures
        match r {
            Some(item) => item_held(item) == toml_value(value@),
            None => value@ matches ScalarView::Float(t) && number_of(t) is None,
        },
{
    match value {
        Scalar::Bool(b) => Some(bool_item(*b)),
        Scalar::Integer(n) => Some(integer_item(*n)),
        Scalar::Float(t) => number_item(t.as_str()),
        Scalar::Text(t) => Some(text_item(t.as_str())),
    }
}

/// The document with a key set: its root table changed at the key, everything else as it was;
/// none where the key runs through something that is not a table.
pub open spec fn toml_set(
    doc: (Seq<char>, Seq<char>),
    path: Seq<Seq<char>>,
    value: ScalarView,
) -> Option<Seq<char>> {
    match put_at(doc.0, path, toml_value(value)) {
        Some(root) => Some(toml_text(root, doc.1)),
        None => None,
    }
}

/// The profile file with a key set to a value. The file is read first, then the key.
pub fn set_toml_key(content: &str, key: &str, value: &str) -> (r: Result<String, SetError>)
    ensures
        match toml_read(content@) {
            None => r matches Err(SetError::NotToml(_)),
            Some(doc) => if key_path(key@).len() > 3 {
                r matches Err(SetError::TooDeep(e)) && e@ == "Key too deep (max 3 levels): "@
                    + key@
            } else {
                match toml_set(doc, key_path(key@), scalar_of(value@)) {
                    Some(text) => r matches Ok(s) && s@ == text,
                    None => r matches Err(SetError::NotATable),
                }
            },
        },
{
    let mut doc: toml_edit::DocumentMut = match read_toml(content) {
        Ok(d) => d,
        Err(e) => {
            return Err(SetError::NotToml(e));
        },
    };
    let path: Vec<String> = pieces_between(key, '.');
    assert(views(path@).len() == path@.len());
    if path.len() > 3 {
        let mut e: String = "Key too deep (max 3 levels): ".to_owned();
        e.append(key);
        return Err(SetError::TooDeep(e));
    }
    let scalar: Scalar = read_scalar(value);
    assert(views(path@).skip(0) =~= views(path@));
    match scalar_item(&scalar) {
        Some(item) => {
            if put(root_of(&mut doc), &path, 0, item) {
                Ok(write_toml(&doc))
            } else {
                Err(SetError::NotATable)
            }
        },
        None => Err(SetError::NotATable),
    }
}

} // verus!
