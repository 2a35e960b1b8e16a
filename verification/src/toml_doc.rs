//! TOML documents as the manifest logic reads them: strings, arrays and
//! tables, with key lookups along paths. Parsing is done by the `toml` crate.

use vstd::prelude::*;

use crate::text::str_eq;

verus! {

#[verifier::external_type_specification]
#[verifier::external_body]
pub struct ExTomlValue(toml::Value);

/// A TOML value. Integers, floats, booleans and datetimes carry nothing the
/// manifest logic reads, so they are all `Other`.
#[derive(Debug)]
pub enum TomlValue {
    Str(String),
    Array(Vec<TomlValue>),
    /// Key/value entries in the order the `toml` crate's table yields them
    /// (by key, with its default map); keys are distinct.
    Table(Vec<(String, TomlValue)>),
    Other,
}

/// The value under `key` among table entries: the first entry with that key.
pub open spec fn entry_get(entries: Seq<(String, TomlValue)>, key: Seq<char>) -> Option<TomlValue>
    decreases entries.len(),
{
    if entries.len() == 0 {
        None
    } else if entries[0].0@ == key {
        Some(entries[0].1)
    } else {
        entry_get(entries.drop_first(), key)
    }
}

/// `Value::get` with a string key: the entry of a table, nothing otherwise.
pub open spec fn value_get(v: TomlValue, key: Seq<char>) -> Option<TomlValue> {
    match v {
        TomlValue::Table(entries) => entry_get(entries@, key),
        _ => None,
    }
}

/// The value reached from `v` by following the keys of `path` in turn.
pub open spec fn lookup(v: TomlValue, path: Seq<Seq<char>>) -> Option<TomlValue>
    decreases path.len(),
{
    if path.len() == 0 {
        Some(v)
    } else {
        match value_get(v, path[0]) {
            Some(child) => lookup(child, path.drop_first()),
            None => None,
        }
    }
}

/// The entries of the table at `path`, if a table is there.
pub open spec fn lookup_table(v: TomlValue, path: Seq<Seq<char>>) -> Option<
    Seq<(String, TomlValue)>,
> {
    match lookup(v, path) {
        Some(TomlValue::Table(entries)) => Some(entries@),
        _ => None,
    }
}

/// The items of the array at `path`, if an array is there.
pub open spec fn lookup_array(v: TomlValue, path: Seq<Seq<char>>) -> Option<Seq<TomlValue>> {
    match lookup(v, path) {
        Some(TomlValue::Array(items)) => Some(items@),
        _ => None,
    }
}

/// The texts of a path of string keys.
pub open spec fn path_view(path: Seq<&str>) -> Seq<Seq<char>> {
    path.map_values(|k: &str| k@)
}

/// What the `toml` crate makes of a document: its root table, converted by
/// [`TomlValue`]'s rules, or the text of its syntax error.
pub uninterp spec fn toml_parse(source: Seq<char>) -> Result<TomlValue, Seq<char>>;

/// Converts a value of the `toml` crate one for one: strings, arrays and
/// tables keep their contents in the order the crate yields them, every
/// other kind becomes `Other`.
/// Only [`parse_toml`] uses it, on what the crate returned.
#[verifier::external_body]
fn from_toml(value: toml::Value) -> TomlValue {
    match value {
        toml::Value::String(s) => TomlValue::Str(s),
        toml::Value::Array(items) => TomlValue::Array(items.into_iter().map(from_toml).collect()),
        toml::Value::Table(table) => TomlValue::Table(
            table.into_iter().map(|(key, value)| (key, from_toml(value))).collect(),
        ),
        _ => TomlValue::Other,
    }
}

/// `str::parse::<toml::Table>` (`toml::Table`'s `FromStr`): parses a TOML
/// document into its root table. The contract claims only that the outcome
/// is a function of the source text, named [`toml_parse`]: the converted
/// root table on success, the error's display text on failure.
#[verifier::external_body]
pub(crate) fn parse_toml(source: &str) -> (r: Result<TomlValue, String>)
    ensures
        match r {
            Ok(v) => toml_parse(source@) == Ok::<TomlValue, Seq<char>>(v),
            Err(message) => toml_parse(source@) == Err::<TomlValue, Seq<char>>(message@),
        },
{
    match source.parse::<toml::Table>() {
        Ok(table) => Ok(from_toml(toml::Value::Table(table))),
        Err(err) => Err(err.to_string()),
    }
}

/// The value under `key` when `v` is a table.
pub fn get<'a>(v: &'a TomlValue, key: &str) -> (r: Option<&'a TomlValue>)
    ensures
        match r {
            Some(x) => value_get(*v, key@) == Some(*x),
            None => value_get(*v, key@) is None,
        },
{
    match v {
        TomlValue::Table(entries) => {
            let mut i: usize = 0;
            assert(entries@.skip(0) =~= entries@);
            while i < entries.len()
                invariant
                    i <= entries@.len(),
                    value_get(*v, key@) == entry_get(entries@, key@),
                    entry_get(entries@, key@) == entry_get(entries@.skip(i as int), key@),
                decreases entries@.len() - i,
            {
                assert(entries@.skip(i as int).drop_first() =~= entries@.skip(i + 1));
                assert(entries@.skip(i as int)[0] == entries@[i as int]);
                if str_eq(entries[i].0.as_str(), key) {
                    assert(entries@[i as int].0@ == key@);
                    assert(entry_get(entries@.skip(i as int), key@) == Some(entries@[i as int].1));
                    return Some(&entries[i].1);
                }
                i = i + 1;
            }
            None
        },
        _ => None,
    }
}

/// The value reached from `v` by following `path`.
pub fn lookup_path<'a>(v: &'a TomlValue, path: &[&str]) -> (r: Option<&'a TomlValue>)
    ensures
        match r {
            Some(x) => lookup(*v, path_view(path@)) == Some(*x),
            None => lookup(*v, path_view(path@)) is None,
        },
{
    let mut cur: &TomlValue = v;
    let mut i: usize = 0;
    assert(path_view(path@).skip(0) =~= path_view(path@));
    while i < path.len()
        invariant
            i <= path@.len(),
            lookup(*v, path_view(path@)) == lookup(*cur, path_view(path@).skip(i as int)),
        decreases path@.len() - i,
    {
        let ghost rest = path_view(path@).skip(i as int);
        assert(rest[0] == path@[i as int]@);
        assert(rest.drop_first() =~= path_view(path@).skip(i + 1));
        match get(cur, path[i]) {
            Some(child) => {
                cur = child;
            },
            None => {
                return None;
            },
        }
        i = i + 1;
    }
    assert(path_view(path@).skip(i as int) =~= Seq::<Seq<char>>::empty());
    Some(cur)
}

/// The entries of the table at `path`, if a table is there.
pub fn table_at<'a>(v: &'a TomlValue, path: &[&str]) -> (r: Option<&'a Vec<(String, TomlValue)>>)
    ensures
        match r {
            Some(entries) => lookup_table(*v, path_view(path@)) == Some(entries@),
            None => lookup_table(*v, path_view(path@)) is None,
        },
{
    match lookup_path(v, path) {
        Some(TomlValue::Table(entries)) => Some(entries),
        _ => None,
    }
}

/// The items of the array at `path`, if an array is there.
pub fn array_at<'a>(v: &'a TomlValue, path: &[&str]) -> (r: Option<&'a Vec<TomlValue>>)
    ensures
        match r {
            Some(items) => lookup_array(*v, path_view(path@)) == Some(items@),
            None => lookup_array(*v, path_view(path@)) is None,
        },
{
    match lookup_path(v, path) {
        Some(TomlValue::Array(items)) => Some(items),
        _ => None,
    }
}

} // verus!
