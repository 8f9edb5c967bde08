use vstd::prelude::*;
use toml::Value as TomlValue;

verus! {

/// A TOML table of the `toml` crate, its entries by key.
pub type TomlTable = toml::map::Map<String, TomlValue>;

/// A TOML value, as the `toml` crate parses it.
#[verifier::external_type_specification]
#[verifier::external_body]
pub struct ExValue(TomlValue);

/// A table of the `toml` crate.
#[verifier::external_type_specification]
#[verifier::external_body]
#[verifier::reject_recursive_types(K)]
#[verifier::reject_recursive_types(V)]
pub struct ExMap<K, V>(toml::map::Map<K, V>);

/// The entries of a table, by key.
pub uninterp spec fn table_entries(t: TomlTable) -> Map<Seq<char>, TomlValue>;

/// The keys of a table in the order that it hands its entries out.
pub uninterp spec fn table_keys(t: TomlTable) -> Seq<Seq<char>>;

/// The table that a value is, if it is one (`Value::as_table`).
pub uninterp spec fn value_table(v: TomlValue) -> Option<TomlTable>;

/// The text that a value is, if it is a string (`Value::as_str`).
pub uninterp spec fn value_text(v: TomlValue) -> Option<Seq<char>>;

/// The table that `text` is as TOML (`toml::from_str`); nothing where it is
/// not TOML.
pub uninterp spec fn toml_parsed(text: Seq<char>) -> Option<TomlTable>;

/// The message of the error that reading `text` as TOML gives.
pub uninterp spec fn toml_error(text: Seq<char>) -> Seq<char>;

/// The entry under `key`, if there is one.
pub open spec fn lookup(m: Map<Seq<char>, TomlValue>, key: Seq<char>) -> Option<TomlValue> {
    if m.dom().contains(key) {
        Some(m[key])
    } else {
        None
    }
}

/// The entry that a table hands out first, if it has any.
pub open spec fn first_entry(t: TomlTable) -> Option<(Seq<char>, TomlValue)> {
    if table_keys(t).len() > 0 {
        Some((table_keys(t)[0], table_entries(t)[table_keys(t)[0]]))
    } else {
        None
    }
}

/// `toml::map::Map::new`: a table with no entry.
#[verifier::external_body]
pub(crate) fn new_table() -> (r: TomlTable)
    ensures
        table_entries(r).dom() == Set::<Seq<char>>::empty(),
{
    toml::map::Map::new()
}

/// `toml::map::Map::insert`: sets the entry under `key`, handing out the
/// entry it replaces.
#[verifier::external_body]
pub(crate) fn table_insert(t: &mut TomlTable, key: &str, v: TomlValue) -> (r: Option<TomlValue>)
    ensures
        table_entries(*final(t)) == table_entries(*old(t)).insert(key@, v),
        r == lookup(table_entries(*old(t)), key@),
{
    t.insert(key.to_string(), v)
}

/// `toml::map::Map::remove`: takes the entry under `key` out, if there is
/// one.
#[verifier::external_body]
pub(crate) fn table_remove(t: &mut TomlTable, key: &str) -> (r: Option<TomlValue>)
    ensures
        table_entries(*final(t)) == table_entries(*old(t)).remove(key@),
        r == lookup(table_entries(*old(t)), key@),
{
    t.remove(key)
}

/// The first entry that the table's iterator (`into_iter().next()`) hands
/// out, if any.
#[verifier::external_body]
pub(crate) fn table_first(t: TomlTable) -> (r: Option<(String, TomlValue)>)
    ensures
        match r {
            Some((k, v)) => table_keys(t).len() > 0 && k@ == table_keys(t)[0] && v == table_entries(
                t,
            )[k@],
            None => table_keys(t).len() == 0,
        },
{
    t.into_iter().next()
}

/// `Value::Table`: the value that is the table `t`.
#[verifier::external_body]
pub(crate) fn table_value(t: TomlTable) -> (r: TomlValue)
    ensures
        value_table(r) == Some(t),
{
    TomlValue::Table(t)
}

/// `Value::String`: the value that is the text `s`.
#[verifier::external_body]
pub(crate) fn text_value(s: &str) -> (r: TomlValue)
    ensures
        value_text(r) == Some(s@),
{
    TomlValue::String(s.to_string())
}

/// The table inside a value of the table kind; the value itself back when
/// it is of another kind.
#[verifier::external_body]
pub(crate) fn into_table(v: TomlValue) -> (r: Result<TomlTable, TomlValue>)
    ensures
        match r {
            Ok(t) => value_table(v) == Some(t),
            Err(w) => value_table(v) is None && w == v,
        },
{
    match v {
        TomlValue::Table(t) => Ok(t),
        other => Err(other),
    }
}

/// `toml::from_str` read as a table, with its error as text.
#[verifier::external_body]
pub(crate) fn parse_table(text: &str) -> (r: Result<TomlTable, String>)
    ensures
        match r {
            Ok(t) => toml_parsed(text@) == Some(t),
            Err(e) => toml_parsed(text@) is None && e@ == toml_error(text@),
        },
{
    toml::from_str::<TomlTable>(text).map_err(|e| e.to_string())
}

/// `toml::map::Map::get`: the entry under `key`, if there is one.
#[verifier::external_body]
pub(crate) fn table_get<'a>(t: &'a TomlTable, key: &str) -> (r: Option<&'a TomlValue>)
    ensures
        match r {
            Some(v) => lookup(table_entries(*t), key@) == Some(*v),
            None => lookup(table_entries(*t), key@) is None,
        },
{
    t.get(key)
}

/// `Value::is_table`: whether a value is a table.
#[verifier::external_body]
pub(crate) fn is_table(v: &TomlValue) -> (r: bool)
    ensures
        r == value_table(*v) is Some,
{
    v.is_table()
}

} // verus!
