//! Reading `config.toml`: TOML values as the library reads them, the call
//! into `toml` that parses them, and the `[[search]]` entries picked from
//! them.
use vstd::prelude::*;
use crate::text::{chars_of, eq_exec, lemma_vec_push_deep_view, string_of};

verus! {

/// A TOML value. Floats and date-times are kept as the text `toml` prints
/// for them; table members keep the order in which `toml` iterates them.
#[derive(Debug)]
pub enum TomlValue {
    Str(String),
    Integer(i64),
    Float(String),
    Boolean(bool),
    Datetime(String),
    Array(Vec<TomlValue>),
    Table(Vec<(String, TomlValue)>),
}

#[verifier::external_type_specification]
#[verifier::external_body]
pub struct ExTomlValue(toml::Value);

/// What `text.parse::<toml::Table>()` parses `text` to, as a table value
/// (`None` when it is not a TOML document).
pub uninterp spec fn toml_parse(text: Seq<char>) -> Option<TomlValue>;

/// Trusted: `str::parse::<toml::Table>(text)`, the table converted one for
/// one; named result.
#[verifier::external_body]
pub(crate) fn parse_toml(text: &str) -> (r: Option<TomlValue>)
    ensures
        r == toml_parse(text@),
{
    text.parse::<toml::Table>().ok().map(
        |t| TomlValue::Table(t.into_iter().map(|(k, v)| (k, from_toml(v))).collect()),
    )
}

/// Converts a `toml::Value` variant by variant (floats and date-times to
/// their text).
#[verifier::external_body]
fn from_toml(v: toml::Value) -> TomlValue {
    match v {
        toml::Value::String(s) => TomlValue::Str(s),
        toml::Value::Integer(i) => TomlValue::Integer(i),
        toml::Value::Float(x) => TomlValue::Float(x.to_string()),
        toml::Value::Boolean(b) => TomlValue::Boolean(b),
        toml::Value::Datetime(d) => TomlValue::Datetime(d.to_string()),
        toml::Value::Array(a) => TomlValue::Array(a.into_iter().map(from_toml).collect()),
        toml::Value::Table(t) => TomlValue::Table(
            t.into_iter().map(|(k, v)| (k, from_toml(v))).collect(),
        ),
    }
}

/// The value of the first member named `key`.
pub open spec fn table_get(members: Seq<(String, TomlValue)>, key: Seq<char>) -> Option<TomlValue>
    decreases members.len(),
{
    if members.len() == 0 {
        None
    } else if members[0].0@ == key {
        Some(members[0].1)
    } else {
        table_get(members.drop_first(), key)
    }
}

/// The string member `key` of a table value.
pub open spec fn str_field(v: TomlValue, key: Seq<char>) -> Option<Seq<char>> {
    match v {
        TomlValue::Table(m) => match table_get(m@, key) {
            Some(TomlValue::Str(s)) => Some(s@),
            _ => None,
        },
        _ => None,
    }
}

/// The `[[search]]` entries of a configuration: for each element of the
/// `search` array, its `name` and `author` strings; none without that array.
pub open spec fn search_entries_spec(root: TomlValue) -> Seq<(Option<Seq<char>>, Option<Seq<char>>)> {
    match root {
        TomlValue::Table(m) => match table_get(m@, "search"@) {
            Some(TomlValue::Array(items)) => Seq::new(
                items@.len(),
                |i: int| (str_field(items@[i], "name"@), str_field(items@[i], "author"@)),
            ),
            _ => seq![],
        },
        _ => seq![],
    }
}

fn table_get_exec<'a>(members: &'a Vec<(String, TomlValue)>, key: &str) -> (r: Option<&'a TomlValue>)
    ensures
        r is None <==> table_get(members@, key@) is None,
        r matches Some(v) ==> table_get(members@, key@) == Some(*v),
{
    let k = chars_of(key);
    let mut i: usize = 0;
    assert(members@.skip(0) =~= members@);
    while i < members.len()
        invariant
            i <= members@.len(),
            k@ == key@,
            table_get(members@, key@) == table_get(members@.skip(i as int), key@),
        decreases members.len() - i,
    {
        assert(members@.skip(i as int)[0] == members@[i as int]);
        assert(members@.skip(i as int).drop_first() =~= members@.skip(i + 1));
        if eq_exec(&chars_of(members[i].0.as_str()), &k) {
            return Some(&members[i].1);
        }
        i += 1;
    }
    None
}

fn str_field_exec(v: &TomlValue, key: &str) -> (r: Option<String>)
    ensures
        r.deep_view() == str_field(*v, key@),
{
    match v {
        TomlValue::Table(m) => match table_get_exec(m, key) {
            Some(TomlValue::Str(s)) => Some(string_of(&chars_of(s.as_str()))),
            _ => None,
        },
        _ => None,
    }
}

/// The `[[search]]` entries `(name, author)` of a parsed configuration.
pub fn search_entries(root: &TomlValue) -> (r: Vec<(Option<String>, Option<String>)>)
    ensures
        r.deep_view() == search_entries_spec(*root),
{
    let mut r: Vec<(Option<String>, Option<String>)> = Vec::new();
    assert(r.deep_view() =~= Seq::<(Option<Seq<char>>, Option<Seq<char>>)>::empty());
    let m = match root {
        TomlValue::Table(m) => m,
        _ => {
            return r;
        },
    };
    proof {
        reveal_strlit("search");
        reveal_strlit("name");
        reveal_strlit("author");
    }
    let items = match table_get_exec(m, "search") {
        Some(TomlValue::Array(items)) => items,
        _ => {
            return r;
        },
    };
    let ghost want = search_entries_spec(*root);
    assert(want.len() == items@.len());
    let mut i: usize = 0;
    while i < items.len()
        invariant
            i <= items@.len(),
            want == search_entries_spec(*root),
            want.len() == items@.len(),
            forall|j: int| 0 <= j < items@.len() ==> #[trigger] want[j] == (
                str_field(items@[j], "name"@),
                str_field(items@[j], "author"@),
            ),
            r.deep_view() == want.take(i as int),
        decreases items.len() - i,
    {
        let entry = (str_field_exec(&items[i], "name"), str_field_exec(&items[i], "author"));
        assert(want[i as int] == (str_field(items@[i as int], "name"@), str_field(items@[i as int], "author"@)));
        let ghost before = r;
        r.push(entry);
        proof {
            lemma_vec_push_deep_view(before, r, entry);
        }
        assert(r.deep_view() =~= want.take(i + 1));
        i += 1;
    }
    assert(want.take(items@.len() as int) =~= want);
    r
}

} // verus!
