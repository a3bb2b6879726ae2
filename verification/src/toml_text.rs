//! TOML documents.
use crate::text;
use vstd::prelude::*;

verus! {

/// A value of a TOML document.
#[verifier::external_type_specification]
#[verifier::external_body]
pub struct ExTomlValue(toml::Value);

/// What a TOML value holds, by the path of keys that leads there through tables: the text of
/// every string, and `None` for every other value. The empty path leads to the value itself.
pub uninterp spec fn contents(value: toml::Value) -> Map<Seq<Seq<char>>, Option<Seq<char>>>;

/// What a TOML document holds, as [`contents`] says it of the whole, or why it is malformed.
pub uninterp spec fn toml_contents(document: Seq<char>) -> Result<
    Map<Seq<Seq<char>>, Option<Seq<char>>>,
    Seq<char>,
>;

/// The part of the contents that lies under a key.
pub open spec fn below(
    held: Map<Seq<Seq<char>>, Option<Seq<char>>>,
    key: Seq<char>,
) -> Map<Seq<Seq<char>>, Option<Seq<char>>> {
    Map::new(
        |path: Seq<Seq<char>>| held.dom().contains(seq![key] + path),
        |path: Seq<Seq<char>>| held[seq![key] + path],
    )
}

/// The string at the end of a path, where there is one.
pub open spec fn text_at(
    held: Map<Seq<Seq<char>>, Option<Seq<char>>>,
    path: Seq<Seq<char>>,
) -> Option<Seq<char>> {
    if held.dom().contains(path) {
        held[path]
    } else {
        None
    }
}

/// What a parsed document holds, or why it could not be parsed.
pub open spec fn parsed_contents(r: Result<toml::Value, String>) -> Result<
    Map<Seq<Seq<char>>, Option<Seq<char>>>,
    Seq<char>,
> {
    match r {
        Ok(value) => Ok(contents(value)),
        Err(reason) => Err(reason@),
    }
}

/// `toml::from_str` for a `toml::Value`, with the error as its text. What comes out is a
/// function of the document, under the name `toml_contents`; what TOML says of a document is
/// not stated further.
#[verifier::external_body]
pub(crate) fn parse(document: &str) -> (r: Result<toml::Value, String>)
    ensures
        parsed_contents(r) == toml_contents(document@),
{
    toml::from_str(document).map_err(|e: toml::de::Error| e.to_string())
}

/// `toml::Value::get` with a text: the value under a key, where this is a table that has the
/// key. It holds what this one holds under the key; where there is none, no path starts with
/// the key.
#[verifier::external_body]
pub(crate) fn get<'a>(value: &'a toml::Value, key: &str) -> (r: Option<&'a toml::Value>)
    ensures
        match r {
            Some(found) => contents(*value).dom().contains(seq![key@]) && contents(*found)
                == below(contents(*value), key@),
            None => forall|path: Seq<Seq<char>>|
                !contents(*value).dom().contains(#[trigger] (seq![key@] + path)),
        },
{
    value.get(key)
}

/// `toml::Value::as_str`: the text of the value, where it is a string.
#[verifier::external_body]
pub(crate) fn as_str<'a>(value: &'a toml::Value) -> (r: Option<&'a str>)
    ensures
        text::opt_slice(r) == text_at(contents(*value), Seq::empty()),
{
    value.as_str()
}

/// Whether the value has the key.
pub(crate) fn has_key(value: &toml::Value, key: &str) -> (r: bool)
    ensures
        r == contents(*value).dom().contains(seq![key@]),
{
    assert(seq![key@] + Seq::<Seq<char>>::empty() =~= seq![key@]);
    get(value, key).is_some()
}

/// The string under a key of a table in a section, where there is one.
pub(crate) fn find_text<'a>(
    value: &'a toml::Value,
    section: &str,
    table: &str,
    key: &str,
) -> (r: Option<&'a str>)
    ensures
        text::opt_slice(r) == text_at(contents(*value), seq![section@, table@, key@]),
{
    assert(seq![section@] + (seq![table@] + (seq![key@] + Seq::<Seq<char>>::empty())) =~= seq![
        section@,
        table@,
        key@,
    ]);
    match get(value, section) {
        Some(section) => match get(section, table) {
            Some(table) => match get(table, key) {
                Some(found) => as_str(found),
                None => None,
            },
            None => None,
        },
        None => None,
    }
}

} // verus!
