//! What a TOML text holds.

use vstd::prelude::*;

verus! {

#[verifier::external_type_specification]
#[verifier::external_body]
pub struct ExTomlValue(toml::Value);

/// A TOML value, as a value to reason about.
pub enum Told {
    Text(Seq<char>),
    Number(i64),
    Fraction,
    YesNo(bool),
    /// A date or a time, as it is written.
    Moment(Seq<char>),
    List(Seq<Told>),
    Table(Seq<(Seq<char>, Told)>),
}

/// What is in a TOML value.
pub uninterp spec fn held_in(value: toml::Value) -> Told;

/// What is in the values of a list.
pub open spec fn held_in_all(values: Seq<toml::Value>) -> Seq<Told> {
    Seq::new(values.len(), |i: int| held_in(values[i]))
}

/// What is in the values of a table, by their keys.
pub open spec fn held_in_members(members: Seq<(String, toml::Value)>) -> Seq<(Seq<char>, Told)> {
    Seq::new(members.len(), |i: int| (members[i].0@, held_in(members[i].1)))
}

/// A TOML value, opened: what it is, with the values that are in it.
#[derive(Debug)]
pub enum Opened {
    Text(String),
    Number(i64),
    Fraction,
    YesNo(bool),
    Moment(String),
    List(Vec<toml::Value>),
    Table(Vec<(String, toml::Value)>),
}

impl View for Opened {
    type V = Told;

    open spec fn view(&self) -> Told {
        match self {
            Opened::Text(text) => Told::Text(text@),
            Opened::Number(n) => Told::Number(*n),
            Opened::Fraction => Told::Fraction,
            Opened::YesNo(yes) => Told::YesNo(*yes),
            Opened::Moment(text) => Told::Moment(text@),
            Opened::List(values) => Told::List(held_in_all(values@)),
            Opened::Table(members) => Told::Table(held_in_members(members@)),
        }
    }
}

/// Tells the variants of `toml::Value` apart. A date or a time comes as
/// `toml::value::Datetime` writes it, and a fraction without its value.
#[verifier::external_body]
pub(crate) fn open(value: &toml::Value) -> (opened: Opened)
    ensures
        opened@ == held_in(*value),
{
    match value {
        toml::Value::String(text) => Opened::Text(text.clone()),
        toml::Value::Integer(n) => Opened::Number(*n),
        toml::Value::Float(_) => Opened::Fraction,
        toml::Value::Boolean(yes) => Opened::YesNo(*yes),
        toml::Value::Datetime(at) => Opened::Moment(at.to_string()),
        toml::Value::Array(values) => Opened::List(values.clone()),
        toml::Value::Table(members) => Opened::Table(members.clone().into_iter().collect()),
    }
}

/// What a TOML text holds, by its keys in their order; nothing for a text that
/// is not TOML.
pub uninterp spec fn toml_of(text: Seq<char>) -> Option<Seq<(Seq<char>, Told)>>;

/// Calls `toml::from_str` for a `toml::Table`: what is in it depends on the
/// text alone, and an empty text is an empty table. The error is the crate's,
/// in words.
#[verifier::external_body]
pub(crate) fn read_toml(text: &str) -> (read: Result<Vec<(String, toml::Value)>, String>)
    ensures
        match read {
            Ok(members) => toml_of(text@) == Some(held_in_members(members@)) && (text@.len() == 0
                ==> members@.len() == 0),
            Err(_) => toml_of(text@) is None && text@.len() > 0,
        },
{
    let table: toml::Table = toml::from_str(text).map_err(|e| e.to_string())?;
    Ok(table.into_iter().collect())
}

}
