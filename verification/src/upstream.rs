//! Trusted boundary to the outside crates that touch upstream payloads.
//!
//! The library never re-implements HTML or JSON parsing: it calls `select`
//! and `serde_json` through the wrappers below, whose contracts are the only
//! facts the verified code is allowed to assume about them.  Every call here
//! is a function of its arguments alone, so each result is given a name
//! (`container_script_text`, `json_array_entries`, `string_field_of`,
//! `number_field_bits_of`) and the wrapper's contract ties the result to
//! that name exactly; everything the library decides about those results
//! happens in verified code against the names.

use select::predicate::Predicate;
use vstd::prelude::*;

verus! {

#[verifier::external_type_specification]
#[verifier::external_body]
pub struct ExValue(serde_json::Value);

/// The text of the first script element that is a direct child of the
/// element carrying the given id attribute, as a function of the markup
/// alone: `None` when no element carries the id, `Some(None)` when the
/// element has no script child, `Some(Some(text))` otherwise.
pub uninterp spec fn container_script_text(markup: Seq<char>, elem_id: Seq<char>) -> Option<
    Option<Seq<char>>,
>;

/// Relies on select's `Document`, `Attr`, `Child` and `Name`: parses the
/// markup and hands back the text of the first script child of the element
/// whose id attribute equals `elem_id`.  The result depends on the two
/// arguments alone.
#[verifier::external_body]
pub(crate) fn find_container_script(markup: &str, elem_id: &str) -> (r: Option<Option<String>>)
    ensures
        match r {
            None => container_script_text(markup@, elem_id@) is None,
            Some(None) => container_script_text(markup@, elem_id@) == Some(None::<Seq<char>>),
            Some(Some(t)) => container_script_text(markup@, elem_id@) == Some(Some(t@)),
        },
{
    let document = select::document::Document::from(markup);
    match document.find(select::predicate::Attr("id", elem_id)).next() {
        None => None,
        Some(_) => Some(
            document
                .find(select::predicate::Attr("id", elem_id).child(select::predicate::Name(
                    "script",
                )))
                .next()
                .map(|script| script.text()),
        ),
    }
}

/// The entries of the payload when it parses as a JSON array, in array
/// order, and `None` when it does not; a function of the payload text
/// alone.
pub uninterp spec fn json_array_entries(payload: Seq<char>) -> Option<Seq<serde_json::Value>>;

/// Relies on serde_json's `from_str` and the `Value::Array` variant: parses
/// the payload and hands back its entries when it is a JSON array.  The
/// result depends on the payload alone.
#[verifier::external_body]
pub(crate) fn parse_json_array(payload: &str) -> (r: Option<Vec<serde_json::Value>>)
    ensures
        match r {
            Some(entries) => json_array_entries(payload@) == Some(entries@),
            None => json_array_entries(payload@) is None,
        },
{
    match serde_json::from_str::<serde_json::Value>(payload) {
        Ok(serde_json::Value::Array(entries)) => Some(entries),
        _ => None,
    }
}

/// The string stored under `key` when the value is an object holding a
/// string there, and `None` otherwise; a function of the value and the key
/// alone.
pub uninterp spec fn string_field_of(entry: serde_json::Value, key: Seq<char>) -> Option<
    Seq<char>,
>;

/// Relies on serde_json's `Value::get` and the `Value::String` variant:
/// yields the string stored under `key` when `entry` is an object holding a
/// string there, and `None` otherwise.
#[verifier::external_body]
pub(crate) fn string_field(entry: &serde_json::Value, key: &str) -> (r: Option<String>)
    ensures
        match r {
            Some(s) => string_field_of(*entry, key@) == Some(s@),
            None => string_field_of(*entry, key@) is None,
        },
{
    match entry.get(key) {
        Some(serde_json::Value::String(s)) => Some(s.clone()),
        _ => None,
    }
}

/// The IEEE-754 bit pattern of the number stored under `key` when the value
/// is an object holding a number there, and `None` otherwise; a function of
/// the value and the key alone.
pub uninterp spec fn number_field_bits_of(entry: serde_json::Value, key: Seq<char>) -> Option<u64>;

/// Relies on serde_json's `Value::get` and `Value::as_f64`: yields the
/// IEEE-754 bit pattern of the number stored under `key` when `entry` is an
/// object holding a number there, and `None` otherwise.
#[verifier::external_body]
pub(crate) fn number_field_bits(entry: &serde_json::Value, key: &str) -> (r: Option<u64>)
    ensures
        r == number_field_bits_of(*entry, key@),
{
    entry.get(key).and_then(serde_json::Value::as_f64).map(|number| number.to_bits())
}

} // verus!
