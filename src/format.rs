//! Re-formatting JSON text.

use vstd::prelude::*;

verus! {

/// Whether serde_json reads some text as a JSON value.
pub uninterp spec fn json_parses(s: Seq<char>) -> bool;

/// The indented text serde_json writes for the value some JSON text holds.
pub uninterp spec fn json_pretty_of(s: Seq<char>) -> Seq<char>;

/// Relies on `serde_json::from_str::<serde_json::Value>` and then
/// `serde_json::to_string_pretty` on that value: the outcome depends on the text
/// alone; printing a `Value` cannot fail, its map keys being strings; on a parse
/// failure, the error's description.
#[verifier::external_body]
fn parse_and_indent(s: &str) -> (r: Result<String, String>)
    ensures
        r is Ok <==> json_parses(s@),
        r matches Ok(t) ==> t@ == json_pretty_of(s@),
{
    match serde_json::from_str::<serde_json::Value>(s) {
        Ok(v) => serde_json::to_string_pretty(&v).map_err(|e| format!("{e:?}")),
        Err(e) => Err(format!("{e:?}")),
    }
}

/// The JSON text indented, or the error's description when it is not JSON.
pub fn json_format(input: &str) -> (r: Result<String, String>)
    ensures
        r is Ok <==> json_parses(input@),
        r matches Ok(t) ==> t@ == json_pretty_of(input@),
{
    parse_and_indent(input)
}

} // verus!
