//! Reading one string out of a JSON text.
use vstd::prelude::*;

verus! {

/// What `serde_json` finds in a JSON text by following `keys` (object members, one
/// after the other) and reading a string there: `None` when the text is not JSON,
/// `Some(None)` when no string is at that place.
pub uninterp spec fn json_str_at(text: Seq<char>, keys: Seq<Seq<char>>) -> Option<Option<Seq<char>>>;

/// Parses `text` with `serde_json::from_str::<serde_json::Value>`, indexes the value by
/// each of `keys` in turn (`Value`'s `Index<&str>`, which gives `Null` for a missing
/// member or a non-object), and reads the result with `as_str`. Claimed: the result
/// depends on the text and the keys alone (it is named [`json_str_at`]).
#[verifier::external_body]
pub(crate) fn json_string_at(text: &str, keys: &Vec<String>) -> (res: Option<Option<String>>)
    ensures
        match res {
            None => json_str_at(text@, keys@.map_values(|k: String| k@)) is None,
            Some(None) => json_str_at(text@, keys@.map_values(|k: String| k@)) == Some(None::<Seq<char>>),
            Some(Some(s)) => json_str_at(text@, keys@.map_values(|k: String| k@)) == Some(Some(s@)),
        },
{
    let json: serde_json::Value = serde_json::from_str(text).ok()?;
    let mut v = &json;
    for k in keys {
        v = &v[k.as_str()];
    }
    Some(v.as_str().map(|s| s.to_string()))
}

} // verus!
