//! Reading one string out of a JSON document, by a path of object keys and
//! array indices, as `serde_json`'s `Value` indexing does it.

use vstd::prelude::*;

verus! {

/// One step of a path into a JSON document.
pub enum JsonStep {
    /// The member of an object with this key.
    Key(String),
    /// The element of an array at this index.
    Index(usize),
}

/// One step of a path into a JSON document, as a value.
pub enum JsonStepView {
    Key(Seq<char>),
    Index(usize),
}

impl View for JsonStep {
    type V = JsonStepView;

    open spec fn view(&self) -> JsonStepView {
        match self {
            JsonStep::Key(k) => JsonStepView::Key(k@),
            JsonStep::Index(i) => JsonStepView::Index(*i),
        }
    }
}

/// The value of a path.
pub open spec fn steps_view(path: Seq<JsonStep>) -> Seq<JsonStepView> {
    path.map_values(|s: JsonStep| s@)
}

/// The value of an optional string.
pub open spec fn text_view(o: Option<String>) -> Option<Seq<char>> {
    match o {
        Some(s) => Some(s@),
        None => None,
    }
}

/// The string that `json` holds at `path`: none when `json` is not a JSON
/// document, when a step finds no such key or index, or when the value
/// reached is not a string.
pub uninterp spec fn json_str_at(json: Seq<char>, path: Seq<JsonStepView>) -> Option<Seq<char>>;

/// `serde_json::from_str` into a `Value`, indexed by each step of `path`
/// (`Value`'s `Index` by key or by position, which gives `Null` where the
/// step finds nothing), then `Value::as_str`. Claimed: the result depends on
/// the document and the path alone. What it is on given inputs is not stated.
#[verifier::external_body]
pub(crate) fn json_str_at_exec(json: &str, path: &[JsonStep]) -> (r: Option<String>)
    ensures
        text_view(r) == json_str_at(json@, steps_view(path@)),
{
    let doc: serde_json::Value = match serde_json::from_str(json) {
        Ok(v) => v,
        Err(_) => return None,
    };
    let mut at = &doc;
    for step in path {
        at = match step {
            JsonStep::Key(k) => &at[k.as_str()],
            JsonStep::Index(i) => &at[*i],
        };
    }
    at.as_str().map(|s| s.to_string())
}

} // verus!
