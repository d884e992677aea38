//! The path filter of the output boundary: evaluates an optional
//! structured-query-path expression against a JSON value and shapes the
//! result — no match yields nothing, a single match is unwrapped, several
//! matches become an ordered array.

use vstd::prelude::*;

verus! {

/// Declares serde_json's value type so that it can cross the trusted
/// boundary; the engine carries such values through opaquely.
#[verifier::external_type_specification]
#[verifier::external_body]
pub struct ExJsonValue(serde_json::Value);

/// Declares serde_json_path's parsed query type.
#[verifier::external_type_specification]
#[verifier::external_body]
pub struct ExJsonPath(serde_json_path::JsonPath);

/// The nodes of `doc` that the path expression matches, in document order.
/// The evaluation depends on the expression and the document alone, so the
/// result bears a name rather than a definition.
pub uninterp spec fn path_nodes(path: serde_json_path::JsonPath, doc: serde_json::Value) -> Seq<
    serde_json::Value,
>;

/// A JSON array holding exactly the given elements, in order.
pub uninterp spec fn json_array(elems: Seq<serde_json::Value>) -> serde_json::Value;

/// Relies on serde_json_path's `JsonPath::query` and `NodeList::all`: the
/// nodes of `payload` that the path expression matches, in document order,
/// cloned into owned values.
#[verifier::external_body]
fn query_all(path: &serde_json_path::JsonPath, payload: &serde_json::Value) -> (r: Vec<
    serde_json::Value,
>)
    ensures
        r@ == path_nodes(*path, *payload),
{
    path.query(payload).all().into_iter().cloned().collect()
}

/// Relies on serde_json's `Value::clone`: the clone is the same JSON value.
#[verifier::external_body]
fn clone_value(v: &serde_json::Value) -> (r: serde_json::Value)
    ensures
        r == *v,
{
    v.clone()
}

/// Relies on serde_json's `Value::Array` constructor: wraps the elements,
/// unchanged and in order, into an array value.
#[verifier::external_body]
fn array_value(elems: Vec<serde_json::Value>) -> (r: serde_json::Value)
    ensures
        r == json_array(elems@),
{
    serde_json::Value::Array(elems)
}

/// The shape of a path-filter result: no matched node, exactly one (to be
/// unwrapped), or several (to be emitted as an ordered array). The
/// asymmetry between the last two determines the shape of emitted output
/// records and must be preserved exactly.
pub enum MatchShape {
    NoMatch,
    One(serde_json::Value),
    Many(Vec<serde_json::Value>),
}

/// The path-filter shape law: a match list of zero nodes yields no output,
/// exactly one node yields that node unwrapped, and more than one node
/// yields all the nodes, in order.
pub fn shape_matches(matches: Vec<serde_json::Value>) -> (r: MatchShape)
    ensures
        matches@.len() == 0 ==> r is NoMatch,
        matches@.len() == 1 ==> r == MatchShape::One(matches@[0]),
        matches@.len() > 1 ==> r == MatchShape::Many(matches),
{
    if matches.len() == 0 {
        MatchShape::NoMatch
    } else if matches.len() == 1 {
        let mut m = matches;
        match m.pop() {
            Some(v) => MatchShape::One(v),
            None => MatchShape::NoMatch,
        }
    } else {
        MatchShape::Many(matches)
    }
}

/// Evaluates an optional path expression against a value. Without an
/// expression the whole value is returned. With one, the matched nodes are
/// shaped by the shape law: none yields `None`, a single node is unwrapped,
/// several become an array.
pub fn json_match(json_path: Option<&serde_json_path::JsonPath>, payload: &serde_json::Value) -> (r:
    Option<serde_json::Value>)
    ensures
        json_path is None ==> (r matches Some(v) && v == *payload),
        json_path matches Some(p) ==> {
            &&& (path_nodes(*p, *payload).len() == 0 ==> r is None)
            &&& (path_nodes(*p, *payload).len() == 1 ==> r == Some(path_nodes(*p, *payload)[0]))
            &&& (path_nodes(*p, *payload).len() > 1 ==> r == Some(
                json_array(path_nodes(*p, *payload)),
            ))
        },
{
    match json_path {
        Some(path) => {
            let values = query_all(path, payload);
            match shape_matches(values) {
                MatchShape::NoMatch => None,
                MatchShape::One(v) => Some(v),
                MatchShape::Many(vs) => Some(array_value(vs)),
            }
        },
        None => Some(clone_value(payload)),
    }
}

} // verus!
