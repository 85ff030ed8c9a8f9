//! Trusted access to structured documents: serde_json values, the yaml
//! front end, and path queries.  A document value is opaque here, so what
//! each call returns is given a name: every read is a function of the
//! value and the key or path alone (serde_json's maps are ordered, and
//! values are compared by their content), and the verified extraction
//! logic is stated over those names.

use vstd::prelude::*;

verus! {

#[verifier::external_type_specification]
#[verifier::external_body]
pub struct ExJsonValue(serde_json::Value);

#[verifier::external_type_specification]
#[verifier::external_body]
pub struct ExYamlValue(serde_yaml::Value);

/// What `jsonpath_lib::select` returns for a document and a path: the
/// matched values, in the evaluator's fixed walk order.
pub uninterp spec fn selected_of(doc: serde_json::Value, path: Seq<char>) -> Seq<
    serde_json::Value,
>;

/// What serde_json's `Index` returns for a value and a key: the named
/// member of an object, `Null` otherwise.
pub uninterp spec fn json_member_of(v: serde_json::Value, key: Seq<char>) -> serde_json::Value;

/// What `Value::as_str` returns: the characters of a string value, `None`
/// for any other value.
pub uninterp spec fn json_str_of(v: serde_json::Value) -> Option<Seq<char>>;

/// What `Value::as_array` returns: the elements of an array value, `None`
/// for any other value.
pub uninterp spec fn json_array_of(v: serde_json::Value) -> Option<Seq<serde_json::Value>>;

/// What `serde_yaml::from_str` parses a text to, if anything.
pub uninterp spec fn yaml_value_of(text: Seq<char>) -> Option<serde_yaml::Value>;

/// What `serde_json::to_value` carries a yaml value over to, if anything.
pub uninterp spec fn json_of_yaml(y: serde_yaml::Value) -> Option<serde_json::Value>;

/// The path query selecting every record of one kind in one namespace.
pub open spec fn selection_query(kind: Seq<char>, namespace: Seq<char>) -> Seq<char> {
    "$..[?(@.kind == '"@ + kind + "' && @.metadata.namespace == '"@ + namespace + "')]"@
}

/// The path queries this library runs: the fixed namespace query, or a
/// selection query whose interpolated names hold no quote or backslash.
/// Those two shapes parse to a plain descent or a two-term equality
/// filter, which jsonpath_lib's evaluator handles completely; a quote or
/// backslash could break the query's string literals open and reach the
/// evaluator's unfinished filter forms, which abort.
pub open spec fn safe_query(path: Seq<char>) -> bool {
    ||| path == "$..metadata.namespace"@
    ||| exists|kind: Seq<char>, namespace: Seq<char>|
        #![trigger selection_query(kind, namespace)]
        {
            &&& !kind.contains('\'')
            &&& !kind.contains('\\')
            &&& !namespace.contains('\'')
            &&& !namespace.contains('\\')
            &&& path == selection_query(kind, namespace)
        }
}

/// Relies on serde_json's `Index` for `Value`: `v[key]` is the named member
/// of an object, and `Null` for a missing key or a non-object; it never
/// panics.
#[verifier::external_body]
pub(crate) fn json_get<'a>(v: &'a serde_json::Value, key: &str) -> (r: &'a serde_json::Value)
    ensures
        *r == json_member_of(*v, key@),
{
    &v[key]
}

/// Relies on `serde_json::Value::as_str`: the characters of a string value,
/// `None` for any other value.
#[verifier::external_body]
pub(crate) fn json_as_str(v: &serde_json::Value) -> (r: Option<String>)
    ensures
        match r {
            Some(s) => json_str_of(*v) == Some(s@),
            None => json_str_of(*v) is None,
        },
{
    v.as_str().map(String::from)
}

/// Relies on `serde_json::Value::as_array`: the elements of an array value,
/// `None` for any other value.
#[verifier::external_body]
pub(crate) fn json_as_array<'a>(v: &'a serde_json::Value) -> (r: Option<&'a Vec<serde_json::Value>>)
    ensures
        match r {
            Some(a) => json_array_of(*v) == Some(a@),
            None => json_array_of(*v) is None,
        },
{
    v.as_array()
}

/// Relies on `jsonpath_lib::select`: every value the path query matches, or
/// the query error's text.  Matches come back as owned copies of the same
/// content.  Only this library's own query shapes are admitted, since the
/// evaluator aborts on filter forms it has not finished (see `safe_query`).
#[verifier::external_body]
pub(crate) fn json_select(v: &serde_json::Value, path: &str) -> (r: Result<
    Vec<serde_json::Value>,
    String,
>)
    requires
        safe_query(path@),
    ensures
        r matches Ok(vs) ==> vs@ == selected_of(*v, path@),
{
    match jsonpath_lib::select(v, path) {
        Ok(found) => Ok(found.into_iter().cloned().collect()),
        Err(e) => Err(format!("{e}")),
    }
}

/// Relies on `serde_yaml::from_str`: the parsed document, or `None` for
/// text that is not yaml.
#[verifier::external_body]
pub(crate) fn yaml_from_str(text: &str) -> (r: Option<serde_yaml::Value>)
    ensures
        r == yaml_value_of(text@),
{
    serde_yaml::from_str::<serde_yaml::Value>(text).ok()
}

/// Relies on `serde_json::to_value`: the same structured document carried
/// over into a json value, or `None` where json cannot hold it.
#[verifier::external_body]
pub(crate) fn yaml_to_json(y: serde_yaml::Value) -> (r: Option<serde_json::Value>)
    ensures
        r == json_of_yaml(y),
{
    serde_json::to_value(y).ok()
}

/// Parses a cluster-description document: yaml text in, a json value out.
/// Text that is not yaml, or that does not carry over, gives `None`; the
/// static source treats that as a fatal startup error.
pub fn parse_topology_document(text: &str) -> (r: Option<serde_json::Value>)
    ensures
        r == match yaml_value_of(text@) {
            Some(y) => json_of_yaml(y),
            None => None::<serde_json::Value>,
        },
{
    match yaml_from_str(text) {
        Some(y) => yaml_to_json(y),
        None => None,
    }
}

} // verus!
