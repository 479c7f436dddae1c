//! The JSON boundary: parsing JSON-with-comments text into a [`Tree`] with
//! `serde_json` leaves, and rendering such a tree back to pretty-printed
//! JSON text.  Both directions go through trusted wrappers around the
//! `jsonc_parser` and `serde_json` crates.
use crate::tree::{Tree, TreeModel};
use vstd::prelude::*;

verus! {

/// `serde_json::Value`, declared so it can stand in fields and signatures.
#[verifier::external_type_specification]
#[verifier::external_body]
pub struct ExSerdeValue(serde_json::Value);

/// A JSON document as a structured tree with `serde_json` leaves.
pub type JsonTree = Tree<serde_json::Value>;

/// What parsing a JSON-with-comments text yields, carried into the
/// library's tree model: `None` when the text is rejected, `Some(None)`
/// when it holds no value at all (blank or comments only), `Some(Some(m))`
/// for the document's model.
pub uninterp spec fn jsonc_parse_of(text: Seq<char>) -> Option<
    Option<TreeModel<serde_json::Value>>,
>;

/// What pretty-printing a JSON tree yields.
pub uninterp spec fn json_pretty_of(m: TreeModel<serde_json::Value>) -> Seq<char>;

/// The three outcomes of parsing a JSON-with-comments text.
pub enum JsonParse {
    /// A parsed document.
    Doc(JsonTree),
    /// The text held no value at all (blank or comments only).
    Blank,
    /// The text was rejected by the parser.
    Bad,
}

/// Relies on `jsonc_parser::parse_to_serde_value` (default options): parses
/// JSON tolerating `//` and `/* */` comments and trailing commas, returns
/// `Ok(None)` for a text with no value and `Err` for malformed text.  The
/// outcome depends on the text alone, and object keys are unique because
/// `serde_json`'s map holds each key at most once.
#[verifier::external_body]
pub(crate) fn parse_jsonc(text: &str) -> (r: JsonParse)
    ensures
        match r {
            JsonParse::Doc(v) => jsonc_parse_of(text@) == Some(Some(v@)) && v@.wf(),
            JsonParse::Blank => jsonc_parse_of(text@) == Some(
                None::<TreeModel<serde_json::Value>>,
            ),
            JsonParse::Bad => jsonc_parse_of(text@) == None::<
                Option<TreeModel<serde_json::Value>>,
            >,
        },
{
    match jsonc_parser::parse_to_serde_value(text, &jsonc_parser::ParseOptions::default()) {
        Ok(Some(v)) => JsonParse::Doc(tree_of_serde(v)),
        Ok(None) => JsonParse::Blank,
        Err(_) => JsonParse::Bad,
    }
}

/// Relies on the shape of `serde_json::Value`: an object becomes a branch
/// entry by entry, in the map's own order; every other variant stays an
/// opaque leaf.  Keys are unique at every level because `serde_json`'s map
/// holds each key at most once.
#[verifier::external_body]
fn tree_of_serde(v: serde_json::Value) -> (r: JsonTree)
    ensures
        r@.wf(),
{
    match v {
        serde_json::Value::Object(m) => Tree::Obj(
            m.into_iter().map(|(k, x)| (k, tree_of_serde(x))).collect(),
        ),
        other => Tree::Leaf(other),
    }
}

/// Relies on the shape of `serde_json::Value`: a branch becomes an object
/// entry by entry, every leaf is handed back as it is.
#[verifier::external_body]
fn serde_of_tree(v: JsonTree) -> serde_json::Value {
    match v {
        Tree::Obj(es) => serde_json::Value::Object(
            es.into_iter().map(|(k, t)| (k, serde_of_tree(t))).collect(),
        ),
        Tree::Leaf(l) => l,
    }
}

/// Relies on `serde_json::to_string_pretty`: pretty-prints with two-space
/// indentation; on a `serde_json::Value` (string keys, no non-finite
/// numbers) it does not fail, and its output depends on the value alone.
#[verifier::external_body]
pub(crate) fn render_json(v: JsonTree) -> (r: String)
    ensures
        r@ == json_pretty_of(v@),
{
    match serde_json::to_string_pretty(&serde_of_tree(v)) {
        Ok(s) => s,
        Err(_) => String::new(),
    }
}

} // verus!
