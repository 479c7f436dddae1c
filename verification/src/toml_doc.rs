//! The TOML boundary: parsing TOML text into a [`Tree`] with `toml` leaves,
//! and rendering such a tree back to pretty-printed TOML text.  Both
//! directions go through trusted wrappers around the `toml` crate.
use crate::tree::{Tree, TreeModel};
use vstd::prelude::*;

verus! {

/// `toml::Value`, declared so it can stand in fields and signatures.
#[verifier::external_type_specification]
#[verifier::external_body]
pub struct ExTomlValue(toml::Value);

/// A TOML document as a structured tree with `toml` leaves.
pub type TomlTree = Tree<toml::Value>;

/// What parsing a TOML text yields, carried into the library's tree model:
/// `None` when the text is rejected, `Some(m)` for the document's model.
pub uninterp spec fn toml_parse_of(text: Seq<char>) -> Option<TreeModel<toml::Value>>;

/// What pretty-printing a table-rooted TOML tree yields.
pub uninterp spec fn toml_pretty_of(m: TreeModel<toml::Value>) -> Seq<char>;

/// Relies on `toml::from_str::<toml::Value>`: parses a TOML document (a
/// blank document is a valid empty table) and always yields a table at the
/// top level.  The outcome depends on the text alone, and table keys are
/// unique because `toml`'s map holds each key at most once.
#[verifier::external_body]
pub(crate) fn parse_toml(text: &str) -> (r: Option<TomlTree>)
    ensures
        match r {
            Some(v) => toml_parse_of(text@) == Some(v@) && v@.wf() && v@ is Obj,
            None => toml_parse_of(text@) == None::<TreeModel<toml::Value>>,
        },
{
    match toml::from_str::<toml::Value>(text) {
        Ok(v) => Some(tree_of_toml(v)),
        Err(_) => None,
    }
}

/// Relies on the shape of `toml::Value`: a table becomes a branch entry by
/// entry, in the map's own order; every other variant stays an opaque leaf.
/// Keys are unique at every level because `toml`'s map holds each key at
/// most once.
#[verifier::external_body]
fn tree_of_toml(v: toml::Value) -> (r: TomlTree)
    ensures
        r@.wf(),
{
    match v {
        toml::Value::Table(m) => Tree::Obj(
            m.into_iter().map(|(k, x)| (k, tree_of_toml(x))).collect(),
        ),
        other => Tree::Leaf(other),
    }
}

/// Relies on the shape of `toml::Value`: a branch becomes a table entry by
/// entry, every leaf is handed back as it is.
#[verifier::external_body]
fn toml_of_tree(v: TomlTree) -> toml::Value {
    match v {
        Tree::Obj(es) => toml::Value::Table(es.into_iter().map(|(k, t)| (k, toml_of_tree(t))).collect()),
        Tree::Leaf(l) => l,
    }
}

/// Relies on `toml::to_string_pretty`: pretty-prints a table-rooted value;
/// on a table of `toml::Value`s it does not fail (the serializer reorders
/// values ahead of sub-tables itself), and its output depends on the value
/// alone.
#[verifier::external_body]
pub(crate) fn render_toml(v: TomlTree) -> (r: String)
    requires
        v@ is Obj,
    ensures
        r@ == toml_pretty_of(v@),
{
    match toml::to_string_pretty(&toml_of_tree(v)) {
        Ok(s) => s,
        Err(_) => String::new(),
    }
}

} // verus!
