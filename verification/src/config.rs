//! Configuration values and the format-directed operations on them:
//! parser dispatch, same-variant merge, and serialization.
use crate::json;
use crate::json::JsonTree;
use crate::toml_doc;
use crate::toml_doc::TomlTree;
use crate::tree::{merge_model, TreeModel};
use vstd::prelude::*;
use vstd::string::StringExecFns;

verus! {

/// One configuration artifact: a parsed fragment or a merge in progress.
#[derive(Debug)]
pub enum ConfigValue {
    /// A structured JSON document.
    Json(JsonTree),
    /// A structured TOML document.
    Toml(TomlTree),
    /// Plain text, kept verbatim.
    Text(String),
    /// The zero value: the seed of every per-target fold.
    Empty,
}

/// The mathematical shape of a [`ConfigValue`].
pub enum ConfigModel {
    Json(TreeModel<serde_json::Value>),
    Toml(TreeModel<toml::Value>),
    Text(Seq<char>),
    Empty,
}

impl View for ConfigValue {
    type V = ConfigModel;

    open spec fn view(&self) -> ConfigModel {
        match *self {
            ConfigValue::Json(ref t) => ConfigModel::Json(t.model()),
            ConfigValue::Toml(ref t) => ConfigModel::Toml(t.model()),
            ConfigValue::Text(ref s) => ConfigModel::Text(s@),
            ConfigValue::Empty => ConfigModel::Empty,
        }
    }
}

impl Default for ConfigValue {
    /// The default value is the merge seed.
    fn default() -> (r: Self)
        ensures
            r@ == ConfigModel::Empty,
    {
        ConfigValue::Empty
    }
}

/// Why processing one target failed.
#[derive(Debug, Clone, Copy, PartialEq, Eq, Structural)]
pub enum PatchError {
    /// A structured document was parsed from blank or comment-only input.
    EmptyDocument,
    /// A structured document was rejected by its parser.
    MalformedDocument,
    /// The target's extension names no supported format.
    UnsupportedFormat,
    /// Two values of different variants met in one merge.
    IncompatibleTypes,
    /// The patch directory does not lie under the configured source root.
    StripPrefixFailure,
}

impl ConfigModel {
    /// The data-model invariant: a structured document's tables form
    /// ordered sets of key/value pairs at every level.
    pub open spec fn wf(self) -> bool {
        match self {
            ConfigModel::Json(t) => t.wf(),
            ConfigModel::Toml(t) => t.wf(),
            ConfigModel::Text(_) => true,
            ConfigModel::Empty => true,
        }
    }
}

/// The view of an optional format tag.
pub open spec fn format_view(f: Option<String>) -> Option<Seq<char>> {
    match f {
        Some(tag) => Some(tag@),
        None => None,
    }
}

/// What parsing a text under a format tag yields.  A missing tag and the
/// `text` tag keep the text verbatim; `json` and `toml` go through their
/// parsers; any other tag is unsupported.  A structured document with no
/// value at all is an error — a blank fragment must not silently vanish
/// into the merge.
pub open spec fn spec_dispatch(format: Option<Seq<char>>, text: Seq<char>) -> Result<
    ConfigModel,
    PatchError,
> {
    match format {
        Option::None => Ok(ConfigModel::Text(text)),
        Option::Some(tag) => if tag == "json"@ {
            match json::jsonc_parse_of(text) {
                Option::None => Err(PatchError::MalformedDocument),
                Option::Some(Option::None) => Err(PatchError::EmptyDocument),
                Option::Some(Option::Some(m)) => Ok(ConfigModel::Json(m)),
            }
        } else if tag == "toml"@ {
            match toml_doc::toml_parse_of(text) {
                Option::None => Err(PatchError::MalformedDocument),
                Option::Some(m) => Ok(ConfigModel::Toml(m)),
            }
        } else if tag == "text"@ {
            Ok(ConfigModel::Text(text))
        } else {
            Err(PatchError::UnsupportedFormat)
        },
    }
}

/// The merge of two configuration models.  `Empty` on the left is the
/// identity; two values of the same structured variant merge recursively;
/// two texts concatenate with a single newline between them; everything
/// else is a variant mismatch.
pub open spec fn spec_merge(a: ConfigModel, b: ConfigModel) -> Result<ConfigModel, PatchError> {
    match (a, b) {
        (ConfigModel::Empty, other) => Ok(other),
        (ConfigModel::Json(x), ConfigModel::Json(y)) => Ok(ConfigModel::Json(merge_model(x, y))),
        (ConfigModel::Toml(x), ConfigModel::Toml(y)) => Ok(ConfigModel::Toml(merge_model(x, y))),
        (ConfigModel::Text(x), ConfigModel::Text(y)) => Ok(
            ConfigModel::Text(x + seq!['\n'] + y),
        ),
        _ => Err(PatchError::IncompatibleTypes),
    }
}

/// What serializing a model yields: structured documents pretty-print,
/// text is kept verbatim, the empty value renders as the empty text.
pub open spec fn spec_render(m: ConfigModel) -> Seq<char> {
    match m {
        ConfigModel::Json(t) => json::json_pretty_of(t),
        ConfigModel::Toml(t) => toml_doc::toml_pretty_of(t),
        ConfigModel::Text(s) => s,
        ConfigModel::Empty => Seq::empty(),
    }
}

/// A value the serializer accepts: a TOML artifact must be a table at the
/// top level (parsing and merging only ever produce tables there).
pub open spec fn renderable(m: ConfigModel) -> bool {
    m is Toml ==> m->Toml_0 is Obj
}

impl ConfigValue {
    /// Parses `text` as the format tagged `format` (derived from the
    /// target's extension; `None` for an extension-less target).
    pub fn parse_dispatch(format: &Option<String>, text: String) -> (r: Result<
        ConfigValue,
        PatchError,
    >)
        ensures
            match r {
                Ok(v) => spec_dispatch(format_view(*format), text@) == Ok::<
                    ConfigModel,
                    PatchError,
                >(v@) && renderable(v@) && v@.wf(),
                Err(e) => spec_dispatch(format_view(*format), text@) == Err::<
                    ConfigModel,
                    PatchError,
                >(e),
            },
    {
        match format {
            Option::None => Ok(ConfigValue::Text(text)),
            Option::Some(tag) => {
                if *tag == "json".to_owned() {
                    match json::parse_jsonc(text.as_str()) {
                        json::JsonParse::Doc(v) => Ok(ConfigValue::Json(v)),
                        json::JsonParse::Blank => Err(PatchError::EmptyDocument),
                        json::JsonParse::Bad => Err(PatchError::MalformedDocument),
                    }
                } else if *tag == "toml".to_owned() {
                    match toml_doc::parse_toml(text.as_str()) {
                        Option::Some(v) => Ok(ConfigValue::Toml(v)),
                        Option::None => Err(PatchError::MalformedDocument),
                    }
                } else if *tag == "text".to_owned() {
                    Ok(ConfigValue::Text(text))
                } else {
                    Err(PatchError::UnsupportedFormat)
                }
            },
        }
    }

    /// Merges `other` into `self` when the variants allow it.
    pub fn try_merge(self, other: ConfigValue) -> (r: Result<ConfigValue, PatchError>)
        ensures
            match r {
                Ok(v) => spec_merge(self@, other@) == Ok::<ConfigModel, PatchError>(v@),
                Err(e) => spec_merge(self@, other@) == Err::<ConfigModel, PatchError>(e),
            },
            r matches Ok(v) ==> (renderable(self@) && renderable(other@) ==> renderable(v@)),
            r matches Ok(v) ==> (self@.wf() && other@.wf() ==> v@.wf()),
    {
        match (self, other) {
            (ConfigValue::Empty, o) => Ok(o),
            (ConfigValue::Json(a), ConfigValue::Json(b)) => {
                proof {
                    if a@.wf() && b@.wf() {
                        crate::tree::lemma_merge_wf(a@, b@);
                    }
                }
                Ok(ConfigValue::Json(a.merge(b)))
            },
            (ConfigValue::Toml(a), ConfigValue::Toml(b)) => {
                proof {
                    if a@.wf() && b@.wf() {
                        crate::tree::lemma_merge_wf(a@, b@);
                    }
                }
                Ok(ConfigValue::Toml(a.merge(b)))
            },
            (ConfigValue::Text(a), ConfigValue::Text(b)) => {
                let mut s = a;
                s.append("\n");
                s.append(b.as_str());
                proof {
                    reveal_strlit("\n");
                    assert("\n"@ =~= seq!['\n']);
                }
                Ok(ConfigValue::Text(s))
            },
            _ => Err(PatchError::IncompatibleTypes),
        }
    }

    /// Serializes the merged artifact to the text written back to the
    /// target file.
    pub fn render(self) -> (r: String)
        requires
            renderable(self@),
        ensures
            r@ == spec_render(self@),
    {
        match self {
            ConfigValue::Json(t) => json::render_json(t),
            ConfigValue::Toml(t) => toml_doc::render_toml(t),
            ConfigValue::Text(s) => s,
            ConfigValue::Empty => String::new(),
        }
    }
}

/// Law: `Empty` is the left identity of the merge — merging `Empty` with
/// any value yields that value unchanged, for every variant.
pub proof fn lemma_empty_left_identity(v: ConfigModel)
    ensures
        spec_merge(ConfigModel::Empty, v) == Ok::<ConfigModel, PatchError>(v),
{
}

} // verus!
