//! Direct exercises of the configuration values: dispatch, merge, render,
//! the merge laws on concrete inputs, and every error variant.
use dotpatch::config::{ConfigValue, PatchError};
use dotpatch::tree::Tree;

fn parse(format: &str, text: &str) -> Result<ConfigValue, PatchError> {
    ConfigValue::parse_dispatch(&Some(format.to_string()), text.to_string())
}

#[test]
fn text_merge_is_not_commutative() {
    let a = ConfigValue::Text("hello".to_string());
    let b = ConfigValue::Text("world".to_string());
    let ab = a.try_merge(b).unwrap().render();
    let a2 = ConfigValue::Text("hello".to_string());
    let b2 = ConfigValue::Text("world".to_string());
    let ba = b2.try_merge(a2).unwrap().render();
    assert_eq!(ab, "hello\nworld");
    assert_eq!(ba, "world\nhello");
    assert_ne!(ab, ba);
}

#[test]
fn json_merge_is_not_commutative() {
    let ab = parse("json", "{\"k\": 1}")
        .unwrap()
        .try_merge(parse("json", "{\"k\": 2}").unwrap())
        .unwrap()
        .render();
    let ba = parse("json", "{\"k\": 2}")
        .unwrap()
        .try_merge(parse("json", "{\"k\": 1}").unwrap())
        .unwrap()
        .render();
    let ab: serde_json::Value = serde_json::from_str(&ab).unwrap();
    let ba: serde_json::Value = serde_json::from_str(&ba).unwrap();
    assert_eq!(ab["k"], 2);
    assert_eq!(ba["k"], 1);
}

#[test]
fn fold_is_left_associative_on_values() {
    let texts = ["{\"a\":1}", "{\"b\":2,\"a\":3}", "{\"c\":4}"];
    // All three folded in one pass.
    let mut acc = ConfigValue::Empty;
    for t in texts.iter() {
        acc = acc.try_merge(parse("json", t).unwrap()).unwrap();
    }
    let in_one_pass = acc.render();
    // The first two folded, then the third merged on top.
    let mut acc = ConfigValue::Empty;
    for t in texts[..2].iter() {
        acc = acc.try_merge(parse("json", t).unwrap()).unwrap();
    }
    let two_then_one = acc
        .try_merge(parse("json", texts[2]).unwrap())
        .unwrap()
        .render();
    assert_eq!(in_one_pass, two_then_one);
    let v: serde_json::Value = serde_json::from_str(&in_one_pass).unwrap();
    assert_eq!(v["a"], 3);
    assert_eq!(v["b"], 2);
    assert_eq!(v["c"], 4);
}

#[test]
fn empty_is_left_identity_for_every_variant() {
    let json = parse("json", "{\"a\": 1}").unwrap();
    let expected = parse("json", "{\"a\": 1}").unwrap().render();
    assert_eq!(
        ConfigValue::Empty.try_merge(json).unwrap().render(),
        expected
    );

    let toml = parse("toml", "a = 1\n").unwrap();
    let expected = parse("toml", "a = 1\n").unwrap().render();
    assert_eq!(
        ConfigValue::Empty.try_merge(toml).unwrap().render(),
        expected
    );

    let text = ConfigValue::Text("verbatim".to_string());
    assert_eq!(
        ConfigValue::Empty.try_merge(text).unwrap().render(),
        "verbatim"
    );

    let empty = ConfigValue::Empty;
    assert_eq!(ConfigValue::Empty.try_merge(empty).unwrap().render(), "");
}

#[test]
fn json_render_reparse_round_trip() {
    let source = "{\"s\":\"x\",\"n\":7,\"b\":true,\"z\":null,\"arr\":[1,2],\"o\":{\"i\":3}}";
    let first = parse("json", source).unwrap().render();
    let second = parse("json", first.as_str()).unwrap().render();
    assert_eq!(first, second);
    let a: serde_json::Value = serde_json::from_str(source).unwrap();
    let b: serde_json::Value = serde_json::from_str(&second).unwrap();
    assert_eq!(a, b);
}

#[test]
fn null_replaces_and_stays() {
    let merged = parse("json", "{\"k\": 1}")
        .unwrap()
        .try_merge(parse("json", "{\"k\": null}").unwrap())
        .unwrap()
        .render();
    let v: serde_json::Value = serde_json::from_str(&merged).unwrap();
    assert!(v.get("k").is_some());
    assert!(v["k"].is_null());
}

#[test]
fn arrays_replace_wholesale() {
    let merged = parse("json", "{\"k\": [1, 2, 3]}")
        .unwrap()
        .try_merge(parse("json", "{\"k\": [9]}").unwrap())
        .unwrap()
        .render();
    let v: serde_json::Value = serde_json::from_str(&merged).unwrap();
    assert_eq!(v["k"], serde_json::Value::from(vec![9]));
}

#[test]
fn blank_json_is_an_empty_document_error() {
    assert_eq!(parse("json", "").unwrap_err(), PatchError::EmptyDocument);
    assert_eq!(
        parse("json", "  // only a comment\n").unwrap_err(),
        PatchError::EmptyDocument
    );
}

#[test]
fn blank_toml_is_an_empty_table() {
    let rendered = parse("toml", "").unwrap().render();
    assert_eq!(rendered, "");
}

#[test]
fn malformed_documents_are_rejected() {
    assert_eq!(
        parse("json", "{\"unclosed\": ").unwrap_err(),
        PatchError::MalformedDocument
    );
    assert_eq!(
        parse("toml", "= broken\n").unwrap_err(),
        PatchError::MalformedDocument
    );
}

#[test]
fn unknown_tags_are_unsupported() {
    assert_eq!(
        parse("yaml", "a: 1\n").unwrap_err(),
        PatchError::UnsupportedFormat
    );
}

#[test]
fn text_tag_and_no_tag_keep_text_verbatim() {
    assert_eq!(parse("text", "raw // text").unwrap().render(), "raw // text");
    let none: Option<String> = None;
    assert_eq!(
        ConfigValue::parse_dispatch(&none, "raw".to_string())
            .unwrap()
            .render(),
        "raw"
    );
}

#[test]
fn cross_variant_merges_are_incompatible() {
    let json = parse("json", "{\"a\": 1}").unwrap();
    let text = ConfigValue::Text("t".to_string());
    assert_eq!(
        json.try_merge(text).unwrap_err(),
        PatchError::IncompatibleTypes
    );

    let toml = parse("toml", "a = 1\n").unwrap();
    let json = parse("json", "{\"a\": 1}").unwrap();
    assert_eq!(
        toml.try_merge(json).unwrap_err(),
        PatchError::IncompatibleTypes
    );

    // `Empty` is only a left identity: it does not absorb on the right.
    let text = ConfigValue::Text("t".to_string());
    assert_eq!(
        text.try_merge(ConfigValue::Empty).unwrap_err(),
        PatchError::IncompatibleTypes
    );
}

#[test]
fn trees_can_be_built_and_merged_directly() {
    let left: Tree<serde_json::Value> = Tree::Obj(vec![
        ("a".to_string(), Tree::Leaf(serde_json::Value::from(1))),
        (
            "nested".to_string(),
            Tree::Obj(vec![(
                "x".to_string(),
                Tree::Leaf(serde_json::Value::from(1)),
            )]),
        ),
    ]);
    let right: Tree<serde_json::Value> = Tree::Obj(vec![
        ("b".to_string(), Tree::Leaf(serde_json::Value::from(2))),
        (
            "nested".to_string(),
            Tree::Obj(vec![(
                "y".to_string(),
                Tree::Leaf(serde_json::Value::from(2)),
            )]),
        ),
    ]);
    let rendered = ConfigValue::Json(left.merge(right)).render();
    let v: serde_json::Value = serde_json::from_str(&rendered).unwrap();
    assert_eq!(v["a"], 1);
    assert_eq!(v["b"], 2);
    assert_eq!(v["nested"]["x"], 1);
    assert_eq!(v["nested"]["y"], 2);
}
