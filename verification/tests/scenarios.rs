//! End-to-end scenarios through the per-target pipeline: each test plays
//! one patch directory, from its name to the text written back.
use dotpatch::paths::{canonicalize, detect, replace_prefix};
use dotpatch::pipeline::assemble_target;

/// Runs one target: computes the target name and format tag from the patch
/// directory path, then assembles the fragments over the existing content.
fn run_target(
    directory: &str,
    existing: &str,
    fragments: &[(&str, &str)],
) -> (String, Result<String, dotpatch::config::PatchError>) {
    let target = canonicalize(directory);
    let format = detect(target.as_str());
    let frags: Vec<(String, String)> = fragments
        .iter()
        .map(|(n, c)| (n.to_string(), c.to_string()))
        .collect();
    let out = assemble_target(&format, &existing.to_string(), frags);
    (target, out)
}

#[test]
fn plain_text_test() {
    let (target, out) = run_target("dot-foo.d", "", &[("000", "hello"), ("001", "world")]);
    assert_eq!(target, ".foo");
    let result = out.unwrap();
    assert!(result.contains("hello"));
    assert!(result.contains("world"));
    assert_eq!(result, "hello\nworld");
}

#[test]
fn json_test() {
    let (target, out) = run_target(
        "dot-bar.json.d",
        "",
        &[("000", r#"{"foo": "bar"}"#), ("001", r#"{"baz": "qux"}"#)],
    );
    assert_eq!(target, ".bar.json");
    let result: serde_json::Value = serde_json::from_str(&out.unwrap()).unwrap();
    assert_eq!(result["foo"], "bar");
    assert_eq!(result["baz"], "qux");
}

#[test]
fn json_merge_test() {
    let (target, out) = run_target(
        "dot-baz.json.d",
        "",
        &[
            ("000", r#"{"a":1,"nested":{"x":1}}"#),
            ("001", r#"{"b":2,"nested":{"y":2}}"#),
        ],
    );
    assert_eq!(target, ".baz.json");
    let result: serde_json::Value = serde_json::from_str(&out.unwrap()).unwrap();
    assert_eq!(result["a"], 1);
    assert_eq!(result["b"], 2);
    assert_eq!(result["nested"]["x"], 1);
    assert_eq!(result["nested"]["y"], 2);
}

#[test]
fn jsonc_test() {
    let (target, out) = run_target(
        "dot-jsonc.json.d",
        "",
        &[
            ("000", "{\n  // line comment\n  \"foo\": 1,\n}\n"),
            ("001", "{\n  /* block comment */\n  \"bar\": 2\n}\n"),
        ],
    );
    assert_eq!(target, ".jsonc.json");
    let result: serde_json::Value = serde_json::from_str(&out.unwrap()).unwrap();
    assert_eq!(result["foo"], 1);
    assert_eq!(result["bar"], 2);
}

#[test]
fn toml_test() {
    let (target, out) = run_target(
        "dot-toml.toml.d",
        "",
        &[
            ("000.toml", "foo = \"bar\"\n[nested]\nx = 1\n"),
            ("001.toml", "baz = \"qux\"\n[nested]\ny = 2\n"),
        ],
    );
    assert_eq!(target, ".toml.toml");
    let result: toml::Value = toml::from_str(&out.unwrap()).unwrap();
    assert_eq!(result["foo"].as_str().unwrap(), "bar");
    assert_eq!(result["baz"].as_str().unwrap(), "qux");
    assert_eq!(result["nested"]["x"].as_integer().unwrap(), 1);
    assert_eq!(result["nested"]["y"].as_integer().unwrap(), 2);
}

#[test]
fn ignore_test() {
    let (target, out) = run_target(
        "dot-ignore.d",
        "",
        &[
            ("000", "keep-this"),
            ("AGENTS.md", "secret"),
            ("README.md", "topline"),
        ],
    );
    assert_eq!(target, ".ignore");
    let result = out.unwrap();
    assert!(result.contains("keep-this"));
    assert!(!result.contains("secret"));
    assert!(!result.contains("topline"));
}

#[test]
fn existing_content_seeds_the_fold() {
    let existing = "{\"keep\": true, \"level\": 1}";
    let (_, out) = run_target("dot-seed.json.d", existing, &[("000", "{\"level\": 2}")]);
    let result: serde_json::Value = serde_json::from_str(&out.unwrap()).unwrap();
    assert_eq!(result["keep"], true);
    assert_eq!(result["level"], 2);
}

#[test]
fn empty_target_contributes_nothing() {
    let (_, out) = run_target("dot-fresh.json.d", "", &[("000", "{\"a\": 1}")]);
    let result: serde_json::Value = serde_json::from_str(&out.unwrap()).unwrap();
    assert_eq!(result["a"], 1);
}

#[test]
fn target_path_is_rerooted() {
    let target = canonicalize("patches/dot-bashrc.d");
    assert_eq!(target, "patches/.bashrc");
    let rerooted = replace_prefix("patches", "/home/user", target.as_str()).unwrap();
    assert_eq!(rerooted, "/home/user/.bashrc");
}

#[test]
fn unsupported_format_aborts_the_target() {
    let (_, out) = run_target("dot-conf.yaml.d", "", &[("000", "a: 1")]);
    assert_eq!(out.unwrap_err(), dotpatch::config::PatchError::UnsupportedFormat);
}

#[test]
fn a_failing_fragment_aborts_the_whole_target() {
    let (_, out) = run_target(
        "dot-part.json.d",
        "",
        &[("000", "{\"good\": 1}"), ("001", "{broken"), ("002", "{\"more\": 2}")],
    );
    assert_eq!(out.unwrap_err(), dotpatch::config::PatchError::MalformedDocument);
}
