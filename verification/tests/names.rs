//! The name-level functions: target-name computation, re-rooting, format
//! detection and the ignore list.
use dotpatch::config::PatchError;
use dotpatch::paths::{canonicalize, detect, replace_prefix};
use dotpatch::pipeline::is_ignored;

#[test]
fn canonicalize_strips_and_rewrites() {
    assert_eq!(canonicalize("dot-foo.d"), ".foo");
    assert_eq!(canonicalize("patches/dot-bashrc.d"), "patches/.bashrc");
    assert_eq!(canonicalize("  dot-bar.json.d \n"), ".bar.json");
    assert_eq!(canonicalize("plain.d"), "plain");
    assert_eq!(canonicalize("stack.d.d"), "stack");
    assert_eq!(canonicalize("a/dot-b.d/dot-c.d"), "a/.b.d/.c");
    assert_eq!(canonicalize(""), "");
}

#[test]
fn replace_prefix_reroots_under_target() {
    assert_eq!(
        replace_prefix("patches", "/home/u", "patches/.bashrc").unwrap(),
        "/home/u/.bashrc"
    );
    assert_eq!(replace_prefix("patches", "/home/u", "patches").unwrap(), "/home/u");
    assert_eq!(
        replace_prefix("patches", "/home/u", "elsewhere/.bashrc").unwrap_err(),
        PatchError::StripPrefixFailure
    );
    assert_eq!(
        replace_prefix("patches", "/home/u", "patchesx/.bashrc").unwrap_err(),
        PatchError::StripPrefixFailure
    );
    assert_eq!(
        replace_prefix("patches", "/home/u", "patch").unwrap_err(),
        PatchError::StripPrefixFailure
    );
}

#[test]
fn detect_reads_the_last_extension() {
    assert_eq!(detect(".bar.json"), Some("json".to_string()));
    assert_eq!(detect("conf.toml"), Some("toml".to_string()));
    assert_eq!(detect("notes.txt"), Some("txt".to_string()));
    assert_eq!(detect(".bashrc"), None);
    assert_eq!(detect("plain"), None);
    assert_eq!(detect("dir.d/file"), None);
    assert_eq!(detect("a/.hidden"), None);
    assert_eq!(detect("a.b/c"), None);
}

#[test]
fn ignore_list_matches_exact_basenames() {
    assert!(is_ignored(&"AGENTS.md".to_string()));
    assert!(is_ignored(&"README.md".to_string()));
    assert!(!is_ignored(&"000".to_string()));
    assert!(!is_ignored(&"readme.md".to_string()));
    assert!(!is_ignored(&"AGENTS.md.bak".to_string()));
}

#[test]
fn detect_keeps_an_empty_trailing_extension() {
    assert_eq!(detect("foo."), Some("".to_string()));
}
