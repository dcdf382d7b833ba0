use std::path::{Path, PathBuf};

use plur::chromium::{chromium_manifest_doc, default_theme_json};
use plur::doc::Doc;
use plur::firefox::{manifest_json_firefox, parse_profiles_ini, FIREFOX_EXTENSION_ID};
use plur::naming::{dep_target_dir, hash_suffix, mod_target_dir};

fn doc_has_text(d: &Doc, s: &str) -> bool {
    match d {
        Doc::Text(t) => t == s,
        Doc::Array(items) => items.iter().any(|i| doc_has_text(i, s)),
        Doc::Object(es) => es.iter().any(|(_, v)| doc_has_text(v, s)),
        _ => false,
    }
}

fn doc_has_key(d: &Doc, k: &str) -> bool {
    match d {
        Doc::Array(items) => items.iter().any(|i| doc_has_key(i, k)),
        Doc::Object(es) => es.iter().any(|(key, v)| key == k || doc_has_key(v, k)),
        _ => false,
    }
}

#[test]
fn hash_suffix_is_deterministic() {
    let a1 = hash_suffix("example");
    let a2 = hash_suffix("example");
    assert_eq!(a1, a2);
}

#[test]
fn mod_target_dir_includes_hash() {
    let base = "mods";
    let dir = mod_target_dir(base, "alpha", "https://example.com/alpha.git");
    let name = Path::new(&dir).file_name().unwrap().to_string_lossy().to_string();
    assert!(name.starts_with("alpha-"));
}

#[test]
fn dep_target_dir_includes_hash() {
    let base = "mods/alpha-123";
    let dir = dep_target_dir(base, "dep", "https://example.com/dep.git");
    let name = Path::new(&dir).file_name().unwrap().to_string_lossy().to_string();
    assert!(name.starts_with("dep-"));
}

#[test]
fn manifest_includes_css_and_js() {
    let manifest = chromium_manifest_doc(default_theme_json());
    assert!(doc_has_text(&manifest, "result.css"));
    assert!(doc_has_text(&manifest, "result.js"));
    assert!(doc_has_key(&manifest, "manifest_version"));
}

#[test]
fn firefox_manifest_includes_id() {
    let manifest = manifest_json_firefox();
    assert!(manifest.contains(FIREFOX_EXTENSION_ID));
    assert!(manifest.contains("\"manifest_version\": 2"));
}

#[test]
fn parse_profiles_ini_handles_relative_and_absolute() {
    let ini = r#"
[Profile0]
Name=default
IsRelative=1
Path=Profiles/abcd.default

[Profile1]
Name=custom
IsRelative=0
Path=/tmp/custom.profile
"#;
    let base = Path::new("/home/test/.mozilla/firefox");
    let paths: Vec<PathBuf> = parse_profiles_ini(ini, "/home/test/.mozilla/firefox")
        .into_iter()
        .map(PathBuf::from)
        .collect();
    assert!(paths.contains(&base.join("Profiles/abcd.default")));
    assert!(paths.contains(&PathBuf::from("/tmp/custom.profile")));
}
