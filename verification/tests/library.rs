use plur::chromium::{
    chromium_browsers, chromium_install_logs, chromium_manifest_doc, chromium_profile_roots, default_theme_json,
    popup_html, POPUP_JS,
};
use plur::config::{add_mod, collect_mods, config_path, import_legacy_mods, log_line, mod_dirs, mods_dir, remove_mod, PlurConfig};
use plur::doc::Doc;
use plur::firefox::{
    firefox_policy_json, firefox_policy_paths, firefox_profile_roots, legacy_roots, parse_profiles_ini,
    parse_profiles_ini_on, path_to_file_url, resolve_profile_path, with_import_line,
};
use plur::paths::Platform;
use plur::install::{install_all, InstallStep};
use plur::legacy::{extract_from_json, is_candidate_json, normalize_output_path, same_path_exec, LegacyScan};
use plur::merge::{classify_mod_file, module_deps, result_paths, BuildState, ModFileKind};
use plur::theme::merge_theme_docs;
use plur::naming::{dep_target_dir, hash_suffix, is_repo_segment, mod_target_dir, normalize_repo_string, repo_name_from_url};
use plur::paths::join_path;
use plur::pathorder::sort_dedup_paths;
use plur::text::decimal_string;

use plur::firefox::{firefox_install_skipped, firefox_profile_install, ProfileStep};
use plur::firefox::{firefox_extension_paths, firefox_policy_done, profile_extension_paths, extension_updated_log};
use plur::legacy::{legacy_copy_done, legacy_copy_plan};
use plur::sync::{dep_begin, dep_cloned, sync_mod_begin, sync_mod_cloned, sync_start, CloneOutcome};

fn s(x: &str) -> String {
    x.to_string()
}

fn text(x: &str) -> Doc {
    Doc::Text(s(x))
}

fn sorted(mut v: Vec<String>) -> Vec<String> {
    v.sort();
    v
}

#[test]
fn hash_suffix_exact_values() {
    assert_eq!(hash_suffix("example"), "430b1483c8d66041");
    assert_eq!(hash_suffix(""), "cbf29ce484222325");
    assert_eq!(hash_suffix("example").len(), 16);
}

#[test]
fn target_dirs_exact_values() {
    assert_eq!(mod_target_dir("mods", "alpha", "https://example.com/alpha.git"), "mods/alpha-38e5c3cf23832c02");
    assert_eq!(
        dep_target_dir("mods/alpha-123", "dep", "https://example.com/dep.git"),
        "mods/alpha-123/deps/dep-8fcc40a3c713c27a"
    );
    assert_eq!(mod_target_dir("mods/", "alpha", "https://example.com/alpha.git"), "mods/alpha-38e5c3cf23832c02");
}

#[test]
fn join_follows_path_join() {
    assert_eq!(join_path("a", "b"), "a/b");
    assert_eq!(join_path("a/", "b"), "a/b");
    assert_eq!(join_path("", "b"), "b");
    assert_eq!(join_path("a", "/b"), "/b");
    assert_eq!(join_path("a", ""), "a/");
}

#[test]
fn normalize_repo_string_cases() {
    assert_eq!(normalize_repo_string("  synth1105/sleek-tabs  "), Some(s("https://github.com/synth1105/sleek-tabs.git")));
    assert_eq!(normalize_repo_string("https://github.com/u/r.git/"), Some(s("https://github.com/u/r.git")));
    assert_eq!(normalize_repo_string("https://github.com/u/r.git.git"), Some(s("https://github.com/u/r.git")));
    assert_eq!(
        normalize_repo_string("https://github.com/u/r/tree/main"),
        Some(s("https://github.com/u/r/tree/main.git"))
    );
    assert_eq!(
        normalize_repo_string("x github.com/u/r github.com/v/w"),
        Some(s("https://github.com/u/r .git"))
    );
    assert_eq!(normalize_repo_string("github.com/u"), Some(s("https://github.com/github.com/u.git")));
    assert_eq!(normalize_repo_string("owner/repo.git"), Some(s("https://github.com/owner/repo.git.git")));
    assert_eq!(normalize_repo_string("a/b/c"), None);
    assert_eq!(normalize_repo_string("   "), None);
    assert_eq!(normalize_repo_string("a b/c"), None);
    assert_eq!(normalize_repo_string("/c"), None);
}

#[test]
fn repo_name_cases() {
    assert_eq!(repo_name_from_url("https://github.com/u/sleek-tabs.git/"), "sleek-tabs");
    assert_eq!(repo_name_from_url("plain"), "plain");
    assert_eq!(repo_name_from_url("https://x/y.git.git"), "y");
    assert_eq!(repo_name_from_url("https://x/y//"), "y");
    assert_eq!(repo_name_from_url(""), "");
    assert_eq!(repo_name_from_url("/"), "");
}

#[test]
fn repo_segment_cases() {
    assert!(is_repo_segment("a-b_c.d9"));
    assert!(!is_repo_segment(""));
    assert!(!is_repo_segment("a/b"));
    assert!(!is_repo_segment("é"));
}

#[test]
fn normalize_output_path_cases() {
    assert_eq!(normalize_output_path(" ~/x/result.css ", None, "/home/u", Platform::Linux), Some(s("/home/u/x/result.css")));
    assert_eq!(normalize_output_path("~/~/a.css", None, "/h", Platform::Linux), Some(s("/h/a.css")));
    assert_eq!(normalize_output_path("out.js", Some("/cfg"), "/h", Platform::Linux), Some(s("/cfg/out.js")));
    assert_eq!(normalize_output_path("out.js", None, "/h", Platform::Linux), Some(s("out.js")));
    assert_eq!(normalize_output_path("/abs/a.json", Some("/cfg"), "/h", Platform::Linux), Some(s("/abs/a.json")));
    assert_eq!(normalize_output_path("C:\\x\\a.css", Some("/cfg"), "/h", Platform::Linux), Some(s("/cfg/C:\\x\\a.css")));
    assert_eq!(normalize_output_path("~/a.css", Some("/cfg"), "rel", Platform::Linux), Some(s("/cfg/rel/a.css")));
    assert_eq!(normalize_output_path("a.txt", None, "/h", Platform::Linux), None);
    assert_eq!(normalize_output_path("", None, "/h", Platform::Linux), None);
}

#[test]
fn extract_from_json_collects_repos_and_outputs() {
    let doc = Doc::Object(vec![
        (
            s("mods"),
            Doc::Array(vec![text("u/r1"), Doc::Object(vec![(s("repoUrl"), text("https://github.com/u/r2"))])]),
        ),
        (s("outputPath"), text("out/userChrome.css")),
        (s("chromeOutput"), text("x.css")),
        (s("themePath"), text("t.json")),
        (s("jsOut"), text("a.js")),
        (s("count"), Doc::Number(s("3"))),
        (s("dup"), text("/cfg//x.css")),
    ]);
    let mut scan = LegacyScan::new(Platform::Linux);
    extract_from_json(&doc, Some("/cfg"), "/h", &mut scan);
    assert_eq!(
        sorted(scan.repo_urls()),
        vec![
            s("https://github.com/out/userChrome.css.git"),
            s("https://github.com/u/r1.git"),
            s("https://github.com/u/r2.git")
        ]
    );
    assert_eq!(sorted(scan.css_outputs()), vec![s("/cfg/out/userChrome.css"), s("/cfg/x.css")]);
    assert_eq!(sorted(scan.chrome_css_outputs()), vec![s("/cfg/out/userChrome.css"), s("/cfg/x.css")]);
    assert_eq!(scan.js_outputs(), vec![s("/cfg/a.js")]);
    assert_eq!(scan.theme_outputs(), vec![s("/cfg/t.json")]);
}

#[test]
fn extract_from_json_ignores_other_values() {
    let doc = Doc::Array(vec![Doc::Null, Doc::Bool(true), Doc::Number(s("1.5")), text("just text"), text("/x/.css")]);
    let mut scan = LegacyScan::new(Platform::Linux);
    extract_from_json(&doc, None, "/h", &mut scan);
    assert!(scan.repo_urls().is_empty());
    assert!(scan.css_outputs().is_empty());
    assert!(scan.chrome_css_outputs().is_empty());
    assert!(scan.js_outputs().is_empty());
    assert!(scan.theme_outputs().is_empty());
}

#[test]
fn same_path_compares_components() {
    assert!(same_path_exec("/a//b/./c", "/a/b/c/", Platform::Linux));
    assert!(same_path_exec("./a", "./a/", Platform::Linux));
    assert!(!same_path_exec("./a", "a", Platform::Linux));
    assert!(!same_path_exec("/a", "a", Platform::Linux));
    assert!(!same_path_exec("a/../b", "b", Platform::Linux));
}

#[test]
fn candidate_json_names() {
    assert!(is_candidate_json("SineMods.JSON"));
    assert!(is_candidate_json("cosmo-manager.json"));
    assert!(!is_candidate_json("config.json"));
    assert!(!is_candidate_json("mods.txt"));
}

#[test]
fn config_add_get_remove() {
    let mut c = PlurConfig::new();
    assert!(c.is_empty());
    add_mod(&mut c, "synth1105", "sleek-tabs");
    assert_eq!(c.get("sleek-tabs"), Some(s("https://github.com/synth1105/sleek-tabs.git")));
    assert!(!remove_mod(&mut c, "sleek-tabs", "https://example.com/other.git"));
    assert_eq!(c.get("sleek-tabs"), Some(s("https://github.com/synth1105/sleek-tabs.git")));
    assert!(remove_mod(&mut c, "sleek-tabs", "https://github.com/synth1105/sleek-tabs.git"));
    assert_eq!(c.get("sleek-tabs"), None);
    assert!(c.is_empty());
    assert!(!remove_mod(&mut c, "sleek-tabs", "https://github.com/synth1105/sleek-tabs.git"));
}

#[test]
fn config_insert_replaces() {
    let mut c = PlurConfig::new();
    c.insert(s("a"), s("x"));
    c.insert(s("b"), s("y"));
    c.insert(s("a"), s("z"));
    let mut e = c.entries();
    e.sort();
    assert_eq!(e, vec![(s("a"), s("z")), (s("b"), s("y"))]);
    assert!(c.remove("a"));
    assert!(!c.remove("a"));
    assert_eq!(c.entries(), vec![(s("b"), s("y"))]);
}

#[test]
fn collect_mods_sorted_by_name() {
    let mut c = PlurConfig::new();
    c.insert(s("beta"), s("rb"));
    c.insert(s("alpha"), s("ra"));
    c.insert(s("Alpha"), s("rA"));
    let infos = collect_mods(&c, &vec![s("alpha")]);
    let names: Vec<String> = infos.iter().map(|m| m.name.clone()).collect();
    assert_eq!(names, vec![s("Alpha"), s("alpha"), s("beta")]);
    assert_eq!(infos[1].repo, "ra");
    assert!(infos[1].installed);
    assert!(!infos[0].installed);
    assert!(!infos[2].installed);
}

#[test]
fn mod_dirs_use_target_dir() {
    let mut c = PlurConfig::new();
    c.insert(s("alpha"), s("https://example.com/alpha.git"));
    let d = mod_dirs(&c, "mods");
    assert_eq!(d, vec![(s("alpha"), s("mods/alpha-38e5c3cf23832c02"))]);
}

#[test]
fn import_legacy_mods_keeps_existing() {
    let mut c = PlurConfig::new();
    c.insert(s("r1"), s("X"));
    let urls = vec![
        s("https://github.com/u/r1.git"),
        s("https://github.com/v/r2.git/"),
        s("https://github.com/w/r2.git"),
        s("/"),
    ];
    let mut logs = Vec::new();
    let added = import_legacy_mods(&mut c, &urls, &mut logs);
    assert_eq!(added, 1);
    assert_eq!(c.get("r1"), Some(s("X")));
    assert_eq!(c.get("r2"), Some(s("https://github.com/v/r2.git/")));
    assert_eq!(logs, vec![s("Imported 1 legacy mods.")]);
    let again = import_legacy_mods(&mut c, &urls, &mut logs);
    assert_eq!(again, 0);
    assert_eq!(logs.len(), 1);
}

#[test]
fn paths_under_home() {
    assert_eq!(config_path("/h"), "/h/.plur/config.toml");
    assert_eq!(mods_dir("/h"), "/h/.plur/mods");
    let mut logs = vec![s("a")];
    log_line(&mut logs, s("b"));
    assert_eq!(logs, vec![s("a"), s("b")]);
}

#[test]
fn profiles_ini_edge_cases() {
    let ini = "[General]\r\nStartWithLastProfile=1\r\n\r\n[Profile0]\r\nPath= a.default \r\nIsRelative= 1\r\nPath =ignored\r\n[Profile1]\r\nIsRelative=0\r\nPath=/abs\r\n[Install]\r\nPath=x";
    let got = parse_profiles_ini(ini, "/base");
    assert_eq!(got, vec![s("/base/a.default"), s("/abs"), s("/base/x")]);
    assert!(parse_profiles_ini("", "/base").is_empty());
    assert_eq!(parse_profiles_ini("Path=p\nIsRelative=0", "/base"), vec![s("p")]);
    assert_eq!(resolve_profile_path(Platform::Linux, "/b", "p", true), "/b/p");
    assert_eq!(resolve_profile_path(Platform::Linux, "/b", "p", false), "p");
}

#[test]
fn import_line_added_once() {
    let first = with_import_line("a", "x.css").unwrap();
    assert_eq!(first, "a\n@import \"x.css\";\n");
    assert_eq!(with_import_line(&first, "x.css"), None);
    assert_eq!(with_import_line("", "x.css"), Some(s("@import \"x.css\";\n")));
    assert_eq!(with_import_line("a\n", "x.css"), Some(s("a\n@import \"x.css\";\n")));
}

#[test]
fn policy_and_urls() {
    assert_eq!(path_to_file_url("/x/p.xpi", Platform::Linux), "file:///x/p.xpi");
    assert_eq!(path_to_file_url("/x/p.xpi", Platform::MacOs), "file:///x/p.xpi");
    assert_eq!(path_to_file_url("C:\\Users\\u\\a.xpi", Platform::Windows), "file:///C:/Users/u/a.xpi");
    assert_eq!(path_to_file_url("\\\\srv\\share\\a.xpi", Platform::Windows), "file:///srv/share/a.xpi");
    let p = firefox_policy_json("/x/p.xpi", Platform::Linux);
    assert!(p.contains("\"install_url\": \"file:///x/p.xpi\""));
    assert!(p.contains("\"plur@local\""));
    assert!(p.contains("\"toolkit.legacyUserProfileCustomizations.stylesheets\": true"));
    assert!(p.ends_with("}\n"));
    let w = firefox_policy_json("C:\\x\\p.xpi", Platform::Windows);
    assert!(w.contains("\"install_url\": \"file:///C:/x/p.xpi\""));
}

#[test]
fn policy_paths_per_platform() {
    assert_eq!(firefox_policy_paths(Platform::Linux, None, None).len(), 3);
    assert_eq!(
        firefox_policy_paths(Platform::MacOs, None, None),
        vec![
            s("/Applications/Firefox.app/Contents/Resources/distribution/policies.json"),
            s("/Applications/Firefox Developer Edition.app/Contents/Resources/distribution/policies.json"),
        ]
    );
    assert_eq!(
        firefox_policy_paths(Platform::Windows, Some("C:/PF"), Some("C:/PF86")),
        vec![
            s("C:/PF\\Mozilla Firefox\\distribution\\policies.json"),
            s("C:/PF86\\Mozilla Firefox\\distribution\\policies.json"),
        ]
    );
    assert_eq!(firefox_policy_paths(Platform::Windows, None, Some("C:/PF86")).len(), 1);
    assert!(firefox_policy_paths(Platform::Other, Some("x"), Some("y")).is_empty());
}

#[test]
fn roots_under_home() {
    assert_eq!(
        firefox_profile_roots(Platform::Linux, "/h", None),
        vec![
            s("/h/.mozilla/firefox"),
            s("/h/.config/mozilla/firefox"),
            s("/h/.var/app/org.mozilla.firefox/.mozilla/firefox")
        ]
    );
    assert_eq!(
        firefox_profile_roots(Platform::MacOs, "/Users/u", None),
        vec![s("/Users/u/Library/Application Support/Firefox")]
    );
    assert_eq!(
        firefox_profile_roots(Platform::Windows, "C:/u", Some("C:/u/AppData/Roaming")),
        vec![s("C:/u/AppData/Roaming\\Mozilla\\Firefox")]
    );
    assert!(firefox_profile_roots(Platform::Windows, "C:/u", None).is_empty());
    let r = legacy_roots(Platform::Linux, "/h", None, None, &vec![s("/p1")]);
    assert_eq!(r.len(), 7);
    assert_eq!(r[0], "/h/.sine");
    assert_eq!(r[2], "/h/.config/cosmocreeper");
    assert_eq!(r[6], "/p1/chrome");
    let m = legacy_roots(Platform::MacOs, "/U", None, None, &vec![]);
    assert_eq!(
        m[3..].to_vec(),
        vec![
            s("/U/Library/Application Support/Sine"),
            s("/U/Library/Application Support/CosmoCreeper"),
            s("/U/Library/Application Support/Firefox"),
        ]
    );
    let w = legacy_roots(Platform::Windows, "C:/u", Some("C:/R"), Some("C:/L"), &vec![s("C:/p")]);
    assert_eq!(
        w[3..].to_vec(),
        vec![s("C:/R\\Mozilla\\Firefox"), s("C:/L\\Sine"), s("C:/L\\CosmoCreeper"), s("C:/p\\chrome")]
    );
}

fn color_keys(d: &Doc) -> Vec<(String, String)> {
    let mut out = Vec::new();
    if let Doc::Object(es) = d {
        for (k, v) in es {
            if k == "colors" {
                if let Doc::Object(cs) = v {
                    for (ck, cv) in cs {
                        if let Doc::Text(t) = cv {
                            out.push((ck.clone(), t.clone()));
                        }
                    }
                }
            }
        }
    }
    out
}

fn theme_of(colors: Vec<(&str, &str)>) -> Doc {
    Doc::Object(vec![(
        s("colors"),
        Doc::Object(colors.into_iter().map(|(k, v)| (s(k), text(v))).collect()),
    )])
}

#[test]
fn themes_merge_colors_later_wins() {
    let a = theme_of(vec![("frame", "red"), ("toolbar", "blue")]);
    let b = theme_of(vec![("toolbar", "green"), ("ntp_text", "white")]);
    let m = merge_theme_docs(a, b);
    assert_eq!(
        color_keys(&m),
        vec![(s("frame"), s("red")), (s("toolbar"), s("green")), (s("ntp_text"), s("white"))]
    );
    let mut st = BuildState::new("/m", Vec::new());
    st.add_theme("/m/a/plur.theme.json", Ok(theme_of(vec![("frame", "red")])));
    st.add_theme("/m/b/plur.theme.json", Ok(theme_of(vec![("toolbar", "blue")])));
    assert_eq!(st.theme_count, 2);
    let paths = plur::merge::ResultPaths { css: s("c"), js: s("j"), chrome_css: s("u"), theme: s("t") };
    let theme = st.finish(&paths);
    assert_eq!(color_keys(&theme), vec![(s("frame"), s("red")), (s("toolbar"), s("blue"))]);
    assert_eq!(st.logs.last().unwrap(), "Theme files merged: 2");
    // a theme that is not an object replaces the earlier one
    let r = merge_theme_docs(theme_of(vec![("frame", "red")]), text("x"));
    assert!(matches!(r, Doc::Text(ref t) if t == "x"));
}

#[test]
fn chromium_manifest_declares_popup() {
    let m = chromium_manifest_doc(default_theme_json());
    let mut popup = None;
    if let Doc::Object(es) = &m {
        for (k, v) in es {
            if k == "action" {
                if let Doc::Object(a) = v {
                    for (ak, av) in a {
                        if ak == "default_popup" {
                            popup = Some(av);
                        }
                    }
                }
            }
        }
    }
    assert!(matches!(popup, Some(Doc::Text(ref t)) if t == "popup.html"));
    let page = popup_html(true, false);
    assert!(page.contains("<p id=\"status\">Injecting result.css.</p>"));
    assert!(page.contains("<button id=\"reload\">Reload tab</button>"));
    assert!(page.contains("<script src=\"popup.js\"></script>"));
    assert!(popup_html(false, false).contains("Nothing to inject yet: run a build."));
    assert!(popup_html(true, true).contains("Injecting result.css and result.js."));
    assert!(POPUP_JS.contains("chrome.tabs.reload()"));
}

#[test]
fn normalized_urls_normalize_to_themselves() {
    for v in ["u/r", " https://github.com/u/r.git/ ", "github.com/a/b/c", "https://github.com/u/r.git.git"] {
        let r = normalize_repo_string(v).unwrap();
        assert_eq!(normalize_repo_string(&r), Some(r.clone()));
    }
}

#[test]
fn repo_name_round_trips() {
    for (u, n) in [("u", "r"), ("a.b", "c-d_e"), ("xgithub.com", "foo")] {
        let url = normalize_repo_string(&format!("{}/{}", u, n)).unwrap();
        assert_eq!(url, format!("https://github.com/{}/{}.git", u, n));
        assert_eq!(repo_name_from_url(&url), n);
    }
}

#[test]
fn scanning_two_documents_in_either_order() {
    let a = Doc::Object(vec![(s("repo"), text("u/one")), (s("outputPath"), text("x.css"))]);
    let b = Doc::Array(vec![text("u/two"), Doc::Object(vec![(s("path"), text("/cfg//x.css"))])]);
    let mut ab = LegacyScan::new(Platform::Linux);
    extract_from_json(&a, Some("/cfg"), "/h", &mut ab);
    extract_from_json(&b, Some("/cfg"), "/h", &mut ab);
    let mut ba = LegacyScan::new(Platform::Linux);
    extract_from_json(&b, Some("/cfg"), "/h", &mut ba);
    extract_from_json(&a, Some("/cfg"), "/h", &mut ba);
    assert_eq!(sorted(ab.repo_urls()), sorted(ba.repo_urls()));
    assert_eq!(
        sorted(ab.repo_urls()),
        vec![s("https://github.com/u/one.git"), s("https://github.com/u/two.git")]
    );
    assert_eq!(ab.css_outputs().len(), 1);
    assert_eq!(ba.css_outputs().len(), 1);
    assert!(same_path_exec(&ab.css_outputs()[0], &ba.css_outputs()[0], Platform::Linux));
}

#[test]
fn sort_dedup_paths_orders_by_components() {
    let input = vec![s("b"), s("a/"), s("a"), s("/z"), s("./c"), s("a/b"), s("../q")];
    let out = sort_dedup_paths(&input, Platform::Linux);
    assert_eq!(out, vec![s("/z"), s("./c"), s("../q"), s("a/"), s("a/b"), s("b")]);
    let mut std_sorted: Vec<std::path::PathBuf> = input.iter().map(std::path::PathBuf::from).collect();
    std_sorted.sort();
    std_sorted.dedup();
    let ours: Vec<std::path::PathBuf> = out.iter().map(std::path::PathBuf::from).collect();
    assert_eq!(ours, std_sorted);
}

#[test]
fn merge_blocks_and_counts() {
    let mut st = BuildState::new("/m", Vec::new());
    st.add_text(ModFileKind::Css, "/m/a/plur.css", "body{}");
    st.add_text(ModFileKind::Js, "/m/a/plur.js", "x()");
    st.add_text(ModFileKind::ChromeCss, "/m/a/plur.chrome.css", "#nav{}");
    st.add_text(ModFileKind::Css, "/m/b/plur.css", "p{}");
    assert_eq!(st.css, "/* /m/a/plur.css */\nbody{}\n\n/* /m/b/plur.css */\np{}\n\n");
    assert_eq!(st.js, "// /m/a/plur.js\nx()\n\n");
    assert_eq!(st.chrome_css, "/* /m/a/plur.chrome.css */\n#nav{}\n\n");
    assert_eq!((st.count, st.js_count, st.chrome_count), (2, 1, 1));
    st.add_theme("/m/a/plur.theme.json", Err(s("bad")));
    st.add_theme("/m/b/plur.theme.json", Ok(Doc::Object(vec![])));
    assert_eq!(st.theme_count, 1);
    let paths = plur::merge::ResultPaths { css: s("c"), js: s("j"), chrome_css: s("u"), theme: s("t") };
    let theme = st.finish(&paths);
    assert!(matches!(theme, Doc::Object(ref v) if v.is_empty()));
    assert_eq!(
        st.logs,
        vec![
            s("Searching for plur.css in /m"),
            s("Merged /m/a/plur.css"),
            s("Merged JS /m/a/plur.js"),
            s("Merged UI CSS /m/a/plur.chrome.css"),
            s("Merged /m/b/plur.css"),
            s("Theme parse failed: bad"),
            s("Theme loaded /m/b/plur.theme.json"),
            s("Wrote c"),
            s("Wrote j"),
            s("Wrote u"),
            s("Wrote t"),
            s("Theme files merged: 1"),
        ]
    );
}

#[test]
fn finish_without_theme_uses_default() {
    let mut st = BuildState::new("/m", Vec::new());
    let paths = plur::merge::ResultPaths { css: s("c"), js: s("j"), chrome_css: s("u"), theme: s("t") };
    let theme = st.finish(&paths);
    match theme {
        Doc::Object(es) => {
            assert_eq!(es.len(), 1);
            assert_eq!(es[0].0, "colors");
        }
        _ => panic!("default theme is an object"),
    }
    assert_eq!(st.logs.len(), 5);
}

#[test]
fn classify_by_file_name() {
    assert!(matches!(classify_mod_file("/m/a/plur.css", Platform::Linux), Some(ModFileKind::Css)));
    assert!(matches!(classify_mod_file("/m/a/plur.js", Platform::Linux), Some(ModFileKind::Js)));
    assert!(matches!(classify_mod_file("/m/a/plur.chrome.css", Platform::Linux), Some(ModFileKind::ChromeCss)));
    assert!(matches!(classify_mod_file("/m/plur.theme.json", Platform::Linux), Some(ModFileKind::Theme)));
    assert!(classify_mod_file("/m/plur.css.bak", Platform::Linux).is_none());
    assert!(classify_mod_file("/m/plur.css/..", Platform::Linux).is_none());
}

#[test]
fn result_paths_expand_home() {
    let p = result_paths();
    assert!(p.css.ends_with("/.plur/result.css"));
    assert!(p.theme.ends_with("/.plur/theme.json"));
    assert!(!p.css.starts_with('~'));
    assert!(!p.js.starts_with('~'));
    assert!(!p.chrome_css.starts_with('~'));
}

#[test]
fn module_deps_plan() {
    let doc = Doc::Object(vec![
        (s("name"), text("m")),
        (
            s("deps"),
            Doc::Object(vec![
                (s("d1"), Doc::Object(vec![(s("repo"), text("https://example.com/dep.git"))])),
                (s("d2"), text("nope")),
                (s("d3"), Doc::Object(vec![(s("repo"), Doc::Number(s("1")))])),
            ]),
        ),
    ]);
    let plan = module_deps(&doc, "mods/alpha-123");
    assert_eq!(plan.len(), 3);
    assert_eq!(plan[0].name, "d1");
    assert_eq!(
        plan[0].fetch,
        Some((s("https://example.com/dep.git"), dep_target_dir("mods/alpha-123", "d1", "https://example.com/dep.git")))
    );
    assert_eq!(plan[1].fetch, None);
    assert_eq!(plan[2].fetch, None);
    assert!(module_deps(&text("x"), "m").is_empty());
    assert!(module_deps(&Doc::Object(vec![(s("deps"), text("x"))]), "m").is_empty());
}

#[test]
fn install_plan() {
    let mut logs = Vec::new();
    assert!(install_all(false, false, false, false, &mut logs).is_empty());
    assert_eq!(logs, vec![s("No result.css/result.js/result.chrome.css/theme.json found. Skipping install.")]);
    let mut logs2 = Vec::new();
    let steps = install_all(false, true, false, false, &mut logs2);
    assert!(logs2.is_empty());
    assert_eq!(steps.len(), 8);
    assert!(matches!(steps[0], InstallStep::Firefox));
    assert!(matches!(steps[1], InstallStep::FirefoxPolicy));
    assert!(matches!(&steps[2], InstallStep::Chromium(n) if n == "Google Chrome"));
    assert!(matches!(&steps[6], InstallStep::Chromium(n) if n == "Vivaldi"));
    assert!(matches!(steps[7], InstallStep::LegacyCopy));
}

#[test]
fn chromium_roots_and_logs() {
    let r = chromium_profile_roots("Vivaldi", "/h", Some("C:/L"));
    assert_eq!(r.mac, "/h/Library/Application Support/Vivaldi");
    assert_eq!(r.linux, "/h/.config/vivaldi");
    assert_eq!(r.windows, Some(s("C:/L\\Vivaldi\\User Data")));
    let e = chromium_profile_roots("Microsoft Edge", "/h", Some("C:\\L\\"));
    assert_eq!(e.windows, Some(s("C:\\L\\Microsoft\\Edge\\User Data")));
    let d = chromium_profile_roots("Chromium", "/h", Some("D:"));
    assert_eq!(d.windows, Some(s("D:Chromium\\User Data")));
    let g = chromium_profile_roots("Google Chrome", "/h", None);
    assert_eq!(g.linux, "/h/.config/google-chrome");
    assert_eq!(g.mac, "/h/Library/Application Support/Google/Chrome");
    assert_eq!(g.windows, None);
    let o = chromium_profile_roots("Other", "/h", Some("L"));
    assert_eq!(o.linux, "/h/.config");
    assert_eq!(o.mac, "/h/Library/Application Support/Other");
    assert_eq!(o.windows, None);
    assert_eq!(chromium_browsers().len(), 5);
    let mut logs = Vec::new();
    chromium_install_logs("Chromium", "/e", true, &mut logs);
    chromium_install_logs("Vivaldi", "/e", false, &mut logs);
    assert_eq!(
        logs,
        vec![
            s("Chromium extension updated at /e"),
            s("Load unpacked extension in Chromium from /e"),
            s("Vivaldi profile not found. Skipping.")
        ]
    );
}

#[test]
fn default_theme_values() {
    match default_theme_json() {
        Doc::Object(top) => match &top[0].1 {
            Doc::Object(colors) => {
                assert_eq!(colors.len(), 8);
                assert_eq!(colors[0].0, "frame");
                match &colors[0].1 {
                    Doc::Array(v) => assert!(matches!(&v[0], Doc::Number(n) if n == "28")),
                    _ => panic!("frame is an array"),
                }
            }
            _ => panic!("colors is an object"),
        },
        _ => panic!("theme is an object"),
    }
}

#[test]
fn decimal_formatting() {
    assert_eq!(decimal_string(0), "0");
    assert_eq!(decimal_string(7), "7");
    assert_eq!(decimal_string(1234), "1234");
    assert_eq!(decimal_string(usize::MAX), usize::MAX.to_string());
}

#[test]
fn windows_mod_files_are_recognized() {
    let w = Platform::Windows;
    assert!(matches!(classify_mod_file("C:\\m\\alpha-1\\plur.css", w), Some(ModFileKind::Css)));
    assert!(matches!(classify_mod_file("C:\\m\\plur.js", w), Some(ModFileKind::Js)));
    assert!(matches!(classify_mod_file("C:/m/plur.chrome.css", w), Some(ModFileKind::ChromeCss)));
    assert!(matches!(classify_mod_file("\\\\srv\\share\\m\\plur.theme.json", w), Some(ModFileKind::Theme)));
    assert!(classify_mod_file("C:\\m\\plur.css\\..", w).is_none());
    assert!(classify_mod_file("C:", w).is_none());
    // on Unix a backslash is part of the name
    assert!(classify_mod_file("C:\\m\\plur.css", Platform::Linux).is_none());
}

#[test]
fn windows_output_paths() {
    let w = Platform::Windows;
    assert_eq!(normalize_output_path("out.js", Some("C:\\cfg"), "C:\\h", w), Some(s("C:\\cfg\\out.js")));
    assert_eq!(normalize_output_path("C:/x/a.css", Some("C:\\cfg"), "C:\\h", w), Some(s("C:/x/a.css")));
    assert_eq!(normalize_output_path("\\x\\a.css", Some("C:\\cfg"), "C:\\h", w), Some(s("C:\\x\\a.css")));
    assert_eq!(normalize_output_path("~/a.css", None, "C:\\Users\\u", w), Some(s("C:\\Users\\u\\a.css")));
    assert_eq!(normalize_output_path("sub\\a.json", Some("D:"), "C:\\h", w), Some(s("D:sub\\a.json")));
}

#[test]
fn windows_same_path_and_order() {
    let w = Platform::Windows;
    assert!(same_path_exec("C:\\a\\b", "c:/a/b/", w));
    assert!(!same_path_exec("C:\\a", "C:a", w));
    assert!(same_path_exec("\\\\srv\\share\\x", "//srv/share/x", w));
    assert!(!same_path_exec("C:\\a\\b", "C:\\a\\B", w));
    let input = vec![s("C:\\a b"), s("C:\\a\\c"), s("c:/a/c"), s("\\\\s\\h\\x"), s("D:\\")];
    let out = sort_dedup_paths(&input, w);
    assert_eq!(out, vec![s("\\\\s\\h\\x"), s("C:\\a\\c"), s("C:\\a b"), s("D:\\")]);
    let mut scan = LegacyScan::new(w);
    let doc = Doc::Array(vec![text("C:\\cfg\\x.css"), text("c:/cfg/x.css"), text("y.js")]);
    extract_from_json(&doc, Some("C:\\cfg"), "C:\\h", &mut scan);
    assert_eq!(scan.css_outputs(), vec![s("C:\\cfg\\x.css")]);
    assert_eq!(scan.js_outputs(), vec![s("C:\\cfg\\y.js")]);
}

#[test]
fn windows_profiles_ini() {
    let got = parse_profiles_ini_on("[Profile0]\nPath=Profiles/abc.default\nIsRelative=1\n", "C:\\F", Platform::Windows);
    assert_eq!(got, vec![s("C:\\F\\Profiles/abc.default")]);
}

#[test]
fn firefox_profile_install_steps() {
    let steps = firefox_profile_install("/p", Platform::Linux, "/r/result.css", "/r/result.js", "/r/result.chrome.css", true, true, true);
    let shown: Vec<String> = steps
        .iter()
        .map(|st| match st {
            ProfileStep::CreateDir(d) => format!("mkdir {}", d),
            ProfileStep::Copy(a, b) => format!("copy {} {}", a, b),
            ProfileStep::Import(a, b) => format!("import {} {}", a, b),
            ProfileStep::Log(l) => format!("log {}", l),
        })
        .collect();
    assert_eq!(
        shown,
        vec![
            s("mkdir /p/chrome"),
            s("copy /r/result.css /p/chrome/plur.userContent.css"),
            s("import /p/chrome/userContent.css plur.userContent.css"),
            s("log Firefox CSS installed in /p/chrome"),
            s("copy /r/result.js /p/chrome/plur.userContent.js"),
            s("log Firefox JS copied to /p/chrome/plur.userContent.js (requires userChromeJS or loader)"),
            s("copy /r/result.chrome.css /p/chrome/plur.userChrome.css"),
            s("import /p/chrome/userChrome.css plur.userChrome.css"),
            s("log Firefox UI CSS installed in /p/chrome"),
            s("log Firefox: ensure `toolkit.legacyUserProfileCustomizations.stylesheets` is enabled."),
        ]
    );
    let only_js = firefox_profile_install("C:\\p", Platform::Windows, "a", "b", "c", false, true, false);
    assert_eq!(only_js.len(), 4);
    assert!(matches!(&only_js[0], ProfileStep::CreateDir(d) if d == "C:\\p\\chrome"));
    assert!(matches!(&only_js[1], ProfileStep::Copy(a, t) if a == "b" && t == "C:\\p\\chrome\\plur.userContent.js"));
    let mut logs = vec![s("x")];
    assert!(firefox_install_skipped(0, &mut logs));
    assert_eq!(logs, vec![s("x"), s("Firefox profiles not found. Skipping.")]);
    assert!(!firefox_install_skipped(2, &mut logs));
    assert_eq!(logs.len(), 2);
}

#[test]
fn firefox_extension_and_policy_logs() {
    assert_eq!(
        firefox_extension_paths("/h", Platform::Linux),
        (s("/h/.plur/extension-firefox"), s("/h/.plur/extension-firefox/plur-firefox.xpi"))
    );
    assert_eq!(profile_extension_paths("/p", Platform::Linux), (s("/p/extensions"), s("/p/extensions/plur@local.xpi")));
    assert_eq!(extension_updated_log("/t"), "Firefox extension updated in /t");
    let mut logs = Vec::new();
    firefox_policy_done(&vec![], &mut logs);
    assert_eq!(logs, vec![s("Firefox policy not written (missing permissions or install path).")]);
    let mut logs = Vec::new();
    firefox_policy_done(&vec![s("/a"), s("/b")], &mut logs);
    assert_eq!(logs, vec![s("Firefox policy written to /a"), s("Firefox policy written to /b")]);
}

#[test]
fn legacy_copies_planned_and_logged() {
    let doc = Doc::Object(vec![
        (s("outputPath"), text("/o/a.css")),
        (s("jsPath"), text("/o/b.js")),
        (s("themePath"), text("/o/t.json")),
    ]);
    let mut scan = LegacyScan::new(Platform::Linux);
    extract_from_json(&doc, None, "/h", &mut scan);
    let plan = legacy_copy_plan(&scan, "C", "J", "U", "T");
    assert_eq!(
        plan,
        vec![
            (s("C"), s("/o/a.css"), s("Legacy CSS output updated at /o/a.css")),
            (s("J"), s("/o/b.js"), s("Legacy JS output updated at /o/b.js")),
            (s("T"), s("/o/t.json"), s("Legacy theme output updated at /o/t.json")),
        ]
    );
    let mut logs = Vec::new();
    legacy_copy_done(&vec![], &mut logs);
    assert_eq!(logs, vec![s("No legacy outputs detected for copy.")]);
    let mut logs = vec![s("a")];
    legacy_copy_done(&vec![s("b"), s("c")], &mut logs);
    assert_eq!(logs, vec![s("a"), s("b"), s("c")]);
}

#[test]
fn sync_steps_log_and_decide() {
    let mut logs = Vec::new();
    sync_start(true, &mut logs);
    sync_start(false, &mut logs);
    assert!(sync_mod_begin("m", false, &mut logs));
    assert!(!sync_mod_begin("n", true, &mut logs));
    assert!(sync_mod_cloned("m", true, &mut logs));
    assert!(!sync_mod_cloned("k", false, &mut logs));
    assert!(dep_begin("d", true, false, &mut logs));
    assert!(!dep_begin("e", true, true, &mut logs));
    assert!(!dep_begin("f", false, false, &mut logs));
    dep_cloned("d", CloneOutcome::Done, &mut logs);
    dep_cloned("g", CloneOutcome::Failed, &mut logs);
    dep_cloned("h", CloneOutcome::NotRun(s("no git")), &mut logs);
    assert_eq!(
        logs,
        vec![
            s("No mods configured. Add a mod first."),
            s("Syncing m..."),
            s("Syncing n..."),
            s("n already exists, skipping clone."),
            s("m cloned."),
            s("k clone failed."),
            s("Processing dependency d..."),
            s("Processing dependency e..."),
            s("Dependency e already exists, skipping."),
            s("Processing dependency f..."),
            s("Dependency d downloaded."),
            s("Dependency g download failed."),
            s("Git command failed: no git"),
        ]
    );
}
