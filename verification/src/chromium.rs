//! Chromium-based browsers: the unpacked extension's manifest, its theme,
//! and where each browser keeps its profiles.
use vstd::prelude::*;
use crate::text::{concat, concat3};
use crate::paths::{join, join_path, windows_join, windows_join_path};
use crate::doc::{Doc, DocV, doc_view, text_doc, number_doc, array_doc, object_doc, items_view, entries_view};

verus! {

broadcast use vstd::string::group_string_axioms;

pub open spec fn rgb(a: Seq<char>, b: Seq<char>, c: Seq<char>) -> DocV {
    DocV::Array(seq![DocV::Number(a), DocV::Number(b), DocV::Number(c)])
}

/// The theme used where no mod brings one.
pub open spec fn default_theme_spec() -> DocV {
    DocV::Object(
        seq![
            (
                "colors"@,
                DocV::Object(
                    seq![
                        ("frame"@, rgb("28"@, "32"@, "38"@)),
                        ("toolbar"@, rgb("36"@, "41"@, "48"@)),
                        ("tab_background_text"@, rgb("235"@, "238"@, "241"@)),
                        ("bookmark_text"@, rgb("235"@, "238"@, "241"@)),
                        ("toolbar_text"@, rgb("235"@, "238"@, "241"@)),
                        ("button_background"@, rgb("54"@, "61"@, "70"@)),
                        ("ntp_background"@, rgb("246"@, "247"@, "249"@)),
                        ("ntp_text"@, rgb("32"@, "36"@, "42"@)),
                    ],
                ),
            ),
        ],
    )
}

fn rgb_doc(a: &str, b: &str, c: &str) -> (r: Doc)
    ensures
        doc_view(r) == rgb(a@, b@, c@),
{
    let mut v: Vec<Doc> = Vec::new();
    v.push(number_doc(a));
    v.push(number_doc(b));
    v.push(number_doc(c));
    let r = array_doc(v);
    assert(items_view(v@) =~= seq![DocV::Number(a@), DocV::Number(b@), DocV::Number(c@)]);
    r
}

fn member_doc(key: &str, value: Doc) -> (r: (String, Doc))
    ensures
        r.0@ == key@,
        r.1 == value,
{
    (String::from_str(key), value)
}

/// The theme used where no mod brings one.
pub fn default_theme_json() -> (r: Doc)
    ensures
        doc_view(r) == default_theme_spec(),
{
    let mut colors: Vec<(String, Doc)> = Vec::new();
    colors.push(member_doc("frame", rgb_doc("28", "32", "38")));
    colors.push(member_doc("toolbar", rgb_doc("36", "41", "48")));
    colors.push(member_doc("tab_background_text", rgb_doc("235", "238", "241")));
    colors.push(member_doc("bookmark_text", rgb_doc("235", "238", "241")));
    colors.push(member_doc("toolbar_text", rgb_doc("235", "238", "241")));
    colors.push(member_doc("button_background", rgb_doc("54", "61", "70")));
    colors.push(member_doc("ntp_background", rgb_doc("246", "247", "249")));
    colors.push(member_doc("ntp_text", rgb_doc("32", "36", "42")));
    let inner = object_doc(colors);
    assert(entries_view(colors@) =~= default_theme_spec()->Object_0[0].1->Object_0);
    let mut top: Vec<(String, Doc)> = Vec::new();
    top.push(member_doc("colors", inner));
    let r = object_doc(top);
    assert(entries_view(top@) =~= default_theme_spec()->Object_0);
    r
}

/// The manifest of the Chromium extension before its theme: the content
/// script that injects the results, and the toolbar popup.
pub open spec fn chromium_manifest_base() -> Seq<(Seq<char>, DocV)> {
    seq![
        ("manifest_version"@, DocV::Number("3"@)),
        ("name"@, DocV::Text("Plur Mod Injector"@)),
        ("version"@, DocV::Text("0.1.0"@)),
        ("description"@, DocV::Text("Injects plur result.css and result.js"@)),
        (
            "content_scripts"@,
            DocV::Array(
                seq![
                    DocV::Object(
                        seq![
                            ("matches"@, DocV::Array(seq![DocV::Text("<all_urls>"@)])),
                            ("css"@, DocV::Array(seq![DocV::Text("result.css"@)])),
                            ("js"@, DocV::Array(seq![DocV::Text("result.js"@)])),
                            ("run_at"@, DocV::Text("document_end"@)),
                        ],
                    ),
                ],
            ),
        ),
        ("host_permissions"@, DocV::Array(seq![DocV::Text("<all_urls>"@)])),
        (
            "action"@,
            DocV::Object(
                seq![
                    ("default_title"@, DocV::Text("Plur"@)),
                    ("default_popup"@, DocV::Text("popup.html"@)),
                ],
            ),
        ),
    ]
}

/// The manifest of the Chromium extension (manifest version 3), with the
/// theme unless it is `null`.
pub open spec fn chromium_manifest_spec(theme: DocV) -> DocV {
    if theme is Null {
        DocV::Object(chromium_manifest_base())
    } else {
        DocV::Object(chromium_manifest_base().push(("theme"@, theme)))
    }
}

fn text_list(s: &str) -> (r: Doc)
    ensures
        doc_view(r) == DocV::Array(seq![DocV::Text(s@)]),
{
    let mut v: Vec<Doc> = Vec::new();
    v.push(text_doc(s));
    let r = array_doc(v);
    assert(items_view(v@) =~= seq![DocV::Text(s@)]);
    r
}

/// The document of the Chromium extension's manifest, styled by
/// `theme`.
pub fn chromium_manifest_doc(theme: Doc) -> (r: Doc)
    ensures
        doc_view(r) == chromium_manifest_spec(doc_view(theme)),
{
    let mut script: Vec<(String, Doc)> = Vec::new();
    script.push(member_doc("matches", text_list("<all_urls>")));
    script.push(member_doc("css", text_list("result.css")));
    script.push(member_doc("js", text_list("result.js")));
    script.push(member_doc("run_at", text_doc("document_end")));
    let script_doc = object_doc(script);
    let mut scripts: Vec<Doc> = Vec::new();
    scripts.push(script_doc);
    let scripts_doc = array_doc(scripts);
    proof {
        let base = chromium_manifest_base();
        assert(entries_view(script@) =~= base[4].1->Array_0[0]->Object_0);
        assert(items_view(scripts@) =~= base[4].1->Array_0);
    }
    let mut top: Vec<(String, Doc)> = Vec::new();
    top.push(member_doc("manifest_version", number_doc("3")));
    top.push(member_doc("name", text_doc("Plur Mod Injector")));
    top.push(member_doc("version", text_doc("0.1.0")));
    top.push(member_doc("description", text_doc("Injects plur result.css and result.js")));
    top.push(member_doc("content_scripts", scripts_doc));
    top.push(member_doc("host_permissions", text_list("<all_urls>")));
    let mut action: Vec<(String, Doc)> = Vec::new();
    action.push(member_doc("default_title", text_doc("Plur")));
    action.push(member_doc("default_popup", text_doc("popup.html")));
    proof {
        assert(entries_view(action@) =~= chromium_manifest_base()[6].1->Object_0);
    }
    top.push(member_doc("action", object_doc(action)));
    let ghost base_entries = top@;
    assert(entries_view(base_entries) =~= chromium_manifest_base());
    let is_null = match &theme {
        Doc::Null => true,
        _ => false,
    };
    if !is_null {
        let ghost tv = doc_view(theme);
        top.push(member_doc("theme", theme));
        assert(entries_view(top@) =~= chromium_manifest_base().push(("theme"@, tv)));
    }
    object_doc(top)
}

// ---------------------------------------------------------------------------
// The extension's popup
// ---------------------------------------------------------------------------

/// The popup page up to its status line.
pub const POPUP_HEAD: &'static str = "<!DOCTYPE html>\n<html>\n<head>\n<meta charset=\"utf-8\">\n<title>Plur</title>\n<style>\nbody { font-family: sans-serif; margin: 12px; min-width: 200px; }\n#status { margin: 0 0 10px 0; }\n</style>\n</head>\n<body>\n<h3>Plur</h3>\n<p id=\"status\">";

/// The popup page after its status line: the reload button and its script.
pub const POPUP_TAIL: &'static str = "</p>\n<button id=\"reload\">Reload tab</button>\n<script src=\"popup.js\"></script>\n</body>\n</html>\n";

/// The popup's script: the button reloads the active tab.
pub const POPUP_JS: &'static str = "document.getElementById(\"reload\").addEventListener(\"click\", () => {\n  chrome.tabs.reload();\n  window.close();\n});\n";

/// The popup's status line, given whether `result.css` and `result.js`
/// had anything to inject.
pub open spec fn popup_status_spec(css_present: bool, js_present: bool) -> Seq<char> {
    if css_present && js_present {
        "Injecting result.css and result.js."@
    } else if css_present {
        "Injecting result.css."@
    } else if js_present {
        "Injecting result.js."@
    } else {
        "Nothing to inject yet: run a build."@
    }
}

/// The popup page (`popup.html`): a status line and a button that reloads
/// the active tab.
pub fn popup_html(css_present: bool, js_present: bool) -> (r: String)
    ensures
        r@ == POPUP_HEAD@ + popup_status_spec(css_present, js_present) + POPUP_TAIL@,
{
    let status = if css_present && js_present {
        "Injecting result.css and result.js."
    } else if css_present {
        "Injecting result.css."
    } else if js_present {
        "Injecting result.js."
    } else {
        "Nothing to inject yet: run a build."
    };
    concat3(POPUP_HEAD, status, POPUP_TAIL)
}

// ---------------------------------------------------------------------------
// Profiles of the Chromium-based browsers
// ---------------------------------------------------------------------------

/// The browsers the extension is offered to, in order.
pub open spec fn chromium_browsers_spec() -> Seq<Seq<char>> {
    seq!["Google Chrome"@, "Chromium"@, "Microsoft Edge"@, "Brave Browser"@, "Vivaldi"@]
}

/// The browsers the extension is offered to.
pub fn chromium_browsers() -> (r: Vec<String>)
    ensures
        r@.map_values(|s: String| s@) == chromium_browsers_spec(),
{
    let mut r: Vec<String> = Vec::new();
    r.push(String::from_str("Google Chrome"));
    r.push(String::from_str("Chromium"));
    r.push(String::from_str("Microsoft Edge"));
    r.push(String::from_str("Brave Browser"));
    r.push(String::from_str("Vivaldi"));
    assert(r@.map_values(|s: String| s@) =~= chromium_browsers_spec());
    r
}

/// Where a browser keeps its profiles: on macOS, on Linux, and on Windows
/// (under `%LOCALAPPDATA%`, where that is known and the browser is one of
/// the five).
pub struct ChromiumRoots {
    pub mac: String,
    pub linux: String,
    pub windows: Option<String>,
}

pub open spec fn app_support(home: Seq<char>) -> Seq<char> {
    join(join(home, "Library"@), "Application Support"@)
}

pub open spec fn mac_root_spec(browser: Seq<char>, home: Seq<char>) -> Seq<char> {
    let a = app_support(home);
    if browser == "Google Chrome"@ {
        join(join(a, "Google"@), "Chrome"@)
    } else if browser == "Chromium"@ {
        join(a, "Chromium"@)
    } else if browser == "Microsoft Edge"@ {
        join(a, "Microsoft Edge"@)
    } else if browser == "Brave Browser"@ {
        join(join(a, "BraveSoftware"@), "Brave-Browser"@)
    } else if browser == "Vivaldi"@ {
        join(a, "Vivaldi"@)
    } else {
        join(a, browser)
    }
}

pub open spec fn linux_root_spec(browser: Seq<char>, home: Seq<char>) -> Seq<char> {
    let c = join(home, ".config"@);
    if browser == "Google Chrome"@ {
        join(c, "google-chrome"@)
    } else if browser == "Chromium"@ {
        join(c, "chromium"@)
    } else if browser == "Microsoft Edge"@ {
        join(c, "microsoft-edge"@)
    } else if browser == "Brave Browser"@ {
        join(join(c, "BraveSoftware"@), "Brave-Browser"@)
    } else if browser == "Vivaldi"@ {
        join(c, "vivaldi"@)
    } else {
        c
    }
}

pub open spec fn windows_root_spec(browser: Seq<char>, local: Seq<char>) -> Option<Seq<char>> {
    if browser == "Google Chrome"@ {
        Some(windows_join(windows_join(windows_join(local, "Google"@), "Chrome"@), "User Data"@))
    } else if browser == "Chromium"@ {
        Some(windows_join(windows_join(local, "Chromium"@), "User Data"@))
    } else if browser == "Microsoft Edge"@ {
        Some(windows_join(windows_join(windows_join(local, "Microsoft"@), "Edge"@), "User Data"@))
    } else if browser == "Brave Browser"@ {
        Some(windows_join(windows_join(windows_join(local, "BraveSoftware"@), "Brave-Browser"@), "User Data"@))
    } else if browser == "Vivaldi"@ {
        Some(windows_join(windows_join(local, "Vivaldi"@), "User Data"@))
    } else {
        None
    }
}

fn join3(a: &str, b: &str, c: &str) -> (r: String)
    ensures
        r@ == join(join(a@, b@), c@),
{
    let x = join_path(a, b);
    join_path(x.as_str(), c)
}

fn win_join3(a: &str, b: &str, c: &str) -> (r: String)
    ensures
        r@ == windows_join(windows_join(a@, b@), c@),
{
    let x = windows_join_path(a, b);
    windows_join_path(x.as_str(), c)
}

fn win_join4(a: &str, b: &str, c: &str, d: &str) -> (r: String)
    ensures
        r@ == windows_join(windows_join(windows_join(a@, b@), c@), d@),
{
    let x = win_join3(a, b, c);
    windows_join_path(x.as_str(), d)
}

/// Where `browser` keeps its profiles, given the home directory and
/// `%LOCALAPPDATA%` where it is set.
pub fn chromium_profile_roots(browser: &str, home: &str, local_app_data: Option<&str>) -> (r: ChromiumRoots)
    ensures
        r.mac@ == mac_root_spec(browser@, home@),
        r.linux@ == linux_root_spec(browser@, home@),
        match local_app_data {
            Some(l) => match r.windows {
                Some(w) => windows_root_spec(browser@, l@) == Some(w@),
                None => windows_root_spec(browser@, l@) is None,
            },
            None => r.windows is None,
        },
{
    let support = join3(home, "Library", "Application Support");
    let config = join_path(home, ".config");
    let s = support.as_str();
    let c = config.as_str();
    let eq = |x: &str| -> (b: bool)
        ensures
            b == (browser@ == x@),
        { crate::text::eq_str(browser, x) };
    let (mac, linux, win_kind) = if eq("Google Chrome") {
        (join3(s, "Google", "Chrome"), join_path(c, "google-chrome"), 1u8)
    } else if eq("Chromium") {
        (join_path(s, "Chromium"), join_path(c, "chromium"), 2u8)
    } else if eq("Microsoft Edge") {
        (join_path(s, "Microsoft Edge"), join_path(c, "microsoft-edge"), 3u8)
    } else if eq("Brave Browser") {
        (join3(s, "BraveSoftware", "Brave-Browser"), join3(c, "BraveSoftware", "Brave-Browser"), 4u8)
    } else if eq("Vivaldi") {
        (join_path(s, "Vivaldi"), join_path(c, "vivaldi"), 5u8)
    } else {
        (join_path(s, browser), String::from_str(c), 0u8)
    };
    let windows = match local_app_data {
        Some(l) => {
            if win_kind == 1 {
                Some(win_join4(l, "Google", "Chrome", "User Data"))
            } else if win_kind == 2 {
                Some(win_join3(l, "Chromium", "User Data"))
            } else if win_kind == 3 {
                Some(win_join4(l, "Microsoft", "Edge", "User Data"))
            } else if win_kind == 4 {
                Some(win_join4(l, "BraveSoftware", "Brave-Browser", "User Data"))
            } else if win_kind == 5 {
                Some(win_join3(l, "Vivaldi", "User Data"))
            } else {
                None
            }
        },
        None => None,
    };
    ChromiumRoots { mac, linux, windows }
}

/// The log of offering the extension to `browser`: where it was updated and
/// how to load it when the browser's profiles were found, else that it was
/// skipped.
pub fn chromium_install_logs(browser: &str, ext_dir: &str, found: bool, logs: &mut Vec<String>)
    ensures
        found ==> final(logs)@.map_values(|s: String| s@) == old(logs)@.map_values(|s: String| s@)
            + seq![
            browser@ + " extension updated at "@ + ext_dir@,
            "Load unpacked extension in "@ + browser@ + " from "@ + ext_dir@,
        ],
        !found ==> final(logs)@.map_values(|s: String| s@) == old(logs)@.map_values(
            |s: String| s@,
        ).push(browser@ + " profile not found. Skipping."@),
{
    if !found {
        logs.push(concat(browser, " profile not found. Skipping."));
    } else {
        logs.push(concat3(browser, " extension updated at ", ext_dir));
        let head = concat3("Load unpacked extension in ", browser, " from ");
        logs.push(concat(head.as_str(), ext_dir));
    }
    assert(logs@.map_values(|s: String| s@) =~= if found {
        old(logs)@.map_values(|s: String| s@) + seq![
            browser@ + " extension updated at "@ + ext_dir@,
            "Load unpacked extension in "@ + browser@ + " from "@ + ext_dir@,
        ]
    } else {
        old(logs)@.map_values(|s: String| s@).push(browser@ + " profile not found. Skipping."@)
    });
}


/// A law of the Chromium profile roots: for each of the five browsers, the
/// macOS root lies under `~/Library/Application Support`, the Linux root
/// under `~/.config`, and the Windows root under `%LOCALAPPDATA%`, each at
/// that browser's fixed place.
pub proof fn chromium_roots_are_fixed(home: Seq<char>, local: Seq<char>)
    ensures
        linux_root_spec("Google Chrome"@, home) == join(join(home, ".config"@), "google-chrome"@),
        linux_root_spec("Chromium"@, home) == join(join(home, ".config"@), "chromium"@),
        linux_root_spec("Microsoft Edge"@, home) == join(join(home, ".config"@), "microsoft-edge"@),
        linux_root_spec("Brave Browser"@, home) == join(
            join(join(home, ".config"@), "BraveSoftware"@),
            "Brave-Browser"@,
        ),
        linux_root_spec("Vivaldi"@, home) == join(join(home, ".config"@), "vivaldi"@),
        mac_root_spec("Google Chrome"@, home) == join(
            join(join(join(home, "Library"@), "Application Support"@), "Google"@),
            "Chrome"@,
        ),
        mac_root_spec("Chromium"@, home) == join(join(join(home, "Library"@), "Application Support"@), "Chromium"@),
        mac_root_spec("Microsoft Edge"@, home) == join(
            join(join(home, "Library"@), "Application Support"@),
            "Microsoft Edge"@,
        ),
        mac_root_spec("Brave Browser"@, home) == join(
            join(join(join(home, "Library"@), "Application Support"@), "BraveSoftware"@),
            "Brave-Browser"@,
        ),
        mac_root_spec("Vivaldi"@, home) == join(join(join(home, "Library"@), "Application Support"@), "Vivaldi"@),
        windows_root_spec("Google Chrome"@, local) == Some(
            windows_join(windows_join(windows_join(local, "Google"@), "Chrome"@), "User Data"@),
        ),
        windows_root_spec("Chromium"@, local) == Some(windows_join(windows_join(local, "Chromium"@), "User Data"@)),
        windows_root_spec("Microsoft Edge"@, local) == Some(
            windows_join(windows_join(windows_join(local, "Microsoft"@), "Edge"@), "User Data"@),
        ),
        windows_root_spec("Brave Browser"@, local) == Some(
            windows_join(windows_join(windows_join(local, "BraveSoftware"@), "Brave-Browser"@), "User Data"@),
        ),
        windows_root_spec("Vivaldi"@, local) == Some(windows_join(windows_join(local, "Vivaldi"@), "User Data"@)),
{
    reveal_strlit("Google Chrome");
    reveal_strlit("Chromium");
    reveal_strlit("Microsoft Edge");
    reveal_strlit("Brave Browser");
    reveal_strlit("Vivaldi");
    assert("Chromium"@ != "Google Chrome"@) by {
        assert("Chromium"@.len() != "Google Chrome"@.len());
    }
    assert("Microsoft Edge"@ != "Google Chrome"@) by {
        assert("Microsoft Edge"@[0] != "Google Chrome"@[0]);
    }
    assert("Microsoft Edge"@ != "Chromium"@) by {
        assert("Microsoft Edge"@.len() != "Chromium"@.len());
    }
    assert("Brave Browser"@ != "Google Chrome"@) by {
        assert("Brave Browser"@[0] != "Google Chrome"@[0]);
    }
    assert("Brave Browser"@ != "Chromium"@) by {
        assert("Brave Browser"@.len() != "Chromium"@.len());
    }
    assert("Brave Browser"@ != "Microsoft Edge"@) by {
        assert("Brave Browser"@.len() != "Microsoft Edge"@.len());
    }
    assert("Vivaldi"@ != "Google Chrome"@) by {
        assert("Vivaldi"@.len() != "Google Chrome"@.len());
    }
    assert("Vivaldi"@ != "Chromium"@) by {
        assert("Vivaldi"@.len() != "Chromium"@.len());
    }
    assert("Vivaldi"@ != "Microsoft Edge"@) by {
        assert("Vivaldi"@.len() != "Microsoft Edge"@.len());
    }
    assert("Vivaldi"@ != "Brave Browser"@) by {
        assert("Vivaldi"@.len() != "Brave Browser"@.len());
    }
}

} // verus!
