//! Firefox: `profiles.ini`, the enterprise policy, the extension manifest
//! and the `@import` lines of `userContent.css` / `userChrome.css`.
use vstd::prelude::*;
use crate::text::{
    trim, starts_with, ends_with, find, match_at, contains, trim_bounds, find_from, chars_of,
    substring, concat, concat3, starts_with_chars, ends_with_chars, contains_chars,
    lemma_find_is, lemma_find_none, is_first_match, trim_start_seq, trim_start_seq_bound, is_ws,
    lemma_trim_unchanged, lemma_first_match_exists, trim_end, trim_start,
};
use crate::paths::{join, join_path, windows_join, windows_join_path, Platform, join_on, join_on_path};
use crate::naming::sub_chars;

verus! {

broadcast use vstd::string::group_string_axioms;

/// The id of the generated Firefox extension.
pub const FIREFOX_EXTENSION_ID: &'static str = "plur@local";

// ---------------------------------------------------------------------------
// profiles.ini
// ---------------------------------------------------------------------------

/// A profile directory: `path` under `base_dir` where it is relative.
pub open spec fn resolve_profile_spec(pf: Platform, base_dir: Seq<char>, path: Seq<char>, is_relative: bool) -> Seq<
    char,
> {
    if is_relative {
        join_on(pf, base_dir, path)
    } else {
        path
    }
}

/// The profile directory that `profiles.ini` gives by `Path=` and `IsRelative=`.
pub fn resolve_profile_path(pf: Platform, base_dir: &str, path: &str, is_relative: bool) -> (r: String)
    ensures
        r@ == resolve_profile_spec(pf, base_dir@, path@, is_relative),
{
    if is_relative {
        join_on_path(pf, base_dir, path)
    } else {
        String::from_str(path)
    }
}

/// What the reader of `profiles.ini` holds between lines: the profiles found,
/// the `Path=` of the current section and whether it is relative.
pub type IniState = (Seq<Seq<char>>, Option<Seq<char>>, bool);

/// The profiles once the current section is closed.
pub open spec fn ini_flush(pf: Platform, st: IniState, base: Seq<char>) -> Seq<Seq<char>> {
    match st.1 {
        Some(p) => st.0.push(resolve_profile_spec(pf, base, p, st.2)),
        None => st.0,
    }
}

/// One trimmed line: a `[section]` header closes the current section,
/// `Path=` and `IsRelative=` set its values, anything else is ignored.
pub open spec fn ini_line(pf: Platform, st: IniState, line: Seq<char>, base: Seq<char>) -> IniState {
    if starts_with(line, "["@) && ends_with(line, "]"@) {
        (ini_flush(pf, st, base), None, true)
    } else if starts_with(line, "Path="@) {
        (st.0, Some(trim(line.skip(5))), st.2)
    } else if starts_with(line, "IsRelative="@) {
        (st.0, st.1, trim(line.skip(11)) == "1"@)
    } else {
        st
    }
}

/// The index of the first `\n` in `s`, or `s.len()`.
pub open spec fn line_end(s: Seq<char>) -> int {
    find(s, seq!['\n'])
}

/// Reads the lines of `s` (split at `\n`, each trimmed) from the state `st`.
/// A last empty line, which `str::lines` does not yield, changes nothing.
pub open spec fn ini_from(pf: Platform, s: Seq<char>, st: IniState, base: Seq<char>) -> Seq<Seq<char>>
    decreases s.len(),
{
    let i = line_end(s);
    let st2 = ini_line(pf, st, trim(s.take(i)), base);
    if 0 <= i < s.len() {
        ini_from(pf, s.skip(i + 1), st2, base)
    } else {
        ini_flush(pf, st2, base)
    }
}

/// The profile directories that `profiles.ini` lists, in order.
pub open spec fn parse_profiles_spec(pf: Platform, contents: Seq<char>, base_dir: Seq<char>) -> Seq<Seq<char>> {
    ini_from(pf, contents, (Seq::empty(), None, true), base_dir)
}

pub open spec fn strings_view(v: Seq<String>) -> Seq<Seq<char>> {
    v.map_values(|s: String| s@)
}

proof fn lemma_match_skip(s: Seq<char>, p: Seq<char>, k: int, i: int)
    requires
        0 <= k <= s.len(),
    ensures
        match_at(s.skip(k), p, i) == (i >= 0 && match_at(s, p, i + k)),
{
    if i >= 0 && i + p.len() <= s.len() - k {
        assert(s.skip(k).subrange(i, i + p.len()) =~= s.subrange(i + k, i + k + p.len()));
    }
}

fn ini_flush_exec(pf: Platform, profiles: &mut Vec<String>, current: Option<String>, relative: bool, base_dir: &str)
    ensures
        strings_view(final(profiles)@) == ini_flush(pf, 
            (strings_view(old(profiles)@), opt_chars(current), relative),
            base_dir@,
        ),
{
    match current {
        Some(p) => {
            let r = resolve_profile_path(pf, base_dir, p.as_str(), relative);
            profiles.push(r);
            proof {
                assert(strings_view(profiles@) =~= strings_view(old(profiles)@).push(r@));
            }
        },
        None => {},
    }
}

pub open spec fn opt_chars(o: Option<String>) -> Option<Seq<char>> {
    match o {
        Some(s) => Some(s@),
        None => None,
    }
}

/// The profile directories listed in the text of a `profiles.ini` found in
/// `base_dir`: each section's `Path=`, joined to `base_dir` (as `pf` joins
/// paths) unless the section says `IsRelative=` other than `1`.
pub fn parse_profiles_ini_on(contents: &str, base_dir: &str, pf: Platform) -> (r: Vec<String>)
    ensures
        strings_view(r@) == parse_profiles_spec(pf, contents@, base_dir@),
{
    proof {
        reveal_strlit("[");
        reveal_strlit("]");
        reveal_strlit("Path=");
        reveal_strlit("IsRelative=");
        reveal_strlit("1");
    }
    let cs = chars_of(contents);
    let nl = chars_of("\n");
    proof {
        reveal_strlit("\n");
        assert(nl@ =~= seq!['\n']);
    }
    let open_b = chars_of("[");
    let close_b = chars_of("]");
    let path_key = chars_of("Path=");
    let rel_key = chars_of("IsRelative=");
    let mut profiles: Vec<String> = Vec::new();
    let mut current: Option<String> = None;
    let mut relative = true;
    let mut pos: usize = 0;
    proof {
        assert(cs@.skip(0) =~= cs@);
        assert(strings_view(profiles@) =~= Seq::<Seq<char>>::empty());
    }
    loop
        invariant
            pos <= cs.len(),
            cs@ == contents@,
            nl@ == seq!['\n'],
            open_b@ == "["@,
            close_b@ == "]"@,
            path_key@ == "Path="@,
            rel_key@ == "IsRelative="@,
            ini_from(pf, cs@.skip(pos as int), (strings_view(profiles@), opt_chars(current), relative), base_dir@)
                == parse_profiles_spec(pf, contents@, base_dir@),
        decreases cs.len() - pos,
    {
        proof {
            reveal_strlit("[");
            reveal_strlit("]");
            reveal_strlit("Path=");
            reveal_strlit("IsRelative=");
            reveal_strlit("1");
        }
        let ghost s = cs@.skip(pos as int);
        let ghost st = (strings_view(profiles@), opt_chars(current), relative);
        let j = find_from(&cs, &nl, pos);
        proof {
            assert forall|k: int| #![trigger match_at(s, nl@, k)] 0 <= k < j - pos implies !match_at(
                s,
                nl@,
                k,
            ) by {
                lemma_match_skip(cs@, nl@, pos as int, k);
            }
            if j < cs.len() {
                lemma_match_skip(cs@, nl@, pos as int, j - pos);
                assert(is_first_match(s, nl@, j - pos));
                lemma_find_is(s, nl@, j - pos);
            } else {
                assert forall|k: int| !match_at(s, nl@, k) by {
                    lemma_match_skip(cs@, nl@, pos as int, k);
                    if k >= 0 && k < j - pos {
                    }
                }
                lemma_find_none(s, nl@);
            }
            assert(line_end(s) == j - pos);
            assert(s.take(j - pos) =~= cs@.subrange(pos as int, j as int));
        }
        let (a, b) = trim_bounds(&cs, pos, j);
        let line = sub_chars(&cs, a, b);
        let ghost tl = line@;
        if starts_with_chars(&line, &open_b) && ends_with_chars(&line, &close_b) {
            let cur = current;
            current = None;
            ini_flush_exec(pf, &mut profiles, cur, relative, base_dir);
            relative = true;
        } else if starts_with_chars(&line, &path_key) {
            let (c, d) = trim_bounds(&line, 5, line.len());
            let ls = substring(contents, a, b);
            let v = substring(ls.as_str(), c, d);
            proof {
                assert(line@.subrange(5, line.len() as int) =~= tl.skip(5));
            }
            current = Some(v);
        } else if starts_with_chars(&line, &rel_key) {
            let (c, d) = trim_bounds(&line, 11, line.len());
            proof {
                assert(line@.subrange(11, line.len() as int) =~= tl.skip(11));
            }
            relative = d > c && d - c == 1 && line[c] == '1';
            proof {
                let t = line@.subrange(c as int, d as int);
                if relative {
                    assert(t =~= "1"@);
                } else if t == "1"@ {
                    assert(t.len() == 1);
                    assert(t[0] == '1');
                    assert(t[0] == line@[c as int]);
                }
            }
        }
        proof {
            assert((strings_view(profiles@), opt_chars(current), relative) == ini_line(pf, st, tl, base_dir@));
        }
        if j >= cs.len() {
            let cur = current;
            current = None;
            ini_flush_exec(pf, &mut profiles, cur, relative, base_dir);
            return profiles;
        }
        proof {
            assert(s.skip(j - pos + 1) =~= cs@.skip(j + 1));
        }
        pos = j + 1;
    }
}

/// `parse_profiles_ini_on` for Unix paths.
pub fn parse_profiles_ini(contents: &str, base_dir: &str) -> (r: Vec<String>)
    ensures
        strings_view(r@) == parse_profiles_spec(Platform::Linux, contents@, base_dir@),
{
    parse_profiles_ini_on(contents, base_dir, Platform::Linux)
}

// ---------------------------------------------------------------------------
// Policy, file URL and extension manifest
// ---------------------------------------------------------------------------

/// `s` with each `\` turned into `/`.
pub open spec fn forward_slashes(s: Seq<char>) -> Seq<char> {
    s.map_values(|c: char| if c == '\\' { '/' } else { c })
}

/// The `file:` URL of a path: on Windows `file:///` and the path with
/// forward slashes and without leading `//` pairs; elsewhere `file://` and
/// the path.
pub open spec fn file_url_spec(path: Seq<char>, platform: Platform) -> Seq<char> {
    match platform {
        Platform::Windows => "file:///"@ + trim_start_seq(forward_slashes(path), "//"@),
        _ => "file://"@ + path,
    }
}

fn forward_slashes_exec(path: &str) -> (r: String)
    ensures
        r@ == forward_slashes(path@),
{
    proof {
        reveal_strlit("/");
    }
    let n = path.unicode_len();
    let mut r = String::new();
    let mut i: usize = 0;
    while i < n
        invariant
            i <= n,
            n == path@.len(),
            r@ == forward_slashes(path@.take(i as int)),
        decreases n - i,
    {
        let c = path.get_char(i);
        let ghost before = r@;
        if c == '\\' {
            r.append("/");
            proof {
                reveal_strlit("/");
            }
            assert(r@ =~= before.push('/'));
        } else {
            let piece = path.substring_char(i, i + 1);
            assert(piece@ =~= seq![c]);
            r.append(piece);
            assert(r@ =~= before.push(c));
        }
        proof {
            let f = |c: char| if c == '\\' { '/' } else { c };
            assert(path@.take(i + 1) =~= path@.take(i as int).push(c));
            assert(path@.take(i + 1).map_values(f) =~= path@.take(i as int).map_values(f).push(f(c)));
            assert(r@ =~= before.push(f(c)));
        }
        i = i + 1;
    }
    proof {
        assert(path@.take(n as int) =~= path@);
    }
    r
}

/// The `file:` URL of `path` on `platform`.
pub fn path_to_file_url(path: &str, platform: Platform) -> (r: String)
    ensures
        r@ == file_url_spec(path@, platform),
{
    match platform {
        Platform::Windows => {
            let fwd = forward_slashes_exec(path);
            let cs = chars_of(fwd.as_str());
            let pat = chars_of("//");
            proof {
                reveal_strlit("//");
                assert(cs@.subrange(0, cs.len() as int) =~= cs@);
            }
            let start = trim_start_seq_bound(&cs, &pat, 0, cs.len());
            let rest = substring(fwd.as_str(), start, cs.len());
            concat("file:///", rest.as_str())
        },
        _ => concat("file://", path),
    }
}

/// The part of `policies.json` before the extension's URL.
pub const POLICY_HEAD: &'static str = "{\n  \"policies\": {\n    \"ExtensionSettings\": {\n      \"plur@local\": {\n        \"installation_mode\": \"force_installed\",\n        \"install_url\": \"";

/// The part of `policies.json` after the extension's URL.
pub const POLICY_TAIL: &'static str = "\"\n      }\n    },\n    \"Preferences\": {\n      \"toolkit.legacyUserProfileCustomizations.stylesheets\": true\n    }\n  }\n}\n";

/// The `policies.json` that force-installs the extension packed at `xpi_path`
/// and enables user stylesheets.
pub fn firefox_policy_json(xpi_path: &str, platform: Platform) -> (r: String)
    ensures
        r@ == POLICY_HEAD@ + file_url_spec(xpi_path@, platform) + POLICY_TAIL@,
{
    let url = path_to_file_url(xpi_path, platform);
    concat3(POLICY_HEAD, url.as_str(), POLICY_TAIL)
}

/// The Firefox manifest up to the extension id.
pub const FIREFOX_MANIFEST_HEAD: &'static str = "{\n  \"manifest_version\": 2,\n  \"name\": \"Plur Mod Injector\",\n  \"version\": \"0.1.0\",\n  \"description\": \"Injects plur result.css and result.js\",\n  \"applications\": {\n    \"gecko\": {\n      \"id\": \"";

/// The Firefox manifest after the extension id.
pub const FIREFOX_MANIFEST_TAIL: &'static str = "\"\n    }\n  },\n  \"content_scripts\": [\n    {\n      \"matches\": [\"<all_urls>\"],\n      \"css\": [\"result.css\"],\n      \"js\": [\"result.js\"],\n      \"run_at\": \"document_end\"\n    }\n  ]\n}\n";

/// The manifest of the Firefox extension (manifest version 2, with
/// the gecko id).
pub fn manifest_json_firefox() -> (r: String)
    ensures
        r@ == FIREFOX_MANIFEST_HEAD@ + FIREFOX_EXTENSION_ID@ + FIREFOX_MANIFEST_TAIL@,
        contains(r@, FIREFOX_EXTENSION_ID@),
{
    let r = concat3(FIREFOX_MANIFEST_HEAD, FIREFOX_EXTENSION_ID, FIREFOX_MANIFEST_TAIL);
    proof {
        let h = FIREFOX_MANIFEST_HEAD@.len() as int;
        let n = FIREFOX_EXTENSION_ID@.len() as int;
        assert(r@.subrange(h, h + n) =~= FIREFOX_EXTENSION_ID@);
        assert(match_at(r@, FIREFOX_EXTENSION_ID@, h));
    }
    r
}

// ---------------------------------------------------------------------------
// @import lines
// ---------------------------------------------------------------------------

/// `@import "<filename>";`
pub open spec fn import_line_spec(filename: Seq<char>) -> Seq<char> {
    "@import \""@ + filename + "\";"@
}

/// The stylesheet text once it imports `filename`: unchanged where the
/// import line is already there, else with the line appended on a line of
/// its own.
pub open spec fn with_import_spec(content: Seq<char>, filename: Seq<char>) -> Seq<char> {
    let line = import_line_spec(filename);
    if contains(content, line) {
        content
    } else {
        let sep = if content.len() > 0 && content.last() != '\n' {
            "\n"@
        } else {
            ""@
        };
        content + sep + line + "\n"@
    }
}

/// The new text of `userContent.css` / `userChrome.css` that imports
/// `filename`, or `None` where it already does.
pub fn with_import_line(content: &str, filename: &str) -> (r: Option<String>)
    ensures
        match r {
            Some(s) => !contains(content@, import_line_spec(filename@)) && s@ == with_import_spec(
                content@,
                filename@,
            ),
            None => contains(content@, import_line_spec(filename@)),
        },
{
    let line = concat3("@import \"", filename, "\";");
    let cs = chars_of(content);
    let lc = chars_of(line.as_str());
    proof {
        reveal_strlit("@import \"");
        reveal_strlit("\";");
        reveal_strlit("\n");
        reveal_strlit("");
    }
    if contains_chars(&cs, &lc) {
        return None;
    }
    let n = cs.len();
    let mut out = String::from_str(content);
    if n > 0 && cs[n - 1] != '\n' {
        out.append("\n");
    } else {
        out.append("");
    }
    out.append(line.as_str());
    out.append("\n");
    Some(out)
}

/// A law: the new text imports `filename`, and asking again changes nothing.
pub proof fn with_import_is_idempotent(content: Seq<char>, filename: Seq<char>)
    ensures
        contains(with_import_spec(content, filename), import_line_spec(filename)),
        with_import_spec(with_import_spec(content, filename), filename) == with_import_spec(
            content,
            filename,
        ),
{
    let line = import_line_spec(filename);
    let r = with_import_spec(content, filename);
    if !contains(content, line) {
        let sep = if content.len() > 0 && content.last() != '\n' {
            "\n"@
        } else {
            ""@
        };
        let k = (content.len() + sep.len()) as int;
        assert(r.subrange(k, k + line.len()) =~= line);
        assert(match_at(r, line, k));
    }
}

// ---------------------------------------------------------------------------
// Where Firefox keeps things
// ---------------------------------------------------------------------------

/// `home/Library/Application Support`.
pub open spec fn mac_support(home: Seq<char>) -> Seq<char> {
    join(join(home, "Library"@), "Application Support"@)
}

/// The directories that hold Firefox profiles on Linux, under `home`.
pub open spec fn linux_firefox_roots(home: Seq<char>) -> Seq<Seq<char>> {
    seq![
        join(join(home, ".mozilla"@), "firefox"@),
        join(join(join(home, ".config"@), "mozilla"@), "firefox"@),
        join(
            join(join(join(join(home, ".var"@), "app"@), "org.mozilla.firefox"@), ".mozilla"@),
            "firefox"@,
        ),
    ]
}

/// `%APPDATA%\Mozilla\Firefox`, where `%APPDATA%` is set (joined as on
/// Windows).
pub open spec fn windows_firefox_roots(app_data: Option<Seq<char>>) -> Seq<Seq<char>> {
    match app_data {
        Some(a) => seq![windows_join(windows_join(a, "Mozilla"@), "Firefox"@)],
        None => seq![],
    }
}

/// The directories that hold Firefox profiles on `platform`, given the
/// home directory and `%APPDATA%` where it is set.
pub open spec fn firefox_roots_spec(platform: Platform, home: Seq<char>, app_data: Option<Seq<char>>) -> Seq<
    Seq<char>,
> {
    match platform {
        Platform::MacOs => seq![join(mac_support(home), "Firefox"@)],
        Platform::Linux => linux_firefox_roots(home),
        Platform::Windows => windows_firefox_roots(app_data),
        Platform::Other => seq![],
    }
}

pub open spec fn opt_str(o: Option<&str>) -> Option<Seq<char>> {
    match o {
        Some(s) => Some(s@),
        None => None,
    }
}

fn join2(a: &str, b: &str, c: &str) -> (r: String)
    ensures
        r@ == join(join(a@, b@), c@),
{
    let x = join_path(a, b);
    join_path(x.as_str(), c)
}

fn linux_roots_exec(home: &str) -> (r: Vec<String>)
    ensures
        strings_view(r@) == linux_firefox_roots(home@),
{
    let a = join2(home, ".mozilla", "firefox");
    let b1 = join_path(home, ".config");
    let b = join2(b1.as_str(), "mozilla", "firefox");
    let c1 = join2(home, ".var", "app");
    let c2 = join2(c1.as_str(), "org.mozilla.firefox", ".mozilla");
    let c = join_path(c2.as_str(), "firefox");
    let mut r: Vec<String> = Vec::new();
    r.push(a);
    r.push(b);
    r.push(c);
    assert(strings_view(r@) =~= linux_firefox_roots(home@));
    r
}

fn windows_join2(a: &str, b: &str, c: &str) -> (r: String)
    ensures
        r@ == windows_join(windows_join(a@, b@), c@),
{
    let x = windows_join_path(a, b);
    windows_join_path(x.as_str(), c)
}

fn windows_roots_exec(app_data: Option<&str>) -> (r: Vec<String>)
    ensures
        strings_view(r@) == windows_firefox_roots(opt_str(app_data)),
{
    let mut r: Vec<String> = Vec::new();
    if let Some(a) = app_data {
        r.push(windows_join2(a, "Mozilla", "Firefox"));
    }
    assert(strings_view(r@) =~= windows_firefox_roots(opt_str(app_data)));
    r
}

/// The directories that hold Firefox profiles on `platform`.
pub fn firefox_profile_roots(platform: Platform, home: &str, app_data: Option<&str>) -> (r: Vec<String>)
    ensures
        strings_view(r@) == firefox_roots_spec(platform, home@, opt_str(app_data)),
{
    match platform {
        Platform::MacOs => {
            let support = join2(home, "Library", "Application Support");
            let mut r: Vec<String> = Vec::new();
            r.push(join_path(support.as_str(), "Firefox"));
            assert(strings_view(r@) =~= firefox_roots_spec(platform, home@, opt_str(app_data)));
            r
        },
        Platform::Linux => linux_roots_exec(home),
        Platform::Windows => windows_roots_exec(app_data),
        Platform::Other => {
            let r: Vec<String> = Vec::new();
            assert(strings_view(r@) =~= firefox_roots_spec(platform, home@, opt_str(app_data)));
            r
        },
    }
}

/// `<dir>\Mozilla Firefox\distribution\policies.json`.
pub open spec fn windows_policy(dir: Seq<char>) -> Seq<char> {
    windows_join(windows_join(windows_join(dir, "Mozilla Firefox"@), "distribution"@), "policies.json"@)
}

/// Where an enterprise policy for Firefox may be written on `platform`,
/// given `%PROGRAMFILES%` and `%PROGRAMFILES(X86)%` where they are set.
pub open spec fn firefox_policy_paths_spec(
    platform: Platform,
    program_files: Option<Seq<char>>,
    program_files_x86: Option<Seq<char>>,
) -> Seq<Seq<char>> {
    match platform {
        Platform::MacOs => seq![
            "/Applications/Firefox.app/Contents/Resources/distribution/policies.json"@,
            "/Applications/Firefox Developer Edition.app/Contents/Resources/distribution/policies.json"@,
        ],
        Platform::Linux => seq![
            "/etc/firefox/policies/policies.json"@,
            "/usr/lib/firefox/distribution/policies.json"@,
            "/usr/lib64/firefox/distribution/policies.json"@,
        ],
        Platform::Windows => (match program_files {
            Some(p) => seq![windows_policy(p)],
            None => seq![],
        }) + (match program_files_x86 {
            Some(p) => seq![windows_policy(p)],
            None => seq![],
        }),
        Platform::Other => seq![],
    }
}

fn windows_policy_exec(dir: &str) -> (r: String)
    ensures
        r@ == windows_policy(dir@),
{
    let x = windows_join2(dir, "Mozilla Firefox", "distribution");
    windows_join_path(x.as_str(), "policies.json")
}

/// Where an enterprise policy for Firefox may be written on `platform`.
pub fn firefox_policy_paths(platform: Platform, program_files: Option<&str>, program_files_x86: Option<&str>) -> (r: Vec<
    String,
>)
    ensures
        strings_view(r@) == firefox_policy_paths_spec(
            platform,
            opt_str(program_files),
            opt_str(program_files_x86),
        ),
{
    let mut r: Vec<String> = Vec::new();
    match platform {
        Platform::MacOs => {
            r.push(String::from_str("/Applications/Firefox.app/Contents/Resources/distribution/policies.json"));
            r.push(
                String::from_str(
                    "/Applications/Firefox Developer Edition.app/Contents/Resources/distribution/policies.json",
                ),
            );
        },
        Platform::Linux => {
            r.push(String::from_str("/etc/firefox/policies/policies.json"));
            r.push(String::from_str("/usr/lib/firefox/distribution/policies.json"));
            r.push(String::from_str("/usr/lib64/firefox/distribution/policies.json"));
        },
        Platform::Windows => {
            if let Some(p) = program_files {
                r.push(windows_policy_exec(p));
            }
            if let Some(p) = program_files_x86 {
                r.push(windows_policy_exec(p));
            }
        },
        Platform::Other => {},
    }
    assert(strings_view(r@) =~= firefox_policy_paths_spec(
        platform,
        opt_str(program_files),
        opt_str(program_files_x86),
    ));
    r
}

/// The directories of the older managers and of Firefox that only
/// `platform` has: on macOS under `Application Support`, on Linux the
/// Firefox profile roots, on Windows under `%APPDATA%` and `%LOCALAPPDATA%`.
pub open spec fn legacy_platform_roots(
    platform: Platform,
    home: Seq<char>,
    app_data: Option<Seq<char>>,
    local_app_data: Option<Seq<char>>,
) -> Seq<Seq<char>> {
    match platform {
        Platform::MacOs => seq![
            join(mac_support(home), "Sine"@),
            join(mac_support(home), "CosmoCreeper"@),
            join(mac_support(home), "Firefox"@),
        ],
        Platform::Linux => linux_firefox_roots(home),
        Platform::Windows => windows_firefox_roots(app_data) + match local_app_data {
            Some(l) => seq![windows_join(l, "Sine"@), windows_join(l, "CosmoCreeper"@)],
            None => seq![],
        },
        Platform::Other => seq![],
    }
}

/// The places where configurations of the older managers may be found: their
/// own directories, those of `platform`, and the `chrome` directory of each
/// profile in `profiles`.
pub open spec fn legacy_roots_spec(
    platform: Platform,
    home: Seq<char>,
    app_data: Option<Seq<char>>,
    local_app_data: Option<Seq<char>>,
    profiles: Seq<Seq<char>>,
) -> Seq<Seq<char>> {
    seq![
        join(home, ".sine"@),
        join(join(home, ".config"@), "sine"@),
        join(join(home, ".config"@), "cosmocreeper"@),
    ] + legacy_platform_roots(platform, home, app_data, local_app_data) + profiles.map_values(
        |p: Seq<char>| join_on(platform, p, "chrome"@),
    )
}

fn legacy_platform_roots_exec(
    platform: Platform,
    home: &str,
    app_data: Option<&str>,
    local_app_data: Option<&str>,
) -> (r: Vec<String>)
    ensures
        strings_view(r@) == legacy_platform_roots(
            platform,
            home@,
            opt_str(app_data),
            opt_str(local_app_data),
        ),
{
    match platform {
        Platform::MacOs => {
            let support = join2(home, "Library", "Application Support");
            let mut r: Vec<String> = Vec::new();
            r.push(join_path(support.as_str(), "Sine"));
            r.push(join_path(support.as_str(), "CosmoCreeper"));
            r.push(join_path(support.as_str(), "Firefox"));
            assert(strings_view(r@) =~= legacy_platform_roots(
                platform,
                home@,
                opt_str(app_data),
                opt_str(local_app_data),
            ));
            r
        },
        Platform::Linux => linux_roots_exec(home),
        Platform::Windows => {
            let mut r = windows_roots_exec(app_data);
            if let Some(l) = local_app_data {
                r.push(windows_join_path(l, "Sine"));
                r.push(windows_join_path(l, "CosmoCreeper"));
            }
            assert(strings_view(r@) =~= legacy_platform_roots(
                platform,
                home@,
                opt_str(app_data),
                opt_str(local_app_data),
            ));
            r
        },
        Platform::Other => {
            let r: Vec<String> = Vec::new();
            assert(strings_view(r@) =~= legacy_platform_roots(
                platform,
                home@,
                opt_str(app_data),
                opt_str(local_app_data),
            ));
            r
        },
    }
}

/// The places where configurations of the older managers may be found.
pub fn legacy_roots(
    platform: Platform,
    home: &str,
    app_data: Option<&str>,
    local_app_data: Option<&str>,
    profiles: &Vec<String>,
) -> (r: Vec<String>)
    ensures
        strings_view(r@) == legacy_roots_spec(
            platform,
            home@,
            opt_str(app_data),
            opt_str(local_app_data),
            strings_view(profiles@),
        ),
{
    let mut r: Vec<String> = Vec::new();
    r.push(join_path(home, ".sine"));
    let cfg = join_path(home, ".config");
    r.push(join_path(cfg.as_str(), "sine"));
    r.push(join_path(cfg.as_str(), "cosmocreeper"));
    let mut roots = legacy_platform_roots_exec(platform, home, app_data, local_app_data);
    let ghost first3 = strings_view(r@);
    let ghost rr = roots@;
    r.append(&mut roots);
    proof {
        assert(strings_view(r@) =~= first3 + strings_view(rr));
        assert(first3 =~= seq![
            join(home@, ".sine"@),
            join(join(home@, ".config"@), "sine"@),
            join(join(home@, ".config"@), "cosmocreeper"@),
        ]);
    }
    let ghost fixed = strings_view(r@);
    let mut i: usize = 0;
    while i < profiles.len()
        invariant
            i <= profiles.len(),
            strings_view(r@) == fixed + strings_view(profiles@).take(i as int).map_values(
                |p: Seq<char>| join_on(platform, p, "chrome"@),
            ),
        decreases profiles.len() - i,
    {
        let ghost before = r@;
        let x = join_on_path(platform, profiles[i].as_str(), "chrome");
        r.push(x);
        proof {
            assert(strings_view(r@) =~= strings_view(before).push(x@));
            let f = |p: Seq<char>| join_on(platform, p, "chrome"@);
            assert(strings_view(profiles@).take(i + 1).map_values(f) =~= strings_view(profiles@).take(
                i as int,
            ).map_values(f).push(x@));
            assert(strings_view(profiles@).take(i + 1) =~= strings_view(profiles@).take(
                i as int,
            ).push(profiles@[i as int]@));
            assert(strings_view(r@) =~= fixed + strings_view(profiles@).take(i + 1).map_values(
                |p: Seq<char>| join_on(platform, p, "chrome"@),
            ));
        }
        i = i + 1;
    }
    proof {
        assert(strings_view(profiles@).take(i as int) =~= strings_view(profiles@));
    }
    r
}


// ---------------------------------------------------------------------------
// Installing into Firefox profiles
// ---------------------------------------------------------------------------

/// One step of installing the results into a Firefox profile: make a
/// directory, copy a file, add the `@import` of a file to a stylesheet (as
/// `with_import_line` does), or log a line.
pub enum ProfileStep {
    CreateDir(String),
    Copy(String, String),
    Import(String, String),
    Log(String),
}

/// A step, as values.
pub enum StepV {
    CreateDir(Seq<char>),
    Copy(Seq<char>, Seq<char>),
    Import(Seq<char>, Seq<char>),
    Log(Seq<char>),
}

pub open spec fn step_view(s: ProfileStep) -> StepV {
    match s {
        ProfileStep::CreateDir(d) => StepV::CreateDir(d@),
        ProfileStep::Copy(a, b) => StepV::Copy(a@, b@),
        ProfileStep::Import(a, b) => StepV::Import(a@, b@),
        ProfileStep::Log(l) => StepV::Log(l@),
    }
}

pub open spec fn steps_view(v: Seq<ProfileStep>) -> Seq<StepV> {
    v.map_values(|s: ProfileStep| step_view(s))
}

/// The reminder that closes the install into each profile.
pub open spec fn stylesheets_pref_reminder() -> Seq<char> {
    "Firefox: ensure `toolkit.legacyUserProfileCustomizations.stylesheets` is enabled."@
}

/// The steps that install the results into the profile `profile`: its
/// `chrome` directory is made; `result.css` (where it exists) is copied to
/// `plur.userContent.css` and imported from `userContent.css`; `result.js`
/// is copied to `plur.userContent.js`; `result.chrome.css` is copied to
/// `plur.userChrome.css` and imported from `userChrome.css`; each with its
/// log line, and the reminder about user stylesheets last.
pub open spec fn profile_steps_spec(
    pf: Platform,
    profile: Seq<char>,
    css: Seq<char>,
    js: Seq<char>,
    chrome_css: Seq<char>,
    css_exists: bool,
    js_exists: bool,
    chrome_css_exists: bool,
) -> Seq<StepV> {
    let dir = join_on(pf, profile, "chrome"@);
    let user_js = join_on(pf, dir, "plur.userContent.js"@);
    seq![StepV::CreateDir(dir)] + (if css_exists {
        seq![
            StepV::Copy(css, join_on(pf, dir, "plur.userContent.css"@)),
            StepV::Import(join_on(pf, dir, "userContent.css"@), "plur.userContent.css"@),
            StepV::Log("Firefox CSS installed in "@ + dir),
        ]
    } else {
        seq![]
    }) + (if js_exists {
        seq![
            StepV::Copy(js, user_js),
            StepV::Log("Firefox JS copied to "@ + user_js + " (requires userChromeJS or loader)"@),
        ]
    } else {
        seq![]
    }) + (if chrome_css_exists {
        seq![
            StepV::Copy(chrome_css, join_on(pf, dir, "plur.userChrome.css"@)),
            StepV::Import(join_on(pf, dir, "userChrome.css"@), "plur.userChrome.css"@),
            StepV::Log("Firefox UI CSS installed in "@ + dir),
        ]
    } else {
        seq![]
    }) + seq![StepV::Log(stylesheets_pref_reminder())]
}

fn push_step(v: &mut Vec<ProfileStep>, s: ProfileStep)
    ensures
        steps_view(final(v)@) == steps_view(old(v)@).push(step_view(s)),
{
    let ghost sv = step_view(s);
    v.push(s);
    assert(steps_view(v@) =~= steps_view(old(v)@).push(sv));
}

/// The steps that install the results `css`, `js` and `chrome_css` (given
/// which of them exist) into the Firefox profile `profile`.
pub fn firefox_profile_install(
    profile: &str,
    pf: Platform,
    css: &str,
    js: &str,
    chrome_css: &str,
    css_exists: bool,
    js_exists: bool,
    chrome_css_exists: bool,
) -> (r: Vec<ProfileStep>)
    ensures
        steps_view(r@) == profile_steps_spec(
            pf,
            profile@,
            css@,
            js@,
            chrome_css@,
            css_exists,
            js_exists,
            chrome_css_exists,
        ),
{
    let dir = join_on_path(pf, profile, "chrome");
    let d = dir.as_str();
    let mut r: Vec<ProfileStep> = Vec::new();
    push_step(&mut r, ProfileStep::CreateDir(String::from_str(d)));
    let ghost a = steps_view(r@);
    if css_exists {
        push_step(&mut r, ProfileStep::Copy(String::from_str(css), join_on_path(pf, d, "plur.userContent.css")));
        push_step(
            &mut r,
            ProfileStep::Import(join_on_path(pf, d, "userContent.css"), String::from_str("plur.userContent.css")),
        );
        push_step(&mut r, ProfileStep::Log(concat("Firefox CSS installed in ", d)));
    }
    let ghost b = steps_view(r@);
    if js_exists {
        let user_js = join_on_path(pf, d, "plur.userContent.js");
        push_step(&mut r, ProfileStep::Copy(String::from_str(js), user_js.clone()));
        push_step(
            &mut r,
            ProfileStep::Log(concat3("Firefox JS copied to ", user_js.as_str(), " (requires userChromeJS or loader)")),
        );
    }
    let ghost c = steps_view(r@);
    if chrome_css_exists {
        push_step(&mut r, ProfileStep::Copy(String::from_str(chrome_css), join_on_path(pf, d, "plur.userChrome.css")));
        push_step(
            &mut r,
            ProfileStep::Import(join_on_path(pf, d, "userChrome.css"), String::from_str("plur.userChrome.css")),
        );
        push_step(&mut r, ProfileStep::Log(concat("Firefox UI CSS installed in ", d)));
    }
    push_step(
        &mut r,
        ProfileStep::Log(
            String::from_str("Firefox: ensure `toolkit.legacyUserProfileCustomizations.stylesheets` is enabled."),
        ),
    );
    proof {
        let dv = join_on(pf, profile@, "chrome"@);
        let uj = join_on(pf, dv, "plur.userContent.js"@);
        let p1 = if css_exists {
            seq![
                StepV::Copy(css@, join_on(pf, dv, "plur.userContent.css"@)),
                StepV::Import(join_on(pf, dv, "userContent.css"@), "plur.userContent.css"@),
                StepV::Log("Firefox CSS installed in "@ + dv),
            ]
        } else {
            seq![]
        };
        let p2 = if js_exists {
            seq![
                StepV::Copy(js@, uj),
                StepV::Log("Firefox JS copied to "@ + uj + " (requires userChromeJS or loader)"@),
            ]
        } else {
            seq![]
        };
        let p3 = if chrome_css_exists {
            seq![
                StepV::Copy(chrome_css@, join_on(pf, dv, "plur.userChrome.css"@)),
                StepV::Import(join_on(pf, dv, "userChrome.css"@), "plur.userChrome.css"@),
                StepV::Log("Firefox UI CSS installed in "@ + dv),
            ]
        } else {
            seq![]
        };
        assert(a =~= seq![StepV::CreateDir(dv)]);
        assert(b =~= a + p1);
        assert(c =~= b + p2);
        assert(steps_view(r@) =~= profile_steps_spec(
            pf,
            profile@,
            css@,
            js@,
            chrome_css@,
            css_exists,
            js_exists,
            chrome_css_exists,
        ));
    }
    r
}

/// Whether installing into Firefox stops for want of profiles: it does
/// where `profile_count` is 0, and then logs that it skips.
pub fn firefox_install_skipped(profile_count: usize, logs: &mut Vec<String>) -> (skipped: bool)
    ensures
        skipped == (profile_count == 0),
        skipped ==> final(logs)@.len() == old(logs)@.len() + 1 && final(logs)@.drop_last() == old(logs)@
            && final(logs)@.last()@ == "Firefox profiles not found. Skipping."@,
        !skipped ==> final(logs)@ == old(logs)@,
{
    if profile_count == 0 {
        let ghost before = logs@;
        logs.push(String::from_str("Firefox profiles not found. Skipping."));
        assert(logs@.drop_last() =~= before);
        true
    } else {
        false
    }
}

/// Where a profile receives the packed extension: its `extensions`
/// directory and, in it, `plur@local.xpi`.
pub fn profile_extension_paths(profile: &str, pf: Platform) -> (r: (String, String))
    ensures
        r.0@ == join_on(pf, profile@, "extensions"@),
        r.1@ == join_on(pf, join_on(pf, profile@, "extensions"@), FIREFOX_EXTENSION_ID@ + ".xpi"@),
{
    let dir = join_on_path(pf, profile, "extensions");
    let name = concat(FIREFOX_EXTENSION_ID, ".xpi");
    let target = join_on_path(pf, dir.as_str(), name.as_str());
    (dir, target)
}

/// The log line of a profile that received the extension at `target`.
pub fn extension_updated_log(target: &str) -> (r: String)
    ensures
        r@ == "Firefox extension updated in "@ + target@,
{
    concat("Firefox extension updated in ", target)
}

/// The log line of a profile whose `extensions` directory could not be
/// made, with the system's message.
pub fn extension_dir_failed_log(message: &str) -> (r: String)
    ensures
        r@ == "Firefox extensions dir create failed: "@ + message@,
{
    concat("Firefox extensions dir create failed: ", message)
}

/// The directory of the packed Firefox extension, `~/.plur/extension-firefox`,
/// and the package in it, `plur-firefox.xpi`.
pub fn firefox_extension_paths(home: &str, pf: Platform) -> (r: (String, String))
    ensures
        r.0@ == join_on(pf, join_on(pf, home@, ".plur"@), "extension-firefox"@),
        r.1@ == join_on(pf, r.0@, "plur-firefox.xpi"@),
{
    let plur = join_on_path(pf, home, ".plur");
    let dir = join_on_path(pf, plur.as_str(), "extension-firefox");
    let xpi = join_on_path(pf, dir.as_str(), "plur-firefox.xpi");
    (dir, xpi)
}

/// Closes the writing of the policy: a line for each policy file written,
/// or, where none was, that the policy was not written.
pub fn firefox_policy_done(written: &Vec<String>, logs: &mut Vec<String>)
    ensures
        written.len() == 0 ==> final(logs)@.map_values(|s: String| s@) == old(logs)@.map_values(
            |s: String| s@,
        ).push("Firefox policy not written (missing permissions or install path)."@),
        written.len() > 0 ==> final(logs)@.map_values(|s: String| s@) == old(logs)@.map_values(
            |s: String| s@,
        ) + written@.map_values(|w: String| "Firefox policy written to "@ + w@),
{
    let ghost start = old(logs)@.map_values(|s: String| s@);
    if written.len() == 0 {
        logs.push(String::from_str("Firefox policy not written (missing permissions or install path)."));
        assert(logs@.map_values(|s: String| s@) =~= start.push(
            "Firefox policy not written (missing permissions or install path)."@,
        ));
        return;
    }
    let mut i: usize = 0;
    while i < written.len()
        invariant
            i <= written.len(),
            start == old(logs)@.map_values(|s: String| s@),
            logs@.map_values(|s: String| s@) == start + written@.take(i as int).map_values(
                |w: String| "Firefox policy written to "@ + w@,
            ),
        decreases written.len() - i,
    {
        let ghost before = logs@;
        let line = concat("Firefox policy written to ", written[i].as_str());
        logs.push(line);
        proof {
            let f = |w: String| "Firefox policy written to "@ + w@;
            assert(written@.take(i + 1) =~= written@.take(i as int).push(written@[i as int]));
            assert(written@.take(i + 1).map_values(f) =~= written@.take(i as int).map_values(f).push(
                f(written@[i as int]),
            ));
            assert(logs@.map_values(|s: String| s@) =~= before.map_values(|s: String| s@).push(
                f(written@[i as int]),
            ));
        }
        i = i + 1;
    }
    assert(written@.take(i as int) =~= written@);
}


/// A law of installing into a profile: the steps begin by making the
/// profile's `chrome` directory and end with the reminder about user
/// stylesheets; where `result.css` exists it is copied to
/// `chrome/plur.userContent.css` and imported from `chrome/userContent.css`,
/// where `result.js` exists it is copied to `chrome/plur.userContent.js`, and
/// where `result.chrome.css` exists it is copied to
/// `chrome/plur.userChrome.css` and imported from `chrome/userChrome.css`,
/// each whatever the other results are; nothing else is done.
pub proof fn profile_install_covers_each_result(
    pf: Platform,
    profile: Seq<char>,
    css: Seq<char>,
    js: Seq<char>,
    chrome_css: Seq<char>,
    css_exists: bool,
    js_exists: bool,
    chrome_css_exists: bool,
)
    ensures
        ({
            let steps = profile_steps_spec(pf, profile, css, js, chrome_css, css_exists, js_exists, chrome_css_exists);
            let dir = join_on(pf, profile, "chrome"@);
            &&& steps.len() == 2 + (if css_exists { 3int } else { 0 }) + (if js_exists { 2int } else { 0 }) + (
            if chrome_css_exists {
                3int
            } else {
                0
            })
            &&& steps[0] == StepV::CreateDir(dir)
            &&& steps.last() == StepV::Log(
                "Firefox: ensure `toolkit.legacyUserProfileCustomizations.stylesheets` is enabled."@,
            )
            &&& css_exists ==> steps.contains(StepV::Copy(css, join_on(pf, dir, "plur.userContent.css"@)))
                && steps.contains(StepV::Import(join_on(pf, dir, "userContent.css"@), "plur.userContent.css"@))
            &&& js_exists ==> steps.contains(StepV::Copy(js, join_on(pf, dir, "plur.userContent.js"@)))
            &&& chrome_css_exists ==> steps.contains(
                StepV::Copy(chrome_css, join_on(pf, dir, "plur.userChrome.css"@)),
            ) && steps.contains(StepV::Import(join_on(pf, dir, "userChrome.css"@), "plur.userChrome.css"@))
        }),
{
    let steps = profile_steps_spec(pf, profile, css, js, chrome_css, css_exists, js_exists, chrome_css_exists);
    let dir = join_on(pf, profile, "chrome"@);
    let n1: int = if css_exists { 3 } else { 0 };
    let n2: int = if js_exists { 2 } else { 0 };
    if css_exists {
        assert(steps[1] == StepV::Copy(css, join_on(pf, dir, "plur.userContent.css"@)));
        assert(steps[2] == StepV::Import(join_on(pf, dir, "userContent.css"@), "plur.userContent.css"@));
    }
    if js_exists {
        assert(steps[1 + n1] == StepV::Copy(js, join_on(pf, dir, "plur.userContent.js"@)));
    }
    if chrome_css_exists {
        assert(steps[1 + n1 + n2] == StepV::Copy(chrome_css, join_on(pf, dir, "plur.userChrome.css"@)));
        assert(steps[2 + n1 + n2] == StepV::Import(join_on(pf, dir, "userChrome.css"@), "plur.userChrome.css"@));
    }
}


// ---------------------------------------------------------------------------
// What a section of profiles.ini contributes
// ---------------------------------------------------------------------------

/// The reader's state after the lines of `s` (without closing the last
/// section).
pub open spec fn ini_run(pf: Platform, s: Seq<char>, st: IniState, base: Seq<char>) -> IniState
    decreases s.len(),
{
    let i = line_end(s);
    let st2 = ini_line(pf, st, trim(s.take(i)), base);
    if 0 <= i < s.len() {
        ini_run(pf, s.skip(i + 1), st2, base)
    } else {
        st2
    }
}

proof fn lemma_trim_empty()
    ensures
        trim(Seq::<char>::empty()) == Seq::<char>::empty(),
{
    assert(trim_start(Seq::<char>::empty()) == Seq::<char>::empty());
    assert(trim_end(Seq::<char>::empty()) == Seq::<char>::empty());
}

proof fn lemma_empty_line(pf: Platform, st: IniState, base: Seq<char>)
    ensures
        ini_line(pf, st, trim(Seq::<char>::empty()), base) == st,
        line_end(Seq::<char>::empty()) == 0,
{
    lemma_trim_empty();
    reveal_strlit("[");
    reveal_strlit("Path=");
    reveal_strlit("IsRelative=");
    assert forall|j: int| !match_at(Seq::<char>::empty(), seq!['\n'], j) by {}
    lemma_find_none(Seq::<char>::empty(), seq!['\n']);
}

/// Where `h` holds no `\n`, the first `\n` of `h + "\n" + d` ends `h`.
proof fn lemma_line_end_at(h: Seq<char>, d: Seq<char>)
    requires
        !h.contains('\n'),
    ensures
        line_end(h + seq!['\n'] + d) == h.len(),
        (h + seq!['\n'] + d).take(h.len() as int) == h,
        (h + seq!['\n'] + d).skip(h.len() as int + 1) == d,
{
    let s = h + seq!['\n'] + d;
    let p = seq!['\n'];
    assert(s.subrange(h.len() as int, h.len() as int + 1) =~= p);
    assert forall|j: int| 0 <= j < h.len() implies !match_at(s, p, j) by {
        if match_at(s, p, j) {
            assert(s.subrange(j, j + 1)[0] == s[j]);
            assert(s[j] == h[j]);
        }
    }
    assert(is_first_match(s, p, h.len() as int));
    lemma_find_is(s, p, h.len() as int);
    assert(s.take(h.len() as int) =~= h);
    assert(s.skip(h.len() as int + 1) =~= d);
}

/// Reading `c + d`, where `c` is whole lines, is reading `d` after the lines
/// of `c`.
proof fn lemma_ini_concat(pf: Platform, c: Seq<char>, d: Seq<char>, st: IniState, base: Seq<char>)
    requires
        c.len() == 0 || c.last() == '\n',
    ensures
        ini_from(pf, c + d, st, base) == ini_from(pf, d, ini_run(pf, c, st, base), base),
    decreases c.len(),
{
    let p = seq!['\n'];
    if c.len() == 0 {
        assert(c + d =~= d);
        lemma_empty_line(pf, st, base);
        assert(c.take(0) =~= Seq::<char>::empty());
    } else {
        assert(match_at(c, p, c.len() - 1)) by {
            assert(c.subrange(c.len() - 1, c.len() as int) =~= p);
        }
        lemma_first_match_exists(c, p, c.len() - 1);
        let i = choose|i: int| is_first_match(c, p, i);
        lemma_find_is(c, p, i);
        let cd = c + d;
        assert(match_at(cd, p, i)) by {
            assert(cd.subrange(i, i + 1) =~= c.subrange(i, i + 1));
        }
        assert forall|j: int| 0 <= j < i implies !match_at(cd, p, j) by {
            assert(!match_at(c, p, j));
            assert(cd.subrange(j, j + 1) =~= c.subrange(j, j + 1));
        }
        assert(is_first_match(cd, p, i));
        lemma_find_is(cd, p, i);
        assert(cd.take(i) =~= c.take(i));
        let rest = c.skip(i + 1);
        assert(cd.skip(i + 1) =~= rest + d);
        if rest.len() > 0 {
            assert(rest.last() == c.last());
        }
        let st2 = ini_line(pf, st, trim(c.take(i)), base);
        lemma_ini_concat(pf, rest, d, st2, base);
    }
}

/// A law of `profiles.ini`: after whole lines `c`, a section header `h`
/// (a line `[...]`) that no `Path=` follows adds no profile.
pub proof fn ini_header_without_path_adds_nothing(pf: Platform, c: Seq<char>, h: Seq<char>, base: Seq<char>)
    requires
        c.len() == 0 || c.last() == '\n',
        h.len() >= 2,
        h[0] == '[',
        h.last() == ']',
        !h.contains('\n'),
    ensures
        parse_profiles_spec(pf, c + h + "\n"@, base) == parse_profiles_spec(pf, c, base),
{
    reveal_strlit("\n");
    reveal_strlit("[");
    reveal_strlit("]");
    let init: IniState = (Seq::empty(), None, true);
    let r = ini_run(pf, c, init, base);
    let e = Seq::<char>::empty();
    assert(c + h + "\n"@ =~= c + (h + seq!['\n'] + e));
    lemma_ini_concat(pf, c, h + seq!['\n'] + e, init, base);
    assert(c =~= c + e);
    lemma_ini_concat(pf, c, e, init, base);
    lemma_line_end_at(h, e);
    lemma_trim_unchanged(h);
    assert(starts_with(h, "["@)) by {
        assert(h.subrange(0, 1) =~= "["@);
    }
    assert(ends_with(h, "]"@)) by {
        assert(h.subrange(h.len() - 1, h.len() as int) =~= "]"@);
    }
    let st2 = ini_line(pf, r, trim(h), base);
    assert(st2 == (ini_flush(pf, r, base), None::<Seq<char>>, true));
    lemma_empty_line(pf, st2, base);
    lemma_empty_line(pf, r, base);
    assert(e.take(0) =~= e);
    let d = h + seq!['\n'] + e;
    assert(ini_from(pf, e, st2, base) == ini_flush(pf, st2, base));
    assert(ini_from(pf, d, r, base) == ini_from(pf, e, st2, base));
    assert(ini_from(pf, e, r, base) == ini_flush(pf, r, base));
    assert(parse_profiles_spec(pf, c + h + "\n"@, base) == ini_from(pf, c + d, init, base));
    assert(parse_profiles_spec(pf, c, base) == ini_from(pf, c + e, init, base));
}

/// A law of `profiles.ini`: after whole lines `c`, a section header `h`
/// followed by `Path=p` adds exactly one profile, `p` joined to the
/// directory of `profiles.ini` (a new section is relative until it says
/// otherwise).
#[verifier::rlimit(40)]
pub proof fn ini_section_with_path_adds_one(
    pf: Platform,
    c: Seq<char>,
    h: Seq<char>,
    p: Seq<char>,
    base: Seq<char>,
)
    requires
        c.len() == 0 || c.last() == '\n',
        h.len() >= 2,
        h[0] == '[',
        h.last() == ']',
        !h.contains('\n'),
        !p.contains('\n'),
        p.len() == 0 || (!is_ws(p[0]) && !is_ws(p.last())),
    ensures
        parse_profiles_spec(pf, c + h + "\n"@ + "Path="@ + p + "\n"@, base) == parse_profiles_spec(
            pf,
            c,
            base,
        ).push(join_on(pf, base, p)),
{
    reveal_strlit("\n");
    reveal_strlit("[");
    reveal_strlit("]");
    reveal_strlit("Path=");
    let init: IniState = (Seq::empty(), None, true);
    let r = ini_run(pf, c, init, base);
    let e = Seq::<char>::empty();
    let q = "Path="@ + p;
    let d2 = q + seq!['\n'] + e;
    assert(c + h + "\n"@ + "Path="@ + p + "\n"@ =~= c + (h + seq!['\n'] + d2));
    lemma_ini_concat(pf, c, h + seq!['\n'] + d2, init, base);
    assert(c =~= c + e);
    lemma_ini_concat(pf, c, e, init, base);
    lemma_line_end_at(h, d2);
    lemma_trim_unchanged(h);
    assert(starts_with(h, "["@)) by {
        assert(h.subrange(0, 1) =~= "["@);
    }
    assert(ends_with(h, "]"@)) by {
        assert(h.subrange(h.len() - 1, h.len() as int) =~= "]"@);
    }
    let st2 = ini_line(pf, r, trim(h), base);
    assert(st2 == (ini_flush(pf, r, base), None::<Seq<char>>, true));
    assert(!q.contains('\n')) by {
        if q.contains('\n') {
            let j = choose|j: int| 0 <= j < q.len() && q[j] == '\n';
            if j >= 5 {
                assert(q[j] == p[j - 5]);
            }
        }
    }
    lemma_line_end_at(q, e);
    assert(q[0] == 'P');
    assert(q.last() == if p.len() == 0 { '=' } else { p.last() });
    lemma_trim_unchanged(q);
    assert(!starts_with(q, "["@)) by {
        assert(q.subrange(0, 1)[0] == 'P');
    }
    assert(starts_with(q, "Path="@)) by {
        assert(q.subrange(0, 5) =~= "Path="@);
    }
    assert(q.skip(5) =~= p);
    if p.len() == 0 {
        lemma_trim_empty();
    } else {
        lemma_trim_unchanged(p);
    }
    let st3 = ini_line(pf, st2, trim(q), base);
    assert(st3 == (ini_flush(pf, r, base), Some(p), true));
    lemma_empty_line(pf, st3, base);
    lemma_empty_line(pf, r, base);
    assert(e.take(0) =~= e);
    assert(ini_from(pf, e, st3, base) == ini_flush(pf, st3, base));
    assert(ini_from(pf, d2, st2, base) == ini_from(pf, e, st3, base));
    assert(ini_from(pf, h + seq!['\n'] + d2, r, base) == ini_from(pf, d2, st2, base));
    assert(ini_from(pf, e, r, base) == ini_flush(pf, r, base));
    assert(ini_flush(pf, st3, base) == ini_flush(pf, r, base).push(resolve_profile_spec(pf, base, p, true)));
}

} // verus!
