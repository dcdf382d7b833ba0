//! Building the results: merging the files of the mods into `result.css`,
//! `result.js`, `result.chrome.css` and `theme.json`, and what a mod's
//! `plur.toml` asks to fetch.
use vstd::prelude::*;
use crate::text::{concat, decimal, decimal_string, chars_of};
use crate::paths::{file_name_on, file_name_on_of, Platform};
use crate::doc::{Doc, DocV, doc_view, member, entries_view, find_member, lemma_doc_view_unfold};
use crate::naming::{dep_target_dir, dep_target_dir_spec};
use crate::chromium::{default_theme_json, default_theme_spec};
use crate::theme::{merge_theme, merge_theme_docs};

verus! {

broadcast use vstd::string::group_string_axioms;

// ---------------------------------------------------------------------------
// Where the results go
// ---------------------------------------------------------------------------

/// A path after tilde expansion: unchanged, or (for `~` alone, `~/...`, and
/// on Windows also `~\...`) some home directory followed by what came after
/// the `~`.
pub open spec fn tilde_expansion_of(path: Seq<char>, r: Seq<char>) -> bool {
    ||| r == path
    ||| (path.len() > 0 && path[0] == '~' && (path.len() == 1 || path[1] == '/' || path[1] == '\\')
        && r.len() >= path.len()
        - 1 && r.skip(r.len() - (path.len() - 1)) == path.skip(1))
}

/// `shellexpand::tilde`: where `path` is `~` or starts with `~/` (or, built
/// for Windows, `~\`) and a home
/// directory is known, that directory followed by the rest of `path`; else
/// `path` unchanged. Which home directory it finds depends on the
/// environment, so the contract does not say which.
#[verifier::external_body]
fn expand_tilde(path: &str) -> (r: String)
    ensures
        tilde_expansion_of(path@, r@),
{
    shellexpand::tilde(path).to_string()
}

/// The four result files.
pub struct ResultPaths {
    pub css: String,
    pub js: String,
    pub chrome_css: String,
    pub theme: String,
}

/// `~/.plur/result.css`, `~/.plur/result.js`, `~/.plur/result.chrome.css`
/// and `~/.plur/theme.json`, with the home directory expanded.
pub fn result_paths() -> (r: ResultPaths)
    ensures
        tilde_expansion_of("~/.plur/result.css"@, r.css@),
        tilde_expansion_of("~/.plur/result.js"@, r.js@),
        tilde_expansion_of("~/.plur/result.chrome.css"@, r.chrome_css@),
        tilde_expansion_of("~/.plur/theme.json"@, r.theme@),
{
    ResultPaths {
        css: expand_tilde("~/.plur/result.css"),
        js: expand_tilde("~/.plur/result.js"),
        chrome_css: expand_tilde("~/.plur/result.chrome.css"),
        theme: expand_tilde("~/.plur/theme.json"),
    }
}

// ---------------------------------------------------------------------------
// Merging
// ---------------------------------------------------------------------------

/// The files of a mod that the build merges.
pub enum ModFileKind {
    Css,
    Js,
    ChromeCss,
    Theme,
}

/// The kind of the file at `path`, by its file name as `pf` reads it.
pub open spec fn mod_file_kind_spec(pf: Platform, path: Seq<char>) -> Option<ModFileKind> {
    match file_name_on(pf, path) {
        Some(n) => if n == "plur.css"@ {
            Some(ModFileKind::Css)
        } else if n == "plur.js"@ {
            Some(ModFileKind::Js)
        } else if n == "plur.chrome.css"@ {
            Some(ModFileKind::ChromeCss)
        } else if n == "plur.theme.json"@ {
            Some(ModFileKind::Theme)
        } else {
            None
        },
        None => None,
    }
}

fn chars_equal(a: &Vec<char>, b: &str) -> (r: bool)
    ensures
        r == (a@ == b@),
{
    let bc = chars_of(b);
    if a.len() != bc.len() {
        return false;
    }
    let mut i: usize = 0;
    while i < a.len()
        invariant
            a.len() == bc.len(),
            bc@ == b@,
            i <= a.len(),
            forall|k: int| 0 <= k < i ==> a@[k] == bc@[k],
        decreases a.len() - i,
    {
        if a[i] != bc[i] {
            return false;
        }
        i = i + 1;
    }
    assert(a@ =~= bc@);
    true
}

/// Which of the merged files the file at `path` is, if any, the path read
/// as on `pf`.
pub fn classify_mod_file(path: &str, pf: Platform) -> (r: Option<ModFileKind>)
    ensures
        r == mod_file_kind_spec(pf, path@),
{
    let pc = chars_of(path);
    match file_name_on_of(pf, &pc) {
        Some(n) => {
            if chars_equal(&n, "plur.css") {
                Some(ModFileKind::Css)
            } else if chars_equal(&n, "plur.js") {
                Some(ModFileKind::Js)
            } else if chars_equal(&n, "plur.chrome.css") {
                Some(ModFileKind::ChromeCss)
            } else if chars_equal(&n, "plur.theme.json") {
                Some(ModFileKind::Theme)
            } else {
                None
            }
        },
        None => None,
    }
}

/// The block that a merged stylesheet contributes: a comment naming it,
/// its text, and a blank line.
pub open spec fn css_block(path: Seq<char>, content: Seq<char>) -> Seq<char> {
    "/* "@ + path + " */\n"@ + content + "\n\n"@
}

/// The block that a merged script contributes.
pub open spec fn js_block(path: Seq<char>, content: Seq<char>) -> Seq<char> {
    "// "@ + path + "\n"@ + content + "\n\n"@
}

/// The theme after one more theme file whose value is `d`: `d` itself where
/// none came before, else `d` merged over what came before.
pub open spec fn theme_after(prev: Option<Doc>, d: DocV) -> DocV {
    match prev {
        Some(p) => merge_theme(doc_view(p), d),
        None => d,
    }
}

/// The build so far: the merged texts, the merge of the themes that
/// parsed, the counts and the log.
pub struct BuildState {
    pub css: String,
    pub js: String,
    pub chrome_css: String,
    pub theme: Option<Doc>,
    pub count: usize,
    pub js_count: usize,
    pub chrome_count: usize,
    pub theme_count: usize,
    pub logs: Vec<String>,
}

impl BuildState {
    /// An empty build over the mods in `mods_path`, logging where it looks.
    pub fn new(mods_path: &str, logs: Vec<String>) -> (s: Self)
        ensures
            s.css@.len() == 0 && s.js@.len() == 0 && s.chrome_css@.len() == 0,
            s.theme is None,
            s.count == 0 && s.js_count == 0 && s.chrome_count == 0 && s.theme_count == 0,
            s.logs@.len() == logs@.len() + 1,
            s.logs@.drop_last() == logs@,
            s.logs@.last()@ == "Searching for plur.css in "@ + mods_path@,
    {
        let mut logs = logs;
        let ghost start = logs@;
        logs.push(concat("Searching for plur.css in ", mods_path));
        assert(logs@.drop_last() =~= start);
        BuildState {
            css: String::new(),
            js: String::new(),
            chrome_css: String::new(),
            theme: None,
            count: 0,
            js_count: 0,
            chrome_count: 0,
            theme_count: 0,
            logs,
        }
    }

    /// Merges a `plur.css`, `plur.js` or `plur.chrome.css` read from `path`.
    pub fn add_text(&mut self, kind: ModFileKind, path: &str, content: &str)
        requires
            !(kind is Theme),
            old(self).count < usize::MAX,
            old(self).js_count < usize::MAX,
            old(self).chrome_count < usize::MAX,
        ensures
            final(self).theme == old(self).theme,
            final(self).theme_count == old(self).theme_count,
            final(self).logs@.len() == old(self).logs@.len() + 1,
            final(self).logs@.drop_last() == old(self).logs@,
            kind is Css ==> {
                &&& final(self).css@ == old(self).css@ + css_block(path@, content@)
                &&& final(self).count == old(self).count + 1
                &&& final(self).logs@.last()@ == "Merged "@ + path@
                &&& final(self).js == old(self).js && final(self).js_count == old(self).js_count
                &&& final(self).chrome_css == old(self).chrome_css && final(self).chrome_count
                    == old(self).chrome_count
            },
            kind is Js ==> {
                &&& final(self).js@ == old(self).js@ + js_block(path@, content@)
                &&& final(self).js_count == old(self).js_count + 1
                &&& final(self).logs@.last()@ == "Merged JS "@ + path@
                &&& final(self).css == old(self).css && final(self).count == old(self).count
                &&& final(self).chrome_css == old(self).chrome_css && final(self).chrome_count
                    == old(self).chrome_count
            },
            kind is ChromeCss ==> {
                &&& final(self).chrome_css@ == old(self).chrome_css@ + css_block(path@, content@)
                &&& final(self).chrome_count == old(self).chrome_count + 1
                &&& final(self).logs@.last()@ == "Merged UI CSS "@ + path@
                &&& final(self).css == old(self).css && final(self).count == old(self).count
                &&& final(self).js == old(self).js && final(self).js_count == old(self).js_count
            },
    {
        let ghost old_logs = self.logs@;
        match kind {
            ModFileKind::Css => {
                self.css.append("/* ");
                self.css.append(path);
                self.css.append(" */\n");
                self.css.append(content);
                self.css.append("\n\n");
                self.logs.push(concat("Merged ", path));
                self.count = self.count + 1;
            },
            ModFileKind::Js => {
                self.js.append("// ");
                self.js.append(path);
                self.js.append("\n");
                self.js.append(content);
                self.js.append("\n\n");
                self.logs.push(concat("Merged JS ", path));
                self.js_count = self.js_count + 1;
            },
            _ => {
                self.chrome_css.append("/* ");
                self.chrome_css.append(path);
                self.chrome_css.append(" */\n");
                self.chrome_css.append(content);
                self.chrome_css.append("\n\n");
                self.logs.push(concat("Merged UI CSS ", path));
                self.chrome_count = self.chrome_count + 1;
            },
        }
        assert(self.logs@.drop_last() =~= old_logs);
    }

    /// Takes in a `plur.theme.json` read from `path`: the document where it
    /// parsed, merged over the themes taken in before (see `merge_theme`), or
    /// the parser's message where it did not.
    pub fn add_theme(&mut self, path: &str, parsed: Result<Doc, String>)
        requires
            old(self).theme_count < usize::MAX,
        ensures
            final(self).css == old(self).css && final(self).js == old(self).js
                && final(self).chrome_css == old(self).chrome_css,
            final(self).count == old(self).count && final(self).js_count == old(self).js_count
                && final(self).chrome_count == old(self).chrome_count,
            final(self).logs@.len() == old(self).logs@.len() + 1,
            final(self).logs@.drop_last() == old(self).logs@,
            match parsed {
                Ok(d) => {
                    &&& final(self).theme matches Some(t) && doc_view(t) == theme_after(
                        old(self).theme,
                        doc_view(d),
                    )
                    &&& final(self).theme_count == old(self).theme_count + 1
                    &&& final(self).logs@.last()@ == "Theme loaded "@ + path@
                },
                Err(e) => {
                    &&& final(self).theme == old(self).theme
                    &&& final(self).theme_count == old(self).theme_count
                    &&& final(self).logs@.last()@ == "Theme parse failed: "@ + e@
                },
            },
    {
        let ghost old_logs = self.logs@;
        match parsed {
            Ok(d) => {
                let mut prev: Option<Doc> = None;
                std::mem::swap(&mut prev, &mut self.theme);
                let next = match prev {
                    Some(p) => merge_theme_docs(p, d),
                    None => d,
                };
                self.theme = Some(next);
                self.theme_count = self.theme_count + 1;
                self.logs.push(concat("Theme loaded ", path));
            },
            Err(e) => {
                self.logs.push(concat("Theme parse failed: ", e.as_str()));
            },
        }
        assert(self.logs@.drop_last() =~= old_logs);
    }

    /// Logs the four results as written, then how many themes were merged
    /// where there were any; hands back the theme to write.
    pub fn finish(&mut self, paths: &ResultPaths) -> (theme: Doc)
        ensures
            final(self).css == old(self).css && final(self).js == old(self).js
                && final(self).chrome_css == old(self).chrome_css,
            final(self).count == old(self).count && final(self).js_count == old(self).js_count
                && final(self).chrome_count == old(self).chrome_count && final(self).theme_count
                == old(self).theme_count,
            final(self).theme is None,
            match old(self).theme {
                Some(d) => theme == d,
                None => doc_view(theme) == default_theme_spec(),
            },
            strings_of(final(self).logs@) == strings_of(old(self).logs@) + written_logs(
                paths.css@,
                paths.js@,
                paths.chrome_css@,
                paths.theme@,
                old(self).theme_count as nat,
            ),
    {
        let ghost old_logs = self.logs@;
        self.logs.push(concat("Wrote ", paths.css.as_str()));
        self.logs.push(concat("Wrote ", paths.js.as_str()));
        self.logs.push(concat("Wrote ", paths.chrome_css.as_str()));
        self.logs.push(concat("Wrote ", paths.theme.as_str()));
        if self.theme_count > 0 {
            let n = decimal_string(self.theme_count);
            self.logs.push(concat("Theme files merged: ", n.as_str()));
        }
        proof {
            let w = written_logs(
                paths.css@,
                paths.js@,
                paths.chrome_css@,
                paths.theme@,
                self.theme_count as nat,
            );
            assert(strings_of(self.logs@) =~= strings_of(old_logs) + w);
        }
        let mut t: Option<Doc> = None;
        std::mem::swap(&mut t, &mut self.theme);
        match t {
            Some(d) => d,
            None => default_theme_json(),
        }
    }
}

pub open spec fn strings_of(v: Seq<String>) -> Seq<Seq<char>> {
    v.map_values(|s: String| s@)
}

/// The log lines that close a build.
pub open spec fn written_logs(css: Seq<char>, js: Seq<char>, chrome: Seq<char>, theme: Seq<char>, themes: nat) -> Seq<
    Seq<char>,
> {
    seq!["Wrote "@ + css, "Wrote "@ + js, "Wrote "@ + chrome, "Wrote "@ + theme] + if themes > 0 {
        seq!["Theme files merged: "@ + decimal(themes)]
    } else {
        seq![]
    }
}


// ---------------------------------------------------------------------------
// Dependencies named by plur.toml
// ---------------------------------------------------------------------------

/// One entry of the `[deps]` table of a mod's `plur.toml`: its name, and
/// where it has a `repo`, that URL and the directory to clone it into.
pub struct DepPlan {
    pub name: String,
    pub fetch: Option<(String, String)>,
}

/// The members of the `deps` table of a `plur.toml`, if it has one.
pub open spec fn deps_entries(doc: DocV) -> Seq<(Seq<char>, DocV)> {
    match doc {
        DocV::Object(es) => match member(es, "deps"@) {
            Some(DocV::Object(d)) => d,
            _ => seq![],
        },
        _ => seq![],
    }
}

/// What to fetch for the dependency `name` described by `v`.
pub open spec fn dep_fetch(mod_dir: Seq<char>, name: Seq<char>, v: DocV) -> Option<(Seq<char>, Seq<char>)> {
    match v {
        DocV::Object(t) => match member(t, "repo"@) {
            Some(DocV::Text(r)) => Some((r, dep_target_dir_spec(mod_dir, name, r))),
            _ => None,
        },
        _ => None,
    }
}

pub open spec fn fetch_view(f: Option<(String, String)>) -> Option<(Seq<char>, Seq<char>)> {
    match f {
        Some((a, b)) => Some((a@, b@)),
        None => None,
    }
}

/// The dependencies that the parsed `plur.toml` of the mod in `mod_dir`
/// lists, in order, each with what to fetch.
pub fn module_deps(doc: &Doc, mod_dir: &str) -> (r: Vec<DepPlan>)
    ensures
        r.len() == deps_entries(doc_view(*doc)).len(),
        forall|i: int|
            0 <= i < r.len() ==> (#[trigger] r@[i]).name@ == deps_entries(doc_view(*doc))[i].0
                && fetch_view(r@[i].fetch) == dep_fetch(
                mod_dir@,
                deps_entries(doc_view(*doc))[i].0,
                deps_entries(doc_view(*doc))[i].1,
            ),
{
    let mut r: Vec<DepPlan> = Vec::new();
    proof {
        lemma_doc_view_unfold(*doc);
    }
    let top = match doc {
        Doc::Object(es) => es,
        _ => {
            return r;
        },
    };
    let found = find_member(top, "deps");
    match found {
        Some(d) => {
            proof {
                lemma_doc_view_unfold(*d);
            }
        },
        None => {},
    }
    let deps = match found {
        Some(Doc::Object(d)) => d,
        _ => {
            return r;
        },
    };
    let ghost ds = entries_view(deps@);
    assert(deps_entries(doc_view(*doc)) == ds);
    let mut i: usize = 0;
    while i < deps.len()
        invariant
            i <= deps.len(),
            ds == entries_view(deps@),
            r.len() == i,
            forall|j: int|
                0 <= j < i ==> (#[trigger] r@[j]).name@ == ds[j].0 && fetch_view(r@[j].fetch)
                    == dep_fetch(mod_dir@, ds[j].0, ds[j].1),
        decreases deps.len() - i,
    {
        let name = &deps[i].0;
        proof {
            lemma_doc_view_unfold(deps@[i as int].1);
        }
        let fetch = match &deps[i].1 {
            Doc::Object(t) => match find_member(t, "repo") {
                Some(Doc::Text(repo)) => {
                    proof {
                        lemma_doc_view_unfold(Doc::Text(*repo));
                    }
                    let dir = dep_target_dir(mod_dir, name.as_str(), repo.as_str());
                    Some((repo.clone(), dir))
                },
                other => {
                    proof {
                        match other {
                            Some(x) => lemma_doc_view_unfold(*x),
                            None => {},
                        }
                    }
                    None
                },
            },
            _ => None,
        };
        r.push(DepPlan { name: name.clone(), fetch });
        i = i + 1;
    }
    r
}

} // verus!
