//! What the configurations of the older managers (Sine, CosmoCreeper) tell:
//! repository URLs and the paths where they wrote their outputs.
use vstd::prelude::*;
use crate::text::{
    trim, starts_with, ends_with, contains, trim_start_seq, lower, trim_bounds, chars_of,
    substring, starts_with_chars, ends_with_chars, contains_chars, trim_start_seq_bound,
    lower_chars, concat,
};
use crate::paths::{
    join_on, join_on_path, is_absolute_on, is_absolute_on_exec, extension_on, file_name_on,
    path_components, comps_view, components_on, Component, extension_on_of, file_name_on_of, Platform,
};
use crate::naming::{normalize_repo_spec, normalize_repo_string, opt_view, sub_chars};
use crate::doc::Doc;

verus! {

broadcast use vstd::string::group_string_axioms;

// ---------------------------------------------------------------------------
// Output paths
// ---------------------------------------------------------------------------

pub open spec fn has_output_suffix(t: Seq<char>) -> bool {
    ends_with(t, ".css"@) || ends_with(t, ".js"@) || ends_with(t, ".json"@)
}

/// Where a configured output path points: `~/` is the home directory, an
/// absolute (or drive-lettered) path stands, anything else is taken from the
/// configuration's directory `base_dir`. Only `.css`, `.js` and `.json`
/// outputs count.
pub open spec fn normalize_output_spec(pf: Platform, value: Seq<char>, base_dir: Option<Seq<char>>, home: Seq<char>) -> Option<
    Seq<char>,
> {
    let t = trim(value);
    if t.len() == 0 || !has_output_suffix(t) {
        None
    } else {
        let p = if starts_with(t, "~/"@) {
            join_on(pf, home, trim_start_seq(t, "~/"@))
        } else if starts_with(t, "/"@) || contains(t, ":\\"@) || contains(t, ":/"@) {
            t
        } else {
            match base_dir {
                Some(b) => join_on(pf, b, t),
                None => t,
            }
        };
        Some(
            if !is_absolute_on(pf, p) && base_dir is Some {
                join_on(pf, base_dir->0, p)
            } else {
                p
            },
        )
    }
}

pub open spec fn opt_str(o: Option<&str>) -> Option<Seq<char>> {
    match o {
        Some(s) => Some(s@),
        None => None,
    }
}

/// The output path that a configuration value names, resolved against the
/// configuration's directory and the home directory `home`, paths read and
/// joined as on `pf`.
pub fn normalize_output_path(value: &str, base_dir: Option<&str>, home: &str, pf: Platform) -> (r: Option<String>)
    ensures
        opt_view(r) == normalize_output_spec(pf, value@, opt_str(base_dir), home@),
{
    proof {
        reveal_strlit(".css");
        reveal_strlit(".js");
        reveal_strlit(".json");
        reveal_strlit("~/");
        reveal_strlit("/");
        reveal_strlit(":\\");
        reveal_strlit(":/");
    }
    let vc = chars_of(value);
    let (a, b) = trim_bounds(&vc, 0, vc.len());
    proof {
        assert(vc@.subrange(0, vc.len() as int) =~= value@);
    }
    if a == b {
        return None;
    }
    let t = sub_chars(&vc, a, b);
    let ts = substring(value, a, b);
    let css = chars_of(".css");
    let js = chars_of(".js");
    let json = chars_of(".json");
    if !(ends_with_chars(&t, &css) || ends_with_chars(&t, &js) || ends_with_chars(&t, &json)) {
        return None;
    }
    let tilde = chars_of("~/");
    let slash = chars_of("/");
    let drive1 = chars_of(":\\");
    let drive2 = chars_of(":/");
    let p = if starts_with_chars(&t, &tilde) {
        let s = trim_start_seq_bound(&t, &tilde, 0, t.len());
        proof {
            assert(t@.subrange(0, t.len() as int) =~= t@);
        }
        let rest = substring(ts.as_str(), s, t.len());
        join_on_path(pf, home, rest.as_str())
    } else if starts_with_chars(&t, &slash) || contains_chars(&t, &drive1) || contains_chars(
        &t,
        &drive2,
    ) {
        ts
    } else {
        match base_dir {
            Some(bd) => join_on_path(pf, bd, ts.as_str()),
            None => ts,
        }
    };
    let rooted = is_absolute_on_exec(pf, p.as_str());
    match base_dir {
        Some(bd) => {
            if !rooted {
                return Some(join_on_path(pf, bd, p.as_str()));
            }
            Some(p)
        },
        None => Some(p),
    }
}

/// What a legacy configuration names.
pub enum OutKind {
    Repo,
    Css,
    Js,
    ChromeCss,
    Theme,
}

/// The kind of output a path is, by its extension; `chrome` says whether a
/// stylesheet styles the browser UI.
pub open spec fn output_kind(pf: Platform, p: Seq<char>, chrome: bool) -> Option<OutKind> {
    match extension_on(pf, p) {
        Some(e) => if e == "css"@ {
            Some(
                if chrome {
                    OutKind::ChromeCss
                } else {
                    OutKind::Css
                },
            )
        } else if e == "js"@ {
            Some(OutKind::Js)
        } else if e == "json"@ {
            Some(OutKind::Theme)
        } else {
            None
        },
        None => None,
    }
}

/// A stylesheet path whose file name mentions `chrome` is a UI stylesheet.
pub open spec fn chrome_file(pf: Platform, p: Seq<char>) -> bool {
    match file_name_on(pf, p) {
        Some(n) => contains(lower(n), "chrome"@),
        None => false,
    }
}

/// A string value names `x` as a repository or an output of kind `kind`.
pub open spec fn text_emits(pf: Platform, 
    s: Seq<char>,
    base: Option<Seq<char>>,
    home: Seq<char>,
    kind: OutKind,
    x: Seq<char>,
) -> bool {
    if kind is Repo {
        normalize_repo_spec(s) == Some(x)
    } else {
        normalize_output_spec(pf, s, base, home) == Some(x) && output_kind(pf, x, chrome_file(pf, x)) == Some(
            kind,
        )
    }
}

/// A key-value pair of an object names `x`: keys mentioning `repo` or `url`
/// give repositories, keys mentioning `output` or `path` give outputs (UI
/// stylesheets where the key mentions `chrome`).
pub open spec fn entry_emits(pf: Platform, 
    key: Seq<char>,
    value: Doc,
    base: Option<Seq<char>>,
    home: Seq<char>,
    kind: OutKind,
    x: Seq<char>,
) -> bool {
    let k = lower(key);
    match value {
        Doc::Text(s) => if kind is Repo {
            (contains(k, "repo"@) || contains(k, "url"@)) && normalize_repo_spec(s@) == Some(x)
        } else {
            (contains(k, "output"@) || contains(k, "path"@)) && normalize_output_spec(pf, 
                s@,
                base,
                home,
            ) == Some(x) && output_kind(pf, x, contains(k, "chrome"@)) == Some(kind)
        },
        _ => false,
    }
}

/// The document names `x` as a repository or an output of kind `kind`,
/// anywhere in it.
pub open spec fn emits(pf: Platform, v: Doc, base: Option<Seq<char>>, home: Seq<char>, kind: OutKind, x: Seq<char>) -> bool
    decreases v,
{
    match v {
        Doc::Text(s) => text_emits(pf, s@, base, home, kind, x),
        Doc::Array(items) => exists|i: int|
            0 <= i < items.len() && emits(pf, #[trigger] items@[i], base, home, kind, x),
        Doc::Object(entries) => exists|i: int|
            0 <= i < entries.len() && (entry_emits(pf, 
                (#[trigger] entries@[i]).0@,
                entries@[i].1,
                base,
                home,
                kind,
                x,
            ) || emits(pf, entries@[i].1, base, home, kind, x)),
        _ => false,
    }
}

// ---------------------------------------------------------------------------
// Sets of repositories and of paths
// ---------------------------------------------------------------------------

/// Two paths are the same path when their components are (`PathBuf == PathBuf`).
pub open spec fn same_path(pf: Platform, a: Seq<char>, b: Seq<char>) -> bool {
    path_components(pf, a) == path_components(pf, b)
}

pub open spec fn has_string(v: Seq<String>, x: Seq<char>) -> bool {
    exists|i: int| 0 <= i < v.len() && (#[trigger] v[i])@ == x
}

pub open spec fn has_path(pf: Platform, v: Seq<String>, x: Seq<char>) -> bool {
    exists|i: int| 0 <= i < v.len() && same_path(pf, (#[trigger] v[i])@, x)
}

pub open spec fn distinct_strings(v: Seq<String>) -> bool {
    forall|i: int, j: int| 0 <= i < v.len() && 0 <= j < v.len() && i != j ==> (#[trigger] v[i])@ != (#[trigger] v[j])@
}

pub open spec fn distinct_paths(pf: Platform, v: Seq<String>) -> bool {
    forall|i: int, j: int|
        0 <= i < v.len() && 0 <= j < v.len() && i != j ==> !same_path(pf, (#[trigger] v[i])@, (#[trigger] v[j])@)
}

fn normal_equal(a: &Vec<char>, b: &Vec<char>) -> (r: bool)
    ensures
        r == (a@ == b@),
{
    if a.len() != b.len() {
        return false;
    }
    let mut i: usize = 0;
    while i < a.len()
        invariant
            a.len() == b.len(),
            i <= a.len(),
            forall|k: int| 0 <= k < i ==> a@[k] == b@[k],
        decreases a.len() - i,
    {
        if a[i] != b[i] {
            return false;
        }
        i = i + 1;
    }
    assert(a@ =~= b@);
    true
}

fn comp_equal(a: &Component, b: &Component) -> (r: bool)
    ensures
        r == (a@ == b@),
{
    match (a, b) {
        (Component::Unc(s1, t1), Component::Unc(s2, t2)) => normal_equal(s1, s2) && normal_equal(t1, t2),
        (Component::Disk(x), Component::Disk(y)) => *x == *y,
        (Component::RootDir, Component::RootDir) => true,
        (Component::CurDir, Component::CurDir) => true,
        (Component::ParentDir, Component::ParentDir) => true,
        (Component::Normal(x), Component::Normal(y)) => normal_equal(x, y),
        _ => false,
    }
}

/// Whether two paths are the same path.
pub fn same_path_exec(a: &str, b: &str, pf: Platform) -> (r: bool)
    ensures
        r == same_path(pf, a@, b@),
{
    let ac = chars_of(a);
    let bc = chars_of(b);
    let ca = components_on(pf, &ac);
    let cb = components_on(pf, &bc);
    if ca.len() != cb.len() {
        assert(comps_view(ca@).len() == ca@.len());
        assert(comps_view(cb@).len() == cb@.len());
        assert(path_components(pf, a@) != path_components(pf, b@));
        return false;
    }
    let mut i: usize = 0;
    while i < ca.len()
        invariant
            ca.len() == cb.len(),
            comps_view(ca@) == path_components(pf, a@),
            comps_view(cb@) == path_components(pf, b@),
            i <= ca.len(),
            forall|k: int| 0 <= k < i ==> comps_view(ca@)[k] == comps_view(cb@)[k],
        decreases ca.len() - i,
    {
        if !comp_equal(&ca[i], &cb[i]) {
            assert(comps_view(ca@)[i as int] != comps_view(cb@)[i as int]);
            return false;
        }
        i = i + 1;
    }
    assert(comps_view(ca@) =~= comps_view(cb@));
    true
}

/// Adds the repository `x` unless it is there.
fn add_string(v: &mut Vec<String>, x: String)
    requires
        distinct_strings(old(v)@),
    ensures
        distinct_strings(final(v)@),
        has_string(final(v)@, x@),
        forall|s: Seq<char>| has_string(final(v)@, s) <==> (has_string(old(v)@, s) || s == x@),
{
    let mut i: usize = 0;
    while i < v.len()
        invariant
            i <= v.len(),
            v@ == old(v)@,
            distinct_strings(old(v)@),
            forall|k: int| 0 <= k < i ==> (#[trigger] v@[k])@ != x@,
        decreases v.len() - i,
    {
        if crate::text::eq_str(v[i].as_str(), x.as_str()) {
            return;
        }
        i = i + 1;
    }
    let ghost old_v = v@;
    v.push(x);
    proof {
        assert(v@[old_v.len() as int]@ == x@);
        assert forall|s: Seq<char>| has_string(v@, s) <==> (has_string(old_v, s) || s == x@) by {
            if has_string(old_v, s) {
                let k = choose|k: int| 0 <= k < old_v.len() && (#[trigger] old_v[k])@ == s;
                assert(v@[k] == old_v[k]);
            }
            if has_string(v@, s) {
                let k = choose|k: int| 0 <= k < v@.len() && (#[trigger] v@[k])@ == s;
                if k < old_v.len() {
                    assert(v@[k] == old_v[k]);
                }
            }
        }
    }
}

/// Adds the path `x` unless the same path is there.
fn add_path(pf: Platform, v: &mut Vec<String>, x: String)
    requires
        distinct_paths(pf, old(v)@),
    ensures
        distinct_paths(pf, final(v)@),
        has_path(pf, final(v)@, x@),
        forall|i: int| 0 <= i < final(v)@.len() ==> has_string(old(v)@, (#[trigger] final(v)@[i])@) || final(v)@[i]@ == x@,
        forall|s: Seq<char>| has_path(pf, old(v)@, s) ==> has_path(pf, final(v)@, s),
{
    let mut i: usize = 0;
    while i < v.len()
        invariant
            i <= v.len(),
            v@ == old(v)@,
            distinct_paths(pf, old(v)@),
            forall|k: int| 0 <= k < i ==> !same_path(pf, (#[trigger] v@[k])@, x@),
        decreases v.len() - i,
    {
        if same_path_exec(v[i].as_str(), x.as_str(), pf) {
            proof {
                assert forall|j: int| 0 <= j < v@.len() implies has_string(v@, (#[trigger] v@[j])@) by {
                }
            }
            return;
        }
        i = i + 1;
    }
    let ghost old_v = v@;
    v.push(x);
    proof {
        assert(v@[old_v.len() as int]@ == x@);
        assert(same_path(pf, x@, x@));
        assert forall|j: int| 0 <= j < v@.len() implies has_string(old_v, (#[trigger] v@[j])@) || v@[j]@ == x@ by {
            if j < old_v.len() {
                assert(v@[j] == old_v[j]);
            }
        }
        assert forall|s: Seq<char>| has_path(pf, old_v, s) implies has_path(pf, v@, s) by {
            let k = choose|k: int| 0 <= k < old_v.len() && same_path(pf, (#[trigger] old_v[k])@, s);
            assert(v@[k] == old_v[k]);
        }
        assert forall|a: int, b: int| 0 <= a < v@.len() && 0 <= b < v@.len() && a != b implies !same_path(pf, 
            (#[trigger] v@[a])@,
            (#[trigger] v@[b])@,
        ) by {
            if a < old_v.len() && b < old_v.len() {
                assert(v@[a] == old_v[a] && v@[b] == old_v[b]);
            } else if a < old_v.len() {
                assert(v@[a] == old_v[a]);
            } else if b < old_v.len() {
                assert(v@[b] == old_v[b]);
            }
        }
    }
}

/// What the scan of the legacy configurations found: repository URLs, and
/// the CSS, JS, UI CSS and theme outputs, each without repeats.
pub struct LegacyScan {
    pf: Platform,
    repo_urls: Vec<String>,
    css_outputs: Vec<String>,
    js_outputs: Vec<String>,
    chrome_css_outputs: Vec<String>,
    theme_outputs: Vec<String>,
}

impl LegacyScan {
    /// The platform whose paths the scan reads.
    pub closed spec fn platform(&self) -> Platform {
        self.pf
    }

    pub closed spec fn repos(&self) -> Seq<String> {
        self.repo_urls@
    }

    /// The outputs of one kind.
    pub closed spec fn outputs(&self, kind: OutKind) -> Seq<String> {
        match kind {
            OutKind::Css => self.css_outputs@,
            OutKind::Js => self.js_outputs@,
            OutKind::ChromeCss => self.chrome_css_outputs@,
            _ => self.theme_outputs@,
        }
    }

    /// No repository or output is there twice.
    pub open spec fn wf(&self) -> bool {
        &&& distinct_strings(self.repos())
        &&& distinct_paths(self.platform(), self.outputs(OutKind::Css))
        &&& distinct_paths(self.platform(), self.outputs(OutKind::Js))
        &&& distinct_paths(self.platform(), self.outputs(OutKind::ChromeCss))
        &&& distinct_paths(self.platform(), self.outputs(OutKind::Theme))
    }

    /// Nothing found yet; paths are read as on `pf`.
    pub fn new(pf: Platform) -> (s: Self)
        ensures
            s.wf(),
            s.platform() == pf,
            s.repos().len() == 0,
            s.outputs(OutKind::Css).len() == 0,
            s.outputs(OutKind::Js).len() == 0,
            s.outputs(OutKind::ChromeCss).len() == 0,
            s.outputs(OutKind::Theme).len() == 0,
    {
        LegacyScan {
            pf,
            repo_urls: Vec::new(),
            css_outputs: Vec::new(),
            js_outputs: Vec::new(),
            chrome_css_outputs: Vec::new(),
            theme_outputs: Vec::new(),
        }
    }

    pub fn repo_urls(&self) -> (r: Vec<String>)
        ensures
            r@ == self.repos(),
    {
        self.repo_urls.clone()
    }

    pub fn css_outputs(&self) -> (r: Vec<String>)
        ensures
            r@ == self.outputs(OutKind::Css),
    {
        self.css_outputs.clone()
    }

    pub fn js_outputs(&self) -> (r: Vec<String>)
        ensures
            r@ == self.outputs(OutKind::Js),
    {
        self.js_outputs.clone()
    }

    pub fn chrome_css_outputs(&self) -> (r: Vec<String>)
        ensures
            r@ == self.outputs(OutKind::ChromeCss),
    {
        self.chrome_css_outputs.clone()
    }

    pub fn theme_outputs(&self) -> (r: Vec<String>)
        ensures
            r@ == self.outputs(OutKind::Theme),
    {
        self.theme_outputs.clone()
    }
}

/// The scan after one step: repositories grow by exact URL, outputs by path.
pub open spec fn scan_grows(
    old_scan: LegacyScan,
    new_scan: LegacyScan,
    found: spec_fn(OutKind, Seq<char>) -> bool,
) -> bool {
    &&& new_scan.wf()
    &&& new_scan.platform() == old_scan.platform()
    &&& forall|x: Seq<char>|
        has_string(new_scan.repos(), x) <==> (has_string(old_scan.repos(), x) || found(
            OutKind::Repo,
            x,
        ))
    &&& forall|k: OutKind, x: Seq<char>|
        !(k is Repo) && (has_path(new_scan.platform(), old_scan.outputs(k), x) || found(k, x)) ==> has_path(
            new_scan.platform(),
            new_scan.outputs(k),
            x,
        )
    &&& forall|k: OutKind, i: int|
        !(k is Repo) && 0 <= i < new_scan.outputs(k).len() ==> has_string(
            old_scan.outputs(k),
            (#[trigger] new_scan.outputs(k)[i])@,
        ) || found(k, new_scan.outputs(k)[i]@)
}

impl LegacyScan {
    /// Records that `x` was found as a thing of kind `kind`.
    fn add(&mut self, kind: OutKind, x: String)
        requires
            old(self).wf(),
        ensures
            scan_grows(*old(self), *final(self), |k: OutKind, y: Seq<char>| k == kind && y == x@),
    {
        let ghost xv = x@;
        let pf = self.pf;
        match kind {
            OutKind::Repo => add_string(&mut self.repo_urls, x),
            OutKind::Css => add_path(pf, &mut self.css_outputs, x),
            OutKind::Js => add_path(pf, &mut self.js_outputs, x),
            OutKind::ChromeCss => add_path(pf, &mut self.chrome_css_outputs, x),
            OutKind::Theme => add_path(pf, &mut self.theme_outputs, x),
        }
        proof {
            let f = |k: OutKind, y: Seq<char>| k == kind && y == xv;
            assert forall|k: OutKind, i: int|
                !(k is Repo) && 0 <= i < self.outputs(k).len() implies has_string(
                old(self).outputs(k),
                (#[trigger] self.outputs(k)[i])@,
            ) || f(k, self.outputs(k)[i]@) by {
                if k != kind {
                    assert(self.outputs(k) == old(self).outputs(k));
                    assert(has_string(old(self).outputs(k), self.outputs(k)[i]@));
                }
            }
            assert forall|k: OutKind, y: Seq<char>|
                !(k is Repo) && (has_path(self.platform(), old(self).outputs(k), y) || f(k, y)) implies has_path(
                self.platform(),
                self.outputs(k),
                y,
            ) by {
                if k != kind {
                    assert(self.outputs(k) == old(self).outputs(k));
                }
            }
        }
    }
}

/// Two steps of growth, one after the other, are one step whose new items
/// are those of either.
pub proof fn lemma_grows_trans(
    a: LegacyScan,
    b: LegacyScan,
    c: LegacyScan,
    f: spec_fn(OutKind, Seq<char>) -> bool,
    g: spec_fn(OutKind, Seq<char>) -> bool,
    h: spec_fn(OutKind, Seq<char>) -> bool,
)
    requires
        scan_grows(a, b, f),
        scan_grows(b, c, g),
        forall|k: OutKind, x: Seq<char>| #[trigger] h(k, x) == (f(k, x) || g(k, x)),
    ensures
        scan_grows(a, c, h),
{
    assert forall|k: OutKind, i: int|
        !(k is Repo) && 0 <= i < c.outputs(k).len() implies has_string(
        a.outputs(k),
        (#[trigger] c.outputs(k)[i])@,
    ) || h(k, c.outputs(k)[i]@) by {
        let x = c.outputs(k)[i]@;
        assert(h(k, x) == (f(k, x) || g(k, x)));
        if has_string(b.outputs(k), x) && !g(k, x) {
            let j = choose|j: int| 0 <= j < b.outputs(k).len() && (#[trigger] b.outputs(k)[j])@ == x;
            assert(has_string(a.outputs(k), b.outputs(k)[j]@) || f(k, b.outputs(k)[j]@));
        }
    }
    assert forall|k: OutKind, x: Seq<char>|
        !(k is Repo) && (has_path(c.platform(), a.outputs(k), x) || h(k, x)) implies has_path(
            c.platform(),
            c.outputs(k),
            x,
        ) by {
        assert(h(k, x) == (f(k, x) || g(k, x)));
    }
    assert forall|x: Seq<char>|
        has_string(c.repos(), x) <==> (has_string(a.repos(), x) || h(OutKind::Repo, x)) by {
        assert(h(OutKind::Repo, x) == (f(OutKind::Repo, x) || g(OutKind::Repo, x)));
    }
}

/// A scan grows into itself when nothing new is allowed.
pub proof fn lemma_grows_refl(a: LegacyScan, f: spec_fn(OutKind, Seq<char>) -> bool)
    requires
        a.wf(),
        forall|k: OutKind, x: Seq<char>| !#[trigger] f(k, x),
    ensures
        scan_grows(a, a, f),
{
    assert forall|k: OutKind, i: int|
        !(k is Repo) && 0 <= i < a.outputs(k).len() implies has_string(
        a.outputs(k),
        (#[trigger] a.outputs(k)[i])@,
    ) || f(k, a.outputs(k)[i]@) by {
    }
}

fn kind_of_extension(pf: Platform, p: &String, chrome: bool) -> (r: Option<OutKind>)
    ensures
        r == output_kind(pf, p@, chrome),
{
    proof {
        reveal_strlit("css");
        reveal_strlit("js");
        reveal_strlit("json");
    }
    let pc = chars_of(p.as_str());
    match extension_on_of(pf, &pc) {
        Some(e) => {
            if normal_equal(&e, &chars_of("css")) {
                if chrome {
                    Some(OutKind::ChromeCss)
                } else {
                    Some(OutKind::Css)
                }
            } else if normal_equal(&e, &chars_of("js")) {
                Some(OutKind::Js)
            } else if normal_equal(&e, &chars_of("json")) {
                Some(OutKind::Theme)
            } else {
                None
            }
        },
        None => None,
    }
}

fn is_chrome_file(pf: Platform, p: &String) -> (r: bool)
    ensures
        r == chrome_file(pf, p@),
{
    proof {
        reveal_strlit("chrome");
    }
    let pc = chars_of(p.as_str());
    match file_name_on_of(pf, &pc) {
        Some(n) => {
            let l = lower_chars(&n);
            contains_chars(&l, &chars_of("chrome"))
        },
        None => false,
    }
}

/// What one string value names.
fn extract_text(pf: Platform, s: &String, base_dir: Option<&str>, home: &str, scan: &mut LegacyScan)
    requires
        old(scan).wf(),
        old(scan).platform() == pf,
    ensures
        scan_grows(
            *old(scan),
            *final(scan),
            |k: OutKind, x: Seq<char>| text_emits(pf, s@, opt_str(base_dir), home@, k, x),
        ),
{
    let ghost base = opt_str(base_dir);
    let ghost start = *scan;
    let ghost target = |k: OutKind, x: Seq<char>| text_emits(pf, s@, base, home@, k, x);
    let ghost f1 = |k: OutKind, x: Seq<char>| k is Repo && normalize_repo_spec(s@) == Some(x);
    match normalize_repo_string(s.as_str()) {
        Some(repo) => {
            let ghost rv = repo@;
            scan.add(OutKind::Repo, repo);
            proof {
                let g = |k: OutKind, x: Seq<char>| k == OutKind::Repo && x == rv;
                assert forall|k: OutKind, x: Seq<char>| #[trigger] f1(k, x) == g(k, x) by {
                }
                assert(scan_grows(start, *scan, f1));
            }
        },
        None => {
            proof {
                lemma_grows_refl(start, f1);
            }
        },
    }
    let ghost mid = *scan;
    let ghost f2 = |k: OutKind, x: Seq<char>|
        !(k is Repo) && normalize_output_spec(pf, s@, base, home@) == Some(x) && output_kind(pf, 
            x,
            chrome_file(pf, x),
        ) == Some(k);
    match normalize_output_path(s.as_str(), base_dir, home, pf) {
        Some(p) => {
            let chrome = is_chrome_file(pf, &p);
            match kind_of_extension(pf, &p, chrome) {
                Some(kind) => {
                    let ghost pv = p@;
                    let ghost kd = kind;
                    scan.add(kind, p);
                    proof {
                        let g = |k: OutKind, x: Seq<char>| k == kd && x == pv;
                        assert forall|k: OutKind, x: Seq<char>| #[trigger] f2(k, x) == g(k, x) by {
                        }
                        assert(scan_grows(mid, *scan, f2));
                    }
                },
                None => {
                    proof {
                        lemma_grows_refl(mid, f2);
                    }
                },
            }
        },
        None => {
            proof {
                lemma_grows_refl(mid, f2);
            }
        },
    }
    proof {
        assert forall|k: OutKind, x: Seq<char>| #[trigger] target(k, x) == (f1(k, x) || f2(k, x)) by {
        }
        lemma_grows_trans(start, mid, *scan, f1, f2, target);
    }
}

/// What one key-value pair of an object names by its key.
fn extract_entry(pf: Platform, key: &String, value: &Doc, base_dir: Option<&str>, home: &str, scan: &mut LegacyScan)
    requires
        old(scan).wf(),
        old(scan).platform() == pf,
    ensures
        scan_grows(
            *old(scan),
            *final(scan),
            |k: OutKind, x: Seq<char>| entry_emits(pf, key@, *value, opt_str(base_dir), home@, k, x),
        ),
{
    proof {
        reveal_strlit("repo");
        reveal_strlit("url");
        reveal_strlit("output");
        reveal_strlit("path");
        reveal_strlit("chrome");
    }
    let ghost base = opt_str(base_dir);
    let ghost start = *scan;
    let ghost target = |k: OutKind, x: Seq<char>| entry_emits(pf, key@, *value, base, home@, k, x);
    let kl = lower_chars(&chars_of(key.as_str()));
    match value {
        Doc::Text(s) => {
            let names_repo = contains_chars(&kl, &chars_of("repo")) || contains_chars(
                &kl,
                &chars_of("url"),
            );
            let names_output = contains_chars(&kl, &chars_of("output")) || contains_chars(
                &kl,
                &chars_of("path"),
            );
            let chrome = contains_chars(&kl, &chars_of("chrome"));
            let ghost f1 = |k: OutKind, x: Seq<char>|
                k is Repo && names_repo && normalize_repo_spec(s@) == Some(x);
            let mut done_repo = false;
            if names_repo {
                match normalize_repo_string(s.as_str()) {
                    Some(repo) => {
                        let ghost rv = repo@;
                        scan.add(OutKind::Repo, repo);
                        done_repo = true;
                        proof {
                            let g = |k: OutKind, x: Seq<char>| k == OutKind::Repo && x == rv;
                            assert forall|k: OutKind, x: Seq<char>| #[trigger] f1(k, x) == g(k, x) by {
                            }
                        }
                    },
                    None => {},
                }
            }
            if !done_repo {
                proof {
                    lemma_grows_refl(start, f1);
                }
            }
            let ghost mid = *scan;
            let ghost f2 = |k: OutKind, x: Seq<char>|
                !(k is Repo) && names_output && normalize_output_spec(pf, s@, base, home@) == Some(x)
                    && output_kind(pf, x, chrome) == Some(k);
            let mut done_out = false;
            if names_output {
                match normalize_output_path(s.as_str(), base_dir, home, pf) {
                    Some(p) => {
                        match kind_of_extension(pf, &p, chrome) {
                            Some(kind) => {
                                let ghost pv = p@;
                                let ghost kd = kind;
                                scan.add(kind, p);
                                done_out = true;
                                proof {
                                    let g = |k: OutKind, x: Seq<char>| k == kd && x == pv;
                                    assert forall|k: OutKind, x: Seq<char>| #[trigger] f2(k, x) == g(
                                        k,
                                        x,
                                    ) by {
                                    }
                                }
                            },
                            None => {},
                        }
                    },
                    None => {},
                }
            }
            if !done_out {
                proof {
                    lemma_grows_refl(mid, f2);
                }
            }
            proof {
                assert forall|k: OutKind, x: Seq<char>| #[trigger] target(k, x) == (f1(k, x) || f2(k, x)) by {
                }
                lemma_grows_trans(start, mid, *scan, f1, f2, target);
            }
        },
        _ => {
            proof {
                lemma_grows_refl(start, target);
            }
        },
    }
}

/// Gathers what a legacy configuration names into `scan` (paths read as on
/// the scan's platform): repository URLs and output paths, from string values and from the values of keys that
/// mention them, at any depth. `base_dir` is the directory of the
/// configuration file and `home` the home directory.
pub fn extract_from_json(value: &Doc, base_dir: Option<&str>, home: &str, scan: &mut LegacyScan)
    requires
        old(scan).wf(),
    ensures
        scan_grows(
            *old(scan),
            *final(scan),
            |k: OutKind, x: Seq<char>| emits(old(scan).platform(), *value, opt_str(base_dir), home@, k, x),
        ),
    decreases value,
{
    let pf = scan.pf;
    let ghost base = opt_str(base_dir);
    let ghost start = *scan;
    let ghost target = |k: OutKind, x: Seq<char>| emits(pf, *value, base, home@, k, x);
    match value {
        Doc::Text(s) => {
            extract_text(pf, s, base_dir, home, scan);
            proof {
                let f = |k: OutKind, x: Seq<char>| text_emits(pf, s@, base, home@, k, x);
                lemma_grows_refl(*scan, |k: OutKind, x: Seq<char>| false);
                lemma_grows_trans(start, *scan, *scan, f, |k: OutKind, x: Seq<char>| false, target);
            }
        },
        Doc::Array(items) => {
            let mut i: usize = 0;
            proof {
                lemma_grows_refl(
                    start,
                    |k: OutKind, x: Seq<char>|
                        exists|j: int| 0 <= j < 0 && emits(pf, #[trigger] items@[j], base, home@, k, x),
                );
            }
            while i < items.len()
                invariant
                    i <= items.len(),
                    *value == Doc::Array(*items),
                    base == opt_str(base_dir),
                    start.platform() == pf,
                    scan_grows(
                        start,
                        *scan,
                        |k: OutKind, x: Seq<char>|
                            exists|j: int| 0 <= j < i && emits(pf, #[trigger] items@[j], base, home@, k, x),
                    ),
                decreases items.len() - i,
            {
                let ghost before = *scan;
                let ghost fi = |k: OutKind, x: Seq<char>|
                    exists|j: int| 0 <= j < i && emits(pf, #[trigger] items@[j], base, home@, k, x);
                let ghost fn1 = |k: OutKind, x: Seq<char>|
                    exists|j: int| 0 <= j < i + 1 && emits(pf, #[trigger] items@[j], base, home@, k, x);
                let ghost g = |k: OutKind, x: Seq<char>| emits(pf, items@[i as int], base, home@, k, x);
                proof {
                    assert(decreases_to!(*value => value->Array_0));
                    assert(decreases_to!(*items => items@));
                    assert(decreases_to!(items@ => items@[i as int]));
                    assert(decreases_to!(*value => items@[i as int]));
                }
                extract_from_json(&items[i], base_dir, home, scan);
                proof {
                    assert forall|k: OutKind, x: Seq<char>| #[trigger] fn1(k, x) == (fi(k, x) || g(k, x)) by {
                        if fn1(k, x) {
                            let j = choose|j: int|
                                0 <= j < i + 1 && emits(pf, #[trigger] items@[j], base, home@, k, x);
                            if j < i {
                                assert(fi(k, x));
                            }
                        }
                    }
                    lemma_grows_trans(start, before, *scan, fi, g, fn1);
                }
                i = i + 1;
            }
            proof {
                let fi = |k: OutKind, x: Seq<char>|
                    exists|j: int| 0 <= j < i && emits(pf, #[trigger] items@[j], base, home@, k, x);
                lemma_grows_refl(*scan, |k: OutKind, x: Seq<char>| false);
                assert forall|k: OutKind, x: Seq<char>| #[trigger] target(k, x) == (fi(k, x) || false) by {
                }
                lemma_grows_trans(start, *scan, *scan, fi, |k: OutKind, x: Seq<char>| false, target);
            }
        },
        Doc::Object(entries) => {
            let mut i: usize = 0;
            proof {
                lemma_grows_refl(
                    start,
                    |k: OutKind, x: Seq<char>|
                        exists|j: int|
                            0 <= j < 0 && (entry_emits(pf, 
                                (#[trigger] entries@[j]).0@,
                                entries@[j].1,
                                base,
                                home@,
                                k,
                                x,
                            ) || emits(pf, entries@[j].1, base, home@, k, x)),
                );
            }
            while i < entries.len()
                invariant
                    i <= entries.len(),
                    *value == Doc::Object(*entries),
                    base == opt_str(base_dir),
                    start.platform() == pf,
                    scan_grows(
                        start,
                        *scan,
                        |k: OutKind, x: Seq<char>|
                            exists|j: int|
                                0 <= j < i && (entry_emits(pf, 
                                    (#[trigger] entries@[j]).0@,
                                    entries@[j].1,
                                    base,
                                    home@,
                                    k,
                                    x,
                                ) || emits(pf, entries@[j].1, base, home@, k, x)),
                    ),
                decreases entries.len() - i,
            {
                let ghost before = *scan;
                let ghost fi = |k: OutKind, x: Seq<char>|
                    exists|j: int|
                        0 <= j < i && (entry_emits(pf, 
                            (#[trigger] entries@[j]).0@,
                            entries@[j].1,
                            base,
                            home@,
                            k,
                            x,
                        ) || emits(pf, entries@[j].1, base, home@, k, x));
                let ghost fn1 = |k: OutKind, x: Seq<char>|
                    exists|j: int|
                        0 <= j < i + 1 && (entry_emits(pf, 
                            (#[trigger] entries@[j]).0@,
                            entries@[j].1,
                            base,
                            home@,
                            k,
                            x,
                        ) || emits(pf, entries@[j].1, base, home@, k, x));
                let ghost e = entries@[i as int];
                let ghost g1 = |k: OutKind, x: Seq<char>| entry_emits(pf, e.0@, e.1, base, home@, k, x);
                let ghost g2 = |k: OutKind, x: Seq<char>| emits(pf, e.1, base, home@, k, x);
                let ghost g = |k: OutKind, x: Seq<char>| g1(k, x) || g2(k, x);
                let entry = &entries[i];
                extract_entry(pf, &entry.0, &entry.1, base_dir, home, scan);
                let ghost mid = *scan;
                proof {
                    assert(decreases_to!(*value => value->Object_0));
                    assert(decreases_to!(*entries => entries@));
                    assert(decreases_to!(entries@ => entries@[i as int]));
                    assert(decreases_to!(entries@[i as int] => entries@[i as int].1));
                    assert(decreases_to!(*value => entries@[i as int].1));
                }
                extract_from_json(&entry.1, base_dir, home, scan);
                proof {
                    assert forall|k: OutKind, x: Seq<char>| #[trigger] g(k, x) == (g1(k, x) || g2(k, x)) by {
                    }
                    lemma_grows_trans(before, mid, *scan, g1, g2, g);
                    assert forall|k: OutKind, x: Seq<char>| #[trigger] fn1(k, x) == (fi(k, x) || g(k, x)) by {
                        if fn1(k, x) {
                            let j = choose|j: int|
                                0 <= j < i + 1 && (entry_emits(pf, 
                                    (#[trigger] entries@[j]).0@,
                                    entries@[j].1,
                                    base,
                                    home@,
                                    k,
                                    x,
                                ) || emits(pf, entries@[j].1, base, home@, k, x));
                            if j < i {
                                assert(fi(k, x));
                            }
                        }
                        if g(k, x) {
                            assert(entries@[i as int] == e);
                        }
                    }
                    lemma_grows_trans(start, before, *scan, fi, g, fn1);
                }
                i = i + 1;
            }
            proof {
                let fi = |k: OutKind, x: Seq<char>|
                    exists|j: int|
                        0 <= j < i && (entry_emits(pf, 
                            (#[trigger] entries@[j]).0@,
                            entries@[j].1,
                            base,
                            home@,
                            k,
                            x,
                        ) || emits(pf, entries@[j].1, base, home@, k, x));
                lemma_grows_refl(*scan, |k: OutKind, x: Seq<char>| false);
                assert forall|k: OutKind, x: Seq<char>| #[trigger] target(k, x) == (fi(k, x) || false) by {
                }
                lemma_grows_trans(start, *scan, *scan, fi, |k: OutKind, x: Seq<char>| false, target);
            }
        },
        _ => {
            proof {
                lemma_grows_refl(start, target);
            }
        },
    }
}

/// Whether a file found near a legacy manager looks like its configuration:
/// a `.json` file whose name mentions `sine`, `cosmo`, `mods` or `manager`,
/// in any case.
pub open spec fn is_candidate_json_spec(name: Seq<char>) -> bool {
    let l = lower(name);
    ends_with(l, ".json"@) && (contains(l, "sine"@) || contains(l, "cosmo"@) || contains(
        l,
        "mods"@,
    ) || contains(l, "manager"@))
}

/// Whether the file named `name` may be a legacy configuration.
pub fn is_candidate_json(name: &str) -> (r: bool)
    ensures
        r == is_candidate_json_spec(name@),
{
    proof {
        reveal_strlit(".json");
        reveal_strlit("sine");
        reveal_strlit("cosmo");
        reveal_strlit("mods");
        reveal_strlit("manager");
    }
    let l = lower_chars(&chars_of(name));
    ends_with_chars(&l, &chars_of(".json")) && (contains_chars(&l, &chars_of("sine"))
        || contains_chars(&l, &chars_of("cosmo")) || contains_chars(&l, &chars_of("mods"))
        || contains_chars(&l, &chars_of("manager")))
}


/// The outputs of kind `kind` that a scan covers: `x` is covered where some
/// recorded path is the same path as `x`.
pub open spec fn covers(pf: Platform, s: LegacyScan, kind: OutKind, x: Seq<char>) -> bool {
    has_path(pf, s.outputs(kind), x)
}

/// `a` or `b` names `y` as a thing of kind `kind`.
pub open spec fn named_by_either(pf: Platform, a: Doc, b: Doc, base: Option<Seq<char>>, home: Seq<char>, kind: OutKind, y: Seq<char>) -> bool {
    emits(pf, a, base, home, kind, y) || emits(pf, b, base, home, kind, y)
}

/// What two documents name, as the law on scanning them says it.
pub open spec fn scanned_two(pf: Platform, 
    s0: LegacyScan,
    a: Doc,
    b: Doc,
    base: Option<Seq<char>>,
    home: Seq<char>,
    kind: OutKind,
    x: Seq<char>,
) -> bool {
    if kind is Repo {
        has_string(s0.repos(), x) || emits(pf, a, base, home, OutKind::Repo, x) || emits(pf, 
            b,
            base,
            home,
            OutKind::Repo,
            x,
        )
    } else {
        covers(pf, s0, kind, x) || exists|y: Seq<char>|
            same_path(pf, y, x) && #[trigger] named_by_either(pf, a, b, base, home, kind, y)
    }
}

proof fn lemma_two_steps(pf: Platform, 
    s0: LegacyScan,
    s1: LegacyScan,
    s2: LegacyScan,
    a: Doc,
    b: Doc,
    base: Option<Seq<char>>,
    home: Seq<char>,
    kind: OutKind,
    x: Seq<char>,
)
    requires
        s0.platform() == pf,
        scan_grows(s0, s1, |k: OutKind, y: Seq<char>| emits(pf, a, base, home, k, y)),
        scan_grows(s1, s2, |k: OutKind, y: Seq<char>| emits(pf, b, base, home, k, y)),
    ensures
        kind is Repo ==> (has_string(s2.repos(), x) <==> scanned_two(pf, s0, a, b, base, home, kind, x)),
        !(kind is Repo) ==> (covers(pf, s2, kind, x) <==> scanned_two(pf, s0, a, b, base, home, kind, x)),
{
    let fa = |k: OutKind, y: Seq<char>| emits(pf, a, base, home, k, y);
    let fb = |k: OutKind, y: Seq<char>| emits(pf, b, base, home, k, y);
    if kind is Repo {
        assert(has_string(s1.repos(), x) <==> (has_string(s0.repos(), x) || fa(OutKind::Repo, x)));
        assert(has_string(s2.repos(), x) <==> (has_string(s1.repos(), x) || fb(OutKind::Repo, x)));
    } else {
        if covers(pf, s2, kind, x) {
            let i = choose|i: int| 0 <= i < s2.outputs(kind).len() && same_path(pf, (#[trigger] s2.outputs(kind)[i])@, x);
            let z = s2.outputs(kind)[i]@;
            if fb(kind, z) {
                assert(same_path(pf, z, x) && named_by_either(pf, a, b, base, home, kind, z));
            } else {
                assert(has_string(s1.outputs(kind), z));
                let j = choose|j: int| 0 <= j < s1.outputs(kind).len() && (#[trigger] s1.outputs(kind)[j])@ == z;
                if fa(kind, z) {
                    assert(same_path(pf, z, x) && named_by_either(pf, a, b, base, home, kind, z));
                } else {
                    assert(has_string(s0.outputs(kind), s1.outputs(kind)[j]@));
                    let m = choose|m: int| 0 <= m < s0.outputs(kind).len() && (#[trigger] s0.outputs(kind)[m])@ == z;
                    assert(same_path(pf, s0.outputs(kind)[m]@, x));
                    assert(covers(pf, s0, kind, x));
                }
            }
        }
        if scanned_two(pf, s0, a, b, base, home, kind, x) {
            if covers(pf, s0, kind, x) {
                assert(has_path(pf, s1.outputs(kind), x));
                assert(has_path(pf, s2.outputs(kind), x));
            } else {
                let y = choose|y: Seq<char>|
                    same_path(pf, y, x) && #[trigger] named_by_either(pf, a, b, base, home, kind, y);
                assert(fa(kind, y) == emits(pf, a, base, home, kind, y));
                assert(fb(kind, y) == emits(pf, b, base, home, kind, y));
                if fa(kind, y) {
                    assert(has_path(pf, s1.outputs(kind), y));
                    assert(has_path(pf, s1.outputs(kind), y) || fb(kind, y));
                } else {
                    assert(fb(kind, y));
                }
                assert(has_path(pf, s2.outputs(kind), y));
                let i = choose|i: int| 0 <= i < s2.outputs(kind).len() && same_path(pf, (#[trigger] s2.outputs(kind)[i])@, y);
                assert(same_path(pf, s2.outputs(kind)[i]@, x));
            }
        }
    }
}

/// A law of the legacy scan: scanning two documents, one after the other,
/// records the repositories already there and those that either names, and
/// covers the outputs already there and those that either names; the two
/// orders give the same repositories and cover the same outputs.
pub proof fn scan_of_two_is_union(
    pf: Platform,
    s0: LegacyScan,
    s1: LegacyScan,
    s2: LegacyScan,
    t1: LegacyScan,
    t2: LegacyScan,
    a: Doc,
    b: Doc,
    base: Option<Seq<char>>,
    home: Seq<char>,
)
    requires
        s0.platform() == pf,
        scan_grows(s0, s1, |k: OutKind, y: Seq<char>| emits(pf, a, base, home, k, y)),
        scan_grows(s1, s2, |k: OutKind, y: Seq<char>| emits(pf, b, base, home, k, y)),
        scan_grows(s0, t1, |k: OutKind, y: Seq<char>| emits(pf, b, base, home, k, y)),
        scan_grows(t1, t2, |k: OutKind, y: Seq<char>| emits(pf, a, base, home, k, y)),
    ensures
        forall|x: Seq<char>|
            #![trigger has_string(s2.repos(), x)]
            has_string(s2.repos(), x) == scanned_two(pf, s0, a, b, base, home, OutKind::Repo, x)
                && has_string(s2.repos(), x) == has_string(t2.repos(), x),
        forall|k: OutKind, x: Seq<char>|
            #![trigger covers(pf, s2, k, x)]
            !(k is Repo) ==> covers(pf, s2, k, x) == scanned_two(pf, s0, a, b, base, home, k, x) && covers(pf, 
                s2,
                k,
                x,
            ) == covers(pf, t2, k, x),
{
    assert forall|x: Seq<char>|
        #![trigger has_string(s2.repos(), x)]
        has_string(s2.repos(), x) == scanned_two(pf, s0, a, b, base, home, OutKind::Repo, x)
            && has_string(s2.repos(), x) == has_string(t2.repos(), x) by {
        lemma_two_steps(pf, s0, s1, s2, a, b, base, home, OutKind::Repo, x);
        lemma_two_steps(pf, s0, t1, t2, b, a, base, home, OutKind::Repo, x);
    }
    assert forall|k: OutKind, x: Seq<char>|
        #![trigger covers(pf, s2, k, x)]
        !(k is Repo) implies covers(pf, s2, k, x) == scanned_two(pf, s0, a, b, base, home, k, x) && covers(pf, 
            s2,
            k,
            x,
        ) == covers(pf, t2, k, x) by {
        lemma_two_steps(pf, s0, s1, s2, a, b, base, home, k, x);
        lemma_two_steps(pf, s0, t1, t2, b, a, base, home, k, x);
        if scanned_two(pf, s0, a, b, base, home, k, x) != scanned_two(pf, s0, b, a, base, home, k, x) {
            if covers(pf, s0, k, x) {
            } else if scanned_two(pf, s0, a, b, base, home, k, x) {
                let y = choose|y: Seq<char>| same_path(pf, y, x) && #[trigger] named_by_either(pf, a, b, base, home, k, y);
                assert(named_by_either(pf, b, a, base, home, k, y));
            } else {
                let y = choose|y: Seq<char>| same_path(pf, y, x) && #[trigger] named_by_either(pf, b, a, base, home, k, y);
                assert(named_by_either(pf, a, b, base, home, k, y));
            }
        }
    }
}

/// An array of two documents names what either names.
pub proof fn array_emits_either(pf: Platform, 
    arr: Doc,
    a: Doc,
    b: Doc,
    base: Option<Seq<char>>,
    home: Seq<char>,
    kind: OutKind,
    x: Seq<char>,
)
    requires
        arr matches Doc::Array(items) && items@ == seq![a, b],
    ensures
        emits(pf, arr, base, home, kind, x) == (emits(pf, a, base, home, kind, x) || emits(pf, b, base, home, kind, x)),
{
    if let Doc::Array(items) = arr {
        if emits(pf, a, base, home, kind, x) {
            assert(items@[0] == a);
        }
        if emits(pf, b, base, home, kind, x) {
            assert(items@[1] == b);
        }
    }
}


// ---------------------------------------------------------------------------
// Updating the outputs of the older managers
// ---------------------------------------------------------------------------

/// For each output of `outs`: copy `source` there, and the log line to give
/// where that was done.
pub open spec fn copies_to(outs: Seq<String>, source: Seq<char>, message: Seq<char>) -> Seq<
    (Seq<char>, Seq<char>, Seq<char>),
> {
    outs.map_values(|o: String| (source, o@, message + o@))
}

pub open spec fn triples_view(v: Seq<(String, String, String)>) -> Seq<(Seq<char>, Seq<char>, Seq<char>)> {
    v.map_values(|t: (String, String, String)| (t.0@, t.1@, t.2@))
}

/// The copies that bring the legacy outputs up to date: every CSS output
/// gets `result.css`, every JS output `result.js`, every UI CSS output
/// `result.chrome.css` and every theme output `theme.json`, in the order of
/// the scan, each as (source, output, log line).
pub open spec fn legacy_copy_spec(
    scan: LegacyScan,
    css: Seq<char>,
    js: Seq<char>,
    chrome_css: Seq<char>,
    theme: Seq<char>,
) -> Seq<(Seq<char>, Seq<char>, Seq<char>)> {
    copies_to(scan.outputs(OutKind::Css), css, "Legacy CSS output updated at "@) + copies_to(
        scan.outputs(OutKind::Js),
        js,
        "Legacy JS output updated at "@,
    ) + copies_to(scan.outputs(OutKind::ChromeCss), chrome_css, "Legacy UI CSS output updated at "@)
        + copies_to(scan.outputs(OutKind::Theme), theme, "Legacy theme output updated at "@)
}

fn push_copies(
    r: &mut Vec<(String, String, String)>,
    outs: &Vec<String>,
    source: &str,
    message: &str,
)
    ensures
        triples_view(final(r)@) == triples_view(old(r)@) + copies_to(outs@, source@, message@),
{
    let ghost start = triples_view(old(r)@);
    let mut i: usize = 0;
    while i < outs.len()
        invariant
            i <= outs.len(),
            start == triples_view(old(r)@),
            triples_view(r@) == start + copies_to(outs@.take(i as int), source@, message@),
        decreases outs.len() - i,
    {
        let ghost before = r@;
        let o = outs[i].clone();
        r.push((String::from_str(source), o.clone(), concat(message, o.as_str())));
        proof {
            assert(outs@.take(i + 1) =~= outs@.take(i as int).push(outs@[i as int]));
            assert(copies_to(outs@.take(i + 1), source@, message@) =~= copies_to(
                outs@.take(i as int),
                source@,
                message@,
            ).push((source@, outs@[i as int]@, message@ + outs@[i as int]@)));
            assert(triples_view(r@) =~= triples_view(before).push(
                (source@, outs@[i as int]@, message@ + outs@[i as int]@),
            ));
        }
        i = i + 1;
    }
    assert(outs@.take(i as int) =~= outs@);
}

/// The copies that bring the outputs that `scan` found up to date with the
/// results `css`, `js`, `chrome_css` and `theme`.
pub fn legacy_copy_plan(scan: &LegacyScan, css: &str, js: &str, chrome_css: &str, theme: &str) -> (r: Vec<
    (String, String, String),
>)
    ensures
        triples_view(r@) == legacy_copy_spec(*scan, css@, js@, chrome_css@, theme@),
{
    let mut r: Vec<(String, String, String)> = Vec::new();
    push_copies(&mut r, &scan.css_outputs, css, "Legacy CSS output updated at ");
    push_copies(&mut r, &scan.js_outputs, js, "Legacy JS output updated at ");
    push_copies(&mut r, &scan.chrome_css_outputs, chrome_css, "Legacy UI CSS output updated at ");
    push_copies(&mut r, &scan.theme_outputs, theme, "Legacy theme output updated at ");
    assert(triples_view(r@) =~= legacy_copy_spec(*scan, css@, js@, chrome_css@, theme@));
    r
}

/// Closes the update of the legacy outputs: the log lines of the copies
/// that were made (`updated`), or, where none was, that no output was found.
pub fn legacy_copy_done(updated: &Vec<String>, logs: &mut Vec<String>)
    ensures
        updated.len() == 0 ==> final(logs)@.map_values(|s: String| s@) == old(logs)@.map_values(
            |s: String| s@,
        ).push("No legacy outputs detected for copy."@),
        updated.len() > 0 ==> final(logs)@.map_values(|s: String| s@) == old(logs)@.map_values(
            |s: String| s@,
        ) + updated@.map_values(|s: String| s@),
{
    let ghost start = old(logs)@.map_values(|s: String| s@);
    if updated.len() == 0 {
        logs.push(String::from_str("No legacy outputs detected for copy."));
        assert(logs@.map_values(|s: String| s@) =~= start.push("No legacy outputs detected for copy."@));
        return;
    }
    let mut i: usize = 0;
    while i < updated.len()
        invariant
            i <= updated.len(),
            start == old(logs)@.map_values(|s: String| s@),
            logs@.map_values(|s: String| s@) == start + updated@.take(i as int).map_values(|s: String| s@),
        decreases updated.len() - i,
    {
        let ghost before = logs@;
        logs.push(updated[i].clone());
        proof {
            assert(updated@.take(i + 1) =~= updated@.take(i as int).push(updated@[i as int]));
            assert(updated@.take(i + 1).map_values(|s: String| s@) =~= updated@.take(i as int).map_values(
                |s: String| s@,
            ).push(updated@[i as int]@));
            assert(logs@.map_values(|s: String| s@) =~= before.map_values(|s: String| s@).push(
                updated@[i as int]@,
            ));
        }
        i = i + 1;
    }
    assert(updated@.take(i as int) =~= updated@);
}


/// A law of updating legacy outputs: the plan holds one copy per output
/// found, in four runs (CSS, JS, UI CSS, theme outputs, each in scan order);
/// every CSS output receives `css`, every JS output `js`, every UI CSS output
/// `chrome_css` and every theme output `theme`, each logged as the update of
/// that output.
pub proof fn legacy_copies_take_matching_results(
    scan: LegacyScan,
    css: Seq<char>,
    js: Seq<char>,
    chrome_css: Seq<char>,
    theme: Seq<char>,
)
    ensures
        ({
            let plan = legacy_copy_spec(scan, css, js, chrome_css, theme);
            let c = scan.outputs(OutKind::Css);
            let j = scan.outputs(OutKind::Js);
            let u = scan.outputs(OutKind::ChromeCss);
            let t = scan.outputs(OutKind::Theme);
            &&& plan.len() == c.len() + j.len() + u.len() + t.len()
            &&& forall|i: int|
                0 <= i < c.len() ==> plan[i] == (css, (#[trigger] c[i])@, "Legacy CSS output updated at "@
                    + c[i]@)
            &&& forall|i: int|
                0 <= i < j.len() ==> plan[c.len() + i] == (js, (#[trigger] j[i])@,
                "Legacy JS output updated at "@ + j[i]@)
            &&& forall|i: int|
                0 <= i < u.len() ==> plan[c.len() + j.len() + i] == (chrome_css, (#[trigger] u[i])@,
                "Legacy UI CSS output updated at "@ + u[i]@)
            &&& forall|i: int|
                0 <= i < t.len() ==> plan[c.len() + j.len() + u.len() + i] == (theme, (#[trigger] t[i])@,
                "Legacy theme output updated at "@ + t[i]@)
        }),
{
    let plan = legacy_copy_spec(scan, css, js, chrome_css, theme);
    let c = scan.outputs(OutKind::Css);
    let j = scan.outputs(OutKind::Js);
    let u = scan.outputs(OutKind::ChromeCss);
    let t = scan.outputs(OutKind::Theme);
    let a = copies_to(c, css, "Legacy CSS output updated at "@);
    let b = copies_to(j, js, "Legacy JS output updated at "@);
    let d = copies_to(u, chrome_css, "Legacy UI CSS output updated at "@);
    let e = copies_to(t, theme, "Legacy theme output updated at "@);
    assert(plan == a + b + d + e);
    assert forall|i: int| 0 <= i < c.len() implies plan[i] == (css, (#[trigger] c[i])@,
        "Legacy CSS output updated at "@ + c[i]@) by {
        assert(plan[i] == a[i]);
    }
    assert forall|i: int| 0 <= i < j.len() implies plan[c.len() + i] == (js, (#[trigger] j[i])@,
        "Legacy JS output updated at "@ + j[i]@) by {
        assert(plan[c.len() + i] == b[i]);
    }
    assert forall|i: int| 0 <= i < u.len() implies plan[c.len() + j.len() + i] == (chrome_css,
        (#[trigger] u[i])@, "Legacy UI CSS output updated at "@ + u[i]@) by {
        assert(plan[c.len() + j.len() + i] == d[i]);
    }
    assert forall|i: int| 0 <= i < t.len() implies plan[c.len() + j.len() + u.len() + i] == (theme,
        (#[trigger] t[i])@, "Legacy theme output updated at "@ + t[i]@) by {
        assert(plan[c.len() + j.len() + u.len() + i] == e[i]);
    }
}

} // verus!
