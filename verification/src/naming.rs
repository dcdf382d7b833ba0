//! Names of mods: repository URLs, their short names, and the directories
//! that a mod and its dependencies are cloned into.
use vstd::prelude::*;
use vstd::utf8::encode_utf8;
use crate::text::{
    starts_with, ends_with, trim, contains, find, is_first_match, match_at, trim_end_char, trim_end_seq, trim_bounds,
    find_from, trim_end_char_bound, trim_end_seq_bound, chars_of, substring, concat3,
    has_char, lemma_find_is, lemma_find_none, is_ws, lemma_trim_unchanged, lemma_trim_end_char_prefix,
    lemma_trim_end_seq_prefix, lemma_trim_end_seq_append, lemma_first_match_exists,
};
use crate::paths::{join, join_path, last_index, lemma_last_index_at};

verus! {

broadcast use vstd::string::group_string_axioms;

// ---------------------------------------------------------------------------
// The directory-name suffix: 64-bit FNV-1a, written as 16 hex digits
// ---------------------------------------------------------------------------

pub open spec fn fnv_offset() -> u64 {
    0xcbf29ce484222325
}

pub open spec fn fnv_prime() -> u64 {
    0x100000001b3
}

/// One FNV-1a round: xor in the byte, then multiply modulo 2^64.
pub open spec fn fnv_step(h: u64, b: u8) -> u64 {
    (((h ^ (b as u64)) as nat * fnv_prime() as nat) % 0x1_0000_0000_0000_0000nat) as u64
}

/// 64-bit FNV-1a of `bytes`.
pub open spec fn fnv1a(bytes: Seq<u8>) -> u64
    decreases bytes.len(),
{
    if bytes.len() == 0 {
        fnv_offset()
    } else {
        fnv_step(fnv1a(bytes.drop_last()), bytes.last())
    }
}

pub open spec fn hex_digits() -> Seq<char> {
    "0123456789abcdef"@
}

/// `h` as 16 lower-case hex digits, most significant first (`{:016x}`).
pub open spec fn hex16(h: u64) -> Seq<char> {
    Seq::new(16, |i: int| hex_digits()[((h >> ((60 - 4 * i) as u64)) & 0xf) as int])
}

/// The suffix that tells apart directories of mods with one name.
pub open spec fn hash_suffix_spec(input: Seq<char>) -> Seq<char> {
    hex16(fnv1a(encode_utf8(input)))
}

/// A deterministic 16-hex-digit suffix for directory names: FNV-1a over the
/// UTF-8 bytes of `input`.
pub fn hash_suffix(input: &str) -> (r: String)
    ensures
        r@ == hash_suffix_spec(input@),
        r@.len() == 16,
{
    let bytes = input.as_bytes();
    let mut hash: u64 = 0xcbf29ce484222325;
    let mut i: usize = 0;
    while i < bytes.len()
        invariant
            i <= bytes@.len(),
            bytes@ == encode_utf8(input@),
            hash == fnv1a(bytes@.take(i as int)),
        decreases bytes.len() - i,
    {
        let b = bytes[i];
        hash = (hash ^ (b as u64)).wrapping_mul(0x100000001b3);
        proof {
            assert(bytes@.take(i + 1).drop_last() =~= bytes@.take(i as int));
        }
        i = i + 1;
    }
    proof {
        assert(bytes@.take(i as int) =~= bytes@);
    }
    let digits = "0123456789abcdef";
    proof {
        reveal_strlit("0123456789abcdef");
    }
    let mut out = String::new();
    let mut k: u64 = 0;
    while k < 16
        invariant
            k <= 16,
            digits@ == hex_digits(),
            digits@.len() == 16,
            out@ == hex16(hash).take(k as int),
        decreases 16 - k,
    {
        let shift: u64 = 60 - 4 * k;
        let d = (hash >> shift) & 0xf;
        assert(d < 16) by (bit_vector)
            requires
                d == (hash >> shift) & 0xf,
        ;
        let piece = digits.substring_char(d as usize, d as usize + 1);
        out.append(piece);
        proof {
            assert(piece@ =~= seq![hex_digits()[d as int]]);
            assert(hex16(hash)[k as int] == hex_digits()[d as int]);
            assert(hex16(hash).take(k + 1) =~= hex16(hash).take(k as int).push(
                hex16(hash)[k as int],
            ));
        }
        k = k + 1;
    }
    assert(hex16(hash).take(16) =~= hex16(hash));
    out
}

/// The directory a mod is cloned into under `base_dir`.
pub open spec fn mod_target_dir_spec(base_dir: Seq<char>, mod_name: Seq<char>, repo: Seq<char>) -> Seq<
    char,
> {
    join(base_dir, mod_name + "-"@ + hash_suffix_spec(mod_name + "|"@ + repo))
}

/// The directory a dependency of a mod is cloned into.
pub open spec fn dep_target_dir_spec(mod_dir: Seq<char>, dep_name: Seq<char>, dep_repo: Seq<char>) -> Seq<
    char,
> {
    join(join(mod_dir, "deps"@), dep_name + "-"@ + hash_suffix_spec(dep_name + "|"@ + dep_repo))
}

/// `<base_dir>/<mod_name>-<hash of "mod_name|repo">`.
pub fn mod_target_dir(base_dir: &str, mod_name: &str, repo: &str) -> (r: String)
    ensures
        r@ == mod_target_dir_spec(base_dir@, mod_name@, repo@),
{
    let key = concat3(mod_name, "|", repo);
    let hash = hash_suffix(key.as_str());
    let leaf = concat3(mod_name, "-", hash.as_str());
    join_path(base_dir, leaf.as_str())
}

/// `<mod_dir>/deps/<dep_name>-<hash of "dep_name|dep_repo">`.
pub fn dep_target_dir(mod_dir: &str, dep_name: &str, dep_repo: &str) -> (r: String)
    ensures
        r@ == dep_target_dir_spec(mod_dir@, dep_name@, dep_repo@),
{
    let key = concat3(dep_name, "|", dep_repo);
    let hash = hash_suffix(key.as_str());
    let leaf = concat3(dep_name, "-", hash.as_str());
    let deps = join_path(mod_dir, "deps");
    join_path(deps.as_str(), leaf.as_str())
}

// ---------------------------------------------------------------------------
// Repository URLs
// ---------------------------------------------------------------------------

/// The name of a repository: the last `/`-separated part of its URL once
/// trailing slashes and `.git` suffixes are gone.
pub open spec fn repo_name_spec(url: Seq<char>) -> Seq<char> {
    let t = trim_end_seq(trim_end_char(url, '/'), ".git"@);
    t.skip(last_index(t, '/') + 1)
}

/// The characters of `cs[from..to]`.
pub fn sub_chars(cs: &Vec<char>, from: usize, to: usize) -> (r: Vec<char>)
    requires
        from <= to <= cs.len(),
    ensures
        r@ == cs@.subrange(from as int, to as int),
{
    let mut r: Vec<char> = Vec::new();
    let mut i = from;
    while i < to
        invariant
            from <= i <= to <= cs.len(),
            r@ == cs@.subrange(from as int, i as int),
        decreases to - i,
    {
        r.push(cs[i]);
        i = i + 1;
        assert(r@ =~= cs@.subrange(from as int, i as int));
    }
    r
}

/// The index just after the last `c` in `cs[..to]`, or 0.
fn after_last(cs: &Vec<char>, to: usize, c: char) -> (r: usize)
    requires
        to <= cs.len(),
    ensures
        r <= to,
        r == last_index(cs@.subrange(0, to as int), c) + 1,
{
    let mut i = to;
    while i > 0 && cs[i - 1] != c
        invariant
            i <= to <= cs.len(),
            forall|k: int| i <= k < to ==> cs@[k] != c,
        decreases i,
    {
        i = i - 1;
    }
    proof {
        let s = cs@.subrange(0, to as int);
        assert forall|k: int| i - 1 < k < s.len() implies s[k] != c by {
            assert(s[k] == cs@[k]);
        }
        lemma_last_index_at(s, c, i - 1);
    }
    i
}

/// The short name of a mod from its repository URL
/// (`https://github.com/u/sleek-tabs.git/` gives `sleek-tabs`).
pub fn repo_name_from_url(repo_url: &str) -> (r: String)
    ensures
        r@ == repo_name_spec(repo_url@),
{
    let cs = chars_of(repo_url);
    let git = chars_of(".git");
    proof {
        reveal_strlit(".git");
    }
    let e1 = trim_end_char_bound(&cs, 0, cs.len(), '/');
    let e2 = trim_end_seq_bound(&cs, &git, 0, e1);
    let start = after_last(&cs, e2, '/');
    proof {
        assert(cs@.subrange(0, cs.len() as int) =~= cs@);
        let t = cs@.subrange(0, e2 as int);
        assert(t.skip(start as int) =~= cs@.subrange(start as int, e2 as int));
    }
    substring(repo_url, start, e2)
}

/// A character that `is_repo_segment` accepts.
pub open spec fn is_repo_char(c: char) -> bool {
    ||| ('a' <= c && c <= 'z')
    ||| ('A' <= c && c <= 'Z')
    ||| ('0' <= c && c <= '9')
    ||| c == '-'
    ||| c == '_'
    ||| c == '.'
}

pub open spec fn is_repo_segment_spec(s: Seq<char>) -> bool {
    s.len() > 0 && forall|i: int| 0 <= i < s.len() ==> is_repo_char(#[trigger] s[i])
}

fn segment_ok(cs: &Vec<char>, from: usize, to: usize) -> (b: bool)
    requires
        from <= to <= cs.len(),
    ensures
        b == is_repo_segment_spec(cs@.subrange(from as int, to as int)),
{
    let ghost s = cs@.subrange(from as int, to as int);
    if from == to {
        return false;
    }
    let mut i = from;
    while i < to
        invariant
            from <= i <= to <= cs.len(),
            s == cs@.subrange(from as int, to as int),
            forall|k: int| 0 <= k < i - from ==> is_repo_char(#[trigger] s[k]),
        decreases to - i,
    {
        let c = cs[i];
        let ok = ('a' <= c && c <= 'z') || ('A' <= c && c <= 'Z') || ('0' <= c && c <= '9') || c
            == '-' || c == '_' || c == '.';
        if !ok {
            assert(s[i - from] == c);
            return false;
        }
        assert(s[i - from] == c);
        i = i + 1;
    }
    true
}

/// A non-empty run of ASCII letters, digits, `-`, `_` and `.`.
pub fn is_repo_segment(segment: &str) -> (b: bool)
    ensures
        b == is_repo_segment_spec(segment@),
{
    let cs = chars_of(segment);
    assert(cs@.subrange(0, cs.len() as int) =~= cs@);
    segment_ok(&cs, 0, cs.len())
}

pub open spec fn github_marker() -> Seq<char> {
    "github.com/"@
}

/// The `user/repo` part of a GitHub URL: what lies between the first and the
/// second `github.com/`, without trailing slashes and `.git` suffixes.
pub open spec fn github_repo_part(t: Seq<char>) -> Seq<char> {
    let after = t.skip(find(t, github_marker()) + github_marker().len());
    let part = after.take(find(after, github_marker()));
    trim_end_seq(trim_end_char(part, '/'), ".git"@)
}

/// The canonical clone URL a text names, if any: a GitHub URL whose
/// repository part holds a `/`, or a plain `user/repo` of two segments.
pub open spec fn normalize_repo_spec(value: Seq<char>) -> Option<Seq<char>> {
    let t = trim(value);
    if t.len() == 0 {
        None
    } else if contains(t, github_marker()) && github_repo_part(t).contains('/') {
        Some("https://github.com/"@ + github_repo_part(t) + ".git"@)
    } else {
        let i = find(t, seq!['/']);
        if i < t.len() && !t.skip(i + 1).contains('/') && is_repo_segment_spec(t.take(i))
            && is_repo_segment_spec(t.skip(i + 1)) {
            Some("https://github.com/"@ + t.take(i) + "/"@ + t.skip(i + 1) + ".git"@)
        } else {
            None
        }
    }
}

pub open spec fn opt_view(o: Option<String>) -> Option<Seq<char>> {
    match o {
        Some(s) => Some(s@),
        None => None,
    }
}

proof fn lemma_find_result(s: Seq<char>, p: Seq<char>, r: int)
    requires
        0 <= r <= s.len(),
        forall|j: int| 0 <= j < r ==> !match_at(s, p, j),
        r < s.len() ==> match_at(s, p, r),
        r == s.len() ==> forall|j: int| 0 <= j ==> !match_at(s, p, j),
    ensures
        find(s, p) == r,
        contains(s, p) == (r < s.len()),
{
    if r < s.len() {
        assert(is_first_match(s, p, r));
        lemma_find_is(s, p, r);
    } else {
        assert forall|j: int| !match_at(s, p, j) by {
            if j >= 0 {
            }
        }
        lemma_find_none(s, p);
    }
}

/// The canonical `https://github.com/<user>/<repo>.git` clone URL named by a
/// config value, or `None` where it names none.
pub fn normalize_repo_string(value: &str) -> (r: Option<String>)
    ensures
        opt_view(r) == normalize_repo_spec(value@),
{
    proof {
        reveal_strlit("github.com/");
        reveal_strlit(".git");
        reveal_strlit("/");
    }
    let vc = chars_of(value);
    let (a, b) = trim_bounds(&vc, 0, vc.len());
    proof {
        assert(vc@.subrange(0, vc.len() as int) =~= value@);
    }
    if a == b {
        return None;
    }
    let t = sub_chars(&vc, a, b);
    let ts = substring(value, a, b);
    let gh = chars_of("github.com/");
    let slash = chars_of("/");
    let git = chars_of(".git");
    let first = find_from(&t, &gh, 0);
    proof {
        lemma_find_result(t@, gh@, first as int);
    }
    if first < t.len() {
        let start = first + gh.len();
        let after = sub_chars(&t, start, t.len());
        let after_s = substring(ts.as_str(), start, t.len());
        let second = find_from(&after, &gh, 0);
        proof {
            lemma_find_result(after@, gh@, second as int);
            assert(after@ =~= t@.skip(start as int));
            assert(after@.subrange(0, second as int) =~= after@.take(second as int));
        }
        let e1 = trim_end_char_bound(&after, 0, second, '/');
        let e2 = trim_end_seq_bound(&after, &git, 0, e1);
        let part = sub_chars(&after, 0, e2);
        if has_char(&part, '/') {
            let part_s = substring(after_s.as_str(), 0, e2);
            let r = concat3("https://github.com/", part_s.as_str(), ".git");
            return Some(r);
        }
    }
    let i = find_from(&t, &slash, 0);
    proof {
        lemma_find_result(t@, slash@, i as int);
        assert(slash@ =~= seq!['/']);
    }
    if i < t.len() {
        let rest = sub_chars(&t, i + 1, t.len());
        proof {
            assert(rest@ =~= t@.skip(i + 1));
            assert(t@.subrange(0, i as int) =~= t@.take(i as int));
            assert(t@.subrange(i + 1, t.len() as int) =~= t@.skip(i + 1));
        }
        if !has_char(&rest, '/') && segment_ok(&t, 0, i) && segment_ok(&t, i + 1, t.len()) {
            let user = substring(ts.as_str(), 0, i);
            let name = substring(ts.as_str(), i + 1, t.len());
            let head = concat3("https://github.com/", user.as_str(), "/");
            let r = concat3(head.as_str(), name.as_str(), ".git");
            return Some(r);
        }
    }
    None
}


/// `join(base, p)` ends with `p`.
pub proof fn lemma_join_ends_with(base: Seq<char>, p: Seq<char>)
    ensures
        ends_with(join(base, p), p),
{
    let j = join(base, p);
    assert(j.subrange(j.len() - p.len(), j.len() as int) =~= p);
}

/// A law of mod directories: the directory of a mod ends with the mod's
/// name, a `-` and the 16-hex-digit hash of `name|repo`.
pub proof fn mod_dir_ends_with_name_and_hash(base_dir: Seq<char>, mod_name: Seq<char>, repo: Seq<char>)
    ensures
        ends_with(
            mod_target_dir_spec(base_dir, mod_name, repo),
            mod_name + "-"@ + hash_suffix_spec(mod_name + "|"@ + repo),
        ),
        hash_suffix_spec(mod_name + "|"@ + repo).len() == 16,
{
    lemma_join_ends_with(base_dir, mod_name + "-"@ + hash_suffix_spec(mod_name + "|"@ + repo));
}

/// A law of dependency directories: the directory of a dependency ends with
/// its name, a `-` and the hash of `name|repo`.
pub proof fn dep_dir_ends_with_name_and_hash(mod_dir: Seq<char>, dep_name: Seq<char>, dep_repo: Seq<char>)
    ensures
        ends_with(
            dep_target_dir_spec(mod_dir, dep_name, dep_repo),
            dep_name + "-"@ + hash_suffix_spec(dep_name + "|"@ + dep_repo),
        ),
{
    lemma_join_ends_with(
        join(mod_dir, "deps"@),
        dep_name + "-"@ + hash_suffix_spec(dep_name + "|"@ + dep_repo),
    );
}

/// A law of repository names: what `normalize_repo_string` gives is a
/// GitHub clone URL, `https://github.com/...git`.
pub proof fn normalized_repos_are_clone_urls(value: Seq<char>)
    ensures
        normalize_repo_spec(value) matches Some(url) ==> starts_with(url, "https://github.com/"@)
            && ends_with(url, ".git"@),
{
    if let Some(url) = normalize_repo_spec(value) {
        let h = "https://github.com/"@;
        let g = ".git"@;
        assert(url.subrange(0, h.len() as int) =~= h);
        assert(url.subrange(url.len() - g.len(), url.len() as int) =~= g);
    }
}


/// The clone URL of the repository part `p`.
pub open spec fn clone_url(p: Seq<char>) -> Seq<char> {
    "https://github.com/"@ + p + ".git"@
}

/// A clone URL whose repository part holds a `/`, does not end with `.git`
/// and holds no further `github.com/` normalizes to itself.
proof fn lemma_clone_url_fixed(p: Seq<char>)
    requires
        p.contains('/'),
        !ends_with(p, ".git"@),
        forall|j: int| match_at(clone_url(p), github_marker(), j) ==> j == 8,
    ensures
        normalize_repo_spec(clone_url(p)) == Some(clone_url(p)),
{
    reveal_strlit("https://github.com/");
    reveal_strlit(".git");
    reveal_strlit("github.com/");
    let h = "https://github.com/"@;
    let g = ".git"@;
    let m = github_marker();
    let r = clone_url(p);
    assert(r[0] == 'h');
    assert(r.last() == 't');
    lemma_trim_unchanged(r);
    assert(r.subrange(8, 19) =~= m);
    assert(match_at(r, m, 8));
    assert(is_first_match(r, m, 8));
    lemma_find_is(r, m, 8);
    let after = r.skip(19);
    assert(after =~= p + g);
    assert forall|j: int| !match_at(after, m, j) by {
        if match_at(after, m, j) {
            assert(r.subrange(j + 19, j + 19 + m.len()) =~= after.subrange(j, j + m.len()));
            assert(match_at(r, m, j + 19));
        }
    }
    lemma_find_none(after, m);
    assert(after.take(after.len() as int) =~= after);
    assert(after.last() == 't');
    assert(trim_end_char(after, '/') == after);
    lemma_trim_end_seq_append(p, g);
    assert(!(g.len() > 0 && ends_with(p, g)));
    assert(trim_end_seq(p, g) == p);
    assert(github_repo_part(r) == p);
    assert(contains(r, m));
}

/// A law of repository URLs: a clone URL that `normalize_repo_string` gives
/// normalizes to itself, where `github.com/` occurs in it only once and it
/// does not end with `.git.git`.
pub proof fn normalize_is_idempotent(value: Seq<char>, r: Seq<char>)
    requires
        normalize_repo_spec(value) == Some(r),
        forall|j: int| match_at(r, github_marker(), j) ==> j == 8,
        !ends_with(r, ".git.git"@),
    ensures
        normalize_repo_spec(r) == Some(r),
{
    reveal_strlit("https://github.com/");
    reveal_strlit(".git");
    reveal_strlit(".git.git");
    reveal_strlit("/");
    let g = ".git"@;
    let t = trim(value);
    if contains(t, github_marker()) && github_repo_part(t).contains('/') {
        let p = github_repo_part(t);
        let after = t.skip(find(t, github_marker()) + github_marker().len());
        let part = after.take(find(after, github_marker()));
        lemma_trim_end_seq_prefix(trim_end_char(part, '/'), g);
        assert(r == clone_url(p));
        lemma_clone_url_fixed(p);
    } else {
        let i = find(t, seq!['/']);
        let p = t.take(i) + "/"@ + t.skip(i + 1);
        assert(r == "https://github.com/"@ + t.take(i) + "/"@ + t.skip(i + 1) + ".git"@);
        assert(r =~= clone_url(p));
        assert(p[t.take(i).len() as int] == '/');
        assert(p.contains('/'));
        if ends_with(p, g) {
            let gg = ".git.git"@;
            assert(r.subrange(r.len() - gg.len(), r.len() as int) =~= p.subrange(
                p.len() - g.len(),
                p.len() as int,
            ) + g);
            assert(p.subrange(p.len() - g.len(), p.len() as int) == g);
            assert(g + g =~= gg);
            assert(ends_with(r, gg));
        }
        lemma_clone_url_fixed(p);
    }
}

/// A law of repository names: the short name of the clone URL that
/// `user/name` normalizes to is `name`, where both are repository segments
/// and `name` does not end with `.git`.
pub proof fn repo_name_round_trip(user: Seq<char>, name: Seq<char>)
    requires
        is_repo_segment_spec(user),
        is_repo_segment_spec(name),
        !ends_with(name, ".git"@),
    ensures
        normalize_repo_spec(user + "/"@ + name) == Some(clone_url(user + "/"@ + name)),
        repo_name_spec(clone_url(user + "/"@ + name)) == name,
{
    reveal_strlit("https://github.com/");
    reveal_strlit(".git");
    reveal_strlit("/");
    reveal_strlit("github.com/");
    let g = ".git"@;
    let m = github_marker();
    let v = user + "/"@ + name;
    let k = user.len() as int;
    assert(v[k] == '/');
    assert(forall|j: int| 0 <= j < v.len() && j != k ==> #[trigger] v[j] != '/') by {
        assert forall|j: int| 0 <= j < v.len() && j != k implies #[trigger] v[j] != '/' by {
            if j < k {
                assert(v[j] == user[j]);
                assert(is_repo_char(user[j]));
            } else {
                assert(v[j] == name[j - k - 1]);
                assert(is_repo_char(name[j - k - 1]));
            }
        }
    }
    assert(is_repo_char(v[0]) || v[0] == '/');
    assert(is_repo_char(user[0]));
    assert(is_repo_char(name[name.len() - 1]));
    assert(v[0] == user[0]);
    assert(v.last() == name[name.len() - 1]);
    lemma_trim_unchanged(v);
    assert(trim(v) == v);
    // the first `/` is the one between the parts
    assert(match_at(v, seq!['/'], k)) by {
        assert(v.subrange(k, k + 1) =~= seq!['/']);
    }
    assert forall|j: int| 0 <= j < k implies !match_at(v, seq!['/'], j) by {
        if match_at(v, seq!['/'], j) {
            assert(v.subrange(j, j + 1)[0] == v[j]);
        }
    }
    lemma_find_is(v, seq!['/'], k);
    assert(v.take(k) =~= user);
    assert(v.skip(k + 1) =~= name);
    assert(!name.contains('/')) by {
        if name.contains('/') {
            let j = choose|j: int| 0 <= j < name.len() && name[j] == '/';
            assert(is_repo_char(name[j]));
        }
    }
    // a `github.com/` in `v` ends at the `/`, so what follows it is `name`
    if contains(v, m) && github_repo_part(v).contains('/') {
        let f = find(v, m);
        let after = v.skip(f + m.len());
        assert(!after.contains('/')) by {
            if exists|i: int| is_first_match(v, m, i) {
                assert(is_first_match(v, m, f));
                assert(v.subrange(f, f + 11)[10] == v[f + 10]);
                assert(v[f + 10] == '/');
                assert(f + 10 == k);
                assert(after =~= name);
            } else {
                let w = choose|w: int| match_at(v, m, w);
                lemma_first_match_exists(v, m, w);
            }
        }
        let part = after.take(find(after, m));
        let tc = trim_end_char(part, '/');
        lemma_trim_end_char_prefix(part, '/');
        lemma_trim_end_seq_prefix(tc, g);
        let q = github_repo_part(v);
        assert(q == trim_end_seq(tc, g));
        let j = choose|j: int| 0 <= j < q.len() && q[j] == '/';
        assert(find(after, m) <= after.len()) by {
            if exists|i: int| is_first_match(after, m, i) {
                let i = choose|i: int| is_first_match(after, m, i);
                assert(match_at(after, m, i));
            }
        }
        assert(q[j] == tc[j]);
        assert(tc[j] == part[j]);
        assert(part[j] == after[j]);
        assert(false);
    }
    let url = clone_url(v);
    assert(url.last() == 't');
    assert(trim_end_char(url, '/') == url);
    let hv = "https://github.com/"@ + v;
    assert(url =~= hv + g);
    lemma_trim_end_seq_append(hv, g);
    if ends_with(hv, g) {
        if name.len() >= 4 {
            assert(hv.subrange(hv.len() - 4, hv.len() as int) =~= name.subrange(name.len() - 4, name.len() as int));
            assert(ends_with(name, g));
        } else {
            let pos = hv.len() - 4;
            assert(hv.subrange(pos, pos + 4)[3 - name.len()] == hv[19 + k]);
            assert(hv[19 + k] == '/');
        }
    }
    assert(trim_end_seq(hv, g) == hv);
    let idx = 19 + k;
    assert(hv[idx] == '/');
    assert forall|x: int| idx < x < hv.len() implies hv[x] != '/' by {
        assert(hv[x] == name[x - idx - 1]);
    }
    lemma_last_index_at(hv, '/', idx);
    assert(hv.skip(idx + 1) =~= name);
}


/// The value of a lower-case hex digit, or -1 for any other character.
pub open spec fn hex_digit_value(c: char) -> int {
    if '0' <= c && c <= '9' {
        c as int - '0' as int
    } else if 'a' <= c && c <= 'f' {
        c as int - 'a' as int + 10
    } else {
        -1
    }
}

/// The number that a string of hex digits writes, most significant first.
pub open spec fn hex_value(s: Seq<char>) -> int
    decreases s.len(),
{
    if s.len() == 0 {
        0
    } else {
        hex_value(s.drop_last()) * 16 + hex_digit_value(s.last())
    }
}

proof fn lemma_digit_values(d: int)
    requires
        0 <= d < 16,
    ensures
        hex_digit_value(hex_digits()[d]) == d,
{
    reveal_strlit("0123456789abcdef");
    assert(hex_digits()[0] == '0');
    assert(hex_digits()[d] == "0123456789abcdef"@[d]);
}

proof fn lemma_shift_nibble(h: u64, s: u64)
    requires
        s <= 56,
    ensures
        (h >> s) as int == (h >> ((s + 4) as u64)) as int * 16 + ((h >> s) & 0xf) as int,
{
    let t = (s + 4) as u64;
    assert((h >> s) == (h >> t) * 16 + ((h >> s) & 0xf)) by (bit_vector)
        requires
            s <= 56,
            t == s + 4,
    ;
}

proof fn lemma_hex16_prefix(h: u64, k: int)
    requires
        1 <= k <= 16,
    ensures
        hex_value(hex16(h).take(k)) == (h >> ((64 - 4 * k) as u64)) as int,
    decreases k,
{
    let s = hex16(h);
    let sh = (64 - 4 * k) as u64;
    let d = ((h >> sh) & 0xf) as int;
    assert(d < 16) by {
        assert(((h >> sh) & 0xf) < 16) by (bit_vector);
    }
    assert((60 - 4 * (k - 1)) as u64 == sh);
    assert(s[k - 1] == hex_digits()[((h >> ((60 - 4 * (k - 1)) as u64)) & 0xf) as int]);
    assert(s[k - 1] == hex_digits()[d]);
    lemma_digit_values(d);
    assert(s.take(k).drop_last() =~= s.take(k - 1));
    assert(s.take(k).last() == s[k - 1]);
    if k == 1 {
        assert(s.take(0) =~= Seq::<char>::empty());
        assert(s.take(1).drop_last() =~= Seq::<char>::empty());
        assert(sh == 60u64);
        assert((h >> 60u64) == ((h >> 60u64) & 0xf)) by (bit_vector);
        assert(hex_value(Seq::<char>::empty()) == 0);
    } else {
        lemma_hex16_prefix(h, k - 1);
        lemma_shift_nibble(h, sh);
        assert((sh + 4) as u64 == (64 - 4 * (k - 1)) as u64);
    }
}

/// A law of directory suffixes: the suffix of a directory name is 16
/// lower-case hex digits that write the 64-bit FNV-1a hash of every UTF-8
/// byte of the key: the hash starts at 0xcbf29ce484222325 and each byte
/// `b`, whatever the key's length, takes `h` to `(h xor b) * 0x100000001b3`
/// modulo 2^64.
pub proof fn suffix_is_fnv1a_of_every_byte(input: Seq<char>, bytes: Seq<u8>, b: u8)
    ensures
        hash_suffix_spec(input).len() == 16,
        forall|i: int|
            0 <= i < 16 ==> 0 <= #[trigger] hex_digit_value(hash_suffix_spec(input)[i]) < 16,
        hex_value(hash_suffix_spec(input)) == fnv1a(encode_utf8(input)) as int,
        fnv1a(Seq::empty()) == 0xcbf29ce484222325u64,
        fnv1a(bytes.push(b)) as int == ((fnv1a(bytes) ^ (b as u64)) as int * 0x100000001b3int)
            % 0x1_0000_0000_0000_0000int,
{
    let h = fnv1a(encode_utf8(input));
    let s = hash_suffix_spec(input);
    lemma_hex16_prefix(h, 16);
    assert(s.take(16) =~= s);
    assert((h >> 0u64) == h) by (bit_vector);
    assert forall|i: int| 0 <= i < 16 implies 0 <= #[trigger] hex_digit_value(s[i]) < 16 by {
        let sh = (60 - 4 * i) as u64;
        let d = ((h >> sh) & 0xf) as int;
        assert(d < 16) by {
            assert(((h >> sh) & 0xf) < 16) by (bit_vector);
        }
        lemma_digit_values(d);
    }
    assert(bytes.push(b).drop_last() =~= bytes);
}

} // verus!
