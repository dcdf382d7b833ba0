//! The mod configuration (`~/.plur/config.toml`): a map from mod names to
//! repository URLs, and the operations that the commands perform on it.
use vstd::prelude::*;
use crate::text::{concat3, eq_str, decimal, decimal_string};
use crate::order::{seq_lt, less_chars, lemma_lt_total, lemma_lt_transitive};
use crate::paths::{join, join_path};
use crate::naming::{mod_target_dir, mod_target_dir_spec, repo_name_from_url, repo_name_spec};
use crate::text::chars_of;

verus! {

broadcast use vstd::string::group_string_axioms;

/// One configured mod.
pub struct ModEntry {
    pub name: String,
    pub repo: String,
}

/// The configuration: each mod name at most once.
pub struct PlurConfig {
    mods: Vec<ModEntry>,
}

pub open spec fn has_name(s: Seq<ModEntry>, k: Seq<char>) -> bool {
    exists|i: int| 0 <= i < s.len() && (#[trigger] s[i]).name@ == k
}

pub open spec fn names_distinct(s: Seq<ModEntry>) -> bool {
    forall|i: int, j: int|
        0 <= i < s.len() && 0 <= j < s.len() && i != j ==> (#[trigger] s[i]).name@ != (
        #[trigger] s[j]).name@
}

/// The map from names to repository URLs that a list of entries holds.
pub open spec fn map_of(s: Seq<ModEntry>) -> Map<Seq<char>, Seq<char>> {
    Map::new(
        |k: Seq<char>| has_name(s, k),
        |k: Seq<char>| s[choose|i: int| 0 <= i < s.len() && (#[trigger] s[i]).name@ == k].repo@,
    )
}

proof fn lemma_map_of_at(s: Seq<ModEntry>, i: int)
    requires
        names_distinct(s),
        0 <= i < s.len(),
    ensures
        map_of(s).contains_key(s[i].name@),
        map_of(s)[s[i].name@] == s[i].repo@,
{
    let k = s[i].name@;
    assert(has_name(s, k));
    let j = choose|j: int| 0 <= j < s.len() && (#[trigger] s[j]).name@ == k;
    if j != i {
        assert(s[j].name@ != s[i].name@);
    }
}

impl View for PlurConfig {
    type V = Map<Seq<char>, Seq<char>>;

    closed spec fn view(&self) -> Map<Seq<char>, Seq<char>> {
        map_of(self.mods@)
    }
}

/// What the mod list shows of one mod.
pub struct ModInfo {
    pub name: String,
    pub repo: String,
    pub installed: bool,
}

pub open spec fn info_names(s: Seq<ModInfo>) -> Seq<Seq<char>> {
    s.map_values(|m: ModInfo| m.name@)
}

/// Each name comes before the next one.
pub open spec fn strictly_sorted(s: Seq<Seq<char>>) -> bool {
    forall|a: int, b: int| 0 <= a < b < s.len() ==> seq_lt(#[trigger] s[a], #[trigger] s[b])
}

/// Some string of `v` is `k`.
pub open spec fn strings_contain(v: Seq<String>, k: Seq<char>) -> bool {
    exists|i: int| 0 <= i < v.len() && (#[trigger] v[i])@ == k
}

/// The configuration after importing the legacy repository URLs `urls`, in
/// order, and how many mods that added: a URL whose short name is empty, or
/// names a mod already configured, is passed over.
pub open spec fn import_spec(m: Map<Seq<char>, Seq<char>>, urls: Seq<Seq<char>>) -> (Map<
    Seq<char>,
    Seq<char>,
>, nat)
    decreases urls.len(),
{
    if urls.len() == 0 {
        (m, 0)
    } else {
        let (m1, n1) = import_spec(m, urls.drop_last());
        let url = urls.last();
        let name = repo_name_spec(url);
        if name.len() == 0 || m1.contains_key(name) {
            (m1, n1)
        } else {
            (m1.insert(name, url), n1 + 1)
        }
    }
}

/// The clone URL that `add_mod` records for `user/repo`.
pub open spec fn github_url(user: Seq<char>, repo: Seq<char>) -> Seq<char> {
    "https://github.com/"@ + user + "/"@ + repo + ".git"@
}

/// The message that reports an import.
pub open spec fn imported_message(n: nat) -> Seq<char> {
    "Imported "@ + decimal(n) + " legacy mods."@
}

impl PlurConfig {
    #[verifier::type_invariant]
    closed spec fn wf(self) -> bool {
        names_distinct(self.mods@)
    }

    /// An empty configuration.
    pub fn new() -> (c: Self)
        ensures
            c@ == Map::<Seq<char>, Seq<char>>::empty(),
    {
        let c = PlurConfig { mods: Vec::new() };
        assert(c@ =~= Map::<Seq<char>, Seq<char>>::empty());
        c
    }

    /// Where the mod `name` stands, if it is configured.
    fn index_of(&self, name: &str) -> (r: Option<usize>)
        ensures
            match r {
                Some(i) => i < self.mods@.len() && self.mods@[i as int].name@ == name@,
                None => !has_name(self.mods@, name@),
            },
    {
        let mut i: usize = 0;
        while i < self.mods.len()
            invariant
                i <= self.mods@.len(),
                forall|j: int| 0 <= j < i ==> (#[trigger] self.mods@[j]).name@ != name@,
            decreases self.mods.len() - i,
        {
            if eq_str(self.mods[i].name.as_str(), name) {
                return Some(i);
            }
            i = i + 1;
        }
        None
    }

    /// Whether no mod is configured.
    pub fn is_empty(&self) -> (b: bool)
        ensures
            b == (self@.dom() == Set::<Seq<char>>::empty()),
    {
        let b = self.mods.len() == 0;
        if !b {
            proof {
                assert(has_name(self.mods@, self.mods@[0].name@));
                assert(self@.dom().contains(self.mods@[0].name@));
            }
        } else {
            assert(self@.dom() =~= Set::<Seq<char>>::empty());
        }
        b
    }

    /// The repository URL of the mod `name`.
    pub fn get(&self, name: &str) -> (r: Option<String>)
        ensures
            match r {
                Some(s) => self@.contains_key(name@) && self@[name@] == s@,
                None => !self@.contains_key(name@),
            },
    {
        proof {
            use_type_invariant(self);
        }
        match self.index_of(name) {
            Some(i) => {
                proof {
                    lemma_map_of_at(self.mods@, i as int);
                }
                Some(self.mods[i].repo.clone())
            },
            None => None,
        }
    }

    /// Records `repo` as the repository of the mod `name`.
    pub fn insert(&mut self, name: String, repo: String)
        ensures
            final(self)@ == old(self)@.insert(name@, repo@),
    {
        proof {
            use_type_invariant(&*self);
        }
        let ghost old_mods = self.mods@;
        match self.index_of(name.as_str()) {
            Some(i) => {
                let ghost k = name@;
                let ghost v = repo@;
                let mut mods: Vec<ModEntry> = Vec::new();
                std::mem::swap(&mut mods, &mut self.mods);
                mods.set(i, ModEntry { name, repo });
                proof {
                    let s = mods@;
                    assert forall|a: int, b: int|
                        0 <= a < s.len() && 0 <= b < s.len() && a != b implies (#[trigger] s[a]).name@
                        != (#[trigger] s[b]).name@ by {
                        assert(old_mods[a].name@ != old_mods[b].name@);
                    }
                    assert forall|key: Seq<char>| #[trigger]
                        map_of(s).contains_key(key) == map_of(old_mods).insert(
                            k,
                            v,
                        ).contains_key(key) by {
                        if has_name(old_mods, key) {
                            let j = choose|j: int|
                                0 <= j < old_mods.len() && (#[trigger] old_mods[j]).name@ == key;
                            assert(s[j].name@ == key);
                        }
                        if has_name(s, key) {
                            let j = choose|j: int| 0 <= j < s.len() && (#[trigger] s[j]).name@ == key;
                            assert(old_mods[j].name@ == key || j == i);
                        }
                        if key == k {
                            assert(s[i as int].name@ == key);
                        }
                    }
                    assert forall|key: Seq<char>| #[trigger]
                        map_of(s).contains_key(key) implies map_of(s)[key] == map_of(
                            old_mods,
                        ).insert(k, v)[key] by {
                        let j = choose|j: int| 0 <= j < s.len() && (#[trigger] s[j]).name@ == key;
                        lemma_map_of_at(s, j);
                        if j != i {
                            lemma_map_of_at(old_mods, j);
                        }
                    }
                    assert(map_of(s) =~= map_of(old_mods).insert(k, v));
                }
                self.mods = mods;
            },
            None => {
                let ghost k = name@;
                let ghost v = repo@;
                let mut mods: Vec<ModEntry> = Vec::new();
                std::mem::swap(&mut mods, &mut self.mods);
                mods.push(ModEntry { name, repo });
                proof {
                    let s = mods@;
                    assert forall|a: int, b: int|
                        0 <= a < s.len() && 0 <= b < s.len() && a != b implies (#[trigger] s[a]).name@
                        != (#[trigger] s[b]).name@ by {
                        if a < old_mods.len() && b < old_mods.len() {
                            assert(old_mods[a].name@ != old_mods[b].name@);
                        } else if a < old_mods.len() {
                            assert(old_mods[a].name@ != k);
                        } else if b < old_mods.len() {
                            assert(old_mods[b].name@ != k);
                        }
                    }
                    assert forall|key: Seq<char>| #[trigger]
                        map_of(s).contains_key(key) == (map_of(old_mods).insert(
                            k,
                            v,
                        ).contains_key(key)) by {
                        if has_name(old_mods, key) {
                            let j = choose|j: int|
                                0 <= j < old_mods.len() && (#[trigger] old_mods[j]).name@ == key;
                            assert(s[j].name@ == key);
                        }
                        if has_name(s, key) {
                            let j = choose|j: int| 0 <= j < s.len() && (#[trigger] s[j]).name@ == key;
                            if j < old_mods.len() {
                                assert(old_mods[j].name@ == key);
                            }
                        }
                        if key == k {
                            assert(s[old_mods.len() as int].name@ == key);
                        }
                    }
                    assert forall|key: Seq<char>| #[trigger]
                        map_of(s).contains_key(key) implies map_of(s)[key] == map_of(
                            old_mods,
                        ).insert(k, v)[key] by {
                        let j = choose|j: int| 0 <= j < s.len() && (#[trigger] s[j]).name@ == key;
                        lemma_map_of_at(s, j);
                        if j < old_mods.len() {
                            lemma_map_of_at(old_mods, j);
                        }
                    }
                    assert(map_of(s) =~= map_of(old_mods).insert(k, v));
                }
                self.mods = mods;
            },
        }
    }

    /// Forgets the mod `name`; says whether it was configured.
    pub fn remove(&mut self, name: &str) -> (r: bool)
        ensures
            r == old(self)@.contains_key(name@),
            final(self)@ == old(self)@.remove(name@),
    {
        proof {
            use_type_invariant(&*self);
        }
        let ghost old_mods = self.mods@;
        match self.index_of(name) {
            Some(i) => {
                let mut mods: Vec<ModEntry> = Vec::new();
                std::mem::swap(&mut mods, &mut self.mods);
                mods.remove(i);
                proof {
                    let s = mods@;
                    let k = name@;
                    assert(s =~= old_mods.remove(i as int));
                    assert forall|a: int, b: int|
                        0 <= a < s.len() && 0 <= b < s.len() && a != b implies (#[trigger] s[a]).name@
                        != (#[trigger] s[b]).name@ by {
                        let a2 = if a < i {
                            a
                        } else {
                            a + 1
                        };
                        let b2 = if b < i {
                            b
                        } else {
                            b + 1
                        };
                        assert(s[a] == old_mods[a2] && s[b] == old_mods[b2]);
                        assert(old_mods[a2].name@ != old_mods[b2].name@);
                    }
                    assert(has_name(old_mods, k));
                    assert forall|key: Seq<char>| #[trigger]
                        map_of(s).contains_key(key) == map_of(old_mods).remove(k).contains_key(
                            key,
                        ) by {
                        if has_name(old_mods, key) && key != k {
                            let j = choose|j: int|
                                0 <= j < old_mods.len() && (#[trigger] old_mods[j]).name@ == key;
                            assert(j != i);
                            let j2 = if j < i {
                                j
                            } else {
                                j - 1
                            };
                            assert(s[j2] == old_mods[j]);
                        }
                        if has_name(s, key) {
                            let j = choose|j: int| 0 <= j < s.len() && (#[trigger] s[j]).name@ == key;
                            let j2 = if j < i {
                                j
                            } else {
                                j + 1
                            };
                            assert(s[j] == old_mods[j2]);
                            assert(j2 != i ==> old_mods[j2].name@ != old_mods[i as int].name@);
                        }
                    }
                    assert forall|key: Seq<char>| #[trigger]
                        map_of(s).contains_key(key) implies map_of(s)[key] == map_of(old_mods)[key] by {
                        let j = choose|j: int| 0 <= j < s.len() && (#[trigger] s[j]).name@ == key;
                        lemma_map_of_at(s, j);
                        let j2 = if j < i {
                            j
                        } else {
                            j + 1
                        };
                        assert(s[j] == old_mods[j2]);
                        lemma_map_of_at(old_mods, j2);
                    }
                    assert(map_of(s) =~= map_of(old_mods).remove(k));
                }
                self.mods = mods;
                true
            },
            None => {
                assert(map_of(old_mods).remove(name@) =~= map_of(old_mods));
                false
            },
        }
    }

    /// The configured mods as (name, repository URL) pairs.
    pub fn entries(&self) -> (r: Vec<(String, String)>)
        ensures
            forall|i: int|
                0 <= i < r.len() ==> self@.contains_key((#[trigger] r@[i]).0@) && self@[r@[i].0@]
                    == r@[i].1@,
            forall|k: Seq<char>|
                self@.contains_key(k) ==> exists|i: int| 0 <= i < r.len() && (#[trigger] r@[i]).0@ == k,
            forall|i: int, j: int|
                0 <= i < r.len() && 0 <= j < r.len() && i != j ==> (#[trigger] r@[i]).0@ != (
                #[trigger] r@[j]).0@,
    {
        proof {
            use_type_invariant(self);
        }
        let mut r: Vec<(String, String)> = Vec::new();
        let mut i: usize = 0;
        while i < self.mods.len()
            invariant
                i <= self.mods@.len(),
                names_distinct(self.mods@),
                r.len() == i,
                forall|j: int|
                    0 <= j < i ==> (#[trigger] r@[j]).0@ == self.mods@[j].name@ && r@[j].1@
                        == self.mods@[j].repo@,
            decreases self.mods.len() - i,
        {
            r.push((self.mods[i].name.clone(), self.mods[i].repo.clone()));
            i = i + 1;
        }
        proof {
            assert forall|j: int| 0 <= j < r.len() implies self@.contains_key(
                (#[trigger] r@[j]).0@,
            ) && self@[r@[j].0@] == r@[j].1@ by {
                lemma_map_of_at(self.mods@, j);
            }
            assert forall|k: Seq<char>| self@.contains_key(k) implies exists|j: int|
                0 <= j < r.len() && (#[trigger] r@[j]).0@ == k by {
                let j = choose|j: int|
                    0 <= j < self.mods@.len() && (#[trigger] self.mods@[j]).name@ == k;
                assert(r@[j].0@ == k);
            }
            assert forall|a: int, b: int|
                0 <= a < r.len() && 0 <= b < r.len() && a != b implies (#[trigger] r@[a]).0@ != (
                #[trigger] r@[b]).0@ by {
                assert(self.mods@[a].name@ != self.mods@[b].name@);
            }
        }
        r
    }
}

/// `~/.plur/config.toml` under the home directory `home`.
pub fn config_path(home: &str) -> (r: String)
    ensures
        r@ == join(join(home@, ".plur"@), "config.toml"@),
{
    let dir = join_path(home, ".plur");
    join_path(dir.as_str(), "config.toml")
}

/// `~/.plur/mods` under the home directory `home`.
pub fn mods_dir(home: &str) -> (r: String)
    ensures
        r@ == join(join(home@, ".plur"@), "mods"@),
{
    let dir = join_path(home, ".plur");
    join_path(dir.as_str(), "mods")
}

/// Appends one line to the build log.
pub fn log_line(logs: &mut Vec<String>, message: String)
    ensures
        final(logs)@ == old(logs)@.push(message),
{
    logs.push(message);
}

/// Records the mod `repo` of the GitHub user `user` under the name `repo`.
pub fn add_mod(config: &mut PlurConfig, user: &str, repo: &str)
    ensures
        final(config)@ == old(config)@.insert(repo@, github_url(user@, repo@)),
{
    let head = concat3("https://github.com/", user, "/");
    let url = concat3(head.as_str(), repo, ".git");
    config.insert(String::from_str(repo), url);
}

/// Forgets the mod `name` where it is recorded with the repository `repo`;
/// says whether it did.
pub fn remove_mod(config: &mut PlurConfig, name: &str, repo: &str) -> (removed: bool)
    ensures
        removed == (old(config)@.contains_key(name@) && old(config)@[name@] == repo@),
        final(config)@ == if removed {
            old(config)@.remove(name@)
        } else {
            old(config)@
        },
{
    match config.get(name) {
        Some(current) => {
            if eq_str(current.as_str(), repo) {
                config.remove(name);
                true
            } else {
                false
            }
        },
        None => false,
    }
}

/// The directory of each configured mod under `base_dir`, as (name, directory).
pub fn mod_dirs(config: &PlurConfig, base_dir: &str) -> (r: Vec<(String, String)>)
    ensures
        forall|i: int|
            0 <= i < r.len() ==> config@.contains_key((#[trigger] r@[i]).0@) && r@[i].1@
                == mod_target_dir_spec(base_dir@, r@[i].0@, config@[r@[i].0@]),
        forall|k: Seq<char>|
            config@.contains_key(k) ==> exists|i: int| 0 <= i < r.len() && (#[trigger] r@[i]).0@ == k,
        forall|i: int, j: int|
            0 <= i < r.len() && 0 <= j < r.len() && i != j ==> (#[trigger] r@[i]).0@ != (
            #[trigger] r@[j]).0@,
{
    let es = config.entries();
    let mut r: Vec<(String, String)> = Vec::new();
    let mut i: usize = 0;
    while i < es.len()
        invariant
            i <= es.len(),
            r.len() == i,
            forall|j: int|
                0 <= j < es.len() ==> config@.contains_key((#[trigger] es@[j]).0@) && config@[es@[j].0@]
                    == es@[j].1@,
            forall|a: int, b: int|
                0 <= a < es.len() && 0 <= b < es.len() && a != b ==> (#[trigger] es@[a]).0@ != (
                #[trigger] es@[b]).0@,
            forall|j: int|
                0 <= j < i ==> (#[trigger] r@[j]).0@ == es@[j].0@ && r@[j].1@ == mod_target_dir_spec(
                    base_dir@,
                    es@[j].0@,
                    es@[j].1@,
                ),
        decreases es.len() - i,
    {
        let dir = mod_target_dir(base_dir, es[i].0.as_str(), es[i].1.as_str());
        r.push((es[i].0.clone(), dir));
        i = i + 1;
    }
    proof {
        assert forall|k: Seq<char>| config@.contains_key(k) implies exists|j: int|
            0 <= j < r.len() && (#[trigger] r@[j]).0@ == k by {
            let j = choose|j: int| 0 <= j < es.len() && (#[trigger] es@[j]).0@ == k;
            assert(r@[j].0@ == k);
        }
        assert forall|a: int, b: int|
            0 <= a < r.len() && 0 <= b < r.len() && a != b implies (#[trigger] r@[a]).0@ != (
            #[trigger] r@[b]).0@ by {
            assert(es@[a].0@ != es@[b].0@);
        }
    }
    r
}

fn strings_contain_exec(v: &Vec<String>, k: &str) -> (b: bool)
    ensures
        b == strings_contain(v@, k@),
{
    let mut i: usize = 0;
    while i < v.len()
        invariant
            i <= v.len(),
            forall|j: int| 0 <= j < i ==> (#[trigger] v@[j])@ != k@,
        decreases v.len() - i,
    {
        if eq_str(v[i].as_str(), k) {
            return true;
        }
        i = i + 1;
    }
    false
}

proof fn lemma_insert_sorted(s: Seq<Seq<char>>, j: int, x: Seq<char>)
    requires
        0 <= j <= s.len(),
        strictly_sorted(s),
        forall|k: int| 0 <= k < j ==> seq_lt(s[k], x),
        j < s.len() ==> seq_lt(x, s[j]),
    ensures
        strictly_sorted(s.insert(j, x)),
{
    let t = s.insert(j, x);
    assert forall|a: int, b: int| 0 <= a < b < t.len() implies seq_lt(
        #[trigger] t[a],
        #[trigger] t[b],
    ) by {
        if b < j {
            assert(t[a] == s[a] && t[b] == s[b]);
        } else if b == j {
            assert(t[a] == s[a] && t[b] == x);
        } else if a < j {
            assert(t[a] == s[a] && t[b] == s[b - 1]);
            if b - 1 > j {
                assert(seq_lt(s[j], s[b - 1]));
                lemma_lt_transitive(x, s[j], s[b - 1]);
            }
            lemma_lt_transitive(s[a], x, s[b - 1]);
        } else if a == j {
            assert(t[a] == x && t[b] == s[b - 1]);
            if b - 1 > j {
                assert(seq_lt(s[j], s[b - 1]));
                lemma_lt_transitive(x, s[j], s[b - 1]);
            }
        } else {
            assert(t[a] == s[a - 1] && t[b] == s[b - 1]);
        }
    }
}

/// The configured mods sorted by name, each marked installed where its name
/// is among `installed` (the mods whose directory exists).
pub fn collect_mods(config: &PlurConfig, installed: &Vec<String>) -> (r: Vec<ModInfo>)
    ensures
        strictly_sorted(info_names(r@)),
        forall|i: int|
            0 <= i < r.len() ==> config@.contains_key((#[trigger] r@[i]).name@) && config@[r@[i].name@]
                == r@[i].repo@ && r@[i].installed == strings_contain(installed@, r@[i].name@),
        forall|k: Seq<char>|
            config@.contains_key(k) ==> exists|i: int| 0 <= i < r.len() && (#[trigger] r@[i]).name@ == k,
{
    let es = config.entries();
    let mut out: Vec<ModInfo> = Vec::new();
    let mut i: usize = 0;
    while i < es.len()
        invariant
            i <= es.len(),
            forall|j: int|
                0 <= j < es.len() ==> config@.contains_key((#[trigger] es@[j]).0@) && config@[es@[j].0@]
                    == es@[j].1@,
            forall|a: int, b: int|
                0 <= a < es.len() && 0 <= b < es.len() && a != b ==> (#[trigger] es@[a]).0@ != (
                #[trigger] es@[b]).0@,
            strictly_sorted(info_names(out@)),
            forall|k: int|
                0 <= k < out.len() ==> exists|j: int|
                    0 <= j < i && (#[trigger] es@[j]).0@ == (#[trigger] out@[k]).name@ && out@[k].repo@
                        == es@[j].1@ && out@[k].installed == strings_contain(installed@, es@[j].0@),
            forall|j: int|
                0 <= j < i ==> exists|k: int|
                    0 <= k < out.len() && (#[trigger] out@[k]).name@ == (#[trigger] es@[j]).0@,
        decreases es.len() - i,
    {
        let name_chars = chars_of(es[i].0.as_str());
        let mut p: usize = 0;
        while p < out.len() && !less_chars(&name_chars, &chars_of(out[p].name.as_str()))
            invariant
                p <= out.len(),
                name_chars@ == es@[i as int].0@,
                forall|k: int| 0 <= k < p ==> !seq_lt(name_chars@, (#[trigger] out@[k]).name@),
            decreases out.len() - p,
        {
            p = p + 1;
        }
        let inst = strings_contain_exec(installed, es[i].0.as_str());
        let info = ModInfo { name: es[i].0.clone(), repo: es[i].1.clone(), installed: inst };
        let ghost old_out = out@;
        proof {
            let x = es@[i as int].0@;
            assert forall|k: int| 0 <= k < p implies seq_lt(
                #[trigger] info_names(old_out)[k],
                x,
            ) by {
                let j = choose|j: int|
                    0 <= j < i && (#[trigger] es@[j]).0@ == (#[trigger] old_out[k]).name@
                        && old_out[k].repo@ == es@[j].1@ && old_out[k].installed == strings_contain(
                        installed@,
                        es@[j].0@,
                    );
                assert(es@[j].0@ != es@[i as int].0@);
                lemma_lt_total(x, old_out[k].name@);
            }
            lemma_insert_sorted(info_names(old_out), p as int, x);
            assert(info_names(old_out.insert(p as int, info)) =~= info_names(old_out).insert(
                p as int,
                x,
            ));
        }
        out.insert(p, info);
        proof {
            assert(out@ =~= old_out.insert(p as int, info));
            assert forall|k: int| 0 <= k < out.len() implies exists|j: int|
                0 <= j < i + 1 && (#[trigger] es@[j]).0@ == (#[trigger] out@[k]).name@
                    && out@[k].repo@ == es@[j].1@ && out@[k].installed == strings_contain(
                    installed@,
                    es@[j].0@,
                ) by {
                if k < p {
                    assert(out@[k] == old_out[k]);
                } else if k == p {
                    assert(es@[i as int].0@ == out@[k].name@);
                } else {
                    assert(out@[k] == old_out[k - 1]);
                }
            }
            assert forall|j: int| 0 <= j < i + 1 implies exists|k: int|
                0 <= k < out.len() && (#[trigger] out@[k]).name@ == (#[trigger] es@[j]).0@ by {
                if j == i {
                    assert(out@[p as int].name@ == es@[j].0@);
                } else {
                    let k = choose|k: int|
                        0 <= k < old_out.len() && (#[trigger] old_out[k]).name@ == (
                        #[trigger] es@[j]).0@;
                    if k < p {
                        assert(out@[k] == old_out[k]);
                    } else {
                        assert(out@[k + 1] == old_out[k]);
                    }
                }
            }
        }
        i = i + 1;
    }
    proof {
        assert forall|k: int| 0 <= k < out.len() implies config@.contains_key(
            (#[trigger] out@[k]).name@,
        ) && config@[out@[k].name@] == out@[k].repo@ && out@[k].installed == strings_contain(
            installed@,
            out@[k].name@,
        ) by {
            let j = choose|j: int|
                0 <= j < es.len() && (#[trigger] es@[j]).0@ == (#[trigger] out@[k]).name@
                    && out@[k].repo@ == es@[j].1@ && out@[k].installed == strings_contain(
                    installed@,
                    es@[j].0@,
                );
        }
        assert forall|key: Seq<char>| config@.contains_key(key) implies exists|k: int|
            0 <= k < out.len() && (#[trigger] out@[k]).name@ == key by {
            let j = choose|j: int| 0 <= j < es.len() && (#[trigger] es@[j]).0@ == key;
            let k = choose|k: int|
                0 <= k < out.len() && (#[trigger] out@[k]).name@ == (#[trigger] es@[j]).0@;
        }
    }
    out
}

/// Adds to `config` the legacy mods whose repository URLs are `repo_urls`,
/// keeping every mod already configured; reports an import in `logs` and
/// says how many mods it added.
pub fn import_legacy_mods(config: &mut PlurConfig, repo_urls: &Vec<String>, logs: &mut Vec<String>) -> (added: usize)
    ensures
        final(config)@ == import_spec(old(config)@, repo_urls@.map_values(|u: String| u@)).0,
        added == import_spec(old(config)@, repo_urls@.map_values(|u: String| u@)).1,
        added > 0 ==> final(logs)@.len() == old(logs)@.len() + 1 && final(logs)@.last()@
            == imported_message(added as nat) && final(logs)@.drop_last() == old(logs)@,
        added == 0 ==> final(logs)@ == old(logs)@,
{
    let ghost start = config@;
    let ghost urls = repo_urls@.map_values(|u: String| u@);
    let mut added: usize = 0;
    let mut i: usize = 0;
    while i < repo_urls.len()
        invariant
            i <= repo_urls.len(),
            urls == repo_urls@.map_values(|u: String| u@),
            (config@, added as nat) == import_spec(start, urls.take(i as int)),
            added <= i,
        decreases repo_urls.len() - i,
    {
        let url = &repo_urls[i];
        let name = repo_name_from_url(url.as_str());
        proof {
            assert(urls.take(i + 1).drop_last() =~= urls.take(i as int));
            assert(urls.take(i + 1).last() == url@);
        }
        if name.unicode_len() != 0 {
            match config.get(name.as_str()) {
                Some(_) => {},
                None => {
                    config.insert(name, url.clone());
                    added = added + 1;
                },
            }
        }
        i = i + 1;
    }
    proof {
        assert(urls.take(i as int) =~= urls);
    }
    if added > 0 {
        let count = decimal_string(added);
        let msg = concat3("Imported ", count.as_str(), " legacy mods.");
        logs.push(msg);
        proof {
            assert(logs@.drop_last() =~= old(logs)@);
        }
    }
    added
}

/// A law of imports: a mod that was configured before keeps its repository.
pub proof fn import_keeps_existing(m: Map<Seq<char>, Seq<char>>, urls: Seq<Seq<char>>, k: Seq<char>)
    requires
        m.contains_key(k),
    ensures
        import_spec(m, urls).0.contains_key(k),
        import_spec(m, urls).0[k] == m[k],
    decreases urls.len(),
{
    if urls.len() > 0 {
        import_keeps_existing(m, urls.drop_last(), k);
    }
}

/// A law of imports: every imported URL whose short name is not empty ends
/// up configured under that name (if not under its own URL, then under the
/// URL of the mod that already had the name).
pub proof fn import_configures_every_name(m: Map<Seq<char>, Seq<char>>, urls: Seq<Seq<char>>, i: int)
    requires
        0 <= i < urls.len(),
        repo_name_spec(urls[i]).len() > 0,
    ensures
        import_spec(m, urls).0.contains_key(repo_name_spec(urls[i])),
    decreases urls.len(),
{
    if i < urls.len() - 1 {
        import_configures_every_name(m, urls.drop_last(), i);
        let r = import_spec(m, urls.drop_last()).0;
        assert(r.contains_key(repo_name_spec(urls[i])));
    }
}

/// A law of imports: the count is the number of names the import added.
pub proof fn import_count_is_new_names(m: Map<Seq<char>, Seq<char>>, urls: Seq<Seq<char>>)
    requires
        m.dom().finite(),
    ensures
        import_spec(m, urls).0.dom().finite(),
        import_spec(m, urls).0.dom().len() == m.dom().len() + import_spec(m, urls).1,
    decreases urls.len(),
{
    if urls.len() > 0 {
        import_count_is_new_names(m, urls.drop_last());
    }
}


/// A law of the commands: adding a mod that was not configured and then
/// removing it by its name and the URL that adding recorded leaves the
/// configuration as it was.
pub proof fn add_then_remove_restores(m: Map<Seq<char>, Seq<char>>, user: Seq<char>, repo: Seq<char>)
    requires
        !m.contains_key(repo),
    ensures
        ({
            let added = m.insert(repo, github_url(user, repo));
            &&& added.contains_key(repo) && added[repo] == github_url(user, repo)
            &&& added.remove(repo) == m
        }),
{
    assert(m.insert(repo, github_url(user, repo)).remove(repo) =~= m);
}


proof fn lemma_import_nothing_new(m: Map<Seq<char>, Seq<char>>, urls: Seq<Seq<char>>)
    requires
        forall|i: int|
            0 <= i < urls.len() && repo_name_spec(#[trigger] urls[i]).len() > 0 ==> m.contains_key(
                repo_name_spec(urls[i]),
            ),
    ensures
        import_spec(m, urls) == (m, 0nat),
    decreases urls.len(),
{
    if urls.len() > 0 {
        let t = urls.drop_last();
        assert forall|i: int|
            0 <= i < t.len() && repo_name_spec(#[trigger] t[i]).len() > 0 implies m.contains_key(
            repo_name_spec(t[i]),
        ) by {
            assert(t[i] == urls[i]);
        }
        lemma_import_nothing_new(m, t);
        assert(urls.last() == urls[urls.len() - 1]);
    }
}

/// A law of imports: importing the same URLs a second time adds nothing and
/// changes nothing.
pub proof fn import_is_idempotent(m: Map<Seq<char>, Seq<char>>, urls: Seq<Seq<char>>)
    ensures
        import_spec(import_spec(m, urls).0, urls) == (import_spec(m, urls).0, 0nat),
{
    let m1 = import_spec(m, urls).0;
    assert forall|i: int|
        0 <= i < urls.len() && repo_name_spec(#[trigger] urls[i]).len() > 0 implies m1.contains_key(
        repo_name_spec(urls[i]),
    ) by {
        import_configures_every_name(m, urls, i);
    }
    lemma_import_nothing_new(m1, urls);
}

} // verus!
