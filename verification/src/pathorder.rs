//! The order of paths (`PathBuf`'s `Ord`): component by component, where a
//! root comes before `.`, `.` before `..`, and `..` before a normal name,
//! and names compare as strings. Sorting and removing repeats by it.
use vstd::prelude::*;
use crate::order::{seq_lt, less_chars, lemma_lt_total, lemma_lt_transitive, lemma_lt_asymmetric, lemma_lt_irreflexive};
use crate::paths::{PathComp, Component, comps_view, components_on, path_components, Platform};
use crate::text::chars_of;
use crate::legacy::same_path;

verus! {

/// The rank of a component's kind: prefixes (UNC before drives), then a
/// root, `.`, `..` and normal names.
pub open spec fn comp_rank(c: PathComp) -> int {
    match c {
        PathComp::Unc(_, _) => 0,
        PathComp::Disk(_) => 1,
        PathComp::RootDir => 2,
        PathComp::CurDir => 3,
        PathComp::ParentDir => 4,
        PathComp::Normal(_) => 5,
    }
}

/// `a < b` for components of the same kind: names and UNC server, then
/// share, as strings; drive letters as characters.
pub open spec fn same_kind_lt(a: PathComp, b: PathComp) -> bool {
    match (a, b) {
        (PathComp::Normal(x), PathComp::Normal(y)) => seq_lt(x, y),
        (PathComp::Disk(x), PathComp::Disk(y)) => x < y,
        (PathComp::Unc(s1, t1), PathComp::Unc(s2, t2)) => seq_lt(s1, s2) || (s1 == s2 && seq_lt(t1, t2)),
        _ => false,
    }
}

pub open spec fn comp_lt(a: PathComp, b: PathComp) -> bool {
    comp_rank(a) < comp_rank(b) || same_kind_lt(a, b)
}

/// `a < b` for sequences of components.
pub open spec fn comps_lt(a: Seq<PathComp>, b: Seq<PathComp>) -> bool
    decreases a.len(),
{
    if a.len() == 0 {
        b.len() > 0
    } else if b.len() == 0 {
        false
    } else if a[0] != b[0] {
        comp_lt(a[0], b[0])
    } else {
        comps_lt(a.drop_first(), b.drop_first())
    }
}

/// `p < q` for paths on `pf`.
pub open spec fn path_lt(pf: Platform, p: Seq<char>, q: Seq<char>) -> bool {
    comps_lt(path_components(pf, p), path_components(pf, q))
}

proof fn lemma_comp_total(a: PathComp, b: PathComp)
    ensures
        a != b ==> comp_lt(a, b) || comp_lt(b, a),
        !(comp_lt(a, b) && comp_lt(b, a)),
{
    match (a, b) {
        (PathComp::Normal(x), PathComp::Normal(y)) => {
            lemma_lt_total(x, y);
            lemma_lt_asymmetric(x, y);
        },
        (PathComp::Unc(s1, t1), PathComp::Unc(s2, t2)) => {
            lemma_lt_total(s1, s2);
            lemma_lt_asymmetric(s1, s2);
            lemma_lt_total(t1, t2);
            lemma_lt_asymmetric(t1, t2);
            lemma_lt_irreflexive(s1);
        },
        _ => {},
    }
}

proof fn lemma_comp_transitive(a: PathComp, b: PathComp, c: PathComp)
    requires
        comp_lt(a, b),
        comp_lt(b, c),
    ensures
        comp_lt(a, c),
{
    match (a, b, c) {
        (PathComp::Normal(x), PathComp::Normal(y), PathComp::Normal(z)) => {
            lemma_lt_transitive(x, y, z);
        },
        (PathComp::Unc(s1, t1), PathComp::Unc(s2, t2), PathComp::Unc(s3, t3)) => {
            if seq_lt(s1, s2) && seq_lt(s2, s3) {
                lemma_lt_transitive(s1, s2, s3);
            }
            if seq_lt(t1, t2) && seq_lt(t2, t3) {
                lemma_lt_transitive(t1, t2, t3);
            }
        },
        _ => {},
    }
}

/// The order on component lists is total and asymmetric.
pub proof fn lemma_comps_total(a: Seq<PathComp>, b: Seq<PathComp>)
    ensures
        a != b ==> comps_lt(a, b) || comps_lt(b, a),
        !(comps_lt(a, b) && comps_lt(b, a)),
    decreases a.len(),
{
    if a.len() == 0 {
        if b.len() == 0 {
            assert(a =~= b);
        }
    } else if b.len() > 0 {
        lemma_comp_total(a[0], b[0]);
        if a[0] == b[0] {
            lemma_comps_total(a.drop_first(), b.drop_first());
            if a.drop_first() == b.drop_first() {
                assert(a =~= seq![a[0]] + a.drop_first());
                assert(b =~= seq![b[0]] + b.drop_first());
            }
        }
    }
}

/// The order on component lists is transitive.
pub proof fn lemma_comps_transitive(a: Seq<PathComp>, b: Seq<PathComp>, c: Seq<PathComp>)
    requires
        comps_lt(a, b),
        comps_lt(b, c),
    ensures
        comps_lt(a, c),
    decreases a.len(),
{
    if a.len() > 0 && b.len() > 0 && c.len() > 0 {
        if a[0] == b[0] && b[0] == c[0] {
            lemma_comps_transitive(a.drop_first(), b.drop_first(), c.drop_first());
        } else if a[0] == b[0] {
        } else if b[0] == c[0] {
        } else {
            lemma_comp_transitive(a[0], b[0], c[0]);
            lemma_comp_total(a[0], c[0]);
            if a[0] == c[0] {
                lemma_comp_total(a[0], b[0]);
            }
        }
    }
}

proof fn lemma_comps_irreflexive(a: Seq<PathComp>)
    ensures
        !comps_lt(a, a),
{
    lemma_comps_total(a, a);
}

fn chars_equal(x: &Vec<char>, y: &Vec<char>) -> (r: bool)
    ensures
        r == (x@ == y@),
{
    let r = !less_chars(x, y) && !less_chars(y, x);
    proof {
        lemma_lt_total(x@, y@);
        lemma_lt_irreflexive(x@);
    }
    r
}

fn rank_of(c: &Component) -> (r: u8)
    ensures
        r as int == comp_rank(c@),
{
    match c {
        Component::Unc(_, _) => 0,
        Component::Disk(_) => 1,
        Component::RootDir => 2,
        Component::CurDir => 3,
        Component::ParentDir => 4,
        Component::Normal(_) => 5,
    }
}

fn comp_eq(a: &Component, b: &Component) -> (r: bool)
    ensures
        r == (a@ == b@),
{
    match (a, b) {
        (Component::Unc(s1, t1), Component::Unc(s2, t2)) => {
            let r = chars_equal(s1, s2) && chars_equal(t1, t2);
            r
        },
        (Component::Disk(x), Component::Disk(y)) => *x == *y,
        (Component::RootDir, Component::RootDir) => true,
        (Component::CurDir, Component::CurDir) => true,
        (Component::ParentDir, Component::ParentDir) => true,
        (Component::Normal(x), Component::Normal(y)) => {
            let r = !less_chars(x, y) && !less_chars(y, x);
            proof {
                lemma_lt_total(x@, y@);
                lemma_lt_irreflexive(x@);
            }
            r
        },
        _ => false,
    }
}

fn comp_less(a: &Component, b: &Component) -> (r: bool)
    ensures
        r == comp_lt(a@, b@),
{
    let ra = rank_of(a);
    let rb = rank_of(b);
    if ra < rb {
        return true;
    }
    match (a, b) {
        (Component::Normal(x), Component::Normal(y)) => less_chars(x, y),
        (Component::Disk(x), Component::Disk(y)) => *x < *y,
        (Component::Unc(s1, t1), Component::Unc(s2, t2)) => less_chars(s1, s2) || (chars_equal(s1, s2)
            && less_chars(t1, t2)),
        _ => false,
    }
}

/// `a < b` for the components of two paths.
pub fn comps_less(a: &Vec<Component>, b: &Vec<Component>) -> (r: bool)
    ensures
        r == comps_lt(comps_view(a@), comps_view(b@)),
{
    let ghost va = comps_view(a@);
    let ghost vb = comps_view(b@);
    let mut i: usize = 0;
    assert(va.skip(0) =~= va);
    assert(vb.skip(0) =~= vb);
    while i < a.len() && i < b.len() && comp_eq(&a[i], &b[i])
        invariant
            va == comps_view(a@),
            vb == comps_view(b@),
            i <= a.len(),
            i <= b.len(),
            comps_lt(va, vb) == comps_lt(va.skip(i as int), vb.skip(i as int)),
        decreases a.len() - i,
    {
        proof {
            let sa = va.skip(i as int);
            let sb = vb.skip(i as int);
            assert(sa[0] == a@[i as int]@ && sb[0] == b@[i as int]@);
            assert(sa.drop_first() =~= va.skip(i + 1));
            assert(sb.drop_first() =~= vb.skip(i + 1));
        }
        i = i + 1;
    }
    proof {
        if i == 0 {
            assert(va.skip(0) =~= va);
            assert(vb.skip(0) =~= vb);
        }
    }
    let ghost sa = va.skip(i as int);
    let ghost sb = vb.skip(i as int);
    if i == a.len() {
        assert(sa.len() == 0);
        i < b.len()
    } else if i == b.len() {
        assert(sb.len() == 0);
        false
    } else {
        assert(sa[0] == a@[i as int]@ && sb[0] == b@[i as int]@);
        comp_less(&a[i], &b[i])
    }
}

fn comps_eq(a: &Vec<Component>, b: &Vec<Component>) -> (r: bool)
    ensures
        r == (comps_view(a@) == comps_view(b@)),
{
    let r = !comps_less(a, b) && !comps_less(b, a);
    proof {
        lemma_comps_total(comps_view(a@), comps_view(b@));
        lemma_comps_irreflexive(comps_view(a@));
    }
    r
}

pub open spec fn strings_view(v: Seq<String>) -> Seq<Seq<char>> {
    v.map_values(|s: String| s@)
}

/// Each path comes before the next one.
pub open spec fn paths_sorted(pf: Platform, v: Seq<Seq<char>>) -> bool {
    forall|a: int, b: int| 0 <= a < b < v.len() ==> path_lt(pf, #[trigger] v[a], #[trigger] v[b])
}

/// Some path of `v` is the first of `v` that is the same path as `x`, and
/// is spelled as `x`.
pub open spec fn kept_first(pf: Platform, v: Seq<Seq<char>>, x: Seq<char>) -> bool {
    exists|j: int| first_of_its_path(pf, v, j, x)
}

/// Some path of `v` is the same path as `x`.
pub open spec fn has_same_path(pf: Platform, v: Seq<Seq<char>>, x: Seq<char>) -> bool {
    exists|i: int| 0 <= i < v.len() && same_path(pf, v[i], x)
}

/// `v[j]` is the first path of `v` that is the same path as `x`.
pub open spec fn first_of_its_path(pf: Platform, v: Seq<Seq<char>>, j: int, x: Seq<char>) -> bool {
    0 <= j < v.len() && v[j] == x && forall|k: int| 0 <= k < j ==> !same_path(pf, #[trigger] v[k], x)
}

proof fn lemma_insert_path_sorted(pf: Platform, sv: Seq<Seq<char>>, q: int, x: Seq<char>)
    requires
        0 <= q <= sv.len(),
        paths_sorted(pf, sv),
        forall|k: int| 0 <= k < q ==> path_lt(pf, #[trigger] sv[k], x),
        q < sv.len() ==> path_lt(pf, x, sv[q]),
    ensures
        paths_sorted(pf, sv.insert(q, x)),
{
    let t = sv.insert(q, x);
    assert forall|a: int, b: int| 0 <= a < b < t.len() implies path_lt(pf, #[trigger] t[a], #[trigger] t[b]) by {
        if b < q {
            assert(t[a] == sv[a] && t[b] == sv[b]);
        } else if b == q {
            assert(t[a] == sv[a] && t[b] == x);
        } else if a < q {
            assert(t[a] == sv[a] && t[b] == sv[b - 1]);
            if b - 1 > q {
                assert(path_lt(pf, sv[q], sv[b - 1]));
                lemma_comps_transitive(path_components(pf, x), path_components(pf, sv[q]), path_components(pf, sv[b - 1]));
            }
            lemma_comps_transitive(path_components(pf, sv[a]), path_components(pf, x), path_components(pf, sv[b - 1]));
        } else if a == q {
            assert(t[a] == x && t[b] == sv[b - 1]);
            if b - 1 > q {
                assert(path_lt(pf, sv[q], sv[b - 1]));
                lemma_comps_transitive(path_components(pf, x), path_components(pf, sv[q]), path_components(pf, sv[b - 1]));
            }
        } else {
            assert(t[a] == sv[a - 1] && t[b] == sv[b - 1]);
        }
    }
}

/// Where `x` belongs at `q` of the sorted `sv` and is not the path there,
/// no earlier input is the same path as `x`.
proof fn lemma_new_path_is_first(pf: Platform, input: Seq<Seq<char>>, sv: Seq<Seq<char>>, n: int, q: int, x: Seq<char>)
    requires
        0 <= n < input.len(),
        input[n] == x,
        0 <= q <= sv.len(),
        paths_sorted(pf, sv),
        forall|k: int| 0 <= k < q ==> path_lt(pf, #[trigger] sv[k], x),
        q < sv.len() ==> !same_path(pf, sv[q], x) && !path_lt(pf, sv[q], x),
        forall|j: int| 0 <= j < n ==> exists|i: int| 0 <= i < sv.len() && same_path(pf, #[trigger] sv[i], #[trigger] input[j]),
    ensures
        first_of_its_path(pf, input, n, x),
        q < sv.len() ==> path_lt(pf, x, sv[q]),
{
    if q < sv.len() {
        lemma_comps_total(path_components(pf, sv[q]), path_components(pf, x));
    }
    assert forall|k: int| 0 <= k < n implies !same_path(pf, #[trigger] input[k], x) by {
        let i = choose|i: int| 0 <= i < sv.len() && same_path(pf, #[trigger] sv[i], #[trigger] input[k]);
        if same_path(pf, input[k], x) {
            assert(path_components(pf, sv[i]) == path_components(pf, x));
            if i < q {
                assert(path_lt(pf, sv[i], x));
                lemma_comps_irreflexive(path_components(pf, x));
            } else if i > q {
                assert(path_lt(pf, sv[q], sv[i]));
                lemma_comps_total(path_components(pf, sv[q]), path_components(pf, x));
                lemma_comps_irreflexive(path_components(pf, x));
            }
        }
    }
}

proof fn lemma_witnesses(pf: Platform, sv: Seq<Seq<char>>, input: Seq<Seq<char>>, origin: Seq<int>, cover: Seq<int>)
    requires
        origin.len() == sv.len(),
        forall|i: int| 0 <= i < sv.len() ==> 0 <= #[trigger] origin[i] < input.len(),
        forall|i: int| 0 <= i < sv.len() ==> input[#[trigger] origin[i]] == sv[i],
        forall|i: int, k: int|
            0 <= i < sv.len() && 0 <= k < origin[i] ==> !same_path(pf, #[trigger] input[k], #[trigger] sv[i]),
        cover.len() == input.len(),
        forall|j: int| 0 <= j < input.len() ==> 0 <= #[trigger] cover[j] < sv.len(),
        forall|j: int| 0 <= j < input.len() ==> same_path(pf, sv[#[trigger] cover[j]], input[j]),
    ensures
        forall|i: int| 0 <= i < sv.len() ==> kept_first(pf, input, #[trigger] sv[i]),
        forall|j: int| 0 <= j < input.len() ==> has_same_path(pf, sv, #[trigger] input[j]),
{
    assert forall|i: int| 0 <= i < sv.len() implies kept_first(pf, input, #[trigger] sv[i]) by {
        assert(first_of_its_path(pf, input, origin[i], sv[i]));
    }
    assert forall|j: int| 0 <= j < input.len() implies has_same_path(pf, sv, #[trigger] input[j]) by {
        assert(same_path(pf, sv[cover[j]], input[j]));
    }
}

/// `paths` sorted, keeping of each path only its first spelling
/// (`Vec::sort` then `Vec::dedup` on `PathBuf`s), paths read as on `pf`.
pub fn sort_dedup_paths(paths: &Vec<String>, pf: Platform) -> (r: Vec<String>)
    ensures
        paths_sorted(pf, strings_view(r@)),
        forall|i: int|
            0 <= i < r.len() ==> kept_first(pf, strings_view(paths@), #[trigger] strings_view(r@)[i]),
        forall|j: int|
            0 <= j < paths.len() ==> has_same_path(pf, strings_view(r@), #[trigger] strings_view(paths@)[j]),
{
    let ghost input = strings_view(paths@);
    let mut out: Vec<String> = Vec::new();
    let mut keys: Vec<Vec<Component>> = Vec::new();
    // where each kept path came from, and where each input path went
    let ghost mut origin: Seq<int> = Seq::empty();
    let ghost mut cover: Seq<int> = Seq::empty();
    let mut n: usize = 0;
    while n < paths.len()
        invariant
            n <= paths.len(),
            input == strings_view(paths@),
            out.len() == keys.len(),
            forall|i: int|
                0 <= i < out.len() ==> comps_view((#[trigger] keys@[i])@) == path_components(pf, out@[i]@),
            paths_sorted(pf, strings_view(out@)),
            origin.len() == out.len(),
            forall|i: int| 0 <= i < out.len() ==> 0 <= #[trigger] origin[i] < n,
            forall|i: int| 0 <= i < out.len() ==> input[#[trigger] origin[i]] == strings_view(out@)[i],
            forall|i: int, k: int|
                0 <= i < out.len() && 0 <= k < origin[i] ==> !same_path(pf, 
                    #[trigger] input[k],
                    #[trigger] strings_view(out@)[i],
                ),
            cover.len() == n,
            forall|j: int| 0 <= j < n ==> 0 <= #[trigger] cover[j] < out.len(),
            forall|j: int| 0 <= j < n ==> same_path(pf, strings_view(out@)[#[trigger] cover[j]], input[j]),
        decreases paths.len() - n,
    {
        let ghost sv = strings_view(out@);
        let pc = chars_of(paths[n].as_str());
        let key = components_on(pf, &pc);
        let ghost x = paths@[n as int]@;
        assert(input[n as int] == x);
        let mut q: usize = 0;
        while q < out.len() && comps_less(&keys[q], &key)
            invariant
                q <= out.len(),
                out.len() == keys.len(),
                sv == strings_view(out@),
                comps_view(key@) == path_components(pf, x),
                forall|i: int|
                    0 <= i < out.len() ==> comps_view((#[trigger] keys@[i])@) == path_components(pf, out@[i]@),
                forall|k: int| 0 <= k < q ==> path_lt(pf, #[trigger] sv[k], x),
            decreases out.len() - q,
        {
            assert(sv[q as int] == out@[q as int]@);
            q = q + 1;
        }
        if q < out.len() && comps_eq(&keys[q], &key) {
            proof {
                assert(sv[q as int] == out@[q as int]@);
                cover = cover.push(q as int);
            }
        } else {
            proof {
                if q < out.len() {
                    assert(sv[q as int] == out@[q as int]@);
                }
                assert forall|j: int| 0 <= j < n implies exists|i: int|
                    0 <= i < sv.len() && same_path(pf, #[trigger] sv[i], #[trigger] input[j]) by {
                    assert(same_path(pf, sv[cover[j]], input[j]));
                }
                lemma_new_path_is_first(pf, input, sv, n as int, q as int, x);
                lemma_insert_path_sorted(pf, sv, q as int, x);
            }
            let ghost old_keys = keys@;
            let ghost old_out = out@;
            out.insert(q, paths[n].clone());
            keys.insert(q, key);
            proof {
                let nv = strings_view(out@);
                assert(nv =~= sv.insert(q as int, x));
                assert forall|i: int|
                    0 <= i < out.len() implies comps_view((#[trigger] keys@[i])@) == path_components(pf, out@[i]@) by {
                    if i < q {
                        assert(keys@[i] == old_keys[i] && out@[i] == old_out[i]);
                    } else if i > q {
                        assert(keys@[i] == old_keys[i - 1] && out@[i] == old_out[i - 1]);
                    }
                }
                let old_origin = origin;
                let old_cover = cover;
                origin = old_origin.insert(q as int, n as int);
                cover = Seq::new(
                    n as nat,
                    |j: int|
                        if old_cover[j] >= q {
                            old_cover[j] + 1
                        } else {
                            old_cover[j]
                        },
                ).push(q as int);
                assert forall|i: int| 0 <= i < out.len() implies input[#[trigger] origin[i]] == strings_view(out@)[i] by {
                    if i < q {
                        assert(origin[i] == old_origin[i] && nv[i] == sv[i]);
                    } else if i > q {
                        assert(origin[i] == old_origin[i - 1] && nv[i] == sv[i - 1]);
                    }
                }
                assert forall|i: int| 0 <= i < out.len() implies 0 <= #[trigger] origin[i] < n + 1 by {
                    if i < q {
                        assert(origin[i] == old_origin[i]);
                    } else if i > q {
                        assert(origin[i] == old_origin[i - 1]);
                    }
                }
                assert forall|i: int, k: int|
                    0 <= i < out.len() && 0 <= k < origin[i] implies !same_path(pf, 
                    #[trigger] input[k],
                    #[trigger] strings_view(out@)[i],
                ) by {
                    if i < q {
                        assert(origin[i] == old_origin[i] && nv[i] == sv[i]);
                    } else if i > q {
                        assert(origin[i] == old_origin[i - 1] && nv[i] == sv[i - 1]);
                    } else {
                        assert(nv[i] == x);
                    }
                }
                assert forall|j: int| 0 <= j < n + 1 implies 0 <= #[trigger] cover[j] < out.len() by {
                }
                assert forall|j: int| 0 <= j < n + 1 implies same_path(pf, 
                    strings_view(out@)[#[trigger] cover[j]],
                    input[j],
                ) by {
                    if j < n {
                        if old_cover[j] >= q {
                            assert(nv[old_cover[j] + 1] == sv[old_cover[j]]);
                        } else {
                            assert(nv[old_cover[j]] == sv[old_cover[j]]);
                        }
                    } else {
                        assert(nv[q as int] == x);
                    }
                }
            }
        }
        n = n + 1;
    }
    proof {
        lemma_witnesses(pf, strings_view(out@), input, origin, cover);
    }
    out
}

} // verus!
