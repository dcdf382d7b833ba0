//! Merging the `plur.theme.json` files of the mods: the members of a later
//! theme override those of an earlier one, and object members (such as
//! `colors`) are merged key by key, the later file winning.
use vstd::prelude::*;
use crate::doc::{Doc, DocV, doc_view, entries_view, member, lemma_doc_view_unfold, lemma_member_at, lemma_member_none};
use crate::text::eq_str;

verus! {

broadcast use vstd::string::group_string_axioms;

/// `es` with the member `k` set to `v`: replaced where `es` first has `k`,
/// else added at the end.
pub open spec fn set_member(es: Seq<(Seq<char>, DocV)>, k: Seq<char>, v: DocV) -> Seq<
    (Seq<char>, DocV),
>
    decreases es.len(),
{
    if es.len() == 0 {
        seq![(k, v)]
    } else if es[0].0 == k {
        es.update(0, (k, v))
    } else {
        seq![es[0]] + set_member(es.drop_first(), k, v)
    }
}

/// `base` with each member of `over` set in turn.
pub open spec fn set_members(base: Seq<(Seq<char>, DocV)>, over: Seq<(Seq<char>, DocV)>) -> Seq<
    (Seq<char>, DocV),
>
    decreases over.len(),
{
    if over.len() == 0 {
        base
    } else {
        set_member(set_members(base, over.drop_last()), over.last().0, over.last().1)
    }
}

/// A later value over an earlier one: two objects are merged member by
/// member; anything else is replaced.
pub open spec fn merge_value(earlier: DocV, later: DocV) -> DocV {
    match (earlier, later) {
        (DocV::Object(a), DocV::Object(b)) => DocV::Object(set_members(a, b)),
        _ => later,
    }
}

/// `es` with `v` merged into its member `k`, or added at the end.
pub open spec fn merge_member(es: Seq<(Seq<char>, DocV)>, k: Seq<char>, v: DocV) -> Seq<
    (Seq<char>, DocV),
>
    decreases es.len(),
{
    if es.len() == 0 {
        seq![(k, v)]
    } else if es[0].0 == k {
        es.update(0, (k, merge_value(es[0].1, v)))
    } else {
        seq![es[0]] + merge_member(es.drop_first(), k, v)
    }
}

/// `base` with each member of `over` merged in turn.
pub open spec fn merge_members(base: Seq<(Seq<char>, DocV)>, over: Seq<(Seq<char>, DocV)>) -> Seq<
    (Seq<char>, DocV),
>
    decreases over.len(),
{
    if over.len() == 0 {
        base
    } else {
        merge_member(merge_members(base, over.drop_last()), over.last().0, over.last().1)
    }
}

/// The theme after a later theme file: two objects merge (and so do their
/// object members, such as `colors`); otherwise the later theme replaces
/// the earlier.
pub open spec fn merge_theme(earlier: DocV, later: DocV) -> DocV {
    match (earlier, later) {
        (DocV::Object(a), DocV::Object(b)) => DocV::Object(merge_members(a, b)),
        _ => later,
    }
}

/// The value of the last member `k` of `es`, if any.
pub open spec fn last_member(es: Seq<(Seq<char>, DocV)>, k: Seq<char>) -> Option<DocV>
    decreases es.len(),
{
    if es.len() == 0 {
        None
    } else if es.last().0 == k {
        Some(es.last().1)
    } else {
        last_member(es.drop_last(), k)
    }
}

/// No key is there twice, as in a parsed JSON object.
pub open spec fn keys_distinct(es: Seq<(Seq<char>, DocV)>) -> bool {
    forall|i: int, j: int|
        0 <= i < es.len() && 0 <= j < es.len() && i != j ==> (#[trigger] es[i]).0 != (
        #[trigger] es[j]).0
}

proof fn lemma_set_member_at(es: Seq<(Seq<char>, DocV)>, k: Seq<char>, v: DocV, i: int)
    requires
        0 <= i < es.len(),
        es[i].0 == k,
        forall|j: int| 0 <= j < i ==> (#[trigger] es[j]).0 != k,
    ensures
        set_member(es, k, v) == es.update(i, (k, v)),
    decreases i,
{
    if i > 0 {
        let t = es.drop_first();
        assert forall|j: int| 0 <= j < i - 1 implies (#[trigger] t[j]).0 != k by {
            assert(t[j] == es[j + 1]);
        }
        lemma_set_member_at(t, k, v, i - 1);
        assert(seq![es[0]] + t.update(i - 1, (k, v)) =~= es.update(i, (k, v)));
    }
}

proof fn lemma_set_member_none(es: Seq<(Seq<char>, DocV)>, k: Seq<char>, v: DocV)
    requires
        forall|j: int| 0 <= j < es.len() ==> (#[trigger] es[j]).0 != k,
    ensures
        set_member(es, k, v) == es.push((k, v)),
    decreases es.len(),
{
    if es.len() > 0 {
        let t = es.drop_first();
        assert forall|j: int| 0 <= j < t.len() implies (#[trigger] t[j]).0 != k by {
            assert(t[j] == es[j + 1]);
        }
        lemma_set_member_none(t, k, v);
        assert(seq![es[0]] + t.push((k, v)) =~= es.push((k, v)));
    }
}

proof fn lemma_merge_member_at(es: Seq<(Seq<char>, DocV)>, k: Seq<char>, v: DocV, i: int)
    requires
        0 <= i < es.len(),
        es[i].0 == k,
        forall|j: int| 0 <= j < i ==> (#[trigger] es[j]).0 != k,
    ensures
        merge_member(es, k, v) == es.update(i, (k, merge_value(es[i].1, v))),
    decreases i,
{
    if i > 0 {
        let t = es.drop_first();
        assert forall|j: int| 0 <= j < i - 1 implies (#[trigger] t[j]).0 != k by {
            assert(t[j] == es[j + 1]);
        }
        lemma_merge_member_at(t, k, v, i - 1);
        assert(t[i - 1] == es[i]);
        assert(seq![es[0]] + t.update(i - 1, (k, merge_value(es[i].1, v))) =~= es.update(
            i,
            (k, merge_value(es[i].1, v)),
        ));
    }
}

proof fn lemma_merge_member_none(es: Seq<(Seq<char>, DocV)>, k: Seq<char>, v: DocV)
    requires
        forall|j: int| 0 <= j < es.len() ==> (#[trigger] es[j]).0 != k,
    ensures
        merge_member(es, k, v) == es.push((k, v)),
    decreases es.len(),
{
    if es.len() > 0 {
        let t = es.drop_first();
        assert forall|j: int| 0 <= j < t.len() implies (#[trigger] t[j]).0 != k by {
            assert(t[j] == es[j + 1]);
        }
        lemma_merge_member_none(t, k, v);
        assert(seq![es[0]] + t.push((k, v)) =~= es.push((k, v)));
    }
}

/// Sets the member `k` of `es` to `v`.
fn set_member_exec(es: &mut Vec<(String, Doc)>, k: String, v: Doc)
    ensures
        entries_view(final(es)@) == set_member(entries_view(old(es)@), k@, doc_view(v)),
{
    let ghost s = entries_view(es@);
    let ghost vv = doc_view(v);
    let ghost kk = k@;
    let mut i: usize = 0;
    while i < es.len()
        invariant
            i <= es.len(),
            s == entries_view(es@),
            s == entries_view(old(es)@),
            kk == k@,
            vv == doc_view(v),
            forall|j: int| 0 <= j < i ==> (#[trigger] s[j]).0 != kk,
        decreases es.len() - i,
    {
        assert(s[i as int].0 == es@[i as int].0@);
        let same = eq_str(es[i].0.as_str(), k.as_str());
        if same {
            assert(s[i as int].0 == kk);
            let ghost before = es@;
            let _replaced = es.remove(i);
            es.insert(i, (k, v));
            proof {
                lemma_set_member_at(s, kk, vv, i as int);
                assert(es@ =~= before.update(i as int, es@[i as int]));
                assert(entries_view(es@) =~= s.update(i as int, (kk, vv)));
            }
            return;
        }
        i = i + 1;
    }
    es.push((k, v));
    proof {
        lemma_set_member_none(s, kk, vv);
        assert(entries_view(es@) =~= s.push((kk, vv)));
    }
}

/// Sets each member of `over` in `es`, in order.
fn set_members_exec(es: &mut Vec<(String, Doc)>, over: Vec<(String, Doc)>)
    ensures
        entries_view(final(es)@) == set_members(entries_view(old(es)@), entries_view(over@)),
{
    let ghost base = entries_view(es@);
    let ghost all = entries_view(over@);
    let mut over = over;
    let ghost mut n: int = 0;
    while over.len() > 0
        invariant
            0 <= n <= all.len(),
            entries_view(over@) == all.skip(n),
            entries_view(es@) == set_members(base, all.take(n)),
        decreases over.len(),
    {
        let ghost rest = over@;
        proof {
            assert(entries_view(rest).len() == rest.len());
            assert(all.skip(n).len() == all.len() - n);
            assert(all.skip(n)[0] == all[n]);
            assert(entries_view(rest)[0] == (rest[0].0@, doc_view(rest[0].1)));
        }
        let (k, v) = over.remove(0);
        set_member_exec(es, k, v);
        proof {
            assert(all.take(n + 1).drop_last() =~= all.take(n));
            assert(all.take(n + 1).last() == all[n]);
            assert(over@ =~= rest.drop_first());
            assert(entries_view(over@) =~= entries_view(rest).drop_first());
            assert(all.skip(n).drop_first() =~= all.skip(n + 1));
            n = n + 1;
        }
    }
    proof {
        assert(all.skip(n).len() == 0);
        assert(all.take(n) =~= all);
    }
}

/// A later value over an earlier one.
fn merge_value_exec(earlier: Doc, later: Doc) -> (r: Doc)
    ensures
        doc_view(r) == merge_value(doc_view(earlier), doc_view(later)),
{
    proof {
        lemma_doc_view_unfold(earlier);
        lemma_doc_view_unfold(later);
    }
    match earlier {
        Doc::Object(a) => match later {
            Doc::Object(b) => {
                let mut a = a;
                set_members_exec(&mut a, b);
                let r = Doc::Object(a);
                proof {
                    lemma_doc_view_unfold(r);
                }
                r
            },
            other => other,
        },
        _ => later,
    }
}

/// Merges `v` into the member `k` of `es`.
fn merge_member_exec(es: &mut Vec<(String, Doc)>, k: String, v: Doc)
    ensures
        entries_view(final(es)@) == merge_member(entries_view(old(es)@), k@, doc_view(v)),
{
    let ghost s = entries_view(es@);
    let ghost vv = doc_view(v);
    let ghost kk = k@;
    let mut i: usize = 0;
    while i < es.len()
        invariant
            i <= es.len(),
            s == entries_view(es@),
            s == entries_view(old(es)@),
            kk == k@,
            vv == doc_view(v),
            forall|j: int| 0 <= j < i ==> (#[trigger] s[j]).0 != kk,
        decreases es.len() - i,
    {
        assert(s[i as int].0 == es@[i as int].0@);
        let same = eq_str(es[i].0.as_str(), k.as_str());
        if same {
            assert(s[i as int].0 == kk);
            let ghost before = es@;
            let (_key, earlier) = es.remove(i);
            proof {
                assert(doc_view(earlier) == s[i as int].1);
            }
            let merged = merge_value_exec(earlier, v);
            es.insert(i, (k, merged));
            proof {
                lemma_merge_member_at(s, kk, vv, i as int);
                assert(es@ =~= before.update(i as int, es@[i as int]));
                assert(entries_view(es@) =~= s.update(i as int, (kk, merge_value(s[i as int].1, vv))));
            }
            return;
        }
        i = i + 1;
    }
    es.push((k, v));
    proof {
        lemma_merge_member_none(s, kk, vv);
        assert(entries_view(es@) =~= s.push((kk, vv)));
    }
}

/// Merges each member of `over` into `es`, in order.
fn merge_members_exec(es: &mut Vec<(String, Doc)>, over: Vec<(String, Doc)>)
    ensures
        entries_view(final(es)@) == merge_members(entries_view(old(es)@), entries_view(over@)),
{
    let ghost base = entries_view(es@);
    let ghost all = entries_view(over@);
    let mut over = over;
    let ghost mut n: int = 0;
    while over.len() > 0
        invariant
            0 <= n <= all.len(),
            entries_view(over@) == all.skip(n),
            entries_view(es@) == merge_members(base, all.take(n)),
        decreases over.len(),
    {
        let ghost rest = over@;
        proof {
            assert(entries_view(rest).len() == rest.len());
            assert(all.skip(n).len() == all.len() - n);
            assert(all.skip(n)[0] == all[n]);
            assert(entries_view(rest)[0] == (rest[0].0@, doc_view(rest[0].1)));
        }
        let (k, v) = over.remove(0);
        merge_member_exec(es, k, v);
        proof {
            assert(all.take(n + 1).drop_last() =~= all.take(n));
            assert(all.take(n + 1).last() == all[n]);
            assert(over@ =~= rest.drop_first());
            assert(entries_view(over@) =~= entries_view(rest).drop_first());
            assert(all.skip(n).drop_first() =~= all.skip(n + 1));
            n = n + 1;
        }
    }
    proof {
        assert(all.skip(n).len() == 0);
        assert(all.take(n) =~= all);
    }
}

/// The theme after the later theme file `later`.
pub fn merge_theme_docs(earlier: Doc, later: Doc) -> (r: Doc)
    ensures
        doc_view(r) == merge_theme(doc_view(earlier), doc_view(later)),
{
    proof {
        lemma_doc_view_unfold(earlier);
        lemma_doc_view_unfold(later);
    }
    match earlier {
        Doc::Object(a) => match later {
            Doc::Object(b) => {
                let mut a = a;
                merge_members_exec(&mut a, b);
                let r = Doc::Object(a);
                proof {
                    lemma_doc_view_unfold(r);
                }
                r
            },
            other => other,
        },
        _ => later,
    }
}


// ---------------------------------------------------------------------------
// What a merged theme holds
// ---------------------------------------------------------------------------

proof fn lemma_set_member_reads(es: Seq<(Seq<char>, DocV)>, k: Seq<char>, v: DocV, q: Seq<char>)
    ensures
        member(set_member(es, k, v), q) == if q == k {
            Some(v)
        } else {
            member(es, q)
        },
    decreases es.len(),
{
    reveal_with_fuel(member, 2);
    if es.len() > 0 && es[0].0 != k {
        lemma_set_member_reads(es.drop_first(), k, v, q);
        let r = seq![es[0]] + set_member(es.drop_first(), k, v);
        assert(r[0] == es[0]);
        assert((seq![es[0]] + set_member(es.drop_first(), k, v)).drop_first() =~= set_member(
            es.drop_first(),
            k,
            v,
        ));
    } else if es.len() > 0 {
        assert(es.update(0, (k, v)).drop_first() =~= es.drop_first());
        assert(es.update(0, (k, v))[0] == (k, v));
    } else {
        assert(seq![(k, v)].drop_first() =~= Seq::<(Seq<char>, DocV)>::empty());
        assert(seq![(k, v)][0] == (k, v));
    }
}

proof fn lemma_merge_member_reads(es: Seq<(Seq<char>, DocV)>, k: Seq<char>, v: DocV, q: Seq<char>)
    ensures
        member(merge_member(es, k, v), q) == if q == k {
            Some(
                match member(es, k) {
                    Some(o) => merge_value(o, v),
                    None => v,
                },
            )
        } else {
            member(es, q)
        },
    decreases es.len(),
{
    reveal_with_fuel(member, 2);
    if es.len() > 0 && es[0].0 != k {
        lemma_merge_member_reads(es.drop_first(), k, v, q);
        let r = seq![es[0]] + merge_member(es.drop_first(), k, v);
        assert(r[0] == es[0]);
        assert((seq![es[0]] + merge_member(es.drop_first(), k, v)).drop_first() =~= merge_member(
            es.drop_first(),
            k,
            v,
        ));
    } else if es.len() > 0 {
        assert(es.update(0, (k, merge_value(es[0].1, v))).drop_first() =~= es.drop_first());
        assert(es.update(0, (k, merge_value(es[0].1, v)))[0] == (k, merge_value(es[0].1, v)));
    } else {
        assert(seq![(k, v)].drop_first() =~= Seq::<(Seq<char>, DocV)>::empty());
        assert(seq![(k, v)][0] == (k, v));
    }
}

/// A law of merging members: the member `q` after setting the members of
/// `over` is the last `q` of `over`, or, where `over` has none, that of
/// `base`.
pub proof fn set_members_later_wins(base: Seq<(Seq<char>, DocV)>, over: Seq<(Seq<char>, DocV)>, q: Seq<char>)
    ensures
        member(set_members(base, over), q) == match last_member(over, q) {
            Some(v) => Some(v),
            None => member(base, q),
        },
    decreases over.len(),
{
    if over.len() > 0 {
        set_members_later_wins(base, over.drop_last(), q);
        lemma_set_member_reads(set_members(base, over.drop_last()), over.last().0, over.last().1, q);
    }
}

proof fn lemma_last_member_none(s: Seq<(Seq<char>, DocV)>, k: Seq<char>)
    requires
        forall|j: int| 0 <= j < s.len() ==> (#[trigger] s[j]).0 != k,
    ensures
        last_member(s, k) is None,
    decreases s.len(),
{
    if s.len() > 0 {
        let t = s.drop_last();
        assert forall|j: int| 0 <= j < t.len() implies (#[trigger] t[j]).0 != k by {
            assert(t[j] == s[j]);
        }
        lemma_last_member_none(t, k);
    }
}

proof fn lemma_last_member_at(s: Seq<(Seq<char>, DocV)>, k: Seq<char>, i: int)
    requires
        0 <= i < s.len(),
        s[i].0 == k,
        forall|j: int| i < j < s.len() ==> (#[trigger] s[j]).0 != k,
    ensures
        last_member(s, k) == Some(s[i].1),
    decreases s.len(),
{
    if i < s.len() - 1 {
        let t = s.drop_last();
        assert forall|j: int| i < j < t.len() implies (#[trigger] t[j]).0 != k by {
            assert(t[j] == s[j]);
        }
        lemma_last_member_at(t, k, i);
    }
}

/// In an object whose keys are distinct, the first member of a key is the
/// last.
proof fn lemma_member_is_last(s: Seq<(Seq<char>, DocV)>, k: Seq<char>)
    requires
        keys_distinct(s),
    ensures
        member(s, k) == last_member(s, k),
{
    if exists|i: int| 0 <= i < s.len() && (#[trigger] s[i]).0 == k {
        let i = choose|i: int| 0 <= i < s.len() && (#[trigger] s[i]).0 == k;
        assert forall|j: int| 0 <= j < i implies (#[trigger] s[j]).0 != k by {
            assert(s[j].0 != s[i].0);
        }
        assert forall|j: int| i < j < s.len() implies (#[trigger] s[j]).0 != k by {
            assert(s[j].0 != s[i].0);
        }
        lemma_member_at(s, k, i);
        lemma_last_member_at(s, k, i);
    } else {
        lemma_member_none(s, k);
        lemma_last_member_none(s, k);
    }
}

proof fn lemma_merge_members_reads(a: Seq<(Seq<char>, DocV)>, b: Seq<(Seq<char>, DocV)>, q: Seq<char>)
    requires
        keys_distinct(b),
    ensures
        member(merge_members(a, b), q) == match last_member(b, q) {
            Some(v) => Some(
                match member(a, q) {
                    Some(o) => merge_value(o, v),
                    None => v,
                },
            ),
            None => member(a, q),
        },
    decreases b.len(),
{
    if b.len() > 0 {
        let t = b.drop_last();
        assert forall|i: int, j: int|
            0 <= i < t.len() && 0 <= j < t.len() && i != j implies (#[trigger] t[i]).0 != (
            #[trigger] t[j]).0 by {
            assert(t[i] == b[i] && t[j] == b[j]);
        }
        lemma_merge_members_reads(a, t, q);
        lemma_merge_member_reads(merge_members(a, t), b.last().0, b.last().1, b.last().0);
        lemma_merge_member_reads(merge_members(a, t), b.last().0, b.last().1, q);
        if b.last().0 == q {
            assert forall|j: int| 0 <= j < t.len() implies (#[trigger] t[j]).0 != q by {
                assert(t[j] == b[j]);
                assert(b[j].0 != b[b.len() - 1].0);
            }
            lemma_last_member_none(t, q);
        }
    }
}

/// A law of theme merging: where both themes are objects (of distinct keys
/// in the later one) and both have `colors` objects, the merged theme's
/// `colors` hold every color of the earlier theme and of the later one, the
/// later winning; a color is read as `set_members_later_wins` says.
pub proof fn theme_colors_merged(
    a: Seq<(Seq<char>, DocV)>,
    b: Seq<(Seq<char>, DocV)>,
    ca: Seq<(Seq<char>, DocV)>,
    cb: Seq<(Seq<char>, DocV)>,
)
    requires
        keys_distinct(b),
        member(a, "colors"@) == Some(DocV::Object(ca)),
        member(b, "colors"@) == Some(DocV::Object(cb)),
    ensures
        merge_theme(DocV::Object(a), DocV::Object(b)) == DocV::Object(merge_members(a, b)),
        member(merge_members(a, b), "colors"@) == Some(DocV::Object(set_members(ca, cb))),
{
    lemma_member_is_last(b, "colors"@);
    lemma_merge_members_reads(a, b, "colors"@);
}

} // verus!
