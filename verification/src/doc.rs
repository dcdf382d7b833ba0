//! Documents read from JSON and TOML files, and the value they stand for.
use vstd::prelude::*;

verus! {

broadcast use vstd::string::group_string_axioms;

/// A JSON or TOML document held in memory. Numbers are kept as the text
/// that writes them; object members keep their order.
pub enum Doc {
    Null,
    Bool(bool),
    Number(String),
    Text(String),
    Array(Vec<Doc>),
    Object(Vec<(String, Doc)>),
    /// A TOML date-time, as written.
    Date(String),
}

/// The value a document stands for.
pub enum DocV {
    Null,
    Bool(bool),
    Number(Seq<char>),
    Text(Seq<char>),
    Array(Seq<DocV>),
    Object(Seq<(Seq<char>, DocV)>),
    Date(Seq<char>),
}

pub open spec fn doc_view(d: Doc) -> DocV
    decreases d,
{
    match d {
        Doc::Null => DocV::Null,
        Doc::Bool(b) => DocV::Bool(b),
        Doc::Number(s) => DocV::Number(s@),
        Doc::Text(s) => DocV::Text(s@),
        Doc::Array(items) => DocV::Array(
            Seq::new(
                items@.len(),
                |i: int|
                    if 0 <= i < items@.len() {
                        doc_view(items@[i])
                    } else {
                        DocV::Null
                    },
            ),
        ),
        Doc::Object(entries) => DocV::Object(
            Seq::new(
                entries@.len(),
                |i: int|
                    if 0 <= i < entries@.len() {
                        (entries@[i].0@, doc_view(entries@[i].1))
                    } else {
                        (Seq::empty(), DocV::Null)
                    },
            ),
        ),
        Doc::Date(s) => DocV::Date(s@),
    }
}


/// The values of a list of documents.
pub open spec fn items_view(items: Seq<Doc>) -> Seq<DocV> {
    Seq::new(items.len(), |i: int| doc_view(items[i]))
}

/// The members of an object, as values.
pub open spec fn entries_view(es: Seq<(String, Doc)>) -> Seq<(Seq<char>, DocV)> {
    Seq::new(es.len(), |i: int| (es[i].0@, doc_view(es[i].1)))
}

pub fn text_doc(s: &str) -> (r: Doc)
    ensures
        doc_view(r) == DocV::Text(s@),
{
    Doc::Text(String::from_str(s))
}

pub fn number_doc(s: &str) -> (r: Doc)
    ensures
        doc_view(r) == DocV::Number(s@),
{
    Doc::Number(String::from_str(s))
}

pub fn array_doc(items: Vec<Doc>) -> (r: Doc)
    ensures
        doc_view(r) == DocV::Array(items_view(items@)),
{
    let r = Doc::Array(items);
    assert(doc_view(r)->Array_0 =~= items_view(items@));
    r
}

pub fn object_doc(entries: Vec<(String, Doc)>) -> (r: Doc)
    ensures
        doc_view(r) == DocV::Object(entries_view(entries@)),
{
    let r = Doc::Object(entries);
    assert(doc_view(r)->Object_0 =~= entries_view(entries@));
    r
}

/// The member `key` of an object: the first with that key.
pub open spec fn member(entries: Seq<(Seq<char>, DocV)>, key: Seq<char>) -> Option<DocV>
    decreases entries.len(),
{
    if entries.len() == 0 {
        None
    } else if entries[0].0 == key {
        Some(entries[0].1)
    } else {
        member(entries.drop_first(), key)
    }
}


/// `member` finds the first member with the key.
pub proof fn lemma_member_at(s: Seq<(Seq<char>, DocV)>, key: Seq<char>, i: int)
    requires
        0 <= i < s.len(),
        s[i].0 == key,
        forall|j: int| 0 <= j < i ==> (#[trigger] s[j]).0 != key,
    ensures
        member(s, key) == Some(s[i].1),
    decreases i,
{
    if i > 0 {
        let t = s.drop_first();
        assert forall|j: int| 0 <= j < i - 1 implies (#[trigger] t[j]).0 != key by {
            assert(t[j] == s[j + 1]);
        }
        lemma_member_at(t, key, i - 1);
    }
}

/// With no member of that key, `member` finds nothing.
pub proof fn lemma_member_none(s: Seq<(Seq<char>, DocV)>, key: Seq<char>)
    requires
        forall|j: int| 0 <= j < s.len() ==> (#[trigger] s[j]).0 != key,
    ensures
        member(s, key) is None,
    decreases s.len(),
{
    if s.len() > 0 {
        let t = s.drop_first();
        assert forall|j: int| 0 <= j < t.len() implies (#[trigger] t[j]).0 != key by {
            assert(t[j] == s[j + 1]);
        }
        lemma_member_none(t, key);
    }
}

/// The member `key` of the object with members `es`.
pub fn find_member<'a>(es: &'a Vec<(String, Doc)>, key: &str) -> (r: Option<&'a Doc>)
    ensures
        match r {
            Some(d) => member(entries_view(es@), key@) == Some(doc_view(*d)),
            None => member(entries_view(es@), key@) is None,
        },
{
    let ghost s = entries_view(es@);
    let mut i: usize = 0;
    while i < es.len()
        invariant
            i <= es.len(),
            s == entries_view(es@),
            forall|j: int| 0 <= j < i ==> (#[trigger] s[j]).0 != key@,
        decreases es.len() - i,
    {
        if crate::text::eq_str(es[i].0.as_str(), key) {
            proof {
                lemma_member_at(s, key@, i as int);
            }
            return Some(&es[i].1);
        }
        i = i + 1;
    }
    proof {
        lemma_member_none(s, key@);
    }
    None
}


/// The value of an object or array is that of its members.
pub proof fn lemma_doc_view_unfold(d: Doc)
    ensures
        d is Object ==> doc_view(d) == DocV::Object(entries_view(d->Object_0@)),
        d is Array ==> doc_view(d) == DocV::Array(items_view(d->Array_0@)),
        d is Text ==> doc_view(d) == DocV::Text(d->Text_0@),
        d is Null <==> doc_view(d) is Null,
        d is Object <==> doc_view(d) is Object,
        d is Text <==> doc_view(d) is Text,
{
    match d {
        Doc::Object(es) => {
            assert(doc_view(d)->Object_0 =~= entries_view(es@));
        },
        Doc::Array(items) => {
            assert(doc_view(d)->Array_0 =~= items_view(items@));
        },
        _ => {},
    }
}

} // verus!
