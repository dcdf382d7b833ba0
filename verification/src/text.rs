//! Character-level text primitives with their mathematical meaning.
//!
//! Text is modelled as `Seq<char>`, the view of `str` and `String`.
use vstd::prelude::*;

verus! {

broadcast use vstd::string::group_string_axioms;

// ---------------------------------------------------------------------------
// Whitespace and trimming
// ---------------------------------------------------------------------------

/// The Unicode `White_Space` property, which `char::is_whitespace` and
/// `str::trim` use.
pub open spec fn is_ws(c: char) -> bool {
    let u = c as u32;
    ||| (0x9 <= u && u <= 0xd)
    ||| u == 0x20
    ||| u == 0x85
    ||| u == 0xa0
    ||| u == 0x1680
    ||| (0x2000 <= u && u <= 0x200a)
    ||| u == 0x2028
    ||| u == 0x2029
    ||| u == 0x202f
    ||| u == 0x205f
    ||| u == 0x3000
}

/// `s` without its leading whitespace.
pub open spec fn trim_start(s: Seq<char>) -> Seq<char>
    decreases s.len(),
{
    if s.len() > 0 && is_ws(s[0]) {
        trim_start(s.drop_first())
    } else {
        s
    }
}

/// `s` without its trailing whitespace.
pub open spec fn trim_end(s: Seq<char>) -> Seq<char>
    decreases s.len(),
{
    if s.len() > 0 && is_ws(s.last()) {
        trim_end(s.drop_last())
    } else {
        s
    }
}

/// `s` without leading and trailing whitespace (`str::trim`).
pub open spec fn trim(s: Seq<char>) -> Seq<char> {
    trim_end(trim_start(s))
}

pub fn is_whitespace(c: char) -> (b: bool)
    ensures
        b == is_ws(c),
{
    let u = c as u32;
    (0x9 <= u && u <= 0xd) || u == 0x20 || u == 0x85 || u == 0xa0 || u == 0x1680 || (0x2000 <= u
        && u <= 0x200a) || u == 0x2028 || u == 0x2029 || u == 0x202f || u == 0x205f || u == 0x3000
}

proof fn lemma_trim_start_at(s: Seq<char>, a: int)
    requires
        0 <= a <= s.len(),
        forall|k: int| 0 <= k < a ==> is_ws(#[trigger] s[k]),
        a == s.len() || !is_ws(s[a]),
    ensures
        trim_start(s) == s.skip(a),
    decreases a,
{
    if a == 0 {
        assert(s.skip(0) =~= s);
    } else {
        let t = s.drop_first();
        assert forall|k: int| 0 <= k < a - 1 implies is_ws(#[trigger] t[k]) by {
            assert(t[k] == s[k + 1]);
        }
        lemma_trim_start_at(t, a - 1);
        assert(t.skip(a - 1) =~= s.skip(a));
    }
}

proof fn lemma_trim_end_at(s: Seq<char>, b: int)
    requires
        0 <= b <= s.len(),
        forall|k: int| b <= k < s.len() ==> is_ws(#[trigger] s[k]),
        b == 0 || !is_ws(s[b - 1]),
    ensures
        trim_end(s) == s.take(b),
    decreases s.len() - b,
{
    if b == s.len() {
        assert(s.take(b) =~= s);
    } else {
        let t = s.drop_last();
        assert forall|k: int| b <= k < t.len() implies is_ws(#[trigger] t[k]) by {
            assert(t[k] == s[k]);
        }
        lemma_trim_end_at(t, b);
        assert(t.take(b) =~= s.take(b));
    }
}

/// The bounds of `str::trim` within `cs`.
pub fn trim_bounds(cs: &Vec<char>, from: usize, to: usize) -> (r: (usize, usize))
    requires
        from <= to <= cs.len(),
    ensures
        from <= r.0 <= r.1 <= to,
        cs@.subrange(r.0 as int, r.1 as int) == trim(cs@.subrange(from as int, to as int)),
{
    let ghost s = cs@.subrange(from as int, to as int);
    let mut a = from;
    while a < to && is_whitespace(cs[a])
        invariant
            from <= a <= to <= cs.len(),
            s == cs@.subrange(from as int, to as int),
            forall|k: int| from <= k < a ==> is_ws(#[trigger] cs@[k]),
        decreases to - a,
    {
        a = a + 1;
    }
    proof {
        assert forall|k: int| 0 <= k < a - from implies is_ws(#[trigger] s[k]) by {
            assert(s[k] == cs@[k + from]);
        }
        lemma_trim_start_at(s, a - from);
    }
    let mut b = to;
    while b > a && is_whitespace(cs[b - 1])
        invariant
            from <= a <= b <= to <= cs.len(),
            forall|k: int| b <= k < to ==> is_ws(#[trigger] cs@[k]),
        decreases b - a,
    {
        b = b - 1;
    }
    proof {
        let t = s.skip(a - from);
        assert(t =~= cs@.subrange(a as int, to as int));
        assert forall|k: int| b - a <= k < t.len() implies is_ws(#[trigger] t[k]) by {
            assert(t[k] == cs@[k + a]);
        }
        lemma_trim_end_at(t, b - a);
        assert(t.take(b - a) =~= cs@.subrange(a as int, b as int));
    }
    (a, b)
}

// ---------------------------------------------------------------------------
// Matching
// ---------------------------------------------------------------------------

/// `p` occurs in `s` at index `i`.
pub open spec fn match_at(s: Seq<char>, p: Seq<char>, i: int) -> bool {
    0 <= i && i + p.len() <= s.len() && s.subrange(i, i + p.len()) == p
}

/// `p` occurs somewhere in `s` (`str::contains`).
pub open spec fn contains(s: Seq<char>, p: Seq<char>) -> bool {
    exists|i: int| match_at(s, p, i)
}

pub open spec fn starts_with(s: Seq<char>, p: Seq<char>) -> bool {
    match_at(s, p, 0)
}

pub open spec fn ends_with(s: Seq<char>, p: Seq<char>) -> bool {
    p.len() <= s.len() && match_at(s, p, s.len() - p.len())
}

pub open spec fn is_first_match(s: Seq<char>, p: Seq<char>, i: int) -> bool {
    match_at(s, p, i) && forall|j: int| 0 <= j < i ==> !match_at(s, p, j)
}

/// Index of the first occurrence of `p` in `s`, or `s.len()` where there is none.
pub open spec fn find(s: Seq<char>, p: Seq<char>) -> int {
    if exists|i: int| is_first_match(s, p, i) {
        choose|i: int| is_first_match(s, p, i)
    } else {
        s.len() as int
    }
}

/// `find` is the position of the first match.
pub proof fn lemma_find_is(s: Seq<char>, p: Seq<char>, i: int)
    requires
        is_first_match(s, p, i),
    ensures
        find(s, p) == i,
{
    let j = choose|j: int| is_first_match(s, p, j);
    if j < i {
        assert(!match_at(s, p, j));
    } else if i < j {
        assert(!match_at(s, p, i));
    }
}

/// With no match anywhere, `find` is the length and `contains` is false.
pub proof fn lemma_find_none(s: Seq<char>, p: Seq<char>)
    requires
        forall|i: int| !match_at(s, p, i),
    ensures
        find(s, p) == s.len(),
        !contains(s, p),
{
}

/// The first index `i >= start` at which `p` occurs in `s`, or `s.len()`.
pub fn find_from(s: &Vec<char>, p: &Vec<char>, start: usize) -> (r: usize)
    requires
        start <= s.len(),
        p.len() > 0,
    ensures
        start <= r <= s.len(),
        forall|j: int| start <= j < r ==> !match_at(s@, p@, j),
        r < s.len() ==> match_at(s@, p@, r as int),
        r == s.len() ==> forall|j: int| start <= j ==> !match_at(s@, p@, j),
{
    let mut i = start;
    while i < s.len()
        invariant
            start <= i <= s.len(),
            p.len() > 0,
            forall|j: int| start <= j < i ==> !match_at(s@, p@, j),
        decreases s.len() - i,
    {
        if match_here(s, p, i) {
            return i;
        }
        i = i + 1;
    }
    i
}

/// Whether `p` occurs in `s` at index `i`.
pub fn match_here(s: &Vec<char>, p: &Vec<char>, i: usize) -> (b: bool)
    requires
        i <= s.len(),
    ensures
        b == match_at(s@, p@, i as int),
{
    if p.len() > s.len() - i {
        return false;
    }
    let mut k: usize = 0;
    while k < p.len()
        invariant
            i + p.len() <= s.len(),
            k <= p.len(),
            forall|m: int| 0 <= m < k ==> s@[i + m] == p@[m],
        decreases p.len() - k,
    {
        if s[i + k] != p[k] {
            assert(s@.subrange(i as int, i + p.len())[k as int] != p@[k as int]);
            return false;
        }
        k = k + 1;
    }
    assert(s@.subrange(i as int, i + p.len()) =~= p@);
    true
}

/// `str::contains` on character vectors.
pub fn contains_chars(s: &Vec<char>, p: &Vec<char>) -> (b: bool)
    requires
        p.len() > 0,
    ensures
        b == contains(s@, p@),
{
    let r = find_from(s, p, 0);
    r < s.len()
}

pub fn starts_with_chars(s: &Vec<char>, p: &Vec<char>) -> (b: bool)
    ensures
        b == starts_with(s@, p@),
{
    match_here(s, p, 0)
}

pub fn ends_with_chars(s: &Vec<char>, p: &Vec<char>) -> (b: bool)
    ensures
        b == ends_with(s@, p@),
{
    if p.len() > s.len() {
        false
    } else {
        match_here(s, p, s.len() - p.len())
    }
}

/// Whether `c` occurs in `s`.
pub fn has_char(s: &Vec<char>, c: char) -> (b: bool)
    ensures
        b == s@.contains(c),
{
    let mut i: usize = 0;
    while i < s.len()
        invariant
            i <= s.len(),
            forall|j: int| 0 <= j < i ==> s@[j] != c,
        decreases s.len() - i,
    {
        if s[i] == c {
            return true;
        }
        i = i + 1;
    }
    false
}

// ---------------------------------------------------------------------------
// Stripping repeated affixes
// ---------------------------------------------------------------------------

/// `str::trim_end_matches(c)` for a single character.
pub open spec fn trim_end_char(s: Seq<char>, c: char) -> Seq<char>
    decreases s.len(),
{
    if s.len() > 0 && s.last() == c {
        trim_end_char(s.drop_last(), c)
    } else {
        s
    }
}

/// `str::trim_end_matches(p)` for a non-empty pattern.
pub open spec fn trim_end_seq(s: Seq<char>, p: Seq<char>) -> Seq<char>
    decreases s.len(),
{
    if p.len() > 0 && ends_with(s, p) {
        trim_end_seq(s.take(s.len() - p.len()), p)
    } else {
        s
    }
}

/// `str::trim_start_matches(p)` for a non-empty pattern.
pub open spec fn trim_start_seq(s: Seq<char>, p: Seq<char>) -> Seq<char>
    decreases s.len(),
{
    if p.len() > 0 && starts_with(s, p) {
        trim_start_seq(s.skip(p.len() as int), p)
    } else {
        s
    }
}

/// Where `p` occurs in `s`, it has a first occurrence.
pub proof fn lemma_first_match_exists(s: Seq<char>, p: Seq<char>, w: int)
    requires
        match_at(s, p, w),
    ensures
        exists|i: int| is_first_match(s, p, i),
    decreases w,
{
    if !is_first_match(s, p, w) {
        let j = choose|j: int| 0 <= j < w && match_at(s, p, j);
        lemma_first_match_exists(s, p, j);
    }
}

/// `trim` leaves alone a text that neither starts nor ends with whitespace.
pub proof fn lemma_trim_unchanged(s: Seq<char>)
    requires
        s.len() > 0,
        !is_ws(s[0]),
        !is_ws(s.last()),
    ensures
        trim(s) == s,
{
    lemma_trim_start_at(s, 0);
    assert(s.skip(0) =~= s);
    lemma_trim_end_at(s, s.len() as int);
    assert(s.take(s.len() as int) =~= s);
}

/// Trimming a repeated character off the end leaves a prefix that does not
/// end with it.
pub proof fn lemma_trim_end_char_prefix(s: Seq<char>, c: char)
    ensures
        trim_end_char(s, c).len() <= s.len(),
        trim_end_char(s, c) == s.take(trim_end_char(s, c).len() as int),
        trim_end_char(s, c).len() == 0 || trim_end_char(s, c).last() != c,
    decreases s.len(),
{
    if s.len() > 0 && s.last() == c {
        lemma_trim_end_char_prefix(s.drop_last(), c);
        let t = trim_end_char(s.drop_last(), c);
        assert(s.drop_last().take(t.len() as int) =~= s.take(t.len() as int));
    } else {
        assert(s.take(s.len() as int) =~= s);
    }
}

/// Trimming a repeated pattern off the end leaves a prefix that does not end
/// with it.
pub proof fn lemma_trim_end_seq_prefix(s: Seq<char>, p: Seq<char>)
    requires
        p.len() > 0,
    ensures
        trim_end_seq(s, p).len() <= s.len(),
        trim_end_seq(s, p) == s.take(trim_end_seq(s, p).len() as int),
        !ends_with(trim_end_seq(s, p), p),
    decreases s.len(),
{
    if ends_with(s, p) {
        let u = s.take(s.len() - p.len());
        lemma_trim_end_seq_prefix(u, p);
        let t = trim_end_seq(u, p);
        assert(u.take(t.len() as int) =~= s.take(t.len() as int));
    } else {
        assert(s.take(s.len() as int) =~= s);
    }
}

/// Trimming `p` off `s + p` is trimming it off `s`.
pub proof fn lemma_trim_end_seq_append(s: Seq<char>, p: Seq<char>)
    requires
        p.len() > 0,
    ensures
        trim_end_seq(s + p, p) == trim_end_seq(s, p),
{
    let sp = s + p;
    assert(sp.subrange(sp.len() - p.len(), sp.len() as int) =~= p);
    assert(sp.take(sp.len() - p.len()) =~= s);
}

/// The end of `s[from..to]` once every trailing `c` is gone.
pub fn trim_end_char_bound(s: &Vec<char>, from: usize, to: usize, c: char) -> (r: usize)
    requires
        from <= to <= s.len(),
    ensures
        from <= r <= to,
        s@.subrange(from as int, r as int) == trim_end_char(
            s@.subrange(from as int, to as int),
            c,
        ),
    decreases to - from,
{
    if to > from && s[to - 1] == c {
        let r = trim_end_char_bound(s, from, to - 1, c);
        proof {
            assert(s@.subrange(from as int, to as int).drop_last() =~= s@.subrange(
                from as int,
                to - 1,
            ));
        }
        r
    } else {
        to
    }
}

/// The end of `s[from..to]` once every trailing `p` is gone.
pub fn trim_end_seq_bound(s: &Vec<char>, p: &Vec<char>, from: usize, to: usize) -> (r: usize)
    requires
        from <= to <= s.len(),
        p.len() > 0,
    ensures
        from <= r <= to,
        s@.subrange(from as int, r as int) == trim_end_seq(
            s@.subrange(from as int, to as int),
            p@,
        ),
    decreases to - from,
{
    let ghost t = s@.subrange(from as int, to as int);
    if p.len() <= to - from && match_here(s, p, to - p.len()) {
        proof {
            assert(t.subrange(t.len() - p.len(), t.len() as int) =~= s@.subrange(
                to - p.len(),
                to as int,
            ));
            assert(t.take(t.len() - p.len()) =~= s@.subrange(from as int, to - p.len()));
        }
        trim_end_seq_bound(s, p, from, to - p.len())
    } else {
        proof {
            if p.len() <= t.len() {
                assert(t.subrange(t.len() - p.len(), t.len() as int) =~= s@.subrange(
                    to - p.len(),
                    to as int,
                ));
            }
        }
        to
    }
}

/// The start of `s[from..to]` once every leading `p` is gone.
pub fn trim_start_seq_bound(s: &Vec<char>, p: &Vec<char>, from: usize, to: usize) -> (r: usize)
    requires
        from <= to <= s.len(),
        p.len() > 0,
    ensures
        from <= r <= to,
        s@.subrange(r as int, to as int) == trim_start_seq(
            s@.subrange(from as int, to as int),
            p@,
        ),
    decreases to - from,
{
    let ghost t = s@.subrange(from as int, to as int);
    if p.len() <= to - from && match_here(s, p, from) {
        proof {
            assert(t.subrange(0, p.len() as int) =~= s@.subrange(from as int, from + p.len()));
            assert(t.skip(p.len() as int) =~= s@.subrange(from + p.len(), to as int));
        }
        trim_start_seq_bound(s, p, from + p.len(), to)
    } else {
        proof {
            if p.len() <= t.len() {
                assert(t.subrange(0, p.len() as int) =~= s@.subrange(
                    from as int,
                    from + p.len(),
                ));
            }
        }
        from
    }
}

// ---------------------------------------------------------------------------
// ASCII case folding
// ---------------------------------------------------------------------------

pub open spec fn ascii_lower(c: char) -> char {
    if 'A' <= c && c <= 'Z' {
        ((c as u32) + 32) as char
    } else {
        c
    }
}

/// `s` with its ASCII capitals made small. Where only ASCII words without
/// `i` or `k` are looked for, this agrees with `str::to_lowercase`, whose
/// other mappings never produce such a letter on its own.
pub open spec fn lower(s: Seq<char>) -> Seq<char> {
    s.map_values(|c: char| ascii_lower(c))
}

pub fn lower_chars(s: &Vec<char>) -> (r: Vec<char>)
    ensures
        r@ == lower(s@),
{
    let mut r: Vec<char> = Vec::new();
    let mut i: usize = 0;
    while i < s.len()
        invariant
            i <= s.len(),
            r@ == lower(s@.take(i as int)),
        decreases s.len() - i,
    {
        let c = s[i];
        let d = if 'A' <= c && c <= 'Z' {
            assert(0x41 <= c as u32 && c as u32 <= 0x5a);
            char_from_ascii((c as u8) + 32)
        } else {
            c
        };
        r.push(d);
        proof {
            assert(s@.take(i + 1) =~= s@.take(i as int).push(c));
        }
        i = i + 1;
    }
    assert(s@.take(s.len() as int) =~= s@);
    r
}

/// The character with code `b`, for an ASCII byte.
pub fn char_from_ascii(b: u8) -> (c: char)
    requires
        b < 128,
    ensures
        c as u32 == b as u32,
        c == (b as u32) as char,
{
    b as char
}

// ---------------------------------------------------------------------------
// From and to `str`
// ---------------------------------------------------------------------------

/// The characters of `s`.
pub fn chars_of(s: &str) -> (v: Vec<char>)
    ensures
        v@ == s@,
{
    let mut v: Vec<char> = Vec::new();
    for c in it: s.chars()
        invariant
            v@ == it.seq().take(it.index() as int),
            it.seq() == s@,
    {
        v.push(c);
    }
    v
}

/// A new `String` holding `s[from..to]`.
pub fn substring(s: &str, from: usize, to: usize) -> (r: String)
    requires
        from <= to <= s@.len(),
    ensures
        r@ == s@.subrange(from as int, to as int),
{
    String::from_str(s.substring_char(from, to))
}

/// `a` followed by `b`.
pub fn concat(a: &str, b: &str) -> (r: String)
    ensures
        r@ == a@ + b@,
{
    let mut r = String::from_str(a);
    r.append(b);
    r
}

/// `a`, `b`, `c` in that order.
pub fn concat3(a: &str, b: &str, c: &str) -> (r: String)
    ensures
        r@ == a@ + b@ + c@,
{
    let mut r = String::from_str(a);
    r.append(b);
    r.append(c);
    r
}

pub fn eq_str(a: &str, b: &str) -> (r: bool)
    ensures
        r == (a@ == b@),
{
    let x = String::from_str(a);
    let y = String::from_str(b);
    x == y
}

} // verus!

verus! {

pub open spec fn decimal_digits() -> Seq<char> {
    "0123456789"@
}

/// `n` in decimal, as `{}` formats it.
pub open spec fn decimal(n: nat) -> Seq<char>
    decreases n,
{
    if n < 10 {
        seq![decimal_digits()[n as int]]
    } else {
        decimal(n / 10) + seq![decimal_digits()[(n % 10) as int]]
    }
}

/// `n` in decimal.
pub fn decimal_string(n: usize) -> (r: String)
    ensures
        r@ == decimal(n as nat),
    decreases n,
{
    let digits = "0123456789";
    proof {
        reveal_strlit("0123456789");
    }
    if n < 10 {
        let r = String::from_str(digits.substring_char(n, n + 1));
        assert(r@ =~= seq![decimal_digits()[n as int]]);
        r
    } else {
        let mut r = decimal_string(n / 10);
        let d = n % 10;
        let piece = digits.substring_char(d, d + 1);
        r.append(piece);
        assert(piece@ =~= seq![decimal_digits()[d as int]]);
        r
    }
}

} // verus!
