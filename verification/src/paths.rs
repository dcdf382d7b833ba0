//! File paths as text: joining, components, file names and extensions,
//! with the meaning that `std::path::Path` gives them on Unix and on
//! Windows.
use vstd::prelude::*;
use crate::text::{concat, concat3, chars_of};

verus! {

broadcast use vstd::string::group_string_axioms;

/// The operating system whose conventions the paths follow.
#[derive(Clone, Copy, Debug)]
pub enum Platform {
    MacOs,
    Linux,
    Windows,
    /// Any other system (Unix-like paths; no Firefox locations are known).
    Other,
}

/// `base` joined with `p` (`Path::join` on Unix): an absolute `p` replaces
/// `base`; otherwise a `/` is put between them unless `base` is empty or
/// already ends with one.
pub open spec fn join(base: Seq<char>, p: Seq<char>) -> Seq<char> {
    if p.len() > 0 && p[0] == '/' {
        p
    } else if base.len() == 0 || base.last() == '/' {
        base + p
    } else {
        base + seq!['/'] + p
    }
}

/// A path is absolute on Unix when it starts with `/`.
pub open spec fn is_absolute(p: Seq<char>) -> bool {
    p.len() > 0 && p[0] == '/'
}

/// `base.join(p)`.
pub fn join_path(base: &str, p: &str) -> (r: String)
    ensures
        r@ == join(base@, p@),
{
    proof {
        reveal_strlit("/");
    }
    let pc = p.unicode_len();
    if pc > 0 && p.get_char(0) == '/' {
        return String::from_str(p);
    }
    let bc = base.unicode_len();
    if bc == 0 || base.get_char(bc - 1) == '/' {
        concat(base, p)
    } else {
        let r = concat3(base, "/", p);
        proof {
            assert("/"@ =~= seq!['/']);
        }
        r
    }
}

/// One component of a path, as `std::path::Component` has it: on Windows a
/// path may begin with a prefix, a UNC `\\server\share` or a drive `C:`
/// (its letter in capitals, as `Prefix::Disk` holds it).
pub enum PathComp {
    Unc(Seq<char>, Seq<char>),
    Disk(char),
    RootDir,
    CurDir,
    ParentDir,
    Normal(Seq<char>),
}

/// The pieces of `s` between the `/` characters, `cur` being the piece
/// begun before `s`.
pub open spec fn split_slash(s: Seq<char>, cur: Seq<char>) -> Seq<Seq<char>>
    decreases s.len(),
{
    if s.len() == 0 {
        seq![cur]
    } else if s[0] == '/' {
        seq![cur] + split_slash(s.drop_first(), seq![])
    } else {
        split_slash(s.drop_first(), cur.push(s[0]))
    }
}

/// The component that one piece gives: empty pieces and `.` vanish, except a
/// leading `.` of a relative path.
pub open spec fn piece_comp(x: Seq<char>, first: bool, rooted: bool) -> Seq<PathComp> {
    if x.len() == 0 {
        seq![]
    } else if x == seq!['.'] {
        if first && !rooted {
            seq![PathComp::CurDir]
        } else {
            seq![]
        }
    } else if x == seq!['.', '.'] {
        seq![PathComp::ParentDir]
    } else {
        seq![PathComp::Normal(x)]
    }
}

pub open spec fn pieces_comps(pieces: Seq<Seq<char>>, first: bool, rooted: bool) -> Seq<PathComp>
    decreases pieces.len(),
{
    if pieces.len() == 0 {
        seq![]
    } else {
        piece_comp(pieces[0], first, rooted) + pieces_comps(pieces.drop_first(), false, rooted)
    }
}

/// The components of `p` (`Path::components` on Unix).
pub open spec fn components(p: Seq<char>) -> Seq<PathComp> {
    let rooted = is_absolute(p);
    (if rooted {
        seq![PathComp::RootDir]
    } else {
        seq![]
    }) + pieces_comps(split_slash(p, seq![]), true, rooted)
}

/// The last component of `p` where it is a normal one (`Path::file_name`).
pub open spec fn file_name(p: Seq<char>) -> Option<Seq<char>> {
    let cs = components(p);
    if cs.len() > 0 && cs.last() is Normal {
        Some(cs.last()->Normal_0)
    } else {
        None
    }
}

/// Index of the last `c` in `s`, or -1.
pub open spec fn last_index(s: Seq<char>, c: char) -> int
    decreases s.len(),
{
    if s.len() == 0 {
        -1
    } else if s.last() == c {
        s.len() - 1
    } else {
        last_index(s.drop_last(), c)
    }
}

/// The extension of a file name: what follows its last `.`, unless that `.`
/// is its first character (`Path::extension`).
pub open spec fn name_extension(name: Seq<char>) -> Option<Seq<char>> {
    let i = last_index(name, '.');
    if i <= 0 || name == seq!['.', '.'] {
        None
    } else {
        Some(name.skip(i + 1))
    }
}

/// `Path::extension`.
pub open spec fn extension(p: Seq<char>) -> Option<Seq<char>> {
    match file_name(p) {
        Some(n) => name_extension(n),
        None => None,
    }
}

/// A component of a path, held in memory.
pub enum Component {
    Unc(Vec<char>, Vec<char>),
    Disk(char),
    RootDir,
    CurDir,
    ParentDir,
    Normal(Vec<char>),
}

impl View for Component {
    type V = PathComp;

    open spec fn view(&self) -> PathComp {
        match self {
            Component::Unc(a, b) => PathComp::Unc(a@, b@),
            Component::Disk(c) => PathComp::Disk(*c),
            Component::RootDir => PathComp::RootDir,
            Component::CurDir => PathComp::CurDir,
            Component::ParentDir => PathComp::ParentDir,
            Component::Normal(v) => PathComp::Normal(v@),
        }
    }
}

pub open spec fn comps_view(v: Seq<Component>) -> Seq<PathComp> {
    v.map_values(|c: Component| c@)
}

proof fn lemma_pieces_comps_cons(x: Seq<char>, rest: Seq<Seq<char>>, first: bool, rooted: bool)
    ensures
        pieces_comps(seq![x] + rest, first, rooted) == piece_comp(x, first, rooted)
            + pieces_comps(rest, false, rooted),
{
    let ps = seq![x] + rest;
    assert(ps[0] == x);
    assert(ps.drop_first() =~= rest);
}

fn push_piece(out: &mut Vec<Component>, cur: Vec<char>, first: bool, rooted: bool)
    ensures
        comps_view(final(out)@) == comps_view(old(out)@) + piece_comp(cur@, first, rooted),
{
    let ghost old_out = out@;
    if cur.len() == 0 {
    } else if cur.len() == 1 && cur[0] == '.' {
        proof {
            assert(cur@ =~= seq!['.']);
        }
        if first && !rooted {
            out.push(Component::CurDir);
        }
    } else if cur.len() == 2 && cur[0] == '.' && cur[1] == '.' {
        proof {
            assert(cur@ =~= seq!['.', '.']);
        }
        out.push(Component::ParentDir);
    } else {
        proof {
            assert(cur@ != seq!['.']) by {
                if cur@ == seq!['.'] {
                    assert(cur@.len() == 1);
                }
            }
            assert(cur@ != seq!['.', '.']) by {
                if cur@ == seq!['.', '.'] {
                    assert(cur@.len() == 2);
                }
            }
        }
        out.push(Component::Normal(cur));
    }
    assert(comps_view(out@) =~= comps_view(old_out) + piece_comp(cur@, first, rooted));
}

/// The components of the path `p`.
pub fn components_of(p: &Vec<char>) -> (r: Vec<Component>)
    ensures
        comps_view(r@) == components(p@),
{
    let rooted = p.len() > 0 && p[0] == '/';
    let mut out: Vec<Component> = Vec::new();
    if rooted {
        out.push(Component::RootDir);
    }
    let mut cur: Vec<char> = Vec::new();
    let mut first = true;
    let mut i: usize = 0;
    let ghost whole = pieces_comps(split_slash(p@, seq![]), true, rooted);
    proof {
        assert(p@.skip(0) =~= p@);
        let pre = if rooted {
            seq![PathComp::RootDir]
        } else {
            seq![]
        };
        assert(comps_view(out@) =~= pre);
    }
    while i < p.len()
        invariant
            i <= p.len(),
            rooted == is_absolute(p@),
            whole == pieces_comps(split_slash(p@, seq![]), true, rooted),
            components(p@) == comps_view(out@) + pieces_comps(
                split_slash(p@.skip(i as int), cur@),
                first,
                rooted,
            ),
        decreases p.len() - i,
    {
        let c = p[i];
        let ghost rest = p@.skip(i as int);
        proof {
            assert(rest[0] == c);
            assert(rest.drop_first() =~= p@.skip(i + 1));
        }
        if c == '/' {
            proof {
                lemma_pieces_comps_cons(cur@, split_slash(p@.skip(i + 1), seq![]), first, rooted);
            }
            let piece = cur;
            cur = Vec::new();
            let ghost before = comps_view(out@);
            push_piece(&mut out, piece, first, rooted);
            first = false;
            proof {
                assert(cur@ =~= seq![]);
                assert(components(p@) =~= comps_view(out@) + pieces_comps(
                    split_slash(p@.skip(i + 1), cur@),
                    first,
                    rooted,
                ));
            }
        } else {
            cur.push(c);
        }
        i = i + 1;
    }
    proof {
        assert(p@.skip(i as int) =~= seq![]);
        assert(split_slash(seq![], cur@) == seq![cur@]);
        lemma_pieces_comps_cons(cur@, seq![], first, rooted);
        assert(pieces_comps(Seq::<Seq<char>>::empty(), false, rooted) == Seq::<PathComp>::empty());
        assert(seq![cur@] + Seq::<Seq<char>>::empty() =~= seq![cur@]);
    }
    push_piece(&mut out, cur, first, rooted);
    proof {
        assert(components(p@) =~= comps_view(out@));
    }
    out
}

/// `Path::file_name` of `p`.
pub fn file_name_of(p: &Vec<char>) -> (r: Option<Vec<char>>)
    ensures
        match r {
            Some(v) => file_name(p@) == Some(v@),
            None => file_name(p@) is None,
        },
{
    let mut cs = components_of(p);
    let ghost v = cs@;
    match cs.pop() {
        Some(Component::Normal(x)) => {
            proof {
                assert(comps_view(v).last() == v.last()@);
            }
            Some(x)
        },
        Some(c) => {
            proof {
                assert(comps_view(v).last() == v.last()@);
            }
            None
        },
        None => None,
    }
}

/// `last_index` is the position of the last `c` (or -1 where there is none).
pub proof fn lemma_last_index_at(s: Seq<char>, c: char, i: int)
    requires
        -1 <= i < s.len(),
        i >= 0 ==> s[i] == c,
        forall|k: int| i < k < s.len() ==> s[k] != c,
    ensures
        last_index(s, c) == i,
    decreases s.len(),
{
    if s.len() > 0 && i < s.len() - 1 {
        assert(s.last() != c);
        let t = s.drop_last();
        assert forall|k: int| i < k < t.len() implies t[k] != c by {
            assert(t[k] == s[k]);
        }
        lemma_last_index_at(t, c, i);
    }
}

/// `Path::extension` of the file name `name`.
pub fn name_extension_of(name: &Vec<char>) -> (r: Option<Vec<char>>)
    ensures
        match r {
            Some(v) => name_extension(name@) == Some(v@),
            None => name_extension(name@) is None,
        },
{
    let mut i = name.len();
    while i > 0 && name[i - 1] != '.'
        invariant
            i <= name.len(),
            forall|k: int| i <= k < name.len() ==> name@[k] != '.',
        decreases i,
    {
        i = i - 1;
    }
    proof {
        lemma_last_index_at(name@, '.', i - 1);
    }
    if i <= 1 {
        return None;
    }
    if name.len() == 2 && name[0] == '.' && name[1] == '.' {
        assert(name@ =~= seq!['.', '.']);
        return None;
    }
    proof {
        assert(name@ != seq!['.', '.']) by {
            if name@ == seq!['.', '.'] {
                assert(name@.len() == 2);
                assert(name@[0] == '.' && name@[1] == '.');
            }
        }
    }
    let mut ext: Vec<char> = Vec::new();
    let mut k = i;
    while k < name.len()
        invariant
            i <= k <= name.len(),
            ext@ == name@.subrange(i as int, k as int),
        decreases name.len() - k,
    {
        ext.push(name[k]);
        k = k + 1;
        assert(ext@ =~= name@.subrange(i as int, k as int));
    }
    assert(ext@ =~= name@.skip(i as int));
    Some(ext)
}

/// `Path::extension` of `p`.
pub fn extension_of(p: &Vec<char>) -> (r: Option<Vec<char>>)
    ensures
        match r {
            Some(v) => extension(p@) == Some(v@),
            None => extension(p@) is None,
        },
{
    match file_name_of(p) {
        Some(n) => name_extension_of(&n),
        None => None,
    }
}


// ---------------------------------------------------------------------------
// Windows paths
// ---------------------------------------------------------------------------

/// `\` and `/` both separate the components of a Windows path.
pub open spec fn is_win_sep(c: char) -> bool {
    c == '\\' || c == '/'
}

/// The pieces of `s` between its separators (Windows), `cur` being the
/// piece begun before `s`.
pub open spec fn split_win(s: Seq<char>, cur: Seq<char>) -> Seq<Seq<char>>
    decreases s.len(),
{
    if s.len() == 0 {
        seq![cur]
    } else if is_win_sep(s[0]) {
        seq![cur] + split_win(s.drop_first(), seq![])
    } else {
        split_win(s.drop_first(), cur.push(s[0]))
    }
}

/// The index of the first separator of `s` at or after `i`, or `s.len()`.
pub open spec fn next_sep(s: Seq<char>, i: int) -> int
    decreases s.len() - i,
{
    if i < 0 || i >= s.len() {
        s.len() as int
    } else if is_win_sep(s[i]) {
        i
    } else {
        next_sep(s, i + 1)
    }
}

pub open spec fn is_ascii_letter(c: char) -> bool {
    ('A' <= c && c <= 'Z') || ('a' <= c && c <= 'z')
}

pub open spec fn ascii_upper(c: char) -> char {
    if 'a' <= c && c <= 'z' {
        ((c as u32) - 32) as char
    } else {
        c
    }
}

/// The prefix of a Windows path and where it ends: a UNC prefix
/// `\\server\share` (either separator, both names non-empty) or a drive
/// `X:`. (Verbatim `\\?\` and device `\\.\` prefixes are read as UNC.)
pub open spec fn win_prefix(p: Seq<char>) -> Option<(PathComp, int)> {
    if p.len() >= 2 && is_win_sep(p[0]) && is_win_sep(p[1]) {
        let a = next_sep(p, 2);
        let b = next_sep(p, a + 1);
        if 2 < a && a < p.len() && a + 1 < b {
            Some((PathComp::Unc(p.subrange(2, a), p.subrange(a + 1, b)), b))
        } else {
            None
        }
    } else if p.len() >= 2 && is_ascii_letter(p[0]) && p[1] == ':' {
        Some((PathComp::Disk(ascii_upper(p[0])), 2))
    } else {
        None
    }
}

pub open spec fn prefix_len(p: Seq<char>) -> int {
    match win_prefix(p) {
        Some((_, k)) => k,
        None => 0,
    }
}

/// A Windows path has a root where a separator follows its prefix, and
/// always after a UNC prefix.
pub open spec fn win_has_root(p: Seq<char>) -> bool {
    let k = prefix_len(p);
    ||| (k < p.len() && is_win_sep(p[k]))
    ||| match win_prefix(p) {
        Some((c, _)) => c is Unc,
        None => false,
    }
}

/// The components of `p` (`Path::components` on Windows).
pub open spec fn win_components(p: Seq<char>) -> Seq<PathComp> {
    let rooted = win_has_root(p);
    (match win_prefix(p) {
        Some((c, _)) => seq![c],
        None => seq![],
    }) + (if rooted {
        seq![PathComp::RootDir]
    } else {
        seq![]
    }) + pieces_comps(split_win(p.skip(prefix_len(p)), seq![]), true, rooted)
}

/// `base.join(p)` on Windows (`PathBuf::push`): a `p` with a prefix
/// replaces `base`; a `p` that starts with a separator keeps only the
/// prefix of `base`; otherwise a `\` is put between them unless `base` is
/// empty, ends with a separator, or is a bare drive such as `C:`.
pub open spec fn windows_join(base: Seq<char>, p: Seq<char>) -> Seq<char> {
    if win_prefix(p) is Some {
        p
    } else if p.len() > 0 && is_win_sep(p[0]) {
        base.take(prefix_len(base)) + p
    } else if base.len() == 0 || is_win_sep(base.last()) || (base.len() == 2 && is_ascii_letter(
        base[0],
    ) && base[1] == ':') {
        base + p
    } else {
        base + seq!['\\'] + p
    }
}

/// The components of `p` on `platform`.
pub open spec fn path_components(platform: Platform, p: Seq<char>) -> Seq<PathComp> {
    match platform {
        Platform::Windows => win_components(p),
        _ => components(p),
    }
}

/// `Path::file_name` on `platform`: the last component where it is a
/// normal one.
pub open spec fn file_name_on(platform: Platform, p: Seq<char>) -> Option<Seq<char>> {
    let cs = path_components(platform, p);
    if cs.len() > 0 && cs.last() is Normal {
        Some(cs.last()->Normal_0)
    } else {
        None
    }
}

/// `Path::extension` on `platform`.
pub open spec fn extension_on(platform: Platform, p: Seq<char>) -> Option<Seq<char>> {
    match file_name_on(platform, p) {
        Some(n) => name_extension(n),
        None => None,
    }
}

/// `Path::is_absolute` on `platform`: on Windows a prefix and a root.
pub open spec fn is_absolute_on(platform: Platform, p: Seq<char>) -> bool {
    match platform {
        Platform::Windows => win_prefix(p) is Some && win_has_root(p),
        _ => is_absolute(p),
    }
}

/// `Path::join` on `platform`.
pub open spec fn join_on(platform: Platform, base: Seq<char>, p: Seq<char>) -> Seq<char> {
    match platform {
        Platform::Windows => windows_join(base, p),
        _ => join(base, p),
    }
}

fn is_sep_char(c: char) -> (b: bool)
    ensures
        b == is_win_sep(c),
{
    c == '\\' || c == '/'
}

fn next_sep_exec(p: &Vec<char>, i: usize) -> (r: usize)
    ensures
        r == next_sep(p@, i as int),
        r <= p.len(),
        i <= p.len() ==> i <= r,
{
    let mut j = i;
    if j >= p.len() {
        return p.len();
    }
    while j < p.len() && !is_sep_char(p[j])
        invariant
            i <= j <= p.len(),
            next_sep(p@, i as int) == next_sep(p@, j as int),
        decreases p.len() - j,
    {
        j = j + 1;
    }
    j
}

fn tail_of(p: &Vec<char>, from: usize, to: usize) -> (r: Vec<char>)
    requires
        from <= to <= p.len(),
    ensures
        r@ == p@.subrange(from as int, to as int),
{
    let mut r: Vec<char> = Vec::new();
    let mut i = from;
    while i < to
        invariant
            from <= i <= to <= p.len(),
            r@ == p@.subrange(from as int, i as int),
        decreases to - i,
    {
        r.push(p[i]);
        i = i + 1;
        assert(r@ =~= p@.subrange(from as int, i as int));
    }
    r
}

/// The prefix of the Windows path `p` and where it ends.
fn win_prefix_exec(p: &Vec<char>) -> (r: Option<(Component, usize)>)
    ensures
        match r {
            Some((c, k)) => win_prefix(p@) == Some((c@, k as int)) && k <= p.len(),
            None => win_prefix(p@) is None,
        },
{
    if p.len() >= 2 && is_sep_char(p[0]) && is_sep_char(p[1]) {
        let a = next_sep_exec(p, 2);
        if 2 < a && a < p.len() {
            let b = next_sep_exec(p, a + 1);
            if a + 1 < b {
                let server = tail_of(p, 2, a);
                let share = tail_of(p, a + 1, b);
                return Some((Component::Unc(server, share), b));
            }
        }
        None
    } else if p.len() >= 2 && (('A' <= p[0] && p[0] <= 'Z') || ('a' <= p[0] && p[0] <= 'z')) && p[1]
        == ':' {
        let c = p[0];
        let u = if 'a' <= c && c <= 'z' {
            assert(0x61 <= c as u32 && c as u32 <= 0x7a);
            crate::text::char_from_ascii((c as u8) - 32)
        } else {
            c
        };
        Some((Component::Disk(u), 2))
    } else {
        None
    }
}

proof fn lemma_split_win_cons(x: Seq<char>, rest: Seq<Seq<char>>, first: bool, rooted: bool)
    ensures
        pieces_comps(seq![x] + rest, first, rooted) == piece_comp(x, first, rooted)
            + pieces_comps(rest, false, rooted),
{
    lemma_pieces_comps_cons(x, rest, first, rooted);
}

/// The components of the Windows path `p`.
pub fn win_components_of(p: &Vec<char>) -> (r: Vec<Component>)
    ensures
        comps_view(r@) == win_components(p@),
{
    let pre = win_prefix_exec(p);
    let mut out: Vec<Component> = Vec::new();
    let mut k: usize = 0;
    let mut unc = false;
    match pre {
        Some((c, n)) => {
            unc = match &c {
                Component::Unc(_, _) => true,
                _ => false,
            };
            out.push(c);
            k = n;
        },
        None => {},
    }
    let rooted = (k < p.len() && is_sep_char(p[k])) || unc;
    proof {
        assert(k as int == prefix_len(p@));
        assert(rooted == win_has_root(p@));
    }
    if rooted {
        out.push(Component::RootDir);
    }
    let mut cur: Vec<char> = Vec::new();
    let mut first = true;
    let mut i: usize = k;
    proof {
        let head = (match win_prefix(p@) {
            Some((c, _)) => seq![c],
            None => seq![],
        }) + (if rooted {
            seq![PathComp::RootDir]
        } else {
            seq![]
        });
        assert(comps_view(out@) =~= head);
        assert(cur@ =~= Seq::<char>::empty());
    }
    while i < p.len()
        invariant
            k <= i <= p.len(),
            components_win_inv(p@, comps_view(out@), i as int, cur@, first, rooted),
        decreases p.len() - i,
    {
        let c = p[i];
        let ghost rest = p@.skip(i as int);
        proof {
            assert(rest[0] == c);
            assert(rest.drop_first() =~= p@.skip(i + 1));
        }
        if is_sep_char(c) {
            proof {
                lemma_pieces_comps_cons(cur@, split_win(p@.skip(i + 1), seq![]), first, rooted);
            }
            let piece = cur;
            cur = Vec::new();
            push_piece(&mut out, piece, first, rooted);
            first = false;
            proof {
                assert(cur@ =~= seq![]);
                assert(win_components(p@) =~= comps_view(out@) + pieces_comps(
                    split_win(p@.skip(i + 1), cur@),
                    first,
                    rooted,
                ));
            }
        } else {
            cur.push(c);
        }
        i = i + 1;
    }
    proof {
        assert(p@.skip(i as int) =~= seq![]);
        assert(split_win(seq![], cur@) == seq![cur@]);
        lemma_pieces_comps_cons(cur@, seq![], first, rooted);
        assert(pieces_comps(Seq::<Seq<char>>::empty(), false, rooted) == Seq::<PathComp>::empty());
        assert(seq![cur@] + Seq::<Seq<char>>::empty() =~= seq![cur@]);
    }
    push_piece(&mut out, cur, first, rooted);
    proof {
        assert(win_components(p@) =~= comps_view(out@));
    }
    out
}

pub open spec fn components_win_inv(
    p: Seq<char>,
    done: Seq<PathComp>,
    i: int,
    cur: Seq<char>,
    first: bool,
    rooted: bool,
) -> bool {
    &&& rooted == win_has_root(p)
    &&& win_components(p) == done + pieces_comps(split_win(p.skip(i), cur), first, rooted)
}

/// The components of `p` on `platform`.
pub fn components_on(platform: Platform, p: &Vec<char>) -> (r: Vec<Component>)
    ensures
        comps_view(r@) == path_components(platform, p@),
{
    match platform {
        Platform::Windows => win_components_of(p),
        _ => components_of(p),
    }
}

/// `Path::file_name` of `p` on `platform`.
pub fn file_name_on_of(platform: Platform, p: &Vec<char>) -> (r: Option<Vec<char>>)
    ensures
        match r {
            Some(v) => file_name_on(platform, p@) == Some(v@),
            None => file_name_on(platform, p@) is None,
        },
{
    let mut cs = components_on(platform, p);
    let ghost v = cs@;
    match cs.pop() {
        Some(Component::Normal(x)) => {
            proof {
                assert(comps_view(v).last() == v.last()@);
            }
            Some(x)
        },
        Some(c) => {
            proof {
                assert(comps_view(v).last() == v.last()@);
            }
            None
        },
        None => None,
    }
}

/// `Path::extension` of `p` on `platform`.
pub fn extension_on_of(platform: Platform, p: &Vec<char>) -> (r: Option<Vec<char>>)
    ensures
        match r {
            Some(v) => extension_on(platform, p@) == Some(v@),
            None => extension_on(platform, p@) is None,
        },
{
    match file_name_on_of(platform, p) {
        Some(n) => name_extension_of(&n),
        None => None,
    }
}

/// `Path::is_absolute` of `p` on `platform`.
pub fn is_absolute_on_exec(platform: Platform, p: &str) -> (r: bool)
    ensures
        r == is_absolute_on(platform, p@),
{
    match platform {
        Platform::Windows => {
            let cs = chars_of(p);
            match win_prefix_exec(&cs) {
                Some((c, k)) => {
                    let unc = match &c {
                        Component::Unc(_, _) => true,
                        _ => false,
                    };
                    (k < cs.len() && is_sep_char(cs[k])) || unc
                },
                None => false,
            }
        },
        _ => p.unicode_len() > 0 && p.get_char(0) == '/',
    }
}

/// `base.join(p)` on Windows.
pub fn windows_join_path(base: &str, p: &str) -> (r: String)
    ensures
        r@ == windows_join(base@, p@),
{
    proof {
        reveal_strlit("\\");
    }
    let pc = chars_of(p);
    let bc = chars_of(base);
    if win_prefix_exec(&pc).is_some() {
        return String::from_str(p);
    }
    if pc.len() > 0 && is_sep_char(pc[0]) {
        let k = match win_prefix_exec(&bc) {
            Some((_, k)) => k,
            None => 0,
        };
        proof {
            assert(bc@.subrange(0, k as int) =~= base@.take(k as int));
        }
        let head = crate::text::substring(base, 0, k);
        return concat(head.as_str(), p);
    }
    let n = bc.len();
    if n == 0 || is_sep_char(bc[n - 1]) || (n == 2 && (('A' <= bc[0] && bc[0] <= 'Z') || ('a' <= bc[0]
        && bc[0] <= 'z')) && bc[1] == ':') {
        concat(base, p)
    } else {
        let r = concat3(base, "\\", p);
        proof {
            assert("\\"@ =~= seq!['\\']);
        }
        r
    }
}

/// `base.join(p)` on `platform`.
pub fn join_on_path(platform: Platform, base: &str, p: &str) -> (r: String)
    ensures
        r@ == join_on(platform, base@, p@),
{
    match platform {
        Platform::Windows => windows_join_path(base, p),
        _ => join_path(base, p),
    }
}

} // verus!
