//! The file name and extension of a path, with the component rules of
//! `std::path::Path`. On Unix only `/` separates components. On Windows a
//! path may open with a prefix (`C:`, `\\server\share`, `\\?\...`,
//! `\\.\device`), and `\` and `/` both separate components, except that
//! verbatim (`\\?\`) paths are split at `\` only. Repeated and trailing
//! separators are ignored, a `.` component is dropped unless it starts the
//! path (or the path is verbatim), and a path that ends in `..`, or has no
//! component after its prefix, has no file name.

use vstd::prelude::*;

verus! {

/// The platform whose path rules apply.
#[derive(Clone, Copy, Debug, PartialEq, Eq, Structural)]
pub enum PathStyle {
    Unix,
    Windows,
}

/// Whether `c` separates components, `/` and `\` each counting when
/// their flag is set.
pub open spec fn is_sep(c: char, slash: bool, backslash: bool) -> bool {
    (slash && c == '/') || (backslash && c == '\\')
}

/// The index just past the last separator of `p` (zero when it has none).
pub open spec fn after_last_sep(p: Seq<char>, slash: bool, backslash: bool) -> int
    decreases p.len(),
{
    if p.len() == 0 {
        0
    } else if is_sep(p.last(), slash, backslash) {
        p.len() as int
    } else {
        after_last_sep(p.drop_last(), slash, backslash)
    }
}

/// The index of the first separator of `p` (its length when it has none).
pub open spec fn first_sep(p: Seq<char>, slash: bool, backslash: bool) -> int
    decreases p.len(),
{
    if p.len() == 0 {
        0
    } else if is_sep(p[0], slash, backslash) {
        0
    } else {
        1 + first_sep(p.drop_first(), slash, backslash)
    }
}

/// The last normal component of the component text `p` (what follows any
/// prefix): separators at the end are skipped, a `.` is dropped unless it
/// opens `p` or `verbatim` holds, and `..` or nothing left gives none.
pub open spec fn last_component(p: Seq<char>, slash: bool, backslash: bool, verbatim: bool) -> Option<
    Seq<char>,
>
    decreases p.len(),
{
    if p.len() == 0 {
        None
    } else if is_sep(p.last(), slash, backslash) {
        last_component(p.drop_last(), slash, backslash, verbatim)
    } else {
        let start = after_last_sep(p, slash, backslash);
        let segment = p.subrange(start, p.len() as int);
        if segment == seq!['.'] {
            if verbatim || start == 0 {
                None
            } else {
                last_component(p.drop_last(), slash, backslash, verbatim)
            }
        } else if segment == seq!['.', '.'] {
            None
        } else {
            Some(segment)
        }
    }
}

/// `c` with `/` read as `\`, as Windows reads the opening of a path.
pub open spec fn norm(c: char) -> char {
    if c == '/' {
        '\\'
    } else {
        c
    }
}

/// An ASCII letter.
pub open spec fn is_ascii_letter(c: char) -> bool {
    ('a' <= c && c <= 'z') || ('A' <= c && c <= 'Z')
}

/// `p` after its first `k` chars.
pub open spec fn after(p: Seq<char>, k: int) -> Seq<char> {
    p.subrange(k, p.len() as int)
}

/// The length of the Windows prefix of `p`, and whether it is verbatim:
/// `\\?\UNC\server\share`, `\\?\C:`, `\\?\name` (verbatim),
/// `\\.\device`, `\\server\share`, `C:`, or none.
pub open spec fn windows_prefix(p: Seq<char>) -> (int, bool) {
    let n = p.len() as int;
    if n >= 2 && norm(p[0]) == '\\' && norm(p[1]) == '\\' {
        if n >= 4 && norm(p[2]) == '?' && norm(p[3]) == '\\' && p[0] != '/' && p[1] != '/'
            && p[3] != '/' {
            if n >= 8 && p[4] == 'U' && p[5] == 'N' && p[6] == 'C' && norm(p[7]) == '\\' {
                let rest = after(p, 8);
                let server = first_sep(rest, false, true);
                let share = if server < rest.len() {
                    first_sep(after(rest, server + 1), false, true)
                } else {
                    0
                };
                (8 + server + if share > 0 {
                    1 + share
                } else {
                    0
                }, true)
            } else {
                let rest = after(p, 4);
                if rest.len() >= 2 && is_ascii_letter(rest[0]) && rest[1] == ':' && (rest.len()
                    == 2 || rest[2] == '\\') {
                    (6, true)
                } else {
                    (4 + first_sep(rest, false, true), true)
                }
            }
        } else if n >= 4 && norm(p[2]) == '.' && norm(p[3]) == '\\' {
            (4 + first_sep(after(p, 4), true, true), false)
        } else {
            let rest = after(p, 2);
            let server = first_sep(rest, true, true);
            let share = if server < rest.len() {
                first_sep(after(rest, server + 1), true, true)
            } else {
                0
            };
            if server > 0 && share > 0 {
                (2 + server + 1 + share, false)
            } else {
                (0, false)
            }
        }
    } else if n >= 2 && is_ascii_letter(p[0]) && p[1] == ':' {
        (2, false)
    } else {
        (0, false)
    }
}

/// The file name of the path `p`: its last normal component.
pub open spec fn file_name(p: Seq<char>, style: PathStyle) -> Option<Seq<char>> {
    match style {
        PathStyle::Unix => last_component(p, true, false, false),
        PathStyle::Windows => {
            let (k, verbatim) = windows_prefix(p);
            last_component(after(p, k), !verbatim, true, verbatim)
        },
    }
}

/// The index of the last `.` in `name`, if there is one.
pub open spec fn last_dot(name: Seq<char>) -> Option<int>
    decreases name.len(),
{
    if name.len() == 0 {
        None
    } else if name.last() == '.' {
        Some(name.len() - 1)
    } else {
        last_dot(name.drop_last())
    }
}

/// The extension of a file name: what follows its last `.`, unless there
/// is no `.` or the only one starts the name.
pub open spec fn name_extension(name: Seq<char>) -> Option<Seq<char>> {
    match last_dot(name) {
        Some(k) => if k == 0 {
            None
        } else {
            Some(name.subrange(k + 1, name.len() as int))
        },
        None => None,
    }
}

/// The extension of the path `p`.
pub open spec fn extension(p: Seq<char>, style: PathStyle) -> Option<Seq<char>> {
    match file_name(p, style) {
        Some(name) => name_extension(name),
        None => None,
    }
}

proof fn lemma_after_last_sep_of_run(p: Seq<char>, start: int, slash: bool, backslash: bool)
    requires
        0 <= start <= p.len(),
        start > 0 ==> is_sep(p[start - 1], slash, backslash),
        forall|i: int| start <= i < p.len() ==> !is_sep(#[trigger] p[i], slash, backslash),
    ensures
        after_last_sep(p, slash, backslash) == start,
    decreases p.len(),
{
    if p.len() > 0 && !is_sep(p.last(), slash, backslash) {
        assert(start < p.len());
        lemma_after_last_sep_of_run(p.drop_last(), start, slash, backslash);
    }
}

proof fn lemma_first_sep_of(p: Seq<char>, i: int, slash: bool, backslash: bool)
    requires
        0 <= i <= p.len(),
        i < p.len() ==> is_sep(p[i], slash, backslash),
        forall|j: int| 0 <= j < i ==> !is_sep(#[trigger] p[j], slash, backslash),
    ensures
        first_sep(p, slash, backslash) == i,
    decreases p.len(),
{
    if p.len() > 0 && i > 0 {
        assert(!is_sep(p[0], slash, backslash));
        assert forall|j: int| 0 <= j < i - 1 implies !is_sep(#[trigger] p.drop_first()[j], slash, backslash) by {
            assert(p.drop_first()[j] == p[j + 1]);
        }
        lemma_first_sep_of(p.drop_first(), i - 1, slash, backslash);
    }
}

proof fn lemma_last_dot_of(name: Seq<char>, k: Option<int>)
    requires
        match k {
            Some(j) => 0 <= j < name.len() && name[j] == '.' && forall|i: int|
                j < i < name.len() ==> name[i] != '.',
            None => forall|i: int| 0 <= i < name.len() ==> name[i] != '.',
        },
    ensures
        last_dot(name) == k,
    decreases name.len(),
{
    if name.len() > 0 && name.last() != '.' {
        lemma_last_dot_of(name.drop_last(), k);
    }
}

/// Whether the char at `i` separates components.
fn sep_at(p: &str, i: usize, slash: bool, backslash: bool) -> (b: bool)
    requires
        i < p@.len(),
    ensures
        b == is_sep(p@[i as int], slash, backslash),
{
    let c = p.get_char(i);
    (slash && c == '/') || (backslash && c == '\\')
}

/// The index of the first separator at or after `from` (the length when
/// there is none).
fn first_sep_from(p: &str, from: usize, slash: bool, backslash: bool) -> (r: usize)
    requires
        from <= p@.len(),
    ensures
        from <= r <= p@.len(),
        r - from == first_sep(after(p@, from as int), slash, backslash),
{
    let len = p.unicode_len();
    let mut i: usize = from;
    while i < len && !sep_at(p, i, slash, backslash)
        invariant
            from <= i <= len == p@.len(),
            forall|j: int| from <= j < i ==> !is_sep(#[trigger] p@[j], slash, backslash),
        decreases len - i,
    {
        i = i + 1;
    }
    proof {
        let s = after(p@, from as int);
        assert forall|j: int| 0 <= j < i - from implies !is_sep(#[trigger] s[j], slash, backslash) by {
            assert(s[j] == p@[from + j]);
        }
        if i < len {
            assert(s[i - from] == p@[i as int]);
        }
        lemma_first_sep_of(s, i - from, slash, backslash);
    }
    i
}

/// The char at `i` read as the opening of a Windows path reads it.
fn norm_at(p: &str, i: usize) -> (c: char)
    requires
        i < p@.len(),
    ensures
        c == norm(p@[i as int]),
{
    let c = p.get_char(i);
    if c == '/' {
        '\\'
    } else {
        c
    }
}

fn ascii_letter(c: char) -> (b: bool)
    ensures
        b == is_ascii_letter(c),
{
    ('a' <= c && c <= 'z') || ('A' <= c && c <= 'Z')
}

/// The length of the Windows prefix of `p`, and whether it is verbatim.
pub fn windows_prefix_of(p: &str) -> (r: (usize, bool))
    ensures
        r.0 as int == windows_prefix(p@).0,
        r.1 == windows_prefix(p@).1,
        r.0 <= p@.len(),
{
    let n = p.unicode_len();
    if n >= 2 && norm_at(p, 0) == '\\' && norm_at(p, 1) == '\\' {
        if n >= 4 && norm_at(p, 2) == '?' && norm_at(p, 3) == '\\' && p.get_char(0) != '/'
            && p.get_char(1) != '/' && p.get_char(3) != '/' {
            if n >= 8 && p.get_char(4) == 'U' && p.get_char(5) == 'N' && p.get_char(6) == 'C'
                && norm_at(p, 7) == '\\' {
                let ghost rest = after(p@, 8);
                let s_end = first_sep_from(p, 8, false, true);
                let server = s_end - 8;
                let share = if s_end < n {
                    let h_end = first_sep_from(p, s_end + 1, false, true);
                    proof {
                        assert(after(rest, server + 1) =~= after(p@, s_end + 1));
                    }
                    h_end - (s_end + 1)
                } else {
                    0
                };
                if share > 0 {
                    (8 + server + 1 + share, true)
                } else {
                    (8 + server, true)
                }
            } else {
                let ghost rest = after(p@, 4);
                if n >= 6 && ascii_letter(p.get_char(4)) && p.get_char(5) == ':' && (n == 6
                    || p.get_char(6) == '\\') {
                    proof {
                        assert(rest[0] == p@[4]);
                        assert(rest[1] == p@[5]);
                        if n > 6 {
                            assert(rest[2] == p@[6]);
                        }
                    }
                    (6, true)
                } else {
                    proof {
                        if rest.len() >= 2 {
                            assert(rest[0] == p@[4]);
                            assert(rest[1] == p@[5]);
                            if rest.len() > 2 {
                                assert(rest[2] == p@[6]);
                            }
                        }
                    }
                    let e = first_sep_from(p, 4, false, true);
                    (e, true)
                }
            }
        } else if n >= 4 && norm_at(p, 2) == '.' && norm_at(p, 3) == '\\' {
            let e = first_sep_from(p, 4, true, true);
            (e, false)
        } else {
            let ghost rest = after(p@, 2);
            let s_end = first_sep_from(p, 2, true, true);
            let server = s_end - 2;
            let share = if s_end < n {
                let h_end = first_sep_from(p, s_end + 1, true, true);
                proof {
                    assert(after(rest, server + 1) =~= after(p@, s_end + 1));
                }
                h_end - (s_end + 1)
            } else {
                0
            };
            if server > 0 && share > 0 {
                (2 + server + 1 + share, false)
            } else {
                (0, false)
            }
        }
    } else if n >= 2 && ascii_letter(p.get_char(0)) && p.get_char(1) == ':' {
        (2, false)
    } else {
        (0, false)
    }
}

/// The prefix length, the separators and the verbatim flag that `style`
/// gives `p`.
fn path_rules(p: &str, style: PathStyle) -> (r: (usize, bool, bool, bool))
    ensures
        r.0 <= p@.len(),
        file_name(p@, style) == last_component(after(p@, r.0 as int), r.1, r.2, r.3),
{
    match style {
        PathStyle::Unix => {
            proof {
                assert(after(p@, 0) =~= p@);
            }
            (0, true, false, false)
        },
        PathStyle::Windows => {
            let (k, verbatim) = windows_prefix_of(p);
            (k, !verbatim, true, verbatim)
        },
    }
}

/// The char range of the file name of `p`, if it has one.
pub fn file_name_range(p: &str, style: PathStyle) -> (r: Option<(usize, usize)>)
    ensures
        match r {
            Some((start, end)) => start <= end <= p@.len() && file_name(p@, style) == Some(
                p@.subrange(start as int, end as int),
            ),
            None => file_name(p@, style) is None,
        },
{
    let (k, slash, backslash, verbatim) = path_rules(p, style);
    let len = p.unicode_len();
    let mut end: usize = len;
    proof {
        assert(p@.subrange(k as int, len as int) =~= after(p@, k as int));
    }
    loop
        invariant
            k <= end <= len == p@.len(),
            last_component(p@.subrange(k as int, end as int), slash, backslash, verbatim)
                == file_name(p@, style),
        decreases end,
    {
        let ghost end0 = end;
        while end > k && sep_at(p, end - 1, slash, backslash)
            invariant
                end <= end0,
                k <= end <= len == p@.len(),
                last_component(p@.subrange(k as int, end as int), slash, backslash, verbatim)
                    == file_name(p@, style),
            decreases end,
        {
            proof {
                let q = p@.subrange(k as int, end as int);
                assert(q.last() == p@[end - 1]);
                assert(q.drop_last() =~= p@.subrange(k as int, end - 1));
            }
            end = end - 1;
        }
        if end == k {
            proof {
                assert(p@.subrange(k as int, k as int) =~= Seq::<char>::empty());
            }
            return None;
        }
        let mut start: usize = end;
        while start > k && !sep_at(p, start - 1, slash, backslash)
            invariant
                k <= start <= end <= len == p@.len(),
                forall|i: int| start <= i < end ==> !is_sep(#[trigger] p@[i], slash, backslash),
            decreases start,
        {
            start = start - 1;
        }
        let ghost q = p@.subrange(k as int, end as int);
        proof {
            assert forall|i: int| start - k <= i < q.len() implies !is_sep(#[trigger] q[i], slash, backslash) by {
                assert(q[i] == p@[k + i]);
            }
            if start > k {
                assert(q[start - k - 1] == p@[start - 1]);
            }
            lemma_after_last_sep_of_run(q, start - k, slash, backslash);
            assert(q.last() == p@[end - 1]);
            assert(q.subrange(start - k, q.len() as int) =~= p@.subrange(start as int, end as int));
        }
        let single_dot = end - start == 1 && p.get_char(start) == '.';
        let double_dot = end - start == 2 && p.get_char(start) == '.' && p.get_char(start + 1) == '.';
        proof {
            let seg = p@.subrange(start as int, end as int);
            if single_dot {
                assert(seg =~= seq!['.']);
            } else {
                assert(seg != seq!['.'] ) by {
                    if seg.len() == 1 {
                        assert(seg[0] == p@[start as int]);
                    }
                }
            }
            if double_dot {
                assert(seg =~= seq!['.', '.']);
            } else {
                assert(seg != seq!['.', '.'] ) by {
                    if seg.len() == 2 {
                        assert(seg[0] == p@[start as int]);
                        assert(seg[1] == p@[start + 1]);
                    }
                }
            }
        }
        if single_dot {
            if verbatim || start == k {
                return None;
            }
            proof {
                assert(q.drop_last() =~= p@.subrange(k as int, start as int));
            }
            end = start;
        } else if double_dot {
            return None;
        } else {
            return Some((start, end));
        }
    }
}

/// The char range of the extension of the file name `p@[start..end]`.
fn extension_range(p: &str, start: usize, end: usize) -> (r: Option<(usize, usize)>)
    requires
        start <= end <= p@.len(),
    ensures
        match r {
            Some((a, b)) => start <= a <= b == end && name_extension(
                p@.subrange(start as int, end as int),
            ) == Some(p@.subrange(a as int, b as int)),
            None => name_extension(p@.subrange(start as int, end as int)) is None,
        },
{
    let ghost name = p@.subrange(start as int, end as int);
    let mut k: usize = end;
    while k > start && p.get_char(k - 1) != '.'
        invariant
            start <= k <= end <= p@.len(),
            forall|i: int| k <= i < end ==> p@[i] != '.',
        decreases k,
    {
        k = k - 1;
    }
    if k == start {
        proof {
            lemma_last_dot_of(name, None);
        }
        None
    } else {
        proof {
            lemma_last_dot_of(name, Some(k - 1 - start));
            assert(name.subrange(k - start, name.len() as int) =~= p@.subrange(
                k as int,
                end as int,
            ));
        }
        if k - 1 == start {
            None
        } else {
            Some((k, end))
        }
    }
}

/// The char range of the extension of the path `p`, if it has one.
pub fn extension_of(p: &str, style: PathStyle) -> (r: Option<(usize, usize)>)
    ensures
        match r {
            Some((a, b)) => a <= b <= p@.len() && extension(p@, style) == Some(
                p@.subrange(a as int, b as int),
            ),
            None => extension(p@, style) is None,
        },
{
    match file_name_range(p, style) {
        Some((start, end)) => extension_range(p, start, end),
        None => None,
    }
}

} // verus!
