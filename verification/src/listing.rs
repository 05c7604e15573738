//! The file list as the frontend shows it: name, path and size of each
//! file, ordered by name without regard to letter case.

use vstd::prelude::*;
use vstd::utf8::encode_utf8;
use crate::files::lowercase;

verus! {

/// A file as the frontend lists it.
#[derive(Clone, Debug, PartialEq, Eq)]
pub struct FileInfo {
    pub name: String,
    pub path: String,
    pub size: u64,
}

impl View for FileInfo {
    type V = (Seq<char>, Seq<char>, u64);

    open spec fn view(&self) -> (Seq<char>, Seq<char>, u64) {
        (self.name@, self.path@, self.size)
    }
}

/// Byte strings in lexicographic order, as `str` compares them.
pub open spec fn bytes_le(a: Seq<u8>, b: Seq<u8>) -> bool
    decreases a.len(),
{
    if a.len() == 0 {
        true
    } else if b.len() == 0 {
        false
    } else if a[0] != b[0] {
        a[0] < b[0]
    } else {
        bytes_le(a.drop_first(), b.drop_first())
    }
}

/// What a listed file is ordered by: its name in lower case, as UTF-8.
pub open spec fn name_key(f: (Seq<char>, Seq<char>, u64)) -> Seq<u8> {
    encode_utf8(lowercase(f.0))
}

/// `s` with `x` put after the last entry whose key is at most `x`'s (at the
/// front when there is none).
pub open spec fn insert_by_name(s: Seq<(Seq<char>, Seq<char>, u64)>, x: (Seq<char>, Seq<char>, u64)) -> Seq<
    (Seq<char>, Seq<char>, u64),
>
    decreases s.len(),
{
    if s.len() == 0 {
        seq![x]
    } else if bytes_le(name_key(s.last()), name_key(x)) {
        s.push(x)
    } else {
        insert_by_name(s.drop_last(), x).push(s.last())
    }
}

/// `s` ordered by name key, files of equal key keeping their order: the
/// stable sort of `s`.
pub open spec fn sorted_by_name(s: Seq<(Seq<char>, Seq<char>, u64)>) -> Seq<(Seq<char>, Seq<char>, u64)>
    decreases s.len(),
{
    if s.len() == 0 {
        s
    } else {
        insert_by_name(sorted_by_name(s.drop_last()), s.last())
    }
}

/// Every file's key is at most the key of every later file.
pub open spec fn name_sorted(s: Seq<(Seq<char>, Seq<char>, u64)>) -> bool {
    forall|i: int, j: int| 0 <= i < j < s.len() ==> bytes_le(name_key(s[i]), name_key(s[j]))
}

proof fn lemma_bytes_le_total(a: Seq<u8>, b: Seq<u8>)
    ensures
        bytes_le(a, b) || bytes_le(b, a),
    decreases a.len(),
{
    if a.len() > 0 && b.len() > 0 && a[0] == b[0] {
        lemma_bytes_le_total(a.drop_first(), b.drop_first());
    }
}

proof fn lemma_bytes_le_trans(a: Seq<u8>, b: Seq<u8>, c: Seq<u8>)
    requires
        bytes_le(a, b),
        bytes_le(b, c),
    ensures
        bytes_le(a, c),
    decreases a.len(),
{
    if a.len() > 0 && b.len() > 0 && c.len() > 0 && a[0] == b[0] && b[0] == c[0] {
        lemma_bytes_le_trans(a.drop_first(), b.drop_first(), c.drop_first());
    }
}

proof fn lemma_insert_bounded(
    t: Seq<(Seq<char>, Seq<char>, u64)>,
    x: (Seq<char>, Seq<char>, u64),
    bound: Seq<u8>,
)
    requires
        forall|i: int| 0 <= i < t.len() ==> bytes_le(name_key(#[trigger] t[i]), bound),
        bytes_le(name_key(x), bound),
    ensures
        insert_by_name(t, x).len() == t.len() + 1,
        forall|i: int|
            0 <= i < insert_by_name(t, x).len() ==> bytes_le(
                name_key(#[trigger] insert_by_name(t, x)[i]),
                bound,
            ),
    decreases t.len(),
{
    if t.len() > 0 && !bytes_le(name_key(t.last()), name_key(x)) {
        let u = t.drop_last();
        assert forall|i: int| 0 <= i < u.len() implies bytes_le(name_key(#[trigger] u[i]), bound) by {
            assert(u[i] == t[i]);
        }
        lemma_insert_bounded(u, x, bound);
        assert(bytes_le(name_key(t[t.len() - 1]), bound));
    }
}

proof fn lemma_insert_sorted(s: Seq<(Seq<char>, Seq<char>, u64)>, x: (Seq<char>, Seq<char>, u64))
    requires
        name_sorted(s),
    ensures
        name_sorted(insert_by_name(s, x)),
        insert_by_name(s, x).to_multiset() =~= s.to_multiset().insert(x),
    decreases s.len(),
{
    broadcast use vstd::seq_lib::to_multiset_build;

    if s.len() == 0 {
        assert(s =~= Seq::<(Seq<char>, Seq<char>, u64)>::empty());
        assert(seq![x] =~= s.push(x));
    } else if bytes_le(name_key(s.last()), name_key(x)) {
        let r = s.push(x);
        assert forall|i: int, j: int| 0 <= i < j < r.len() implies bytes_le(
            name_key(r[i]),
            name_key(r[j]),
        ) by {
            if j == s.len() {
                if i < s.len() - 1 {
                    lemma_bytes_le_trans(name_key(s[i]), name_key(s.last()), name_key(x));
                }
            } else {
                assert(r[i] == s[i] && r[j] == s[j]);
            }
        }
    } else {
        let t = s.drop_last();
        let last = s.last();
        assert(name_sorted(t)) by {
            assert forall|i: int, j: int| 0 <= i < j < t.len() implies bytes_le(
                name_key(t[i]),
                name_key(t[j]),
            ) by {
                assert(t[i] == s[i] && t[j] == s[j]);
            }
        }
        lemma_insert_sorted(t, x);
        lemma_bytes_le_total(name_key(last), name_key(x));
        assert forall|i: int| 0 <= i < t.len() implies bytes_le(
            name_key(#[trigger] t[i]),
            name_key(last),
        ) by {
            assert(t[i] == s[i]);
        }
        lemma_insert_bounded(t, x, name_key(last));
        let u = insert_by_name(t, x);
        let r = u.push(last);
        assert forall|i: int, j: int| 0 <= i < j < r.len() implies bytes_le(
            name_key(r[i]),
            name_key(r[j]),
        ) by {
            if j == u.len() {
                assert(r[i] == u[i]);
            } else {
                assert(r[i] == u[i] && r[j] == u[j]);
            }
        }
        assert(s =~= t.push(last));
    }
}

/// The stable sort by name puts the files in order of their lower-cased
/// names, and lists each file as often as before.
pub proof fn law_sorted_by_name_orders_and_keeps(s: Seq<(Seq<char>, Seq<char>, u64)>)
    ensures
        name_sorted(sorted_by_name(s)),
        sorted_by_name(s).to_multiset() == s.to_multiset(),
    decreases s.len(),
{
    broadcast use vstd::seq_lib::to_multiset_build;

    if s.len() == 0 {
    } else {
        law_sorted_by_name_orders_and_keeps(s.drop_last());
        lemma_insert_sorted(sorted_by_name(s.drop_last()), s.last());
        assert(s =~= s.drop_last().push(s.last()));
    }
}

/// The name sort orders files by their names, lower-cased and compared as
/// UTF-8 bytes, whatever their paths and sizes, and keeps every file.
pub proof fn law_sorted_by_name_follows_names(s: Seq<(Seq<char>, Seq<char>, u64)>)
    ensures
        forall|i: int, j: int|
            0 <= i < j < sorted_by_name(s).len() ==> bytes_le(
                encode_utf8(lowercase(sorted_by_name(s)[i].0)),
                encode_utf8(lowercase(sorted_by_name(s)[j].0)),
            ),
        sorted_by_name(s).to_multiset() == s.to_multiset(),
{
    law_sorted_by_name_orders_and_keeps(s);
    let r = sorted_by_name(s);
    assert forall|i: int, j: int| 0 <= i < j < r.len() implies bytes_le(
        encode_utf8(lowercase(r[i].0)),
        encode_utf8(lowercase(r[j].0)),
    ) by {
        assert(bytes_le(name_key(r[i]), name_key(r[j])));
    }
}

/// Compares two byte strings lexicographically.
fn bytes_le_exec(a: &[u8], b: &[u8]) -> (r: bool)
    ensures
        r == bytes_le(a@, b@),
{
    let mut i: usize = 0;
    proof {
        assert(a@.skip(0) =~= a@);
        assert(b@.skip(0) =~= b@);
    }
    while i < a.len() && i < b.len() && a[i] == b[i]
        invariant
            i <= a@.len(),
            i <= b@.len(),
            bytes_le(a@, b@) == bytes_le(a@.skip(i as int), b@.skip(i as int)),
        decreases a@.len() - i,
    {
        proof {
            let sa = a@.skip(i as int);
            let sb = b@.skip(i as int);
            assert(sa.drop_first() =~= a@.skip(i + 1));
            assert(sb.drop_first() =~= b@.skip(i + 1));
            assert(sa[0] == a@[i as int]);
            assert(sb[0] == b@[i as int]);
        }
        i = i + 1;
    }
    proof {
        let sa = a@.skip(i as int);
        let sb = b@.skip(i as int);
        if i < a.len() && i < b.len() {
            assert(sa[0] == a@[i as int]);
            assert(sb[0] == b@[i as int]);
        }
    }
    if i == a.len() {
        true
    } else if i == b.len() {
        false
    } else {
        a[i] < b[i]
    }
}

/// A file with the key it is ordered by.
pub type Keyed = (Seq<u8>, (Seq<char>, Seq<char>, u64));

/// `s` with `x` put after the last entry whose key is at most `x`'s.
pub open spec fn insert_by_key(s: Seq<Keyed>, x: Keyed) -> Seq<Keyed>
    decreases s.len(),
{
    if s.len() == 0 {
        seq![x]
    } else if bytes_le(s.last().0, x.0) {
        s.push(x)
    } else {
        insert_by_key(s.drop_last(), x).push(s.last())
    }
}

/// The stable sort of `s` by the keys it carries.
pub open spec fn sorted_by_key(s: Seq<Keyed>) -> Seq<Keyed>
    decreases s.len(),
{
    if s.len() == 0 {
        s
    } else {
        insert_by_key(sorted_by_key(s.drop_last()), s.last())
    }
}

/// The files of `list`, each with the key at the same position of `keys`.
pub open spec fn zip_keys(keys: Seq<Seq<u8>>, list: Seq<(Seq<char>, Seq<char>, u64)>) -> Seq<Keyed> {
    Seq::new(list.len(), |i: int| (keys[i], list[i]))
}

/// The files of a keyed list.
pub open spec fn unkeyed(s: Seq<Keyed>) -> Seq<(Seq<char>, Seq<char>, u64)> {
    s.map_values(|p: Keyed| p.1)
}

/// Calls `str::to_lowercase` on a name and takes its UTF-8 bytes.
fn lowercase_key(name: &String) -> (k: Vec<u8>)
    ensures
        k@ == encode_utf8(lowercase(name@)),
{
    let lowered = crate::files::to_lowercase(name.as_str());
    lowered.as_str().as_bytes_vec()
}

proof fn lemma_insert_at(s: Seq<Keyed>, x: Keyed, j: int)
    requires
        0 <= j <= s.len(),
        j > 0 ==> bytes_le(s[j - 1].0, x.0),
        forall|i: int| j <= i < s.len() ==> !bytes_le(#[trigger] s[i].0, x.0),
    ensures
        insert_by_key(s, x) == s.take(j).push(x) + s.skip(j),
    decreases s.len(),
{
    if s.len() == 0 {
        assert(s.take(j).push(x) + s.skip(j) =~= seq![x]);
    } else if j == s.len() {
        assert(s.take(j).push(x) + s.skip(j) =~= s.push(x));
    } else {
        let t = s.drop_last();
        assert forall|i: int| j <= i < t.len() implies !bytes_le(#[trigger] t[i].0, x.0) by {
            assert(t[i] == s[i]);
        }
        if j > 0 {
            assert(t[j - 1] == s[j - 1]);
        }
        lemma_insert_at(t, x, j);
        assert(s.take(j).push(x) + s.skip(j) =~= (t.take(j).push(x) + t.skip(j)).push(s.last()));
    }
}

/// Keys that are the name keys of their files.
pub open spec fn keyed_by_name(s: Seq<Keyed>) -> bool {
    forall|i: int| 0 <= i < s.len() ==> #[trigger] s[i].0 == name_key(s[i].1)
}

proof fn lemma_insert_by_name_key(t: Seq<Keyed>, x: Keyed)
    requires
        keyed_by_name(t),
        x.0 == name_key(x.1),
    ensures
        keyed_by_name(insert_by_key(t, x)),
        unkeyed(insert_by_key(t, x)) == insert_by_name(unkeyed(t), x.1),
    decreases t.len(),
{
    if t.len() == 0 {
        assert(unkeyed(seq![x]) =~= seq![x.1]);
    } else {
        let u = t.drop_last();
        assert(keyed_by_name(u)) by {
            assert forall|i: int| 0 <= i < u.len() implies #[trigger] u[i].0 == name_key(u[i].1) by {
                assert(u[i] == t[i]);
            }
        }
        assert(t.last().0 == name_key(t.last().1));
        assert(unkeyed(t).last() == t.last().1);
        assert(unkeyed(u) =~= unkeyed(t).drop_last());
        if bytes_le(t.last().0, x.0) {
            assert(unkeyed(t.push(x)) =~= unkeyed(t).push(x.1));
        } else {
            lemma_insert_by_name_key(u, x);
            let w = insert_by_key(u, x);
            assert(unkeyed(w.push(t.last())) =~= unkeyed(w).push(t.last().1));
            assert forall|i: int| 0 <= i < w.len() + 1 implies #[trigger] w.push(t.last())[i].0
                == name_key(w.push(t.last())[i].1) by {
                if i < w.len() {
                    assert(w.push(t.last())[i] == w[i]);
                }
            }
        }
    }
}

proof fn lemma_sorted_by_name_key(s: Seq<(Seq<char>, Seq<char>, u64)>)
    ensures
        keyed_by_name(sorted_by_key(zip_keys(s.map_values(|f: (Seq<char>, Seq<char>, u64)| name_key(f)), s))),
        unkeyed(sorted_by_key(zip_keys(s.map_values(|f: (Seq<char>, Seq<char>, u64)| name_key(f)), s)))
            == sorted_by_name(s),
    decreases s.len(),
{
    let z = zip_keys(s.map_values(|f: (Seq<char>, Seq<char>, u64)| name_key(f)), s);
    if s.len() == 0 {
        assert(unkeyed(z) =~= s);
    } else {
        let t = s.drop_last();
        let zt = zip_keys(t.map_values(|f: (Seq<char>, Seq<char>, u64)| name_key(f)), t);
        assert(z.drop_last() =~= zt);
        lemma_sorted_by_name_key(t);
        lemma_insert_by_name_key(sorted_by_key(zt), z.last());
    }
}

/// Orders `list` by the byte-string keys given position by position, as a
/// stable sort does: files of equal key keep their order.
pub fn sort_by_keys(list: Vec<FileInfo>, keys: Vec<Vec<u8>>) -> (sorted: Vec<FileInfo>)
    requires
        keys@.len() == list@.len(),
    ensures
        sorted@.map_values(|f: FileInfo| f@) == unkeyed(
            sorted_by_key(
                zip_keys(keys@.map_values(|k: Vec<u8>| k@), list@.map_values(|f: FileInfo| f@)),
            ),
        ),
{
    let ghost input = zip_keys(
        keys@.map_values(|k: Vec<u8>| k@),
        list@.map_values(|f: FileInfo| f@),
    );
    let mut out: Vec<FileInfo> = Vec::new();
    let mut out_keys: Vec<Vec<u8>> = Vec::new();
    let mut rest = list;
    let mut rest_keys = keys;
    proof {
        assert(input.take(0) =~= Seq::<Keyed>::empty());
        assert(out@.map_values(|f: FileInfo| f@) =~= Seq::empty());
    }
    let n = rest.len();
    let mut i: usize = 0;
    while i < n
        invariant
            i <= n == input.len(),
            rest@.len() == n - i,
            rest_keys@.len() == n - i,
            forall|k: int| 0 <= k < n - i ==> (#[trigger] rest_keys@[k]@, rest@[k]@) == input[i + k],
            out_keys@.len() == out@.len(),
            out@.map_values(|f: FileInfo| f@) == unkeyed(sorted_by_key(input.take(i as int))),
            sorted_by_key(input.take(i as int)).len() == out@.len(),
            forall|k: int| 0 <= k < out@.len() ==> #[trigger] out_keys@[k]@ == sorted_by_key(input.take(i as int))[k].0,
        decreases n - i,
    {
        let ghost or = rest@;
        let ghost ork = rest_keys@;
        let x = rest.remove(0);
        let xk = rest_keys.remove(0);
        proof {
            assert((xk@, x@) == input[i as int]);
            assert forall|k: int| 0 <= k < n - (i + 1) implies (#[trigger] rest_keys@[k]@, rest@[k]@)
                == input[(i + 1) + k] by {
                assert(rest@[k] == or[k + 1]);
                assert(rest_keys@[k] == ork[k + 1]);
            }
        }
        let ghost xv: Keyed = (xk@, x@);
        let ghost s = sorted_by_key(input.take(i as int));
        let mut j: usize = out.len();
        while j > 0 && !bytes_le_exec(out_keys[j - 1].as_slice(), xk.as_slice())
            invariant
                j <= out@.len() == out_keys@.len() == s.len(),
                forall|k: int| 0 <= k < out@.len() ==> #[trigger] out_keys@[k]@ == s[k].0,
                xk@ == xv.0,
                forall|k: int| j <= k < s.len() ==> !bytes_le(#[trigger] s[k].0, xv.0),
            decreases j,
        {
            j = j - 1;
        }
        proof {
            lemma_insert_at(s, xv, j as int);
            assert(input.take(i + 1).drop_last() =~= input.take(i as int));
            assert(input.take(i + 1).last() == xv);
        }
        let ghost ok = out_keys@;
        let ghost oo = out@;
        out.insert(j, x);
        out_keys.insert(j, xk);
        proof {
            let r = sorted_by_key(input.take(i + 1));
            assert(r == s.take(j as int).push(xv) + s.skip(j as int));
            assert(out@.map_values(|f: FileInfo| f@) =~= unkeyed(r)) by {
                assert forall|k: int| 0 <= k < out@.len() implies out@[k]@ == unkeyed(r)[k] by {
                    if k < j {
                        assert(out@[k] == oo[k]);
                        assert(oo[k]@ == unkeyed(s)[k]);
                    } else if k > j {
                        assert(out@[k] == oo[k - 1]);
                        assert(oo[k - 1]@ == unkeyed(s)[k - 1]);
                    }
                }
            }
            assert forall|k: int| 0 <= k < out@.len() implies #[trigger] out_keys@[k]@ == r[k].0 by {
                if k < j {
                    assert(out_keys@[k] == ok[k]);
                } else if k > j {
                    assert(out_keys@[k] == ok[k - 1]);
                }
            }
        }
        i = i + 1;
    }
    proof {
        assert(input.take(n as int) =~= input);
    }
    out
}

/// Orders the list by lower-cased name, as a stable sort does; files whose
/// names differ only in case keep their order.
pub fn sort_by_name(list: Vec<FileInfo>) -> (sorted: Vec<FileInfo>)
    ensures
        sorted@.map_values(|f: FileInfo| f@) == sorted_by_name(list@.map_values(|f: FileInfo| f@)),
        forall|i: int, j: int|
            0 <= i < j < sorted@.len() ==> bytes_le(
                encode_utf8(lowercase(sorted@[i].name@)),
                encode_utf8(lowercase(sorted@[j].name@)),
            ),
        sorted@.map_values(|f: FileInfo| f@).to_multiset() == list@.map_values(
            |f: FileInfo| f@,
        ).to_multiset(),
{
    proof {
        law_sorted_by_name_follows_names(list@.map_values(|f: FileInfo| f@));
    }
    let ghost input = list@.map_values(|f: FileInfo| f@);
    let mut keys: Vec<Vec<u8>> = Vec::new();
    let mut i: usize = 0;
    while i < list.len()
        invariant
            i <= list@.len(),
            keys@.len() == i,
            forall|k: int| 0 <= k < i ==> #[trigger] keys@[k]@ == name_key(list@[k]@),
        decreases list@.len() - i,
    {
        let k = lowercase_key(&list[i].name);
        keys.push(k);
        i = i + 1;
    }
    proof {
        assert(zip_keys(keys@.map_values(|k: Vec<u8>| k@), input) =~= zip_keys(
            input.map_values(|f: (Seq<char>, Seq<char>, u64)| name_key(f)),
            input,
        ));
        lemma_sorted_by_name_key(input);
    }
    let sorted = sort_by_keys(list, keys);
    proof {
        law_sorted_by_name_follows_names(input);
        let r = sorted@.map_values(|f: FileInfo| f@);
        assert forall|i: int, j: int| 0 <= i < j < sorted@.len() implies bytes_le(
            encode_utf8(lowercase(sorted@[i].name@)),
            encode_utf8(lowercase(sorted@[j].name@)),
        ) by {
            assert(r == sorted_by_name(input));
            assert(r[i] == sorted@[i]@);
            assert(r[j] == sorted@[j]@);
            assert(bytes_le(
                encode_utf8(lowercase(sorted_by_name(input)[i].0)),
                encode_utf8(lowercase(sorted_by_name(input)[j].0)),
            ));
        }
    }
    sorted
}

} // verus!
