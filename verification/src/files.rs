//! The list of files that the backend offers to the Switch, keyed by file
//! name, and the rule that decides which paths may join it.

use vstd::prelude::*;
use crate::paths::{extension, extension_of, file_name, file_name_range, PathStyle};

verus! {

/// What `str::to_lowercase` returns for a string: its Unicode lowercase
/// mapping.
pub uninterp spec fn lowercase(s: Seq<char>) -> Seq<char>;

/// An ASCII capital letter turned into its small letter; any other char
/// unchanged.
pub open spec fn ascii_lower(c: char) -> char {
    if 'A' <= c && c <= 'Z' {
        (c as int + 32) as char
    } else {
        c
    }
}

/// Every char is ASCII.
pub open spec fn all_ascii(s: Seq<char>) -> bool {
    forall|i: int| 0 <= i < s.len() ==> (#[trigger] s[i] as int) < 128
}

/// Calls `str::to_lowercase`. The contract claims that the result is
/// `lowercase` of the argument, a function of the argument alone, and that
/// on ASCII text it maps `A`..`Z` to `a`..`z` and keeps every other char,
/// as Unicode's lowercase mapping does for ASCII.
#[verifier::external_body]
pub(crate) fn to_lowercase(s: &str) -> (r: String)
    ensures
        r@ == lowercase(s@),
        all_ascii(s@) ==> r@ == s@.map_values(|c: char| ascii_lower(c)),
{
    s.to_lowercase()
}

/// The extensions of the installable Switch formats, in lower case.
pub open spec fn is_installable_extension(e: Seq<char>) -> bool {
    ||| e == seq!['n', 's', 'p']
    ||| e == seq!['n', 's', 'z']
    ||| e == seq!['x', 'c', 'i']
    ||| e == seq!['x', 'c', 'z']
}

/// Whether the path `p` names an installable file: its extension, in lower
/// case, is `nsp`, `nsz`, `xci` or `xcz`.
pub open spec fn is_valid_path(p: Seq<char>, style: PathStyle) -> bool {
    match extension(p, style) {
        Some(e) => is_installable_extension(lowercase(e)),
        None => false,
    }
}

/// Whether an extension already in lower case is an installable one.
pub fn is_installable(lowered: &str) -> (b: bool)
    ensures
        b == is_installable_extension(lowered@),
        b <==> (lowered@ == "nsp"@ || lowered@ == "nsz"@ || lowered@ == "xci"@ || lowered@
            == "xcz"@),
{
    proof {
        reveal_strlit("nsp");
        reveal_strlit("nsz");
        reveal_strlit("xci");
        reveal_strlit("xcz");
        assert("nsp"@ =~= seq!['n', 's', 'p']);
        assert("nsz"@ =~= seq!['n', 's', 'z']);
        assert("xci"@ =~= seq!['x', 'c', 'i']);
        assert("xcz"@ =~= seq!['x', 'c', 'z']);
    }
    let s = String::from_str(lowered);
    s == String::from_str("nsp") || s == String::from_str("nsz") || s == String::from_str("xci")
        || s == String::from_str("xcz")
}

/// A path is installable exactly when it has an extension whose lower-case
/// form is `nsp`, `nsz`, `xci` or `xcz`; any other extension, or none,
/// keeps it out.
pub proof fn law_only_switch_formats_are_valid(p: Seq<char>, style: PathStyle)
    ensures
        is_valid_path(p, style) <==> (extension(p, style) matches Some(e) && {
            let l = lowercase(e);
            l == "nsp"@ || l == "nsz"@ || l == "xci"@ || l == "xcz"@
        }),
{
    reveal_strlit("nsp");
    reveal_strlit("nsz");
    reveal_strlit("xci");
    reveal_strlit("xcz");
    assert("nsp"@ =~= seq!['n', 's', 'p']);
    assert("nsz"@ =~= seq!['n', 's', 'z']);
    assert("xci"@ =~= seq!['x', 'c', 'i']);
    assert("xcz"@ =~= seq!['x', 'c', 'z']);
}

/// A file joins the list only if its lower-cased extension is one of the
/// four Switch formats; any other file leaves the list as it was.
pub proof fn law_other_files_not_added(p: Seq<char>, style: PathStyle)
    requires
        !(extension(p, style) matches Some(e) && {
            let l = lowercase(e);
            l == "nsp"@ || l == "nsz"@ || l == "xci"@ || l == "xcz"@
        }),
    ensures
        !is_valid_path(p, style),
{
    law_only_switch_formats_are_valid(p, style);
}

/// Whether the path names an installable Switch file (NSP, NSZ, XCI, XCZ),
/// judged by its extension in any letter case, under the path rules of
/// `style`.
pub fn is_valid_file(path: &str, style: PathStyle) -> (b: bool)
    ensures
        b == is_valid_path(path@, style),
{
    match extension_of(path, style) {
        Some((a, b)) => {
            let ext = path.substring_char(a, b);
            let lowered = to_lowercase(ext);
            is_installable(lowered.as_str())
        },
        None => false,
    }
}

/// One served file: the name the Switch asks for, and where it lies on disk.
#[derive(Clone, Debug)]
pub struct FileEntry {
    pub name: String,
    pub path: String,
}

/// The map that a list of (name, path) entries stands for, later entries
/// winning over earlier ones of the same name.
pub open spec fn entries_map(s: Seq<(Seq<char>, Seq<char>)>) -> Map<Seq<char>, Seq<char>>
    decreases s.len(),
{
    if s.len() == 0 {
        Map::empty()
    } else {
        entries_map(s.drop_last()).insert(s.last().0, s.last().1)
    }
}

/// No two entries share a name.
pub open spec fn names_distinct(s: Seq<(Seq<char>, Seq<char>)>) -> bool {
    forall|i: int, j: int| 0 <= i < j < s.len() ==> s[i].0 != s[j].0
}

/// The names of the entries, in order.
pub open spec fn entry_names(s: Seq<(Seq<char>, Seq<char>)>) -> Seq<Seq<char>> {
    s.map_values(|e: (Seq<char>, Seq<char>)| e.0)
}

proof fn lemma_entries_map_domain(s: Seq<(Seq<char>, Seq<char>)>)
    ensures
        forall|k: Seq<char>|
            entries_map(s).dom().contains(k) <==> exists|i: int| 0 <= i < s.len() && s[i].0 == k,
    decreases s.len(),
{
    if s.len() > 0 {
        let t = s.drop_last();
        lemma_entries_map_domain(t);
        assert forall|k: Seq<char>|
            entries_map(s).dom().contains(k) <==> exists|i: int|
                0 <= i < s.len() && s[i].0 == k by {
            if entries_map(s).dom().contains(k) && k != s.last().0 {
                assert(entries_map(t).dom().contains(k));
                let i = choose|i: int| 0 <= i < t.len() && t[i].0 == k;
                assert(s[i] == t[i]);
            }
            if exists|i: int| 0 <= i < s.len() && s[i].0 == k {
                let i = choose|i: int| 0 <= i < s.len() && s[i].0 == k;
                if i < s.len() - 1 {
                    assert(t[i] == s[i]);
                    assert(entries_map(t).dom().contains(k));
                }
            }
        }
    }
}

proof fn lemma_entries_map_at(s: Seq<(Seq<char>, Seq<char>)>, i: int)
    requires
        names_distinct(s),
        0 <= i < s.len(),
    ensures
        entries_map(s).dom().contains(s[i].0),
        entries_map(s)[s[i].0] == s[i].1,
    decreases s.len(),
{
    if i < s.len() - 1 {
        let t = s.drop_last();
        assert(t[i] == s[i]);
        lemma_entries_map_at(t, i);
    }
}

proof fn lemma_entries_map_push(s: Seq<(Seq<char>, Seq<char>)>, e: (Seq<char>, Seq<char>))
    ensures
        entries_map(s.push(e)) == entries_map(s).insert(e.0, e.1),
{
    assert(s.push(e).drop_last() =~= s);
}

proof fn lemma_entries_map_update(s: Seq<(Seq<char>, Seq<char>)>, i: int, v: Seq<char>)
    requires
        names_distinct(s),
        0 <= i < s.len(),
    ensures
        entries_map(s.update(i, (s[i].0, v))) =~= entries_map(s).insert(s[i].0, v),
    decreases s.len(),
{
    let t = s.drop_last();
    let u = s.update(i, (s[i].0, v));
    if i == s.len() - 1 {
        assert(u.drop_last() =~= t);
    } else {
        assert(u.drop_last() =~= t.update(i, (t[i].0, v)));
        assert(t[i] == s[i]);
        lemma_entries_map_update(t, i, v);
        assert(s.last().0 != s[i].0);
    }
}

proof fn lemma_entries_map_remove(s: Seq<(Seq<char>, Seq<char>)>, i: int)
    requires
        names_distinct(s),
        0 <= i < s.len(),
    ensures
        entries_map(s.remove(i)) =~= entries_map(s).remove(s[i].0),
    decreases s.len(),
{
    let t = s.drop_last();
    if i == s.len() - 1 {
        assert(s.remove(i) =~= t);
        lemma_entries_map_domain(t);
        assert(!entries_map(t).dom().contains(s[i].0)) by {
            if entries_map(t).dom().contains(s[i].0) {
                let j = choose|j: int| 0 <= j < t.len() && t[j].0 == s[i].0;
                assert(s[j] == t[j]);
            }
        }
    } else {
        assert(s.remove(i).drop_last() =~= t.remove(i));
        assert(s.remove(i).last() == s.last());
        assert(t[i] == s[i]);
        lemma_entries_map_remove(t, i);
        assert(s.last().0 != s[i].0);
    }
}

/// The served files, keyed by file name; no name occurs twice.
#[derive(Clone, Debug)]
pub struct FileList {
    entries: Vec<FileEntry>,
}

impl View for FileList {
    type V = Seq<(Seq<char>, Seq<char>)>;

    closed spec fn view(&self) -> Seq<(Seq<char>, Seq<char>)> {
        self.entries@.map_values(|e: FileEntry| (e.name@, e.path@))
    }
}

impl FileList {
    /// No two entries share a name.
    pub open spec fn wf(&self) -> bool {
        names_distinct(self@)
    }

    /// The list as a map from file name to path.
    pub open spec fn map(&self) -> Map<Seq<char>, Seq<char>> {
        entries_map(self@)
    }

    /// Facts that every list keeps: distinct names, and the map holds
    /// exactly the listed names, each with its listed path.
    pub proof fn lemma_well_formed(&self)
        requires
            self.wf(),
        ensures
            names_distinct(self@),
            forall|k: Seq<char>|
                self.map().dom().contains(k) <==> exists|i: int| 0 <= i < self@.len() && self@[i].0 == k,
            forall|i: int| 0 <= i < self@.len() ==> #[trigger] self.map()[self@[i].0] == self@[i].1,
            self.map().dom().finite(),
            self.map().dom().len() == self@.len(),
    {
        lemma_entries_map_domain(self@);
        assert forall|i: int| 0 <= i < self@.len() implies #[trigger] self.map()[self@[i].0]
            == self@[i].1 by {
            lemma_entries_map_at(self@, i);
        }
        lemma_entries_map_len(self@);
    }

    /// An empty list.
    pub fn new() -> (list: Self)
        ensures
            list.wf(),
            list@ == Seq::<(Seq<char>, Seq<char>)>::empty(),
            list.map() == Map::<Seq<char>, Seq<char>>::empty(),
    {
        let list = FileList { entries: Vec::new() };
        assert(list@ =~= Seq::<(Seq<char>, Seq<char>)>::empty());
        list
    }

    /// The number of files.
    pub fn len(&self) -> (n: usize)
        ensures
            n == self@.len(),
    {
        self.entries.len()
    }

    /// Whether the list is empty.
    pub fn is_empty(&self) -> (b: bool)
        ensures
            b == (self@.len() == 0),
    {
        self.entries.len() == 0
    }

    /// The entry at position `i`.
    pub fn entry(&self, i: usize) -> (e: &FileEntry)
        requires
            i < self@.len(),
        ensures
            (e.name@, e.path@) == self@[i as int],
    {
        &self.entries[i]
    }

    /// The position of the entry called `name`, if there is one.
    fn position(&self, name: &String) -> (r: Option<usize>)
        ensures
            match r {
                Some(i) => i < self@.len() && self@[i as int].0 == name@,
                None => forall|i: int| 0 <= i < self@.len() ==> self@[i].0 != name@,
            },
    {
        let mut i: usize = 0;
        while i < self.entries.len()
            invariant
                i <= self.entries@.len(),
                self@.len() == self.entries@.len(),
                forall|j: int| 0 <= j < i ==> self@[j].0 != name@,
            decreases self.entries@.len() - i,
        {
            if self.entries[i].name == *name {
                return Some(i);
            }
            i = i + 1;
        }
        None
    }

    /// The path served under `name`.
    pub fn get(&self, name: &String) -> (r: Option<&String>)
        requires
            self.wf(),
        ensures
            match r {
                Some(p) => self.map().dom().contains(name@) && self.map()[name@] == p@,
                None => !self.map().dom().contains(name@),
            },
    {
        proof {
            self.lemma_well_formed();
        }
        match self.position(name) {
            Some(i) => Some(&self.entries[i].path),
            None => None,
        }
    }

    /// Serves `path` under `name`, replacing the path that `name` had; a new
    /// name goes to the end of the list.
    pub fn insert(&mut self, name: String, path: String)
        requires
            old(self).wf(),
        ensures
            final(self).wf(),
            final(self).map() == old(self).map().insert(name@, path@),
            old(self).map().dom().contains(name@) ==> exists|i: int|
                0 <= i < old(self)@.len() && old(self)@[i].0 == name@ && final(self)@ == old(
                    self,
                )@.update(i, (name@, path@)),
            !old(self).map().dom().contains(name@) ==> final(self)@ == old(self)@.push(
                (name@, path@),
            ),
    {
        proof {
            lemma_entries_map_domain(self@);
        }
        match self.position(&name) {
            Some(i) => {
                let ghost s = self@;
                let mut entries = Vec::new();
                std::mem::swap(&mut entries, &mut self.entries);
                entries.set(i, FileEntry { name, path });
                proof {
                    assert(entries@.map_values(|e: FileEntry| (e.name@, e.path@)) =~= s.update(
                        i as int,
                        (s[i as int].0, path@),
                    ));
                    lemma_entries_map_update(s, i as int, path@);
                }
                self.entries = entries;
                assert(self@ =~= s.update(i as int, (name@, path@)));
            },
            None => {
                let ghost s = self@;
                let ghost e = (name@, path@);
                let mut entries = Vec::new();
                std::mem::swap(&mut entries, &mut self.entries);
                entries.push(FileEntry { name, path });
                proof {
                    assert(entries@.map_values(|e: FileEntry| (e.name@, e.path@)) =~= s.push(e));
                    lemma_entries_map_push(s, e);
                }
                self.entries = entries;
            },
        }
    }

    /// Stops serving `name`; the other entries keep their order.
    pub fn remove(&mut self, name: &String)
        requires
            old(self).wf(),
        ensures
            final(self).wf(),
            final(self).map() == old(self).map().remove(name@),
            old(self).map().dom().contains(name@) ==> exists|i: int|
                0 <= i < old(self)@.len() && old(self)@[i].0 == name@ && final(self)@ == old(
                    self,
                )@.remove(i),
            !old(self).map().dom().contains(name@) ==> final(self)@ == old(self)@,
    {
        proof {
            lemma_entries_map_domain(self@);
        }
        match self.position(name) {
            Some(i) => {
                let ghost s = self@;
                let mut entries = Vec::new();
                std::mem::swap(&mut entries, &mut self.entries);
                entries.remove(i);
                proof {
                    assert(entries@.map_values(|e: FileEntry| (e.name@, e.path@)) =~= s.remove(
                        i as int,
                    ));
                    lemma_entries_map_remove(s, i as int);
                }
                self.entries = entries;
            },
            None => {
                proof {
                    assert(!self.map().dom().contains(name@)) by {
                        if self.map().dom().contains(name@) {
                            let j = choose|j: int| 0 <= j < self@.len() && self@[j].0 == name@;
                        }
                    }
                    assert(self.map().remove(name@) =~= self.map());
                }
            },
        }
    }

    /// Empties the list.
    pub fn clear(&mut self)
        ensures
            final(self).wf(),
            final(self)@ == Seq::<(Seq<char>, Seq<char>)>::empty(),
            final(self).map() == Map::<Seq<char>, Seq<char>>::empty(),
    {
        self.entries = Vec::new();
        assert(self@ =~= Seq::<(Seq<char>, Seq<char>)>::empty());
    }
}

proof fn lemma_entries_map_len(s: Seq<(Seq<char>, Seq<char>)>)
    requires
        names_distinct(s),
    ensures
        entries_map(s).dom().finite(),
        entries_map(s).dom().len() == s.len(),
    decreases s.len(),
{
    if s.len() > 0 {
        let t = s.drop_last();
        assert(names_distinct(t));
        lemma_entries_map_len(t);
        lemma_entries_map_domain(t);
        assert(!entries_map(t).dom().contains(s.last().0)) by {
            if entries_map(t).dom().contains(s.last().0) {
                let j = choose|j: int| 0 <= j < t.len() && t[j].0 == s.last().0;
                assert(s[j] == t[j]);
            }
        }
    }
}

/// Adds the file at `path` (read with the path rules of `style`) under its
/// file name when it is an installable
/// Switch file and, as `is_file` reports, an existing regular file.
pub fn add_file_to_map(files: &mut FileList, path: String, is_file: bool, style: PathStyle)
    requires
        old(files).wf(),
    ensures
        final(files).wf(),
        ({
            let p = path@;
            if is_valid_path(p, style) && is_file {
                let name = file_name(p, style)->0;
                &&& file_name(p, style) is Some
                &&& final(files).map() == old(files).map().insert(name, p)
                &&& !old(files).map().dom().contains(name) ==> final(files)@ == old(files)@.push(
                    (name, p),
                )
                &&& old(files).map().dom().contains(name) ==> exists|i: int|
                    0 <= i < old(files)@.len() && old(files)@[i].0 == name && final(files)@ == old(
                        files,
                    )@.update(i, (name, p))
            } else {
                final(files)@ == old(files)@
            }
        }),
{
    if is_valid_file(path.as_str(), style) && is_file {
        match file_name_range(path.as_str(), style) {
            Some((start, end)) => {
                let name = String::from_str(path.as_str().substring_char(start, end));
                files.insert(name, path);
            },
            None => {},
        }
    }
}

} // verus!
