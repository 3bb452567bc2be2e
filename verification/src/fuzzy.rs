//! The `fuzzy` explorer: entries of a base directory as `Fuzz` values,
//! expanded and collapsed in place, and new files and directories created
//! next to a selected entry.
//!
//! Reading directories and creating files is done by the caller, who hands
//! over what it found (`ScanEntry`, `FileKind`).

use crate::paths::{join_path, parent_of, path_ends_with, path_file_name, path_join, path_parent, same_path, same_path_spec, ends_with_spec};
use crate::paths::file_name_of;
use crate::seqs::{
    drop_matching_span, drop_span_where, lemma_drop_span_elements, insert_all, lemma_drop_inserted_span, splice_at, views,
};
use crate::text::clone_texts;
use vstd::prelude::*;
use vstd::string::StringExecFns;

verus! {

/// An identifier as `cuid2` makes them: a lowercase ASCII letter, then up to
/// 23 lowercase ASCII letters and digits.
pub open spec fn is_cuid(s: Seq<char>) -> bool {
    &&& 1 <= s.len() <= 24
    &&& 'a' <= s[0] <= 'z'
    &&& forall|i: int| 1 <= i < s.len() ==> ('a' <= #[trigger] s[i] <= 'z' || '0' <= s[i] <= '9')
}

/// Calls `cuid::cuid2`, which makes a new random identifier; all that is
/// stated of it is its form (its value is chance).
#[verifier::external_body]
fn new_id() -> (id: String)
    ensures
        is_cuid(id@),
{
    cuid::cuid2()
}


/// The text in front of the name of a top-level entry.
pub open spec fn top_spacer() -> Seq<char> {
    seq![' ']
}

/// The text added in front of the name of an entry for each level of nesting.
pub open spec fn nested_spacer() -> Seq<char> {
    seq!['|', '-']
}

/// The name given to an entry whose path has no final component.
pub open spec fn unknown_name() -> Seq<char> {
    seq!['u', 'n', 'k', 'n', 'o', 'w', 'n']
}

/// The path `/`.
pub open spec fn root_text() -> Seq<char> {
    seq!['/']
}

/// What reading a directory tells of one of its entries.
pub struct ScanEntry {
    /// full path of the entry
    pub path: String,
    /// name of the entry
    pub name: String,
    /// whether the path is a directory (following links)
    pub is_dir: bool,
    /// whether the path is a file (following links)
    pub is_file: bool,
}

/// What the metadata of an opened path tells.
#[derive(Debug, Clone, Copy, PartialEq, Eq, Structural)]
pub struct FileKind {
    pub is_dir: bool,
    pub is_file: bool,
}

/// Where a new entry is to be created, and whether as a directory.
pub struct CreateTarget {
    pub path: String,
    pub as_dir: bool,
}

/// A file or directory of the explorer.
#[derive(Debug, Clone)]
pub struct Fuzz {
    /// id for fuzz
    id: String,
    /// full path of the file or dir
    path: String,
    /// name of the file or dir
    name: String,
    /// if path is dir or not
    is_dir: bool,
    /// if path is a file or not
    is_file: bool,
    /// if path is expanded or not
    is_expanded: bool,
    /// path of direct parent dir
    pub direct_parent: String,
    /// all the parents
    parents: Vec<String>,
    /// spacer to render
    spacer: String,
    /// children of fuzz
    children: usize,
}

/// The value of a [`Fuzz`].
#[verifier::ext_equal]
pub struct FuzzModel {
    pub id: Seq<char>,
    pub path: Seq<char>,
    pub name: Seq<char>,
    pub is_dir: bool,
    pub is_file: bool,
    pub is_expanded: bool,
    pub direct_parent: Seq<char>,
    pub parents: Seq<Seq<char>>,
    pub spacer: Seq<char>,
    pub children: usize,
}

impl View for Fuzz {
    type V = FuzzModel;

    closed spec fn view(&self) -> FuzzModel {
        FuzzModel {
            id: self.id@,
            path: self.path@,
            name: self.name@,
            is_dir: self.is_dir,
            is_file: self.is_file,
            is_expanded: self.is_expanded,
            direct_parent: self.direct_parent@,
            parents: self.parents.deep_view(),
            spacer: self.spacer@,
            children: self.children,
        }
    }
}

/// The values of a list of entries.
pub open spec fn fuzz_models(v: Seq<Fuzz>) -> Seq<FuzzModel> {
    views(v)
}

/// An entry with its identifier left out.
pub open spec fn without_id(f: FuzzModel) -> FuzzModel {
    FuzzModel { id: Seq::empty(), ..f }
}

/// A new entry: nothing set but its identifier.
pub open spec fn blank() -> FuzzModel {
    FuzzModel {
        id: Seq::empty(),
        path: Seq::empty(),
        name: Seq::empty(),
        is_dir: false,
        is_file: false,
        is_expanded: false,
        direct_parent: Seq::empty(),
        parents: Seq::empty(),
        spacer: Seq::empty(),
        children: 0,
    }
}

/// The parent of `path`, or `prior` where it has none.
pub open spec fn parent_or(path: Seq<char>, prior: Seq<char>) -> Seq<char> {
    match path_parent(path) {
        Some(p) => p,
        None => prior,
    }
}

/// `f` after taking the path, name and kind of a directory entry.
pub open spec fn read_entry_model(f: FuzzModel, e: ScanEntry) -> FuzzModel {
    FuzzModel {
        path: e.path@,
        name: e.name@,
        is_dir: e.is_dir,
        is_file: e.is_file,
        direct_parent: parent_or(e.path@, f.direct_parent),
        ..f
    }
}

/// `f` after reading the path `path`, whose metadata was `meta` (`None`
/// where the path could not be opened, which leaves `f` as it was).
pub open spec fn read_path_model(f: FuzzModel, path: Seq<char>, meta: Option<FileKind>) -> FuzzModel {
    match meta {
        Some(k) => FuzzModel {
            name: match path_file_name(path) {
                Some(n) => n,
                None => unknown_name(),
            },
            path: path,
            is_dir: k.is_dir,
            is_file: k.is_file,
            is_expanded: false,
            direct_parent: parent_or(path, f.direct_parent),
            ..f
        },
        None => f,
    }
}

/// The entry that scanning gives for `e`, its identifier left out.
pub open spec fn scanned(spacer: Seq<char>, parents: Seq<Seq<char>>, e: ScanEntry) -> FuzzModel {
    read_entry_model(FuzzModel { parents: parents, spacer: spacer, ..blank() }, e)
}

/// `out` is what scanning `entries` with `spacer` and `parents` gives: one
/// entry for each, in order, each with a fresh identifier.
pub open spec fn scan_matches(
    spacer: Seq<char>,
    parents: Seq<Seq<char>>,
    entries: Seq<ScanEntry>,
    out: Seq<FuzzModel>,
) -> bool {
    &&& out.len() == entries.len()
    &&& forall|j: int|
        0 <= j < out.len() ==> without_id(#[trigger] out[j]) == scanned(spacer, parents, entries[j])
            && is_cuid(out[j].id)
}

/// Whether an entry has among its parents a path equal to `p`.
pub open spec fn has_parent_path(p: Seq<char>) -> spec_fn(FuzzModel) -> bool {
    |f: FuzzModel| exists|k: int| 0 <= k < f.parents.len() && same_path_spec(#[trigger] f.parents[k], p)
}

/// The list with the entry at `i` collapsed: marked so with no children,
/// and the span from the first to the last entry under it removed; files
/// and positions out of the list leave it as it was.
pub open spec fn collapsed(list: Seq<FuzzModel>, i: int) -> Seq<FuzzModel> {
    if 0 <= i < list.len() && !list[i].is_file {
        drop_span_where(
            list.update(i, FuzzModel { is_expanded: false, children: 0, ..list[i] }),
            has_parent_path(list[i].path),
        )
    } else {
        list
    }
}

/// `out` is the list with the entry at `i` expanded with the directory
/// entries `entries`: marked so with their number as its children, and one
/// entry for each inserted right after it, one level deeper.
pub open spec fn expanded_with(
    list: Seq<FuzzModel>,
    i: int,
    entries: Seq<ScanEntry>,
    out: Seq<FuzzModel>,
) -> bool {
    if 0 <= i < list.len() && !list[i].is_file {
        let item = list[i];
        let n = entries.len() as int;
        let kids = out.subrange(i + 1, i + 1 + n);
        &&& out.len() == list.len() + n
        &&& out == splice_at(
            list.update(i, FuzzModel { children: n as usize, is_expanded: true, ..item }),
            i + 1,
            kids,
        )
        &&& scan_matches(item.spacer + nested_spacer(), item.parents.push(item.path), entries, kids)
    } else {
        out == list
    }
}

/// Where a new entry named `name` goes next to `sel`: beside it where it is
/// a file, inside it otherwise.
pub open spec fn target_path(sel: FuzzModel, name: Seq<char>) -> Seq<char> {
    if sel.is_file {
        path_join(sel.direct_parent, name)
    } else {
        path_join(sel.path, name)
    }
}

/// The entry created next to `sel`, its identifier left out.
pub open spec fn created(sel: FuzzModel, name: Seq<char>, meta: Option<FileKind>) -> FuzzModel {
    let f = if sel.is_file {
        FuzzModel { parents: sel.parents, spacer: sel.spacer, ..blank() }
    } else {
        FuzzModel { parents: sel.parents.push(sel.path), spacer: sel.spacer + nested_spacer(), ..blank() }
    };
    read_path_model(f, target_path(sel, name), meta)
}

/// Builds entries from directory entries.
pub struct Scanner {
    spacer: String,
    parents: Vec<String>,
}

/// The value of a [`Scanner`].
pub struct ScannerModel {
    pub spacer: Seq<char>,
    pub parents: Seq<Seq<char>>,
}

impl View for Scanner {
    type V = ScannerModel;

    closed spec fn view(&self) -> ScannerModel {
        ScannerModel { spacer: self.spacer@, parents: self.parents.deep_view() }
    }
}

/// The entries of a base directory.
#[derive(Debug)]
pub struct Fuzzy {
    base_path: String,
    fuzzies: Vec<Fuzz>,
}

/// The value of a [`Fuzzy`].
pub struct FuzzyModel {
    pub base_path: Seq<char>,
    pub fuzzies: Seq<FuzzModel>,
}

impl View for Fuzzy {
    type V = FuzzyModel;

    closed spec fn view(&self) -> FuzzyModel {
        FuzzyModel { base_path: self.base_path@, fuzzies: fuzz_models(self.fuzzies@) }
    }
}

fn text_of(s: &str) -> (r: String)
    ensures
        r@ == s@,
{
    String::from_str(s)
}

impl Fuzz {
    /// A new entry with a fresh identifier and nothing else set.
    pub fn new() -> (f: Fuzz)
        ensures
            without_id(f@) == blank(),
            is_cuid(f@.id),
    {
        let f = Fuzz {
            id: new_id(),
            path: String::new(),
            name: String::new(),
            is_dir: false,
            is_file: false,
            is_expanded: false,
            direct_parent: String::new(),
            parents: Vec::new(),
            spacer: String::new(),
            children: 0,
        };
        proof {
            assert(f.parents.deep_view() =~= Seq::<Seq<char>>::empty());
            assert(without_id(f@) =~= blank());
        }
        f
    }

    /// full path of the file or dir
    pub fn path(&self) -> (r: String)
        ensures
            r@ == self@.path,
    {
        self.path.clone()
    }

    /// spacer to render
    pub fn spacer(&self) -> (r: String)
        ensures
            r@ == self@.spacer,
    {
        self.spacer.clone()
    }

    /// name of the file or dir
    pub fn name(&self) -> (r: String)
        ensures
            r@ == self@.name,
    {
        self.name.clone()
    }

    /// all the parents, outermost first
    pub fn parents(&self) -> (r: Vec<String>)
        ensures
            r.deep_view() == self@.parents,
    {
        clone_texts(&self.parents)
    }

    /// id for fuzz
    pub fn id(&self) -> (r: String)
        ensures
            r@ == self@.id,
    {
        self.id.clone()
    }

    /// whether it is a directory
    pub fn is_dir(&self) -> (r: bool)
        ensures
            r == self@.is_dir,
    {
        self.is_dir
    }

    /// whether it is a file
    pub fn is_file(&self) -> (r: bool)
        ensures
            r == self@.is_file,
    {
        self.is_file
    }

    /// whether it is expanded
    pub fn is_expanded(&self) -> (r: bool)
        ensures
            r == self@.is_expanded,
    {
        self.is_expanded
    }

    /// number of entries listed under it when it was expanded
    pub fn children(&self) -> (r: usize)
        ensures
            r == self@.children,
    {
        self.children
    }

    /// An entry with every field given.
    pub fn from_parts(
        id: String,
        path: String,
        name: String,
        is_dir: bool,
        is_file: bool,
        is_expanded: bool,
        direct_parent: String,
        parents: Vec<String>,
        spacer: String,
        children: usize,
    ) -> (f: Fuzz)
        ensures
            f@ == (FuzzModel {
                id: id@,
                path: path@,
                name: name@,
                is_dir,
                is_file,
                is_expanded,
                direct_parent: direct_parent@,
                parents: parents.deep_view(),
                spacer: spacer@,
                children,
            }),
    {
        Fuzz { id, path, name, is_dir, is_file, is_expanded, direct_parent, parents, spacer, children }
    }

    fn set_parents(&mut self, parents: Vec<String>) -> (r: &mut Self)
        ensures
            r@ == (FuzzModel { parents: parents.deep_view(), ..old(self)@ }),
            *final(self) == *final(r),
    {
        self.parents = parents;
        self
    }

    fn set_spacer(&mut self, spacer: String) -> (r: &mut Self)
        ensures
            r@ == (FuzzModel { spacer: spacer@, ..old(self)@ }),
            *final(self) == *final(r),
    {
        self.spacer = spacer;
        self
    }

    /// Takes the path, name and kind of a directory entry, and the path's
    /// parent as the direct parent where it has one.
    fn read_dir_entry(&mut self, entry: ScanEntry)
        ensures
            final(self)@ == read_entry_model(old(self)@, entry),
    {
        self.path = entry.path.clone();
        self.name = entry.name.clone();
        self.is_dir = entry.is_dir;
        self.is_file = entry.is_file;
        if let Some(p) = parent_of(&self.path) {
            self.direct_parent = p;
        }
    }

    /// Takes the path `path`, whose metadata was `meta` (`None` where it
    /// could not be opened, and then nothing changes): its final component
    /// as the name ("unknown" where it has none), its kind, collapsed, and
    /// its parent as the direct parent where it has one.
    fn read_path(&mut self, path: String, meta: Option<FileKind>)
        ensures
            final(self)@ == read_path_model(old(self)@, path@, meta),
    {
        let meta = match meta {
            Some(m) => m,
            None => {
                return;
            },
        };
        self.name = match file_name_of(&path) {
            Some(name) => name,
            None => {
                let n = String::from_str("unknown");
                proof {
                    reveal_strlit("unknown");
                }
                n
            },
        };
        self.path = path;
        self.is_dir = meta.is_dir;
        self.is_file = meta.is_file;
        self.is_expanded = false;
        if let Some(p) = parent_of(&self.path) {
            self.direct_parent = p;
        }
    }
}

impl Scanner {
    /// A scanner with no spacer and no parents.
    pub fn new() -> (s: Self)
        ensures
            s@.spacer == Seq::<char>::empty(),
            s@.parents == Seq::<Seq<char>>::empty(),
    {
        let s = Scanner { spacer: String::new(), parents: Vec::new() };
        proof {
            assert(s.parents.deep_view() =~= Seq::<Seq<char>>::empty());
        }
        s
    }

    /// One entry for each directory entry, in order, each with a fresh
    /// identifier, this scanner's spacer and parents, and the directory
    /// entry's path, name and kind.
    pub fn scan(&mut self, entries: Vec<ScanEntry>) -> (fuzzies: Vec<Fuzz>)
        ensures
            final(self)@ == old(self)@,
            scan_matches(old(self)@.spacer, old(self)@.parents, entries@, fuzz_models(fuzzies@)),
    {
        let mut fuzzies: Vec<Fuzz> = Vec::new();
        let n = entries.len();
        let mut i: usize = 0;
        while i < n
            invariant
                n == entries.len(),
                0 <= i <= n,
                self@ == old(self)@,
                fuzzies.len() == i,
                forall|j: int|
                    0 <= j < i ==> without_id(#[trigger] fuzzies@[j]@) == scanned(
                        self@.spacer,
                        self@.parents,
                        entries@[j],
                    ) && is_cuid(fuzzies@[j]@.id),
            decreases n - i,
        {
            let e = &entries[i];
            let entry = ScanEntry {
                path: e.path.clone(),
                name: e.name.clone(),
                is_dir: e.is_dir,
                is_file: e.is_file,
            };
            let mut fuzz = Fuzz::new();
            fuzz.set_parents(clone_texts(&self.parents)).set_spacer(self.spacer.clone()).read_dir_entry(
                entry,
            );
            proof {
                assert(without_id(fuzz@) =~= scanned(self@.spacer, self@.parents, entries@[i as int]));
            }
            fuzzies.push(fuzz);
            i = i + 1;
        }
        proof {
            assert(fuzz_models(fuzzies@).len() == entries@.len());
            assert forall|j: int| 0 <= j < fuzz_models(fuzzies@).len() implies without_id(
                #[trigger] fuzz_models(fuzzies@)[j],
            ) == scanned(old(self)@.spacer, old(self)@.parents, entries@[j]) && is_cuid(
                fuzz_models(fuzzies@)[j].id,
            ) by {
                assert(fuzz_models(fuzzies@)[j] == fuzzies@[j]@);
            }
        }
        fuzzies
    }

    fn set_spacer(&mut self, s: String) -> (r: &mut Self)
        ensures
            r@ == (ScannerModel { spacer: s@, ..old(self)@ }),
            *final(self) == *final(r),
    {
        self.spacer = s;
        self
    }

    /// Adds `p` after the parents already set.
    fn set_parents(&mut self, p: Vec<String>) -> (r: &mut Self)
        ensures
            r@ == (ScannerModel { parents: old(self)@.parents + p.deep_view(), ..old(self)@ }),
            *final(self) == *final(r),
    {
        let ghost before = self.parents.deep_view();
        let mut more = clone_texts(&p);
        self.parents.append(&mut more);
        proof {
            assert(self.parents.deep_view() =~= before + p.deep_view());
        }
        self
    }
}

/// Whether one of `parents` names the same path as `path`.
fn any_same_path(parents: &Vec<String>, path: &String) -> (found: bool)
    ensures
        found == exists|k: int|
            0 <= k < parents.deep_view().len() && same_path_spec(#[trigger] parents.deep_view()[k], path@),
{
    let n = parents.len();
    let mut i: usize = 0;
    while i < n
        invariant
            n == parents.len(),
            n == parents.deep_view().len(),
            0 <= i <= n,
            forall|j: int| 0 <= j < i ==> !same_path_spec(#[trigger] parents.deep_view()[j], path@),
        decreases n - i,
    {
        if same_path(&parents[i], path) {
            assert(same_path_spec(parents.deep_view()[i as int], path@));
            return true;
        }
        assert(parents.deep_view()[i as int] == parents@[i as int]@);
        i = i + 1;
    }
    false
}

impl Fuzzy {
    /// The text in front of the name of a top-level entry.
    pub const TOP_SPACER: &'static str = " ";

    /// The text added in front of the name for each level of nesting.
    pub const NESTED_SPACER: &'static str = "|-";

    /// The explorer of the directory `path`, with one top-level entry for
    /// each entry that reading it gave.
    pub fn new(path: String, entries: Vec<ScanEntry>) -> (f: Self)
        ensures
            f@.base_path == path@,
            scan_matches(top_spacer(), seq![path@], entries@, f@.fuzzies),
    {
        let mut scanner = Scanner::new();
        let top = text_of(Fuzzy::TOP_SPACER);
        proof {
            reveal_strlit(" ");
            assert(top@ == top_spacer());
        }
        scanner.set_spacer(top);
        let first = vec![path.clone()];
        proof {
            assert(first.deep_view() =~= seq![path@]);
        }
        scanner.set_parents(first);
        proof {
            assert(scanner@.parents =~= seq![path@]);
        }
        Fuzzy { base_path: path.clone(), fuzzies: scanner.scan(entries) }
    }

    /// The base directory's path.
    pub fn base_path(&self) -> (r: String)
        ensures
            r@ == self@.base_path,
    {
        self.base_path.clone()
    }

    /// The final component of the base directory's path; the path must have one.
    pub fn base_name(&self) -> (r: String)
        requires
            path_file_name(self@.base_path) is Some,
        ensures
            r@ == path_file_name(self@.base_path)->0,
    {
        match file_name_of(&self.base_path) {
            Some(n) => n,
            None => String::new(),
        }
    }

    /// The final component of the base directory's path, where it has one.
    pub fn base_name_checked(&self) -> (r: Option<String>)
        ensures
            match r {
                Some(n) => path_file_name(self@.base_path) == Some(n@),
                None => path_file_name(self@.base_path) is None,
            },
    {
        match file_name_of(&self.base_path) {
            Some(_) => Some(self.base_name()),
            None => None,
        }
    }

    /// The entries, in display order.
    pub fn fuzzies(&self) -> (r: &Vec<Fuzz>)
        ensures
            fuzz_models(r@) == self@.fuzzies,
    {
        &self.fuzzies
    }

    /// The directory that `expand_fuzzy(idx, ..)` reads: the path of the
    /// entry at `idx`, where there is one and it is not a file.
    pub fn expand_target(&self, idx: usize) -> (r: Option<String>)
        ensures
            match r {
                Some(p) => idx < self@.fuzzies.len() && !self@.fuzzies[idx as int].is_file
                    && p@ == self@.fuzzies[idx as int].path,
                None => !(idx < self@.fuzzies.len() && !self@.fuzzies[idx as int].is_file),
            },
    {
        if idx < self.fuzzies.len() && !self.fuzzies[idx].is_file {
            Some(self.fuzzies[idx].path.clone())
        } else {
            None
        }
    }

    /// The directory that `toggle_fuzzy(idx, ..)` reads: as for
    /// `expand_target`, where the entry is not expanded.
    pub fn toggle_target(&self, idx: usize) -> (r: Option<String>)
        ensures
            match r {
                Some(p) => idx < self@.fuzzies.len() && !self@.fuzzies[idx as int].is_file
                    && !self@.fuzzies[idx as int].is_expanded && p@ == self@.fuzzies[idx as int].path,
                None => !(idx < self@.fuzzies.len() && !self@.fuzzies[idx as int].is_file
                    && !self@.fuzzies[idx as int].is_expanded),
            },
    {
        if idx < self.fuzzies.len() && self.fuzzies[idx].is_expanded {
            None
        } else {
            self.expand_target(idx)
        }
    }

    /// Collapses the entry at `idx` where it is expanded, and expands it with
    /// the entries that reading its directory gave otherwise.
    pub fn toggle_fuzzy(&mut self, idx: usize, entries: Vec<ScanEntry>)
        ensures
            final(self)@.base_path == old(self)@.base_path,
            if idx < old(self)@.fuzzies.len() && old(self)@.fuzzies[idx as int].is_expanded {
                final(self)@.fuzzies == collapsed(old(self)@.fuzzies, idx as int)
            } else {
                expanded_with(old(self)@.fuzzies, idx as int, entries@, final(self)@.fuzzies)
            },
    {
        if idx >= self.fuzzies.len() {
            return;
        }
        if self.fuzzies[idx].is_expanded {
            self.collaspe_fuzzy(idx);
        } else {
            self.expand_fuzzy(idx, entries);
        }
    }

    /// Expands the entry at `idx` (not a file) with the entries that reading
    /// its directory gave: one entry for each, listed right after it, one
    /// level deeper; the entry is marked expanded with their number as its
    /// children.
    pub fn expand_fuzzy(&mut self, idx: usize, entries: Vec<ScanEntry>)
        ensures
            final(self)@.base_path == old(self)@.base_path,
            expanded_with(old(self)@.fuzzies, idx as int, entries@, final(self)@.fuzzies),
    {
        if idx >= self.fuzzies.len() {
            return;
        }
        if self.fuzzies[idx].is_file {
            return;
        }
        let ghost before = self.fuzzies@;
        let ghost item_model = self.fuzzies@[idx as int]@;
        let path = self.fuzzies[idx].path.clone();
        let mut spacer = self.fuzzies[idx].spacer.clone();
        spacer.append(Fuzzy::NESTED_SPACER);
        proof {
            reveal_strlit("|-");
            assert(spacer@ =~= item_model.spacer + nested_spacer());
        }
        let mut parents = clone_texts(&self.fuzzies[idx].parents);
        parents.push(path.clone());
        proof {
            assert(parents.deep_view() =~= item_model.parents.push(item_model.path));
        }
        let mut scanner = Scanner::new();
        let child_fuzzies = scanner.set_spacer(spacer).set_parents(parents).scan(entries);
        let ghost kids = fuzz_models(child_fuzzies@);
        proof {
            assert(Seq::<Seq<char>>::empty() + item_model.parents.push(item_model.path) =~= item_model.parents.push(item_model.path));
        }
        let mut item = self.fuzzies.remove(idx);
        item.children = child_fuzzies.len();
        item.is_expanded = true;
        self.fuzzies.insert(idx, item);
        proof {
            assert(self.fuzzies@ =~= before.update(idx as int, item));
            assert(fuzz_models(self.fuzzies@) =~= fuzz_models(before).update(idx as int, item@));
        }
        let ghost mid = self.fuzzies@;
        let insert_to = idx + 1;
        insert_all(&mut self.fuzzies, insert_to, child_fuzzies);
        proof {
            let out = fuzz_models(self.fuzzies@);
            assert(out =~= splice_at(fuzz_models(mid), insert_to as int, kids));
            assert(out.subrange(idx + 1, idx + 1 + kids.len()) =~= kids);
            assert(item@ =~= FuzzModel { children: entries@.len() as usize, is_expanded: true, ..item_model });
        }
    }

    /// Collapses the entry at `idx` (not a file): marks it collapsed with no
    /// children, and removes the span from the first to the last entry that
    /// has among its parents a path equal to the entry's.
    pub fn collaspe_fuzzy(&mut self, idx: usize)
        ensures
            final(self)@.base_path == old(self)@.base_path,
            final(self)@.fuzzies == collapsed(old(self)@.fuzzies, idx as int),
    {
        if idx >= self.fuzzies.len() {
            return;
        }
        if self.fuzzies[idx].is_file {
            return;
        }
        let ghost before = self.fuzzies@;
        let mut item = self.fuzzies.remove(idx);
        let path = item.path.clone();
        item.is_expanded = false;
        item.children = 0;
        self.fuzzies.insert(idx, item);
        proof {
            assert(self.fuzzies@ =~= before.update(idx as int, item));
            assert(fuzz_models(self.fuzzies@) =~= fuzz_models(before).update(
                idx as int,
                FuzzModel { is_expanded: false, children: 0, ..fuzz_models(before)[idx as int] },
            ));
        }
        let pred = |entry: &Fuzz| -> (found: bool)
            ensures
                found == has_parent_path(path@)(entry@),
            {
                let found = any_same_path(&entry.parents, &path);
                proof {
                    assert(entry@.parents == entry.parents.deep_view());
                }
                found
            };
        drop_matching_span(&mut self.fuzzies, pred, Ghost(has_parent_path(path@)));
    }

    /// Where `create_fuzzy(idx, name, ..)` creates its entry: the path, and
    /// whether it is created as a directory, which is where the path's
    /// components end with those of `/` (that is, only where the path is the
    /// root itself, since a root component can only come first); `None`
    /// where there is no entry at `idx`.
    pub fn creation_target(&self, idx: usize, name: &String) -> (r: Option<CreateTarget>)
        ensures
            match r {
                Some(t) => idx < self@.fuzzies.len() && t.path@ == target_path(self@.fuzzies[idx as int], name@)
                    && t.as_dir == ends_with_spec(t.path@, root_text()),
                None => idx >= self@.fuzzies.len(),
            },
    {
        if idx >= self.fuzzies.len() {
            return None;
        }
        let selected_fuzzy = &self.fuzzies[idx];
        let path = if selected_fuzzy.is_file {
            join_path(&selected_fuzzy.direct_parent, name)
        } else {
            join_path(&selected_fuzzy.path, name)
        };
        let root = text_of("/");
        proof {
            reveal_strlit("/");
            assert(root@ == root_text());
        }
        let as_dir = path_ends_with(&path, &root);
        Some(CreateTarget { path, as_dir })
    }

    /// Adds, right after the entry at `idx`, a new entry for `name`: beside
    /// the entry where it is a file, inside it otherwise, taking the path's
    /// metadata `meta` as the creation left it.
    pub fn create_fuzzy(&mut self, idx: usize, name: String, meta: Option<FileKind>)
        requires
            idx < usize::MAX,
        ensures
            final(self)@.base_path == old(self)@.base_path,
            idx < old(self)@.fuzzies.len() ==> {
                &&& final(self)@.fuzzies.len() == old(self)@.fuzzies.len() + 1
                &&& final(self)@.fuzzies == splice_at(
                    old(self)@.fuzzies,
                    idx + 1,
                    seq![final(self)@.fuzzies[idx + 1]],
                )
                &&& without_id(final(self)@.fuzzies[idx + 1]) == created(
                    old(self)@.fuzzies[idx as int],
                    name@,
                    meta,
                )
                &&& is_cuid(final(self)@.fuzzies[idx + 1].id)
                &&& new_entry_fresh(final(self)@.fuzzies[idx + 1], meta)
            },
            idx >= old(self)@.fuzzies.len() ==> final(self)@.fuzzies == old(self)@.fuzzies,
    {
        let insert_to = idx + 1;
        if idx >= self.fuzzies.len() {
            return;
        }
        let ghost sel = self.fuzzies@[idx as int]@;
        let selected_fuzzy = &self.fuzzies[idx];
        let path: String;
        let mut fuzz = Fuzz::new();
        if selected_fuzzy.is_file {
            path = join_path(&selected_fuzzy.direct_parent, &name);
            fuzz.set_parents(clone_texts(&selected_fuzzy.parents));
            fuzz.set_spacer(selected_fuzzy.spacer.clone());
        } else {
            path = join_path(&selected_fuzzy.path, &name);
            let mut parents = clone_texts(&selected_fuzzy.parents);
            parents.push(selected_fuzzy.path.clone());
            fuzz.set_parents(parents);
            proof {
                assert(fuzz@.parents =~= sel.parents.push(sel.path));
            }
            let spacer = selected_fuzzy.spacer.clone().concat(Fuzzy::NESTED_SPACER);
            proof {
                reveal_strlit("|-");
                assert(spacer@ =~= sel.spacer + nested_spacer());
            }
            fuzz.set_spacer(spacer);
        }
        fuzz.read_path(path, meta);
        proof {
            assert(without_id(fuzz@) =~= created(sel, name@, meta));
        }
        let ghost before = fuzz_models(self.fuzzies@);
        let one = vec![fuzz];
        insert_all(&mut self.fuzzies, insert_to, one);
        proof {
            assert(fuzz_models(self.fuzzies@) =~= splice_at(before, insert_to as int, seq![fuzz@]));
        }
    }
}

/// Toggling a collapsed directory twice gives back the list as it was:
/// whatever entries the first toggle listed under it (and whatever fresh
/// identifiers they got), the second removes exactly them, provided that no
/// entry of the list already had a parent equal to the directory's path.
pub proof fn lemma_toggle_twice(
    list: Seq<FuzzModel>,
    i: int,
    entries: Seq<ScanEntry>,
    mid: Seq<FuzzModel>,
)
    requires
        0 <= i < list.len(),
        !list[i].is_file,
        !list[i].is_expanded,
        list[i].children == 0,
        forall|j: int| 0 <= j < list.len() ==> !has_parent_path(list[i].path)(#[trigger] list[j]),
        expanded_with(list, i, entries, mid),
    ensures
        mid[i].is_expanded,
        !mid[i].is_file,
        collapsed(mid, i) == list,
{
    let item = list[i];
    let n = entries.len() as int;
    let kids = mid.subrange(i + 1, i + 1 + n);
    let p = has_parent_path(item.path);
    assert(mid[i].path == item.path);
    assert forall|j: int| 0 <= j < n implies p(#[trigger] kids[j]) by {
        assert(without_id(kids[j]) == scanned(item.spacer + nested_spacer(), item.parents.push(item.path), entries[j]));
        assert(kids[j].parents == without_id(kids[j]).parents);
        assert(kids[j].parents == item.parents.push(item.path));
        let k = item.parents.len() as int;
        assert(kids[j].parents[k] == item.path);
        assert(same_path_spec(kids[j].parents[k], item.path));
    }
    assert(FuzzModel { is_expanded: false, children: 0, ..mid[i] } =~= item);
    assert(mid.update(i, FuzzModel { is_expanded: false, children: 0, ..mid[i] }) =~= splice_at(list, i + 1, kids));
    lemma_drop_inserted_span(list, i, kids, p);
}

/// The list never holds more entries than a `usize` counts, so a caller
/// that holds an index into it can add one to that index (as
/// `create_fuzzy` asks).
pub proof fn lemma_fuzzies_fit(f: &Fuzzy)
    ensures
        f@.fuzzies.len() <= usize::MAX,
{
    assert(f.fuzzies.len() == f.fuzzies@.len());
    assert(f@.fuzzies.len() == f.fuzzies@.len());
}

/// The spacer of an entry `d` levels below the top: the top spacer, then
/// one nested spacer per level.
pub open spec fn depth_spacer(d: nat) -> Seq<char>
    decreases d,
{
    if d == 0 {
        top_spacer()
    } else {
        depth_spacer((d - 1) as nat) + nested_spacer()
    }
}

/// An entry of the explorer of `base` is laid out as the explorer lays its
/// entries out: its first parent is the base directory, and its spacer has
/// one nested spacer for each parent after the first.
pub open spec fn laid_out(base: Seq<char>, f: FuzzModel) -> bool {
    &&& f.parents.len() >= 1
    &&& f.parents[0] == base
    &&& f.spacer == depth_spacer((f.parents.len() - 1) as nat)
}

/// Every entry of `list` is laid out for the explorer of `base`.
pub open spec fn layout_ok(base: Seq<char>, list: Seq<FuzzModel>) -> bool {
    forall|j: int| 0 <= j < list.len() ==> laid_out(base, #[trigger] list[j])
}

/// The entries that `Fuzzy::new(path, ..)` lists are laid out.
pub proof fn lemma_new_laid_out(path: Seq<char>, entries: Seq<ScanEntry>, list: Seq<FuzzModel>)
    requires
        scan_matches(top_spacer(), seq![path], entries, list),
    ensures
        layout_ok(path, list),
{
    assert forall|j: int| 0 <= j < list.len() implies laid_out(path, #[trigger] list[j]) by {
        assert(without_id(list[j]) == scanned(top_spacer(), seq![path], entries[j]));
        assert(list[j].parents == without_id(list[j]).parents);
        assert(list[j].spacer == without_id(list[j]).spacer);
        assert(depth_spacer(0) == top_spacer());
    }
}

/// Expanding an entry keeps the list laid out: the new entries have one
/// more parent and one more nested spacer than the expanded entry.
pub proof fn lemma_expand_keeps_layout(
    base: Seq<char>,
    list: Seq<FuzzModel>,
    i: int,
    entries: Seq<ScanEntry>,
    out: Seq<FuzzModel>,
)
    requires
        layout_ok(base, list),
        expanded_with(list, i, entries, out),
    ensures
        layout_ok(base, out),
{
    if 0 <= i < list.len() && !list[i].is_file {
        let item = list[i];
        let n = entries.len() as int;
        let kids = out.subrange(i + 1, i + 1 + n);
        assert(laid_out(base, item));
        assert forall|j: int| 0 <= j < out.len() implies laid_out(base, #[trigger] out[j]) by {
            if j < i {
                assert(out[j] == list[j]);
            } else if j == i {
                assert(out[j].parents == item.parents && out[j].spacer == item.spacer);
            } else if j <= i + n {
                let k = j - i - 1;
                assert(out[j] == kids[k]);
                assert(without_id(kids[k]) == scanned(
                    item.spacer + nested_spacer(),
                    item.parents.push(item.path),
                    entries[k],
                ));
                assert(kids[k].parents == without_id(kids[k]).parents);
                assert(kids[k].spacer == without_id(kids[k]).spacer);
                assert(kids[k].parents == item.parents.push(item.path));
                assert(kids[k].parents[0] == item.parents[0]);
                assert(depth_spacer(item.parents.len()) == depth_spacer(
                    (item.parents.len() - 1) as nat,
                ) + nested_spacer());
            } else {
                assert(out[j] == list[j - n]);
            }
        }
    }
}

/// Collapsing an entry keeps the list laid out: it only marks an entry and
/// removes others.
pub proof fn lemma_collapse_keeps_layout(base: Seq<char>, list: Seq<FuzzModel>, i: int)
    requires
        layout_ok(base, list),
    ensures
        layout_ok(base, collapsed(list, i)),
{
    if 0 <= i < list.len() && !list[i].is_file {
        let u = list.update(i, FuzzModel { is_expanded: false, children: 0, ..list[i] });
        let p = has_parent_path(list[i].path);
        assert(layout_ok(base, u)) by {
            assert forall|j: int| 0 <= j < u.len() implies laid_out(base, #[trigger] u[j]) by {
                assert(laid_out(base, list[j]));
            }
        }
        lemma_drop_span_elements(u, p);
        let d = drop_span_where(u, p);
        assert forall|j: int| 0 <= j < d.len() implies laid_out(base, #[trigger] d[j]) by {
            assert(u.contains(d[j]));
            let k = choose|k: int| 0 <= k < u.len() && u[k] == d[j];
            assert(laid_out(base, u[k]));
        }
    }
}

/// Creating an entry keeps the list laid out: beside a file it has the
/// file's parents and spacer, inside a directory one more of each.
pub proof fn lemma_create_keeps_layout(
    base: Seq<char>,
    list: Seq<FuzzModel>,
    i: int,
    name: Seq<char>,
    meta: Option<FileKind>,
    c: FuzzModel,
)
    requires
        layout_ok(base, list),
        0 <= i < list.len(),
        without_id(c) == created(list[i], name, meta),
    ensures
        layout_ok(base, splice_at(list, i + 1, seq![c])),
{
    let sel = list[i];
    let out = splice_at(list, i + 1, seq![c]);
    assert(laid_out(base, sel));
    assert(c.parents == without_id(c).parents && c.spacer == without_id(c).spacer);
    if !sel.is_file {
        assert(c.parents == sel.parents.push(sel.path));
        assert(c.parents[0] == sel.parents[0]);
        assert(depth_spacer(sel.parents.len()) == depth_spacer((sel.parents.len() - 1) as nat)
            + nested_spacer());
    }
    assert forall|j: int| 0 <= j < out.len() implies laid_out(base, #[trigger] out[j]) by {
        if j <= i {
            assert(out[j] == list[j]);
        } else if j == i + 1 {
            assert(out[j] == c);
        } else {
            assert(out[j] == list[j - 1]);
        }
    }
}

/// A new entry is collapsed with no children counted, and where its path
/// could be opened it has the kind the metadata gave.
pub open spec fn new_entry_fresh(f: FuzzModel, meta: Option<FileKind>) -> bool {
    &&& !f.is_expanded
    &&& f.children == 0
    &&& meta matches Some(k) ==> f.is_dir == k.is_dir && f.is_file == k.is_file
}

/// The entry that creating next to `sel` gives is collapsed with no children
/// counted, and where its path could be opened it has the kind the metadata
/// gave and the path the name was joined into.
pub proof fn lemma_created_entry(sel: FuzzModel, name: Seq<char>, meta: Option<FileKind>)
    ensures
        new_entry_fresh(created(sel, name, meta), meta),
        meta is Some ==> created(sel, name, meta).path == target_path(sel, name),
{
}

} // verus!
