//! The `fd` explorer: a flat list of the files and directories under a base
//! directory, where a directory can be expanded in place, and the key
//! handling that selects, expands, collapses, renames and deletes entries.
//!
//! The outside work (reading directories, renaming, removing, drawing) is
//! done by the caller: a key event yields a [`KeyOutcome`] that says what to
//! do, and the caller hands the result back (`expand`, `reload`).

use crate::seqs::{
    drop_matching_span, drop_span_where, insert_all, lemma_drop_inserted_span, splice_at, views,
};
use crate::paths::{join_path, path_join};
use crate::text::{
    clone_texts, contains_text, lemma_utf8_len_prefix, lemma_utf8_len_step, string_insert, utf8_len, utf8_width,
};
use vstd::prelude::*;
use vstd::string::{StrSliceExecFns, StringExecFns};

verus! {

/// The text shown in front of the name of a nested entry, once per level.
pub open spec fn nested_spacer() -> Seq<char> {
    seq!['|', '-']
}

/// The name given to an entry whose name is not valid UTF-8.
pub open spec fn unknown_name() -> Seq<char> {
    seq!['u', 'n', 'k', 'n', 'o', 'w', 'n']
}

/// The text shown in front of the name of a nested entry, once per level.
pub const NESTED_SPACER: &'static str = "|-";

fn nested_spacer_text() -> (s: String)
    ensures
        s@ == nested_spacer(),
{
    let s = String::from_str(NESTED_SPACER);
    proof {
        reveal_strlit("|-");
    }
    s
}

fn unknown_name_text() -> (s: String)
    ensures
        s@ == unknown_name(),
{
    let s = String::from_str("unknown");
    proof {
        reveal_strlit("unknown");
    }
    s
}

/// What reading a directory tells of one of its entries.
pub struct DirEntryInfo {
    /// full path of the entry
    pub path: String,
    /// name of the entry, where it is valid UTF-8
    pub name: Option<String>,
    /// whether the entry is a directory; `None` where its metadata could not be read
    pub is_dir: Option<bool>,
}

/// A file or directory of the list.
#[derive(Debug)]
pub struct FdPath {
    /// full path of the file or dir
    path: String,
    /// name of the file or dir
    name: String,
    /// if path is dir or not
    is_dir: bool,
    /// for dir type if dir is expended
    is_expended: bool,
    /// text rendered in front of the name, one spacer per level of nesting
    spacer: String,
    /// path of direct parent dir
    direct_parent: String,
    /// paths of all parent dirs
    parents: Vec<String>,
    /// total number of children paths
    total_paths: usize,
}

/// The value of an [`FdPath`].
#[verifier::ext_equal]
pub struct FdPathModel {
    pub path: Seq<char>,
    pub name: Seq<char>,
    pub is_dir: bool,
    pub is_expended: bool,
    pub spacer: Seq<char>,
    pub direct_parent: Seq<char>,
    pub parents: Seq<Seq<char>>,
    pub total_paths: usize,
}

impl View for FdPath {
    type V = FdPathModel;

    closed spec fn view(&self) -> FdPathModel {
        FdPathModel {
            path: self.path@,
            name: self.name@,
            is_dir: self.is_dir,
            is_expended: self.is_expended,
            spacer: self.spacer@,
            direct_parent: self.direct_parent@,
            parents: self.parents.deep_view(),
            total_paths: self.total_paths,
        }
    }
}

/// The values of a list of entries.
pub open spec fn models(v: Seq<FdPath>) -> Seq<FdPathModel> {
    views(v)
}

/// The entry that reading `dir` yields for `e`, whose metadata says
/// `is_dir`.
pub open spec fn entry_model(
    dir: Seq<char>,
    spacer: Seq<char>,
    parents: Seq<Seq<char>>,
    e: DirEntryInfo,
    is_dir: bool,
) -> FdPathModel {
    FdPathModel {
        path: e.path@,
        name: match e.name {
            Some(n) => n@,
            None => unknown_name(),
        },
        is_dir: is_dir,
        is_expended: false,
        spacer: spacer,
        direct_parent: dir,
        parents: parents.push(dir),
        total_paths: 0,
    }
}

/// The entries listed for the directory `dir`, in the order read, leaving
/// out those whose metadata could not be read.
pub open spec fn retrieved(
    dir: Seq<char>,
    spacer: Seq<char>,
    parents: Seq<Seq<char>>,
    entries: Seq<DirEntryInfo>,
) -> Seq<FdPathModel>
    decreases entries.len(),
{
    if entries.len() == 0 {
        Seq::empty()
    } else {
        let rest = retrieved(dir, spacer, parents, entries.drop_last());
        match entries.last().is_dir {
            Some(d) => rest.push(entry_model(dir, spacer, parents, entries.last(), d)),
            None => rest,
        }
    }
}

/// Every entry listed for `dir` has `dir` as its last parent.
pub proof fn lemma_retrieved_parents(
    dir: Seq<char>,
    spacer: Seq<char>,
    parents: Seq<Seq<char>>,
    entries: Seq<DirEntryInfo>,
)
    ensures
        forall|j: int|
            0 <= j < retrieved(dir, spacer, parents, entries).len() ==> (#[trigger] retrieved(
                dir,
                spacer,
                parents,
                entries,
            )[j]).parents == parents.push(dir),
        retrieved(dir, spacer, parents, entries).len() <= entries.len(),
    decreases entries.len(),
{
    if entries.len() > 0 {
        lemma_retrieved_parents(dir, spacer, parents, entries.drop_last());
    }
}

impl FdPath {
    /// full path of the file or dir
    pub fn path(&self) -> (r: &String)
        ensures
            r@ == self@.path,
    {
        &self.path
    }

    /// name of the file or dir
    pub fn name(&self) -> (r: &String)
        ensures
            r@ == self@.name,
    {
        &self.name
    }

    /// whether it is a directory
    pub fn is_dir(&self) -> (r: bool)
        ensures
            r == self@.is_dir,
    {
        self.is_dir
    }

    /// whether the directory is expanded in the list
    pub fn is_expended(&self) -> (r: bool)
        ensures
            r == self@.is_expended,
    {
        self.is_expended
    }

    /// text rendered in front of the name
    pub fn spacer(&self) -> (r: &String)
        ensures
            r@ == self@.spacer,
    {
        &self.spacer
    }

    /// path of the direct parent directory
    pub fn direct_parent(&self) -> (r: &String)
        ensures
            r@ == self@.direct_parent,
    {
        &self.direct_parent
    }

    /// paths of all parent directories, outermost first
    pub fn parents(&self) -> (r: &Vec<String>)
        ensures
            r.deep_view() == self@.parents,
    {
        &self.parents
    }

    /// number of entries listed under this directory when it was expanded
    pub fn total_paths(&self) -> (r: usize)
        ensures
            r == self@.total_paths,
    {
        self.total_paths
    }
}



/// What the explorer is doing: browsing, or asking for input for an action.
#[derive(Debug, Clone, Copy, PartialEq, Eq, Structural)]
pub enum FdAction {
    Normal,
    Create,
    Rename,
    Delete,
}

/// A key press, as the explorer tells keys apart.
#[derive(Debug, Clone, Copy, PartialEq, Eq, Structural)]
pub enum Key {
    Char(char),
    Enter,
    Esc,
    Left,
    Right,
    Backspace,
    Other,
}

/// What is left to do after a key press, outside the explorer's state.
#[derive(Debug)]
pub enum KeyOutcome {
    /// nothing
    Done,
    /// read the directory `path`, then call `expand(index, entries)`
    Expand { index: usize, path: String },
    /// create `path` (a directory where `as_dir`, an empty file otherwise),
    /// then read the base directory and call `reload`
    Create { path: String, as_dir: bool },
    /// rename `from` to `to`, then read the base directory and call `reload`
    Rename { from: String, to: String },
    /// remove `path` (with all it holds, where it is a directory), then
    /// read the base directory and call `reload`
    Remove { path: String, is_dir: bool },
    /// read the base directory and call `reload`
    Reload,
}

/// The value of a [`KeyOutcome`].
pub enum Outcome {
    Done,
    Expand { index: usize, path: Seq<char> },
    Create { path: Seq<char>, as_dir: bool },
    Rename { from: Seq<char>, to: Seq<char> },
    Remove { path: Seq<char>, is_dir: bool },
    Reload,
}

impl View for KeyOutcome {
    type V = Outcome;

    open spec fn view(&self) -> Outcome {
        match self {
            KeyOutcome::Done => Outcome::Done,
            KeyOutcome::Expand { index, path } => Outcome::Expand { index: *index, path: path@ },
            KeyOutcome::Create { path, as_dir } => Outcome::Create { path: path@, as_dir: *as_dir },
            KeyOutcome::Rename { from, to } => Outcome::Rename { from: from@, to: to@ },
            KeyOutcome::Remove { path, is_dir } => Outcome::Remove { path: path@, is_dir: *is_dir },
            KeyOutcome::Reload => Outcome::Reload,
        }
    }
}

/// The explorer's state.
#[derive(Debug)]
pub struct Fd {
    base_path: String,
    exit: bool,
    /// index of the selected entry, as the list widget keeps it
    selected: Option<usize>,
    list: Vec<FdPath>,
    action: FdAction,
    input: String,
    /// cursor position in `input`, in characters
    input_index: usize,
}

/// The value of an [`Fd`].
#[verifier::ext_equal]
pub struct FdModel {
    pub base_path: Seq<char>,
    pub exit: bool,
    pub selected: Option<usize>,
    pub list: Seq<FdPathModel>,
    pub action: FdAction,
    pub input: Seq<char>,
    pub input_index: usize,
}

impl View for Fd {
    type V = FdModel;

    closed spec fn view(&self) -> FdModel {
        FdModel {
            base_path: self.base_path@,
            exit: self.exit,
            selected: self.selected,
            list: models(self.list@),
            action: self.action,
            input: self.input@,
            input_index: self.input_index,
        }
    }
}

/// The index of the selected entry, where one is selected and it is in the list.
pub open spec fn selected_index(m: FdModel) -> Option<int> {
    match m.selected {
        Some(i) => if i < m.list.len() {
            Some(i as int)
        } else {
            None
        },
        None => None,
    }
}

/// Selecting the next entry: the one after the selected one, or the first.
pub open spec fn next_selection(s: Option<usize>) -> Option<usize> {
    match s {
        Some(i) => Some(if i == usize::MAX { i } else { (i + 1) as usize }),
        None => Some(0),
    }
}

/// Selecting the previous entry: the one before the selected one, or the
/// last (`usize::MAX`, which the list brings back into range when drawn).
pub open spec fn previous_selection(s: Option<usize>) -> Option<usize> {
    match s {
        Some(i) => Some(if i == 0 { 0 } else { (i - 1) as usize }),
        None => Some(usize::MAX),
    }
}

/// A cursor position brought within `0..=count`.
pub open spec fn clamp_spec(pos: int, count: int) -> int {
    if pos > count {
        count
    } else {
        pos
    }
}

/// `i + 1`, saturating at `usize::MAX`.
pub open spec fn inc_sat(i: usize) -> int {
    if i == usize::MAX {
        i as int
    } else {
        i + 1
    }
}

/// `i - 1`, saturating at 0.
pub open spec fn dec_sat(i: usize) -> int {
    if i == 0 {
        0
    } else {
        i - 1
    }
}

/// The smaller of two integers.
pub open spec fn min_int(a: int, b: int) -> int {
    if a <= b {
        a
    } else {
        b
    }
}

/// The input emptied and the cursor at its start.
pub open spec fn reset_cursor_spec(m: FdModel) -> FdModel {
    FdModel { input: Seq::empty(), input_index: 0, ..m }
}

/// Back to browsing, with the input emptied.
pub open spec fn to_normal(m: FdModel) -> FdModel {
    FdModel { action: FdAction::Normal, ..reset_cursor_spec(m) }
}

/// The cursor moved one character to the left, within the input.
pub open spec fn moved_left(m: FdModel) -> FdModel {
    FdModel { input_index: clamp_spec(dec_sat(m.input_index), m.input.len() as int) as usize, ..m }
}

/// The cursor moved one character to the right, within the input.
pub open spec fn moved_right(m: FdModel) -> FdModel {
    FdModel { input_index: clamp_spec(inc_sat(m.input_index), m.input.len() as int) as usize, ..m }
}

/// `c` typed at the cursor (at the end where the cursor is past it), and
/// the cursor moved after it.
pub open spec fn inserted(m: FdModel, c: char) -> FdModel {
    let k = min_int(m.input_index as int, m.input.len() as int);
    let s = m.input.take(k).push(c) + m.input.skip(k);
    FdModel { input: s, input_index: clamp_spec(inc_sat(m.input_index), s.len() as int) as usize, ..m }
}

/// The character before the cursor deleted, and the cursor moved back;
/// nothing where the cursor is at the start.
pub open spec fn backspaced(m: FdModel) -> FdModel {
    if m.input_index == 0 {
        m
    } else {
        let cur = m.input_index as int;
        let len = m.input.len() as int;
        let s = m.input.take(min_int(cur - 1, len)) + m.input.skip(min_int(cur, len));
        FdModel { input: s, input_index: clamp_spec(cur - 1, s.len() as int) as usize, ..m }
    }
}

/// The path of the selected entry, or the input as it is where none is selected.
pub open spec fn selection_text(m: FdModel) -> Seq<char> {
    match selected_index(m) {
        Some(i) => m.list[i].path,
        None => m.input,
    }
}

/// An entry marked as collapsed, with no children counted.
pub open spec fn folded(item: FdPathModel) -> FdPathModel {
    FdPathModel { total_paths: 0, is_expended: false, ..item }
}

/// Whether an entry has `p` among its parents.
pub open spec fn has_parent(p: Seq<char>) -> spec_fn(FdPathModel) -> bool {
    |item: FdPathModel| item.parents.contains(p)
}

/// The list with the entry at `i` collapsed: the entry marked so, and the
/// span from the first to the last entry under it removed.
pub open spec fn collapsed(list: Seq<FdPathModel>, i: int) -> Seq<FdPathModel> {
    drop_span_where(list.update(i, folded(list[i])), has_parent(list[i].path))
}

/// The entries listed when the entry `item` is expanded.
pub open spec fn children(item: FdPathModel, entries: Seq<DirEntryInfo>) -> Seq<FdPathModel> {
    retrieved(item.path, item.spacer + nested_spacer(), item.parents, entries)
}

/// The list with the entry at `i` expanded: the entry marked so and its
/// count of children raised, and its children inserted right after it.
pub open spec fn expanded(list: Seq<FdPathModel>, i: int, entries: Seq<DirEntryInfo>) -> Seq<FdPathModel> {
    let item = list[i];
    let kids = children(item, entries);
    splice_at(
        list.update(
            i,
            FdPathModel { total_paths: (item.total_paths + kids.len()) as usize, is_expended: true, ..item },
        ),
        i + 1,
        kids,
    )
}

/// Enter while browsing: a selected directory is collapsed where it is
/// expanded, and to be expanded otherwise.
pub open spec fn toggle_step(m: FdModel) -> (FdModel, Outcome) {
    match selected_index(m) {
        Some(i) => if m.list[i].is_dir {
            if m.list[i].is_expended {
                (FdModel { list: collapsed(m.list, i), ..m }, Outcome::Done)
            } else {
                (m, Outcome::Expand { index: i as usize, path: m.list[i].path })
            }
        } else {
            (m, Outcome::Done)
        },
        None => (m, Outcome::Done),
    }
}

/// A key while browsing.
pub open spec fn normal_step(m: FdModel, key: Key) -> (FdModel, Outcome) {
    match key {
        Key::Char(c) => if c == 'q' {
            (FdModel { exit: true, ..m }, Outcome::Done)
        } else if c == 'j' {
            (FdModel { selected: next_selection(m.selected), ..m }, Outcome::Done)
        } else if c == 'k' {
            (FdModel { selected: previous_selection(m.selected), ..m }, Outcome::Done)
        } else if c == 'd' {
            (FdModel { action: FdAction::Delete, input: selection_text(m), ..m }, Outcome::Done)
        } else if c == 'a' {
            (FdModel { action: FdAction::Create, ..m }, Outcome::Done)
        } else if c == 'r' {
            (FdModel { action: FdAction::Rename, input: selection_text(m), ..m }, Outcome::Done)
        } else {
            (m, Outcome::Done)
        },
        Key::Enter => toggle_step(m),
        _ => (m, Outcome::Done),
    }
}

/// An editing key applied to the text being typed: the arrows move the
/// cursor, a character is typed at it, Backspace deletes before it; any
/// other key leaves the state as it is.
pub open spec fn edited(m: FdModel, key: Key) -> FdModel {
    match key {
        Key::Right => moved_right(m),
        Key::Left => moved_left(m),
        Key::Char(c) => inserted(m, c),
        Key::Backspace => backspaced(m),
        _ => m,
    }
}

/// The directory a new entry goes into: the selected entry where it is a
/// directory, the selected entry's directory where it is a file, and the
/// base directory where nothing is selected.
pub open spec fn creation_dir(m: FdModel) -> Seq<char> {
    match selected_index(m) {
        Some(i) => if m.list[i].is_dir {
            m.list[i].path
        } else {
            m.list[i].direct_parent
        },
        None => m.base_path,
    }
}

/// A key while typing the name of a new entry. Enter asks to create the
/// typed name in `creation_dir` (as a directory where the name ends with
/// `/`, as an empty file otherwise); with nothing typed it only asks to
/// reload, which goes back to browsing.
pub open spec fn create_step(m: FdModel, key: Key) -> (FdModel, Outcome) {
    match key {
        Key::Esc => (to_normal(m), Outcome::Done),
        Key::Enter => if m.input.len() == 0 {
            (m, Outcome::Reload)
        } else {
            (
                m,
                Outcome::Create {
                    path: path_join(creation_dir(m), m.input),
                    as_dir: m.input.last() == '/',
                },
            )
        },
        _ => (edited(m, key), Outcome::Done),
    }
}

/// A key while editing the new path of the selected entry.
pub open spec fn rename_step(m: FdModel, key: Key) -> (FdModel, Outcome) {
    match key {
        Key::Esc => (to_normal(m), Outcome::Done),
        Key::Enter => match selected_index(m) {
            Some(i) => (m, Outcome::Rename { from: m.list[i].path, to: m.input }),
            None => (m, Outcome::Reload),
        },
        _ => (edited(m, key), Outcome::Done),
    }
}

/// A key while asking to confirm the deletion of the selected entry.
pub open spec fn delete_step(m: FdModel, key: Key) -> (FdModel, Outcome) {
    match key {
        Key::Esc => (to_normal(m), Outcome::Done),
        Key::Enter => match selected_index(m) {
            Some(i) => (m, Outcome::Remove { path: m.list[i].path, is_dir: m.list[i].is_dir }),
            None => (m, Outcome::Reload),
        },
        _ => (m, Outcome::Done),
    }
}

/// The state after a key press, and what is left to do outside.
pub open spec fn key_step(m: FdModel, key: Key) -> (FdModel, Outcome) {
    match m.action {
        FdAction::Normal => normal_step(m, key),
        FdAction::Create => create_step(m, key),
        FdAction::Rename => rename_step(m, key),
        FdAction::Delete => delete_step(m, key),
    }
}


impl Fd {
    /// The explorer of the directory `path`, whose entries reading it gave:
    /// browsing, nothing selected, and the directory's entries listed.
    pub fn new(path: String, entries: Vec<DirEntryInfo>) -> (fd: Fd)
        ensures
            fd@ == (FdModel {
                base_path: path@,
                exit: false,
                selected: None,
                list: retrieved(path@, Seq::empty(), Seq::empty(), entries@),
                action: FdAction::Normal,
                input: Seq::empty(),
                input_index: 0,
            }),
    {
        let no_parents: Vec<String> = Vec::new();
        proof {
            assert(no_parents.deep_view() =~= Seq::<Seq<char>>::empty());
        }
        let paths = Fd::retreive_paths(path.clone(), String::new(), no_parents, entries);
        Fd {
            base_path: path.clone(),
            exit: false,
            selected: None,
            list: paths,
            action: FdAction::Normal,
            input: String::new(),
            input_index: 0,
        }
    }

    /// Builds the entries of the directory `path` from what reading it gave:
    /// each entry whose metadata could be read, in order, with the given spacer,
    /// and with `parents` followed by `path` as its parents.
    pub fn retreive_paths(path: String, spacer: String, parents: Vec<String>, entries: Vec<DirEntryInfo>) -> (paths: Vec<FdPath>)
        ensures
            models(paths@) == retrieved(path@, spacer@, parents.deep_view(), entries@),
    {
        let mut paths: Vec<FdPath> = Vec::new();
        let n = entries.len();
        let mut i: usize = 0;
        while i < n
            invariant
                n == entries.len(),
                0 <= i <= n,
                models(paths@) == retrieved(path@, spacer@, parents.deep_view(), entries@.take(i as int)),
            decreases n - i,
        {
            proof {
                assert(entries@.take(i + 1).drop_last() =~= entries@.take(i as int));
                assert(entries@.take(i + 1).last() == entries@[i as int]);
            }
            let e = &entries[i];
            match e.is_dir {
                Some(d) => {
                    let name = match &e.name {
                        Some(n) => n.clone(),
                        None => unknown_name_text(),
                    };
                    let mut item_parents = clone_texts(&parents);
                    item_parents.push(path.clone());
                    proof {
                        assert(item_parents.deep_view() =~= parents.deep_view().push(path@));
                    }
                    let fd_path = FdPath {
                        path: e.path.clone(),
                        name: name,
                        spacer: spacer.clone(),
                        is_expended: false,
                        is_dir: d,
                        total_paths: 0,
                        direct_parent: path.clone(),
                        parents: item_parents,
                    };
                    let ghost before = paths@;
                    paths.push(fd_path);
                    proof {
                        assert(models(paths@) =~= models(before).push(fd_path@));
                        assert(fd_path@ =~= entry_model(path@, spacer@, parents.deep_view(), entries@[i as int], d));
                    }
                },
                None => {},
            }
            i = i + 1;
        }
        proof {
            assert(entries@.take(n as int) =~= entries@);
        }
        paths
    }

    /// the directory whose entries are listed
    pub fn base_path(&self) -> (r: &String)
        ensures
            r@ == self@.base_path,
    {
        &self.base_path
    }

    /// the listed entries, in display order
    pub fn list(&self) -> (r: &Vec<FdPath>)
        ensures
            models(r@) == self@.list,
    {
        &self.list
    }

    /// what the explorer is doing
    pub fn action(&self) -> (r: FdAction)
        ensures
            r == self@.action,
    {
        self.action
    }

    /// the text being edited
    pub fn input(&self) -> (r: &String)
        ensures
            r@ == self@.input,
    {
        &self.input
    }

    /// the cursor position in the text being edited, in characters
    pub fn input_index(&self) -> (r: usize)
        ensures
            r == self@.input_index,
    {
        self.input_index
    }

    /// whether the user asked to quit
    pub fn should_exit(&self) -> (r: bool)
        ensures
            r == self@.exit,
    {
        self.exit
    }

    /// the index of the selected entry, as the list widget keeps it
    pub fn selected(&self) -> (r: Option<usize>)
        ensures
            r == self@.selected,
    {
        self.selected
    }

    /// Sets the selected index, as the list widget left it after drawing.
    pub fn select(&mut self, index: Option<usize>)
        ensures
            final(self)@ == (FdModel { selected: index, ..old(self)@ }),
    {
        self.selected = index;
    }

    /// Selects the first entry.
    pub fn select_first(&mut self)
        ensures
            final(self)@ == (FdModel { selected: Some(0), ..old(self)@ }),
    {
        self.selected = Some(0);
    }

    /// Height of the bottom area: one line while browsing, a bordered input
    /// box otherwise.
    pub fn bottom_height(&self) -> (h: u16)
        ensures
            h == (if self@.action == FdAction::Normal { 1u16 } else { 3u16 }),
    {
        if let FdAction::Normal = self.action {
            1
        } else {
            3
        }
    }

    fn reset_cursor(&mut self)
        ensures
            final(self)@ == reset_cursor_spec(old(self)@),
    {
        self.input = String::new();
        self.input_index = 0;
    }

    fn clamp_cursor(&self, new_cursor_pos: usize) -> (r: usize)
        ensures
            r == clamp_spec(new_cursor_pos as int, self@.input.len() as int),
    {
        let count = self.input.as_str().unicode_len();
        if new_cursor_pos > count {
            count
        } else {
            new_cursor_pos
        }
    }

    fn move_cursor_left(&mut self)
        ensures
            final(self)@ == moved_left(old(self)@),
    {
        let cursor_moved_left = self.input_index.saturating_sub(1);
        self.input_index = self.clamp_cursor(cursor_moved_left);
    }

    fn move_cursor_right(&mut self)
        ensures
            final(self)@ == moved_right(old(self)@),
    {
        let cursor_moved_right = self.input_index.saturating_add(1);
        self.input_index = self.clamp_cursor(cursor_moved_right);
    }

    /// The byte position in the input of the character at the cursor, or
    /// the input's length in bytes where the cursor is at or past its end.
    fn byte_index(&self) -> (r: usize)
        ensures
            r == utf8_len(self@.input.take(min_int(self@.input_index as int, self@.input.len() as int))),
    {
        let ghost s = self.input@;
        let count = self.input.as_str().unicode_len();
        let total = self.input.as_str().as_bytes().len();
        proof {
            assert(s.take(s.len() as int) =~= s);
        }
        if self.input_index < count {
            let k = self.input_index;
            let mut acc: usize = 0;
            let mut i: usize = 0;
            while i < k
                invariant
                    s == self.input@,
                    k < count,
                    count == s.len(),
                    total == utf8_len(s),
                    0 <= i <= k,
                    acc == utf8_len(s.take(i as int)),
                decreases k - i,
            {
                proof {
                    lemma_utf8_len_step(s, i as int);
                    lemma_utf8_len_prefix(s, i + 1);
                }
                let c = self.input.as_str().get_char(i);
                acc = acc + utf8_width(c);
                i = i + 1;
            }
            acc
        } else {
            total
        }
    }

    fn exit(&mut self)
        ensures
            final(self)@ == (FdModel { exit: true, ..old(self)@ }),
    {
        self.exit = true;
    }

    fn get_selected(&self) -> (r: Option<&FdPath>)
        ensures
            match selected_index(self@) {
                Some(i) => r matches Some(p) && p@ == self@.list[i],
                None => r is None,
            },
    {
        if let Some(selected_idx) = self.selected {
            if selected_idx < self.list.len() {
                Some(&self.list[selected_idx])
            } else {
                None
            }
        } else {
            None
        }
    }

    /// Collapses the entry at `selected_idx`: marks it collapsed with no
    /// children counted, and removes the span from the first to the last
    /// entry that has its path among their parents.
    fn collaspe(&mut self, selected_idx: usize)
        ensures
            final(self)@ == (if selected_idx < old(self)@.list.len() {
                FdModel { list: collapsed(old(self)@.list, selected_idx as int), ..old(self)@ }
            } else {
                old(self)@
            }),
    {
        if selected_idx < self.list.len() {
            let ghost before = self.list@;
            let mut item = self.list.remove(selected_idx);
            item.total_paths = 0;
            item.is_expended = false;
            let path = item.path.clone();
            self.list.insert(selected_idx, item);
            proof {
                assert(self.list@ =~= before.update(selected_idx as int, item));
                assert(models(self.list@) =~= models(before).update(
                    selected_idx as int,
                    folded(models(before)[selected_idx as int]),
                ));
            }
            let pred = |entry: &FdPath| -> (found: bool)
                ensures
                    found == entry@.parents.contains(path@),
                { contains_text(&entry.parents, &path) };
            drop_matching_span(&mut self.list, pred, Ghost(has_parent(path@)));
            proof {
                assert(models(self.list@) == collapsed(models(before), selected_idx as int));
            }
        }
    }

    /// Expands the entry at `selected_idx` with the entries that reading its
    /// directory gave: they are listed right after it, one level deeper, and
    /// the entry is marked expanded with their number added to its count.
    pub fn expand(&mut self, selected_idx: usize, entries: Vec<DirEntryInfo>)
        requires
            selected_idx < old(self)@.list.len() ==> old(self)@.list[selected_idx as int].total_paths
                + children(old(self)@.list[selected_idx as int], entries@).len() <= usize::MAX,
        ensures
            final(self)@ == (if selected_idx < old(self)@.list.len() {
                FdModel { list: expanded(old(self)@.list, selected_idx as int, entries@), ..old(self)@ }
            } else {
                old(self)@
            }),
    {
        if selected_idx < self.list.len() {
            let ghost before = self.list@;
            let insert_idx = selected_idx + 1;
            let mut item = self.list.remove(selected_idx);
            let spacer = item.spacer.clone().concat(nested_spacer_text().as_str());
            let paths = Fd::retreive_paths(item.path.clone(), spacer, clone_texts(&item.parents), entries);
            item.total_paths = item.total_paths + paths.len();
            item.is_expended = true;
            let ghost kids = models(paths@);
            self.list.insert(selected_idx, item);
            proof {
                assert(self.list@ =~= before.update(selected_idx as int, item));
                assert(models(self.list@) =~= models(before).update(selected_idx as int, item@));
            }
            let ghost mid = self.list@;
            insert_all(&mut self.list, insert_idx, paths);
            proof {
                assert(models(self.list@) =~= splice_at(models(mid), insert_idx as int, kids));
            }
        }
    }

    /// Enter while browsing: collapses the selected directory where it is
    /// expanded, or says to expand it.
    fn toggle_expend(&mut self) -> (out: KeyOutcome)
        ensures
            (final(self)@, out@) == toggle_step(old(self)@),
    {
        if let Some(selected_idx) = self.selected {
            if selected_idx < self.list.len() {
                if self.list[selected_idx].is_dir {
                    if self.list[selected_idx].is_expended {
                        self.collaspe(selected_idx);
                        return KeyOutcome::Done;
                    } else {
                        return KeyOutcome::Expand {
                            index: selected_idx,
                            path: self.list[selected_idx].path.clone(),
                        };
                    }
                }
            }
        }
        KeyOutcome::Done
    }

    /// Lists the base directory again from the entries that reading it gave,
    /// and goes back to browsing with the input emptied.
    pub fn reload(&mut self, entries: Vec<DirEntryInfo>)
        ensures
            final(self)@ == (FdModel {
                list: retrieved(old(self)@.base_path, Seq::empty(), Seq::empty(), entries@),
                ..to_normal(old(self)@)
            }),
    {
        let no_parents: Vec<String> = Vec::new();
        proof {
            assert(no_parents.deep_view() =~= Seq::<Seq<char>>::empty());
        }
        self.list = Fd::retreive_paths(self.base_path.clone(), String::new(), no_parents, entries);
        self.reset_cursor();
        self.action = FdAction::Normal;
    }

    /// Applies an editing key to the text being typed.
    fn edit_input(&mut self, key: Key)
        ensures
            final(self)@ == edited(old(self)@, key),
    {
        match key {
            Key::Right => self.move_cursor_right(),
            Key::Left => self.move_cursor_left(),
            Key::Char(to_insert) => {
                let index = self.byte_index();
                let ghost k = min_int(self.input_index as int, self.input@.len() as int);
                proof {
                    assert(0 <= k <= self.input@.len());
                }
                string_insert(&mut self.input, index, to_insert);
                proof {
                    assert(self.input@ == old(self)@.input.take(k).push(to_insert) + old(self)@.input.skip(k));
                }
                self.move_cursor_right();
            },
            Key::Backspace => {
                let is_not_cursor_leftmost = self.input_index != 0;
                if is_not_cursor_leftmost {
                    // Deleting by characters, not bytes: the text is rebuilt
                    // from the characters before and after the deleted one.
                    let current_index = self.input_index;
                    let from_left_to_current_index = current_index - 1;
                    let count = self.input.as_str().unicode_len();
                    let before_end = if from_left_to_current_index < count {
                        from_left_to_current_index
                    } else {
                        count
                    };
                    let after_start = if current_index < count {
                        current_index
                    } else {
                        count
                    };
                    let before_char_to_delete = self.input.as_str().substring_char(0, before_end);
                    let after_char_to_delete = self.input.as_str().substring_char(after_start, count);
                    let joined = String::from_str(before_char_to_delete).concat(after_char_to_delete);
                    proof {
                        assert(before_char_to_delete@ =~= old(self)@.input.take(before_end as int));
                        assert(after_char_to_delete@ =~= old(self)@.input.skip(after_start as int));
                    }
                    self.input = joined;
                    self.move_cursor_left();
                }
            },
            _ => {},
        }
    }

    /// Handles a key press: updates the state and says what is left to do
    /// outside (reading a directory, renaming, removing).
    pub fn handle_key_event(&mut self, key: Key) -> (out: KeyOutcome)
        ensures
            (final(self)@, out@) == key_step(old(self)@, key),
            old(self)@.action == FdAction::Rename && key == Key::Enter ==> final(self)@ == old(self)@
                && renames_selection(old(self)@, out@),
            old(self)@.action == FdAction::Delete && key == Key::Enter ==> final(self)@ == old(self)@
                && removes_selection(old(self)@, out@),
            old(self)@.action == FdAction::Create && key == Key::Enter && old(self)@.input.len() > 0
                ==> final(self)@ == old(self)@ && creates_typed_name(old(self)@, out@),
    {
        match self.action {
            FdAction::Normal => match key {
                Key::Char('q') => {
                    self.exit();
                    KeyOutcome::Done
                },
                Key::Char('j') => {
                    self.selected = match self.selected {
                        Some(i) => Some(i.saturating_add(1)),
                        None => Some(0),
                    };
                    KeyOutcome::Done
                },
                Key::Char('k') => {
                    self.selected = match self.selected {
                        Some(i) => Some(i.saturating_sub(1)),
                        None => Some(usize::MAX),
                    };
                    KeyOutcome::Done
                },
                Key::Char('d') => {
                    self.action = FdAction::Delete;
                    if let Some(selected) = self.get_selected() {
                        self.input = selected.path.clone();
                    }
                    KeyOutcome::Done
                },
                Key::Char('a') => {
                    self.action = FdAction::Create;
                    KeyOutcome::Done
                },
                Key::Char('r') => {
                    self.action = FdAction::Rename;
                    if let Some(selected) = self.get_selected() {
                        self.input = selected.path.clone();
                    }
                    KeyOutcome::Done
                },
                Key::Enter => self.toggle_expend(),
                _ => KeyOutcome::Done,
            },
            FdAction::Create => match key {
                Key::Esc => {
                    self.action = FdAction::Normal;
                    self.reset_cursor();
                    KeyOutcome::Done
                },
                Key::Enter => {
                    let count = self.input.as_str().unicode_len();
                    if count == 0 {
                        KeyOutcome::Reload
                    } else {
                        let dir = match self.get_selected() {
                            Some(selected) => if selected.is_dir {
                                selected.path.clone()
                            } else {
                                selected.direct_parent.clone()
                            },
                            None => self.base_path.clone(),
                        };
                        let path = join_path(&dir, &self.input);
                        let as_dir = self.input.as_str().get_char(count - 1) == '/';
                        KeyOutcome::Create { path, as_dir }
                    }
                },
                _ => {
                    self.edit_input(key);
                    KeyOutcome::Done
                },
            },
            FdAction::Rename => match key {
                Key::Esc => {
                    self.action = FdAction::Normal;
                    self.reset_cursor();
                    KeyOutcome::Done
                },
                Key::Enter => {
                    let input_value = self.input.clone();
                    match self.get_selected() {
                        Some(selected) => KeyOutcome::Rename { from: selected.path.clone(), to: input_value },
                        None => KeyOutcome::Reload,
                    }
                },
                _ => {
                    self.edit_input(key);
                    KeyOutcome::Done
                },
            },
            FdAction::Delete => match key {
                Key::Esc => {
                    self.action = FdAction::Normal;
                    self.reset_cursor();
                    KeyOutcome::Done
                },
                Key::Enter => match self.get_selected() {
                    Some(selected) => KeyOutcome::Remove { path: selected.path.clone(), is_dir: selected.is_dir },
                    None => KeyOutcome::Reload,
                },
                _ => KeyOutcome::Done,
            },
        }
    }
}


/// Every entry listed under the directory `item` has the directory's path
/// among its parents.
proof fn lemma_children_have_parent(item: FdPathModel, entries: Seq<DirEntryInfo>)
    ensures
        forall|j: int|
            0 <= j < children(item, entries).len() ==> has_parent(item.path)(
                #[trigger] children(item, entries)[j],
            ),
{
    let kids = children(item, entries);
    lemma_retrieved_parents(item.path, item.spacer + nested_spacer(), item.parents, entries);
    assert forall|j: int| 0 <= j < kids.len() implies has_parent(item.path)(#[trigger] kids[j]) by {
        assert(kids[j].parents == item.parents.push(item.path));
        assert(kids[j].parents[item.parents.len() as int] == item.path);
    }
}

/// Expanding a collapsed directory (one with no children counted) and then
/// collapsing it gives back the list as it was, provided that no entry of
/// the list already had the directory among its parents.
pub proof fn lemma_expand_then_collapse(list: Seq<FdPathModel>, i: int, entries: Seq<DirEntryInfo>)
    requires
        0 <= i < list.len(),
        !list[i].is_expended,
        list[i].total_paths == 0,
        forall|j: int| 0 <= j < list.len() ==> !(#[trigger] list[j]).parents.contains(list[i].path),
    ensures
        collapsed(expanded(list, i, entries), i) == list,
{
    let item = list[i];
    let kids = children(item, entries);
    let e = expanded(list, i, entries);
    lemma_children_have_parent(item, entries);
    assert(e[i].path == item.path);
    assert(folded(e[i]) =~= item);
    assert(e.update(i, folded(e[i])) =~= splice_at(list, i + 1, kids));
    lemma_drop_inserted_span(list, i, kids, has_parent(item.path));
}

/// Pressing Enter on a selected, collapsed directory while browsing asks to
/// expand it; once expanded, pressing Enter again collapses it and gives
/// back the state as it was (as long as no entry already had the directory
/// among its parents).
pub proof fn lemma_enter_twice(m: FdModel, entries: Seq<DirEntryInfo>)
    requires
        m.action == FdAction::Normal,
        selected_index(m) is Some,
        m.list[selected_index(m)->0].is_dir,
        !m.list[selected_index(m)->0].is_expended,
        m.list[selected_index(m)->0].total_paths == 0,
        forall|j: int|
            0 <= j < m.list.len() ==> !(#[trigger] m.list[j]).parents.contains(
                m.list[selected_index(m)->0].path,
            ),
    ensures
        ({
            let i = selected_index(m)->0;
            let (m1, o1) = key_step(m, Key::Enter);
            let m2 = FdModel { list: expanded(m1.list, i, entries), ..m1 };
            &&& m1 == m
            &&& o1 == Outcome::Expand { index: i as usize, path: m.list[i].path }
            &&& key_step(m2, Key::Enter) == (m, Outcome::Done)
            &&& toggle_step(m) == (m, o1)
            &&& toggle_step(m2) == (m, Outcome::Done)
        }),
{
    let i = selected_index(m)->0;
    let m2 = FdModel { list: expanded(m.list, i, entries), ..m };
    lemma_expand_then_collapse(m.list, i, entries);
    assert(selected_index(m2) == Some(i));
    assert(m2.list[i].is_dir && m2.list[i].is_expended);
    assert(m2.list[i].path == m.list[i].path);
    assert(FdModel { list: collapsed(m2.list, i), ..m2 } =~= m);
}

/// Toggling (what Enter does while browsing) a selected, collapsed
/// directory asks to expand it and changes nothing yet; once it is expanded,
/// toggling again collapses it and gives back the state as it was (as long
/// as no entry already had the directory among its parents).
pub proof fn lemma_toggle_twice(m: FdModel, entries: Seq<DirEntryInfo>)
    requires
        selected_index(m) is Some,
        m.list[selected_index(m)->0].is_dir,
        !m.list[selected_index(m)->0].is_expended,
        m.list[selected_index(m)->0].total_paths == 0,
        forall|j: int|
            0 <= j < m.list.len() ==> !(#[trigger] m.list[j]).parents.contains(
                m.list[selected_index(m)->0].path,
            ),
    ensures
        ({
            let i = selected_index(m)->0;
            &&& toggle_step(m) == (m, Outcome::Expand { index: i as usize, path: m.list[i].path })
            &&& toggle_step(FdModel { list: expanded(m.list, i, entries), ..m }) == (m, Outcome::Done)
        }),
{
    let i = selected_index(m)->0;
    let m2 = FdModel { list: expanded(m.list, i, entries), ..m };
    lemma_expand_then_collapse(m.list, i, entries);
    assert(selected_index(m2) == Some(i));
    assert(m2.list[i].is_dir && m2.list[i].is_expended);
    assert(m2.list[i].path == m.list[i].path);
    assert(FdModel { list: collapsed(m2.list, i), ..m2 } =~= m);
}

/// While typing a new path or the name of a new entry, typing a character
/// and then deleting it with Backspace gives back the text and the cursor as
/// they were.
pub proof fn lemma_type_then_backspace(m: FdModel, c: char)
    requires
        m.action == FdAction::Rename || m.action == FdAction::Create,
        m.input_index <= m.input.len(),
        m.input.len() < usize::MAX,
    ensures
        key_step(key_step(m, Key::Char(c)).0, Key::Backspace) == (m, Outcome::Done),
{
    let k = m.input_index as int;
    let m1 = inserted(m, c);
    assert(m1.input_index == k + 1);
    assert(m1.input.take(k) =~= m.input.take(k));
    assert(m1.input.skip(k + 1) =~= m.input.skip(k));
    assert(m.input.take(k) + m.input.skip(k) =~= m.input);
    assert(backspaced(m1) =~= m);
}

/// The cursor stays within the text being edited, and while browsing the
/// text is empty: every change of state keeps this so.
pub open spec fn cursor_ok(m: FdModel) -> bool {
    &&& m.input_index <= m.input.len()
    &&& m.action == FdAction::Normal ==> m.input_index == 0 && m.input.len() == 0
}

/// Every key press keeps the cursor within the text being edited.
pub proof fn lemma_key_keeps_cursor(m: FdModel, key: Key)
    requires
        cursor_ok(m),
    ensures
        cursor_ok(key_step(m, key).0),
{
}

/// The other changes of state keep the cursor within the text too: a new
/// explorer and a reload start with it at the start of an empty text, and
/// expanding an entry or selecting one leaves the text and the cursor alone.
pub proof fn lemma_cursor_kept_elsewhere(
    m: FdModel,
    list: Seq<FdPathModel>,
    selected: Option<usize>,
)
    requires
        cursor_ok(m),
    ensures
        cursor_ok(FdModel { list: list, ..to_normal(m) }),
        cursor_ok(FdModel { list: list, ..m }),
        cursor_ok(FdModel { selected: selected, ..m }),
{
}

/// The list never holds more entries than a `usize` counts, so a caller
/// that holds an index into it can add one to that index.
pub proof fn lemma_list_fits(fd: &Fd)
    ensures
        fd@.list.len() <= usize::MAX,
{
    assert(fd.list.len() == fd.list@.len());
    assert(fd@.list.len() == fd.list@.len());
}

/// `out` renames from the selected entry's path to the typed text (only
/// reloads where nothing is selected).
pub open spec fn renames_selection(m: FdModel, out: Outcome) -> bool {
    match selected_index(m) {
        Some(i) => out == (Outcome::Rename { from: m.list[i].path, to: m.input }),
        None => out == Outcome::Reload,
    }
}

/// `out` removes the selected entry's path, as a directory exactly where the
/// entry is one (only reloads where nothing is selected).
pub open spec fn removes_selection(m: FdModel, out: Outcome) -> bool {
    match selected_index(m) {
        Some(i) => out == (Outcome::Remove { path: m.list[i].path, is_dir: m.list[i].is_dir }),
        None => out == Outcome::Reload,
    }
}

/// `out` creates the typed name in the selected directory, beside the
/// selected file (in that file's direct parent), or in the base directory
/// where nothing is selected; as a directory exactly where the name ends
/// with `/`.
pub open spec fn creates_typed_name(m: FdModel, out: Outcome) -> bool {
    let as_dir = m.input.last() == '/';
    match selected_index(m) {
        Some(i) => if m.list[i].is_dir {
            out == (Outcome::Create { path: path_join(m.list[i].path, m.input), as_dir: as_dir })
        } else {
            out == (Outcome::Create { path: path_join(m.list[i].direct_parent, m.input), as_dir: as_dir })
        },
        None => out == (Outcome::Create { path: path_join(m.base_path, m.input), as_dir: as_dir }),
    }
}

/// Enter while renaming changes nothing yet, and asks to rename from the
/// selected entry's path to the typed text.
pub proof fn lemma_rename_enter(m: FdModel)
    requires
        m.action == FdAction::Rename,
    ensures
        key_step(m, Key::Enter).0 == m,
        renames_selection(m, key_step(m, Key::Enter).1),
{
}

/// Enter while deleting changes nothing yet, and asks to remove the
/// selected entry, as a directory exactly where it is one.
pub proof fn lemma_delete_enter(m: FdModel)
    requires
        m.action == FdAction::Delete,
    ensures
        key_step(m, Key::Enter).0 == m,
        removes_selection(m, key_step(m, Key::Enter).1),
{
}

/// Enter while creating, with a name typed, changes nothing yet, and asks
/// to create the typed name where the selection says.
pub proof fn lemma_create_enter(m: FdModel)
    requires
        m.action == FdAction::Create,
        m.input.len() > 0,
    ensures
        key_step(m, Key::Enter).0 == m,
        creates_typed_name(m, key_step(m, Key::Enter).1),
{
}

} // verus!
