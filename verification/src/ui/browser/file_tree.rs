use vstd::prelude::*;
use vstd::string::StringExecFns;
use crate::deflate::FileEntry;
use crate::paths::{
    component_ranges, plain_name, lemma_name_in_dir,
    child_dir_of, file_name_of, file_name_opt, get_child_dir, get_subdirectory_from_path, in_dir, is_entry_in_current_dir,
    parent_of, parent_str, push_char, subdir_of,
};
use crate::sorted::{holds, insert_sorted, strictly_sorted};
use crate::ui::browser::file_row::RenameAction;

verus! {

/// What the directory tree asks for.
#[derive(Debug)]
pub enum DirectoryTreeAction {
    NoAction,
    SelectFolder(String),
    SelectFile(FileEntry),
    ExecuteFile(FileEntry),
    ContextMenu(FileEntry),
    RenameCancel,
    RenameSubmit { old_path: String, new_path: String },
}

/// A tree action with its texts as characters.
pub enum TreeActionView {
    NoAction,
    SelectFolder(Seq<char>),
    SelectFile(FileEntry),
    ExecuteFile(FileEntry),
    ContextMenu(FileEntry),
    RenameCancel,
    RenameSubmit { old_path: Seq<char>, new_path: Seq<char> },
}

impl View for DirectoryTreeAction {
    type V = TreeActionView;

    open spec fn view(&self) -> TreeActionView {
        match self {
            DirectoryTreeAction::NoAction => TreeActionView::NoAction,
            DirectoryTreeAction::SelectFolder(d) => TreeActionView::SelectFolder(d@),
            DirectoryTreeAction::SelectFile(f) => TreeActionView::SelectFile(*f),
            DirectoryTreeAction::ExecuteFile(f) => TreeActionView::ExecuteFile(*f),
            DirectoryTreeAction::ContextMenu(f) => TreeActionView::ContextMenu(*f),
            DirectoryTreeAction::RenameCancel => TreeActionView::RenameCancel,
            DirectoryTreeAction::RenameSubmit { old_path, new_path } => TreeActionView::RenameSubmit {
                old_path: old_path@,
                new_path: new_path@,
            },
        }
    }
}

/// What a file row reported in a frame: its clicks, and what its rename box
/// decided, if it was being renamed.
#[derive(Debug)]
pub struct FileRowInput {
    pub clicked: bool,
    pub double_clicked: bool,
    pub secondary_clicked: bool,
    pub rename: Option<RenameAction>,
}

/// The directory tree of the current directory of a vault.
pub struct FileTree<'a> {
    entries: &'a [FileEntry],
    directories: &'a [String],
    current_vfs_dir: &'a str,
    selected_file: Option<&'a FileEntry>,
    directories_first: bool,
    show_icons: bool,
    allow_double_click: bool,
    rename_path: Option<&'a str>,
    rename_buffer: &'a mut String,
}

/// The entries of `es` directly inside `dir`, in order.
pub open spec fn files_in(dir: Seq<char>, es: Seq<FileEntry>) -> Seq<FileEntry>
    decreases es.len(),
{
    if es.len() == 0 {
        Seq::empty()
    } else if in_dir(dir, es.last().path@) {
        files_in(dir, es.drop_last()).push(es.last())
    } else {
        files_in(dir, es.drop_last())
    }
}

/// Whether the tree of `dir` lists the directory `x`: some entry not directly
/// inside `dir` lies below it, or some directory path passes through it.
pub open spec fn listed_dir(dir: Seq<char>, es: Seq<FileEntry>, ds: Seq<String>, x: Seq<char>) -> bool {
    ||| exists|i: int| 0 <= i < es.len() && !in_dir(dir, #[trigger] es[i].path@) && subdir_of(dir, es[i].path@) == Some(x)
    ||| exists|j: int| 0 <= j < ds.len() && child_dir_of(dir, #[trigger] ds[j]@) == Some(x)
}

/// The path of the directory `name` inside `dir`.
pub open spec fn join_dir(dir: Seq<char>, name: Seq<char>) -> Seq<char> {
    if dir.len() == 0 {
        name
    } else {
        dir + seq!['/'] + name
    }
}

/// The name a file row shows: the file name, or nothing.
pub open spec fn row_name(path: Seq<char>) -> Seq<char> {
    match file_name_of(path) {
        Some(n) => n,
        None => Seq::empty(),
    }
}

/// The path a file at `path` gets when renamed to `name`: `name` in the same
/// directory.
pub open spec fn renamed_path(path: Seq<char>, name: Seq<char>) -> Seq<char> {
    join_dir(
        match parent_of(path) {
            Some(p) => p,
            None => Seq::empty(),
        },
        name,
    )
}

/// What a folder row asks for.
pub open spec fn dir_row_view(dir: Seq<char>, name: Seq<char>, clicked: bool) -> Option<TreeActionView> {
    if clicked {
        Some(TreeActionView::SelectFolder(join_dir(dir, name)))
    } else {
        None
    }
}

/// The rename decision a file row's input carries that counts: only the row
/// of the file being renamed, at `rename_path`, decides one.
pub open spec fn row_rename(rename_path: Option<Seq<char>>, file: FileEntry, input: FileRowInput) -> Option<RenameAction> {
    if rename_path == Some(file.path@) {
        input.rename
    } else {
        None
    }
}

/// What a file row asks for: the decision of its rename box, if it is the row
/// being renamed, first; then a click, a double click where allowed, and a
/// secondary click. Submitting the name the file has asks for nothing.
pub open spec fn file_row_view(allow_double_click: bool, rename_path: Option<Seq<char>>, file: FileEntry, input: FileRowInput) -> Option<TreeActionView> {
    match row_rename(rename_path, file, input) {
        Some(RenameAction::Cancel) => Some(TreeActionView::RenameCancel),
        Some(RenameAction::Submit(name)) => if name@ != row_name(file.path@) {
            Some(TreeActionView::RenameSubmit { old_path: file.path@, new_path: renamed_path(file.path@, name@) })
        } else {
            None
        },
        None => if input.clicked {
            Some(TreeActionView::SelectFile(file))
        } else if allow_double_click && input.double_clicked {
            Some(TreeActionView::ExecuteFile(file))
        } else if input.secondary_clicked {
            Some(TreeActionView::ContextMenu(file))
        } else {
            None
        },
    }
}

/// The last request among `s`, if any: a later row wins.
pub open spec fn last_some(s: Seq<Option<TreeActionView>>) -> Option<TreeActionView>
    decreases s.len(),
{
    if s.len() == 0 {
        None
    } else {
        match s.last() {
            Some(a) => Some(a),
            None => last_some(s.drop_last()),
        }
    }
}

/// What the rows of folders `dirs`, then of files `files`, ask for together.
pub open spec fn rows_view(
    dir: Seq<char>,
    allow_double_click: bool,
    rename_path: Option<Seq<char>>,
    dirs: Seq<String>,
    files: Seq<FileEntry>,
    dir_clicked: Seq<bool>,
    inputs: Seq<FileRowInput>,
) -> TreeActionView {
    let rows = Seq::new(dirs.len(), |k: int| dir_row_view(dir, dirs[k]@, dir_clicked[k])) + Seq::new(
        files.len(),
        |k: int| file_row_view(allow_double_click, rename_path, files[k], inputs[k]),
    );
    match last_some(rows) {
        Some(a) => a,
        None => TreeActionView::NoAction,
    }
}

proof fn lemma_last_some_push(s: Seq<Option<TreeActionView>>, x: Option<TreeActionView>)
    ensures
        last_some(s.push(x)) == (match x {
            Some(a) => Some(a),
            None => last_some(s),
        }),
{
    assert(s.push(x).drop_last() =~= s);
}

/// The last request among `s` is one of them.
proof fn lemma_last_some_in(s: Seq<Option<TreeActionView>>)
    ensures
        last_some(s) matches Some(a) ==> exists|k: int| 0 <= k < s.len() && s[k] == Some(a),
    decreases s.len(),
{
    if s.len() > 0 {
        lemma_last_some_in(s.drop_last());
        match s.last() {
            Some(a) => {
                assert(s[s.len() - 1] == Some(a));
            },
            None => {
                if let Some(a) = last_some(s.drop_last()) {
                    let k = choose|k: int| 0 <= k < s.drop_last().len() && s.drop_last()[k] == Some(a);
                    assert(s[k] == s.drop_last()[k]);
                }
            },
        }
    }
}

/// What a tree asks for in a frame comes from what it lists. Where the folder
/// rows are those of the folders the tree lists and the file rows those of
/// the files directly inside its directory: a folder it opens is a listed
/// folder, joined to the current directory; a file it selects, runs or opens
/// a menu for is one of those files, and it runs one only where double
/// clicks are allowed; and a rename it submits or cancels is that of the file
/// being renamed, and a submitted rename keeps the file in its directory
/// under another name.
pub proof fn lemma_tree_action_from_listing(
    dir: Seq<char>,
    es: Seq<FileEntry>,
    ds: Seq<String>,
    allow_double_click: bool,
    rename_path: Option<Seq<char>>,
    dirs: Seq<String>,
    files: Seq<FileEntry>,
    dir_clicked: Seq<bool>,
    inputs: Seq<FileRowInput>,
)
    requires
        forall|x: Seq<char>| holds(dirs, x) <==> listed_dir(dir, es, ds, x),
        files == files_in(dir, es),
        dir_clicked.len() == dirs.len(),
        inputs.len() == files.len(),
    ensures
        rows_view(dir, allow_double_click, rename_path, dirs, files, dir_clicked, inputs) matches TreeActionView::SelectFolder(p)
            ==> exists|c: Seq<char>| listed_dir(dir, es, ds, c) && p == join_dir(dir, c),
        rows_view(dir, allow_double_click, rename_path, dirs, files, dir_clicked, inputs) matches TreeActionView::SelectFile(f)
            ==> files.contains(f),
        rows_view(dir, allow_double_click, rename_path, dirs, files, dir_clicked, inputs) matches TreeActionView::ExecuteFile(f)
            ==> allow_double_click && files.contains(f),
        rows_view(dir, allow_double_click, rename_path, dirs, files, dir_clicked, inputs) matches TreeActionView::ContextMenu(f)
            ==> files.contains(f),
        rows_view(dir, allow_double_click, rename_path, dirs, files, dir_clicked, inputs) is RenameCancel
            ==> (rename_path matches Some(p) && exists|i: int| 0 <= i < files.len() && files[i].path@ == p),
        rows_view(dir, allow_double_click, rename_path, dirs, files, dir_clicked, inputs) matches TreeActionView::RenameSubmit { old_path, new_path }
            ==> {
            &&& rename_path == Some(old_path)
            &&& exists|i: int| 0 <= i < files.len() && files[i].path@ == old_path
            &&& exists|n: Seq<char>| n != row_name(old_path) && new_path == renamed_path(old_path, n)
        },
{
    let rows = Seq::new(dirs.len(), |k: int| dir_row_view(dir, dirs[k]@, dir_clicked[k])) + Seq::new(
        files.len(),
        |k: int| file_row_view(allow_double_click, rename_path, files[k], inputs[k]),
    );
    lemma_last_some_in(rows);
    if let Some(a) = last_some(rows) {
        let k = choose|k: int| 0 <= k < rows.len() && rows[k] == Some(a);
        if k < dirs.len() {
            assert(rows[k] == dir_row_view(dir, dirs[k]@, dir_clicked[k]));
            assert(holds(dirs, dirs[k]@));
        } else {
            let j = k - dirs.len();
            assert(rows[k] == file_row_view(allow_double_click, rename_path, files[j], inputs[j]));
            assert(files[j] == files[j]);
        }
    }
}

/// An optional text as characters.
pub open spec fn opt_view(s: Option<&str>) -> Option<Seq<char>> {
    match s {
        Some(p) => Some(p@),
        None => None,
    }
}

/// The path of the directory `name` inside `dir`.
pub fn join_dir_path(dir: &str, name: &str) -> (r: String)
    ensures
        r@ == join_dir(dir@, name@),
{
    let mut s = String::from_str(dir);
    let dc = crate::paths::chars_of(dir);
    if dc.len() != 0 {
        push_char(&mut s, '/');
    }
    s.append(name);
    proof {
        if dir@.len() == 0 {
            assert(s@ =~= name@);
        } else {
            assert(s@ =~= dir@ + seq!['/'] + name@);
        }
    }
    s
}

/// Sorts the entries of a directory: the entries directly inside it, in
/// order, and the names of the directories below it that hold the others,
/// sorted and each once.
pub fn categorize_entries(current_vfs_dir: &str, entries: &[FileEntry]) -> (r: (Vec<String>, Vec<FileEntry>))
    ensures
        strictly_sorted(r.0@),
        forall|x: Seq<char>| holds(r.0@, x) <==> listed_dir(current_vfs_dir@, entries@, Seq::empty(), x),
        r.1@ == files_in(current_vfs_dir@, entries@),
{
    let mut sub_dirs: Vec<String> = Vec::new();
    let mut files: Vec<FileEntry> = Vec::new();
    let n = entries.len();
    for i in 0..n
        invariant
            n == entries@.len(),
            strictly_sorted(sub_dirs@),
            forall|x: Seq<char>| holds(sub_dirs@, x) <==> listed_dir(current_vfs_dir@, entries@.take(i as int), Seq::empty(), x),
            files@ == files_in(current_vfs_dir@, entries@.take(i as int)),
    {
        let ghost pre = entries@.take(i as int);
        let ghost nxt = entries@.take(i + 1);
        assert(nxt.drop_last() =~= pre);
        let path = entries[i].path.as_str();
        let ghost before = sub_dirs@;
        if is_entry_in_current_dir(current_vfs_dir, path) {
            files.push(entries[i].clone());
            assert forall|x: Seq<char>| holds(sub_dirs@, x) <==> listed_dir(current_vfs_dir@, nxt, Seq::empty(), x) by {
                if listed_dir(current_vfs_dir@, nxt, Seq::empty(), x) {
                    let k = choose|k: int| 0 <= k < nxt.len() && !in_dir(current_vfs_dir@, #[trigger] nxt[k].path@) && subdir_of(current_vfs_dir@, nxt[k].path@) == Some(x);
                    assert(pre[k] == nxt[k]);
                }
                if listed_dir(current_vfs_dir@, pre, Seq::empty(), x) {
                    let k = choose|k: int| 0 <= k < pre.len() && !in_dir(current_vfs_dir@, #[trigger] pre[k].path@) && subdir_of(current_vfs_dir@, pre[k].path@) == Some(x);
                    assert(pre[k] == nxt[k]);
                }
            }
        } else {
            match get_subdirectory_from_path(current_vfs_dir, path) {
                Some(d) => {
                    let ghost dv = d@;
                    insert_sorted(&mut sub_dirs, d);
                    assert forall|x: Seq<char>| holds(sub_dirs@, x) <==> listed_dir(current_vfs_dir@, nxt, Seq::empty(), x) by {
                        if listed_dir(current_vfs_dir@, nxt, Seq::empty(), x) {
                            let k = choose|k: int| 0 <= k < nxt.len() && !in_dir(current_vfs_dir@, #[trigger] nxt[k].path@) && subdir_of(current_vfs_dir@, nxt[k].path@) == Some(x);
                            if k < pre.len() {
                                assert(pre[k] == nxt[k]);
                            }
                        }
                        if listed_dir(current_vfs_dir@, pre, Seq::empty(), x) {
                            let k = choose|k: int| 0 <= k < pre.len() && !in_dir(current_vfs_dir@, #[trigger] pre[k].path@) && subdir_of(current_vfs_dir@, pre[k].path@) == Some(x);
                            assert(pre[k] == nxt[k]);
                        }
                        if x == dv {
                            assert(nxt[i as int] == entries@[i as int]);
                        }
                    }
                },
                None => {
                    assert forall|x: Seq<char>| holds(sub_dirs@, x) <==> listed_dir(current_vfs_dir@, nxt, Seq::empty(), x) by {
                        if listed_dir(current_vfs_dir@, nxt, Seq::empty(), x) {
                            let k = choose|k: int| 0 <= k < nxt.len() && !in_dir(current_vfs_dir@, #[trigger] nxt[k].path@) && subdir_of(current_vfs_dir@, nxt[k].path@) == Some(x);
                            if k < pre.len() {
                                assert(pre[k] == nxt[k]);
                            }
                        }
                        if listed_dir(current_vfs_dir@, pre, Seq::empty(), x) {
                            let k = choose|k: int| 0 <= k < pre.len() && !in_dir(current_vfs_dir@, #[trigger] pre[k].path@) && subdir_of(current_vfs_dir@, pre[k].path@) == Some(x);
                            assert(pre[k] == nxt[k]);
                        }
                    }
                },
            }
        }
    }
    assert(entries@.take(n as int) =~= entries@);
    (sub_dirs, files)
}

/// Whether the file at `path` is the one being renamed.
fn is_rename_target(rename_path: Option<&str>, path: &String) -> (r: bool)
    ensures
        r == (match rename_path {
            Some(p) => Some(p@),
            None => None::<Seq<char>>,
        } == Some(path@)),
{
    match rename_path {
        Some(p) => String::from_str(p) == *path,
        None => false,
    }
}

/// What the rows of a tree ask for in a frame: each folder row of `dirs`
/// that was clicked asks to open its folder, and each file row of `files`
/// asks for what its input says, its rename decision counting only for the
/// file at `rename_path`; the last row that asks wins.
pub fn tree_action(
    current_vfs_dir: &str,
    allow_double_click: bool,
    rename_path: Option<&str>,
    dirs: &Vec<String>,
    files: &Vec<FileEntry>,
    dir_clicked: &Vec<bool>,
    inputs: &Vec<FileRowInput>,
) -> (r: DirectoryTreeAction)
    requires
        dir_clicked@.len() == dirs@.len(),
        inputs@.len() == files@.len(),
    ensures
        r@ == rows_view(current_vfs_dir@, allow_double_click, opt_view(rename_path), dirs@, files@, dir_clicked@, inputs@),
{
    let ghost drows = Seq::new(dirs@.len(), |k: int| dir_row_view(current_vfs_dir@, dirs@[k]@, dir_clicked@[k]));
    let ghost rp = opt_view(rename_path);
    let ghost frows = Seq::new(files@.len(), |k: int| file_row_view(allow_double_click, rp, files@[k], inputs@[k]));
    let mut action = DirectoryTreeAction::NoAction;
    let nd = dirs.len();
    for k in 0..nd
        invariant
            nd == dirs@.len(),
            dir_clicked@.len() == dirs@.len(),
            drows == Seq::new(dirs@.len(), |k: int| dir_row_view(current_vfs_dir@, dirs@[k]@, dir_clicked@[k])),
            action@ == (match last_some(drows.take(k as int)) {
                Some(a) => a,
                None => TreeActionView::NoAction,
            }),
    {
        proof {
            lemma_last_some_push(drows.take(k as int), drows[k as int]);
            assert(drows.take(k + 1) =~= drows.take(k as int).push(drows[k as int]));
        }
        if dir_clicked[k] {
            action = DirectoryTreeAction::SelectFolder(join_dir_path(current_vfs_dir, dirs[k].as_str()));
        }
    }
    let nf = files.len();
    assert(drows.take(nd as int) =~= drows);
    for k in 0..nf
        invariant
            nf == files@.len(),
            inputs@.len() == files@.len(),
            rp == opt_view(rename_path),
            frows == Seq::new(files@.len(), |k: int| file_row_view(allow_double_click, rp, files@[k], inputs@[k])),
            action@ == (match last_some(drows + frows.take(k as int)) {
                Some(a) => a,
                None => TreeActionView::NoAction,
            }),
    {
        proof {
            lemma_last_some_push(drows + frows.take(k as int), frows[k as int]);
            assert(drows + frows.take(k + 1) =~= (drows + frows.take(k as int)).push(frows[k as int]));
        }
        let file = &files[k];
        let input = &inputs[k];
        let renaming = is_rename_target(rename_path, &file.path);
        let rename = if renaming {
            &input.rename
        } else {
            &None
        };
        match rename {
            Some(RenameAction::Cancel) => {
                action = DirectoryTreeAction::RenameCancel;
            },
            Some(RenameAction::Submit(new_name)) => {
                let name = match file_name_opt(file.path.as_str()) {
                    Some(n) => String::from_str(n),
                    None => String::new(),
                };
                if *new_name != name {
                    let parent = parent_str(file.path.as_str());
                    let new_path = join_dir_path(parent.as_str(), new_name.as_str());
                    action = DirectoryTreeAction::RenameSubmit { old_path: file.path.clone(), new_path };
                }
            },
            None => {
                if input.clicked {
                    action = DirectoryTreeAction::SelectFile(file.clone());
                } else if allow_double_click && input.double_clicked {
                    action = DirectoryTreeAction::ExecuteFile(file.clone());
                } else if input.secondary_clicked {
                    action = DirectoryTreeAction::ContextMenu(file.clone());
                }
            },
        }
    }
    assert(frows.take(nf as int) =~= frows);
    action
}

impl<'a> FileTree<'a> {
    /// The rename buffer the tree was lent.
    pub closed spec fn spec_rename_buffer(&self) -> &'a mut String {
        self.rename_buffer
    }

    pub closed spec fn spec_entries(&self) -> Seq<FileEntry> {
        self.entries@
    }

    pub closed spec fn spec_directories(&self) -> Seq<String> {
        self.directories@
    }

    pub closed spec fn spec_dir(&self) -> Seq<char> {
        self.current_vfs_dir@
    }

    pub closed spec fn spec_selected(&self) -> Option<FileEntry> {
        match self.selected_file {
            Some(f) => Some(*f),
            None => None,
        }
    }

    pub closed spec fn spec_directories_first(&self) -> bool {
        self.directories_first
    }

    pub closed spec fn spec_show_icons(&self) -> bool {
        self.show_icons
    }

    pub closed spec fn spec_allow_double_click(&self) -> bool {
        self.allow_double_click
    }

    pub closed spec fn spec_rename_path(&self) -> Option<Seq<char>> {
        match self.rename_path {
            Some(p) => Some(p@),
            None => None,
        }
    }

    /// A tree of `entries` and `directories` at `current_vfs_dir`, nothing
    /// selected or renamed, folders first, with icons and double clicks.
    pub fn new(entries: &'a [FileEntry], directories: &'a [String], current_vfs_dir: &'a str, rename_buffer: &'a mut String) -> (r: Self)
        ensures
            r.spec_entries() == entries@,
            r.spec_directories() == directories@,
            r.spec_dir() == current_vfs_dir@,
            r.spec_selected() is None,
            r.spec_directories_first(),
            r.spec_show_icons(),
            r.spec_allow_double_click(),
            r.spec_rename_path() is None,
            *r.spec_rename_buffer() == *old(rename_buffer),
            *final(r.spec_rename_buffer()) == *final(rename_buffer),
    {
        FileTree {
            entries,
            directories,
            current_vfs_dir,
            selected_file: None,
            directories_first: true,
            show_icons: true,
            allow_double_click: true,
            rename_path: None,
            rename_buffer,
        }
    }

    /// The same tree with `file` selected.
    pub fn selected(self, file: Option<&'a FileEntry>) -> (r: Self)
        ensures
            r.spec_selected() == (match file {
                Some(f) => Some(*f),
                None => None::<FileEntry>,
            }),
            r.spec_entries() == self.spec_entries() && r.spec_directories() == self.spec_directories() && r.spec_dir() == self.spec_dir(),
            r.spec_directories_first() == self.spec_directories_first() && r.spec_show_icons() == self.spec_show_icons(),
            r.spec_allow_double_click() == self.spec_allow_double_click() && r.spec_rename_path() == self.spec_rename_path(),
            *r.spec_rename_buffer() == *self.spec_rename_buffer(),
            *final(r.spec_rename_buffer()) == *final(self.spec_rename_buffer()),
    {
        let mut s = self;
        s.selected_file = file;
        s
    }

    /// The same tree, folders first or not.
    pub fn directories_first(self, val: bool) -> (r: Self)
        ensures
            r.spec_directories_first() == val,
            r.spec_entries() == self.spec_entries() && r.spec_directories() == self.spec_directories() && r.spec_dir() == self.spec_dir(),
            r.spec_selected() == self.spec_selected() && r.spec_show_icons() == self.spec_show_icons(),
            r.spec_allow_double_click() == self.spec_allow_double_click() && r.spec_rename_path() == self.spec_rename_path(),
            *r.spec_rename_buffer() == *self.spec_rename_buffer(),
            *final(r.spec_rename_buffer()) == *final(self.spec_rename_buffer()),
    {
        let mut s = self;
        s.directories_first = val;
        s
    }

    /// The same tree, with icons or not.
    pub fn show_icons(self, val: bool) -> (r: Self)
        ensures
            r.spec_show_icons() == val,
            r.spec_entries() == self.spec_entries() && r.spec_directories() == self.spec_directories() && r.spec_dir() == self.spec_dir(),
            r.spec_selected() == self.spec_selected() && r.spec_directories_first() == self.spec_directories_first(),
            r.spec_allow_double_click() == self.spec_allow_double_click() && r.spec_rename_path() == self.spec_rename_path(),
            *r.spec_rename_buffer() == *self.spec_rename_buffer(),
            *final(r.spec_rename_buffer()) == *final(self.spec_rename_buffer()),
    {
        let mut s = self;
        s.show_icons = val;
        s
    }

    /// The same tree, opening files on double click or not.
    pub fn allow_double_click(self, val: bool) -> (r: Self)
        ensures
            r.spec_allow_double_click() == val,
            r.spec_entries() == self.spec_entries() && r.spec_directories() == self.spec_directories() && r.spec_dir() == self.spec_dir(),
            r.spec_selected() == self.spec_selected() && r.spec_directories_first() == self.spec_directories_first(),
            r.spec_show_icons() == self.spec_show_icons() && r.spec_rename_path() == self.spec_rename_path(),
            *r.spec_rename_buffer() == *self.spec_rename_buffer(),
            *final(r.spec_rename_buffer()) == *final(self.spec_rename_buffer()),
    {
        let mut s = self;
        s.allow_double_click = val;
        s
    }

    /// The same tree with the file at `path` being renamed.
    pub fn renaming(self, path: Option<&'a str>) -> (r: Self)
        ensures
            r.spec_rename_path() == (match path {
                Some(p) => Some(p@),
                None => None::<Seq<char>>,
            }),
            r.spec_entries() == self.spec_entries() && r.spec_directories() == self.spec_directories() && r.spec_dir() == self.spec_dir(),
            r.spec_selected() == self.spec_selected() && r.spec_directories_first() == self.spec_directories_first(),
            r.spec_show_icons() == self.spec_show_icons() && r.spec_allow_double_click() == self.spec_allow_double_click(),
            *r.spec_rename_buffer() == *self.spec_rename_buffer(),
            *final(r.spec_rename_buffer()) == *final(self.spec_rename_buffer()),
    {
        let mut s = self;
        s.rename_path = path;
        s
    }

    /// What the tree lists: the folders below the current directory, sorted
    /// and each once, and the files directly inside it, in order.
    pub fn listing(&self) -> (r: (Vec<String>, Vec<FileEntry>))
        ensures
            strictly_sorted(r.0@),
            forall|x: Seq<char>| holds(r.0@, x) <==> listed_dir(self.spec_dir(), self.spec_entries(), self.spec_directories(), x),
            r.1@ == files_in(self.spec_dir(), self.spec_entries()),
    {
        let (mut sub_dirs, files) = categorize_entries(self.current_vfs_dir, self.entries);
        let ghost es = self.entries@;
        let ghost ds = self.directories@;
        let ghost cur = self.current_vfs_dir@;
        let n = self.directories.len();
        assert(ds.take(0) =~= Seq::<String>::empty());
        for j in 0..n
            invariant
                n == ds.len(),
                ds == self.directories@,
                es == self.entries@,
                cur == self.current_vfs_dir@,
                strictly_sorted(sub_dirs@),
                forall|x: Seq<char>| holds(sub_dirs@, x) <==> listed_dir(cur, es, ds.take(j as int), x),
        {
            let ghost pre = ds.take(j as int);
            let ghost nxt = ds.take(j + 1);
            let ghost before = sub_dirs@;
            match get_child_dir(self.current_vfs_dir, self.directories[j].as_str()) {
                Some(c) => {
                    let ghost cv = c@;
                    insert_sorted(&mut sub_dirs, c);
                    assert forall|x: Seq<char>| holds(sub_dirs@, x) <==> listed_dir(cur, es, nxt, x) by {
                        if listed_dir(cur, es, nxt, x) && !(exists|i: int| 0 <= i < es.len() && !in_dir(cur, #[trigger] es[i].path@) && subdir_of(cur, es[i].path@) == Some(x)) {
                            let k = choose|k: int| 0 <= k < nxt.len() && child_dir_of(cur, #[trigger] nxt[k]@) == Some(x);
                            if k < pre.len() {
                                assert(pre[k] == nxt[k]);
                            }
                        }
                        if listed_dir(cur, es, pre, x) && !(exists|i: int| 0 <= i < es.len() && !in_dir(cur, #[trigger] es[i].path@) && subdir_of(cur, es[i].path@) == Some(x)) {
                            let k = choose|k: int| 0 <= k < pre.len() && child_dir_of(cur, #[trigger] pre[k]@) == Some(x);
                            assert(pre[k] == nxt[k]);
                        }
                        if x == cv {
                            assert(nxt[j as int] == ds[j as int]);
                        }
                    }
                },
                None => {
                    assert forall|x: Seq<char>| holds(sub_dirs@, x) <==> listed_dir(cur, es, nxt, x) by {
                        if listed_dir(cur, es, nxt, x) && !(exists|i: int| 0 <= i < es.len() && !in_dir(cur, #[trigger] es[i].path@) && subdir_of(cur, es[i].path@) == Some(x)) {
                            let k = choose|k: int| 0 <= k < nxt.len() && child_dir_of(cur, #[trigger] nxt[k]@) == Some(x);
                            if k < pre.len() {
                                assert(pre[k] == nxt[k]);
                            }
                        }
                        if listed_dir(cur, es, pre, x) && !(exists|i: int| 0 <= i < es.len() && !in_dir(cur, #[trigger] es[i].path@) && subdir_of(cur, es[i].path@) == Some(x)) {
                            let k = choose|k: int| 0 <= k < pre.len() && child_dir_of(cur, #[trigger] pre[k]@) == Some(x);
                            assert(pre[k] == nxt[k]);
                        }
                    }
                },
            }
        }
        assert(ds.take(n as int) =~= ds);
        (sub_dirs, files)
    }

    /// Whether the folder row of `name` shows selected: its path is the
    /// current directory.
    pub fn folder_selected(&self, name: &str) -> (r: bool)
        ensures
            r == (join_dir(self.spec_dir(), name@) == self.spec_dir()),
    {
        let next = join_dir_path(self.current_vfs_dir, name);
        let cur = String::from_str(self.current_vfs_dir);
        next == cur
    }

    /// The name a file row shows, whether it shows selected (it has the
    /// offset of the selected file), and whether it is being renamed.
    pub fn file_row(&self, file: &FileEntry) -> (r: (String, bool, bool))
        ensures
            r.0@ == row_name(file.path@),
            r.1 == (match self.spec_selected() {
                Some(f) => f.offset == file.offset,
                None => false,
            }),
            r.2 == (match self.spec_rename_path() {
                Some(p) => p == file.path@,
                None => false,
            }),
    {
        let name = match file_name_opt(file.path.as_str()) {
            Some(n) => String::from_str(n),
            None => String::new(),
        };
        let is_selected = match self.selected_file {
            Some(f) => f.offset == file.offset,
            None => false,
        };
        let is_renaming = match self.rename_path {
            Some(p) => String::from_str(p) == file.path,
            None => false,
        };
        (name, is_selected, is_renaming)
    }

    /// The rename box's text, to be edited while the tree is drawn.
    pub fn into_rename_buffer(self) -> (r: &'a mut String)
        ensures
            *r == *self.spec_rename_buffer(),
            *final(r) == *final(self.spec_rename_buffer()),
    {
        self.rename_buffer
    }
}

/// A submitted rename keeps the file in its own directory. For a file whose
/// path is a plain name inside a directory `dir` (written out up to its last
/// component, or empty at the top of the vault), renamed to a plain name: the
/// old path's parent, as `std::path::Path::parent` gives it, is `dir`; the
/// new path has that same parent; and its file name is the new name.
pub proof fn lemma_rename_stays_in_directory(dir: Seq<char>, old_name: Seq<char>, name: Seq<char>)
    requires
        plain_name(old_name),
        plain_name(name),
        dir.len() == 0 || (component_ranges(dir).len() > 0 && component_ranges(dir).last().1 == dir.len()),
    ensures
        parent_of(if dir.len() == 0 { old_name } else { dir + seq!['/'] + old_name }) == Some(dir),
        parent_of(renamed_path(if dir.len() == 0 { old_name } else { dir + seq!['/'] + old_name }, name))
            == parent_of(if dir.len() == 0 { old_name } else { dir + seq!['/'] + old_name }),
        file_name_of(renamed_path(if dir.len() == 0 { old_name } else { dir + seq!['/'] + old_name }, name)) == Some(name),
{
    lemma_name_in_dir(dir, old_name);
    lemma_name_in_dir(dir, name);
}

} // verus!
