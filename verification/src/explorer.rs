//! File operations of the explorer: targets, clipboard, pasting, naming and undoing.
use vstd::prelude::*;

use crate::path;
use crate::string_set::StringSet;
use crate::text;

verus! {

/// What has to be done to take a file operation back.
pub enum UndoOp {
    Trashed { original: String, trashed: String },
    Moved { from: String, to: String },
    Created { path: String },
    Renamed { from: String, to: String },
}

/// What a name is being asked for.
pub enum NameOp {
    /// A new file in this directory.
    NewFile(String),
    /// A new folder in this directory.
    NewFolder(String),
    /// A new name for this path.
    Rename(String),
}

impl Clone for NameOp {
    fn clone(&self) -> (r: Self)
        ensures
            r == *self,
    {
        match self {
            NameOp::NewFile(d) => NameOp::NewFile(d.clone()),
            NameOp::NewFolder(d) => NameOp::NewFolder(d.clone()),
            NameOp::Rename(p) => NameOp::Rename(p.clone()),
        }
    }
}

/// Work on the file system.
pub enum FileTask {
    CreateFile(String),
    CreateDir(String),
    /// Move or rename.
    Rename { from: String, to: String },
    Copy { from: String, to: String },
    Trash(String),
}

/// The explorer's selection, clipboard and undo stack.
pub struct Explorer {
    /// Entries that are selected together.
    pub selected: StringSet,
    /// Paths on the clipboard, and whether they are to be moved.
    pub clipboard: Option<(Vec<String>, bool)>,
    pub undo: Vec<UndoOp>,
}

/// What one pasted path comes to.
pub enum PasteStep {
    /// There is nothing to do for it.
    Skip,
    Move { from: String, to: String },
    /// Copy to `to`, where that is free; `taken` says that it is the source itself.
    Copy { from: String, to: String, taken: bool },
}

/// The model of one undone operation.
pub enum TaskModel {
    Rename { from: Seq<char>, to: Seq<char> },
    Trash(Seq<char>),
    Other,
}

/// The model of a task.
pub open spec fn task_model(t: FileTask) -> TaskModel {
    match t {
        FileTask::Rename { from, to } => TaskModel::Rename { from: from@, to: to@ },
        FileTask::Trash(p) => TaskModel::Trash(p@),
        _ => TaskModel::Other,
    }
}

/// What takes an operation back: a moved or renamed path goes back, a deleted one comes out of the
/// trash, and a new one goes there.
pub open spec fn undo_model(op: UndoOp) -> TaskModel {
    match op {
        UndoOp::Trashed { original, trashed } => TaskModel::Rename {
            from: trashed@,
            to: original@,
        },
        UndoOp::Moved { from, to } => TaskModel::Rename { from: to@, to: from@ },
        UndoOp::Renamed { from, to } => TaskModel::Rename { from: to@, to: from@ },
        UndoOp::Created { path } => TaskModel::Trash(path@),
    }
}

/// What takes an operation back.
pub fn undo_task(op: UndoOp) -> (t: FileTask)
    ensures
        task_model(t) == undo_model(op),
{
    match op {
        UndoOp::Trashed { original, trashed } => FileTask::Rename { from: trashed, to: original },
        UndoOp::Moved { from, to } => FileTask::Rename { from: to, to: from },
        UndoOp::Renamed { from, to } => FileTask::Rename { from: to, to: from },
        UndoOp::Created { path } => FileTask::Trash(path),
    }
}

/// Where a path goes when it gets the name `name`.
pub open spec fn renamed(old_path: Seq<char>, name: Seq<char>) -> Seq<char> {
    match path::parent_of(old_path) {
        Some(d) => path::joined_path(d, name),
        None => name,
    }
}

/// Whether `task` does what the name `name` was asked for, and `undo` takes it back.
pub open spec fn carries_out(op: NameOp, name: Seq<char>, task: FileTask, undo: UndoOp) -> bool {
    match op {
        NameOp::NewFile(dir) => {
            let to = path::joined_path(dir@, name);
            &&& task is CreateFile && task->CreateFile_0@ == to
            &&& undo is Created && undo->path@ == to
        },
        NameOp::NewFolder(dir) => {
            let to = path::joined_path(dir@, name);
            &&& task is CreateDir && task->CreateDir_0@ == to
            &&& undo is Created && undo->path@ == to
        },
        NameOp::Rename(was) => {
            let to = renamed(was@, name);
            &&& task is Rename && task->Rename_from == was && task->Rename_to@ == to
            &&& undo is Renamed && undo->Renamed_from == was && undo->Renamed_to@ == to
        },
    }
}

/// Taking a named task back puts a renamed path back under its old name, and what was created into
/// the trash.
pub proof fn law_undo_takes_a_named_task_back(
    op: NameOp,
    name: Seq<char>,
    task: FileTask,
    undo: UndoOp,
)
    requires
        carries_out(op, name, task, undo),
    ensures
        undo_model(undo) == (match task {
            FileTask::CreateFile(p) => TaskModel::Trash(p@),
            FileTask::CreateDir(p) => TaskModel::Trash(p@),
            FileTask::Rename { from, to } => TaskModel::Rename { from: to@, to: from@ },
            _ => TaskModel::Other,
        }),
{
}

/// What confirming a name does, and what takes it back: nothing for a blank name.
pub fn name_task(op: &NameOp, typed: &str) -> (r: Option<(FileTask, UndoOp)>)
    ensures
        r is Some <==> !text::all_white(typed@),
        r matches Some(p) ==> carries_out(*op, text::trimmed(typed@), p.0, p.1),
{
    proof {
        text::lemma_trimmed_empty(typed@);
    }
    if text::is_blank(typed) {
        return None;
    }
    let name = text::trim(typed);
    match op {
        NameOp::NewFile(dir) => {
            let p = path::join(dir.as_str(), name.as_str());
            Some((FileTask::CreateFile(p.clone()), UndoOp::Created { path: p }))
        },
        NameOp::NewFolder(dir) => {
            let p = path::join(dir.as_str(), name.as_str());
            Some((FileTask::CreateDir(p.clone()), UndoOp::Created { path: p }))
        },
        NameOp::Rename(was) => {
            let to = match path::parent(was.as_str()) {
                Some(d) => path::join(d.as_str(), name.as_str()),
                None => name,
            };
            Some(
                (
                    FileTask::Rename { from: was.clone(), to: to.clone() },
                    UndoOp::Renamed { from: was.clone(), to },
                ),
            )
        },
    }
}

/// The `.` and the extension of a file name, or nothing.
pub open spec fn dotted_extension(name: Seq<char>) -> Seq<char> {
    match path::extension_of(name) {
        Some(e) => "."@ + e,
        None => Seq::empty(),
    }
}

/// Name number `i` for a copy of `name`.
pub open spec fn copy_name(name: Seq<char>, i: u64) -> Seq<char> {
    if i <= 1 {
        path::stem_of(name) + " copy"@ + dotted_extension(name)
    } else {
        path::stem_of(name) + " copy "@ + text::dec(i as nat) + dotted_extension(name)
    }
}

/// The search for a free name for a copy of `name` in `dir`.
pub struct CopySearch {
    pub dir: String,
    pub name: String,
    /// Number of the name that is being tried.
    pub tried: u64,
}

impl CopySearch {
    /// Path number `i`.
    pub open spec fn path_of(self, i: u64) -> Seq<char> {
        path::joined_path(self.dir@, copy_name(self.name@, i))
    }

    /// Starts with the first name.
    pub fn new(dir: String, name: String) -> (s: Self)
        ensures
            s.dir == dir,
            s.name == name,
            s.tried == 1,
    {
        CopySearch { dir, name, tried: 1 }
    }

    /// The path that is being tried.
    pub fn candidate(&self) -> (r: String)
        ensures
            r@ == self.path_of(self.tried),
    {
        let stem = path::file_stem(self.name.as_str());
        let ext = match path::extension(self.name.as_str()) {
            Some(e) => text::cat2(".", e.as_str()),
            None => String::new(),
        };
        assert(path::extension_of(self.name@) is None ==> ext@ =~= Seq::<char>::empty());
        let file = if self.tried <= 1 {
            text::cat3(stem.as_str(), " copy", ext.as_str())
        } else {
            text::cat4(
                stem.as_str(),
                " copy ",
                text::dec_u64(self.tried).as_str(),
                ext.as_str(),
            )
        };
        path::join(self.dir.as_str(), file.as_str())
    }

    /// Whether the tried path exists: the path to use where it does not, else the next one is to be
    /// tried.
    pub fn answer(&mut self, exists: bool) -> (r: Option<String>)
        requires
            old(self).tried < u64::MAX,
        ensures
            r is Some <==> !exists,
            r matches Some(p) ==> p@ == old(self).path_of(old(self).tried) && *final(self) == *old(
                self,
            ),
            r is None ==> *final(self) == (Self {
                tried: (old(self).tried + 1) as u64,
                ..*old(self)
            }),
    {
        if exists {
            self.tried = self.tried + 1;
            None
        } else {
            Some(self.candidate())
        }
    }
}

/// What pasting `src` into `dir` comes to: a path without a name is left out, a path that is moved
/// to where it is already stays there.
pub open spec fn paste_model(src: Seq<char>, dir: Seq<char>, is_cut: bool, step: PasteStep) -> bool {
    match path::name_of(src) {
        None => step is Skip,
        Some(name) => {
            let dest = path::joined_path(dir, name);
            let same = path::same(dest, src);
            if is_cut {
                if same {
                    step is Skip
                } else {
                    step is Move && step->Move_from@ == src && step->Move_to@ == dest
                }
            } else {
                step is Copy && step->Copy_from@ == src && step->Copy_to@ == dest && step->taken
                    == same
            }
        },
    }
}

/// What pasting `src` into `dir` comes to.
pub fn paste_step(src: &str, dir: &str, is_cut: bool) -> (step: PasteStep)
    ensures
        paste_model(src@, dir@, is_cut, step),
{
    match path::file_name(src) {
        None => PasteStep::Skip,
        Some(name) => {
            let dest = path::join(dir, name.as_str());
            let same = path::eq(dest.as_str(), src);
            if is_cut {
                if same {
                    PasteStep::Skip
                } else {
                    PasteStep::Move { from: src.to_owned(), to: dest }
                }
            } else {
                PasteStep::Copy { from: src.to_owned(), to: dest, taken: same }
            }
        },
    }
}

/// The directory for new entries: the selected directory, that of the selected file, or the
/// project.
pub open spec fn dir_for(
    selected: Option<Seq<char>>,
    is_dir: bool,
    root: Seq<char>,
) -> Seq<char> {
    match selected {
        Some(p) => if is_dir {
            p
        } else {
            match path::parent_of(p) {
                Some(d) => d,
                None => root,
            }
        },
        None => root,
    }
}

/// The directory for new entries.
pub fn selected_dir(selected: &Option<String>, is_dir: bool, root: &str) -> (r: String)
    ensures
        r@ == dir_for(text::opt_text(*selected), is_dir, root@),
{
    match selected {
        Some(p) => {
            if is_dir {
                p.clone()
            } else {
                match path::parent(p.as_str()) {
                    Some(d) => d,
                    None => root.to_owned(),
                }
            }
        },
        None => root.to_owned(),
    }
}

impl Explorer {
    /// Nothing is selected twice.
    pub open spec fn inv(self) -> bool {
        self.selected.inv()
    }

    /// Nothing selected, copied or done yet.
    pub fn new() -> (e: Self)
        ensures
            e.inv(),
            e.selected@ == Set::<Seq<char>>::empty(),
            e.clipboard is None,
            e.undo@.len() == 0,
    {
        Explorer { selected: StringSet::new(), clipboard: None, undo: Vec::new() }
    }

    /// What a file operation is about: the entries that are selected together, else the selected
    /// entry.
    pub open spec fn targets(self, tree_selected: Option<Seq<char>>) -> Seq<Seq<char>> {
        if self.selected.items@.len() > 0 {
            text::texts(self.selected.items@)
        } else {
            match tree_selected {
                Some(p) => seq![p],
                None => Seq::empty(),
            }
        }
    }

    /// What a file operation is about.
    pub fn target_paths(&self, tree_selected: &Option<String>) -> (r: Vec<String>)
        ensures
            text::texts(r@) == self.targets(text::opt_text(*tree_selected)),
    {
        if !self.selected.is_empty() {
            text::copy_strings(&self.selected.items)
        } else {
            let mut r: Vec<String> = Vec::new();
            match tree_selected {
                Some(p) => {
                    r.push(p.clone());
                    assert(text::texts(r@) =~= seq![p@]);
                },
                None => {
                    assert(text::texts(r@) =~= Seq::<Seq<char>>::empty());
                },
            }
            r
        }
    }

    /// Takes an entry into the common selection, or out of it.
    pub fn toggle_multi_select(&mut self, p: String)
        requires
            old(self).inv(),
        ensures
            final(self).inv(),
            final(self).clipboard == old(self).clipboard,
            final(self).undo == old(self).undo,
            old(self).selected@.contains(p@) ==> final(self).selected@ == old(
                self,
            ).selected@.remove(p@),
            !old(self).selected@.contains(p@) ==> final(self).selected@ == old(
                self,
            ).selected@.insert(p@),
    {
        if !self.selected.remove(p.as_str()) {
            assert(self.selected@ =~= old(self).selected@);
            self.selected.insert(p);
        }
    }

    /// Empties the common selection. Whether there was one.
    pub fn clear_multi_select(&mut self) -> (changed: bool)
        requires
            old(self).inv(),
        ensures
            final(self).inv(),
            final(self).selected@ == Set::<Seq<char>>::empty(),
            final(self).clipboard == old(self).clipboard,
            final(self).undo == old(self).undo,
            changed == (old(self).selected@ != Set::<Seq<char>>::empty()),
    {
        let changed = !self.selected.is_empty();
        self.selected.clear();
        changed
    }

    /// Copies the targets (or cuts them): what the status line says, and nothing without targets.
    pub fn to_clipboard(&mut self, tree_selected: &Option<String>, cut: bool) -> (status: Option<
        String,
    >)
        requires
            old(self).inv(),
        ensures
            final(self).inv(),
            final(self).selected == old(self).selected,
            final(self).undo == old(self).undo,
            ({
                let all = old(self).targets(text::opt_text(*tree_selected));
                &&& status is Some <==> all.len() > 0
                &&& status is None ==> final(self).clipboard == old(self).clipboard
                &&& status matches Some(s) ==> {
                    &&& final(self).clipboard is Some
                    &&& text::texts((final(self).clipboard->0).0@) == all
                    &&& (final(self).clipboard->0).1 == cut
                    &&& s@ == (if cut {
                        "已剪切 "@
                    } else {
                        "已复制 "@
                    }) + text::dec(all.len()) + " 项"@
                }
            }),
    {
        let paths = self.target_paths(tree_selected);
        assert(text::texts(paths@).len() == paths@.len());
        if paths.len() == 0 {
            return None;
        }
        let n = text::dec_usize(paths.len());
        self.clipboard = Some((paths, cut));
        Some(
            if cut {
                text::cat3("已剪切 ", n.as_str(), " 项")
            } else {
                text::cat3("已复制 ", n.as_str(), " 项")
            },
        )
    }

    /// Takes the paths to paste off the clipboard; those that are moved leave it.
    pub fn take_paste(&mut self) -> (r: Option<(Vec<String>, bool)>)
        requires
            old(self).inv(),
        ensures
            final(self).inv(),
            final(self).selected == old(self).selected,
            final(self).undo == old(self).undo,
            r is Some <==> old(self).clipboard is Some,
            r matches Some(p) ==> p.0@ == (old(self).clipboard->0).0@ && p.1 == (old(
                self,
            ).clipboard->0).1,
            (r matches Some(p) && p.1) ==> final(self).clipboard is None,
            !(r matches Some(p) && p.1) ==> final(self).clipboard == old(self).clipboard,
    {
        let r = match &self.clipboard {
            Some((paths, cut)) => Some((text::copy_strings(paths), *cut)),
            None => None,
        };
        let moved = match &r {
            Some((_, cut)) => *cut,
            None => false,
        };
        if moved {
            self.clipboard = None;
        }
        r
    }

    /// The pasting is over: remembers how to take it back.
    pub fn pasted(&mut self, undos: Vec<UndoOp>, is_cut: bool)
        requires
            old(self).inv(),
        ensures
            final(self).inv(),
            final(self).undo@ == old(self).undo@ + undos@,
            final(self).clipboard == old(self).clipboard,
            is_cut ==> final(self).selected@ == Set::<Seq<char>>::empty(),
            !is_cut ==> final(self).selected == old(self).selected,
    {
        let mut undos = undos;
        self.undo.append(&mut undos);
        if is_cut {
            self.selected.clear();
        }
    }

    /// Remembers how to take operations back.
    pub fn remember(&mut self, undos: Vec<UndoOp>)
        requires
            old(self).inv(),
        ensures
            final(self).inv(),
            final(self).undo@ == old(self).undo@ + undos@,
            final(self).clipboard == old(self).clipboard,
            final(self).selected == old(self).selected,
    {
        let mut undos = undos;
        self.undo.append(&mut undos);
    }

    /// What takes the last operation back, where there is one.
    pub fn pop_undo(&mut self) -> (r: Option<FileTask>)
        requires
            old(self).inv(),
        ensures
            final(self).inv(),
            final(self).clipboard == old(self).clipboard,
            final(self).selected == old(self).selected,
            r is Some <==> old(self).undo@.len() > 0,
            r is None ==> final(self).undo@ == old(self).undo@,
            r matches Some(t) ==> final(self).undo@ == old(self).undo@.drop_last() && task_model(t)
                == undo_model(old(self).undo@.last()),
    {
        match self.undo.pop() {
            Some(op) => Some(undo_task(op)),
            None => None,
        }
    }

    /// Forgets everything that belongs to the project that is left. The clipboard stays.
    pub fn leave_project(&mut self)
        requires
            old(self).inv(),
        ensures
            final(self).inv(),
            final(self).selected@ == Set::<Seq<char>>::empty(),
            final(self).undo@.len() == 0,
            final(self).clipboard == old(self).clipboard,
    {
        self.selected.clear();
        self.undo.clear();
    }
}

/// An entry that is toggled twice is selected as it was before.
pub proof fn law_toggling_twice_changes_nothing(selected: Set<Seq<char>>, p: Seq<char>)
    ensures
        selected.contains(p) ==> selected.remove(p).insert(p) == selected,
        !selected.contains(p) ==> selected.insert(p).remove(p) == selected,
{
    if selected.contains(p) {
        assert(selected.remove(p).insert(p) =~= selected);
    } else {
        assert(selected.insert(p).remove(p) =~= selected);
    }
}

/// A copy is named by its source: the word before the dot, and from the second one on its number.
pub proof fn law_copies_are_numbered(dir: String, stem: Seq<char>, ext: Seq<char>, s: CopySearch, r: String)
    requires
        s.name@ == stem + seq!['.'] + ext,
        stem.len() > 0,
        !ext.contains('.'),
        !(stem == seq!['.'] && ext.len() == 0),
        call_ensures(CopySearch::candidate, (&s,), r),
    ensures
        s.tried <= 1 ==> r@ == path::joined_path(s.dir@, stem + " copy"@ + (seq!['.'] + ext)),
        s.tried > 1 ==> r@ == path::joined_path(
            s.dir@,
            stem + " copy "@ + text::dec(s.tried as nat) + (seq!['.'] + ext),
        ),
{
    path::law_a_name_is_stem_and_extension(stem, ext);
    reveal_strlit(".");
    assert("."@ =~= seq!['.']);
}

/// A name that is taken is not offered again: the search goes on to the next number, and ends with the
/// first name that is free.
pub proof fn law_the_search_ends_with_a_free_name(s: &mut CopySearch, taken: bool, r: Option<String>, c: String)
    requires
        old(s).tried < u64::MAX,
        call_ensures(CopySearch::candidate, (&*old(s),), c),
        call_ensures(CopySearch::answer, (s, taken), r),
    ensures
        !taken ==> r is Some && r->0@ == c@,
        taken ==> r is None && final(s).tried == old(s).tried + 1 && final(s).dir == old(s).dir
            && final(s).name == old(s).name,
{
}

/// What is pasted keeps its name and comes to lie in the folder. Cutting moves it, unless it lies there
/// already; copying leaves the source, and says where the place is the source itself.
pub proof fn law_pasting_keeps_the_name(src: &str, dir: &str, cut: PasteStep, copy: PasteStep, n: Seq<char>)
    requires
        call_ensures(paste_step, (src, dir, true), cut),
        call_ensures(paste_step, (src, dir, false), copy),
        path::name_of(src@) == Some(n),
    ensures
        copy matches PasteStep::Copy { from, to, taken } && from@ == src@ && to@ == path::joined_path(
            dir@,
            n,
        ) && (taken <==> path::same(to@, src@)),
        path::same(path::joined_path(dir@, n), src@) ==> cut is Skip,
        !path::same(path::joined_path(dir@, n), src@) ==> (cut matches PasteStep::Move { from, to }
            && from@ == src@ && to@ == path::joined_path(dir@, n)),
{
}

/// Undoing goes the way back: what was moved or renamed goes back to where it was, what was deleted
/// comes back, and what was created is deleted.
pub proof fn law_undoing_goes_the_way_back(op: UndoOp, t: FileTask)
    requires
        call_ensures(undo_task, (op,), t),
    ensures
        op matches UndoOp::Moved { from, to } ==> (t matches FileTask::Rename { from: f, to: g }
            && f@ == to@ && g@ == from@),
        op matches UndoOp::Renamed { from, to } ==> (t matches FileTask::Rename { from: f, to: g }
            && f@ == to@ && g@ == from@),
        op matches UndoOp::Trashed { original, trashed } ==> (t matches FileTask::Rename {
            from: f,
            to: g,
        } && f@ == trashed@ && g@ == original@),
        op matches UndoOp::Created { path } ==> (t matches FileTask::Trash(p) && p@ == path@),
{
}

/// A new thing is made in the folder that is selected, or in the one that the selected file lies in;
/// without a selection in the project.
pub proof fn law_new_things_lie_where_the_selection_is(
    dir: Seq<char>,
    n: Seq<char>,
    selected: Option<String>,
    is_dir: bool,
    root: &str,
    r: String,
)
    requires
        call_ensures(selected_dir, (&selected, is_dir, root), r),
        path::ends_in_name(dir),
        path::is_name(n),
    ensures
        selected is None ==> r@ == root@,
        selected matches Some(p) ==> is_dir ==> r@ == p@,
        selected matches Some(p) ==> !is_dir ==> p@ == path::joined_path(dir, n) ==> r@ == dir,
{
    path::law_the_folder_of_what_lies_in_it(dir, n);
}

/// Renaming changes the name and leaves the thing in its folder.
pub proof fn law_renaming_stays_in_the_folder(dir: Seq<char>, was: Seq<char>, name: Seq<char>)
    requires
        path::ends_in_name(dir),
        path::is_name(was),
        path::is_name(name),
    ensures
        renamed(path::joined_path(dir, was), name) == path::joined_path(dir, name),
{
    path::law_the_folder_of_what_lies_in_it(dir, was);
}

/// A typed name is taken without the white space around it; a blank one is not taken.
pub proof fn law_names_are_taken_without_white_space(
    op: NameOp,
    typed: &str,
    r: Option<(FileTask, UndoOp)>,
    dir: String,
)
    requires
        call_ensures(name_task, (&op, typed), r),
    ensures
        r is None <==> text::trimmed(typed@).len() == 0,
        op == NameOp::NewFile(dir) ==> (r matches Some(p) ==> p.0 is CreateFile
            && p.0->CreateFile_0@ == path::joined_path(dir@, text::trimmed(typed@))),
        op == NameOp::NewFolder(dir) ==> (r matches Some(p) ==> p.0 is CreateDir
            && p.0->CreateDir_0@ == path::joined_path(dir@, text::trimmed(typed@))),
        op == NameOp::Rename(dir) ==> (r matches Some(p) ==> p.0 is Rename && p.0->Rename_from@
            == dir@),
{
    text::lemma_trimmed_empty(typed@);
}

/// What is done to files is done to all that are selected together, else to the one that is selected
/// in the tree.
pub proof fn law_a_selection_of_several_counts(e: Explorer, selected: Option<String>, r: Vec<String>, i: int)
    requires
        call_ensures(Explorer::target_paths, (&e, &selected), r),
        0 <= i < r@.len(),
    ensures
        e.selected.items@.len() > 0 ==> r@.len() == e.selected.items@.len() && r@[i]@
            == e.selected.items@[i]@,
        e.selected.items@.len() == 0 ==> r@.len() == 1 && selected is Some && r@[0]@
            == selected->0@,
{
    let all = text::texts(r@);
    assert(all.len() == r@.len());
    assert(all[i] == r@[i]@);
    if e.selected.items@.len() > 0 {
        assert(text::texts(e.selected.items@)[i] == e.selected.items@[i]@);
    }
}

/// What was cut is pasted once, what was copied as often as wanted.
pub proof fn law_what_was_cut_is_pasted_once(e: &mut Explorer, r: Option<(Vec<String>, bool)>)
    requires
        old(e).inv(),
        call_ensures(Explorer::take_paste, (e,), r),
    ensures
        r is Some <==> old(e).clipboard is Some,
        r matches Some(p) ==> p.1 ==> final(e).clipboard is None,
        r matches Some(p) ==> !p.1 ==> final(e).clipboard == old(e).clipboard,
        r matches Some(p) ==> p.0@ == (old(e).clipboard->0).0@ && p.1 == (old(e).clipboard->0).1,
{
}

/// The last thing that was done is undone first.
pub proof fn law_the_last_thing_is_undone_first(e: &mut Explorer, r: Option<FileTask>, path: String)
    requires
        old(e).inv(),
        call_ensures(Explorer::pop_undo, (e,), r),
        old(e).undo@.len() > 0,
        old(e).undo@.last() == (UndoOp::Created { path }),
    ensures
        r matches Some(FileTask::Trash(p)) && p@ == path@,
        final(e).undo@ == old(e).undo@.drop_last(),
{
}

} // verus!
