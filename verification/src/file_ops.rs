//! File operations in the explorer of the workbench.
use vstd::prelude::*;

use crate::explorer;
use crate::explorer::{FileTask, NameOp, UndoOp};
use crate::path;
use crate::projects;
use crate::session::PersistedSession;
use crate::tabs;
use crate::tabs::OpenTab;
use crate::text;
use crate::workbench::{Overlay, Workbench};

verus! {

/// A deletion.
pub struct DeletePlan {
    /// Paths to move to the trash.
    pub paths: Vec<String>,
    /// Numbers of the editors whose tabs were closed.
    pub closed: Vec<u64>,
    /// What is to be stored, where a tab was closed.
    pub session: Option<PersistedSession>,
}

/// Pasting.
pub struct PastePlan {
    pub sources: Vec<String>,
    pub is_cut: bool,
    pub dir: String,
}

/// Whether a tab's file lies at or below one of the paths.
pub open spec fn doomed(t: OpenTab, paths: Seq<Seq<char>>) -> bool {
    exists|i: int| below_path(t, paths, i)
}

/// Whether a tab's file lies at or below path `i`.
pub open spec fn below_path(t: OpenTab, paths: Seq<Seq<char>>, i: int) -> bool {
    0 <= i < paths.len() && path::within(t.path@, paths[i])
}

/// The tabs and the one in front once those of the first `n` tabs that lie below the paths are
/// closed, from right to left.
pub open spec fn closed_down(
    all: Seq<OpenTab>,
    active: Option<usize>,
    paths: Seq<Seq<char>>,
    n: int,
) -> (Seq<OpenTab>, Option<usize>)
    decreases n,
{
    if n <= 0 {
        (all, active)
    } else if doomed(all[n - 1], paths) {
        closed_down(
            all.remove(n - 1),
            tabs::after_close(active, n - 1, all.len() - 1),
            paths,
            n - 1,
        )
    } else {
        closed_down(all, active, paths, n - 1)
    }
}

/// The numbers of those of the first `n` tabs that lie below the paths, from right to left.
pub open spec fn doomed_ids(all: Seq<OpenTab>, paths: Seq<Seq<char>>, n: int) -> Seq<u64>
    decreases n,
{
    if n <= 0 {
        Seq::empty()
    } else if doomed(all[n - 1], paths) {
        seq![all[n - 1].id] + doomed_ids(all, paths, n - 1)
    } else {
        doomed_ids(all, paths, n - 1)
    }
}

proof fn lemma_doomed_ids_of_prefix(
    a: Seq<OpenTab>,
    b: Seq<OpenTab>,
    paths: Seq<Seq<char>>,
    n: int,
)
    requires
        forall|i: int| 0 <= i < n ==> a[i] == b[i],
    ensures
        doomed_ids(a, paths, n) == doomed_ids(b, paths, n),
    decreases n,
{
    if n > 0 {
        assert(a[n - 1] == b[n - 1]);
        lemma_doomed_ids_of_prefix(a, b, paths, n - 1);
    }
}

/// What deleting says.
pub open spec fn deleted_status(n: nat) -> Seq<char> {
    "已删除 "@ + text::dec(n) + " 项(cmd+Z 撤销)"@
}

/// The undo steps of a deletion: one for each of the first `n` paths that went to the trash.
pub open spec fn trashed_ops(
    paths: Seq<String>,
    trashed: Seq<Option<String>>,
    n: int,
) -> Seq<UndoOp>
    decreases n,
{
    if n <= 0 {
        Seq::empty()
    } else {
        let rest = trashed_ops(paths, trashed, n - 1);
        match trashed[n - 1] {
            Some(t) => rest.push(UndoOp::Trashed { original: paths[n - 1], trashed: t }),
            None => rest,
        }
    }
}

/// Undoing a deletion moves each path that went to the trash back to where it was, the last one
/// first.
pub proof fn law_undo_brings_back_what_was_deleted(
    paths: Seq<String>,
    trashed: Seq<Option<String>>,
    n: int,
)
    requires
        0 < n <= trashed.len(),
        n <= paths.len(),
        trashed[n - 1] is Some,
    ensures
        ({
            let ops = trashed_ops(paths, trashed, n);
            &&& ops.len() > 0
            &&& ops.drop_last() == trashed_ops(paths, trashed, n - 1)
            &&& explorer::undo_model(ops.last()) == (explorer::TaskModel::Rename {
                from: trashed[n - 1]->0@,
                to: paths[n - 1]@,
            })
        }),
{
    assert(trashed_ops(paths, trashed, n).drop_last() =~= trashed_ops(paths, trashed, n - 1));
}

/// The undo step of a pasted path.
pub fn paste_undo(is_cut: bool, from: String, to: String) -> (op: UndoOp)
    ensures
        op == (if is_cut {
            UndoOp::Moved { from, to }
        } else {
            UndoOp::Created { path: to }
        }),
{
    if is_cut {
        UndoOp::Moved { from, to }
    } else {
        UndoOp::Created { path: to }
    }
}

fn is_doomed(t: &OpenTab, paths: &Vec<String>) -> (r: bool)
    ensures
        r == doomed(*t, text::texts(paths@)),
{
    let ghost all = text::texts(paths@);
    let mut i: usize = 0;
    while i < paths.len()
        invariant
            i <= paths@.len(),
            all == text::texts(paths@),
            forall|j: int| 0 <= j < i ==> !below_path(*t, all, j),
        decreases paths@.len() - i,
    {
        assert(all[i as int] == paths@[i as int]@);
        if path::starts_with(t.path.as_str(), paths[i].as_str()) {
            assert(below_path(*t, all, i as int));
            return true;
        }
        i += 1;
    }
    false
}

impl Workbench {
    fn ask_name(&mut self, title: &str, op: NameOp)
        requires
            old(self).inv(),
        ensures
            final(self).inv(),
            *final(self) == (Self { overlay: final(self).overlay, ..*old(self) }),
            final(self).overlay matches Some(Overlay::NameInput { title: t, op: o }) && t@ == title@
                && o == op,
    {
        self.overlay = Some(Overlay::NameInput { title: title.to_owned(), op });
    }

    /// Asks for the name of a new file, beside what is selected in the tree.
    pub fn on_new_file(&mut self, selected: &Option<String>, is_dir: bool)
        requires
            old(self).inv(),
        ensures
            final(self).inv(),
            *final(self) == (Self { overlay: final(self).overlay, ..*old(self) }),
            final(self).overlay matches Some(Overlay::NameInput { title, op }) && title@
                == "新建文件"@ && op is NewFile && op->NewFile_0@ == explorer::dir_for(
                text::opt_text(*selected),
                is_dir,
                old(self).project_root@,
            ),
    {
        let dir = explorer::selected_dir(selected, is_dir, self.project_root.as_str());
        self.ask_name("新建文件", NameOp::NewFile(dir));
    }

    /// Asks for the name of a new folder, beside what is selected in the tree.
    pub fn on_new_folder(&mut self, selected: &Option<String>, is_dir: bool)
        requires
            old(self).inv(),
        ensures
            final(self).inv(),
            *final(self) == (Self { overlay: final(self).overlay, ..*old(self) }),
            final(self).overlay matches Some(Overlay::NameInput { title, op }) && title@
                == "新建文件夹"@ && op is NewFolder && op->NewFolder_0@ == explorer::dir_for(
                text::opt_text(*selected),
                is_dir,
                old(self).project_root@,
            ),
    {
        let dir = explorer::selected_dir(selected, is_dir, self.project_root.as_str());
        self.ask_name("新建文件夹", NameOp::NewFolder(dir));
    }

    /// Asks for a new name for what is selected in the tree. Gives the name that it has.
    pub fn on_rename_item(&mut self, selected: &Option<String>) -> (r: Option<String>)
        requires
            old(self).inv(),
        ensures
            final(self).inv(),
            r is Some <==> *selected is Some,
            r is None ==> *final(self) == *old(self),
            r matches Some(name) ==> {
                let p = (*selected)->0;
                &&& name@ == (match path::name_of(p@) {
                    Some(n) => n,
                    None => Seq::empty(),
                })
                &&& *final(self) == (Self { overlay: final(self).overlay, ..*old(self) })
                &&& final(self).overlay matches Some(Overlay::NameInput { title, op }) && title@
                    == "重命名"@ && op == NameOp::Rename(p)
            },
    {
        match selected {
            None => None,
            Some(p) => {
                let name = match path::file_name(p.as_str()) {
                    Some(n) => n,
                    None => String::new(),
                };
                assert(path::name_of(p@) is None ==> name@ =~= Seq::<char>::empty());
                self.ask_name("重命名", NameOp::Rename(p.clone()));
                Some(name)
            },
        }
    }

    /// Whether closing tabs led from `before` to `after`, from right to left.
    pub open spec fn closes_below(before: Self, after: Self, paths: Seq<Seq<char>>) -> bool {
        let all = before.tabs.tabs@;
        let down = closed_down(all, before.tabs.active, paths, all.len() as int);
        &&& after.tabs.tabs@ == down.0
        &&& after.tabs.active == down.1
        &&& after.tabs.next_id == before.tabs.next_id
    }

    fn close_below(&mut self, paths: &Vec<String>) -> (r: (Vec<u64>, Option<PersistedSession>))
        requires
            old(self).inv(),
        ensures
            final(self).inv(),
            *final(self) == (Self {
                tabs: final(self).tabs,
                projects: final(self).projects,
                ..*old(self)
            }),
            Self::closes_below(*old(self), *final(self), text::texts(paths@)),
            r.1 is None ==> *final(self) == *old(self) && r.0@.len() == 0,
            r.1 matches Some(s) ==> final(self).noted_in(old(self).projects) && s@ == final(
                self).projects.stored_model() && r.0@.len() > 0,
            r.0@ == doomed_ids(
                old(self).tabs.tabs@,
                text::texts(paths@),
                old(self).tabs.tabs@.len() as int,
            ),
    {
        let ghost ps = text::texts(paths@);
        let mut closed: Vec<u64> = Vec::new();
        let mut session: Option<PersistedSession> = None;
        let mut n: usize = self.tabs.tabs.len();
        let ghost all = self.tabs.tabs@;
        let ghost goal = closed_down(all, self.tabs.active, ps, all.len() as int);
        let ghost ids = doomed_ids(all, ps, all.len() as int);
        assert(Seq::<u64>::empty() + ids =~= ids);
        while n > 0
            invariant
                self.inv(),
                n <= self.tabs.tabs@.len(),
                ps == text::texts(paths@),
                closed_down(self.tabs.tabs@, self.tabs.active, ps, n as int) == goal,
                self.tabs.next_id == old(self).tabs.next_id,
                *self == (Self { tabs: self.tabs, projects: self.projects, ..*old(self) }),
                session is None ==> *self == *old(self) && closed@.len() == 0,
                session matches Some(s) ==> self.noted_in(old(self).projects) && s@
                    == self.projects.stored_model() && closed@.len() > 0,
                closed@ + doomed_ids(self.tabs.tabs@, ps, n as int) == ids,
            decreases n,
        {
            if is_doomed(&self.tabs.tabs[n - 1], paths) {
                let ghost before = *self;
                let ghost had = closed@;
                match self.close_tab_at(n - 1) {
                    Some((id, s)) => {
                        proof {
                            lemma_doomed_ids_of_prefix(
                                before.tabs.tabs@,
                                self.tabs.tabs@,
                                ps,
                                n - 1,
                            );
                            if session is Some {
                                projects::law_the_later_state_counts(
                                    old(self).projects.models(),
                                    before.slot(),
                                    self.slot(),
                                );
                            }
                        }
                        closed.push(id);
                        assert(had + (seq![id] + doomed_ids(self.tabs.tabs@, ps, n - 1))
                            =~= closed@ + doomed_ids(self.tabs.tabs@, ps, n - 1));
                        session = Some(s);
                    },
                    None => {},
                }
            }
            n -= 1;
        }
        assert(closed@ =~= ids);
        (closed, session)
    }

    /// Deletes what is selected: closes the tabs of what goes.
    pub fn on_delete_item(&mut self, selected: &Option<String>) -> (r: Option<DeletePlan>)
        requires
            old(self).inv(),
        ensures
            final(self).inv(),
            ({
                let targets = old(self).explorer.targets(text::opt_text(*selected));
                &&& r is Some <==> targets.len() > 0
                &&& r is None ==> *final(self) == *old(self)
                &&& r matches Some(d) ==> {
                    &&& text::texts(d.paths@) == targets
                    &&& Self::closes_below(*old(self), *final(self), targets)
                    &&& d.closed@ == doomed_ids(
                        old(self).tabs.tabs@,
                        targets,
                        old(self).tabs.tabs@.len() as int,
                    )
                    &&& final(self).status@ == deleted_status(targets.len())
                    &&& final(self).explorer.selected@ == Set::<Seq<char>>::empty()
                    &&& final(self).explorer.clipboard == old(self).explorer.clipboard
                    &&& final(self).explorer.undo == old(self).explorer.undo
                    &&& *final(self) == (Self {
                        tabs: final(self).tabs,
                        projects: final(self).projects,
                        status: final(self).status,
                        explorer: final(self).explorer,
                        ..*old(self)
                    })
                    &&& d.session is Some <==> d.closed@.len() > 0
                    &&& d.session is None ==> final(self).projects == old(self).projects
                    &&& d.session matches Some(s) ==> final(self).noted_in(old(self).projects)
                        && s@ == final(self).projects.stored_model()
                }
            }),
    {
        let paths = self.explorer.target_paths(selected);
        assert(text::texts(paths@).len() == paths@.len());
        if paths.len() == 0 {
            return None;
        }
        let (closed, session) = self.close_below(&paths);
        self.status = text::cat3(
            "已删除 ",
            text::dec_usize(paths.len()).as_str(),
            " 项(cmd+Z 撤销)",
        );
        let _ = self.explorer.clear_multi_select();
        Some(DeletePlan { paths, closed, session })
    }

    /// The deletion is over: `trashed` says where each path went, or that it could not be moved.
    pub fn delete_done(&mut self, paths: &Vec<String>, trashed: &Vec<Option<String>>)
        requires
            old(self).inv(),
            paths@.len() == trashed@.len(),
        ensures
            final(self).inv(),
            *final(self) == (Self { explorer: final(self).explorer, ..*old(self) }),
            final(self).explorer.selected == old(self).explorer.selected,
            final(self).explorer.clipboard == old(self).explorer.clipboard,
            final(self).explorer.undo@ == old(self).explorer.undo@ + trashed_ops(
                paths@,
                trashed@,
                paths@.len() as int,
            ),
    {
        let mut undos: Vec<UndoOp> = Vec::new();
        let mut i: usize = 0;
        while i < paths.len()
            invariant
                i <= paths@.len(),
                paths@.len() == trashed@.len(),
                undos@ == trashed_ops(paths@, trashed@, i as int),
            decreases paths@.len() - i,
        {
            match &trashed[i] {
                Some(t) => {
                    undos.push(UndoOp::Trashed { original: paths[i].clone(), trashed: t.clone() });
                },
                None => {},
            }
            i += 1;
        }
        self.explorer.remember(undos);
    }

    /// Takes the last file operation back.
    pub fn on_undo_file_op(&mut self) -> (r: Option<FileTask>)
        requires
            old(self).inv(),
        ensures
            final(self).inv(),
            *final(self) == (Self {
                status: final(self).status,
                explorer: final(self).explorer,
                ..*old(self)
            }),
            final(self).explorer.selected == old(self).explorer.selected,
            final(self).explorer.clipboard == old(self).explorer.clipboard,
            r is Some <==> old(self).explorer.undo@.len() > 0,
            r is None ==> final(self).explorer.undo@ == old(self).explorer.undo@ && final(
                self).status@ == "没有可撤销的文件操作"@,
            r matches Some(t) ==> final(self).explorer.undo@ == old(
                self,
            ).explorer.undo@.drop_last() && explorer::task_model(t) == explorer::undo_model(
                old(self).explorer.undo@.last(),
            ) && final(self).status@ == "撤销中…"@,
    {
        match self.explorer.pop_undo() {
            None => {
                self.status = "没有可撤销的文件操作".to_owned();
                None
            },
            Some(t) => {
                self.status = "撤销中…".to_owned();
                Some(t)
            },
        }
    }

    /// The operation was taken back.
    pub fn undo_done(&mut self)
        ensures
            *final(self) == (Self { status: final(self).status, ..*old(self) }),
            final(self).status@ == "已撤销"@,
    {
        self.status = "已撤销".to_owned();
    }

    /// Copies the path of what is selected in the tree: the text for the clipboard.
    pub fn on_copy_path(&mut self, selected: &Option<String>) -> (r: Option<String>)
        ensures
            r == *selected,
            r is None ==> *final(self) == *old(self),
            r is Some ==> *final(self) == (Self { status: final(self).status, ..*old(self) })
                && final(self).status@ == "已复制路径"@,
    {
        match selected {
            None => None,
            Some(p) => {
                self.status = "已复制路径".to_owned();
                Some(p.clone())
            },
        }
    }

    /// Copies or cuts what is selected: whether there was something.
    pub fn on_copy_or_cut(&mut self, selected: &Option<String>, cut: bool) -> (r: bool)
        requires
            old(self).inv(),
        ensures
            final(self).inv(),
            ({
                let targets = old(self).explorer.targets(text::opt_text(*selected));
                &&& r == (targets.len() > 0)
                &&& *final(self) == (Self {
                    status: final(self).status,
                    explorer: final(self).explorer,
                    ..*old(self)
                })
                &&& final(self).explorer.selected == old(self).explorer.selected
                &&& final(self).explorer.undo == old(self).explorer.undo
                &&& !r ==> final(self).status == old(self).status && final(
                    self).explorer.clipboard == old(self).explorer.clipboard
                &&& r ==> {
                    &&& final(self).explorer.clipboard is Some
                    &&& text::texts((final(self).explorer.clipboard->0).0@) == targets
                    &&& (final(self).explorer.clipboard->0).1 == cut
                    &&& final(self).status@ == (if cut {
                        "已剪切 "@
                    } else {
                        "已复制 "@
                    }) + text::dec(targets.len()) + " 项"@
                }
            }),
    {
        match self.explorer.to_clipboard(selected, cut) {
            Some(status) => {
                self.status = status;
                true
            },
            None => false,
        }
    }

    /// Pastes beside what is selected in the tree. What is moved can be pasted only once.
    pub fn on_paste_item(&mut self, selected: &Option<String>, is_dir: bool) -> (r: Option<
        PastePlan,
    >)
        requires
            old(self).inv(),
        ensures
            final(self).inv(),
            r is Some <==> old(self).explorer.clipboard is Some,
            r is None ==> *final(self) == *old(self),
            r matches Some(p) ==> {
                let clip = old(self).explorer.clipboard->0;
                &&& p.sources@ == clip.0@
                &&& p.is_cut == clip.1
                &&& p.dir@ == explorer::dir_for(
                    text::opt_text(*selected),
                    is_dir,
                    old(self).project_root@,
                )
                &&& *final(self) == (Self {
                    status: final(self).status,
                    explorer: final(self).explorer,
                    ..*old(self)
                })
                &&& final(self).explorer.selected == old(self).explorer.selected
                &&& final(self).explorer.undo == old(self).explorer.undo
                &&& final(self).explorer.clipboard == (if p.is_cut {
                    None
                } else {
                    old(self).explorer.clipboard
                })
                &&& final(self).status@ == (if p.is_cut {
                    "正在移动…"@
                } else {
                    "正在粘贴…"@
                })
            },
    {
        match self.explorer.take_paste() {
            None => {
                assert(self.explorer == old(self).explorer);
                None
            },
            Some((sources, is_cut)) => {
                let dir = explorer::selected_dir(selected, is_dir, self.project_root.as_str());
                self.status = (if is_cut {
                    "正在移动…"
                } else {
                    "正在粘贴…"
                }).to_owned();
                Some(PastePlan { sources, is_cut, dir })
            },
        }
    }

    /// The pasting is over.
    pub fn paste_done(&mut self, undos: Vec<UndoOp>, is_cut: bool)
        requires
            old(self).inv(),
        ensures
            final(self).inv(),
            *final(self) == (Self {
                status: final(self).status,
                explorer: final(self).explorer,
                ..*old(self)
            }),
            final(self).status@.len() == 0,
            final(self).explorer.undo@ == old(self).explorer.undo@ + undos@,
            final(self).explorer.clipboard == old(self).explorer.clipboard,
            is_cut ==> final(self).explorer.selected@ == Set::<Seq<char>>::empty(),
            !is_cut ==> final(self).explorer.selected == old(self).explorer.selected,
    {
        self.status = String::new();
        self.explorer.pasted(undos, is_cut);
    }

    /// The typed name is confirmed: closes the input and gives what to do and what takes it back.
    /// A blank name is not taken.
    pub fn confirm_name_input(&mut self, typed: &str) -> (r: Option<(FileTask, UndoOp)>)
        requires
            old(self).inv(),
        ensures
            final(self).inv(),
            r is Some <==> (old(self).overlay matches Some(Overlay::NameInput { title, op }))
                && !text::all_white(typed@),
            r is None ==> *final(self) == *old(self),
            r matches Some(p) ==> {
                &&& *final(self) == (Self { overlay: None, ..*old(self) })
                &&& explorer::carries_out(old(self).overlay->0->op, text::trimmed(typed@), p.0, p.1)
            },
    {
        let task = match &self.overlay {
            Some(Overlay::NameInput { title: _, op }) => explorer::name_task(op, typed),
            _ => None,
        };
        if task.is_some() {
            self.overlay = None;
        }
        task
    }

    /// The named task is over; `undo` takes it back where it was done.
    pub fn name_done(&mut self, undo: Option<UndoOp>)
        requires
            old(self).inv(),
        ensures
            final(self).inv(),
            *final(self) == (Self { explorer: final(self).explorer, ..*old(self) }),
            final(self).explorer.selected == old(self).explorer.selected,
            final(self).explorer.clipboard == old(self).explorer.clipboard,
            final(self).explorer.undo@ == (match undo {
                Some(u) => old(self).explorer.undo@.push(u),
                None => old(self).explorer.undo@,
            }),
    {
        if let Some(u) = undo {
            self.explorer.undo.push(u);
        }
    }
}

proof fn lemma_closed_down(
    all: Seq<OpenTab>,
    active: Option<usize>,
    paths: Seq<Seq<char>>,
    n: int,
)
    requires
        0 <= n <= all.len(),
        active matches Some(a) ==> a < all.len(),
    ensures
        closed_down(all, active, paths, n).0 == all.take(n).filter(
            |t: OpenTab| !doomed(t, paths),
        ) + all.skip(n),
        active matches Some(a) ==> !doomed(all[a as int], paths) ==> {
            let down = closed_down(all, active, paths, n);
            down.1 is Some && (down.1->0) < down.0.len() && down.0[down.1->0 as int]
                == all[a as int]
        },
    decreases n,
{
    reveal(Seq::filter);
    let keep = |t: OpenTab| !doomed(t, paths);
    if n == 0 {
        assert(all.take(0).filter(keep) =~= Seq::<OpenTab>::empty());
        assert(all.take(0).filter(keep) + all.skip(0) =~= all);
    } else if doomed(all[n - 1], paths) {
        let less = all.remove(n - 1);
        lemma_closed_down(
            less,
            tabs::after_close(active, n - 1, all.len() - 1),
            paths,
            n - 1,
        );
        assert(less.take(n - 1) =~= all.take(n - 1));
        assert(less.skip(n - 1) =~= all.skip(n));
        assert(all.take(n).drop_last() =~= all.take(n - 1));
        assert(all.take(n).last() == all[n - 1]);
        assert(all.take(n).filter(keep) =~= all.take(n - 1).filter(keep));
    } else {
        lemma_closed_down(all, active, paths, n - 1);
        assert(all.take(n).drop_last() =~= all.take(n - 1));
        assert(all.take(n).last() == all[n - 1]);
        assert(all.take(n).filter(keep) =~= all.take(n - 1).filter(keep).push(all[n - 1]));
        assert(all.take(n - 1).filter(keep) + all.skip(n - 1) =~= all.take(n).filter(keep)
            + all.skip(n));
    }
}

/// Deleting closes exactly the tabs of files that go, and where the tab in front stays, it stays in
/// front.
pub proof fn law_deleting_closes_exactly_what_goes(
    all: Seq<OpenTab>,
    active: Option<usize>,
    paths: Seq<Seq<char>>,
)
    requires
        active matches Some(a) ==> a < all.len(),
    ensures
        ({
            let down = closed_down(all, active, paths, all.len() as int);
            &&& down.0 == all.filter(|t: OpenTab| !doomed(t, paths))
            &&& active matches Some(a) ==> !doomed(all[a as int], paths) ==> down.1 is Some && (
            down.1->0) < down.0.len() && down.0[down.1->0 as int] == all[a as int]
        }),
{
    lemma_closed_down(all, active, paths, all.len() as int);
    let keep = |t: OpenTab| !doomed(t, paths);
    assert(all.take(all.len() as int) =~= all);
    assert(all.filter(keep) + all.skip(all.len() as int) =~= all.filter(keep));
}

/// What is deleted closes with it the tabs of files that lie there, and leaves the others in order; what
/// was in front stays in front where it is left.
pub proof fn law_deleting_closes_what_lies_there(w: &mut Workbench, selected: Option<String>, r: Option<DeletePlan>, p: String, i: int)
    requires
        old(w).inv(),
        call_ensures(Workbench::on_delete_item, (w, &selected), r),
        old(w).explorer.selected.items@.len() == 0,
        selected == Some(p),
        0 <= i < old(w).tabs.tabs@.len(),
    ensures
        r matches Some(d) && d.paths@.len() == 1 && d.paths@[0]@ == p@,
        path::within(old(w).tabs.tabs@[i].path@, p@) ==> !final(w).tabs.tabs@.contains(
            old(w).tabs.tabs@[i],
        ),
        !path::within(old(w).tabs.tabs@[i].path@, p@) ==> final(w).tabs.tabs@.contains(
            old(w).tabs.tabs@[i],
        ),
{
    let paths = seq![p@];
    let all = old(w).tabs.tabs@;
    assert(old(w).explorer.targets(text::opt_text(selected)) == paths);
    let d = r->0;
    assert(text::texts(d.paths@) == paths);
    assert(text::texts(d.paths@).len() == d.paths@.len());
    assert(text::texts(d.paths@)[0] == d.paths@[0]@);
    law_deleting_closes_exactly_what_goes(all, old(w).tabs.active, paths);
    let keep = |t: OpenTab| !doomed(t, paths);
    let left = all.filter(keep);
    assert(final(w).tabs.tabs@ == left);
    let t = all[i];
    assert(doomed(t, paths) <==> path::within(t.path@, p@)) by {
        if path::within(t.path@, p@) {
            assert(below_path(t, paths, 0));
        }
    }
    lemma_filtered(all, keep, i);
}

proof fn lemma_filtered(all: Seq<OpenTab>, keep: spec_fn(OpenTab) -> bool, i: int)
    requires
        0 <= i < all.len(),
    ensures
        all.filter(keep).contains(all[i]) <==> keep(all[i]),
    decreases all.len(),
{
    reveal(Seq::filter);
    lemma_filtered_keep(all, keep);
    if keep(all[i]) {
        let init = all.drop_last();
        if i < init.len() {
            lemma_filtered(init, keep, i);
            let rest = init.filter(keep);
            let k = rest.index_of(all[i]);
            assert(all.filter(keep)[k] == all[i]);
        } else {
            assert(all.filter(keep).last() == all[i]);
        }
    }
}

proof fn lemma_filtered_keep(all: Seq<OpenTab>, keep: spec_fn(OpenTab) -> bool)
    ensures
        forall|k: int| 0 <= k < all.filter(keep).len() ==> keep(#[trigger] all.filter(keep)[k]),
    decreases all.len(),
{
    reveal(Seq::filter);
    if all.len() > 0 {
        lemma_filtered_keep(all.drop_last(), keep);
    }
}

/// What is copied or cut is pasted into the folder that is selected, or that of the selected file.
pub proof fn law_pasting_goes_where_the_selection_is(
    w: &mut Workbench,
    selected: Option<String>,
    is_dir: bool,
    r: Option<PastePlan>,
    dir: Seq<char>,
    n: Seq<char>,
)
    requires
        old(w).inv(),
        call_ensures(Workbench::on_paste_item, (w, &selected, is_dir), r),
        dir.len() > 0,
        dir.last() != '/',
        dir.last() != '.',
        path::is_name(n),
        text::opt_text(selected) == Some(path::joined_path(dir, n)),
        old(w).explorer.clipboard is Some,
    ensures
        r matches Some(p) && p.sources@ == (old(w).explorer.clipboard->0).0@ && p.is_cut == (old(
            w,
        ).explorer.clipboard->0).1 && (!is_dir ==> p.dir@ == dir) && (is_dir ==> p.dir@
            == path::joined_path(dir, n)),
{
    path::law_the_folder_of_what_lies_in_it(dir, n);
}

/// What was pasted can be taken back: what was cut goes back to where it was, what was copied is
/// deleted.
pub proof fn law_pasting_can_be_taken_back(from: String, to: String, cut: UndoOp, copied: UndoOp)
    requires
        call_ensures(paste_undo, (true, from, to), cut),
        call_ensures(paste_undo, (false, from, to), copied),
    ensures
        explorer::undo_model(cut) == (explorer::TaskModel::Rename { from: to@, to: from@ }),
        explorer::undo_model(copied) == explorer::TaskModel::Trash(to@),
{
}

/// What was deleted last comes back first: the task leads from the trash to where it was.
pub proof fn law_deleting_can_be_taken_back(
    w: &mut Workbench,
    v: &mut Workbench,
    p: Vec<String>,
    t: Vec<Option<String>>,
    to: String,
    r: Option<FileTask>,
)
    requires
        old(w).inv(),
        p@.len() == 1,
        t@.len() == 1,
        t@[0] == Some(to),
        call_ensures(Workbench::delete_done, (w, &p, &t), ()),
        *old(v) == *final(w),
        call_ensures(Workbench::on_undo_file_op, (v,), r),
    ensures
        r matches Some(task) && task matches FileTask::Rename { from: a, to: b } && a@ == to@ && b@
            == p@[0]@,
        final(v).explorer.undo@ == old(w).explorer.undo@,
{
    law_undo_brings_back_what_was_deleted(p@, t@, 1);
    let ops = trashed_ops(p@, t@, 1);
    assert(trashed_ops(p@, t@, 0) =~= Seq::<UndoOp>::empty());
    assert(ops.len() == 1);
    let all = old(w).explorer.undo@ + ops;
    assert(final(w).explorer.undo@ == all);
    assert(all.last() == ops.last());
    assert(all.drop_last() =~= old(w).explorer.undo@);
}

/// A name that was typed names a file, a folder or the new name of what is selected, and what it did can
/// be taken back.
pub proof fn law_names_do_what_was_asked(
    w: &mut Workbench,
    v: &mut Workbench,
    selected: Option<String>,
    is_dir: bool,
    name: &str,
    r: Option<(FileTask, UndoOp)>,
    s: String,
)
    requires
        old(w).inv(),
        selected == Some(s),
        is_dir,
        text::trimmed(name@) == name@,
        name@.len() > 0,
        call_ensures(Workbench::on_new_folder, (w, &selected, is_dir), ()),
        *old(v) == *final(w),
        call_ensures(Workbench::confirm_name_input, (v, name), r),
    ensures
        r matches Some(x) && x.0 matches FileTask::CreateDir(p) && p@ == path::joined_path(s@, name@)
            && explorer::undo_model(x.1) == explorer::TaskModel::Trash(path::joined_path(s@, name@)),
        final(v).overlay is None,
{
    text::lemma_trimmed_empty(name@);
}

/// A file is made where the selection is, under the name that was typed.
pub proof fn law_new_files_are_made_where_the_selection_is(
    w: &mut Workbench,
    v: &mut Workbench,
    selected: Option<String>,
    name: &str,
    r: Option<(FileTask, UndoOp)>,
    dir: Seq<char>,
    n: Seq<char>,
)
    requires
        old(w).inv(),
        dir.len() > 0,
        dir.last() != '/',
        dir.last() != '.',
        path::is_name(n),
        text::opt_text(selected) == Some(path::joined_path(dir, n)),
        text::trimmed(name@) == name@,
        name@.len() > 0,
        call_ensures(Workbench::on_new_file, (w, &selected, false), ()),
        *old(v) == *final(w),
        call_ensures(Workbench::confirm_name_input, (v, name), r),
    ensures
        r matches Some(x) && x.0 matches FileTask::CreateFile(p) && p@ == path::joined_path(dir, name@),
{
    text::lemma_trimmed_empty(name@);
    path::law_the_folder_of_what_lies_in_it(dir, n);
}

/// Renaming begins with the name that is there.
pub proof fn law_renaming_begins_with_the_name(
    w: &mut Workbench,
    selected: Option<String>,
    r: Option<String>,
    dir: Seq<char>,
    n: Seq<char>,
)
    requires
        old(w).inv(),
        dir.len() > 0,
        path::is_name(n),
        n != seq!['.', '.'],
        text::opt_text(selected) == Some(path::joined_path(dir, n)),
        call_ensures(Workbench::on_rename_item, (w, &selected), r),
    ensures
        r matches Some(t) && t@ == n,
        final(w).overlay is Some,
{
    path::law_a_name_below_a_folder(dir, n);
}

/// What is copied or cut is what is selected, and can be pasted; cutting is remembered.
pub proof fn law_what_is_copied_can_be_pasted(
    w: &mut Workbench,
    v: &mut Workbench,
    selected: Option<String>,
    cut: bool,
    done: bool,
    is_dir: bool,
    r: Option<PastePlan>,
    p: String,
)
    requires
        old(w).inv(),
        old(w).explorer.selected.items@.len() == 0,
        selected == Some(p),
        call_ensures(Workbench::on_copy_or_cut, (w, &selected, cut), done),
        *old(v) == *final(w),
        call_ensures(Workbench::on_paste_item, (v, &selected, is_dir), r),
    ensures
        done,
        r matches Some(x) && x.sources@.len() == 1 && x.sources@[0]@ == p@ && x.is_cut == cut,
        final(v).explorer.clipboard is None <==> cut,
{
    let clip = final(w).explorer.clipboard->0;
    let t = text::texts(clip.0@);
    assert(old(w).explorer.targets(text::opt_text(selected)) == seq![p@]);
    assert(t.len() == clip.0@.len());
    assert(t[0] == clip.0@[0]@);
}

/// The tabs that close with what is deleted are told, each of them and no other.
pub proof fn law_closed_tabs_are_told(
    w: &mut Workbench,
    selected: Option<String>,
    r: Option<DeletePlan>,
    p: String,
    i: int,
)
    requires
        old(w).inv(),
        call_ensures(Workbench::on_delete_item, (w, &selected), r),
        old(w).explorer.selected.items@.len() == 0,
        selected == Some(p),
        0 <= i < old(w).tabs.tabs@.len(),
    ensures
        r matches Some(d) && (d.closed@.contains(old(w).tabs.tabs@[i].id) <==> path::within(
            old(w).tabs.tabs@[i].path@,
            p@,
        )),
{
    let paths = seq![p@];
    let all = old(w).tabs.tabs@;
    assert(old(w).explorer.targets(text::opt_text(selected)) == paths);
    lemma_doomed(all, paths, all.len() as int, i);
    let t = all[i];
    if path::within(t.path@, p@) {
        assert(below_path(t, paths, 0));
    }
}

proof fn lemma_doomed(all: Seq<OpenTab>, paths: Seq<Seq<char>>, n: int, i: int)
    requires
        0 <= n <= all.len(),
        0 <= i < all.len(),
        forall|j: int, k: int|
            #![trigger all[j], all[k]]
            0 <= j < k < all.len() ==> all[j].id != all[k].id,
    ensures
        doomed_ids(all, paths, n).contains(all[i].id) <==> i < n && doomed(all[i], paths),
    decreases n,
{
    if n > 0 {
        lemma_doomed(all, paths, n - 1, i);
        let rest = doomed_ids(all, paths, n - 1);
        let ids = doomed_ids(all, paths, n);
        let id = all[i].id;
        if doomed(all[n - 1], paths) {
            assert(ids[0] == all[n - 1].id);
            if rest.contains(id) {
                let k = rest.index_of(id);
                assert(ids[k + 1] == id);
            }
            if ids.contains(id) {
                let k = ids.index_of(id);
                if k > 0 {
                    assert(rest[k - 1] == id);
                } else if i < n - 1 {
                    assert(all[i].id != all[n - 1].id);
                } else if i > n - 1 {
                    assert(all[n - 1].id != all[i].id);
                }
            }
        }
    }
}

} // verus!
