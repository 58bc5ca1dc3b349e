//! The workbench: the open project with its tabs, tree and history, and moving between projects.
use vstd::prelude::*;

use crate::explorer::{Explorer, NameOp};
use crate::git_marks::GitMarks;
use crate::goto::JdtSource;
use crate::nav::{NavArchive, NavLoc, NavState};
use crate::order;
use crate::path;
use crate::path_map::PathMap;
use crate::projects;
use crate::projects::ProjectList;
use crate::session::{EditorSettings, PersistedSession, ProjectModel, ProjectSession};
use crate::stall::Op;
use crate::string_set::StringSet;
use crate::tabs;
use crate::tabs::{OpenTab, TabSet};
use crate::text;
use crate::tree;
use crate::tree::{FileNode, TreeItem};
use crate::welcome::RecentEntry;

verus! {

/// What the side bar shows.
#[derive(Clone, Copy, Debug, PartialEq, Eq, Structural)]
pub enum SidebarView {
    Files,
    Commit,
    Git,
    Maven,
}

impl SidebarView {
    /// The title of the view.
    pub open spec fn title_of(self) -> Seq<char> {
        match self {
            SidebarView::Files => "资源管理器"@,
            SidebarView::Commit => "源代码管理"@,
            SidebarView::Git => "Git 图"@,
            SidebarView::Maven => "Maven"@,
        }
    }

    /// The title of the view.
    pub fn title(&self) -> (r: &'static str)
        ensures
            r@ == self.title_of(),
    {
        match self {
            SidebarView::Files => "资源管理器",
            SidebarView::Commit => "源代码管理",
            SidebarView::Git => "Git 图",
            SidebarView::Maven => "Maven",
        }
    }
}

/// The pages of the bottom panel.
#[derive(Clone, Copy, Debug, PartialEq, Eq, Structural)]
pub enum PanelTab {
    Problems,
    Terminal,
    Output,
}

/// How far the Java language server of the project is.
#[derive(Clone, Copy, Debug, PartialEq, Eq, Structural)]
pub enum LspPhase {
    /// Not started.
    Off,
    Starting,
    /// Connected and indexing, with the percentage where it is known.
    Indexing(Option<u8>),
    Ready,
    Failed,
}

/// What lies over the workbench.
pub enum Overlay {
    QuickOpen,
    Search,
    Diff,
    Usages,
    Merge,
    Recents,
    Settings,
    /// A name is being typed.
    NameInput { title: String, op: NameOp },
}

/// When Shift was pressed alone, and whether it is held.
pub struct DoubleShift {
    pub last: Option<u64>,
    pub held: bool,
}

/// The workbench.
pub struct Workbench {
    pub project_root: String,
    pub project_name: String,
    pub sidebar_view: SidebarView,
    pub explorer: Explorer,
    pub lsp_phase: LspPhase,
    pub nav: NavState,
    pub nav_archive: NavArchive,
    pub tabs: TabSet,
    /// The tabs of the project are still being read.
    pub restoring_tabs: bool,
    /// All files of the project.
    pub all_files: Vec<String>,
    pub recents: Vec<RecentEntry>,
    pub overlay: Option<Overlay>,
    pub settings: EditorSettings,
    pub md_preview: bool,
    /// Number of the last change that waits to be shown in the preview.
    pub md_seq: u64,
    /// The terminal was started.
    pub has_terminal: bool,
    /// The bottom panel is shown.
    pub terminal_visible: bool,
    pub panel_tab: PanelTab,
    /// Directories that are expanded in the tree.
    pub expanded: StringSet,
    /// Trees that were read, by project.
    pub tree_cache: PathMap<FileNode>,
    /// Where the sources of library classes came from, by file.
    pub jdt_sources: PathMap<JdtSource>,
    pub git_marks: GitMarks,
    pub projects: ProjectList,
    pub status: String,
    /// The last work on the main thread.
    pub last_op: Option<Op>,
    pub shift: DoubleShift,
}

/// The tree of the explorer: its entries, and the one to select.
pub struct TreeView {
    pub items: Vec<TreeItem>,
    /// Path and title.
    pub selected: Option<(String, String)>,
}

/// What loading a project asks for besides the new state.
pub struct LoadPlan {
    /// The project whose watcher is to be stopped.
    pub stop_watcher: String,
    /// The project whose language server is to be stopped.
    pub stop_lsp: Option<String>,
    /// What to show until the tree is read again.
    pub tree: TreeView,
    /// Projects whose trees are to be read ahead.
    pub prewarm: Vec<String>,
}

/// Whether `v` shows the tree `node`, with the tab in front selected.
pub open spec fn shows_tree(
    v: TreeView,
    node: Option<FileNode>,
    expanded: Set<Seq<char>>,
    front: Option<OpenTab>,
) -> bool {
    &&& tree::item_models(v.items@) == (match node {
        Some(n) => tree::shown_tree(n, expanded),
        None => Seq::empty(),
    })
    &&& v.selected is Some <==> front is Some
    &&& v.selected matches Some(s) ==> s.0@ == (front->0).path@ && s.1@ == (front->0).title@
}

/// The projects whose trees are to be read ahead: those that are neither open nor read yet.
pub open spec fn to_prewarm(
    all: Seq<ProjectModel>,
    root: Seq<char>,
    cached: Map<Seq<Seq<char>>, FileNode>,
) -> Seq<Seq<char>>
    decreases all.len(),
{
    if all.len() == 0 {
        Seq::empty()
    } else {
        let rest = to_prewarm(all.drop_last(), root, cached);
        let p = all.last().path;
        if path::same(p, root) || cached.contains_key(path::components(p)) {
            rest
        } else {
            rest.push(p)
        }
    }
}

impl Workbench {
    /// All parts are well formed.
    pub open spec fn inv(self) -> bool {
        &&& self.explorer.inv()
        &&& self.nav.inv()
        &&& self.nav_archive.inv()
        &&& self.tabs.inv()
        &&& self.expanded.inv()
        &&& self.tree_cache.inv()
        &&& self.jdt_sources.inv()
        &&& self.projects.inv()
    }

    /// There is room for another tab.
    pub open spec fn has_room(self) -> bool {
        self.tabs.next_id < u64::MAX && self.tabs.tabs@.len() < usize::MAX
    }

    /// A workbench without a project, which would be looked for at `root`.
    pub fn new(root: String) -> (w: Self)
        ensures
            w.inv(),
            w.has_room(),
            w.project_root == root,
            w.project_name@.len() == 0,
            w.sidebar_view is Files,
            w.lsp_phase is Off,
            w.tabs.tabs@.len() == 0,
            w.tabs.active is None,
            w.tabs.next_id == 0,
            w.nav.history@.len() == 0,
            w.nav.index == -1,
            !w.nav.restoring,
            w.nav_archive.saved@ == Map::<Seq<Seq<char>>, (Vec<NavLoc>, i32)>::empty(),
            !w.restoring_tabs,
            w.all_files@.len() == 0,
            w.recents@.len() == 0,
            w.overlay is None,
            !w.md_preview,
            w.md_seq == 0,
            !w.has_terminal,
            !w.terminal_visible,
            w.panel_tab is Terminal,
            w.expanded@ == Set::<Seq<char>>::empty(),
            w.tree_cache@ == Map::<Seq<Seq<char>>, FileNode>::empty(),
            w.jdt_sources@ == Map::<Seq<Seq<char>>, JdtSource>::empty(),
            w.explorer.undo@.len() == 0,
            w.explorer.clipboard is None,
            w.explorer.selected@ == Set::<Seq<char>>::empty(),
            w.settings.font_size == 0x4150_0000,
            w.settings.tab_size == 4,
            !w.settings.word_wrap,
            w.settings.folding,
            w.settings.maven_home@.len() == 0,
            w.settings.maven_settings@.len() == 0,
            w.settings.maven_repo@.len() == 0,
            !w.settings.maven_offline,
            forall|abs: Seq<char>| #[trigger] (w.git_marks@)(abs) is None,
            w.projects.projects@.len() == 0,
            w.projects.active == 0,
            w.status@.len() == 0,
            w.last_op is None,
            w.shift == (DoubleShift { last: None, held: false }),
    {
        Workbench {
            project_root: root,
            project_name: String::new(),
            sidebar_view: SidebarView::Files,
            explorer: Explorer::new(),
            lsp_phase: LspPhase::Off,
            nav: NavState::new(),
            nav_archive: NavArchive::new(),
            tabs: TabSet::new(),
            restoring_tabs: false,
            all_files: Vec::new(),
            recents: Vec::new(),
            overlay: None,
            settings: EditorSettings::default(),
            md_preview: false,
            md_seq: 0,
            has_terminal: false,
            terminal_visible: false,
            panel_tab: PanelTab::Terminal,
            expanded: StringSet::new(),
            tree_cache: PathMap::new(),
            jdt_sources: PathMap::new(),
            git_marks: GitMarks::new(),
            projects: ProjectList::new(),
            status: String::new(),
            last_op: None,
            shift: DoubleShift { last: None, held: false },
        }
    }

    /// Notes what the main thread begins to work on.
    pub fn mark_op(&mut self, label: String, now: u64)
        ensures
            *final(self) == (Self { last_op: Some(Op { label, started: now }), ..*old(self) }),
    {
        self.last_op = Some(Op { label, started: now });
    }

    /// The state of the open project as it is stored.
    pub open spec fn slot(self) -> ProjectModel {
        ProjectModel {
            path: self.project_root@,
            open_files: tabs::paths_of(self.tabs.tabs@),
            active_file: match self.tabs.front() {
                Some(t) => Some(t.path@),
                None => None,
            },
        }
    }

    /// The state of the open project as it is stored.
    pub fn current_project_slot(&self) -> (r: ProjectSession)
        requires
            self.inv(),
        ensures
            r@ == self.slot(),
    {
        let active_file = match self.tabs.active_tab() {
            Some(t) => Some(t.path.clone()),
            None => None,
        };
        ProjectSession {
            path: self.project_root.clone(),
            open_files: self.tabs.paths(),
            active_file,
        }
    }

    /// Whether the state of the open project has been noted among the projects of `before`.
    pub open spec fn noted_in(self, before: ProjectList) -> bool {
        &&& self.projects.models() == projects::noted(before.models(), self.slot())
        &&& self.projects.active == projects::place_of(before.models(), self.slot().path)
    }

    /// Notes the state of the open project, and gives what is to be stored.
    pub fn persist_session(&mut self) -> (s: PersistedSession)
        requires
            old(self).inv(),
        ensures
            final(self).inv(),
            *final(self) == (Self { projects: final(self).projects, ..*old(self) }),
            final(self).noted_in(old(self).projects),
            s@ == final(self).projects.stored_model(),
    {
        let slot = self.current_project_slot();
        self.projects.persist(slot)
    }

    /// The tree to show for `node`.
    fn tree_view(&self, node: Option<&FileNode>) -> (v: TreeView)
        requires
            self.inv(),
        ensures
            shows_tree(
                v,
                (match node {
                    Some(n) => Some(*n),
                    None => None,
                }),
                self.expanded@,
                self.tabs.front(),
            ),
    {
        let items = match node {
            Some(n) => tree::tree_items_from_node(n, &self.expanded),
            None => Vec::new(),
        };
        assert(node is None ==> tree::item_models(items@) =~= Seq::<tree::ItemModel>::empty());
        let selected = match self.tabs.active_tab() {
            Some(t) => Some((t.path.clone(), t.title.clone())),
            None => None,
        };
        TreeView { items, selected }
    }

    /// The tree that was read last for the open project.
    pub open spec fn cached_tree(self) -> Option<FileNode> {
        let k = path::components(self.project_root@);
        if self.tree_cache@.contains_key(k) {
            Some(self.tree_cache@[k])
        } else {
            None
        }
    }

    /// What to show while the tree of the open project is being read: what was read last, or
    /// nothing.
    pub fn reload_tree(&self) -> (v: TreeView)
        requires
            self.inv(),
        ensures
            shows_tree(v, self.cached_tree(), self.expanded@, self.tabs.front()),
    {
        self.tree_view(self.tree_cache.get(self.project_root.as_str()))
    }

    /// The tree of the project at `root` is read: it is kept in any case, and shown where that
    /// project is still open.
    pub fn tree_loaded(&mut self, root: String, node: FileNode) -> (r: Option<TreeView>)
        requires
            old(self).inv(),
        ensures
            final(self).inv(),
            *final(self) == (Self { tree_cache: final(self).tree_cache, ..*old(self) }),
            final(self).tree_cache@ == old(self).tree_cache@.insert(
                path::components(root@),
                node,
            ),
            r is Some <==> path::same(old(self).project_root@, root@),
            r matches Some(v) ==> shows_tree(
                v,
                Some(node),
                old(self).expanded@,
                old(self).tabs.front(),
            ),
    {
        let view = if path::eq(self.project_root.as_str(), root.as_str()) {
            Some(self.tree_view(Some(&node)))
        } else {
            None
        };
        self.tree_cache.insert(root, node);
        view
    }

    /// The projects whose trees are to be read ahead.
    pub fn prewarm_roots(&self) -> (r: Vec<String>)
        requires
            self.inv(),
        ensures
            text::texts(r@) == to_prewarm(
                self.projects.models(),
                self.project_root@,
                self.tree_cache@,
            ),
    {
        let mut out: Vec<String> = Vec::new();
        let ghost all = self.projects.models();
        let mut i: usize = 0;
        assert(all.take(0) =~= Seq::<ProjectModel>::empty());
        assert(text::texts(out@) =~= Seq::<Seq<char>>::empty());
        while i < self.projects.projects.len()
            invariant
                i <= self.projects.projects@.len(),
                self.inv(),
                all == self.projects.models(),
                text::texts(out@) == to_prewarm(
                    all.take(i as int),
                    self.project_root@,
                    self.tree_cache@,
                ),
            decreases self.projects.projects@.len() - i,
        {
            proof {
                assert(all.take(i + 1).drop_last() =~= all.take(i as int));
                assert(all.take(i + 1).last() == self.projects.projects@[i as int]@);
            }
            let ghost prev = text::texts(out@);
            let p = self.projects.projects[i].path.as_str();
            if !path::eq(p, self.project_root.as_str()) && self.tree_cache.get(p).is_none() {
                out.push(p.to_owned());
                assert(text::texts(out@) =~= prev.push(p@));
            }
            i += 1;
        }
        assert(all.take(all.len() as int) =~= all);
        out
    }

    /// Whether the tree of the project at `root` still has to be read ahead.
    pub fn needs_prewarm(&self, root: &str) -> (r: bool)
        requires
            self.inv(),
        ensures
            r == !self.tree_cache@.contains_key(path::components(root@)),
    {
        self.tree_cache.get(root).is_none()
    }

    /// The tree of the project at `root` was read ahead.
    pub fn prewarmed(&mut self, root: String, node: FileNode)
        requires
            old(self).inv(),
        ensures
            final(self).inv(),
            *final(self) == (Self { tree_cache: final(self).tree_cache, ..*old(self) }),
            final(self).tree_cache@ == old(self).tree_cache@.insert(
                path::components(root@),
                node,
            ),
    {
        self.tree_cache.insert(root, node);
    }

    /// The files of the project at `root` are listed: they are kept in order, where that project is
    /// still open.
    pub fn files_listed(&mut self, root: &str, files: &Vec<String>) -> (applied: bool)
        requires
            old(self).inv(),
        ensures
            final(self).inv(),
            applied == path::same(old(self).project_root@, root@),
            !applied ==> *final(self) == *old(self),
            *final(self) == (Self { all_files: final(self).all_files, ..*old(self) }),
            applied ==> order::ascending(text::texts(final(self).all_files@)) && order::same_texts(
                text::texts(final(self).all_files@),
                text::texts(files@),
            ),
    {
        if !path::eq(self.project_root.as_str(), root) {
            return false;
        }
        self.all_files = order::sorted(files);
        true
    }

    /// What loading the project at `root` leads to: the history is exchanged for that of the
    /// project, and all that belongs to the project that is left goes.
    pub open spec fn loaded(before: Self, after: Self, root: String) -> bool {
        let k = path::components(root@);
        let saved = if before.project_root@.len() == 0 {
            before.nav_archive.saved@
        } else {
            before.nav_archive.saved@.insert(
                path::components(before.project_root@),
                (before.nav.history, before.nav.index),
            )
        };
        &&& after == (Self {
            project_root: root,
            project_name: after.project_name,
            explorer: after.explorer,
            lsp_phase: LspPhase::Off,
            nav: after.nav,
            nav_archive: after.nav_archive,
            overlay: None,
            expanded: after.expanded,
            status: after.status,
            ..before
        })
        &&& after.project_name@ == path::shown_name(root@)
        &&& after.status@ == root@
        &&& after.expanded@ == Set::<Seq<char>>::empty()
        &&& after.explorer.selected@ == Set::<Seq<char>>::empty()
        &&& after.explorer.undo@.len() == 0
        &&& after.explorer.clipboard == before.explorer.clipboard
        &&& after.nav_archive.saved@ == saved.remove(k)
        &&& !after.nav.restoring
        &&& (saved.contains_key(k) ==> (after.nav.history, after.nav.index) == saved[k])
        &&& (!saved.contains_key(k) ==> after.nav.history@.len() == 0 && after.nav.index == -1)
    }

    /// Whether `plan` is what loading the project at `root` asks for.
    pub open spec fn plans(before: Self, after: Self, plan: LoadPlan) -> bool {
        let old_root = before.project_root@;
        &&& plan.stop_watcher@ == old_root
        &&& plan.stop_lsp is Some <==> old_root != after.project_root@ && old_root.len() > 0
            && old_root != "/"@
        &&& plan.stop_lsp matches Some(p) ==> p@ == old_root
        &&& shows_tree(plan.tree, after.cached_tree(), after.expanded@, after.tabs.front())
        &&& text::texts(plan.prewarm@) == to_prewarm(
            after.projects.models(),
            after.project_root@,
            after.tree_cache@,
        )
    }

    /// Loads the project at `root`.
    pub fn load_project(&mut self, root: String) -> (plan: LoadPlan)
        requires
            old(self).inv(),
        ensures
            final(self).inv(),
            Self::loaded(*old(self), *final(self), root),
            Self::plans(*old(self), *final(self), plan),
    {
        let old_root = self.project_root.clone();
        let stops = !text::str_eq(old_root.as_str(), root.as_str()) && text::first_char(
            old_root.as_str(),
        ).is_some() && !text::str_eq(old_root.as_str(), "/");
        let stop_lsp = if stops {
            Some(old_root.clone())
        } else {
            None
        };
        self.lsp_phase = LspPhase::Off;
        let mut left = NavState::new();
        std::mem::swap(&mut left, &mut self.nav);
        self.nav = self.nav_archive.switch(left, old_root.as_str(), root.as_str());
        self.project_name = path::display_name(root.as_str());
        self.status = root.clone();
        self.project_root = root;
        self.expanded.clear();
        self.explorer.leave_project();
        self.overlay = None;
        let tree = self.reload_tree();
        let prewarm = self.prewarm_roots();
        LoadPlan { stop_watcher: old_root, stop_lsp, tree, prewarm }
    }

    /// Opens the project `target` whose tabs are to be read: loads it where it exists.
    pub open spec fn entered(
        before: Self,
        after: Self,
        target: ProjectModel,
        found: bool,
        plan: Option<LoadPlan>,
    ) -> bool {
        let reading = Self {
            restoring_tabs: found && target.open_files.len() > 0,
            ..before
        };
        &&& plan is Some <==> found
        &&& !found ==> after == reading
        &&& plan matches Some(pl) ==> after.project_root@ == target.path && Self::loaded(
            reading,
            after,
            after.project_root,
        ) && Self::plans(reading, after, pl)
    }

    fn enter(&mut self, target: &ProjectSession, found: bool) -> (plan: Option<LoadPlan>)
        requires
            old(self).inv(),
        ensures
            final(self).inv(),
            Self::entered(*old(self), *final(self), target@, found, plan),
    {
        assert(target@.open_files.len() == target.open_files@.len());
        self.restoring_tabs = found && target.open_files.len() > 0;
        if found {
            Some(self.load_project(target.path.clone()))
        } else {
            None
        }
    }
}

/// Moving to another project.
pub struct Switch {
    /// What is to be stored before the move.
    pub session: PersistedSession,
    /// The project that comes to the front. Its tabs are to be read where it could be loaded.
    pub target: ProjectSession,
    pub plan: Option<LoadPlan>,
    /// What is to be stored where the project does not exist.
    pub missing: Option<PersistedSession>,
}

/// Closing a project.
pub struct CloseProject {
    /// The project that comes to the front, where the one in front was closed.
    pub target: Option<ProjectSession>,
    pub plan: Option<LoadPlan>,
    pub session: PersistedSession,
}

/// Opening a project.
pub enum OpenProject {
    /// It is in front already; this is to be stored.
    Front(PersistedSession),
    /// It was open; this is to be stored, and then the move is made.
    Switched(PersistedSession, Switch),
    /// It is new; the first session is to be stored before it is loaded, the second after.
    Added(PersistedSession, LoadPlan, PersistedSession),
}

impl Workbench {
    /// The workbench without tabs and with project `ix` in front.
    pub open spec fn turned_to(before: Self, after: Self, ix: int) -> bool {
        &&& after == (Self {
            tabs: after.tabs,
            projects: (ProjectList { active: ix as usize, ..before.projects }),
            ..before
        })
        &&& after.tabs.tabs@.len() == 0
        &&& after.tabs.active is None
        &&& after.tabs.next_id == before.tabs.next_id
    }

    /// What moving to project `ix` at time `now` leads to: the open project is noted, the tabs go,
    /// and the project is loaded; where it does not exist, it is stored as the one in front.
    pub open spec fn switched(
        before: Self,
        after: Self,
        ix: int,
        found: bool,
        now: u64,
        s: Switch,
    ) -> bool {
        exists|noted: Self, turned: Self, entered: Self|
            #![trigger Self::turned_to(noted, turned, ix), Self::entered(turned, entered, s.target@, found, s.plan)]
            {
                &&& noted == (Self {
                    projects: noted.projects,
                    last_op: noted.last_op,
                    ..before
                })
                &&& noted.noted_in(before.projects)
                &&& noted.last_op is Some
                &&& (noted.last_op->0).started == now
                &&& (noted.last_op->0).label@ == "切换项目 "@ + path::shown_name(s.target@.path)
                &&& s.session@ == noted.projects.stored_model()
                &&& Self::turned_to(noted, turned, ix)
                &&& s.target@ == noted.projects.models()[ix]
                &&& Self::entered(turned, entered, s.target@, found, s.plan)
                &&& (s.missing is Some <==> !found)
                &&& (s.missing matches Some(m) ==> m@ == entered.projects.stored_model())
                &&& after == entered
            }
    }

    /// Moves to project `ix`, which exists or not, at time `now`. Nothing happens where it is in
    /// front or there is no such project.
    pub fn switch_project(&mut self, ix: usize, found: bool, now: u64) -> (r: Option<Switch>)
        requires
            old(self).inv(),
        ensures
            final(self).inv(),
            r is Some <==> ix != old(self).projects.active && ix < old(
                self,
            ).projects.projects@.len(),
            r is None ==> *final(self) == *old(self),
            r matches Some(s) ==> Self::switched(
                *old(self),
                *final(self),
                ix as int,
                found,
                now,
                s,
            ),
    {
        if ix == self.projects.active || ix >= self.projects.projects.len() {
            return None;
        }
        let session = self.persist_session();
        proof {
            projects::law_noting_keeps_the_other_projects(
                old(self).projects.models(),
                old(self).slot(),
            );
            assert(self.projects.models().len() == self.projects.projects@.len());
            assert(old(self).projects.models().len() == old(self).projects.projects@.len());
        }
        let label = text::cat2(
            "切换项目 ",
            path::display_name(self.projects.projects[ix].path.as_str()).as_str(),
        );
        self.mark_op(label, now);
        let ghost noted = *self;
        let target = self.projects.select(ix);
        assert(noted.projects.models()[ix as int].path == noted.projects.projects@[ix as int].path@);
        self.tabs.clear();
        let ghost turned = *self;
        assert(Self::turned_to(noted, turned, ix as int));
        let plan = self.enter(&target, found);
        let ghost entered = *self;
        let missing = if found {
            None
        } else {
            Some(self.projects.stored())
        };
        let s = Switch { session, target, plan, missing };
        assert(Self::entered(turned, entered, s.target@, found, s.plan));
        assert(Self::switched(*old(self), *self, ix as int, found, now, s));
        Some(s)
    }

    /// The project that would come to the front if project `ix` were closed.
    pub fn project_after_closing(&self, ix: usize) -> (r: Option<String>)
        requires
            self.inv(),
        ensures
            r is Some <==> ix == self.projects.active && self.projects.projects@.len() > 1,
            r matches Some(p) ==> p@ == self.projects.models().remove(
                ix as int,
            )[projects::after_closing(
                ix as int,
                ix as int,
                self.projects.projects@.len() - 1,
            )].path,
    {
        let n = self.projects.projects.len();
        if ix != self.projects.active || n <= 1 {
            return None;
        }
        let next: usize = if ix + 1 < n {
            ix + 1
        } else {
            ix - 1
        };
        assert(self.projects.models()[next as int] == self.projects.projects@[next as int]@);
        Some(self.projects.projects[next].path.clone())
    }

    /// Closes project `ix`, unless it is the only one. Where it is in front, its neighbour, which
    /// exists or not, takes its place.
    pub fn close_project(&mut self, ix: usize, found: bool) -> (r: Option<CloseProject>)
        requires
            old(self).inv(),
        ensures
            final(self).inv(),
            r is Some <==> ix < old(self).projects.projects@.len() && old(
                self,
            ).projects.projects@.len() > 1,
            r is None ==> *final(self) == *old(self),
            r matches Some(c) ==> {
                let n = old(self).projects.projects@.len() - 1;
                let was = old(self).projects.active as int;
                &&& final(self).projects.models() == old(self).projects.models().remove(ix as int)
                &&& final(self).projects.active == projects::after_closing(was, ix as int, n)
                &&& c.session@ == final(self).projects.stored_model()
                &&& c.target is Some <==> ix == was
                &&& ix != was ==> c.plan is None && *final(self) == (Self {
                    projects: final(self).projects,
                    ..*old(self)
                })
                &&& c.target matches Some(t) ==> t@ == final(self).projects.models()[final(self).projects.active as int] && exists|turned: Self|
                    #![trigger Self::entered(turned, *final(self), t@, found, c.plan)]
                    turned == (Self {
                        tabs: turned.tabs,
                        projects: final(self).projects,
                        ..*old(self)
                    }) && turned.tabs.tabs@.len() == 0 && turned.tabs.active is None
                        && turned.tabs.next_id == old(self).tabs.next_id && Self::entered(
                        turned,
                        *final(self),
                        t@,
                        found,
                        c.plan,
                    )
            },
    {
        match self.projects.close(ix) {
            None => None,
            Some(None) => {
                let session = self.projects.stored();
                Some(CloseProject { target: None, plan: None, session })
            },
            Some(Some(target)) => {
                self.tabs.clear();
                let ghost turned = *self;
                let plan = self.enter(&target, found);
                assert(Self::entered(turned, *self, target@, found, plan));
                let session = self.projects.stored();
                Some(CloseProject { target: Some(target), plan, session })
            },
        }
    }

    /// Opens the project at `root`, which exists or not, at time `now`: moves to it where it is
    /// open, else adds it.
    pub fn open_project_path(&mut self, root: String, found: bool, now: u64) -> (r: OpenProject)
        requires
            old(self).inv(),
        ensures
            final(self).inv(),
            exists|noted: Self| #[trigger]
                Self::opened(*old(self), noted, *final(self), root, found, now, r),
    {
        let first = self.persist_session();
        let ghost noted = *self;
        proof {
            projects::law_noting_keeps_the_other_projects(
                old(self).projects.models(),
                old(self).slot(),
            );
        }
        match self.projects.position(root.as_str()) {
            Some(ix) => {
                assert(noted.projects.models().len() == noted.projects.projects@.len());
                let r = match self.switch_project(ix, found, now) {
                    Some(s) => OpenProject::Switched(first, s),
                    None => OpenProject::Front(first),
                };
                assert(Self::opened(*old(self), noted, *self, root, found, now, r));
                r
            },
            None => {
                let ghost p = root;
                self.projects.append(root.clone());
                self.tabs.clear();
                let ghost added = *self;
                let plan = self.load_project(root);
                let ghost there = *self;
                let last = self.persist_session();
                let r = OpenProject::Added(first, plan, last);
                assert(Self::added_project(noted, added, there, *self, p, r));
                assert(Self::opened(*old(self), noted, *self, p, found, now, r));
                r
            },
        }
    }

    /// What adding a project leads to: it stands last and in front, without tabs; it is loaded and
    /// then noted.
    pub open spec fn added_project(
        noted: Self,
        added: Self,
        there: Self,
        after: Self,
        root: String,
        r: OpenProject,
    ) -> bool {
        &&& added == (Self { tabs: added.tabs, projects: added.projects, ..noted })
        &&& added.tabs.tabs@.len() == 0
        &&& added.tabs.active is None
        &&& added.tabs.next_id == noted.tabs.next_id
        &&& added.projects.models() == noted.projects.models().push(
            (ProjectModel {
                path: root@,
                open_files: Seq::<Seq<char>>::empty(),
                active_file: None,
            }),
        )
        &&& added.projects.active == noted.projects.projects@.len()
        &&& Self::loaded(added, there, root)
        &&& after == (Self { projects: after.projects, ..there })
        &&& after.noted_in(there.projects)
        &&& r is Added
        &&& Self::plans(added, there, r->Added_1)
        &&& r->Added_2@ == after.projects.stored_model()
    }

    /// What opening the project at `root` leads to, where `noted` is the workbench once the open
    /// project is noted.
    pub open spec fn opened(
        before: Self,
        noted: Self,
        after: Self,
        root: String,
        found: bool,
        now: u64,
        r: OpenProject,
    ) -> bool {
        let all = noted.projects.models();
        let ix = projects::place_of(all, root@);
        &&& noted == (Self { projects: noted.projects, ..before })
        &&& noted.noted_in(before.projects)
        &&& (match r {
            OpenProject::Front(s) => {
                &&& projects::lists(all, root@)
                &&& ix == noted.projects.active
                &&& after == noted
                &&& s@ == noted.projects.stored_model()
            },
            OpenProject::Switched(s, w) => {
                &&& projects::lists(all, root@)
                &&& ix != noted.projects.active
                &&& s@ == noted.projects.stored_model()
                &&& Self::switched(noted, after, ix, found, now, w)
            },
            OpenProject::Added(s, _, _) => {
                &&& !projects::lists(all, root@)
                &&& s@ == noted.projects.stored_model()
                &&& exists|added: Self, there: Self| #[trigger]
                    Self::added_project(noted, added, there, after, root, r)
            },
        })
    }

    /// A stored session was read when no project was given: takes its projects over, and loads the
    /// one that was in front where it exists. Gives that project, whose tabs are then to be read.
    pub fn start_session(&mut self, sess: PersistedSession, found: bool) -> (r: Option<
        (ProjectSession, Option<LoadPlan>),
    >)
        requires
            old(self).inv(),
        ensures
            final(self).inv(),
            r is Some <==> sess@.projects.len() > 0,
            r is None ==> *final(self) == *old(self),
            r matches Some(p) ==> {
                let ix = projects::front_index(sess@);
                &&& p.0@ == sess@.projects[ix]
                &&& p.1 is Some <==> found
                &&& final(self).projects.models() == sess@.projects
                &&& final(self).projects.active == ix
                &&& !found ==> *final(self) == (Self {
                    projects: final(self).projects,
                    ..*old(self)
                })
                &&& p.1 matches Some(plan) ==> final(self).project_root@ == p.0@.path
                    && Self::loaded(
                    (Self { projects: final(self).projects, ..*old(self) }),
                    *final(self),
                    final(self).project_root,
                ) && Self::plans(
                    (Self { projects: final(self).projects, ..*old(self) }),
                    *final(self),
                    plan,
                )
            },
    {
        match ProjectList::restore(sess) {
            None => None,
            Some((list, project)) => {
                self.projects = list;
                let plan = if found {
                    Some(self.load_project(project.path.clone()))
                } else {
                    None
                };
                Some((project, plan))
            },
        }
    }
}

/// Moving to another project, which exists or not, loses no project, and no project's state is
/// changed but that of the one that is left, which is stored with the tabs that it had. Where the
/// project does not exist, it is stored all the same as the one in front.
pub proof fn law_switching_keeps_the_other_projects(
    before: Workbench,
    after: Workbench,
    ix: usize,
    found: bool,
    now: u64,
    s: Switch,
)
    requires
        before.inv(),
        ix < before.projects.projects@.len(),
        Workbench::switched(before, after, ix as int, found, now, s),
    ensures
        after.projects.models() == projects::noted(before.projects.models(), before.slot()),
        after.projects.active == ix,
        forall|i: int|
            0 <= i < before.projects.models().len() && i != projects::place_of(
                before.projects.models(),
                before.project_root@,
            ) ==> #[trigger] after.projects.models()[i] == before.projects.models()[i],
        s.session@.projects == after.projects.models(),
        s.missing is Some <==> !found,
        s.missing matches Some(m) ==> {
            let left = projects::place_of(before.projects.models(), before.project_root@);
            &&& m@.active_project_index == ix
            &&& m@.projects == after.projects.models()
            &&& m@.projects[left] == before.slot()
        },
{
    projects::law_noting_keeps_the_other_projects(before.projects.models(), before.slot());
}

/// Nothing of the project that is left stays: neither its tabs nor its selection, its undo steps
/// or what lies over the workbench.
pub proof fn law_switching_leaves_the_old_project(
    before: Workbench,
    after: Workbench,
    ix: int,
    now: u64,
    s: Switch,
)
    requires
        Workbench::switched(before, after, ix, true, now, s),
    ensures
        after.tabs.tabs@.len() == 0,
        after.explorer.selected@ == Set::<Seq<char>>::empty(),
        after.explorer.undo@.len() == 0,
        after.overlay is None,
        after.lsp_phase is Off,
        after.project_root@ == s.target@.path,
{
}

/// The trees of the other projects are read ahead: of every one that is not the open one and has none
/// yet, and of no other.
pub proof fn law_other_trees_are_read_ahead(w: Workbench, r: Vec<String>, p: Seq<char>)
    requires
        w.inv(),
        call_ensures(Workbench::prewarm_roots, (&w,), r),
    ensures
        (exists|k: int| 0 <= k < r@.len() && (#[trigger] r@[k])@ == p) <==> !path::same(
            p,
            w.project_root@,
        ) && !w.tree_cache@.contains_key(path::components(p)) && exists|i: int|
            0 <= i < w.projects.projects@.len() && (#[trigger] w.projects.projects@[i]).path@ == p,
{
    let all = w.projects.models();
    let got = text::texts(r@);
    lemma_prewarm(all, w.project_root@, w.tree_cache@, p);
    assert(all.len() == w.projects.projects@.len());
    if got.contains(p) {
        let k = got.index_of(p);
        assert(r@[k]@ == p);
    }
    if exists|k: int| 0 <= k < r@.len() && (#[trigger] r@[k])@ == p {
        let k = choose|k: int| 0 <= k < r@.len() && (#[trigger] r@[k])@ == p;
        assert(got[k] == p);
    }
    if exists|i: int| 0 <= i < all.len() && (#[trigger] all[i]).path == p {
        let i = choose|i: int| 0 <= i < all.len() && (#[trigger] all[i]).path == p;
        assert(w.projects.projects@[i].path@ == p);
    }
    if exists|i: int| 0 <= i < w.projects.projects@.len() && (#[trigger] w.projects.projects@[i]).path@
        == p {
        let i = choose|i: int|
            0 <= i < w.projects.projects@.len() && (#[trigger] w.projects.projects@[i]).path@ == p;
        assert(all[i].path == p);
    }
}

proof fn lemma_prewarm(
    all: Seq<ProjectModel>,
    root: Seq<char>,
    cached: Map<Seq<Seq<char>>, FileNode>,
    p: Seq<char>,
)
    ensures
        to_prewarm(all, root, cached).contains(p) <==> !path::same(p, root) && !cached.contains_key(
            path::components(p),
        ) && exists|i: int| 0 <= i < all.len() && (#[trigger] all[i]).path == p,
    decreases all.len(),
{
    if all.len() > 0 {
        let init = all.drop_last();
        let rest = to_prewarm(init, root, cached);
        let list = to_prewarm(all, root, cached);
        lemma_prewarm(init, root, cached, p);
        assert(all[all.len() - 1] == all.last());
        if rest.contains(p) {
            let k = rest.index_of(p);
            assert(list[k] == p);
            let i = choose|i: int| 0 <= i < init.len() && (#[trigger] init[i]).path == p;
            assert(all[i].path == p);
        } else if list.contains(p) {
            let k = list.index_of(p);
            assert(k == rest.len());
        }
        if exists|i: int| 0 <= i < all.len() && (#[trigger] all[i]).path == p {
            let i = choose|i: int| 0 <= i < all.len() && (#[trigger] all[i]).path == p;
            if i < init.len() {
                assert(init[i].path == p);
            } else if list.len() > rest.len() {
                assert(list[rest.len() as int] == p);
            }
        }
    }
}

/// What is kept of a project are its folder, its open files in the order of the tabs and the one in
/// front.
pub proof fn law_what_is_kept_of_a_project(w: Workbench, r: ProjectSession, i: usize)
    requires
        w.inv(),
        call_ensures(Workbench::current_project_slot, (&w,), r),
        0 <= i < w.tabs.tabs@.len(),
    ensures
        r.path@ == w.project_root@,
        r.open_files@.len() == w.tabs.tabs@.len(),
        r.open_files@[i as int]@ == w.tabs.tabs@[i as int].path@,
        w.tabs.active == Some(i) ==> text::opt_text(r.active_file) == Some(
            w.tabs.tabs@[i as int].path@,
        ),
        w.tabs.active is None ==> r.active_file is None,
{
    let files = text::texts(r.open_files@);
    assert(r@.open_files == files);
    assert(files == tabs::paths_of(w.tabs.tabs@));
    assert(files[i as int] == r.open_files@[i as int]@);
    assert(r@.active_file == text::opt_text(r.active_file));
}

/// Loading a project leaves nothing of the one before it in the tree, the selection and the server, and
/// brings back where one was in its history; the tabs are not touched.
pub proof fn law_loading_starts_afresh(w: &mut Workbench, root: String, plan: LoadPlan)
    requires
        old(w).inv(),
        call_ensures(Workbench::load_project, (w, root), plan),
        !path::same(old(w).project_root@, root@),
    ensures
        final(w).project_root == root,
        final(w).project_name@ == path::shown_name(root@),
        final(w).expanded@ == Set::<Seq<char>>::empty(),
        final(w).explorer.undo@.len() == 0,
        final(w).lsp_phase is Off,
        final(w).overlay is None,
        final(w).tabs == old(w).tabs,
        final(w).settings == old(w).settings,
        plan.stop_watcher@ == old(w).project_root@,
        old(w).project_root@ == "/"@ || old(w).project_root@.len() == 0 ==> plan.stop_lsp is None,
        old(w).project_root@ != "/"@ && old(w).project_root@.len() > 0 ==> (plan.stop_lsp matches Some(
            p,
        ) && p@ == old(w).project_root@),
        old(w).nav_archive.saved@.contains_key(path::components(root@)) ==> final(w).nav.history
            == old(w).nav_archive.saved@[path::components(root@)].0 && final(w).nav.index
            == old(w).nav_archive.saved@[path::components(root@)].1,
        !old(w).nav_archive.saved@.contains_key(path::components(root@)) ==> final(w).nav.history@.len() == 0,
{
    if old(w).project_root@ == root@ {
        assert(path::same(old(w).project_root@, root@));
    }
}

/// A tree that arrives is shown where it is of the open project, with the folders open that were; it is
/// kept for any project.
pub proof fn law_trees_are_kept_for_their_projects(w: &mut Workbench, root: String, node: FileNode, r: Option<TreeView>)
    requires
        old(w).inv(),
        call_ensures(Workbench::tree_loaded, (w, root, node), r),
    ensures
        final(w).tree_cache@.contains_key(path::components(root@)) && final(w).tree_cache@[path::components(root@)] == node,
        r is Some <==> path::same(old(w).project_root@, root@),
        r matches Some(v) ==> tree::item_models(v.items@) == tree::shown_tree(node, old(w).expanded@),
        final(w).project_root == old(w).project_root && final(w).tabs == old(w).tabs,
{
}

/// The files of the open project are listed in order, all of them; a list of another project is not
/// taken.
pub proof fn law_files_are_listed_in_order(w: &mut Workbench, root: &str, files: Vec<String>, applied: bool, i: int)
    requires
        old(w).inv(),
        call_ensures(Workbench::files_listed, (w, root, &files), applied),
        0 <= i,
        i + 1 < final(w).all_files@.len(),
    ensures
        applied <==> path::same(old(w).project_root@, root@),
        !applied ==> final(w).all_files == old(w).all_files,
        applied ==> final(w).all_files@.len() == files@.len() && order::not_after(
            final(w).all_files@[i]@,
            final(w).all_files@[i + 1]@,
        ),
{
    if applied {
        let a = text::texts(final(w).all_files@);
        let b = text::texts(files@);
        a.to_multiset_ensures();
        b.to_multiset_ensures();
        assert(a[i] == final(w).all_files@[i]@);
        assert(a[i + 1] == final(w).all_files@[i + 1]@);
    }
}

/// A project that is open is not opened a second time, and a new one comes after the others.
pub proof fn law_a_project_is_open_once(
    w: &mut Workbench,
    root: String,
    found: bool,
    now: u64,
    r: OpenProject,
    i: int,
)
    requires
        old(w).inv(),
        call_ensures(Workbench::open_project_path, (w, root, found, now), r),
        0 <= i < old(w).projects.projects@.len(),
        old(w).projects.projects@[i].path@ == root@,
    ensures
        !(r is Added),
{
    let noted = choose|noted: Workbench| #[trigger]
        Workbench::opened(*old(w), noted, *final(w), root, found, now, r);
    let before = old(w).projects.models();
    let slot = old(w).slot();
    assert(noted.slot() == slot);
    let all = projects::noted(before, slot);
    projects::law_noting_keeps_the_other_projects(before, slot);
    assert(before[i].path == root@);
    let at = projects::place_of(before, slot.path);
    assert(all[i].path == root@) by {
        if i == at {
            if projects::lists(before, slot.path) {
                assert(projects::first_at(before, slot.path, at));
            }
        }
    }
    lemma_listed_somewhere(all, root@, i);
}

proof fn lemma_listed_somewhere(all: Seq<ProjectModel>, p: Seq<char>, i: int)
    requires
        0 <= i < all.len(),
        all[i].path == p,
    ensures
        projects::lists(all, p),
    decreases i,
{
    if exists|j: int| 0 <= j < i && (#[trigger] all[j]).path == p {
        let j = choose|j: int| 0 <= j < i && (#[trigger] all[j]).path == p;
        lemma_listed_somewhere(all, p, j);
    } else {
        assert(projects::first_at(all, p, i));
    }
}

/// Turning to another project loads its folder and leaves no tab of the one before open; what was open
/// there is noted first.
pub proof fn law_turning_to_another_project(
    w: &mut Workbench,
    ix: usize,
    found: bool,
    now: u64,
    r: Option<Switch>,
)
    requires
        old(w).inv(),
        call_ensures(Workbench::switch_project, (w, ix, found, now), r),
    ensures
        ix == old(w).projects.active || ix >= old(w).projects.projects@.len() ==> r is None,
        ix != old(w).projects.active && ix < old(w).projects.projects@.len() ==> r is Some,
        r matches Some(s) ==> {
            &&& final(w).tabs.tabs@.len() == 0
            &&& final(w).tabs.active is None
            &&& s.plan is Some <==> found
            &&& found ==> final(w).project_root@ == s.target@.path
            &&& !found ==> final(w).project_root == old(w).project_root
            &&& final(w).restoring_tabs <==> found && s.target@.open_files.len() > 0
            &&& final(w).settings == old(w).settings
        },
        r is None ==> *final(w) == *old(w),
{
}

/// A stored session opens with the project that was in front.
pub proof fn law_a_session_opens_with_its_front(
    w: &mut Workbench,
    sess: PersistedSession,
    found: bool,
    r: Option<(ProjectSession, Option<LoadPlan>)>,
    i: int,
)
    requires
        old(w).inv(),
        call_ensures(Workbench::start_session, (w, sess, found), r),
        0 <= i < sess.projects@.len(),
    ensures
        r is Some,
        i == sess.active_project_index && found ==> final(w).project_root@ == sess.projects@[i].path@,
        i == sess.active_project_index ==> final(w).projects.active == i,
        !found ==> final(w).project_root == old(w).project_root,
        final(w).projects.projects@.len() == sess.projects@.len(),
        final(w).projects.projects@[i].path@ == sess.projects@[i].path@,
{
    assert(sess@.projects.len() == sess.projects@.len());
    assert(sess@.projects[i] == sess.projects@[i]@);
    assert(final(w).projects.models().len() == final(w).projects.projects@.len());
    assert(final(w).projects.models()[i] == final(w).projects.projects@[i]@);
}

/// The last project cannot be closed; closing another one than that in front changes nothing of what is
/// shown.
pub proof fn law_the_last_project_stays(w: &mut Workbench, ix: usize, found: bool, r: Option<CloseProject>)
    requires
        old(w).inv(),
        call_ensures(Workbench::close_project, (w, ix, found), r),
    ensures
        old(w).projects.projects@.len() <= 1 ==> r is None && *final(w) == *old(w),
        ix >= old(w).projects.projects@.len() ==> r is None,
        r is Some ==> final(w).projects.models().len() == old(w).projects.models().len() - 1,
        r is Some && ix != old(w).projects.active ==> final(w).tabs == old(w).tabs && final(w).project_root == old(w).project_root && final(w).projects.models()[final(w).projects.active as int] == old(w).projects.models()[old(w).projects.active as int],
        r is Some && ix == old(w).projects.active ==> final(w).tabs.tabs@.len() == 0,
        r matches Some(c) ==> (c.target is Some <==> ix == old(w).projects.active),
{
    if r is Some && ix != old(w).projects.active {
        assert(old(w).projects.models().len() == old(w).projects.projects@.len());
        projects::law_closing_another_project_keeps_the_front(
            old(w).projects.models(),
            old(w).projects.active as int,
            ix as int,
        );
    }
}

/// A tree that was read ahead is not read again, and is what is shown once its project is open.
pub proof fn law_read_trees_are_used(w: &mut Workbench, root: String, p: &str, node: FileNode, needed: bool, v: TreeView)
    requires
        old(w).inv(),
        p@ == root@,
        call_ensures(Workbench::prewarmed, (w, root, node), ()),
        call_ensures(Workbench::needs_prewarm, (&*final(w), p), needed),
        call_ensures(Workbench::reload_tree, (&*final(w),), v),
        final(w).inv(),
    ensures
        !needed,
        path::same(root@, final(w).project_root@) ==> tree::item_models(v.items@) == tree::shown_tree(
            node,
            final(w).expanded@,
        ),
        final(w).project_root == old(w).project_root,
{
}

} // verus!
