//! Opening, saving and closing files, and following what happens to them.
use vstd::prelude::*;

use crate::nav;
use crate::nav::{NavLoc, NavState};
use crate::path;
use crate::projects;
use crate::session::PersistedSession;
use crate::stall::Op;
use crate::tabs;
use crate::tabs::{Inserted, OpenTab};
use crate::text;
use crate::tree;
use crate::workbench::{LspPhase, Workbench};

verus! {

/// A tab that was opened.
pub struct Opened {
    pub tab: Inserted,
    /// The language server is to be started, where it does not run, and told of the file.
    pub starts_lsp: bool,
}

/// What opening a file leads to.
pub enum OpenFile {
    /// Its tab is in front already.
    Front,
    /// Its tab came to the front; this is to be stored.
    Switched(PersistedSession),
    /// It is to be read.
    Read,
}

/// What opening a file at a place leads to.
pub enum OpenAt {
    /// This tab came to the front; the cursor goes to the place, and this is to be stored.
    Jump(usize, PersistedSession),
    /// It is to be read.
    Read,
}

/// A file to save.
pub struct SaveRequest {
    pub path: String,
    /// The language server is told once it is saved.
    pub is_java: bool,
}

/// A tab whose file is to be read again.
pub struct ReloadTarget {
    pub ix: usize,
    pub path: String,
    pub is_java: bool,
}

/// What a change of files on disk leads to. The changes of the repositories are read again in any
/// case.
pub struct FileChange {
    /// The tree and the list of files are to be read again.
    pub structural: bool,
    pub reload: Vec<ReloadTarget>,
}

/// What typing in an editor leads to.
pub struct EditorChange {
    /// The tab was saved until now.
    pub newly_dirty: bool,
    /// The number under which the preview waits.
    pub preview: Option<u64>,
    /// The file of which the language server is told, and the number under which that waits.
    pub report: Option<(String, u64)>,
}

/// The name of a path, or nothing.
pub open spec fn name_or_empty(p: Seq<char>) -> Seq<char> {
    match path::name_of(p) {
        Some(n) => n,
        None => Seq::empty(),
    }
}

/// Whether a tab's file is known to the language server of the project at `root`.
pub open spec fn served(t: OpenTab, root: Seq<char>) -> bool {
    t.lang@ == "java"@ && path::within(t.path@, root)
}

fn is_served(t: &OpenTab, root: &str) -> (r: bool)
    ensures
        r == served(*t, root@),
{
    text::str_eq(t.lang, "java") && path::starts_with(t.path.as_str(), root)
}

/// Whether an operation has this label and start.
pub open spec fn is_op(op: Option<Op>, label: Seq<char>, now: u64) -> bool {
    op is Some && (op->0).label@ == label && (op->0).started == now
}

/// The phase once a file of the project is opened.
pub open spec fn phase_when_opened(phase: LspPhase) -> LspPhase {
    if phase is Off || phase is Failed {
        LspPhase::Starting
    } else {
        phase
    }
}

/// How many rows an editor is taken to show before that is known.
pub const ASSUMED_ROWS: u64 = 20;

/// The first row to show so that `line` stands in the middle of `rows` rows, where that is known.
pub fn centered_top(line: u32, rows: Option<u64>) -> (r: u64)
    ensures
        ({
            let half = (match rows {
                Some(n) => n,
                None => ASSUMED_ROWS,
            }) / 2;
            r == if line >= half {
                line - half
            } else {
                0
            }
        }),
{
    let half = (match rows {
        Some(n) => n,
        None => ASSUMED_ROWS,
    }) / 2;
    if line as u64 >= half {
        line as u64 - half
    } else {
        0
    }
}

impl Workbench {
    /// What opening a tab for file `p` at time `now` leads to.
    pub open spec fn inserts(before: Self, after: Self, p: String, now: u64, r: Opened) -> bool {
        &&& tabs::inserted(before.tabs, after.tabs, p, now, r.tab)
        &&& !r.tab.fresh ==> after == before && !r.starts_lsp
        &&& r.tab.fresh ==> {
            &&& r.starts_lsp == served(after.tabs.tabs@.last(), before.project_root@)
            &&& after == (Self {
                tabs: after.tabs,
                last_op: after.last_op,
                lsp_phase: if r.starts_lsp {
                    phase_when_opened(before.lsp_phase)
                } else {
                    before.lsp_phase
                },
                ..before
            })
            &&& is_op(after.last_op, "打开文件 "@ + name_or_empty(p@), now)
        }
    }

    /// Opens a tab for file `p` at time `now`, unless there is one.
    pub fn insert_tab(&mut self, p: String, now: u64) -> (r: Opened)
        requires
            old(self).inv(),
            old(self).has_room(),
        ensures
            final(self).inv(),
            Self::inserts(*old(self), *final(self), p, now, r),
    {
        let name = match path::file_name(p.as_str()) {
            Some(n) => n,
            None => String::new(),
        };
        assert(name@ =~= name_or_empty(p@));
        let tab = self.tabs.insert_tab(p, now);
        if !tab.fresh {
            return Opened { tab, starts_lsp: false };
        }
        self.mark_op(text::cat2("打开文件 ", name.as_str()), now);
        let starts_lsp = is_served(&self.tabs.tabs[tab.index], self.project_root.as_str());
        if starts_lsp {
            match self.lsp_phase {
                LspPhase::Off => {
                    self.lsp_phase = LspPhase::Starting;
                },
                LspPhase::Failed => {
                    self.lsp_phase = LspPhase::Starting;
                },
                _ => {},
            }
        }
        Opened { tab, starts_lsp }
    }

    /// The language server could not be started.
    pub fn lsp_failed(&mut self)
        ensures
            *final(self) == (Self { lsp_phase: LspPhase::Failed, ..*old(self) }),
    {
        self.lsp_phase = LspPhase::Failed;
    }

    /// What bringing tab `ix` to the front at time `now` leads to, where `s` is to be stored: the
    /// message goes, the directories of its file are expanded, and the project is noted.
    pub open spec fn fronts(before: Self, after: Self, ix: int, now: u64, s: PersistedSession) -> bool {
        &&& after == (Self {
            tabs: after.tabs,
            status: after.status,
            expanded: after.expanded,
            projects: after.projects,
            last_op: after.last_op,
            ..before
        })
        &&& tabs::activated(before.tabs, after.tabs, ix, now)
        &&& is_op(after.last_op, "切换标签 "@ + before.tabs.tabs@[ix].title@, now)
        &&& after.status@.len() == 0
        &&& after.expanded@ == before.expanded@.union(
            tree::ancestors(before.tabs.tabs@[ix].path@, before.project_root@),
        )
        &&& after.noted_in(before.projects)
        &&& s@ == after.projects.stored_model()
    }

    /// Brings tab `ix` to the front at time `now`.
    pub fn activate_tab(&mut self, ix: usize, now: u64) -> (r: Option<PersistedSession>)
        requires
            old(self).inv(),
        ensures
            final(self).inv(),
            r is Some <==> ix < old(self).tabs.tabs@.len(),
            r is None ==> *final(self) == *old(self),
            r matches Some(s) ==> Self::fronts(*old(self), *final(self), ix as int, now, s),
    {
        if ix >= self.tabs.tabs.len() {
            return None;
        }
        let label = text::cat2("切换标签 ", self.tabs.tabs[ix].title.as_str());
        self.mark_op(label, now);
        let _ = self.tabs.activate(ix, now);
        self.status = String::new();
        tree::reveal_ancestors(
            &mut self.expanded,
            self.tabs.tabs[ix].path.as_str(),
            self.project_root.as_str(),
        );
        Some(self.persist_session())
    }

    /// Opens file `p` at time `now`: brings its tab to the front where there is one.
    pub fn open_file(&mut self, p: &str, now: u64) -> (r: OpenFile)
        requires
            old(self).inv(),
        ensures
            final(self).inv(),
            match r {
                OpenFile::Front => *final(self) == *old(self) && old(self).tabs.active is Some
                    && tabs::shows_at(
                    old(self).tabs.tabs@,
                    p@,
                    old(self).tabs.active->0 as int,
                ),
                OpenFile::Switched(s) => {
                    &&& *final(self) == (Self {
                        tabs: final(self).tabs,
                        status: final(self).status,
                        projects: final(self).projects,
                        ..*old(self)
                    })
                    &&& final(self).status@.len() == 0
                    &&& final(self).tabs.active is Some
                    &&& tabs::shows_at(
                        old(self).tabs.tabs@,
                        p@,
                        final(self).tabs.active->0 as int,
                    )
                    &&& old(self).tabs.active != final(self).tabs.active
                    &&& tabs::activated(
                        old(self).tabs,
                        final(self).tabs,
                        final(self).tabs.active->0 as int,
                        now,
                    )
                    &&& final(self).noted_in(old(self).projects)
                    &&& s@ == final(self).projects.stored_model()
                },
                OpenFile::Read => {
                    &&& !tabs::shows(old(self).tabs.tabs@, p@)
                    &&& *final(self) == (Self { status: final(self).status, ..*old(self) })
                    &&& final(self).status@ == "打开 "@ + p@ + " …"@
                },
            },
    {
        match self.tabs.position(p) {
            Some(ix) => {
                let in_front = match self.tabs.active {
                    Some(a) => a == ix,
                    None => false,
                };
                if in_front {
                    return OpenFile::Front;
                }
                let _ = self.tabs.activate(ix, now);
                self.status = String::new();
                OpenFile::Switched(self.persist_session())
            },
            None => {
                self.status = text::cat3("打开 ", p, " …");
                OpenFile::Read
            },
        }
    }

    /// Whether a tab for file `p` was opened at time `now` and brought to the front.
    pub open spec fn shown(
        before: Self,
        after: Self,
        p: String,
        now: u64,
        r: Opened,
        s: PersistedSession,
    ) -> bool {
        exists|mid: Self|
            #![trigger Self::inserts(before, mid, p, now, r)]
            Self::inserts(before, mid, p, now, r) && Self::fronts(
                mid,
                after,
                r.tab.index as int,
                now,
                s,
            )
    }

    fn show(&mut self, p: String, now: u64) -> (r: (Opened, PersistedSession))
        requires
            old(self).inv(),
            old(self).has_room(),
        ensures
            final(self).inv(),
            Self::shown(*old(self), *final(self), p, now, r.0, r.1),
    {
        let opened = self.insert_tab(p, now);
        let ghost mid = *self;
        let session = match self.activate_tab(opened.tab.index, now) {
            Some(s) => s,
            None => self.persist_session(),
        };
        assert(Self::inserts(*old(self), mid, p, now, opened));
        (opened, session)
    }

    /// File `p` was read, or could not be: shows it, or says why not.
    pub fn file_read(&mut self, p: String, result: Result<(), String>, now: u64) -> (r: Option<
        (Opened, PersistedSession),
    >)
        requires
            old(self).inv(),
            old(self).has_room(),
        ensures
            final(self).inv(),
            r is Some <==> result is Ok,
            r matches Some(x) ==> Self::shown(*old(self), *final(self), p, now, x.0, x.1),
            result matches Err(e) ==> *final(self) == (Self {
                status: final(self).status,
                ..*old(self)
            }) && final(self).status@ == "打开失败: "@ + e@,
    {
        match result {
            Ok(_) => Some(self.show(p, now)),
            Err(e) => {
                self.status = text::cat2("打开失败: ", e.as_str());
                None
            },
        }
    }

    /// What opening file `p` at a place leads to, the history apart.
    pub open spec fn opens_at(before: Self, after: Self, p: Seq<char>, now: u64, r: OpenAt) -> bool {
        match r {
            OpenAt::Jump(ix, s) => tabs::shows_at(before.tabs.tabs@, p, ix as int) && Self::fronts(
                before,
                after,
                ix as int,
                now,
                s,
            ),
            OpenAt::Read => {
                &&& !tabs::shows(before.tabs.tabs@, p)
                &&& after == (Self { status: after.status, ..before })
                &&& after.status@ == "打开 "@ + p + " …"@
            },
        }
    }

    fn open_at(&mut self, p: &str, now: u64) -> (r: OpenAt)
        requires
            old(self).inv(),
        ensures
            final(self).inv(),
            Self::opens_at(*old(self), *final(self), p@, now, r),
    {
        match self.tabs.position(p) {
            Some(ix) => match self.activate_tab(ix, now) {
                Some(s) => OpenAt::Jump(ix, s),
                None => OpenAt::Read,
            },
            None => {
                self.status = text::cat3("打开 ", p, " …");
                OpenAt::Read
            },
        }
    }

    /// The place of the cursor, which stands in line `cursor` of the tab in front.
    pub open spec fn place(self, cursor: u32) -> Option<NavLoc> {
        match self.tabs.front() {
            Some(t) => Some(NavLoc { path: t.path, line: cursor }),
            None => None,
        }
    }

    /// The place of the cursor, which stands in line `cursor` of the tab in front.
    pub fn current_nav_loc(&self, cursor: u32) -> (r: Option<NavLoc>)
        requires
            self.inv(),
        ensures
            r == self.place(cursor),
    {
        match self.tabs.active_tab() {
            Some(t) => Some(NavLoc { path: t.path.clone(), line: cursor }),
            None => None,
        }
    }

    /// Opens file `p` at `line` at time `now`, and records the jump away from line `cursor` of the
    /// tab in front.
    pub fn open_file_at(&mut self, p: String, line: u32, cursor: u32, now: u64) -> (r: OpenAt)
        requires
            old(self).inv(),
        ensures
            final(self).inv(),
            (final(self).nav.history@, final(self).nav.index as int) == (if old(
                self,
            ).nav.restoring {
                (old(self).nav.history@, old(self).nav.index as int)
            } else {
                nav::jumped(
                    old(self).nav.history@,
                    old(self).nav.index as int,
                    old(self).place(cursor),
                    (NavLoc { path: p, line }),
                )
            }),
            final(self).nav.restoring == old(self).nav.restoring,
            Self::opens_at(
                (Self { nav: final(self).nav, ..*old(self) }),
                *final(self),
                p@,
                now,
                r,
            ),
    {
        let leave = self.current_nav_loc(cursor);
        self.nav.nav_record_jump(leave, NavLoc { path: p.clone(), line });
        self.open_at(p.as_str(), now)
    }

    /// File `p` was read to show a place in it, or could not be, which is passed over.
    pub fn file_read_at(&mut self, p: String, ok: bool, now: u64) -> (r: Option<
        (Opened, PersistedSession),
    >)
        requires
            old(self).inv(),
            old(self).has_room(),
        ensures
            final(self).inv(),
            r is Some <==> ok,
            r is None ==> *final(self) == *old(self),
            r matches Some(x) ==> Self::shown(*old(self), *final(self), p, now, x.0, x.1),
    {
        if ok {
            Some(self.show(p, now))
        } else {
            None
        }
    }

    /// Steps back in the history and opens that place.
    pub fn on_nav_back(&mut self, now: u64) -> (r: Option<(NavLoc, OpenAt)>)
        requires
            old(self).inv(),
        ensures
            final(self).inv(),
            r is Some <==> old(self).nav.index > 0,
            r is None ==> *final(self) == *old(self),
            r matches Some(x) ==> x.0 == old(self).nav.history@[old(self).nav.index - 1]
                && Self::opens_at(
                (Self {
                    nav: (NavState {
                        index: (old(self).nav.index - 1) as i32,
                        restoring: false,
                        ..old(self).nav
                    }),
                    ..*old(self)
                }),
                *final(self),
                x.0.path@,
                now,
                x.1,
            ),
    {
        match self.nav.back() {
            None => None,
            Some(loc) => {
                self.nav.restoring = false;
                let opened = self.open_at(loc.path.as_str(), now);
                Some((loc, opened))
            },
        }
    }

    /// Steps forward in the history and opens that place.
    pub fn on_nav_forward(&mut self, now: u64) -> (r: Option<(NavLoc, OpenAt)>)
        requires
            old(self).inv(),
        ensures
            final(self).inv(),
            r is Some <==> 0 <= old(self).nav.index && old(self).nav.index + 1 < old(
                self,
            ).nav.history@.len(),
            r is None ==> *final(self) == *old(self),
            r matches Some(x) ==> x.0 == old(self).nav.history@[old(self).nav.index + 1]
                && Self::opens_at(
                (Self {
                    nav: (NavState {
                        index: (old(self).nav.index + 1) as i32,
                        restoring: false,
                        ..old(self).nav
                    }),
                    ..*old(self)
                }),
                *final(self),
                x.0.path@,
                now,
                x.1,
            ),
    {
        match self.nav.forward() {
            None => None,
            Some(loc) => {
                self.nav.restoring = false;
                let opened = self.open_at(loc.path.as_str(), now);
                Some((loc, opened))
            },
        }
    }

    /// A file of the project that is being opened was read, or could not be, which is passed over.
    pub fn restore_file(&mut self, p: String, ok: bool, now: u64) -> (r: Option<Opened>)
        requires
            old(self).inv(),
            old(self).has_room(),
        ensures
            final(self).inv(),
            r is Some <==> ok,
            r is None ==> *final(self) == *old(self),
            r matches Some(o) ==> Self::inserts(*old(self), *final(self), p, now, o),
    {
        if ok {
            Some(self.insert_tab(p, now))
        } else {
            None
        }
    }

    /// Which tab comes to the front once all files of a project are read: that of the file that was
    /// in front, where it could be read, or the last one where no file was in front.
    pub open spec fn restored_front(self, active: Option<Seq<char>>, ix: int) -> bool {
        match active {
            Some(p) => tabs::shows_at(self.tabs.tabs@, p, ix),
            None => ix == self.tabs.tabs@.len() - 1 && ix >= 0,
        }
    }

    /// All files of a project are read: brings a tab to the front, and notes the project.
    pub fn restore_done(&mut self, active: Option<String>, now: u64) -> (s: PersistedSession)
        requires
            old(self).inv(),
        ensures
            final(self).inv(),
            !final(self).restoring_tabs,
            final(self).noted_in(old(self).projects),
            s@ == final(self).projects.stored_model(),
            (forall|ix: int| !old(self).restored_front(text::opt_text(active), ix))
                ==> *final(self) == (Self {
                restoring_tabs: false,
                projects: final(self).projects,
                ..*old(self)
            }),
            (exists|ix: int| old(self).restored_front(text::opt_text(active), ix)) ==> {
                &&& final(self).tabs.active is Some
                &&& old(self).restored_front(
                    text::opt_text(active),
                    final(self).tabs.active->0 as int,
                )
                &&& exists|mid: Self, first: PersistedSession|
                    #![trigger Self::fronts(*old(self), mid, final(self).tabs.active->0 as int, now, first)]
                    Self::fronts(
                        *old(self),
                        mid,
                        final(self).tabs.active->0 as int,
                        now,
                        first,
                    ) && *final(self) == (Self {
                        restoring_tabs: false,
                        projects: final(self).projects,
                        ..mid
                    })
            },
    {
        let n = self.tabs.tabs.len();
        let ghost wanted = text::opt_text(active);
        let pick = match &active {
            Some(p) => self.tabs.position(p.as_str()),
            None => if n > 0 {
                Some(n - 1)
            } else {
                None
            },
        };
        proof {
            match pick {
                Some(ix) => {
                    assert(old(self).restored_front(wanted, ix as int));
                },
                None => {
                    assert forall|ix: int| !old(self).restored_front(wanted, ix) by {
                        if wanted is Some && tabs::shows_at(self.tabs.tabs@, wanted->0, ix) {
                            assert(tabs::shows(self.tabs.tabs@, wanted->0));
                        }
                    }
                },
            }
        }
        let ghost before = self.projects.models();
        match pick {
            Some(ix) => {
                let first = self.activate_tab(ix, now);
                let ghost mid = *self;
                self.restoring_tabs = false;
                assert(self.slot() == mid.slot());
                proof {
                    projects::law_the_later_state_counts(before, mid.slot(), mid.slot());
                }
                let s = self.persist_session();
                assert(Self::fronts(*old(self), mid, ix as int, now, first->0));
                assert(self.slot() == mid.slot());
                s
            },
            None => {
                self.restoring_tabs = false;
                self.persist_session()
            },
        }
    }

    /// Saves the file in front.
    pub fn on_save(&mut self) -> (r: Option<SaveRequest>)
        requires
            old(self).inv(),
        ensures
            final(self).inv(),
            r is Some <==> old(self).tabs.active is Some,
            r is None ==> *final(self) == *old(self),
            r matches Some(q) ==> {
                let p = (old(self).tabs.front()->0).path@;
                &&& q.path@ == p
                &&& q.is_java == (path::name_of(p) is Some && path::extension_of(
                    path::name_of(p)->0,
                ) == Some("java"@))
                &&& *final(self) == (Self { status: final(self).status, ..*old(self) })
                &&& final(self).status@ == "保存 "@ + p + " …"@
            },
    {
        let p = match self.tabs.active_tab() {
            Some(t) => t.path.clone(),
            None => {
                return None;
            },
        };
        let is_java = match path::file_name(p.as_str()) {
            Some(n) => match path::extension(n.as_str()) {
                Some(e) => text::str_eq(e.as_str(), "java"),
                None => false,
            },
            None => false,
        };
        self.status = text::cat3("保存 ", p.as_str(), " …");
        Some(SaveRequest { path: p, is_java })
    }

    /// File `p` was saved, or could not be. Whether the changes of the repositories are to be read
    /// again.
    pub fn saved(&mut self, p: &str, result: Result<(), String>) -> (refresh: bool)
        requires
            old(self).inv(),
        ensures
            final(self).inv(),
            refresh == (result is Ok),
            *final(self) == (Self {
                status: final(self).status,
                tabs: final(self).tabs,
                ..*old(self)
            }),
            final(self).tabs.active == old(self).tabs.active,
            final(self).tabs.next_id == old(self).tabs.next_id,
            final(self).tabs.tabs@.len() == old(self).tabs.tabs@.len(),
            forall|i: int|
                0 <= i < old(self).tabs.tabs@.len() ==> #[trigger] final(self).tabs.tabs@[i] == (
                if result is Ok && path::same(old(self).tabs.tabs@[i].path@, p@) {
                    OpenTab { dirty: false, ..old(self).tabs.tabs@[i] }
                } else {
                    old(self).tabs.tabs@[i]
                }),
            final(self).status@ == (match result {
                Ok(_) => "已保存 "@ + p@,
                Err(e) => "保存失败: "@ + e@,
            }),
    {
        match result {
            Ok(_) => {
                self.tabs.mark_saved(p);
                self.status = text::cat2("已保存 ", p);
                true
            },
            Err(e) => {
                self.status = text::cat2("保存失败: ", e.as_str());
                false
            },
        }
    }

    /// What closing tab `ix` leads to, where `s` is to be stored.
    pub open spec fn closes(before: Self, after: Self, ix: int, s: PersistedSession) -> bool {
        &&& after == (Self { tabs: after.tabs, projects: after.projects, ..before })
        &&& tabs::closed_tab(before.tabs, after.tabs, ix)
        &&& after.noted_in(before.projects)
        &&& s@ == after.projects.stored_model()
    }

    /// Closes tab `ix`. Gives the number of its editor.
    pub fn close_tab_at(&mut self, ix: usize) -> (r: Option<(u64, PersistedSession)>)
        requires
            old(self).inv(),
        ensures
            final(self).inv(),
            r is Some <==> ix < old(self).tabs.tabs@.len(),
            r is None ==> *final(self) == *old(self),
            r matches Some(x) ==> x.0 == old(self).tabs.tabs@[ix as int].id && Self::closes(
                *old(self),
                *final(self),
                ix as int,
                x.1,
            ),
    {
        match self.tabs.close_at(ix) {
            Some(id) => Some((id, self.persist_session())),
            None => None,
        }
    }

    /// Closes the tab in front.
    pub fn on_close_tab(&mut self) -> (r: Option<(u64, PersistedSession)>)
        requires
            old(self).inv(),
        ensures
            final(self).inv(),
            r is Some <==> old(self).tabs.active is Some,
            r is None ==> *final(self) == *old(self),
            r matches Some(x) ==> x.0 == (old(self).tabs.front()->0).id && Self::closes(
                *old(self),
                *final(self),
                old(self).tabs.active->0 as int,
                x.1,
            ),
    {
        match self.tabs.active {
            Some(ix) => self.close_tab_at(ix),
            None => None,
        }
    }
}

/// A line that is gone to stands in the middle of the rows, of 20 where their number is not known yet; a
/// line near the beginning is shown with the beginning of the file.
pub proof fn law_lines_are_shown_in_the_middle(line: u32, rows: Option<u64>, r: u64)
    requires
        call_ensures(centered_top, (line, rows), r),
    ensures
        r <= line,
        rows matches Some(n) ==> line >= n / 2 ==> line - r == n / 2,
        rows matches Some(n) ==> line < n / 2 ==> r == 0,
        rows is None && line >= 10 ==> line - r == 10,
        rows is None && line < 10 ==> r == 0,
{
}

/// A file that is open is not read again: its tab comes to the front. Another one is read.
pub proof fn law_open_files_are_not_read_again(w: &mut Workbench, p: &str, now: u64, r: OpenFile, i: usize)
    requires
        old(w).inv(),
        call_ensures(Workbench::open_file, (w, p, now), r),
        0 <= i < old(w).tabs.tabs@.len(),
        path::same(old(w).tabs.tabs@[i as int].path@, p@),
    ensures
        !(r is Read),
        final(w).tabs.active == Some(i),
{
    let i = i as int;
    assert(tabs::shows_at(old(w).tabs.tabs@, p@, i));
    assert(final(w).tabs.active is Some);
    let a = final(w).tabs.active->0 as int;
    assert(tabs::shows_at(old(w).tabs.tabs@, p@, a));
    if a < i {
        assert(path::same(old(w).tabs.tabs@[a].path@, old(w).tabs.tabs@[i].path@));
    } else if i < a {
        assert(path::same(old(w).tabs.tabs@[i].path@, old(w).tabs.tabs@[a].path@));
    }
}

/// Saving writes the file in front and clears the mark of unsaved changes of that file alone, and only
/// where it was written.
pub proof fn law_saving_clears_one_mark(w: &mut Workbench, p: &str, result: Result<(), String>, refresh: bool, i: int)
    requires
        old(w).inv(),
        call_ensures(Workbench::saved, (w, p, result), refresh),
        0 <= i < old(w).tabs.tabs@.len(),
    ensures
        result is Err ==> final(w).tabs.tabs@[i] == old(w).tabs.tabs@[i],
        result is Ok && path::same(old(w).tabs.tabs@[i].path@, p@) ==> !final(w).tabs.tabs@[i].dirty,
        !path::same(old(w).tabs.tabs@[i].path@, p@) ==> final(w).tabs.tabs@[i]
            == old(w).tabs.tabs@[i],
        refresh <==> result is Ok,
{
}

/// The file in front is saved, and the Java server is told of Java files alone.
pub proof fn law_the_file_in_front_is_saved(w: &mut Workbench, r: Option<SaveRequest>, a: usize, dir: Seq<char>, stem: Seq<char>)
    requires
        old(w).inv(),
        call_ensures(Workbench::on_save, (w,), r),
        old(w).tabs.active == Some(a),
        dir.len() > 0,
        stem.len() > 0,
        !stem.contains('/'),
        old(w).tabs.tabs@[a as int].path@ == path::joined_path(dir, stem + seq!['.'] + "java"@),
    ensures
        r matches Some(q) && q.path@ == old(w).tabs.tabs@[a as int].path@ && q.is_java,
{
    reveal_strlit("java");
    let ext = "java"@;
    assert(ext.len() == 4 && ext[0] == 'j' && ext[1] == 'a' && ext[2] == 'v' && ext[3] == 'a');
    let n = stem + seq!['.'] + ext;
    assert(!ext.contains('.'));
    assert(!ext.contains('/'));
    assert(!n.contains('/')) by {
        if n.contains('/') {
            let k = n.index_of('/');
            if k < stem.len() {
                assert(stem[k] == '/');
            } else if k > stem.len() {
                assert(ext[k - stem.len() - 1] == '/');
            }
        }
    }
    assert(n.len() > 2);
    assert(path::is_name(n)) by {
        assert(seq!['.'].len() == 1);
    }
    assert(n != seq!['.', '.']) by {
        assert(seq!['.', '.'].len() == 2);
    }
    path::law_a_name_below_a_folder(dir, n);
    path::law_a_name_is_stem_and_extension(stem, ext);
}

/// A tab that is chosen comes to the front with its folders open in the tree, and is what the session
/// keeps as the file in front of the open project.
pub proof fn law_the_chosen_tab_is_kept(w: &mut Workbench, ix: usize, now: u64, r: Option<PersistedSession>)
    requires
        old(w).inv(),
        call_ensures(Workbench::activate_tab, (w, ix, now), r),
        ix < old(w).tabs.tabs@.len(),
    ensures
        final(w).tabs.active == Some(ix),
        final(w).tabs.tabs@.len() == old(w).tabs.tabs@.len(),
        final(w).tabs.tabs@[ix as int].path == old(w).tabs.tabs@[ix as int].path,
        forall|f: Seq<char>| old(w).expanded@.contains(f) ==> #[trigger] final(w).expanded@.contains(f),
        path::parent_of(old(w).tabs.tabs@[ix as int].path@) matches Some(d) ==> path::within(
            d,
            old(w).project_root@,
        ) && !path::same(d, old(w).project_root@) ==> final(w).expanded@.contains(d),
        r matches Some(s) && s@.active_project_index < s@.projects.len() && s@.projects[s@.active_project_index as int].path
            == old(w).project_root@ && s@.projects[s@.active_project_index as int].active_file
            == Some(old(w).tabs.tabs@[ix as int].path@),
{
    let file = old(w).tabs.tabs@[ix as int].path@;
    tree::law_revealing_opens_the_way_down(file, old(w).project_root@);
    lemma_kept(*old(w), *final(w));
    assert(final(w).tabs.tabs@[ix as int].path@ == file);
    assert(final(w).slot().active_file == Some(file));
}

proof fn lemma_kept(before: Workbench, after: Workbench)
    requires
        after.noted_in(before.projects),
    ensures
        after.projects.active < after.projects.models().len(),
        after.projects.models()[after.projects.active as int] == after.slot(),
{
    let all = before.projects.models();
    let slot = after.slot();
    projects::law_noting_keeps_the_other_projects(all, slot);
    if projects::lists(all, slot.path) {
        let i = choose|i: int| projects::first_at(all, slot.path, i);
        assert(projects::first_at(all, slot.path, projects::place_of(all, slot.path)));
    }
}

/// Going back and then forward leads to the place that one had come from.
pub proof fn law_forward_undoes_back(
    w: &mut Workbench,
    v: &mut Workbench,
    now: u64,
    back: Option<(NavLoc, OpenAt)>,
    forth: Option<(NavLoc, OpenAt)>,
)
    requires
        old(w).inv(),
        call_ensures(Workbench::on_nav_back, (w, now), back),
        *old(v) == *final(w),
        call_ensures(Workbench::on_nav_forward, (v, now), forth),
        old(w).nav.index > 0,
    ensures
        back matches Some(b) && b.0 == old(w).nav.history@[old(w).nav.index - 1],
        forth matches Some(f) && f.0 == old(w).nav.history@[old(w).nav.index as int],
        final(v).nav.index == old(w).nav.index,
        final(v).nav.history@ == old(w).nav.history@,
{
}

/// A file that was read is shown in front, in a tab of its own.
pub proof fn law_a_read_file_is_in_front(
    w: &mut Workbench,
    p: String,
    now: u64,
    r: Option<(Opened, PersistedSession)>,
)
    requires
        old(w).inv(),
        old(w).has_room(),
        call_ensures(Workbench::file_read, (w, p, Ok::<(), String>(()), now), r),
    ensures
        r is Some,
        final(w).tabs.active matches Some(a) && a < final(w).tabs.tabs@.len() && path::same(
            final(w).tabs.tabs@[a as int].path@,
            p@,
        ),
        !tabs::shows(old(w).tabs.tabs@, p@) ==> final(w).tabs.active == Some(
            (final(w).tabs.tabs@.len() - 1) as usize,
        ) && !final(w).tabs.tabs@.last().dirty && final(w).tabs.tabs@.last().path == p,
        final(w).project_root == old(w).project_root && final(w).settings == old(w).settings,
{
    let x = r->0;
    let mid = choose|mid: Workbench|
        #![trigger Workbench::inserts(*old(w), mid, p, now, x.0)]
        Workbench::inserts(*old(w), mid, p, now, x.0) && Workbench::fronts(
            mid,
            *final(w),
            x.0.tab.index as int,
            now,
            x.1,
        );
    assert(tabs::inserted(old(w).tabs, mid.tabs, p, now, x.0.tab));
    assert(tabs::activated(mid.tabs, final(w).tabs, x.0.tab.index as int, now));
}

/// Closing the tab in front closes just that one.
pub proof fn law_closing_takes_one_tab(
    w: &mut Workbench,
    r: Option<(u64, PersistedSession)>,
    a: usize,
    j: int,
)
    requires
        old(w).inv(),
        call_ensures(Workbench::on_close_tab, (w,), r),
        old(w).tabs.active == Some(a),
        0 <= j < old(w).tabs.tabs@.len(),
    ensures
        r matches Some(x) && x.0 == old(w).tabs.tabs@[a as int].id,
        final(w).tabs.tabs@.len() == old(w).tabs.tabs@.len() - 1,
        j < a ==> final(w).tabs.tabs@[j] == old(w).tabs.tabs@[j],
        j > a ==> final(w).tabs.tabs@[j - 1] == old(w).tabs.tabs@[j],
        final(w).tabs.active is None <==> old(w).tabs.tabs@.len() == 1,
        final(w).overlay == old(w).overlay && final(w).nav == old(w).nav,
{
}

/// Once the tabs of a project are back, the file that was in front is in front again; without one, the
/// last tab is.
pub proof fn law_the_front_file_is_restored(
    w: &mut Workbench,
    active: Option<String>,
    now: u64,
    s: PersistedSession,
    i: usize,
)
    requires
        old(w).inv(),
        call_ensures(Workbench::restore_done, (w, active, now), s),
        i < old(w).tabs.tabs@.len(),
    ensures
        !final(w).restoring_tabs,
        active matches Some(p) ==> path::same(old(w).tabs.tabs@[i as int].path@, p@) ==> final(w).tabs.active == Some(i),
        active is None && i == old(w).tabs.tabs@.len() - 1 ==> final(w).tabs.active == Some(i),
        active matches Some(p) ==> !tabs::shows(old(w).tabs.tabs@, p@) ==> final(w).tabs == old(
            w,
        ).tabs,
{
    let opt = text::opt_text(active);
    match active {
        Some(p) => {
            if path::same(old(w).tabs.tabs@[i as int].path@, p@) {
                assert(old(w).restored_front(opt, i as int));
                let a = final(w).tabs.active->0 as int;
                assert(old(w).restored_front(opt, a));
                if a < i {
                    assert(path::same(old(w).tabs.tabs@[a].path@, old(w).tabs.tabs@[i as int].path@));
                } else if i < a {
                    assert(path::same(old(w).tabs.tabs@[i as int].path@, old(w).tabs.tabs@[a].path@));
                }
            }
            if !tabs::shows(old(w).tabs.tabs@, p@) {
                assert forall|ix: int| !old(w).restored_front(opt, ix) by {
                    if tabs::shows_at(old(w).tabs.tabs@, p@, ix) {
                        assert(tabs::shows(old(w).tabs.tabs@, p@));
                    }
                }
            }
        },
        None => {
            if i == old(w).tabs.tabs@.len() - 1 {
                assert(old(w).restored_front(opt, i as int));
            }
        },
    }
}

/// Going to a place in an open file brings its tab to the front; another file is read first. The place
/// that is left can be gone back to.
pub proof fn law_going_to_a_place(
    w: &mut Workbench,
    p: String,
    line: u32,
    cursor: u32,
    now: u64,
    r: OpenAt,
    i: usize,
)
    requires
        old(w).inv(),
        call_ensures(Workbench::open_file_at, (w, p, line, cursor, now), r),
        i < old(w).tabs.tabs@.len(),
        path::same(old(w).tabs.tabs@[i as int].path@, p@),
    ensures
        r matches OpenAt::Jump(ix, s) && ix == i,
        final(w).tabs.active == Some(i),
{
    assert(tabs::shows_at(old(w).tabs.tabs@, p@, i as int));
    assert(tabs::shows(old(w).tabs.tabs@, p@));
    if let OpenAt::Jump(ix, s) = r {
        if ix < i {
            assert(path::same(old(w).tabs.tabs@[ix as int].path@, old(w).tabs.tabs@[i as int].path@));
        } else if i < ix {
            assert(path::same(old(w).tabs.tabs@[i as int].path@, old(w).tabs.tabs@[ix as int].path@));
        }
    }
}

/// Opening a Java file of the project starts a server that is off or has failed, and leaves a running one
/// as it is; other files start none.
pub proof fn law_java_files_start_the_server(
    w: &mut Workbench,
    p: String,
    now: u64,
    r: Option<Opened>,
)
    requires
        old(w).inv(),
        old(w).has_room(),
        call_ensures(Workbench::restore_file, (w, p, true, now), r),
        !tabs::shows(old(w).tabs.tabs@, p@),
    ensures
        r is Some,
        final(w).tabs.tabs@.len() > 0 && final(w).tabs.tabs@.last().path == p,
        ({
            let java = final(w).tabs.tabs@.last().lang@ == "java"@ && path::within(
                p@,
                old(w).project_root@,
            );
            &&& r->0.starts_lsp <==> java
            &&& java && (old(w).lsp_phase is Off || old(w).lsp_phase is Failed)
                ==> final(w).lsp_phase is Starting
            &&& !java ==> final(w).lsp_phase == old(w).lsp_phase
            &&& old(w).lsp_phase is Ready || old(w).lsp_phase is Indexing || old(
                w,
            ).lsp_phase is Starting ==> final(w).lsp_phase == old(w).lsp_phase
        }),
        final(w).project_root == old(w).project_root,
{
}

} // verus!
