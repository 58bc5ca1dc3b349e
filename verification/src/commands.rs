//! Commands of the workbench: what lies over it, its panels, its settings, and finding code.
use vstd::prelude::*;

use crate::editing::OpenAt;
use crate::git_marks;
use crate::git_panel::{GitChange, GitPanelMode};
use crate::goto::{Goto, GotoContext, JdtSource};
use crate::nav;
use crate::nav::NavLoc;
use crate::path;
use crate::preview::PreviewStep;
use crate::session::EditorSettings;
use crate::stall;
use crate::terminal_panel::Modifiers;
use crate::text;
use crate::usages_view::{LspUsage, UsagesView};
use crate::welcome::RecentEntry;
use crate::workbench::{DoubleShift, Overlay, PanelTab, SidebarView, Workbench};

verus! {

/// Two presses of Shift within this time, in nanoseconds, open the file finder.
pub const DOUBLE_SHIFT_NS: u64 = 400_000_000;

/// Shift is held and nothing else.
pub open spec fn shift_alone(m: Modifiers) -> bool {
    m.shift && !m.control && !m.alt && !m.platform && !m.function
}

/// What the arrow keys and Enter act on.
#[derive(Clone, Copy, Debug, PartialEq, Eq, Structural)]
pub enum PaletteTarget {
    QuickOpen,
    Search,
    Usages,
    Recents,
    NameInput,
}

/// Which list the arrow keys move in.
pub open spec fn moved_list(o: Option<Overlay>) -> Option<PaletteTarget> {
    match o {
        Some(Overlay::QuickOpen) => Some(PaletteTarget::QuickOpen),
        Some(Overlay::Search) => Some(PaletteTarget::Search),
        Some(Overlay::Usages) => Some(PaletteTarget::Usages),
        Some(Overlay::Recents) => Some(PaletteTarget::Recents),
        _ => None,
    }
}

/// What Enter confirms.
pub open spec fn confirmed_by(o: Option<Overlay>) -> Option<PaletteTarget> {
    match o {
        Some(Overlay::NameInput { title, op }) => Some(PaletteTarget::NameInput),
        Some(Overlay::Usages) => Some(PaletteTarget::Usages),
        Some(Overlay::Recents) => Some(PaletteTarget::Recents),
        _ => None,
    }
}

/// Whether any of the Maven settings is given.
pub open spec fn maven_configured(s: EditorSettings) -> bool {
    !text::all_white(s.maven_home@) || !text::all_white(s.maven_settings@) || !text::all_white(
        s.maven_repo@,
    )
}

/// Whether any of the Maven settings is given.
pub fn is_maven_configured(s: &EditorSettings) -> (r: bool)
    ensures
        r == maven_configured(*s),
{
    !text::is_blank(s.maven_home.as_str()) || !text::is_blank(s.maven_settings.as_str())
        || !text::is_blank(s.maven_repo.as_str())
}

/// Whether to remind of the Maven settings: the project is a Maven project, and none is given.
pub fn prompts_for_maven(has_pom: bool, s: &EditorSettings) -> (r: bool)
    ensures
        r == (has_pom && !maven_configured(*s)),
{
    has_pom && !is_maven_configured(s)
}

/// The full name of a class.
pub open spec fn full_name(package: Seq<char>, class: Seq<char>) -> Seq<char> {
    if package.len() == 0 {
        class
    } else {
        package + "."@ + class
    }
}

/// The full name of a class.
pub fn class_name(package: &str, class: &str) -> (r: String)
    ensures
        r@ == full_name(package@, class@),
{
    if text::first_char(package).is_none() {
        class.to_owned()
    } else {
        text::cat3(package, ".", class)
    }
}

/// What an Arthas command is about: the method that is called where the cursor stands; else the
/// method around it, by the symbols of the file, or by the text of its line.
pub fn arthas_target(
    call: Option<(String, String)>,
    self_fqn: String,
    by_symbols: Option<String>,
    by_line: Option<String>,
) -> (r: (String, Option<String>))
    ensures
        r == (match call {
            Some(c) => (c.0, Some(c.1)),
            None => (
                self_fqn,
                match by_symbols {
                    Some(m) => Some(m),
                    None => by_line,
                },
            ),
        }),
{
    match call {
        Some((fqn, method)) => (fqn, Some(method)),
        None => (
            self_fqn,
            match by_symbols {
                Some(m) => Some(m),
                None => by_line,
            },
        ),
    }
}

/// Where a chosen use is.
#[derive(Clone, Copy, Debug, PartialEq, Eq, Structural)]
pub enum UsagePlace {
    /// In a library class, whose source is to be fetched.
    Library,
    File,
}

/// How going to a definition ended.
pub enum GotoEnd {
    /// A file was opened, or is to be read.
    Opened(OpenAt),
    /// The uses are shown.
    Usages { view: UsagesView, step: PreviewStep },
    /// The status says it.
    Said,
}

/// A search for the uses of what stands at the cursor.
pub struct UsesRequest {
    pub file: String,
    /// What the tab of the file is called.
    pub title: String,
    pub line: u32,
    pub character: u32,
}

impl Workbench {
    /// Closes what lies over the workbench.
    pub fn close_palette(&mut self)
        ensures
            *final(self) == (Self { overlay: None, ..*old(self) }),
    {
        self.overlay = None;
    }

    /// Opens the file finder, or closes it where it is open.
    pub fn toggle_palette(&mut self) -> (opened: bool)
        ensures
            opened == !(old(self).overlay matches Some(Overlay::QuickOpen)),
            *final(self) == (Self {
                overlay: if opened {
                    Some(Overlay::QuickOpen)
                } else {
                    None
                },
                ..*old(self)
            }),
    {
        let open = matches!(self.overlay, Some(Overlay::QuickOpen));
        if open {
            self.overlay = None;
        } else {
            self.overlay = Some(Overlay::QuickOpen);
        }
        !open
    }

    /// Opens the search panel, or closes it where it is open.
    pub fn on_toggle_search(&mut self) -> (opened: bool)
        ensures
            opened == !(old(self).overlay matches Some(Overlay::Search)),
            *final(self) == (Self {
                overlay: if opened {
                    Some(Overlay::Search)
                } else {
                    None
                },
                ..*old(self)
            }),
    {
        let open = matches!(self.overlay, Some(Overlay::Search));
        if open {
            self.overlay = None;
        } else {
            self.overlay = Some(Overlay::Search);
        }
        !open
    }

    /// Opens the settings, or closes them where they are open.
    pub fn on_open_settings(&mut self) -> (opened: bool)
        ensures
            opened == !(old(self).overlay matches Some(Overlay::Settings)),
            *final(self) == (Self {
                overlay: if opened {
                    Some(Overlay::Settings)
                } else {
                    None
                },
                ..*old(self)
            }),
    {
        let open = matches!(self.overlay, Some(Overlay::Settings));
        if open {
            self.overlay = None;
        } else {
            self.overlay = Some(Overlay::Settings);
        }
        !open
    }

    /// Opens the settings for their Maven page. Whether they were closed until now.
    pub fn open_settings_at_maven(&mut self) -> (opened: bool)
        ensures
            opened == !(old(self).overlay matches Some(Overlay::Settings)),
            *final(self) == (Self { overlay: Some(Overlay::Settings), ..*old(self) }),
    {
        let open = matches!(self.overlay, Some(Overlay::Settings));
        if !open {
            self.overlay = Some(Overlay::Settings);
        }
        !open
    }

    /// Closes the recent projects where they are open; else they are to be read.
    pub fn on_show_recents(&mut self) -> (read: bool)
        ensures
            read == !(old(self).overlay matches Some(Overlay::Recents)),
            read ==> *final(self) == *old(self),
            !read ==> *final(self) == (Self { overlay: None, ..*old(self) }),
    {
        if matches!(self.overlay, Some(Overlay::Recents)) {
            self.overlay = None;
            false
        } else {
            true
        }
    }

    /// Shows `o` over the workbench.
    pub fn show_overlay(&mut self, o: Overlay)
        ensures
            *final(self) == (Self { overlay: Some(o), ..*old(self) }),
    {
        self.overlay = Some(o);
    }

    /// A recent project was chosen: closes the list. Whether the project is to be opened.
    pub fn recent_chosen(&mut self, root: &str) -> (open: bool)
        ensures
            *final(self) == (Self { overlay: None, ..*old(self) }),
            open == !path::same(root@, old(self).project_root@),
    {
        self.overlay = None;
        !path::eq(root, self.project_root.as_str())
    }

    /// The recent projects for the welcome page are there.
    pub fn recents_read(&mut self, recents: Vec<RecentEntry>)
        ensures
            *final(self) == (Self { recents, ..*old(self) }),
    {
        self.recents = recents;
    }

    /// Which list the arrow keys move in.
    pub fn palette_list(&self) -> (r: Option<PaletteTarget>)
        ensures
            r == moved_list(self.overlay),
    {
        match &self.overlay {
            Some(Overlay::QuickOpen) => Some(PaletteTarget::QuickOpen),
            Some(Overlay::Search) => Some(PaletteTarget::Search),
            Some(Overlay::Usages) => Some(PaletteTarget::Usages),
            Some(Overlay::Recents) => Some(PaletteTarget::Recents),
            _ => None,
        }
    }

    /// What Enter confirms.
    pub fn palette_confirm(&self) -> (r: Option<PaletteTarget>)
        ensures
            r == confirmed_by(self.overlay),
    {
        match &self.overlay {
            Some(Overlay::NameInput { title: _, op: _ }) => Some(PaletteTarget::NameInput),
            Some(Overlay::Usages) => Some(PaletteTarget::Usages),
            Some(Overlay::Recents) => Some(PaletteTarget::Recents),
            _ => None,
        }
    }

    /// Whether Shift is pressed alone at time `now` for the second time.
    pub open spec fn second_shift(self, m: Modifiers, now: u64) -> bool {
        shift_alone(m) && !self.shift.held && self.shift.last is Some && stall::less(
            now,
            self.shift.last->0,
        ) < DOUBLE_SHIFT_NS
    }

    /// The held keys have changed at time `now`: a second press of Shift alone opens or closes the
    /// file finder. Whether it was opened, where that happened.
    pub fn on_modifiers_changed(&mut self, m: &Modifiers, now: u64) -> (r: Option<bool>)
        ensures
            r is Some <==> old(self).second_shift(*m, now),
            r matches Some(opened) ==> {
                &&& opened == !(old(self).overlay matches Some(Overlay::QuickOpen))
                &&& *final(self) == (Self {
                    overlay: if opened {
                        Some(Overlay::QuickOpen)
                    } else {
                        None
                    },
                    shift: (DoubleShift { last: None, held: m.shift }),
                    ..*old(self)
                })
            },
            r is None ==> *final(self) == (Self {
                shift: (DoubleShift {
                    last: if shift_alone(*m) && !old(self).shift.held {
                        Some(now)
                    } else {
                        old(self).shift.last
                    },
                    held: m.shift,
                }),
                ..*old(self)
            }),
    {
        let alone = m.shift && !m.control && !m.alt && !m.platform && !m.function;
        let was_held = self.shift.held;
        self.shift.held = m.shift;
        if alone && !was_held {
            if let Some(last) = self.shift.last {
                if stall::minus(now, last) < DOUBLE_SHIFT_NS {
                    self.shift.last = None;
                    return Some(self.toggle_palette());
                }
            }
            self.shift.last = Some(now);
        }
        None
    }

    /// Shows another view in the side bar: the mode for the Git panel, where that is shown.
    pub fn set_sidebar_view(&mut self, view: SidebarView) -> (mode: Option<GitPanelMode>)
        ensures
            *final(self) == (Self { sidebar_view: view, ..*old(self) }),
            mode == (match view {
                SidebarView::Commit => Some(GitPanelMode::Commit),
                SidebarView::Git => Some(GitPanelMode::Branches),
                _ => None,
            }),
    {
        self.sidebar_view = view;
        match view {
            SidebarView::Commit => Some(GitPanelMode::Commit),
            SidebarView::Git => Some(GitPanelMode::Branches),
            _ => None,
        }
    }

    /// Shows the tree, to select the entry at `abs` in it: its path and its name.
    pub fn locate_path_in_tree(&mut self, abs: String) -> (r: (String, String))
        ensures
            *final(self) == (Self { sidebar_view: SidebarView::Files, ..*old(self) }),
            r.0 == abs,
            r.1@ == path::shown_name(abs@),
    {
        let _ = self.set_sidebar_view(SidebarView::Files);
        let name = path::display_name(abs.as_str());
        (abs, name)
    }

    /// The entry of the tab in front, to be selected in the tree.
    pub fn locate_current_file(&self) -> (r: Option<(String, String)>)
        requires
            self.inv(),
        ensures
            r is Some <==> self.tabs.active is Some,
            r matches Some(x) ==> x.0 == (self.tabs.front()->0).path && x.1 == (
            self.tabs.front()->0).title,
    {
        match self.tabs.active_tab() {
            Some(t) => Some((t.path.clone(), t.title.clone())),
            None => None,
        }
    }

    /// A directory of the tree was opened or closed.
    pub fn folder_toggled(&mut self, id: String, expanded: bool)
        requires
            old(self).inv(),
        ensures
            final(self).inv(),
            *final(self) == (Self { expanded: final(self).expanded, ..*old(self) }),
            final(self).expanded@ == (if expanded {
                old(self).expanded@.insert(id@)
            } else {
                old(self).expanded@.remove(id@)
            }),
    {
        if expanded {
            self.expanded.insert(id);
        } else {
            let _ = self.expanded.remove(id.as_str());
        }
    }

    /// Turns the preview on or off.
    pub fn on_toggle_md_preview(&mut self)
        ensures
            *final(self) == (Self { md_preview: !old(self).md_preview, ..*old(self) }),
    {
        self.md_preview = !self.md_preview;
    }

    /// A link to the section `slug` was followed, which is section number `found` of the file in
    /// front: the section to show.
    pub fn scroll_md_to_anchor(&mut self, slug: &str, found: Option<usize>) -> (r: Option<usize>)
        requires
            old(self).inv(),
        ensures
            final(self).inv(),
            ({
                let shown = old(self).tabs.active is Some && (old(self).tabs.front()->0).lang@
                    == "markdown"@;
                &&& r == (if shown {
                    found
                } else {
                    None
                })
                &&& (!shown || found is Some) ==> *final(self) == *old(self)
                &&& (shown && found is None) ==> *final(self) == (Self {
                    status: final(self).status,
                    ..*old(self)
                }) && final(self).status@ == "未找到章节: #"@ + slug@
            }),
    {
        let shown = match self.tabs.active_tab() {
            Some(t) => text::str_eq(t.lang, "markdown"),
            None => false,
        };
        if !shown {
            return None;
        }
        if found.is_none() {
            self.status = text::cat2("未找到章节: #", slug);
        }
        found
    }

    /// Shows or hides the bottom panel. Whether the terminal is to be started.
    pub fn on_toggle_terminal(&mut self) -> (start: bool)
        ensures
            start == (!old(self).terminal_visible && !old(self).has_terminal),
            *final(self) == (Self {
                terminal_visible: !old(self).terminal_visible,
                has_terminal: old(self).has_terminal || !old(self).terminal_visible,
                ..*old(self)
            }),
    {
        self.terminal_visible = !self.terminal_visible;
        let start = self.terminal_visible && !self.has_terminal;
        if start {
            self.has_terminal = true;
        }
        start
    }

    /// Shows a page of the bottom panel.
    pub fn set_panel_tab(&mut self, tab: PanelTab)
        ensures
            *final(self) == (Self { panel_tab: tab, ..*old(self) }),
    {
        self.panel_tab = tab;
    }

    /// Shows the problems.
    pub fn show_problems(&mut self)
        ensures
            *final(self) == (Self {
                terminal_visible: true,
                panel_tab: PanelTab::Problems,
                ..*old(self)
            }),
    {
        self.terminal_visible = true;
        self.panel_tab = PanelTab::Problems;
    }

    /// The settings were read.
    pub fn settings_loaded(&mut self, settings: EditorSettings)
        ensures
            *final(self) == (Self { settings, ..*old(self) }),
    {
        self.settings = settings;
    }

    /// The settings were changed: takes them over. Whether the reminder of the Maven settings goes.
    pub fn apply_settings(&mut self, settings: EditorSettings) -> (unprompt: bool)
        ensures
            *final(self) == (Self { settings, status: final(self).status, ..*old(self) }),
            final(self).status@ == "设置已更新 ✓"@,
            unprompt == maven_configured(settings),
    {
        self.settings = settings;
        self.status = "设置已更新 ✓".to_owned();
        is_maven_configured(&self.settings)
    }

    /// Marks the changed files.
    pub fn apply_git_marks(&mut self, changes: &Vec<GitChange>)
        ensures
            *final(self) == (Self { git_marks: final(self).git_marks, ..*old(self) }),
            forall|abs: Seq<char>| #[trigger]
                (final(self).git_marks@)(abs) == git_marks::mark_in(changes@, abs),
    {
        self.git_marks = git_marks::marks_of(changes);
    }

    /// The changes of the project at `root` were read: marks the files, where that project is still
    /// open.
    pub fn git_marks_read(&mut self, root: &str, changes: &Vec<GitChange>) -> (applied: bool)
        ensures
            applied == path::same(old(self).project_root@, root@),
            !applied ==> *final(self) == *old(self),
            *final(self) == (Self { git_marks: final(self).git_marks, ..*old(self) }),
            applied ==> forall|abs: Seq<char>| #[trigger]
                (final(self).git_marks@)(abs) == git_marks::mark_in(changes@, abs),
    {
        if path::eq(self.project_root.as_str(), root) {
            self.apply_git_marks(changes);
            true
        } else {
            false
        }
    }

    /// The difference of a file was computed, or could not be, which is said.
    pub fn diff_ready(&mut self, result: Result<(), String>) -> (shown: bool)
        ensures
            shown == (result is Ok),
            match result {
                Ok(_) => *final(self) == (Self { overlay: Some(Overlay::Diff), ..*old(self) }),
                Err(e) => *final(self) == (Self { status: e, ..*old(self) }),
            },
    {
        match result {
            Ok(_) => {
                self.overlay = Some(Overlay::Diff);
                true
            },
            Err(e) => {
                self.status = e;
                false
            },
        }
    }

    /// Whether the tab in front holds Java code.
    pub open spec fn java_in_front(self) -> bool {
        self.tabs.active is Some && (self.tabs.front()->0).lang@ == "java"@
    }

    fn is_java_in_front(&self) -> (r: bool)
        requires
            self.inv(),
        ensures
            r == self.java_in_front(),
    {
        match self.tabs.active_tab() {
            Some(t) => text::str_eq(t.lang, "java"),
            None => false,
        }
    }

    /// Goes to the definition of what stands at the cursor, in Java code.
    pub fn on_goto_definition(&mut self, line: u32, character: u32) -> (r: Option<GotoContext>)
        requires
            old(self).inv(),
        ensures
            final(self).inv(),
            r is Some <==> old(self).java_in_front(),
            r is None ==> *final(self) == *old(self),
            r matches Some(c) ==> {
                let file = (old(self).tabs.front()->0).path;
                let k = path::components(file@);
                &&& c.file == file
                &&& c.title == (old(self).tabs.front()->0).title
                &&& c.line == line
                &&& c.character == character
                &&& c.project_root == old(self).project_root
                &&& c.jdt == (if old(self).jdt_sources@.contains_key(k) {
                    Some(old(self).jdt_sources@[k])
                } else {
                    None
                })
                &&& *final(self) == (Self { status: final(self).status, ..*old(self) })
                &&& final(self).status@ == "跳转定义…"@
            },
    {
        if !self.is_java_in_front() {
            return None;
        }
        let (file, title) = match self.tabs.active_tab() {
            Some(t) => (t.path.clone(), t.title.clone()),
            None => {
                return None;
            },
        };
        let jdt = match self.jdt_sources.get(file.as_str()) {
            Some(s) => Some(s.clone()),
            None => None,
        };
        self.status = "跳转定义…".to_owned();
        Some(
            GotoContext {
                file,
                title,
                line,
                character,
                project_root: self.project_root.clone(),
                jdt,
            },
        )
    }

    /// What opening a file at a place leads to, where the file may be the source of a library class.
    pub open spec fn arrives(
        before: Self,
        after: Self,
        p: String,
        line: u32,
        jdt: Option<JdtSource>,
        cursor: u32,
        now: u64,
        r: OpenAt,
    ) -> bool {
        &&& after.jdt_sources@ == (match jdt {
            Some(s) => before.jdt_sources@.insert(path::components(p@), s),
            None => before.jdt_sources@,
        })
        &&& (after.nav.history@, after.nav.index as int) == (if before.nav.restoring {
            (before.nav.history@, before.nav.index as int)
        } else {
            nav::jumped(
                before.nav.history@,
                before.nav.index as int,
                before.place(cursor),
                (NavLoc { path: p, line }),
            )
        })
        &&& after.nav.restoring == before.nav.restoring
        &&& Self::opens_at(
            (Self { nav: after.nav, jdt_sources: after.jdt_sources, ..before }),
            after,
            p@,
            now,
            r,
        )
    }

    /// Opens `p` at `line`, from line `cursor` of the tab in front, at time `now`. Where the file is
    /// the source of a library class, that is remembered.
    pub fn open_source_at(
        &mut self,
        p: String,
        line: u32,
        jdt: Option<JdtSource>,
        cursor: u32,
        now: u64,
    ) -> (r: OpenAt)
        requires
            old(self).inv(),
        ensures
            final(self).inv(),
            Self::arrives(*old(self), *final(self), p, line, jdt, cursor, now, r),
    {
        if let Some(s) = jdt {
            self.jdt_sources.insert(p.clone(), s);
        }
        self.open_file_at(p, line, cursor, now)
    }

    /// The search for a definition, which began in the file that is called `title`, is over: opens
    /// the file, shows the uses, or says what came of it.
    pub fn goto_done(&mut self, g: Goto, title: String, cursor: u32, now: u64) -> (r: GotoEnd)
        requires
            old(self).inv(),
        ensures
            final(self).inv(),
            match g {
                Goto::File { path: p, line, character, jdt } => r is Opened && Self::arrives(
                    *old(self),
                    *final(self),
                    p,
                    line,
                    jdt,
                    cursor,
                    now,
                    r->Opened_0,
                ),
                Goto::Usages(uses) => r is Usages && Self::lists(
                    *old(self),
                    *final(self),
                    title,
                    uses,
                    None,
                    r->view,
                    r->step,
                ),
                Goto::Status(msg) => r is Said && *final(self) == (Self {
                    status: msg,
                    ..*old(self)
                }),
                Goto::NotFound => r is Said && *final(self) == (Self {
                    status: final(self).status,
                    ..*old(self)
                }) && final(self).status@ == "未找到定义"@,
            },
    {
        match g {
            Goto::File { path: p, line, character: _, jdt } => GotoEnd::Opened(
                self.open_source_at(p, line, jdt, cursor, now),
            ),
            Goto::Usages(uses) => {
                let (view, step) = self.show_usages(title, uses, None);
                GotoEnd::Usages { view, step }
            },
            Goto::Status(msg) => {
                self.status = msg;
                GotoEnd::Said
            },
            Goto::NotFound => {
                self.status = "未找到定义".to_owned();
                GotoEnd::Said
            },
        }
    }

    /// What showing the uses `uses` leads to: they lie over the workbench in the order in which they
    /// came, and the status says how many there are.
    pub open spec fn lists(
        before: Self,
        after: Self,
        title: String,
        uses: Vec<LspUsage>,
        origin: Option<(String, u32, u32)>,
        view: UsagesView,
        step: PreviewStep,
    ) -> bool {
        &&& after == (Self {
            status: after.status,
            overlay: Some(Overlay::Usages),
            ..before
        })
        &&& after.status@ == text::dec(uses@.len()) + " 处引用"@
        &&& view.opens(title, uses, origin, step)
    }

    /// Shows the uses of a symbol of the file that is called `title`. Where `origin` gives the
    /// cursor, the use there is selected.
    pub fn show_usages(
        &mut self,
        title: String,
        uses: Vec<LspUsage>,
        origin: Option<(String, u32, u32)>,
    ) -> (r: (UsagesView, PreviewStep))
        ensures
            Self::lists(*old(self), *final(self), title, uses, origin, r.0, r.1),
    {
        self.status = text::cat2(text::dec_usize(uses.len()).as_str(), " 处引用");
        self.overlay = Some(Overlay::Usages);
        UsagesView::new(title, uses, origin)
    }

    /// Looks for the uses of what stands at the cursor, in Java code.
    pub fn on_find_usages(&mut self, line: u32, character: u32) -> (r: Option<UsesRequest>)
        requires
            old(self).inv(),
        ensures
            final(self).inv(),
            r is Some <==> old(self).java_in_front(),
            r is None ==> *final(self) == *old(self),
            r matches Some(q) ==> {
                &&& q.file == (old(self).tabs.front()->0).path
                &&& q.title == (old(self).tabs.front()->0).title
                &&& q.line == line
                &&& q.character == character
                &&& *final(self) == (Self { status: final(self).status, ..*old(self) })
                &&& final(self).status@ == "查找引用…"@
            },
    {
        if !self.is_java_in_front() {
            return None;
        }
        let (file, title) = match self.tabs.active_tab() {
            Some(t) => (t.path.clone(), t.title.clone()),
            None => {
                return None;
            },
        };
        self.status = "查找引用…".to_owned();
        Some(UsesRequest { file, title, line, character })
    }

    /// The search for uses is over: shows them, the one at the cursor selected, or says that there
    /// are none or what went wrong.
    pub fn find_usages_done(
        &mut self,
        q: UsesRequest,
        found: Result<Vec<LspUsage>, String>,
    ) -> (r: Option<(UsagesView, PreviewStep)>)
        ensures
            r is Some <==> (found matches Ok(v) && v@.len() > 0),
            match found {
                Ok(v) => if v@.len() > 0 {
                    Self::lists(
                        *old(self),
                        *final(self),
                        q.title,
                        v,
                        Some((q.file, q.line, q.character)),
                        (r->0).0,
                        (r->0).1,
                    )
                } else {
                    *final(self) == (Self { status: final(self).status, ..*old(self) }) && final(
                        self).status@ == "未找到引用"@
                },
                Err(e) => *final(self) == (Self { status: final(self).status, ..*old(self) })
                    && final(self).status@ == "查找失败: "@ + e@,
            },
    {
        match found {
            Ok(v) => {
                if v.len() > 0 {
                    Some(self.show_usages(q.title, v, Some((q.file, q.line, q.character))))
                } else {
                    self.status = "未找到引用".to_owned();
                    None
                }
            },
            Err(e) => {
                self.status = text::cat2("查找失败: ", e.as_str());
                None
            },
        }
    }

    /// A use was chosen: closes the list and says where the use is.
    pub fn usage_chosen(&mut self, uri: &str) -> (place: UsagePlace)
        ensures
            *final(self) == (Self { overlay: None, ..*old(self) }),
            place == (if "jdt://"@.is_prefix_of(uri@) {
                UsagePlace::Library
            } else {
                UsagePlace::File
            }),
    {
        self.overlay = None;
        if text::starts_with(uri, "jdt://") {
            UsagePlace::Library
        } else {
            UsagePlace::File
        }
    }

    /// An Arthas command is asked for, which only Java code has: the file.
    pub fn arthas_command(&mut self) -> (r: Option<String>)
        requires
            old(self).inv(),
        ensures
            final(self).inv(),
            r is Some <==> old(self).java_in_front(),
            r matches Some(file) ==> *final(self) == *old(self) && file == (
            old(self).tabs.front()->0).path,
            old(self).tabs.active is None ==> *final(self) == *old(self),
            (old(self).tabs.active is Some && r is None) ==> *final(self) == (Self {
                status: final(self).status,
                ..*old(self)
            }) && final(self).status@ == "Arthas 仅支持 Java 文件"@,
    {
        let (file, java) = match self.tabs.active_tab() {
            Some(t) => (t.path.clone(), text::str_eq(t.lang, "java")),
            None => {
                return None;
            },
        };
        if !java {
            self.status = "Arthas 仅支持 Java 文件".to_owned();
            return None;
        }
        Some(file)
    }

    /// The Arthas command was copied, or could not be.
    pub fn arthas_copied(&mut self, command: &str, result: Result<(), String>)
        ensures
            *final(self) == (Self { status: final(self).status, ..*old(self) }),
            final(self).status@ == (match result {
                Ok(_) => "已复制: "@ + command@,
                Err(e) => "复制失败: "@ + e@,
            }),
    {
        self.status = match result {
            Ok(_) => text::cat2("已复制: ", command),
            Err(e) => text::cat2("复制失败: ", e.as_str()),
        };
    }
}

/// The file finder opens on two presses of Shift alone that are close together, and the second press
/// does not count as the first of another pair.
pub proof fn law_two_presses_of_shift_are_one_command(
    w: Workbench,
    m: Modifiers,
    first: u64,
    second: u64,
)
    requires
        shift_alone(m),
        first <= second,
        second - first < DOUBLE_SHIFT_NS,
    ensures
        (Workbench { shift: (DoubleShift { last: Some(first), held: false }), ..w }).second_shift(
            m,
            second,
        ),
        forall|later: u64|
            !(#[trigger] (Workbench {
                shift: (DoubleShift { last: None, held: false }),
                ..w
            }).second_shift(m, later)),
{
}

/// Two presses of the shift key alone within 400 milliseconds open the file finder, or close it where
/// it is open; a single press or a slow second one does neither.
pub proof fn law_only_a_quick_second_press_counts(w: &mut Workbench, m: Modifiers, now: u64, r: Option<bool>)
    requires
        call_ensures(Workbench::on_modifiers_changed, (w, &m, now), r),
    ensures
        old(w).shift.last is None ==> r is None,
        m.control || m.alt || m.platform || m.function || !m.shift ==> r is None,
        old(w).shift.last matches Some(t) ==> now >= t + 400_000_000 ==> r is None,
        old(w).shift.last matches Some(t) ==> t <= now < t + 400_000_000 && m.shift && !m.control
            && !m.alt && !m.platform && !m.function && !old(w).shift.held ==> r is Some,
        r matches Some(opened) ==> (opened <==> !(old(w).overlay matches Some(Overlay::QuickOpen))),
        r == Some(true) ==> final(w).overlay == Some(Overlay::QuickOpen),
        r is None ==> final(w).overlay == old(w).overlay,
{
}

/// A class is named with its package before it and a dot between them, and alone where it has none.
pub proof fn law_classes_are_named_with_their_package(package: &str, class: &str, r: String)
    requires
        call_ensures(class_name, (package, class), r),
    ensures
        package@.len() == 0 ==> r@ == class@,
        package@.len() > 0 ==> r@.len() == package@.len() + 1 + class@.len() && package@.is_prefix_of(
            r@,
        ) && class@.is_suffix_of(r@) && r@[package@.len() as int] == '.',
{
    reveal_strlit(".");
    if package@.len() > 0 {
        assert(r@.take(package@.len() as int) =~= package@);
        assert(r@.skip(r@.len() - class@.len()) =~= class@);
    }
}

/// What is called under the cursor is looked at before the method that the cursor is in; of that one
/// the outline knows better than the line.
pub proof fn law_the_call_under_the_cursor_is_the_target(
    call: Option<(String, String)>,
    fqn: String,
    by_symbols: Option<String>,
    by_line: Option<String>,
    r: (String, Option<String>),
)
    requires
        call_ensures(arthas_target, (call, fqn, by_symbols, by_line), r),
    ensures
        call matches Some(c) ==> r.0 == c.0 && r.1 == Some(c.1),
        call is None ==> r.0 == fqn,
        call is None && by_symbols is Some ==> r.1 == by_symbols,
        call is None && by_symbols is None ==> r.1 == by_line,
{
}

/// Maven is asked for in a Maven project where none of its paths is set.
pub proof fn law_maven_is_asked_for_once(has_pom: bool, s: EditorSettings, r: bool)
    requires
        call_ensures(prompts_for_maven, (has_pom, &s), r),
    ensures
        !has_pom ==> !r,
        text::trimmed(s.maven_home@).len() > 0 || text::trimmed(s.maven_settings@).len() > 0
            || text::trimmed(s.maven_repo@).len() > 0 ==> !r,
        has_pom && text::trimmed(s.maven_home@).len() == 0 && text::trimmed(s.maven_settings@).len()
            == 0 && text::trimmed(s.maven_repo@).len() == 0 ==> r,
{
    text::lemma_trimmed_empty(s.maven_home@);
    text::lemma_trimmed_empty(s.maven_settings@);
    text::lemma_trimmed_empty(s.maven_repo@);
}

/// A folder that is opened or closed in the tree is noted, and no other changes.
pub proof fn law_folders_are_noted_one_by_one(w: &mut Workbench, id: String, open: bool, other: Seq<char>)
    requires
        old(w).inv(),
        call_ensures(Workbench::folder_toggled, (w, id, open), ()),
        other != id@,
    ensures
        final(w).expanded@.contains(id@) <==> open,
        final(w).expanded@.contains(other) <==> old(w).expanded@.contains(other),
{
}

/// Going to a definition and finding usages ask about the place of the cursor in the Java file in
/// front.
pub proof fn law_the_place_of_the_cursor_is_asked_about(
    w: &mut Workbench,
    line: u32,
    character: u32,
    r: Option<GotoContext>,
    a: usize,
)
    requires
        old(w).inv(),
        call_ensures(Workbench::on_goto_definition, (w, line, character), r),
        old(w).tabs.active == Some(a),
    ensures
        r is Some <==> old(w).tabs.tabs@[a as int].lang@ == "java"@,
        r matches Some(c) ==> c.file == old(w).tabs.tabs@[a as int].path && c.line == line
            && c.character == character && c.project_root == old(w).project_root,
{
}

/// The side bar shows the commit view and the graph of the same panel.
pub proof fn law_views_of_the_git_panel(w: &mut Workbench, view: SidebarView, mode: Option<GitPanelMode>)
    requires
        call_ensures(Workbench::set_sidebar_view, (w, view), mode),
    ensures
        final(w).sidebar_view == view,
        view is Commit <==> mode == Some(GitPanelMode::Commit),
        view is Git <==> mode == Some(GitPanelMode::Branches),
{
}

/// The terminal is started when it is shown for the first time.
pub proof fn law_the_terminal_is_started_once(w: &mut Workbench, start: bool)
    requires
        call_ensures(Workbench::on_toggle_terminal, (w,), start),
    ensures
        final(w).terminal_visible == !old(w).terminal_visible,
        start ==> final(w).terminal_visible && !old(w).has_terminal,
        final(w).terminal_visible && !old(w).has_terminal ==> start,
        final(w).terminal_visible ==> final(w).has_terminal,
        old(w).has_terminal ==> !start && final(w).has_terminal,
{
}

/// What a search for a definition ends with is shown: the file at its place, a list, or a word.
pub proof fn law_the_search_for_a_definition_ends(
    w: &mut Workbench,
    g: Goto,
    title: String,
    cursor: u32,
    now: u64,
    r: GotoEnd,
)
    requires
        old(w).inv(),
        call_ensures(Workbench::goto_done, (w, g, title, cursor, now), r),
    ensures
        g is File <==> r is Opened,
        g is Usages <==> r is Usages,
        g is Usages ==> final(w).overlay == Some(Overlay::Usages) && final(w).tabs == old(w).tabs,
        g matches Goto::Status(msg) ==> final(w).status == msg && final(w).overlay == old(w).overlay,
        g matches Goto::Usages(uses) ==> text::dec(uses@.len()).is_prefix_of(final(w).status@),
        g is Status || g is NotFound ==> final(w).tabs == old(w).tabs && final(w).nav == old(w).nav,
{
    if let Goto::Usages(uses) = g {
        let n = text::dec(uses@.len());
        assert(final(w).status@.take(n.len() as int) =~= n);
    }
}

/// Usages are listed where there are any, and asked for at the cursor of the Java file in front.
pub proof fn law_usages_of_the_place_are_listed(
    w: &mut Workbench,
    v: &mut Workbench,
    line: u32,
    character: u32,
    q: Option<UsesRequest>,
    found: Result<Vec<LspUsage>, String>,
    r: Option<(UsagesView, PreviewStep)>,
)
    requires
        old(w).inv(),
        call_ensures(Workbench::on_find_usages, (w, line, character), q),
        q is Some,
        *old(v) == *final(w),
        call_ensures(Workbench::find_usages_done, (v, q->0, found), r),
    ensures
        (q->0).line == line && (q->0).character == character,
        old(w).tabs.active matches Some(a) && (q->0).file == old(w).tabs.tabs@[a as int].path && old(
            w,
        ).tabs.tabs@[a as int].lang@ == "java"@,
        found matches Ok(us) ==> (r is Some <==> us@.len() > 0) && (us@.len() > 0 ==> final(v).overlay
            == Some(Overlay::Usages)) && (us@.len() == 0 ==> final(v).overlay == old(w).overlay),
        found matches Err(e) ==> r is None && e@.is_suffix_of(final(v).status@),
        final(v).tabs == old(w).tabs,
{
    if let Err(e) = found {
        assert(final(v).status@.skip(final(v).status@.len() - e@.len()) =~= e@);
    }
}

/// A list, a search field and the settings each close what they opened: asking twice leaves nothing
/// open.
pub proof fn law_asking_twice_closes(
    a: &mut Workbench,
    b: &mut Workbench,
    c: &mut Workbench,
    d: &mut Workbench,
    e: &mut Workbench,
    f: &mut Workbench,
    ra: bool,
    rb: bool,
    rc: bool,
    rd: bool,
    re: bool,
    rf: bool,
)
    requires
        call_ensures(Workbench::toggle_palette, (a,), ra),
        *old(b) == *final(a),
        call_ensures(Workbench::toggle_palette, (b,), rb),
        call_ensures(Workbench::on_toggle_search, (c,), rc),
        *old(d) == *final(c),
        call_ensures(Workbench::on_toggle_search, (d,), rd),
        call_ensures(Workbench::on_open_settings, (e,), re),
        *old(f) == *final(e),
        call_ensures(Workbench::on_open_settings, (f,), rf),
    ensures
        ra != rb && rc != rd && re != rf,
        ra ==> final(a).overlay == Some(Overlay::QuickOpen) && final(b).overlay is None,
        rc ==> final(c).overlay == Some(Overlay::Search) && final(d).overlay is None,
        re ==> final(e).overlay == Some(Overlay::Settings) && final(f).overlay is None,
        old(a).overlay is None ==> ra,
        old(c).overlay is None ==> rc,
        old(e).overlay is None ==> re,
{
}

/// The cursor keys move the list that is open, and return confirms there or in the field for a name.
pub proof fn law_keys_go_to_the_open_list(w: &mut Workbench, o: Overlay, l: Option<PaletteTarget>, c: Option<PaletteTarget>)
    requires
        call_ensures(Workbench::show_overlay, (w, o), ()),
        call_ensures(Workbench::palette_list, (&*final(w),), l),
        call_ensures(Workbench::palette_confirm, (&*final(w),), c),
    ensures
        o is QuickOpen <==> l == Some(PaletteTarget::QuickOpen),
        o is Search <==> l == Some(PaletteTarget::Search),
        o is Usages <==> l == Some(PaletteTarget::Usages),
        o is Recents <==> l == Some(PaletteTarget::Recents),
        o is Usages <==> c == Some(PaletteTarget::Usages),
        o is Recents <==> c == Some(PaletteTarget::Recents),
        o is NameInput <==> c == Some(PaletteTarget::NameInput),
        o is NameInput || o is Settings || o is Diff ==> l is None,
{
}

/// What was chosen is opened where it is not open already, and the list is closed either way.
pub proof fn law_choosing_closes_the_list(w: &mut Workbench, v: &mut Workbench, root: &str, uri: &str, open: bool, place: UsagePlace)
    requires
        call_ensures(Workbench::recent_chosen, (w, root), open),
        call_ensures(Workbench::usage_chosen, (v, uri), place),
    ensures
        open <==> !path::same(root@, old(w).project_root@),
        final(w).overlay is None && final(v).overlay is None,
        place is Library <==> exists|rest: Seq<char>| uri@ == #[trigger] ("jdt://"@ + rest),
        final(w).tabs == old(w).tabs,
{
    if "jdt://"@.is_prefix_of(uri@) {
        assert(uri@ =~= "jdt://"@ + uri@.skip("jdt://"@.len() as int));
    }
    if exists|rest: Seq<char>| uri@ == #[trigger] ("jdt://"@ + rest) {
        let rest = choose|rest: Seq<char>| uri@ == #[trigger] ("jdt://"@ + rest);
        assert(uri@.take("jdt://"@.len() as int) =~= "jdt://"@);
    }
}

/// Locating the file in front goes to its path, and shows the tree.
pub proof fn law_locating_goes_to_the_file_in_front(
    w: Workbench,
    v: &mut Workbench,
    abs: String,
    here: Option<(String, String)>,
    there: (String, String),
    a: usize,
)
    requires
        w.inv(),
        call_ensures(Workbench::locate_current_file, (&w,), here),
        w.tabs.active == Some(a),
        call_ensures(Workbench::locate_path_in_tree, (v, abs), there),
    ensures
        here matches Some(x) && x.0 == w.tabs.tabs@[a as int].path && x.1 == w.tabs.tabs@[a as int].title,
        there.0 == abs,
        final(v).sidebar_view is Files,
        final(v).expanded == old(v).expanded && final(v).tabs == old(v).tabs,
{
}

/// Marks of changes are those of the open project; what is read of another one is dropped.
pub proof fn law_marks_are_those_of_the_open_project(
    w: &mut Workbench,
    root: &str,
    changes: Vec<GitChange>,
    applied: bool,
)
    requires
        call_ensures(Workbench::git_marks_read, (w, root, &changes), applied),
    ensures
        applied <==> path::same(root@, old(w).project_root@),
        !applied ==> final(w).git_marks == old(w).git_marks,
        final(w).tabs == old(w).tabs && final(w).status == old(w).status,
{
}

/// A library source that is opened is remembered with where it came from, and the others are kept.
pub proof fn law_library_sources_are_remembered(
    w: &mut Workbench,
    p: String,
    line: u32,
    jdt: Option<JdtSource>,
    cursor: u32,
    now: u64,
    r: OpenAt,
    other: Seq<Seq<char>>,
)
    requires
        old(w).inv(),
        call_ensures(Workbench::open_source_at, (w, p, line, jdt, cursor, now), r),
    ensures
        jdt matches Some(s) ==> final(w).jdt_sources@.contains_key(path::components(p@)) && final(w).jdt_sources@[path::components(p@)] == s,
        other != path::components(p@) && old(w).jdt_sources@.contains_key(other) ==> final(w).jdt_sources@.contains_key(other) && final(w).jdt_sources@[other]
            == old(w).jdt_sources@[other],
        jdt is None ==> final(w).jdt_sources@ == old(w).jdt_sources@,
        final(w).project_root == old(w).project_root,
{
}

/// A comparison is shown where it could be made, and what went wrong is told where not.
pub proof fn law_comparisons_are_shown(w: &mut Workbench, result: Result<(), String>, shown: bool)
    requires
        call_ensures(Workbench::diff_ready, (w, result), shown),
    ensures
        shown <==> result is Ok,
        shown ==> final(w).overlay == Some(Overlay::Diff) && final(w).status == old(w).status,
        result matches Err(e) ==> final(w).status == e && final(w).overlay == old(w).overlay,
        final(w).tabs == old(w).tabs,
{
}

/// A link within a document leads to its section in the document in front, and a missing section is
/// told by its name.
pub proof fn law_links_lead_to_their_section(
    w: &mut Workbench,
    slug: &str,
    found: Option<usize>,
    r: Option<usize>,
    a: usize,
)
    requires
        old(w).inv(),
        old(w).tabs.active == Some(a),
        call_ensures(Workbench::scroll_md_to_anchor, (w, slug, found), r),
    ensures
        old(w).tabs.tabs@[a as int].lang@ == "markdown"@ ==> r == found,
        old(w).tabs.tabs@[a as int].lang@ != "markdown"@ ==> r is None && *final(w) == *old(w),
        old(w).tabs.tabs@[a as int].lang@ == "markdown"@ && found is None ==> slug@.is_suffix_of(
            final(w).status@,
        ),
        found is Some ==> *final(w) == *old(w),
{
    let s = final(w).status@;
    if old(w).tabs.tabs@[a as int].lang@ == "markdown"@ && found is None {
        assert(s.skip(s.len() - slug@.len()) =~= slug@);
    }
}

/// New settings are those in force, and Maven is no longer asked for once one of its paths is set.
pub proof fn law_new_settings_are_in_force(w: &mut Workbench, s: EditorSettings, unprompt: bool, asked: bool)
    requires
        call_ensures(Workbench::apply_settings, (w, s), unprompt),
        call_ensures(prompts_for_maven, (true, &s), asked),
    ensures
        final(w).settings == s,
        unprompt <==> !asked,
        final(w).tabs == old(w).tabs && final(w).overlay == old(w).overlay,
{
}

/// The class to be traced is that of the Java file in front; of other files that is told.
pub proof fn law_only_java_files_are_traced(w: &mut Workbench, r: Option<String>, a: usize)
    requires
        old(w).inv(),
        old(w).tabs.active == Some(a),
        call_ensures(Workbench::arthas_command, (w,), r),
    ensures
        old(w).tabs.tabs@[a as int].lang@ == "java"@ ==> r == Some(old(w).tabs.tabs@[a as int].path)
            && *final(w) == *old(w),
        old(w).tabs.tabs@[a as int].lang@ != "java"@ ==> r is None && final(w).tabs == old(w).tabs,
{
}

} // verus!
