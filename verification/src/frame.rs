//! What the workbench shows: title, tabs, breadcrumb, panels and status bar.
use vstd::prelude::*;

use crate::file_icons;
use crate::file_icons::FileIconMeta;
use crate::lang;
use crate::path;
use crate::tabs::OpenTab;
use crate::text;
use crate::workbench::{LspPhase, PanelTab, SidebarView, Workbench};

verus! {

/// A project in the project bar.
pub struct ProjectTab {
    pub name: String,
    pub active: bool,
}

/// An editor tab in the tab bar.
pub struct TabRow {
    pub title: String,
    pub icon: FileIconMeta,
    pub active: bool,
    /// Unsaved changes are shown in place of the closing cross.
    pub dirty: bool,
    pub tooltip: String,
}

/// A part of the breadcrumb.
pub struct Crumb {
    pub label: String,
    /// The directory to select in the tree; the file itself has none.
    pub target: Option<String>,
    /// The icon of the file.
    pub icon: Option<FileIconMeta>,
}

/// What fills the middle of the workbench.
pub enum MainArea {
    /// The editor of the tab in front, with the preview beside it or not.
    Editor { preview: bool },
    /// The tabs are being read.
    Loading(String),
    Welcome,
}

/// An entry of the editor's menu.
#[derive(Clone, Copy, Debug, PartialEq, Eq, Structural)]
pub enum MenuEntry {
    ArthasWatch,
    ArthasTrace,
    ArthasStack,
    ArthasMonitor,
    ArthasTt,
    Separator,
    Copy,
    Paste,
    ShowPreview,
    HidePreview,
}

/// A file with problems.
pub struct ProblemRow {
    /// Position of its tab.
    pub ix: usize,
    pub title: String,
    pub count: usize,
}

/// What the bottom panel shows.
pub enum PanelContent {
    Terminal,
    TerminalMissing,
    NoProblems,
    Problems(Vec<ProblemRow>),
    Output,
}

/// The bottom panel.
pub struct BottomPanel {
    pub problems_label: String,
    pub active: PanelTab,
    pub content: PanelContent,
}

/// The colour of the server's dot.
#[derive(Clone, Copy, Debug, PartialEq, Eq, Structural)]
pub enum DotTone {
    Success,
    Warning,
    Danger,
    Muted,
}

/// The state of the Java server in the status bar.
pub struct ServerState {
    pub dot: DotTone,
    pub label: &'static str,
    /// How far the bar is filled, of 100, where there is a bar.
    pub bar: Option<u8>,
    /// The percentage that is written.
    pub percent: Option<u8>,
}

/// What the Git panel tells the status bar.
pub struct GitSummary {
    pub branch: String,
    pub ahead: i32,
    pub behind: i32,
    pub changes: usize,
}

/// The status bar.
pub struct StatusBar {
    /// The terminal button is lit.
    pub terminal_lit: bool,
    pub branch: Option<String>,
    pub distance: Option<String>,
    pub changes: Option<String>,
    pub problems: Option<String>,
    pub status: String,
    pub stalls: Option<String>,
    pub position: Option<String>,
    pub indent: Option<String>,
    pub language: Option<&'static str>,
    pub server: Option<ServerState>,
}

/// The number on an activity button: nothing for none, and no more than two digits.
pub open spec fn badge_text(n: nat) -> Option<Seq<char>> {
    if n == 0 {
        None
    } else if n > 99 {
        Some("99+"@)
    } else {
        Some(text::dec(n))
    }
}

/// The number on an activity button.
pub fn badge(n: usize) -> (r: Option<String>)
    ensures
        text::opt_text(r) == badge_text(n as nat),
{
    if n == 0 {
        None
    } else if n > 99 {
        Some("99+".to_owned())
    } else {
        Some(text::dec_usize(n))
    }
}

impl SidebarView {
    /// The heading of the view: its title in capitals.
    pub open spec fn heading_of(self) -> Seq<char> {
        match self {
            SidebarView::Git => "GIT 图"@,
            SidebarView::Maven => "MAVEN"@,
            _ => self.title_of(),
        }
    }

    /// The heading of the view.
    pub fn heading(&self) -> (r: &'static str)
        ensures
            r@ == self.heading_of(),
    {
        match self {
            SidebarView::Git => "GIT 图",
            SidebarView::Maven => "MAVEN",
            _ => self.title(),
        }
    }

    /// Whether the view has buttons for files beside its heading.
    pub fn has_file_actions(&self) -> (r: bool)
        ensures
            r == (*self is Files),
    {
        matches!(self, SidebarView::Files)
    }
}

/// How many problems there are in all.
pub open spec fn total(counts: Seq<usize>) -> nat
    decreases counts.len(),
{
    if counts.len() == 0 {
        0
    } else {
        total(counts.drop_last()) + counts.last() as nat
    }
}

proof fn lemma_total(counts: Seq<usize>, n: int)
    requires
        0 <= n <= counts.len(),
    ensures
        total(counts.take(n)) <= total(counts),
    decreases counts.len() - n,
{
    if n < counts.len() {
        lemma_total(counts, n + 1);
        assert(counts.take(n + 1).drop_last() =~= counts.take(n));
    } else {
        assert(counts.take(n) =~= counts);
    }
}

fn sum(counts: &Vec<usize>) -> (r: usize)
    requires
        total(counts@) <= usize::MAX,
    ensures
        r == total(counts@),
{
    let mut acc: usize = 0;
    let mut i: usize = 0;
    assert(counts@.take(0) =~= Seq::<usize>::empty());
    while i < counts.len()
        invariant
            i <= counts@.len(),
            total(counts@) <= usize::MAX,
            acc == total(counts@.take(i as int)),
        decreases counts@.len() - i,
    {
        proof {
            assert(counts@.take(i + 1).drop_last() =~= counts@.take(i as int));
            assert(counts@.take(i + 1).last() == counts@[i as int]);
            lemma_total(counts@, i + 1);
        }
        acc = acc + counts[i];
        i += 1;
    }
    assert(counts@.take(counts@.len() as int) =~= counts@);
    acc
}

/// The tabs with problems among the first `n`.
pub open spec fn with_problems(counts: Seq<usize>, n: int) -> Seq<int>
    decreases n,
{
    if n <= 0 {
        Seq::empty()
    } else {
        let rest = with_problems(counts, n - 1);
        if counts[n - 1] > 0 {
            rest.push(n - 1)
        } else {
            rest
        }
    }
}

/// Whether the rows list the tabs with problems.
pub open spec fn lists_problems(
    rows: Seq<ProblemRow>,
    all: Seq<OpenTab>,
    counts: Seq<usize>,
    n: int,
) -> bool {
    let which = with_problems(counts, n);
    &&& rows.len() == which.len()
    &&& forall|k: int|
        0 <= k < rows.len() ==> (#[trigger] rows[k]).ix == which[k] && rows[k].title@
            == all[which[k]].title@ && rows[k].count == counts[which[k]]
}

/// The path that the components make up.
pub open spec fn collected(c: Seq<Seq<char>>) -> Seq<char>
    decreases c.len(),
{
    if c.len() == 0 {
        Seq::empty()
    } else {
        path::joined_path(collected(c.drop_last()), c.last())
    }
}

/// The components that the breadcrumb shows for file `p` of the project at `root`.
pub open spec fn crumb_parts(p: Seq<char>, root: Seq<char>) -> Seq<Seq<char>> {
    path::components(
        match path::stripped(p, root) {
            Some(rel) => rel,
            None => p,
        },
    )
}

/// Whether `c` is part `i` of the breadcrumb of `parts`.
pub open spec fn is_crumb(c: Crumb, parts: Seq<Seq<char>>, root: Seq<char>, i: int) -> bool {
    &&& c.label@ == parts[i]
    &&& c.target is None <==> i + 1 == parts.len()
    &&& c.target matches Some(t) ==> t@ == path::joined_path(root, collected(parts.take(i + 1)))
    &&& c.icon is Some <==> i + 1 == parts.len()
    &&& c.icon matches Some(m) ==> m@ == file_icons::icon_of(text::lowercase(parts[i]))
}

/// The text of a tab's tooltip: its path below the project.
pub open spec fn tooltip_of(p: Seq<char>, root: Seq<char>) -> Seq<char> {
    match path::stripped(p, root) {
        Some(rel) => rel,
        None => p,
    }
}

/// Whether `row` shows tab `i`.
pub open spec fn shows_tab(row: TabRow, w: Workbench, i: int) -> bool {
    let t = w.tabs.tabs@[i];
    &&& row.title@ == t.title@
    &&& row.icon@ == file_icons::icon_of(text::lowercase(t.title@))
    &&& row.active == (w.tabs.active == Some(i as usize))
    &&& row.dirty == t.dirty
    &&& row.tooltip@ == tooltip_of(t.path@, w.project_root@)
}

/// The state of the Java server as it is shown.
pub open spec fn server_model(phase: LspPhase) -> (DotTone, Seq<char>, Option<u8>, Option<u8>) {
    match phase {
        LspPhase::Ready => (DotTone::Success, "jdtls 就绪"@, None, None),
        LspPhase::Starting => (DotTone::Warning, "jdtls 启动中"@, Some(0u8), None),
        LspPhase::Indexing(p) => (
            DotTone::Warning,
            "jdtls 启动中"@,
            Some(
                match p {
                    Some(x) => if x < 100 {
                        x
                    } else {
                        100
                    },
                    None => 0,
                },
            ),
            p,
        ),
        LspPhase::Failed => (DotTone::Danger, "jdtls 未启动"@, None, None),
        LspPhase::Off => (DotTone::Muted, "jdtls 未连接"@, None, None),
    }
}

/// The state of the Java server as it is shown.
pub fn server_state(phase: LspPhase) -> (s: ServerState)
    ensures
        (s.dot, s.label@, s.bar, s.percent) == server_model(phase),
{
    match phase {
        LspPhase::Ready => ServerState {
            dot: DotTone::Success,
            label: "jdtls 就绪",
            bar: None,
            percent: None,
        },
        LspPhase::Starting => ServerState {
            dot: DotTone::Warning,
            label: "jdtls 启动中",
            bar: Some(0),
            percent: None,
        },
        LspPhase::Indexing(p) => {
            let filled: u8 = match p {
                Some(x) => if x < 100 {
                    x
                } else {
                    100
                },
                None => 0,
            };
            ServerState {
                dot: DotTone::Warning,
                label: "jdtls 启动中",
                bar: Some(filled),
                percent: p,
            }
        },
        LspPhase::Failed => ServerState {
            dot: DotTone::Danger,
            label: "jdtls 未启动",
            bar: None,
            percent: None,
        },
        LspPhase::Off => ServerState {
            dot: DotTone::Muted,
            label: "jdtls 未连接",
            bar: None,
            percent: None,
        },
    }
}

/// How far a branch is from its upstream, where it is.
pub open spec fn distance_text(ahead: i32, behind: i32) -> Option<Seq<char>> {
    if ahead > 0 || behind > 0 {
        Some("↑"@ + text::dec_int(ahead as int) + " ↓"@ + text::dec_int(behind as int))
    } else {
        None
    }
}

/// `sign` and `n`, unless that is 0.
pub open spec fn count_text(sign: Seq<char>, n: nat) -> Option<Seq<char>> {
    if n > 0 {
        Some(sign + text::dec(n))
    } else {
        None
    }
}

fn counted(sign: &str, n: u64) -> (r: Option<String>)
    ensures
        text::opt_text(r) == count_text(sign@, n as nat),
{
    if n > 0 {
        Some(text::cat2(sign, text::dec_u64(n).as_str()))
    } else {
        None
    }
}

/// The entries of the editor's menu.
pub open spec fn menu_for(java: bool, markdown: bool, preview: bool) -> Seq<MenuEntry> {
    (if java {
        seq![
            MenuEntry::ArthasWatch,
            MenuEntry::ArthasTrace,
            MenuEntry::ArthasStack,
            MenuEntry::ArthasMonitor,
            MenuEntry::ArthasTt,
            MenuEntry::Separator,
        ]
    } else {
        Seq::empty()
    }) + seq![MenuEntry::Copy, MenuEntry::Paste] + (if markdown {
        seq![
            MenuEntry::Separator,
            if preview {
                MenuEntry::HidePreview
            } else {
                MenuEntry::ShowPreview
            },
        ]
    } else {
        Seq::empty()
    })
}

impl Workbench {
    /// The title of the window.
    pub fn title(&self) -> (r: String)
        requires
            self.inv(),
        ensures
            r@ == (match self.tabs.front() {
                Some(t) => self.project_name@ + " — "@ + t.title@,
                None => self.project_name@,
            }),
    {
        match self.tabs.active_tab() {
            Some(t) => text::cat3(self.project_name.as_str(), " — ", t.title.as_str()),
            None => self.project_name.clone(),
        }
    }

    /// The project bar, which is shown for more than one project.
    pub fn project_bar(&self) -> (r: Option<Vec<ProjectTab>>)
        ensures
            r is Some <==> self.projects.projects@.len() > 1,
            r matches Some(v) ==> {
                &&& v@.len() == self.projects.projects@.len()
                &&& forall|i: int|
                    0 <= i < v@.len() ==> (#[trigger] v@[i]).name@ == path::shown_name(
                        self.projects.projects@[i].path@,
                    ) && v@[i].active == (i == self.projects.active)
            },
    {
        let n = self.projects.projects.len();
        if n <= 1 {
            return None;
        }
        let mut out: Vec<ProjectTab> = Vec::new();
        let mut i: usize = 0;
        while i < n
            invariant
                i <= n,
                n == self.projects.projects@.len(),
                out@.len() == i,
                forall|k: int|
                    0 <= k < i ==> (#[trigger] out@[k]).name@ == path::shown_name(
                        self.projects.projects@[k].path@,
                    ) && out@[k].active == (k == self.projects.active),
            decreases n - i,
        {
            let name = path::display_name(self.projects.projects[i].path.as_str());
            out.push(ProjectTab { name, active: i == self.projects.active });
            i += 1;
        }
        Some(out)
    }

    /// The tab bar.
    pub fn tab_rows(&self) -> (rows: Vec<TabRow>)
        requires
            self.inv(),
        ensures
            rows@.len() == self.tabs.tabs@.len(),
            forall|i: int| 0 <= i < rows@.len() ==> shows_tab(#[trigger] rows@[i], *self, i),
    {
        let n = self.tabs.tabs.len();
        let mut out: Vec<TabRow> = Vec::new();
        let mut i: usize = 0;
        while i < n
            invariant
                i <= n,
                n == self.tabs.tabs@.len(),
                out@.len() == i,
                forall|k: int| 0 <= k < i ==> shows_tab(#[trigger] out@[k], *self, k),
            decreases n - i,
        {
            let t = &self.tabs.tabs[i];
            let active = match self.tabs.active {
                Some(a) => a == i,
                None => false,
            };
            let tooltip = match path::strip_prefix(t.path.as_str(), self.project_root.as_str()) {
                Some(rel) => rel,
                None => t.path.clone(),
            };
            let row = TabRow {
                title: t.title.clone(),
                icon: file_icons::file_icon_meta(t.title.as_str()),
                active,
                dirty: t.dirty,
                tooltip,
            };
            assert(shows_tab(row, *self, i as int));
            out.push(row);
            i += 1;
        }
        out
    }

    /// The breadcrumb of the tab in front: the project, then the parts of the path below it.
    pub fn breadcrumb(&self) -> (r: Option<Vec<Crumb>>)
        requires
            self.inv(),
        ensures
            r is Some <==> self.tabs.active is Some,
            r matches Some(v) ==> {
                let parts = crumb_parts((self.tabs.front()->0).path@, self.project_root@);
                &&& v@.len() == parts.len() + 1
                &&& v@[0].label == self.project_name
                &&& v@[0].target == Some(self.project_root)
                &&& v@[0].icon is None
                &&& forall|i: int|
                    1 <= i < v@.len() ==> is_crumb(
                        #[trigger] v@[i],
                        parts,
                        self.project_root@,
                        i - 1,
                    )
            },
    {
        let p = match self.tabs.active_tab() {
            Some(t) => t.path.as_str(),
            None => {
                return None;
            },
        };
        let root = self.project_root.as_str();
        let rel = match path::strip_prefix(p, root) {
            Some(rel) => rel,
            None => p.to_owned(),
        };
        let parts = path::split(rel.as_str());
        let ghost all = crumb_parts(p@, root@);
        assert(text::texts(parts@) == all);
        let n = parts.len();
        assert(all.len() == n);
        let mut out: Vec<Crumb> = Vec::new();
        out.push(
            Crumb {
                label: self.project_name.clone(),
                target: Some(self.project_root.clone()),
                icon: None,
            },
        );
        let mut sofar = String::new();
        assert(sofar@ =~= collected(all.take(0)));
        let mut i: usize = 0;
        while i < n
            invariant
                i <= n,
                n == parts@.len(),
                all.len() == n,
                all == text::texts(parts@),
                root@ == self.project_root@,
                sofar@ == collected(all.take(i as int)),
                out@.len() == i + 1,
                out@[0].label == self.project_name,
                out@[0].target == Some(self.project_root),
                out@[0].icon is None,
                forall|k: int|
                    1 <= k < i + 1 ==> is_crumb(#[trigger] out@[k], all, self.project_root@, k - 1),
            decreases n - i,
        {
            let label = parts[i].clone();
            assert(label@ == all[i as int]);
            proof {
                assert(all.take(i + 1).drop_last() =~= all.take(i as int));
                assert(all.take(i + 1).last() == all[i as int]);
            }
            sofar = path::join(sofar.as_str(), label.as_str());
            let crumb = if i + 1 == n {
                let icon = file_icons::file_icon_meta(label.as_str());
                Crumb { label, target: None, icon: Some(icon) }
            } else {
                let target = path::join(root, sofar.as_str());
                Crumb { label, target: Some(target), icon: None }
            };
            out.push(crumb);
            i += 1;
        }
        Some(out)
    }

    /// What fills the middle of the workbench.
    pub fn main_area(&self) -> (r: MainArea)
        requires
            self.inv(),
        ensures
            match self.tabs.front() {
                Some(t) => r is Editor && r->preview == (self.md_preview && t.lang@ == "markdown"@),
                None => if self.restoring_tabs {
                    r is Loading && r->Loading_0@ == "正在切换到 "@ + self.project_name@ + " …"@
                } else {
                    r is Welcome
                },
            },
    {
        match self.tabs.active_tab() {
            Some(t) => MainArea::Editor {
                preview: self.md_preview && text::str_eq(t.lang, "markdown"),
            },
            None => if self.restoring_tabs {
                MainArea::Loading(text::cat3("正在切换到 ", self.project_name.as_str(), " …"))
            } else {
                MainArea::Welcome
            },
        }
    }

    /// The menu of the editor in front.
    pub fn editor_menu(&self) -> (r: Vec<MenuEntry>)
        requires
            self.inv(),
        ensures
            r@ == (match self.tabs.front() {
                Some(t) => menu_for(t.lang@ == "java"@, t.lang@ == "markdown"@, self.md_preview),
                None => Seq::empty(),
            }),
    {
        let mut out: Vec<MenuEntry> = Vec::new();
        let (java, markdown) = match self.tabs.active_tab() {
            Some(t) => (text::str_eq(t.lang, "java"), text::str_eq(t.lang, "markdown")),
            None => {
                return out;
            },
        };
        if java {
            out.push(MenuEntry::ArthasWatch);
            out.push(MenuEntry::ArthasTrace);
            out.push(MenuEntry::ArthasStack);
            out.push(MenuEntry::ArthasMonitor);
            out.push(MenuEntry::ArthasTt);
            out.push(MenuEntry::Separator);
        }
        out.push(MenuEntry::Copy);
        out.push(MenuEntry::Paste);
        if markdown {
            out.push(MenuEntry::Separator);
            out.push(
                if self.md_preview {
                    MenuEntry::HidePreview
                } else {
                    MenuEntry::ShowPreview
                },
            );
        }
        assert(out@ =~= menu_for(java, markdown, self.md_preview));
        out
    }

    fn problem_rows(&self, counts: &Vec<usize>) -> (rows: Vec<ProblemRow>)
        requires
            counts@.len() == self.tabs.tabs@.len(),
        ensures
            lists_problems(rows@, self.tabs.tabs@, counts@, counts@.len() as int),
    {
        let n = counts.len();
        let mut out: Vec<ProblemRow> = Vec::new();
        let mut i: usize = 0;
        while i < n
            invariant
                i <= n,
                n == counts@.len(),
                n == self.tabs.tabs@.len(),
                lists_problems(out@, self.tabs.tabs@, counts@, i as int),
            decreases n - i,
        {
            if counts[i] > 0 {
                out.push(
                    ProblemRow { ix: i, title: self.tabs.tabs[i].title.clone(), count: counts[i] },
                );
            }
            i += 1;
        }
        out
    }

    /// The bottom panel, which is shown or not, for the numbers of problems of the tabs.
    pub fn bottom_panel(&self, counts: &Vec<usize>) -> (r: Option<BottomPanel>)
        requires
            counts@.len() == self.tabs.tabs@.len(),
            total(counts@) <= usize::MAX,
        ensures
            r is Some <==> self.terminal_visible,
            r matches Some(b) ==> {
                let which = with_problems(counts@, counts@.len() as int);
                &&& b.problems_label@ == (if total(counts@) > 0 {
                    "问题 "@ + text::dec(total(counts@))
                } else {
                    "问题"@
                })
                &&& b.active == self.panel_tab
                &&& (match self.panel_tab {
                    PanelTab::Terminal => if self.has_terminal {
                        b.content is Terminal
                    } else {
                        b.content is TerminalMissing
                    },
                    PanelTab::Problems => if which.len() == 0 {
                        b.content is NoProblems
                    } else {
                        b.content is Problems && lists_problems(
                            b.content->Problems_0@,
                            self.tabs.tabs@,
                            counts@,
                            counts@.len() as int,
                        )
                    },
                    PanelTab::Output => b.content is Output,
                })
            },
    {
        if !self.terminal_visible {
            return None;
        }
        let problems = sum(counts);
        let problems_label = if problems > 0 {
            text::cat2("问题 ", text::dec_usize(problems).as_str())
        } else {
            "问题".to_owned()
        };
        let content = match self.panel_tab {
            PanelTab::Terminal => if self.has_terminal {
                PanelContent::Terminal
            } else {
                PanelContent::TerminalMissing
            },
            PanelTab::Problems => {
                let rows = self.problem_rows(counts);
                if rows.len() == 0 {
                    PanelContent::NoProblems
                } else {
                    PanelContent::Problems(rows)
                }
            },
            PanelTab::Output => PanelContent::Output,
        };
        Some(BottomPanel { problems_label, active: self.panel_tab, content })
    }

    /// Whether `bar` is the status bar for what the Git panel tells, the numbers of problems of the
    /// tabs, the number of stalls and the place of the cursor.
    pub open spec fn status_shows(
        self,
        bar: StatusBar,
        git: GitSummary,
        counts: Seq<usize>,
        stalls: u64,
        cursor: (u32, u32),
    ) -> bool {
        let open = self.tabs.active is Some;
        &&& bar.terminal_lit == self.terminal_visible
        &&& text::opt_text(bar.branch) == (if git.branch@.len() > 0 {
            Some(git.branch@)
        } else {
            None
        })
        &&& text::opt_text(bar.distance) == distance_text(git.ahead, git.behind)
        &&& text::opt_text(bar.changes) == count_text("● "@, git.changes as nat)
        &&& text::opt_text(bar.problems) == count_text("⚠ "@, total(counts))
        &&& bar.status == self.status
        &&& text::opt_text(bar.stalls) == count_text("卡顿 ×"@, stalls as nat)
        &&& text::opt_text(bar.position) == (if open {
            Some(
                "Ln "@ + text::dec((cursor.0 + 1) as nat) + ", Col "@ + text::dec(
                    (cursor.1 + 1) as nat,
                ),
            )
        } else {
            None
        })
        &&& text::opt_text(bar.indent) == (if open {
            Some("空格:"@ + text::dec(self.settings.tab_size as nat))
        } else {
            None
        })
        &&& bar.language is Some <==> open
        &&& bar.language matches Some(l) ==> l@ == lang::display_of((self.tabs.front()->0).lang@)
        &&& bar.server is Some <==> self.java_in_front()
        &&& bar.server matches Some(s) ==> (s.dot, s.label@, s.bar, s.percent) == server_model(
            self.lsp_phase,
        )
    }

    /// The status bar.
    pub fn status_bar(
        &self,
        git: &GitSummary,
        counts: &Vec<usize>,
        stalls: u64,
        cursor: (u32, u32),
    ) -> (bar: StatusBar)
        requires
            self.inv(),
            total(counts@) <= usize::MAX,
        ensures
            self.status_shows(bar, *git, counts@, stalls, cursor),
    {
        let branch = if text::first_char(git.branch.as_str()).is_some() {
            Some(git.branch.clone())
        } else {
            None
        };
        let distance = if git.ahead > 0 || git.behind > 0 {
            Some(
                text::cat4(
                    "↑",
                    text::dec_i64(git.ahead as i64).as_str(),
                    " ↓",
                    text::dec_i64(git.behind as i64).as_str(),
                ),
            )
        } else {
            None
        };
        let changes = counted("● ", git.changes as u64);
        let problems = counted("⚠ ", sum(counts) as u64);
        let stalls = counted("卡顿 ×", stalls);
        let (position, indent, language, server) = match self.tabs.active_tab() {
            Some(t) => {
                let line: u64 = cursor.0 as u64 + 1;
                let column: u64 = cursor.1 as u64 + 1;
                let position = text::cat4(
                    "Ln ",
                    text::dec_u64(line).as_str(),
                    ", Col ",
                    text::dec_u64(column).as_str(),
                );
                let indent = text::cat2(
                    "空格:",
                    text::dec_u64(self.settings.tab_size as u64).as_str(),
                );
                let server = if text::str_eq(t.lang, "java") {
                    Some(server_state(self.lsp_phase))
                } else {
                    None
                };
                (Some(position), Some(indent), Some(lang::lang_display(t.lang)), server)
            },
            None => (None, None, None, None),
        };
        StatusBar {
            terminal_lit: self.terminal_visible,
            branch,
            distance,
            changes,
            problems,
            status: self.status.clone(),
            stalls,
            position,
            indent,
            language,
            server,
        }
    }
}

/// The number of problems in the panel's label is the sum of those in its rows.
pub proof fn law_rows_add_up_to_the_label(counts: Seq<usize>, n: int)
    requires
        0 <= n <= counts.len(),
    ensures
        total(counts.take(n)) > 0 <==> with_problems(counts, n).len() > 0,
        total(counts.take(n)) == total(with_problems(counts, n).map_values(|i: int| counts[i])),
    decreases n,
{
    let pick = |i: int| counts[i];
    if n > 0 {
        law_rows_add_up_to_the_label(counts, n - 1);
        assert(counts.take(n).drop_last() =~= counts.take(n - 1));
        assert(counts.take(n).last() == counts[n - 1]);
        let rest = with_problems(counts, n - 1);
        if counts[n - 1] > 0 {
            assert(rest.push(n - 1).map_values(pick) =~= rest.map_values(pick).push(counts[n - 1]));
            assert(rest.push(n - 1).map_values(pick).drop_last() =~= rest.map_values(pick));
        }
    } else {
        assert(with_problems(counts, n).map_values(pick) =~= Seq::<usize>::empty());
        assert(counts.take(0) =~= Seq::<usize>::empty());
    }
}

/// A button has no number for nothing, and the number itself up to two digits.
pub proof fn law_badges_tell_small_numbers(n: usize, r: Option<String>)
    requires
        call_ensures(badge, (n,), r),
    ensures
        r is None <==> n == 0,
        1 <= n <= 99 ==> r is Some && text::value(r->0@) == n,
        n > 99 ==> r is Some && r->0@ == "99+"@,
{
    if 1 <= n <= 99 {
        text::law_decimals_read_back(n as nat);
        assert(text::opt_text(r) is Some);
    } else if n > 99 {
        assert(text::opt_text(r) is Some);
    }
}

/// The title names the project, and the file in front where there is one.
pub proof fn law_the_title_names_project_and_file(w: Workbench, r: String)
    requires
        w.inv(),
        call_ensures(Workbench::title, (&w,), r),
    ensures
        w.project_name@.is_prefix_of(r@),
        w.tabs.active matches Some(a) ==> w.tabs.tabs@[a as int].title@.is_suffix_of(r@),
        w.tabs.active is None ==> r@ == w.project_name@,
{
    if let Some(a) = w.tabs.active {
        let t = w.tabs.tabs@[a as int].title@;
        assert(r@ == w.project_name@ + " — "@ + t);
        assert(r@.skip(r@.len() - t.len()) =~= t);
        assert(r@.take(w.project_name@.len() as int) =~= w.project_name@);
    }
}

/// A tab shows its file's name, whether it is in front and whether it has unsaved changes; its tooltip
/// is the path below the project.
pub proof fn law_tabs_show_their_files(w: Workbench, rows: Vec<TabRow>, i: int, rel: Seq<char>)
    requires
        w.inv(),
        call_ensures(Workbench::tab_rows, (&w,), rows),
        0 <= i < w.tabs.tabs@.len(),
        path::ends_in_name(w.project_root@),
        path::ends_in_name(rel),
        rel[0] != '/',
        rel[0] != '.',
        w.tabs.tabs@[i].path@ == path::joined_path(w.project_root@, rel),
    ensures
        rows@.len() == w.tabs.tabs@.len(),
        rows@[i].title@ == w.tabs.tabs@[i].title@,
        rows@[i].dirty <==> w.tabs.tabs@[i].dirty,
        rows@[i].active <==> w.tabs.active == Some(i as usize),
        rows@[i].tooltip@ == rel,
{
    path::law_the_rest_of_a_path_below_a_folder(w.project_root@, rel);
    assert(shows_tab(rows@[i], w, i));
}

proof fn lemma_parts_are_names(rel: Seq<char>, i: int)
    requires
        rel.len() > 0,
        rel[0] != '/',
        rel[0] != '.',
        0 <= i < path::components(rel).len(),
    ensures
        path::is_name(path::components(rel)[i]),
{
    let pieces = text::split_on(rel, '/');
    text::law_pieces_make_the_text(rel, '/');
    text::lemma_split_nonempty(rel, '/');
    lemma_kept_names(pieces);
    if pieces[0] == seq!['.'] {
        lemma_first_piece(rel);
        assert(pieces[0][0] == '.');
    }
    assert(path::head(rel) =~= Seq::<Seq<char>>::empty());
    assert(path::components(rel) =~= path::kept(pieces));
}

proof fn lemma_first_piece(s: Seq<char>)
    requires
        s.len() > 0,
    ensures
        text::split_on(s, '/')[0].len() > 0 ==> text::split_on(s, '/')[0][0] == s[0],
    decreases s.len(),
{
    let init = s.drop_last();
    text::lemma_split_nonempty(init, '/');
    if init.len() > 0 {
        lemma_first_piece(init);
        let rest = text::split_on(init, '/');
        if rest.len() == 1 && s.last() != '/' {
            if rest[0].len() > 0 {
                assert(rest[0].push(s.last())[0] == rest[0][0]);
            } else {
                text::law_pieces_make_the_text(init, '/');
                assert(text::joined(rest, seq!['/']) == rest[0]);
            }
        }
    } else {
        assert(init =~= Seq::<char>::empty());
        assert(text::split_on(init, '/') =~= seq![Seq::<char>::empty()]);
        if s.last() != '/' {
            assert(text::split_on(s, '/')[0] =~= seq![s[0]]);
        }
    }
}

proof fn lemma_kept_names(pieces: Seq<Seq<char>>)
    requires
        forall|i: int| 0 <= i < pieces.len() ==> !(#[trigger] pieces[i]).contains('/'),
    ensures
        forall|i: int| 0 <= i < path::kept(pieces).len() ==> path::is_name(#[trigger] path::kept(pieces)[i]),
    decreases pieces.len(),
{
    if pieces.len() > 0 {
        let init = pieces.drop_last();
        assert forall|i: int| 0 <= i < init.len() implies !(#[trigger] init[i]).contains('/') by {
            assert(init[i] == pieces[i]);
        }
        lemma_kept_names(init);
        assert(pieces[pieces.len() - 1] == pieces.last());
        let rest = path::kept(init);
        let all = path::kept(pieces);
        assert forall|i: int| 0 <= i < all.len() implies path::is_name(#[trigger] all[i]) by {
            if i < rest.len() {
                assert(all[i] == rest[i]);
                assert(path::is_name(rest[i]));
            } else {
                assert(all[i] == pieces.last());
            }
        }
    }
}

proof fn lemma_collected(root: Seq<char>, parts: Seq<Seq<char>>)
    requires
        path::ends_in_name(root),
        parts.len() > 0,
        forall|i: int| 0 <= i < parts.len() ==> path::is_name(#[trigger] parts[i]),
    ensures
        collected(parts).len() > 0,
        collected(parts)[0] != '/',
        collected(parts).last() != '/',
        path::components(path::joined_path(root, collected(parts))) == path::components(root) + parts,
    decreases parts.len(),
{
    let n = parts.last();
    let init = parts.drop_last();
    assert(path::is_name(parts[parts.len() - 1]));
    assert(n[0] != '/') by {
        if n[0] == '/' {
            assert(n.contains('/'));
        }
    }
    assert(n.last() != '/') by {
        if n[n.len() - 1] == '/' {
            assert(n.contains('/'));
        }
    }
    if init.len() == 0 {
        assert(collected(init) =~= Seq::<char>::empty());
        assert(collected(parts) == n);
        path::law_a_name_below_a_folder(root, n);
        assert(path::components(root).push(n) =~= path::components(root) + parts);
    } else {
        assert forall|i: int| 0 <= i < init.len() implies path::is_name(#[trigger] init[i]) by {
            assert(init[i] == parts[i]);
        }
        lemma_collected(root, init);
        let below = collected(init);
        let dir = path::joined_path(root, below);
        assert(dir == root + seq!['/'] + below);
        assert(collected(parts) == below + seq!['/'] + n);
        assert(dir.last() == below.last());
        path::law_a_name_below_a_folder(dir, n);
        assert(path::joined_path(dir, n) == dir + seq!['/'] + n);
        assert(path::joined_path(root, collected(parts)) =~= dir + seq!['/'] + n);
        assert(collected(parts)[0] == below[0]);
        assert(collected(parts).last() == n.last());
        assert((path::components(root) + init).push(n) =~= path::components(root) + parts);
    }
}

/// The breadcrumb leads from the project down to the file: after the project it has one part for each
/// folder and one for the file, in order. A folder leads to itself; the file has its icon and leads
/// nowhere.
pub proof fn law_the_breadcrumb_leads_to_the_file(
    w: Workbench,
    r: Option<Vec<Crumb>>,
    a: usize,
    rel: Seq<char>,
    i: int,
)
    requires
        w.inv(),
        call_ensures(Workbench::breadcrumb, (&w,), r),
        w.tabs.active == Some(a),
        path::ends_in_name(w.project_root@),
        path::ends_in_name(rel),
        rel[0] != '/',
        rel[0] != '.',
        w.tabs.tabs@[a as int].path@ == path::joined_path(w.project_root@, rel),
        0 <= i < path::components(rel).len(),
    ensures
        r is Some,
        ({
            let v = r->0@;
            let parts = path::components(rel);
            &&& v.len() == parts.len() + 1
            &&& v[0].label@ == w.project_name@ && v[0].target == Some(w.project_root)
            &&& v[i + 1].label@ == parts[i]
            &&& v[i + 1].target is None <==> i == parts.len() - 1
            &&& v[i + 1].icon is Some <==> i == parts.len() - 1
            &&& v[i + 1].target matches Some(t) ==> path::components(t@) == path::components(
                w.project_root@,
            ) + parts.take(i + 1)
        }),
{
    let parts = path::components(rel);
    path::law_the_rest_of_a_path_below_a_folder(w.project_root@, rel);
    assert(is_crumb(r->0@[i + 1], parts, w.project_root@, i));
    let upto = parts.take(i + 1);
    assert forall|j: int| 0 <= j < upto.len() implies path::is_name(#[trigger] upto[j]) by {
        lemma_parts_are_names(rel, j);
    }
    lemma_collected(w.project_root@, upto);
}

/// The status bar counts lines and columns from 1, tells how far the branch is ahead before how far it
/// is behind, and shows a number only where there is something to count.
pub proof fn law_the_status_bar_tells_numbers(
    w: Workbench,
    git: GitSummary,
    counts: Vec<usize>,
    stalls: u64,
    cursor: (u32, u32),
    bar: StatusBar,
)
    requires
        w.inv(),
        total(counts@) <= usize::MAX,
        call_ensures(Workbench::status_bar, (&w, &git, &counts, stalls, cursor), bar),
    ensures
        bar.branch is None <==> git.branch@.len() == 0,
        bar.branch matches Some(b) ==> b@ == git.branch@,
        bar.changes is None <==> git.changes == 0,
        bar.changes matches Some(t) ==> text::dec(git.changes as nat).is_suffix_of(t@),
        bar.problems is None <==> total(counts@) == 0,
        bar.problems matches Some(t) ==> text::dec(total(counts@)).is_suffix_of(t@),
        bar.stalls is None <==> stalls == 0,
        bar.stalls matches Some(t) ==> text::dec(stalls as nat).is_suffix_of(t@),
        bar.distance is None <==> git.ahead <= 0 && git.behind <= 0,
        bar.distance matches Some(t) ==> t@ == "↑"@ + text::dec_int(git.ahead as int) + " ↓"@
            + text::dec_int(git.behind as int),
        bar.position is None <==> w.tabs.active is None,
        bar.position matches Some(t) ==> t@ == "Ln "@ + text::dec((cursor.0 + 1) as nat) + ", Col "@
            + text::dec((cursor.1 + 1) as nat),
        bar.indent matches Some(t) ==> text::dec(w.settings.tab_size as nat).is_suffix_of(t@),
        bar.server is Some <==> (w.tabs.active matches Some(a) && w.tabs.tabs@[a as int].lang@
            == "java"@),
        bar.terminal_lit == w.terminal_visible,
{
    assert(w.status_shows(bar, git, counts@, stalls, cursor));
    if let Some(t) = bar.changes {
        lemma_ends_in("● "@, text::dec(git.changes as nat));
    }
    if let Some(t) = bar.problems {
        lemma_ends_in("⚠ "@, text::dec(total(counts@)));
    }
    if let Some(t) = bar.stalls {
        lemma_ends_in("卡顿 ×"@, text::dec(stalls as nat));
    }
    if let Some(t) = bar.indent {
        lemma_ends_in("空格:"@, text::dec(w.settings.tab_size as nat));
    }
    assert(text::opt_text(bar.changes) is Some <==> bar.changes is Some);
    assert(text::opt_text(bar.problems) is Some <==> bar.problems is Some);
    assert(text::opt_text(bar.stalls) is Some <==> bar.stalls is Some);
    assert(text::opt_text(bar.distance) is Some <==> bar.distance is Some);
    assert(text::opt_text(bar.position) is Some <==> bar.position is Some);
    assert(text::opt_text(bar.branch) is Some <==> bar.branch is Some);
}

proof fn lemma_ends_in(sign: Seq<char>, n: Seq<char>)
    ensures
        n.is_suffix_of(sign + n),
{
    let all = sign + n;
    assert(all.skip(all.len() - n.len()) =~= n);
}

/// A row of the problems leads to a tab that has problems and tells how many; every such tab has its
/// row, in the order of the tabs.
pub proof fn law_problems_lead_to_their_tabs(
    w: Workbench,
    counts: Vec<usize>,
    r: Option<BottomPanel>,
    rows: Vec<ProblemRow>,
    k: int,
    i: int,
)
    requires
        counts@.len() == w.tabs.tabs@.len(),
        total(counts@) <= usize::MAX,
        call_ensures(Workbench::bottom_panel, (&w, &counts), r),
        r matches Some(b) && b.content == PanelContent::Problems(rows),
        0 <= k < rows@.len(),
        0 <= i < counts@.len(),
    ensures
        rows@[k].ix < counts@.len(),
        rows@[k].count == counts@[rows@[k].ix as int] && rows@[k].count > 0,
        rows@[k].title@ == w.tabs.tabs@[rows@[k].ix as int].title@,
        k > 0 ==> rows@[k - 1].ix < rows@[k].ix,
        counts@[i] > 0 ==> exists|j: int| 0 <= j < rows@.len() && (#[trigger] rows@[j]).ix == i,
{
    let n = counts@.len() as int;
    let which = with_problems(counts@, n);
    lemma_with_problems(counts@, n);
    assert(lists_problems(rows@, w.tabs.tabs@, counts@, n));
    assert(0 <= which[k] < n);
    if k > 0 {
        assert(rows@[k - 1].ix == which[k - 1]);
        assert(which[k - 1] < which[k]);
    }
    if counts@[i] > 0 {
        assert(which.contains(i));
        let j = which.index_of(i);
        assert(rows@[j].ix == i);
    }
}

proof fn lemma_with_problems(counts: Seq<usize>, n: int)
    requires
        0 <= n <= counts.len(),
    ensures
        forall|j: int| 0 <= j < with_problems(counts, n).len() ==> {
            &&& 0 <= #[trigger] with_problems(counts, n)[j] < n
            &&& counts[with_problems(counts, n)[j]] > 0
        },
        forall|j: int, k: int|
            0 <= j < k < with_problems(counts, n).len() ==> #[trigger] with_problems(counts, n)[j]
                < #[trigger] with_problems(counts, n)[k],
        forall|i: int|
            0 <= i < n && #[trigger] counts[i] > 0 ==> with_problems(counts, n).contains(i),
    decreases n,
{
    if n > 0 {
        lemma_with_problems(counts, n - 1);
        let rest = with_problems(counts, n - 1);
        let all = with_problems(counts, n);
        assert forall|i: int| 0 <= i < n && #[trigger] counts[i] > 0 implies all.contains(i) by {
            if i < n - 1 {
                let k = rest.index_of(i);
                assert(all[k] == i);
            } else {
                assert(all[all.len() - 1] == i);
            }
        }
    }
}

/// The editor's menu has the diagnosis of a running process for Java files alone and the preview for
/// Markdown files alone; text can be copied and pasted in every file.
pub proof fn law_menus_fit_the_language(w: Workbench, r: Vec<MenuEntry>, a: usize)
    requires
        w.inv(),
        call_ensures(Workbench::editor_menu, (&w,), r),
        w.tabs.active == Some(a),
    ensures
        ({
            let lang = w.tabs.tabs@[a as int].lang@;
            &&& r@.contains(MenuEntry::ArthasWatch) <==> lang == "java"@
            &&& r@.contains(MenuEntry::ArthasTt) <==> lang == "java"@
            &&& r@.contains(MenuEntry::Copy) && r@.contains(MenuEntry::Paste)
            &&& r@.contains(MenuEntry::ShowPreview) <==> lang == "markdown"@ && !w.md_preview
            &&& r@.contains(MenuEntry::HidePreview) <==> lang == "markdown"@ && w.md_preview
        }),
{
    reveal_strlit("java");
    reveal_strlit("markdown");
    assert("java"@.len() == 4 && "markdown"@.len() == 8);
    let lang = w.tabs.tabs@[a as int].lang@;
    let java = lang == "java"@;
    let markdown = lang == "markdown"@;
    assert(r@ == menu_for(java, markdown, w.md_preview));
    if java {
        assert(r@[0] == MenuEntry::ArthasWatch);
        assert(r@[4] == MenuEntry::ArthasTt);
        assert(r@[6] == MenuEntry::Copy);
        assert(r@[7] == MenuEntry::Paste);
    } else {
        assert(r@[0] == MenuEntry::Copy);
        assert(r@[1] == MenuEntry::Paste);
        if markdown {
            assert(r@[3] == if w.md_preview {
                MenuEntry::HidePreview
            } else {
                MenuEntry::ShowPreview
            });
        }
    }
}

/// The preview stands beside a Markdown file alone, and the welcome page is shown only where no file is
/// open and none is being read.
pub proof fn law_what_fills_the_middle(w: Workbench, r: MainArea)
    requires
        w.inv(),
        call_ensures(Workbench::main_area, (&w,), r),
    ensures
        r is Editor <==> w.tabs.active is Some,
        r matches MainArea::Editor { preview } ==> (preview <==> w.md_preview && w.tabs.tabs@[w.tabs.active->0 as int].lang@
            == "markdown"@),
        r is Welcome <==> w.tabs.active is None && !w.restoring_tabs,
{
}

/// The server's bar and percentage are shown while it indexes, and it is ready only where its dot is
/// green.
pub proof fn law_the_dot_is_green_when_ready(phase: LspPhase, s: ServerState)
    requires
        call_ensures(server_state, (phase,), s),
    ensures
        s.dot == DotTone::Success <==> phase is Ready,
        s.dot == DotTone::Danger <==> phase is Failed,
        s.percent matches Some(p) ==> phase == LspPhase::Indexing(Some(p)),
        s.bar matches Some(b) ==> b <= 100,
        phase matches LspPhase::Indexing(Some(p)) ==> s.percent == Some(p) && (p <= 100 ==> s.bar
            == Some(p)),
{
}

/// The project bar is shown with several projects, each by its name, and marks the one in front.
pub proof fn law_the_project_bar_marks_the_front(w: Workbench, r: Option<Vec<ProjectTab>>, i: int)
    requires
        call_ensures(Workbench::project_bar, (&w,), r),
        0 <= i < w.projects.projects@.len(),
    ensures
        r is Some <==> w.projects.projects@.len() > 1,
        r matches Some(v) ==> v@.len() == w.projects.projects@.len() && v@[i].name@
            == path::shown_name(w.projects.projects@[i].path@) && (v@[i].active <==> i
            == w.projects.active),
{
}

} // verus!
