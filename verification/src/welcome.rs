//! The welcome page: recent projects and shortcuts.
use vstd::prelude::*;

use crate::path;
use crate::text;

verus! {

/// How many recent projects the page lists.
pub const MAX_LISTED: usize = 8;

/// The kinds of projects that are told apart.
#[derive(Clone, Copy, Debug, PartialEq, Eq, Structural)]
pub enum ProjectKind {
    Rust,
    Maven,
    Gradle,
    Other,
}

impl ProjectKind {
    /// The tag of a kind, which is empty where the kind is unknown.
    pub open spec fn tag_of(self) -> Seq<char> {
        match self {
            ProjectKind::Rust => "Rust"@,
            ProjectKind::Maven => "Maven"@,
            ProjectKind::Gradle => "Gradle"@,
            ProjectKind::Other => ""@,
        }
    }

    /// The tag of a kind.
    pub fn tag(&self) -> (r: &'static str)
        ensures
            r@ == self.tag_of(),
    {
        match self {
            ProjectKind::Rust => "Rust",
            ProjectKind::Maven => "Maven",
            ProjectKind::Gradle => "Gradle",
            ProjectKind::Other => "",
        }
    }

    /// The colour of a project's letter.
    pub open spec fn color_of(self) -> u32 {
        match self {
            ProjectKind::Rust => 0xd08a5c,
            ProjectKind::Maven => 0x7faedb,
            ProjectKind::Gradle => 0x3fb950,
            ProjectKind::Other => 0x7a8699,
        }
    }

    /// The colour of a project's letter.
    pub fn color(&self) -> (r: u32)
        ensures
            r == self.color_of(),
    {
        match self {
            ProjectKind::Rust => 0xd08a5c,
            ProjectKind::Maven => 0x7faedb,
            ProjectKind::Gradle => 0x3fb950,
            ProjectKind::Other => 0x7a8699,
        }
    }
}

/// Which marker files a project holds.
pub struct Markers {
    pub cargo_toml: bool,
    pub pom_xml: bool,
    pub build_gradle: bool,
    pub build_gradle_kts: bool,
}

/// The kind of a project with these marker files.
pub open spec fn kind_with(m: Markers) -> ProjectKind {
    if m.cargo_toml {
        ProjectKind::Rust
    } else if m.pom_xml {
        ProjectKind::Maven
    } else if m.build_gradle || m.build_gradle_kts {
        ProjectKind::Gradle
    } else {
        ProjectKind::Other
    }
}

/// The kind of a project with these marker files.
pub fn kind_for(m: &Markers) -> (r: ProjectKind)
    ensures
        r == kind_with(*m),
{
    if m.cargo_toml {
        ProjectKind::Rust
    } else if m.pom_xml {
        ProjectKind::Maven
    } else if m.build_gradle || m.build_gradle_kts {
        ProjectKind::Gradle
    } else {
        ProjectKind::Other
    }
}

/// A recent project as it is shown.
pub struct RecentEntry {
    pub path: String,
    pub name: String,
    pub display_path: String,
    pub kind: ProjectKind,
    /// The letter that stands for the project.
    pub fav: char,
}

/// A path with the home directory written as `~`.
pub open spec fn shortened(p: Seq<char>, home: Option<Seq<char>>) -> Seq<char> {
    match home {
        Some(h) => if h.is_prefix_of(p) {
            "~"@ + p.skip(h.len() as int)
        } else {
            p
        },
        None => p,
    }
}

/// The letter that stands for a name.
pub open spec fn letter_of(name: Seq<char>) -> char {
    text::ascii_upper(
        if name.len() > 0 {
            name[0]
        } else {
            '?'
        },
    )
}

/// Whether `e` shows the project at `p`.
pub open spec fn shows_project(
    e: RecentEntry,
    p: Seq<char>,
    home: Option<Seq<char>>,
    m: Markers,
) -> bool {
    &&& e.path@ == p
    &&& e.name@ == path::shown_name(p)
    &&& e.display_path@ == shortened(p, home)
    &&& e.kind == kind_with(m)
    &&& e.fav == letter_of(path::shown_name(p))
}

/// `dirs::home_dir` as text. It depends on the user's environment; nothing is claimed.
#[verifier::external_body]
fn user_home() -> (r: Option<String>) {
    dirs::home_dir().map(|p| p.to_string_lossy().to_string())
}

/// How the project at `p` is shown to a user with the given home directory.
pub fn classify_for(p: &str, home: Option<String>, m: &Markers) -> (e: RecentEntry)
    ensures
        shows_project(e, p@, text::opt_text(home), *m),
{
    let name = path::display_name(p);
    let display_path = match home {
        Some(h) => match text::strip_prefix(p, h.as_str()) {
            Some(rest) => text::cat2("~", rest.as_str()),
            None => p.to_owned(),
        },
        None => p.to_owned(),
    };
    let first = match text::first_char(name.as_str()) {
        Some(c) => c,
        None => '?',
    };
    RecentEntry {
        path: p.to_owned(),
        name,
        display_path,
        kind: kind_for(m),
        fav: text::upper(first),
    }
}

/// How the project at `p`, which holds the given marker files, is shown to the current user.
pub fn classify_recent(p: &str, m: &Markers) -> (e: RecentEntry)
    ensures
        exists|home: Option<Seq<char>>| #[trigger] shows_project(e, p@, home, *m),
{
    classify_for(p, user_home(), m)
}

/// The positions of the projects that are listed: those other than the open one, up to a limit.
pub open spec fn listed(recents: Seq<RecentEntry>, root: Seq<char>) -> Seq<int>
    decreases recents.len(),
{
    if recents.len() == 0 {
        Seq::empty()
    } else {
        let rest = listed(recents.drop_last(), root);
        if path::same(recents.last().path@, root) || rest.len() >= MAX_LISTED {
            rest
        } else {
            rest.push(recents.len() - 1)
        }
    }
}

/// The positions of the projects that are listed.
pub fn list_recents(recents: &Vec<RecentEntry>, root: &str) -> (r: Vec<usize>)
    ensures
        r@.map_values(|i: usize| i as int) == listed(recents@, root@),
{
    let mut out: Vec<usize> = Vec::new();
    let mut i: usize = 0;
    assert(recents@.take(0) =~= Seq::<RecentEntry>::empty());
    assert(out@.map_values(|i: usize| i as int) =~= Seq::<int>::empty());
    while i < recents.len()
        invariant
            i <= recents@.len(),
            out@.map_values(|i: usize| i as int) == listed(recents@.take(i as int), root@),
        decreases recents@.len() - i,
    {
        proof {
            assert(recents@.take(i + 1).drop_last() =~= recents@.take(i as int));
            assert(recents@.take(i + 1).last() == recents@[i as int]);
        }
        let ghost prev = out@;
        assert(prev.map_values(|i: usize| i as int).len() == out@.len());
        if !path::eq(recents[i].path.as_str(), root) && out.len() < MAX_LISTED {
            out.push(i);
            assert(out@.map_values(|i: usize| i as int) =~= prev.map_values(
                |i: usize| i as int,
            ).push(i as int));
        }
        i += 1;
    }
    assert(recents@.take(recents@.len() as int) =~= recents@);
    out
}

/// The recent projects on the page.
pub enum RecentsSection {
    /// There are none, which the page says.
    Empty,
    /// These positions of the list are shown.
    Rows(Vec<usize>),
}

/// The recent projects on the page, where the project at `root` is open.
pub fn recents_section(recents: &Vec<RecentEntry>, root: &str) -> (r: RecentsSection)
    ensures
        r is Empty <==> recents@.len() == 0,
        r matches RecentsSection::Rows(v) ==> v@.map_values(|i: usize| i as int) == listed(
            recents@,
            root@,
        ),
{
    if recents.len() == 0 {
        RecentsSection::Empty
    } else {
        RecentsSection::Rows(list_recents(recents, root))
    }
}

/// A command and its keys.
pub struct Shortcut {
    pub label: &'static str,
    pub keys: &'static str,
}

/// How many shortcuts stand in a row of the page, and how many rows there are.
pub const SHORTCUT_COLUMNS: usize = 3;

/// Command number `i` of the page and its keys.
pub open spec fn shortcut_at(i: int) -> (Seq<char>, Seq<char>) {
    if i == 0 {
        ("快速打开"@, "⌘P"@)
    } else if i == 1 {
        ("保存"@, "⌘S"@)
    } else if i == 2 {
        ("全局搜索"@, "⇧⌘F"@)
    } else if i == 3 {
        ("跳转定义"@, "F12"@)
    } else if i == 4 {
        ("查找引用"@, "⇧F12"@)
    } else if i == 5 {
        ("切换终端"@, "⌃`"@)
    } else if i == 6 {
        ("Markdown 预览"@, "⇧⌘V"@)
    } else if i == 7 {
        ("关闭标签"@, "⌘W"@)
    } else {
        ("设置"@, "⌘,"@)
    }
}

/// Command number `i` of the page.
pub fn shortcut(i: usize) -> (r: Shortcut)
    ensures
        (r.label@, r.keys@) == shortcut_at(i as int),
{
    match i {
        0 => Shortcut { label: "快速打开", keys: "⌘P" },
        1 => Shortcut { label: "保存", keys: "⌘S" },
        2 => Shortcut { label: "全局搜索", keys: "⇧⌘F" },
        3 => Shortcut { label: "跳转定义", keys: "F12" },
        4 => Shortcut { label: "查找引用", keys: "⇧F12" },
        5 => Shortcut { label: "切换终端", keys: "⌃`" },
        6 => Shortcut { label: "Markdown 预览", keys: "⇧⌘V" },
        7 => Shortcut { label: "关闭标签", keys: "⌘W" },
        _ => Shortcut { label: "设置", keys: "⌘," },
    }
}

/// Row `row` of the shortcuts, which has as many rows as columns.
pub fn shortcut_row(row: usize) -> (r: Vec<Shortcut>)
    requires
        row < SHORTCUT_COLUMNS,
    ensures
        r@.len() == SHORTCUT_COLUMNS,
        forall|c: int|
            0 <= c < SHORTCUT_COLUMNS ==> ((#[trigger] r@[c]).label@, r@[c].keys@) == shortcut_at(
                row * SHORTCUT_COLUMNS + c,
            ),
{
    let mut out: Vec<Shortcut> = Vec::new();
    out.push(shortcut(row * SHORTCUT_COLUMNS));
    out.push(shortcut(row * SHORTCUT_COLUMNS + 1));
    out.push(shortcut(row * SHORTCUT_COLUMNS + 2));
    out
}

/// The page lists no more projects than its limit, and never the one that is open.
pub proof fn law_the_open_project_is_not_listed(recents: Seq<RecentEntry>, root: Seq<char>)
    ensures
        listed(recents, root).len() <= MAX_LISTED,
        forall|k: int|
            0 <= k < listed(recents, root).len() ==> 0 <= #[trigger] listed(recents, root)[k]
                < recents.len() && !path::same(recents[listed(recents, root)[k]].path@, root),
    decreases recents.len(),
{
    if recents.len() > 0 {
        law_the_open_project_is_not_listed(recents.drop_last(), root);
        let rest = listed(recents.drop_last(), root);
        assert forall|k: int| 0 <= k < listed(recents, root).len() implies 0
            <= #[trigger] listed(recents, root)[k] < recents.len() && !path::same(
            recents[listed(recents, root)[k]].path@,
            root,
        ) by {
            if k < rest.len() {
                assert(listed(recents, root)[k] == rest[k]);
                assert(recents.drop_last()[rest[k]] == recents[rest[k]]);
            }
        }
    }
}

/// A project is what its build file says: a Rust project before anything else, a Maven project before
/// a Gradle one; without a build file it is none of them.
pub proof fn law_build_files_tell_the_kind(m: Markers, r: ProjectKind)
    requires
        call_ensures(kind_for, (&m,), r),
    ensures
        r == ProjectKind::Rust <==> m.cargo_toml,
        r == ProjectKind::Maven <==> m.pom_xml && !m.cargo_toml,
        r == ProjectKind::Gradle <==> (m.build_gradle || m.build_gradle_kts) && !m.cargo_toml
            && !m.pom_xml,
{
}

/// A project below the home folder is shown with a tilde for that folder, another one with its whole
/// path; its letter is the first one of its name, as a capital.
pub proof fn law_paths_are_shown_from_home(
    home: String,
    below: Seq<char>,
    p: &str,
    m: Markers,
    e: RecentEntry,
)
    requires
        call_ensures(classify_for, (p, Some(home), &m), e),
    ensures
        e.path@ == p@,
        p@ == home@ + below ==> e.display_path@ == "~"@ + below,
        !home@.is_prefix_of(p@) ==> e.display_path@ == p@,
        path::shown_name(p@).len() > 0 && 'a' <= path::shown_name(p@)[0] <= 'z' ==> e.fav as int
            == path::shown_name(p@)[0] as int - 32,
        path::shown_name(p@).len() > 0 && !('a' <= path::shown_name(p@)[0] <= 'z') ==> e.fav
            == path::shown_name(p@)[0],
{
    if p@ == home@ + below {
        assert(p@.take(home@.len() as int) =~= home@);
        assert(home@.is_prefix_of(p@));
        assert(p@.skip(home@.len() as int) =~= below);
    }
}

/// The projects that are listed are the most recent ones in order, the open one left out, up to
/// eight.
pub proof fn law_recent_projects_are_listed_in_order(
    recents: Vec<RecentEntry>,
    root: &str,
    r: Vec<usize>,
    k: int,
    i: int,
)
    requires
        call_ensures(list_recents, (&recents, root), r),
        0 <= k < r@.len(),
        0 <= i < recents@.len(),
    ensures
        r@.len() <= 8,
        r@[k] < recents@.len() && !path::same(recents@[r@[k] as int].path@, root@),
        k > 0 ==> r@[k - 1] < r@[k],
        !path::same(recents@[i].path@, root@) && r@.len() < 8 ==> exists|j: int|
            0 <= j < r@.len() && #[trigger] r@[j] == i,
        !path::same(recents@[i].path@, root@) && i < r@[k] ==> exists|j: int|
            0 <= j < r@.len() && #[trigger] r@[j] == i,
{
    let all = listed(recents@, root@);
    let got = r@.map_values(|n: usize| n as int);
    law_the_open_project_is_not_listed(recents@, root@);
    lemma_listed_in_order(recents@, root@);
    assert(got == all);
    assert(got[k] == r@[k]);
    if k > 0 {
        assert(got[k - 1] == r@[k - 1]);
    }
    if all.contains(i) {
        let j = all.index_of(i);
        assert(got[j] == r@[j]);
        assert(r@[j] == i);
    }
    if i < r@[k] {
        assert(all[k] > i);
    }
}

proof fn lemma_listed_in_order(recents: Seq<RecentEntry>, root: Seq<char>)
    ensures
        forall|j: int, k: int|
            0 <= j < k < listed(recents, root).len() ==> #[trigger] listed(recents, root)[j]
                < #[trigger] listed(recents, root)[k],
        forall|k: int|
            0 <= k < listed(recents, root).len() ==> 0 <= #[trigger] listed(recents, root)[k]
                < recents.len(),
        forall|i: int|
            0 <= i < recents.len() && !path::same((#[trigger] recents[i]).path@, root) && (
            listed(recents, root).len() < MAX_LISTED || exists|k: int|
                0 <= k < listed(recents, root).len() && #[trigger] listed(recents, root)[k] > i)
                ==> listed(recents, root).contains(i),
    decreases recents.len(),
{
    if recents.len() > 0 {
        let init = recents.drop_last();
        let rest = listed(init, root);
        let all = listed(recents, root);
        lemma_listed_in_order(init, root);
        assert forall|i: int|
            0 <= i < recents.len() && !path::same((#[trigger] recents[i]).path@, root) && (all.len()
                < MAX_LISTED || exists|k: int| 0 <= k < all.len() && #[trigger] all[k] > i)
            implies all.contains(i) by {
            if i < init.len() {
                assert(init[i] == recents[i]);
                if all.len() > rest.len() {
                    assert(rest.len() < MAX_LISTED);
                } else if all.len() == MAX_LISTED {
                    let k = choose|k: int| 0 <= k < all.len() && #[trigger] all[k] > i;
                    assert(rest[k] > i);
                }
                assert(rest.contains(i));
                let j = rest.index_of(i);
                assert(all[j] == i);
            } else {
                if all.len() == rest.len() {
                    if exists|k: int| 0 <= k < all.len() && #[trigger] all[k] > i {
                        let k = choose|k: int| 0 <= k < all.len() && #[trigger] all[k] > i;
                        assert(rest[k] < init.len());
                    }
                } else {
                    assert(all[all.len() - 1] == i);
                }
            }
        }
    }
}

/// The shortcuts fill the rows from left to right, three to a row.
pub proof fn law_shortcuts_fill_the_rows(row: usize, r: Vec<Shortcut>, c: int, i: usize, s: Shortcut)
    requires
        row < 3,
        call_ensures(shortcut_row, (row,), r),
        0 <= c < 3,
        i == 3 * row + c,
        call_ensures(shortcut, (i,), s),
    ensures
        r@.len() == 3,
        r@[c].label@ == s.label@,
        r@[c].keys@ == s.keys@,
{
}

/// Kinds of projects are told apart by their colour, and by their tag.
pub proof fn law_kinds_look_different(a: ProjectKind, b: ProjectKind, x: u32, y: u32, s: &'static str, t: &'static str)
    requires
        call_ensures(ProjectKind::color, (&a,), x),
        call_ensures(ProjectKind::color, (&b,), y),
        call_ensures(ProjectKind::tag, (&a,), s),
        call_ensures(ProjectKind::tag, (&b,), t),
    ensures
        x == y <==> a == b,
        s@ == t@ <==> a == b,
        s@.len() == 0 <==> a == ProjectKind::Other,
{
    reveal_strlit("Rust");
    reveal_strlit("Maven");
    reveal_strlit("Gradle");
    reveal_strlit("");
    assert("Rust"@.len() == 4 && "Maven"@.len() == 5 && "Gradle"@.len() == 6 && ""@.len() == 0);
}

/// A project is known by the first letter of its name, written as a capital.
pub proof fn law_projects_are_known_by_their_letter(p: &str, home: Option<String>, m: Markers, e: RecentEntry)
    requires
        call_ensures(classify_for, (p, home, &m), e),
    ensures
        e.path@ == p@,
        e.name@.len() == 0 ==> e.fav == '?',
        e.name@.len() > 0 && !('a' <= e.name@[0] <= 'z') ==> e.fav == e.name@[0],
        e.name@.len() > 0 && 'a' <= e.name@[0] <= 'z' ==> 'A' <= e.fav <= 'Z' && e.fav as u32 - 'A' as u32
            == e.name@[0] as u32 - 'a' as u32,
{
}

} // verus!
