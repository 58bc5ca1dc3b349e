//! Maven modules of a project and the dependencies of one of them.
use vstd::prelude::*;

use crate::path;
use crate::text;

verus! {

/// A module of the project.
pub struct MavenModule {
    pub name: String,
    pub version: String,
    pub pom_path: String,
}

/// One dependency of a module.
pub struct MavenDep {
    pub artifact_id: String,
    pub version: String,
    pub omitted_for: Option<String>,
    pub is_conflict: bool,
}

/// The dependencies of a module, as a flat list, and how many groups of them conflict.
pub struct MavenDepTree {
    pub flat: Vec<MavenDep>,
    pub conflicts: usize,
}

/// Where Maven and its configuration are; empty for the defaults.
pub struct MavenConfig {
    pub home: String,
    pub settings: String,
    pub repo: String,
}

impl Clone for MavenConfig {
    fn clone(&self) -> (r: Self)
        ensures
            r == *self,
    {
        MavenConfig {
            home: self.home.clone(),
            settings: self.settings.clone(),
            repo: self.repo.clone(),
        }
    }
}

/// A list of modules to read.
pub struct ModulesRequest {
    pub seq: u64,
    pub root: String,
}

/// A dependency tree to compute.
pub struct DepsRequest {
    pub seq: u64,
    pub module_dir: String,
    pub config: MavenConfig,
}

/// What a changed configuration asks for.
pub struct ConfigRequests {
    pub modules: ModulesRequest,
    /// The dependency tree of the selected module, where one is selected.
    pub deps: Option<DepsRequest>,
}

/// A row of the module list.
pub struct ModuleRow {
    pub name: String,
    pub version: String,
    pub selected: bool,
}

/// A row of the dependency list.
pub struct DepRow {
    pub label: String,
    pub conflict: bool,
    pub omitted: Option<String>,
}

/// The Maven panel.
pub struct MavenPanel {
    pub project_root: String,
    pub modules: Vec<MavenModule>,
    pub selected_module: Option<usize>,
    pub dep_tree: Option<MavenDepTree>,
    pub loading: bool,
    pub status: String,
    /// Number of the last request.
    pub seq: u64,
    pub config: MavenConfig,
}

/// What the status line says of a list of `n` modules.
pub open spec fn modules_status(n: nat) -> Seq<char> {
    if n == 0 {
        "未发现 pom.xml"@
    } else {
        text::dec(n) + " 个模块"@
    }
}

/// What the status line says of a dependency tree that could not be computed.
pub open spec fn failure_status(err: Seq<char>) -> Seq<char> {
    if text::has_part(err, "No such file"@) || text::has_part(err, "Failed to run mvn"@) {
        "未找到 mvn —— 请到 设置(⌘,)→ Maven 配置 Maven home(如 amaven)"@
    } else {
        "解析失败: "@ + err
    }
}

/// The directory of a module: where its `pom.xml` lies, or the project where that is unknown.
pub open spec fn module_dir(pom_path: Seq<char>, root: Seq<char>) -> Seq<char> {
    match path::parent_of(pom_path) {
        Some(d) => d,
        None => root,
    }
}

impl MavenPanel {
    /// A panel for the project at `project_root`, whose modules have to be read.
    pub fn new(project_root: String) -> (r: (Self, ModulesRequest))
        ensures
            r.0.project_root == project_root,
            r.0.modules@.len() == 0,
            r.0.selected_module is None,
            r.0.dep_tree is None,
            !r.0.loading,
            r.0.status@.len() == 0,
            r.0.seq == 1,
            r.0.config.home@.len() == 0 && r.0.config.settings@.len() == 0
                && r.0.config.repo@.len() == 0,
            r.1.seq == 1,
            r.1.root == project_root,
    {
        let mut this = Self {
            project_root,
            modules: Vec::new(),
            selected_module: None,
            dep_tree: None,
            loading: false,
            status: String::new(),
            seq: 0,
            config: MavenConfig {
                home: String::new(),
                settings: String::new(),
                repo: String::new(),
            },
        };
        let q = this.refresh_modules();
        (this, q)
    }

    /// Asks for the modules of the project. Every earlier request is out of date.
    pub fn refresh_modules(&mut self) -> (q: ModulesRequest)
        requires
            old(self).seq < u64::MAX,
        ensures
            *final(self) == (Self { seq: (old(self).seq + 1) as u64, ..*old(self) }),
            q.seq == final(self).seq,
            q.root == old(self).project_root,
    {
        self.seq = self.seq + 1;
        ModulesRequest { seq: self.seq, root: self.project_root.clone() }
    }

    /// The modules of request `seq` are there (none where they could not be read): lists them,
    /// unless there was another request since.
    pub fn modules_read(&mut self, seq: u64, modules: Result<Vec<MavenModule>, String>) -> (applied:
        bool)
        ensures
            applied == (seq == old(self).seq),
            !applied ==> *final(self) == *old(self),
            applied ==> {
                &&& *final(self) == (Self {
                    modules: final(self).modules,
                    status: final(self).status,
                    ..*old(self)
                })
                &&& (modules matches Ok(v) ==> final(self).modules == v)
                &&& (modules is Err ==> final(self).modules@.len() == 0)
                &&& final(self).status@ == modules_status(final(self).modules@.len())
            },
    {
        if self.seq != seq {
            return false;
        }
        self.modules = match modules {
            Ok(v) => v,
            Err(_) => Vec::new(),
        };
        self.status = if self.modules.len() == 0 {
            "未发现 pom.xml".to_owned()
        } else {
            text::cat2(text::dec_usize(self.modules.len()).as_str(), " 个模块")
        };
        true
    }

    /// What asking for the dependencies of module `ix` leads to, with the requests numbered `seq`:
    /// the tree that was shown goes until the new one is there.
    pub open spec fn computes(before: Self, after: Self, ix: int, seq: int, q: DepsRequest) -> bool {
        let m = before.modules@[ix];
        &&& 0 <= ix < before.modules@.len()
        &&& after == (Self {
            selected_module: Some(ix as usize),
            dep_tree: None,
            loading: true,
            status: after.status,
            seq: seq as u64,
            ..before
        })
        &&& after.status@ == "mvn dependency:tree — "@ + m.name@ + " …"@
        &&& q.seq == seq
        &&& q.config == before.config
        &&& q.module_dir@ == module_dir(m.pom_path@, before.project_root@)
    }

    /// Asks for the dependencies of module `ix` under the number of the last request.
    fn ask_deps(&mut self, ix: usize) -> (q: DepsRequest)
        requires
            ix < old(self).modules@.len(),
        ensures
            Self::computes(*old(self), *final(self), ix as int, old(self).seq as int, q),
    {
        let name = self.modules[ix].name.clone();
        let pom = self.modules[ix].pom_path.clone();
        self.selected_module = Some(ix);
        self.dep_tree = None;
        self.loading = true;
        self.status = text::cat3("mvn dependency:tree — ", name.as_str(), " …");
        let module_dir = match path::parent(pom.as_str()) {
            Some(d) => d,
            None => self.project_root.clone(),
        };
        DepsRequest { seq: self.seq, module_dir, config: self.config.clone() }
    }

    /// Takes over the Maven configuration. Where it changed the modules are read again, and a
    /// dependency tree that is shown or still being computed is computed again under the new
    /// configuration; both requests have the same number. A module that is only selected stays
    /// without a tree.
    pub fn set_config(&mut self, home: String, settings: String, repo: String) -> (r: Option<
        ConfigRequests,
    >)
        requires
            old(self).seq < u64::MAX,
        ensures
            final(self).config == (MavenConfig { home, settings, repo }),
            r is Some <==> (old(self).config.home@ != home@ || old(self).config.settings@
                != settings@ || old(self).config.repo@ != repo@),
            r is None ==> *final(self) == (Self { config: final(self).config, ..*old(self) }),
            r matches Some(q) ==> {
                let numbered = (Self {
                    config: final(self).config,
                    seq: (old(self).seq + 1) as u64,
                    ..*old(self)
                });
                let chosen = old(self).selected_module;
                &&& q.modules.seq == numbered.seq
                &&& q.modules.root == old(self).project_root
                &&& q.deps is Some <==> chosen is Some && chosen->0 < old(self).modules@.len() && (
                old(self).dep_tree is Some || old(self).loading)
                &&& q.deps is None ==> *final(self) == numbered
                &&& q.deps matches Some(d) ==> Self::computes(
                    numbered,
                    *final(self),
                    chosen->0 as int,
                    numbered.seq as int,
                    d,
                )
            },
    {
        let changed = !text::str_eq(self.config.home.as_str(), home.as_str()) || !text::str_eq(
            self.config.settings.as_str(),
            settings.as_str(),
        ) || !text::str_eq(self.config.repo.as_str(), repo.as_str());
        self.config = MavenConfig { home, settings, repo };
        if !changed {
            return None;
        }
        let modules = self.refresh_modules();
        let has_tree = self.dep_tree.is_some() || self.loading;
        let deps = match self.selected_module {
            Some(ix) => if has_tree && ix < self.modules.len() {
                Some(self.ask_deps(ix))
            } else {
                None
            },
            None => None,
        };
        Some(ConfigRequests { modules, deps })
    }

    /// Moves to another project, whose modules have to be read.
    pub fn set_project(&mut self, root: String) -> (q: ModulesRequest)
        requires
            old(self).seq < u64::MAX,
        ensures
            final(self).project_root == root,
            final(self).modules@.len() == 0,
            final(self).selected_module is None,
            final(self).dep_tree is None,
            final(self).seq == old(self).seq + 1,
            final(self).loading == old(self).loading,
            final(self).status == old(self).status,
            final(self).config == old(self).config,
            q.seq == final(self).seq,
            q.root == root,
    {
        self.project_root = root;
        self.modules.clear();
        self.selected_module = None;
        self.dep_tree = None;
        self.refresh_modules()
    }

    /// Selects module `ix`.
    pub fn select_module(&mut self, ix: usize)
        ensures
            *final(self) == (Self { selected_module: Some(ix), ..*old(self) }),
    {
        self.selected_module = Some(ix);
    }

    /// Asks for the dependencies of module `ix`, where there is one.
    pub fn load_deps(&mut self, ix: usize) -> (r: Option<DepsRequest>)
        requires
            old(self).seq < u64::MAX,
        ensures
            r is Some <==> ix < old(self).modules@.len(),
            r is None ==> *final(self) == *old(self),
            r matches Some(q) ==> Self::computes(
                *old(self),
                *final(self),
                ix as int,
                old(self).seq + 1,
                q,
            ),
    {
        if ix >= self.modules.len() {
            return None;
        }
        self.seq = self.seq + 1;
        Some(self.ask_deps(ix))
    }

    /// The dependency tree of request `seq` is there, or why it could not be computed: shows it,
    /// unless there was another request since.
    pub fn deps_read(&mut self, seq: u64, tree: Result<MavenDepTree, String>) -> (applied: bool)
        ensures
            applied == (seq == old(self).seq),
            !applied ==> *final(self) == *old(self),
            applied ==> {
                &&& *final(self) == (Self {
                    loading: false,
                    status: final(self).status,
                    dep_tree: final(self).dep_tree,
                    ..*old(self)
                })
                &&& (tree matches Ok(t) ==> final(self).dep_tree == Some(t)
                    && final(self).status@ == text::dec(t.flat@.len()) + " 个依赖,"@ + text::dec(
                    t.conflicts as nat,
                ) + " 组冲突"@)
                &&& (tree matches Err(e) ==> final(self).dep_tree == old(self).dep_tree
                    && final(self).status@ == failure_status(e@))
            },
    {
        if self.seq != seq {
            return false;
        }
        self.loading = false;
        match tree {
            Ok(t) => {
                self.status = text::cat4(
                    text::dec_usize(t.flat.len()).as_str(),
                    " 个依赖,",
                    text::dec_usize(t.conflicts).as_str(),
                    " 组冲突",
                );
                self.dep_tree = Some(t);
            },
            Err(e) => {
                self.status = if text::contains(e.as_str(), "No such file") || text::contains(
                    e.as_str(),
                    "Failed to run mvn",
                ) {
                    "未找到 mvn —— 请到 设置(⌘,)→ Maven 配置 Maven home(如 amaven)".to_owned()
                } else {
                    text::cat2("解析失败: ", e.as_str())
                };
            },
        }
        true
    }

    /// The rows of the module list.
    pub fn module_rows(&self) -> (rows: Vec<ModuleRow>)
        ensures
            rows@.len() == self.modules@.len(),
            forall|i: int|
                0 <= i < rows@.len() ==> {
                    &&& (#[trigger] rows@[i]).name@ == self.modules@[i].name@
                    &&& rows@[i].version@ == self.modules@[i].version@
                    &&& rows@[i].selected == (self.selected_module == Some(i as usize))
                },
    {
        let mut rows: Vec<ModuleRow> = Vec::new();
        let mut i: usize = 0;
        while i < self.modules.len()
            invariant
                i <= self.modules@.len(),
                rows@.len() == i,
                forall|j: int|
                    0 <= j < i ==> {
                        &&& (#[trigger] rows@[j]).name@ == self.modules@[j].name@
                        &&& rows@[j].version@ == self.modules@[j].version@
                        &&& rows@[j].selected == (self.selected_module == Some(j as usize))
                    },
            decreases self.modules@.len() - i,
        {
            let selected = match self.selected_module {
                Some(s) => s == i,
                None => false,
            };
            rows.push(
                ModuleRow {
                    name: self.modules[i].name.clone(),
                    version: self.modules[i].version.clone(),
                    selected,
                },
            );
            i += 1;
        }
        rows
    }

    /// The rows of the dependency list.
    pub fn dep_rows(&self) -> (rows: Vec<DepRow>)
        ensures
            self.dep_tree is None ==> rows@.len() == 0,
            self.dep_tree matches Some(t) ==> rows@.len() == t.flat@.len() && forall|i: int|
                0 <= i < rows@.len() ==> {
                    let d = t.flat@[i];
                    &&& (#[trigger] rows@[i]).label@ == d.artifact_id@ + " : "@ + d.version@
                    &&& rows@[i].conflict == d.is_conflict
                    &&& text::opt_text(rows@[i].omitted) == (match d.omitted_for {
                        Some(v) => Some("omitted→"@ + v@),
                        None => None,
                    })
                },
    {
        let mut rows: Vec<DepRow> = Vec::new();
        if let Some(t) = &self.dep_tree {
            let mut i: usize = 0;
            while i < t.flat.len()
                invariant
                    i <= t.flat@.len(),
                    rows@.len() == i,
                    forall|j: int|
                        0 <= j < i ==> {
                            let d = t.flat@[j];
                            &&& (#[trigger] rows@[j]).label@ == d.artifact_id@ + " : "@ + d.version@
                            &&& rows@[j].conflict == d.is_conflict
                            &&& text::opt_text(rows@[j].omitted) == (match d.omitted_for {
                                Some(v) => Some("omitted→"@ + v@),
                                None => None,
                            })
                        },
                decreases t.flat@.len() - i,
            {
                let d = &t.flat[i];
                let omitted = match &d.omitted_for {
                    Some(v) => Some(text::cat2("omitted→", v.as_str())),
                    None => None,
                };
                rows.push(
                    DepRow {
                        label: text::cat3(d.artifact_id.as_str(), " : ", d.version.as_str()),
                        conflict: d.is_conflict,
                        omitted,
                    },
                );
                i += 1;
            }
        }
        rows
    }
}

/// The dependencies of a module are computed in the folder of its `pom.xml`, with the configuration
/// that is set.
pub proof fn law_dependencies_are_computed_where_the_pom_is(
    p: &mut MavenPanel,
    ix: usize,
    r: Option<DepsRequest>,
    dir: Seq<char>,
)
    requires
        old(p).seq < u64::MAX,
        call_ensures(MavenPanel::load_deps, (p, ix), r),
        ix < old(p).modules@.len(),
        dir.len() > 0,
        dir.last() != '/',
        dir.last() != '.',
        old(p).modules@[ix as int].pom_path@ == dir + seq!['/'] + "pom.xml"@,
    ensures
        r matches Some(q) && q.module_dir@ == dir && q.config == old(p).config && q.seq
            == final(p).seq,
        final(p).selected_module == Some(ix),
        final(p).dep_tree is None && final(p).loading,
        final(p).modules == old(p).modules,
        final(p).seq != old(p).seq,
{
    reveal_strlit("pom.xml");
    let n = "pom.xml"@;
    assert(n.len() == 7);
    assert(!n.contains('/'));
    assert(n != seq!['.']) by {
        assert(seq!['.'].len() == 1);
    }
    assert(!path::is_absolute(n));
    assert(path::joined_path(dir, n) == dir + seq!['/'] + n);
    path::law_the_folder_of_what_lies_in_it(dir, n);
}

/// What comes in for an earlier request is dropped; what comes in for the last one is shown.
pub proof fn law_only_the_last_tree_is_shown(
    p: &mut MavenPanel,
    seq: u64,
    tree: Result<MavenDepTree, String>,
    applied: bool,
)
    requires
        call_ensures(MavenPanel::deps_read, (p, seq, tree), applied),
    ensures
        seq != old(p).seq ==> *final(p) == *old(p),
        seq == old(p).seq ==> !final(p).loading && final(p).modules == old(p).modules
            && final(p).selected_module == old(p).selected_module,
        seq == old(p).seq ==> (tree matches Ok(t) ==> final(p).dep_tree == Some(t)),
        seq == old(p).seq && tree is Err ==> final(p).dep_tree == old(p).dep_tree,
{
}

/// A missing Maven is told apart from any other failure, which is told as it is.
pub proof fn law_a_missing_maven_is_told(before: Seq<char>, after: Seq<char>, other: Seq<char>)
    requires
        !text::has_part(other, "No such file"@),
        !text::has_part(other, "Failed to run mvn"@),
    ensures
        failure_status(before + "No such file"@ + after) == failure_status(
            before + "Failed to run mvn"@ + after,
        ),
        failure_status(before + "No such file"@ + after) == failure_status("No such file"@),
        failure_status(other) == "解析失败: "@ + other,
{
    text::law_parts_are_surrounded(before + "No such file"@ + after, "No such file"@);
    text::law_parts_are_surrounded(before + "Failed to run mvn"@ + after, "Failed to run mvn"@);
    text::law_parts_are_surrounded("No such file"@, "No such file"@);
    let e = Seq::<char>::empty();
    assert("No such file"@ =~= e + "No such file"@ + e);
}

/// A dependency is shown with its version and drawn as a conflict exactly when it is one; what was
/// left out for another version tells which.
pub proof fn law_conflicts_are_drawn(p: MavenPanel, rows: Vec<DepRow>, t: MavenDepTree, i: int)
    requires
        call_ensures(MavenPanel::dep_rows, (&p,), rows),
        p.dep_tree == Some(t),
        0 <= i < t.flat@.len(),
    ensures
        rows@.len() == t.flat@.len(),
        rows@[i].conflict <==> t.flat@[i].is_conflict,
        rows@[i].omitted is Some <==> t.flat@[i].omitted_for is Some,
        t.flat@[i].artifact_id@.is_prefix_of(rows@[i].label@),
        t.flat@[i].version@.is_suffix_of(rows@[i].label@),
        t.flat@[i].omitted_for matches Some(v) ==> v@.is_suffix_of(rows@[i].omitted->0@),
{
    let d = t.flat@[i];
    let label = rows@[i].label@;
    assert(label.take(d.artifact_id@.len() as int) =~= d.artifact_id@);
    assert(label.skip(label.len() - d.version@.len()) =~= d.version@);
    if let Some(v) = d.omitted_for {
        assert(text::opt_text(rows@[i].omitted) is Some);
        let o = rows@[i].omitted->0@;
        assert(o == "omitted→"@ + v@);
        assert(o.skip(o.len() - v@.len()) =~= v@);
    }
}

/// Every module has a row, and the selected one is marked.
pub proof fn law_modules_have_their_rows(p: &mut MavenPanel, ix: usize, rows: Vec<ModuleRow>, i: usize)
    requires
        call_ensures(MavenPanel::select_module, (p, ix), ()),
        call_ensures(MavenPanel::module_rows, (&*final(p),), rows),
        i < old(p).modules@.len(),
    ensures
        rows@.len() == old(p).modules@.len(),
        rows@[i as int].name@ == old(p).modules@[i as int].name@,
        rows@[i as int].version@ == old(p).modules@[i as int].version@,
        rows@[i as int].selected <==> i == ix,
{
}

/// Other paths of Maven take effect at once: the modules are read again, and the dependencies that were
/// shown are computed anew; the same paths change nothing.
pub proof fn law_other_paths_take_effect(
    p: &mut MavenPanel,
    home: String,
    settings: String,
    repo: String,
    r: Option<ConfigRequests>,
)
    requires
        old(p).seq < u64::MAX,
        call_ensures(MavenPanel::set_config, (p, home, settings, repo), r),
    ensures
        final(p).config.home == home && final(p).config.settings == settings && final(p).config.repo
            == repo,
        home@ == old(p).config.home@ && settings@ == old(p).config.settings@ && repo@
            == old(p).config.repo@ ==> r is None && final(p).seq == old(p).seq && final(p).dep_tree
            == old(p).dep_tree,
        home@ != old(p).config.home@ || settings@ != old(p).config.settings@ || repo@
            != old(p).config.repo@ ==> r is Some && final(p).seq > old(p).seq,
        r matches Some(q) ==> q.modules.root == old(p).project_root && q.modules.seq == final(p).seq,
        r matches Some(q) ==> (q.deps matches Some(d) ==> d.seq == final(p).seq && d.config.home == home
            && d.config.settings == settings && d.config.repo == repo && final(p).selected_module
            == old(p).selected_module),
        r matches Some(q) ==> old(p).dep_tree is Some && (old(p).selected_module matches Some(i) && i
            < old(p).modules@.len()) ==> q.deps is Some,
        final(p).modules == old(p).modules,
{
}

/// Modules are listed as they were read, where they were asked for last; none are left where reading
/// them failed.
pub proof fn law_modules_are_those_read_last(
    p: &mut MavenPanel,
    q: &mut MavenPanel,
    asked: ModulesRequest,
    modules: Result<Vec<MavenModule>, String>,
    seq: u64,
    applied: bool,
)
    requires
        old(p).seq < u64::MAX,
        call_ensures(MavenPanel::refresh_modules, (p,), asked),
        *old(q) == *final(p),
        call_ensures(MavenPanel::modules_read, (q, seq, modules), applied),
    ensures
        asked.root == old(p).project_root,
        applied <==> seq == asked.seq,
        seq <= old(p).seq ==> !applied,
        applied ==> (modules matches Ok(v) ==> final(q).modules == v) && (modules is Err ==> final(q).modules@.len() == 0),
        !applied ==> final(q).modules == old(p).modules,
        applied && final(q).modules@.len() > 0 ==> text::dec(final(q).modules@.len()).is_prefix_of(
            final(q).status@,
        ),
{
    if applied && final(q).modules@.len() > 0 {
        let n = text::dec(final(q).modules@.len());
        assert(final(q).status@.take(n.len() as int) =~= n);
    }
}

} // verus!
