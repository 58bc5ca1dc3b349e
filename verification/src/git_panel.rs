//! Changes, branches and history of the repositories of a project.
use vstd::prelude::*;

use crate::path;
use crate::path_map::PathMap;
use crate::text;

verus! {

/// How many changed files are listed, over all repositories.
pub const MAX_RENDERED_CHANGES: usize = 400;

/// How many commits the history shows.
pub const LOG_LIMIT: usize = 50;

/// A changed file. Its path is relative to its repository.
pub struct GitChange {
    pub repo: String,
    pub path: String,
    pub status: String,
    pub staged: bool,
}

impl Clone for GitChange {
    fn clone(&self) -> (r: Self)
        ensures
            r == *self,
    {
        GitChange {
            repo: self.repo.clone(),
            path: self.path.clone(),
            status: self.status.clone(),
            staged: self.staged,
        }
    }
}

/// A branch and how far it is from its upstream.
pub struct GitBranch {
    pub name: String,
    pub current: bool,
    pub remote: bool,
    pub ahead: i32,
    pub behind: i32,
}

/// A commit of the history.
pub struct GitCommit {
    pub short_hash: String,
    pub subject: String,
    pub date: String,
}

/// A repository of the project.
pub struct GitRepo {
    pub name: String,
    pub path: String,
}

/// What the panel asks of its owner.
pub enum GitPanelEvent {
    OpenDiff { repo: String, rel_path: String, abs_path: String },
    OpenMerge { repo: String, rel_path: String },
    /// The changes as they are now.
    StatusUpdated(Vec<GitChange>),
}

/// The two views of the panel.
#[derive(Clone, Copy, Debug, PartialEq, Eq, Structural)]
pub enum GitPanelMode {
    Commit,
    Branches,
}

/// Everything about the project is to be read.
pub struct RefreshRequest {
    pub refresh_seq: u64,
    pub log_seq: u64,
    pub root: String,
    pub active_repo: usize,
}

/// The changes of these repositories are to be read, and the current branch of one.
pub struct LightRequest {
    pub seq: u64,
    pub repo_paths: Vec<String>,
    /// The active repository, and where its branch is read from.
    pub active_repo: usize,
    pub branch_path: String,
}

/// Files to commit in one repository.
pub struct CommitGroup {
    pub repo: String,
    pub files: Vec<String>,
}

/// Commits to make, one per repository, all with the same message.
pub struct CommitRequest {
    pub groups: Vec<CommitGroup>,
    pub message: String,
    pub and_push: bool,
}

/// How the commits of a request went so far.
pub struct CommitTally {
    pub ok: usize,
    pub err: Option<String>,
}

/// A repository to pull or push.
pub struct SyncRequest {
    pub cwd: String,
    pub branch: String,
    pub push: bool,
}

/// A changed file to put back.
pub struct RollbackRequest {
    pub cwd: String,
    pub path: String,
    pub status: String,
}

/// A branch to switch to.
pub struct CheckoutRequest {
    pub cwd: String,
    pub branch: String,
}

/// Branches and history of a repository are to be read.
pub struct RepoRequest {
    pub log_seq: u64,
    pub path: String,
}

/// The history of a branch is to be read.
pub struct LogRequest {
    pub log_seq: u64,
    pub cwd: String,
    pub branch: String,
}

/// Colours by meaning.
#[derive(Clone, Copy, Debug, PartialEq, Eq, Structural)]
pub enum Tone {
    Warning,
    Success,
    Danger,
    Info,
}

/// A changed file as it is listed.
pub struct ChangeRow {
    /// Position among the changes.
    pub index: usize,
    pub mark: String,
    pub tone: Tone,
    pub filename: String,
    pub dir: String,
    pub conflicted: bool,
    pub selected: bool,
    /// Whether the row is labelled as staged.
    pub staged: bool,
}

/// The changed files of one repository.
pub struct ChangeGroup {
    pub title: String,
    pub total: usize,
    pub rows: Vec<ChangeRow>,
    pub hidden: usize,
}

/// A branch as it is listed.
pub struct BranchRow {
    /// Position among the branches.
    pub index: usize,
    pub name: String,
    pub current: bool,
    /// Whether its history is shown.
    pub viewing: bool,
    /// Distance from the upstream, where there is any.
    pub distance: Option<String>,
}

/// The git panel.
pub struct GitPanel {
    pub project_root: String,
    pub repos: Vec<GitRepo>,
    /// Which repository the branches and the history are about.
    pub active_repo: usize,
    pub mode: GitPanelMode,
    pub branch: String,
    pub changes: Vec<GitChange>,
    /// Absolute paths of the files with conflicts.
    pub conflicts: Vec<String>,
    /// Absolute path of the selected change.
    pub selected_change: Option<String>,
    pub branches: Vec<GitBranch>,
    pub log: Vec<GitCommit>,
    /// The branch whose history is shown, empty for the current one.
    pub selected_branch: String,
    /// Unfinished commit messages of the projects.
    pub commit_drafts: PathMap<String>,
    pub busy: bool,
    pub status: String,
    /// Number of the last request for changes.
    pub refresh_seq: u64,
    /// Number of the last request for branches or history.
    pub log_seq: u64,
    /// The branch that the context menu is open for.
    pub ctx_branch: Option<String>,
}

/// Absolute path of a changed file.
pub open spec fn abs_of(c: GitChange) -> Seq<char> {
    path::joined_path(c.repo@, c.path@)
}

/// Absolute path of a file of a repository.
pub fn abs_in_repo(repo: &str, rel: &str) -> (r: String)
    ensures
        r@ == path::joined_path(repo@, rel@),
{
    path::join(repo, rel)
}

/// Absolute path of a changed file.
pub fn change_abs(c: &GitChange) -> (r: String)
    ensures
        r@ == abs_of(*c),
{
    abs_in_repo(c.repo.as_str(), c.path.as_str())
}

/// A copy of a list of changes.
pub fn copy_changes(v: &Vec<GitChange>) -> (r: Vec<GitChange>)
    ensures
        r@ == v@,
{
    let mut out: Vec<GitChange> = Vec::new();
    let mut i: usize = 0;
    while i < v.len()
        invariant
            i <= v@.len(),
            out@ == v@.take(i as int),
        decreases v@.len() - i,
    {
        out.push(v[i].clone());
        i += 1;
        assert(out@ =~= v@.take(i as int));
    }
    assert(v@.take(v@.len() as int) =~= v@);
    out
}

/// The changes of all repositories that could be read, one after the other.
pub open spec fn all_changes(batch: Seq<Option<Vec<GitChange>>>) -> Seq<GitChange>
    decreases batch.len(),
{
    if batch.len() == 0 {
        Seq::empty()
    } else {
        all_changes(batch.drop_last()) + (match batch.last() {
            Some(v) => v@,
            None => Seq::empty(),
        })
    }
}

/// The changes of all repositories that could be read.
pub fn collect_changes(batch: &Vec<Option<Vec<GitChange>>>) -> (r: Vec<GitChange>)
    ensures
        r@ == all_changes(batch@),
{
    let mut out: Vec<GitChange> = Vec::new();
    let mut i: usize = 0;
    assert(batch@.take(0) =~= Seq::<Option<Vec<GitChange>>>::empty());
    while i < batch.len()
        invariant
            i <= batch@.len(),
            out@ == all_changes(batch@.take(i as int)),
        decreases batch@.len() - i,
    {
        assert(batch@.take(i + 1).drop_last() =~= batch@.take(i as int));
        let ghost before = out@;
        if let Some(v) = &batch[i] {
            let mut more = copy_changes(v);
            out.append(&mut more);
            assert(out@ =~= before + v@);
        } else {
            assert(before + Seq::<GitChange>::empty() =~= before);
        }
        i += 1;
    }
    assert(batch@.take(batch@.len() as int) =~= batch@);
    out
}

/// The conflicts of one repository, as read.
pub struct RepoConflicts {
    pub repo: String,
    /// Relative paths, or nothing where they could not be read.
    pub files: Option<Vec<String>>,
}

/// Absolute paths of files of one repository.
pub open spec fn abs_paths(repo: Seq<char>, files: Seq<String>) -> Seq<Seq<char>> {
    files.map_values(|f: String| path::joined_path(repo, f@))
}

/// Absolute paths of all files with conflicts.
pub open spec fn all_conflicts(per: Seq<RepoConflicts>) -> Seq<Seq<char>>
    decreases per.len(),
{
    if per.len() == 0 {
        Seq::empty()
    } else {
        all_conflicts(per.drop_last()) + (match per.last().files {
            Some(v) => abs_paths(per.last().repo@, v@),
            None => Seq::empty(),
        })
    }
}

/// Absolute paths of all files with conflicts.
pub fn collect_conflicts(per: &Vec<RepoConflicts>) -> (r: Vec<String>)
    ensures
        text::texts(r@) == all_conflicts(per@),
{
    let mut out: Vec<String> = Vec::new();
    let mut i: usize = 0;
    assert(per@.take(0) =~= Seq::<RepoConflicts>::empty());
    assert(text::texts(out@) =~= all_conflicts(per@.take(0)));
    while i < per.len()
        invariant
            i <= per@.len(),
            text::texts(out@) == all_conflicts(per@.take(i as int)),
        decreases per@.len() - i,
    {
        assert(per@.take(i + 1).drop_last() =~= per@.take(i as int));
        let ghost before = text::texts(out@);
        if let Some(v) = &per[i].files {
            let ghost abs = abs_paths(per@[i as int].repo@, v@);
            let mut j: usize = 0;
            assert(before + abs.take(0) =~= before);
            while j < v.len()
                invariant
                    j <= v@.len(),
                    i < per@.len(),
                    abs == abs_paths(per@[i as int].repo@, v@),
                    text::texts(out@) == before + abs.take(j as int),
                decreases v@.len() - j,
            {
                let ghost prev = text::texts(out@);
                out.push(abs_in_repo(per[i].repo.as_str(), v[j].as_str()));
                assert(text::texts(out@) =~= prev.push(abs[j as int]));
                j += 1;
                assert(text::texts(out@) =~= before + abs.take(j as int));
            }
            assert(abs.take(abs.len() as int) =~= abs);
        } else {
            assert(before + Seq::<Seq<char>>::empty() =~= before);
        }
        i += 1;
    }
    assert(per@.take(per@.len() as int) =~= per@);
    out
}

/// The repositories to show: those that were found, or the project itself where none was.
pub fn repos_or_root(found: Vec<GitRepo>, root: &str) -> (r: Vec<GitRepo>)
    ensures
        found@.len() > 0 ==> r == found,
        found@.len() == 0 ==> r@.len() == 1 && r@[0].path@ == root@ && r@[0].name@
            == path::shown_name(root@),
{
    if found.len() > 0 {
        return found;
    }
    let mut r: Vec<GitRepo> = Vec::new();
    r.push(GitRepo { name: path::display_name(root), path: root.to_owned() });
    r
}

/// The repository that branches and history are read from: the active one, else the first, else
/// the project itself.
pub open spec fn read_from(repos: Seq<GitRepo>, active: int, root: Seq<char>) -> Seq<char> {
    if active < repos.len() {
        repos[active].path@
    } else if repos.len() > 0 {
        repos[0].path@
    } else {
        root
    }
}

/// The repository that branches and history are read from.
pub fn repo_to_read(repos: &Vec<GitRepo>, active: usize, root: &str) -> (r: String)
    ensures
        r@ == read_from(repos@, active as int, root@),
{
    if active < repos.len() {
        repos[active].path.clone()
    } else if repos.len() > 0 {
        repos[0].path.clone()
    } else {
        root.to_owned()
    }
}

/// Whether a change with absolute path `abs` is in the list.
pub open spec fn has_change(changes: Seq<GitChange>, abs: Seq<char>) -> bool {
    exists|i: int| 0 <= i < changes.len() && abs_of(#[trigger] changes[i]) == abs
}

/// Whether change `i` is the first of the file at `abs`.
pub open spec fn first_change(changes: Seq<GitChange>, abs: Seq<char>, i: int) -> bool {
    &&& 0 <= i < changes.len()
    &&& abs_of(changes[i]) == abs
    &&& forall|j: int| 0 <= j < i ==> abs_of(#[trigger] changes[j]) != abs
}

/// The selection once `changes` is the list: it goes where its file is no longer changed.
pub open spec fn kept_selection(sel: Option<String>, changes: Seq<GitChange>) -> Option<String> {
    match sel {
        Some(s) => if has_change(changes, s@) {
            sel
        } else {
            None
        },
        None => None,
    }
}

/// The repositories that the changes belong to, in the order of their first change.
pub open spec fn repos_of(changes: Seq<GitChange>) -> Seq<Seq<char>>
    decreases changes.len(),
{
    if changes.len() == 0 {
        Seq::empty()
    } else {
        let rest = repos_of(changes.drop_last());
        if rest.contains(changes.last().repo@) {
            rest
        } else {
            rest.push(changes.last().repo@)
        }
    }
}

/// The changed files of one repository, in order.
pub open spec fn files_of(changes: Seq<GitChange>, repo: Seq<char>) -> Seq<Seq<char>>
    decreases changes.len(),
{
    if changes.len() == 0 {
        Seq::empty()
    } else {
        let rest = files_of(changes.drop_last(), repo);
        if changes.last().repo@ == repo {
            rest.push(changes.last().path@)
        } else {
            rest
        }
    }
}

/// The groups hold the changed files of each repository, one group per repository.
pub open spec fn groups_cover(groups: Seq<CommitGroup>, changes: Seq<GitChange>) -> bool {
    &&& groups.len() == repos_of(changes).len()
    &&& forall|i: int|
        0 <= i < groups.len() ==> {
            &&& (#[trigger] groups[i]).repo@ == repos_of(changes)[i]
            &&& text::texts(groups[i].files@) == files_of(changes, groups[i].repo@)
        }
}

proof fn lemma_repos_of(changes: Seq<GitChange>)
    ensures
        repos_of(changes).no_duplicates(),
        forall|i: int|
            0 <= i < changes.len() ==> repos_of(changes).contains((#[trigger] changes[i]).repo@),
        forall|r: Seq<char>|
            !#[trigger] repos_of(changes).contains(r) ==> files_of(changes, r).len() == 0,
    decreases changes.len(),
{
    if changes.len() > 0 {
        let init = changes.drop_last();
        let rest = repos_of(init);
        let all = repos_of(changes);
        let last = changes.last().repo@;
        lemma_repos_of(init);
        assert forall|r: Seq<char>| #[trigger] all.contains(r) <==> rest.contains(r) || r == last by {
            if rest.contains(r) {
                let k = choose|k: int| 0 <= k < rest.len() && rest[k] == r;
                assert(all[k] == r);
            }
            if r == last && !rest.contains(last) {
                assert(all[rest.len() as int] == r);
            }
        }
        assert forall|i: int| 0 <= i < changes.len() implies all.contains(
            (#[trigger] changes[i]).repo@,
        ) by {
            if i < init.len() {
                assert(init[i] == changes[i]);
            }
        }
        assert forall|r: Seq<char>| !#[trigger] all.contains(r) implies files_of(changes, r).len()
            == 0 by {
            assert(!rest.contains(r));
        }
    }
}

/// Every change is committed exactly once, in its own repository: the groups belong to different
/// repositories, and the group of each change's repository holds the files changed there.
pub proof fn law_each_change_is_committed_in_its_repository(
    groups: Seq<CommitGroup>,
    changes: Seq<GitChange>,
    i: int,
)
    requires
        groups_cover(groups, changes),
        0 <= i < changes.len(),
    ensures
        exists|k: int|
            0 <= k < groups.len() && (#[trigger] groups[k]).repo@ == changes[i].repo@
                && text::texts(groups[k].files@).contains(changes[i].path@),
        forall|j: int, k: int|
            0 <= j < k < groups.len() ==> (#[trigger] groups[j]).repo@ != (
            #[trigger] groups[k]).repo@,
{
    lemma_repos_of(changes);
    let rs = repos_of(changes);
    assert(rs.contains(changes[i].repo@));
    let k = choose|k: int| 0 <= k < rs.len() && rs[k] == changes[i].repo@;
    assert(groups[k].repo@ == changes[i].repo@);
    lemma_files_of(changes, i);
}

proof fn lemma_files_of(changes: Seq<GitChange>, i: int)
    requires
        0 <= i < changes.len(),
    ensures
        files_of(changes, changes[i].repo@).contains(changes[i].path@),
    decreases changes.len(),
{
    let init = changes.drop_last();
    let repo = changes[i].repo@;
    let all = files_of(changes, repo);
    if i < init.len() {
        lemma_files_of(init, i);
        assert(init[i] == changes[i]);
        let rest = files_of(init, repo);
        let k = choose|k: int| 0 <= k < rest.len() && rest[k] == changes[i].path@;
        assert(all[k] == changes[i].path@);
    } else {
        assert(all[all.len() - 1] == changes[i].path@);
    }
}

/// The groups of files to commit.
pub fn group_by_repo(changes: &Vec<GitChange>) -> (groups: Vec<CommitGroup>)
    ensures
        groups_cover(groups@, changes@),
{
    let mut groups: Vec<CommitGroup> = Vec::new();
    let mut i: usize = 0;
    assert(changes@.take(0) =~= Seq::<GitChange>::empty());
    while i < changes.len()
        invariant
            i <= changes@.len(),
            groups_cover(groups@, changes@.take(i as int)),
        decreases changes@.len() - i,
    {
        let ghost sofar = changes@.take(i as int);
        let ghost next = changes@.take(i + 1);
        let ghost rs = repos_of(sofar);
        let c = &changes[i];
        proof {
            assert(next.drop_last() =~= sofar);
            assert(next.last() == *c);
            lemma_repos_of(sofar);
        }
        let ghost before = groups@;
        let mut found: Option<usize> = None;
        let mut k: usize = 0;
        while k < groups.len()
            invariant
                k <= groups@.len(),
                groups@ == before,
                found matches Some(f) ==> f < k && before[f as int].repo@ == c.repo@,
                found is None ==> forall|j: int|
                    0 <= j < k ==> (#[trigger] before[j]).repo@ != c.repo@,
            decreases groups@.len() - k,
        {
            if text::str_eq(groups[k].repo.as_str(), c.repo.as_str()) {
                found = Some(k);
            }
            k += 1;
        }
        match found {
            Some(f) => {
                let ghost files = text::texts(before[f as int].files@);
                groups[f].files.push(c.path.clone());
                proof {
                    assert(rs[f as int] == c.repo@);
                    assert(rs.contains(c.repo@));
                    assert(repos_of(next) == rs);
                    assert(text::texts(groups@[f as int].files@) =~= files.push(c.path@));
                    assert forall|j: int| 0 <= j < groups@.len() implies {
                        &&& (#[trigger] groups@[j]).repo@ == repos_of(next)[j]
                        &&& text::texts(groups@[j].files@) == files_of(next, groups@[j].repo@)
                    } by {
                        assert(before[j].repo@ == rs[j]);
                        if j != f {
                            assert(groups@[j] == before[j]);
                            assert(rs[j] != rs[f as int]);
                        }
                    }
                }
            },
            None => {
                let mut files: Vec<String> = Vec::new();
                files.push(c.path.clone());
                let ghost one = text::texts(files@);
                groups.push(CommitGroup { repo: c.repo.clone(), files });
                proof {
                    assert(!rs.contains(c.repo@)) by {
                        if rs.contains(c.repo@) {
                            let j = choose|j: int| 0 <= j < rs.len() && rs[j] == c.repo@;
                            assert(before[j].repo@ == rs[j]);
                        }
                    }
                    assert(repos_of(next) == rs.push(c.repo@));
                    assert(files_of(sofar, c.repo@).len() == 0);
                    assert(one =~= files_of(next, c.repo@));
                    assert forall|j: int| 0 <= j < groups@.len() implies {
                        &&& (#[trigger] groups@[j]).repo@ == repos_of(next)[j]
                        &&& text::texts(groups@[j].files@) == files_of(next, groups@[j].repo@)
                    } by {
                        if j < before.len() {
                            assert(groups@[j] == before[j]);
                            assert(before[j].repo@ == rs[j]);
                        }
                    }
                }
            },
        }
        i += 1;
    }
    assert(changes@.take(changes@.len() as int) =~= changes@);
    groups
}

/// Whether a repository is on a branch, which git names: away from every branch the name is empty.
/// Only on a branch there is a history to read, and something to push after a commit.
pub fn on_branch(branch: &str) -> (r: bool)
    ensures
        r == (branch@.len() > 0),
{
    text::first_char(branch).is_some()
}

impl CommitTally {
    /// Nothing committed yet.
    pub fn new() -> (t: Self)
        ensures
            t.ok == 0,
            t.err is None,
    {
        CommitTally { ok: 0, err: None }
    }

    /// Whether the tally after one more commit is right.
    pub open spec fn counts(self, result: Result<(), String>, after: Self) -> bool {
        match result {
            Ok(_) => after.ok == self.ok + 1 && after.err == self.err,
            Err(e) => after.ok == self.ok && after.err == (if self.err is None {
                Some(e)
            } else {
                self.err
            }),
        }
    }

    /// A repository was committed, or why it was not. Whether its branch is to be pushed.
    pub fn committed(&mut self, result: Result<(), String>, and_push: bool) -> (push: bool)
        requires
            old(self).ok < usize::MAX,
        ensures
            old(self).counts(result, *final(self)),
            push == (result is Ok && and_push),
    {
        match result {
            Ok(_) => {
                self.ok = self.ok + 1;
                and_push
            },
            Err(e) => {
                if self.err.is_none() {
                    self.err = Some(e);
                }
                false
            },
        }
    }

    /// A branch was pushed, or why it was not.
    pub fn pushed(&mut self, result: Result<(), String>)
        ensures
            final(self).ok == old(self).ok,
            result is Ok ==> *final(self) == *old(self),
            result matches Err(e) ==> final(self).err == (if old(self).err is None {
                Some(e)
            } else {
                old(self).err
            }),
    {
        if let Err(e) = result {
            if self.err.is_none() {
                self.err = Some(e);
            }
        }
    }
}

/// What the status line says once the commits are made.
pub open spec fn commit_status(t: CommitTally, and_push: bool) -> Seq<char> {
    match t.err {
        None => if and_push {
            "已提交 "@ + text::dec(t.ok as nat) + " 个仓并推送 ✓"@
        } else {
            "已提交 "@ + text::dec(t.ok as nat) + " 个仓 ✓"@
        },
        Some(e) => "部分失败: "@ + e@,
    }
}

/// The first line of what git said, or a word for nothing.
pub open spec fn first_line(out: Seq<char>) -> Seq<char> {
    let lines = text::lines_of(out);
    if lines.len() == 0 || lines[0].len() == 0 {
        "完成"@
    } else {
        lines[0]
    }
}

/// The colour of a kind of change.
pub open spec fn tone_of(status: Seq<char>) -> Tone {
    if status == "Modified"@ {
        Tone::Warning
    } else if status == "Added"@ || status == "Untracked"@ {
        Tone::Success
    } else if status == "Deleted"@ {
        Tone::Danger
    } else {
        Tone::Info
    }
}

/// The colour of a kind of change.
pub fn status_color(status: &str) -> (t: Tone)
    ensures
        t == tone_of(status@),
{
    if text::str_eq(status, "Modified") {
        Tone::Warning
    } else if text::str_eq(status, "Added") || text::str_eq(status, "Untracked") {
        Tone::Success
    } else if text::str_eq(status, "Deleted") {
        Tone::Danger
    } else {
        Tone::Info
    }
}

/// The directory that is shown beside a file name.
pub open spec fn shown_dir(p: Seq<char>) -> Seq<char> {
    match path::parent_of(p) {
        Some(d) => d,
        None => Seq::empty(),
    }
}

/// Whether `row` shows change `i`.
pub open spec fn row_shows(
    row: ChangeRow,
    changes: Seq<GitChange>,
    i: int,
    conflicts: Seq<Seq<char>>,
    selected: Option<Seq<char>>,
) -> bool {
    let c = changes[i];
    &&& row.index == i
    &&& row.filename@ == path::shown_name(c.path@)
    &&& row.dir@ == shown_dir(c.path@)
    &&& row.conflicted == conflicts.contains(abs_of(c))
    &&& row.selected == (selected == Some(abs_of(c)))
    &&& row.tone == (if row.conflicted {
        Tone::Danger
    } else {
        tone_of(c.status@)
    })
    &&& row.mark@ == c.status@.take(
        if c.status@.len() > 0 {
            1
        } else {
            0
        },
    )
    &&& row.staged == (c.staged && !row.conflicted)
}

/// Positions of the changes of one repository.
pub open spec fn positions(changes: Seq<GitChange>, repo: Seq<char>) -> Seq<int>
    decreases changes.len(),
{
    if changes.len() == 0 {
        Seq::empty()
    } else {
        let rest = positions(changes.drop_last(), repo);
        if changes.last().repo@ == repo {
            rest.push(changes.len() - 1)
        } else {
            rest
        }
    }
}

/// How many changes are listed in front of repository `n`: each repository lists what is left of
/// the limit.
pub open spec fn listed_before(repos: Seq<GitRepo>, changes: Seq<GitChange>, n: int) -> int
    decreases n,
{
    if n <= 0 {
        0
    } else {
        let before = listed_before(repos, changes, n - 1);
        before + listed_of(repos, changes, n - 1, before)
    }
}

/// How many changes repository `n` lists when `before` are listed in front of it.
pub open spec fn listed_of(
    repos: Seq<GitRepo>,
    changes: Seq<GitChange>,
    n: int,
    before: int,
) -> int {
    let total = positions(changes, repos[n].path@).len() as int;
    let left = MAX_RENDERED_CHANGES - before;
    if total <= left {
        total
    } else if left < 0 {
        0
    } else {
        left
    }
}

/// Whether `g` is how repository `n` is listed.
pub open spec fn group_shows(
    g: ChangeGroup,
    repos: Seq<GitRepo>,
    changes: Seq<GitChange>,
    n: int,
    conflicts: Seq<Seq<char>>,
    selected: Option<Seq<char>>,
) -> bool {
    let all = positions(changes, repos[n].path@);
    &&& g.title@ == repos[n].name@
    &&& g.total == all.len()
    &&& g.rows@.len() == listed_of(repos, changes, n, listed_before(repos, changes, n))
    &&& g.hidden == g.total - g.rows@.len()
    &&& forall|j: int|
        0 <= j < g.rows@.len() ==> row_shows(
            #[trigger] g.rows@[j],
            changes,
            all[j],
            conflicts,
            selected,
        )
}

/// The repositories among the first `n` that have changes.
pub open spec fn changed_repos(repos: Seq<GitRepo>, changes: Seq<GitChange>, n: int) -> Seq<int>
    decreases n,
{
    if n <= 0 {
        Seq::empty()
    } else {
        let rest = changed_repos(repos, changes, n - 1);
        if positions(changes, repos[n - 1].path@).len() > 0 {
            rest.push(n - 1)
        } else {
            rest
        }
    }
}

proof fn lemma_positions(changes: Seq<GitChange>, repo: Seq<char>)
    ensures
        positions(changes, repo).len() <= changes.len(),
        forall|j: int|
            0 <= j < positions(changes, repo).len() ==> 0 <= #[trigger] positions(changes, repo)[j]
                < changes.len(),
    decreases changes.len(),
{
    if changes.len() > 0 {
        lemma_positions(changes.drop_last(), repo);
    }
}

/// No more changes are listed than the limit, and all of one repository while it is not reached.
pub proof fn law_listing_keeps_the_limit(repos: Seq<GitRepo>, changes: Seq<GitChange>, n: int)
    requires
        0 <= n <= repos.len(),
    ensures
        0 <= listed_before(repos, changes, n) <= MAX_RENDERED_CHANGES,
        n < repos.len() && listed_before(repos, changes, n) + positions(
            changes,
            repos[n].path@,
        ).len() <= MAX_RENDERED_CHANGES ==> listed_of(
            repos,
            changes,
            n,
            listed_before(repos, changes, n),
        ) == positions(changes, repos[n].path@).len(),
    decreases n,
{
    if n > 0 {
        law_listing_keeps_the_limit(repos, changes, n - 1);
    }
}

/// The drafts once the project at `root` is left with the unfinished message `message`: an empty
/// message is no draft.
pub open spec fn drafts_left(
    drafts: Map<Seq<Seq<char>>, String>,
    root: Seq<char>,
    message: String,
) -> Map<Seq<Seq<char>>, String> {
    if root.len() == 0 {
        drafts
    } else if message@.len() == 0 {
        drafts.remove(path::components(root))
    } else {
        drafts.insert(path::components(root), message)
    }
}

/// The commit message of the project at `root`, which is empty where none was begun.
pub open spec fn draft_of(drafts: Map<Seq<Seq<char>>, String>, root: Seq<char>) -> Seq<char> {
    if drafts.contains_key(path::components(root)) {
        drafts[path::components(root)]@
    } else {
        Seq::empty()
    }
}

/// The commit message of each project, empty or not, is there again when the project is opened
/// again, whatever was typed in the other one; and so is that of the other one afterwards.
pub proof fn law_draft_survives_a_round_trip(
    drafts: Map<Seq<Seq<char>>, String>,
    a: Seq<char>,
    b: Seq<char>,
    mine: String,
    theirs: String,
    again: String,
)
    requires
        a.len() > 0,
        b.len() > 0,
        !path::same(a, b),
    ensures
        ({
            let away = drafts_left(drafts, a, mine);
            let back = drafts_left(away, b, theirs);
            let once_more = drafts_left(back, a, again);
            draft_of(back, a) == mine@ && draft_of(once_more, b) == theirs@
        }),
{
}

impl GitPanel {
    /// The drafts are in order.
    pub open spec fn inv(self) -> bool {
        self.commit_drafts.inv()
    }

    /// A panel for the project at `project_root`, about which everything has to be read.
    pub fn new(project_root: String) -> (r: (Self, RefreshRequest))
        ensures
            r.0.inv(),
            r.0.project_root == project_root,
            r.0.repos@.len() == 0,
            r.0.active_repo == 0,
            r.0.mode == GitPanelMode::Commit,
            r.0.branch@.len() == 0,
            r.0.changes@.len() == 0,
            r.0.conflicts@.len() == 0,
            r.0.selected_change is None,
            r.0.branches@.len() == 0,
            r.0.log@.len() == 0,
            r.0.selected_branch@.len() == 0,
            r.0.commit_drafts@ == Map::<Seq<Seq<char>>, String>::empty(),
            !r.0.busy,
            r.0.status@.len() == 0,
            r.0.ctx_branch is None,
            r.0.refresh_seq == 1 && r.0.log_seq == 1,
            r.1.refresh_seq == 1 && r.1.log_seq == 1,
            r.1.root == project_root,
            r.1.active_repo == 0,
    {
        let mut this = Self {
            project_root,
            repos: Vec::new(),
            active_repo: 0,
            mode: GitPanelMode::Commit,
            branch: String::new(),
            changes: Vec::new(),
            conflicts: Vec::new(),
            selected_change: None,
            branches: Vec::new(),
            log: Vec::new(),
            selected_branch: String::new(),
            commit_drafts: PathMap::new(),
            busy: false,
            status: String::new(),
            refresh_seq: 0,
            log_seq: 0,
            ctx_branch: None,
        };
        let q = this.refresh();
        (this, q)
    }

    /// Switches to a view. Whether it was another one.
    pub fn set_mode(&mut self, mode: GitPanelMode) -> (changed: bool)
        ensures
            *final(self) == (Self { mode, ..*old(self) }),
            changed == (old(self).mode != mode),
    {
        let changed = self.mode != mode;
        self.mode = mode;
        changed
    }

    /// The current branch.
    pub fn branch(&self) -> (r: String)
        ensures
            r == self.branch,
    {
        self.branch.clone()
    }

    /// How far the current branch is from its upstream.
    pub fn ahead_behind(&self) -> (r: (i32, i32))
        ensures
            ({
                let none = forall|i: int|
                    0 <= i < self.branches@.len() ==> !(#[trigger] self.branches@[i]).current;
                &&& none ==> r == (0i32, 0i32)
                &&& !none ==> exists|i: int|
                    0 <= i < self.branches@.len() && (#[trigger] self.branches@[i]).current && r == (
                    self.branches@[i].ahead,
                    self.branches@[i].behind,
                    ) && forall|j: int| 0 <= j < i ==> !(#[trigger] self.branches@[j]).current
            }),
    {
        let mut i: usize = 0;
        while i < self.branches.len()
            invariant
                i <= self.branches@.len(),
                forall|j: int| 0 <= j < i ==> !(#[trigger] self.branches@[j]).current,
            decreases self.branches@.len() - i,
        {
            if self.branches[i].current {
                return (self.branches[i].ahead, self.branches[i].behind);
            }
            i += 1;
        }
        (0, 0)
    }

    /// How many files are changed.
    pub fn change_count(&self) -> (n: usize)
        ensures
            n == self.changes@.len(),
    {
        self.changes.len()
    }

    /// Moves to the project at `root`. The unfinished message `message` stays with the project
    /// that is left; the one to put into the box comes back with the request.
    pub fn set_project(&mut self, root: String, message: String) -> (r: (String, RefreshRequest))
        requires
            old(self).inv(),
            old(self).refresh_seq < u64::MAX,
            old(self).log_seq < u64::MAX,
        ensures
            final(self).inv(),
            final(self).project_root == root,
            ({
                let drafts = drafts_left(
                    old(self).commit_drafts@,
                    old(self).project_root@,
                    message,
                );
                &&& final(self).commit_drafts@ == drafts
                &&& r.0@ == draft_of(drafts, root@)
            }),
            final(self).repos@.len() == 0,
            final(self).active_repo == 0,
            final(self).branch@.len() == 0,
            final(self).changes@.len() == 0,
            final(self).conflicts@.len() == 0,
            final(self).selected_change is None,
            final(self).branches@.len() == 0,
            final(self).log@.len() == 0,
            final(self).selected_branch@.len() == 0,
            final(self).mode == old(self).mode,
            final(self).busy == old(self).busy,
            final(self).status == old(self).status,
            final(self).ctx_branch == old(self).ctx_branch,
            final(self).refresh_seq == old(self).refresh_seq + 1,
            final(self).log_seq == old(self).log_seq + 1,
            r.1.refresh_seq == final(self).refresh_seq,
            r.1.log_seq == final(self).log_seq,
            r.1.root == root,
            r.1.active_repo == 0,
    {
        if text::first_char(self.project_root.as_str()).is_some() {
            if text::first_char(message.as_str()).is_none() {
                let _ = self.commit_drafts.remove(self.project_root.as_str());
            } else {
                self.commit_drafts.insert(self.project_root.clone(), message);
            }
        }
        let draft = match self.commit_drafts.get(root.as_str()) {
            Some(d) => d.clone(),
            None => String::new(),
        };
        self.project_root = root;
        self.changes = Vec::new();
        self.conflicts = Vec::new();
        self.selected_change = None;
        self.branches = Vec::new();
        self.log = Vec::new();
        self.branch = String::new();
        self.repos = Vec::new();
        self.active_repo = 0;
        let q = self.refresh();
        (draft, q)
    }

    /// Asks for everything. The history is that of the current branch again.
    pub fn refresh(&mut self) -> (q: RefreshRequest)
        requires
            old(self).refresh_seq < u64::MAX,
            old(self).log_seq < u64::MAX,
        ensures
            *final(self) == (Self {
                selected_branch: final(self).selected_branch,
                refresh_seq: (old(self).refresh_seq + 1) as u64,
                log_seq: (old(self).log_seq + 1) as u64,
                ..*old(self)
            }),
            final(self).selected_branch@.len() == 0,
            q.refresh_seq == final(self).refresh_seq,
            q.log_seq == final(self).log_seq,
            q.root == old(self).project_root,
            q.active_repo == old(self).active_repo,
    {
        self.selected_branch = String::new();
        self.refresh_seq = self.refresh_seq + 1;
        self.log_seq = self.log_seq + 1;
        RefreshRequest {
            refresh_seq: self.refresh_seq,
            log_seq: self.log_seq,
            root: self.project_root.clone(),
            active_repo: self.active_repo,
        }
    }

    fn is_changed(&self, abs: &str) -> (r: bool)
        ensures
            r == has_change(self.changes@, abs@),
    {
        let mut i: usize = 0;
        while i < self.changes.len()
            invariant
                i <= self.changes@.len(),
                forall|j: int| 0 <= j < i ==> abs_of(#[trigger] self.changes@[j]) != abs@,
            decreases self.changes@.len() - i,
        {
            let a = change_abs(&self.changes[i]);
            if text::str_eq(a.as_str(), abs) {
                return true;
            }
            i += 1;
        }
        false
    }

    fn keep_selection(&mut self)
        ensures
            *final(self) == (Self {
                selected_change: kept_selection(old(self).selected_change, old(self).changes@),
                ..*old(self)
            }),
    {
        let gone = match &self.selected_change {
            Some(s) => !self.is_changed(s.as_str()),
            None => false,
        };
        if gone {
            self.selected_change = None;
        }
    }

    /// What `refresh` asked for is there. Repositories, current branch, changes and conflicts are
    /// taken over unless there was a later request for changes; branches and history unless there
    /// was a later request for those.
    pub fn refresh_done(
        &mut self,
        refresh_seq: u64,
        log_seq: u64,
        repos: Vec<GitRepo>,
        branch: String,
        changes: Vec<GitChange>,
        conflicts: Vec<String>,
        branches: Option<Vec<GitBranch>>,
        log: Option<Vec<GitCommit>>,
    ) -> (event: Option<GitPanelEvent>)
        requires
            old(self).inv(),
        ensures
            final(self).inv(),
            event is Some <==> refresh_seq == old(self).refresh_seq,
            event matches Some(e) ==> e is StatusUpdated && e->StatusUpdated_0@ == changes@,
            ({
                let status = refresh_seq == old(self).refresh_seq;
                let history = log_seq == old(self).log_seq;
                &&& *final(self) == (Self {
                    repos: if status {
                        repos
                    } else {
                        old(self).repos
                    },
                    branch: if status {
                        branch
                    } else {
                        old(self).branch
                    },
                    changes: if status {
                        changes
                    } else {
                        old(self).changes
                    },
                    conflicts: if status {
                        conflicts
                    } else {
                        old(self).conflicts
                    },
                    selected_change: if status {
                        kept_selection(old(self).selected_change, changes@)
                    } else {
                        old(self).selected_change
                    },
                    branches: final(self).branches,
                    log: final(self).log,
                    ..*old(self)
                })
                &&& !history ==> final(self).branches == old(self).branches && final(self).log
                    == old(self).log
                &&& history ==> {
                    &&& (branches matches Some(b) ==> final(self).branches == b)
                    &&& (branches is None ==> final(self).branches@.len() == 0)
                    &&& (log matches Some(l) ==> final(self).log == l)
                    &&& (log is None ==> final(self).log@.len() == 0)
                }
            }),
    {
        let mut event: Option<GitPanelEvent> = None;
        if self.refresh_seq == refresh_seq {
            self.repos = repos;
            self.branch = branch;
            self.changes = changes;
            self.conflicts = conflicts;
            self.keep_selection();
            event = Some(GitPanelEvent::StatusUpdated(copy_changes(&self.changes)));
        }
        if self.log_seq == log_seq {
            self.branches = match branches {
                Some(b) => b,
                None => Vec::new(),
            };
            self.log = match log {
                Some(l) => l,
                None => Vec::new(),
            };
        }
        event
    }

    /// The repositories that were found, or the project where none was.
    pub open spec fn known_paths(self) -> Seq<Seq<char>> {
        if self.repos@.len() == 0 {
            seq![self.project_root@]
        } else {
            self.repos@.map_values(|r: GitRepo| r.path@)
        }
    }

    /// Asks for the current branch, the changes and the conflicts alone.
    pub fn refresh_light(&mut self) -> (q: LightRequest)
        requires
            old(self).refresh_seq < u64::MAX,
        ensures
            *final(self) == (Self {
                refresh_seq: (old(self).refresh_seq + 1) as u64,
                ..*old(self)
            }),
            q.seq == final(self).refresh_seq,
            text::texts(q.repo_paths@) == old(self).known_paths(),
            q.active_repo == old(self).active_repo,
            q.branch_path@ == read_from(
                old(self).repos@,
                old(self).active_repo as int,
                old(self).project_root@,
            ),
    {
        self.refresh_seq = self.refresh_seq + 1;
        let mut repo_paths: Vec<String> = Vec::new();
        if self.repos.len() == 0 {
            repo_paths.push(self.project_root.clone());
            assert(text::texts(repo_paths@) =~= seq![self.project_root@]);
        } else {
            let ghost all = self.repos@.map_values(|r: GitRepo| r.path@);
            let mut i: usize = 0;
            assert(text::texts(repo_paths@) =~= all.take(0));
            while i < self.repos.len()
                invariant
                    i <= self.repos@.len(),
                    *self == (Self {
                        refresh_seq: (old(self).refresh_seq + 1) as u64,
                        ..*old(self)
                    }),
                    all == self.repos@.map_values(|r: GitRepo| r.path@),
                    text::texts(repo_paths@) == all.take(i as int),
                decreases self.repos@.len() - i,
            {
                let ghost prev = text::texts(repo_paths@);
                repo_paths.push(self.repos[i].path.clone());
                assert(text::texts(repo_paths@) =~= prev.push(all[i as int]));
                i += 1;
                assert(text::texts(repo_paths@) =~= all.take(i as int));
            }
            assert(all.take(all.len() as int) =~= all);
        }
        let branch_path = repo_to_read(&self.repos, self.active_repo, self.project_root.as_str());
        LightRequest {
            seq: self.refresh_seq,
            repo_paths,
            active_repo: self.active_repo,
            branch_path,
        }
    }

    /// What `refresh_light` asked for is there: takes it over, unless there was a later request
    /// for changes. The branch is that of the active repository only where that is still the one
    /// that was asked.
    pub fn light_done(
        &mut self,
        seq: u64,
        active_repo: usize,
        branch: String,
        changes: Vec<GitChange>,
        conflicts: Vec<String>,
    ) -> (event: Option<GitPanelEvent>)
        requires
            old(self).inv(),
        ensures
            final(self).inv(),
            event is Some <==> seq == old(self).refresh_seq,
            event is None ==> *final(self) == *old(self),
            event matches Some(e) ==> {
                &&& e is StatusUpdated
                &&& e->StatusUpdated_0@ == changes@
                &&& *final(self) == (Self {
                    branch: if active_repo == old(self).active_repo {
                        branch
                    } else {
                        old(self).branch
                    },
                    changes,
                    conflicts,
                    selected_change: kept_selection(old(self).selected_change, changes@),
                    ..*old(self)
                })
            },
    {
        if self.refresh_seq != seq {
            return None;
        }
        if self.active_repo == active_repo {
            self.branch = branch;
        }
        self.changes = changes;
        self.conflicts = conflicts;
        self.keep_selection();
        Some(GitPanelEvent::StatusUpdated(copy_changes(&self.changes)))
    }

    /// Commits all changes with `message`, and pushes where `and_push` says so.
    pub fn commit(&mut self, message: String, and_push: bool) -> (r: Option<CommitRequest>)
        requires
            old(self).inv(),
        ensures
            final(self).inv(),
            r is Some <==> !old(self).busy && !text::all_white(message@) && old(
                self,
            ).changes@.len() > 0,
            *final(self) == (Self {
                busy: old(self).busy || r is Some,
                status: final(self).status,
                ..*old(self)
            }),
            old(self).busy ==> final(self).status == old(self).status,
            !old(self).busy ==> final(self).status@ == (if text::all_white(message@) {
                "commit message 不能为空"@
            } else if old(self).changes@.len() == 0 {
                "没有可提交的变更"@
            } else if and_push {
                "提交并推送中…"@
            } else {
                "提交中…"@
            }),
            r matches Some(q) ==> q.message == message && q.and_push == and_push && groups_cover(
                q.groups@,
                old(self).changes@,
            ),
    {
        if self.busy {
            return None;
        }
        if text::is_blank(message.as_str()) {
            self.status = "commit message 不能为空".to_owned();
            return None;
        }
        if self.changes.len() == 0 {
            self.status = "没有可提交的变更".to_owned();
            return None;
        }
        let groups = group_by_repo(&self.changes);
        self.busy = true;
        self.status = if and_push {
            "提交并推送中…".to_owned()
        } else {
            "提交中…".to_owned()
        };
        Some(CommitRequest { groups, message, and_push })
    }

    /// The commits are made, as `tally` says. Whether the message box is to be emptied, and what
    /// has to be read again.
    pub fn commit_done(&mut self, tally: CommitTally, and_push: bool) -> (r: (bool, RefreshRequest))
        requires
            old(self).inv(),
            old(self).refresh_seq < u64::MAX,
            old(self).log_seq < u64::MAX,
        ensures
            final(self).inv(),
            r.0 == (tally.err is None),
            *final(self) == (Self {
                busy: false,
                status: final(self).status,
                selected_branch: final(self).selected_branch,
                refresh_seq: (old(self).refresh_seq + 1) as u64,
                log_seq: (old(self).log_seq + 1) as u64,
                ..*old(self)
            }),
            final(self).selected_branch@.len() == 0,
            final(self).status@ == commit_status(tally, and_push),
            r.1.refresh_seq == final(self).refresh_seq,
            r.1.log_seq == final(self).log_seq,
            r.1.root == old(self).project_root,
            r.1.active_repo == old(self).active_repo,
    {
        self.busy = false;
        let clear = tally.err.is_none();
        self.status = match &tally.err {
            None => {
                let n = text::dec_usize(tally.ok);
                if and_push {
                    text::cat3("已提交 ", n.as_str(), " 个仓并推送 ✓")
                } else {
                    text::cat3("已提交 ", n.as_str(), " 个仓 ✓")
                }
            },
            Some(e) => text::cat2("部分失败: ", e.as_str()),
        };
        let q = self.refresh();
        (clear, q)
    }

    /// Path of the active repository, or the project itself.
    pub open spec fn active_path(self) -> Seq<char> {
        if self.active_repo < self.repos@.len() {
            self.repos@[self.active_repo as int].path@
        } else {
            self.project_root@
        }
    }

    /// Path of the active repository, or the project itself.
    pub fn active_repo_path(&self) -> (r: String)
        ensures
            r@ == self.active_path(),
    {
        if self.active_repo < self.repos.len() {
            self.repos[self.active_repo].path.clone()
        } else {
            self.project_root.clone()
        }
    }

    /// Pulls or pushes the active repository, unless something else runs.
    pub fn sync_remote(&mut self, push: bool) -> (r: Option<SyncRequest>)
        ensures
            r is Some <==> !old(self).busy,
            r is None ==> *final(self) == *old(self),
            r matches Some(q) ==> {
                &&& *final(self) == (Self {
                    busy: true,
                    status: final(self).status,
                    ..*old(self)
                })
                &&& final(self).status@ == (if push {
                    "推送中…"@
                } else {
                    "拉取中…"@
                })
                &&& q.cwd@ == old(self).active_path()
                &&& q.branch == old(self).branch
                &&& q.push == push
            },
    {
        if self.busy {
            return None;
        }
        self.busy = true;
        self.status = if push {
            "推送中…".to_owned()
        } else {
            "拉取中…".to_owned()
        };
        Some(SyncRequest { cwd: self.active_repo_path(), branch: self.branch.clone(), push })
    }

    /// The pull or push is over.
    pub fn sync_done(&mut self, result: Result<String, String>) -> (q: RefreshRequest)
        requires
            old(self).inv(),
            old(self).refresh_seq < u64::MAX,
            old(self).log_seq < u64::MAX,
        ensures
            final(self).inv(),
            *final(self) == (Self {
                busy: false,
                status: final(self).status,
                selected_branch: final(self).selected_branch,
                refresh_seq: (old(self).refresh_seq + 1) as u64,
                log_seq: (old(self).log_seq + 1) as u64,
                ..*old(self)
            }),
            final(self).selected_branch@.len() == 0,
            result matches Ok(out) ==> final(self).status@ == first_line(out@) + " ✓"@,
            result matches Err(e) ==> final(self).status@ == "失败: "@ + e@,
            q.refresh_seq == final(self).refresh_seq,
            q.log_seq == final(self).log_seq,
            q.root == old(self).project_root,
            q.active_repo == old(self).active_repo,
    {
        self.busy = false;
        self.status = match result {
            Ok(out) => {
                let lines = text::lines(out.as_str());
                assert(text::texts(lines@).len() == lines@.len());
                let head = if lines.len() == 0 {
                    "完成".to_owned()
                } else {
                    assert(text::texts(lines@)[0] == lines@[0]@);
                    if text::first_char(lines[0].as_str()).is_none() {
                        "完成".to_owned()
                    } else {
                        lines[0].clone()
                    }
                };
                text::cat2(head.as_str(), " ✓")
            },
            Err(e) => text::cat2("失败: ", e.as_str()),
        };
        self.refresh()
    }

    /// The selected change.
    pub fn selected_change(&self) -> (r: Option<GitChange>)
        ensures
            r is Some <==> self.selected_change is Some && has_change(
                self.changes@,
                self.selected_change->0@,
            ),
            r matches Some(c) ==> exists|i: int| #[trigger]
                first_change(self.changes@, self.selected_change->0@, i) && c == self.changes@[i],
    {
        match &self.selected_change {
            None => None,
            Some(sel) => {
                let mut i: usize = 0;
                while i < self.changes.len()
                    invariant
                        i <= self.changes@.len(),
                        self.selected_change == Some(*sel),
                        forall|j: int| 0 <= j < i ==> abs_of(#[trigger] self.changes@[j]) != sel@,
                    decreases self.changes@.len() - i,
                {
                    let a = change_abs(&self.changes[i]);
                    if text::str_eq(a.as_str(), sel.as_str()) {
                        assert(first_change(self.changes@, sel@, i as int));
                        return Some(self.changes[i].clone());
                    }
                    i += 1;
                }
                None
            },
        }
    }

    /// Puts a changed file back, unless something else runs.
    pub fn rollback_change(&mut self, change: GitChange) -> (r: Option<RollbackRequest>)
        ensures
            r is Some <==> !old(self).busy,
            r is None ==> *final(self) == *old(self),
            r matches Some(q) ==> {
                &&& *final(self) == (Self {
                    busy: true,
                    status: final(self).status,
                    ..*old(self)
                })
                &&& final(self).status@ == "Rollback "@ + change.path@ + " …"@
                &&& q.cwd == change.repo
                &&& q.path == change.path
                &&& q.status == change.status
            },
    {
        if self.busy {
            return None;
        }
        self.busy = true;
        self.status = text::cat3("Rollback ", change.path.as_str(), " …");
        Some(RollbackRequest { cwd: change.repo, path: change.path, status: change.status })
    }

    /// Puts the selected file back.
    pub fn rollback_selected(&mut self) -> (r: Option<RollbackRequest>)
        ensures
            ({
                let known = old(self).selected_change is Some && has_change(
                    old(self).changes@,
                    old(self).selected_change->0@,
                );
                &&& r is Some <==> known && !old(self).busy
                &&& !known ==> *final(self) == (Self {
                    status: final(self).status,
                    ..*old(self)
                }) && final(self).status@ == "先选择一个变更"@
                &&& known && old(self).busy ==> *final(self) == *old(self)
                &&& r matches Some(q) ==> {
                    &&& *final(self) == (Self {
                        busy: true,
                        status: final(self).status,
                        ..*old(self)
                    })
                    &&& final(self).status@ == "Rollback "@ + q.path@ + " …"@
                    &&& exists|i: int|
                        {
                            let c = old(self).changes@[i];
                            &&& #[trigger] first_change(
                                old(self).changes@,
                                old(self).selected_change->0@,
                                i,
                            )
                            &&& c.repo == q.cwd
                            &&& c.path == q.path
                            &&& c.status == q.status
                        }
                }
            }),
    {
        match self.selected_change() {
            None => {
                self.status = "先选择一个变更".to_owned();
                None
            },
            Some(c) => self.rollback_change(c),
        }
    }

    /// The file `p` was put back, or why it was not.
    pub fn rollback_done(&mut self, p: &str, result: Result<(), String>) -> (q: LightRequest)
        requires
            old(self).refresh_seq < u64::MAX,
        ensures
            *final(self) == (Self {
                busy: false,
                status: final(self).status,
                refresh_seq: (old(self).refresh_seq + 1) as u64,
                ..*old(self)
            }),
            result is Ok ==> final(self).status@ == "已 rollback "@ + p@,
            result matches Err(e) ==> final(self).status@ == "Rollback 失败: "@ + e@,
            q.seq == final(self).refresh_seq,
            text::texts(q.repo_paths@) == old(self).known_paths(),
            q.active_repo == old(self).active_repo,
            q.branch_path@ == read_from(
                old(self).repos@,
                old(self).active_repo as int,
                old(self).project_root@,
            ),
    {
        self.busy = false;
        self.status = match result {
            Ok(_) => text::cat2("已 rollback ", p),
            Err(e) => text::cat2("Rollback 失败: ", e.as_str()),
        };
        self.refresh_light()
    }

    /// Switches to another branch, unless something else runs.
    pub fn checkout(&mut self, branch: String) -> (r: Option<CheckoutRequest>)
        ensures
            r is Some <==> !old(self).busy && branch@ != old(self).branch@,
            r is None ==> *final(self) == *old(self),
            r matches Some(q) ==> {
                &&& *final(self) == (Self {
                    busy: true,
                    status: final(self).status,
                    ..*old(self)
                })
                &&& final(self).status@ == "切换到 "@ + branch@ + " …"@
                &&& q.cwd@ == old(self).active_path()
                &&& q.branch == branch
            },
    {
        if self.busy || text::str_eq(branch.as_str(), self.branch.as_str()) {
            return None;
        }
        self.busy = true;
        self.status = text::cat3("切换到 ", branch.as_str(), " …");
        Some(CheckoutRequest { cwd: self.active_repo_path(), branch })
    }

    /// The branch was switched to, or why it was not.
    pub fn checkout_done(&mut self, branch: &str, result: Result<(), String>) -> (q: RefreshRequest)
        requires
            old(self).refresh_seq < u64::MAX,
            old(self).log_seq < u64::MAX,
        ensures
            *final(self) == (Self {
                busy: false,
                status: final(self).status,
                selected_branch: final(self).selected_branch,
                refresh_seq: (old(self).refresh_seq + 1) as u64,
                log_seq: (old(self).log_seq + 1) as u64,
                ..*old(self)
            }),
            final(self).selected_branch@.len() == 0,
            result is Ok ==> final(self).status@ == "已切换到 "@ + branch@ + " ✓"@,
            result matches Err(e) ==> final(self).status@ == "切换失败: "@ + e@,
            q.refresh_seq == final(self).refresh_seq,
            q.log_seq == final(self).log_seq,
            q.root == old(self).project_root,
            q.active_repo == old(self).active_repo,
    {
        self.busy = false;
        self.status = match result {
            Ok(_) => text::cat3("已切换到 ", branch, " ✓"),
            Err(e) => text::cat2("切换失败: ", e.as_str()),
        };
        self.refresh()
    }

    /// The context menu was opened for a branch.
    pub fn set_context(&mut self, branch: String)
        ensures
            *final(self) == (Self { ctx_branch: Some(branch), ..*old(self) }),
    {
        self.ctx_branch = Some(branch);
    }

    /// Switches to the branch that the context menu was opened for, once.
    pub fn checkout_context(&mut self) -> (r: Option<CheckoutRequest>)
        ensures
            final(self).ctx_branch is None,
            ({
                let wanted = old(self).ctx_branch;
                &&& r is Some <==> wanted is Some && !old(self).busy && wanted->0@ != old(
                    self,
                ).branch@
                &&& r is None ==> *final(self) == (Self { ctx_branch: None, ..*old(self) })
                &&& r matches Some(q) ==> {
                    &&& *final(self) == (Self {
                        ctx_branch: None,
                        busy: true,
                        status: final(self).status,
                        ..*old(self)
                    })
                    &&& final(self).status@ == "切换到 "@ + wanted->0@ + " …"@
                    &&& q.cwd@ == old(self).active_path()
                    &&& q.branch == wanted->0
                }
            }),
    {
        let wanted = self.ctx_branch.take();
        match wanted {
            Some(b) => self.checkout(b),
            None => None,
        }
    }

    /// Makes repository `i` the active one, whose branches and history have to be read.
    pub fn select_repo(&mut self, i: usize) -> (r: Option<RepoRequest>)
        requires
            old(self).inv(),
            old(self).log_seq < u64::MAX,
        ensures
            final(self).inv(),
            r is Some <==> i < old(self).repos@.len() && i != old(self).active_repo,
            r is None ==> *final(self) == *old(self),
            r matches Some(q) ==> {
                &&& *final(self) == (Self {
                    active_repo: i,
                    selected_branch: final(self).selected_branch,
                    branch: final(self).branch,
                    branches: final(self).branches,
                    log: final(self).log,
                    log_seq: (old(self).log_seq + 1) as u64,
                    ..*old(self)
                })
                &&& final(self).selected_branch@.len() == 0
                &&& final(self).branch@.len() == 0
                &&& final(self).branches@.len() == 0
                &&& final(self).log@.len() == 0
                &&& q.log_seq == final(self).log_seq
                &&& q.path == old(self).repos@[i as int].path
            },
    {
        if i >= self.repos.len() || i == self.active_repo {
            return None;
        }
        self.active_repo = i;
        self.selected_branch = String::new();
        self.branch = String::new();
        self.branches = Vec::new();
        self.log = Vec::new();
        self.log_seq = self.log_seq + 1;
        Some(RepoRequest { log_seq: self.log_seq, path: self.repos[i].path.clone() })
    }

    /// Branches and history of the active repository are there: takes them over, unless there was
    /// a later request.
    pub fn repo_read(
        &mut self,
        log_seq: u64,
        branch: String,
        branches: Option<Vec<GitBranch>>,
        log: Option<Vec<GitCommit>>,
    ) -> (applied: bool)
        requires
            old(self).inv(),
        ensures
            final(self).inv(),
            applied == (log_seq == old(self).log_seq),
            !applied ==> *final(self) == *old(self),
            applied ==> {
                &&& *final(self) == (Self {
                    branch,
                    branches: final(self).branches,
                    log: final(self).log,
                    ..*old(self)
                })
                &&& (branches matches Some(b) ==> final(self).branches == b)
                &&& (branches is None ==> final(self).branches@.len() == 0)
                &&& (log matches Some(l) ==> final(self).log == l)
                &&& (log is None ==> final(self).log@.len() == 0)
            },
    {
        if self.log_seq != log_seq {
            return false;
        }
        self.branch = branch;
        self.branches = match branches {
            Some(b) => b,
            None => Vec::new(),
        };
        self.log = match log {
            Some(l) => l,
            None => Vec::new(),
        };
        true
    }

    /// Shows the history of `branch` without switching to it.
    pub fn select_branch(&mut self, branch: String) -> (q: LogRequest)
        requires
            old(self).log_seq < u64::MAX,
        ensures
            *final(self) == (Self {
                selected_branch: branch,
                log_seq: (old(self).log_seq + 1) as u64,
                ..*old(self)
            }),
            q.log_seq == final(self).log_seq,
            q.cwd@ == old(self).active_path(),
            q.branch == branch,
    {
        self.selected_branch = branch.clone();
        self.log_seq = self.log_seq + 1;
        LogRequest { log_seq: self.log_seq, cwd: self.active_repo_path(), branch }
    }

    /// The history of a branch is there: takes it over, unless there was a later request.
    pub fn log_read(&mut self, log_seq: u64, log: Option<Vec<GitCommit>>) -> (applied: bool)
        ensures
            applied == (log_seq == old(self).log_seq),
            !applied ==> *final(self) == *old(self),
            applied ==> {
                &&& *final(self) == (Self { log: final(self).log, ..*old(self) })
                &&& (log matches Some(l) ==> final(self).log == l)
                &&& (log is None ==> final(self).log@.len() == 0)
            },
    {
        if self.log_seq != log_seq {
            return false;
        }
        self.log = match log {
            Some(l) => l,
            None => Vec::new(),
        };
        true
    }

    /// Selects change `i` and opens it: its conflicts where it has some, else its diff.
    pub fn open_change(&mut self, i: usize) -> (e: GitPanelEvent)
        requires
            i < old(self).changes@.len(),
        ensures
            *final(self) == (Self {
                selected_change: final(self).selected_change,
                ..*old(self)
            }),
            ({
                let c = old(self).changes@[i as int];
                &&& final(self).selected_change is Some
                &&& final(self).selected_change->0@ == abs_of(c)
                &&& (if text::texts(old(self).conflicts@).contains(abs_of(c)) {
                    e is OpenMerge && e->OpenMerge_repo == c.repo && e->OpenMerge_rel_path == c.path
                } else {
                    e is OpenDiff && e->OpenDiff_repo == c.repo && e->OpenDiff_rel_path == c.path
                        && e->abs_path@ == abs_of(c)
                })
            }),
    {
        let abs = change_abs(&self.changes[i]);
        let repo = self.changes[i].repo.clone();
        let rel_path = self.changes[i].path.clone();
        self.selected_change = Some(abs.clone());
        if text::list_has(&self.conflicts, abs.as_str()) {
            GitPanelEvent::OpenMerge { repo, rel_path }
        } else {
            GitPanelEvent::OpenDiff { repo, rel_path, abs_path: abs }
        }
    }

    fn change_row(&self, i: usize) -> (row: ChangeRow)
        requires
            i < self.changes@.len(),
        ensures
            row_shows(
                row,
                self.changes@,
                i as int,
                text::texts(self.conflicts@),
                text::opt_text(self.selected_change),
            ),
    {
        let c = &self.changes[i];
        let abs = change_abs(c);
        let conflicted = text::list_has(&self.conflicts, abs.as_str());
        let selected = match &self.selected_change {
            Some(s) => text::str_eq(s.as_str(), abs.as_str()),
            None => false,
        };
        let tone = if conflicted {
            Tone::Danger
        } else {
            status_color(c.status.as_str())
        };
        let cs = text::chars_of(c.status.as_str());
        let n: usize = if cs.len() > 0 {
            1
        } else {
            0
        };
        let mark = text::string_of(&cs, 0, n);
        assert(mark@ =~= c.status@.take(n as int));
        let dir = match path::parent(c.path.as_str()) {
            Some(d) => d,
            None => String::new(),
        };
        assert(path::parent_of(c.path@) is None ==> dir@ =~= Seq::<char>::empty());
        ChangeRow {
            index: i,
            mark,
            tone,
            filename: path::display_name(c.path.as_str()),
            dir,
            conflicted,
            selected,
            staged: c.staged && !conflicted,
        }
    }

    fn positions_in(&self, repo: &str) -> (r: Vec<usize>)
        ensures
            r@.map_values(|i: usize| i as int) == positions(self.changes@, repo@),
            forall|j: int| 0 <= j < r@.len() ==> (#[trigger] r@[j]) < self.changes@.len(),
    {
        let mut r: Vec<usize> = Vec::new();
        let mut i: usize = 0;
        assert(self.changes@.take(0) =~= Seq::<GitChange>::empty());
        assert(r@.map_values(|i: usize| i as int) =~= positions(self.changes@.take(0), repo@));
        while i < self.changes.len()
            invariant
                i <= self.changes@.len(),
                r@.map_values(|i: usize| i as int) == positions(
                    self.changes@.take(i as int),
                    repo@,
                ),
                forall|j: int| 0 <= j < r@.len() ==> (#[trigger] r@[j]) < self.changes@.len(),
            decreases self.changes@.len() - i,
        {
            let ghost prev = r@.map_values(|i: usize| i as int);
            assert(self.changes@.take(i + 1).drop_last() =~= self.changes@.take(i as int));
            if text::str_eq(self.changes[i].repo.as_str(), repo) {
                r.push(i);
                assert(r@.map_values(|i: usize| i as int) =~= prev.push(i as int));
            }
            i += 1;
        }
        assert(self.changes@.take(self.changes@.len() as int) =~= self.changes@);
        r
    }

    /// The changed files to draw, by repository. Repositories without changes are left out.
    pub fn change_groups(&self) -> (groups: Vec<ChangeGroup>)
        ensures
            groups@.len() == changed_repos(
                self.repos@,
                self.changes@,
                self.repos@.len() as int,
            ).len(),
            forall|g: int|
                0 <= g < groups@.len() ==> group_shows(
                    #[trigger] groups@[g],
                    self.repos@,
                    self.changes@,
                    changed_repos(self.repos@, self.changes@, self.repos@.len() as int)[g],
                    text::texts(self.conflicts@),
                    text::opt_text(self.selected_change),
                ),
    {
        let mut groups: Vec<ChangeGroup> = Vec::new();
        let ghost conflicts = text::texts(self.conflicts@);
        let ghost selected = text::opt_text(self.selected_change);
        let mut remaining: usize = MAX_RENDERED_CHANGES;
        let mut n: usize = 0;
        while n < self.repos.len()
            invariant
                n <= self.repos@.len(),
                conflicts == text::texts(self.conflicts@),
                selected == text::opt_text(self.selected_change),
                remaining == MAX_RENDERED_CHANGES - listed_before(
                    self.repos@,
                    self.changes@,
                    n as int,
                ),
                groups@.len() == changed_repos(self.repos@, self.changes@, n as int).len(),
                forall|g: int|
                    0 <= g < groups@.len() ==> group_shows(
                        #[trigger] groups@[g],
                        self.repos@,
                        self.changes@,
                        changed_repos(self.repos@, self.changes@, n as int)[g],
                        conflicts,
                        selected,
                    ),
            decreases self.repos@.len() - n,
        {
            let all = self.positions_in(self.repos[n].path.as_str());
            let ghost model = positions(self.changes@, self.repos@[n as int].path@);
            let total = all.len();
            assert(model.len() == total);
            let shown: usize = if total < remaining {
                total
            } else {
                remaining
            };
            let mut rows: Vec<ChangeRow> = Vec::new();
            let mut j: usize = 0;
            while j < shown
                invariant
                    j <= shown <= all@.len(),
                    rows@.len() == j,
                    model == all@.map_values(|i: usize| i as int),
                    conflicts == text::texts(self.conflicts@),
                    selected == text::opt_text(self.selected_change),
                    forall|q: int| 0 <= q < all@.len() ==> (#[trigger] all@[q]) < self.changes@.len(),
                    forall|q: int|
                        0 <= q < j ==> row_shows(
                            #[trigger] rows@[q],
                            self.changes@,
                            model[q],
                            conflicts,
                            selected,
                        ),
                decreases shown - j,
            {
                assert(model[j as int] == all@[j as int]);
                rows.push(self.change_row(all[j]));
                j += 1;
            }
            let ghost before = groups@;
            if total > 0 {
                groups.push(
                    ChangeGroup {
                        title: self.repos[n].name.clone(),
                        total,
                        rows,
                        hidden: total - shown,
                    },
                );
            }
            remaining = remaining - shown;
            n += 1;
            proof {
                let was = changed_repos(self.repos@, self.changes@, n - 1);
                let now = changed_repos(self.repos@, self.changes@, n as int);
                assert forall|g: int| 0 <= g < groups@.len() implies group_shows(
                    #[trigger] groups@[g],
                    self.repos@,
                    self.changes@,
                    now[g],
                    conflicts,
                    selected,
                ) by {
                    if g < before.len() {
                        assert(groups@[g] == before[g]);
                        assert(now[g] == was[g]);
                    }
                }
            }
        }
        groups
    }

    /// Whether branch `i` is listed for the lower-case query `query`, when `lowered` holds the
    /// lower-case names.
    pub open spec fn lists(self, i: int, query: Seq<char>, lowered: Seq<Seq<char>>) -> bool {
        !self.branches@[i].remote && (query.len() == 0 || text::has_part(lowered[i], query))
    }

    /// Positions of the listed branches among the first `n`.
    pub open spec fn listed(self, n: int, query: Seq<char>, lowered: Seq<Seq<char>>) -> Seq<int>
        decreases n,
    {
        if n <= 0 {
            Seq::empty()
        } else {
            let rest = self.listed(n - 1, query, lowered);
            if self.lists(n - 1, query, lowered) {
                rest.push(n - 1)
            } else {
                rest
            }
        }
    }

    /// Whether `row` shows branch `i`.
    pub open spec fn branch_shows(self, row: BranchRow, i: int) -> bool {
        let b = self.branches@[i];
        &&& row.index == i
        &&& row.name@ == b.name@
        &&& row.current == b.current
        &&& row.viewing == (if self.selected_branch@.len() == 0 {
            b.current
        } else {
            self.selected_branch@ == b.name@
        })
        &&& text::opt_text(row.distance) == (if b.ahead > 0 || b.behind > 0 {
            Some("↑"@ + text::dec_int(b.ahead as int) + " ↓"@ + text::dec_int(b.behind as int))
        } else {
            None
        })
    }

    /// The local branches whose lower-case names hold the lower-case text `query`.
    pub fn branch_rows_for(&self, query: &str, lowered: &Vec<String>) -> (rows: Vec<BranchRow>)
        requires
            lowered@.len() == self.branches@.len(),
        ensures
            ({
                let all = self.listed(
                    self.branches@.len() as int,
                    query@,
                    text::texts(lowered@),
                );
                &&& rows@.len() == all.len()
                &&& forall|j: int|
                    0 <= j < rows@.len() ==> self.branch_shows(#[trigger] rows@[j], all[j])
            }),
    {
        let mut rows: Vec<BranchRow> = Vec::new();
        let everything = text::first_char(query).is_none();
        let viewing_current = text::first_char(self.selected_branch.as_str()).is_none();
        let ghost names = text::texts(lowered@);
        let mut i: usize = 0;
        while i < self.branches.len()
            invariant
                i <= self.branches@.len(),
                lowered@.len() == self.branches@.len(),
                names == text::texts(lowered@),
                everything == (query@.len() == 0),
                viewing_current == (self.selected_branch@.len() == 0),
                rows@.len() == self.listed(i as int, query@, names).len(),
                forall|j: int|
                    0 <= j < rows@.len() ==> self.branch_shows(
                        #[trigger] rows@[j],
                        self.listed(i as int, query@, names)[j],
                    ),
            decreases self.branches@.len() - i,
        {
            let b = &self.branches[i];
            assert(names[i as int] == lowered@[i as int]@);
            let ghost was = self.listed(i as int, query@, names);
            let ghost before = rows@;
            if !b.remote && (everything || text::contains(lowered[i].as_str(), query)) {
                let viewing = if viewing_current {
                    b.current
                } else {
                    text::str_eq(self.selected_branch.as_str(), b.name.as_str())
                };
                let distance = if b.ahead > 0 || b.behind > 0 {
                    Some(
                        text::cat4(
                            "↑",
                            text::dec_i64(b.ahead as i64).as_str(),
                            " ↓",
                            text::dec_i64(b.behind as i64).as_str(),
                        ),
                    )
                } else {
                    None
                };
                rows.push(
                    BranchRow {
                        index: i,
                        name: b.name.clone(),
                        current: b.current,
                        viewing,
                        distance,
                    },
                );
            }
            i += 1;
            proof {
                let now = self.listed(i as int, query@, names);
                assert forall|j: int| 0 <= j < rows@.len() implies self.branch_shows(
                    #[trigger] rows@[j],
                    now[j],
                ) by {
                    if j < before.len() {
                        assert(rows@[j] == before[j]);
                        assert(now[j] == was[j]);
                    }
                }
            }
        }
        rows
    }

    /// The lower-case names of the branches.
    pub open spec fn lower_names(self) -> Seq<Seq<char>> {
        self.branches@.map_values(|b: GitBranch| text::lowercase(b.name@))
    }

    /// The branches to draw for what stands in the filter: local ones whose names hold it, whatever
    /// the case.
    pub fn branch_rows(&self, filter: &str) -> (rows: Vec<BranchRow>)
        ensures
            ({
                let all = self.listed(
                    self.branches@.len() as int,
                    text::lowercase(text::trimmed(filter@)),
                    self.lower_names(),
                );
                &&& rows@.len() == all.len()
                &&& forall|j: int|
                    0 <= j < rows@.len() ==> self.branch_shows(#[trigger] rows@[j], all[j])
            }),
    {
        let trimmed = text::trim(filter);
        let query = text::to_lowercase(trimmed.as_str());
        let mut lowered: Vec<String> = Vec::new();
        let ghost all = self.lower_names();
        let mut i: usize = 0;
        assert(text::texts(lowered@) =~= all.take(0));
        while i < self.branches.len()
            invariant
                i <= self.branches@.len(),
                lowered@.len() == i,
                all == self.lower_names(),
                text::texts(lowered@) == all.take(i as int),
            decreases self.branches@.len() - i,
        {
            let ghost prev = text::texts(lowered@);
            lowered.push(text::to_lowercase(self.branches[i].name.as_str()));
            assert(text::texts(lowered@) =~= prev.push(all[i as int]));
            i += 1;
            assert(text::texts(lowered@) =~= all.take(i as int));
        }
        assert(text::texts(lowered@) =~= all);
        self.branch_rows_for(query.as_str(), &lowered)
    }

    /// The head of the history.
    pub fn log_title(&self) -> (r: String)
        ensures
            r@ == "历史 · "@ + (if self.selected_branch@.len() == 0 {
                self.branch@
            } else {
                self.selected_branch@
            }),
    {
        if text::first_char(self.selected_branch.as_str()).is_none() {
            text::cat2("历史 · ", self.branch.as_str())
        } else {
            text::cat2("历史 · ", self.selected_branch.as_str())
        }
    }

    /// Whether the selected file can be put back.
    pub fn can_rollback(&self) -> (r: bool)
        ensures
            r == (!self.busy && self.selected_change is Some && has_change(
                self.changes@,
                self.selected_change->0@,
            )),
    {
        !self.busy && self.selected_change().is_some()
    }

    /// Whether there are several repositories to choose from.
    pub fn shows_repo_selector(&self) -> (r: bool)
        ensures
            r == (self.repos@.len() > 1),
    {
        self.repos.len() > 1
    }
}

proof fn lemma_listed(g: GitPanel, n: int, query: Seq<char>, lowered: Seq<Seq<char>>)
    requires
        0 <= n,
    ensures
        forall|j: int| 0 <= j < g.listed(n, query, lowered).len() ==> {
            &&& 0 <= #[trigger] g.listed(n, query, lowered)[j] < n
            &&& g.lists(g.listed(n, query, lowered)[j], query, lowered)
        },
        forall|j: int, k: int|
            0 <= j < k < g.listed(n, query, lowered).len() ==> #[trigger] g.listed(n, query, lowered)[j]
                < #[trigger] g.listed(n, query, lowered)[k],
        forall|i: int|
            0 <= i < n && g.lists(i, query, lowered) ==> #[trigger] g.listed(n, query, lowered).contains(i),
    decreases n,
{
    if n > 0 {
        lemma_listed(g, n - 1, query, lowered);
        let rest = g.listed(n - 1, query, lowered);
        let all = g.listed(n, query, lowered);
        assert forall|i: int| 0 <= i < n && g.lists(i, query, lowered) implies #[trigger] all.contains(i) by {
            if i < n - 1 {
                assert(rest.contains(i));
                let j = rest.index_of(i);
                assert(all[j] == i);
            } else {
                assert(all[all.len() - 1] == i);
            }
        }
    }
}

/// The branch filter finds a text anywhere in a name: a local branch is listed exactly when its
/// lower-case name is the query with something, or nothing, before and after it. A remote branch is
/// never listed, and the branches stand in the order that git gives them in, each once.
pub proof fn law_a_branch_is_found_by_any_part_of_its_name(
    g: GitPanel,
    query: Seq<char>,
    lowered: Seq<Seq<char>>,
    i: int,
)
    requires
        lowered.len() == g.branches@.len(),
        0 <= i < g.branches@.len(),
    ensures
        ({
            let all = g.listed(g.branches@.len() as int, query, lowered);
            &&& all.contains(i) <==> !g.branches@[i].remote && exists|a: Seq<char>, b: Seq<char>|
                lowered[i] == #[trigger] (a + query + b)
            &&& forall|j: int, k: int|
                0 <= j < k < all.len() ==> #[trigger] all[j] < #[trigger] all[k]
            &&& forall|j: int| 0 <= j < all.len() ==> 0 <= #[trigger] all[j] < g.branches@.len()
        }),
{
    let n = g.branches@.len() as int;
    let all = g.listed(n, query, lowered);
    lemma_listed(g, n, query, lowered);
    text::law_parts_are_surrounded(lowered[i], query);
    if query.len() == 0 {
        assert(lowered[i] =~= Seq::<char>::empty() + query + lowered[i]);
    }
    if all.contains(i) {
        let j = all.index_of(i);
        assert(all[j] == i);
    }
}

/// The lower-case names are those of the branches, one by one.
pub proof fn law_branch_names_are_compared_in_lower_case(g: GitPanel, i: int)
    requires
        0 <= i < g.branches@.len(),
    ensures
        g.lower_names().len() == g.branches@.len(),
        g.lower_names()[i] == text::lowercase(g.branches@[i].name@),
{
}

/// A branch that is ahead or behind tells both numbers, first how far it is ahead.
pub proof fn law_distance_tells_ahead_first(g: GitPanel, row: BranchRow, i: int)
    requires
        0 <= i < g.branches@.len(),
        g.branch_shows(row, i),
    ensures
        row.name@ == g.branches@[i].name@,
        row.index == i,
        row.distance is None <==> g.branches@[i].ahead <= 0 && g.branches@[i].behind <= 0,
        row.distance matches Some(t) ==> exists|up: Seq<char>, down: Seq<char>|
            t@ == #[trigger] ("↑"@ + up + " ↓"@ + down) && up == text::dec_int(
                g.branches@[i].ahead as int,
            ) && down == text::dec_int(g.branches@[i].behind as int),
        g.selected_branch@.len() == 0 ==> (row.viewing <==> row.current),
        g.selected_branch@.len() > 0 ==> (row.viewing <==> row.name@ == g.selected_branch@),
        row.current == g.branches@[i].current,
{
    if let Some(t) = row.distance {
        let up = text::dec_int(g.branches@[i].ahead as int);
        let down = text::dec_int(g.branches@[i].behind as int);
        assert(t@ == "↑"@ + up + " ↓"@ + down);
    }
}

/// The rows that are drawn for a query are the local branches whose lower-case names hold it: every
/// one of them has its row, and no other has one.
pub proof fn law_branch_rows_are_the_branches_found(
    g: GitPanel,
    query: &str,
    lowered: Vec<String>,
    rows: Vec<BranchRow>,
    i: int,
)
    requires
        lowered@.len() == g.branches@.len(),
        call_ensures(GitPanel::branch_rows_for, (&g, query, &lowered), rows),
        0 <= i < g.branches@.len(),
    ensures
        (exists|j: int|
            0 <= j < rows@.len() && (#[trigger] rows@[j]).index == i && rows@[j].name@
                == g.branches@[i].name@) <==> !g.branches@[i].remote && exists|
            a: Seq<char>,
            b: Seq<char>,
        | lowered@[i]@ == #[trigger] (a + query@ + b),
{
    let names = text::texts(lowered@);
    let all = g.listed(g.branches@.len() as int, query@, names);
    law_a_branch_is_found_by_any_part_of_its_name(g, query@, names, i);
    assert(names[i] == lowered@[i]@);
    if all.contains(i) {
        let j = all.index_of(i);
        assert(g.branch_shows(rows@[j], all[j]));
    }
    if exists|j: int|
        0 <= j < rows@.len() && (#[trigger] rows@[j]).index == i && rows@[j].name@
            == g.branches@[i].name@ {
        let j = choose|j: int|
            0 <= j < rows@.len() && (#[trigger] rows@[j]).index == i && rows@[j].name@
                == g.branches@[i].name@;
        assert(g.branch_shows(rows@[j], all[j]));
        assert(all[j] == i);
    }
}

proof fn lemma_files_are_filtered(changes: Seq<GitChange>, repo: Seq<char>)
    ensures
        files_of(changes, repo) == changes.filter(|c: GitChange| c.repo@ == repo).map_values(
            |c: GitChange| c.path@,
        ),
        positions(changes, repo).len() == changes.filter(|c: GitChange| c.repo@ == repo).len(),
    decreases changes.len(),
{
    reveal(Seq::filter);
    if changes.len() > 0 {
        lemma_files_are_filtered(changes.drop_last(), repo);
    }
    assert(files_of(changes, repo) =~= changes.filter(|c: GitChange| c.repo@ == repo).map_values(
        |c: GitChange| c.path@,
    ));
}

proof fn lemma_repos_change(changes: Seq<GitChange>, repo: Seq<char>)
    ensures
        repos_of(changes).contains(repo) <==> exists|i: int|
            0 <= i < changes.len() && (#[trigger] changes[i]).repo@ == repo,
    decreases changes.len(),
{
    if changes.len() > 0 {
        let init = changes.drop_last();
        let rest = repos_of(init);
        lemma_repos_change(init, repo);
        assert(changes[changes.len() - 1] == changes.last());
        if repos_of(changes).contains(repo) && !rest.contains(repo) {
            let k = repos_of(changes).index_of(repo);
            assert(k == rest.len());
        }
        if rest.contains(repo) {
            let k = rest.index_of(repo);
            assert(repos_of(changes)[k] == repo);
            let i = choose|i: int| 0 <= i < init.len() && (#[trigger] init[i]).repo@ == repo;
            assert(changes[i].repo@ == repo);
        } else if changes.last().repo@ == repo {
            assert(repos_of(changes)[rest.len() as int] == repo);
        }
        if exists|i: int| 0 <= i < changes.len() && (#[trigger] changes[i]).repo@ == repo {
            let i = choose|i: int| 0 <= i < changes.len() && (#[trigger] changes[i]).repo@ == repo;
            if i < init.len() {
                assert(init[i].repo@ == repo);
            }
        }
    }
}

/// A commit takes every change: in each repository that has any, all its changed files, in order and
/// each as often as it is listed, with the message as it was typed.
pub proof fn law_a_commit_takes_every_change(
    g: &mut GitPanel,
    message: String,
    and_push: bool,
    r: Option<CommitRequest>,
    repo: Seq<char>,
)
    requires
        old(g).inv(),
        call_ensures(GitPanel::commit, (g, message, and_push), r),
    ensures
        r matches Some(q) ==> {
            let mine = old(g).changes@.filter(|c: GitChange| c.repo@ == repo);
            &&& q.message@ == message@
            &&& q.and_push == and_push
            &&& (exists|k: int| 0 <= k < q.groups@.len() && (#[trigger] q.groups@[k]).repo@ == repo)
                <==> (exists|i: int|
                0 <= i < old(g).changes@.len() && (#[trigger] old(g).changes@[i]).repo@ == repo)
            &&& forall|k: int|
                0 <= k < q.groups@.len() && (#[trigger] q.groups@[k]).repo@ == repo ==> text::texts(
                    q.groups@[k].files@,
                ) == mine.map_values(|c: GitChange| c.path@)
        },
        text::trimmed(message@).len() == 0 ==> r is None,
        old(g).busy || old(g).changes@.len() == 0 ==> r is None,
        !old(g).busy && text::trimmed(message@).len() > 0 && old(g).changes@.len() > 0 ==> r is Some,
{
    text::lemma_trimmed_empty(message@);
    if let Some(q) = r {
        let changes = old(g).changes@;
        lemma_files_are_filtered(changes, repo);
        lemma_repos_change(changes, repo);
        let repos = repos_of(changes);
        if repos.contains(repo) {
            let k = repos.index_of(repo);
            assert(q.groups@[k].repo@ == repo);
        }
        if exists|k: int| 0 <= k < q.groups@.len() && (#[trigger] q.groups@[k]).repo@ == repo {
            let k = choose|k: int|
                0 <= k < q.groups@.len() && (#[trigger] q.groups@[k]).repo@ == repo;
            assert(repos[k] == repo);
        }
    }
}

proof fn lemma_places(changes: Seq<GitChange>, repo: Seq<char>)
    ensures
        forall|j: int| 0 <= j < positions(changes, repo).len() ==> {
            &&& 0 <= #[trigger] positions(changes, repo)[j] < changes.len()
            &&& changes[positions(changes, repo)[j]].repo@ == repo
        },
        forall|j: int, k: int|
            0 <= j < k < positions(changes, repo).len() ==> #[trigger] positions(changes, repo)[j]
                < #[trigger] positions(changes, repo)[k],
        forall|i: int|
            0 <= i < changes.len() && (#[trigger] changes[i]).repo@ == repo ==> positions(
                changes,
                repo,
            ).contains(i),
    decreases changes.len(),
{
    if changes.len() > 0 {
        let init = changes.drop_last();
        lemma_places(init, repo);
        let rest = positions(init, repo);
        let all = positions(changes, repo);
        assert forall|j: int| 0 <= j < all.len() implies {
            &&& 0 <= #[trigger] all[j] < changes.len()
            &&& changes[all[j]].repo@ == repo
        } by {
            if j < rest.len() {
                assert(init[rest[j]] == changes[all[j]]);
            }
        }
        assert forall|i: int|
            0 <= i < changes.len() && (#[trigger] changes[i]).repo@ == repo implies all.contains(i) by {
            if i < init.len() {
                assert(init[i] == changes[i]);
                let k = rest.index_of(i);
                assert(all[k] == i);
            } else {
                assert(all[all.len() - 1] == i);
            }
        }
    }
}

/// The changes of a repository are listed under its name in the order that git gives them in, from
/// the first on. Each row tells the file's name and folder and the first letter of its state; a file
/// in conflict is drawn as such and not as staged.
pub proof fn law_changes_stand_under_their_repository(
    group: ChangeGroup,
    repos: Seq<GitRepo>,
    changes: Seq<GitChange>,
    n: int,
    conflicts: Seq<Seq<char>>,
    selected: Option<Seq<char>>,
    j: int,
)
    requires
        0 <= n < repos.len(),
        group_shows(group, repos, changes, n, conflicts, selected),
        0 <= j < group.rows@.len(),
        group.rows@.len() <= group.total,
    ensures
        ({
            let row = group.rows@[j];
            let c = changes[row.index as int];
            let repo = repos[n].path@;
            &&& group.title@ == repos[n].name@
            &&& row.index < changes.len()
            &&& c.repo@ == repos[n].path@
            &&& j > 0 ==> group.rows@[j - 1].index < row.index
            &&& row.filename@ == path::shown_name(c.path@)
            &&& c.status@.len() > 0 ==> row.mark@ == seq![c.status@[0]]
            &&& conflicts.contains(path::joined_path(c.repo@, c.path@)) ==> row.conflicted
                && row.tone == Tone::Danger && !row.staged
            &&& !conflicts.contains(path::joined_path(c.repo@, c.path@)) ==> !row.conflicted
                && row.staged == c.staged
            &&& row.selected <==> selected == Some(path::joined_path(c.repo@, c.path@))
            &&& group.total == changes.filter(|c: GitChange| c.repo@ == repo).len()
            &&& group.hidden == group.total - group.rows@.len()
        }),
{
    let repo = repos[n].path@;
    let all = positions(changes, repo);
    lemma_places(changes, repo);
    lemma_files_are_filtered(changes, repo);
    assert(row_shows(group.rows@[j], changes, all[j], conflicts, selected));
    if j > 0 {
        assert(row_shows(group.rows@[j - 1], changes, all[j - 1], conflicts, selected));
        assert(all[j - 1] < all[j]);
    }
    let c = changes[all[j]];
    if c.status@.len() > 0 {
        assert(group.rows@[j].mark@ =~= seq![c.status@[0]]);
    }
}

/// A changed file is coloured by what happened to it: new files as gains, deleted ones as losses.
pub proof fn law_tones_tell_gains_from_losses(added: Tone, untracked: Tone, deleted: Tone, modified: Tone)
    requires
        call_ensures(status_color, ("Added",), added),
        call_ensures(status_color, ("Untracked",), untracked),
        call_ensures(status_color, ("Deleted",), deleted),
        call_ensures(status_color, ("Modified",), modified),
    ensures
        added == Tone::Success && untracked == Tone::Success,
        deleted == Tone::Danger,
        modified == Tone::Warning,
{
    reveal_strlit("Added");
    reveal_strlit("Untracked");
    reveal_strlit("Deleted");
    reveal_strlit("Modified");
    assert("Added"@.len() == 5 && "Untracked"@.len() == 9 && "Deleted"@.len() == 7
        && "Modified"@.len() == 8);
}

/// Opening a change selects it. A file in conflict is opened for merging, any other one with what
/// changed in it; both in the repository that the change is of.
pub proof fn law_a_conflict_opens_for_merging(g: &mut GitPanel, i: usize, e: GitPanelEvent)
    requires
        i < old(g).changes@.len(),
        call_ensures(GitPanel::open_change, (g, i), e),
    ensures
        ({
            let c = old(g).changes@[i as int];
            let abs = path::joined_path(c.repo@, c.path@);
            &&& text::opt_text(final(g).selected_change) == Some(abs)
            &&& e is OpenMerge <==> exists|k: int|
                0 <= k < old(g).conflicts@.len() && (#[trigger] old(g).conflicts@[k])@ == abs
            &&& e matches GitPanelEvent::OpenMerge { repo, rel_path } ==> repo@ == c.repo@
                && rel_path@ == c.path@
            &&& e matches GitPanelEvent::OpenDiff { repo, rel_path, abs_path } ==> repo@ == c.repo@
                && rel_path@ == c.path@ && abs_path@ == abs
            &&& !(e is StatusUpdated)
        }),
{
    let c = old(g).changes@[i as int];
    let abs = path::joined_path(c.repo@, c.path@);
    let all = text::texts(old(g).conflicts@);
    if all.contains(abs) {
        let k = all.index_of(abs);
        assert(old(g).conflicts@[k]@ == abs);
    }
    if exists|k: int| 0 <= k < old(g).conflicts@.len() && (#[trigger] old(g).conflicts@[k])@ == abs {
        let k = choose|k: int|
            0 <= k < old(g).conflicts@.len() && (#[trigger] old(g).conflicts@[k])@ == abs;
        assert(all[k] == abs);
    }
}

/// What a superseded refresh brings does not touch the state of the files, and what a superseded
/// reading of the history brings does not touch branches and history.
pub proof fn law_late_results_are_dropped(
    g: &mut GitPanel,
    refresh_seq: u64,
    log_seq: u64,
    repos: Vec<GitRepo>,
    branch: String,
    changes: Vec<GitChange>,
    conflicts: Vec<String>,
    branches: Option<Vec<GitBranch>>,
    log: Option<Vec<GitCommit>>,
    event: Option<GitPanelEvent>,
)
    requires
        old(g).inv(),
        call_ensures(
            GitPanel::refresh_done,
            (g, refresh_seq, log_seq, repos, branch, changes, conflicts, branches, log),
            event,
        ),
    ensures
        refresh_seq != old(g).refresh_seq ==> final(g).changes == old(g).changes
            && final(g).conflicts == old(g).conflicts && final(g).branch == old(g).branch
            && final(g).repos == old(g).repos && final(g).selected_change
            == old(g).selected_change && event is None,
        refresh_seq == old(g).refresh_seq ==> final(g).changes == changes && final(g).conflicts
            == conflicts && final(g).branch == branch && final(g).repos == repos && event is Some,
        log_seq != old(g).log_seq ==> final(g).branches == old(g).branches && final(g).log
            == old(g).log,
        log_seq == old(g).log_seq ==> (branches matches Some(b) ==> final(g).branches == b) && (
        log matches Some(l) ==> final(g).log == l),
        final(g).busy == old(g).busy && final(g).mode == old(g).mode && final(g).project_root
            == old(g).project_root,
{
}

/// A file stays selected while it is among the changes.
pub proof fn law_selection_stays_while_changed(selected: String, changes: Seq<GitChange>, i: int)
    requires
        0 <= i < changes.len(),
    ensures
        path::joined_path(changes[i].repo@, changes[i].path@) == selected@ ==> kept_selection(
            Some(selected),
            changes,
        ) == Some(selected),
        kept_selection(Some(selected), Seq::empty()) is None,
        kept_selection(None, changes) is None,
        kept_selection(Some(selected), changes) is Some ==> exists|k: int|
            0 <= k < changes.len() && path::joined_path(
                (#[trigger] changes[k]).repo@,
                changes[k].path@,
            ) == selected@,
{
    if path::joined_path(changes[i].repo@, changes[i].path@) == selected@ {
        assert(abs_of(changes[i]) == selected@);
    }
    if has_change(changes, selected@) {
        let k = choose|k: int| 0 <= k < changes.len() && abs_of(#[trigger] changes[k]) == selected@;
        assert(path::joined_path(changes[k].repo@, changes[k].path@) == selected@);
    }
}

/// The changes of several repositories are put together in order, and a repository that could not be
/// read adds none.
pub proof fn law_changes_of_all_repositories(
    before: Seq<Option<Vec<GitChange>>>,
    after: Seq<Option<Vec<GitChange>>>,
)
    ensures
        all_changes(before + after) == all_changes(before) + all_changes(after),
        before.len() == 1 ==> all_changes(before) == (match before[0] {
            Some(v) => v@,
            None => Seq::empty(),
        }),
    decreases after.len(),
{
    if before.len() == 1 {
        assert(before.drop_last() =~= Seq::<Option<Vec<GitChange>>>::empty());
        assert(before.last() == before[0]);
        assert(all_changes(before.drop_last()) =~= Seq::<GitChange>::empty());
        assert(all_changes(before) =~= (match before[0] {
            Some(v) => v@,
            None => Seq::empty(),
        }));
    }
    let all = before + after;
    if after.len() == 0 {
        assert(all =~= before);
        assert(all_changes(before) + all_changes(after) =~= all_changes(before));
    } else {
        assert(all.drop_last() =~= before + after.drop_last());
        assert(all.last() == after.last());
        law_changes_of_all_repositories(before, after.drop_last());
        assert(all_changes(all) =~= all_changes(before) + all_changes(after));
    }
}

/// What git says once a branch was pushed or pulled is told by its first line, and by a word where
/// that line is empty.
pub proof fn law_the_first_line_is_told(line: Seq<char>, rest: Seq<char>)
    requires
        line.len() > 0,
        !line.contains('\n'),
        line.last() != '\r',
    ensures
        first_line(line) == line,
        first_line(line + seq!['\n'] + rest) == line,
        first_line(seq!['\n'] + rest) == "完成"@,
        first_line(Seq::empty()) == "完成"@,
{
    let nl = seq!['\n'];
    text::law_split_where_it_stands(line, '\n', rest);
    text::law_split_where_it_stands(Seq::empty(), '\n', rest);
    text::lemma_split_nonempty(rest, '\n');
    let e = Seq::<char>::empty();
    assert(e + nl + rest =~= nl + rest);
    assert(!e.contains('\n'));
    let one = text::split_on(line, '\n');
    assert(one == seq![line]);
    assert(text::lines_of(line)[0] == line);
    let more = text::split_on(line + nl + rest, '\n');
    assert(more[0] == line);
    assert(more.drop_last()[0] == line);
    assert(text::without_cr(line) == line);
    assert(text::lines_of(line + nl + rest)[0] == line);
    let blank = text::split_on(nl + rest, '\n');
    assert(blank[0] == e);
    assert(blank.drop_last()[0] == e);
    assert(text::lines_of(nl + rest)[0] == e);
    assert(text::split_on(e, '\n') =~= seq![e]);
    assert(text::lines_of(e).len() == 0);
}

/// How far the current branch is from its upstream is told of the branch that git marks, and of no
/// other.
pub proof fn law_distance_is_that_of_the_current_branch(g: GitPanel, r: (i32, i32), i: int)
    requires
        call_ensures(GitPanel::ahead_behind, (&g,), r),
        0 <= i < g.branches@.len(),
        g.branches@[i].current,
        forall|j: int| 0 <= j < g.branches@.len() && j != i ==> !(#[trigger] g.branches@[j]).current,
    ensures
        r.0 == g.branches@[i].ahead,
        r.1 == g.branches@[i].behind,
{
}

/// Pushing and pulling are done in the repository that is looked at, one at a time, and a push sends
/// the current branch.
pub proof fn law_syncing_is_about_the_active_repository(
    g: &mut GitPanel,
    push: bool,
    r: Option<SyncRequest>,
)
    requires
        call_ensures(GitPanel::sync_remote, (g, push), r),
    ensures
        old(g).busy ==> r is None,
        !old(g).busy ==> r is Some && final(g).busy,
        r matches Some(q) ==> q.push == push && q.branch@ == old(g).branch@ && (old(g).active_repo
            < old(g).repos@.len() ==> q.cwd@ == old(g).repos@[old(g).active_repo as int].path@) && (
        old(g).repos@.len() == 0 ==> q.cwd@ == old(g).project_root@),
{
}

/// Putting the selected file back touches that file alone, in its repository.
pub proof fn law_rolling_back_touches_the_selected_file(g: &mut GitPanel, r: Option<RollbackRequest>)
    requires
        call_ensures(GitPanel::rollback_selected, (g,), r),
    ensures
        r matches Some(q) ==> old(g).selected_change is Some && path::joined_path(q.cwd@, q.path@)
            == old(g).selected_change->0@,
        old(g).selected_change is None || old(g).busy ==> r is None,
        final(g).changes == old(g).changes && final(g).selected_change == old(g).selected_change,
{
    if let Some(q) = r {
        let i = choose|i: int|
            {
                let c = old(g).changes@[i];
                &&& #[trigger] first_change(old(g).changes@, old(g).selected_change->0@, i)
                &&& c.repo == q.cwd
                &&& c.path == q.path
                &&& c.status == q.status
            };
        assert(abs_of(old(g).changes@[i]) == old(g).selected_change->0@);
    }
}

/// Switching to the branch that is checked out, or while something runs, does nothing.
pub proof fn law_switching_goes_to_another_branch(
    g: &mut GitPanel,
    branch: String,
    r: Option<CheckoutRequest>,
)
    requires
        call_ensures(GitPanel::checkout, (g, branch), r),
    ensures
        branch@ == old(g).branch@ ==> r is None && *final(g) == *old(g),
        r matches Some(q) ==> q.branch@ == branch@ && !old(g).busy && final(g).busy && (old(
            g,
        ).active_repo < old(g).repos@.len() ==> q.cwd@ == old(g).repos@[old(
            g,
        ).active_repo as int].path@),
        branch@ != old(g).branch@ && !old(g).busy ==> r is Some,
        final(g).branch == old(g).branch,
{
}

/// Going to another project leaves nothing of the old one behind but what was typed, and brings back
/// what was typed for the new one.
pub proof fn law_projects_keep_their_messages(
    g: &mut GitPanel,
    root: String,
    message: String,
    r: (String, RefreshRequest),
)
    requires
        old(g).inv(),
        old(g).refresh_seq < u64::MAX,
        old(g).log_seq < u64::MAX,
        call_ensures(GitPanel::set_project, (g, root, message), r),
        !path::same(old(g).project_root@, root@),
        old(g).project_root@.len() > 0,
    ensures
        old(g).commit_drafts@.contains_key(path::components(root@)) ==> r.0@ == old(
            g,
        ).commit_drafts@[path::components(root@)]@,
        !old(g).commit_drafts@.contains_key(path::components(root@)) ==> r.0@.len() == 0,
        message@.len() > 0 ==> final(g).commit_drafts@.contains_key(
            path::components(old(g).project_root@),
        ) && final(g).commit_drafts@[path::components(old(g).project_root@)]@ == message@,
        message@.len() == 0 ==> !final(g).commit_drafts@.contains_key(
            path::components(old(g).project_root@),
        ),
        final(g).changes@.len() == 0 && final(g).branches@.len() == 0 && final(g).log@.len() == 0
            && final(g).repos@.len() == 0 && final(g).conflicts@.len() == 0
            && final(g).selected_change is None,
        r.1.root == root,
{
}

proof fn lemma_changed_repos(repos: Seq<GitRepo>, changes: Seq<GitChange>, n: int)
    requires
        0 <= n <= repos.len(),
    ensures
        forall|j: int| 0 <= j < changed_repos(repos, changes, n).len() ==> {
            &&& 0 <= #[trigger] changed_repos(repos, changes, n)[j] < n
            &&& positions(changes, repos[changed_repos(repos, changes, n)[j]].path@).len() > 0
        },
        forall|i: int|
            0 <= i < n && positions(changes, (#[trigger] repos[i]).path@).len() > 0
                ==> changed_repos(repos, changes, n).contains(i),
    decreases n,
{
    if n > 0 {
        lemma_changed_repos(repos, changes, n - 1);
        let rest = changed_repos(repos, changes, n - 1);
        let all = changed_repos(repos, changes, n);
        assert forall|i: int|
            0 <= i < n && positions(changes, (#[trigger] repos[i]).path@).len() > 0 implies all.contains(
            i,
        ) by {
            if i < n - 1 {
                let k = rest.index_of(i);
                assert(all[k] == i);
            } else {
                assert(all[all.len() - 1] == i);
            }
        }
    }
}

/// Every repository with a change has its group, and a group stands for a repository that has one.
/// Of the first repository up to 400 changes are listed.
pub proof fn law_changed_repositories_have_their_groups(
    g: GitPanel,
    groups: Vec<ChangeGroup>,
    i: int,
    c: int,
)
    requires
        call_ensures(GitPanel::change_groups, (&g,), groups),
        0 <= i < g.repos@.len(),
        0 <= c < g.changes@.len(),
    ensures
        g.changes@[c].repo@ == g.repos@[i].path@ ==> exists|k: int|
            0 <= k < groups@.len() && (#[trigger] groups@[k]).title@ == g.repos@[i].name@
                && groups@[k].total > 0,
        forall|k: int| 0 <= k < groups@.len() ==> (#[trigger] groups@[k]).total > 0,
        g.changes@[c].repo@ == g.repos@[0].path@ ==> groups@.len() > 0 && groups@[0].title@
            == g.repos@[0].name@ && groups@[0].rows@.len() == (if groups@[0].total <= 400 {
            groups@[0].total as int
        } else {
            400
        }),
{
    let repos = g.repos@;
    let changes = g.changes@;
    let n = repos.len() as int;
    let all = changed_repos(repos, changes, n);
    lemma_changed_repos(repos, changes, n);
    lemma_places(changes, repos[i].path@);
    lemma_places(changes, repos[0].path@);
    let conflicts = text::texts(g.conflicts@);
    let selected = text::opt_text(g.selected_change);
    if changes[c].repo@ == repos[i].path@ {
        let at = positions(changes, repos[i].path@);
        assert(at.contains(c));
        assert(at.len() > 0);
        let k = all.index_of(i);
        assert(group_shows(groups@[k], repos, changes, all[k], conflicts, selected));
    }
    assert forall|k: int| 0 <= k < groups@.len() implies (#[trigger] groups@[k]).total > 0 by {
        assert(group_shows(groups@[k], repos, changes, all[k], conflicts, selected));
    }
    if changes[c].repo@ == repos[0].path@ {
        let at = positions(changes, repos[0].path@);
        assert(at.contains(c));
        lemma_first_changed(repos, changes, n);
        assert(group_shows(groups@[0], repos, changes, all[0], conflicts, selected));
        assert(listed_before(repos, changes, 0) == 0);
    }
}

proof fn lemma_first_changed(repos: Seq<GitRepo>, changes: Seq<GitChange>, n: int)
    requires
        0 < n <= repos.len(),
        positions(changes, repos[0].path@).len() > 0,
    ensures
        changed_repos(repos, changes, n).len() > 0,
        changed_repos(repos, changes, n)[0] == 0,
    decreases n,
{
    if n > 1 {
        lemma_first_changed(repos, changes, n - 1);
    } else {
        assert(changed_repos(repos, changes, 0).len() == 0);
    }
}

/// Where a branch is looked for does not depend on white space around what was typed, and every local
/// branch is listed where nothing was typed.
pub proof fn law_branches_are_found_as_typed(
    g: GitPanel,
    filter: &str,
    rows: Vec<BranchRow>,
    i: int,
)
    requires
        call_ensures(GitPanel::branch_rows, (&g, filter), rows),
        0 <= i < g.branches@.len(),
    ensures
        (exists|j: int|
            0 <= j < rows@.len() && (#[trigger] rows@[j]).index == i && rows@[j].name@
                == g.branches@[i].name@) <==> !g.branches@[i].remote && exists|
            a: Seq<char>,
            b: Seq<char>,
        |
            text::lowercase(g.branches@[i].name@) == #[trigger] (a + text::lowercase(
                text::trimmed(filter@),
            ) + b),
{
    let query = text::lowercase(text::trimmed(filter@));
    let names = g.lower_names();
    let all = g.listed(g.branches@.len() as int, query, names);
    law_branch_names_are_compared_in_lower_case(g, i);
    law_a_branch_is_found_by_any_part_of_its_name(g, query, names, i);
    if all.contains(i) {
        let j = all.index_of(i);
        assert(g.branch_shows(rows@[j], all[j]));
    }
    if exists|j: int|
        0 <= j < rows@.len() && (#[trigger] rows@[j]).index == i && rows@[j].name@
            == g.branches@[i].name@ {
        let j = choose|j: int|
            0 <= j < rows@.len() && (#[trigger] rows@[j]).index == i && rows@[j].name@
                == g.branches@[i].name@;
        assert(g.branch_shows(rows@[j], all[j]));
        assert(all[j] == i);
    }
}

/// What is read after an operation is newer than all that was asked for before, and the history goes
/// back to the branch that is checked out.
pub proof fn law_operations_end_with_a_fresh_look(
    g: &mut GitPanel,
    result: Result<String, String>,
    q: RefreshRequest,
)
    requires
        old(g).inv(),
        old(g).refresh_seq < u64::MAX,
        old(g).log_seq < u64::MAX,
        call_ensures(GitPanel::sync_done, (g, result), q),
    ensures
        !final(g).busy,
        q.refresh_seq > old(g).refresh_seq && q.log_seq > old(g).log_seq,
        q.refresh_seq == final(g).refresh_seq && q.log_seq == final(g).log_seq,
        final(g).selected_branch@.len() == 0,
        q.root == old(g).project_root,
        result matches Err(e) ==> e@.is_suffix_of(final(g).status@),
        result matches Ok(out) ==> first_line(out@).is_prefix_of(final(g).status@),
        final(g).changes == old(g).changes && final(g).branch == old(g).branch,
{
    if let Err(e) = result {
        assert(final(g).status@.skip(final(g).status@.len() - e@.len()) =~= e@);
    }
    if let Ok(out) = result {
        let line = first_line(out@);
        assert(final(g).status@.take(line.len() as int) =~= line);
    }
}

/// Another repository is shown from scratch: its branches and history are read anew, and what was asked
/// for the one before is too old.
pub proof fn law_repositories_are_shown_one_at_a_time(
    g: &mut GitPanel,
    i: usize,
    r: Option<RepoRequest>,
    late: &mut GitPanel,
    branch: String,
    branches: Option<Vec<GitBranch>>,
    log: Option<Vec<GitCommit>>,
    applied: bool,
)
    requires
        old(g).inv(),
        old(g).log_seq < u64::MAX,
        call_ensures(GitPanel::select_repo, (g, i), r),
        *old(late) == *final(g),
        call_ensures(GitPanel::repo_read, (late, old(g).log_seq, branch, branches, log), applied),
    ensures
        i == old(g).active_repo || i >= old(g).repos@.len() ==> r is None,
        i != old(g).active_repo && i < old(g).repos@.len() ==> r is Some,
        r matches Some(q) ==> final(g).active_repo == i && final(g).branches@.len() == 0 && final(g).log@.len() == 0 && q.path@ == old(g).repos@[i as int].path@ && !applied && *final(late)
            == *final(g) && final(g).changes == old(g).changes,
{
}

/// The light look brings the changes in any case, and the branch where the same repository is shown
/// still.
pub proof fn law_the_light_look_keeps_branches_apart(
    g: &mut GitPanel,
    seq: u64,
    active_repo: usize,
    branch: String,
    changes: Vec<GitChange>,
    conflicts: Vec<String>,
    event: Option<GitPanelEvent>,
)
    requires
        old(g).inv(),
        call_ensures(GitPanel::light_done, (g, seq, active_repo, branch, changes, conflicts), event),
    ensures
        seq != old(g).refresh_seq ==> *final(g) == *old(g) && event is None,
        seq == old(g).refresh_seq ==> final(g).changes == changes && final(g).conflicts == conflicts
            && event is Some,
        active_repo != old(g).active_repo ==> final(g).branch == old(g).branch,
        seq == old(g).refresh_seq && active_repo == old(g).active_repo ==> final(g).branch == branch,
        final(g).branches == old(g).branches && final(g).log == old(g).log && final(g).repos
            == old(g).repos,
{
}

/// The history shown is that of the branch that was picked, in the repository in front; an answer for
/// another pick is dropped.
pub proof fn law_the_history_is_that_of_the_picked_branch(
    g: &mut GitPanel,
    branch: String,
    q: LogRequest,
    title: String,
    late: &mut GitPanel,
    seq: u64,
    log: Option<Vec<GitCommit>>,
    applied: bool,
)
    requires
        old(g).log_seq < u64::MAX,
        branch@.len() > 0,
        call_ensures(GitPanel::select_branch, (g, branch), q),
        call_ensures(GitPanel::log_title, (&*final(g),), title),
        *old(late) == *final(g),
        call_ensures(GitPanel::log_read, (late, seq, log), applied),
    ensures
        q.branch@ == branch@,
        old(g).active_repo < old(g).repos@.len() ==> q.cwd@ == old(
            g,
        ).repos@[old(g).active_repo as int].path@,
        branch@.is_suffix_of(title@),
        applied <==> seq == q.log_seq,
        seq <= old(g).log_seq ==> !applied,
        applied ==> (log matches Some(l) ==> final(late).log == l),
        final(late).branch == old(g).branch && final(late).branches == old(g).branches,
{
    assert(title@.skip(title@.len() - branch@.len()) =~= branch@);
}

/// Every repository that took the commit counts, the first failure is the one that is told, and nothing
/// is pushed where committing failed.
pub proof fn law_the_first_failure_is_told(
    t: &mut CommitTally,
    u: &mut CommitTally,
    v: &mut CommitTally,
    first: Result<(), String>,
    second: Result<(), String>,
    pushing: Result<(), String>,
    and_push: bool,
    push: bool,
    push_again: bool,
)
    requires
        old(t).ok < usize::MAX - 1,
        old(t).err is None,
        call_ensures(CommitTally::committed, (t, first, and_push), push),
        *old(u) == *final(t),
        call_ensures(CommitTally::committed, (u, second, and_push), push_again),
        *old(v) == *final(u),
        call_ensures(CommitTally::pushed, (v, pushing), ()),
    ensures
        push <==> first is Ok && and_push,
        push_again <==> second is Ok && and_push,
        first matches Err(e) ==> final(v).err == Some(e),
        first is Ok ==> (second matches Err(e) ==> final(v).err == Some(e)),
        first is Ok && second is Ok ==> (pushing matches Err(e) ==> final(v).err == Some(e)),
        first is Ok && second is Ok && pushing is Ok ==> final(v).err is None,
        first is Ok && second is Ok ==> final(v).ok == old(t).ok + 2,
        first is Err && second is Ok ==> final(v).ok == old(t).ok + 1,
        first is Err && second is Err ==> final(v).ok == old(t).ok,
{
}

/// What is told of a commit counts the repositories, or tells what went wrong.
pub proof fn law_a_commit_is_reported(
    g: &mut GitPanel,
    tally: CommitTally,
    and_push: bool,
    r: (bool, RefreshRequest),
)
    requires
        old(g).inv(),
        old(g).refresh_seq < u64::MAX,
        old(g).log_seq < u64::MAX,
        call_ensures(GitPanel::commit_done, (g, tally, and_push), r),
    ensures
        r.0 <==> tally.err is None,
        !final(g).busy,
        tally.err matches Some(e) ==> e@.is_suffix_of(final(g).status@),
        tally.err is None ==> exists|a: Seq<char>, n: Seq<char>, b: Seq<char>|
            final(g).status@ == #[trigger] (a + n + b) && n == text::dec(tally.ok as nat),
        r.1.refresh_seq > old(g).refresh_seq && r.1.log_seq > old(g).log_seq,
{
    match tally.err {
        Some(e) => {
            assert(final(g).status@.skip(final(g).status@.len() - e@.len()) =~= e@);
        },
        None => {
            let n = text::dec(tally.ok as nat);
            if and_push {
                assert(final(g).status@ == "已提交 "@ + n + " 个仓并推送 ✓"@);
            } else {
                assert(final(g).status@ == "已提交 "@ + n + " 个仓 ✓"@);
            }
        },
    }
}

/// The menu of a branch is about the branch that it was opened on, once.
pub proof fn law_the_menu_is_about_its_branch(
    g: &mut GitPanel,
    h: &mut GitPanel,
    again: &mut GitPanel,
    branch: String,
    r: Option<CheckoutRequest>,
    s: Option<CheckoutRequest>,
)
    requires
        call_ensures(GitPanel::set_context, (g, branch), ()),
        *old(h) == *final(g),
        call_ensures(GitPanel::checkout_context, (h,), r),
        *old(again) == *final(h),
        call_ensures(GitPanel::checkout_context, (again,), s),
    ensures
        r matches Some(q) ==> q.branch == branch && (old(g).active_repo < old(g).repos@.len()
            ==> q.cwd@ == old(g).repos@[old(g).active_repo as int].path@),
        r is Some <==> !old(g).busy && branch@ != old(g).branch@,
        s is None,
{
}

/// A project without repositories is taken for one itself; else the found ones are kept, and what is
/// read is one of them.
pub proof fn law_a_project_is_its_own_repository(
    found: Vec<GitRepo>,
    root: &str,
    r: Vec<GitRepo>,
    active: usize,
    p: String,
)
    requires
        call_ensures(repos_or_root, (found, root), r),
        call_ensures(repo_to_read, (&r, active, root), p),
    ensures
        r@.len() > 0,
        found@.len() > 0 ==> r@ == found@,
        found@.len() == 0 ==> r@.len() == 1 && r@[0].path@ == root@ && p@ == root@,
        active < r@.len() ==> p@ == r@[active as int].path@,
        exists|k: int| 0 <= k < r@.len() && (#[trigger] r@[k]).path@ == p@,
{
    if active < r@.len() {
        assert(r@[active as int].path@ == p@);
    } else {
        assert(r@[0].path@ == p@);
    }
}

/// The light look goes over every repository that is known, in their order.
pub proof fn law_the_light_look_goes_everywhere(g: &mut GitPanel, q: LightRequest, i: int)
    requires
        old(g).refresh_seq < u64::MAX,
        call_ensures(GitPanel::refresh_light, (g,), q),
        0 <= i < old(g).repos@.len(),
    ensures
        q.repo_paths@.len() == old(g).repos@.len(),
        q.repo_paths@[i]@ == old(g).repos@[i].path@,
        q.seq > old(g).refresh_seq && q.seq == final(g).refresh_seq,
        q.active_repo == old(g).active_repo,
        final(g).log_seq == old(g).log_seq && final(g).changes == old(g).changes,
{
    let paths = text::texts(q.repo_paths@);
    assert(paths.len() == q.repo_paths@.len());
    assert(paths[i] == q.repo_paths@[i]@);
    assert(old(g).known_paths()[i] == old(g).repos@[i].path@);
}

/// A change can be rolled back where one is selected that is still there, and where nothing else runs.
pub proof fn law_what_can_be_rolled_back(g: GitPanel, r: bool, i: int)
    requires
        call_ensures(GitPanel::can_rollback, (&g,), r),
        0 <= i < g.changes@.len(),
    ensures
        g.busy ==> !r,
        g.selected_change is None ==> !r,
        !g.busy && text::opt_text(g.selected_change) == Some(
            path::joined_path(g.changes@[i].repo@, g.changes@[i].path@),
        ) ==> r,
{
    if !g.busy && text::opt_text(g.selected_change) == Some(
        path::joined_path(g.changes@[i].repo@, g.changes@[i].path@),
    ) {
        let s = g.selected_change->0;
        assert(g.selected_change is Some);
        law_selection_stays_while_changed(s, g.changes@, i);
    }
}

/// Files in conflict are told with the folder of their repository before them, those of all
/// repositories one after the other.
pub proof fn law_conflicts_lie_in_their_repositories(
    before: Seq<RepoConflicts>,
    last: RepoConflicts,
    i: int,
)
    requires
        last.files matches Some(v) && 0 <= i < v@.len(),
    ensures
        ({
            let some = all_conflicts(before);
            let all = all_conflicts(before.push(last));
            &&& all.len() == some.len() + last.files->0@.len()
            &&& some.is_prefix_of(all)
            &&& all[some.len() + i] == path::joined_path(last.repo@, last.files->0@[i]@)
        }),
{
    assert(before.push(last).drop_last() =~= before);
    assert(before.push(last).last() == last);
    let some = all_conflicts(before);
    let all = all_conflicts(before.push(last));
    assert(all.take(some.len() as int) =~= some);
}

/// Rolling back and switching end with the name of what they were about, or with what went wrong, and
/// with a fresh look.
pub proof fn law_what_was_done_is_told(
    g: &mut GitPanel,
    h: &mut GitPanel,
    p: &str,
    branch: &str,
    rolled: Result<(), String>,
    switched: Result<(), String>,
    q: LightRequest,
    r: RefreshRequest,
)
    requires
        old(g).refresh_seq < u64::MAX,
        old(h).refresh_seq < u64::MAX,
        old(h).log_seq < u64::MAX,
        call_ensures(GitPanel::rollback_done, (g, p, rolled), q),
        call_ensures(GitPanel::checkout_done, (h, branch, switched), r),
    ensures
        !final(g).busy && !final(h).busy,
        rolled is Ok ==> p@.is_suffix_of(final(g).status@),
        rolled matches Err(e) ==> e@.is_suffix_of(final(g).status@),
        switched matches Err(e) ==> e@.is_suffix_of(final(h).status@),
        switched is Ok ==> exists|a: Seq<char>, b: Seq<char>|
            final(h).status@ == #[trigger] (a + branch@ + b),
        q.seq > old(g).refresh_seq && q.seq == final(g).refresh_seq,
        r.refresh_seq > old(h).refresh_seq && r.log_seq > old(h).log_seq,
        final(h).branch == old(h).branch,
{
    let s = final(g).status@;
    let t = final(h).status@;
    if rolled is Ok {
        assert(s.skip(s.len() - p@.len()) =~= p@);
    }
    if let Err(e) = rolled {
        assert(s.skip(s.len() - e@.len()) =~= e@);
    }
    if let Err(e) = switched {
        assert(t.skip(t.len() - e@.len()) =~= e@);
    }
    if switched is Ok {
        assert(t == "已切换到 "@ + branch@ + " ✓"@);
    }
}

} // verus!
