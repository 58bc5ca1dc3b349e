//! What the workbench does when files, editors and the language server change.
use vstd::prelude::*;

use crate::diagnostics;
use crate::diagnostics::DiagItem;
use crate::editing;
use crate::editing::{EditorChange, FileChange, ReloadTarget};
use crate::path;
use crate::tabs;
use crate::tabs::OpenTab;
use crate::text;
use crate::workbench::{LspPhase, Workbench};

verus! {

/// The phase once the Java server has reported progress: only its own word makes it ready, and then
/// it stays ready.
pub open spec fn phase_after(
    phase: LspPhase,
    kind: Seq<char>,
    percentage: Option<u64>,
) -> LspPhase {
    if kind == "serviceReady"@ {
        LspPhase::Ready
    } else if phase is Ready {
        phase
    } else {
        LspPhase::Indexing(
            match percentage {
                Some(p) => Some(
                    (if p < 100 {
                        p
                    } else {
                        100
                    }) as u8,
                ),
                None => None,
            },
        )
    }
}

/// The tabs to read again among the first `n`: those that are saved and whose files changed.
pub open spec fn reloaded(all: Seq<OpenTab>, changed: Seq<Seq<char>>, n: int) -> Seq<int>
    decreases n,
{
    if n <= 0 {
        Seq::empty()
    } else {
        let rest = reloaded(all, changed, n - 1);
        if !all[n - 1].dirty && changed.contains(all[n - 1].path@) {
            rest.push(n - 1)
        } else {
            rest
        }
    }
}

/// Whether `target` asks for tab `ix`.
pub open spec fn reloads(target: ReloadTarget, all: Seq<OpenTab>, ix: int, root: Seq<char>) -> bool {
    &&& target.ix == ix
    &&& target.path@ == all[ix].path@
    &&& target.is_java == editing::served(all[ix], root)
}

/// Whether tab `i` is the first with the path text `p`.
pub open spec fn first_with(all: Seq<OpenTab>, p: Seq<char>, i: int) -> bool {
    &&& 0 <= i < all.len()
    &&& all[i].path@ == p
    &&& forall|j: int| 0 <= j < i ==> (#[trigger] all[j]).path@ != p
}

/// Whether the file `p` has no tab any more, or was typed in after report `seq`.
pub open spec fn overtaken(all: Seq<OpenTab>, p: Seq<char>, seq: u64) -> bool {
    forall|ix: int| #[trigger] first_with(all, p, ix) ==> all[ix].lsp_change_seq != seq
}

/// Whether tab `i` has the number `id` and is known to the language server.
pub open spec fn reports(all: Seq<OpenTab>, root: Seq<char>, id: u64, i: int) -> bool {
    0 <= i < all.len() && all[i].id == id && editing::served(all[i], root)
}

/// Whether what is typed in the tab `id` is reported.
pub open spec fn is_reported(all: Seq<OpenTab>, root: Seq<char>, id: u64) -> bool {
    exists|i: int| #[trigger] reports(all, root, id, i)
}

impl Workbench {
    /// The language server of a language has reported progress. Whether that concerns the
    /// workbench.
    pub fn lsp_progress(&mut self, language: &str, kind: &str, percentage: Option<u64>) -> (r: bool)
        ensures
            r == (language@ == "java"@),
            !r ==> *final(self) == *old(self),
            r ==> *final(self) == (Self {
                lsp_phase: phase_after(old(self).lsp_phase, kind@, percentage),
                ..*old(self)
            }),
    {
        if !text::str_eq(language, "java") {
            return false;
        }
        if text::str_eq(kind, "serviceReady") {
            self.lsp_phase = LspPhase::Ready;
            return true;
        }
        match self.lsp_phase {
            LspPhase::Ready => {},
            _ => {
                let shown: Option<u8> = match percentage {
                    Some(p) => {
                        let capped: u64 = if p < 100 {
                            p
                        } else {
                            100
                        };
                        Some(capped as u8)
                    },
                    None => None,
                };
                self.lsp_phase = LspPhase::Indexing(shown);
            },
        }
        true
    }

    /// The tabs to read again when the files `changed` have changed.
    fn reload_targets(&self, changed: &Vec<String>) -> (r: Vec<ReloadTarget>)
        ensures
            r@.len() == reloaded(
                self.tabs.tabs@,
                text::texts(changed@),
                self.tabs.tabs@.len() as int,
            ).len(),
            forall|k: int|
                0 <= k < r@.len() ==> reloads(
                    #[trigger] r@[k],
                    self.tabs.tabs@,
                    reloaded(
                        self.tabs.tabs@,
                        text::texts(changed@),
                        self.tabs.tabs@.len() as int,
                    )[k],
                    self.project_root@,
                ),
    {
        let ghost all = self.tabs.tabs@;
        let ghost set = text::texts(changed@);
        let mut out: Vec<ReloadTarget> = Vec::new();
        let mut i: usize = 0;
        while i < self.tabs.tabs.len()
            invariant
                i <= self.tabs.tabs@.len(),
                all == self.tabs.tabs@,
                set == text::texts(changed@),
                out@.len() == reloaded(all, set, i as int).len(),
                forall|k: int|
                    0 <= k < out@.len() ==> reloads(
                        #[trigger] out@[k],
                        all,
                        reloaded(all, set, i as int)[k],
                        self.project_root@,
                    ),
            decreases self.tabs.tabs@.len() - i,
        {
            let t = &self.tabs.tabs[i];
            if !t.dirty && text::list_has(changed, t.path.as_str()) {
                let is_java = text::str_eq(t.lang, "java") && path::starts_with(
                    t.path.as_str(),
                    self.project_root.as_str(),
                );
                out.push(ReloadTarget { ix: i, path: t.path.clone(), is_java });
            }
            i += 1;
        }
        out
    }

    /// Files of a project have changed on disk, at time `now`; `structural` says that some came or
    /// went. Nothing is to be done where the project is not the open one.
    pub fn files_changed(
        &mut self,
        project: &str,
        structural: bool,
        changed: &Vec<String>,
        now: u64,
    ) -> (r: Option<FileChange>)
        requires
            old(self).inv(),
        ensures
            final(self).inv(),
            r is Some <==> path::same(project@, old(self).project_root@),
            r is None ==> *final(self) == *old(self),
            r matches Some(c) ==> {
                let all = old(self).tabs.tabs@;
                let which = reloaded(all, text::texts(changed@), all.len() as int);
                &&& *final(self) == (Self { last_op: final(self).last_op, ..*old(self) })
                &&& editing::is_op(
                    final(self).last_op,
                    if structural {
                        "文件变更·重建树+git"@
                    } else {
                        "文件变更·git刷新"@
                    },
                    now,
                )
                &&& c.structural == structural
                &&& c.reload@.len() == which.len()
                &&& forall|k: int|
                    0 <= k < c.reload@.len() ==> reloads(
                        #[trigger] c.reload@[k],
                        all,
                        which[k],
                        old(self).project_root@,
                    )
            },
    {
        if !path::eq(project, self.project_root.as_str()) {
            return None;
        }
        let label = if structural {
            "文件变更·重建树+git"
        } else {
            "文件变更·git刷新"
        };
        self.mark_op(label.to_owned(), now);
        let reload = self.reload_targets(changed);
        Some(FileChange { structural, reload })
    }

    /// The file of tab `ix` was read again and holds `disk`, while the editor shows `shown`: whether
    /// the editor takes it over, and then whether the cursor is put back. The tab may have changed
    /// since; what the user typed stays.
    pub fn reload_tab(&self, ix: usize, p: &str, disk: &str, shown: &str) -> (r: Option<bool>)
        ensures
            r is Some <==> ix < self.tabs.tabs@.len() && !self.tabs.tabs@[ix as int].dirty
                && self.tabs.tabs@[ix as int].path@ == p@ && disk@ != shown@,
            r matches Some(cursor) ==> cursor == (self.tabs.active == Some(ix)),
    {
        if ix >= self.tabs.tabs.len() {
            return None;
        }
        let t = &self.tabs.tabs[ix];
        if t.dirty || !text::str_eq(t.path.as_str(), p) || text::str_eq(disk, shown) {
            return None;
        }
        Some(
            match self.tabs.active {
                Some(a) => a == ix,
                None => false,
            },
        )
    }

    /// A change in the editor with number `id` waits to be reported to the language server: its file
    /// and the number under which it waits. Each tab counts for itself.
    pub fn schedule_did_change(&mut self, id: u64) -> (r: Option<(String, u64)>)
        requires
            old(self).inv(),
            forall|i: int|
                0 <= i < old(self).tabs.tabs@.len() ==> (#[trigger] old(
                    self,
                ).tabs.tabs@[i]).lsp_change_seq < u64::MAX,
        ensures
            final(self).inv(),
            r is None ==> *final(self) == *old(self) && forall|i: int|
                !#[trigger] reports(old(self).tabs.tabs@, old(self).project_root@, id, i),
            r matches Some(q) ==> exists|i: int|
                {
                    &&& #[trigger] reports(old(self).tabs.tabs@, old(self).project_root@, id, i)
                    &&& q.0@ == old(self).tabs.tabs@[i].path@
                    &&& q.1 == old(self).tabs.tabs@[i].lsp_change_seq + 1
                    &&& *final(self) == (Self { tabs: final(self).tabs, ..*old(self) })
                    &&& final(self).tabs.active == old(self).tabs.active
                    &&& final(self).tabs.next_id == old(self).tabs.next_id
                    &&& final(self).tabs.tabs@ == old(self).tabs.tabs@.update(
                        i,
                        OpenTab { lsp_change_seq: q.1, ..old(self).tabs.tabs@[i] },
                    )
                },
    {
        let ix = match self.tabs.position_of_id(id) {
            Some(ix) => ix,
            None => {
                return None;
            },
        };
        let t = &self.tabs.tabs[ix];
        let is_java = text::str_eq(t.lang, "java") && path::starts_with(
            t.path.as_str(),
            self.project_root.as_str(),
        );
        if !is_java {
            proof {
                let all = old(self).tabs.tabs@;
                assert forall|i: int| !#[trigger] reports(
                    all,
                    old(self).project_root@,
                    id,
                    i,
                ) by {
                    if 0 <= i < all.len() && all[i].id == id && i != ix {
                        assert(all[ix as int].id == id);
                    }
                }
            }
            return None;
        }
        let p = t.path.clone();
        let seq = t.lsp_change_seq + 1;
        self.tabs.tabs[ix].lsp_change_seq = seq;
        assert(reports(old(self).tabs.tabs@, old(self).project_root@, id, ix as int));
        Some((p, seq))
    }

    /// Whether the change of file `p` that waits under the number `seq` is still the last one, and
    /// then which tab holds it.
    pub fn did_change_due(&self, p: &str, seq: u64) -> (r: Option<usize>)
        ensures
            r matches Some(ix) ==> first_with(self.tabs.tabs@, p@, ix as int)
                && self.tabs.tabs@[ix as int].lsp_change_seq == seq,
            r is None ==> overtaken(self.tabs.tabs@, p@, seq),
    {
        let ghost all = self.tabs.tabs@;
        let mut i: usize = 0;
        while i < self.tabs.tabs.len()
            invariant
                i <= all.len(),
                all == self.tabs.tabs@,
                forall|j: int| 0 <= j < i ==> (#[trigger] all[j]).path@ != p@,
            decreases all.len() - i,
        {
            if text::str_eq(self.tabs.tabs[i].path.as_str(), p) {
                assert(first_with(all, p@, i as int));
                if self.tabs.tabs[i].lsp_change_seq == seq {
                    return Some(i);
                }
                proof {
                    assert forall|ix: int| #[trigger] first_with(all, p@, ix) implies ix == i by {
                        if i < ix {
                            assert(all[i as int].path@ != p@);
                        }
                    }
                }
                return None;
            }
            i += 1;
        }
        None
    }

    /// A change waits to be shown in the preview: the number under which it waits.
    pub fn schedule_md_refresh(&mut self) -> (seq: u64)
        requires
            old(self).md_seq < u64::MAX,
        ensures
            *final(self) == (Self { md_seq: (old(self).md_seq + 1) as u64, ..*old(self) }),
            seq == old(self).md_seq + 1,
    {
        self.md_seq = self.md_seq + 1;
        self.md_seq
    }

    /// Whether the change that waits under the number `seq` is to be shown now.
    pub fn md_refresh_due(&self, seq: u64) -> (r: bool)
        ensures
            r == (self.md_seq == seq && self.md_preview),
    {
        self.md_seq == seq && self.md_preview
    }

    /// The user has typed in the editor with number `id`.
    pub fn editor_changed(&mut self, id: u64) -> (c: EditorChange)
        requires
            old(self).inv(),
            old(self).md_seq < u64::MAX,
            forall|i: int|
                0 <= i < old(self).tabs.tabs@.len() ==> (#[trigger] old(
                    self,
                ).tabs.tabs@[i]).lsp_change_seq < u64::MAX,
        ensures
            final(self).inv(),
            *final(self) == (Self {
                tabs: final(self).tabs,
                md_seq: final(self).md_seq,
                ..*old(self)
            }),
            c.preview == (if old(self).md_preview {
                Some((old(self).md_seq + 1) as u64)
            } else {
                None
            }),
            final(self).md_seq == old(self).md_seq + if old(self).md_preview {
                1int
            } else {
                0int
            },
            final(self).tabs.active == old(self).tabs.active,
            final(self).tabs.next_id == old(self).tabs.next_id,
            final(self).tabs.tabs@.len() == old(self).tabs.tabs@.len(),
            c.newly_dirty <==> exists|i: int|
                0 <= i < old(self).tabs.tabs@.len() && (#[trigger] old(self).tabs.tabs@[i]).id == id
                    && !old(self).tabs.tabs@[i].dirty,
            c.report is Some <==> exists|i: int| #[trigger]
                reports(old(self).tabs.tabs@, old(self).project_root@, id, i),
            c.report is Some <==> is_reported(old(self).tabs.tabs@, old(self).project_root@, id),
            forall|i: int|
                0 <= i < old(self).tabs.tabs@.len() ==> #[trigger] final(self).tabs.tabs@[i] == (
                if old(self).tabs.tabs@[i].id != id {
                    old(self).tabs.tabs@[i]
                } else {
                    OpenTab {
                        dirty: true,
                        lsp_change_seq: match c.report {
                            Some(q) => q.1,
                            None => old(self).tabs.tabs@[i].lsp_change_seq,
                        },
                        ..old(self).tabs.tabs@[i]
                    }
                }),
            c.report matches Some(q) ==> forall|i: int| #[trigger]
                reports(old(self).tabs.tabs@, old(self).project_root@, id, i) ==> q.0@ == old(
                    self,
                ).tabs.tabs@[i].path@ && q.1 == old(self).tabs.tabs@[i].lsp_change_seq + 1,
    {
        let ghost all = self.tabs.tabs@;
        let ghost root = self.project_root@;
        let newly_dirty = self.tabs.mark_dirty(id);
        let preview = if self.md_preview {
            Some(self.schedule_md_refresh())
        } else {
            None
        };
        let ghost marked = self.tabs.tabs@;
        assert forall|i: int| #[trigger] reports(all, root, id, i) <==> reports(
            marked,
            root,
            id,
            i,
        ) by {
            if 0 <= i < all.len() {
                assert(marked[i].id == all[i].id && marked[i].lang == all[i].lang
                    && marked[i].path == all[i].path);
            }
        }
        let report = self.schedule_did_change(id);
        proof {
            if report is Some {
                let q = report->0;
                let k = choose|k: int|
                    #[trigger] reports(marked, root, id, k) && q.0@ == marked[k].path@ && q.1
                        == marked[k].lsp_change_seq + 1 && self.tabs.tabs@ == marked.update(
                        k,
                        OpenTab { lsp_change_seq: q.1, ..marked[k] },
                    );
                assert(reports(all, root, id, k));
                assert forall|i: int| 0 <= i < all.len() && all[i].id == id implies i == k by {
                    assert(all[k].id == id);
                }
                assert forall|i: int| 0 <= i < all.len() implies #[trigger] self.tabs.tabs@[i] == (
                if all[i].id != id {
                    all[i]
                } else {
                    OpenTab { dirty: true, lsp_change_seq: q.1, ..all[i] }
                }) by {
                    assert(marked[i].id == all[i].id);
                }
            } else {
                assert forall|i: int| !#[trigger] reports(all, root, id, i) by {
                    assert(!reports(marked, root, id, i));
                }
            }
        }
        EditorChange { newly_dirty, preview, report }
    }

    /// The diagnostics `items` of tab `ix` arrived at time `now`: whether they differ from those
    /// that it shows, as far as their signatures tell.
    pub fn apply_parsed(&mut self, ix: usize, items: &Vec<DiagItem>, now: u64) -> (fresh: bool)
        requires
            old(self).inv(),
            ix < old(self).tabs.tabs@.len(),
        ensures
            final(self).inv(),
            fresh == (old(self).tabs.tabs@[ix as int].diag_sig != diagnostics::signature_of(
                diagnostics::views(items@),
            )),
            !fresh ==> *final(self) == *old(self),
            fresh ==> {
                &&& *final(self) == (Self {
                    tabs: final(self).tabs,
                    last_op: final(self).last_op,
                    ..*old(self)
                })
                &&& final(self).tabs.active == old(self).tabs.active
                &&& final(self).tabs.next_id == old(self).tabs.next_id
                &&& final(self).tabs.tabs@ == old(self).tabs.tabs@.update(
                    ix as int,
                    OpenTab {
                        diag_sig: diagnostics::signature_of(diagnostics::views(items@)),
                        ..old(self).tabs.tabs@[ix as int]
                    },
                )
                &&& editing::is_op(
                    final(self).last_op,
                    "LSP诊断 "@ + old(self).tabs.tabs@[ix as int].title@,
                    now,
                )
            },
    {
        let sig = diagnostics::signature(items);
        if self.tabs.tabs[ix].diag_sig == sig {
            return false;
        }
        self.tabs.tabs[ix].diag_sig = sig;
        let label = text::cat2("LSP诊断 ", self.tabs.tabs[ix].title.as_str());
        self.mark_op(label, now);
        true
    }

    /// The message `raw` about the file `p` was published at time `now`: the tab and the
    /// diagnostics to show there. Nothing is to be done where the file is not open, the message
    /// cannot be read, or it repeats the last one.
    pub fn apply_diagnostics(&mut self, raw: &str, p: &str, now: u64) -> (r: Option<
        (usize, Vec<DiagItem>),
    >)
        requires
            old(self).inv(),
            diagnostics::readable(raw@),
        ensures
            final(self).inv(),
            r is None ==> *final(self) == *old(self),
            r is Some ==> tabs::shows(old(self).tabs.tabs@, p@) && diagnostics::published(
                raw@,
            ) is Some,
            r matches Some(x) ==> {
                let sig = diagnostics::signature_of(diagnostics::published(raw@)->0);
                let t = old(self).tabs.tabs@[x.0 as int];
                &&& tabs::shows_at(old(self).tabs.tabs@, p@, x.0 as int)
                &&& diagnostics::views(x.1@) == diagnostics::published(raw@)->0
                &&& t.diag_sig != sig
                &&& *final(self) == (Self {
                    tabs: final(self).tabs,
                    last_op: final(self).last_op,
                    ..*old(self)
                })
                &&& final(self).tabs.active == old(self).tabs.active
                &&& final(self).tabs.next_id == old(self).tabs.next_id
                &&& final(self).tabs.tabs@ == old(self).tabs.tabs@.update(
                    x.0 as int,
                    OpenTab { diag_sig: sig, ..t },
                )
                &&& editing::is_op(final(self).last_op, "LSP诊断 "@ + t.title@, now)
            },
            (r is None && diagnostics::published(raw@) is Some) ==> forall|i: int| #[trigger]
                tabs::shows_at(old(self).tabs.tabs@, p@, i) ==> old(
                    self,
                ).tabs.tabs@[i].diag_sig == diagnostics::signature_of(
                    diagnostics::published(raw@)->0,
                ),
    {
        let ix = match self.tabs.position(p) {
            Some(ix) => ix,
            None => {
                assert forall|i: int| !#[trigger] tabs::shows_at(self.tabs.tabs@, p@, i) by {}
                return None;
            },
        };
        let items = match diagnostics::read_published(raw) {
            Some(items) => items,
            None => {
                return None;
            },
        };
        proof {
            let all = self.tabs.tabs@;
            assert forall|i: int| #[trigger] tabs::shows_at(all, p@, i) implies i == ix by {
                if i != ix {
                    assert(path::same(all[ix as int].path@, all[i].path@));
                    assert(path::same(all[i].path@, all[ix as int].path@));
                }
            }
        }
        if self.apply_parsed(ix, &items, now) {
            Some((ix, items))
        } else {
            None
        }
    }
}

/// Once the server is ready, no later progress takes that back.
pub proof fn law_ready_stays_ready(kind: Seq<char>, percentage: Option<u64>)
    ensures
        phase_after(LspPhase::Ready, kind, percentage) is Ready,
{
}

/// Tabs with unsaved changes are never read again from disk.
pub proof fn law_unsaved_changes_are_never_reloaded(
    all: Seq<OpenTab>,
    changed: Seq<Seq<char>>,
    n: int,
)
    requires
        n <= all.len(),
    ensures
        forall|k: int|
            0 <= k < reloaded(all, changed, n).len() ==> {
                let ix = #[trigger] reloaded(all, changed, n)[k];
                &&& 0 <= ix < n
                &&& !all[ix].dirty
                &&& changed.contains(all[ix].path@)
            },
    decreases n,
{
    if n > 0 {
        law_unsaved_changes_are_never_reloaded(all, changed, n - 1);
        let rest = reloaded(all, changed, n - 1);
        assert forall|k: int| 0 <= k < reloaded(all, changed, n).len() implies {
            let ix = #[trigger] reloaded(all, changed, n)[k];
            &&& 0 <= ix < n
            &&& !all[ix].dirty
            &&& changed.contains(all[ix].path@)
        } by {
            if k < rest.len() {
                assert(reloaded(all, changed, n)[k] == rest[k]);
            }
        }
    }
}

/// Typing in one tab leaves the changes that wait in other tabs waiting.
pub proof fn law_typing_elsewhere_keeps_changes_waiting(
    all: Seq<OpenTab>,
    i: int,
    seq: u64,
    p: Seq<char>,
    j: int,
)
    requires
        0 <= i < all.len(),
        i != j,
        first_with(all, p, j),
    ensures
        ({
            let typed = all.update(i, OpenTab { lsp_change_seq: seq, ..all[i] });
            first_with(typed, p, j) && typed[j].lsp_change_seq == all[j].lsp_change_seq
        }),
{
    let typed = all.update(i, OpenTab { lsp_change_seq: seq, ..all[i] });
    assert forall|k: int| 0 <= k < j implies (#[trigger] typed[k]).path@ != p by {
        assert(typed[k].path@ == all[k].path@);
    }
}

/// When files change, every open tab that shows one of them and has no unsaved changes is read again,
/// and no other; what changes in another project is not followed.
pub proof fn law_changed_files_are_read_again(
    w: &mut Workbench,
    project: &str,
    structural: bool,
    changed: Vec<String>,
    now: u64,
    r: Option<FileChange>,
    i: int,
)
    requires
        old(w).inv(),
        call_ensures(Workbench::files_changed, (w, project, structural, &changed, now), r),
        0 <= i < old(w).tabs.tabs@.len(),
    ensures
        r is Some <==> path::same(project@, old(w).project_root@),
        r matches Some(c) ==> {
            &&& c.structural == structural
            &&& (exists|k: int| 0 <= k < c.reload@.len() && (#[trigger] c.reload@[k]).ix == i)
                <==> !old(w).tabs.tabs@[i].dirty && exists|j: int|
                0 <= j < changed@.len() && (#[trigger] changed@[j])@ == old(w).tabs.tabs@[i].path@
        },
        final(w).tabs == old(w).tabs,
{
    if let Some(c) = r {
        let all = old(w).tabs.tabs@;
        let paths = text::texts(changed@);
        let which = reloaded(all, paths, all.len() as int);
        law_unsaved_changes_are_never_reloaded(all, paths, all.len() as int);
        if !all[i].dirty && paths.contains(all[i].path@) {
            lemma_all_reloaded(all, paths, all.len() as int, i);
        }
        if paths.contains(all[i].path@) {
            let j = paths.index_of(all[i].path@);
            assert(changed@[j]@ == all[i].path@);
        }
        if exists|j: int| 0 <= j < changed@.len() && (#[trigger] changed@[j])@ == all[i].path@ {
            let j = choose|j: int| 0 <= j < changed@.len() && (#[trigger] changed@[j])@ == all[i].path@;
            assert(paths[j] == all[i].path@);
        }
        if which.contains(i) {
            let k = which.index_of(i);
            assert(reloads(c.reload@[k], all, which[k], old(w).project_root@));
        }
        if exists|k: int| 0 <= k < c.reload@.len() && (#[trigger] c.reload@[k]).ix == i {
            let k = choose|k: int| 0 <= k < c.reload@.len() && (#[trigger] c.reload@[k]).ix == i;
            assert(reloads(c.reload@[k], all, which[k], old(w).project_root@));
            assert(which[k] == i);
        }
    }
}

proof fn lemma_all_reloaded(all: Seq<OpenTab>, changed: Seq<Seq<char>>, n: int, i: int)
    requires
        0 <= i < n <= all.len(),
        !all[i].dirty,
        changed.contains(all[i].path@),
    ensures
        reloaded(all, changed, n).contains(i),
    decreases n,
{
    let rest = reloaded(all, changed, n - 1);
    let which = reloaded(all, changed, n);
    if i < n - 1 {
        lemma_all_reloaded(all, changed, n - 1, i);
        let k = rest.index_of(i);
        assert(which[k] == i);
    } else {
        assert(which[which.len() - 1] == i);
    }
}

/// A tab that is being edited, that shows another file or that shows what is on disk is not read again.
pub proof fn law_edits_are_not_overwritten(w: Workbench, ix: usize, p: &str, disk: &str, shown: &str, r: Option<bool>)
    requires
        call_ensures(Workbench::reload_tab, (&w, ix, p, disk, shown), r),
        ix < w.tabs.tabs@.len(),
    ensures
        w.tabs.tabs@[ix as int].dirty ==> r is None,
        w.tabs.tabs@[ix as int].path@ != p@ ==> r is None,
        disk@ == shown@ ==> r is None,
        !w.tabs.tabs@[ix as int].dirty && w.tabs.tabs@[ix as int].path@ == p@ && disk@ != shown@
            ==> r is Some,
        r matches Some(cursor) ==> (cursor <==> w.tabs.active == Some(ix)),
{
}

/// The server of Java files is ready once it says so; until then it indexes, with its percentage up to
/// 100. Other servers are not shown.
pub proof fn law_the_server_reports_its_state(
    w: &mut Workbench,
    language: &str,
    kind: &str,
    percentage: Option<u64>,
    r: bool,
)
    requires
        call_ensures(Workbench::lsp_progress, (w, language, kind, percentage), r),
    ensures
        language@ != "java"@ ==> *final(w) == *old(w),
        language@ == "java"@ && kind@ == "serviceReady"@ ==> final(w).lsp_phase is Ready,
        language@ == "java"@ && kind@ != "serviceReady"@ && !(old(w).lsp_phase is Ready) ==> (
        percentage matches Some(p) ==> p <= 100 ==> final(w).lsp_phase == LspPhase::Indexing(
            Some(p as u8),
        )),
        language@ == "java"@ && kind@ != "serviceReady"@ && !(old(w).lsp_phase is Ready)
            && percentage is None ==> final(w).lsp_phase == LspPhase::Indexing(None),
        final(w).tabs == old(w).tabs,
{
}

/// Typing marks the tab that is typed in as changed, and no other.
pub proof fn law_typing_marks_one_tab(w: &mut Workbench, id: u64, c: EditorChange, i: int)
    requires
        old(w).inv(),
        old(w).md_seq < u64::MAX,
        forall|k: int|
            0 <= k < old(w).tabs.tabs@.len() ==> (#[trigger] old(w).tabs.tabs@[k]).lsp_change_seq
                < u64::MAX,
        call_ensures(Workbench::editor_changed, (w, id), c),
        0 <= i < old(w).tabs.tabs@.len(),
    ensures
        old(w).tabs.tabs@[i].id == id ==> final(w).tabs.tabs@[i].dirty,
        old(w).tabs.tabs@[i].id != id ==> final(w).tabs.tabs@[i] == old(w).tabs.tabs@[i],
        final(w).tabs.tabs@[i].path == old(w).tabs.tabs@[i].path,
        c.preview is Some <==> old(w).md_preview,
        final(w).tabs.active == old(w).tabs.active,
{
}

/// A report of changes waits: only the last one for a file is sent, and typing in between makes the
/// earlier ones late.
pub proof fn law_only_the_last_report_is_sent(
    w: &mut Workbench,
    id: u64,
    c: EditorChange,
    v: Workbench,
    p: &str,
    seq: u64,
    r: Option<usize>,
    i: int,
)
    requires
        old(w).inv(),
        old(w).md_seq < u64::MAX,
        forall|k: int|
            0 <= k < old(w).tabs.tabs@.len() ==> (#[trigger] old(w).tabs.tabs@[k]).lsp_change_seq
                < u64::MAX,
        call_ensures(Workbench::editor_changed, (w, id), c),
        0 <= i < old(w).tabs.tabs@.len(),
        old(w).tabs.tabs@[i].id == id,
        c.report is Some,
        v == *final(w),
        p@ == old(w).tabs.tabs@[i].path@,
        call_ensures(Workbench::did_change_due, (&v, p, seq), r),
    ensures
        r is Some <==> seq == (c.report->0).1,
        (c.report->0).1 > old(w).tabs.tabs@[i].lsp_change_seq,
        (c.report->0).0@ == old(w).tabs.tabs@[i].path@,
        r matches Some(ix) ==> ix == i,
{
    let all = final(w).tabs.tabs@;
    let p = p@;
    let j = choose|j: int| #[trigger] reports(old(w).tabs.tabs@, old(w).project_root@, id, j);
    assert(reports(old(w).tabs.tabs@, old(w).project_root@, id, j));
    if j < i {
        assert(old(w).tabs.tabs@[j].id != old(w).tabs.tabs@[i].id);
    } else if i < j {
        assert(old(w).tabs.tabs@[i].id != old(w).tabs.tabs@[j].id);
    }
    assert(j == i);
    assert(all[i].path@ == p);
    assert forall|k: int| 0 <= k < all.len() && k != i implies (#[trigger] all[k]).path@ != p by {
        if k < i {
            assert(!path::same(all[k].path@, all[i].path@));
        } else {
            assert(!path::same(all[i].path@, all[k].path@));
        }
    }
    assert(first_with(v.tabs.tabs@, p, i));
    assert(v.tabs.tabs@[i].lsp_change_seq == (c.report->0).1);
    if let Some(ix) = r {
        assert(all[ix as int].path@ == p);
    } else {
        assert(overtaken(v.tabs.tabs@, p, seq));
    }
}

/// The Java server is told of what is typed in the Java files of the open project, and read again are
/// those for it alone.
pub proof fn law_the_server_follows_java_files(
    w: &mut Workbench,
    id: u64,
    c: EditorChange,
    i: int,
)
    requires
        old(w).inv(),
        old(w).md_seq < u64::MAX,
        forall|k: int|
            0 <= k < old(w).tabs.tabs@.len() ==> (#[trigger] old(w).tabs.tabs@[k]).lsp_change_seq
                < u64::MAX,
        call_ensures(Workbench::editor_changed, (w, id), c),
        0 <= i < old(w).tabs.tabs@.len(),
        old(w).tabs.tabs@[i].id == id,
    ensures
        c.report is Some <==> old(w).tabs.tabs@[i].lang@ == "java"@ && path::within(
            old(w).tabs.tabs@[i].path@,
            old(w).project_root@,
        ),
        c.newly_dirty <==> !old(w).tabs.tabs@[i].dirty,
{
    let all = old(w).tabs.tabs@;
    let root = old(w).project_root@;
    assert forall|j: int| 0 <= j < all.len() && #[trigger] all[j].id == id implies j == i by {
        if j < i {
            assert(all[j].id != all[i].id);
        } else if i < j {
            assert(all[i].id != all[j].id);
        }
    }
    assert(editing::served(all[i], root) <==> all[i].lang@ == "java"@ && path::within(
        all[i].path@,
        root,
    ));
    if editing::served(all[i], root) {
        assert(reports(all, root, id, i));
        assert(is_reported(all, root, id));
    }
    if c.report is Some {
        assert(is_reported(all, root, id));
        let j = choose|j: int| #[trigger] reports(all, root, id, j);
        assert(reports(all, root, id, j));
        assert(all[j].id == id);
        assert(j == i);
        assert(editing::served(all[i], root));
    }
}

/// The same problems a second time are no news, and they are those of one tab.
pub proof fn law_the_same_problems_are_no_news(
    w: &mut Workbench,
    v: &mut Workbench,
    ix: usize,
    items: Vec<DiagItem>,
    now: u64,
    first: bool,
    second: bool,
    j: int,
)
    requires
        old(w).inv(),
        ix < old(w).tabs.tabs@.len(),
        call_ensures(Workbench::apply_parsed, (w, ix, &items, now), first),
        *old(v) == *final(w),
        call_ensures(Workbench::apply_parsed, (v, ix, &items, now), second),
        0 <= j < old(w).tabs.tabs@.len(),
        j != ix,
    ensures
        !second,
        *final(v) == *final(w),
        final(w).tabs.tabs@[j] == old(w).tabs.tabs@[j],
        final(w).tabs.tabs@[ix as int].dirty == old(w).tabs.tabs@[ix as int].dirty,
{
}

/// The preview is drawn anew after the last change alone, and only while it is shown.
pub proof fn law_the_preview_is_drawn_once(
    w: &mut Workbench,
    v: &mut Workbench,
    first: u64,
    second: u64,
    early: bool,
    late: bool,
)
    requires
        old(w).md_seq < u64::MAX - 1,
        call_ensures(Workbench::schedule_md_refresh, (w,), first),
        *old(v) == *final(w),
        call_ensures(Workbench::schedule_md_refresh, (v,), second),
        call_ensures(Workbench::md_refresh_due, (&*final(v), first), early),
        call_ensures(Workbench::md_refresh_due, (&*final(v), second), late),
    ensures
        !early,
        late <==> old(w).md_preview,
        first != second,
{
}

} // verus!
