//! The open projects and which of them is in front.
use vstd::prelude::*;

use crate::session;
use crate::session::{PersistedSession, ProjectModel, ProjectSession, SessionModel};
use crate::text;

verus! {

/// Format version of a stored session.
pub const SESSION_VERSION: u32 = 1;

/// The open projects.
pub struct ProjectList {
    pub projects: Vec<ProjectSession>,
    pub active: usize,
}

/// Whether project `i` is the first one at `p`.
pub open spec fn first_at(projects: Seq<ProjectModel>, p: Seq<char>, i: int) -> bool {
    &&& 0 <= i < projects.len()
    &&& projects[i].path == p
    &&& forall|j: int| 0 <= j < i ==> (#[trigger] projects[j]).path != p
}

/// Whether some project is at `p`.
pub open spec fn lists(projects: Seq<ProjectModel>, p: Seq<char>) -> bool {
    exists|i: int| first_at(projects, p, i)
}

/// Where the project at `p` stands, or where it goes when it is added.
pub open spec fn place_of(projects: Seq<ProjectModel>, p: Seq<char>) -> int {
    if lists(projects, p) {
        choose|i: int| first_at(projects, p, i)
    } else {
        projects.len() as int
    }
}

/// The projects once the state `slot` of one of them is noted: in its place, or at the end.
pub open spec fn noted(projects: Seq<ProjectModel>, slot: ProjectModel) -> Seq<ProjectModel> {
    if lists(projects, slot.path) {
        projects.update(place_of(projects, slot.path), slot)
    } else {
        projects.push(slot)
    }
}

/// Which project is in front once project `ix` is closed and `left` projects remain.
pub open spec fn after_closing(active: int, ix: int, left: int) -> int {
    if ix == active {
        if ix < left {
            ix
        } else {
            left - 1
        }
    } else if active > ix {
        active - 1
    } else {
        active
    }
}

/// Which project of a stored session is in front: an index that is too large stands for the last.
pub open spec fn front_index(s: SessionModel) -> int {
    if s.active_project_index < s.projects.len() {
        s.active_project_index as int
    } else {
        s.projects.len() - 1
    }
}

/// The project of a stored session that was in front: its path, where the session holds any.
pub fn front_path(sess: &PersistedSession) -> (r: Option<String>)
    ensures
        r is Some <==> sess@.projects.len() > 0,
        r matches Some(p) ==> p@ == sess@.projects[front_index(sess@)].path,
{
    let n = sess.projects.len();
    assert(sess@.projects.len() == n);
    if n == 0 {
        return None;
    }
    let ix: usize = if sess.active_project_index < n {
        sess.active_project_index
    } else {
        n - 1
    };
    assert(sess@.projects[ix as int] == sess.projects@[ix as int]@);
    Some(sess.projects[ix].path.clone())
}

proof fn lemma_place(projects: Seq<ProjectModel>, p: Seq<char>, i: int)
    requires
        first_at(projects, p, i),
    ensures
        lists(projects, p),
        place_of(projects, p) == i,
{
    let k = choose|k: int| first_at(projects, p, k);
    assert(k == i) by {
        if k < i {
            assert(projects[k].path != p);
        }
        if i < k {
            assert(projects[i].path != p);
        }
    }
}

impl ProjectList {
    /// The project in front is one of the list, unless that is empty.
    pub open spec fn inv(self) -> bool {
        self.active < self.projects@.len() || (self.projects@.len() == 0 && self.active == 0)
    }

    /// The models of the projects.
    pub open spec fn models(self) -> Seq<ProjectModel> {
        session::models(self.projects@)
    }

    /// What is stored of the projects.
    pub open spec fn stored_model(self) -> SessionModel {
        SessionModel {
            version: SESSION_VERSION,
            projects: self.models(),
            active_project_index: self.active,
        }
    }

    /// No projects.
    pub fn new() -> (l: Self)
        ensures
            l.inv(),
            l.projects@.len() == 0,
            l.active == 0,
            l.models() == Seq::<ProjectModel>::empty(),
    {
        let l = ProjectList { projects: Vec::new(), active: 0 };
        assert(l.models() =~= Seq::<ProjectModel>::empty());
        l
    }

    /// Where the project at `p` stands.
    pub fn position(&self, p: &str) -> (r: Option<usize>)
        ensures
            r matches Some(i) ==> first_at(self.models(), p@, i as int) && i == place_of(
                self.models(),
                p@,
            ),
            r is Some <==> lists(self.models(), p@),
            r is None ==> forall|j: int|
                0 <= j < self.models().len() ==> (#[trigger] self.models()[j]).path != p@,
    {
        let ghost m = self.models();
        let mut i: usize = 0;
        while i < self.projects.len()
            invariant
                i <= self.projects@.len(),
                m == self.models(),
                forall|j: int| 0 <= j < i ==> (#[trigger] m[j]).path != p@,
            decreases self.projects@.len() - i,
        {
            assert(m[i as int].path == self.projects@[i as int].path@);
            if text::str_eq(self.projects[i].path.as_str(), p) {
                proof {
                    lemma_place(m, p@, i as int);
                }
                return Some(i);
            }
            i += 1;
        }
        None
    }

    /// What is stored of the projects.
    pub fn stored(&self) -> (s: PersistedSession)
        ensures
            s@ == self.stored_model(),
    {
        PersistedSession {
            version: SESSION_VERSION,
            projects: session::copy_projects(&self.projects),
            active_project_index: self.active,
        }
    }

    /// Notes the state of one project, brings it to the front, and gives what is to be stored. No
    /// other project is lost.
    pub fn persist(&mut self, slot: ProjectSession) -> (s: PersistedSession)
        requires
            old(self).inv(),
        ensures
            final(self).inv(),
            final(self).models() == noted(old(self).models(), slot@),
            final(self).active == place_of(old(self).models(), slot@.path),
            final(self).projects@.len() > 0,
            s@ == final(self).stored_model(),
    {
        let ghost before = self.models();
        let ghost m = slot@;
        match self.position(slot.path.as_str()) {
            Some(ix) => {
                self.projects.set(ix, slot);
                self.active = ix;
                assert(self.models() =~= before.update(ix as int, m));
            },
            None => {
                self.projects.push(slot);
                self.active = self.projects.len() - 1;
                assert(self.models() =~= before.push(m));
            },
        }
        self.stored()
    }

    /// The projects of a stored session, and the one that was in front; nothing where the session
    /// holds no project.
    pub fn restore(sess: PersistedSession) -> (r: Option<(Self, ProjectSession)>)
        ensures
            r is Some <==> sess@.projects.len() > 0,
            r matches Some(p) ==> {
                &&& p.0.inv()
                &&& p.0.models() == sess@.projects
                &&& p.0.active == front_index(sess@)
                &&& p.1@ == sess@.projects[front_index(sess@)]
            },
    {
        let n = sess.projects.len();
        assert(sess@.projects.len() == n);
        if n == 0 {
            return None;
        }
        let ix: usize = if sess.active_project_index < n {
            sess.active_project_index
        } else {
            n - 1
        };
        let project = sess.projects[ix].clone();
        assert(sess@.projects[ix as int] == sess.projects@[ix as int]@);
        Some((ProjectList { projects: sess.projects, active: ix }, project))
    }

    /// Brings project `ix` to the front and gives its state.
    pub fn select(&mut self, ix: usize) -> (r: ProjectSession)
        requires
            ix < old(self).projects@.len(),
        ensures
            final(self).inv(),
            *final(self) == (Self { active: ix, ..*old(self) }),
            r@ == old(self).models()[ix as int],
    {
        self.active = ix;
        assert(self.models()[ix as int] == self.projects@[ix as int]@);
        self.projects[ix].clone()
    }

    /// Closes project `ix`, unless it is the only one. The project in front stays there; where it
    /// is the one that goes, its neighbour comes to the front and its state is given.
    pub fn close(&mut self, ix: usize) -> (r: Option<Option<ProjectSession>>)
        requires
            old(self).inv(),
        ensures
            final(self).inv(),
            r is Some <==> ix < old(self).projects@.len() && old(self).projects@.len() > 1,
            r is None ==> *final(self) == *old(self),
            r matches Some(next) ==> {
                &&& final(self).models() == old(self).models().remove(ix as int)
                &&& final(self).active == after_closing(
                    old(self).active as int,
                    ix as int,
                    old(self).projects@.len() - 1,
                )
                &&& next is Some <==> ix == old(self).active
                &&& next matches Some(p) ==> p@ == final(self).models()[final(self).active as int]
            },
    {
        if ix >= self.projects.len() || self.projects.len() <= 1 {
            return None;
        }
        let ghost before = self.models();
        let closing_active = ix == self.active;
        let _ = self.projects.remove(ix);
        assert(self.models() =~= before.remove(ix as int));
        if self.active > ix {
            self.active = self.active - 1;
        }
        if closing_active {
            let left = self.projects.len();
            let next: usize = if ix < left {
                ix
            } else {
                left - 1
            };
            Some(Some(self.select(next)))
        } else {
            Some(None)
        }
    }

    /// Adds an empty project at `p` and brings it to the front.
    pub fn append(&mut self, p: String)
        requires
            old(self).inv(),
        ensures
            final(self).inv(),
            final(self).models() == old(self).models().push(
                (ProjectModel {
                    path: p@,
                    open_files: Seq::<Seq<char>>::empty(),
                    active_file: None,
                }),
            ),
            final(self).active == old(self).projects@.len(),
    {
        let ghost before = self.models();
        let ghost path = p@;
        self.projects.push(
            ProjectSession { path: p, open_files: Vec::new(), active_file: None },
        );
        self.active = self.projects.len() - 1;
        proof {
            let m = ProjectModel {
                path,
                open_files: Seq::<Seq<char>>::empty(),
                active_file: None,
            };
            assert(self.projects@.last()@.open_files =~= m.open_files);
            assert(self.models() =~= before.push(m));
        }
    }
}

/// Noting the state of one project changes no other: each keeps its place and its state.
pub proof fn law_noting_keeps_the_other_projects(projects: Seq<ProjectModel>, slot: ProjectModel)
    ensures
        noted(projects, slot).len() >= projects.len(),
        noted(projects, slot)[place_of(projects, slot.path)] == slot,
        forall|i: int|
            0 <= i < projects.len() && i != place_of(projects, slot.path) ==> #[trigger] noted(
                projects,
                slot,
            )[i] == projects[i],
{
    if lists(projects, slot.path) {
        let k = choose|k: int| first_at(projects, slot.path, k);
        lemma_place(projects, slot.path, k);
    }
}

/// Of two states of one project that are noted one after the other, the later one counts.
pub proof fn law_the_later_state_counts(
    projects: Seq<ProjectModel>,
    first: ProjectModel,
    slot: ProjectModel,
)
    requires
        first.path == slot.path,
    ensures
        noted(noted(projects, first), slot) == noted(projects, slot),
        place_of(noted(projects, first), slot.path) == place_of(projects, slot.path),
{
    law_noting_keeps_the_other_projects(projects, first);
    let once = noted(projects, first);
    let k = place_of(projects, slot.path);
    if lists(projects, slot.path) {
        let c = choose|c: int| first_at(projects, slot.path, c);
        lemma_place(projects, slot.path, c);
    }
    assert(first_at(once, slot.path, k)) by {
        assert forall|j: int| 0 <= j < k implies (#[trigger] once[j]).path != slot.path by {
            assert(once[j] == projects[j]);
            if !lists(projects, slot.path) && projects[j].path == slot.path {
                lemma_first_exists(projects, slot.path, j);
            }
        }
    }
    lemma_place(once, slot.path, k);
    assert(once.update(k, slot) =~= noted(projects, slot));
}

proof fn lemma_first_exists(projects: Seq<ProjectModel>, p: Seq<char>, j: int)
    requires
        0 <= j < projects.len(),
        projects[j].path == p,
    ensures
        lists(projects, p),
    decreases j,
{
    if exists|i: int| 0 <= i < j && (#[trigger] projects[i]).path == p {
        let i = choose|i: int| 0 <= i < j && (#[trigger] projects[i]).path == p;
        lemma_first_exists(projects, p, i);
    } else {
        assert(first_at(projects, p, j));
    }
}

/// Closing a project that is not in front leaves the project in front there.
pub proof fn law_closing_another_project_keeps_the_front(
    projects: Seq<ProjectModel>,
    active: int,
    ix: int,
)
    requires
        0 <= active < projects.len(),
        0 <= ix < projects.len(),
        ix != active,
    ensures
        projects.remove(ix)[after_closing(active, ix, projects.len() - 1)] == projects[active],
{
}

/// What was stored is restored: the same projects with the same one in front.
pub proof fn law_a_stored_session_is_restored(list: ProjectList)
    requires
        list.inv(),
        list.projects@.len() > 0,
    ensures
        list.stored_model().projects == list.models(),
        front_index(list.stored_model()) == list.active,
{
}

/// The session opens with the project that was in front; where it is not there any more, with the last
/// one.
pub proof fn law_the_front_project_is_opened(sess: PersistedSession, r: Option<String>, i: int)
    requires
        call_ensures(front_path, (&sess,), r),
        0 <= i < sess.projects@.len(),
    ensures
        r is Some,
        i == sess.active_project_index ==> r->0@ == sess.projects@[i].path@,
        sess.active_project_index >= sess.projects@.len() && i == sess.projects@.len() - 1 ==> r->0@
            == sess.projects@[i].path@,
{
    assert(sess@.projects.len() == sess.projects@.len());
    assert(sess@.projects[i] == sess.projects@[i]@);
    assert(sess@.projects[front_index(sess@)] == sess.projects@[front_index(sess@)]@);
}

/// Noting a project brings it to the front, and a new one comes after the others.
pub proof fn law_the_noted_project_is_in_front(l: &mut ProjectList, slot: ProjectSession, s: PersistedSession)
    requires
        old(l).inv(),
        call_ensures(ProjectList::persist, (l, slot), s),
    ensures
        final(l).active < final(l).projects@.len(),
        final(l).projects@[final(l).active as int].path@ == slot.path@,
        text::texts(final(l).projects@[final(l).active as int].open_files@) == text::texts(
            slot.open_files@,
        ),
        final(l).projects@.len() <= old(l).projects@.len() + 1,
        s.active_project_index == final(l).active,
        s.projects@.len() == final(l).projects@.len(),
{
    let before = old(l).models();
    law_noting_keeps_the_other_projects(before, slot@);
    let at = place_of(before, slot@.path);
    assert(final(l).models()[at] == slot@);
    assert(final(l).models().len() == final(l).projects@.len());
    if lists(before, slot@.path) {
        assert(first_at(before, slot@.path, at));
    }
    assert(final(l).models()[at] == final(l).projects@[at]@);
    assert(s@.projects.len() == s.projects@.len());
    assert(before.len() == old(l).projects@.len());
}

/// A project that is appended comes last and to the front; closing brings the list back.
pub proof fn law_appending_and_closing(l: &mut ProjectList, m: &mut ProjectList, p: String, ix: usize, r: Option<Option<ProjectSession>>, i: int)
    requires
        old(l).inv(),
        old(l).projects@.len() > 0,
        call_ensures(ProjectList::append, (l, p), ()),
        *old(m) == *final(l),
        ix == old(l).projects@.len(),
        call_ensures(ProjectList::close, (m, ix), r),
        0 <= i < old(l).projects@.len(),
    ensures
        final(l).active == old(l).projects@.len(),
        final(l).projects@.len() == old(l).projects@.len() + 1,
        final(l).projects@[ix as int].path@ == p@,
        final(l).projects@[i].path@ == old(l).projects@[i].path@,
        r is Some && r->0 is Some,
        final(m).projects@.len() == old(l).projects@.len(),
        final(m).projects@[i].path@ == old(l).projects@[i].path@,
        final(m).active == old(l).projects@.len() - 1,
{
    assert(final(l).models().len() == final(l).projects@.len());
    assert(old(l).models().len() == old(l).projects@.len());
    assert(final(m).models().len() == final(m).projects@.len());
    assert(final(l).models()[ix as int] == final(l).projects@[ix as int]@);
    assert(final(l).models()[i] == final(l).projects@[i]@);
    assert(old(l).models()[i] == old(l).projects@[i]@);
    assert(final(m).models()[i] == final(m).projects@[i]@);
}

/// A stored list is restored with every project and with the same one in front.
pub proof fn law_restoring_gives_the_list_back(
    l: ProjectList,
    s: PersistedSession,
    r: Option<(ProjectList, ProjectSession)>,
    i: int,
)
    requires
        l.inv(),
        call_ensures(ProjectList::stored, (&l,), s),
        call_ensures(ProjectList::restore, (s,), r),
        0 <= i < l.projects@.len(),
    ensures
        r matches Some(x) && x.0.active == l.active && x.0.projects@.len() == l.projects@.len()
            && x.0.projects@[i].path@ == l.projects@[i].path@ && x.1.path@ == l.projects@[l.active as int].path@,
{
    let x = r->0;
    assert(l.models().len() == l.projects@.len());
    assert(s@.projects == l.models());
    assert(x.0.models().len() == x.0.projects@.len());
    assert(x.0.models()[i] == x.0.projects@[i]@);
    assert(l.models()[i] == l.projects@[i]@);
    assert(l.models()[l.active as int] == l.projects@[l.active as int]@);
}

} // verus!
