//! The project store: monotonic id allocation starting at 1 with no gaps,
//! validated creation, and lookups by id, by involved identity, and in bulk.

use vstd::prelude::*;

use crate::identity::{bytes_eq, Identity};
use crate::is_blank;
use crate::is_blank_str;

verus! {

/// Mathematical model of one project record.
pub struct ProjectModel {
    pub id: u64,
    pub title: Seq<char>,
    pub description: Seq<char>,
    pub creator: Seq<u8>,
    pub created_at: u64,
    pub collaborators: Seq<Seq<u8>>,
}

/// One stored project. Immutable once created: the store offers no update
/// or deletion.
pub struct Project {
    pub id: u64,
    pub title: String,
    pub description: String,
    pub creator: Identity,
    pub created_at: u64,
    pub collaborators: Vec<Identity>,
}

impl View for Project {
    type V = ProjectModel;

    open spec fn view(&self) -> ProjectModel {
        ProjectModel {
            id: self.id,
            title: self.title@,
            description: self.description@,
            creator: self.creator@,
            created_at: self.created_at,
            collaborators: self.collaborators@.map_values(|c: Identity| c@),
        }
    }
}

impl Clone for Project {
    /// The copy has the same model.
    fn clone(&self) -> (r: Project)
        ensures
            r@ == self@,
    {
        let mut collaborators: Vec<Identity> = Vec::new();
        let n = self.collaborators.len();
        let mut i: usize = 0;
        while i < n
            invariant
                0 <= i <= n,
                n == self.collaborators@.len(),
                collaborators@.len() == i,
                forall|j: int| 0 <= j < i ==> collaborators@[j]@ == self.collaborators@[j]@,
            decreases n - i,
        {
            collaborators.push(self.collaborators[i].clone());
            i += 1;
        }
        let r = Project {
            id: self.id,
            title: self.title.clone(),
            description: self.description.clone(),
            creator: self.creator.clone(),
            created_at: self.created_at,
            collaborators,
        };
        assert(r@.collaborators =~= self@.collaborators);
        r
    }
}

/// Why a creation attempt was rejected. Only `InvalidInput` is produced
/// today; the other variants are reserved for future authorization and
/// consistency checks, kept so that activating them will not change the
/// shape of the result.
#[derive(Clone, Copy, Debug, PartialEq, Eq, Structural)]
pub enum CreateProjectError {
    UserNotRegistered,
    InvalidInput,
    InternalError,
}

/// A project model is well formed when its creator stands among its
/// collaborators and neither its title nor its description is blank.
pub open spec fn project_ok(p: ProjectModel) -> bool {
    &&& p.collaborators.contains(p.creator)
    &&& !is_blank(p.title)
    &&& !is_blank(p.description)
}

/// Store-level well-formedness: project ids are exactly 1, 2, ... in order
/// (so ids strictly increase, with no gaps and no reuse), the allocation
/// counter is one past the last id, and every project is well formed.
pub open spec fn store_ok(projects: Seq<ProjectModel>, next_id: u64) -> bool {
    &&& next_id == projects.len() + 1
    &&& forall|i: int| 0 <= i < projects.len() ==> (#[trigger] projects[i]).id == i + 1
    &&& forall|i: int| 0 <= i < projects.len() ==> project_ok(#[trigger] projects[i])
}

/// True when `id` is the project's creator or one of its collaborators.
pub open spec fn involves(p: ProjectModel, id: Seq<u8>) -> bool {
    p.creator == id || p.collaborators.contains(id)
}

/// The projects of `s` in which `user` is the creator or a collaborator,
/// in their order in `s`.
pub open spec fn involved_projects(s: Seq<ProjectModel>, user: Seq<u8>) -> Seq<ProjectModel> {
    s.filter(|m: ProjectModel| involves(m, user))
}

/// The project a successful creation stores.
pub open spec fn new_project_model(
    id: u64,
    title: Seq<char>,
    description: Seq<char>,
    creator: Seq<u8>,
    now: u64,
) -> ProjectModel {
    ProjectModel {
        id,
        title,
        description,
        creator,
        created_at: now,
        collaborators: seq![creator],
    }
}

/// How `create_project` changes the store and what it returns: blank input
/// is rejected without consuming an id; otherwise the current counter value
/// becomes the new project's id and the counter advances by one.
pub open spec fn spec_create(
    projects: Seq<ProjectModel>,
    next_id: u64,
    title: Seq<char>,
    description: Seq<char>,
    creator: Seq<u8>,
    now: u64,
) -> (Seq<ProjectModel>, u64, Result<u64, CreateProjectError>)
    recommends
        next_id < u64::MAX,
{
    if is_blank(title) || is_blank(description) {
        (projects, next_id, Err(CreateProjectError::InvalidInput))
    } else {
        (
            projects.push(new_project_model(next_id, title, description, creator, now)),
            (next_id + 1) as u64,
            Ok(next_id),
        )
    }
}

/// The project store: projects in creation order, plus the id-allocation
/// counter. On first start the store is empty and the counter is 1.
pub struct ProjectStore {
    pub projects: Vec<Project>,
    pub next_id: u64,
}

impl View for ProjectStore {
    type V = Seq<ProjectModel>;

    open spec fn view(&self) -> Seq<ProjectModel> {
        self.projects@.map_values(|p: Project| p@)
    }
}

impl ProjectStore {
    /// The store invariant: see `store_ok`.
    pub open spec fn wf(&self) -> bool {
        store_ok(self@, self.next_id)
    }

    /// An empty store whose first project will get id 1.
    pub fn new() -> (r: ProjectStore)
        ensures
            r@ == Seq::<ProjectModel>::empty(),
            r.next_id == 1,
            r.wf(),
    {
        let r = ProjectStore { projects: Vec::new(), next_id: 1 };
        assert(r@ =~= Seq::<ProjectModel>::empty());
        r
    }

    /// Wraps a project vector and counter already known to satisfy the
    /// store invariant.
    pub fn from_parts(projects: Vec<Project>, next_id: u64) -> (r: ProjectStore)
        requires
            store_ok(projects@.map_values(|p: Project| p@), next_id),
        ensures
            r@ == projects@.map_values(|p: Project| p@),
            r.next_id == next_id,
            r.wf(),
    {
        ProjectStore { projects, next_id }
    }

    /// Creates a project. A title or description that is empty after
    /// trimming whitespace is rejected with `InvalidInput` and the store is
    /// left unchanged; otherwise the project is stored under the current
    /// counter value, with the creator as the sole initial collaborator,
    /// and that id is returned.
    pub fn create_project(
        &mut self,
        title: String,
        description: String,
        creator: &Identity,
        now: u64,
    ) -> (r: Result<u64, CreateProjectError>)
        requires
            old(self).wf(),
            old(self)@.len() + 2 <= u64::MAX,
        ensures
            final(self).wf(),
            (final(self)@, final(self).next_id, r) == spec_create(
                old(self)@,
                old(self).next_id,
                title@,
                description@,
                creator@,
                now,
            ),
    {
        if is_blank_str(title.as_str()) || is_blank_str(description.as_str()) {
            return Err(CreateProjectError::InvalidInput);
        }
        let ghost pre = self@;
        let id = self.next_id;
        let mut collaborators: Vec<Identity> = Vec::new();
        collaborators.push(creator.clone());
        let project = Project {
            id,
            title,
            description,
            creator: creator.clone(),
            created_at: now,
            collaborators,
        };
        assert(project@.collaborators =~= seq![creator@]);
        self.projects.push(project);
        self.next_id = id + 1;
        assert(self@ =~= pre.push(
            new_project_model(id, project@.title, project@.description, creator@, now),
        ));
        proof {
            let newm = new_project_model(id, project@.title, project@.description, creator@, now);
            assert(newm.collaborators[0] == creator@);
            assert(newm.collaborators.contains(creator@));
            assert(project_ok(newm));
            assert forall|i: int| 0 <= i < self@.len() implies (#[trigger] self@[i]).id == i + 1 by {
                if i < pre.len() {
                    assert(self@[i] == pre[i]);
                } else {
                    assert(self@[i] == newm);
                }
            }
            assert forall|i: int| 0 <= i < self@.len() implies project_ok(#[trigger] self@[i]) by {
                if i < pre.len() {
                    assert(self@[i] == pre[i]);
                } else {
                    assert(self@[i] == newm);
                }
            }
        }
        Ok(id)
    }

    /// Looks a project up by its exact id: present for ids 1 through the
    /// number of stored projects, absent otherwise.
    pub fn get_project(&self, id: u64) -> (r: Option<Project>)
        requires
            self.wf(),
        ensures
            1 <= id <= self@.len() ==> (r matches Some(p) && p@ == self@[id - 1]),
            !(1 <= id <= self@.len()) ==> r is None,
    {
        if id >= 1 && id <= self.projects.len() as u64 {
            let idx = (id - 1) as usize;
            Some(self.projects[idx].clone())
        } else {
            None
        }
    }

    /// Every stored project in which `user` is the creator or a
    /// collaborator, in storage order.
    pub fn get_user_projects(&self, user: &Identity) -> (r: Vec<Project>)
        ensures
            r@.map_values(|p: Project| p@) == involved_projects(self@, user@),
    {
        let ghost pred = |m: ProjectModel| involves(m, user@);
        let n = self.projects.len();
        let mut out: Vec<Project> = Vec::new();
        let mut i: usize = 0;
        proof {
            assert(self@.take(0).filter(pred) =~= Seq::<ProjectModel>::empty());
            assert(out@.map_values(|p: Project| p@) =~= Seq::<ProjectModel>::empty());
        }
        while i < n
            invariant
                0 <= i <= n,
                n == self.projects@.len(),
                self@.len() == n,
                pred == (|m: ProjectModel| involves(m, user@)),
                out@.map_values(|p: Project| p@) == self@.take(i as int).filter(pred),
            decreases n - i,
        {
            let ghost prev = out@.map_values(|p: Project| p@);
            let p = &self.projects[i];
            let matched = if bytes_eq(&p.creator.bytes, &user.bytes) {
                true
            } else {
                contains_identity(&p.collaborators, user)
            };
            assert(matched == involves(self@[i as int], user@));
            if matched {
                out.push(p.clone());
                assert(out@.map_values(|q: Project| q@) =~= prev.push(self@[i as int]));
            }
            proof {
                let t1 = self@.take(i + 1);
                assert(t1.drop_last() =~= self@.take(i as int));
                assert(t1.last() == self@[i as int]);
                reveal(Seq::filter);
            }
            i += 1;
        }
        proof {
            assert(self@.take(n as int) =~= self@);
        }
        out
    }

    /// Every stored project, in storage order.
    pub fn get_all_projects(&self) -> (r: Vec<Project>)
        ensures
            r@.map_values(|p: Project| p@) == self@,
    {
        let n = self.projects.len();
        let mut out: Vec<Project> = Vec::new();
        let mut i: usize = 0;
        while i < n
            invariant
                0 <= i <= n,
                n == self.projects@.len(),
                self@.len() == n,
                out@.len() == i,
                forall|j: int| 0 <= j < i ==> (#[trigger] out@[j])@ == self@[j],
            decreases n - i,
        {
            out.push(self.projects[i].clone());
            i += 1;
        }
        assert(out@.map_values(|p: Project| p@) =~= self@);
        out
    }

    /// Alias for `get_all_projects`, kept for callers that expect the
    /// shorter name.
    pub fn get_projects(&self) -> (r: Vec<Project>)
        ensures
            r@.map_values(|p: Project| p@) == self@,
    {
        self.get_all_projects()
    }
}

/// Whether some identity in `v` equals `user`.
pub fn contains_identity(v: &Vec<Identity>, user: &Identity) -> (r: bool)
    ensures
        r == v@.map_values(|c: Identity| c@).contains(user@),
{
    let ghost ids = v@.map_values(|c: Identity| c@);
    let n = v.len();
    let mut i: usize = 0;
    while i < n
        invariant
            0 <= i <= n,
            n == v@.len(),
            ids == v@.map_values(|c: Identity| c@),
            ids.len() == n,
            forall|j: int| 0 <= j < i ==> ids[j] != user@,
        decreases n - i,
    {
        if bytes_eq(&v[i].bytes, &user.bytes) {
            assert(ids[i as int] == user@);
            return true;
        }
        i += 1;
    }
    assert(!ids.contains(user@));
    false
}

} // verus!
