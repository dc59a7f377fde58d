//! The whole application state — the identity registry, the project store,
//! and its id counter — with its durable-snapshot lifecycle: `save_state`
//! serializes everything into one blob before the hosting process is
//! replaced, and `restore_state` rebuilds the state from that blob
//! afterwards, rejecting a malformed or inconsistent snapshot instead of
//! silently starting over.

use vstd::prelude::*;

use crate::codec::{dec_state, enc_state, read_state, write_state};
use crate::identity::bytes_eq;
use crate::is_blank_str;
use crate::projects::{contains_identity, store_ok, Project, ProjectModel, ProjectStore};
use crate::registry::{reg_unique, RecordModel, RegistrationRecord, Registry};

verus! {

/// Mathematical model of the whole state: the registration records, the
/// projects, and the id-allocation counter.
pub struct StateModel {
    pub records: Seq<RecordModel>,
    pub projects: Seq<ProjectModel>,
    pub next_id: u64,
}

/// Both stores are internally consistent: one record per identity, project
/// ids exactly 1, 2, ... with the counter one past the last.
pub open spec fn state_ok(v: StateModel) -> bool {
    &&& reg_unique(v.records)
    &&& store_ok(v.projects, v.next_id)
}

/// Why a snapshot was rejected: its version byte is not one this library
/// writes, or its payload is damaged or inconsistent. Either way the host
/// must treat startup as failed rather than serve from partial state.
#[derive(Clone, Copy, Debug, PartialEq, Eq, Structural)]
pub enum SnapshotError {
    UnsupportedVersion,
    Corrupt,
}

/// True when the blob begins with the version byte this library writes.
pub open spec fn version_ok(b: Seq<u8>) -> bool {
    b.len() >= 1 && b[0] == crate::codec::SNAPSHOT_VERSION
}

/// The application state, owned by the process entry point and handed to
/// each operation: the identity registry and the project store.
pub struct State {
    pub registry: Registry,
    pub projects: ProjectStore,
}

impl View for State {
    type V = StateModel;

    open spec fn view(&self) -> StateModel {
        StateModel {
            records: self.registry@,
            projects: self.projects@,
            next_id: self.projects.next_id,
        }
    }
}

impl State {
    /// Both stores are well formed.
    pub open spec fn wf(&self) -> bool {
        state_ok(self@)
    }

    /// The first-ever start: no registrations, no projects, counter at 1.
    pub fn new() -> (r: State)
        ensures
            r@.records == Seq::<RecordModel>::empty(),
            r@.projects == Seq::<ProjectModel>::empty(),
            r@.next_id == 1,
            r.wf(),
    {
        State { registry: Registry::new(), projects: ProjectStore::new() }
    }

    /// Serializes the complete state — every registration record, every
    /// project, and the counter — into one durable blob.
    pub fn save_state(&self) -> (r: Vec<u8>)
        ensures
            r@ == enc_state(self@),
    {
        write_state(&self.registry.records, &self.projects.projects, self.projects.next_id)
    }

    /// Rebuilds the state from a snapshot blob. A blob whose version byte
    /// is wrong is rejected as `UnsupportedVersion`; one that does not
    /// decode, or decodes to an inconsistent state, as `Corrupt`. On
    /// success the state is exactly the decoded one, and well formed.
    pub fn restore_state(bytes: &Vec<u8>) -> (r: Result<State, SnapshotError>)
        ensures
            match r {
                Ok(st) => st.wf() && dec_state(bytes@) == Some(st@),
                Err(e) => {
                    &&& (dec_state(bytes@) matches Some(v) ==> !state_ok(v))
                    &&& (e == SnapshotError::UnsupportedVersion <==> !version_ok(bytes@))
                },
            },
    {
        if bytes.len() < 1 {
            return Err(SnapshotError::UnsupportedVersion);
        }
        if bytes[0] != crate::codec::SNAPSHOT_VERSION {
            return Err(SnapshotError::UnsupportedVersion);
        }
        match read_state(bytes) {
            None => Err(SnapshotError::Corrupt),
            Some((records, projects, next_id)) => {
                if !check_records_unique(&records) {
                    return Err(SnapshotError::Corrupt);
                }
                if !check_store(&projects, next_id) {
                    return Err(SnapshotError::Corrupt);
                }
                let st = State {
                    registry: Registry::from_records(records),
                    projects: ProjectStore::from_parts(projects, next_id),
                };
                Ok(st)
            },
        }
    }
}

/// Whether no two records share an identity.
fn check_records_unique(records: &Vec<RegistrationRecord>) -> (r: bool)
    ensures
        r == reg_unique(records@.map_values(|rec: RegistrationRecord| rec@)),
{
    let ghost ids = records@.map_values(|rec: RegistrationRecord| rec@);
    let n = records.len();
    let mut i: usize = 0;
    while i < n
        invariant
            0 <= i <= n,
            n == records@.len(),
            ids == records@.map_values(|rec: RegistrationRecord| rec@),
            ids.len() == n,
            forall|a: int, b: int|
                0 <= a < i && a < b < n ==> (#[trigger] ids[a]).identity != (
                #[trigger] ids[b]).identity,
        decreases n - i,
    {
        let mut j: usize = i + 1;
        while j < n
            invariant
                0 <= i < j <= n,
                n == records@.len(),
                ids == records@.map_values(|rec: RegistrationRecord| rec@),
                ids.len() == n,
                forall|b: int| i < b < j ==> ids[i as int].identity != (#[trigger] ids[b]).identity,
            decreases n - j,
        {
            if bytes_eq(&records[i].identity.bytes, &records[j].identity.bytes) {
                assert(ids[i as int].identity == ids[j as int].identity);
                assert(!reg_unique(ids));
                return false;
            }
            j += 1;
        }
        i += 1;
    }
    true
}

/// Whether the projects and the counter satisfy the store invariant.
fn check_store(projects: &Vec<Project>, next_id: u64) -> (r: bool)
    ensures
        r == store_ok(projects@.map_values(|p: Project| p@), next_id),
{
    let ghost model = projects@.map_values(|p: Project| p@);
    let n = projects.len();
    if !(next_id >= 1 && next_id - 1 == n as u64) {
        assert(model.len() == n);
        return false;
    }
    let mut i: usize = 0;
    while i < n
        invariant
            0 <= i <= n,
            n == projects@.len(),
            model == projects@.map_values(|p: Project| p@),
            model.len() == n,
            next_id == n + 1,
            forall|j: int|
                0 <= j < i ==> (#[trigger] model[j]).id == j + 1 && crate::projects::project_ok(
                    model[j],
                ),
        decreases n - i,
    {
        let p = &projects[i];
        if p.id != (i as u64) + 1 {
            assert(model[i as int].id != i + 1);
            return false;
        }
        if !contains_identity(&p.collaborators, &p.creator) {
            assert(!crate::projects::project_ok(model[i as int]));
            return false;
        }
        if is_blank_str(p.title.as_str()) {
            assert(!crate::projects::project_ok(model[i as int]));
            return false;
        }
        if is_blank_str(p.description.as_str()) {
            assert(!crate::projects::project_ok(model[i as int]));
            return false;
        }
        i += 1;
    }
    true
}

} // verus!
