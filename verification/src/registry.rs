//! The identity registry: at most one registration record per identity,
//! records immutable once created, never deleted.

use vstd::prelude::*;

use crate::identity::{bytes_eq, Identity};

verus! {

/// Mathematical model of one registration record.
pub struct RecordModel {
    pub identity: Seq<u8>,
    pub registered_at: u64,
}

/// One registration: the identity and the host time at which it registered.
/// The identity is kept in the record itself so that a snapshot of the
/// record is self-contained.
pub struct RegistrationRecord {
    pub identity: Identity,
    pub registered_at: u64,
}

impl View for RegistrationRecord {
    type V = RecordModel;

    open spec fn view(&self) -> RecordModel {
        RecordModel { identity: self.identity@, registered_at: self.registered_at }
    }
}

/// The outcome of a registration attempt. Registration never fails:
/// `success` is always true, and `newly_registered` tells a first
/// registration from a repeated one.
pub struct RegistrationOutcome {
    pub success: bool,
    pub newly_registered: bool,
    pub message: String,
}

/// True when some record in `s` belongs to `id`.
pub open spec fn reg_contains(s: Seq<RecordModel>, id: Seq<u8>) -> bool {
    exists|i: int| 0 <= i < s.len() && s[i].identity == id
}

/// How `register` changes the registry: a new record is appended for an
/// unknown identity, and a known identity leaves the registry unchanged.
pub open spec fn spec_register(s: Seq<RecordModel>, id: Seq<u8>, now: u64) -> Seq<RecordModel> {
    if reg_contains(s, id) {
        s
    } else {
        s.push(RecordModel { identity: id, registered_at: now })
    }
}

/// No two records belong to the same identity.
pub open spec fn reg_unique(s: Seq<RecordModel>) -> bool {
    forall|i: int, j: int|
        0 <= i < j < s.len() ==> (#[trigger] s[i]).identity != (#[trigger] s[j]).identity
}

/// The identity registry. Records are kept in registration order.
pub struct Registry {
    pub records: Vec<RegistrationRecord>,
}

impl View for Registry {
    type V = Seq<RecordModel>;

    open spec fn view(&self) -> Seq<RecordModel> {
        self.records@.map_values(|r: RegistrationRecord| r@)
    }
}

impl Registry {
    /// Every identity holds at most one record.
    pub open spec fn wf(&self) -> bool {
        reg_unique(self@)
    }

    /// An empty registry: no identity is registered.
    pub fn new() -> (r: Registry)
        ensures
            r@ == Seq::<RecordModel>::empty(),
            r.wf(),
    {
        let r = Registry { records: Vec::new() };
        assert(r@ =~= Seq::<RecordModel>::empty());
        r
    }

    /// Wraps a record vector already known to hold one record per identity.
    pub fn from_records(records: Vec<RegistrationRecord>) -> (r: Registry)
        requires
            reg_unique(records@.map_values(|rec: RegistrationRecord| rec@)),
        ensures
            r@ == records@.map_values(|rec: RegistrationRecord| rec@),
            r.wf(),
    {
        Registry { records }
    }

    /// Whether `identity` already holds a registration record.
    pub fn is_registered(&self, identity: &Identity) -> (r: bool)
        ensures
            r == reg_contains(self@, identity@),
    {
        let n = self.records.len();
        let mut i: usize = 0;
        while i < n
            invariant
                0 <= i <= n,
                n == self.records@.len(),
                self@.len() == n,
                forall|j: int| 0 <= j < i ==> self@[j].identity != identity@,
                forall|j: int| 0 <= j < n ==> self@[j].identity == self.records@[j].identity@,
            decreases n - i,
        {
            if bytes_eq(&self.records[i].identity.bytes, &identity.bytes) {
                assert(self@[i as int].identity == identity@);
                return true;
            }
            i += 1;
        }
        false
    }

    /// Registers `identity` at host time `now`. Idempotent: a repeated call
    /// reports `newly_registered == false` and changes nothing; the operation
    /// itself never fails.
    pub fn register(&mut self, identity: &Identity, now: u64) -> (r: RegistrationOutcome)
        requires
            old(self).wf(),
        ensures
            final(self).wf(),
            final(self)@ == spec_register(old(self)@, identity@, now),
            r.success,
            r.newly_registered == !reg_contains(old(self)@, identity@),
            r.newly_registered ==> r.message@ == "registered"@,
            !r.newly_registered ==> r.message@ == "already registered"@,
    {
        if self.is_registered(identity) {
            return RegistrationOutcome {
                success: true,
                newly_registered: false,
                message: "already registered".to_owned(),
            };
        }
        let ghost pre = self@;
        let record = RegistrationRecord { identity: identity.clone(), registered_at: now };
        assert(record@ == RecordModel { identity: identity@, registered_at: now });
        self.records.push(record);
        assert(self@ =~= pre.push(RecordModel { identity: identity@, registered_at: now }));
        RegistrationOutcome {
            success: true,
            newly_registered: true,
            message: "registered".to_owned(),
        }
    }
}

} // verus!
