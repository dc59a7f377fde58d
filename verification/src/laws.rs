//! The laws of the library, each stated over the specification functions
//! that the executable operations are proved to implement: idempotent
//! registration, gapless monotonic id allocation, creator membership, and
//! exact listing. The snapshot round-trip law stands beside the codec, as
//! `codec::lemma_dec_state`.

use vstd::prelude::*;

use crate::is_blank;
use crate::projects::{
    involved_projects, involves, new_project_model, project_ok, spec_create, store_ok,
    CreateProjectError, ProjectModel,
};
use crate::registry::{reg_contains, reg_unique, spec_register, RecordModel};

verus! {

/// How many records of `s` belong to `id`.
pub open spec fn count_with_identity(s: Seq<RecordModel>, id: Seq<u8>) -> nat
    decreases s.len(),
{
    if s.len() == 0 {
        0
    } else {
        count_with_identity(s.drop_last(), id) + if s.last().identity == id {
            1nat
        } else {
            0nat
        }
    }
}

/// In a registry without duplicates, an identity holds one record if it is
/// registered and none otherwise.
pub proof fn lemma_count_unique(s: Seq<RecordModel>, id: Seq<u8>)
    requires
        reg_unique(s),
    ensures
        count_with_identity(s, id) == if reg_contains(s, id) {
            1nat
        } else {
            0nat
        },
    decreases s.len(),
{
    if s.len() == 0 {
        assert(!reg_contains(s, id));
    } else {
        let s0 = s.drop_last();
        let last = s.last();
        assert(forall|a: int| 0 <= a < s0.len() ==> s0[a] == s[a]);
        assert(reg_unique(s0));
        lemma_count_unique(s0, id);
        if last.identity == id {
            assert(!reg_contains(s0, id)) by {
                if reg_contains(s0, id) {
                    let a = choose|a: int| 0 <= a < s0.len() && s0[a].identity == id;
                    assert(s[a].identity == s[s.len() - 1].identity);
                    assert(false);
                }
            }
            assert(reg_contains(s, id)) by {
                assert(s[s.len() - 1].identity == id);
            }
        } else {
            assert(reg_contains(s, id) == reg_contains(s0, id)) by {
                if reg_contains(s, id) {
                    let a = choose|a: int| 0 <= a < s.len() && s[a].identity == id;
                    assert(a < s.len() - 1);
                    assert(s0[a].identity == id);
                }
                if reg_contains(s0, id) {
                    let a = choose|a: int| 0 <= a < s0.len() && s0[a].identity == id;
                    assert(s[a].identity == id);
                }
            }
        }
    }
}

/// Idempotent registration. After one registration the identity is
/// registered and holds exactly one record; registering it again, at any
/// later time, changes nothing.
pub proof fn lemma_register_idempotent(s: Seq<RecordModel>, id: Seq<u8>, t1: u64, t2: u64)
    requires
        reg_unique(s),
    ensures
        reg_contains(spec_register(s, id, t1), id),
        spec_register(spec_register(s, id, t1), id, t2) == spec_register(s, id, t1),
        count_with_identity(spec_register(s, id, t1), id) == 1,
        !reg_contains(s, id) ==> spec_register(s, id, t1) == s.push(
            RecordModel { identity: id, registered_at: t1 },
        ),
        reg_contains(s, id) ==> spec_register(s, id, t1) == s,
{
    let s1 = spec_register(s, id, t1);
    if reg_contains(s, id) {
        lemma_count_unique(s, id);
    } else {
        let rec = RecordModel { identity: id, registered_at: t1 };
        assert(s1 == s.push(rec));
        assert(s1[s.len() as int].identity == id);
        assert(reg_contains(s1, id));
        lemma_count_unique(s, id);
        assert(s1.drop_last() =~= s);
        assert(s1.last() == rec);
        assert(count_with_identity(s1, id) == count_with_identity(s, id) + 1);
    }
}

/// A successful creation keeps the store invariant: ids stay exactly
/// 1, 2, ... and the counter stays one past the last id. A rejected one
/// changes nothing.
pub proof fn lemma_create_preserves(
    projects: Seq<ProjectModel>,
    next_id: u64,
    title: Seq<char>,
    description: Seq<char>,
    creator: Seq<u8>,
    now: u64,
)
    requires
        store_ok(projects, next_id),
        projects.len() + 2 <= u64::MAX,
    ensures
        store_ok(
            spec_create(projects, next_id, title, description, creator, now).0,
            spec_create(projects, next_id, title, description, creator, now).1,
        ),
{
    if !(is_blank(title) || is_blank(description)) {
        let newm = new_project_model(next_id, title, description, creator, now);
        let out = spec_create(projects, next_id, title, description, creator, now).0;
        assert(newm.collaborators[0] == creator);
        assert(newm.collaborators.contains(creator));
        assert(project_ok(newm));
        assert(out == projects.push(newm));
        assert forall|i: int| 0 <= i < out.len() implies (#[trigger] out[i]).id == i + 1 by {
            if i < projects.len() {
                assert(out[i] == projects[i]);
            } else {
                assert(out[i] == newm);
            }
        }
        assert forall|i: int| 0 <= i < out.len() implies project_ok(#[trigger] out[i]) by {
            if i < projects.len() {
                assert(out[i] == projects[i]);
            } else {
                assert(out[i] == newm);
            }
        }
    }
}

/// Id monotonicity. From any well-formed store, a successful creation
/// returns the counter value, which is larger than every id already in the
/// store; a rejected creation consumes no id and changes nothing; and the
/// next successful creation returns exactly one more — strictly increasing
/// ids with no gap and no reuse, even across failed attempts in between.
pub proof fn lemma_id_monotonicity(
    projects: Seq<ProjectModel>,
    next_id: u64,
    t1: Seq<char>,
    d1: Seq<char>,
    c1: Seq<u8>,
    n1: u64,
    tf: Seq<char>,
    df: Seq<char>,
    cf: Seq<u8>,
    nf: u64,
    t2: Seq<char>,
    d2: Seq<char>,
    c2: Seq<u8>,
    n2: u64,
)
    requires
        store_ok(projects, next_id),
        projects.len() + 3 <= u64::MAX,
        !is_blank(t1) && !is_blank(d1),
        is_blank(tf) || is_blank(df),
        !is_blank(t2) && !is_blank(d2),
    ensures
        forall|i: int| 0 <= i < projects.len() ==> (#[trigger] projects[i]).id < next_id,
        ({
            let (p1, k1, r1) = spec_create(projects, next_id, t1, d1, c1, n1);
            let (p2, k2, r2) = spec_create(p1, k1, tf, df, cf, nf);
            let (p3, k3, r3) = spec_create(p2, k2, t2, d2, c2, n2);
            &&& r1 == Ok::<u64, CreateProjectError>(next_id)
            &&& r2 == Err::<u64, CreateProjectError>(CreateProjectError::InvalidInput)
            &&& p2 == p1 && k2 == k1
            &&& r3 == Ok::<u64, CreateProjectError>((next_id + 1) as u64)
            &&& store_ok(p3, k3)
        }),
{
    lemma_create_preserves(projects, next_id, t1, d1, c1, n1);
    let (p1, k1, r1) = spec_create(projects, next_id, t1, d1, c1, n1);
    lemma_create_preserves(p1, k1, tf, df, cf, nf);
    let (p2, k2, r2) = spec_create(p1, k1, tf, df, cf, nf);
    lemma_create_preserves(p2, k2, t2, d2, c2, n2);
}

/// Creator membership. In a well-formed store every project's creator
/// stands among its collaborators, and a successful creation stores the
/// caller as creator and as a collaborator of the new project.
pub proof fn lemma_creator_membership(
    projects: Seq<ProjectModel>,
    next_id: u64,
    title: Seq<char>,
    description: Seq<char>,
    creator: Seq<u8>,
    now: u64,
)
    ensures
        store_ok(projects, next_id) ==> forall|i: int|
            0 <= i < projects.len() ==> (#[trigger] projects[i]).collaborators.contains(
                projects[i].creator,
            ),
        !is_blank(title) && !is_blank(description) ==> ({
            let created = spec_create(projects, next_id, title, description, creator, now).0.last();
            &&& created.creator == creator
            &&& created.collaborators.contains(creator)
            &&& created.id == next_id
        }),
{
    if store_ok(projects, next_id) {
        assert forall|i: int|
            0 <= i < projects.len() implies (#[trigger] projects[i]).collaborators.contains(
            projects[i].creator,
        ) by {
            assert(project_ok(projects[i]));
        }
    }
    if !is_blank(title) && !is_blank(description) {
        let newm = new_project_model(next_id, title, description, creator, now);
        let out = spec_create(projects, next_id, title, description, creator, now).0;
        assert(out == projects.push(newm));
        assert(out.last() == newm);
        assert(newm.collaborators[0] == creator);
        assert(newm.collaborators.contains(creator));
    }
}

/// Everything a filter keeps was in the sequence.
proof fn lemma_filter_subset<A>(s: Seq<A>, pred: spec_fn(A) -> bool)
    ensures
        forall|x: A| #[trigger] s.filter(pred).contains(x) ==> s.contains(x),
    decreases s.len(),
{
    reveal(Seq::filter);
    if s.len() > 0 {
        let s0 = s.drop_last();
        lemma_filter_subset(s0, pred);
        assert forall|x: A| #[trigger] s.filter(pred).contains(x) implies s.contains(x) by {
            let f = s.filter(pred);
            if pred(s.last()) && x == s.last() {
                assert(s[s.len() - 1] == x);
            } else {
                assert(s0.filter(pred).contains(x)) by {
                    let i = choose|i: int| 0 <= i < f.len() && f[i] == x;
                    if pred(s.last()) {
                        assert(f == s0.filter(pred).push(s.last()));
                        assert(i < f.len() - 1);
                        assert(s0.filter(pred)[i] == x);
                    } else {
                        assert(f == s0.filter(pred));
                    }
                }
                let j = choose|j: int| 0 <= j < s0.len() && s0[j] == x;
                assert(s[j] == x);
            }
        }
    }
}

/// Listing correctness. The projects listed for a user are exactly the
/// stored projects that involve that user, and the number of stored
/// projects grows by one on each successful creation and not at all on a
/// rejected one.
pub proof fn lemma_listing_correctness(
    projects: Seq<ProjectModel>,
    user: Seq<u8>,
    next_id: u64,
    title: Seq<char>,
    description: Seq<char>,
    creator: Seq<u8>,
    now: u64,
)
    ensures
        forall|p: ProjectModel|
            #[trigger] involved_projects(projects, user).contains(p) <==> (projects.contains(p)
                && involves(p, user)),
        !is_blank(title) && !is_blank(description) ==> spec_create(
            projects,
            next_id,
            title,
            description,
            creator,
            now,
        ).0.len() == projects.len() + 1,
        is_blank(title) || is_blank(description) ==> spec_create(
            projects,
            next_id,
            title,
            description,
            creator,
            now,
        ).0 == projects,
{
    let pred = |m: ProjectModel| involves(m, user);
    lemma_filter_subset(projects, pred);
    assert forall|p: ProjectModel| #[trigger]
        involved_projects(projects, user).contains(p) implies (projects.contains(p) && involves(
        p,
        user,
    )) by {
        let f = projects.filter(pred);
        let i = choose|i: int| 0 <= i < f.len() && f[i] == p;
        projects.lemma_filter_pred(pred, i);
    }
    assert forall|p: ProjectModel|
        projects.contains(p) && involves(p, user) implies #[trigger] involved_projects(
        projects,
        user,
    ).contains(p) by {
        let j = choose|j: int| 0 <= j < projects.len() && projects[j] == p;
        projects.lemma_filter_contains(pred, j);
    }
}

} // verus!
