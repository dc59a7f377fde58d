use project_registry::identity::Identity;
use project_registry::state::{SnapshotError, State};

fn ident(b: &[u8]) -> Identity {
    Identity::new(b.to_vec())
}

fn populated_state() -> State {
    let mut st = State::new();
    let a = ident(&[1, 2, 3]);
    let b = ident(&[4]);
    st.registry.register(&a, 1000);
    st.registry.register(&b, 2000);
    st.projects.create_project("Alpha".to_string(), "first".to_string(), &a, 3000).unwrap();
    st.projects.create_project("Beta ☃".to_string(), "sécond".to_string(), &b, 4000).unwrap();
    st
}

#[test]
fn round_trip_preserves_everything_observable() {
    let st = populated_state();
    let blob = st.save_state();
    let restored = State::restore_state(&blob).unwrap();

    let a = ident(&[1, 2, 3]);
    let b = ident(&[4]);
    let c = ident(&[5]);
    assert!(restored.registry.is_registered(&a));
    assert!(restored.registry.is_registered(&b));
    assert!(!restored.registry.is_registered(&c));
    assert_eq!(restored.registry.records.len(), 2);
    assert_eq!(restored.registry.records[0].registered_at, 1000);

    let all = restored.projects.get_all_projects();
    assert_eq!(all.len(), 2);
    assert_eq!(all[0].id, 1);
    assert_eq!(all[0].title, "Alpha");
    assert_eq!(all[0].description, "first");
    assert_eq!(all[0].created_at, 3000);
    assert_eq!(all[0].creator, a);
    assert_eq!(all[0].collaborators, vec![a.clone()]);
    assert_eq!(all[1].id, 2);
    assert_eq!(all[1].title, "Beta ☃");
    assert_eq!(all[1].description, "sécond");

    let of_b = restored.projects.get_user_projects(&b);
    assert_eq!(of_b.len(), 1);
    assert_eq!(of_b[0].id, 2);
}

#[test]
fn round_trip_preserves_the_id_counter() {
    let mut st = populated_state();
    let blob = st.save_state();
    let mut restored = State::restore_state(&blob).unwrap();

    let a = ident(&[1, 2, 3]);
    let id_before_restore = st.projects.create_project("N".to_string(), "n".to_string(), &a, 1);
    let id_after_restore =
        restored.projects.create_project("N".to_string(), "n".to_string(), &a, 1);
    assert_eq!(id_before_restore, Ok(3));
    assert_eq!(id_after_restore, Ok(3));
}

#[test]
fn empty_state_round_trips() {
    let st = State::new();
    let blob = st.save_state();
    let mut restored = State::restore_state(&blob).unwrap();

    assert_eq!(restored.registry.records.len(), 0);
    assert!(restored.projects.get_all_projects().is_empty());
    let a = ident(&[1]);
    assert_eq!(restored.projects.create_project("t".to_string(), "d".to_string(), &a, 1), Ok(1));
}

#[test]
fn saved_blob_survives_a_second_cycle() {
    let st = populated_state();
    let blob = st.save_state();
    let restored = State::restore_state(&blob).unwrap();
    let blob2 = restored.save_state();
    assert_eq!(blob, blob2);
    let restored2 = State::restore_state(&blob2).unwrap();
    assert_eq!(restored2.registry.records.len(), 2);
    assert_eq!(restored2.projects.get_all_projects().len(), 2);
}

#[test]
fn empty_blob_is_an_unsupported_version() {
    let r = State::restore_state(&Vec::new());
    assert_eq!(r.err().unwrap(), SnapshotError::UnsupportedVersion);
}

#[test]
fn wrong_version_byte_is_rejected() {
    let st = populated_state();
    let mut blob = st.save_state();
    blob[0] = 99;
    let r = State::restore_state(&blob);
    assert_eq!(r.err().unwrap(), SnapshotError::UnsupportedVersion);
}

#[test]
fn truncated_blob_is_corrupt() {
    let st = populated_state();
    let blob = st.save_state();
    let truncated: Vec<u8> = blob[..blob.len() - 1].to_vec();
    let r = State::restore_state(&truncated);
    assert_eq!(r.err().unwrap(), SnapshotError::Corrupt);
}

#[test]
fn trailing_garbage_is_corrupt() {
    let st = populated_state();
    let mut blob = st.save_state();
    blob.push(0);
    let r = State::restore_state(&blob);
    assert_eq!(r.err().unwrap(), SnapshotError::Corrupt);
}

#[test]
fn inconsistent_payload_is_corrupt() {
    // A snapshot whose project ids do not start at 1 cannot come from this
    // library; restoring it must fail rather than serve inconsistent state.
    let mut st = State::new();
    let a = ident(&[7]);
    st.projects.create_project("T".to_string(), "D".to_string(), &a, 5).unwrap();
    st.projects.projects[0].id = 2;
    st.projects.next_id = 3;
    let blob = st.save_state();
    let r = State::restore_state(&blob);
    assert_eq!(r.err().unwrap(), SnapshotError::Corrupt);
}

#[test]
fn full_scenario_matches_the_contract() {
    let mut st = State::new();
    let a = ident(&[10, 20]);

    let o1 = st.registry.register(&a, 1);
    assert!(o1.success && o1.newly_registered);
    let o2 = st.registry.register(&a, 2);
    assert!(o2.success && !o2.newly_registered);

    assert_eq!(st.projects.create_project("Hello".to_string(), "World".to_string(), &a, 3), Ok(1));
    assert_eq!(
        st.projects.create_project("".to_string(), "World".to_string(), &a, 4),
        Err(project_registry::projects::CreateProjectError::InvalidInput)
    );
    assert_eq!(st.projects.create_project("Second".to_string(), "Proj".to_string(), &a, 5), Ok(2));

    assert_eq!(st.projects.get_all_projects().len(), 2);
    assert_eq!(st.projects.get_user_projects(&a).len(), 2);

    let blob = st.save_state();
    let restored = State::restore_state(&blob).unwrap();
    assert!(restored.registry.is_registered(&a));
    assert_eq!(restored.projects.get_all_projects().len(), 2);
    assert_eq!(restored.projects.get_user_projects(&a).len(), 2);
    assert_eq!(restored.projects.get_project(1).unwrap().title, "Hello");
    assert_eq!(restored.projects.get_project(2).unwrap().title, "Second");
}
