use project_registry::greet;
use project_registry::identity::Identity;
use project_registry::projects::{CreateProjectError, ProjectStore};

fn ident(b: &[u8]) -> Identity {
    Identity::new(b.to_vec())
}

#[test]
fn ids_are_sequential_from_one() {
    let mut store = ProjectStore::new();
    let a = ident(&[9]);

    let r1 = store.create_project("First".to_string(), "one".to_string(), &a, 10);
    assert_eq!(r1, Ok(1));
    let r2 = store.create_project("Second".to_string(), "two".to_string(), &a, 20);
    assert_eq!(r2, Ok(2));
    let r3 = store.create_project("Third".to_string(), "three".to_string(), &a, 30);
    assert_eq!(r3, Ok(3));
}

#[test]
fn failed_creation_consumes_no_id() {
    let mut store = ProjectStore::new();
    let a = ident(&[9]);

    assert_eq!(store.create_project("Hello".to_string(), "World".to_string(), &a, 1), Ok(1));
    assert_eq!(
        store.create_project("".to_string(), "World".to_string(), &a, 2),
        Err(CreateProjectError::InvalidInput)
    );
    assert_eq!(store.create_project("Second".to_string(), "Proj".to_string(), &a, 3), Ok(2));
}

#[test]
fn blank_title_or_description_is_invalid_input() {
    let mut store = ProjectStore::new();
    let a = ident(&[5]);

    assert_eq!(
        store.create_project("".to_string(), "desc".to_string(), &a, 1),
        Err(CreateProjectError::InvalidInput)
    );
    assert_eq!(
        store.create_project("  ".to_string(), "desc".to_string(), &a, 1),
        Err(CreateProjectError::InvalidInput)
    );
    assert_eq!(
        store.create_project("\t\n ".to_string(), "desc".to_string(), &a, 1),
        Err(CreateProjectError::InvalidInput)
    );
    assert_eq!(
        store.create_project("title".to_string(), "".to_string(), &a, 1),
        Err(CreateProjectError::InvalidInput)
    );
    assert_eq!(
        store.create_project("title".to_string(), " \u{00A0} ".to_string(), &a, 1),
        Err(CreateProjectError::InvalidInput)
    );

    // The store is untouched: no project, and the next success still gets id 1.
    assert_eq!(store.projects.len(), 0);
    assert_eq!(store.next_id, 1);
    assert_eq!(store.create_project("ok".to_string(), "ok".to_string(), &a, 2), Ok(1));
}

#[test]
fn creator_is_a_collaborator() {
    let mut store = ProjectStore::new();
    let a = ident(&[1, 2]);

    store.create_project("T".to_string(), "D".to_string(), &a, 99).unwrap();
    let p = store.get_project(1).unwrap();
    assert_eq!(p.creator, a);
    assert!(p.collaborators.contains(&a));
    assert_eq!(p.collaborators.len(), 1);
}

#[test]
fn get_project_finds_exact_ids_only() {
    let mut store = ProjectStore::new();
    let a = ident(&[1]);

    assert!(store.get_project(0).is_none());
    assert!(store.get_project(1).is_none());

    store.create_project("Hello".to_string(), "World".to_string(), &a, 42).unwrap();

    let p = store.get_project(1).unwrap();
    assert_eq!(p.id, 1);
    assert_eq!(p.title, "Hello");
    assert_eq!(p.description, "World");
    assert_eq!(p.created_at, 42);

    assert!(store.get_project(0).is_none());
    assert!(store.get_project(2).is_none());
}

#[test]
fn user_projects_are_exactly_the_involving_subset() {
    let mut store = ProjectStore::new();
    let a = ident(&[1]);
    let b = ident(&[2]);

    store.create_project("PA".to_string(), "by a".to_string(), &a, 1).unwrap();
    store.create_project("PB".to_string(), "by b".to_string(), &b, 2).unwrap();
    store.create_project("PA2".to_string(), "by a too".to_string(), &a, 3).unwrap();

    let all = store.get_all_projects();
    assert_eq!(all.len(), 3);

    let of_a = store.get_user_projects(&a);
    let of_b = store.get_user_projects(&b);
    assert_eq!(of_a.len(), 2);
    assert_eq!(of_b.len(), 1);

    // Exactly the subset of the full listing that involves the user, in order.
    let expect_a: Vec<u64> = all
        .iter()
        .filter(|p| p.creator == a || p.collaborators.contains(&a))
        .map(|p| p.id)
        .collect();
    let got_a: Vec<u64> = of_a.iter().map(|p| p.id).collect();
    assert_eq!(got_a, expect_a);
    assert_eq!(got_a, vec![1, 3]);
    assert_eq!(of_b[0].id, 2);

    let nobody = store.get_user_projects(&ident(&[3]));
    assert!(nobody.is_empty());
}

#[test]
fn all_projects_counts_successful_creations() {
    let mut store = ProjectStore::new();
    let a = ident(&[1]);

    store.create_project("one".to_string(), "d".to_string(), &a, 1).unwrap();
    let _ = store.create_project(" ".to_string(), "d".to_string(), &a, 2);
    store.create_project("two".to_string(), "d".to_string(), &a, 3).unwrap();

    assert_eq!(store.get_all_projects().len(), 2);
    assert_eq!(store.get_projects().len(), 2);
}

#[test]
fn greet_formats_the_name() {
    assert_eq!(greet("World".to_string()), "Hello, World!");
    assert_eq!(greet("".to_string()), "Hello, !");
}
