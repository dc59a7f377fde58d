use project_registry::identity::Identity;
use project_registry::registry::Registry;

fn ident(b: &[u8]) -> Identity {
    Identity::new(b.to_vec())
}

#[test]
fn register_is_idempotent() {
    let mut reg = Registry::new();
    let a = ident(&[1, 2, 3]);

    let first = reg.register(&a, 100);
    assert!(first.success);
    assert!(first.newly_registered);
    assert_eq!(first.message, "registered");

    let second = reg.register(&a, 200);
    assert!(second.success);
    assert!(!second.newly_registered);
    assert_eq!(second.message, "already registered");

    assert_eq!(reg.records.len(), 1);
    assert_eq!(reg.records[0].identity, a);
    assert_eq!(reg.records[0].registered_at, 100);
}

#[test]
fn is_registered_reflects_registration() {
    let mut reg = Registry::new();
    let a = ident(&[1]);
    let b = ident(&[2]);

    assert!(!reg.is_registered(&a));
    assert!(!reg.is_registered(&b));

    reg.register(&a, 7);
    assert!(reg.is_registered(&a));
    assert!(!reg.is_registered(&b));
}

#[test]
fn distinct_identities_each_get_a_record() {
    let mut reg = Registry::new();
    let a = ident(&[1]);
    let b = ident(&[1, 0]);

    assert!(reg.register(&a, 1).newly_registered);
    assert!(reg.register(&b, 2).newly_registered);
    assert_eq!(reg.records.len(), 2);
    assert!(reg.is_registered(&a));
    assert!(reg.is_registered(&b));
}

#[test]
fn empty_identity_is_a_valid_key() {
    let mut reg = Registry::new();
    let empty = ident(&[]);
    assert!(reg.register(&empty, 3).newly_registered);
    assert!(!reg.register(&empty, 4).newly_registered);
    assert!(reg.is_registered(&empty));
}
