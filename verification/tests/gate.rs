//! Identity gate and storage primitive behavior.

use nftune_backend::storage::Store;
use nftune_backend::types::{Identity, StoreError, User};

fn registered(token: u64, store: &mut Store) -> Identity {
    let id = Identity { token };
    store
        .register_user(id, Some(String::from("user")), String::from("user@example.com"), 1)
        .unwrap();
    id
}

#[test]
fn anonymous_cannot_register() {
    let mut s = Store::new();
    let r = s.register_user(Identity::anonymous(), None, String::from("a@b"), 1);
    assert_eq!(r.unwrap_err(), StoreError::Unauthenticated);
    assert_eq!(s.get_all_projects().len(), 0);
}

#[test]
fn register_twice_is_conflict() {
    let mut s = Store::new();
    let a = registered(1, &mut s);
    let r = s.register_user(a, None, String::from("again@b"), 2);
    assert_eq!(r.unwrap_err(), StoreError::Conflict);
}

#[test]
fn get_user_errors() {
    let mut s = Store::new();
    assert_eq!(
        s.get_user(Identity::anonymous()).unwrap_err(),
        StoreError::Unauthenticated
    );
    assert_eq!(
        s.get_user(Identity { token: 7 }).unwrap_err(),
        StoreError::NotRegistered
    );
    let a = registered(7, &mut s);
    let u = s.get_user(a).unwrap();
    assert_eq!(u.principal, a);
    assert_eq!(u.email, "user@example.com");
    assert_eq!(u.created_at, 1);
    assert!(u.avatar_url.is_none());
}

#[test]
fn require_authenticated_gates() {
    let mut s = Store::new();
    assert_eq!(
        s.require_authenticated(Identity::anonymous()).unwrap_err(),
        StoreError::Unauthenticated
    );
    assert_eq!(
        s.require_authenticated(Identity { token: 3 }).unwrap_err(),
        StoreError::NotRegistered
    );
    let a = registered(3, &mut s);
    assert_eq!(s.require_authenticated(a).unwrap(), a);
}

#[test]
fn unregistered_caller_cannot_create_project() {
    let mut s = Store::new();
    let r = s.create_project(Identity { token: 5 }, String::from("p"), None, 2);
    assert_eq!(r.unwrap_err(), StoreError::NotRegistered);
    assert_eq!(s.get_projects().len(), 0);
}

#[test]
fn save_user_replaces_on_same_principal() {
    let mut s = Store::new();
    let a = Identity { token: 11 };
    s.save_user(User {
        principal: a,
        name: None,
        email: String::from("one@b"),
        avatar_url: None,
        created_at: 1,
    });
    s.save_user(User {
        principal: a,
        name: Some(String::from("renamed")),
        email: String::from("two@b"),
        avatar_url: Some(String::from("pic")),
        created_at: 1,
    });
    let u = s.get_user_by_principal(a).unwrap();
    assert_eq!(u.email, "two@b");
    assert_eq!(u.name.as_deref(), Some("renamed"));
    assert_eq!(s.users.len(), 1);
}

#[test]
fn remove_collaboration_on_absent_id_is_noop() {
    let mut s = Store::new();
    s.remove_collaboration(&String::from("missing"));
    assert_eq!(s.get_all_collaborations().len(), 0);
}
