//! Project and track lifecycle behavior.

use nftune_backend::storage::Store;
use nftune_backend::types::{Identity, StoreError, TrackStatus};

fn registered(token: u64, store: &mut Store) -> Identity {
    let id = Identity { token };
    store
        .register_user(id, None, String::from("user@example.com"), 1)
        .unwrap();
    id
}

#[test]
fn create_project_sets_owner_and_fresh_id() {
    let mut s = Store::new();
    let a = registered(1, &mut s);
    let p = s
        .create_project(a, String::from("Summer EP"), Some(String::from("demo")), 10)
        .unwrap();
    assert_eq!(p.owner, a);
    assert_eq!(p.name, "Summer EP");
    assert_eq!(p.description.as_deref(), Some("demo"));
    assert_eq!(p.id.len(), 36);
    assert!(p.collaborators.is_empty());
    assert!(p.tracks.is_empty());
    assert!(p.nfts.is_empty());
    assert_eq!(p.created_at, 10);
    assert_eq!(p.updated_at, 10);
    let q = s
        .create_project(a, String::from("Second"), None, 11)
        .unwrap();
    assert_ne!(p.id, q.id);
    let listed = s.get_projects();
    assert_eq!(listed.len(), 2);
    assert_eq!(listed[0].name, "Summer EP");
    assert_eq!(listed[1].name, "Second");
}

#[test]
fn get_project_not_found() {
    let s = Store::new();
    assert_eq!(
        s.get_project(String::from("nope")).unwrap_err(),
        StoreError::NotFound
    );
}

#[test]
fn update_project_applies_only_given_fields() {
    let mut s = Store::new();
    let a = registered(1, &mut s);
    let p = s
        .create_project(a, String::from("Old"), Some(String::from("keep")), 10)
        .unwrap();
    let p2 = s
        .update_project(a, p.id.clone(), Some(String::from("New")), None, 20)
        .unwrap();
    assert_eq!(p2.name, "New");
    assert_eq!(p2.description.as_deref(), Some("keep"));
    assert_eq!(p2.created_at, 10);
    assert_eq!(p2.updated_at, 20);
    let fetched = s.get_project(p.id.clone()).unwrap();
    assert_eq!(fetched.name, "New");
    assert_eq!(s.projects.len(), 1);
}

#[test]
fn update_project_by_non_owner_is_forbidden() {
    let mut s = Store::new();
    let a = registered(1, &mut s);
    let b = registered(2, &mut s);
    let p = s.create_project(a, String::from("Mine"), None, 10).unwrap();
    let r = s.update_project(b, p.id.clone(), Some(String::from("Stolen")), None, 20);
    assert_eq!(r.unwrap_err(), StoreError::Forbidden);
    let fetched = s.get_project(p.id.clone()).unwrap();
    assert_eq!(fetched.name, "Mine");
    assert_eq!(fetched.updated_at, 10);
}

#[test]
fn update_unknown_project_not_found() {
    let mut s = Store::new();
    let a = registered(1, &mut s);
    let r = s.update_project(a, String::from("ghost"), Some(String::from("x")), None, 5);
    assert_eq!(r.unwrap_err(), StoreError::NotFound);
}

#[test]
fn add_track_appends_to_project_list() {
    let mut s = Store::new();
    let a = registered(1, &mut s);
    let p = s.create_project(a, String::from("P"), None, 10).unwrap();
    let t = s
        .add_track(a, p.id.clone(), String::from("Song"), String::from("Qm123"), 180, 20)
        .unwrap();
    assert_eq!(t.project_id, p.id);
    assert_eq!(t.name, "Song");
    assert_eq!(t.ipfs_hash, "Qm123");
    assert_eq!(t.duration, 180);
    assert!(matches!(t.status, TrackStatus::Draft));
    assert_eq!(t.created_at, 20);
    let fetched = s.get_project(p.id.clone()).unwrap();
    assert_eq!(fetched.tracks, vec![t.id.clone()]);
    assert_eq!(fetched.updated_at, 20);
    let listed = s.get_project_tracks(p.id.clone());
    assert_eq!(listed.len(), 1);
    assert_eq!(listed[0].id, t.id);
}

#[test]
fn add_track_by_stranger_is_forbidden() {
    let mut s = Store::new();
    let a = registered(1, &mut s);
    let b = registered(2, &mut s);
    let p = s.create_project(a, String::from("P"), None, 10).unwrap();
    let r = s.add_track(b, p.id.clone(), String::from("S"), String::from("Qm"), 1, 20);
    assert_eq!(r.unwrap_err(), StoreError::Forbidden);
    assert_eq!(s.get_all_tracks().len(), 0);
}

#[test]
fn add_track_by_collaborator_is_allowed() {
    let mut s = Store::new();
    let a = registered(1, &mut s);
    let b = registered(2, &mut s);
    let p = s.create_project(a, String::from("P"), None, 10).unwrap();
    s.add_collaborator(a, p.id.clone(), b, 30, String::from("Vocalist"), 15)
        .unwrap();
    let t = s
        .add_track(b, p.id.clone(), String::from("S"), String::from("Qm"), 1, 20)
        .unwrap();
    assert_eq!(s.get_track_by_id(&t.id).unwrap().name, "S");
}

#[test]
fn add_track_to_unknown_project_not_found() {
    let mut s = Store::new();
    let a = registered(1, &mut s);
    let r = s.add_track(a, String::from("ghost"), String::from("S"), String::from("Qm"), 1, 2);
    assert_eq!(r.unwrap_err(), StoreError::NotFound);
}

#[test]
fn get_project_tracks_filters_by_project() {
    let mut s = Store::new();
    let a = registered(1, &mut s);
    let p1 = s.create_project(a, String::from("P1"), None, 10).unwrap();
    let p2 = s.create_project(a, String::from("P2"), None, 11).unwrap();
    s.add_track(a, p1.id.clone(), String::from("S1"), String::from("Qm1"), 1, 20)
        .unwrap();
    s.add_track(a, p2.id.clone(), String::from("S2"), String::from("Qm2"), 2, 21)
        .unwrap();
    s.add_track(a, p1.id.clone(), String::from("S3"), String::from("Qm3"), 3, 22)
        .unwrap();
    let tracks = s.get_project_tracks(p1.id.clone());
    assert_eq!(tracks.len(), 2);
    assert_eq!(tracks[0].name, "S1");
    assert_eq!(tracks[1].name, "S3");
    assert_eq!(s.get_all_tracks().len(), 3);
}

#[test]
fn track_status_moves_forward_only() {
    let mut s = Store::new();
    let a = registered(1, &mut s);
    let p = s.create_project(a, String::from("P"), None, 10).unwrap();
    let t = s
        .add_track(a, p.id.clone(), String::from("S"), String::from("Qm"), 1, 20)
        .unwrap();
    let t2 = s
        .set_track_status(a, t.id.clone(), TrackStatus::Mixing)
        .unwrap();
    assert!(matches!(t2.status, TrackStatus::Mixing));
    let r = s.set_track_status(a, t.id.clone(), TrackStatus::Recording);
    assert_eq!(r.unwrap_err(), StoreError::Conflict);
    let same = s
        .set_track_status(a, t.id.clone(), TrackStatus::Mixing)
        .unwrap();
    assert!(matches!(same.status, TrackStatus::Mixing));
    let done = s
        .set_track_status(a, t.id.clone(), TrackStatus::Completed)
        .unwrap();
    assert!(matches!(done.status, TrackStatus::Completed));
    assert!(matches!(
        s.get_track_by_id(&t.id).unwrap().status,
        TrackStatus::Completed
    ));
}

#[test]
fn set_track_status_by_stranger_is_forbidden() {
    let mut s = Store::new();
    let a = registered(1, &mut s);
    let b = registered(2, &mut s);
    let p = s.create_project(a, String::from("P"), None, 10).unwrap();
    let t = s
        .add_track(a, p.id.clone(), String::from("S"), String::from("Qm"), 1, 20)
        .unwrap();
    let r = s.set_track_status(b, t.id.clone(), TrackStatus::Recording);
    assert_eq!(r.unwrap_err(), StoreError::Forbidden);
}
