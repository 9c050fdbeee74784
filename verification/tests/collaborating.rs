//! Collaboration accounting: owner-only management, bounded percentages,
//! uniqueness per project, and the one delete path.

use nftune_backend::storage::Store;
use nftune_backend::types::{Identity, StoreError};

fn registered(token: u64, store: &mut Store) -> Identity {
    let id = Identity { token };
    store
        .register_user(id, None, String::from("user@example.com"), 1)
        .unwrap();
    id
}

#[test]
fn add_collaborator_records_and_lists() {
    let mut s = Store::new();
    let a = registered(1, &mut s);
    let b = registered(2, &mut s);
    let p = s.create_project(a, String::from("P"), None, 10).unwrap();
    let c = s
        .add_collaborator(a, p.id.clone(), b, 30, String::from("Vocalist"), 15)
        .unwrap();
    assert_eq!(c.project_id, p.id);
    assert_eq!(c.user_principal, b);
    assert_eq!(c.contribution_percentage, 30);
    assert_eq!(c.role, "Vocalist");
    assert_eq!(c.joined_at, 15);
    let fetched = s.get_project(p.id.clone()).unwrap();
    assert_eq!(fetched.collaborators, vec![b]);
    assert_eq!(fetched.updated_at, 15);
    let listed = s.get_project_collaborators(p.id.clone());
    assert_eq!(listed.len(), 1);
    assert_eq!(listed[0].id, c.id);
}

#[test]
fn duplicate_collaborator_is_conflict_and_listed_once() {
    let mut s = Store::new();
    let a = registered(1, &mut s);
    let b = registered(2, &mut s);
    let p = s.create_project(a, String::from("P"), None, 10).unwrap();
    s.add_collaborator(a, p.id.clone(), b, 30, String::from("Vocalist"), 15)
        .unwrap();
    let second = s.add_collaborator(a, p.id.clone(), b, 40, String::from("Producer"), 16);
    assert_eq!(second.unwrap_err(), StoreError::Conflict);
    let fetched = s.get_project(p.id.clone()).unwrap();
    let occurrences = fetched.collaborators.iter().filter(|x| **x == b).count();
    assert_eq!(occurrences, 1);
    assert_eq!(s.get_project_collaborators(p.id.clone()).len(), 1);
}

#[test]
fn only_owner_adds_collaborators() {
    let mut s = Store::new();
    let a = registered(1, &mut s);
    let b = registered(2, &mut s);
    let c = registered(3, &mut s);
    let p = s.create_project(a, String::from("P"), None, 10).unwrap();
    s.add_collaborator(a, p.id.clone(), b, 30, String::from("Vocalist"), 15)
        .unwrap();
    // Even a listed collaborator may not add further collaborators.
    let r = s.add_collaborator(b, p.id.clone(), c, 10, String::from("Drums"), 16);
    assert_eq!(r.unwrap_err(), StoreError::Forbidden);
}

#[test]
fn contribution_over_100_is_invalid_argument() {
    let mut s = Store::new();
    let a = registered(1, &mut s);
    let b = registered(2, &mut s);
    let p = s.create_project(a, String::from("P"), None, 10).unwrap();
    let r = s.add_collaborator(a, p.id.clone(), b, 101, String::from("V"), 15);
    assert_eq!(r.unwrap_err(), StoreError::InvalidArgument);
    let full = s
        .add_collaborator(a, p.id.clone(), b, 100, String::from("V"), 16)
        .unwrap();
    assert_eq!(full.contribution_percentage, 100);
}

#[test]
fn remove_collaborator_deletes_record_and_list_entry() {
    let mut s = Store::new();
    let a = registered(1, &mut s);
    let b = registered(2, &mut s);
    let p = s.create_project(a, String::from("P"), None, 10).unwrap();
    let c = s
        .add_collaborator(a, p.id.clone(), b, 30, String::from("Vocalist"), 15)
        .unwrap();
    s.remove_collaborator(a, p.id.clone(), c.id.clone(), 20).unwrap();
    let fetched = s.get_project(p.id.clone()).unwrap();
    assert!(fetched.collaborators.is_empty());
    assert_eq!(fetched.updated_at, 20);
    assert!(s.get_collaboration_by_id(&c.id).is_none());
    assert_eq!(s.get_project_collaborators(p.id.clone()).len(), 0);
    // Afterwards the identity may be added again.
    s.add_collaborator(a, p.id.clone(), b, 25, String::from("Producer"), 21)
        .unwrap();
}

#[test]
fn remove_collaborator_by_non_owner_is_forbidden() {
    let mut s = Store::new();
    let a = registered(1, &mut s);
    let b = registered(2, &mut s);
    let p = s.create_project(a, String::from("P"), None, 10).unwrap();
    let c = s
        .add_collaborator(a, p.id.clone(), b, 30, String::from("Vocalist"), 15)
        .unwrap();
    let r = s.remove_collaborator(b, p.id.clone(), c.id.clone(), 20);
    assert_eq!(r.unwrap_err(), StoreError::Forbidden);
    assert_eq!(s.get_project_collaborators(p.id.clone()).len(), 1);
}

#[test]
fn mismatched_removal_is_invalid_and_changes_nothing() {
    let mut s = Store::new();
    let a = registered(1, &mut s);
    let b = registered(2, &mut s);
    let c = registered(3, &mut s);
    let p1 = s.create_project(a, String::from("P1"), None, 10).unwrap();
    let p2 = s.create_project(a, String::from("P2"), None, 11).unwrap();
    let c1 = s
        .add_collaborator(a, p1.id.clone(), b, 30, String::from("Vocalist"), 15)
        .unwrap();
    let c2 = s
        .add_collaborator(a, p2.id.clone(), c, 20, String::from("Drums"), 16)
        .unwrap();
    // c2 belongs to p2, not p1.
    let r = s.remove_collaborator(a, p1.id.clone(), c2.id.clone(), 20);
    assert_eq!(r.unwrap_err(), StoreError::InvalidArgument);
    let f1 = s.get_project(p1.id.clone()).unwrap();
    let f2 = s.get_project(p2.id.clone()).unwrap();
    assert_eq!(f1.collaborators, vec![b]);
    assert_eq!(f2.collaborators, vec![c]);
    assert_eq!(f1.updated_at, 15);
    assert_eq!(f2.updated_at, 16);
    assert!(s.get_collaboration_by_id(&c1.id).is_some());
    assert!(s.get_collaboration_by_id(&c2.id).is_some());
}

#[test]
fn remove_unknown_collaboration_not_found() {
    let mut s = Store::new();
    let a = registered(1, &mut s);
    let p = s.create_project(a, String::from("P"), None, 10).unwrap();
    let r = s.remove_collaborator(a, p.id.clone(), String::from("ghost"), 20);
    assert_eq!(r.unwrap_err(), StoreError::NotFound);
}

#[test]
fn collaboration_scenario_end_to_end() {
    // A registers, creates P, adds B at 30% as Vocalist; B cannot rename
    // the project; A can, and the new name sticks.
    let mut s = Store::new();
    let a = registered(1, &mut s);
    let b = registered(2, &mut s);
    let p = s.create_project(a, String::from("P"), None, 10).unwrap();
    assert_eq!(p.owner, a);
    let c = s
        .add_collaborator(a, p.id.clone(), b, 30, String::from("Vocalist"), 15)
        .unwrap();
    assert_eq!(c.contribution_percentage, 30);
    let denied = s.update_project(b, p.id.clone(), Some(String::from("X")), None, 20);
    assert_eq!(denied.unwrap_err(), StoreError::Forbidden);
    let renamed = s
        .update_project(a, p.id.clone(), Some(String::from("X")), None, 21)
        .unwrap();
    assert_eq!(renamed.name, "X");
    assert_eq!(s.get_project(p.id.clone()).unwrap().name, "X");
}

#[test]
fn minting_scenario_end_to_end() {
    // A creates NFT N on P with royalty 10, mints it with token "1" on
    // contract "0xABC"; the minted record carries all derived fields.
    let mut s = Store::new();
    let a = registered(1, &mut s);
    let p = s.create_project(a, String::from("P"), None, 10).unwrap();
    let n = s
        .create_nft(a, p.id.clone(), String::from("N"), None, None, 10, String::from("m"), 20)
        .unwrap();
    assert_eq!(n.royalty_percentage, 10);
    let minted = s
        .mint_nft(a, n.id.clone(), String::from("1"), String::from("0xABC"), 30)
        .unwrap();
    assert!(minted.is_minted);
    assert_eq!(minted.token_id.as_deref(), Some("1"));
    assert_eq!(
        minted.opensea_url.as_deref(),
        Some("https://opensea.io/assets/ethereum/0xABC/1")
    );
}
