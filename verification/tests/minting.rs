//! NFT creation bounds and the one-way minting state machine.

use nftune_backend::nfts::build_marketplace_url;
use nftune_backend::storage::Store;
use nftune_backend::types::{Identity, StoreError};

fn registered(token: u64, store: &mut Store) -> Identity {
    let id = Identity { token };
    store
        .register_user(id, None, String::from("user@example.com"), 1)
        .unwrap();
    id
}

#[test]
fn royalty_at_most_50_is_accepted() {
    let mut s = Store::new();
    let a = registered(1, &mut s);
    let p = s.create_project(a, String::from("P"), None, 10).unwrap();
    let n = s
        .create_nft(
            a,
            p.id.clone(),
            String::from("N"),
            None,
            Some(100),
            50,
            String::from("ipfs://meta"),
            20,
        )
        .unwrap();
    assert_eq!(n.royalty_percentage, 50);
    assert_eq!(n.creator, a);
    assert!(!n.is_minted);
    assert!(!n.is_listed);
    assert!(n.token_id.is_none());
    assert!(n.contract_address.is_none());
    assert!(n.opensea_url.is_none());
    let fetched = s.get_project(p.id.clone()).unwrap();
    assert_eq!(fetched.nfts, vec![n.id.clone()]);
}

#[test]
fn royalty_51_is_invalid_argument() {
    let mut s = Store::new();
    let a = registered(1, &mut s);
    let p = s.create_project(a, String::from("P"), None, 10).unwrap();
    let r = s.create_nft(
        a,
        p.id.clone(),
        String::from("N"),
        None,
        None,
        51,
        String::from("ipfs://meta"),
        20,
    );
    assert_eq!(r.unwrap_err(), StoreError::InvalidArgument);
    assert_eq!(s.get_nfts().len(), 0);
    assert!(s.get_project(p.id.clone()).unwrap().nfts.is_empty());
}

#[test]
fn create_nft_by_stranger_is_forbidden() {
    let mut s = Store::new();
    let a = registered(1, &mut s);
    let b = registered(2, &mut s);
    let p = s.create_project(a, String::from("P"), None, 10).unwrap();
    let r = s.create_nft(
        b,
        p.id.clone(),
        String::from("N"),
        None,
        None,
        10,
        String::from("m"),
        20,
    );
    assert_eq!(r.unwrap_err(), StoreError::Forbidden);
}

#[test]
fn mint_is_one_way() {
    let mut s = Store::new();
    let a = registered(1, &mut s);
    let p = s.create_project(a, String::from("P"), None, 10).unwrap();
    let n = s
        .create_nft(a, p.id.clone(), String::from("N"), None, None, 10, String::from("m"), 20)
        .unwrap();
    let minted = s
        .mint_nft(a, n.id.clone(), String::from("1"), String::from("0xABC"), 30)
        .unwrap();
    assert!(minted.is_minted);
    let again = s.mint_nft(a, n.id.clone(), String::from("2"), String::from("0xDEF"), 40);
    assert_eq!(again.unwrap_err(), StoreError::Conflict);
    let fetched = s.get_nft(n.id.clone()).unwrap();
    assert_eq!(fetched.token_id.as_deref(), Some("1"));
    assert_eq!(fetched.contract_address.as_deref(), Some("0xABC"));
    assert_eq!(fetched.updated_at, 30);
}

#[test]
fn mint_fills_all_fields_and_derives_url() {
    let mut s = Store::new();
    let a = registered(1, &mut s);
    let p = s.create_project(a, String::from("P"), None, 10).unwrap();
    let n = s
        .create_nft(a, p.id.clone(), String::from("N"), None, None, 10, String::from("m"), 20)
        .unwrap();
    let minted = s
        .mint_nft(a, n.id.clone(), String::from("1"), String::from("0xABC"), 30)
        .unwrap();
    assert!(minted.is_minted);
    assert_eq!(minted.token_id.as_deref(), Some("1"));
    assert_eq!(minted.contract_address.as_deref(), Some("0xABC"));
    assert_eq!(
        minted.opensea_url.as_deref(),
        Some("https://opensea.io/assets/ethereum/0xABC/1")
    );
    assert_eq!(minted.created_at, 20);
    assert_eq!(minted.updated_at, 30);
}

#[test]
fn marketplace_url_uses_both_parts() {
    let url = build_marketplace_url(&String::from("0xFEED"), &String::from("42"));
    assert_eq!(url, "https://opensea.io/assets/ethereum/0xFEED/42");
}

#[test]
fn mint_by_non_creator_is_forbidden() {
    let mut s = Store::new();
    let a = registered(1, &mut s);
    let b = registered(2, &mut s);
    let p = s.create_project(a, String::from("P"), None, 10).unwrap();
    s.add_collaborator(a, p.id.clone(), b, 30, String::from("Vocalist"), 15)
        .unwrap();
    let n = s
        .create_nft(a, p.id.clone(), String::from("N"), None, None, 10, String::from("m"), 20)
        .unwrap();
    let r = s.mint_nft(b, n.id.clone(), String::from("1"), String::from("0xABC"), 30);
    assert_eq!(r.unwrap_err(), StoreError::Forbidden);
    assert!(!s.get_nft(n.id.clone()).unwrap().is_minted);
}

#[test]
fn mint_unknown_nft_not_found() {
    let mut s = Store::new();
    let a = registered(1, &mut s);
    let r = s.mint_nft(a, String::from("ghost"), String::from("1"), String::from("0x"), 5);
    assert_eq!(r.unwrap_err(), StoreError::NotFound);
}

#[test]
fn get_project_nfts_filters_by_project() {
    let mut s = Store::new();
    let a = registered(1, &mut s);
    let p1 = s.create_project(a, String::from("P1"), None, 10).unwrap();
    let p2 = s.create_project(a, String::from("P2"), None, 11).unwrap();
    let n1 = s
        .create_nft(a, p1.id.clone(), String::from("N1"), None, None, 1, String::from("m1"), 20)
        .unwrap();
    s.create_nft(a, p2.id.clone(), String::from("N2"), None, None, 2, String::from("m2"), 21)
        .unwrap();
    let listed = s.get_project_nfts(p1.id.clone());
    assert_eq!(listed.len(), 1);
    assert_eq!(listed[0].id, n1.id);
    assert_eq!(s.get_nfts().len(), 2);
    assert_eq!(
        s.get_nft(String::from("ghost")).unwrap_err(),
        StoreError::NotFound
    );
}

#[test]
fn nft_created_by_collaborator_is_allowed() {
    let mut s = Store::new();
    let a = registered(1, &mut s);
    let b = registered(2, &mut s);
    let p = s.create_project(a, String::from("P"), None, 10).unwrap();
    s.add_collaborator(a, p.id.clone(), b, 30, String::from("Vocalist"), 15)
        .unwrap();
    let n = s
        .create_nft(b, p.id.clone(), String::from("N"), None, None, 10, String::from("m"), 20)
        .unwrap();
    assert_eq!(n.creator, b);
}
