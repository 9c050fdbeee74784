//! The keyed-store primitives: get-by-id, insert-or-replace put, list-all
//! in stable order, and collaboration removal.

use nftune_backend::storage::Store;
use nftune_backend::types::{Collaboration, Identity, Track, TrackStatus, NFT};

fn track(id: &str, project_id: &str, name: &str) -> Track {
    Track {
        id: String::from(id),
        project_id: String::from(project_id),
        name: String::from(name),
        ipfs_hash: String::from("Qm"),
        duration: 60,
        status: TrackStatus::Draft,
        created_at: 1,
    }
}

fn collaboration(id: &str, project_id: &str, token: u64) -> Collaboration {
    Collaboration {
        id: String::from(id),
        project_id: String::from(project_id),
        user_principal: Identity { token },
        contribution_percentage: 10,
        role: String::from("r"),
        joined_at: 1,
    }
}

#[test]
fn save_track_inserts_then_replaces() {
    let mut s = Store::new();
    assert!(s.get_track_by_id(&String::from("t1")).is_none());
    s.save_track(track("t1", "p1", "one"));
    s.save_track(track("t2", "p1", "two"));
    s.save_track(track("t1", "p1", "one-replaced"));
    let all = s.get_all_tracks();
    assert_eq!(all.len(), 2);
    assert_eq!(all[0].name, "one-replaced");
    assert_eq!(all[1].name, "two");
    assert_eq!(s.get_track_by_id(&String::from("t1")).unwrap().name, "one-replaced");
}

#[test]
fn get_all_nfts_keeps_insertion_order() {
    let mut s = Store::new();
    for id in ["n1", "n2", "n3"] {
        s.save_nft(NFT {
            id: String::from(id),
            project_id: String::from("p"),
            creator: Identity { token: 1 },
            title: String::from(id),
            description: None,
            price: None,
            royalty_percentage: 5,
            metadata_uri: String::from("m"),
            token_id: None,
            contract_address: None,
            is_minted: false,
            is_listed: false,
            opensea_url: None,
            created_at: 1,
            updated_at: 1,
        });
    }
    let all = s.get_all_nfts();
    assert_eq!(all.len(), 3);
    assert_eq!(all[0].id, "n1");
    assert_eq!(all[1].id, "n2");
    assert_eq!(all[2].id, "n3");
    assert_eq!(s.get_nft_by_id(&String::from("n2")).unwrap().title, "n2");
    assert!(s.get_nft_by_id(&String::from("n9")).is_none());
}

#[test]
fn remove_collaboration_deletes_only_the_addressed_record() {
    let mut s = Store::new();
    s.save_collaboration(collaboration("c1", "p1", 2));
    s.save_collaboration(collaboration("c2", "p1", 3));
    s.remove_collaboration(&String::from("c1"));
    let all = s.get_all_collaborations();
    assert_eq!(all.len(), 1);
    assert_eq!(all[0].id, "c2");
    assert!(s.get_collaboration_by_id(&String::from("c1")).is_none());
    assert_eq!(
        s.get_collaboration_by_id(&String::from("c2")).unwrap().user_principal,
        Identity { token: 3 }
    );
}
