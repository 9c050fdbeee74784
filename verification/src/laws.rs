//! Laws of the store: properties that relate several operations or several
//! calls of one operation, proved once and for all over the operations'
//! state transitions.

use vstd::prelude::*;

use crate::collaborations::{spec_add_collaborator, spec_remove_collaborator};
use crate::keyed::{
    count_of, distinct_by, idkey, lemma_count_of_distinct, lemma_distinct_push,
    lemma_find_by_props, lemma_find_by_put_by, lemma_find_val_contains,
};
use crate::nfts::{spec_create_nft, spec_mint_nft};
use crate::projects::{spec_create_project, spec_update_project};
use crate::storage::{nkey, pkey, StoreView};
use crate::types::{CollaborationView, Identity, NftView, ProjectView, StoreError};

verus! {

/// A created project is owned by its creator, and an update of it
/// attempted by any other registered identity is rejected with
/// `Forbidden` and changes nothing.
pub proof fn lemma_owner_gates_update(
    s: StoreView,
    u: Identity,
    id: Seq<char>,
    name: Seq<char>,
    description: Option<Seq<char>>,
    now: u64,
    v: Identity,
    name2: Option<Seq<char>>,
    description2: Option<Seq<char>>,
    now2: u64,
)
    requires
        spec_create_project(s, u, id, name, description, now).1 is Ok,
        s.authenticated(v),
        v != u,
    ensures
        ({
            let (s1, res) = spec_create_project(s, u, id, name, description, now);
            &&& res.unwrap().owner == u
            &&& spec_update_project(s1, v, id, name2, description2, now2) == (
                s1,
                Err::<ProjectView, StoreError>(StoreError::Forbidden),
            )
        }),
{
    let (s1, res) = spec_create_project(s, u, id, name, description, now);
    let p = res.unwrap();
    assert(p.owner == u);
    lemma_find_by_put_by(s.projects, pkey(), p, id);
    assert(s1.project(id) == Some(p));
    assert(s1.users == s.users);
    assert(s1.gate(v) is None);
}

/// Minting is one-way: after a successful mint of an NFT, a further mint
/// attempt on the same id by the same caller fails with `Conflict`,
/// whatever token id and contract address it carries, and changes
/// nothing.
pub proof fn lemma_mint_is_one_way(
    s: StoreView,
    caller: Identity,
    id: Seq<char>,
    token_id: Seq<char>,
    contract_address: Seq<char>,
    now: u64,
    token_id2: Seq<char>,
    contract_address2: Seq<char>,
    now2: u64,
)
    requires
        spec_mint_nft(s, caller, id, token_id, contract_address, now).1 is Ok,
    ensures
        ({
            let s1 = spec_mint_nft(s, caller, id, token_id, contract_address, now).0;
            spec_mint_nft(s1, caller, id, token_id2, contract_address2, now2) == (
                s1,
                Err::<NftView, StoreError>(StoreError::Conflict),
            )
        }),
{
    let (s1, res) = spec_mint_nft(s, caller, id, token_id, contract_address, now);
    let n = s.nft(id).unwrap();
    let n2 = res.unwrap();
    lemma_find_by_props(s.nfts, nkey(), id);
    assert(n.id == id);
    assert(n2.id == id && n2.is_minted && n2.creator == caller);
    lemma_find_by_put_by(s.nfts, nkey(), n2, id);
    assert(s1.nft(id) == Some(n2));
    assert(s1.users == s.users);
    assert(s1.gate(caller) is None);
}

/// A collaborator can be added to a project only once: after a successful
/// addition, a second attempt for the same identity by the same caller,
/// with an in-range percentage, fails with `Conflict` and changes
/// nothing, and the project's collaborator list then carries the identity
/// exactly once.
pub proof fn lemma_no_duplicate_collaborator(
    s: StoreView,
    caller: Identity,
    id: Seq<char>,
    project_id: Seq<char>,
    user_principal: Identity,
    contribution_percentage: u8,
    role: Seq<char>,
    now: u64,
    id2: Seq<char>,
    contribution_percentage2: u8,
    role2: Seq<char>,
    now2: u64,
)
    requires
        s.inv(),
        contribution_percentage2 <= 100,
        spec_add_collaborator(
            s,
            caller,
            id,
            project_id,
            user_principal,
            contribution_percentage,
            role,
            now,
        ).1 is Ok,
    ensures
        ({
            let s1 = spec_add_collaborator(
                s,
                caller,
                id,
                project_id,
                user_principal,
                contribution_percentage,
                role,
                now,
            ).0;
            &&& spec_add_collaborator(
                s1,
                caller,
                id2,
                project_id,
                user_principal,
                contribution_percentage2,
                role2,
                now2,
            ) == (s1, Err::<CollaborationView, StoreError>(StoreError::Conflict))
            &&& count_of(s1.project(project_id).unwrap().collaborators, user_principal) == 1
        }),
{
    let (s1, res) = spec_add_collaborator(
        s,
        caller,
        id,
        project_id,
        user_principal,
        contribution_percentage,
        role,
        now,
    );
    let p = s.project(project_id).unwrap();
    let c = res.unwrap();
    lemma_find_by_props(s.projects, pkey(), project_id);
    assert(p.id == project_id);
    let p2 = ProjectView {
        collaborators: p.collaborators.push(user_principal),
        updated_at: now,
        ..p
    };
    lemma_find_by_put_by(s.projects, pkey(), p2, project_id);
    assert(s1.project(project_id) == Some(p2));
    assert(s1.users == s.users);
    assert(s1.gate(caller) is None);
    assert(p2.owner == caller);
    assert(p2.collaborators[p.collaborators.len() as int] == user_principal);
    assert(p2.collaborators.contains(user_principal));
    // The list carries the identity exactly once: it was absent before the
    // push and the list keeps pairwise distinct entries.
    assert(s.projects.contains(p));
    let l0 = choose|l: int| 0 <= l < s.projects.len() && s.projects[l] == p;
    assert(distinct_by(s.projects[l0].collaborators, idkey()));
    lemma_find_val_contains(p.collaborators, user_principal);
    lemma_distinct_push(p.collaborators, idkey(), user_principal);
    lemma_count_of_distinct(p2.collaborators, user_principal);
}

/// A royalty percentage within [0, 50] is accepted and one above 50 is
/// rejected with `InvalidArgument`, all other creation conditions being
/// met.
pub proof fn lemma_royalty_bound(
    s: StoreView,
    caller: Identity,
    id: Seq<char>,
    project_id: Seq<char>,
    title: Seq<char>,
    description: Option<Seq<char>>,
    price: Option<u64>,
    royalty_percentage: u8,
    metadata_uri: Seq<char>,
    now: u64,
)
    requires
        s.authenticated(caller),
        (s.project(project_id) matches Some(p) && StoreView::may_contribute(p, caller)),
        s.nft(id) is None,
    ensures
        spec_create_nft(
            s,
            caller,
            id,
            project_id,
            title,
            description,
            price,
            royalty_percentage,
            metadata_uri,
            now,
        ).1 is Ok <==> royalty_percentage <= 50,
        royalty_percentage > 50 ==> spec_create_nft(
            s,
            caller,
            id,
            project_id,
            title,
            description,
            price,
            royalty_percentage,
            metadata_uri,
            now,
        ) == (s, Err::<NftView, StoreError>(StoreError::InvalidArgument)),
{
}

/// Removing a collaboration through a project it does not belong to is
/// rejected with `InvalidArgument` and changes nothing: neither project
/// nor the collaboration record is touched.
pub proof fn lemma_mismatched_removal_changes_nothing(
    s: StoreView,
    caller: Identity,
    project_id: Seq<char>,
    collaboration_id: Seq<char>,
    now: u64,
)
    requires
        s.authenticated(caller),
        (s.project(project_id) matches Some(p) && p.owner == caller),
        (s.collaboration(collaboration_id) matches Some(c) && c.project_id != project_id),
    ensures
        spec_remove_collaborator(s, caller, project_id, collaboration_id, now) == (
            s,
            Err::<(), StoreError>(StoreError::InvalidArgument),
        ),
{
}

} // verus!
