//! The durable keyed store: five independent keyed collections (users,
//! projects, tracks, NFTs, collaborations) with get-by-id, put
//! (insert-or-replace) and list-all primitives.
//!
//! The ghost model of the store is [`StoreView`]: one record sequence per
//! collection, looked up through the key functions of [`crate::keyed`].
//! [`StoreView::inv`] states the cross-collection invariants that every
//! domain operation preserves.

use vstd::prelude::*;

use crate::keyed::{
    distinct_by, find_by, idkey, lemma_find_by_at, lemma_find_by_none, lemma_put_by_push,
    lemma_put_by_update, lemma_remove_by_absent, lemma_remove_by_at, put_by, remove_by,
};
use crate::types::{
    Collaboration, CollaborationView, Identity, NftView, Project, ProjectView, StoreError, Track,
    TrackView, User, UserView, NFT,
};

verus! {

/// Key of a user record: its identity token.
pub open spec fn ukey() -> spec_fn(UserView) -> Identity {
    |u: UserView| u.principal
}

/// Key of a project record: its id.
pub open spec fn pkey() -> spec_fn(ProjectView) -> Seq<char> {
    |p: ProjectView| p.id
}

/// Key of a track record: its id.
pub open spec fn tkey() -> spec_fn(TrackView) -> Seq<char> {
    |t: TrackView| t.id
}

/// Key of an NFT record: its id.
pub open spec fn nkey() -> spec_fn(NftView) -> Seq<char> {
    |n: NftView| n.id
}

/// Key of a collaboration record: its id.
pub open spec fn ckey() -> spec_fn(CollaborationView) -> Seq<char> {
    |c: CollaborationView| c.id
}

/// Secondary key of a collaboration record: the (project, collaborator)
/// pair, which is unique among all collaboration records.
pub open spec fn cpairkey() -> spec_fn(CollaborationView) -> (Seq<char>, Identity) {
    |c: CollaborationView| (c.project_id, c.user_principal)
}

/// Ghost model of the whole store.
pub struct StoreView {
    pub users: Seq<UserView>,
    pub projects: Seq<ProjectView>,
    pub tracks: Seq<TrackView>,
    pub nfts: Seq<NftView>,
    pub collaborations: Seq<CollaborationView>,
}

impl StoreView {
    /// The store with no records at all.
    pub open spec fn empty() -> StoreView {
        StoreView {
            users: Seq::empty(),
            projects: Seq::empty(),
            tracks: Seq::empty(),
            nfts: Seq::empty(),
            collaborations: Seq::empty(),
        }
    }

    /// The user record of `who`, if registered.
    pub open spec fn user(self, who: Identity) -> Option<UserView> {
        find_by(self.users, ukey(), who)
    }

    /// The project with id `id`, if any.
    pub open spec fn project(self, id: Seq<char>) -> Option<ProjectView> {
        find_by(self.projects, pkey(), id)
    }

    /// The track with id `id`, if any.
    pub open spec fn track(self, id: Seq<char>) -> Option<TrackView> {
        find_by(self.tracks, tkey(), id)
    }

    /// The NFT with id `id`, if any.
    pub open spec fn nft(self, id: Seq<char>) -> Option<NftView> {
        find_by(self.nfts, nkey(), id)
    }

    /// The collaboration with id `id`, if any.
    pub open spec fn collaboration(self, id: Seq<char>) -> Option<CollaborationView> {
        find_by(self.collaborations, ckey(), id)
    }

    /// The collaboration of `who` on project `pid`, if any.
    pub open spec fn pair(self, pid: Seq<char>, who: Identity) -> Option<CollaborationView> {
        find_by(self.collaborations, cpairkey(), (pid, who))
    }

    /// Insert-or-replace of a user record.
    pub open spec fn put_user(self, u: UserView) -> StoreView {
        StoreView { users: put_by(self.users, ukey(), u), ..self }
    }

    /// Insert-or-replace of a project record.
    pub open spec fn put_project(self, p: ProjectView) -> StoreView {
        StoreView { projects: put_by(self.projects, pkey(), p), ..self }
    }

    /// Insert-or-replace of a track record.
    pub open spec fn put_track(self, t: TrackView) -> StoreView {
        StoreView { tracks: put_by(self.tracks, tkey(), t), ..self }
    }

    /// Insert-or-replace of an NFT record.
    pub open spec fn put_nft(self, n: NftView) -> StoreView {
        StoreView { nfts: put_by(self.nfts, nkey(), n), ..self }
    }

    /// Insert-or-replace of a collaboration record.
    pub open spec fn put_collaboration(self, c: CollaborationView) -> StoreView {
        StoreView { collaborations: put_by(self.collaborations, ckey(), c), ..self }
    }

    /// Removal of the collaboration record with id `id`.
    pub open spec fn drop_collaboration(self, id: Seq<char>) -> StoreView {
        StoreView { collaborations: remove_by(self.collaborations, ckey(), id), ..self }
    }

    /// The identity gate: `None` when `caller` passes, otherwise the error
    /// that every mutating operation reports before touching any state.
    pub open spec fn gate(self, caller: Identity) -> Option<StoreError> {
        if caller.is_anonymous() {
            Some(StoreError::Unauthenticated)
        } else if self.user(caller) is None {
            Some(StoreError::NotRegistered)
        } else {
            None
        }
    }

    /// Whether `caller` passes the identity gate.
    pub open spec fn authenticated(self, caller: Identity) -> bool {
        self.gate(caller) is None
    }

    /// Whether `who` may contribute to project `p`: its owner, or a listed
    /// collaborator.
    pub open spec fn may_contribute(p: ProjectView, who: Identity) -> bool {
        p.owner == who || p.collaborators.contains(who)
    }

    /// Each collection's records have pairwise distinct ids.
    pub open spec fn ids_distinct(self) -> bool {
        &&& distinct_by(self.users, ukey())
        &&& distinct_by(self.projects, pkey())
        &&& distinct_by(self.tracks, tkey())
        &&& distinct_by(self.nfts, nkey())
        &&& distinct_by(self.collaborations, ckey())
    }

    /// No registered user bears the anonymous sentinel identity.
    pub open spec fn users_valid(self) -> bool {
        forall|i: int|
            0 <= i < self.users.len() ==> !(#[trigger] self.users[i]).principal.is_anonymous()
    }

    /// A track references an existing project that lists its id.
    pub open spec fn track_linked(self, t: TrackView) -> bool {
        match self.project(t.project_id) {
            Some(p) => p.tracks.contains(t.id),
            None => false,
        }
    }

    /// An id listed in a project's track list names an existing track of
    /// that project.
    pub open spec fn track_entry_ok(self, p: ProjectView, j: int) -> bool {
        match self.track(p.tracks[j]) {
            Some(t) => t.project_id == p.id,
            None => false,
        }
    }

    /// The track collection and the projects' denormalized track lists
    /// describe the same ownership relation.
    pub open spec fn tracks_consistent(self) -> bool {
        &&& forall|i: int|
            0 <= i < self.tracks.len() ==> self.track_linked(#[trigger] self.tracks[i])
        &&& forall|i: int, j: int|
            #![trigger self.projects[i].tracks[j]]
            0 <= i < self.projects.len() && 0 <= j < self.projects[i].tracks.len()
                ==> self.track_entry_ok(self.projects[i], j)
        &&& forall|i: int|
            0 <= i < self.projects.len() ==> distinct_by(
                (#[trigger] self.projects[i]).tracks,
                idkey(),
            )
    }

    /// An NFT references an existing project that lists its id, its royalty
    /// percentage is within [0, 50], and its minting fields are
    /// all-or-nothing.
    pub open spec fn nft_linked(self, n: NftView) -> bool {
        match self.project(n.project_id) {
            Some(p) => p.nfts.contains(n.id),
            None => false,
        }
    }

    /// The minting state machine: royalty bounded, and token id, contract
    /// address and marketplace URL all present exactly when minted.
    pub open spec fn nft_state_ok(n: NftView) -> bool {
        &&& n.royalty_percentage <= 50
        &&& n.is_minted <==> n.token_id is Some
        &&& n.is_minted <==> n.contract_address is Some
        &&& n.is_minted <==> n.opensea_url is Some
    }

    /// An id listed in a project's NFT list names an existing NFT of that
    /// project.
    pub open spec fn nft_entry_ok(self, p: ProjectView, j: int) -> bool {
        match self.nft(p.nfts[j]) {
            Some(n) => n.project_id == p.id,
            None => false,
        }
    }

    /// The NFT collection and the projects' denormalized NFT lists describe
    /// the same ownership relation, and every NFT is in a sound minting
    /// state.
    pub open spec fn nfts_consistent(self) -> bool {
        &&& forall|i: int| 0 <= i < self.nfts.len() ==> self.nft_linked(#[trigger] self.nfts[i])
        &&& forall|i: int| 0 <= i < self.nfts.len() ==> Self::nft_state_ok(#[trigger] self.nfts[i])
        &&& forall|i: int, j: int|
            #![trigger self.projects[i].nfts[j]]
            0 <= i < self.projects.len() && 0 <= j < self.projects[i].nfts.len()
                ==> self.nft_entry_ok(self.projects[i], j)
        &&& forall|i: int|
            0 <= i < self.projects.len() ==> distinct_by(
                (#[trigger] self.projects[i]).nfts,
                idkey(),
            )
    }

    /// A collaboration record references an existing project whose
    /// collaborator list carries the collaborator, and its contribution
    /// percentage is within [0, 100].
    pub open spec fn collaboration_linked(self, c: CollaborationView) -> bool {
        match self.project(c.project_id) {
            Some(p) => p.collaborators.contains(c.user_principal),
            None => false,
        }
    }

    /// The collaboration collection and the projects' denormalized
    /// collaborator lists describe the same relation, with each
    /// (project, collaborator) pair appearing at most once.
    pub open spec fn collaborations_consistent(self) -> bool {
        &&& forall|i: int|
            0 <= i < self.collaborations.len() ==> self.collaboration_linked(
                #[trigger] self.collaborations[i],
            )
        &&& forall|i: int|
            0 <= i < self.collaborations.len() ==> (#[trigger] self.collaborations[i])
                .contribution_percentage <= 100
        &&& distinct_by(self.collaborations, cpairkey())
        &&& forall|i: int, j: int|
            #![trigger self.projects[i].collaborators[j]]
            0 <= i < self.projects.len() && 0 <= j < self.projects[i].collaborators.len()
                ==> self.pair(self.projects[i].id, self.projects[i].collaborators[j]) is Some
        &&& forall|i: int|
            0 <= i < self.projects.len() ==> distinct_by(
                (#[trigger] self.projects[i]).collaborators,
                idkey(),
            )
    }

    /// The store invariant: established by [`Store::new`] and preserved by
    /// every domain operation.
    pub open spec fn inv(self) -> bool {
        &&& self.ids_distinct()
        &&& self.users_valid()
        &&& self.tracks_consistent()
        &&& self.nfts_consistent()
        &&& self.collaborations_consistent()
    }
}

/// The process-wide store: one instance owns all five collections and is
/// handed by reference into every domain operation.
#[derive(Debug)]
pub struct Store {
    pub users: Vec<User>,
    pub projects: Vec<Project>,
    pub tracks: Vec<Track>,
    pub nfts: Vec<NFT>,
    pub collaborations: Vec<Collaboration>,
}

impl View for Store {
    type V = StoreView;

    open spec fn view(&self) -> StoreView {
        StoreView {
            users: self.users.deep_view(),
            projects: self.projects.deep_view(),
            tracks: self.tracks.deep_view(),
            nfts: self.nfts.deep_view(),
            collaborations: self.collaborations.deep_view(),
        }
    }
}

/// Position of the first user record of `principal`, if any.
fn user_index(v: &Vec<User>, principal: Identity) -> (r: Option<usize>)
    ensures
        match r {
            Some(i) => 0 <= i < v.deep_view().len() && v.deep_view()[i as int].principal
                == principal && (forall|j: int|
                0 <= j < i ==> v.deep_view()[j].principal != principal),
            None => forall|j: int| 0 <= j < v.deep_view().len() ==> v.deep_view()[j].principal
                != principal,
        },
{
    let n = v.len();
    let mut i: usize = 0;
    while i < n
        invariant
            i <= n,
            n == v@.len(),
            forall|j: int| 0 <= j < i ==> v.deep_view()[j].principal != principal,
        decreases n - i,
    {
        proof {
            assert(v.deep_view()[i as int] == v@[i as int]@);
        }
        if v[i].principal.token == principal.token {
            return Some(i);
        }
        i = i + 1;
    }
    None
}

/// Position of the first project record with id `id`, if any.
fn project_index(v: &Vec<Project>, id: &String) -> (r: Option<usize>)
    ensures
        match r {
            Some(i) => 0 <= i < v.deep_view().len() && v.deep_view()[i as int].id == id@ && (
            forall|j: int| 0 <= j < i ==> v.deep_view()[j].id != id@),
            None => forall|j: int| 0 <= j < v.deep_view().len() ==> v.deep_view()[j].id != id@,
        },
{
    let n = v.len();
    let mut i: usize = 0;
    while i < n
        invariant
            i <= n,
            n == v@.len(),
            forall|j: int| 0 <= j < i ==> v.deep_view()[j].id != id@,
        decreases n - i,
    {
        proof {
            assert(v.deep_view()[i as int] == v@[i as int]@);
        }
        if v[i].id == *id {
            return Some(i);
        }
        i = i + 1;
    }
    None
}

/// Position of the first track record with id `id`, if any.
fn track_index(v: &Vec<Track>, id: &String) -> (r: Option<usize>)
    ensures
        match r {
            Some(i) => 0 <= i < v.deep_view().len() && v.deep_view()[i as int].id == id@ && (
            forall|j: int| 0 <= j < i ==> v.deep_view()[j].id != id@),
            None => forall|j: int| 0 <= j < v.deep_view().len() ==> v.deep_view()[j].id != id@,
        },
{
    let n = v.len();
    let mut i: usize = 0;
    while i < n
        invariant
            i <= n,
            n == v@.len(),
            forall|j: int| 0 <= j < i ==> v.deep_view()[j].id != id@,
        decreases n - i,
    {
        proof {
            assert(v.deep_view()[i as int] == v@[i as int]@);
        }
        if v[i].id == *id {
            return Some(i);
        }
        i = i + 1;
    }
    None
}

/// Position of the first NFT record with id `id`, if any.
fn nft_index(v: &Vec<NFT>, id: &String) -> (r: Option<usize>)
    ensures
        match r {
            Some(i) => 0 <= i < v.deep_view().len() && v.deep_view()[i as int].id == id@ && (
            forall|j: int| 0 <= j < i ==> v.deep_view()[j].id != id@),
            None => forall|j: int| 0 <= j < v.deep_view().len() ==> v.deep_view()[j].id != id@,
        },
{
    let n = v.len();
    let mut i: usize = 0;
    while i < n
        invariant
            i <= n,
            n == v@.len(),
            forall|j: int| 0 <= j < i ==> v.deep_view()[j].id != id@,
        decreases n - i,
    {
        proof {
            assert(v.deep_view()[i as int] == v@[i as int]@);
        }
        if v[i].id == *id {
            return Some(i);
        }
        i = i + 1;
    }
    None
}

/// Position of the first collaboration record with id `id`, if any.
fn collaboration_index(v: &Vec<Collaboration>, id: &String) -> (r: Option<usize>)
    ensures
        match r {
            Some(i) => 0 <= i < v.deep_view().len() && v.deep_view()[i as int].id == id@ && (
            forall|j: int| 0 <= j < i ==> v.deep_view()[j].id != id@),
            None => forall|j: int| 0 <= j < v.deep_view().len() ==> v.deep_view()[j].id != id@,
        },
{
    let n = v.len();
    let mut i: usize = 0;
    while i < n
        invariant
            i <= n,
            n == v@.len(),
            forall|j: int| 0 <= j < i ==> v.deep_view()[j].id != id@,
        decreases n - i,
    {
        proof {
            assert(v.deep_view()[i as int] == v@[i as int]@);
        }
        if v[i].id == *id {
            return Some(i);
        }
        i = i + 1;
    }
    None
}

impl Store {
    /// A fresh, empty store; it satisfies the store invariant.
    pub fn new() -> (r: Store)
        ensures
            r@ == StoreView::empty(),
            r@.inv(),
    {
        let r = Store {
            users: Vec::new(),
            projects: Vec::new(),
            tracks: Vec::new(),
            nfts: Vec::new(),
            collaborations: Vec::new(),
        };
        proof {
            assert(r@.users =~= Seq::<UserView>::empty());
            assert(r@.projects =~= Seq::<ProjectView>::empty());
            assert(r@.tracks =~= Seq::<TrackView>::empty());
            assert(r@.nfts =~= Seq::<NftView>::empty());
            assert(r@.collaborations =~= Seq::<CollaborationView>::empty());
            assert(r@ == StoreView::empty());
        }
        r
    }

    /// Get-by-id on the user collection, keyed by identity.
    pub fn get_user_by_principal(&self, principal: Identity) -> (r: Option<User>)
        ensures
            r.deep_view() == self@.user(principal),
    {
        match user_index(&self.users, principal) {
            Some(i) => {
                proof {
                    lemma_find_by_at(self@.users, ukey(), principal, i as int);
                }
                Some(self.users[i].clone())
            },
            None => {
                proof {
                    lemma_find_by_none(self@.users, ukey(), principal);
                }
                None
            },
        }
    }

    /// Put on the user collection: insert-or-replace at the user's
    /// identity.
    pub fn save_user(&mut self, user: User)
        ensures
            final(self)@ == old(self)@.put_user(user@),
    {
        let ghost old_store = self@;
        match user_index(&self.users, user.principal) {
            Some(i) => {
                proof {
                    lemma_put_by_update(old_store.users, ukey(), user@, i as int);
                }
                self.users[i] = user;
                proof {
                    assert(self@.users =~= old_store.users.update(i as int, user@));
                }
            },
            None => {
                proof {
                    lemma_find_by_none(old_store.users, ukey(), user@.principal);
                    lemma_put_by_push(old_store.users, ukey(), user@);
                }
                self.users.push(user);
                proof {
                    assert(self@.users =~= old_store.users.push(user@));
                }
            },
        }
    }

    /// Get-by-id on the project collection.
    pub fn get_project_by_id(&self, id: &String) -> (r: Option<Project>)
        ensures
            r.deep_view() == self@.project(id@),
    {
        match project_index(&self.projects, id) {
            Some(i) => {
                proof {
                    lemma_find_by_at(self@.projects, pkey(), id@, i as int);
                }
                Some(self.projects[i].clone())
            },
            None => {
                proof {
                    lemma_find_by_none(self@.projects, pkey(), id@);
                }
                None
            },
        }
    }

    /// Put on the project collection: insert-or-replace at the project's
    /// id.
    pub fn save_project(&mut self, project: Project)
        ensures
            final(self)@ == old(self)@.put_project(project@),
    {
        let ghost old_store = self@;
        match project_index(&self.projects, &project.id) {
            Some(i) => {
                proof {
                    lemma_put_by_update(old_store.projects, pkey(), project@, i as int);
                }
                self.projects[i] = project;
                proof {
                    assert(self@.projects =~= old_store.projects.update(i as int, project@));
                }
            },
            None => {
                proof {
                    lemma_find_by_none(old_store.projects, pkey(), project@.id);
                    lemma_put_by_push(old_store.projects, pkey(), project@);
                }
                self.projects.push(project);
                proof {
                    assert(self@.projects =~= old_store.projects.push(project@));
                }
            },
        }
    }

    /// List-all on the project collection, in stable insertion order.
    pub fn get_all_projects(&self) -> (r: Vec<Project>)
        ensures
            r.deep_view() == self@.projects,
    {
        let n = self.projects.len();
        let mut r: Vec<Project> = Vec::new();
        let mut i: usize = 0;
        while i < n
            invariant
                i <= n,
                n == self.projects@.len(),
                r@.len() == i,
                r.deep_view() =~= self@.projects.take(i as int),
            decreases n - i,
        {
            r.push(self.projects[i].clone());
            proof {
                assert(r.deep_view() =~= self@.projects.take(i + 1));
            }
            i = i + 1;
        }
        proof {
            assert(r.deep_view() =~= self@.projects);
        }
        r
    }

    /// Get-by-id on the track collection.
    pub fn get_track_by_id(&self, id: &String) -> (r: Option<Track>)
        ensures
            r.deep_view() == self@.track(id@),
    {
        match track_index(&self.tracks, id) {
            Some(i) => {
                proof {
                    lemma_find_by_at(self@.tracks, tkey(), id@, i as int);
                }
                Some(self.tracks[i].clone())
            },
            None => {
                proof {
                    lemma_find_by_none(self@.tracks, tkey(), id@);
                }
                None
            },
        }
    }

    /// Put on the track collection: insert-or-replace at the track's id.
    pub fn save_track(&mut self, track: Track)
        ensures
            final(self)@ == old(self)@.put_track(track@),
    {
        let ghost old_store = self@;
        match track_index(&self.tracks, &track.id) {
            Some(i) => {
                proof {
                    lemma_put_by_update(old_store.tracks, tkey(), track@, i as int);
                }
                self.tracks[i] = track;
                proof {
                    assert(self@.tracks =~= old_store.tracks.update(i as int, track@));
                }
            },
            None => {
                proof {
                    lemma_find_by_none(old_store.tracks, tkey(), track@.id);
                    lemma_put_by_push(old_store.tracks, tkey(), track@);
                }
                self.tracks.push(track);
                proof {
                    assert(self@.tracks =~= old_store.tracks.push(track@));
                }
            },
        }
    }

    /// List-all on the track collection, in stable insertion order.
    pub fn get_all_tracks(&self) -> (r: Vec<Track>)
        ensures
            r.deep_view() == self@.tracks,
    {
        let n = self.tracks.len();
        let mut r: Vec<Track> = Vec::new();
        let mut i: usize = 0;
        while i < n
            invariant
                i <= n,
                n == self.tracks@.len(),
                r@.len() == i,
                r.deep_view() =~= self@.tracks.take(i as int),
            decreases n - i,
        {
            r.push(self.tracks[i].clone());
            proof {
                assert(r.deep_view() =~= self@.tracks.take(i + 1));
            }
            i = i + 1;
        }
        proof {
            assert(r.deep_view() =~= self@.tracks);
        }
        r
    }

    /// Get-by-id on the NFT collection.
    pub fn get_nft_by_id(&self, id: &String) -> (r: Option<NFT>)
        ensures
            r.deep_view() == self@.nft(id@),
    {
        match nft_index(&self.nfts, id) {
            Some(i) => {
                proof {
                    lemma_find_by_at(self@.nfts, nkey(), id@, i as int);
                }
                Some(self.nfts[i].clone())
            },
            None => {
                proof {
                    lemma_find_by_none(self@.nfts, nkey(), id@);
                }
                None
            },
        }
    }

    /// Put on the NFT collection: insert-or-replace at the NFT's id.
    pub fn save_nft(&mut self, nft: NFT)
        ensures
            final(self)@ == old(self)@.put_nft(nft@),
    {
        let ghost old_store = self@;
        match nft_index(&self.nfts, &nft.id) {
            Some(i) => {
                proof {
                    lemma_put_by_update(old_store.nfts, nkey(), nft@, i as int);
                }
                self.nfts[i] = nft;
                proof {
                    assert(self@.nfts =~= old_store.nfts.update(i as int, nft@));
                }
            },
            None => {
                proof {
                    lemma_find_by_none(old_store.nfts, nkey(), nft@.id);
                    lemma_put_by_push(old_store.nfts, nkey(), nft@);
                }
                self.nfts.push(nft);
                proof {
                    assert(self@.nfts =~= old_store.nfts.push(nft@));
                }
            },
        }
    }

    /// List-all on the NFT collection, in stable insertion order.
    pub fn get_all_nfts(&self) -> (r: Vec<NFT>)
        ensures
            r.deep_view() == self@.nfts,
    {
        let n = self.nfts.len();
        let mut r: Vec<NFT> = Vec::new();
        let mut i: usize = 0;
        while i < n
            invariant
                i <= n,
                n == self.nfts@.len(),
                r@.len() == i,
                r.deep_view() =~= self@.nfts.take(i as int),
            decreases n - i,
        {
            r.push(self.nfts[i].clone());
            proof {
                assert(r.deep_view() =~= self@.nfts.take(i + 1));
            }
            i = i + 1;
        }
        proof {
            assert(r.deep_view() =~= self@.nfts);
        }
        r
    }

    /// Get-by-id on the collaboration collection.
    pub fn get_collaboration_by_id(&self, id: &String) -> (r: Option<Collaboration>)
        ensures
            r.deep_view() == self@.collaboration(id@),
    {
        match collaboration_index(&self.collaborations, id) {
            Some(i) => {
                proof {
                    lemma_find_by_at(self@.collaborations, ckey(), id@, i as int);
                }
                Some(self.collaborations[i].clone())
            },
            None => {
                proof {
                    lemma_find_by_none(self@.collaborations, ckey(), id@);
                }
                None
            },
        }
    }

    /// Put on the collaboration collection: insert-or-replace at the
    /// record's id.
    pub fn save_collaboration(&mut self, collaboration: Collaboration)
        ensures
            final(self)@ == old(self)@.put_collaboration(collaboration@),
    {
        let ghost old_store = self@;
        match collaboration_index(&self.collaborations, &collaboration.id) {
            Some(i) => {
                proof {
                    lemma_put_by_update(
                        old_store.collaborations,
                        ckey(),
                        collaboration@,
                        i as int,
                    );
                }
                self.collaborations[i] = collaboration;
                proof {
                    assert(self@.collaborations =~= old_store.collaborations.update(
                        i as int,
                        collaboration@,
                    ));
                }
            },
            None => {
                proof {
                    lemma_find_by_none(old_store.collaborations, ckey(), collaboration@.id);
                    lemma_put_by_push(old_store.collaborations, ckey(), collaboration@);
                }
                self.collaborations.push(collaboration);
                proof {
                    assert(self@.collaborations =~= old_store.collaborations.push(
                        collaboration@,
                    ));
                }
            },
        }
    }

    /// Deletes the collaboration record with id `id`, if present: the only
    /// delete primitive in the whole store.
    pub fn remove_collaboration(&mut self, id: &String)
        ensures
            final(self)@ == old(self)@.drop_collaboration(id@),
    {
        let ghost old_store = self@;
        match collaboration_index(&self.collaborations, id) {
            Some(i) => {
                proof {
                    lemma_remove_by_at(old_store.collaborations, ckey(), id@, i as int);
                }
                self.collaborations.remove(i);
                proof {
                    assert(self@.collaborations =~= old_store.collaborations.remove(i as int));
                }
            },
            None => {
                proof {
                    lemma_find_by_none(old_store.collaborations, ckey(), id@);
                    lemma_remove_by_absent(old_store.collaborations, ckey(), id@);
                }
            },
        }
    }

    /// List-all on the collaboration collection, in stable insertion order.
    pub fn get_all_collaborations(&self) -> (r: Vec<Collaboration>)
        ensures
            r.deep_view() == self@.collaborations,
    {
        let n = self.collaborations.len();
        let mut r: Vec<Collaboration> = Vec::new();
        let mut i: usize = 0;
        while i < n
            invariant
                i <= n,
                n == self.collaborations@.len(),
                r@.len() == i,
                r.deep_view() =~= self@.collaborations.take(i as int),
            decreases n - i,
        {
            r.push(self.collaborations[i].clone());
            proof {
                assert(r.deep_view() =~= self@.collaborations.take(i + 1));
            }
            i = i + 1;
        }
        proof {
            assert(r.deep_view() =~= self@.collaborations);
        }
        r
    }
}

} // verus!
