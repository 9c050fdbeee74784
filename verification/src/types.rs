//! Domain entities of the store, together with their ghost views.
//!
//! Every entity struct has a view type (`UserView`, `ProjectView`, ...)
//! whose fields are mathematical values (`Seq<char>` for strings), so that
//! the operation contracts can be stated over pure data.

use vstd::prelude::*;

verus! {

/// The distinguished token of the anonymous caller: the "no verified
/// caller" sentinel handed in by the external trust boundary.
pub const ANONYMOUS_TOKEN: u64 = 0;

/// A stable, globally unique caller identity, resolved by the external
/// authentication boundary before an operation is invoked.
#[derive(Clone, Copy, PartialEq, Eq, Hash, Debug, Structural)]
pub struct Identity {
    pub token: u64,
}

impl Identity {
    /// The anonymous sentinel identity.
    pub fn anonymous() -> (r: Identity)
        ensures
            r.is_anonymous(),
    {
        Identity { token: ANONYMOUS_TOKEN }
    }

    /// Whether this identity is the anonymous sentinel.
    pub open spec fn is_anonymous(self) -> bool {
        self.token == ANONYMOUS_TOKEN
    }

    /// Run-time check for the anonymous sentinel.
    pub fn check_anonymous(&self) -> (b: bool)
        ensures
            b == self.is_anonymous(),
    {
        self.token == ANONYMOUS_TOKEN
    }
}

/// The error taxonomy surfaced by every domain operation.
#[derive(Clone, Copy, PartialEq, Eq, Debug, Structural)]
pub enum StoreError {
    /// The caller identity is the anonymous sentinel.
    Unauthenticated,
    /// The caller has no user record.
    NotRegistered,
    /// A referenced entity id does not exist.
    NotFound,
    /// The caller is authenticated but lacks the required relationship
    /// (owner, or owner-or-collaborator) to the target entity.
    Forbidden,
    /// A value violates a stated bound (percentage out of range,
    /// mismatched foreign key).
    InvalidArgument,
    /// The operation would violate a uniqueness or one-way-transition
    /// invariant (duplicate collaborator, re-minting a minted NFT).
    Conflict,
}

/// Lifecycle status of a track.
#[derive(Clone, Copy, PartialEq, Eq, Debug, Structural)]
pub enum TrackStatus {
    Draft,
    Recording,
    Mixing,
    Completed,
}

/// Position of a status in the one-way lifecycle
/// Draft -> Recording -> Mixing -> Completed.
pub open spec fn status_rank(s: TrackStatus) -> int {
    match s {
        TrackStatus::Draft => 0,
        TrackStatus::Recording => 1,
        TrackStatus::Mixing => 2,
        TrackStatus::Completed => 3,
    }
}

/// Run-time counterpart of [`status_rank`].
pub fn status_rank_of(s: TrackStatus) -> (r: u8)
    ensures
        r as int == status_rank(s),
{
    match s {
        TrackStatus::Draft => 0,
        TrackStatus::Recording => 1,
        TrackStatus::Mixing => 2,
        TrackStatus::Completed => 3,
    }
}

/// A registered user of the platform.
#[derive(Debug)]
pub struct User {
    /// Unique, immutable identity token; the record's key.
    pub principal: Identity,
    pub name: Option<String>,
    pub email: String,
    pub avatar_url: Option<String>,
    pub created_at: u64,
}

/// Ghost view of a [`User`].
pub struct UserView {
    pub principal: Identity,
    pub name: Option<Seq<char>>,
    pub email: Seq<char>,
    pub avatar_url: Option<Seq<char>>,
    pub created_at: u64,
}

impl View for User {
    type V = UserView;

    open spec fn view(&self) -> UserView {
        UserView {
            principal: self.principal,
            name: self.name.deep_view(),
            email: self.email@,
            avatar_url: self.avatar_url.deep_view(),
            created_at: self.created_at,
        }
    }
}

impl DeepView for User {
    type V = UserView;

    open spec fn deep_view(&self) -> UserView {
        self.view()
    }
}

impl Clone for User {
    fn clone(&self) -> (r: Self)
        ensures
            r@ == self@,
    {
        User {
            principal: self.principal,
            name: clone_opt_string(&self.name),
            email: self.email.clone(),
            avatar_url: clone_opt_string(&self.avatar_url),
            created_at: self.created_at,
        }
    }
}

/// A collaborative music project.
#[derive(Debug)]
pub struct Project {
    /// Unique id; the record's key.
    pub id: String,
    /// Fixed at creation; only the owner may update the project or manage
    /// its collaborators.
    pub owner: Identity,
    pub name: String,
    pub description: Option<String>,
    /// Denormalized list of collaborator identities, kept consistent with
    /// the collaboration records that reference this project.
    pub collaborators: Vec<Identity>,
    /// Denormalized list of the ids of this project's tracks.
    pub tracks: Vec<String>,
    /// Denormalized list of the ids of this project's NFTs.
    pub nfts: Vec<String>,
    pub created_at: u64,
    pub updated_at: u64,
}

/// Ghost view of a [`Project`].
pub struct ProjectView {
    pub id: Seq<char>,
    pub owner: Identity,
    pub name: Seq<char>,
    pub description: Option<Seq<char>>,
    pub collaborators: Seq<Identity>,
    pub tracks: Seq<Seq<char>>,
    pub nfts: Seq<Seq<char>>,
    pub created_at: u64,
    pub updated_at: u64,
}

impl View for Project {
    type V = ProjectView;

    open spec fn view(&self) -> ProjectView {
        ProjectView {
            id: self.id@,
            owner: self.owner,
            name: self.name@,
            description: self.description.deep_view(),
            collaborators: self.collaborators@,
            tracks: self.tracks.deep_view(),
            nfts: self.nfts.deep_view(),
            created_at: self.created_at,
            updated_at: self.updated_at,
        }
    }
}

impl DeepView for Project {
    type V = ProjectView;

    open spec fn deep_view(&self) -> ProjectView {
        self.view()
    }
}

impl Clone for Project {
    fn clone(&self) -> (r: Self)
        ensures
            r@ == self@,
    {
        Project {
            id: self.id.clone(),
            owner: self.owner,
            name: self.name.clone(),
            description: clone_opt_string(&self.description),
            collaborators: clone_identity_vec(&self.collaborators),
            tracks: clone_string_vec(&self.tracks),
            nfts: clone_string_vec(&self.nfts),
            created_at: self.created_at,
            updated_at: self.updated_at,
        }
    }
}

/// An audio track owned by a project.
#[derive(Debug)]
pub struct Track {
    /// Unique id; the record's key.
    pub id: String,
    /// Id of the owning project.
    pub project_id: String,
    pub name: String,
    /// Content-addressed reference to the audio data.
    pub ipfs_hash: String,
    pub duration: u64,
    pub status: TrackStatus,
    pub created_at: u64,
}

/// Ghost view of a [`Track`].
pub struct TrackView {
    pub id: Seq<char>,
    pub project_id: Seq<char>,
    pub name: Seq<char>,
    pub ipfs_hash: Seq<char>,
    pub duration: u64,
    pub status: TrackStatus,
    pub created_at: u64,
}

impl View for Track {
    type V = TrackView;

    open spec fn view(&self) -> TrackView {
        TrackView {
            id: self.id@,
            project_id: self.project_id@,
            name: self.name@,
            ipfs_hash: self.ipfs_hash@,
            duration: self.duration,
            status: self.status,
            created_at: self.created_at,
        }
    }
}

impl DeepView for Track {
    type V = TrackView;

    open spec fn deep_view(&self) -> TrackView {
        self.view()
    }
}

impl Clone for Track {
    fn clone(&self) -> (r: Self)
        ensures
            r@ == self@,
    {
        Track {
            id: self.id.clone(),
            project_id: self.project_id.clone(),
            name: self.name.clone(),
            ipfs_hash: self.ipfs_hash.clone(),
            duration: self.duration,
            status: self.status,
            created_at: self.created_at,
        }
    }
}

/// An NFT bound to a project, with its one-way minting state.
#[derive(Debug)]
pub struct NFT {
    /// Unique id; the record's key.
    pub id: String,
    /// Id of the owning project.
    pub project_id: String,
    /// The identity that created the NFT; only the creator may mint it.
    pub creator: Identity,
    pub title: String,
    pub description: Option<String>,
    pub price: Option<u64>,
    /// Bounded to [0, 50].
    pub royalty_percentage: u8,
    pub metadata_uri: String,
    /// Absent until minted.
    pub token_id: Option<String>,
    /// Absent until minted.
    pub contract_address: Option<String>,
    pub is_minted: bool,
    pub is_listed: bool,
    /// Marketplace URL, derived from contract address and token id at
    /// minting time; absent until minted.
    pub opensea_url: Option<String>,
    pub created_at: u64,
    pub updated_at: u64,
}

/// Ghost view of an [`NFT`].
pub struct NftView {
    pub id: Seq<char>,
    pub project_id: Seq<char>,
    pub creator: Identity,
    pub title: Seq<char>,
    pub description: Option<Seq<char>>,
    pub price: Option<u64>,
    pub royalty_percentage: u8,
    pub metadata_uri: Seq<char>,
    pub token_id: Option<Seq<char>>,
    pub contract_address: Option<Seq<char>>,
    pub is_minted: bool,
    pub is_listed: bool,
    pub opensea_url: Option<Seq<char>>,
    pub created_at: u64,
    pub updated_at: u64,
}

impl View for NFT {
    type V = NftView;

    open spec fn view(&self) -> NftView {
        NftView {
            id: self.id@,
            project_id: self.project_id@,
            creator: self.creator,
            title: self.title@,
            description: self.description.deep_view(),
            price: self.price,
            royalty_percentage: self.royalty_percentage,
            metadata_uri: self.metadata_uri@,
            token_id: self.token_id.deep_view(),
            contract_address: self.contract_address.deep_view(),
            is_minted: self.is_minted,
            is_listed: self.is_listed,
            opensea_url: self.opensea_url.deep_view(),
            created_at: self.created_at,
            updated_at: self.updated_at,
        }
    }
}

impl DeepView for NFT {
    type V = NftView;

    open spec fn deep_view(&self) -> NftView {
        self.view()
    }
}

impl Clone for NFT {
    fn clone(&self) -> (r: Self)
        ensures
            r@ == self@,
    {
        NFT {
            id: self.id.clone(),
            project_id: self.project_id.clone(),
            creator: self.creator,
            title: self.title.clone(),
            description: clone_opt_string(&self.description),
            price: self.price,
            royalty_percentage: self.royalty_percentage,
            metadata_uri: self.metadata_uri.clone(),
            token_id: clone_opt_string(&self.token_id),
            contract_address: clone_opt_string(&self.contract_address),
            is_minted: self.is_minted,
            is_listed: self.is_listed,
            opensea_url: clone_opt_string(&self.opensea_url),
            created_at: self.created_at,
            updated_at: self.updated_at,
        }
    }
}

/// A collaboration record: one collaborator identity granted contribution
/// rights on one project.
#[derive(Debug)]
pub struct Collaboration {
    /// Unique id; the record's key.
    pub id: String,
    /// Id of the project collaborated on.
    pub project_id: String,
    /// The collaborator identity.
    pub user_principal: Identity,
    /// Bounded to [0, 100].
    pub contribution_percentage: u8,
    pub role: String,
    pub joined_at: u64,
}

/// Ghost view of a [`Collaboration`].
pub struct CollaborationView {
    pub id: Seq<char>,
    pub project_id: Seq<char>,
    pub user_principal: Identity,
    pub contribution_percentage: u8,
    pub role: Seq<char>,
    pub joined_at: u64,
}

impl View for Collaboration {
    type V = CollaborationView;

    open spec fn view(&self) -> CollaborationView {
        CollaborationView {
            id: self.id@,
            project_id: self.project_id@,
            user_principal: self.user_principal,
            contribution_percentage: self.contribution_percentage,
            role: self.role@,
            joined_at: self.joined_at,
        }
    }
}

impl DeepView for Collaboration {
    type V = CollaborationView;

    open spec fn deep_view(&self) -> CollaborationView {
        self.view()
    }
}

impl Clone for Collaboration {
    fn clone(&self) -> (r: Self)
        ensures
            r@ == self@,
    {
        Collaboration {
            id: self.id.clone(),
            project_id: self.project_id.clone(),
            user_principal: self.user_principal,
            contribution_percentage: self.contribution_percentage,
            role: self.role.clone(),
            joined_at: self.joined_at,
        }
    }
}

/// Run-time membership test of an identity in an identity list.
pub fn contains_identity(v: &Vec<Identity>, x: Identity) -> (b: bool)
    ensures
        b == v@.contains(x),
{
    let n = v.len();
    let mut i: usize = 0;
    while i < n
        invariant
            i <= n,
            n == v@.len(),
            forall|j: int| 0 <= j < i ==> v@[j] != x,
        decreases n - i,
    {
        if v[i].token == x.token {
            proof {
                assert(v@[i as int] == x);
            }
            return true;
        }
        i = i + 1;
    }
    false
}

/// The ghost view of an operation result: the entity's view on success,
/// the error unchanged on failure.
pub open spec fn result_view<T: View>(r: Result<T, StoreError>) -> Result<T::V, StoreError> {
    match r {
        Ok(v) => Ok(v@),
        Err(e) => Err(e),
    }
}

/// Clones an optional string, preserving its view.
pub fn clone_opt_string(s: &Option<String>) -> (r: Option<String>)
    ensures
        r.deep_view() == s.deep_view(),
{
    match s {
        Some(v) => Some(v.clone()),
        None => None,
    }
}

/// Clones a vector of strings, preserving its view.
pub fn clone_string_vec(v: &Vec<String>) -> (r: Vec<String>)
    ensures
        r.deep_view() == v.deep_view(),
{
    let mut r: Vec<String> = Vec::new();
    let mut i: usize = 0;
    while i < v.len()
        invariant
            i <= v.len(),
            r@.len() == i,
            r.deep_view() =~= v.deep_view().take(i as int),
        decreases v.len() - i,
    {
        let s = v[i].clone();
        r.push(s);
        proof {
            assert(r.deep_view().len() == i + 1);
            assert forall|j: int| 0 <= j < i + 1 implies r.deep_view()[j]
                == v.deep_view().take(i + 1)[j] by {
                assert(r.deep_view()[j] == r@[j]@);
                assert(v.deep_view()[j] == v@[j]@);
            }
            assert(r.deep_view() =~= v.deep_view().take(i + 1));
        }
        i = i + 1;
    }
    proof {
        assert(r.deep_view() =~= v.deep_view());
    }
    r
}

/// Clones a vector of identities, preserving its view.
pub fn clone_identity_vec(v: &Vec<Identity>) -> (r: Vec<Identity>)
    ensures
        r@ == v@,
{
    let mut r: Vec<Identity> = Vec::new();
    let mut i: usize = 0;
    while i < v.len()
        invariant
            i <= v.len(),
            r@ =~= v@.take(i as int),
        decreases v.len() - i,
    {
        r.push(v[i]);
        i = i + 1;
    }
    proof {
        assert(r@ =~= v@);
    }
    r
}

} // verus!
