//! NFT lifecycle: creation, lookup, listing, and the one-way minting
//! state machine.
//!
//! An NFT is created unminted (token id, contract address and marketplace
//! URL all absent) and can be minted exactly once, by its creator; minting
//! fills all three fields at once.

use vstd::prelude::*;
use vstd::string::StringExecFns;

use crate::ids::fresh_uuid;
use crate::keyed::{
    distinct_by, idkey, lemma_distinct_push, lemma_distinct_put_by, lemma_find_by_none,
    lemma_find_by_props, lemma_find_by_put_by, lemma_put_by_elems,
};
use crate::storage::{nkey, pkey, Store, StoreView};
use crate::types::{
    contains_identity, result_view, Identity, NftView, ProjectView, StoreError, NFT,
};

verus! {

/// The marketplace URL derived from a contract address and a token id.
pub open spec fn marketplace_url(contract_address: Seq<char>, token_id: Seq<char>) -> Seq<char> {
    "https://opensea.io/assets/ethereum/"@ + contract_address + "/"@ + token_id
}

/// Builds the marketplace URL of a minted NFT.
pub fn build_marketplace_url(contract_address: &String, token_id: &String) -> (r: String)
    ensures
        r@ == marketplace_url(contract_address@, token_id@),
{
    let mut url = String::new();
    url.append("https://opensea.io/assets/ethereum/");
    url.append(contract_address.as_str());
    url.append("/");
    url.append(token_id.as_str());
    proof {
        assert(url@ =~= marketplace_url(contract_address@, token_id@));
    }
    url
}

/// The NFT record that creation installs: unminted, unlisted, created by
/// the caller, with `now` as both timestamps.
pub open spec fn new_nft_view(
    id: Seq<char>,
    project_id: Seq<char>,
    creator: Identity,
    title: Seq<char>,
    description: Option<Seq<char>>,
    price: Option<u64>,
    royalty_percentage: u8,
    metadata_uri: Seq<char>,
    now: u64,
) -> NftView {
    NftView {
        id: id,
        project_id: project_id,
        creator: creator,
        title: title,
        description: description,
        price: price,
        royalty_percentage: royalty_percentage,
        metadata_uri: metadata_uri,
        token_id: None,
        contract_address: None,
        is_minted: false,
        is_listed: false,
        opensea_url: None,
        created_at: now,
        updated_at: now,
    }
}

/// State transition of NFT creation with a chosen id: the identity check's error,
/// `NotFound` for a missing project, `Forbidden` for a caller that is
/// neither owner nor collaborator, `InvalidArgument` for a royalty
/// percentage over 50, `Conflict` for a taken id; otherwise the NFT is
/// installed and its id appended to the project's NFT list.
pub open spec fn spec_create_nft(
    s: StoreView,
    caller: Identity,
    id: Seq<char>,
    project_id: Seq<char>,
    title: Seq<char>,
    description: Option<Seq<char>>,
    price: Option<u64>,
    royalty_percentage: u8,
    metadata_uri: Seq<char>,
    now: u64,
) -> (StoreView, Result<NftView, StoreError>) {
    match s.gate(caller) {
        Some(e) => (s, Err(e)),
        None => match s.project(project_id) {
            None => (s, Err(StoreError::NotFound)),
            Some(p) => {
                if !StoreView::may_contribute(p, caller) {
                    (s, Err(StoreError::Forbidden))
                } else if royalty_percentage > 50 {
                    (s, Err(StoreError::InvalidArgument))
                } else if s.nft(id) is Some {
                    (s, Err(StoreError::Conflict))
                } else {
                    let n = new_nft_view(
                        id,
                        project_id,
                        caller,
                        title,
                        description,
                        price,
                        royalty_percentage,
                        metadata_uri,
                        now,
                    );
                    let p2 = ProjectView { nfts: p.nfts.push(id), updated_at: now, ..p };
                    (s.put_nft(n).put_project(p2), Ok(n))
                }
            },
        },
    }
}

/// The NFT record after minting: token id and contract address filled,
/// the marketplace URL derived from them, and `updated_at` bumped.
pub open spec fn minted_nft_view(
    n: NftView,
    token_id: Seq<char>,
    contract_address: Seq<char>,
    now: u64,
) -> NftView {
    NftView {
        token_id: Some(token_id),
        contract_address: Some(contract_address),
        is_minted: true,
        opensea_url: Some(marketplace_url(contract_address, token_id)),
        updated_at: now,
        ..n
    }
}

/// State transition of minting: the identity check's error, `NotFound` for a missing
/// NFT, `Forbidden` for a caller other than the creator, `Conflict` for an
/// NFT that is already minted (the transition is one-way); otherwise the
/// minting fields are filled.
pub open spec fn spec_mint_nft(
    s: StoreView,
    caller: Identity,
    id: Seq<char>,
    token_id: Seq<char>,
    contract_address: Seq<char>,
    now: u64,
) -> (StoreView, Result<NftView, StoreError>) {
    match s.gate(caller) {
        Some(e) => (s, Err(e)),
        None => match s.nft(id) {
            None => (s, Err(StoreError::NotFound)),
            Some(n) => {
                if n.creator != caller {
                    (s, Err(StoreError::Forbidden))
                } else if n.is_minted {
                    (s, Err(StoreError::Conflict))
                } else {
                    let n2 = minted_nft_view(n, token_id, contract_address, now);
                    (s.put_nft(n2), Ok(n2))
                }
            },
        },
    }
}

/// Installing a fresh, well-formed NFT and appending its id to its
/// project's NFT list preserves the store invariant.
pub proof fn lemma_create_nft_preserves_inv(
    s: StoreView,
    p: ProjectView,
    p2: ProjectView,
    n: NftView,
)
    requires
        s.inv(),
        s.project(n.project_id) == Some(p),
        s.nft(n.id) is None,
        StoreView::nft_state_ok(n),
        p2.id == p.id,
        p2.nfts == p.nfts.push(n.id),
        p2.tracks == p.tracks,
        p2.collaborators == p.collaborators,
    ensures
        s.put_nft(n).put_project(p2).inv(),
{
    let s1 = s.put_nft(n);
    let s2 = s1.put_project(p2);
    lemma_find_by_props(s.projects, pkey(), n.project_id);
    assert(p.id == n.project_id);
    assert(s.projects.contains(p));
    let l0 = choose|l: int| 0 <= l < s.projects.len() && s.projects[l] == p;
    lemma_distinct_put_by(s.nfts, nkey(), n);
    lemma_distinct_put_by(s.projects, pkey(), p2);
    lemma_put_by_elems(s.nfts, nkey(), n);
    lemma_put_by_elems(s.projects, pkey(), p2);
    assert forall|k: Seq<char>| true implies s2.nft(k) == if k == n.id {
        Some(n)
    } else {
        s.nft(k)
    } by {
        lemma_find_by_put_by(s.nfts, nkey(), n, k);
    }
    assert forall|k: Seq<char>| true implies s2.project(k) == if k == p2.id {
        Some(p2)
    } else {
        s.project(k)
    } by {
        lemma_find_by_put_by(s.projects, pkey(), p2, k);
    }
    // The fresh id is not yet listed by its project.
    assert forall|j: int| 0 <= j < p.nfts.len() implies p.nfts[j] != n.id by {
        assert(s.nft_entry_ok(s.projects[l0], j));
    }
    lemma_find_by_none(p.nfts, idkey(), n.id);
    lemma_distinct_push(p.nfts, idkey(), n.id);
    // NFT rows stay linked and well-formed.
    assert forall|i: int| 0 <= i < s2.nfts.len() implies s2.nft_linked(#[trigger] s2.nfts[i])
        && StoreView::nft_state_ok(s2.nfts[i]) by {
        let nf = s2.nfts[i];
        assert(nf == n || s.nfts.contains(nf));
        if nf == n {
            assert(s2.project(n.project_id) == Some(p2));
            assert(p2.nfts[p.nfts.len() as int] == n.id);
        } else {
            let l = choose|l: int| 0 <= l < s.nfts.len() && s.nfts[l] == nf;
            assert(s.nft_linked(s.nfts[l]));
            assert(StoreView::nft_state_ok(s.nfts[l]));
            if nf.project_id == p2.id {
                assert(s.project(nf.project_id) == Some(p));
                let j = choose|j: int| 0 <= j < p.nfts.len() && p.nfts[j] == nf.id;
                assert(p2.nfts[j] == nf.id);
            }
        }
    }
    // Listed NFT ids stay valid.
    assert forall|i: int, j: int|
        #![trigger s2.projects[i].nfts[j]]
        0 <= i < s2.projects.len() && 0 <= j < s2.projects[i].nfts.len() implies s2.nft_entry_ok(
        s2.projects[i],
        j,
    ) by {
        let q = s2.projects[i];
        assert(q == p2 || s.projects.contains(q));
        if q == p2 {
            if j < p.nfts.len() {
                assert(s.nft_entry_ok(s.projects[l0], j));
                assert(p.nfts[j] != n.id);
                assert(p2.nfts[j] == p.nfts[j]);
            } else {
                assert(p2.nfts[j] == n.id);
            }
        } else {
            let l = choose|l: int| 0 <= l < s.projects.len() && s.projects[l] == q;
            assert(s.nft_entry_ok(s.projects[l], j));
            assert(q.nfts[j] != n.id);
        }
    }
    assert forall|i: int| 0 <= i < s2.projects.len() implies distinct_by(
        (#[trigger] s2.projects[i]).nfts,
        idkey(),
    ) by {
        let q = s2.projects[i];
        assert(q == p2 || s.projects.contains(q));
        if q != p2 {
            let l = choose|l: int| 0 <= l < s.projects.len() && s.projects[l] == q;
            assert(distinct_by(s.projects[l].nfts, idkey()));
        }
    }
    // Track rows and listed track ids are untouched.
    assert forall|i: int| 0 <= i < s2.tracks.len() implies s2.track_linked(
        #[trigger] s2.tracks[i],
    ) by {
        let t = s.tracks[i];
        assert(s.track_linked(t));
        if t.project_id == p2.id {
            assert(s.project(t.project_id) == Some(p));
            assert(s2.project(t.project_id) == Some(p2));
        }
    }
    assert forall|i: int, j: int|
        #![trigger s2.projects[i].tracks[j]]
        0 <= i < s2.projects.len() && 0 <= j < s2.projects[i].tracks.len() implies s2
        .track_entry_ok(s2.projects[i], j) by {
        let q = s2.projects[i];
        assert(q == p2 || s.projects.contains(q));
        if q == p2 {
            assert(s.track_entry_ok(s.projects[l0], j));
        } else {
            let l = choose|l: int| 0 <= l < s.projects.len() && s.projects[l] == q;
            assert(s.track_entry_ok(s.projects[l], j));
        }
    }
    assert forall|i: int| 0 <= i < s2.projects.len() implies distinct_by(
        (#[trigger] s2.projects[i]).tracks,
        idkey(),
    ) by {
        let q = s2.projects[i];
        assert(q == p2 || s.projects.contains(q));
        if q == p2 {
            assert(distinct_by(s.projects[l0].tracks, idkey()));
        } else {
            let l = choose|l: int| 0 <= l < s.projects.len() && s.projects[l] == q;
            assert(distinct_by(s.projects[l].tracks, idkey()));
        }
    }
    // Collaboration rows and listed collaborators are untouched.
    assert forall|i: int| 0 <= i < s2.collaborations.len() implies s2.collaboration_linked(
        #[trigger] s2.collaborations[i],
    ) by {
        let c = s.collaborations[i];
        assert(s.collaboration_linked(c));
        if c.project_id == p2.id {
            assert(s.project(c.project_id) == Some(p));
            assert(s2.project(c.project_id) == Some(p2));
        }
    }
    assert forall|i: int, j: int|
        #![trigger s2.projects[i].collaborators[j]]
        0 <= i < s2.projects.len() && 0 <= j < s2.projects[i].collaborators.len() implies s2.pair(
        s2.projects[i].id,
        s2.projects[i].collaborators[j],
    ) is Some by {
        let q = s2.projects[i];
        assert(q == p2 || s.projects.contains(q));
        if q == p2 {
            assert(s.pair(s.projects[l0].id, s.projects[l0].collaborators[j]) is Some);
        } else {
            let l = choose|l: int| 0 <= l < s.projects.len() && s.projects[l] == q;
            assert(s.pair(s.projects[l].id, s.projects[l].collaborators[j]) is Some);
        }
    }
    assert forall|i: int| 0 <= i < s2.projects.len() implies distinct_by(
        (#[trigger] s2.projects[i]).collaborators,
        idkey(),
    ) by {
        let q = s2.projects[i];
        assert(q == p2 || s.projects.contains(q));
        if q == p2 {
            assert(distinct_by(s.projects[l0].collaborators, idkey()));
        } else {
            let l = choose|l: int| 0 <= l < s.projects.len() && s.projects[l] == q;
            assert(distinct_by(s.projects[l].collaborators, idkey()));
        }
    }
}

/// Replacing an NFT by a well-formed record with the same id and the same
/// owning project preserves the store invariant.
pub proof fn lemma_replace_nft_preserves_inv(s: StoreView, n0: NftView, n: NftView)
    requires
        s.inv(),
        s.nft(n.id) == Some(n0),
        n.id == n0.id,
        n.project_id == n0.project_id,
        StoreView::nft_state_ok(n),
    ensures
        s.put_nft(n).inv(),
{
    let s1 = s.put_nft(n);
    lemma_find_by_props(s.nfts, nkey(), n.id);
    assert(s.nfts.contains(n0));
    let l0 = choose|l: int| 0 <= l < s.nfts.len() && s.nfts[l] == n0;
    lemma_distinct_put_by(s.nfts, nkey(), n);
    lemma_put_by_elems(s.nfts, nkey(), n);
    assert forall|k: Seq<char>| true implies s1.nft(k) == if k == n.id {
        Some(n)
    } else {
        s.nft(k)
    } by {
        lemma_find_by_put_by(s.nfts, nkey(), n, k);
    }
    assert forall|i: int| 0 <= i < s1.nfts.len() implies s1.nft_linked(#[trigger] s1.nfts[i])
        && StoreView::nft_state_ok(s1.nfts[i]) by {
        let nf = s1.nfts[i];
        assert(nf == n || s.nfts.contains(nf));
        if nf == n {
            assert(s.nft_linked(s.nfts[l0]));
        } else {
            let l = choose|l: int| 0 <= l < s.nfts.len() && s.nfts[l] == nf;
            assert(s.nft_linked(s.nfts[l]));
            assert(StoreView::nft_state_ok(s.nfts[l]));
        }
    }
    assert forall|i: int, j: int|
        #![trigger s1.projects[i].nfts[j]]
        0 <= i < s1.projects.len() && 0 <= j < s1.projects[i].nfts.len() implies s1.nft_entry_ok(
        s1.projects[i],
        j,
    ) by {
        let q = s1.projects[i];
        assert(s.nft_entry_ok(q, j));
        if q.nfts[j] == n.id {
            assert(s.nft(q.nfts[j]) == Some(n0));
            assert(n0.project_id == q.id);
        }
    }
    assert forall|i: int| 0 <= i < s1.tracks.len() implies s1.track_linked(
        #[trigger] s1.tracks[i],
    ) by {
        assert(s.track_linked(s.tracks[i]));
    }
    assert forall|i: int| 0 <= i < s1.collaborations.len() implies s1.collaboration_linked(
        #[trigger] s1.collaborations[i],
    ) by {
        assert(s.collaboration_linked(s.collaborations[i]));
    }
}

/// Selects the NFTs of one project.
pub open spec fn nft_of(project_id: Seq<char>) -> spec_fn(NftView) -> bool {
    |n: NftView| n.project_id == project_id
}

impl Store {
    /// Creates an NFT under a caller-supplied id. Applies the identity
    /// gate first; the caller must be the project's owner or a listed
    /// collaborator (`Forbidden` otherwise); the royalty percentage must
    /// not exceed 50 (`InvalidArgument` otherwise); rejects a taken id
    /// (`Conflict`); otherwise installs the NFT unminted and unlisted,
    /// appends its id to the project's NFT list and bumps the project's
    /// `updated_at`.
    pub fn create_nft_with_id(
        &mut self,
        caller: Identity,
        id: String,
        project_id: String,
        title: String,
        description: Option<String>,
        price: Option<u64>,
        royalty_percentage: u8,
        metadata_uri: String,
        now: u64,
    ) -> (r: Result<NFT, StoreError>)
        ensures
            ({
                let (s1, res) = spec_create_nft(
                    old(self)@,
                    caller,
                    id@,
                    project_id@,
                    title@,
                    description.deep_view(),
                    price,
                    royalty_percentage,
                    metadata_uri@,
                    now,
                );
                final(self)@ == s1 && result_view(r) == res
            }),
            old(self)@.inv() ==> final(self)@.inv(),
    {
        let ghost s0 = self@;
        let ghost id_v = id@;
        let ghost pid_v = project_id@;
        if let Err(e) = self.require_authenticated(caller) {
            return Err(e);
        }
        let mut project = match self.get_project_by_id(&project_id) {
            None => {
                return Err(StoreError::NotFound);
            },
            Some(p) => p,
        };
        let ghost p0v = project@;
        if !(project.owner == caller || contains_identity(&project.collaborators, caller)) {
            return Err(StoreError::Forbidden);
        }
        if royalty_percentage > 50 {
            return Err(StoreError::InvalidArgument);
        }
        if self.get_nft_by_id(&id).is_some() {
            return Err(StoreError::Conflict);
        }
        let nft = NFT {
            id: id.clone(),
            project_id: project_id,
            creator: caller,
            title: title,
            description: description,
            price: price,
            royalty_percentage: royalty_percentage,
            metadata_uri: metadata_uri,
            token_id: None,
            contract_address: None,
            is_minted: false,
            is_listed: false,
            opensea_url: None,
            created_at: now,
            updated_at: now,
        };
        let ghost nv = nft@;
        project.nfts.push(id);
        project.updated_at = now;
        let ghost p2v = project@;
        let result = nft.clone();
        self.save_nft(nft);
        self.save_project(project);
        proof {
            assert(p2v.nfts =~= p0v.nfts.push(id_v));
            lemma_find_by_props(s0.projects, pkey(), pid_v);
            assert(p0v.id == pid_v);
            assert(p2v == (ProjectView { nfts: p0v.nfts.push(id_v), updated_at: now, ..p0v }));
            if s0.inv() {
                lemma_create_nft_preserves_inv(s0, p0v, p2v, nv);
            }
        }
        Ok(result)
    }

    /// Creates an NFT under a freshly generated id. The id is random: on
    /// the rare draw of an id already in use the operation reports
    /// `Conflict` and leaves the store unchanged, and the caller may retry.
    pub fn create_nft(
        &mut self,
        caller: Identity,
        project_id: String,
        title: String,
        description: Option<String>,
        price: Option<u64>,
        royalty_percentage: u8,
        metadata_uri: String,
        now: u64,
    ) -> (r: Result<NFT, StoreError>)
        ensures
            (match r {
                Ok(n) => old(self)@.nft(n@.id) is None && ({
                    let (s1, res) = spec_create_nft(
                        old(self)@,
                        caller,
                        n@.id,
                        project_id@,
                        title@,
                        description.deep_view(),
                        price,
                        royalty_percentage,
                        metadata_uri@,
                        now,
                    );
                    final(self)@ == s1 && res == Ok::<NftView, StoreError>(n@)
                }),
                Err(e) => final(self)@ == old(self)@ && (match old(self)@.gate(caller) {
                    Some(g) => e == g,
                    None => match old(self)@.project(project_id@) {
                        None => e == StoreError::NotFound,
                        Some(p) => if !StoreView::may_contribute(p, caller) {
                            e == StoreError::Forbidden
                        } else if royalty_percentage > 50 {
                            e == StoreError::InvalidArgument
                        } else {
                            e == StoreError::Conflict
                        },
                    },
                }),
            }),
            old(self)@.inv() ==> final(self)@.inv(),
    {
        let id = fresh_uuid();
        self.create_nft_with_id(
            caller,
            id,
            project_id,
            title,
            description,
            price,
            royalty_percentage,
            metadata_uri,
            now,
        )
    }

    /// All NFTs, unfiltered, in stable insertion order.
    pub fn get_nfts(&self) -> (r: Vec<NFT>)
        ensures
            r.deep_view() == self@.nfts,
    {
        self.get_all_nfts()
    }

    /// The NFT with the given id, or `NotFound`.
    pub fn get_nft(&self, id: String) -> (r: Result<NFT, StoreError>)
        ensures
            (match self@.nft(id@) {
                Some(nv) => r matches Ok(n) && n@ == nv,
                None => r == Err::<NFT, StoreError>(StoreError::NotFound),
            }),
    {
        match self.get_nft_by_id(&id) {
            Some(n) => Ok(n),
            None => Err(StoreError::NotFound),
        }
    }

    /// All NFTs of the given project, in stable insertion order.
    pub fn get_project_nfts(&self, project_id: String) -> (r: Vec<NFT>)
        ensures
            r.deep_view() == self@.nfts.filter(nft_of(project_id@)),
    {
        let n = self.nfts.len();
        let mut r: Vec<NFT> = Vec::new();
        let mut i: usize = 0;
        while i < n
            invariant
                i <= n,
                n == self.nfts@.len(),
                r.deep_view() =~= self@.nfts.take(i as int).filter(nft_of(project_id@)),
            decreases n - i,
        {
            proof {
                assert(self@.nfts[i as int] == self.nfts@[i as int]@);
            }
            if self.nfts[i].project_id == project_id {
                r.push(self.nfts[i].clone());
            }
            proof {
                reveal(Seq::filter);
                assert(self@.nfts.take(i + 1).drop_last() =~= self@.nfts.take(i as int));
                assert(self@.nfts.take(i + 1).last() == self@.nfts[i as int]);
                assert(r.deep_view() =~= self@.nfts.take(i + 1).filter(nft_of(project_id@)));
            }
            i = i + 1;
        }
        proof {
            assert(self@.nfts.take(n as int) =~= self@.nfts);
        }
        r
    }

    /// Mints an NFT: fills its token id and contract address, derives the
    /// marketplace URL from them, and bumps `updated_at`. Applies the
    /// identity gate first; only the creator may mint (`Forbidden`
    /// otherwise); an already minted NFT reports `Conflict` — the
    /// transition is one-way and there is no re-mint path.
    pub fn mint_nft(
        &mut self,
        caller: Identity,
        id: String,
        token_id: String,
        contract_address: String,
        now: u64,
    ) -> (r: Result<NFT, StoreError>)
        ensures
            ({
                let (s1, res) = spec_mint_nft(
                    old(self)@,
                    caller,
                    id@,
                    token_id@,
                    contract_address@,
                    now,
                );
                final(self)@ == s1 && result_view(r) == res
            }),
            old(self)@.inv() ==> final(self)@.inv(),
    {
        let ghost s0 = self@;
        let ghost tid_v = token_id@;
        let ghost addr_v = contract_address@;
        if let Err(e) = self.require_authenticated(caller) {
            return Err(e);
        }
        let mut nft = match self.get_nft_by_id(&id) {
            None => {
                return Err(StoreError::NotFound);
            },
            Some(n) => n,
        };
        let ghost n0v = nft@;
        if nft.creator != caller {
            return Err(StoreError::Forbidden);
        }
        if nft.is_minted {
            return Err(StoreError::Conflict);
        }
        let url = build_marketplace_url(&contract_address, &token_id);
        nft.token_id = Some(token_id);
        nft.contract_address = Some(contract_address);
        nft.is_minted = true;
        nft.opensea_url = Some(url);
        nft.updated_at = now;
        let ghost nv = nft@;
        let result = nft.clone();
        self.save_nft(nft);
        proof {
            assert(nv == minted_nft_view(n0v, tid_v, addr_v, now));
            lemma_find_by_props(s0.nfts, nkey(), id@);
            assert(n0v.id == id@);
            if s0.inv() {
                lemma_replace_nft_preserves_inv(s0, n0v, nv);
            }
        }
        Ok(result)
    }
}

} // verus!
