//! Project lifecycle: creation, lookup, listing and owner-gated update.
//!
//! Every mutating operation takes the caller identity and the current time
//! explicitly, applies the identity gate first, and performs all checks
//! before any write.

use vstd::prelude::*;

use crate::ids::fresh_uuid;
use crate::keyed::{
    distinct_by, idkey, lemma_distinct_push, lemma_distinct_put_by, lemma_find_by_none,
    lemma_find_by_props, lemma_find_by_put_by, lemma_put_by_elems,
};
use crate::storage::{pkey, tkey, Store, StoreView};
use crate::types::{
    contains_identity, result_view, status_rank, status_rank_of, Identity, Project, ProjectView,
    StoreError, Track, TrackStatus, TrackView,
};

verus! {

/// The project record that creation installs: empty child lists, the
/// caller as owner, and `now` as both timestamps.
pub open spec fn new_project_view(
    id: Seq<char>,
    owner: Identity,
    name: Seq<char>,
    description: Option<Seq<char>>,
    now: u64,
) -> ProjectView {
    ProjectView {
        id: id,
        owner: owner,
        name: name,
        description: description,
        collaborators: Seq::empty(),
        tracks: Seq::empty(),
        nfts: Seq::empty(),
        created_at: now,
        updated_at: now,
    }
}

/// State transition of project creation with a chosen id: the identity check's error,
/// or `Conflict` on a taken id, or the new record installed.
pub open spec fn spec_create_project(
    s: StoreView,
    caller: Identity,
    id: Seq<char>,
    name: Seq<char>,
    description: Option<Seq<char>>,
    now: u64,
) -> (StoreView, Result<ProjectView, StoreError>) {
    match s.gate(caller) {
        Some(e) => (s, Err(e)),
        None => {
            if s.project(id) is Some {
                (s, Err(StoreError::Conflict))
            } else {
                let p = new_project_view(id, caller, name, description, now);
                (s.put_project(p), Ok(p))
            }
        },
    }
}

/// The project record after an owner update: fields replaced only where a
/// new value is supplied, and `updated_at` bumped.
pub open spec fn updated_project_view(
    p: ProjectView,
    name: Option<Seq<char>>,
    description: Option<Seq<char>>,
    now: u64,
) -> ProjectView {
    ProjectView {
        name: if name is Some {
            name.unwrap()
        } else {
            p.name
        },
        description: if description is Some {
            description
        } else {
            p.description
        },
        updated_at: now,
        ..p
    }
}

/// State transition of a project update: the identity check's error, `NotFound`,
/// `Forbidden` for a caller other than the owner, or the updated record
/// installed.
pub open spec fn spec_update_project(
    s: StoreView,
    caller: Identity,
    id: Seq<char>,
    name: Option<Seq<char>>,
    description: Option<Seq<char>>,
    now: u64,
) -> (StoreView, Result<ProjectView, StoreError>) {
    match s.gate(caller) {
        Some(e) => (s, Err(e)),
        None => match s.project(id) {
            None => (s, Err(StoreError::NotFound)),
            Some(p) => {
                if p.owner != caller {
                    (s, Err(StoreError::Forbidden))
                } else {
                    let p2 = updated_project_view(p, name, description, now);
                    (s.put_project(p2), Ok(p2))
                }
            },
        },
    }
}

/// Installing a project with a fresh id and empty child lists preserves
/// the store invariant.
pub proof fn lemma_create_project_preserves_inv(s: StoreView, p: ProjectView)
    requires
        s.inv(),
        s.project(p.id) is None,
        p.collaborators.len() == 0,
        p.tracks.len() == 0,
        p.nfts.len() == 0,
    ensures
        s.put_project(p).inv(),
{
    let s1 = s.put_project(p);
    lemma_distinct_put_by(s.projects, pkey(), p);
    lemma_put_by_elems(s.projects, pkey(), p);
    lemma_find_by_props(s.projects, pkey(), p.id);
    assert forall|k: Seq<char>| true implies s1.project(k) == if k == p.id {
        Some(p)
    } else {
        s.project(k)
    } by {
        lemma_find_by_put_by(s.projects, pkey(), p, k);
    }
    // Track rows stay linked: their projects existed before, so they are
    // not the fresh project.
    assert forall|i: int| 0 <= i < s1.tracks.len() implies s1.track_linked(
        #[trigger] s1.tracks[i],
    ) by {
        let t = s.tracks[i];
        assert(s.track_linked(t));
        assert(t.project_id != p.id);
        assert(s1.project(t.project_id) == s.project(t.project_id));
    }
    assert forall|i: int, j: int|
        #![trigger s1.projects[i].tracks[j]]
        0 <= i < s1.projects.len() && 0 <= j < s1.projects[i].tracks.len() implies s1
        .track_entry_ok(s1.projects[i], j) by {
        let q = s1.projects[i];
        assert(q == p || s.projects.contains(q));
        if q != p {
            let l = choose|l: int| 0 <= l < s.projects.len() && s.projects[l] == q;
            assert(s.track_entry_ok(s.projects[l], j));
        }
    }
    assert forall|i: int| 0 <= i < s1.projects.len() implies distinct_by(
        (#[trigger] s1.projects[i]).tracks,
        idkey(),
    ) by {
        let q = s1.projects[i];
        assert(q == p || s.projects.contains(q));
        if q != p {
            let l = choose|l: int| 0 <= l < s.projects.len() && s.projects[l] == q;
            assert(distinct_by(s.projects[l].tracks, idkey()));
        }
    }
    // NFT rows, same reasoning.
    assert forall|i: int| 0 <= i < s1.nfts.len() implies s1.nft_linked(#[trigger] s1.nfts[i]) by {
        let n = s.nfts[i];
        assert(s.nft_linked(n));
        assert(n.project_id != p.id);
        assert(s1.project(n.project_id) == s.project(n.project_id));
    }
    assert forall|i: int, j: int|
        #![trigger s1.projects[i].nfts[j]]
        0 <= i < s1.projects.len() && 0 <= j < s1.projects[i].nfts.len() implies s1.nft_entry_ok(
        s1.projects[i],
        j,
    ) by {
        let q = s1.projects[i];
        assert(q == p || s.projects.contains(q));
        if q != p {
            let l = choose|l: int| 0 <= l < s.projects.len() && s.projects[l] == q;
            assert(s.nft_entry_ok(s.projects[l], j));
        }
    }
    assert forall|i: int| 0 <= i < s1.projects.len() implies distinct_by(
        (#[trigger] s1.projects[i]).nfts,
        idkey(),
    ) by {
        let q = s1.projects[i];
        assert(q == p || s.projects.contains(q));
        if q != p {
            let l = choose|l: int| 0 <= l < s.projects.len() && s.projects[l] == q;
            assert(distinct_by(s.projects[l].nfts, idkey()));
        }
    }
    // Collaboration rows, same reasoning.
    assert forall|i: int| 0 <= i < s1.collaborations.len() implies s1.collaboration_linked(
        #[trigger] s1.collaborations[i],
    ) by {
        let c = s.collaborations[i];
        assert(s.collaboration_linked(c));
        assert(c.project_id != p.id);
        assert(s1.project(c.project_id) == s.project(c.project_id));
    }
    assert forall|i: int, j: int|
        #![trigger s1.projects[i].collaborators[j]]
        0 <= i < s1.projects.len() && 0 <= j < s1.projects[i].collaborators.len() implies s1.pair(
        s1.projects[i].id,
        s1.projects[i].collaborators[j],
    ) is Some by {
        let q = s1.projects[i];
        assert(q == p || s.projects.contains(q));
        if q != p {
            let l = choose|l: int| 0 <= l < s.projects.len() && s.projects[l] == q;
            assert(s.pair(s.projects[l].id, s.projects[l].collaborators[j]) is Some);
        }
    }
    assert forall|i: int| 0 <= i < s1.projects.len() implies distinct_by(
        (#[trigger] s1.projects[i]).collaborators,
        idkey(),
    ) by {
        let q = s1.projects[i];
        assert(q == p || s.projects.contains(q));
        if q != p {
            let l = choose|l: int| 0 <= l < s.projects.len() && s.projects[l] == q;
            assert(distinct_by(s.projects[l].collaborators, idkey()));
        }
    }
}

/// Replacing a project by a record with the same id and the same child
/// lists preserves the store invariant.
pub proof fn lemma_update_project_preserves_inv(s: StoreView, p0: ProjectView, p: ProjectView)
    requires
        s.inv(),
        s.project(p.id) == Some(p0),
        p.id == p0.id,
        p.collaborators == p0.collaborators,
        p.tracks == p0.tracks,
        p.nfts == p0.nfts,
    ensures
        s.put_project(p).inv(),
{
    let s1 = s.put_project(p);
    lemma_distinct_put_by(s.projects, pkey(), p);
    lemma_put_by_elems(s.projects, pkey(), p);
    lemma_find_by_props(s.projects, pkey(), p.id);
    assert(s.projects.contains(p0));
    let l0 = choose|l: int| 0 <= l < s.projects.len() && s.projects[l] == p0;
    assert forall|k: Seq<char>| true implies s1.project(k) == if k == p.id {
        Some(p)
    } else {
        s.project(k)
    } by {
        lemma_find_by_put_by(s.projects, pkey(), p, k);
    }
    assert forall|i: int| 0 <= i < s1.tracks.len() implies s1.track_linked(
        #[trigger] s1.tracks[i],
    ) by {
        let t = s.tracks[i];
        assert(s.track_linked(t));
        if t.project_id == p.id {
            assert(s1.project(t.project_id) == Some(p));
        }
    }
    assert forall|i: int, j: int|
        #![trigger s1.projects[i].tracks[j]]
        0 <= i < s1.projects.len() && 0 <= j < s1.projects[i].tracks.len() implies s1
        .track_entry_ok(s1.projects[i], j) by {
        let q = s1.projects[i];
        assert(q == p || s.projects.contains(q));
        if q == p {
            assert(s.track_entry_ok(s.projects[l0], j));
        } else {
            let l = choose|l: int| 0 <= l < s.projects.len() && s.projects[l] == q;
            assert(s.track_entry_ok(s.projects[l], j));
        }
    }
    assert forall|i: int| 0 <= i < s1.projects.len() implies distinct_by(
        (#[trigger] s1.projects[i]).tracks,
        idkey(),
    ) by {
        let q = s1.projects[i];
        assert(q == p || s.projects.contains(q));
        if q == p {
            assert(distinct_by(s.projects[l0].tracks, idkey()));
        } else {
            let l = choose|l: int| 0 <= l < s.projects.len() && s.projects[l] == q;
            assert(distinct_by(s.projects[l].tracks, idkey()));
        }
    }
    assert forall|i: int| 0 <= i < s1.nfts.len() implies s1.nft_linked(#[trigger] s1.nfts[i]) by {
        let n = s.nfts[i];
        assert(s.nft_linked(n));
        if n.project_id == p.id {
            assert(s1.project(n.project_id) == Some(p));
        }
    }
    assert forall|i: int, j: int|
        #![trigger s1.projects[i].nfts[j]]
        0 <= i < s1.projects.len() && 0 <= j < s1.projects[i].nfts.len() implies s1.nft_entry_ok(
        s1.projects[i],
        j,
    ) by {
        let q = s1.projects[i];
        assert(q == p || s.projects.contains(q));
        if q == p {
            assert(s.nft_entry_ok(s.projects[l0], j));
        } else {
            let l = choose|l: int| 0 <= l < s.projects.len() && s.projects[l] == q;
            assert(s.nft_entry_ok(s.projects[l], j));
        }
    }
    assert forall|i: int| 0 <= i < s1.projects.len() implies distinct_by(
        (#[trigger] s1.projects[i]).nfts,
        idkey(),
    ) by {
        let q = s1.projects[i];
        assert(q == p || s.projects.contains(q));
        if q == p {
            assert(distinct_by(s.projects[l0].nfts, idkey()));
        } else {
            let l = choose|l: int| 0 <= l < s.projects.len() && s.projects[l] == q;
            assert(distinct_by(s.projects[l].nfts, idkey()));
        }
    }
    assert forall|i: int| 0 <= i < s1.collaborations.len() implies s1.collaboration_linked(
        #[trigger] s1.collaborations[i],
    ) by {
        let c = s.collaborations[i];
        assert(s.collaboration_linked(c));
        if c.project_id == p.id {
            assert(s1.project(c.project_id) == Some(p));
        }
    }
    assert forall|i: int, j: int|
        #![trigger s1.projects[i].collaborators[j]]
        0 <= i < s1.projects.len() && 0 <= j < s1.projects[i].collaborators.len() implies s1.pair(
        s1.projects[i].id,
        s1.projects[i].collaborators[j],
    ) is Some by {
        let q = s1.projects[i];
        assert(q == p || s.projects.contains(q));
        if q == p {
            assert(s.pair(s.projects[l0].id, s.projects[l0].collaborators[j]) is Some);
        } else {
            let l = choose|l: int| 0 <= l < s.projects.len() && s.projects[l] == q;
            assert(s.pair(s.projects[l].id, s.projects[l].collaborators[j]) is Some);
        }
    }
    assert forall|i: int| 0 <= i < s1.projects.len() implies distinct_by(
        (#[trigger] s1.projects[i]).collaborators,
        idkey(),
    ) by {
        let q = s1.projects[i];
        assert(q == p || s.projects.contains(q));
        if q == p {
            assert(distinct_by(s.projects[l0].collaborators, idkey()));
        } else {
            let l = choose|l: int| 0 <= l < s.projects.len() && s.projects[l] == q;
            assert(distinct_by(s.projects[l].collaborators, idkey()));
        }
    }
}

/// The track record that track creation installs: status `Draft` and `now`
/// as creation time.
pub open spec fn new_track_view(
    id: Seq<char>,
    project_id: Seq<char>,
    name: Seq<char>,
    ipfs_hash: Seq<char>,
    duration: u64,
    now: u64,
) -> TrackView {
    TrackView {
        id: id,
        project_id: project_id,
        name: name,
        ipfs_hash: ipfs_hash,
        duration: duration,
        status: TrackStatus::Draft,
        created_at: now,
    }
}

/// State transition of track creation with a chosen id: the identity check's error,
/// `NotFound` for a missing project, `Forbidden` for a caller that is
/// neither owner nor collaborator, `Conflict` for a taken id; otherwise
/// the track is installed and its id appended to the project's track list.
pub open spec fn spec_add_track(
    s: StoreView,
    caller: Identity,
    id: Seq<char>,
    project_id: Seq<char>,
    name: Seq<char>,
    ipfs_hash: Seq<char>,
    duration: u64,
    now: u64,
) -> (StoreView, Result<TrackView, StoreError>) {
    match s.gate(caller) {
        Some(e) => (s, Err(e)),
        None => match s.project(project_id) {
            None => (s, Err(StoreError::NotFound)),
            Some(p) => {
                if !StoreView::may_contribute(p, caller) {
                    (s, Err(StoreError::Forbidden))
                } else if s.track(id) is Some {
                    (s, Err(StoreError::Conflict))
                } else {
                    let t = new_track_view(id, project_id, name, ipfs_hash, duration, now);
                    let p2 = ProjectView { tracks: p.tracks.push(id), updated_at: now, ..p };
                    (s.put_track(t).put_project(p2), Ok(t))
                }
            },
        },
    }
}

/// State transition of a track status change: the identity check's error, `NotFound`
/// for a missing track or project, `Forbidden` for a caller that is
/// neither owner nor collaborator, `Conflict` for a regression in the
/// one-way lifecycle; otherwise the status is replaced.
pub open spec fn spec_set_track_status(
    s: StoreView,
    caller: Identity,
    id: Seq<char>,
    status: TrackStatus,
) -> (StoreView, Result<TrackView, StoreError>) {
    match s.gate(caller) {
        Some(e) => (s, Err(e)),
        None => match s.track(id) {
            None => (s, Err(StoreError::NotFound)),
            Some(t) => match s.project(t.project_id) {
                None => (s, Err(StoreError::NotFound)),
                Some(p) => {
                    if !StoreView::may_contribute(p, caller) {
                        (s, Err(StoreError::Forbidden))
                    } else if status_rank(status) < status_rank(t.status) {
                        (s, Err(StoreError::Conflict))
                    } else {
                        let t2 = TrackView { status: status, ..t };
                        (s.put_track(t2), Ok(t2))
                    }
                },
            },
        },
    }
}

/// Installing a fresh track and appending its id to its project's track
/// list preserves the store invariant.
pub proof fn lemma_add_track_preserves_inv(
    s: StoreView,
    p: ProjectView,
    p2: ProjectView,
    t: TrackView,
)
    requires
        s.inv(),
        s.project(t.project_id) == Some(p),
        s.track(t.id) is None,
        p2.id == p.id,
        p2.tracks == p.tracks.push(t.id),
        p2.nfts == p.nfts,
        p2.collaborators == p.collaborators,
    ensures
        s.put_track(t).put_project(p2).inv(),
{
    let s1 = s.put_track(t);
    let s2 = s1.put_project(p2);
    lemma_find_by_props(s.projects, pkey(), t.project_id);
    assert(p.id == t.project_id);
    assert(s.projects.contains(p));
    let l0 = choose|l: int| 0 <= l < s.projects.len() && s.projects[l] == p;
    lemma_distinct_put_by(s.tracks, tkey(), t);
    lemma_distinct_put_by(s.projects, pkey(), p2);
    lemma_put_by_elems(s.tracks, tkey(), t);
    lemma_put_by_elems(s.projects, pkey(), p2);
    assert forall|k: Seq<char>| true implies s2.track(k) == if k == t.id {
        Some(t)
    } else {
        s.track(k)
    } by {
        lemma_find_by_put_by(s.tracks, tkey(), t, k);
    }
    assert forall|k: Seq<char>| true implies s2.project(k) == if k == p2.id {
        Some(p2)
    } else {
        s.project(k)
    } by {
        lemma_find_by_put_by(s.projects, pkey(), p2, k);
    }
    // The fresh id is not yet listed by its project.
    assert forall|j: int| 0 <= j < p.tracks.len() implies p.tracks[j] != t.id by {
        assert(s.track_entry_ok(s.projects[l0], j));
    }
    lemma_find_by_none(p.tracks, idkey(), t.id);
    lemma_distinct_push(p.tracks, idkey(), t.id);
    // Track rows stay linked.
    assert forall|i: int| 0 <= i < s2.tracks.len() implies s2.track_linked(
        #[trigger] s2.tracks[i],
    ) by {
        let tr = s2.tracks[i];
        assert(tr == t || s.tracks.contains(tr));
        if tr == t {
            assert(s2.project(t.project_id) == Some(p2));
            assert(p2.tracks[p.tracks.len() as int] == t.id);
        } else {
            let l = choose|l: int| 0 <= l < s.tracks.len() && s.tracks[l] == tr;
            assert(s.track_linked(s.tracks[l]));
            if tr.project_id == p2.id {
                assert(s.project(tr.project_id) == Some(p));
                let j = choose|j: int| 0 <= j < p.tracks.len() && p.tracks[j] == tr.id;
                assert(p2.tracks[j] == tr.id);
            }
        }
    }
    // Listed track ids stay valid.
    assert forall|i: int, j: int|
        #![trigger s2.projects[i].tracks[j]]
        0 <= i < s2.projects.len() && 0 <= j < s2.projects[i].tracks.len() implies s2
        .track_entry_ok(s2.projects[i], j) by {
        let q = s2.projects[i];
        assert(q == p2 || s.projects.contains(q));
        if q == p2 {
            if j < p.tracks.len() {
                assert(s.track_entry_ok(s.projects[l0], j));
                assert(p.tracks[j] != t.id);
                assert(p2.tracks[j] == p.tracks[j]);
            } else {
                assert(p2.tracks[j] == t.id);
            }
        } else {
            let l = choose|l: int| 0 <= l < s.projects.len() && s.projects[l] == q;
            assert(s.track_entry_ok(s.projects[l], j));
            assert(q.tracks[j] != t.id);
        }
    }
    assert forall|i: int| 0 <= i < s2.projects.len() implies distinct_by(
        (#[trigger] s2.projects[i]).tracks,
        idkey(),
    ) by {
        let q = s2.projects[i];
        assert(q == p2 || s.projects.contains(q));
        if q != p2 {
            let l = choose|l: int| 0 <= l < s.projects.len() && s.projects[l] == q;
            assert(distinct_by(s.projects[l].tracks, idkey()));
        }
    }
    // NFT rows and listed NFT ids are untouched: the replaced project keeps
    // its NFT list and the NFT collection is unchanged.
    assert forall|i: int| 0 <= i < s2.nfts.len() implies s2.nft_linked(#[trigger] s2.nfts[i]) by {
        let n = s.nfts[i];
        assert(s.nft_linked(n));
        if n.project_id == p2.id {
            assert(s.project(n.project_id) == Some(p));
            assert(s2.project(n.project_id) == Some(p2));
        }
    }
    assert forall|i: int, j: int|
        #![trigger s2.projects[i].nfts[j]]
        0 <= i < s2.projects.len() && 0 <= j < s2.projects[i].nfts.len() implies s2.nft_entry_ok(
        s2.projects[i],
        j,
    ) by {
        let q = s2.projects[i];
        assert(q == p2 || s.projects.contains(q));
        if q == p2 {
            assert(s.nft_entry_ok(s.projects[l0], j));
        } else {
            let l = choose|l: int| 0 <= l < s.projects.len() && s.projects[l] == q;
            assert(s.nft_entry_ok(s.projects[l], j));
        }
    }
    assert forall|i: int| 0 <= i < s2.projects.len() implies distinct_by(
        (#[trigger] s2.projects[i]).nfts,
        idkey(),
    ) by {
        let q = s2.projects[i];
        assert(q == p2 || s.projects.contains(q));
        if q == p2 {
            assert(distinct_by(s.projects[l0].nfts, idkey()));
        } else {
            let l = choose|l: int| 0 <= l < s.projects.len() && s.projects[l] == q;
            assert(distinct_by(s.projects[l].nfts, idkey()));
        }
    }
    // Collaboration rows and listed collaborators are untouched likewise.
    assert forall|i: int| 0 <= i < s2.collaborations.len() implies s2.collaboration_linked(
        #[trigger] s2.collaborations[i],
    ) by {
        let c = s.collaborations[i];
        assert(s.collaboration_linked(c));
        if c.project_id == p2.id {
            assert(s.project(c.project_id) == Some(p));
            assert(s2.project(c.project_id) == Some(p2));
        }
    }
    assert forall|i: int, j: int|
        #![trigger s2.projects[i].collaborators[j]]
        0 <= i < s2.projects.len() && 0 <= j < s2.projects[i].collaborators.len() implies s2.pair(
        s2.projects[i].id,
        s2.projects[i].collaborators[j],
    ) is Some by {
        let q = s2.projects[i];
        assert(q == p2 || s.projects.contains(q));
        if q == p2 {
            assert(s.pair(s.projects[l0].id, s.projects[l0].collaborators[j]) is Some);
        } else {
            let l = choose|l: int| 0 <= l < s.projects.len() && s.projects[l] == q;
            assert(s.pair(s.projects[l].id, s.projects[l].collaborators[j]) is Some);
        }
    }
    assert forall|i: int| 0 <= i < s2.projects.len() implies distinct_by(
        (#[trigger] s2.projects[i]).collaborators,
        idkey(),
    ) by {
        let q = s2.projects[i];
        assert(q == p2 || s.projects.contains(q));
        if q == p2 {
            assert(distinct_by(s.projects[l0].collaborators, idkey()));
        } else {
            let l = choose|l: int| 0 <= l < s.projects.len() && s.projects[l] == q;
            assert(distinct_by(s.projects[l].collaborators, idkey()));
        }
    }
}

/// Replacing a track by a record with the same id and the same owning
/// project preserves the store invariant.
pub proof fn lemma_replace_track_preserves_inv(s: StoreView, t0: TrackView, t: TrackView)
    requires
        s.inv(),
        s.track(t.id) == Some(t0),
        t.id == t0.id,
        t.project_id == t0.project_id,
    ensures
        s.put_track(t).inv(),
{
    let s1 = s.put_track(t);
    lemma_find_by_props(s.tracks, tkey(), t.id);
    assert(s.tracks.contains(t0));
    let l0 = choose|l: int| 0 <= l < s.tracks.len() && s.tracks[l] == t0;
    lemma_distinct_put_by(s.tracks, tkey(), t);
    lemma_put_by_elems(s.tracks, tkey(), t);
    assert forall|k: Seq<char>| true implies s1.track(k) == if k == t.id {
        Some(t)
    } else {
        s.track(k)
    } by {
        lemma_find_by_put_by(s.tracks, tkey(), t, k);
    }
    assert forall|i: int| 0 <= i < s1.tracks.len() implies s1.track_linked(
        #[trigger] s1.tracks[i],
    ) by {
        let tr = s1.tracks[i];
        assert(tr == t || s.tracks.contains(tr));
        if tr == t {
            assert(s.track_linked(s.tracks[l0]));
        } else {
            let l = choose|l: int| 0 <= l < s.tracks.len() && s.tracks[l] == tr;
            assert(s.track_linked(s.tracks[l]));
        }
    }
    assert forall|i: int, j: int|
        #![trigger s1.projects[i].tracks[j]]
        0 <= i < s1.projects.len() && 0 <= j < s1.projects[i].tracks.len() implies s1
        .track_entry_ok(s1.projects[i], j) by {
        let q = s1.projects[i];
        assert(s.track_entry_ok(q, j));
        if q.tracks[j] == t.id {
            assert(s.track(q.tracks[j]) == Some(t0));
            assert(t0.project_id == q.id);
        }
    }
    assert forall|i: int| 0 <= i < s1.nfts.len() implies s1.nft_linked(#[trigger] s1.nfts[i]) by {
        assert(s.nft_linked(s.nfts[i]));
    }
    assert forall|i: int| 0 <= i < s1.collaborations.len() implies s1.collaboration_linked(
        #[trigger] s1.collaborations[i],
    ) by {
        assert(s.collaboration_linked(s.collaborations[i]));
    }
}

impl Store {
    /// Creates a project under a caller-supplied id. Applies the identity
    /// gate first; rejects a taken id (`Conflict`); otherwise installs a
    /// project owned by the caller, with empty collaborator, track and NFT
    /// lists.
    pub fn create_project_with_id(
        &mut self,
        caller: Identity,
        id: String,
        name: String,
        description: Option<String>,
        now: u64,
    ) -> (r: Result<Project, StoreError>)
        ensures
            ({
                let (s1, res) = spec_create_project(
                    old(self)@,
                    caller,
                    id@,
                    name@,
                    description.deep_view(),
                    now,
                );
                final(self)@ == s1 && result_view(r) == res
            }),
            old(self)@.inv() ==> final(self)@.inv(),
    {
        let ghost s0 = self@;
        if let Err(e) = self.require_authenticated(caller) {
            return Err(e);
        }
        if self.get_project_by_id(&id).is_some() {
            return Err(StoreError::Conflict);
        }
        let project = Project {
            id: id,
            owner: caller,
            name: name,
            description: description,
            collaborators: Vec::new(),
            tracks: Vec::new(),
            nfts: Vec::new(),
            created_at: now,
            updated_at: now,
        };
        let ghost pv = project@;
        let result = project.clone();
        self.save_project(project);
        proof {
            assert(pv.collaborators =~= Seq::<Identity>::empty());
            assert(pv.tracks =~= Seq::<Seq<char>>::empty());
            assert(pv.nfts =~= Seq::<Seq<char>>::empty());
            assert(pv == new_project_view(id@, caller, name@, description.deep_view(), now));
            if s0.inv() {
                lemma_create_project_preserves_inv(s0, pv);
            }
        }
        Ok(result)
    }

    /// Creates a project under a freshly generated id. The id is random:
    /// on the rare draw of an id already in use the operation reports
    /// `Conflict` and leaves the store unchanged, and the caller may retry.
    pub fn create_project(
        &mut self,
        caller: Identity,
        name: String,
        description: Option<String>,
        now: u64,
    ) -> (r: Result<Project, StoreError>)
        ensures
            (match r {
                Ok(p) => old(self)@.project(p@.id) is None && ({
                    let (s1, res) = spec_create_project(
                        old(self)@,
                        caller,
                        p@.id,
                        name@,
                        description.deep_view(),
                        now,
                    );
                    final(self)@ == s1 && res == Ok::<ProjectView, StoreError>(p@)
                }),
                Err(e) => final(self)@ == old(self)@ && (match old(self)@.gate(caller) {
                    Some(g) => e == g,
                    None => e == StoreError::Conflict,
                }),
            }),
            old(self)@.inv() ==> final(self)@.inv(),
    {
        let id = fresh_uuid();
        self.create_project_with_id(caller, id, name, description, now)
    }

    /// All projects, unfiltered, in stable insertion order.
    pub fn get_projects(&self) -> (r: Vec<Project>)
        ensures
            r.deep_view() == self@.projects,
    {
        self.get_all_projects()
    }

    /// The project with the given id, or `NotFound`.
    pub fn get_project(&self, id: String) -> (r: Result<Project, StoreError>)
        ensures
            (match self@.project(id@) {
                Some(pv) => r matches Ok(p) && p@ == pv,
                None => r == Err::<Project, StoreError>(StoreError::NotFound),
            }),
    {
        match self.get_project_by_id(&id) {
            Some(p) => Ok(p),
            None => Err(StoreError::NotFound),
        }
    }

    /// Updates a project's name and/or description. Applies the identity
    /// gate first; only the owner may update (`Forbidden` otherwise); only
    /// the supplied fields change, and `updated_at` is bumped.
    pub fn update_project(
        &mut self,
        caller: Identity,
        id: String,
        name: Option<String>,
        description: Option<String>,
        now: u64,
    ) -> (r: Result<Project, StoreError>)
        ensures
            ({
                let (s1, res) = spec_update_project(
                    old(self)@,
                    caller,
                    id@,
                    name.deep_view(),
                    description.deep_view(),
                    now,
                );
                final(self)@ == s1 && result_view(r) == res
            }),
            old(self)@.inv() ==> final(self)@.inv(),
    {
        let ghost s0 = self@;
        let ghost name_v = name.deep_view();
        let ghost description_v = description.deep_view();
        if let Err(e) = self.require_authenticated(caller) {
            return Err(e);
        }
        let mut project = match self.get_project_by_id(&id) {
            None => {
                return Err(StoreError::NotFound);
            },
            Some(p) => p,
        };
        let ghost p0v = project@;
        if project.owner != caller {
            return Err(StoreError::Forbidden);
        }
        if let Some(new_name) = name {
            project.name = new_name;
        }
        if let Some(new_description) = description {
            project.description = Some(new_description);
        }
        project.updated_at = now;
        let ghost pv = project@;
        let result = project.clone();
        self.save_project(project);
        proof {
            assert(pv == updated_project_view(p0v, name_v, description_v, now));
            lemma_find_by_props(s0.projects, pkey(), id@);
            assert(p0v.id == id@);
            if s0.inv() {
                lemma_update_project_preserves_inv(s0, p0v, pv);
            }
        }
        Ok(result)
    }

    /// Adds a track under a caller-supplied id. Applies the identity gate
    /// first; the caller must be the project's owner or a listed
    /// collaborator (`Forbidden` otherwise); rejects a taken id
    /// (`Conflict`); otherwise installs the track with status `Draft`,
    /// appends its id to the project's track list and bumps the project's
    /// `updated_at`.
    pub fn add_track_with_id(
        &mut self,
        caller: Identity,
        id: String,
        project_id: String,
        name: String,
        ipfs_hash: String,
        duration: u64,
        now: u64,
    ) -> (r: Result<Track, StoreError>)
        ensures
            ({
                let (s1, res) = spec_add_track(
                    old(self)@,
                    caller,
                    id@,
                    project_id@,
                    name@,
                    ipfs_hash@,
                    duration,
                    now,
                );
                final(self)@ == s1 && result_view(r) == res
            }),
            old(self)@.inv() ==> final(self)@.inv(),
    {
        let ghost s0 = self@;
        let ghost id_v = id@;
        let ghost pid_v = project_id@;
        if let Err(e) = self.require_authenticated(caller) {
            return Err(e);
        }
        let mut project = match self.get_project_by_id(&project_id) {
            None => {
                return Err(StoreError::NotFound);
            },
            Some(p) => p,
        };
        let ghost p0v = project@;
        if !(project.owner == caller || contains_identity(&project.collaborators, caller)) {
            return Err(StoreError::Forbidden);
        }
        if self.get_track_by_id(&id).is_some() {
            return Err(StoreError::Conflict);
        }
        let track = Track {
            id: id.clone(),
            project_id: project_id,
            name: name,
            ipfs_hash: ipfs_hash,
            duration: duration,
            status: TrackStatus::Draft,
            created_at: now,
        };
        let ghost tv = track@;
        project.tracks.push(id);
        project.updated_at = now;
        let ghost p2v = project@;
        let result = track.clone();
        self.save_track(track);
        self.save_project(project);
        proof {
            assert(p2v.tracks =~= p0v.tracks.push(id_v));
            assert(tv == new_track_view(id_v, pid_v, name@, ipfs_hash@, duration, now));
            lemma_find_by_props(s0.projects, pkey(), pid_v);
            assert(p0v.id == pid_v);
            assert(p2v == (ProjectView { tracks: p0v.tracks.push(id_v), updated_at: now, ..p0v }));
            if s0.inv() {
                lemma_add_track_preserves_inv(s0, p0v, p2v, tv);
            }
        }
        Ok(result)
    }

    /// Adds a track under a freshly generated id. The id is random: on the
    /// rare draw of an id already in use the operation reports `Conflict`
    /// and leaves the store unchanged, and the caller may retry.
    pub fn add_track(
        &mut self,
        caller: Identity,
        project_id: String,
        name: String,
        ipfs_hash: String,
        duration: u64,
        now: u64,
    ) -> (r: Result<Track, StoreError>)
        ensures
            (match r {
                Ok(t) => old(self)@.track(t@.id) is None && ({
                    let (s1, res) = spec_add_track(
                        old(self)@,
                        caller,
                        t@.id,
                        project_id@,
                        name@,
                        ipfs_hash@,
                        duration,
                        now,
                    );
                    final(self)@ == s1 && res == Ok::<TrackView, StoreError>(t@)
                }),
                Err(e) => final(self)@ == old(self)@ && (match old(self)@.gate(caller) {
                    Some(g) => e == g,
                    None => match old(self)@.project(project_id@) {
                        None => e == StoreError::NotFound,
                        Some(p) => if !StoreView::may_contribute(p, caller) {
                            e == StoreError::Forbidden
                        } else {
                            e == StoreError::Conflict
                        },
                    },
                }),
            }),
            old(self)@.inv() ==> final(self)@.inv(),
    {
        let id = fresh_uuid();
        self.add_track_with_id(caller, id, project_id, name, ipfs_hash, duration, now)
    }

    /// All tracks of the given project, in stable insertion order.
    pub fn get_project_tracks(&self, project_id: String) -> (r: Vec<Track>)
        ensures
            r.deep_view() == self@.tracks.filter(track_of(project_id@)),
    {
        let n = self.tracks.len();
        let mut r: Vec<Track> = Vec::new();
        let mut i: usize = 0;
        while i < n
            invariant
                i <= n,
                n == self.tracks@.len(),
                r.deep_view() =~= self@.tracks.take(i as int).filter(track_of(project_id@)),
            decreases n - i,
        {
            proof {
                assert(self@.tracks[i as int] == self.tracks@[i as int]@);
            }
            if self.tracks[i].project_id == project_id {
                r.push(self.tracks[i].clone());
            }
            proof {
                reveal(Seq::filter);
                assert(self@.tracks.take(i + 1).drop_last() =~= self@.tracks.take(i as int));
                assert(self@.tracks.take(i + 1).last() == self@.tracks[i as int]);
                assert(r.deep_view() =~= self@.tracks.take(i + 1).filter(track_of(project_id@)));
            }
            i = i + 1;
        }
        proof {
            assert(self@.tracks.take(n as int) =~= self@.tracks);
        }
        r
    }

    /// Advances a track's lifecycle status. Applies the identity gate
    /// first; the caller must be the owning project's owner or a listed
    /// collaborator (`Forbidden` otherwise); the move must not regress the
    /// one-way ordering Draft -> Recording -> Mixing -> Completed
    /// (`Conflict` otherwise).
    pub fn set_track_status(&mut self, caller: Identity, id: String, status: TrackStatus) -> (r:
        Result<Track, StoreError>)
        ensures
            ({
                let (s1, res) = spec_set_track_status(old(self)@, caller, id@, status);
                final(self)@ == s1 && result_view(r) == res
            }),
            old(self)@.inv() ==> final(self)@.inv(),
    {
        let ghost s0 = self@;
        if let Err(e) = self.require_authenticated(caller) {
            return Err(e);
        }
        let mut track = match self.get_track_by_id(&id) {
            None => {
                return Err(StoreError::NotFound);
            },
            Some(t) => t,
        };
        let ghost t0v = track@;
        let project = match self.get_project_by_id(&track.project_id) {
            None => {
                return Err(StoreError::NotFound);
            },
            Some(p) => p,
        };
        if !(project.owner == caller || contains_identity(&project.collaborators, caller)) {
            return Err(StoreError::Forbidden);
        }
        if status_rank_of(status) < status_rank_of(track.status) {
            return Err(StoreError::Conflict);
        }
        track.status = status;
        let ghost tv = track@;
        let result = track.clone();
        self.save_track(track);
        proof {
            lemma_find_by_props(s0.tracks, tkey(), id@);
            assert(t0v.id == id@);
            if s0.inv() {
                lemma_replace_track_preserves_inv(s0, t0v, tv);
            }
        }
        Ok(result)
    }
}

/// Selects the tracks of one project.
pub open spec fn track_of(project_id: Seq<char>) -> spec_fn(TrackView) -> bool {
    |t: TrackView| t.project_id == project_id
}

} // verus!
