//! Collaboration lifecycle and its accounting rules: adding a collaborator
//! (owner-only, bounded percentage, no duplicate per project), listing a
//! project's collaborations, and the one delete path of the whole model.

use vstd::prelude::*;

use crate::ids::fresh_uuid;
use crate::keyed::{
    distinct_by, find_by, idkey, lemma_distinct_push, lemma_distinct_put_by,
    lemma_distinct_remove, lemma_distinct_remove_by, lemma_find_by_none, lemma_find_by_props,
    lemma_find_by_push, lemma_find_by_put_by, lemma_find_by_remove, lemma_find_by_remove_by,
    lemma_find_val_contains, lemma_put_by_elems, lemma_put_by_elems_distinct, lemma_put_by_push,
    lemma_remove_by_absent, lemma_remove_by_at, remove_by,
};
use crate::storage::{ckey, cpairkey, pkey, Store, StoreView};
use crate::types::{
    contains_identity, result_view, Collaboration, CollaborationView, Identity, ProjectView,
    StoreError,
};

verus! {

/// The collaboration record that `add_collaborator` installs.
pub open spec fn new_collaboration_view(
    id: Seq<char>,
    project_id: Seq<char>,
    user_principal: Identity,
    contribution_percentage: u8,
    role: Seq<char>,
    now: u64,
) -> CollaborationView {
    CollaborationView {
        id: id,
        project_id: project_id,
        user_principal: user_principal,
        contribution_percentage: contribution_percentage,
        role: role,
        joined_at: now,
    }
}

/// State transition of adding a collaborator with a chosen record id:
/// the identity check's error, `NotFound` for a missing project,
/// `Forbidden` for a caller
/// other than the owner, `InvalidArgument` for a contribution percentage
/// over 100, `Conflict` for an identity already collaborating or a taken
/// record id; otherwise the record is installed and the identity appended
/// to the project's collaborator list.
pub open spec fn spec_add_collaborator(
    s: StoreView,
    caller: Identity,
    id: Seq<char>,
    project_id: Seq<char>,
    user_principal: Identity,
    contribution_percentage: u8,
    role: Seq<char>,
    now: u64,
) -> (StoreView, Result<CollaborationView, StoreError>) {
    match s.gate(caller) {
        Some(e) => (s, Err(e)),
        None => match s.project(project_id) {
            None => (s, Err(StoreError::NotFound)),
            Some(p) => {
                if p.owner != caller {
                    (s, Err(StoreError::Forbidden))
                } else if contribution_percentage > 100 {
                    (s, Err(StoreError::InvalidArgument))
                } else if p.collaborators.contains(user_principal) {
                    (s, Err(StoreError::Conflict))
                } else if s.collaboration(id) is Some {
                    (s, Err(StoreError::Conflict))
                } else {
                    let c = new_collaboration_view(
                        id,
                        project_id,
                        user_principal,
                        contribution_percentage,
                        role,
                        now,
                    );
                    let p2 = ProjectView {
                        collaborators: p.collaborators.push(user_principal),
                        updated_at: now,
                        ..p
                    };
                    (s.put_collaboration(c).put_project(p2), Ok(c))
                }
            },
        },
    }
}

/// State transition of removing a collaborator: the identity check's error, `NotFound`
/// for a missing project or collaboration, `Forbidden` for a caller other
/// than the owner, `InvalidArgument` when the collaboration belongs to a
/// different project; otherwise the record is deleted and the identity
/// removed from the project's collaborator list.
pub open spec fn spec_remove_collaborator(
    s: StoreView,
    caller: Identity,
    project_id: Seq<char>,
    collaboration_id: Seq<char>,
    now: u64,
) -> (StoreView, Result<(), StoreError>) {
    match s.gate(caller) {
        Some(e) => (s, Err(e)),
        None => match s.project(project_id) {
            None => (s, Err(StoreError::NotFound)),
            Some(p) => {
                if p.owner != caller {
                    (s, Err(StoreError::Forbidden))
                } else {
                    match s.collaboration(collaboration_id) {
                        None => (s, Err(StoreError::NotFound)),
                        Some(c) => {
                            if c.project_id != project_id {
                                (s, Err(StoreError::InvalidArgument))
                            } else {
                                let p2 = ProjectView {
                                    collaborators: remove_by(
                                        p.collaborators,
                                        idkey(),
                                        c.user_principal,
                                    ),
                                    updated_at: now,
                                    ..p
                                };
                                (s.drop_collaboration(collaboration_id).put_project(p2), Ok(()))
                            }
                        },
                    }
                }
            },
        },
    }
}

/// Installing a fresh, bounded collaboration record and appending its
/// collaborator to the project's list preserves the store invariant.
pub proof fn lemma_add_collaborator_preserves_inv(
    s: StoreView,
    p: ProjectView,
    p2: ProjectView,
    c: CollaborationView,
)
    requires
        s.inv(),
        s.project(c.project_id) == Some(p),
        s.collaboration(c.id) is None,
        !p.collaborators.contains(c.user_principal),
        c.contribution_percentage <= 100,
        p2.id == p.id,
        p2.tracks == p.tracks,
        p2.nfts == p.nfts,
        p2.collaborators == p.collaborators.push(c.user_principal),
    ensures
        s.put_collaboration(c).put_project(p2).inv(),
{
    let s1 = s.put_collaboration(c);
    let s2 = s1.put_project(p2);
    let who = c.user_principal;
    lemma_find_by_props(s.projects, pkey(), c.project_id);
    assert(p.id == c.project_id);
    assert(s.projects.contains(p));
    let l0 = choose|l: int| 0 <= l < s.projects.len() && s.projects[l] == p;
    // The new record's (project, collaborator) pair is fresh: a record
    // with that pair would have put the collaborator on the list.
    lemma_find_by_props(s.collaborations, cpairkey(), (cpairkey())(c));
    if find_by(s.collaborations, cpairkey(), (cpairkey())(c)) is Some {
        let w = find_by(s.collaborations, cpairkey(), (cpairkey())(c)).unwrap();
        assert(s.collaborations.contains(w));
        let m = choose|m: int| 0 <= m < s.collaborations.len() && s.collaborations[m] == w;
        assert(s.collaboration_linked(s.collaborations[m]));
        assert(false);
    }
    // The collaboration collection grows by a push.
    lemma_put_by_push(s.collaborations, ckey(), c);
    assert(s1.collaborations == s.collaborations.push(c));
    lemma_distinct_push(s.collaborations, ckey(), c);
    lemma_distinct_push(s.collaborations, cpairkey(), c);
    lemma_distinct_put_by(s.projects, pkey(), p2);
    lemma_put_by_elems(s.projects, pkey(), p2);
    assert forall|k: Seq<char>| true implies s2.collaboration(k) == if k == c.id {
        Some(c)
    } else {
        s.collaboration(k)
    } by {
        lemma_find_by_push(s.collaborations, ckey(), c, k);
        lemma_find_by_props(s.collaborations, ckey(), k);
    }
    assert forall|pid: Seq<char>, who2: Identity| true implies s2.pair(pid, who2) == if (pid,
    who2) == (cpairkey())(c) {
        Some(c)
    } else {
        s.pair(pid, who2)
    } by {
        lemma_find_by_push(s.collaborations, cpairkey(), c, (pid, who2));
    }
    assert forall|k: Seq<char>| true implies s2.project(k) == if k == p2.id {
        Some(p2)
    } else {
        s.project(k)
    } by {
        lemma_find_by_put_by(s.projects, pkey(), p2, k);
    }
    // The collaborator list of the project grows by a push of a fresh
    // identity.
    lemma_find_val_contains(p.collaborators, who);
    lemma_distinct_push(p.collaborators, idkey(), who);
    // Collaboration rows stay linked and bounded.
    assert forall|i: int| 0 <= i < s2.collaborations.len() implies s2.collaboration_linked(
        #[trigger] s2.collaborations[i],
    ) && s2.collaborations[i].contribution_percentage <= 100 by {
        let cr = s2.collaborations[i];
        if i < s.collaborations.len() {
            assert(cr == s.collaborations[i]);
            assert(s.collaboration_linked(cr));
            if cr.project_id == p2.id {
                assert(s.project(cr.project_id) == Some(p));
                assert(s2.project(cr.project_id) == Some(p2));
                let j = choose|j: int|
                    0 <= j < p.collaborators.len() && p.collaborators[j] == cr.user_principal;
                assert(p2.collaborators[j] == cr.user_principal);
            }
        } else {
            assert(cr == c);
            assert(s2.project(c.project_id) == Some(p2));
            assert(p2.collaborators[p.collaborators.len() as int] == who);
        }
    }
    // Every listed collaborator still has a record.
    assert forall|i: int, j: int|
        #![trigger s2.projects[i].collaborators[j]]
        0 <= i < s2.projects.len() && 0 <= j < s2.projects[i].collaborators.len() implies s2.pair(
        s2.projects[i].id,
        s2.projects[i].collaborators[j],
    ) is Some by {
        let q = s2.projects[i];
        assert(q == p2 || s.projects.contains(q));
        if q == p2 {
            if j < p.collaborators.len() {
                assert(p2.collaborators[j] == p.collaborators[j]);
                assert(s.pair(s.projects[l0].id, s.projects[l0].collaborators[j]) is Some);
                lemma_find_by_props(
                    s.collaborations,
                    cpairkey(),
                    (p.id, p.collaborators[j]),
                );
            } else {
                assert(p2.collaborators[j] == who);
                assert(s2.pair(p2.id, who) == Some(c));
            }
        } else {
            let l = choose|l: int| 0 <= l < s.projects.len() && s.projects[l] == q;
            assert(s.pair(s.projects[l].id, s.projects[l].collaborators[j]) is Some);
            lemma_find_by_props(s.collaborations, cpairkey(), (q.id, q.collaborators[j]));
        }
    }
    assert forall|i: int| 0 <= i < s2.projects.len() implies distinct_by(
        (#[trigger] s2.projects[i]).collaborators,
        idkey(),
    ) by {
        let q = s2.projects[i];
        assert(q == p2 || s.projects.contains(q));
        if q != p2 {
            let l = choose|l: int| 0 <= l < s.projects.len() && s.projects[l] == q;
            assert(distinct_by(s.projects[l].collaborators, idkey()));
        }
    }
    // Tracks and NFTs are untouched; the replaced project keeps its lists.
    assert forall|i: int| 0 <= i < s2.tracks.len() implies s2.track_linked(
        #[trigger] s2.tracks[i],
    ) by {
        let t = s.tracks[i];
        assert(s.track_linked(t));
        if t.project_id == p2.id {
            assert(s.project(t.project_id) == Some(p));
            assert(s2.project(t.project_id) == Some(p2));
        }
    }
    assert forall|i: int, j: int|
        #![trigger s2.projects[i].tracks[j]]
        0 <= i < s2.projects.len() && 0 <= j < s2.projects[i].tracks.len() implies s2
        .track_entry_ok(s2.projects[i], j) by {
        let q = s2.projects[i];
        assert(q == p2 || s.projects.contains(q));
        if q == p2 {
            assert(s.track_entry_ok(s.projects[l0], j));
        } else {
            let l = choose|l: int| 0 <= l < s.projects.len() && s.projects[l] == q;
            assert(s.track_entry_ok(s.projects[l], j));
        }
    }
    assert forall|i: int| 0 <= i < s2.projects.len() implies distinct_by(
        (#[trigger] s2.projects[i]).tracks,
        idkey(),
    ) by {
        let q = s2.projects[i];
        assert(q == p2 || s.projects.contains(q));
        if q == p2 {
            assert(distinct_by(s.projects[l0].tracks, idkey()));
        } else {
            let l = choose|l: int| 0 <= l < s.projects.len() && s.projects[l] == q;
            assert(distinct_by(s.projects[l].tracks, idkey()));
        }
    }
    assert forall|i: int| 0 <= i < s2.nfts.len() implies s2.nft_linked(#[trigger] s2.nfts[i]) by {
        let n = s.nfts[i];
        assert(s.nft_linked(n));
        if n.project_id == p2.id {
            assert(s.project(n.project_id) == Some(p));
            assert(s2.project(n.project_id) == Some(p2));
        }
    }
    assert forall|i: int, j: int|
        #![trigger s2.projects[i].nfts[j]]
        0 <= i < s2.projects.len() && 0 <= j < s2.projects[i].nfts.len() implies s2.nft_entry_ok(
        s2.projects[i],
        j,
    ) by {
        let q = s2.projects[i];
        assert(q == p2 || s.projects.contains(q));
        if q == p2 {
            assert(s.nft_entry_ok(s.projects[l0], j));
        } else {
            let l = choose|l: int| 0 <= l < s.projects.len() && s.projects[l] == q;
            assert(s.nft_entry_ok(s.projects[l], j));
        }
    }
    assert forall|i: int| 0 <= i < s2.projects.len() implies distinct_by(
        (#[trigger] s2.projects[i]).nfts,
        idkey(),
    ) by {
        let q = s2.projects[i];
        assert(q == p2 || s.projects.contains(q));
        if q == p2 {
            assert(distinct_by(s.projects[l0].nfts, idkey()));
        } else {
            let l = choose|l: int| 0 <= l < s.projects.len() && s.projects[l] == q;
            assert(distinct_by(s.projects[l].nfts, idkey()));
        }
    }
}

/// Deleting a collaboration record and removing its collaborator from the
/// project's list preserves the store invariant.
pub proof fn lemma_remove_collaborator_preserves_inv(
    s: StoreView,
    p: ProjectView,
    p2: ProjectView,
    c: CollaborationView,
)
    requires
        s.inv(),
        s.collaboration(c.id) == Some(c),
        s.project(c.project_id) == Some(p),
        p2.id == p.id,
        p2.tracks == p.tracks,
        p2.nfts == p.nfts,
        p2.collaborators == remove_by(p.collaborators, idkey(), c.user_principal),
    ensures
        s.drop_collaboration(c.id).put_project(p2).inv(),
{
    let s1 = s.drop_collaboration(c.id);
    let s2 = s1.put_project(p2);
    let who = c.user_principal;
    lemma_find_by_props(s.projects, pkey(), c.project_id);
    assert(p.id == c.project_id);
    assert(s.projects.contains(p));
    let l0 = choose|l: int| 0 <= l < s.projects.len() && s.projects[l] == p;
    lemma_find_by_props(s.collaborations, ckey(), c.id);
    assert(s.collaborations.contains(c));
    let m0 = choose|m: int| 0 <= m < s.collaborations.len() && s.collaborations[m] == c;
    // The record sits at the unique position of its id, so removal by id
    // is removal at that position.
    lemma_remove_by_at(s.collaborations, ckey(), c.id, m0);
    assert(s1.collaborations == s.collaborations.remove(m0));
    lemma_distinct_remove(s.collaborations, ckey(), m0);
    lemma_distinct_remove(s.collaborations, cpairkey(), m0);
    lemma_distinct_put_by(s.projects, pkey(), p2);
    lemma_put_by_elems_distinct(s.projects, pkey(), p2);
    assert forall|k: Seq<char>| true implies s2.project(k) == if k == p2.id {
        Some(p2)
    } else {
        s.project(k)
    } by {
        lemma_find_by_put_by(s.projects, pkey(), p2, k);
    }
    assert forall|pid: Seq<char>, who2: Identity| true implies s2.pair(pid, who2) == if (pid,
    who2) == (cpairkey())(c) {
        None::<CollaborationView>
    } else {
        s.pair(pid, who2)
    } by {
        lemma_find_by_remove(s.collaborations, cpairkey(), m0, (pid, who2));
    }
    // Membership in the project's collaborator list after the removal.
    assert(distinct_by(p.collaborators, idkey()));
    assert forall|y: Identity| true implies find_by(p2.collaborators, idkey(), y) == (if y
        == who {
        None::<Identity>
    } else {
        find_by(p.collaborators, idkey(), y)
    }) by {
        lemma_find_by_remove_by(p.collaborators, idkey(), who, y);
    }
    lemma_distinct_remove_by(p.collaborators, idkey(), who);
    // Remaining collaboration rows stay linked and bounded.
    assert forall|i: int| 0 <= i < s2.collaborations.len() implies s2.collaboration_linked(
        #[trigger] s2.collaborations[i],
    ) && s2.collaborations[i].contribution_percentage <= 100 by {
        let j: int = if i < m0 {
            i
        } else {
            i + 1
        };
        let cr = s.collaborations[j];
        assert(s2.collaborations[i] == cr);
        assert(s.collaboration_linked(s.collaborations[j]));
        assert(s.collaborations[j].contribution_percentage <= 100);
        if cr.project_id == p.id {
            assert(s.project(cr.project_id) == Some(p));
            assert(s2.project(cr.project_id) == Some(p2));
            // A second record of the removed pair cannot exist.
            assert((cpairkey())(s.collaborations[j]) != (cpairkey())(s.collaborations[m0]));
            assert(cr.user_principal != who);
            lemma_find_val_contains(p.collaborators, cr.user_principal);
            lemma_find_val_contains(p2.collaborators, cr.user_principal);
        }
    }
    // Every still-listed collaborator keeps a record.
    assert forall|i: int, j: int|
        #![trigger s2.projects[i].collaborators[j]]
        0 <= i < s2.projects.len() && 0 <= j < s2.projects[i].collaborators.len() implies s2.pair(
        s2.projects[i].id,
        s2.projects[i].collaborators[j],
    ) is Some by {
        let q = s2.projects[i];
        let y = q.collaborators[j];
        assert(q == p2 || (s.projects.contains(q) && q.id != p2.id));
        if q == p2 {
            lemma_find_val_contains(p2.collaborators, y);
            assert(y != who);
            lemma_find_val_contains(p.collaborators, y);
            assert(p.collaborators.contains(y));
            let j2 = choose|j2: int|
                0 <= j2 < p.collaborators.len() && p.collaborators[j2] == y;
            assert(s.pair(s.projects[l0].id, s.projects[l0].collaborators[j2]) is Some);
            assert(s2.pair(p2.id, y) == s.pair(p.id, y));
        } else {
            let l = choose|l: int| 0 <= l < s.projects.len() && s.projects[l] == q;
            assert(s.pair(s.projects[l].id, s.projects[l].collaborators[j]) is Some);
            assert(s2.pair(q.id, y) == s.pair(q.id, y));
        }
    }
    assert forall|i: int| 0 <= i < s2.projects.len() implies distinct_by(
        (#[trigger] s2.projects[i]).collaborators,
        idkey(),
    ) by {
        let q = s2.projects[i];
        assert(q == p2 || s.projects.contains(q));
        if q != p2 {
            let l = choose|l: int| 0 <= l < s.projects.len() && s.projects[l] == q;
            assert(distinct_by(s.projects[l].collaborators, idkey()));
        }
    }
    // Tracks and NFTs are untouched; the replaced project keeps its lists.
    assert forall|i: int| 0 <= i < s2.tracks.len() implies s2.track_linked(
        #[trigger] s2.tracks[i],
    ) by {
        let t = s.tracks[i];
        assert(s.track_linked(t));
        if t.project_id == p2.id {
            assert(s.project(t.project_id) == Some(p));
            assert(s2.project(t.project_id) == Some(p2));
        }
    }
    assert forall|i: int, j: int|
        #![trigger s2.projects[i].tracks[j]]
        0 <= i < s2.projects.len() && 0 <= j < s2.projects[i].tracks.len() implies s2
        .track_entry_ok(s2.projects[i], j) by {
        let q = s2.projects[i];
        assert(q == p2 || s.projects.contains(q));
        if q == p2 {
            assert(s.track_entry_ok(s.projects[l0], j));
        } else {
            let l = choose|l: int| 0 <= l < s.projects.len() && s.projects[l] == q;
            assert(s.track_entry_ok(s.projects[l], j));
        }
    }
    assert forall|i: int| 0 <= i < s2.projects.len() implies distinct_by(
        (#[trigger] s2.projects[i]).tracks,
        idkey(),
    ) by {
        let q = s2.projects[i];
        assert(q == p2 || s.projects.contains(q));
        if q == p2 {
            assert(distinct_by(s.projects[l0].tracks, idkey()));
        } else {
            let l = choose|l: int| 0 <= l < s.projects.len() && s.projects[l] == q;
            assert(distinct_by(s.projects[l].tracks, idkey()));
        }
    }
    assert forall|i: int| 0 <= i < s2.nfts.len() implies s2.nft_linked(#[trigger] s2.nfts[i]) by {
        let n = s.nfts[i];
        assert(s.nft_linked(n));
        if n.project_id == p2.id {
            assert(s.project(n.project_id) == Some(p));
            assert(s2.project(n.project_id) == Some(p2));
        }
    }
    assert forall|i: int, j: int|
        #![trigger s2.projects[i].nfts[j]]
        0 <= i < s2.projects.len() && 0 <= j < s2.projects[i].nfts.len() implies s2.nft_entry_ok(
        s2.projects[i],
        j,
    ) by {
        let q = s2.projects[i];
        assert(q == p2 || s.projects.contains(q));
        if q == p2 {
            assert(s.nft_entry_ok(s.projects[l0], j));
        } else {
            let l = choose|l: int| 0 <= l < s.projects.len() && s.projects[l] == q;
            assert(s.nft_entry_ok(s.projects[l], j));
        }
    }
    assert forall|i: int| 0 <= i < s2.projects.len() implies distinct_by(
        (#[trigger] s2.projects[i]).nfts,
        idkey(),
    ) by {
        let q = s2.projects[i];
        assert(q == p2 || s.projects.contains(q));
        if q == p2 {
            assert(distinct_by(s.projects[l0].nfts, idkey()));
        } else {
            let l = choose|l: int| 0 <= l < s.projects.len() && s.projects[l] == q;
            assert(distinct_by(s.projects[l].nfts, idkey()));
        }
    }
}

/// Removes the first occurrence of `x` from an identity list.
fn remove_identity(v: &mut Vec<Identity>, x: Identity)
    ensures
        final(v)@ == remove_by(old(v)@, idkey(), x),
{
    let n = v.len();
    let mut i: usize = 0;
    while i < n
        invariant
            i <= n,
            n == v@.len(),
            v@ == old(v)@,
            forall|j: int| 0 <= j < i ==> v@[j] != x,
        decreases n - i,
    {
        if v[i].token == x.token {
            proof {
                assert(v@[i as int] == x);
                lemma_remove_by_at(old(v)@, idkey(), x, i as int);
            }
            v.remove(i);
            return;
        }
        i = i + 1;
    }
    proof {
        lemma_find_by_none(old(v)@, idkey(), x);
        lemma_remove_by_absent(old(v)@, idkey(), x);
    }
}

/// Selects the collaborations of one project.
pub open spec fn collaboration_of(project_id: Seq<char>) -> spec_fn(CollaborationView) -> bool {
    |c: CollaborationView| c.project_id == project_id
}

impl Store {
    /// Adds a collaborator under a caller-supplied record id. Applies the
    /// identity gate first; only the project's owner may add collaborators
    /// (`Forbidden` otherwise); the contribution percentage must not
    /// exceed 100 (`InvalidArgument` otherwise); an identity already on
    /// the project's collaborator list, or a taken record id, reports
    /// `Conflict`; otherwise installs the record, appends the identity to
    /// the project's collaborator list and bumps the project's
    /// `updated_at`.
    pub fn add_collaborator_with_id(
        &mut self,
        caller: Identity,
        id: String,
        project_id: String,
        user_principal: Identity,
        contribution_percentage: u8,
        role: String,
        now: u64,
    ) -> (r: Result<Collaboration, StoreError>)
        ensures
            ({
                let (s1, res) = spec_add_collaborator(
                    old(self)@,
                    caller,
                    id@,
                    project_id@,
                    user_principal,
                    contribution_percentage,
                    role@,
                    now,
                );
                final(self)@ == s1 && result_view(r) == res
            }),
            old(self)@.inv() ==> final(self)@.inv(),
    {
        let ghost s0 = self@;
        let ghost id_v = id@;
        let ghost pid_v = project_id@;
        if let Err(e) = self.require_authenticated(caller) {
            return Err(e);
        }
        let mut project = match self.get_project_by_id(&project_id) {
            None => {
                return Err(StoreError::NotFound);
            },
            Some(p) => p,
        };
        let ghost p0v = project@;
        if project.owner != caller {
            return Err(StoreError::Forbidden);
        }
        if contribution_percentage > 100 {
            return Err(StoreError::InvalidArgument);
        }
        if contains_identity(&project.collaborators, user_principal) {
            return Err(StoreError::Conflict);
        }
        if self.get_collaboration_by_id(&id).is_some() {
            return Err(StoreError::Conflict);
        }
        let collaboration = Collaboration {
            id: id.clone(),
            project_id: project_id,
            user_principal: user_principal,
            contribution_percentage: contribution_percentage,
            role: role,
            joined_at: now,
        };
        let ghost cv = collaboration@;
        project.collaborators.push(user_principal);
        project.updated_at = now;
        let ghost p2v = project@;
        let result = collaboration.clone();
        self.save_collaboration(collaboration);
        self.save_project(project);
        proof {
            lemma_find_by_props(s0.projects, pkey(), pid_v);
            assert(p0v.id == pid_v);
            assert(cv == new_collaboration_view(
                id_v,
                pid_v,
                user_principal,
                contribution_percentage,
                role@,
                now,
            ));
            assert(p2v == (ProjectView {
                collaborators: p0v.collaborators.push(user_principal),
                updated_at: now,
                ..p0v
            }));
            if s0.inv() {
                lemma_add_collaborator_preserves_inv(s0, p0v, p2v, cv);
            }
        }
        Ok(result)
    }

    /// Adds a collaborator under a freshly generated record id. The id is
    /// random: on the rare draw of an id already in use the operation
    /// reports `Conflict` and leaves the store unchanged, and the caller
    /// may retry.
    pub fn add_collaborator(
        &mut self,
        caller: Identity,
        project_id: String,
        user_principal: Identity,
        contribution_percentage: u8,
        role: String,
        now: u64,
    ) -> (r: Result<Collaboration, StoreError>)
        ensures
            (match r {
                Ok(c) => old(self)@.collaboration(c@.id) is None && ({
                    let (s1, res) = spec_add_collaborator(
                        old(self)@,
                        caller,
                        c@.id,
                        project_id@,
                        user_principal,
                        contribution_percentage,
                        role@,
                        now,
                    );
                    final(self)@ == s1 && res == Ok::<CollaborationView, StoreError>(c@)
                }),
                Err(e) => final(self)@ == old(self)@ && (match old(self)@.gate(caller) {
                    Some(g) => e == g,
                    None => match old(self)@.project(project_id@) {
                        None => e == StoreError::NotFound,
                        Some(p) => if p.owner != caller {
                            e == StoreError::Forbidden
                        } else if contribution_percentage > 100 {
                            e == StoreError::InvalidArgument
                        } else {
                            e == StoreError::Conflict
                        },
                    },
                }),
            }),
            old(self)@.inv() ==> final(self)@.inv(),
    {
        let id = fresh_uuid();
        self.add_collaborator_with_id(
            caller,
            id,
            project_id,
            user_principal,
            contribution_percentage,
            role,
            now,
        )
    }

    /// All collaborations of the given project, in stable insertion order.
    pub fn get_project_collaborators(&self, project_id: String) -> (r: Vec<Collaboration>)
        ensures
            r.deep_view() == self@.collaborations.filter(collaboration_of(project_id@)),
    {
        let n = self.collaborations.len();
        let mut r: Vec<Collaboration> = Vec::new();
        let mut i: usize = 0;
        while i < n
            invariant
                i <= n,
                n == self.collaborations@.len(),
                r.deep_view() =~= self@.collaborations.take(i as int).filter(
                    collaboration_of(project_id@),
                ),
            decreases n - i,
        {
            proof {
                assert(self@.collaborations[i as int] == self.collaborations@[i as int]@);
            }
            if self.collaborations[i].project_id == project_id {
                r.push(self.collaborations[i].clone());
            }
            proof {
                reveal(Seq::filter);
                assert(self@.collaborations.take(i + 1).drop_last() =~= self@.collaborations.take(
                    i as int,
                ));
                assert(self@.collaborations.take(i + 1).last()
                    == self@.collaborations[i as int]);
                assert(r.deep_view() =~= self@.collaborations.take(i + 1).filter(
                    collaboration_of(project_id@),
                ));
            }
            i = i + 1;
        }
        proof {
            assert(self@.collaborations.take(n as int) =~= self@.collaborations);
        }
        r
    }

    /// Removes a collaborator: deletes the collaboration record — the only
    /// delete path in the whole model — and removes its identity from the
    /// project's collaborator list. Applies the identity gate first; only
    /// the owner may remove (`Forbidden` otherwise); a record that belongs
    /// to a different project reports `InvalidArgument` and nothing is
    /// changed.
    pub fn remove_collaborator(
        &mut self,
        caller: Identity,
        project_id: String,
        collaboration_id: String,
        now: u64,
    ) -> (r: Result<(), StoreError>)
        ensures
            ({
                let (s1, res) = spec_remove_collaborator(
                    old(self)@,
                    caller,
                    project_id@,
                    collaboration_id@,
                    now,
                );
                final(self)@ == s1 && r == res
            }),
            old(self)@.inv() ==> final(self)@.inv(),
    {
        let ghost s0 = self@;
        if let Err(e) = self.require_authenticated(caller) {
            return Err(e);
        }
        let mut project = match self.get_project_by_id(&project_id) {
            None => {
                return Err(StoreError::NotFound);
            },
            Some(p) => p,
        };
        let ghost p0v = project@;
        if project.owner != caller {
            return Err(StoreError::Forbidden);
        }
        let collaboration = match self.get_collaboration_by_id(&collaboration_id) {
            None => {
                return Err(StoreError::NotFound);
            },
            Some(c) => c,
        };
        let ghost cv = collaboration@;
        if !(collaboration.project_id == project_id) {
            return Err(StoreError::InvalidArgument);
        }
        remove_identity(&mut project.collaborators, collaboration.user_principal);
        project.updated_at = now;
        let ghost p2v = project@;
        self.remove_collaboration(&collaboration_id);
        self.save_project(project);
        proof {
            lemma_find_by_props(s0.projects, pkey(), project_id@);
            assert(p0v.id == project_id@);
            lemma_find_by_props(s0.collaborations, ckey(), collaboration_id@);
            assert(cv.id == collaboration_id@);
            assert(p2v == (ProjectView {
                collaborators: remove_by(p0v.collaborators, idkey(), cv.user_principal),
                updated_at: now,
                ..p0v
            }));
            if s0.inv() {
                lemma_remove_collaborator_preserves_inv(s0, p0v, p2v, cv);
            }
        }
        Ok(())
    }
}

} // verus!
