//! The in-memory achievement catalog and its toggle protocol.
//!
//! The store keeps the catalog in load order together with each entry's
//! derived state, and an id-to-position table for constant-time lookup. All
//! mutation goes through [`AchievementStore::toggle`] and
//! [`AchievementStore::apply_completed`], which enforce the exclusivity
//! invariant: completing an achievement forces each of its related peers to
//! be incomplete and disabled. Disabling is one-way: un-completing an
//! achievement never re-enables its peers.

use vstd::prelude::*;

use crate::achievement::{AchState, Achievement};
use crate::seqs::lemma_filter_push;
use std::collections::HashMap;
use vstd::pervasive::VecAdditionalExecFns;

verus! {

broadcast use vstd::std_specs::hash::group_hash_axioms;

/// Why a fetched catalog was rejected at load.
#[derive(Clone, Copy, PartialEq, Eq, Structural, Debug)]
pub enum CatalogError {
    /// Two entries carried the same id; ids are the catalog's identity and
    /// must be unique.
    DuplicateId,
}

/// The one remote call a toggle owes: mark the id complete, or unmark it.
#[derive(Clone, Copy, PartialEq, Eq, Structural, Debug)]
pub enum SyncAction {
    MarkComplete(i64),
    MarkIncomplete(i64),
}

/// Catalog ids are pairwise distinct.
pub open spec fn unique_ids(c: Seq<Achievement>) -> bool {
    forall|i: int, j: int| 0 <= i < j < c.len() ==> c[i].id != c[j].id
}

/// The ids themselves are pairwise distinct.
pub open spec fn distinct(s: Seq<i64>) -> bool {
    forall|i: int, j: int| 0 <= i < j < s.len() ==> s[i] != s[j]
}

/// The catalog plus per-entry derived state, in load order, with an index
/// from id to position.
pub struct AchievementStore {
    pub ids: Vec<i64>,
    pub names: Vec<String>,
    pub related: Vec<Vec<i64>>,
    pub state: Vec<AchState>,
    pub index: HashMap<i64, usize>,
}

impl AchievementStore {
    /// Number of catalog entries.
    pub open spec fn n(self) -> int {
        self.ids@.len() as int
    }

    /// The id at `k` is in the catalog.
    pub open spec fn has_id(self, id: i64) -> bool {
        self.index@.contains_key(id)
    }

    /// Position of `id` in load order.
    pub open spec fn idx_of(self, id: i64) -> int {
        self.index@[id] as int
    }

    /// Well-formedness: the parallel columns agree in length, ids are unique,
    /// the index is exactly the inverse of the id column, and no entry lists
    /// itself as related.
    pub open spec fn wf(self) -> bool {
        &&& self.names@.len() == self.n()
        &&& self.related@.len() == self.n()
        &&& self.state@.len() == self.n()
        &&& distinct(self.ids@)
        &&& forall|i: int|
            0 <= i < self.n() ==> #[trigger] self.index@.contains_key(self.ids@[i])
                && self.index@[self.ids@[i]] == i
        &&& forall|k: i64| #[trigger]
            self.index@.contains_key(k) ==> 0 <= self.index@[k] < self.n()
                && self.ids@[self.index@[k] as int] == k
        &&& forall|i: int|
            0 <= i < self.n() ==> !(#[trigger] self.related@[i]@.contains(self.ids@[i]))
    }

    /// The catalog columns (everything but the mutable state) of two stores
    /// agree.
    pub open spec fn same_catalog(self, other: Self) -> bool {
        &&& other.ids@ == self.ids@
        &&& other.names@ == self.names@
        &&& other.related@ == self.related@
        &&& other.index@ == self.index@
        &&& other.state@.len() == self.state@.len()
    }

    /// Builds the store from a fetched catalog. Rejects a catalog with a
    /// repeated id. A `related` entry that names the achievement itself is
    /// malformed (an achievement cannot exclude itself) and is dropped;
    /// related ids that are absent from the catalog are kept and simply find
    /// nothing to disable later.
    #[verifier::loop_isolation(false)]
    pub fn from_catalog(mut catalog: Vec<Achievement>) -> (r: Result<AchievementStore, CatalogError>)
        ensures
            match r {
                Ok(s) => {
                    &&& unique_ids(catalog@)
                    &&& s.wf()
                    &&& s.n() == catalog@.len()
                    &&& forall|i: int|
                        0 <= i < catalog@.len() ==> #[trigger] s.ids@[i] == catalog@[i].id
                            && s.names@[i] == catalog@[i].name && s.state@[i] == (AchState {
                            completed: false,
                            disabled: false,
                        })
                    &&& forall|i: int|
                        0 <= i < catalog@.len() ==> #[trigger] s.related@[i]@ == catalog@[i].related@.filter(
                            keeps_peer(catalog@[i].id),
                        )
                },
                Err(e) => !unique_ids(catalog@) && e == CatalogError::DuplicateId,
            },
    {
        let ghost orig = catalog@;
        let mut ids: Vec<i64> = Vec::new();
        let mut names: Vec<String> = Vec::new();
        let mut related: Vec<Vec<i64>> = Vec::new();
        let mut state: Vec<AchState> = Vec::new();
        let mut index: HashMap<i64, usize> = HashMap::new();
        while catalog.len() != 0
            invariant
                catalog@ == orig.skip(ids@.len() as int),
                ids@.len() <= orig.len(),
                names@.len() == ids@.len(),
                related@.len() == ids@.len(),
                state@.len() == ids@.len(),
                forall|i: int|
                    0 <= i < ids@.len() ==> #[trigger] ids@[i] == orig[i].id && names@[i]
                        == orig[i].name && state@[i] == (AchState {
                        completed: false,
                        disabled: false,
                    }),
                forall|i: int|
                    0 <= i < ids@.len() ==> #[trigger] related@[i]@ == orig[i].related@.filter(
                        keeps_peer(orig[i].id),
                    ),
                forall|i: int|
                    0 <= i < ids@.len() ==> #[trigger] index@.contains_key(ids@[i])
                        && index@[ids@[i]] == i,
                forall|k: i64| #[trigger]
                    index@.contains_key(k) ==> 0 <= index@[k] < ids@.len()
                        && ids@[index@[k] as int] == k,
                forall|i: int|
                    0 <= i < ids@.len() ==> !(#[trigger] related@[i]@.contains(ids@[i])),
            decreases catalog@.len(),
        {
            let entry = catalog.remove(0);
            let k = ids.len();
            proof {
                assert(orig.skip(k as int)[0] == orig[k as int]);
                assert(entry == orig[k as int]);
                assert(orig.skip(k as int).remove(0) =~= orig.skip(k as int + 1));
            }
            if index.contains_key(&entry.id) {
                proof {
                    let j = index@[entry.id] as int;
                    assert(ids@[j] == entry.id);
                    assert(orig[j].id == entry.id);
                    assert(0 <= j && j < k as int && (k as int) < orig.len());
                    assert(orig[j].id == orig[k as int].id);
                    assert(!unique_ids(orig));
                }
                return Err(CatalogError::DuplicateId);
            }
            let mut peers: Vec<i64> = Vec::new();
            let mut t: usize = 0;
            proof {
                assert(entry.related@.take(0) =~= Seq::<i64>::empty());
                assert(Seq::<i64>::empty().filter(keeps_peer(entry.id)) =~= Seq::<i64>::empty())
                    by {
                    reveal(Seq::filter);
                }
            }
            while t < entry.related.len()
                invariant
                    t <= entry.related@.len(),
                    peers@ == entry.related@.take(t as int).filter(keeps_peer(entry.id)),
                decreases entry.related@.len() - t,
            {
                let rid = entry.related[t];
                proof {
                    assert(entry.related@.take(t as int + 1) =~= entry.related@.take(
                        t as int,
                    ).push(rid));
                    lemma_filter_push(
                        entry.related@.take(t as int),
                        keeps_peer(entry.id),
                        rid,
                    );
                }
                if rid != entry.id {
                    peers.push(rid);
                }
                t += 1;
            }
            proof {
                assert(entry.related@.take(entry.related@.len() as int) =~= entry.related@);
                broadcast use vstd::seq_lib::group_filter_ensures;

                assert(!peers@.contains(entry.id)) by {
                    if peers@.contains(entry.id) {
                        let w = choose|w: int| 0 <= w < peers@.len() && peers@[w] == entry.id;
                        entry.related@.lemma_filter_pred(keeps_peer(entry.id), w);
                    }
                }
            }
            ids.push(entry.id);
            names.push(entry.name);
            related.push(peers);
            state.push(AchState { completed: false, disabled: false });
            index.insert(entry.id, k);
        }
        proof {
            assert(orig.skip(ids@.len() as int).len() == 0);
            assert(ids@.len() == orig.len());
            assert forall|i: int, j: int| 0 <= i < j < ids@.len() implies ids@[i] != ids@[j] by {
                assert(index@.contains_key(ids@[i]) && index@[ids@[i]] == i);
                assert(index@.contains_key(ids@[j]) && index@[ids@[j]] == j);
            }
            assert forall|i: int, j: int| 0 <= i < j < orig.len() implies orig[i].id
                != orig[j].id by {
                assert(ids@[i] == orig[i].id && ids@[j] == orig[j].id);
            }
        }
        let s = AchievementStore { ids, names, related, state, index };
        Ok(s)
    }

    /// Number of catalog entries.
    pub fn len(&self) -> (n: usize)
        ensures
            n == self.n(),
    {
        self.ids.len()
    }

    /// The id at position `i` in load order.
    pub fn id_at(&self, i: usize) -> (id: i64)
        requires
            self.wf(),
            i < self.n(),
        ensures
            id == self.ids@[i as int],
    {
        self.ids[i]
    }

    /// The display name at position `i`.
    pub fn name_at(&self, i: usize) -> (name: &String)
        requires
            self.wf(),
            i < self.n(),
        ensures
            name == self.names@[i as int],
    {
        &self.names[i]
    }

    /// The derived state at position `i`.
    pub fn state_at(&self, i: usize) -> (st: AchState)
        requires
            self.wf(),
            i < self.n(),
        ensures
            st == self.state@[i as int],
    {
        self.state[i]
    }

    /// Position of `id` in load order, if it is in the catalog.
    pub fn lookup(&self, id: i64) -> (r: Option<usize>)
        requires
            self.wf(),
        ensures
            match r {
                Some(i) => self.has_id(id) && i == self.idx_of(id) && i < self.n()
                    && self.ids@[i as int] == id,
                None => !self.has_id(id),
            },
    {
        match self.index.get(&id) {
            Some(i) => Some(*i),
            None => None,
        }
    }

    /// Flips completion of the achievement at `id` and re-enables it; when
    /// the flip completes the achievement, every related peer present in the
    /// catalog is forced incomplete and disabled. Un-completing never
    /// re-enables peers. Returns the remote call the caller owes: a mark when
    /// the entry is now complete, an unmark otherwise.
    pub fn toggle(&mut self, id: i64) -> (act: SyncAction)
        requires
            old(self).wf(),
            old(self).has_id(id),
        ensures
            final(self).wf(),
            toggled(*old(self), *final(self), id, act),
    {
        let idx = *self.index.get(&id).unwrap();
        let now = !self.state[idx].completed;
        self.state.set(idx, AchState { completed: now, disabled: false });
        if now {
            let mut t: usize = 0;
            proof {
                assert(old(self).related@[idx as int]@.take(0) =~= Seq::<i64>::empty());
            }
            while t < self.related[idx].len()
                invariant
                    old(self).wf(),
                    old(self).has_id(id),
                    idx == old(self).idx_of(id),
                    0 <= idx < old(self).n(),
                    t <= old(self).related@[idx as int]@.len(),
                    old(self).same_catalog(*self),
                    now == !old(self).state@[idx as int].completed,
                    self.state@[idx as int] == (AchState { completed: now, disabled: false }),
                    forall|m: int|
                        0 <= m < old(self).n() && m != idx ==> #[trigger] self.state@[m] == (
                        if old(self).related@[idx as int]@.take(t as int).contains(
                            old(self).ids@[m],
                        ) {
                            (AchState { completed: false, disabled: true })
                        } else {
                            old(self).state@[m]
                        }),
                decreases old(self).related@[idx as int]@.len() - t,
            {
                let rid = self.related[idx][t];
                let ghost rel = old(self).related@[idx as int]@;
                proof {
                    assert(rel.take(t as int + 1) =~= rel.take(t as int).push(rid));
                    assert(rid != id) by {
                        assert(rel.contains(rel[t as int]));
                    }
                }
                match self.index.get(&rid) {
                    Some(j) => {
                        let j = *j;
                        proof {
                            assert(old(self).ids@[j as int] == rid);
                            assert(j != idx);
                        }
                        self.state.set(j, AchState { completed: false, disabled: true });
                        proof {
                            assert forall|m: int| 0 <= m < old(self).n() && m != idx implies
                            #[trigger] self.state@[m] == (if rel.take(t as int + 1).contains(
                                old(self).ids@[m],
                            ) {
                                (AchState { completed: false, disabled: true })
                            } else {
                                old(self).state@[m]
                            }) by {
                                let y = old(self).ids@[m];
                                if m == j as int {
                                    assert(rel.take(t as int + 1)[t as int] == y);
                                    assert(rel.take(t as int + 1).contains(y));
                                } else {
                                    assert(y != rid);
                                    if rel.take(t as int + 1).contains(y) {
                                        let w = choose|w: int|
                                            0 <= w < rel.take(t as int + 1).len() && #[trigger] rel.take(
                                                t as int + 1,
                                            )[w] == y;
                                        assert(w != t as int);
                                        assert(rel.take(t as int)[w] == y);
                                        assert(rel.take(t as int).contains(y));
                                    }
                                    if rel.take(t as int).contains(y) {
                                        let w = choose|w: int|
                                            0 <= w < rel.take(t as int).len() && #[trigger] rel.take(
                                                t as int,
                                            )[w] == y;
                                        assert(rel.take(t as int + 1)[w] == y);
                                        assert(rel.take(t as int + 1).contains(y));
                                    }
                                }
                            }
                        }
                    },
                    None => {
                        proof {
                            assert forall|m: int| 0 <= m < old(self).n() && m != idx implies
                            #[trigger] self.state@[m] == (if rel.take(t as int + 1).contains(
                                old(self).ids@[m],
                            ) {
                                (AchState { completed: false, disabled: true })
                            } else {
                                old(self).state@[m]
                            }) by {
                                let y = old(self).ids@[m];
                                assert(old(self).index@.contains_key(y));
                                assert(y != rid);
                                if rel.take(t as int + 1).contains(y) {
                                    let w = choose|w: int|
                                        0 <= w < rel.take(t as int + 1).len() && #[trigger] rel.take(
                                            t as int + 1,
                                        )[w] == y;
                                    assert(w != t as int);
                                    assert(rel.take(t as int)[w] == y);
                                    assert(rel.take(t as int).contains(y));
                                }
                                if rel.take(t as int).contains(y) {
                                    let w = choose|w: int|
                                        0 <= w < rel.take(t as int).len() && #[trigger] rel.take(t as int)[w]
                                            == y;
                                    assert(rel.take(t as int + 1)[w] == y);
                                    assert(rel.take(t as int + 1).contains(y));
                                }
                            }
                        }
                    },
                }
                t += 1;
            }
            proof {
                let rel = old(self).related@[idx as int]@;
                assert(rel.take(rel.len() as int) =~= rel);
            }
            SyncAction::MarkComplete(id)
        } else {
            SyncAction::MarkIncomplete(id)
        }
    }

    /// Marks `id` completed, without flipping, and disables each of its
    /// related peers present in the catalog. An `id` absent from the catalog
    /// is ignored. Used when reconciling the remote completed set after a
    /// login; unlike a toggle it never clears a peer's completion.
    #[verifier::loop_isolation(false)]
    pub fn mark_completed(&mut self, id: i64)
        requires
            old(self).wf(),
        ensures
            final(self).wf(),
            old(self).same_catalog(*final(self)),
            forall|m: int|
                0 <= m < old(self).n() ==> (#[trigger] final(self).state@[m]).completed == (old(
                    self,
                ).state@[m].completed || (old(self).has_id(id) && m == old(self).idx_of(id))),
            forall|m: int|
                0 <= m < old(self).n() ==> (#[trigger] final(self).state@[m]).disabled == (old(
                    self,
                ).state@[m].disabled || (old(self).has_id(id) && old(self).related@[old(
                    self,
                ).idx_of(id)]@.contains(old(self).ids@[m]))),
    {
        let idx = match self.index.get(&id) {
            Some(i) => *i,
            None => {
                return ;
            },
        };
        let ghost rel = old(self).related@[idx as int]@;
        let st = self.state[idx];
        self.state.set(idx, AchState { completed: true, disabled: st.disabled });
        let mut t: usize = 0;
        while t < self.related[idx].len()
            invariant
                self.wf(),
                old(self).same_catalog(*self),
                t <= rel.len(),
                forall|m: int|
                    0 <= m < old(self).n() ==> (#[trigger] self.state@[m]).completed == (old(
                        self,
                    ).state@[m].completed || m == idx as int),
                forall|m: int|
                    0 <= m < old(self).n() ==> (#[trigger] self.state@[m]).disabled == (old(
                        self,
                    ).state@[m].disabled || appears_before(rel, t as int, old(self).ids@[m])),
            decreases rel.len() - t,
        {
            let rid = self.related[idx][t];
            match self.index.get(&rid) {
                Some(j) => {
                    let j = *j;
                    let st_j = self.state[j];
                    self.state.set(j, AchState { completed: st_j.completed, disabled: true });
                    proof {
                        assert forall|m: int| 0 <= m < old(self).n() implies (
                        #[trigger] self.state@[m]).disabled == (old(self).state@[m].disabled
                            || appears_before(rel, t as int + 1, old(self).ids@[m])) by {
                            let y = old(self).ids@[m];
                            if m == j as int {
                                assert(rel[t as int] == y);
                                assert(appears_before(rel, t as int + 1, y));
                            } else {
                                assert(y != rid);
                                if appears_before(rel, t as int + 1, y) {
                                    let k = choose|k: int|
                                        0 <= k < t as int + 1 && #[trigger] rel[k] == y;
                                    assert(k < t as int);
                                    assert(appears_before(rel, t as int, y));
                                }
                                if appears_before(rel, t as int, y) {
                                    let k = choose|k: int| 0 <= k < t as int && #[trigger] rel[k]
                                        == y;
                                    assert(appears_before(rel, t as int + 1, y));
                                }
                            }
                        }
                    }
                },
                None => {
                    proof {
                        assert forall|m: int| 0 <= m < old(self).n() implies (
                        #[trigger] self.state@[m]).disabled == (old(self).state@[m].disabled
                            || appears_before(rel, t as int + 1, old(self).ids@[m])) by {
                            let y = old(self).ids@[m];
                            assert(old(self).index@.contains_key(y));
                            assert(y != rid);
                            if appears_before(rel, t as int + 1, y) {
                                let k = choose|k: int|
                                    0 <= k < t as int + 1 && #[trigger] rel[k] == y;
                                assert(k < t as int);
                                assert(appears_before(rel, t as int, y));
                            }
                            if appears_before(rel, t as int, y) {
                                let k = choose|k: int| 0 <= k < t as int && #[trigger] rel[k] == y;
                                assert(appears_before(rel, t as int + 1, y));
                            }
                        }
                    }
                },
            }
            t += 1;
        }
        proof {
            assert forall|m: int| 0 <= m < old(self).n() implies appears_before(
                rel,
                rel.len() as int,
                old(self).ids@[m],
            ) == rel.contains(old(self).ids@[m]) by {
                let y = old(self).ids@[m];
                if appears_before(rel, rel.len() as int, y) {
                    let k = choose|k: int| 0 <= k < rel.len() as int && #[trigger] rel[k] == y;
                    assert(rel[k] == y);
                }
                if rel.contains(y) {
                    let k = choose|k: int| 0 <= k < rel.len() && rel[k] == y;
                    assert(rel[k] == y);
                    assert(appears_before(rel, rel.len() as int, y));
                }
            }
        }
    }

    /// Applies the remote account's completed set after a login: every listed
    /// id present in the catalog is marked completed, and each of their
    /// related peers present in the catalog is disabled. Ids the catalog does
    /// not know are ignored. Nothing is ever un-completed or re-enabled here.
    #[verifier::loop_isolation(false)]
    pub fn apply_completed(&mut self, completed: &Vec<i64>)
        requires
            old(self).wf(),
        ensures
            final(self).wf(),
            old(self).same_catalog(*final(self)),
            forall|m: int|
                0 <= m < old(self).n() ==> (#[trigger] final(self).state@[m]).completed == (old(
                    self,
                ).state@[m].completed || completed@.contains(old(self).ids@[m])),
            forall|m: int|
                0 <= m < old(self).n() ==> (#[trigger] final(self).state@[m]).disabled == (old(
                    self,
                ).state@[m].disabled || disabled_by(*old(self), completed@, old(self).ids@[m])),
    {
        let mut u: usize = 0;
        while u < completed.len()
            invariant
                self.wf(),
                old(self).same_catalog(*self),
                u <= completed@.len(),
                forall|m: int|
                    0 <= m < old(self).n() ==> (#[trigger] self.state@[m]).completed == (old(
                        self,
                    ).state@[m].completed || appears_before(completed@, u as int, old(self).ids@[m])),
                forall|m: int|
                    0 <= m < old(self).n() ==> (#[trigger] self.state@[m]).disabled == (old(
                        self,
                    ).state@[m].disabled || disabled_by_prefix(
                        *old(self),
                        completed@,
                        u as int,
                        old(self).ids@[m],
                    )),
            decreases completed@.len() - u,
        {
            let c = completed[u];
            let ghost mid = *self;
            self.mark_completed(c);
            proof {
                assert forall|m: int| 0 <= m < old(self).n() implies (
                #[trigger] self.state@[m]).completed == (old(self).state@[m].completed
                    || appears_before(completed@, u as int + 1, old(self).ids@[m])) by {
                    let y = old(self).ids@[m];
                    if y == c {
                        assert(old(self).index@.contains_key(y));
                        assert(old(self).idx_of(y) == m);
                        assert(completed@[u as int] == y);
                        assert(appears_before(completed@, u as int + 1, y));
                    } else {
                        assert(!(mid.has_id(c) && m == mid.idx_of(c))) by {
                            if mid.has_id(c) && m == mid.idx_of(c) {
                                assert(old(self).ids@[old(self).idx_of(c) as int] == c);
                            }
                        }
                        if appears_before(completed@, u as int + 1, y) {
                            let k = choose|k: int|
                                0 <= k < u as int + 1 && #[trigger] completed@[k] == y;
                            assert(k < u as int);
                            assert(appears_before(completed@, u as int, y));
                        }
                        if appears_before(completed@, u as int, y) {
                            let k = choose|k: int|
                                0 <= k < u as int && #[trigger] completed@[k] == y;
                            assert(appears_before(completed@, u as int + 1, y));
                        }
                    }
                }
                assert forall|m: int| 0 <= m < old(self).n() implies (
                #[trigger] self.state@[m]).disabled == (old(self).state@[m].disabled
                    || disabled_by_prefix(
                    *old(self),
                    completed@,
                    u as int + 1,
                    old(self).ids@[m],
                )) by {
                    let y = old(self).ids@[m];
                    let step = mid.has_id(c) && mid.related@[mid.idx_of(c)]@.contains(y);
                    if step {
                        assert(completed@[u as int] == c);
                        assert(disabled_by_prefix(*old(self), completed@, u as int + 1, y));
                    }
                    if disabled_by_prefix(*old(self), completed@, u as int + 1, y) && !step
                        && !disabled_by_prefix(*old(self), completed@, u as int, y) {
                        let k = choose|k: int|
                            0 <= k < u as int + 1 && old(self).has_id(#[trigger] completed@[k])
                                && old(self).related@[old(self).idx_of(completed@[k])]@.contains(y);
                        assert(k == u as int);
                        assert(completed@[k] == c);
                        assert(false);
                    }
                    if disabled_by_prefix(*old(self), completed@, u as int, y) {
                        let k = choose|k: int|
                            0 <= k < u as int && old(self).has_id(#[trigger] completed@[k]) && old(
                                self,
                            ).related@[old(self).idx_of(completed@[k])]@.contains(y);
                        assert(disabled_by_prefix(*old(self), completed@, u as int + 1, y));
                    }
                }
            }
            u += 1;
        }
        proof {
            assert forall|m: int| 0 <= m < old(self).n() implies appears_before(
                completed@,
                completed@.len() as int,
                old(self).ids@[m],
            ) == completed@.contains(old(self).ids@[m]) by {
                let y = old(self).ids@[m];
                if appears_before(completed@, completed@.len() as int, y) {
                    let k = choose|k: int|
                        0 <= k < completed@.len() as int && #[trigger] completed@[k] == y;
                    assert(completed@[k] == y);
                }
                if completed@.contains(y) {
                    let k = choose|k: int| 0 <= k < completed@.len() && completed@[k] == y;
                    assert(completed@[k] == y);
                    assert(appears_before(completed@, completed@.len() as int, y));
                }
            }
        }
    }
}

/// `y` occurs among the first `u` elements of `s`.
pub open spec fn appears_before(s: Seq<i64>, u: int, y: i64) -> bool {
    exists|k: int| 0 <= k < u && #[trigger] s[k] == y
}

/// Some id among the first `u` of `marked` is in the catalog and lists `id`
/// as related.
pub open spec fn disabled_by_prefix(
    pre: AchievementStore,
    marked: Seq<i64>,
    u: int,
    id: i64,
) -> bool {
    exists|k: int|
        0 <= k < u && pre.has_id(#[trigger] marked[k]) && pre.related@[pre.idx_of(
            marked[k],
        )]@.contains(id)
}

/// Some id of `marked` is in the catalog and lists `id` as related, so
/// applying `marked` as a completed set disables `id`.
pub open spec fn disabled_by(pre: AchievementStore, marked: Seq<i64>, id: i64) -> bool {
    disabled_by_prefix(pre, marked, marked.len() as int, id)
}

/// Keeps a related id only when it names a different achievement than `id`
/// itself.
pub open spec fn keeps_peer(id: i64) -> spec_fn(i64) -> bool {
    |r: i64| r != id
}

/// Which remote call a toggle of `id` against `pre` issues: a mark when the
/// toggle completes the entry, an unmark when it un-completes it.
pub open spec fn toggle_action(pre: AchievementStore, id: i64) -> SyncAction {
    if !pre.state@[pre.idx_of(id)].completed {
        SyncAction::MarkComplete(id)
    } else {
        SyncAction::MarkIncomplete(id)
    }
}

/// The full effect of `toggle(id)`: `post` is `pre` with completion flipped
/// and the entry re-enabled; when the flip completes the entry, each related
/// peer present in the catalog is incomplete and disabled; every other entry
/// is untouched; and `act` is the remote call owed.
pub open spec fn toggled(
    pre: AchievementStore,
    post: AchievementStore,
    id: i64,
    act: SyncAction,
) -> bool {
    let i = pre.idx_of(id);
    let now = !pre.state@[i].completed;
    &&& pre.same_catalog(post)
    &&& post.state@[i] == AchState { completed: now, disabled: false }
    &&& forall|m: int|
        0 <= m < pre.state@.len() && m != i ==> #[trigger] post.state@[m] == (if now
            && pre.related@[i]@.contains(pre.ids@[m]) {
            AchState { completed: false, disabled: true }
        } else {
            pre.state@[m]
        })
    &&& act == toggle_action(pre, id)
}

/// Exclusivity law: when a toggle completes an achievement, every id in its
/// `related` set that the catalog contains ends up not completed and
/// disabled.
pub proof fn lemma_toggle_excludes_related(
    pre: AchievementStore,
    post: AchievementStore,
    id: i64,
    act: SyncAction,
    rid: i64,
)
    requires
        pre.wf(),
        pre.has_id(id),
        !pre.state@[pre.idx_of(id)].completed,
        toggled(pre, post, id, act),
        pre.related@[pre.idx_of(id)]@.contains(rid),
        pre.has_id(rid),
    ensures
        !post.state@[post.idx_of(rid)].completed,
        post.state@[post.idx_of(rid)].disabled,
{
    let i = pre.idx_of(id);
    let m = pre.idx_of(rid);
    assert(pre.ids@[i] == id);
    assert(pre.ids@[m] == rid);
    assert(rid != id) by {
        if rid == id {
            assert(pre.related@[i]@.contains(pre.ids@[i]));
        }
    }
    assert(m != i);
    assert(post.index@ == pre.index@);
    assert(post.state@[m] == (AchState { completed: false, disabled: true }));
}

/// Round-trip law: toggling the same id twice returns that entry to its
/// original state. It holds for an entry that was not disabled beforehand;
/// a toggle always re-enables its target, so an initially set `disabled`
/// flag would not come back. Cascade effects on other ids are one-way and
/// deliberately not reverted.
pub proof fn lemma_toggle_round_trip(
    s0: AchievementStore,
    s1: AchievementStore,
    s2: AchievementStore,
    id: i64,
    a1: SyncAction,
    a2: SyncAction,
)
    requires
        s0.wf(),
        s0.has_id(id),
        !s0.state@[s0.idx_of(id)].disabled,
        toggled(s0, s1, id, a1),
        toggled(s1, s2, id, a2),
    ensures
        s2.state@[s2.idx_of(id)] == s0.state@[s0.idx_of(id)],
{
    let i = s0.idx_of(id);
    assert(s1.index@ == s0.index@);
    assert(s2.index@ == s1.index@);
    assert(s1.state@[i] == (AchState {
        completed: !s0.state@[i].completed,
        disabled: false,
    }));
    assert(s2.state@[i] == (AchState { completed: s0.state@[i].completed, disabled: false }));
}

} // verus!
