//! The type descriptor store: an append-only mapping from [`TypeId`] to
//! [`TypeDefinition`], accumulated while procedures are declared.
//!
//! Its one algorithmic contract is merge-by-identity: inserting an identifier
//! already present with an identical definition is a no-op, while inserting the
//! same identifier with a differing definition is an internal-consistency fault
//! that fails fast instead of silently overwriting.

use crate::types::{def_eq, DefV, TypeDefinition, TypeId};
use vstd::prelude::*;

verus! {

/// One stored binding of an identifier to a definition.
pub struct StoreEntry {
    pub id: TypeId,
    pub def: TypeDefinition,
}

/// Mathematical view of one store entry.
#[verifier::ext_equal]
pub struct StoreEntryV {
    pub id: TypeId,
    pub def: DefV,
}

/// The internal-consistency fault of the store: one identifier bound to two
/// differing definitions. This indicates a defect in whoever assigns the
/// identifiers, not a request-level error.
#[derive(Debug)]
pub enum StoreError {
    TypeIdentityMismatch { id: TypeId },
}

/// Is `id` bound by some entry of `s`?
pub open spec fn store_contains(s: Seq<StoreEntryV>, id: TypeId) -> bool {
    exists|i: int| 0 <= i < s.len() && s[i].id == id
}

/// The index of the entry binding `id`; meaningful only when the store
/// contains `id` and identifiers are unique.
pub open spec fn store_idx(s: Seq<StoreEntryV>, id: TypeId) -> int {
    choose|i: int| 0 <= i < s.len() && s[i].id == id
}

/// The definition bound to `id`.
pub open spec fn store_get(s: Seq<StoreEntryV>, id: TypeId) -> DefV
    recommends
        store_contains(s, id),
{
    s[store_idx(s, id)].def
}

/// Every identifier is bound by at most one entry.
pub open spec fn store_uniq(s: Seq<StoreEntryV>) -> bool {
    forall|i: int, j: int| 0 <= i < j < s.len() ==> s[i].id != s[j].id
}

/// With unique identifiers, the entry at any index is the one `store_get` yields.
pub proof fn lemma_store_get_at(s: Seq<StoreEntryV>, i: int)
    requires
        store_uniq(s),
        0 <= i < s.len(),
    ensures
        store_contains(s, s[i].id),
        store_get(s, s[i].id) == s[i].def,
        store_idx(s, s[i].id) == i,
{
    assert(store_contains(s, s[i].id));
    let j = store_idx(s, s[i].id);
    assert(0 <= j < s.len() && s[j].id == s[i].id);
    if i != j {
        assert(false);
    }
}

/// Appending a fresh identifier keeps every present binding and adds the new one.
pub proof fn lemma_store_push(s: Seq<StoreEntryV>, e: StoreEntryV)
    requires
        store_uniq(s),
        !store_contains(s, e.id),
    ensures
        store_uniq(s.push(e)),
        store_contains(s.push(e), e.id),
        store_get(s.push(e), e.id) == e.def,
        forall|id: TypeId|
            id != e.id ==> (store_contains(s.push(e), id) <==> store_contains(s, id)),
        forall|id: TypeId|
            id != e.id && store_contains(s, id) ==> store_get(s.push(e), id) == store_get(s, id),
{
    let t = s.push(e);
    assert forall|i: int, j: int| 0 <= i < j < t.len() implies t[i].id != t[j].id by {
        if j == s.len() {
            assert(t[i] == s[i]);
            if t[i].id == e.id {
                assert(store_contains(s, e.id));
            }
        }
    }
    assert(t[s.len() as int] == e);
    lemma_store_get_at(t, s.len() as int);
    assert forall|id: TypeId| id != e.id implies (store_contains(t, id) <==> store_contains(
        s,
        id,
    )) by {
        if store_contains(t, id) {
            let j = store_idx(t, id);
            assert(0 <= j < t.len() && t[j].id == id);
            assert(j != s.len());
            assert(t[j] == s[j]);
        }
        if store_contains(s, id) {
            let j = store_idx(s, id);
            assert(t[j] == s[j]);
        }
    }
    assert forall|id: TypeId| id != e.id && store_contains(s, id) implies store_get(t, id)
        == store_get(s, id) by {
        let j = store_idx(s, id);
        assert(0 <= j < s.len() && s[j].id == id);
        lemma_store_get_at(s, j);
        assert(t[j] == s[j]);
        lemma_store_get_at(t, j);
    }
}

/// Does the suffix of `s` from position `m` on bind `id`?
pub open spec fn suffix_binds(s: Seq<StoreEntryV>, m: int, id: TypeId) -> bool {
    exists|k: int| m <= k < s.len() && #[trigger] s[k].id == id
}

/// `post` is the merge of `pre` and `oth`: it binds exactly the identifiers
/// one of them binds, keeps every binding of `pre`, and takes from `oth` what
/// `pre` does not bind.
pub open spec fn merged_contents(
    pre: Seq<StoreEntryV>,
    oth: Seq<StoreEntryV>,
    post: Seq<StoreEntryV>,
) -> bool {
    &&& forall|id: TypeId|
        store_contains(post, id) <==> (store_contains(pre, id) || store_contains(oth, id))
    &&& forall|id: TypeId|
        store_contains(pre, id) ==> store_get(post, id) == store_get(pre, id)
    &&& forall|id: TypeId|
        !store_contains(pre, id) && store_contains(oth, id) ==> store_get(post, id) == store_get(
            oth,
            id,
        )
}

/// The append-only mapping from type identifier to type definition.
pub struct TypeDescriptorStore {
    pub entries: Vec<StoreEntry>,
}

impl TypeDescriptorStore {
    /// The store's contents, as a sequence of bindings with unique identifiers.
    pub open spec fn contents(self) -> Seq<StoreEntryV> {
        self.entries@.map_values(|e: StoreEntry| StoreEntryV { id: e.id, def: e.def@ })
    }

    /// Well-formedness: every identifier is bound at most once.
    pub open spec fn wf(self) -> bool {
        store_uniq(self.contents())
    }

    /// An empty store.
    pub fn new() -> (r: TypeDescriptorStore)
        ensures
            r.wf(),
            r.contents() == Seq::<StoreEntryV>::empty(),
    {
        let r = TypeDescriptorStore { entries: Vec::new() };
        proof {
            assert(r.contents() =~= Seq::<StoreEntryV>::empty());
        }
        r
    }

    /// The definition bound to `id`, if any.
    pub fn lookup(&self, id: TypeId) -> (r: Option<&TypeDefinition>)
        requires
            self.wf(),
        ensures
            match r {
                Some(d) => store_contains(self.contents(), id) && d@ == store_get(
                    self.contents(),
                    id,
                ),
                None => !store_contains(self.contents(), id),
            },
    {
        let n = self.entries.len();
        let mut i: usize = 0;
        while i < n
            invariant
                0 <= i <= n,
                n == self.entries@.len(),
                self.wf(),
                forall|j: int| 0 <= j < i ==> self.contents()[j].id != id,
            decreases n - i,
        {
            if self.entries[i].id == id {
                proof {
                    lemma_store_get_at(self.contents(), i as int);
                }
                return Some(&self.entries[i].def);
            }
            i = i + 1;
        }
        None
    }

    /// Could `def` be inserted under `id` without an identity fault?
    pub fn compatible(&self, id: TypeId, def: &TypeDefinition) -> (r: bool)
        requires
            self.wf(),
        ensures
            r == (!store_contains(self.contents(), id) || store_get(self.contents(), id) == def@),
    {
        match self.lookup(id) {
            None => true,
            Some(d) => def_eq(d, def),
        }
    }

    /// Inserts `def` under `id`. Re-inserting an identical definition is a
    /// no-op; a differing definition under a present identifier fails fast and
    /// leaves the store unchanged.
    pub fn insert(&mut self, id: TypeId, def: TypeDefinition) -> (r: Result<(), StoreError>)
        requires
            old(self).wf(),
        ensures
            final(self).wf(),
            r is Ok <==> (!store_contains(old(self).contents(), id) || store_get(
                old(self).contents(),
                id,
            ) == def@),
            match r {
                Ok(_) => if store_contains(old(self).contents(), id) {
                    final(self).contents() == old(self).contents()
                } else {
                    final(self).contents() == old(self).contents().push(
                        (StoreEntryV { id, def: def@ }),
                    )
                },
                Err(e) => e == (StoreError::TypeIdentityMismatch { id }) && final(self).contents()
                    == old(self).contents(),
            },
    {
        match self.lookup(id) {
            Some(d) => {
                if def_eq(d, &def) {
                    Ok(())
                } else {
                    Err(StoreError::TypeIdentityMismatch { id })
                }
            },
            None => {
                let ghost pre = self.contents();
                self.entries.push(StoreEntry { id, def });
                proof {
                    assert(self.contents() =~= pre.push(
                        (StoreEntryV { id, def: self.entries@.last().def@ }),
                    ));
                }
                Ok(())
            },
        }
    }

    /// Merges every binding of `other` into `self`. Bindings whose identifier
    /// is already present merge silently when the definitions are identical; a
    /// differing definition fails fast and leaves `self` unchanged.
    #[verifier::rlimit(100)]
    pub fn merge_from(&mut self, other: TypeDescriptorStore) -> (r: Result<(), StoreError>)
        requires
            old(self).wf(),
            other.wf(),
        ensures
            final(self).wf(),
            r is Ok <==> (forall|id: TypeId|
                store_contains(old(self).contents(), id) && store_contains(other.contents(), id)
                    ==> store_get(old(self).contents(), id) == store_get(other.contents(), id)),
            match r {
                Ok(_) => merged_contents(
                    old(self).contents(),
                    other.contents(),
                    final(self).contents(),
                ),
                Err(e) => {
                    &&& e matches StoreError::TypeIdentityMismatch { id } && store_contains(
                        old(self).contents(),
                        id,
                    ) && store_contains(other.contents(), id) && store_get(
                        old(self).contents(),
                        id,
                    ) != store_get(other.contents(), id)
                    &&& final(self).contents() == old(self).contents()
                },
            },
    {
        let ghost oc = other.contents();
        let ghost old_c = old(self).contents();
        // First pass: detect any identity conflict without touching `self`.
        let n = other.entries.len();
        let mut i: usize = 0;
        while i < n
            invariant
                0 <= i <= n,
                n == other.entries@.len(),
                oc == other.contents(),
                old_c == old(self).contents(),
                self == old(self),
                self.wf(),
                other.wf(),
                forall|j: int|
                    0 <= j < i ==> (!store_contains(old_c, oc[j].id) || store_get(old_c, oc[j].id)
                        == oc[j].def),
            decreases n - i,
        {
            let compat = self.compatible(other.entries[i].id, &other.entries[i].def);
            if !compat {
                proof {
                    lemma_store_get_at(oc, i as int);
                }
                return Err(StoreError::TypeIdentityMismatch { id: other.entries[i].id });
            }
            i = i + 1;
        }
        proof {
            assert forall|id: TypeId|
                store_contains(old_c, id) && store_contains(oc, id) implies store_get(old_c, id)
                == store_get(oc, id) by {
                let j = store_idx(oc, id);
                assert(0 <= j < oc.len() && oc[j].id == id);
                lemma_store_get_at(oc, j);
            }
        }
        // Second pass: append the bindings whose identifier is not yet present.
        self.absorb(other);
        Ok(())
    }

    /// Appends the not-yet-present bindings of `other`, which must not conflict
    /// with any binding already present.
    #[verifier::spinoff_prover]
    fn absorb(&mut self, other: TypeDescriptorStore)
        requires
            old(self).wf(),
            other.wf(),
            forall|id: TypeId|
                store_contains(old(self).contents(), id) && store_contains(other.contents(), id)
                    ==> store_get(old(self).contents(), id) == store_get(other.contents(), id),
        ensures
            final(self).wf(),
            merged_contents(old(self).contents(), other.contents(), final(self).contents()),
    {
        let ghost oc = other.contents();
        let ghost old_c = old(self).contents();
        let mut rest = other;
        while rest.entries.len() > 0
            invariant
                old_c == old(self).contents(),
                store_uniq(oc),
                rest.contents() == oc.take(rest.entries@.len() as int),
                rest.entries@.len() <= oc.len(),
                self.wf(),
                forall|id: TypeId|
                    store_contains(self.contents(), id) <==> (store_contains(old_c, id)
                        || suffix_binds(oc, rest.entries@.len() as int, id)),
                forall|id: TypeId|
                    store_contains(old_c, id) ==> store_get(self.contents(), id) == store_get(
                        old_c,
                        id,
                    ),
                forall|id: TypeId|
                    !store_contains(old_c, id) && store_contains(self.contents(), id)
                        ==> store_get(self.contents(), id) == store_get(oc, id),
                forall|id: TypeId|
                    store_contains(old_c, id) && store_contains(oc, id) ==> store_get(old_c, id)
                        == store_get(oc, id),
            decreases rest.entries@.len(),
        {
            let ghost m = rest.entries@.len() as int;
            let popped = rest.entries.pop();
            proof {
                assert(rest.contents() =~= oc.take(m - 1));
                assert(oc.take(m)[m - 1] == oc[m - 1]);
            }
            match popped {
                None => {
                    proof {
                        assert(false);
                    }
                },
                Some(e) => {
                    let ghost ev = StoreEntryV { id: e.id, def: e.def@ };
                    proof {
                        assert(ev == oc[m - 1]);
                        lemma_store_get_at(oc, m - 1);
                    }
                    let present = match self.lookup(e.id) {
                        Some(_) => true,
                        None => false,
                    };
                    let ghost pre = self.contents();
                    if !present {
                        proof {
                            lemma_store_push(pre, ev);
                        }
                        self.entries.push(e);
                        proof {
                            assert(self.contents() =~= pre.push(ev));
                            assert forall|id: TypeId|
                                store_contains(self.contents(), id) <==> (store_contains(
                                    old_c,
                                    id,
                                ) || suffix_binds(oc, m - 1, id)) by {
                                assert(store_contains(pre, id) <==> (store_contains(old_c, id)
                                    || suffix_binds(oc, m, id)));
                                lemma_suffix_step(oc, m, id);
                                if id != ev.id {
                                    assert(store_contains(pre.push(ev), id) <==> store_contains(
                                        pre,
                                        id,
                                    ));
                                } else {
                                    assert(store_contains(pre.push(ev), id));
                                }
                            }
                        }
                    } else {
                        proof {
                            if !store_contains(old_c, e.id) {
                                assert(suffix_binds(oc, m, e.id));
                                let k = choose|k: int|
                                    m <= k < oc.len() && #[trigger] oc[k].id == e.id;
                                assert(oc[k].id == oc[m - 1].id);
                                assert(false);
                            }
                            assert forall|id: TypeId|
                                store_contains(self.contents(), id) <==> (store_contains(
                                    old_c,
                                    id,
                                ) || suffix_binds(oc, m - 1, id)) by {
                                assert(store_contains(pre, id) <==> (store_contains(old_c, id)
                                    || suffix_binds(oc, m, id)));
                                lemma_suffix_step(oc, m, id);
                                assert(self.contents() == pre);
                            }
                        }
                    }
                },
            }
        }
        proof {
            assert forall|id: TypeId| suffix_binds(oc, 0, id) <==> store_contains(oc, id) by {
                lemma_suffix_full(oc, id);
            }
            assert forall|id: TypeId|
                !store_contains(old_c, id) && store_contains(oc, id) implies store_get(
                self.contents(),
                id,
            ) == store_get(oc, id) by {
                assert(store_contains(self.contents(), id));
            }
        }
    }
}

/// Moving the boundary of a suffix by one position adds exactly that binding.
proof fn lemma_suffix_step(s: Seq<StoreEntryV>, m: int, id: TypeId)
    requires
        1 <= m <= s.len(),
    ensures
        suffix_binds(s, m - 1, id) <==> (suffix_binds(s, m, id) || s[m - 1].id == id),
{
    if suffix_binds(s, m - 1, id) {
        let k = choose|k: int| m - 1 <= k < s.len() && #[trigger] s[k].id == id;
        if k >= m {
            assert(suffix_binds(s, m, id));
        }
    }
    if s[m - 1].id == id {
        assert(suffix_binds(s, m - 1, id));
    }
}

/// The suffix starting at the front is the whole sequence.
proof fn lemma_suffix_full(s: Seq<StoreEntryV>, id: TypeId)
    ensures
        suffix_binds(s, 0, id) <==> store_contains(s, id),
{
    if suffix_binds(s, 0, id) {
        let k = choose|k: int| 0 <= k < s.len() && #[trigger] s[k].id == id;
        assert(store_contains(s, id));
    }
    if store_contains(s, id) {
        let k = choose|i: int| 0 <= i < s.len() && s[i].id == id;
        assert(s[k].id == id);
        assert(suffix_binds(s, 0, id));
    }
}

} // verus!
