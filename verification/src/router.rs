//! The router: the build-time, name-addressed collection of procedures.
//!
//! A router accumulates named procedures and the shared type descriptor
//! store. Name uniqueness is enforced incrementally: inserting a present name
//! fails, and merging another router under a prefix fails atomically when any
//! prefixed name collides, leaving the table untouched. Building consumes the
//! router and yields the immutable executor plus the finalized store.

use crate::order::str_eq;
use crate::procedure::Procedure;
use crate::store::{merged_contents, store_contains, store_get, StoreError, TypeDescriptorStore};
use crate::types::TypeId;
use vstd::prelude::*;
use vstd::string::StringExecFns;

verus! {

/// One named procedure of a router or an executor.
pub struct RouterEntry<R> {
    pub name: String,
    pub procedure: Procedure<R>,
}

/// Mathematical view of one name-table entry.
#[verifier::ext_equal]
pub struct RouterEntryV<R> {
    pub name: Seq<char>,
    pub procedure: Procedure<R>,
}

/// Does the table bind `name`?
pub open spec fn table_contains<R>(s: Seq<RouterEntryV<R>>, name: Seq<char>) -> bool {
    exists|i: int| 0 <= i < s.len() && s[i].name == name
}

/// The index of the entry binding `name`; meaningful only when the table
/// contains `name` and names are unique.
pub open spec fn table_idx<R>(s: Seq<RouterEntryV<R>>, name: Seq<char>) -> int {
    choose|i: int| 0 <= i < s.len() && s[i].name == name
}

/// The procedure bound to `name`.
pub open spec fn table_get<R>(s: Seq<RouterEntryV<R>>, name: Seq<char>) -> Procedure<R>
    recommends
        table_contains(s, name),
{
    s[table_idx(s, name)].procedure
}

/// Every name is bound by at most one entry.
pub open spec fn table_uniq<R>(s: Seq<RouterEntryV<R>>) -> bool {
    forall|i: int, j: int| 0 <= i < j < s.len() ==> s[i].name != s[j].name
}

/// With unique names, the entry at any index is the one `table_get` yields.
pub proof fn lemma_table_get_at<R>(s: Seq<RouterEntryV<R>>, i: int)
    requires
        table_uniq(s),
        0 <= i < s.len(),
    ensures
        table_contains(s, s[i].name),
        table_get(s, s[i].name) == s[i].procedure,
        table_idx(s, s[i].name) == i,
{
    assert(table_contains(s, s[i].name));
    let j = table_idx(s, s[i].name);
    assert(0 <= j < s.len() && s[j].name == s[i].name);
    if i != j {
        assert(false);
    }
}

/// Appending a fresh name keeps every present binding and adds the new one.
pub proof fn lemma_table_push<R>(s: Seq<RouterEntryV<R>>, e: RouterEntryV<R>)
    requires
        table_uniq(s),
        !table_contains(s, e.name),
    ensures
        table_uniq(s.push(e)),
        table_contains(s.push(e), e.name),
        table_get(s.push(e), e.name) == e.procedure,
        forall|n: Seq<char>|
            n != e.name ==> (table_contains(s.push(e), n) <==> table_contains(s, n)),
        forall|n: Seq<char>|
            n != e.name && table_contains(s, n) ==> table_get(s.push(e), n) == table_get(s, n),
{
    let t = s.push(e);
    assert forall|i: int, j: int| 0 <= i < j < t.len() implies t[i].name != t[j].name by {
        if j == s.len() {
            assert(t[i] == s[i]);
            if t[i].name == e.name {
                assert(table_contains(s, e.name));
            }
        }
    }
    assert(t[s.len() as int] == e);
    lemma_table_get_at(t, s.len() as int);
    assert forall|n: Seq<char>| n != e.name implies (table_contains(t, n) <==> table_contains(
        s,
        n,
    )) by {
        if table_contains(t, n) {
            let j = table_idx(t, n);
            assert(0 <= j < t.len() && t[j].name == n);
            assert(j != s.len());
            assert(t[j] == s[j]);
        }
        if table_contains(s, n) {
            let j = table_idx(s, n);
            assert(t[j] == s[j]);
        }
    }
    assert forall|n: Seq<char>| n != e.name && table_contains(s, n) implies table_get(t, n)
        == table_get(s, n) by {
        let j = table_idx(s, n);
        assert(0 <= j < s.len() && s[j].name == n);
        lemma_table_get_at(s, j);
        assert(t[j] == s[j]);
        lemma_table_get_at(t, j);
    }
}

/// A concatenated table binds a name exactly when one of its parts does.
pub proof fn lemma_table_split<R>(a: Seq<RouterEntryV<R>>, b: Seq<RouterEntryV<R>>, n: Seq<char>)
    ensures
        table_contains(a + b, n) <==> (table_contains(a, n) || table_contains(b, n)),
{
    let t = a + b;
    if table_contains(t, n) {
        let i = table_idx(t, n);
        assert(0 <= i < t.len() && t[i].name == n);
        if i < a.len() {
            assert(a[i] == t[i]);
            assert(table_contains(a, n));
        } else {
            assert(b[i - a.len()] == t[i]);
            assert(table_contains(b, n));
        }
    }
    if table_contains(a, n) {
        let i = table_idx(a, n);
        assert(t[i] == a[i]);
        assert(table_contains(t, n));
    }
    if table_contains(b, n) {
        let i = table_idx(b, n);
        assert(t[a.len() + i] == b[i]);
        assert(table_contains(t, n));
    }
}

/// The name a procedure of a merged router gets: `prefix`, a dot, its own name.
pub open spec fn prefixed(prefix: Seq<char>, name: Seq<char>) -> Seq<char> {
    prefix + "."@ + name
}

/// All entries of a table, renamed under a prefix.
pub open spec fn prefixed_all<R>(prefix: Seq<char>, s: Seq<RouterEntryV<R>>) -> Seq<
    RouterEntryV<R>,
> {
    s.map_values(|e: RouterEntryV<R>| RouterEntryV { name: prefixed(prefix, e.name), ..e })
}

/// Prefixing is injective: equal prefixed names come from equal names.
pub proof fn lemma_prefixed_injective(prefix: Seq<char>, a: Seq<char>, b: Seq<char>)
    requires
        prefixed(prefix, a) == prefixed(prefix, b),
    ensures
        a == b,
{
    let pa = prefixed(prefix, a);
    let pb = prefixed(prefix, b);
    assert(pa.len() == prefix.len() + "."@.len() + a.len());
    assert(pb.len() == prefix.len() + "."@.len() + b.len());
    assert(a.len() == b.len());
    assert forall|i: int| 0 <= i < a.len() implies a[i] == b[i] by {
        let k = prefix.len() + "."@.len() + i;
        assert(pa[k] == a[i]);
        assert(pb[k] == b[i]);
    }
    assert(a =~= b);
}

/// A name inserted into a table is bound in the result. Together with
/// `Router::insert`'s contract — which succeeds exactly on unbound names,
/// extends the table by `push` on success, and fails with
/// `DuplicateProcedureName` on bound ones — this says that inserting the same
/// name twice must fail the second time, whatever procedures are involved.
pub proof fn lemma_insert_makes_duplicate<R>(t: Seq<RouterEntryV<R>>, e: RouterEntryV<R>)
    ensures
        table_contains(t.push(e), e.name),
{
    assert(t.push(e)[t.len() as int] == e);
}

/// A name-table failure of the router.
#[derive(Debug)]
pub enum RouterError {
    /// The (full) name already bound, and the incoming name that collided with it.
    DuplicateProcedureName { existing: String, incoming: String },
    /// One type identifier carrying two differing definitions.
    TypeIdentityMismatch { id: TypeId },
}

/// The build-time collection of named procedures and their type declarations.
pub struct Router<R> {
    pub entries: Vec<RouterEntry<R>>,
    /// The type descriptor store accumulated while procedures were declared.
    pub typ_store: TypeDescriptorStore,
}

impl<R> Router<R> {
    /// The router's name table.
    pub open spec fn table(self) -> Seq<RouterEntryV<R>> {
        self.entries@.map_values(
            |e: RouterEntry<R>| RouterEntryV { name: e.name@, procedure: e.procedure },
        )
    }

    /// Well-formedness: unique names, and a well-formed store.
    pub open spec fn wf(self) -> bool {
        table_uniq(self.table()) && self.typ_store.wf()
    }

    /// An empty router.
    pub fn new() -> (r: Router<R>)
        ensures
            r.wf(),
            r.table() == Seq::<RouterEntryV<R>>::empty(),
            r.typ_store.contents() == Seq::<crate::store::StoreEntryV>::empty(),
    {
        let r = Router { entries: Vec::new(), typ_store: TypeDescriptorStore::new() };
        proof {
            assert(r.table() =~= Seq::<RouterEntryV<R>>::empty());
        }
        r
    }

    /// The index of the entry binding `name`, if any.
    fn find(&self, name: &String) -> (r: Option<usize>)
        requires
            self.wf(),
        ensures
            match r {
                Some(i) => i < self.table().len() && self.table()[i as int].name == name@
                    && table_contains(self.table(), name@),
                None => !table_contains(self.table(), name@),
            },
    {
        let n = self.entries.len();
        let mut i: usize = 0;
        while i < n
            invariant
                0 <= i <= n,
                n == self.entries@.len(),
                self.wf(),
                forall|j: int| 0 <= j < i ==> self.table()[j].name != name@,
            decreases n - i,
        {
            if str_eq(&self.entries[i].name, name) {
                proof {
                    assert(self.table()[i as int].name == name@);
                    assert(table_contains(self.table(), name@));
                }
                return Some(i);
            }
            i = i + 1;
        }
        None
    }

    /// Inserts a procedure under a name, failing when the name is present and
    /// leaving the router unchanged in that case.
    pub fn insert(&mut self, name: String, procedure: Procedure<R>) -> (r: Result<
        (),
        RouterError,
    >)
        requires
            old(self).wf(),
        ensures
            final(self).wf(),
            final(self).typ_store == old(self).typ_store,
            r is Ok <==> !table_contains(old(self).table(), name@),
            match r {
                Ok(_) => final(self).table() == old(self).table().push(
                    (RouterEntryV { name: name@, procedure }),
                ),
                Err(e) => {
                    &&& final(self).table() == old(self).table()
                    &&& e matches RouterError::DuplicateProcedureName { existing, incoming }
                        && existing@ == name@ && incoming@ == name@
                },
            },
    {
        match self.find(&name) {
            Some(_) => {
                let incoming = name.clone();
                Err(RouterError::DuplicateProcedureName { existing: name, incoming })
            },
            None => {
                let ghost pre = self.table();
                let ghost ev = RouterEntryV { name: name@, procedure };
                proof {
                    lemma_table_push(pre, ev);
                }
                self.entries.push(RouterEntry { name, procedure });
                proof {
                    assert(self.table() =~= pre.push(ev));
                }
                Ok(())
            },
        }
    }

    /// Merges `other` into this router under a prefix: every procedure of
    /// `other` is renamed to `prefix`, a dot, its own name, and inserted, and
    /// the two type descriptor stores merge. A renamed-name collision or a
    /// type-identity conflict fails, and then neither the name table nor the
    /// store of this router has changed (the merge is atomic).
    #[verifier::rlimit(60)]
    pub fn merge(&mut self, prefix: &str, other: Router<R>) -> (r: Result<(), RouterError>)
        requires
            old(self).wf(),
            other.wf(),
        ensures
            final(self).wf(),
            r is Ok <==> ({
                &&& forall|j: int|
                    0 <= j < other.table().len() ==> !table_contains(
                        old(self).table(),
                        prefixed(prefix@, #[trigger] other.table()[j].name),
                    )
                &&& forall|id: TypeId|
                    store_contains(old(self).typ_store.contents(), id) && store_contains(
                        other.typ_store.contents(),
                        id,
                    ) ==> store_get(old(self).typ_store.contents(), id) == store_get(
                        other.typ_store.contents(),
                        id,
                    )
            }),
            match r {
                Ok(_) => {
                    &&& final(self).table() == old(self).table() + prefixed_all(
                        prefix@,
                        other.table(),
                    )
                    &&& merged_contents(
                        old(self).typ_store.contents(),
                        other.typ_store.contents(),
                        final(self).typ_store.contents(),
                    )
                },
                Err(e) => {
                    &&& final(self).table() == old(self).table()
                    &&& final(self).typ_store.contents() == old(self).typ_store.contents()
                    &&& match e {
                        RouterError::DuplicateProcedureName { existing, incoming } => {
                            &&& table_contains(old(self).table(), existing@)
                            &&& table_contains(other.table(), incoming@)
                            &&& existing@ == prefixed(prefix@, incoming@)
                        },
                        RouterError::TypeIdentityMismatch { id } => {
                            &&& store_contains(old(self).typ_store.contents(), id)
                            &&& store_contains(other.typ_store.contents(), id)
                            &&& store_get(old(self).typ_store.contents(), id) != store_get(
                                other.typ_store.contents(),
                                id,
                            )
                        },
                    }
                },
            },
    {
        let ghost oseq = other.table();
        let ghost old_store_c = old(self).typ_store.contents();
        let ghost other_store_c = other.typ_store.contents();
        // Collision check, touching nothing.
        let n = other.entries.len();
        let mut i: usize = 0;
        while i < n
            invariant
                0 <= i <= n,
                n == other.entries@.len(),
                oseq == other.table(),
                self == old(self),
                self.wf(),
                other.wf(),
                forall|j: int|
                    0 <= j < i ==> !table_contains(
                        self.table(),
                        prefixed(prefix@, #[trigger] oseq[j].name),
                    ),
            decreases n - i,
        {
            let pn = prefixed_string(prefix, &other.entries[i].name);
            proof {
                assert(pn@ == prefixed(prefix@, oseq[i as int].name));
            }
            match self.find(&pn) {
                Some(_) => {
                    proof {
                        lemma_table_get_at(oseq, i as int);
                    }
                    let incoming = other.entries[i].name.clone();
                    return Err(RouterError::DuplicateProcedureName { existing: pn, incoming });
                },
                None => {},
            }
            i = i + 1;
        }
        // Merge the stores; a conflict leaves both the store and the table as
        // they were.
        let Router { entries: mut oentries, typ_store: ostore } = other;
        match self.typ_store.merge_from(ostore) {
            Err(StoreError::TypeIdentityMismatch { id }) => {
                return Err(RouterError::TypeIdentityMismatch { id });
            },
            Ok(_) => {},
        }
        // Append the renamed procedures; nothing can fail from here on.
        let ghost merged_store = self.typ_store;
        proof {
            assert(ostore.contents() == other_store_c);
            assert(oseq.skip(0) =~= oseq);
            assert(oentries@.map_values(
                |e: RouterEntry<R>| RouterEntryV { name: e.name@, procedure: e.procedure },
            ) == oseq);
            assert(oseq.take(0) =~= Seq::<RouterEntryV<R>>::empty());
            assert(prefixed_all(prefix@, oseq.take(0)) =~= Seq::<RouterEntryV<R>>::empty());
            assert(self.table() =~= old(self).table() + prefixed_all(prefix@, oseq.take(0)));
        }
        while oentries.len() > 0
            invariant
                oentries@.map_values(
                    |e: RouterEntry<R>| RouterEntryV { name: e.name@, procedure: e.procedure },
                ) == oseq.skip(oseq.len() - oentries@.len()),
                oentries@.len() <= oseq.len(),
                self.typ_store == merged_store,
                table_uniq(self.table()),
                merged_store.wf(),
                merged_contents(old_store_c, other_store_c, merged_store.contents()),
                table_uniq(oseq),
                self.table() == old(self).table() + prefixed_all(
                    prefix@,
                    oseq.take(oseq.len() - oentries@.len()),
                ),
                forall|j: int|
                    0 <= j < oseq.len() ==> !table_contains(
                        old(self).table(),
                        prefixed(prefix@, #[trigger] oseq[j].name),
                    ),
            decreases oentries@.len(),
        {
            let ghost k = oseq.len() - oentries@.len();
            let ghost pre = self.table();
            let ghost rem = oentries@;
            let e = oentries.remove(0);
            proof {
                assert(rem.map_values(
                    |e2: RouterEntry<R>| RouterEntryV { name: e2.name@, procedure: e2.procedure },
                )[0] == (RouterEntryV { name: rem[0].name@, procedure: rem[0].procedure }));
                assert(oseq.skip(k)[0] == oseq[k]);
                assert(e == rem[0]);
                assert(e.name@ == oseq[k].name);
                assert(e.procedure == oseq[k].procedure);
                assert forall|j: int| #![trigger oseq.skip(k + 1)[j]]
                    0 <= j < oentries@.len() implies oentries@.map_values(
                    |e2: RouterEntry<R>| RouterEntryV { name: e2.name@, procedure: e2.procedure },
                )[j] == oseq.skip(k + 1)[j] by {
                    assert(oentries@[j] == rem[j + 1]);
                    assert(oseq.skip(k + 1)[j] == oseq[k + 1 + j]);
                    assert(rem.map_values(
                        |e2: RouterEntry<R>| RouterEntryV {
                            name: e2.name@,
                            procedure: e2.procedure,
                        },
                    )[j + 1] == oseq.skip(k)[j + 1]);
                    assert(oseq.skip(k)[j + 1] == oseq[k + 1 + j]);
                }
                assert(oentries@.map_values(
                    |e2: RouterEntry<R>| RouterEntryV { name: e2.name@, procedure: e2.procedure },
                ) =~= oseq.skip(k + 1));
            }
            let pn = prefixed_string(prefix, &e.name);
            let ghost ev = RouterEntryV { name: pn@, procedure: e.procedure };
            proof {
                lemma_table_split(old(self).table(), prefixed_all(prefix@, oseq.take(k)), ev.name);
                if table_contains(prefixed_all(prefix@, oseq.take(k)), ev.name) {
                    let j = table_idx(prefixed_all(prefix@, oseq.take(k)), ev.name);
                    assert(prefixed_all(prefix@, oseq.take(k))[j].name == prefixed(
                        prefix@,
                        oseq.take(k)[j].name,
                    ));
                    lemma_prefixed_injective(prefix@, oseq[j].name, oseq[k].name);
                    assert(false);
                }
                lemma_table_push(pre, ev);
            }
            self.entries.push(RouterEntry { name: pn, procedure: e.procedure });
            proof {
                assert(self.table() =~= pre.push(ev));
                assert(self.table() =~= old(self).table() + prefixed_all(
                    prefix@,
                    oseq.take(k + 1),
                ));
            }
        }
        proof {
            assert(oseq.take(oseq.len() as int) =~= oseq);
        }
        Ok(())
    }

    /// Consumes the router, yielding the immutable executor and the finalized
    /// type descriptor store.
    pub fn build(self) -> (r: (crate::executor::Executor<R>, TypeDescriptorStore))
        requires
            self.wf(),
        ensures
            r.0.wf(),
            r.0.table() == self.table(),
            r.1 == self.typ_store,
    {
        let out = crate::executor::Executor { entries: self.entries };
        (out, self.typ_store)
    }
}

impl<R> Default for Router<R> {
    /// An empty router, as `Router::new` yields it.
    fn default() -> (r: Self)
        ensures
            r.wf(),
            r.table() == Seq::<RouterEntryV<R>>::empty(),
            r.typ_store.contents() == Seq::<crate::store::StoreEntryV>::empty(),
    {
        Router::new()
    }
}

/// `prefix`, a dot, `name`, as one string.
fn prefixed_string(prefix: &str, name: &String) -> (r: String)
    ensures
        r@ == prefixed(prefix@, name@),
{
    let mut s = prefix.to_owned();
    s.append(".");
    s.append(name.as_str());
    s
}

} // verus!
