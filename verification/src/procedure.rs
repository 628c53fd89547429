//! The staged procedure builder and the finished procedure.
//!
//! Construction is staged so that calling operations out of order is a
//! compile-time error: [`Procedure::builder`] yields a handle that only
//! offers fixing the input and output types, which yields a handle that only
//! offers attaching the resolver, which yields the finished [`Procedure`].

use crate::store::{store_contains, store_get, StoreError, TypeDescriptorStore};
use crate::types::{def_eq, TypeDefinition, TypeId};
use vstd::prelude::*;

verus! {

/// The finished, immutable, executable unit: a resolver plus the identifiers
/// of its input and output types in the store it was built with.
pub struct Procedure<R> {
    pub input_type: TypeId,
    pub output_type: TypeId,
    pub resolver: R,
}

/// The first builder stage: no types fixed yet.
pub struct ProcedureBuilder {}

/// The second builder stage: input and output types fixed and registered.
pub struct TypedProcedureBuilder {
    pub input_type: TypeId,
    pub output_type: TypeId,
}

impl<R> Procedure<R> {
    /// Starts the staged construction of one procedure.
    pub fn builder() -> (b: ProcedureBuilder) {
        ProcedureBuilder {}
    }
}

impl ProcedureBuilder {
    /// Fixes the input and output types, registering both definitions in the
    /// shared store. Registering a definition identical to one already present
    /// is a no-op; a differing definition under a present identifier is an
    /// identity fault, and the store is left unchanged.
    pub fn types(
        self,
        store: &mut TypeDescriptorStore,
        input_type: TypeId,
        input_def: TypeDefinition,
        output_type: TypeId,
        output_def: TypeDefinition,
    ) -> (r: Result<TypedProcedureBuilder, StoreError>)
        requires
            old(store).wf(),
        ensures
            final(store).wf(),
            r is Ok <==> ({
                &&& !store_contains(old(store).contents(), input_type) || store_get(
                    old(store).contents(),
                    input_type,
                ) == input_def@
                &&& !store_contains(old(store).contents(), output_type) || store_get(
                    old(store).contents(),
                    output_type,
                ) == output_def@
                &&& input_type == output_type ==> input_def@ == output_def@
            }),
            match r {
                Ok(b) => {
                    &&& b == (TypedProcedureBuilder { input_type, output_type })
                    &&& store_contains(final(store).contents(), input_type)
                    &&& store_get(final(store).contents(), input_type) == input_def@
                    &&& store_contains(final(store).contents(), output_type)
                    &&& store_get(final(store).contents(), output_type) == output_def@
                    &&& forall|id: TypeId|
                        id != input_type && id != output_type ==> (store_contains(
                            final(store).contents(),
                            id,
                        ) <==> store_contains(old(store).contents(), id))
                    &&& forall|id: TypeId|
                        id != input_type && id != output_type && store_contains(
                            old(store).contents(),
                            id,
                        ) ==> store_get(final(store).contents(), id) == store_get(
                            old(store).contents(),
                            id,
                        )
                },
                Err(e) => {
                    &&& final(store).contents() == old(store).contents()
                    &&& e matches StoreError::TypeIdentityMismatch { id } && (id == input_type
                        || id == output_type)
                },
            },
    {
        let ok_in = store.compatible(input_type, &input_def);
        if !ok_in {
            return Err(StoreError::TypeIdentityMismatch { id: input_type });
        }
        let ok_out = store.compatible(output_type, &output_def);
        if !ok_out {
            return Err(StoreError::TypeIdentityMismatch { id: output_type });
        }
        if input_type == output_type {
            if !def_eq(&input_def, &output_def) {
                return Err(StoreError::TypeIdentityMismatch { id: input_type });
            }
        }
        let ghost pre = store.contents();
        let r1 = store.insert(input_type, input_def);
        proof {
            if r1 is Err {
                assert(false);
            }
            if !store_contains(pre, input_type) {
                crate::store::lemma_store_push(
                    pre,
                    (crate::store::StoreEntryV { id: input_type, def: input_def@ }),
                );
            }
        }
        let ghost mid = store.contents();
        let r2 = store.insert(output_type, output_def);
        proof {
            if r2 is Err {
                assert(false);
            }
            if !store_contains(mid, output_type) {
                crate::store::lemma_store_push(
                    mid,
                    (crate::store::StoreEntryV { id: output_type, def: output_def@ }),
                );
            }
        }
        Ok(TypedProcedureBuilder { input_type, output_type })
    }
}

impl TypedProcedureBuilder {
    /// Attaches the resolver, yielding the finished procedure.
    pub fn resolver<R>(self, resolver: R) -> (p: Procedure<R>)
        ensures
            p.input_type == self.input_type,
            p.output_type == self.output_type,
            p.resolver == resolver,
    {
        Procedure { input_type: self.input_type, output_type: self.output_type, resolver }
    }
}

} // verus!
