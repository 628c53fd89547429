//! The executor: the immutable, dispatch-ready form of a built router.
//!
//! Dispatch looks a procedure up by name, forwards the pre-decoded input to
//! its resolver, and returns the resolver's outcome: a value, an error, or a
//! cancellable stream. The executor never inspects result contents and never
//! retries; every surfaced error is terminal for the request that raised it.

use crate::order::str_eq;
use crate::resolver::{Outcome, Resolver, StreamSource};
use crate::router::{table_contains, table_get, table_uniq, RouterEntry, RouterEntryV};
use crate::value::{DecodeError, ResolverError, Value};
use vstd::prelude::*;

verus! {

/// A per-request dispatch failure.
#[derive(Debug)]
pub enum DispatchError {
    /// No procedure is bound to the requested name.
    ProcedureNotFound,
    /// The serialization collaborator could not decode the request payload.
    Decode(DecodeError),
    /// The resolver itself failed.
    Resolver(ResolverError),
}

/// A successful dispatch: one value, or a stream to be pulled.
pub enum Dispatched<S> {
    Value(Value),
    Stream(DispatchStream<S>),
}

/// A streaming dispatch in flight. Values are produced only when pulled, and
/// after cancellation the underlying source is never touched again.
pub struct DispatchStream<S> {
    pub source: S,
    pub cancelled: bool,
}

impl<S: StreamSource> DispatchStream<S> {
    /// Pulls the next value. After cancellation nothing is pulled: the result
    /// is `None` and the stream, its source included, is left exactly as it was.
    pub fn next(&mut self) -> (r: Option<Value>)
        ensures
            old(self).cancelled ==> r is None && *final(self) == *old(self),
            final(self).cancelled == old(self).cancelled,
    {
        if self.cancelled {
            None
        } else {
            self.source.poll_next()
        }
    }

    /// Cancels the stream: every later pull returns `None` without touching
    /// the source, so no further value is ever produced.
    pub fn cancel(&mut self)
        ensures
            final(self).cancelled,
            final(self).source == old(self).source,
    {
        self.cancelled = true;
    }

    /// Read access to the underlying source.
    pub fn source_ref(&self) -> (r: &S)
        ensures
            r == self.source,
    {
        &self.source
    }
}

/// The immutable name-to-handler mapping serving dispatches.
pub struct Executor<R> {
    pub entries: Vec<RouterEntry<R>>,
}

impl<R> Executor<R> {
    /// The executor's name table.
    pub open spec fn table(self) -> Seq<RouterEntryV<R>> {
        self.entries@.map_values(
            |e: RouterEntry<R>| RouterEntryV { name: e.name@, procedure: e.procedure },
        )
    }

    /// Well-formedness: unique names.
    pub open spec fn wf(self) -> bool {
        table_uniq(self.table())
    }

    /// The index of the entry binding `name`, if any.
    fn find(&self, name: &String) -> (r: Option<usize>)
        requires
            self.wf(),
        ensures
            match r {
                Some(i) => i < self.table().len() && self.table()[i as int].name == name@
                    && table_contains(self.table(), name@),
                None => !table_contains(self.table(), name@),
            },
    {
        let n = self.entries.len();
        let mut i: usize = 0;
        while i < n
            invariant
                0 <= i <= n,
                n == self.entries@.len(),
                self.wf(),
                forall|j: int| 0 <= j < i ==> self.table()[j].name != name@,
            decreases n - i,
        {
            if str_eq(&self.entries[i].name, name) {
                proof {
                    assert(self.table()[i as int].name == name@);
                    assert(table_contains(self.table(), name@));
                }
                return Some(i);
            }
            i = i + 1;
        }
        None
    }

    /// Serves one request: looks `name` up, surfaces the collaborator's
    /// decode failure if there was one, and otherwise runs the procedure's
    /// resolver, returning exactly its outcome.
    pub fn dispatch<Ctx>(&self, name: &String, ctx: &Ctx, input: Result<Value, DecodeError>) -> (r:
        Result<Dispatched<R::Stream>, DispatchError>) where R: Resolver<Ctx>
        requires
            self.wf(),
        ensures
            r matches Err(DispatchError::ProcedureNotFound) <==> !table_contains(
                self.table(),
                name@,
            ),
            table_contains(self.table(), name@) ==> match input {
                Err(d) => r matches Err(DispatchError::Decode(d2)) && d2 == d,
                Ok(v) => match table_get(self.table(), name@).resolver.resolves(*ctx, v) {
                    Outcome::Single(Ok(out)) => r matches Ok(Dispatched::Value(o2)) && o2 == out,
                    Outcome::Single(Err(e)) => r matches Err(DispatchError::Resolver(e2)) && e2
                        == e,
                    Outcome::Stream(s) => r matches Ok(Dispatched::Stream(ds)) && ds == (
                    DispatchStream { source: s, cancelled: false }),
                },
            },
    {
        match self.find(name) {
            None => Err(DispatchError::ProcedureNotFound),
            Some(i) => {
                proof {
                    crate::router::lemma_table_get_at(self.table(), i as int);
                }
                match input {
                    Err(d) => Err(DispatchError::Decode(d)),
                    Ok(v) => match self.entries[i].procedure.resolver.resolve(ctx, &v) {
                        Outcome::Single(Ok(out)) => Ok(Dispatched::Value(out)),
                        Outcome::Single(Err(e)) => Err(DispatchError::Resolver(e)),
                        Outcome::Stream(s) => Ok(
                            Dispatched::Stream(DispatchStream { source: s, cancelled: false }),
                        ),
                    },
                }
            },
        }
    }
}

} // verus!
