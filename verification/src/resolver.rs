//! Resolvers: the user-supplied handlers a procedure executes.
//!
//! A resolver maps a context and a decoded input to an [`Outcome`]: either a
//! single result or a lazy, pull-based stream of values. The trait carries a
//! specification function describing exactly what each invocation returns, so
//! dispatch contracts can name the resolver that was run.

use crate::value::{ResolverError, Value};
use vstd::prelude::*;

verus! {

/// What one invocation of a resolver produces: a single result, or a stream
/// of values pulled lazily by the caller.
pub enum Outcome<S> {
    Single(Result<Value, ResolverError>),
    Stream(S),
}

/// A pull-based source of streamed values. A source is arbitrary user code,
/// so nothing is promised of what a pull returns; values are produced only
/// when pulled, which is what makes cancellation effective.
pub trait StreamSource: Sized {
    /// Produces the next value, or `None` when the stream is exhausted.
    fn poll_next(&mut self) -> (r: Option<Value>);
}

/// A user-supplied handler: a function from context and decoded input to an
/// outcome. `resolves` is the mathematical description of the handler;
/// `resolve` must return exactly that outcome.
pub trait Resolver<Ctx>: Sized {
    /// The stream type this resolver produces when it streams.
    type Stream: StreamSource;

    /// What the resolver returns for the given context and input.
    spec fn resolves(&self, ctx: Ctx, input: Value) -> Outcome<Self::Stream>;

    /// Runs the handler once.
    fn resolve(&self, ctx: &Ctx, input: &Value) -> (r: Outcome<Self::Stream>)
        ensures
            r == self.resolves(*ctx, *input),
    ;
}

/// A stream producing the integers `1..=limit`, one per pull.
pub struct CountingSource {
    pub produced: u32,
    pub limit: u32,
}

impl StreamSource for CountingSource {
    fn poll_next(&mut self) -> (r: Option<Value>) {
        if self.produced < self.limit {
            self.produced = self.produced + 1;
            Some(Value::Int(self.produced as i64))
        } else {
            None
        }
    }
}

/// A resolver returning one fixed value, whatever the context and input.
pub struct ConstResolver {
    pub output: Value,
}

impl<Ctx> Resolver<Ctx> for ConstResolver {
    type Stream = CountingSource;

    open spec fn resolves(&self, ctx: Ctx, input: Value) -> Outcome<CountingSource> {
        Outcome::Single(Ok(self.output))
    }

    fn resolve(&self, ctx: &Ctx, input: &Value) -> (r: Outcome<CountingSource>) {
        Outcome::Single(Ok(self.output.duplicate()))
    }
}

/// A resolver failing with one fixed error message.
pub struct FailResolver {
    pub message: String,
}

impl<Ctx> Resolver<Ctx> for FailResolver {
    type Stream = CountingSource;

    open spec fn resolves(&self, ctx: Ctx, input: Value) -> Outcome<CountingSource> {
        Outcome::Single(Err(ResolverError { message: self.message }))
    }

    fn resolve(&self, ctx: &Ctx, input: &Value) -> (r: Outcome<CountingSource>) {
        Outcome::Single(Err(ResolverError { message: self.message.clone() }))
    }
}

/// A resolver that streams `limit` counted values.
pub struct CountResolver {
    pub limit: u32,
}

impl<Ctx> Resolver<Ctx> for CountResolver {
    type Stream = CountingSource;

    open spec fn resolves(&self, ctx: Ctx, input: Value) -> Outcome<CountingSource> {
        Outcome::Stream(CountingSource { produced: 0, limit: self.limit })
    }

    fn resolve(&self, ctx: &Ctx, input: &Value) -> (r: Outcome<CountingSource>) {
        Outcome::Stream(CountingSource { produced: 0, limit: self.limit })
    }
}

} // verus!
