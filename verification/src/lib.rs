//! A typesafe remote-procedure registry.
//!
//! Procedures are declared with a staged builder, collected into a [`router::Router`],
//! dispatched by name through an [`executor::Executor`], and the types they declare
//! are exported as a deterministic, deduplicated text description by [`export`].

pub mod executor;
pub mod export;
pub mod order;
pub mod procedure;
pub mod resolver;
pub mod router;
pub mod store;
pub mod types;
pub mod value;
