//! Annotated values: a recoverable binder between a dynamic value tree and
//! schema-described records, with a per-node metadata channel, a generic
//! processor walk and tag-based variant dispatch.

pub mod binder;
pub mod laws;
pub mod meta;
pub mod metamap;
pub mod projector;
pub mod schema;
pub mod scrub;
pub mod statsd;
pub mod tagged;
pub mod walk;
