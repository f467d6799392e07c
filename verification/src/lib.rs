//! On-demand, per-hostname TLS server key selection.
//!
//! A server that answers many virtual hosts from one listening socket must
//! pick its certificate chain and private key per connection, from the SNI
//! hostname of the ClientHello, and the material for a hostname may have to
//! be fetched from a slow external authority. The heart of this crate is a
//! small state machine that deduplicates concurrent resolution requests for
//! one hostname, caches completed resolutions for the life of the process,
//! and fans one answer out to every waiter. The asynchronous plumbing around
//! it (channels, tasks, the TLS engine's callback) lives in the embedding
//! application; the state machine itself is synchronous and fully specified.

pub mod key;
pub mod keys;
pub mod lookup;
pub mod protocol;
pub mod provider;
pub mod resolver;
pub mod vfs;
