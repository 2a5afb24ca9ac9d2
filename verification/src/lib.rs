//! A verified core for a group movie-night helper: per-conversation
//! shortlists of catalog titles with bounded size and durable snapshots,
//! a retry policy for the remote catalog client, trailer selection,
//! and the interaction flow that ties them together.

pub mod client;
pub mod codec;
pub mod coord;
pub mod flow;
pub mod model;
pub mod numfmt;
pub mod retry;
pub mod store;
pub mod text;
pub mod trailer;
