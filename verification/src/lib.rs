//! Block import for a chain client: the chain store, the verification
//! stages that need chain context, the executor, and the two import
//! pipelines, with their contracts proved.

pub mod bits;
pub mod hash;
pub mod route;
pub mod header;
pub mod batch;
pub mod chain_view;
pub mod chain_laws;
pub mod engine;
pub mod chain;
pub mod state;
pub mod block;
pub mod verification;
pub mod queue;
pub mod client;
pub mod pass;
pub mod importer;
pub mod address;
pub mod laws;
