//! Core logic of a sandboxed-container session manager: it derives a stable
//! container identity from a set of project folders, keeps registries that map
//! folder sets to containers and session names to conversation identities,
//! resolves user-supplied targets to container identities, and decides --
//! given the probed state of a container -- whether to attach, recreate, or
//! create anew.

pub mod conversation;
pub mod engine;
pub mod errors;
pub mod naming;
pub mod orchestrator;
pub mod ports;
pub mod registry;
pub mod resolve;
pub mod text;
