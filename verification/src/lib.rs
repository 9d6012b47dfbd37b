//! Verified core of an architecture-research pipeline: lexical extraction of
//! dependency and interface facts from source text, scoped memory shared
//! between research agents, a content-addressed cache of expensive
//! computations, data-source resolution, and the agent state machine that
//! drives ordered execution.

pub mod agents;
pub mod cache;
pub mod csdecl;
pub mod csharp;
pub mod docs;
pub mod facts;
pub mod knowledge;
pub mod memory;
pub mod orchestrator;
pub mod projectfiles;
pub mod registry;
pub mod scan;
pub mod sources;
pub mod sqlscan;
