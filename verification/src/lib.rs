//! Terminal target resolution and listing for a container management core:
//! matching Swarm nodes to Servers by identity, planning terminal creation,
//! and filtering, ordering and paging terminal lists.
pub mod text;
pub mod entities;
pub mod error;
pub mod swarm_terminal;
pub mod terminal;
pub mod order;
pub mod listing;
pub mod gather;
pub mod task_resolution;
pub mod laws;
