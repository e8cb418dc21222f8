//! Derives per-node tunnel configurations for a point-to-point encrypted
//! overlay network from a single declarative description: a network CIDR
//! block plus a list of member nodes and their routing relationships.

pub mod cli;
pub mod config;
pub mod errors;
pub mod keys;
pub mod net;
pub mod wgc;
