//! Userspace control plane of a multi-domain CPU scheduler: topology
//! partitioning, shared-memory mirroring, utilization tuning, load
//! balancing and statistics, each stated and proved over a plain model.
pub mod stats;
pub mod cpumask;
pub mod topology;
pub mod domain;
pub mod arena;
pub mod tuner;
pub mod load_balance;
pub mod control;
pub mod growth;
pub mod discover;
