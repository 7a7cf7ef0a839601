//! Builds, deploys and tears down large Linux network playgrounds: one network
//! namespace per command instance, bridges on the host, an optional VXLAN
//! overlay between hosts, traffic shaping and periodic partitions.
//!
//! Everything here is pure: the planner, the ordered kernel actions that deploy
//! and tear down a plan, the command lines that carry them out, the launch
//! configuration of each instance and the partition agent's decisions. Running
//! the actions and the processes is left to the caller.

pub mod text;
pub mod network;
pub mod pool;
pub mod plan;
pub mod kernel;
pub mod deploy;
pub mod supervisor;
pub mod partition;
pub mod periodic;
pub mod sysctl;
pub mod agent;
pub mod shell;
pub mod fanout;
pub mod env;
