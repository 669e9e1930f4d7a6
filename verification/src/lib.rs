//! Discovery and provisioning of Kubernetes clusters across a cloud
//! resource hierarchy.
//!
//! The pipeline has four stages, each modelled as a small state machine
//! driven by a caller that performs the remote calls and subprocess
//! invocations: walking the folder hierarchy, enumerating projects,
//! locating clusters, and provisioning local credentials and aliases.

pub mod cluster;
pub mod locator;
pub mod pipeline;
pub mod projects;
pub mod provision;
pub mod walker;

pub use cluster::ClusterReference;
