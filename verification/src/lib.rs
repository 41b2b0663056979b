//! A verified core for a Kubernetes operator that materializes ConfigMap and
//! Secret objects from externally sourced configuration.
//!
//! The crate owns the canonical configuration tree, the merge engine, the
//! flatten/unflatten codecs for properties and env files, the format sniffing
//! chain, the claim resolution strategies, the reconcile decision logic and
//! the lease-based leader election protocol. Network and Kubernetes API
//! calls are reached only through narrow trusted wrappers.

pub mod claim;
pub mod codec;
pub mod config;
pub mod error;
pub mod flatten;
pub mod lease;
pub mod merge;
pub mod reconcile;
pub mod resolve;
pub mod store;
pub mod tree;
pub mod unflatten;
