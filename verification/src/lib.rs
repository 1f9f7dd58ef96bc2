//! kube-forward: a persistent, self-healing port-forward manager for Kubernetes.
//!
//! This crate holds the verified core: configuration model and validation,
//! target and selector parsing, backoff, the interactive builder's helpers,
//! terminal rendering, pod selection and the decision logic of the forward
//! supervisor, health monitor and byte-copy loop.
pub mod text;
pub mod error;
pub mod util;
pub mod time;
pub mod config;
pub mod validate;
pub mod backoff;
pub mod add;
pub mod ui;
pub mod metrics;
pub mod forward;
pub mod supervisor;
pub mod transfer;
