//! Verified core of a Kubernetes cluster state gatherer: secret masking,
//! label and annotation selectors, configuration lookup and the planning of
//! what is collected for each discovered API resource.

pub mod config_map;
pub mod discovery;
pub mod duration;
pub mod kubeconfig;
pub mod secrets;
pub mod selector;
pub mod selector_parse;
pub mod text;
