//! The verified core of a home-router control plane: a keyed service
//! supervision engine with at-most-one-instance-per-key semantics, and
//! a policy-driven DNS resolver that matches queries against an ordered
//! rule set, caches answers under their time to live, and keeps the
//! kernel's per-flow address-mark map in step with what it resolved.

pub mod configs;
pub mod dns_cache;
pub mod dns_handler;
pub mod dns_records;
pub mod dns_rule;
pub mod flow_map;
pub mod geo;
pub mod metric;
pub mod resolv;
pub mod service;
pub mod store;
pub mod time_util;
pub mod util;
