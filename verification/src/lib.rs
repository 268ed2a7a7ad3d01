//! Verified decision logic of the DeepSeek Harness desktop shell: log tails,
//! service log rotation and the redacted diagnostic bundle, plugin
//! compatibility gates and plugin rebinding, core compatibility records and
//! version adapters, the local control plane's catalog, argument and
//! profile-switch rules, the directory allow-list, the diagnostics command's
//! arguments, and the authenticated-URL handling of the embedded DSH web
//! service.

pub mod text;
pub mod versions;
pub mod logs;
pub mod order;
pub mod plugin_compat;
pub mod core_compat;
pub mod dsh_adapter;
pub mod url;
pub mod workflow;
pub mod rotation;
pub mod report;
pub mod cli;
pub mod guard;
pub mod rebind;
pub mod probes;
pub mod diagnostics;
pub mod distribution;
pub mod control;
