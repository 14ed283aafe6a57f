//! Market-data forwarding library: topic naming, wire framing, the subscriber
//! registry and the configuration rules used by the `marketdata` binary.

pub mod broker;
pub mod config;
pub mod forward;
pub mod registry;
pub mod text;
