//! Network core of a game server: the connection registry with its
//! client-to-player promotion rules, the per-connection keep-alive monitor,
//! and the plugin directory rules used at startup.

pub mod address;
pub mod keepalive;
pub mod registry;
pub mod reactor;
pub mod plugin;
