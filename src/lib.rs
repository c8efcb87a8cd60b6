//! Upstream management for a reverse proxy: backend pools with health
//! tracking, backend selection strategies, request rewrite plans and a
//! registry of upstreams that is replaced as a whole on reload.

pub mod config;
pub mod health;
pub mod probe;
pub mod select;
pub mod upstream;
pub mod registry;
