//! Core logic of a tile server: backend dispatch with a bounded connection
//! pool, a cache-aside tile service over pluggable tile stores, and a bulk
//! populator that seeds a remote store under bounded concurrency with retry.

pub mod api;
pub mod bytes;
pub mod compress;
pub mod fcgi;
pub mod fcgi_parse;
pub mod populate;
pub mod routing;
pub mod service;
pub mod store;
pub mod tile;
pub mod tilesource;

pub use tile::Xyz;
