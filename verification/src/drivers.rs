//! The protocol drivers.

pub mod memcached;
pub mod noop;
