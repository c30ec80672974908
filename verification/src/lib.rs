//! Core of a TCP reverse proxy: backend selection with load accounting, the
//! per-direction transfer buffer, and the decisions of the duplex relay.

pub mod buffer;
pub mod direction;
pub mod load_balancer;
pub mod relay;
pub mod rotation;
