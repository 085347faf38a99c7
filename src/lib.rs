//! An encrypted UDP tunnel: authenticated encryption with explicit nonces,
//! the wire codec of tunnel messages, the handshake that hands out a virtual
//! address and a session token, the server's address pool and session table,
//! and the decisions of the forwarding loops of client and server.
//!
//! Choices that the protocol leaves open are settled here as follows.
//! - Each frame carries its nonce in the clear ahead of the sealed message, so a
//!   receiver opens every frame on its own, whatever was lost or reordered before it.
//! - Sessions expire a fixed time after their last use; the server sweeps them from its
//!   loop, and a swept session's host number goes back to the pool.
//! - A host number is never handed out while a live session holds it; when all are
//!   held, further requests are dropped.

pub mod addr;
pub mod client;
pub mod crypto;
pub mod device;
pub mod error;
pub mod frame;
pub mod message;
pub mod route;
pub mod server;
pub mod sessions;
