//! The loopback egress proxy: which hosts a fenced child may reach through it.
//!
//! The proxy admits `CONNECT` tunnels and `http://` forwards to the granted
//! hosts alone. What it decides stands here; sockets and threads belong to the
//! program around the library, which reports what happened and performs what
//! is decided.

pub mod accounts;
pub mod evidence;
pub mod laws;
pub mod ledger;
pub mod reading;
pub mod request;
pub mod session;
