//! A small user-space TCP/IP stack: IPv4 and TCP header codecs, the per-flow
//! connection state machine, and the table that multiplexes many flows over
//! one point-to-point interface.
//!
//! The library performs no I/O. Frames come in as byte slices and go out as
//! byte vectors; the caller owns the interface and the clock.

pub mod addr;
pub mod checksum;
pub mod connection;
pub mod ipv4;
pub mod listener;
pub mod manager;
pub mod tcp;
pub mod utils;
