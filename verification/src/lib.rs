//! A TCP port-reachability scanner's decision core.
//!
//! The library holds everything a scan decides: which address and range are
//! acceptable, which ports are admitted and when, what is sent to a freshly
//! opened connection, how the bytes that come back become a banner, and what
//! is printed. It performs no I/O itself: a driver connects, writes, reads and
//! prints, and hands each result back to the library.

pub mod address;
pub mod banner;
pub mod dispatch;
pub mod report;
pub mod service;
pub mod target;
pub mod text;
pub mod trace;
