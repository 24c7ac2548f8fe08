//! Verified core of a batch image-transfer client.
//!
//! Every (file, server) pair is one independent session: the client announces
//! the file's name, waits for an acknowledgment, uploads the file, downloads
//! the transformed artifact and stores it under a name of its own. This crate
//! holds the decisions of that pipeline (wire framing, the exchange and retry
//! state machines, task planning, output naming and the final statistics) as
//! verified functions on plain values. Sockets, files, clocks and task
//! scheduling belong to the program that drives it.

pub mod decoding;
pub mod dispatch;
pub mod exchange;
pub mod files;
pub mod framing;
pub mod metrics;
pub mod naming;
pub mod paths;
pub mod session;
pub mod text;
pub mod transfer;
