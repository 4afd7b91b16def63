//! A minimal HTTP/1.1 server core: request framing, response serialisation,
//! routing decisions and the per-connection reader and writer state machines.

pub mod listener;
pub mod options;
