//! A request-multiplexing proxy core for a header-plus-JSON wire protocol:
//! many clients share one backend process, and the proxy disguises them as a
//! single peer by minting surrogate request ids and routing each reply back
//! to the client that owns it.

pub mod bytes;
pub mod message;
pub mod router;
pub mod session;
pub mod laws;
