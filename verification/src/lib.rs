//! Peer session and replicated message-list core of a serverless chat.

pub mod handshake;
pub mod keys;
pub mod listing;
pub mod record;
pub mod session;
pub mod store;
pub mod transport;
