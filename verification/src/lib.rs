//! A minimal publish/subscribe broker for WebSocket connections.
//!
//! Clients send one-line text commands to subscribe to a named channel, to
//! leave it, or to publish a message to everybody currently subscribed. The
//! crate keeps the registry of open connections and the channel
//! subscriptions, and its contracts state exactly how each command changes
//! them.

pub mod codec;
pub mod error;
pub mod index;
pub mod model;
pub mod registry;
pub mod server;
pub mod session;
pub mod transport;

pub use codec::PubSubMessage;
pub use error::PubSubError;
pub use server::Server;
pub use session::ClientHandle;
