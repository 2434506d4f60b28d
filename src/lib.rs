//! Peer-to-peer conversation sync and language-model access brokering:
//! the wire codec, the peer registry, and the decisions of the inbound
//! connection handler and the outbound connector.
pub mod decimal;
pub mod codec;
pub mod registry;
pub mod handler;
pub mod outbound;
pub mod conversation;
pub mod chat;
pub mod assets;
