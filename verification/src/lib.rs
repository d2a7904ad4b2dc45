//! Core of a node in a message-passing cluster test harness: typed node
//! identities and message envelopes, the line-oriented wire codec, fallible
//! narrowing of generic messages to concrete kinds, and the startup
//! handshake that derives cluster membership from the first message.
pub mod codec;
pub mod encode;
pub mod decode;
pub mod handshake;
pub mod laws;
pub mod message;
pub mod node_id;

pub use message::EchoBody;
pub use message::EchoOkBody;
pub use message::InitBody;
pub use message::InitOkBody;
pub use message::Message;
pub use message::MessageBody;
pub use message::NarrowError;
pub use node_id::NodeId;
pub use node_id::NodeIdParseError;
