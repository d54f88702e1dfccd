//! A client for a text-based message-queue protocol in the manner of STOMP:
//! frames and their wire format, messages, and the client's side of a
//! session with a broker.

pub mod connection;
pub mod escape;
pub mod frame;
pub mod headers;
pub mod malformed;
pub mod message;
pub mod misc;
pub mod number;
pub mod parse;
pub mod roundtrip;
pub mod text;

pub use connection::Connection;
pub use message::Message;
pub use misc::ErrorKind;
pub use misc::StompError;
