//! The identity and session protocol of a server that hands out generated
//! messages, and the state behind it.
//!
//! A message is a named graph of rooms. A client holds the identifier of one
//! room in a cookie that is accepted for ten seconds, reads the room that
//! the identifier names and moves from it to a neighbour. Messages are kept
//! in a bounded cache or in a distributed store whose records expire.
//!
//! Nothing here reads a socket or waits for a service. A request is a value
//! that says what it needs next: a command for the store, the cookie of the
//! session, the message to be generated. The caller fetches it and hands it
//! back, until the request ends with its response.

pub mod clock;
pub mod configuration;
pub mod messages;
pub mod store;
pub mod text;
