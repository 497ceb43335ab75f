//! A chat tunnel that hides text messages in DNS TXT records.
//!
//! The crate holds the DNS wire codec, the chunker that maps chat messages
//! onto TXT character-strings, the length-prefixed framing used on a TCP
//! stream, the decision logic of the two peers (the responder that answers
//! queries with queued messages and the poller that harvests them), and the
//! state behind the chat window. Every function is verified against its
//! contract.
pub mod dns;
pub mod state;
pub mod transport;
