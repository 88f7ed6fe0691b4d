//! A length-prefixed, message-oriented rendezvous protocol library.
//!
//! The library holds everything about the protocol that can be stated and
//! proved: the wire codec (a fixed JSON shape inside a two-byte length-prefixed
//! frame), the per-connection intake state machine, the pairing dispatcher's
//! decision rules, and the two-party session exchange rules. The surrounding
//! program supplies the transport: it reads and writes sockets, and feeds every
//! received frame and every send outcome through the step functions here.

pub mod frame;
pub mod request;
pub mod response;
pub mod codec;
pub mod machine;
