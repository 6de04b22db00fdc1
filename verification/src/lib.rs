//! Protocol core of a key-value server that speaks a line- and
//! length-prefixed wire format: the frame codec, the cursor that reads the
//! fields of a request, and the commands a request can name.

pub mod shim;
pub mod frame;
pub mod roundtrip;
pub mod server;
pub mod connection;
pub mod parse;
pub mod pubsub;
pub mod cmd;
