//! Ancillary data for Unix domain stream sockets: the control-message
//! buffer codec, and the decisions around one non-blocking send or receive.

pub mod abi;
pub mod ancillary;
pub mod cmsg;
pub mod laws;
pub mod stream;
pub mod wire;
