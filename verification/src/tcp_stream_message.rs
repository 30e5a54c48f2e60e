//! The control messages the multiplexer's single loop consumes. The
//! socket itself stays outside this crate: a connect here carries only
//! the peer's address, and the caller pairs it with the socket it owns.
use vstd::prelude::*;

verus! {

#[derive(Debug)]
pub enum TcpStreamMessage {
    Connect(String),
    Disconnect(String),
    Write(String, Vec<u8>),
    Read(String, Vec<u8>),
    WriteAll(Vec<u8>),
}

} // verus!
