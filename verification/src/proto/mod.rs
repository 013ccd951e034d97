//! Speeduino serial communication: the Protocol 3 primary-serial framing
//! (big-endian length + payload + CRC32 trailer), command templates from
//! the INI, tune page operations, and the secondary-serial `r`/0x30 och
//! read. All I/O goes through the [`transport::Transport`] trait.

use vstd::prelude::*;

pub mod envelope;
pub mod command;
pub mod secondary;
pub mod transport;
pub mod session;
pub mod pages;

verus! {

/// `std::io::Error`, carried through from a transport failure.
#[verifier::external_type_specification]
#[verifier::external_body]
pub struct ExIoError(std::io::Error);

#[derive(Debug)]
pub enum ProtoError {
    /// A transport read or write failed.
    Io(std::io::Error),
    /// A command template could not be parsed or filled in.
    Template(String),
    /// The request needs a capability this connection lacks.
    Unsupported(&'static str),
    /// The ECU answered with a return code other than the accepted ones.
    EcuError(u8),
    /// A complete frame arrived whose CRC did not match.
    CrcMismatch,
    /// No complete response before the deadline.
    Timeout,
    /// The response carried a different number of bytes than requested.
    ShortResponse { expected: usize, got: usize },
}

} // verus!
