//! Errors of the library.
use vstd::prelude::*;
use crate::codec::CodecError;

verus! {

/// What went wrong, by kind.
#[derive(Debug, Clone, PartialEq, Eq)]
pub enum Error {
    /// An underlying socket or file failed.
    Io(String),
    /// Connecting to an upstream failed.
    Connection(String),
    /// An upstream asked for credentials that cannot be given.
    Authentication(String),
    /// A configuration file or field is invalid.
    Configuration(String),
    /// A probe could not be run.
    Test(String),
    Other(String),
    /// A deadline of the given milliseconds passed.
    Timeout(u64),
    /// The upstream refused or its handshake failed.
    ProxyConnection(String),
    /// A request through an upstream failed.
    Request(String),
    /// A value could not be encoded or decoded.
    Serialization(String),
    /// A SOCKS5 frame was malformed or unsupported.
    Protocol(CodecError),
    /// The pool already holds its maximum number of entries.
    Capacity(usize),
    /// No upstream is available.
    NoUpstream,
}

} // verus!
