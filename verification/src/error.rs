use vstd::prelude::*;

verus! {

/// The ways in which an operation of this crate can fail.
#[derive(Clone, Copy, Debug, PartialEq, Eq, Structural)]
pub enum Error {
    /// The transport could not open a session, register a responder, a
    /// subscriber or a publisher, publish, or issue a query.
    Transport,
    /// A snapshot or a command could not be encoded or decoded.
    Codec,
    /// A workspace, a name or an instance identifier cannot form a valid
    /// topic path.
    Address,
    /// The snapshot query of a view got no reply within the configured bound.
    BootstrapTimeout,
}

} // verus!
