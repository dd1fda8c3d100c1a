//! The ways in which an operation of a node can fail.

use vstd::prelude::*;

verus! {

/// A failure of a node operation. None of them corrupts the node: an
/// operation that fails leaves the chain, the pool and the peers as they were.
#[derive(Debug, Clone, Copy, PartialEq, Eq, Structural)]
pub enum NodeError {
    /// A payload has no canonical encoding.
    SerializationFailure,
    /// A call to a peer failed or its answer could not be read.
    PeerUnreachable,
    /// A chain offered by a peer does not verify.
    InvalidChain,
    /// Mining was attempted on a chain without a tip.
    EmptyChain,
    /// A request lacks what its route needs, or its body cannot be read.
    MalformedRequest,
    /// A request names no route of the node.
    UnknownRoute,
    /// The previous proof of work is zero, so nothing is divisible by it.
    ZeroProof,
    /// The next index or proof of work does not fit in 64 bits.
    Overflow,
}

} // verus!
