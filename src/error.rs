//! The engine's failure taxonomy.
use vstd::prelude::*;

verus! {

/// What went wrong, by kind.
#[derive(Debug, Clone, Copy, PartialEq, Eq, Structural)]
pub enum OrbitError {
    /// An object or a ref is absent.
    NotFound,
    /// Stored bytes do not match their identifier, or an object does not parse.
    Corrupt,
    /// An unexpected message, a bad length prefix, or a size mismatch.
    Protocol,
    /// Authentication was refused.
    Auth,
    /// The repository does not exist or may not be used.
    Access,
    /// The stream closed or an I/O operation failed.
    Transport,
    /// The operation's starting condition does not hold.
    Precondition,
}

} // verus!
