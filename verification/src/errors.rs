use vstd::prelude::*;

verus! {

/// Every failure the library reports. Transport failures (`ConnectionError`,
/// `CommandError`) arise only at the boundary to a real store; the in-memory
/// operations themselves never produce them.
#[derive(Clone, Copy, Debug, PartialEq, Eq, Structural)]
pub enum Error {
    /// The store endpoint was unreachable or rejected the handshake.
    ConnectionError,
    /// The store rejected or failed a command.
    CommandError,
    /// A due-date string or a stored record field was malformed.
    ParseError,
    /// An index entry had no corresponding record.
    ItemMissing,
    /// A user-supplied ordinal was zero or beyond the current list length.
    NoSuchOrdinal,
}

} // verus!
