use vstd::prelude::*;

verus! {

/// The errors that the library's own logic raises.
#[derive(Debug, Clone, Copy, PartialEq, Eq, Structural)]
pub enum Error {
    /// No probe with the requested vendor and product id at the requested position.
    ProbeNotFound,
    /// The driver reported more payload bytes than the caller's buffer holds.
    InvalidPayloadLength,
}

} // verus!
