//! The single error kind of the bus core.

use vstd::prelude::*;

verus! {

/// Returned when an address has no owning range, or when an offset/length
/// pair falls outside the addressed device's storage bounds. Nested
/// dispatch failures propagate the innermost `InvalidAccess` unchanged.
#[derive(Clone, Copy, Debug, PartialEq, Eq, Structural)]
pub enum Error {
    InvalidAccess,
}

} // verus!
