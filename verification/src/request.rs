//! Errors of the receive direction.

use vstd::prelude::*;

verus! {

/// Why a receive failed: the transport itself (`IO`), a body that is not
/// UTF-8 (`Utf8`), or a body that is not a legal encoding of any message
/// (`Json`).
#[derive(Clone, Copy, Debug, PartialEq, Eq, Structural)]
pub enum Error {
    IO,
    Utf8,
    Json,
}

} // verus!
