//! Errors of the send direction.

use vstd::prelude::*;

verus! {

/// Why a send failed: the transport itself (`IO`), a serialization failure
/// (`Json`, which the verified encoder never produces), or a body longer than
/// a frame's length header can carry (`Overflow`).
#[derive(Clone, Copy, Debug, PartialEq, Eq, Structural)]
pub enum Error {
    IO,
    Json,
    Overflow,
}

} // verus!
