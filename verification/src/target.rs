//! What is fixed about the program when it is built.
use vstd::prelude::*;

verus! {

/// The order in which the bytes of a number stand in memory.
#[derive(Clone, Copy, Debug, PartialEq, Eq, Structural)]
pub enum ByteOrder {
    /// The least significant byte comes first.
    Little,
    /// The most significant byte comes first.
    Big,
}

/// What is fixed about the program when it is built.
#[derive(Clone, Copy, Debug, PartialEq, Eq, Structural)]
pub struct Target {
    /// The byte order of the host.
    pub byte_order: ByteOrder,
    /// Whether callers are held to the assertions of a debug build.
    pub debug_assertions: bool,
}

} // verus!
