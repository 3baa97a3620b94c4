//! Error taxonomy of the writer.

use vstd::prelude::*;

verus! {

/// Errors surfaced by the writer and its components.
///
/// - `InvalidArgument`: a column's physical type is incompatible with its
///   declared field type, or counts (columns vs. fields) disagree, or a size
///   exceeds what the container format can index.
/// - `DictionaryMismatch`: a dictionary id was reused with different contents
///   while the tracker's policy forbids replacement.
/// - `SinkClosed`: an operation needs the byte sink but none is available
///   (a write is still in flight, the writer was closed, or a prior I/O
///   failure poisoned it).
/// - `IoFailure`: the transport reported an error; fatal to the stream.
#[derive(Clone, Copy, Debug, PartialEq, Eq, Structural)]
pub enum Error {
    InvalidArgument,
    DictionaryMismatch,
    SinkClosed,
    IoFailure,
}

} // verus!
