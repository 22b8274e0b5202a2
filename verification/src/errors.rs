//! The decoder's error taxonomy. Every failure is terminal for one decode
//! call: nothing is retried, skipped or partially decoded.

use vstd::prelude::*;

verus! {

/// Why a header could not be turned into a signal registry.
#[derive(Debug, Clone, PartialEq, Eq)]
pub enum HeaderFault {
    /// The header text could not be parsed; carries the parser's message.
    Unparsable(String),
    /// A catalog signal was declared wider than the 32 bits the decoder
    /// supports; carries the catalog slot and the declared width.
    WidthTooWide { slot: usize, width: u32 },
    /// A catalog signal's identifier token is longer than any identifier a
    /// conforming trace can carry; carries the catalog slot.
    OversizedIdentifier { slot: usize },
}

/// Why the change log was rejected mid-stream.
#[derive(Debug, Clone, PartialEq, Eq)]
pub enum TraceFault {
    /// A change-log entry could not be parsed at all; carries the parser's
    /// message.
    Malformed(String),
    /// A scalar change arrived for a tracked signal that was not declared
    /// one bit wide.
    ScalarWidthMismatch { slot: usize, width: u32 },
    /// A vector change arrived whose length differs from the tracked
    /// signal's declared width.
    VectorWidthMismatch { slot: usize, width: u32, got: usize },
    /// A change event carries an identifier token longer than any token a
    /// conforming trace can produce.
    OversizedIdentifier,
}

/// A terminal failure of one decode call.
#[derive(Debug, Clone, PartialEq, Eq)]
pub enum DecodeError {
    /// The input could not be read at all; carries the surrounding I/O
    /// layer's message. The decoder itself never produces this: it exists
    /// for callers that acquire the trace bytes.
    FileUnavailable(String),
    /// The header could not be parsed or declares an unusable signal.
    HeaderMalformed(HeaderFault),
    /// A required catalog path is absent from the header's namespace;
    /// carries the catalog slot whose path was not resolved.
    MissingSignal(usize),
    /// The change log holds a malformed entry.
    TraceCorrupt(TraceFault),
}

} // verus!
