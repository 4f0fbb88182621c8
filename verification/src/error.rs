use vstd::prelude::*;

verus! {

/// Why the processing of one fixture stopped.
///
/// Every failure ends the work on the current fixture; nothing is retried.
#[derive(Debug, Clone, PartialEq, Eq)]
pub enum QueryError {
    /// The fixture path names no file.
    InvalidFixturePath,
    /// The stem does not match the stem grammar, or a block number does not
    /// fit in 64 bits.
    MalformedStem,
    /// The stem names a filter but its descriptor is absent or is not a JSON
    /// object.
    MissingOrMalformedFilterFile,
    /// The descriptor's address is not a string, or not a field element in
    /// hexadecimal.
    InvalidAddress,
    /// The descriptor's `keys` is not an array of arrays of strings.
    UnexpectedKeyType,
    /// An alternative set of the descriptor holds a string that is not a field
    /// element in hexadecimal.
    InvalidKey,
    /// A fixture line or a transport event is not a JSON object.
    MalformedEvent,
    /// An event's `from_address` is not a string, or its `keys` is not an
    /// array of strings, where that shape is needed.
    UnexpectedFieldType,
    /// The transport failed.
    TransportError,
    /// The node reorganised its chain while events were streamed.
    ReorgEncountered { starting_block_number: u64, ending_block_number: u64 },
    /// A streamed event carries no block number.
    MissingBlockNumber,
    /// The retrieved events differ from the fixture. `index` is the first
    /// position at which they differ; a side that ended before that position
    /// is `None`.
    VerificationMismatch { index: usize, actual: Option<String>, expected: Option<String> },
}

} // verus!
