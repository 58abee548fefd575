//! Error kinds surfaced by the stream-rewriting core.
use vstd::prelude::*;

verus! {

/// Failure to decode an escaped string.
#[derive(Clone, Copy, Debug, PartialEq, Eq, Structural)]
pub enum EscapeDecodeError {
    /// The input ended with a lone backslash.
    TrailingBackslash,
    /// The given byte followed a backslash but is not one of `0`, `n`, `r`, `\`.
    InvalidEscape(u8),
}

/// Errors surfaced by the header codecs, transforms and the stream rewriter.
#[derive(Clone, Copy, Debug, PartialEq, Eq, Structural)]
pub enum Error {
    /// The first packet of the stream does not carry an `OpusHead` header.
    MissingOpusStream,
    /// The second packet of the stream does not carry an `OpusTags` header.
    MissingCommentHeader,
    /// The comment packet's declared layout runs past its data or an entry
    /// is not a well-formed `KEY=VALUE` pair.
    MalformedCommentHeader,
    /// A comment key is empty or contains a byte outside printable ASCII
    /// (or the `=` separator).
    InvalidCommentFieldName,
    /// Fixed-point gain arithmetic left the representable Q7.8 range.
    GainOutOfBounds,
    /// The loudness analyzer accepts only mono and stereo streams.
    InvalidChannelCount(usize),
    /// A comment entry or the entry count cannot be represented in the
    /// 32-bit length fields of the comment-header layout.
    CommentHeaderTooLarge,
    /// Failure to decode an escaped string.
    EscapeDecode(EscapeDecodeError),
}

} // verus!
