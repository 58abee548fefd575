//! Control logic of the loudness analyzer: the packet state machine and
//! the channel rules of BS.1770 measurement. The floating-point decoding
//! and metering are the embedder's; this module tells it what each packet
//! is and how to scale the summed channel powers.
use vstd::prelude::*;

use crate::bytes::clone_bytes;
use crate::comment_header::{spec_has_comment_magic, spec_parse_body, CommentHeader};
use crate::error::Error;
use crate::opus_header::{is_opus_header, OpusHeader};

verus! {

/// Opus is decoded at 48 kHz regardless of the input sampling rate.
pub const OPUS_DECODE_SAMPLE_RATE: usize = 48000;

/// The longest Opus packet lasts 120 ms (RFC 6716), which bounds the
/// decode scratch buffer.
pub const OPUS_MAX_PACKET_DURATION_MS: usize = 120;

/// Validates a channel count for analysis: only mono and stereo streams
/// are measured.
pub fn validate_channel_count(n: usize) -> (r: Result<(), Error>)
    ensures
        n == 1 || n == 2 ==> r == Ok::<(), Error>(()),
        !(n == 1 || n == 2) ==> r == Err::<(), Error>(Error::InvalidChannelCount(n)),
{
    if n == 1 || n == 2 {
        Ok(())
    } else {
        Err(Error::InvalidChannelCount(n))
    }
}

/// The factor the summed per-channel powers of a 100 ms window are scaled
/// by: a mono file is reproduced on both speakers, so its power counts
/// twice; stereo is taken as it is.
pub fn channel_power_scale(channel_count: usize) -> (r: Result<usize, Error>)
    ensures
        channel_count == 1 ==> r == Ok::<usize, Error>(2),
        channel_count == 2 ==> r == Ok::<usize, Error>(1),
        !(channel_count == 1 || channel_count == 2) ==> r == Err::<usize, Error>(
            Error::InvalidChannelCount(channel_count),
        ),
{
    if channel_count == 1 {
        Ok(2)
    } else if channel_count == 2 {
        Ok(1)
    } else {
        Err(Error::InvalidChannelCount(channel_count))
    }
}

/// Where the analyzer stands within one stream.
#[derive(Clone, Copy, Debug, PartialEq, Eq, Structural)]
pub enum AnalyzerPhase {
    AwaitingHeader,
    AwaitingComments,
    Analyzing,
}

/// What the embedder must do with the packet it just submitted.
#[derive(Clone, Copy, Debug, PartialEq, Eq, Structural)]
pub enum AnalyzerAction {
    /// The identification header: construct a 48 kHz decoder with this
    /// channel count.
    ConfigureDecoder { channel_count: usize },
    /// The comment header was validated; there is nothing to decode.
    CommentsValidated,
    /// An audio packet: decode it and feed each channel's samples to its
    /// loudness meter.
    DecodePacket,
}

/// The packet state machine of the analyzer: identification header, then
/// comment header, then audio. `file_complete` resets it so one analyzer
/// can measure many files in sequence.
#[derive(Debug)]
pub struct AnalyzerControl {
    phase: AnalyzerPhase,
}

impl AnalyzerControl {
    /// The current phase.
    pub closed spec fn spec_phase(&self) -> AnalyzerPhase {
        self.phase
    }

    /// A fresh analyzer control, awaiting the identification header.
    pub fn new() -> (r: AnalyzerControl)
        ensures
            r.spec_phase() is AwaitingHeader,
    {
        AnalyzerControl { phase: AnalyzerPhase::AwaitingHeader }
    }

    /// Classifies the next packet of the stream and says what to do with
    /// it; on an error the phase is left as it was and the stream must be
    /// abandoned.
    pub fn submit(&mut self, packet_data: &Vec<u8>) -> (r: Result<AnalyzerAction, Error>)
        ensures
            old(self).spec_phase() is AwaitingHeader ==> ({
                let d = packet_data@;
                &&& !is_opus_header(d) ==> r == Err::<AnalyzerAction, Error>(
                    Error::MissingOpusStream,
                ) && final(self).spec_phase() == old(self).spec_phase()
                &&& is_opus_header(d) && !(d[9] == 1 || d[9] == 2) ==> r == Err::<
                    AnalyzerAction,
                    Error,
                >(Error::InvalidChannelCount(d[9] as usize))
                    && final(self).spec_phase() == old(self).spec_phase()
                &&& is_opus_header(d) && (d[9] == 1 || d[9] == 2) ==> r == Ok::<
                    AnalyzerAction,
                    Error,
                >((AnalyzerAction::ConfigureDecoder { channel_count: d[9] as usize }))
                    && final(self).spec_phase() is AwaitingComments
            }),
            old(self).spec_phase() is AwaitingComments ==> ({
                let d = packet_data@;
                &&& !spec_has_comment_magic(d) ==> r == Err::<AnalyzerAction, Error>(
                    Error::MissingCommentHeader,
                ) && final(self).spec_phase() == old(self).spec_phase()
                &&& spec_has_comment_magic(d) && spec_parse_body(d.skip(8)) is None ==> r == Err::<
                    AnalyzerAction,
                    Error,
                >(Error::MalformedCommentHeader)
                    && final(self).spec_phase() == old(self).spec_phase()
                &&& spec_has_comment_magic(d) && spec_parse_body(d.skip(8)) is Some ==> r == Ok::<
                    AnalyzerAction,
                    Error,
                >(AnalyzerAction::CommentsValidated) && final(self).spec_phase() is Analyzing
            }),
            old(self).spec_phase() is Analyzing ==> r == Ok::<AnalyzerAction, Error>(
                AnalyzerAction::DecodePacket,
            ) && final(self).spec_phase() is Analyzing,
    {
        match self.phase {
            AnalyzerPhase::AwaitingHeader => {
                let data = clone_bytes(packet_data);
                let header = match OpusHeader::try_parse(data) {
                    Ok(h) => h,
                    Err(e) => {
                        return Err(e);
                    },
                };
                let channel_count = header.num_output_channels();
                if let Err(e) = validate_channel_count(channel_count) {
                    return Err(e);
                }
                self.phase = AnalyzerPhase::AwaitingComments;
                Ok(AnalyzerAction::ConfigureDecoder { channel_count })
            },
            AnalyzerPhase::AwaitingComments => {
                match CommentHeader::try_parse(packet_data) {
                    Ok(Some(_)) => {
                        self.phase = AnalyzerPhase::Analyzing;
                        Ok(AnalyzerAction::CommentsValidated)
                    },
                    Ok(None) => Err(Error::MissingCommentHeader),
                    Err(e) => Err(e),
                }
            },
            AnalyzerPhase::Analyzing => Ok(AnalyzerAction::DecodePacket),
        }
    }

    /// Marks the current file as finished: the next packet must again be
    /// an identification header.
    pub fn file_complete(&mut self)
        ensures
            final(self).spec_phase() is AwaitingHeader,
    {
        self.phase = AnalyzerPhase::AwaitingHeader;
    }
}

} // verus!
