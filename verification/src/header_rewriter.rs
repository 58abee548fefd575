//! The stream-rewriting state machine: it buffers the first packet (the
//! Opus identification header), parses and rewrites it together with the
//! second (the comment header), and passes every further packet through
//! unchanged. The caller performs the queued writes and may stop after
//! `HeadersUnchanged`, discarding partial output.
use vstd::prelude::*;

use crate::bytes::{bytes_equal, clone_bytes};
use crate::comment_header::{
    spec_has_comment_magic, spec_parse_body, spec_serialize, CommentHeader, CommentHeaderModel,
};
use crate::error::Error;
use crate::opus_header::{is_opus_header, OpusHeader};

verus! {

/// One Ogg packet as handed over by the container layer: opaque bytes plus
/// their placement in the stream.
#[derive(Debug)]
pub struct Packet {
    pub data: Vec<u8>,
    pub stream_serial: u32,
    pub absgp_page: u64,
    pub last_in_page: bool,
    pub last_in_stream: bool,
}

/// The mathematical form of a packet.
pub struct PacketModel {
    pub data: Seq<u8>,
    pub stream_serial: u32,
    pub absgp_page: u64,
    pub last_in_page: bool,
    pub last_in_stream: bool,
}

impl View for Packet {
    type V = PacketModel;

    open spec fn view(&self) -> PacketModel {
        PacketModel {
            data: self.data@,
            stream_serial: self.stream_serial,
            absgp_page: self.absgp_page,
            last_in_page: self.last_in_page,
            last_in_stream: self.last_in_stream,
        }
    }
}

/// How a packet write ends a page or stream.
#[derive(Clone, Copy, Debug, PartialEq, Eq, Structural)]
pub enum PacketWriteEndInfo {
    NormalPacket,
    EndPage,
    EndStream,
}

/// The end info a packet's flags call for.
pub open spec fn spec_end_info(p: PacketModel) -> PacketWriteEndInfo {
    if p.last_in_stream {
        PacketWriteEndInfo::EndStream
    } else if p.last_in_page {
        PacketWriteEndInfo::EndPage
    } else {
        PacketWriteEndInfo::NormalPacket
    }
}

/// One pending write for the container layer: bytes, stream serial, end
/// info and absolute granule position.
#[derive(Debug)]
pub struct PacketWrite {
    pub data: Vec<u8>,
    pub stream_serial: u32,
    pub end_info: PacketWriteEndInfo,
    pub absgp_page: u64,
}

/// The mathematical form of a pending write.
pub struct PacketWriteModel {
    pub data: Seq<u8>,
    pub stream_serial: u32,
    pub end_info: PacketWriteEndInfo,
    pub absgp_page: u64,
}

impl View for PacketWrite {
    type V = PacketWriteModel;

    open spec fn view(&self) -> PacketWriteModel {
        PacketWriteModel {
            data: self.data@,
            stream_serial: self.stream_serial,
            end_info: self.end_info,
            absgp_page: self.absgp_page,
        }
    }
}

/// The write that passes a packet through unchanged.
pub open spec fn spec_write_of(p: PacketModel) -> PacketWriteModel {
    PacketWriteModel {
        data: p.data,
        stream_serial: p.stream_serial,
        end_info: spec_end_info(p),
        absgp_page: p.absgp_page,
    }
}

/// The write models of a queue of pending writes.
pub open spec fn write_models(s: Seq<PacketWrite>) -> Seq<PacketWriteModel> {
    s.map_values(|w: PacketWrite| w@)
}

/// The result of submitting a packet.
#[derive(Debug)]
pub enum SubmitResult<S> {
    /// Packet accepted; keep feeding the stream.
    Good,
    /// The two headers were parsed and the transform left their bytes as
    /// they were; the caller may stop and discard partial output.
    HeadersUnchanged(S),
    /// The headers were rewritten from `from` to `to`; the output is now
    /// authoritative.
    HeadersChanged { from: S, to: S },
}

/// A transform of the two header packets of an Ogg Opus stream. Its spec
/// functions say exactly what `summarize` and `rewrite` do, so the
/// rewriter's own contract can speak about any transform.
pub trait HeaderRewrite: Sized {
    /// What `summarize` reports about a pair of headers.
    type Summary: View;

    /// Whether the transform's configuration is complete, independent of
    /// any header: a rewrite may only be asked for with a complete
    /// configuration.
    spec fn spec_config_ok(&self) -> bool;

    /// The summary of the headers, mathematically.
    spec fn spec_summary(&self, opus: Seq<u8>, comment: CommentHeaderModel) -> <Self::Summary as View>::V;

    /// Whether the rewrite succeeds on these headers.
    spec fn spec_rewrite_ok(&self, opus: Seq<u8>, comment: CommentHeaderModel) -> bool;

    /// The rewritten identification-header bytes.
    spec fn spec_rewritten_opus(&self, opus: Seq<u8>, comment: CommentHeaderModel) -> Seq<u8>;

    /// The rewritten comment header.
    spec fn spec_rewritten_comment(&self, opus: Seq<u8>, comment: CommentHeaderModel) -> CommentHeaderModel;

    /// The error raised when the rewrite fails.
    spec fn spec_rewrite_err(&self, opus: Seq<u8>, comment: CommentHeaderModel) -> Error;

    /// Reports the headers' summary without changing them.
    fn summarize(&self, opus_header: &OpusHeader, comment_header: &CommentHeader) -> (r: Result<
        Self::Summary,
        Error,
    >)
        requires
            opus_header.wf(),
            comment_header.wf(),
        ensures
            r matches Ok(s) && s@ == self.spec_summary(opus_header@, comment_header@),
    ;

    /// Rewrites the headers in place.
    fn rewrite(&self, opus_header: &mut OpusHeader, comment_header: &mut CommentHeader) -> (r:
        Result<(), Error>)
        requires
            self.spec_config_ok(),
            old(opus_header).wf(),
            old(comment_header).wf(),
        ensures
            final(opus_header).wf(),
            final(comment_header).wf(),
            self.spec_rewrite_ok(old(opus_header)@, old(comment_header)@) ==> r == Ok::<(), Error>(
                (),
            ) && final(opus_header)@ == self.spec_rewritten_opus(
                old(opus_header)@,
                old(comment_header)@,
            ) && final(comment_header)@ == self.spec_rewritten_comment(
                old(opus_header)@,
                old(comment_header)@,
            ),
            !self.spec_rewrite_ok(old(opus_header)@, old(comment_header)@) ==> r == Err::<
                (),
                Error,
            >(self.spec_rewrite_err(old(opus_header)@, old(comment_header)@)),
    ;
}

/// The error `submit` raises on the header pair, if any.
pub open spec fn spec_headers_error<HR: HeaderRewrite>(hr: HR, hd: Seq<u8>, cd: Seq<u8>) -> Option<
    Error,
> {
    if !is_opus_header(hd) {
        Some(Error::MissingOpusStream)
    } else if !spec_has_comment_magic(cd) {
        Some(Error::MissingCommentHeader)
    } else if spec_parse_body(cd.skip(8)) is None {
        Some(Error::MalformedCommentHeader)
    } else if !hr.spec_rewrite_ok(hd, spec_parse_body(cd.skip(8))->Some_0) {
        Some(hr.spec_rewrite_err(hd, spec_parse_body(cd.skip(8))->Some_0))
    } else {
        None
    }
}

/// Whether the transform changed the header bytes: the rewritten
/// identification header differs, or the rewritten comment header no longer
/// serializes to the original packet.
pub open spec fn spec_headers_changed<HR: HeaderRewrite>(hr: HR, hd: Seq<u8>, cd: Seq<u8>) -> bool {
    let m = spec_parse_body(cd.skip(8))->Some_0;
    hr.spec_rewritten_opus(hd, m) != hd || spec_serialize(hr.spec_rewritten_comment(hd, m)) != cd
}

/// The state of the rewriter.
#[derive(Clone, Copy, Debug, PartialEq, Eq, Structural)]
pub enum RewriterState {
    AwaitingHeader,
    AwaitingComments,
    Forwarding,
}

/// Rewrites the two header packets of an Ogg Opus stream and passes every
/// other packet through unchanged, in order.
#[derive(Debug)]
pub struct HeaderRewriter<HR: HeaderRewrite> {
    transform: HR,
    state: RewriterState,
    header_packet: Option<Packet>,
    queue: Vec<PacketWrite>,
}

impl<HR: HeaderRewrite> HeaderRewriter<HR> {
    /// The transform this rewriter applies.
    pub closed spec fn spec_transform(&self) -> HR {
        self.transform
    }

    /// The state of the packet machine.
    pub closed spec fn spec_state(&self) -> RewriterState {
        self.state
    }

    /// The buffered identification-header packet, while waiting for the
    /// comment packet.
    pub closed spec fn spec_header_packet(&self) -> Option<PacketModel> {
        match self.header_packet {
            Some(p) => Some(p@),
            None => None,
        }
    }

    /// The writes queued for the container layer.
    pub closed spec fn spec_pending(&self) -> Seq<PacketWriteModel> {
        write_models(self.queue@)
    }

    /// A header packet is buffered exactly while comments are awaited.
    pub open spec fn wf(&self) -> bool {
        self.spec_header_packet() is Some <==> self.spec_state() is AwaitingComments
    }

    /// A fresh rewriter applying `transform`.
    pub fn new(transform: HR) -> (r: HeaderRewriter<HR>)
        ensures
            r.spec_transform() == transform,
            r.spec_state() is AwaitingHeader,
            r.spec_pending() == Seq::<PacketWriteModel>::empty(),
            r.wf(),
    {
        let r = HeaderRewriter {
            transform,
            state: RewriterState::AwaitingHeader,
            header_packet: None,
            queue: Vec::new(),
        };
        proof {
            assert(r.spec_pending() =~= Seq::<PacketWriteModel>::empty());
        }
        r
    }

    /// Hands the queued writes over, in order, leaving the queue empty.
    pub fn take_pending_writes(&mut self) -> (r: Vec<PacketWrite>)
        ensures
            write_models(r@) == old(self).spec_pending(),
            final(self).spec_pending() == Seq::<PacketWriteModel>::empty(),
            final(self).spec_state() == old(self).spec_state(),
            final(self).spec_header_packet() == old(self).spec_header_packet(),
            final(self).spec_transform() == old(self).spec_transform(),
            old(self).wf() ==> final(self).wf(),
    {
        let mut out: Vec<PacketWrite> = Vec::new();
        core::mem::swap(&mut self.queue, &mut out);
        proof {
            assert(self.spec_pending() =~= Seq::<PacketWriteModel>::empty());
        }
        out
    }

    /// Feeds the next packet of the stream. The first is buffered; on the
    /// second, both headers are parsed, rewritten, and queued for writing,
    /// and the result says whether their bytes changed; every further
    /// packet is queued for writing exactly as it came in.
    pub fn submit(&mut self, packet: Packet) -> (r: Result<SubmitResult<HR::Summary>, Error>)
        requires
            old(self).wf(),
            old(self).spec_transform().spec_config_ok(),
        ensures
            final(self).wf(),
            final(self).spec_transform() == old(self).spec_transform(),
            old(self).spec_state() is AwaitingHeader ==> (r matches Ok(SubmitResult::Good))
                && final(self).spec_state() is AwaitingComments && final(self).spec_header_packet()
                == Some(packet@) && final(self).spec_pending() == old(self).spec_pending(),
            old(self).spec_state() is Forwarding ==> (r matches Ok(SubmitResult::Good))
                && final(self).spec_state() is Forwarding && final(self).spec_pending() == old(
                self,
            ).spec_pending() + seq![spec_write_of(packet@)],
            old(self).spec_state() is AwaitingComments ==> final(self).spec_state() is Forwarding
                && ({
                let hr = old(self).spec_transform();
                let hd = old(self).spec_header_packet()->Some_0.data;
                let hp = old(self).spec_header_packet()->Some_0;
                let cd = packet@.data;
                match spec_headers_error(hr, hd, cd) {
                    Some(e) => r == Err::<SubmitResult<HR::Summary>, Error>(e) && final(self).spec_pending()
                        == old(self).spec_pending(),
                    None => {
                        let m = spec_parse_body(cd.skip(8))->Some_0;
                        let oh2 = hr.spec_rewritten_opus(hd, m);
                        let cm2 = hr.spec_rewritten_comment(hd, m);
                        &&& final(self).spec_pending() == old(self).spec_pending() + seq![
                            PacketWriteModel {
                                data: oh2,
                                stream_serial: hp.stream_serial,
                                end_info: spec_end_info(hp),
                                absgp_page: hp.absgp_page,
                            },
                            PacketWriteModel {
                                data: spec_serialize(cm2),
                                stream_serial: packet@.stream_serial,
                                end_info: spec_end_info(packet@),
                                absgp_page: packet@.absgp_page,
                            },
                        ]
                        &&& spec_headers_changed(hr, hd, cd) ==> (r matches Ok(
                            SubmitResult::HeadersChanged { from, to },
                        ) && from@ == hr.spec_summary(hd, m) && to@ == hr.spec_summary(oh2, cm2))
                        &&& !spec_headers_changed(hr, hd, cd) ==> (r matches Ok(
                            SubmitResult::HeadersUnchanged(s),
                        ) && s@ == hr.spec_summary(hd, m))
                    },
                }
            }),
    {
        match self.state {
            RewriterState::AwaitingHeader => {
                self.header_packet = Some(packet);
                self.state = RewriterState::AwaitingComments;
                Ok(SubmitResult::Good)
            },
            RewriterState::Forwarding => {
                let ghost prev = self.queue@;
                let write = PacketWrite {
                    end_info: end_info_of(packet.last_in_stream, packet.last_in_page),
                    stream_serial: packet.stream_serial,
                    absgp_page: packet.absgp_page,
                    data: packet.data,
                };
                self.queue.push(write);
                proof {
                    assert(write_models(self.queue@) =~= write_models(prev) + seq![spec_write_of(
                        packet@,
                    )]);
                }
                Ok(SubmitResult::Good)
            },
            RewriterState::AwaitingComments => {
                self.state = RewriterState::Forwarding;
                let mut taken: Option<Packet> = None;
                core::mem::swap(&mut self.header_packet, &mut taken);
                let hp = match taken {
                    Some(p) => p,
                    None => {
                        proof {
                            assert(false);
                        }
                        return Err(Error::MissingOpusStream);
                    },
                };
                let Packet {
                    data: hp_data,
                    stream_serial: hp_serial,
                    absgp_page: hp_absgp,
                    last_in_page: hp_lip,
                    last_in_stream: hp_lis,
                } = hp;
                let ghost hd = hp_data@;
                let ghost cd = packet@.data;
                let cd_orig = clone_bytes(&packet.data);
                let hd_orig = clone_bytes(&hp_data);
                let mut opus_header = match OpusHeader::try_parse(hp_data) {
                    Ok(h) => h,
                    Err(e) => {
                        return Err(e);
                    },
                };
                let mut comment_header = match CommentHeader::try_parse(&packet.data) {
                    Ok(Some(h)) => h,
                    Ok(None) => {
                        return Err(Error::MissingCommentHeader);
                    },
                    Err(e) => {
                        return Err(e);
                    },
                };
                let summary_before = match self.transform.summarize(&opus_header, &comment_header)
                {
                    Ok(s) => s,
                    Err(e) => {
                        proof {
                            assert(false);
                        }
                        return Err(e);
                    },
                };
                if let Err(e) = self.transform.rewrite(&mut opus_header, &mut comment_header) {
                    return Err(e);
                }
                let summary_after = match self.transform.summarize(&opus_header, &comment_header) {
                    Ok(s) => s,
                    Err(e) => {
                        proof {
                            assert(false);
                        }
                        return Err(e);
                    },
                };
                let new_opus_data = opus_header.into_data();
                let new_comment_data = comment_header.serialize();
                let changed = !bytes_equal(&new_opus_data, &hd_orig) || !bytes_equal(
                    &new_comment_data,
                    &cd_orig,
                );
                let ghost prev = self.queue@;
                let opus_write = PacketWrite {
                    end_info: end_info_of(hp_lis, hp_lip),
                    stream_serial: hp_serial,
                    absgp_page: hp_absgp,
                    data: new_opus_data,
                };
                self.queue.push(opus_write);
                let comment_write = PacketWrite {
                    end_info: end_info_of(packet.last_in_stream, packet.last_in_page),
                    stream_serial: packet.stream_serial,
                    absgp_page: packet.absgp_page,
                    data: new_comment_data,
                };
                let ghost ow = opus_write@;
                self.queue.push(comment_write);
                proof {
                    assert(write_models(self.queue@) =~= write_models(prev) + seq![
                        ow,
                        comment_write@,
                    ]);
                }
                if changed {
                    Ok(SubmitResult::HeadersChanged { from: summary_before, to: summary_after })
                } else {
                    Ok(SubmitResult::HeadersUnchanged(summary_before))
                }
            },
        }
    }
}

/// The end info for a packet with the given flags.
fn end_info_of(last_in_stream: bool, last_in_page: bool) -> (r: PacketWriteEndInfo)
    ensures
        last_in_stream ==> r == PacketWriteEndInfo::EndStream,
        !last_in_stream && last_in_page ==> r == PacketWriteEndInfo::EndPage,
        !last_in_stream && !last_in_page ==> r == PacketWriteEndInfo::NormalPacket,
{
    if last_in_stream {
        PacketWriteEndInfo::EndStream
    } else if last_in_page {
        PacketWriteEndInfo::EndPage
    } else {
        PacketWriteEndInfo::NormalPacket
    }
}

} // verus!
