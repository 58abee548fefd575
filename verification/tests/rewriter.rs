use zoog::comment_args::{parse_delete_comment_args, parse_new_comment_args};
use zoog::comment_header::CommentHeader;
use zoog::comment_rewriter::{CommentHeaderRewrite, CommentRewriterAction, CommentRewriterConfig};
use zoog::error::Error;
use zoog::escaping::escape_str;
use zoog::fixed_point_gain::FixedPointGain;
use zoog::header_rewriter::{HeaderRewriter, Packet, PacketWrite, PacketWriteEndInfo, SubmitResult};
use zoog::volume_analyzer::{AnalyzerAction, AnalyzerControl};
use zoog::volume_rewriter::{
    apply_clear_mode, resolve_output_gain_mode, OutputGainMode, VolumeHeaderRewrite,
    VolumeRewriterConfig, VolumeTarget, REPLAY_GAIN_LUFS, R128_LUFS,
};

fn b(s: &str) -> Vec<u8> {
    s.as_bytes().to_vec()
}

fn make_opus_header(channels: u8, gain: i16) -> Vec<u8> {
    let mut h = b"OpusHead".to_vec();
    h.push(1);
    h.push(channels);
    h.extend_from_slice(&312u16.to_le_bytes());
    h.extend_from_slice(&48000u32.to_le_bytes());
    h.extend_from_slice(&(gain as u16).to_le_bytes());
    h.push(0);
    h
}

fn make_comment_header(vendor: &[u8], entries: &[(&str, &str)]) -> Vec<u8> {
    let mut h = b"OpusTags".to_vec();
    h.extend_from_slice(&(vendor.len() as u32).to_le_bytes());
    h.extend_from_slice(vendor);
    h.extend_from_slice(&(entries.len() as u32).to_le_bytes());
    for (k, v) in entries {
        let entry = format!("{}={}", k, v);
        h.extend_from_slice(&(entry.len() as u32).to_le_bytes());
        h.extend_from_slice(entry.as_bytes());
    }
    h
}

fn packet(data: Vec<u8>, serial: u32, absgp: u64, last_in_page: bool, last_in_stream: bool) -> Packet {
    Packet { data, stream_serial: serial, absgp_page: absgp, last_in_page, last_in_stream }
}

fn header_packets(opus: Vec<u8>, comment: Vec<u8>) -> (Packet, Packet) {
    (packet(opus, 7, 0, true, false), packet(comment, 7, 0, true, false))
}

/// Runs a transform over the two headers plus the given audio packets and
/// returns the submit results after the second packet plus all writes.
fn run_rewriter<HR: zoog::header_rewriter::HeaderRewrite>(
    transform: HR,
    opus: Vec<u8>,
    comment: Vec<u8>,
    audio: Vec<Packet>,
) -> Result<(SubmitResult<HR::Summary>, Vec<PacketWrite>), Error> {
    let mut rewriter = HeaderRewriter::new(transform);
    let (p1, p2) = header_packets(opus, comment);
    match rewriter.submit(p1)? {
        SubmitResult::Good => {}
        _ => panic!("unexpected result on first packet"),
    }
    let headers_result = rewriter.submit(p2)?;
    for p in audio {
        match rewriter.submit(p)? {
            SubmitResult::Good => {}
            _ => panic!("unexpected result on audio packet"),
        }
    }
    let writes = rewriter.take_pending_writes();
    Ok((headers_result, writes))
}

fn parse_written_comment(writes: &[PacketWrite]) -> CommentHeader {
    CommentHeader::try_parse(&writes[1].data)
        .expect("written comment header parses")
        .expect("written comment header has magic")
}

fn written_entries(h: &CommentHeader) -> Vec<(Vec<u8>, Vec<u8>)> {
    let mut out = Vec::new();
    for i in 0..h.comment_count() {
        let (k, v) = h.entry_at(i);
        out.push((k.clone(), v.clone()));
    }
    out
}

#[test]
fn comment_replace_scenario() {
    // Write mode with -t TITLE=New on a header carrying TITLE=Old, ARTIST=A.
    let opus = make_opus_header(2, 0);
    let comment = make_comment_header(b"vendor xyz", &[("TITLE", "Old"), ("ARTIST", "A")]);
    let tags = parse_new_comment_args(&vec![b("TITLE=New")], false).unwrap();
    let rewrite = CommentHeaderRewrite::new(CommentRewriterConfig {
        action: CommentRewriterAction::Replace(tags),
    });
    let (result, writes) = run_rewriter(rewrite, opus.clone(), comment, Vec::new()).unwrap();
    match result {
        SubmitResult::HeadersChanged { .. } => {}
        _ => panic!("headers should have changed"),
    }
    assert_eq!(writes.len(), 2);
    assert_eq!(writes[0].data, opus);
    let written = parse_written_comment(&writes);
    assert_eq!(written_entries(&written), vec![(b("TITLE"), b("New"))]);
    // vendor string preserved
    let bytes = written.serialize();
    assert_eq!(&bytes[12..22], b"vendor xyz");
}

#[test]
fn comment_append_delete_scenario() {
    // Append mode with -t GENRE=jazz -d TITLE on {TITLE=a, ARTIST=b, TITLE=c}.
    let opus = make_opus_header(2, 0);
    let comment =
        make_comment_header(b"v", &[("TITLE", "a"), ("ARTIST", "b"), ("TITLE", "c")]);
    let append = parse_new_comment_args(&vec![b("GENRE=jazz")], false).unwrap();
    let delete = parse_delete_comment_args(&vec![b("TITLE")], false).unwrap();
    let rewrite = CommentHeaderRewrite::new(CommentRewriterConfig {
        action: CommentRewriterAction::Modify { delete, append },
    });
    let (result, writes) = run_rewriter(rewrite, opus, comment, Vec::new()).unwrap();
    match result {
        SubmitResult::HeadersChanged { .. } => {}
        _ => panic!("headers should have changed"),
    }
    let written = parse_written_comment(&writes);
    assert_eq!(
        written_entries(&written),
        vec![(b("ARTIST"), b("b")), (b("GENRE"), b("jazz"))]
    );
}

#[test]
fn comment_escape_scenario() {
    // Append with -e -t COMMENT=line1\nline2 stores a real line feed; the
    // list output escapes it back.
    let opus = make_opus_header(2, 0);
    let comment = make_comment_header(b"v", &[]);
    let append = parse_new_comment_args(&vec![b("COMMENT=line1\\nline2")], true).unwrap();
    let delete = parse_delete_comment_args(&Vec::new(), true).unwrap();
    let rewrite = CommentHeaderRewrite::new(CommentRewriterConfig {
        action: CommentRewriterAction::Modify { delete, append },
    });
    let (_, writes) = run_rewriter(rewrite, opus, comment, Vec::new()).unwrap();
    let written = parse_written_comment(&writes);
    let stored = written.get_first(&b("COMMENT")).expect("comment present");
    assert_eq!(stored, &b("line1\nline2"));
    assert_eq!(escape_str(stored), b("line1\\nline2"));
}

#[test]
fn unchanged_headers_are_detected() {
    // A no-change action on any valid stream reports HeadersUnchanged.
    let opus = make_opus_header(2, -384);
    let comment = make_comment_header(b"v", &[("TITLE", "x")]);
    let rewrite = CommentHeaderRewrite::new(CommentRewriterConfig {
        action: CommentRewriterAction::NoChange,
    });
    let (result, writes) = run_rewriter(rewrite, opus.clone(), comment.clone(), Vec::new()).unwrap();
    match result {
        SubmitResult::HeadersUnchanged(_) => {}
        _ => panic!("headers should be unchanged"),
    }
    // The queued header writes are byte-identical to the input packets.
    assert_eq!(writes[0].data, opus);
    assert_eq!(writes[1].data, comment);
}

#[test]
fn packet_ordering_preserved() {
    // Packets after the headers are emitted identically and in order.
    let opus = make_opus_header(2, 0);
    let comment = make_comment_header(b"v", &[]);
    let audio = vec![
        packet(vec![1, 2, 3], 7, 960, false, false),
        packet(vec![4, 5], 7, 1920, true, false),
        packet(vec![6], 7, 2880, true, true),
    ];
    let expected: Vec<(Vec<u8>, u32, u64, bool, bool)> = audio
        .iter()
        .map(|p| (p.data.clone(), p.stream_serial, p.absgp_page, p.last_in_page, p.last_in_stream))
        .collect();
    let rewrite = CommentHeaderRewrite::new(CommentRewriterConfig {
        action: CommentRewriterAction::NoChange,
    });
    let (_, writes) = run_rewriter(rewrite, opus, comment, audio).unwrap();
    assert_eq!(writes.len(), 5);
    for (w, (data, serial, absgp, last_in_page, last_in_stream)) in
        writes[2..].iter().zip(expected.iter())
    {
        assert_eq!(&w.data, data);
        assert_eq!(&w.stream_serial, serial);
        assert_eq!(&w.absgp_page, absgp);
        let expected_info = if *last_in_stream {
            PacketWriteEndInfo::EndStream
        } else if *last_in_page {
            PacketWriteEndInfo::EndPage
        } else {
            PacketWriteEndInfo::NormalPacket
        };
        assert_eq!(w.end_info, expected_info);
    }
}

#[test]
fn missing_opus_stream_detected() {
    let rewrite = CommentHeaderRewrite::new(CommentRewriterConfig {
        action: CommentRewriterAction::NoChange,
    });
    let bad = b"JunkJunkJunkJunkJunk".to_vec();
    let comment = make_comment_header(b"v", &[]);
    let err = run_rewriter(rewrite, bad, comment, Vec::new()).unwrap_err();
    assert_eq!(err, Error::MissingOpusStream);
}

#[test]
fn missing_comment_header_detected() {
    let rewrite = CommentHeaderRewrite::new(CommentRewriterConfig {
        action: CommentRewriterAction::NoChange,
    });
    let opus = make_opus_header(2, 0);
    let not_tags = b"JunkJunkJunk".to_vec();
    let err = run_rewriter(rewrite, opus, not_tags, Vec::new()).unwrap_err();
    assert_eq!(err, Error::MissingCommentHeader);
}

fn gain_config(
    target: VolumeTarget,
    mode: OutputGainMode,
    track: Option<i16>,
    album: Option<i16>,
) -> VolumeRewriterConfig {
    VolumeRewriterConfig {
        output_gain: target,
        output_gain_mode: mode,
        track_volume: track.map(FixedPointGain::from_fixed_point),
        album_volume: album.map(FixedPointGain::from_fixed_point),
    }
}

fn written_gain(writes: &[PacketWrite]) -> i16 {
    let h = zoog::opus_header::OpusHeader::try_parse(writes[0].data.clone()).unwrap();
    h.get_output_gain().as_fixed_point()
}

#[test]
fn replaygain_track_scenario() {
    // Measured -14.0 LUFS, ReplayGain preset (-18 LUFS), track mode:
    // the new output gain is (-18 - (-14)) dB = -1024 in Q7.8, and the
    // track tag points playback at the -23 LUFS reference: -5 dB = -1280.
    let opus = make_opus_header(2, 0);
    let comment = make_comment_header(b"v", &[]);
    let config = gain_config(
        VolumeTarget::LUFS(FixedPointGain::from_fixed_point(REPLAY_GAIN_LUFS)),
        resolve_output_gain_mode(true, false),
        Some(-14 * 256),
        None,
    );
    let (result, writes) =
        run_rewriter(VolumeHeaderRewrite::new(config), opus, comment, Vec::new()).unwrap();
    match result {
        SubmitResult::HeadersChanged { from, to } => {
            assert_eq!(from.output.as_fixed_point(), 0);
            assert_eq!(to.output.as_fixed_point(), -1024);
            assert_eq!(to.track_r128.map(|g| g.as_fixed_point()), Some(-1280));
            assert_eq!(to.album_r128, None);
        }
        _ => panic!("headers should have changed"),
    }
    assert_eq!(written_gain(&writes), -1024);
    let written = parse_written_comment(&writes);
    assert_eq!(written.get_first(&b("R128_TRACK_GAIN")), Some(&b("-1280")));
    assert_eq!(written.get_first(&b("R128_ALBUM_GAIN")), None);
}

#[test]
fn r128_album_scenario() {
    // Three files at -20, -22, -24 LUFS; album gated mean -21.5 LUFS;
    // R128 preset, album mode. Every file gets output gain
    // (-23 - (-21.5)) dB = -384; its own track tag; album tag 0.
    let measured = [-20 * 256, -22 * 256, -24 * 256];
    let album_mean = -5504; // -21.5 LUFS in Q7.8
    let expected_track_tags = [-384, 128, 640];
    for (mv, expected_tag) in measured.iter().zip(expected_track_tags.iter()) {
        let opus = make_opus_header(2, 0);
        let comment = make_comment_header(b"v", &[]);
        let config = gain_config(
            VolumeTarget::LUFS(FixedPointGain::from_fixed_point(R128_LUFS)),
            resolve_output_gain_mode(true, true),
            Some(*mv),
            Some(album_mean),
        );
        let (_, writes) =
            run_rewriter(VolumeHeaderRewrite::new(config), opus, comment, Vec::new()).unwrap();
        assert_eq!(written_gain(&writes), -384);
        let written = parse_written_comment(&writes);
        assert_eq!(
            written.get_first(&b("R128_TRACK_GAIN")),
            Some(&expected_tag.to_string().into_bytes())
        );
        assert_eq!(written.get_first(&b("R128_ALBUM_GAIN")), Some(&b("0")));
    }
}

#[test]
fn clear_scenario() {
    // Clear mode removes both R128 tags, leaves the output gain alone,
    // and a second run reports HeadersUnchanged.
    let (album_mode, target) = apply_clear_mode(true, true, VolumeTarget::ZeroGain);
    assert!(!album_mode);
    let opus = make_opus_header(2, -512);
    let comment = make_comment_header(b"v", &[("R128_TRACK_GAIN", "77"), ("TITLE", "x")]);
    let config = gain_config(target, OutputGainMode::Track, None, None);
    let (result, writes) =
        run_rewriter(VolumeHeaderRewrite::new(config), opus, comment, Vec::new()).unwrap();
    match result {
        SubmitResult::HeadersChanged { from, to } => {
            assert_eq!(from.track_r128.map(|g| g.as_fixed_point()), Some(77));
            assert_eq!(to.track_r128, None);
            assert_eq!(from.output.as_fixed_point(), -512);
            assert_eq!(to.output.as_fixed_point(), -512);
        }
        _ => panic!("headers should have changed"),
    }
    assert_eq!(written_gain(&writes), -512);
    let written = parse_written_comment(&writes);
    assert_eq!(written.get_first(&b("R128_TRACK_GAIN")), None);
    assert_eq!(written.get_first(&b("R128_ALBUM_GAIN")), None);
    assert_eq!(written.get_first(&b("TITLE")), Some(&b("x")));

    // Second run over the rewritten headers: nothing more to do.
    let config = gain_config(target, OutputGainMode::Track, None, None);
    let (result, _) = run_rewriter(
        VolumeHeaderRewrite::new(config),
        writes[0].data.clone(),
        writes[1].data.clone(),
        Vec::new(),
    )
    .unwrap();
    match result {
        SubmitResult::HeadersUnchanged(_) => {}
        _ => panic!("second pass should leave the headers alone"),
    }
}

#[test]
fn gain_rewrite_is_idempotent() {
    // Running the gain rewrite twice with the same preset and the same
    // measurement reports HeadersUnchanged on the second pass.
    let opus = make_opus_header(1, 256);
    let comment = make_comment_header(b"v", &[("R128_TRACK_GAIN", "3"), ("TITLE", "t")]);
    let make_config = || {
        gain_config(
            VolumeTarget::LUFS(FixedPointGain::from_fixed_point(REPLAY_GAIN_LUFS)),
            resolve_output_gain_mode(true, false),
            Some(-9 * 256 - 128),
            None,
        )
    };
    let (first, writes) =
        run_rewriter(VolumeHeaderRewrite::new(make_config()), opus, comment, Vec::new()).unwrap();
    match first {
        SubmitResult::HeadersChanged { .. } => {}
        _ => panic!("first pass should rewrite"),
    }
    let (second, _) = run_rewriter(
        VolumeHeaderRewrite::new(make_config()),
        writes[0].data.clone(),
        writes[1].data.clone(),
        Vec::new(),
    )
    .unwrap();
    match second {
        SubmitResult::HeadersUnchanged(_) => {}
        _ => panic!("second pass should leave the headers alone"),
    }
}

#[test]
fn gain_out_of_bounds_reported() {
    let opus = make_opus_header(2, 0);
    let comment = make_comment_header(b"v", &[]);
    // target - measured = -4608 - 32767 leaves the Q7.8 range
    let config = gain_config(
        VolumeTarget::LUFS(FixedPointGain::from_fixed_point(REPLAY_GAIN_LUFS)),
        OutputGainMode::Track,
        Some(32767),
        None,
    );
    let err =
        run_rewriter(VolumeHeaderRewrite::new(config), opus, comment, Vec::new()).unwrap_err();
    assert_eq!(err, Error::GainOutOfBounds);
}

#[test]
fn analyzer_control_flow() {
    let mut control = AnalyzerControl::new();
    let opus = make_opus_header(1, 0);
    assert_eq!(
        control.submit(&opus),
        Ok(AnalyzerAction::ConfigureDecoder { channel_count: 1 })
    );
    let comment = make_comment_header(b"v", &[]);
    assert_eq!(control.submit(&comment), Ok(AnalyzerAction::CommentsValidated));
    assert_eq!(control.submit(&vec![9, 9, 9]), Ok(AnalyzerAction::DecodePacket));
    control.file_complete();
    let surround = make_opus_header(6, 0);
    assert_eq!(control.submit(&surround), Err(Error::InvalidChannelCount(6)));
}

#[test]
fn delete_args_parsing() {
    // A bare KEY pattern matches any value; KEY=VALUE only that value.
    let patterns =
        parse_delete_comment_args(&vec![b("TITLE"), b("ARTIST=a")], false).unwrap();
    assert!(patterns.matches(&b("title"), &b("anything")));
    assert!(patterns.matches(&b("artist"), &b("a")));
    assert!(!patterns.matches(&b("artist"), &b("b")));
    assert!(!patterns.matches(&b("genre"), &b("a")));

    assert_eq!(
        parse_delete_comment_args(&vec![b("BAD\nKEY")], false).err(),
        Some(Error::InvalidCommentFieldName)
    );
}

#[test]
fn new_comment_args_parsing() {
    let list = parse_new_comment_args(&vec![b("A=1"), b("B=x=y")], false).unwrap();
    assert_eq!(list.len(), 2);
    assert_eq!(list.get_first(&b("B")), Some(&b("x=y")));
    assert_eq!(
        parse_new_comment_args(&vec![b("NOVALUE")], false),
        Err(Error::InvalidCommentFieldName)
    );
    assert_eq!(
        parse_new_comment_args(&vec![b("A=bad\\q")], true),
        Err(Error::EscapeDecode(
            zoog::error::EscapeDecodeError::InvalidEscape(b'q')
        ))
    );
}
