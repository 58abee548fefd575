use zoog::comment_header::CommentHeader;
use zoog::error::Error;
use zoog::fixed_point_gain::FixedPointGain;
use zoog::opus_header::OpusHeader;

fn b(s: &str) -> Vec<u8> {
    s.as_bytes().to_vec()
}

fn make_opus_header(channels: u8, gain: i16) -> Vec<u8> {
    let mut h = b"OpusHead".to_vec();
    h.push(1); // version
    h.push(channels);
    h.extend_from_slice(&312u16.to_le_bytes()); // pre-skip
    h.extend_from_slice(&48000u32.to_le_bytes()); // input sample rate
    h.extend_from_slice(&(gain as u16).to_le_bytes()); // output gain
    h.push(0); // channel mapping family
    h
}

fn make_comment_header(vendor: &[u8], entries: &[(&str, &str)], tail: &[u8]) -> Vec<u8> {
    let mut h = b"OpusTags".to_vec();
    h.extend_from_slice(&(vendor.len() as u32).to_le_bytes());
    h.extend_from_slice(vendor);
    h.extend_from_slice(&(entries.len() as u32).to_le_bytes());
    for (k, v) in entries {
        let entry = format!("{}={}", k, v);
        h.extend_from_slice(&(entry.len() as u32).to_le_bytes());
        h.extend_from_slice(entry.as_bytes());
    }
    h.extend_from_slice(tail);
    h
}

#[test]
fn opus_header_parse_and_gain() {
    let data = make_opus_header(2, -1024);
    let mut header = OpusHeader::try_parse(data.clone()).expect("valid header");
    assert_eq!(header.num_output_channels(), 2);
    assert_eq!(header.get_output_gain().as_fixed_point(), -1024);

    header.set_output_gain(FixedPointGain::from_fixed_point(512));
    assert_eq!(header.get_output_gain().as_fixed_point(), 512);
    let out = header.into_data();
    assert_eq!(out, make_opus_header(2, 512));
}

#[test]
fn opus_header_rejects_non_opus() {
    assert_eq!(
        OpusHeader::try_parse(b"NotOpus".to_vec()).err(),
        Some(Error::MissingOpusStream)
    );
    assert_eq!(
        OpusHeader::try_parse(b"OggS\0\0\0\0\0\0\0\0\0\0\0\0\0\0\0".to_vec()).err(),
        Some(Error::MissingOpusStream)
    );
}

#[test]
fn adjust_gain_overflows() {
    let data = make_opus_header(1, 32767);
    let mut header = OpusHeader::try_parse(data.clone()).expect("valid header");
    assert_eq!(
        header.adjust_output_gain(FixedPointGain::from_fixed_point(1)),
        Err(Error::GainOutOfBounds)
    );
    // unchanged on failure
    assert_eq!(header.get_output_gain().as_fixed_point(), 32767);
    assert_eq!(
        header.adjust_output_gain(FixedPointGain::from_fixed_point(-1)),
        Ok(())
    );
    assert_eq!(header.get_output_gain().as_fixed_point(), 32766);
}

#[test]
fn fixed_point_overflow() {
    let max = FixedPointGain::from_fixed_point(32767);
    let one = FixedPointGain::from_fixed_point(1);
    assert_eq!(max.checked_add(&one), None);
    assert_eq!(
        max.checked_add(&FixedPointGain::from_fixed_point(-1)),
        Some(FixedPointGain::from_fixed_point(32766))
    );
}

#[test]
fn comment_codec_round_trip() {
    let data = make_comment_header(b"vendor v1.2", &[("TITLE", "Song"), ("ARTIST", "A=B")], b"");
    let header = CommentHeader::try_parse(&data)
        .expect("parse succeeds")
        .expect("magic present");
    assert_eq!(header.comment_count(), 2);
    let (k, v) = header.entry_at(0);
    assert_eq!((k.as_slice(), v.as_slice()), (&b"TITLE"[..], &b"Song"[..]));
    let (k, v) = header.entry_at(1);
    assert_eq!((k.as_slice(), v.as_slice()), (&b"ARTIST"[..], &b"A=B"[..]));
    assert_eq!(header.serialize(), data);
}

#[test]
fn comment_codec_preserves_framing_tail() {
    let data = make_comment_header(b"v", &[("A", "1")], &[1u8, 255, 0]);
    let header = CommentHeader::try_parse(&data)
        .expect("parse succeeds")
        .expect("magic present");
    assert_eq!(header.serialize(), data);
}

#[test]
fn comment_codec_missing_magic() {
    let data = b"NotTags\0\0\0\0\0".to_vec();
    assert_eq!(CommentHeader::try_parse(&data), Ok(None));
    let short = b"Opus".to_vec();
    assert_eq!(CommentHeader::try_parse(&short), Ok(None));
}

#[test]
fn comment_codec_malformed() {
    // vendor length runs past the packet
    let mut data = b"OpusTags".to_vec();
    data.extend_from_slice(&100u32.to_le_bytes());
    data.extend_from_slice(b"abc");
    assert_eq!(
        CommentHeader::try_parse(&data),
        Err(Error::MalformedCommentHeader)
    );

    // entry without '='
    let mut data = b"OpusTags".to_vec();
    data.extend_from_slice(&0u32.to_le_bytes());
    data.extend_from_slice(&1u32.to_le_bytes());
    data.extend_from_slice(&5u32.to_le_bytes());
    data.extend_from_slice(b"NOSEP");
    assert_eq!(
        CommentHeader::try_parse(&data),
        Err(Error::MalformedCommentHeader)
    );

    // key with an invalid byte
    let mut data = b"OpusTags".to_vec();
    data.extend_from_slice(&0u32.to_le_bytes());
    data.extend_from_slice(&1u32.to_le_bytes());
    data.extend_from_slice(&4u32.to_le_bytes());
    data.extend_from_slice(b"a\nb=");
    assert_eq!(
        CommentHeader::try_parse(&data),
        Err(Error::MalformedCommentHeader)
    );
}

#[test]
fn comment_header_mutation() -> Result<(), Error> {
    let data = make_comment_header(b"v", &[("TITLE", "Old"), ("Artist", "A")], b"");
    let mut header = CommentHeader::try_parse(&data).unwrap().unwrap();
    header.remove_all(&b("title"));
    header.push(&b("TITLE"), &b("New"))?;
    let reparsed = CommentHeader::try_parse(&header.serialize()).unwrap().unwrap();
    assert_eq!(reparsed.comment_count(), 2);
    assert_eq!(reparsed.get_first(&b("artist")), Some(&b("A")));
    assert_eq!(reparsed.get_first(&b("TITLE")), Some(&b("New")));
    Ok(())
}

#[test]
fn decimal_emission_is_strict() {
    assert_eq!(
        FixedPointGain::from_fixed_point(0).to_decimal_bytes(),
        b"0".to_vec()
    );
    assert_eq!(
        FixedPointGain::from_fixed_point(-512).to_decimal_bytes(),
        b"-512".to_vec()
    );
    assert_eq!(
        FixedPointGain::from_fixed_point(512).to_decimal_bytes(),
        b"512".to_vec()
    );
    assert_eq!(
        FixedPointGain::from_fixed_point(-32768).to_decimal_bytes(),
        b"-32768".to_vec()
    );
    assert_eq!(
        FixedPointGain::from_fixed_point(32767).to_decimal_bytes(),
        b"32767".to_vec()
    );
}

#[test]
fn decimal_parse_is_permissive() {
    let p = |s: &str| FixedPointGain::parse_decimal_bytes(&b(s)).map(|g| g.as_fixed_point());
    assert_eq!(p("-512"), Some(-512));
    assert_eq!(p("+512"), Some(512));
    assert_eq!(p("  512  "), Some(512));
    assert_eq!(p("0512"), Some(512));
    assert_eq!(p("-32768"), Some(-32768));
    assert_eq!(p("32767"), Some(32767));
    assert_eq!(p("32768"), None);
    assert_eq!(p("-32769"), None);
    assert_eq!(p(""), None);
    assert_eq!(p("+"), None);
    assert_eq!(p("12a"), None);
    assert_eq!(p("1 2"), None);
}
