use id3rs::decode::parse_frame;
use id3rs::encode::encode_frame;
use id3rs::syncsafe::as_syncsafe;
use id3rs::syncsafe::decode_syncsafe;
use id3rs::Frame;
use id3rs::ID3rs;
use id3rs::SizeScheme;

fn syncsafe_bytes(n: u32) -> [u8; 4] {
    [
        ((n >> 21) & 0x7f) as u8,
        ((n >> 14) & 0x7f) as u8,
        ((n >> 7) & 0x7f) as u8,
        (n & 0x7f) as u8,
    ]
}

#[test]
fn syncsafe_round_trip_values() {
    for n in [0u32, 1, 127, 128, 66872, 0x0FFF_FFFF] {
        let bytes = as_syncsafe(n);
        assert_eq!(decode_syncsafe(&bytes, 0), n);
    }
}

#[test]
fn syncsafe_decode_keeps_low_seven_bits_only() {
    assert_eq!(decode_syncsafe(&[0x80, 0x00, 0x00, 0x00], 0), 0);
    assert_eq!(decode_syncsafe(&[0xFF, 0xFF, 0xFF, 0xFF], 0), 0x0FFF_FFFF);
    assert_eq!(decode_syncsafe(&[0x00, 0x80, 0x02, 0x6F], 0), 367);
}

#[test]
fn album_reads_back_what_set_album_wrote() {
    let mut tag = ID3rs::read(&[]).unwrap();
    tag.set_album("From Big Sur");
    assert_eq!(tag.album(), Some("From Big Sur"));
    let out = tag.write_to(0);
    let back = ID3rs::read(&out).unwrap();
    assert_eq!(back.album(), Some("From Big Sur"));
}

/// Whether two frames carry the same fields, the stored size aside.
fn field_equal_ignoring_size(a: &Frame, b: &Frame) -> bool {
    match (a, b) {
        (
            Frame::Text { id, flags, text, .. },
            Frame::Text { id: i2, flags: f2, text: t2, .. },
        ) => id == i2 && flags == f2 && text == t2,
        (
            Frame::ExtendedText { id, flags, description, value, .. },
            Frame::ExtendedText { id: i2, flags: f2, description: d2, value: v2, .. },
        ) => id == i2 && flags == f2 && description == d2 && value == v2,
        (
            Frame::Comment { id, flags, language, description, value, .. },
            Frame::Comment {
                id: i2,
                flags: f2,
                language: l2,
                description: d2,
                value: v2,
                ..
            },
        ) => id == i2 && flags == f2 && language == l2 && description == d2 && value == v2,
        (
            Frame::Object { id, flags, mime_type, filename, description, data, .. },
            Frame::Object {
                id: i2,
                flags: f2,
                mime_type: m2,
                filename: n2,
                description: d2,
                data: b2,
                ..
            },
        ) => {
            id == i2 && flags == f2 && mime_type == m2 && filename == n2 && description == d2
                && data == b2
        }
        (
            Frame::Picture { id, flags, mime_type, kind, description, data, .. },
            Frame::Picture {
                id: i2,
                flags: f2,
                mime_type: m2,
                kind: k2,
                description: d2,
                data: b2,
                ..
            },
        ) => {
            id == i2 && flags == f2 && mime_type == m2 && kind == k2 && description == d2
                && data == b2
        }
        (
            Frame::Popularity { id, flags, email, rating, .. },
            Frame::Popularity { id: i2, flags: f2, email: e2, rating: r2, .. },
        ) => id == i2 && flags == f2 && email == e2 && rating == r2,
        (Frame::Generic { .. }, Frame::Generic { .. }) => a == b,
        _ => false,
    }
}

fn assert_frame_round_trips(frame: Frame) {
    let mut encoded: Vec<u8> = Vec::new();
    encode_frame(&frame, &mut encoded);
    let (back, consumed) = match parse_frame(&encoded, 0, SizeScheme::V24) {
        Some(pair) => pair,
        None => panic!("encoded frame did not parse: {:?}", frame),
    };
    assert_eq!(consumed, encoded.len());
    assert!(
        field_equal_ignoring_size(&frame, &back),
        "round trip changed the frame: {:?} vs {:?}",
        frame,
        back
    );
}

#[test]
fn frame_round_trip_every_variant() {
    assert_frame_round_trips(Frame::Text {
        id: "TIT2".to_string(),
        size: 0,
        flags: 7,
        text: "Bleek".to_string(),
    });
    assert_frame_round_trips(Frame::ExtendedText {
        id: "TXXX".to_string(),
        size: 0,
        flags: 0,
        description: "EnergyLevel".to_string(),
        value: "6".to_string(),
    });
    assert_frame_round_trips(Frame::Comment {
        id: "COMM".to_string(),
        size: 0,
        flags: 0,
        language: "eng".to_string(),
        description: "".to_string(),
        value: "From Big Sur".to_string(),
    });
    assert_frame_round_trips(Frame::Object {
        id: "GEOB".to_string(),
        size: 0,
        flags: 0,
        mime_type: "application/octet-stream".to_string(),
        filename: "A.BIN".to_string(),
        description: "blob".to_string(),
        data: vec![0, 1, 2, 0xFF, 0],
    });
    assert_frame_round_trips(Frame::Picture {
        id: "APIC".to_string(),
        size: 0,
        flags: 0,
        mime_type: "image/png".to_string(),
        kind: 3,
        description: "cover".to_string(),
        data: vec![9, 8, 7, 0, 6],
    });
    assert_frame_round_trips(Frame::Popularity {
        id: "POPM".to_string(),
        size: 0,
        flags: 0,
        email: "me@example.com".to_string(),
        rating: 255,
    });
    assert_frame_round_trips(Frame::Generic {
        id: "PRIV".to_string(),
        size: 4,
        flags: 0,
        data: vec![1, 2, 3, 4],
    });
    // a non-ASCII value runs through the UTF-16 write path and back
    assert_frame_round_trips(Frame::Text {
        id: "TIT2".to_string(),
        size: 0,
        flags: 0,
        text: "こんにちは 🦀".to_string(),
    });
}

/// A small tag with plenty of padding after its frames.
fn slack_tag_file(body_size: u32) -> Vec<u8> {
    let mut body: Vec<u8> = Vec::new();
    body.extend_from_slice(b"TIT2");
    body.extend_from_slice(&syncsafe_bytes(5));
    body.extend_from_slice(&[0, 0]);
    body.extend_from_slice(b"\x03Tink");
    body.resize(body_size as usize, 0);

    let mut file = vec![0x49, 0x44, 0x33, 4, 0, 0];
    file.extend_from_slice(&syncsafe_bytes(body_size));
    file.extend_from_slice(&body);
    file
}

#[test]
fn padding_reused_when_edit_fits() {
    let mut tag = ID3rs::read(&slack_tag_file(1000)).unwrap();
    tag.set_title("Bleek");
    let out = tag.write_to(tag.header_size as u32);
    // the edited frames fit in the original body, so its length is kept
    assert_eq!(out.len(), 10 + 1000);
    assert_eq!(decode_syncsafe(&out, 6), 1000);

    let back = ID3rs::read(&out).unwrap();
    assert_eq!(back.title(), Some("Bleek"));
}

#[test]
fn padding_grows_when_tag_outgrows_body() {
    let mut tag = ID3rs::read(&[]).unwrap();
    assert_eq!(tag.header_size, 0);
    tag.set_title("A");
    let out = tag.write_to(0);
    // frames take 15 bytes; fill to the alignment boundary plus one
    // 512-byte unit: 15 + (1024 - (10 + 15) % 512) = 1014
    assert_eq!(decode_syncsafe(&out, 6), 1014);
    assert_eq!(out.len(), 10 + 1014);
}

#[test]
fn write_targets_get_identical_bytes() {
    let mut tag = ID3rs::read(&slack_tag_file(64)).unwrap();
    tag.set_extended_text("EnergyLevel", "99");
    let to_same_file = tag.write(tag.header_size as u32);
    let to_new_file = tag.write_to(64);
    assert_eq!(to_same_file, to_new_file);
    assert!(!tag.dirty);

    let a = ID3rs::read(&to_same_file).unwrap();
    let b = ID3rs::read(&to_new_file).unwrap();
    assert_eq!(a.frames, b.frames);
}

#[test]
fn setting_title_survives_rewrite() {
    let mut tag = ID3rs::read(&slack_tag_file(1000)).unwrap();
    tag.set_title("Bleek");
    let out = tag.write_to(tag.header_size as u32);
    let back = ID3rs::read(&out).unwrap();
    assert_eq!(back.title(), Some("Bleek"));
}

#[test]
fn non_ascii_fields_survive_rewrite() {
    let mut tag = ID3rs::read(&[]).unwrap();
    tag.set_title("こんにちは");
    tag.set_extended_text("説明", "世界");
    let out = tag.write_to(0);
    let back = ID3rs::read(&out).unwrap();
    assert_eq!(back.title(), Some("こんにちは"));
    assert_eq!(back.extended_text("説明"), Some("世界"));
}

#[test]
fn track_numbers_format_as_index_slash_total() {
    let mut tag = ID3rs::read(&[]).unwrap();
    tag.set_track(12, 34);
    assert_eq!(tag.track(), Some("12/34"));
}

#[test]
fn garbled_body_reports_frames_error() {
    let mut file = vec![0x49, 0x44, 0x33, 4, 0, 0];
    file.extend_from_slice(&syncsafe_bytes(4));
    file.extend_from_slice(&[0xAA, 0xBB, 0xCC, 0xDD]);
    let err = ID3rs::read(&file).err().unwrap();
    assert_eq!(err.message(), "Frames error");
}

#[test]
fn short_body_reports_truncated_tag() {
    let mut file = vec![0x49, 0x44, 0x33, 4, 0, 0];
    file.extend_from_slice(&syncsafe_bytes(100));
    file.extend_from_slice(&[0; 10]);
    let err = ID3rs::read(&file).err().unwrap();
    assert_eq!(err.message(), "Truncated tag");
}

#[test]
fn large_version_byte_in_message() {
    let mut file = vec![0x49, 0x44, 0x33, 200, 0, 0];
    file.extend_from_slice(&syncsafe_bytes(0));
    let err = ID3rs::read(&file).err().unwrap();
    assert_eq!(err.message(), "Invalid version: 200");
}

#[test]
fn missing_signature_reads_as_empty_tag() {
    let tag = ID3rs::read(b"RIFF1234WAVEfmt ").unwrap();
    assert_eq!(tag.header_size, 0);
    assert_eq!(tag.frames.len(), 0);
    assert!(!tag.dirty);
}

#[test]
fn padding_getter_reports_slack() {
    let tag = ID3rs::read(&slack_tag_file(1000)).unwrap();
    assert_eq!(tag.padding(), 1000 - 15);
}
