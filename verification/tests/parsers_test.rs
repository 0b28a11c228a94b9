use id3rs::decode::all_frames;
use id3rs::decode::comment_frame;
use id3rs::decode::extended_text_frame;
use id3rs::decode::file_header;
use id3rs::decode::generic_frame;
use id3rs::decode::object_frame;
use id3rs::decode::padding;
use id3rs::decode::text_frame;
use id3rs::decode::v24_len;
use id3rs::decode::FrameParsed;
use id3rs::syncsafe::as_syncsafe;
use id3rs::Frame;
use id3rs::Header;
use id3rs::SizeScheme;
use id3rs::ARTIST_TAG;
use id3rs::COMMENT_TAG;
use id3rs::EXTENDED_TAG;
use id3rs::GENRE_TAG;
use id3rs::GROUPING_TAG;
use id3rs::KEY_TAG;
use id3rs::OBJECT_TAG;
use id3rs::SUBTITLE_TAG;
use id3rs::TITLE_TAG;

fn syncsafe_bytes(n: u32) -> [u8; 4] {
    [
        ((n >> 21) & 0x7f) as u8,
        ((n >> 14) & 0x7f) as u8,
        ((n >> 7) & 0x7f) as u8,
        (n & 0x7f) as u8,
    ]
}

fn push_frame_header(out: &mut Vec<u8>, id: &str, size: u32) {
    out.extend_from_slice(id.as_bytes());
    out.extend_from_slice(&syncsafe_bytes(size));
    out.extend_from_slice(&[0, 0]);
}

fn utf16_terminated(s: &str) -> Vec<u8> {
    let mut out = vec![0xFF, 0xFE];
    for unit in s.encode_utf16() {
        out.extend_from_slice(&unit.to_le_bytes());
    }
    out.extend_from_slice(&[0, 0]);
    out
}

/// The v2.4 sample: ten-byte file header plus an 1114-byte body.
fn tink_v24_file() -> Vec<u8> {
    let mut body: Vec<u8> = Vec::new();

    push_frame_header(&mut body, "GEOB", 80);
    body.push(0);
    body.extend_from_slice(b"application/vnd.rekordbox.dat\x00");
    body.extend_from_slice(b"ANLZ0000.DAT\x00");
    body.extend_from_slice(b"Rekordbox Analysis Data\x00");
    body.extend_from_slice(b"Hello, world");

    push_frame_header(&mut body, "TXXX", 12);
    body.extend_from_slice(b"\x00Hello\x00World");

    push_frame_header(&mut body, "TIT2", 5);
    body.extend_from_slice(b"\x03Tink");

    push_frame_header(&mut body, "TPE1", 6);
    body.extend_from_slice(b"\x03Apple");

    push_frame_header(&mut body, "COMM", 17);
    body.extend_from_slice(b"\x00eng\x00From Big Sur");

    push_frame_header(&mut body, "TCON", 7);
    body.extend_from_slice(b"\x03sounds");

    push_frame_header(&mut body, "TXXX", 23);
    body.push(1);
    body.extend_from_slice(&utf16_terminated("こんにちは"));
    body.extend_from_slice(&utf16_terminated("世界"));

    push_frame_header(&mut body, "TKEY", 3);
    body.extend_from_slice(b"\x034A");

    push_frame_header(&mut body, "TXXX", 14);
    body.extend_from_slice(b"\x00EnergyLevel\x006");

    push_frame_header(&mut body, "TIT3", 1);
    body.push(3);

    push_frame_header(&mut body, "GRP1", 5);
    body.extend_from_slice(b"\x002241");

    body.resize(1114, 0);

    let mut file = vec![0x49, 0x44, 0x33, 4, 0, 0];
    file.extend_from_slice(&syncsafe_bytes(1114));
    file.extend_from_slice(&body);
    file
}

#[test]
fn test_tink_header_parsing() {
    let bytes = b"\x00\x00\x02\x6F";
    let result = v24_len(bytes, 0);
    assert_eq!(result, 367);
    let vec = as_syncsafe(367);
    assert_eq!(vec, bytes);
    let bytes = b"\x00\x03\x3B\x76";
    let result = v24_len(bytes, 0);
    assert_eq!(result, 56822);
}

#[test]
fn test_header_and_frames() {
    let file = tink_v24_file();
    let header = file_header(&file[..10]).unwrap();
    assert_eq!(header, Header { version: 4, revision: 0, flags: 0, tag_size: 1114 });

    let input = &file[10..10 + header.tag_size as usize];
    let result = all_frames(input, SizeScheme::V24).unwrap();
    assert_eq!(12, result.len());
}

fn expect_match(parsed: FrameParsed) -> (Frame, usize) {
    match parsed {
        FrameParsed::Matched(frame, next) => (frame, next),
        other => panic!("frame did not parse: {:?}", other),
    }
}

#[test]
fn test_frames_individually() {
    let file = tink_v24_file();
    let header = file_header(&file[..10]).unwrap();
    assert_eq!(header, Header { version: 4, revision: 0, flags: 0, tag_size: 1114 });

    let input = &file[10..10 + header.tag_size as usize];
    let v24 = SizeScheme::V24;

    let data = "Hello, world".as_bytes().to_vec();
    let (frame, pos) = expect_match(object_frame(input, 0, v24));
    assert_eq!(frame, Frame::Object {
        id: OBJECT_TAG.to_string(),
        size: 80,
        flags: 0,
        mime_type: "application/vnd.rekordbox.dat".to_string(),
        filename: "ANLZ0000.DAT".to_string(),
        description: "Rekordbox Analysis Data".to_string(),
        data,
    });

    let (frame, pos) = expect_match(extended_text_frame(input, pos, v24));
    assert_eq!(frame, Frame::ExtendedText {
        id: EXTENDED_TAG.to_string(),
        size: 12,
        flags: 0,
        description: "Hello".to_string(),
        value: "World".to_string(),
    });

    let (frame, pos) = expect_match(text_frame(input, pos, v24));
    assert_eq!(frame, Frame::Text {
        id: TITLE_TAG.to_string(),
        size: 5,
        flags: 0,
        text: "Tink".to_string(),
    });

    let (frame, pos) = expect_match(text_frame(input, pos, v24));
    assert_eq!(frame, Frame::Text {
        id: ARTIST_TAG.to_string(),
        size: 6,
        flags: 0,
        text: "Apple".to_string(),
    });

    let (frame, pos) = expect_match(comment_frame(input, pos, v24));
    match &frame {
        Frame::Comment { id, value, .. } => {
            assert_eq!(id, COMMENT_TAG);
            assert_eq!(value, "From Big Sur");
        }
        other => panic!("not a comment frame: {:?}", other),
    }

    let (frame, pos) = expect_match(text_frame(input, pos, v24));
    assert_eq!(frame, Frame::Text {
        id: GENRE_TAG.to_string(),
        size: 7,
        flags: 0,
        text: "sounds".to_string(),
    });

    let (frame, pos) = expect_match(extended_text_frame(input, pos, v24));
    assert_eq!(frame, Frame::ExtendedText {
        id: EXTENDED_TAG.to_string(),
        size: 23,
        flags: 0,
        description: "こんにちは".to_string(),
        value: "世界".to_string(),
    });

    let (frame, pos) = expect_match(text_frame(input, pos, v24));
    assert_eq!(frame, Frame::Text {
        id: KEY_TAG.to_string(),
        size: 3,
        flags: 0,
        text: "4A".to_string(),
    });

    let (frame, pos) = expect_match(extended_text_frame(input, pos, v24));
    assert_eq!(frame, Frame::ExtendedText {
        id: EXTENDED_TAG.to_string(),
        size: 14,
        flags: 0,
        description: "EnergyLevel".to_string(),
        value: "6".to_string(),
    });

    let (frame, pos) = expect_match(text_frame(input, pos, v24));
    assert_eq!(frame, Frame::Text {
        id: SUBTITLE_TAG.to_string(),
        size: 1,
        flags: 0,
        text: "".to_string(),
    });

    let (frame, pos) = expect_match(generic_frame(input, pos, v24));
    match &frame {
        Frame::Generic { id, .. } => {
            assert_eq!(id, GROUPING_TAG);
        }
        other => panic!("not a generic frame: {:?}", other),
    }

    let (frame, _pos) = expect_match(padding(input, pos));
    assert_eq!(frame, Frame::Padding { size: 831 });
}
