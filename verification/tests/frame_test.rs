use id3rs::mpeg::frame_header;
use id3rs::mpeg::FrameHeader;
use id3rs::mpeg::Layer;
use id3rs::mpeg::Mp3FrameParser;
use id3rs::mpeg::Protection;
use id3rs::mpeg::Version;

/// One raw MPEG-1 layer-3 frame: 128 kbit/s at 48000 Hz, 384 bytes.
fn raw_frame() -> Vec<u8> {
    let mut frame = vec![0xFF, 0xFB, 0x94, 0x44];
    frame.resize(384, 0);
    frame
}

#[test]
fn parse_valid_mp3_header() {
    let bytes = raw_frame();

    let (header, _) = frame_header(&bytes).unwrap();
    assert_eq!(header.frame_size(), 384)
}

#[test]
fn parse_invalid_mp3_header() {
    let bytes = b"\xFB\xFB\x94\x44";

    assert!(frame_header(bytes).is_none())
}

#[test]
fn parse_mp3_file() {
    let mut stream: Vec<u8> = Vec::new();
    for _ in 0..26 {
        stream.extend_from_slice(&raw_frame());
    }

    let mut parser = Mp3FrameParser::new(stream);
    let mut frames = 0;
    loop {
        match parser.next() {
            Some(header) => {
                frames += 1;
                assert_eq!(header.frame_size(), 384);
            }
            None => break,
        }
    }
    assert_eq!(frames, 26);
}

#[test]
fn parse_frame_header() {
    let bytes = raw_frame();

    let (frame, consumed) = frame_header(&bytes).unwrap();
    assert_eq!(frame, FrameHeader {
        version: Version::Version1,
        layer: Layer::Layer3,
        crc: Protection::Unprotected,
        bitrate: 128,
        frequency: 48000,
        padding: 0,
    });
    // the whole frame is consumed: the four header bytes and the body
    assert_eq!(consumed, 384);
    assert_eq!(frame.frame_size(), 384)
}
