use id3rs::mpeg::FrameHeader;
use id3rs::mpeg::Layer;
use id3rs::mpeg::Mp3FrameParser;
use id3rs::mpeg::Protection;
use id3rs::mpeg::Version;

/// A stream of 26 raw 384-byte MPEG-1 layer-3 frames at 128 kbit/s and
/// 48000 Hz, with an audio-like filler that holds false sync patterns.
fn frame_stream() -> Vec<u8> {
    let mut stream: Vec<u8> = Vec::new();
    for k in 0..26u32 {
        stream.extend_from_slice(&[0xFF, 0xFB, 0x94, 0x44]);
        let mut filler: Vec<u8> = (0..380u32).map(|i| ((i * 7 + k) % 256) as u8).collect();
        // a sync-looking pair inside the payload must not derail the scan
        filler[100] = 0xFF;
        filler[101] = 0xF0;
        stream.extend_from_slice(&filler);
    }
    stream
}

#[test]
fn test_iterator() {
    let mut parser = Mp3FrameParser::new(frame_stream());
    let mut frames: Vec<FrameHeader> = Vec::new();
    loop {
        match parser.next() {
            Some(header) => frames.push(header),
            None => break,
        }
    }
    assert_eq!(26, frames.len());
}

#[test]
fn test_resync_after_false_positive() {
    // a false sync first: 0xFF 0xF2 passes the seek test but resolves
    // to a reserved layer, so the scan moves one byte onward and still
    // finds the real frame
    let mut stream = vec![0x00, 0xFF, 0xF2, 0x00, 0x00];
    stream.extend_from_slice(&[0xFF, 0xFB, 0x94, 0x44]);
    stream.resize(5 + 384, 0);

    let mut parser = Mp3FrameParser::new(stream);
    let first = parser.next().unwrap();
    assert_eq!(first.bitrate, 128);
    assert_eq!(first.frequency, 48000);
    assert!(parser.next().is_none());
}

#[test]
fn test_layer3_size() {
    let header = FrameHeader {
        version: Version::Version1,
        layer: Layer::Layer3,
        crc: Protection::Unprotected,
        bitrate: 128,
        frequency: 44100,
        padding: 0,
    };
    let size = header.frame_size();
    assert_eq!(417, size);
}
