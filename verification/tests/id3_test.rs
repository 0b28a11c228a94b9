use id3rs::Frame;
use id3rs::ID3rs;
use id3rs::Picture;
use id3rs::EXTENDED_TAG;
use id3rs::GENRE_TAG;
use id3rs::OBJECT_TAG;
use id3rs::PICTURE_TAG;
use id3rs::TITLE_TAG;

pub const ID3FRAME_SIZE: u32 = 10;

fn syncsafe(n: u32) -> [u8; 4] {
    [
        ((n >> 21) & 0x7f) as u8,
        ((n >> 14) & 0x7f) as u8,
        ((n >> 7) & 0x7f) as u8,
        (n & 0x7f) as u8,
    ]
}

fn push_frame_header(out: &mut Vec<u8>, id: &str, size: u32, v24: bool) {
    out.extend_from_slice(id.as_bytes());
    if v24 {
        out.extend_from_slice(&syncsafe(size));
    } else {
        out.extend_from_slice(&size.to_be_bytes());
    }
    out.extend_from_slice(&[0, 0]);
}

fn utf16_terminated(s: &str) -> Vec<u8> {
    let mut out = vec![0xFF, 0xFE];
    for unit in s.encode_utf16() {
        out.extend_from_slice(&unit.to_le_bytes());
    }
    out.extend_from_slice(&[0, 0]);
    out
}

fn utf16_unterminated(s: &str) -> Vec<u8> {
    let mut out = vec![0xFF, 0xFE];
    for unit in s.encode_utf16() {
        out.extend_from_slice(&unit.to_le_bytes());
    }
    out
}

/// The v2.4 sample tag: twelve frames inside an 1114-byte body.
fn tink_v24_file() -> Vec<u8> {
    let mut body: Vec<u8> = Vec::new();

    push_frame_header(&mut body, "GEOB", 80, true);
    body.push(0);
    body.extend_from_slice(b"application/vnd.rekordbox.dat\x00");
    body.extend_from_slice(b"ANLZ0000.DAT\x00");
    body.extend_from_slice(b"Rekordbox Analysis Data\x00");
    body.extend_from_slice(b"Hello, world");

    push_frame_header(&mut body, "TXXX", 12, true);
    body.extend_from_slice(b"\x00Hello\x00World");

    push_frame_header(&mut body, "TIT2", 5, true);
    body.extend_from_slice(b"\x03Tink");

    push_frame_header(&mut body, "TPE1", 6, true);
    body.extend_from_slice(b"\x03Apple");

    push_frame_header(&mut body, "COMM", 17, true);
    body.extend_from_slice(b"\x00eng\x00From Big Sur");

    push_frame_header(&mut body, "TCON", 7, true);
    body.extend_from_slice(b"\x03sounds");

    push_frame_header(&mut body, "TXXX", 23, true);
    body.push(1);
    body.extend_from_slice(&utf16_terminated("こんにちは"));
    body.extend_from_slice(&utf16_terminated("世界"));

    push_frame_header(&mut body, "TKEY", 3, true);
    body.extend_from_slice(b"\x034A");

    push_frame_header(&mut body, "TXXX", 14, true);
    body.extend_from_slice(b"\x00EnergyLevel\x006");

    push_frame_header(&mut body, "TIT3", 1, true);
    body.push(3);

    push_frame_header(&mut body, "GRP1", 5, true);
    body.extend_from_slice(b"\x002241");

    assert_eq!(body.len(), 1114 - 831);
    body.resize(1114, 0);

    let mut file = vec![0x49, 0x44, 0x33, 4, 0, 0];
    file.extend_from_slice(&syncsafe(1114));
    file.extend_from_slice(&body);
    // a sliver of audio payload after the tag
    file.extend_from_slice(&[0xFF, 0xFB, 0x94, 0x44]);
    file
}

/// The v2.3 sample tag: plain big-endian frame sizes.
fn tink_v23_file() -> Vec<u8> {
    let mut body: Vec<u8> = Vec::new();

    push_frame_header(&mut body, "TIT2", 5, false);
    body.extend_from_slice(b"\x03Tink");

    push_frame_header(&mut body, "TPE1", 6, false);
    body.extend_from_slice(b"\x03Apple");

    push_frame_header(&mut body, "COMM", 17, false);
    body.extend_from_slice(b"\x00eng\x00From Big Sur");

    push_frame_header(&mut body, "GEOB", 80, false);
    body.push(0);
    body.extend_from_slice(b"application/vnd.rekordbox.dat\x00");
    body.extend_from_slice(b"ANLZ0000.DAT\x00");
    body.extend_from_slice(b"Rekordbox Analysis Data\x00");
    body.extend_from_slice(b"Hello, world");

    push_frame_header(&mut body, "TXXX", 12, false);
    body.extend_from_slice(b"\x00Hello\x00World");

    push_frame_header(&mut body, "TXXX", 21, false);
    body.push(1);
    body.extend_from_slice(&utf16_terminated("こんにちは"));
    body.extend_from_slice(&utf16_unterminated("世界"));

    let size = body.len() as u32;
    let mut file = vec![0x49, 0x44, 0x33, 3, 0, 0];
    file.extend_from_slice(&syncsafe(size));
    file.extend_from_slice(&body);
    file
}

#[test]
pub fn id3_test_test_reading() {
    let tag = ID3rs::read(&tink_v23_file()).unwrap();

    assert_eq!(tag.text(TITLE_TAG), Some("Tink"));
    assert_eq!(tag.title(), Some("Tink"));
    assert_eq!(tag.artist(), Some("Apple"));
    assert_eq!(tag.comment(), Some("From Big Sur"));
}

#[test]
pub fn test_all_objects() {
    let tag = ID3rs::read(&tink_v23_file()).unwrap();
    let data = "Hello, world".as_bytes().to_vec();
    assert_eq!(tag.objects(OBJECT_TAG), vec![&Frame::Object {
        id: OBJECT_TAG.to_string(),
        size: 80,
        flags: 0,
        mime_type: "application/vnd.rekordbox.dat".to_string(),
        filename: "ANLZ0000.DAT".to_string(),
        description: "Rekordbox Analysis Data".to_string(),
        data,
    }]);
}

#[test]
pub fn test_find_object() {
    let tag = ID3rs::read(&tink_v23_file()).unwrap();
    let data = "Hello, world".as_bytes().to_vec();
    let option = tag.object_by_filename("ANLZ0000.DAT");
    assert_eq!(option, Some(&Frame::Object {
        id: OBJECT_TAG.to_string(),
        size: 80,
        flags: 0,
        mime_type: "application/vnd.rekordbox.dat".to_string(),
        filename: "ANLZ0000.DAT".to_string(),
        description: "Rekordbox Analysis Data".to_string(),
        data,
    }));
}

#[test]
pub fn test_cue_points() {
    // the object holds its payload as text, looked up by description
    let payload = "eyJhbGdvcml0aG0iOjE0LCJjdWVzIjpbeyJuYW1lIjoiQ3VlIDEiLCJ0aW1lIjo0LjQyNDg1NzU4NTM0MTYxNDZ9XX0=";
    let mut tag = ID3rs::read(&tink_v23_file()).unwrap();
    tag.set_object("cues.json", "application/json", "CuePoints", payload.as_bytes());
    let out = tag.write_to(tag.header_size as u32);

    let tag = ID3rs::read(&out).unwrap();
    let data = tag.object_by_description("CuePoints").and_then(|f| match f {
        Frame::Object { data, .. } => Some(data),
        _ => None,
    });
    let result = data
        .map(|data| std::str::from_utf8(data).ok())
        .flatten()
        .map(|str| str.replace('\n', ""));
    assert_eq!(result, Some(payload.to_string()));
}

#[test]
pub fn test_extended_text_8859() {
    let tag = ID3rs::read(&tink_v23_file()).unwrap();
    assert_eq!(tag.extended_text_frame("Hello"), Some(&Frame::ExtendedText {
        id: EXTENDED_TAG.to_string(),
        size: 12,
        flags: 0,
        description: "Hello".to_string(),
        value: "World".to_string(),
    }));
}

#[test]
pub fn test_extended_text_utf16() {
    let tag = ID3rs::read(&tink_v23_file()).unwrap();
    assert_eq!(tag.extended_text_frame("こんにちは"), Some(&Frame::ExtendedText {
        id: EXTENDED_TAG.to_string(),
        size: 21,
        flags: 0,
        description: "こんにちは".to_string(),
        value: "世界".to_string(),
    }));
    assert_eq!(tag.extended_text("こんにちは"), Some("世界"));
}

#[test]
pub fn test_invalid_version() {
    let mut file = vec![0x49, 0x44, 0x33, 5, 0, 0];
    file.extend_from_slice(&syncsafe(0));
    let result = ID3rs::read(&file).err().unwrap().message();
    assert_eq!(result, "Invalid version: 5".to_string());
}

#[test]
pub fn test_set_object() {
    let mut tag = ID3rs::read(&tink_v24_file()).unwrap();

    tag.set_object("HELLO.TXT", "text/plain", "Hello", "Hello, world".as_bytes());
    tag.set_extended_text("EnergyLevel", "99");
    let out = tag.write_to(tag.header_size as u32);

    let tag = ID3rs::read(&out).unwrap();
    assert_eq!(tag.object_by_filename("HELLO.TXT").is_some(), true);
    assert_eq!(tag.extended_text("EnergyLevel"), Some("99"));
}

#[test]
pub fn test_change_extended_text() {
    let mut tag = ID3rs::read(&tink_v24_file()).unwrap();
    let title = tag.title().unwrap().to_string();
    tag.set_extended_text("OriginalTitle", &title);
    tag.set_extended_text("EnergyLevel", "99");
    let out = tag.write_to(tag.header_size as u32);

    let tag = ID3rs::read(&out).unwrap();
    assert_eq!(tag.extended_text("OriginalTitle"), Some("Tink"));
    assert_eq!(tag.extended_text("EnergyLevel"), Some("99"));
}

#[test]
pub fn test_set_popularity() {
    let mut tag = ID3rs::read(&tink_v24_file()).unwrap();
    tag.set_popularity("traktor@native-instruments.de", 3);
    tag.set_track(1, 1);
    let out = tag.write_to(tag.header_size as u32);

    let tag = ID3rs::read(&out).unwrap();
    assert_eq!(tag.track(), Some("1/1"));
    assert_eq!(tag.popularity(), Some(("traktor@native-instruments.de", 3)));
}

#[test]
pub fn test_set_track() {
    let mut tag = ID3rs::read(&tink_v24_file()).unwrap();
    tag.set_track(1, 1);
    let out = tag.write_to(tag.header_size as u32);

    let tag = ID3rs::read(&out).unwrap();
    assert_eq!(tag.track(), Some("1/1"));
}

#[test]
pub fn test_attach_picture() {
    let mut tag = ID3rs::read(&tink_v24_file()).unwrap();
    let cover: Vec<u8> = (0..4096u32).map(|i| (i % 251) as u8).collect();
    tag.set_attached_picture(Picture::FrontCover, "image/jpg", "cover", &cover);
    let out = tag.write_to(tag.header_size as u32);

    let tag = ID3rs::read(&out).unwrap();
    let picture = tag.attached_picture(Picture::FrontCover).unwrap();
    match picture {
        Frame::Picture { data, .. } => {
            assert_eq!(cover.len(), data.len());
        }
        _ => panic!("not a picture frame"),
    }
}

#[test]
pub fn test_attached_picture() {
    let bzhoek: Vec<u8> = vec![0x89, 0x50, 0x4E, 0x47, 0x0D, 0x0A, 0x1A, 0x0A, 1, 2, 3, 4];
    let mut tag = ID3rs::read(&tink_v24_file()).unwrap();
    tag.set_attached_picture(Picture::FrontCover, "image/png", "", &bzhoek);
    let out = tag.write_to(tag.header_size as u32);

    let tag = ID3rs::read(&out).unwrap();
    let picture = tag.attached_picture(Picture::FrontCover).unwrap();
    match picture {
        Frame::Picture { id, data, mime_type, .. } => {
            assert_eq!(id, PICTURE_TAG);
            assert_eq!(mime_type, "image/png");
            assert_eq!(bzhoek.len(), data.len());
            assert_eq!(&bzhoek, data);
        }
        _ => panic!("not a picture frame"),
    }
}

#[test]
pub fn test_utf8_energy_level() {
    let tag = ID3rs::read(&tink_v24_file()).unwrap();
    assert_eq!(tag.extended_text("Hello"), Some("World"));
}

#[test]
pub fn test_reading() {
    let tag = ID3rs::read(&tink_v24_file()).unwrap();

    assert_eq!(tag.text(TITLE_TAG), Some("Tink"));
    assert_eq!(tag.extended_text("EnergyLevel"), Some("6"));
    assert_eq!(tag.extended_text("OriginalTitle"), None);
    assert_eq!(tag.title(), Some("Tink"));
    assert_eq!(tag.subtitle(), Some(""));
    assert_eq!(tag.key(), Some("4A"));
    assert_eq!(tag.grouping(), Some("2241"));
    assert_eq!(tag.artist(), Some("Apple"));
    assert_eq!(tag.comment(), Some("From Big Sur"));
}

#[test]
pub fn test_reading_genre() {
    let tag = ID3rs::read(&tink_v24_file()).unwrap();

    assert_eq!(tag.text(GENRE_TAG), Some("sounds"));
    assert_eq!(tag.genre(), Some("sounds"));
}

#[test]
pub fn test_changing_genre() {
    let mut tag = ID3rs::read(&tink_v24_file()).unwrap();
    assert_eq!(tag.text(GENRE_TAG), Some("sounds"));
    assert_eq!(tag.genre(), Some("sounds"));
    tag.set_genre("notech");
    let out = tag.write_to(tag.header_size as u32);

    let tag = ID3rs::read(&out).unwrap();
    assert_eq!(tag.genre(), Some("notech"));
}

#[test]
pub fn test_unmodified_frame_count() {
    let tag = ID3rs::read(&tink_v24_file()).unwrap();
    assert_eq!(tag.frames.len(), 12);
    assert_eq!(tag.extended_text("OriginalTitle"), None);
}

#[test]
pub fn test_change_comment() {
    let mut tag = ID3rs::read(&tink_v24_file()).unwrap();
    tag.set_comment("", "New comment");
    let out = tag.write_to(tag.header_size as u32);

    let tag = ID3rs::read(&out).unwrap();
    assert_eq!(tag.comment(), Some("New comment"));
}

#[test]
pub fn test_change_copy() {
    let mut tag = ID3rs::read(&tink_v24_file()).unwrap();
    tag.set_title("Bleek");
    tag.set_extended_text("EnergyLevel", "99");
    let out = tag.write_to(tag.header_size as u32);

    let tag = ID3rs::read(&out).unwrap();
    assert_eq!(tag.title(), Some("Bleek"));
    assert_eq!(tag.extended_text("EnergyLevel"), Some("99"));
}

#[test]
pub fn test_change_inplace() {
    let mut tag = ID3rs::read(&tink_v24_file()).unwrap();
    tag.set_title("Bleek");
    tag.set_extended_text("EnergyLevel", "99");
    // the rendered block is the same whether the destination is the
    // tag's own file or a new one; both reads see the same frames
    let inplace = tag.write(tag.header_size as u32);
    let copy = tag.write_to(tag.header_size as u32);
    assert_eq!(inplace, copy);

    let tag = ID3rs::read(&inplace).unwrap();
    assert_eq!(tag.title(), Some("Bleek"));
    assert_eq!(tag.extended_text("EnergyLevel"), Some("99"));
}

#[test]
pub fn test_sync_safe() {
    assert_eq!(as_syncsafe_bytes(66872), 0x040A38);
    assert_eq!(
        as_syncsafe_bytes(0b00001111111_1111111_1111111_1111111u32),
        0b01111111011111110111111101111111u32
    );

    assert_eq!(id3rs::syncsafe::as_syncsafe(0b1111111_1111111u32), vec![0, 0, 127, 127]);
    assert_eq!(id3rs::syncsafe::as_syncsafe(0b1111111_1111111_1111111u32), vec![0, 127, 127, 127]);
    assert_eq!(
        id3rs::syncsafe::as_syncsafe(0b00001111111_1111111_1111111_1111111u32),
        vec![127, 127, 127, 127]
    );
}

fn as_syncsafe_bytes(total: u32) -> u32 {
    let vec = id3rs::syncsafe::as_syncsafe(total);
    let (bytes, _) = vec.as_slice().split_at(std::mem::size_of::<u32>());
    u32::from_be_bytes(bytes.try_into().unwrap())
}

#[test]
pub fn test_sum_frames() {
    let tag = ID3rs::read(&tink_v24_file()).unwrap();
    let sum = tag.frames.iter().fold(0u32, |sum, frame| {
        sum + match frame {
            Frame::Generic { size, .. } => ID3FRAME_SIZE + size,
            Frame::Text { size, .. } => ID3FRAME_SIZE + size,
            Frame::Comment { size, .. } => ID3FRAME_SIZE + size,
            Frame::ExtendedText { size, .. } => ID3FRAME_SIZE + size,
            Frame::Object { size, .. } => ID3FRAME_SIZE + size,
            Frame::Padding { size } => 0 + size,
            Frame::Picture { size, .. } => ID3FRAME_SIZE + size,
            Frame::Popularity { .. } => 0,
        }
    });

    assert_eq!(sum, 1114);
}
