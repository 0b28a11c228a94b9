//! The data model of a tag: the fixed header, the closed set of frame
//! variants, and the errors a load can end in.

use crate::text::spec_ascii_chars;
use crate::text::spec_decimal_bytes;
use vstd::prelude::*;
use vstd::string::StringExecFns;

verus! {

/// Frame id of the title text frame.
pub const TITLE_TAG: &'static str = "TIT2";

/// Frame id of the subtitle text frame.
pub const SUBTITLE_TAG: &'static str = "TIT3";

/// Frame id of the recording-date text frame.
pub const RECORDING_TAG: &'static str = "TDRC";

/// Frame id of the release-date text frame.
pub const RELEASE_TAG: &'static str = "TDRL";

/// Frame id of the album text frame.
pub const ALBUM_TAG: &'static str = "TALB";

/// Frame id of the artist text frame.
pub const ARTIST_TAG: &'static str = "TPE1";

/// Frame id of the album-artist text frame.
pub const ALBUM_ARTIST_TAG: &'static str = "TPE2";

/// Frame id of the track-number text frame.
pub const TRACK_TAG: &'static str = "TRCK";

/// Frame id of the popularimeter frame.
pub const POPULARITY_TAG: &'static str = "POPM";

/// Frame id of the genre text frame.
pub const GENRE_TAG: &'static str = "TCON";

/// Frame id of the musical-key text frame.
pub const KEY_TAG: &'static str = "TKEY";

/// Frame id of the comment frame.
pub const COMMENT_TAG: &'static str = "COMM";

/// Frame id of the embedded-object frame.
pub const OBJECT_TAG: &'static str = "GEOB";

/// Frame id of the grouping text frame.
pub const GROUPING_TAG: &'static str = "GRP1";

/// Frame id of the user-defined text frame.
pub const EXTENDED_TAG: &'static str = "TXXX";

/// Frame id of the attached-picture frame.
pub const PICTURE_TAG: &'static str = "APIC";

/// The fixed 10-byte header at the start of a tagged file: `"ID3"`,
/// version, revision, flags, and the syncsafe body size (which excludes
/// the header itself).
#[derive(Debug, Clone, Copy, PartialEq, Eq, Structural)]
pub struct Header {
    pub version: u8,
    pub revision: u8,
    pub flags: u8,
    pub tag_size: u32,
}

/// One typed metadata record of a tag body.
///
/// `size` is the byte count the frame declared when it was read; on write
/// every size is recomputed from the current field values, never copied.
#[derive(Debug, Clone, PartialEq, Eq)]
pub enum Frame {
    /// An unrecognised frame, kept verbatim.
    Generic { id: String, size: u32, flags: u16, data: Vec<u8> },
    /// A comment (`COMM`): language, description and value.
    Comment {
        id: String,
        size: u32,
        flags: u16,
        language: String,
        description: String,
        value: String,
    },
    /// A user-defined text frame (`TXXX`), keyed by its description.
    ExtendedText { id: String, size: u32, flags: u16, description: String, value: String },
    /// A standard text frame (`T...`, plus legacy grouping ids).
    Text { id: String, size: u32, flags: u16, text: String },
    /// A popularimeter (`POPM`): rating byte keyed by email.
    Popularity { id: String, size: u32, flags: u16, email: String, rating: u8 },
    /// An embedded object (`GEOB`).
    Object {
        id: String,
        size: u32,
        flags: u16,
        mime_type: String,
        filename: String,
        description: String,
        data: Vec<u8>,
    },
    /// An attached picture (`APIC`).
    Picture {
        id: String,
        size: u32,
        flags: u16,
        mime_type: String,
        kind: u8,
        description: String,
        data: Vec<u8>,
    },
    /// The run of zero bytes at the end of the body.
    Padding { size: u32 },
}

/// The mathematical shape of a [`Frame`]: the same variants over
/// character and byte sequences.
pub enum FrameModel {
    Generic { id: Seq<char>, size: u32, flags: u16, data: Seq<u8> },
    Comment {
        id: Seq<char>,
        size: u32,
        flags: u16,
        language: Seq<char>,
        description: Seq<char>,
        value: Seq<char>,
    },
    ExtendedText { id: Seq<char>, size: u32, flags: u16, description: Seq<char>, value: Seq<char> },
    Text { id: Seq<char>, size: u32, flags: u16, text: Seq<char> },
    Popularity { id: Seq<char>, size: u32, flags: u16, email: Seq<char>, rating: u8 },
    Object {
        id: Seq<char>,
        size: u32,
        flags: u16,
        mime_type: Seq<char>,
        filename: Seq<char>,
        description: Seq<char>,
        data: Seq<u8>,
    },
    Picture {
        id: Seq<char>,
        size: u32,
        flags: u16,
        mime_type: Seq<char>,
        kind: u8,
        description: Seq<char>,
        data: Seq<u8>,
    },
    Padding { size: u32 },
}

impl View for Frame {
    type V = FrameModel;

    open spec fn view(&self) -> FrameModel {
        match self {
            Frame::Generic { id, size, flags, data } => FrameModel::Generic {
                id: id@,
                size: *size,
                flags: *flags,
                data: data@,
            },
            Frame::Comment { id, size, flags, language, description, value } => {
                FrameModel::Comment {
                    id: id@,
                    size: *size,
                    flags: *flags,
                    language: language@,
                    description: description@,
                    value: value@,
                }
            },
            Frame::ExtendedText { id, size, flags, description, value } => {
                FrameModel::ExtendedText {
                    id: id@,
                    size: *size,
                    flags: *flags,
                    description: description@,
                    value: value@,
                }
            },
            Frame::Text { id, size, flags, text } => FrameModel::Text {
                id: id@,
                size: *size,
                flags: *flags,
                text: text@,
            },
            Frame::Popularity { id, size, flags, email, rating } => FrameModel::Popularity {
                id: id@,
                size: *size,
                flags: *flags,
                email: email@,
                rating: *rating,
            },
            Frame::Object { id, size, flags, mime_type, filename, description, data } => {
                FrameModel::Object {
                    id: id@,
                    size: *size,
                    flags: *flags,
                    mime_type: mime_type@,
                    filename: filename@,
                    description: description@,
                    data: data@,
                }
            },
            Frame::Picture { id, size, flags, mime_type, kind, description, data } => {
                FrameModel::Picture {
                    id: id@,
                    size: *size,
                    flags: *flags,
                    mime_type: mime_type@,
                    kind: *kind,
                    description: description@,
                    data: data@,
                }
            },
            Frame::Padding { size } => FrameModel::Padding { size: *size },
        }
    }
}

/// The picture kinds the public interface distinguishes; each is stored
/// as one kind byte.
#[derive(Debug, Clone, Copy, PartialEq, Eq, Structural)]
pub enum Picture {
    Icon,
    OtherIcon,
    FrontCover,
    BackCover,
}

impl Picture {
    /// The kind byte this picture type is stored as.
    pub open spec fn spec_code(&self) -> u8 {
        match self {
            Picture::Icon => 1,
            Picture::OtherIcon => 2,
            Picture::FrontCover => 3,
            Picture::BackCover => 4,
        }
    }

    /// Returns the kind byte this picture type is stored as.
    #[verifier::when_used_as_spec(spec_code)]
    pub fn code(&self) -> (r: u8)
        ensures
            r == self.spec_code(),
    {
        match self {
            Picture::Icon => 1,
            Picture::OtherIcon => 2,
            Picture::FrontCover => 3,
            Picture::BackCover => 4,
        }
    }
}

/// Why a tag failed to load.
#[derive(Debug, Clone, Copy, PartialEq, Eq, Structural)]
pub enum Id3Error {
    /// The header carries a version other than 3 or 4; holds that byte.
    InvalidVersion(u8),
    /// The tag body does not match the frame grammar.
    FrameDecode,
    /// The input ends before the tag the header declares is complete.
    Truncated,
}

impl Id3Error {
    /// The message this error is reported with.
    pub open spec fn spec_message(&self) -> Seq<char> {
        match self {
            Id3Error::InvalidVersion(v) => "Invalid version: "@ + spec_ascii_chars(
                spec_decimal_bytes(*v as nat),
            ),
            Id3Error::FrameDecode => "Frames error"@,
            Id3Error::Truncated => "Truncated tag"@,
        }
    }

    /// Renders the error as the reader reports it.
    pub fn message(&self) -> (r: String)
        ensures
            r@ == self.spec_message(),
    {
        match self {
            Id3Error::InvalidVersion(v) => {
                let digits = crate::text::decimal_string(*v as u64);
                String::from_str("Invalid version: ").concat(digits.as_str())
            },
            Id3Error::FrameDecode => String::from_str("Frames error"),
            Id3Error::Truncated => String::from_str("Truncated tag"),
        }
    }
}

/// The per-version size-field scheme the frame codec is parameterised
/// by: v2.3 stores plain 32-bit big-endian frame sizes, v2.4 stores
/// syncsafe ones.
#[derive(Debug, Clone, Copy, PartialEq, Eq, Structural)]
pub enum SizeScheme {
    V23,
    V24,
}

} // verus!
