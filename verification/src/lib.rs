//! Reading, editing and rewriting of ID3v2 metadata tags, together with
//! a scanner for the MPEG audio frames that follow a tag.
//!
//! Three cores share one byte layout: the binary frame codec
//! ([`decode`], [`encode`]) that handles the v2.3 and v2.4 size schemes
//! and the tag's text encodings, the tag rewriter ([`tag`]) that edits
//! metadata without recopying the audio payload when the existing
//! padding suffices, and the resumable MPEG frame scanner ([`mpeg`]).
//! All three rest on the syncsafe integer primitive ([`syncsafe`]).
//!
//! The library works on bytes alone; opening, staging and rewriting
//! files is its caller's business.

pub mod decode;
pub mod encode;
pub mod frames;
pub mod laws;
pub mod mpeg;
pub mod syncsafe;
pub mod tag;
pub mod text;
pub mod wire;

pub use frames::Frame;
pub use frames::FrameModel;
pub use frames::Header;
pub use frames::Id3Error;
pub use frames::Picture;
pub use frames::SizeScheme;
pub use frames::ALBUM_ARTIST_TAG;
pub use frames::ALBUM_TAG;
pub use frames::ARTIST_TAG;
pub use frames::COMMENT_TAG;
pub use frames::EXTENDED_TAG;
pub use frames::GENRE_TAG;
pub use frames::GROUPING_TAG;
pub use frames::KEY_TAG;
pub use frames::OBJECT_TAG;
pub use frames::PICTURE_TAG;
pub use frames::POPULARITY_TAG;
pub use frames::RECORDING_TAG;
pub use frames::RELEASE_TAG;
pub use frames::SUBTITLE_TAG;
pub use frames::TITLE_TAG;
pub use frames::TRACK_TAG;
pub use tag::ID3rs;
pub use tag::ID3HEADER_ALIGN;
pub use tag::ID3HEADER_SIZE;
