//! The tag: the unit of edit and persistence.
//!
//! A tag is loaded from the file's bytes, its frames are edited through
//! the `set_*` methods (remove the first frame matching the selector,
//! append the replacement), and [`ID3rs::write_to`] renders the new tag
//! block — header, frames, padding — that replaces the old one on disk.
//! Writing never recopies the audio payload when the frames fit inside
//! the original body: the padding policy fills the slack instead.

use crate::decode::spec_frames_view;
use crate::decode::spec_parse_all;
use crate::encode::push_zeros;
use crate::encode::spec_encode_frames;
use crate::encode::write_id3_frames;
use crate::frames::Frame;
use crate::frames::FrameModel;
use crate::frames::Id3Error;
use crate::frames::Picture;
use crate::frames::SizeScheme;
use crate::syncsafe::as_syncsafe;
use crate::syncsafe::spec_syncsafe_encode;
use crate::text::string_eq;
use vstd::arithmetic::div_mod::lemma_add_mod_noop;
use vstd::prelude::*;
use vstd::string::StringExecFns;

verus! {

/// The tag header's fixed length in bytes.
pub const ID3HEADER_SIZE: u64 = 10;

/// The alignment unit of the padding policy.
pub const ID3HEADER_ALIGN: u64 = 512;

/// A loaded tag: the body length it had on disk, its frames, and
/// whether it has been edited since.
pub struct ID3rs {
    /// The tag body's length when the tag was loaded; zero when the
    /// file carried no tag.
    pub header_size: u64,
    /// The frames, in the order they are written.
    pub frames: Vec<Frame>,
    /// Whether a setter has run since the last load or write.
    pub dirty: bool,
}

/// The zero fill the padding policy adds after `written` bytes of
/// frames: the original body's slack when the frames still fit in it,
/// otherwise fill to the next alignment boundary plus one full
/// alignment unit.
pub open spec fn spec_padding_len(written: int, original: int) -> int {
    if written < original {
        original - written
    } else {
        2 * (ID3HEADER_ALIGN as int) - ((ID3HEADER_SIZE as int + written) % (
        ID3HEADER_ALIGN as int))
    }
}

/// The tag block `write_to` renders: a header forced to version 4 with
/// the recomputed syncsafe body size, every frame re-encoded, and the
/// padding policy's zero fill.
pub open spec fn spec_render(frames: Seq<FrameModel>, original: int) -> Seq<u8> {
    let body = spec_encode_frames(frames);
    let pad = spec_padding_len(body.len() as int, original);
    let total = body.len() + pad;
    seq![0x49u8, 0x44u8, 0x33u8, 0x04u8, 0u8, 0u8] + spec_syncsafe_encode(
        ((total % 0x1_0000_0000) as u32),
    ) + body + Seq::new(pad as nat, |i: int| 0u8)
}

impl ID3rs {
    /// Loads a tag from the file's bytes. A file without the `"ID3"`
    /// signature is an empty tag, not an error; a version other than 3
    /// or 4, a body shorter than the header declares, or a body that
    /// does not match the frame grammar is.
    pub fn read(data: &[u8]) -> (r: Result<ID3rs, Id3Error>)
        ensures
            match crate::decode::spec_file_header(data@) {
                None => r matches Ok(t) && t.header_size == 0 && t.frames@.len() == 0 && !t.dirty,
                Some(h) => {
                    if data@.len() < 10 + h.tag_size {
                        r matches Err(e) && e == Id3Error::Truncated
                    } else if h.version != 3 && h.version != 4 {
                        r matches Err(e) && e == Id3Error::InvalidVersion(h.version)
                    } else {
                        let body = data@.subrange(10, 10 + h.tag_size);
                        let sz = if h.version == 3 {
                            SizeScheme::V23
                        } else {
                            SizeScheme::V24
                        };
                        match spec_parse_all(body, 0, sz) {
                            Some(models) => r matches Ok(t) && t.header_size == h.tag_size as u64
                                && spec_frames_view(t.frames@) == models && !t.dirty,
                            None => r matches Err(e) && e == Id3Error::FrameDecode,
                        }
                    }
                },
            },
    {
        match crate::decode::file_header(data) {
            None => Ok(ID3rs { header_size: 0, frames: Vec::new(), dirty: false }),
            Some(h) => {
                let ts = h.tag_size as usize;
                if data.len() - 10 < ts {
                    return Err(Id3Error::Truncated);
                }
                if h.version != 3 && h.version != 4 {
                    return Err(Id3Error::InvalidVersion(h.version));
                }
                let sz = if h.version == 3 {
                    SizeScheme::V23
                } else {
                    SizeScheme::V24
                };
                let body = &data[10..10 + ts];
                match crate::decode::all_frames(body, sz) {
                    Some(frames) => Ok(
                        ID3rs { header_size: h.tag_size as u64, frames, dirty: false },
                    ),
                    None => Err(Id3Error::FrameDecode),
                }
            },
        }
    }

    /// Renders the tag block that replaces the old tag on disk. The
    /// caller gives the body length of the tag as it stands on disk
    /// (zero when the file had none) and appends the audio payload
    /// right after the returned bytes; the rendered block depends on
    /// nothing else, in particular not on the destination.
    pub fn write_to(&self, original_body_size: u32) -> (r: Vec<u8>)
        ensures
            r@ == spec_render(spec_frames_view(self.frames@), original_body_size as int),
    {
        let mut body: Vec<u8> = Vec::new();
        write_id3_frames(self.frames.as_slice(), &mut body);
        let written = body.len();
        let orig = original_body_size as usize;
        let align = ID3HEADER_ALIGN as usize;
        let pad: usize = if written < orig {
            orig - written
        } else {
            let m = ((written % align) + ID3HEADER_SIZE as usize) % align;
            proof {
                lemma_add_mod_noop(ID3HEADER_SIZE as int, written as int, ID3HEADER_ALIGN as int);
            }
            2 * align - m
        };
        push_zeros(&mut body, pad);
        let total = body.len();
        let len64: u64 = total as u64;
        proof {
            crate::wire::lemma_trunc_u32(len64);
        }
        let sb = as_syncsafe(#[verifier::truncate] (len64 as u32));
        let mut out: Vec<u8> = Vec::new();
        out.push(0x49);
        out.push(0x44);
        out.push(0x33);
        out.push(0x04);
        out.push(0);
        out.push(0);
        out.extend_from_slice(sb.as_slice());
        out.extend_from_slice(body.as_slice());
        proof {
            assert(out@ =~= spec_render(
                spec_frames_view(self.frames@),
                original_body_size as int,
            ));
        }
        out
    }

    /// Renders the tag as [`ID3rs::write_to`] does, for writing back to
    /// the tag's own file, and marks the tag clean.
    pub fn write(&mut self, original_body_size: u32) -> (r: Vec<u8>)
        ensures
            r@ == spec_render(spec_frames_view(old(self).frames@), original_body_size as int),
            final(self).frames == old(self).frames,
            final(self).header_size == old(self).header_size,
            !final(self).dirty,
    {
        let out = self.write_to(original_body_size);
        self.dirty = false;
        out
    }
}

// ---- lookups over the frame list ----

/// The value of the first text frame with the given id.
pub open spec fn spec_text_of(frames: Seq<Frame>, id: Seq<char>) -> Option<Seq<char>>
    decreases frames.len(),
{
    if frames.len() == 0 {
        None
    } else if frames[0] matches Frame::Text { id: fid, .. } && fid@ == id {
        match frames[0] {
            Frame::Text { text, .. } => Some(text@),
            _ => None,
        }
    } else {
        spec_text_of(frames.drop_first(), id)
    }
}

/// The value of the first `COMM` comment frame.
pub open spec fn spec_comment_of(frames: Seq<Frame>) -> Option<Seq<char>>
    decreases frames.len(),
{
    if frames.len() == 0 {
        None
    } else if frames[0] matches Frame::Comment { id: fid, .. } && fid@ == "COMM"@ {
        match frames[0] {
            Frame::Comment { value, .. } => Some(value@),
            _ => None,
        }
    } else {
        spec_comment_of(frames.drop_first())
    }
}

/// The email and raw rating byte of the first `POPM` frame.
pub open spec fn spec_popularity_of(frames: Seq<Frame>) -> Option<(Seq<char>, u8)>
    decreases frames.len(),
{
    if frames.len() == 0 {
        None
    } else if frames[0] matches Frame::Popularity { id: fid, .. } && fid@ == "POPM"@ {
        match frames[0] {
            Frame::Popularity { email, rating, .. } => Some((email@, rating)),
            _ => None,
        }
    } else {
        spec_popularity_of(frames.drop_first())
    }
}

/// Every object frame with the given id, in order.
pub open spec fn spec_objects_of(frames: Seq<Frame>, id: Seq<char>) -> Seq<Frame>
    decreases frames.len(),
{
    if frames.len() == 0 {
        Seq::empty()
    } else {
        let rest = spec_objects_of(frames.drop_first(), id);
        if frames[0] matches Frame::Object { id: fid, .. } && fid@ == id {
            seq![frames[0]] + rest
        } else {
            rest
        }
    }
}

/// The first `GEOB` frame with the given filename.
pub open spec fn spec_object_by_filename_of(frames: Seq<Frame>, name: Seq<char>) -> Option<Frame>
    decreases frames.len(),
{
    if frames.len() == 0 {
        None
    } else if frames[0] matches Frame::Object { id: fid, filename, .. } && fid@ == "GEOB"@
        && filename@ == name {
        Some(frames[0])
    } else {
        spec_object_by_filename_of(frames.drop_first(), name)
    }
}

/// The first `GEOB` frame with the given description.
pub open spec fn spec_object_by_description_of(frames: Seq<Frame>, text: Seq<char>) -> Option<
    Frame,
>
    decreases frames.len(),
{
    if frames.len() == 0 {
        None
    } else if frames[0] matches Frame::Object { id: fid, description, .. } && fid@ == "GEOB"@
        && description@ == text {
        Some(frames[0])
    } else {
        spec_object_by_description_of(frames.drop_first(), text)
    }
}

/// The first `TXXX` frame with the given description.
pub open spec fn spec_extended_text_frame_of(frames: Seq<Frame>, name: Seq<char>) -> Option<Frame>
    decreases frames.len(),
{
    if frames.len() == 0 {
        None
    } else if frames[0] matches Frame::ExtendedText { description, .. } && description@ == name {
        Some(frames[0])
    } else {
        spec_extended_text_frame_of(frames.drop_first(), name)
    }
}

/// The first picture frame stored with the given kind byte.
pub open spec fn spec_attached_picture_of(frames: Seq<Frame>, kind: u8) -> Option<Frame>
    decreases frames.len(),
{
    if frames.len() == 0 {
        None
    } else if frames[0] matches Frame::Picture { kind: k, .. } && k == kind {
        Some(frames[0])
    } else {
        spec_attached_picture_of(frames.drop_first(), kind)
    }
}

/// The size of the first padding pseudo-frame, or zero.
pub open spec fn spec_padding_of(frames: Seq<Frame>) -> u32
    decreases frames.len(),
{
    if frames.len() == 0 {
        0
    } else if frames[0] matches Frame::Padding { .. } {
        match frames[0] {
            Frame::Padding { size } => size,
            _ => 0,
        }
    } else {
        spec_padding_of(frames.drop_first())
    }
}

impl ID3rs {
    /// Returns the value of the first text frame with the given id.
    pub fn text(&self, identifier: &str) -> (r: Option<&str>)
        ensures
            match r {
                Some(s) => spec_text_of(self.frames@, identifier@) == Some(s@),
                None => spec_text_of(self.frames@, identifier@) is None,
            },
    {
        let n = self.frames.len();
        let mut k: usize = 0;
        proof {
            assert(self.frames@.skip(0) =~= self.frames@);
        }
        while k < n
            invariant
                k <= n,
                n == self.frames@.len(),
                spec_text_of(self.frames@, identifier@) == spec_text_of(
                    self.frames@.skip(k as int),
                    identifier@,
                ),
            decreases n - k,
        {
            proof {
                assert(self.frames@.skip(k as int)[0] == self.frames@[k as int]);
                assert(self.frames@.skip(k as int).drop_first() =~= self.frames@.skip(k + 1));
            }
            match &self.frames[k] {
                Frame::Text { id, text, .. } => {
                    if string_eq(id, identifier) {
                        return Some(text.as_str());
                    }
                },
                _ => {},
            }
            k += 1;
        }
        proof {
            assert(self.frames@.skip(n as int).len() == 0);
        }
        None
    }

    /// Returns the value of the first `COMM` comment frame.
    pub fn comment(&self) -> (r: Option<&str>)
        ensures
            match r {
                Some(s) => spec_comment_of(self.frames@) == Some(s@),
                None => spec_comment_of(self.frames@) is None,
            },
    {
        let n = self.frames.len();
        let mut k: usize = 0;
        proof {
            assert(self.frames@.skip(0) =~= self.frames@);
        }
        while k < n
            invariant
                k <= n,
                n == self.frames@.len(),
                spec_comment_of(self.frames@) == spec_comment_of(self.frames@.skip(k as int)),
            decreases n - k,
        {
            proof {
                assert(self.frames@.skip(k as int)[0] == self.frames@[k as int]);
                assert(self.frames@.skip(k as int).drop_first() =~= self.frames@.skip(k + 1));
            }
            match &self.frames[k] {
                Frame::Comment { id, value, .. } => {
                    if string_eq(id, "COMM") {
                        return Some(value.as_str());
                    }
                },
                _ => {},
            }
            k += 1;
        }
        proof {
            assert(self.frames@.skip(n as int).len() == 0);
        }
        None
    }

    /// Returns the email of the first `POPM` frame together with its
    /// rating mapped back from the stored byte to the 0 to 5 scale.
    pub fn popularity(&self) -> (r: Option<(&str, u8)>)
        ensures
            match r {
                Some((s, g)) => spec_popularity_of(self.frames@) matches Some((e, raw)) && s@ == e
                    && g == raw / 51,
                None => spec_popularity_of(self.frames@) is None,
            },
    {
        let n = self.frames.len();
        let mut k: usize = 0;
        proof {
            assert(self.frames@.skip(0) =~= self.frames@);
        }
        while k < n
            invariant
                k <= n,
                n == self.frames@.len(),
                spec_popularity_of(self.frames@) == spec_popularity_of(
                    self.frames@.skip(k as int),
                ),
            decreases n - k,
        {
            proof {
                assert(self.frames@.skip(k as int)[0] == self.frames@[k as int]);
                assert(self.frames@.skip(k as int).drop_first() =~= self.frames@.skip(k + 1));
            }
            match &self.frames[k] {
                Frame::Popularity { id, email, rating, .. } => {
                    if string_eq(id, "POPM") {
                        return Some((email.as_str(), *rating / 51));
                    }
                },
                _ => {},
            }
            k += 1;
        }
        proof {
            assert(self.frames@.skip(n as int).len() == 0);
        }
        None
    }

    /// Returns every object frame with the given id, in order.
    pub fn objects(&self, identifier: &str) -> (r: Vec<&Frame>)
        ensures
            r@.map(|i: int, f: &Frame| *f) == spec_objects_of(self.frames@, identifier@),
    {
        let n = self.frames.len();
        let mut out: Vec<&Frame> = Vec::new();
        let mut k: usize = 0;
        proof {
            assert(self.frames@.skip(0) =~= self.frames@);
            assert(out@.map(|i: int, f: &Frame| *f) =~= Seq::<Frame>::empty());
        }
        while k < n
            invariant
                k <= n,
                n == self.frames@.len(),
                spec_objects_of(self.frames@, identifier@) =~= out@.map(|i: int, f: &Frame| *f)
                    + spec_objects_of(self.frames@.skip(k as int), identifier@),
            decreases n - k,
        {
            proof {
                assert(self.frames@.skip(k as int)[0] == self.frames@[k as int]);
                assert(self.frames@.skip(k as int).drop_first() =~= self.frames@.skip(k + 1));
            }
            let ghost prev = out@;
            let mut push_it: bool = false;
            match &self.frames[k] {
                Frame::Object { id, .. } => {
                    if string_eq(id, identifier) {
                        push_it = true;
                    }
                },
                _ => {},
            }
            if push_it {
                out.push(&self.frames[k]);
                proof {
                    assert(out@.map(|i: int, f: &Frame| *f) =~= prev.map(|i: int, f: &Frame| *f)
                        + seq![self.frames@[k as int]]);
                }
            }
            k += 1;
        }
        proof {
            assert(self.frames@.skip(n as int).len() == 0);
            assert(out@.map(|i: int, f: &Frame| *f) + Seq::<Frame>::empty() =~= out@.map(
                |i: int, f: &Frame| *f,
            ));
        }
        out
    }

    /// Returns the first `GEOB` frame with the given filename.
    pub fn object_by_filename(&self, name: &str) -> (r: Option<&Frame>)
        ensures
            match r {
                Some(f) => spec_object_by_filename_of(self.frames@, name@) == Some(*f),
                None => spec_object_by_filename_of(self.frames@, name@) is None,
            },
    {
        let n = self.frames.len();
        let mut k: usize = 0;
        proof {
            assert(self.frames@.skip(0) =~= self.frames@);
        }
        while k < n
            invariant
                k <= n,
                n == self.frames@.len(),
                spec_object_by_filename_of(self.frames@, name@) == spec_object_by_filename_of(
                    self.frames@.skip(k as int),
                    name@,
                ),
            decreases n - k,
        {
            proof {
                assert(self.frames@.skip(k as int)[0] == self.frames@[k as int]);
                assert(self.frames@.skip(k as int).drop_first() =~= self.frames@.skip(k + 1));
            }
            let mut hit: bool = false;
            match &self.frames[k] {
                Frame::Object { id, filename, .. } => {
                    if string_eq(id, "GEOB") && string_eq(filename, name) {
                        hit = true;
                    }
                },
                _ => {},
            }
            if hit {
                return Some(&self.frames[k]);
            }
            k += 1;
        }
        proof {
            assert(self.frames@.skip(n as int).len() == 0);
        }
        None
    }

    /// Returns the first `GEOB` frame with the given description.
    pub fn object_by_description(&self, text: &str) -> (r: Option<&Frame>)
        ensures
            match r {
                Some(f) => spec_object_by_description_of(self.frames@, text@) == Some(*f),
                None => spec_object_by_description_of(self.frames@, text@) is None,
            },
    {
        let n = self.frames.len();
        let mut k: usize = 0;
        proof {
            assert(self.frames@.skip(0) =~= self.frames@);
        }
        while k < n
            invariant
                k <= n,
                n == self.frames@.len(),
                spec_object_by_description_of(self.frames@, text@)
                    == spec_object_by_description_of(self.frames@.skip(k as int), text@),
            decreases n - k,
        {
            proof {
                assert(self.frames@.skip(k as int)[0] == self.frames@[k as int]);
                assert(self.frames@.skip(k as int).drop_first() =~= self.frames@.skip(k + 1));
            }
            let mut hit: bool = false;
            match &self.frames[k] {
                Frame::Object { id, description, .. } => {
                    if string_eq(id, "GEOB") && string_eq(description, text) {
                        hit = true;
                    }
                },
                _ => {},
            }
            if hit {
                return Some(&self.frames[k]);
            }
            k += 1;
        }
        proof {
            assert(self.frames@.skip(n as int).len() == 0);
        }
        None
    }

    /// Returns the value of the first `TXXX` frame with the given
    /// description.
    pub fn extended_text(&self, name: &str) -> (r: Option<&str>)
        ensures
            match r {
                Some(s) => spec_extended_text_frame_of(self.frames@, name@) matches Some(f) && (
                f matches Frame::ExtendedText { value, .. } && value@ == s@),
                None => spec_extended_text_frame_of(self.frames@, name@) is None,
            },
    {
        match self.extended_text_frame(name) {
            Some(f) => match f {
                Frame::ExtendedText { value, .. } => Some(value.as_str()),
                _ => {
                    proof {
                        assert(false);
                    }
                    None
                },
            },
            None => None,
        }
    }

    /// Returns the first `TXXX` frame with the given description.
    pub fn extended_text_frame(&self, name: &str) -> (r: Option<&Frame>)
        ensures
            match r {
                Some(f) => spec_extended_text_frame_of(self.frames@, name@) == Some(*f) && (
                *f matches Frame::ExtendedText { .. }),
                None => spec_extended_text_frame_of(self.frames@, name@) is None,
            },
    {
        let n = self.frames.len();
        let mut k: usize = 0;
        proof {
            assert(self.frames@.skip(0) =~= self.frames@);
        }
        while k < n
            invariant
                k <= n,
                n == self.frames@.len(),
                spec_extended_text_frame_of(self.frames@, name@) == spec_extended_text_frame_of(
                    self.frames@.skip(k as int),
                    name@,
                ),
            decreases n - k,
        {
            proof {
                assert(self.frames@.skip(k as int)[0] == self.frames@[k as int]);
                assert(self.frames@.skip(k as int).drop_first() =~= self.frames@.skip(k + 1));
            }
            let mut hit: bool = false;
            match &self.frames[k] {
                Frame::ExtendedText { description, .. } => {
                    if string_eq(description, name) {
                        hit = true;
                    }
                },
                _ => {},
            }
            if hit {
                return Some(&self.frames[k]);
            }
            k += 1;
        }
        proof {
            assert(self.frames@.skip(n as int).len() == 0);
        }
        None
    }

    /// Returns the first picture frame stored with the given kind.
    pub fn attached_picture(&self, kind: Picture) -> (r: Option<&Frame>)
        ensures
            match r {
                Some(f) => spec_attached_picture_of(self.frames@, kind.spec_code()) == Some(*f),
                None => spec_attached_picture_of(self.frames@, kind.spec_code()) is None,
            },
    {
        let code = kind.code();
        let n = self.frames.len();
        let mut k: usize = 0;
        proof {
            assert(self.frames@.skip(0) =~= self.frames@);
        }
        while k < n
            invariant
                k <= n,
                n == self.frames@.len(),
                code == kind.spec_code(),
                spec_attached_picture_of(self.frames@, code) == spec_attached_picture_of(
                    self.frames@.skip(k as int),
                    code,
                ),
            decreases n - k,
        {
            proof {
                assert(self.frames@.skip(k as int)[0] == self.frames@[k as int]);
                assert(self.frames@.skip(k as int).drop_first() =~= self.frames@.skip(k + 1));
            }
            let mut hit: bool = false;
            match &self.frames[k] {
                Frame::Picture { kind: stored, .. } => {
                    if *stored == code {
                        hit = true;
                    }
                },
                _ => {},
            }
            if hit {
                return Some(&self.frames[k]);
            }
            k += 1;
        }
        proof {
            assert(self.frames@.skip(n as int).len() == 0);
        }
        None
    }

    /// Returns the size of the padding read with the tag, or zero.
    pub fn padding(&self) -> (r: u32)
        ensures
            r == spec_padding_of(self.frames@),
    {
        let n = self.frames.len();
        let mut k: usize = 0;
        proof {
            assert(self.frames@.skip(0) =~= self.frames@);
        }
        while k < n
            invariant
                k <= n,
                n == self.frames@.len(),
                spec_padding_of(self.frames@) == spec_padding_of(self.frames@.skip(k as int)),
            decreases n - k,
        {
            proof {
                assert(self.frames@.skip(k as int)[0] == self.frames@[k as int]);
                assert(self.frames@.skip(k as int).drop_first() =~= self.frames@.skip(k + 1));
            }
            match &self.frames[k] {
                Frame::Padding { size } => {
                    return *size;
                },
                _ => {},
            }
            k += 1;
        }
        proof {
            assert(self.frames@.skip(n as int).len() == 0);
        }
        0
    }

    /// Returns the title (`TIT2`).
    pub fn title(&self) -> (r: Option<&str>)
        ensures
            match r {
                Some(s) => spec_text_of(self.frames@, "TIT2"@) == Some(s@),
                None => spec_text_of(self.frames@, "TIT2"@) is None,
            },
    {
        self.text("TIT2")
    }

    /// Returns the subtitle (`TIT3`).
    pub fn subtitle(&self) -> (r: Option<&str>)
        ensures
            match r {
                Some(s) => spec_text_of(self.frames@, "TIT3"@) == Some(s@),
                None => spec_text_of(self.frames@, "TIT3"@) is None,
            },
    {
        self.text("TIT3")
    }

    /// Returns the album (`TALB`).
    pub fn album(&self) -> (r: Option<&str>)
        ensures
            match r {
                Some(s) => spec_text_of(self.frames@, "TALB"@) == Some(s@),
                None => spec_text_of(self.frames@, "TALB"@) is None,
            },
    {
        self.text("TALB")
    }

    /// Returns the artist (`TPE1`).
    pub fn artist(&self) -> (r: Option<&str>)
        ensures
            match r {
                Some(s) => spec_text_of(self.frames@, "TPE1"@) == Some(s@),
                None => spec_text_of(self.frames@, "TPE1"@) is None,
            },
    {
        self.text("TPE1")
    }

    /// Returns the genre (`TCON`).
    pub fn genre(&self) -> (r: Option<&str>)
        ensures
            match r {
                Some(s) => spec_text_of(self.frames@, "TCON"@) == Some(s@),
                None => spec_text_of(self.frames@, "TCON"@) is None,
            },
    {
        self.text("TCON")
    }

    /// Returns the musical key (`TKEY`).
    pub fn key(&self) -> (r: Option<&str>)
        ensures
            match r {
                Some(s) => spec_text_of(self.frames@, "TKEY"@) == Some(s@),
                None => spec_text_of(self.frames@, "TKEY"@) is None,
            },
    {
        self.text("TKEY")
    }

    /// Returns the grouping (`GRP1`).
    pub fn grouping(&self) -> (r: Option<&str>)
        ensures
            match r {
                Some(s) => spec_text_of(self.frames@, "GRP1"@) == Some(s@),
                None => spec_text_of(self.frames@, "GRP1"@) is None,
            },
    {
        self.text("GRP1")
    }

    /// Returns the release date (`TDRL`).
    pub fn release(&self) -> (r: Option<&str>)
        ensures
            match r {
                Some(s) => spec_text_of(self.frames@, "TDRL"@) == Some(s@),
                None => spec_text_of(self.frames@, "TDRL"@) is None,
            },
    {
        self.text("TDRL")
    }

    /// Returns the track number (`TRCK`).
    pub fn track(&self) -> (r: Option<&str>)
        ensures
            match r {
                Some(s) => spec_text_of(self.frames@, "TRCK"@) == Some(s@),
                None => spec_text_of(self.frames@, "TRCK"@) is None,
            },
    {
        self.text("TRCK")
    }
}

// ---- editing ----

/// `frames` with its first member satisfying `pred` removed; `frames`
/// itself when none does.
pub open spec fn spec_remove_first(frames: Seq<Frame>, pred: spec_fn(Frame) -> bool) -> Seq<Frame>
    decreases frames.len(),
{
    if frames.len() == 0 {
        frames
    } else if pred(frames[0]) {
        frames.drop_first()
    } else {
        seq![frames[0]] + spec_remove_first(frames.drop_first(), pred)
    }
}

proof fn lemma_remove_first_at(frames: Seq<Frame>, pred: spec_fn(Frame) -> bool, i: int)
    requires
        0 <= i < frames.len(),
        forall|j: int| 0 <= j < i ==> !pred(#[trigger] frames[j]),
        pred(frames[i]),
    ensures
        spec_remove_first(frames, pred) == frames.remove(i),
    decreases i,
{
    if i == 0 {
        assert(frames.remove(0) =~= frames.drop_first());
    } else {
        assert(!pred(frames[0]));
        assert forall|j: int| 0 <= j < i - 1 implies !pred(#[trigger] frames.drop_first()[j]) by {
            assert(frames.drop_first()[j] == frames[j + 1]);
        }
        assert(frames.drop_first()[i - 1] == frames[i]);
        lemma_remove_first_at(frames.drop_first(), pred, i - 1);
        assert(seq![frames[0]] + frames.drop_first().remove(i - 1) =~= frames.remove(i));
    }
}

proof fn lemma_remove_first_none(frames: Seq<Frame>, pred: spec_fn(Frame) -> bool)
    requires
        forall|j: int| 0 <= j < frames.len() ==> !pred(#[trigger] frames[j]),
    ensures
        spec_remove_first(frames, pred) == frames,
    decreases frames.len(),
{
    if frames.len() > 0 {
        assert forall|j: int|
            0 <= j < frames.drop_first().len() implies !pred(
            #[trigger] frames.drop_first()[j],
        ) by {
            assert(frames.drop_first()[j] == frames[j + 1]);
        }
        lemma_remove_first_none(frames.drop_first(), pred);
        assert(seq![frames[0]] + frames.drop_first() =~= frames);
    }
}

/// Selects text frames with the given id.
pub open spec fn text_selector(id: Seq<char>) -> spec_fn(Frame) -> bool {
    |f: Frame| f matches Frame::Text { id: fid, .. } && fid@ == id
}

/// Selects `GEOB` frames with the given filename.
pub open spec fn object_selector(name: Seq<char>) -> spec_fn(Frame) -> bool {
    |f: Frame| f matches Frame::Object { id: fid, filename, .. } && fid@ == "GEOB"@ && filename@
        == name
}

/// Selects `POPM` frames with the given email.
pub open spec fn popularity_selector(email: Seq<char>) -> spec_fn(Frame) -> bool {
    |f: Frame| f matches Frame::Popularity { id: fid, email: e, .. } && fid@ == "POPM"@ && e@
        == email
}

/// Selects every comment frame.
pub open spec fn comment_selector() -> spec_fn(Frame) -> bool {
    |f: Frame| f matches Frame::Comment { .. }
}

/// Selects `TXXX` frames with the given description.
pub open spec fn extended_text_selector(name: Seq<char>) -> spec_fn(Frame) -> bool {
    |f: Frame| f matches Frame::ExtendedText { description, .. } && description@ == name
}

/// Selects picture frames stored with the given kind byte.
pub open spec fn picture_selector(kind: u8) -> spec_fn(Frame) -> bool {
    |f: Frame| f matches Frame::Picture { kind: k, .. } && k == kind
}

impl ID3rs {
    /// Appends a frame and marks the tag dirty.
    pub fn push_new_frame(&mut self, frame: Frame)
        ensures
            final(self).frames@ == old(self).frames@.push(frame),
            final(self).header_size == old(self).header_size,
            final(self).dirty,
    {
        self.frames.push(frame);
        self.dirty = true;
    }

    fn remove_first_text(&mut self, id3: &str)
        ensures
            final(self).frames@ == spec_remove_first(old(self).frames@, text_selector(id3@)),
            final(self).header_size == old(self).header_size,
            final(self).dirty == old(self).dirty,
    {
        let ghost pred = text_selector(id3@);
        let n = self.frames.len();
        let mut k: usize = 0;
        while k < n
            invariant
                k <= n,
                n == self.frames@.len(),
                *self == *old(self),
                pred == text_selector(id3@),
                forall|j: int| 0 <= j < k ==> !pred(#[trigger] self.frames@[j]),
            decreases n - k,
        {
            let mut hit: bool = false;
            match &self.frames[k] {
                Frame::Text { id, .. } => {
                    if string_eq(id, id3) {
                        hit = true;
                    }
                },
                _ => {},
            }
            if hit {
                proof {
                    assert(pred(self.frames@[k as int]));
                    lemma_remove_first_at(self.frames@, pred, k as int);
                }
                self.frames.remove(k);
                return ;
            }
            proof {
                assert(!pred(self.frames@[k as int]));
            }
            k += 1;
        }
        proof {
            lemma_remove_first_none(self.frames@, pred);
        }
    }

    /// Replaces the text frame with the given id: the first matching
    /// frame is removed and the replacement appended (which changes the
    /// relative order), and the tag becomes dirty.
    pub fn set_text(&mut self, id3: &str, change: &str)
        ensures
            final(self).dirty,
            final(self).header_size == old(self).header_size,
            ({
                let kept = spec_remove_first(old(self).frames@, text_selector(id3@));
                &&& final(self).frames@.len() == kept.len() + 1
                &&& final(self).frames@.take(kept.len() as int) == kept
                &&& (final(self).frames@.last() matches Frame::Text { id, size, flags, text }
                    && id@ == id3@ && size == 0 && flags == 0 && text@ == change@)
            }),
    {
        self.remove_first_text(id3);
        let f = Frame::Text {
            id: String::from_str(id3),
            size: 0,
            flags: 0,
            text: String::from_str(change),
        };
        self.push_new_frame(f);
        proof {
            let kept = spec_remove_first(old(self).frames@, text_selector(id3@));
            assert(self.frames@.take(kept.len() as int) =~= kept);
        }
    }

    fn remove_first_object(&mut self, name: &str)
        ensures
            final(self).frames@ == spec_remove_first(old(self).frames@, object_selector(name@)),
            final(self).header_size == old(self).header_size,
            final(self).dirty == old(self).dirty,
    {
        let ghost pred = object_selector(name@);
        let n = self.frames.len();
        let mut k: usize = 0;
        while k < n
            invariant
                k <= n,
                n == self.frames@.len(),
                *self == *old(self),
                pred == object_selector(name@),
                forall|j: int| 0 <= j < k ==> !pred(#[trigger] self.frames@[j]),
            decreases n - k,
        {
            let mut hit: bool = false;
            match &self.frames[k] {
                Frame::Object { id, filename, .. } => {
                    if string_eq(id, "GEOB") && string_eq(filename, name) {
                        hit = true;
                    }
                },
                _ => {},
            }
            if hit {
                proof {
                    assert(pred(self.frames@[k as int]));
                    lemma_remove_first_at(self.frames@, pred, k as int);
                }
                self.frames.remove(k);
                return ;
            }
            proof {
                assert(!pred(self.frames@[k as int]));
            }
            k += 1;
        }
        proof {
            lemma_remove_first_none(self.frames@, pred);
        }
    }

    /// Replaces the embedded object with the given filename; objects
    /// are looked up and replaced by filename, not by id.
    pub fn set_object(&mut self, name: &str, mime_type: &str, description: &str, data: &[u8])
        ensures
            final(self).dirty,
            final(self).header_size == old(self).header_size,
            ({
                let kept = spec_remove_first(old(self).frames@, object_selector(name@));
                &&& final(self).frames@.len() == kept.len() + 1
                &&& final(self).frames@.take(kept.len() as int) == kept
                &&& (final(self).frames@.last() matches Frame::Object {
                    id,
                    size,
                    flags,
                    mime_type: m,
                    filename,
                    description: d,
                    data: bytes,
                } && id@ == "GEOB"@ && size == 0 && flags == 0 && m@ == mime_type@ && filename@
                    == name@ && d@ == description@ && bytes@ == data@)
            }),
    {
        self.remove_first_object(name);
        let f = Frame::Object {
            id: String::from_str("GEOB"),
            size: 0,
            flags: 0,
            mime_type: String::from_str(mime_type),
            filename: String::from_str(name),
            description: String::from_str(description),
            data: vstd::slice::slice_to_vec(data),
        };
        self.push_new_frame(f);
        proof {
            let kept = spec_remove_first(old(self).frames@, object_selector(name@));
            assert(self.frames@.take(kept.len() as int) =~= kept);
        }
    }

    fn remove_first_popularity(&mut self, author: &str)
        ensures
            final(self).frames@ == spec_remove_first(
                old(self).frames@,
                popularity_selector(author@),
            ),
            final(self).header_size == old(self).header_size,
            final(self).dirty == old(self).dirty,
    {
        let ghost pred = popularity_selector(author@);
        let n = self.frames.len();
        let mut k: usize = 0;
        while k < n
            invariant
                k <= n,
                n == self.frames@.len(),
                *self == *old(self),
                pred == popularity_selector(author@),
                forall|j: int| 0 <= j < k ==> !pred(#[trigger] self.frames@[j]),
            decreases n - k,
        {
            let mut hit: bool = false;
            match &self.frames[k] {
                Frame::Popularity { id, email, .. } => {
                    if string_eq(id, "POPM") && string_eq(email, author) {
                        hit = true;
                    }
                },
                _ => {},
            }
            if hit {
                proof {
                    assert(pred(self.frames@[k as int]));
                    lemma_remove_first_at(self.frames@, pred, k as int);
                }
                self.frames.remove(k);
                return ;
            }
            proof {
                assert(!pred(self.frames@[k as int]));
            }
            k += 1;
        }
        proof {
            lemma_remove_first_none(self.frames@, pred);
        }
    }

    /// Replaces the popularimeter for the given email. The public scale
    /// runs 0 to 5; the stored byte is that rating times 51.
    pub fn set_popularity(&mut self, author: &str, rating: u8)
        requires
            rating <= 5,
        ensures
            final(self).dirty,
            final(self).header_size == old(self).header_size,
            ({
                let kept = spec_remove_first(old(self).frames@, popularity_selector(author@));
                &&& final(self).frames@.len() == kept.len() + 1
                &&& final(self).frames@.take(kept.len() as int) == kept
                &&& (final(self).frames@.last() matches Frame::Popularity {
                    id,
                    size,
                    flags,
                    email,
                    rating: stored,
                } && id@ == "POPM"@ && size == 0 && flags == 0 && email@ == author@ && stored
                    == rating * 51)
            }),
    {
        self.remove_first_popularity(author);
        let adjusted = rating * 51;
        let f = Frame::Popularity {
            id: String::from_str("POPM"),
            size: 0,
            flags: 0,
            email: String::from_str(author),
            rating: adjusted,
        };
        self.push_new_frame(f);
        proof {
            let kept = spec_remove_first(old(self).frames@, popularity_selector(author@));
            assert(self.frames@.take(kept.len() as int) =~= kept);
        }
    }

    fn remove_first_comment(&mut self)
        ensures
            final(self).frames@ == spec_remove_first(old(self).frames@, comment_selector()),
            final(self).header_size == old(self).header_size,
            final(self).dirty == old(self).dirty,
    {
        let ghost pred = comment_selector();
        let n = self.frames.len();
        let mut k: usize = 0;
        while k < n
            invariant
                k <= n,
                n == self.frames@.len(),
                *self == *old(self),
                pred == comment_selector(),
                forall|j: int| 0 <= j < k ==> !pred(#[trigger] self.frames@[j]),
            decreases n - k,
        {
            let mut hit: bool = false;
            match &self.frames[k] {
                Frame::Comment { .. } => {
                    hit = true;
                },
                _ => {},
            }
            if hit {
                proof {
                    assert(pred(self.frames@[k as int]));
                    lemma_remove_first_at(self.frames@, pred, k as int);
                }
                self.frames.remove(k);
                return ;
            }
            proof {
                assert(!pred(self.frames@[k as int]));
            }
            k += 1;
        }
        proof {
            lemma_remove_first_none(self.frames@, pred);
        }
    }

    /// Replaces the first comment frame, whatever its description, with
    /// an English-language comment.
    pub fn set_comment(&mut self, description: &str, value: &str)
        ensures
            final(self).dirty,
            final(self).header_size == old(self).header_size,
            ({
                let kept = spec_remove_first(old(self).frames@, comment_selector());
                &&& final(self).frames@.len() == kept.len() + 1
                &&& final(self).frames@.take(kept.len() as int) == kept
                &&& (final(self).frames@.last() matches Frame::Comment {
                    id,
                    size,
                    flags,
                    language,
                    description: d,
                    value: v,
                } && id@ == "COMM"@ && size == 0 && flags == 0 && language@ == "eng"@ && d@
                    == description@ && v@ == value@)
            }),
    {
        self.remove_first_comment();
        let f = Frame::Comment {
            id: String::from_str("COMM"),
            size: 0,
            flags: 0,
            language: String::from_str("eng"),
            description: String::from_str(description),
            value: String::from_str(value),
        };
        self.push_new_frame(f);
        proof {
            let kept = spec_remove_first(old(self).frames@, comment_selector());
            assert(self.frames@.take(kept.len() as int) =~= kept);
        }
    }

    fn remove_first_extended_text(&mut self, name: &str)
        ensures
            final(self).frames@ == spec_remove_first(
                old(self).frames@,
                extended_text_selector(name@),
            ),
            final(self).header_size == old(self).header_size,
            final(self).dirty == old(self).dirty,
    {
        let ghost pred = extended_text_selector(name@);
        let n = self.frames.len();
        let mut k: usize = 0;
        while k < n
            invariant
                k <= n,
                n == self.frames@.len(),
                *self == *old(self),
                pred == extended_text_selector(name@),
                forall|j: int| 0 <= j < k ==> !pred(#[trigger] self.frames@[j]),
            decreases n - k,
        {
            let mut hit: bool = false;
            match &self.frames[k] {
                Frame::ExtendedText { description, .. } => {
                    if string_eq(description, name) {
                        hit = true;
                    }
                },
                _ => {},
            }
            if hit {
                proof {
                    assert(pred(self.frames@[k as int]));
                    lemma_remove_first_at(self.frames@, pred, k as int);
                }
                self.frames.remove(k);
                return ;
            }
            proof {
                assert(!pred(self.frames@[k as int]));
            }
            k += 1;
        }
        proof {
            lemma_remove_first_none(self.frames@, pred);
        }
    }

    /// Replaces the user-defined text frame with the given description;
    /// many such frames coexist, keyed by description rather than id.
    pub fn set_extended_text(&mut self, name: &str, value: &str)
        ensures
            final(self).dirty,
            final(self).header_size == old(self).header_size,
            ({
                let kept = spec_remove_first(old(self).frames@, extended_text_selector(name@));
                &&& final(self).frames@.len() == kept.len() + 1
                &&& final(self).frames@.take(kept.len() as int) == kept
                &&& (final(self).frames@.last() matches Frame::ExtendedText {
                    id,
                    size,
                    flags,
                    description,
                    value: v,
                } && id@ == "TXXX"@ && size == 0 && flags == 0 && description@ == name@ && v@
                    == value@)
            }),
    {
        self.remove_first_extended_text(name);
        let f = Frame::ExtendedText {
            id: String::from_str("TXXX"),
            size: 0,
            flags: 0,
            description: String::from_str(name),
            value: String::from_str(value),
        };
        self.push_new_frame(f);
        proof {
            let kept = spec_remove_first(old(self).frames@, extended_text_selector(name@));
            assert(self.frames@.take(kept.len() as int) =~= kept);
        }
    }

    fn remove_first_picture(&mut self, code: u8)
        ensures
            final(self).frames@ == spec_remove_first(old(self).frames@, picture_selector(code)),
            final(self).header_size == old(self).header_size,
            final(self).dirty == old(self).dirty,
    {
        let ghost pred = picture_selector(code);
        let n = self.frames.len();
        let mut k: usize = 0;
        while k < n
            invariant
                k <= n,
                n == self.frames@.len(),
                *self == *old(self),
                pred == picture_selector(code),
                forall|j: int| 0 <= j < k ==> !pred(#[trigger] self.frames@[j]),
            decreases n - k,
        {
            let mut hit: bool = false;
            match &self.frames[k] {
                Frame::Picture { kind, .. } => {
                    if *kind == code {
                        hit = true;
                    }
                },
                _ => {},
            }
            if hit {
                proof {
                    assert(pred(self.frames@[k as int]));
                    lemma_remove_first_at(self.frames@, pred, k as int);
                }
                self.frames.remove(k);
                return ;
            }
            proof {
                assert(!pred(self.frames@[k as int]));
            }
            k += 1;
        }
        proof {
            lemma_remove_first_none(self.frames@, pred);
        }
    }

    /// Replaces the attached picture stored with the given kind.
    pub fn set_attached_picture(
        &mut self,
        kind: Picture,
        mime_type: &str,
        description: &str,
        data: &[u8],
    )
        ensures
            final(self).dirty,
            final(self).header_size == old(self).header_size,
            ({
                let kept = spec_remove_first(
                    old(self).frames@,
                    picture_selector(kind.spec_code()),
                );
                &&& final(self).frames@.len() == kept.len() + 1
                &&& final(self).frames@.take(kept.len() as int) == kept
                &&& (final(self).frames@.last() matches Frame::Picture {
                    id,
                    size,
                    flags,
                    mime_type: m,
                    kind: k,
                    description: d,
                    data: bytes,
                } && id@ == "APIC"@ && size == 0 && flags == 0 && m@ == mime_type@ && k
                    == kind.spec_code() && d@ == description@ && bytes@ == data@)
            }),
    {
        let code = kind.code();
        self.remove_first_picture(code);
        let f = Frame::Picture {
            id: String::from_str("APIC"),
            size: 0,
            flags: 0,
            kind: code,
            mime_type: String::from_str(mime_type),
            description: String::from_str(description),
            data: vstd::slice::slice_to_vec(data),
        };
        self.push_new_frame(f);
        proof {
            let kept = spec_remove_first(old(self).frames@, picture_selector(kind.spec_code()));
            assert(self.frames@.take(kept.len() as int) =~= kept);
        }
    }

    /// Sets the title (`TIT2`).
    pub fn set_title(&mut self, text: &str)
        ensures
            final(self).dirty,
            final(self).header_size == old(self).header_size,
            ({
                let kept = spec_remove_first(old(self).frames@, text_selector("TIT2"@));
                &&& final(self).frames@.len() == kept.len() + 1
                &&& final(self).frames@.take(kept.len() as int) == kept
                &&& (final(self).frames@.last() matches Frame::Text { id, size, flags, text: t }
                    && id@ == "TIT2"@ && size == 0 && flags == 0 && t@ == text@)
            }),
    {
        self.set_text("TIT2", text);
    }

    /// Sets the album (`TALB`).
    pub fn set_album(&mut self, text: &str)
        ensures
            final(self).dirty,
            final(self).header_size == old(self).header_size,
            ({
                let kept = spec_remove_first(old(self).frames@, text_selector("TALB"@));
                &&& final(self).frames@.len() == kept.len() + 1
                &&& final(self).frames@.take(kept.len() as int) == kept
                &&& (final(self).frames@.last() matches Frame::Text { id, size, flags, text: t }
                    && id@ == "TALB"@ && size == 0 && flags == 0 && t@ == text@)
            }),
    {
        self.set_text("TALB", text);
    }

    /// Sets the recording date (`TDRC`).
    pub fn set_recording(&mut self, text: &str)
        ensures
            final(self).dirty,
            final(self).header_size == old(self).header_size,
            ({
                let kept = spec_remove_first(old(self).frames@, text_selector("TDRC"@));
                &&& final(self).frames@.len() == kept.len() + 1
                &&& final(self).frames@.take(kept.len() as int) == kept
                &&& (final(self).frames@.last() matches Frame::Text { id, size, flags, text: t }
                    && id@ == "TDRC"@ && size == 0 && flags == 0 && t@ == text@)
            }),
    {
        self.set_text("TDRC", text);
    }

    /// Sets the release date (`TDRL`).
    pub fn set_release(&mut self, text: &str)
        ensures
            final(self).dirty,
            final(self).header_size == old(self).header_size,
            ({
                let kept = spec_remove_first(old(self).frames@, text_selector("TDRL"@));
                &&& final(self).frames@.len() == kept.len() + 1
                &&& final(self).frames@.take(kept.len() as int) == kept
                &&& (final(self).frames@.last() matches Frame::Text { id, size, flags, text: t }
                    && id@ == "TDRL"@ && size == 0 && flags == 0 && t@ == text@)
            }),
    {
        self.set_text("TDRL", text);
    }

    /// Sets the artist (`TPE1`).
    pub fn set_artist(&mut self, text: &str)
        ensures
            final(self).dirty,
            final(self).header_size == old(self).header_size,
            ({
                let kept = spec_remove_first(old(self).frames@, text_selector("TPE1"@));
                &&& final(self).frames@.len() == kept.len() + 1
                &&& final(self).frames@.take(kept.len() as int) == kept
                &&& (final(self).frames@.last() matches Frame::Text { id, size, flags, text: t }
                    && id@ == "TPE1"@ && size == 0 && flags == 0 && t@ == text@)
            }),
    {
        self.set_text("TPE1", text);
    }

    /// Sets the album artist (`TPE2`).
    pub fn set_album_artist(&mut self, text: &str)
        ensures
            final(self).dirty,
            final(self).header_size == old(self).header_size,
            ({
                let kept = spec_remove_first(old(self).frames@, text_selector("TPE2"@));
                &&& final(self).frames@.len() == kept.len() + 1
                &&& final(self).frames@.take(kept.len() as int) == kept
                &&& (final(self).frames@.last() matches Frame::Text { id, size, flags, text: t }
                    && id@ == "TPE2"@ && size == 0 && flags == 0 && t@ == text@)
            }),
    {
        self.set_text("TPE2", text);
    }

    /// Sets the subtitle (`TIT3`).
    pub fn set_subtitle(&mut self, text: &str)
        ensures
            final(self).dirty,
            final(self).header_size == old(self).header_size,
            ({
                let kept = spec_remove_first(old(self).frames@, text_selector("TIT3"@));
                &&& final(self).frames@.len() == kept.len() + 1
                &&& final(self).frames@.take(kept.len() as int) == kept
                &&& (final(self).frames@.last() matches Frame::Text { id, size, flags, text: t }
                    && id@ == "TIT3"@ && size == 0 && flags == 0 && t@ == text@)
            }),
    {
        self.set_text("TIT3", text);
    }

    /// Sets the track number (`TRCK`) as `index/total`.
    pub fn set_track(&mut self, index: usize, total: usize)
        ensures
            final(self).dirty,
            final(self).header_size == old(self).header_size,
            ({
                let kept = spec_remove_first(old(self).frames@, text_selector("TRCK"@));
                let shown = crate::text::spec_ascii_chars(
                    crate::text::spec_decimal_bytes(index as nat),
                ) + "/"@ + crate::text::spec_ascii_chars(
                    crate::text::spec_decimal_bytes(total as nat),
                );
                &&& final(self).frames@.len() == kept.len() + 1
                &&& final(self).frames@.take(kept.len() as int) == kept
                &&& (final(self).frames@.last() matches Frame::Text { id, size, flags, text: t }
                    && id@ == "TRCK"@ && size == 0 && flags == 0 && t@ == shown)
            }),
    {
        let mut shown = crate::text::decimal_string(index as u64);
        shown.append("/");
        let tot = crate::text::decimal_string(total as u64);
        shown.append(tot.as_str());
        self.set_text("TRCK", shown.as_str());
    }

    /// Sets the musical key (`TKEY`).
    pub fn set_key(&mut self, text: &str)
        ensures
            final(self).dirty,
            final(self).header_size == old(self).header_size,
            ({
                let kept = spec_remove_first(old(self).frames@, text_selector("TKEY"@));
                &&& final(self).frames@.len() == kept.len() + 1
                &&& final(self).frames@.take(kept.len() as int) == kept
                &&& (final(self).frames@.last() matches Frame::Text { id, size, flags, text: t }
                    && id@ == "TKEY"@ && size == 0 && flags == 0 && t@ == text@)
            }),
    {
        self.set_text("TKEY", text);
    }

    /// Sets the genre (`TCON`).
    pub fn set_genre(&mut self, text: &str)
        ensures
            final(self).dirty,
            final(self).header_size == old(self).header_size,
            ({
                let kept = spec_remove_first(old(self).frames@, text_selector("TCON"@));
                &&& final(self).frames@.len() == kept.len() + 1
                &&& final(self).frames@.take(kept.len() as int) == kept
                &&& (final(self).frames@.last() matches Frame::Text { id, size, flags, text: t }
                    && id@ == "TCON"@ && size == 0 && flags == 0 && t@ == text@)
            }),
    {
        self.set_text("TCON", text);
    }

    /// Sets the grouping (`GRP1`).
    pub fn set_grouping(&mut self, text: &str)
        ensures
            final(self).dirty,
            final(self).header_size == old(self).header_size,
            ({
                let kept = spec_remove_first(old(self).frames@, text_selector("GRP1"@));
                &&& final(self).frames@.len() == kept.len() + 1
                &&& final(self).frames@.take(kept.len() as int) == kept
                &&& (final(self).frames@.last() matches Frame::Text { id, size, flags, text: t }
                    && id@ == "GRP1"@ && size == 0 && flags == 0 && t@ == text@)
            }),
    {
        self.set_text("GRP1", text);
    }
}

} // verus!
