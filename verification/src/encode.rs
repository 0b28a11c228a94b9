//! Serialisation of frames back to bytes.
//!
//! On write every size field is recomputed from the current field
//! values; string fields are re-emitted as UTF-16 with a byte-order
//! mark, MIME types and emails as NUL-terminated Latin-1, whatever
//! encoding the frames were read with. Padding and sentinel-id frames
//! are never written.

use crate::decode::spec_frames_view;
use crate::frames::Frame;
use crate::frames::FrameModel;
use crate::syncsafe::as_syncsafe;
use crate::syncsafe::spec_syncsafe_encode;
use crate::text::string_eq;
use crate::text::utf16_le_bytes;
use crate::wire::spec_u16_be_bytes;
use crate::text::spec_units_le_bytes;
use vstd::prelude::*;
use vstd::utf8::encode_utf8;

verus! {

/// An UTF-16 text field as the writer emits it: a little-endian
/// byte-order mark, then the code units.
pub open spec fn spec_utf16_bytes(s: Seq<char>) -> Seq<u8> {
    seq![0xFFu8, 0xFEu8] + spec_units_le_bytes(crate::text::spec_utf16_encode(s))
}

/// An UTF-16 text field followed by its two-byte terminator.
pub open spec fn spec_utf16_terminated(s: Seq<char>) -> Seq<u8> {
    spec_utf16_bytes(s) + seq![0u8, 0u8]
}

/// The re-derived body of one frame: everything after the ten header
/// bytes.
pub open spec fn spec_frame_body(f: FrameModel) -> Seq<u8> {
    match f {
        FrameModel::Generic { data, .. } => data,
        FrameModel::Text { text, .. } => seq![1u8] + spec_utf16_bytes(text),
        FrameModel::ExtendedText { description, value, .. } => seq![1u8] + spec_utf16_terminated(
            description,
        ) + spec_utf16_bytes(value),
        FrameModel::Comment { language, description, value, .. } => seq![1u8] + encode_utf8(
            language,
        ) + spec_utf16_terminated(description) + spec_utf16_bytes(value),
        FrameModel::Object { mime_type, filename, description, data, .. } => seq![1u8]
            + encode_utf8(mime_type) + seq![0u8] + spec_utf16_terminated(filename)
            + spec_utf16_terminated(description) + data,
        FrameModel::Picture { mime_type, kind, description, data, .. } => seq![1u8] + encode_utf8(
            mime_type,
        ) + seq![0u8] + seq![kind] + spec_utf16_terminated(description) + data,
        FrameModel::Popularity { email, rating, .. } => encode_utf8(email) + seq![0u8]
            + seq![rating],
        FrameModel::Padding { .. } => seq![],
    }
}

/// The id characters of a frame; the padding pseudo-frame has none.
pub open spec fn spec_frame_model_id(f: FrameModel) -> Seq<char> {
    match f {
        FrameModel::Generic { id, .. } => id,
        FrameModel::Comment { id, .. } => id,
        FrameModel::ExtendedText { id, .. } => id,
        FrameModel::Text { id, .. } => id,
        FrameModel::Popularity { id, .. } => id,
        FrameModel::Object { id, .. } => id,
        FrameModel::Picture { id, .. } => id,
        FrameModel::Padding { .. } => seq![],
    }
}

/// The flags a frame is written with.
pub open spec fn spec_frame_model_flags(f: FrameModel) -> u16 {
    match f {
        FrameModel::Generic { flags, .. } => flags,
        FrameModel::Comment { flags, .. } => flags,
        FrameModel::ExtendedText { flags, .. } => flags,
        FrameModel::Text { flags, .. } => flags,
        FrameModel::Popularity { flags, .. } => flags,
        FrameModel::Object { flags, .. } => flags,
        FrameModel::Picture { flags, .. } => flags,
        FrameModel::Padding { .. } => 0,
    }
}

/// The size a frame is written with: its stored size for a generic
/// frame (kept verbatim), the recomputed body length otherwise.
pub open spec fn spec_frame_wire_size(f: FrameModel) -> u32 {
    match f {
        FrameModel::Generic { size, .. } => size,
        _ => ((spec_frame_body(f).len() as int) % 0x1_0000_0000) as u32,
    }
}

/// The full encoding of one frame: id, syncsafe size, flags, body.
/// Padding is zero fill, not a frame, and a sentinel-id frame is
/// silently dropped rather than corrupting the output.
pub open spec fn spec_encode_frame(f: FrameModel) -> Seq<u8> {
    if f is Padding || spec_frame_model_id(f) == "????"@ {
        seq![]
    } else {
        encode_utf8(spec_frame_model_id(f)) + spec_syncsafe_encode(spec_frame_wire_size(f))
            + spec_u16_be_bytes(spec_frame_model_flags(f)) + spec_frame_body(f)
    }
}

/// The encodings of a frame list, in order.
pub open spec fn spec_encode_frames(frames: Seq<FrameModel>) -> Seq<u8>
    decreases frames.len(),
{
    if frames.len() == 0 {
        seq![]
    } else {
        spec_encode_frame(frames[0]) + spec_encode_frames(frames.drop_first())
    }
}

/// Frame-list encoding distributes over concatenation.
pub proof fn lemma_encode_frames_concat(a: Seq<FrameModel>, b: Seq<FrameModel>)
    ensures
        spec_encode_frames(a + b) == spec_encode_frames(a) + spec_encode_frames(b),
    decreases a.len(),
{
    if a.len() == 0 {
        assert(a + b =~= b);
        assert(spec_encode_frames(a) + spec_encode_frames(b) =~= spec_encode_frames(b));
    } else {
        lemma_encode_frames_concat(a.drop_first(), b);
        assert((a + b).drop_first() =~= a.drop_first() + b);
        assert(spec_encode_frames(a + b) =~= spec_encode_frames(a) + spec_encode_frames(b));
    }
}

/// Appends an UTF-16 text field with its byte-order mark.
fn push_utf16(out: &mut Vec<u8>, s: &str)
    ensures
        final(out)@ == old(out)@ + spec_utf16_bytes(s@),
{
    out.push(0xFF);
    out.push(0xFE);
    let ub = utf16_le_bytes(s);
    out.extend_from_slice(ub.as_slice());
    proof {
        assert(out@ =~= old(out)@ + spec_utf16_bytes(s@));
    }
}

/// Appends an UTF-16 text field and its two-byte terminator.
fn push_utf16_terminated(out: &mut Vec<u8>, s: &str)
    ensures
        final(out)@ == old(out)@ + spec_utf16_terminated(s@),
{
    push_utf16(out, s);
    out.push(0);
    out.push(0);
    proof {
        assert(out@ =~= old(out)@ + spec_utf16_terminated(s@));
    }
}

/// Builds the re-derived body of one frame.
fn frame_body(frame: &Frame) -> (r: Vec<u8>)
    ensures
        r@ == spec_frame_body(frame@),
{
    let mut body: Vec<u8> = Vec::new();
    match frame {
        Frame::Generic { data, .. } => {
            body.extend_from_slice(data.as_slice());
            proof {
                assert(body@ =~= spec_frame_body(frame@));
            }
        },
        Frame::Text { text, .. } => {
            body.push(1);
            push_utf16(&mut body, text.as_str());
            proof {
                assert(body@ =~= spec_frame_body(frame@));
            }
        },
        Frame::ExtendedText { description, value, .. } => {
            body.push(1);
            push_utf16_terminated(&mut body, description.as_str());
            push_utf16(&mut body, value.as_str());
            proof {
                assert(body@ =~= spec_frame_body(frame@));
            }
        },
        Frame::Comment { language, description, value, .. } => {
            body.push(1);
            body.extend_from_slice(language.as_str().as_bytes());
            push_utf16_terminated(&mut body, description.as_str());
            push_utf16(&mut body, value.as_str());
            proof {
                assert(body@ =~= spec_frame_body(frame@));
            }
        },
        Frame::Object { mime_type, filename, description, data, .. } => {
            body.push(1);
            body.extend_from_slice(mime_type.as_str().as_bytes());
            body.push(0);
            push_utf16_terminated(&mut body, filename.as_str());
            push_utf16_terminated(&mut body, description.as_str());
            body.extend_from_slice(data.as_slice());
            proof {
                assert(body@ =~= spec_frame_body(frame@));
            }
        },
        Frame::Picture { mime_type, kind, description, data, .. } => {
            body.push(1);
            body.extend_from_slice(mime_type.as_str().as_bytes());
            body.push(0);
            body.push(*kind);
            push_utf16_terminated(&mut body, description.as_str());
            body.extend_from_slice(data.as_slice());
            proof {
                assert(body@ =~= spec_frame_body(frame@));
            }
        },
        Frame::Popularity { email, rating, .. } => {
            body.extend_from_slice(email.as_str().as_bytes());
            body.push(0);
            body.push(*rating);
            proof {
                assert(body@ =~= spec_frame_body(frame@));
            }
        },
        Frame::Padding { .. } => {
            proof {
                assert(body@ =~= spec_frame_body(frame@));
            }
        },
    }
    body
}

/// Appends the encoding of one frame: id, recomputed syncsafe size,
/// flags, body. Padding and sentinel-id frames are skipped.
pub fn encode_frame(frame: &Frame, out: &mut Vec<u8>)
    ensures
        final(out)@ == old(out)@ + spec_encode_frame(frame@),
{
    let (id, flags): (&String, u16) = match frame {
        Frame::Padding { .. } => {
            proof {
                assert(out@ =~= old(out)@ + spec_encode_frame(frame@));
            }
            return ;
        },
        Frame::Generic { id, flags, .. } => (id, *flags),
        Frame::Comment { id, flags, .. } => (id, *flags),
        Frame::ExtendedText { id, flags, .. } => (id, *flags),
        Frame::Text { id, flags, .. } => (id, *flags),
        Frame::Popularity { id, flags, .. } => (id, *flags),
        Frame::Object { id, flags, .. } => (id, *flags),
        Frame::Picture { id, flags, .. } => (id, *flags),
    };
    if string_eq(id, "????") {
        proof {
            assert(out@ =~= old(out)@ + spec_encode_frame(frame@));
        }
        return ;
    }
    let body = frame_body(frame);
    let wire_size: u32 = match frame {
        Frame::Generic { size, .. } => *size,
        _ => {
            let len64: u64 = body.len() as u64;
            proof {
                crate::wire::lemma_trunc_u32(len64);
            }
            #[verifier::truncate] (len64 as u32)
        },
    };
    out.extend_from_slice(id.as_str().as_bytes());
    let sb = as_syncsafe(wire_size);
    out.extend_from_slice(sb.as_slice());
    crate::wire::push_be_u16(out, flags);
    out.extend_from_slice(body.as_slice());
    proof {
        assert(wire_size == spec_frame_wire_size(frame@));
        assert(out@ =~= old(out)@ + spec_encode_frame(frame@));
    }
}

/// Appends the encodings of all frames, in order.
pub fn write_id3_frames(frames: &[Frame], out: &mut Vec<u8>)
    ensures
        final(out)@ == old(out)@ + spec_encode_frames(spec_frames_view(frames@)),
{
    let n = frames.len();
    let mut k: usize = 0;
    while k < n
        invariant
            k <= n,
            n == frames@.len(),
            out@ == old(out)@ + spec_encode_frames(spec_frames_view(frames@.take(k as int))),
        decreases n - k,
    {
        encode_frame(&frames[k], out);
        proof {
            let fs = spec_frames_view(frames@.take(k as int));
            let one = seq![frames@[k as int]@];
            lemma_encode_frames_concat(fs, one);
            assert(spec_frames_view(frames@.take(k + 1)) =~= fs + one);
            assert(one.drop_first() =~= Seq::<FrameModel>::empty());
            assert(spec_encode_frames(Seq::<FrameModel>::empty()) =~= Seq::<u8>::empty());
            assert(spec_encode_frames(one) =~= spec_encode_frame(frames@[k as int]@));
            assert(out@ =~= old(out)@ + spec_encode_frames(spec_frames_view(frames@.take(k + 1))));
        }
        k += 1;
    }
    proof {
        assert(frames@.take(n as int) =~= frames@);
    }
}

/// Appends `count` zero bytes.
pub fn push_zeros(out: &mut Vec<u8>, count: usize)
    ensures
        final(out)@ == old(out)@ + Seq::new(count as nat, |i: int| 0u8),
{
    let mut k: usize = 0;
    while k < count
        invariant
            k <= count,
            out@ == old(out)@ + Seq::new(k as nat, |i: int| 0u8),
        decreases count - k,
    {
        out.push(0);
        proof {
            assert(out@ =~= old(out)@ + Seq::new((k + 1) as nat, |i: int| 0u8));
        }
        k += 1;
    }
}

} // verus!
