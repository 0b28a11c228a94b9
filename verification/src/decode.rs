//! Decoding of a tag body into typed frames.
//!
//! The grammar follows the format's dispatch order: padding, then the
//! four-letter ids `TXXX`, `COMM`, `GEOB`, `APIC`, then general text
//! frames, then `POPM` (v2.4 only), then a generic fallback that keeps
//! unknown frames verbatim. Each parser can match, cleanly mismatch (the
//! next alternative is tried), or fail hard (bytes missing or text that
//! does not decode), which aborts the whole decode.

use crate::frames::Frame;
use crate::frames::FrameModel;
use crate::frames::Header;
use crate::frames::SizeScheme;
use crate::syncsafe::spec_syncsafe_decode;
use crate::text::spec_utf16_decode;
use crate::text::utf16_to_string;
use crate::text::utf8_to_string;
use crate::wire::spec_be_u16;
use crate::wire::spec_be_u32;
use crate::wire::spec_le_u16;
use vstd::prelude::*;
use vstd::slice::slice_to_vec;
use vstd::string::StringExecFns;
use vstd::utf8::decode_utf8;
use vstd::utf8::encode_utf8;
use vstd::utf8::valid_utf8;

verus! {

/// Index of the first NUL byte of `b` in `[from, end)`, or `end` when
/// there is none.
pub open spec fn spec_find_nul(b: Seq<u8>, from: int, end: int) -> int
    recommends
        0 <= from <= end <= b.len(),
    decreases end - from,
{
    if from < end {
        if b[from] == 0 {
            from
        } else {
            spec_find_nul(b, from + 1, end)
        }
    } else {
        end
    }
}

/// The first NUL is at `i` exactly when everything before `i` is
/// nonzero and `i` holds a NUL or is the window's end.
pub proof fn lemma_find_nul_at(b: Seq<u8>, from: int, end: int, i: int)
    requires
        0 <= from <= i <= end <= b.len(),
        forall|j: int| from <= j < i ==> b[j] != 0,
        i < end ==> b[i] == 0,
    ensures
        spec_find_nul(b, from, end) == i,
    decreases i - from,
{
    if from < i {
        lemma_find_nul_at(b, from + 1, end, i);
    }
}

/// Where the first NUL lies: between `from` and `end`, with no NUL
/// before it.
pub proof fn lemma_find_nul_props(b: Seq<u8>, from: int, end: int)
    requires
        0 <= from <= end <= b.len(),
    ensures
        from <= spec_find_nul(b, from, end) <= end,
        forall|j: int| from <= j < spec_find_nul(b, from, end) ==> b[j] != 0,
        spec_find_nul(b, from, end) < end ==> b[spec_find_nul(b, from, end)] == 0,
    decreases end - from,
{
    if from < end && b[from] != 0 {
        lemma_find_nul_props(b, from + 1, end);
    }
}

/// One Latin-1/UTF-8 text field: the bytes up to the first NUL (or to
/// the window's end), decoded as UTF-8; the terminator is consumed.
/// `None` is a hard decode failure.
pub open spec fn spec_parse_utf8_field(b: Seq<u8>, start: int, end: int) -> Option<
    (Seq<char>, int),
>
    recommends
        0 <= start <= end <= b.len(),
{
    let nul = spec_find_nul(b, start, end);
    let bytes = b.subrange(start, nul);
    if valid_utf8(bytes) {
        Some((decode_utf8(bytes), if nul < end { nul + 1 } else { end }))
    } else {
        None
    }
}

/// Parses one NUL- or window-terminated UTF-8 field.
pub fn parse_utf8_field(input: &[u8], start: usize, end: usize) -> (r: Option<(String, usize)>)
    requires
        start <= end <= input@.len(),
    ensures
        match r {
            Some((s, p)) => spec_parse_utf8_field(input@, start as int, end as int) == Some(
                (s@, p as int),
            ) && start <= p <= end,
            None => spec_parse_utf8_field(input@, start as int, end as int) is None,
        },
{
    let mut i: usize = start;
    while i < end && input[i] != 0
        invariant
            start <= i <= end <= input@.len(),
            forall|j: int| start <= j < i ==> input@[j] != 0,
        decreases end - i,
    {
        i += 1;
    }
    proof {
        lemma_find_nul_at(input@, start as int, end as int, i as int);
    }
    let bytes = slice_to_vec(&input[start..i]);
    let next: usize = if i < end {
        i + 1
    } else {
        end
    };
    match utf8_to_string(bytes) {
        Some(s) => Some((s, next)),
        None => None,
    }
}

/// Outcome of parsing one text field in ghost form.
pub enum FieldParse {
    /// The decoded characters and the position just past the field.
    Matched(Seq<char>, int),
    /// The field's introducer is absent; the next alternative may try.
    NoMatch,
    /// Bytes were missing or the text did not decode.
    Failed,
}

/// Outcome of parsing one text field.
#[derive(Debug, PartialEq, Eq)]
pub enum FieldParsed {
    Matched(String, usize),
    NoMatch,
    Failed,
}

/// The UTF-16 code units from `from` up to a zero unit (consumed) or the
/// window's end; `None` when a lone byte is left over.
pub open spec fn spec_utf16_scan(b: Seq<u8>, from: int, end: int) -> Option<(Seq<u16>, int)>
    recommends
        0 <= from <= end <= b.len(),
    decreases end - from,
{
    if from + 2 <= end {
        let unit = spec_le_u16(b, from);
        if unit == 0 {
            Some((seq![], from + 2))
        } else {
            match spec_utf16_scan(b, from + 2, end) {
                Some((us, p)) => Some((seq![unit] + us, p)),
                None => None,
            }
        }
    } else if from == end {
        Some((seq![], end))
    } else {
        None
    }
}

/// One UTF-16 text field: a little-endian byte-order mark, then code
/// units up to a zero unit or the window's end.
pub open spec fn spec_parse_utf16_field(b: Seq<u8>, start: int, end: int) -> FieldParse
    recommends
        0 <= start <= end <= b.len(),
{
    if start + 2 <= end {
        if b[start] == 0xFF && b[start + 1] == 0xFE {
            match spec_utf16_scan(b, start + 2, end) {
                Some((units, p)) => match spec_utf16_decode(units) {
                    Some(chars) => FieldParse::Matched(chars, p),
                    None => FieldParse::Failed,
                },
                None => FieldParse::Failed,
            }
        } else {
            FieldParse::NoMatch
        }
    } else if start < end && b[start] != 0xFF {
        FieldParse::NoMatch
    } else {
        FieldParse::Failed
    }
}

/// Parses one UTF-16 field with its byte-order mark.
pub fn parse_utf16_field(input: &[u8], start: usize, end: usize) -> (r: FieldParsed)
    requires
        start <= end <= input@.len(),
    ensures
        match r {
            FieldParsed::Matched(s, p) => spec_parse_utf16_field(input@, start as int, end as int)
                == FieldParse::Matched(s@, p as int) && start <= p <= end,
            FieldParsed::NoMatch => spec_parse_utf16_field(input@, start as int, end as int)
                == FieldParse::NoMatch,
            FieldParsed::Failed => spec_parse_utf16_field(input@, start as int, end as int)
                == FieldParse::Failed,
        },
{
    let _n: usize = input.len();
    if end - start < 2 {
        if start < end && input[start] != 0xFF {
            return FieldParsed::NoMatch;
        }
        return FieldParsed::Failed;
    }
    if input[start] != 0xFF || input[start + 1] != 0xFE {
        return FieldParsed::NoMatch;
    }
    let ghost b = input@;
    let ghost scan_start: int = start + 2;
    let mut units: Vec<u16> = Vec::new();
    let mut i: usize = start + 2;
    let mut terminated: bool = false;
    let mut done: bool = false;
    while !done
        invariant
            start + 2 <= i <= end <= input@.len(),
            b == input@,
            scan_start == start + 2,
            !done ==> !terminated,
            !done ==> match spec_utf16_scan(b, scan_start, end as int) {
                Some((us, p)) => spec_utf16_scan(b, i as int, end as int) matches Some((us2, p2))
                    && us == units@ + us2 && p == p2,
                None => spec_utf16_scan(b, i as int, end as int) is None,
            },
            done ==> (terminated ==> spec_utf16_scan(b, scan_start, end as int) == Some(
                (units@, i as int),
            )),
            done ==> (!terminated ==> spec_utf16_scan(b, scan_start, end as int) is None),
        decreases end - i, 1int + if done {
            0int
        } else {
            1int
        },
    {
        if end - i >= 2 {
            let unit = crate::wire::le_u16(input, i);
            if unit == 0 {
                proof {
                    assert(spec_utf16_scan(b, i as int, end as int) == Some(
                        (Seq::<u16>::empty(), i + 2),
                    ));
                    assert(units@ + Seq::<u16>::empty() =~= units@);
                }
                i = i + 2;
                terminated = true;
                done = true;
            } else {
                let ghost old_units = units@;
                units.push(unit);
                proof {
                    match spec_utf16_scan(b, i as int, end as int) {
                        Some((us, p)) => {
                            assert(spec_utf16_scan(b, i + 2, end as int) matches Some((us2, p2))
                                && us == seq![unit] + us2 && p == p2);
                            assert(spec_utf16_scan(b, i + 2, end as int) matches Some((us2, p2))
                                ==> old_units + us =~= units@ + us2);
                        },
                        None => {
                            assert(spec_utf16_scan(b, i + 2, end as int) is None);
                        },
                    }
                }
                i = i + 2;
            }
        } else if i == end {
            proof {
                assert(spec_utf16_scan(b, i as int, end as int) == Some(
                    (Seq::<u16>::empty(), end as int),
                ));
                assert(units@ + Seq::<u16>::empty() =~= units@);
            }
            terminated = true;
            done = true;
        } else {
            proof {
                assert(spec_utf16_scan(b, i as int, end as int) is None);
            }
            terminated = false;
            done = true;
        }
    }
    if !terminated {
        return FieldParsed::Failed;
    }
    match utf16_to_string(&units) {
        Some(s) => FieldParsed::Matched(s, i),
        None => FieldParsed::Failed,
    }
}

/// One encoded string field under the given encoding selector: UTF-16
/// with byte-order mark when the selector is 1, NUL-terminated
/// Latin-1/UTF-8 otherwise.
pub open spec fn spec_parse_encoded(enc: u8, b: Seq<u8>, start: int, end: int) -> FieldParse {
    if enc == 1 {
        spec_parse_utf16_field(b, start, end)
    } else {
        match spec_parse_utf8_field(b, start, end) {
            Some((s, p)) => FieldParse::Matched(s, p),
            None => FieldParse::Failed,
        }
    }
}

/// Parses one encoded string field under the given encoding selector.
pub fn parse_encoded(enc: u8, input: &[u8], start: usize, end: usize) -> (r: FieldParsed)
    requires
        start <= end <= input@.len(),
    ensures
        match r {
            FieldParsed::Matched(s, p) => spec_parse_encoded(enc, input@, start as int, end as int)
                == FieldParse::Matched(s@, p as int) && start <= p <= end,
            FieldParsed::NoMatch => spec_parse_encoded(enc, input@, start as int, end as int)
                == FieldParse::NoMatch,
            FieldParsed::Failed => spec_parse_encoded(enc, input@, start as int, end as int)
                == FieldParse::Failed,
        },
{
    if enc == 1 {
        parse_utf16_field(input, start, end)
    } else {
        match parse_utf8_field(input, start, end) {
            Some((s, p)) => FieldParsed::Matched(s, p),
            None => FieldParsed::Failed,
        }
    }
}

/// Outcome of one frame parser in ghost form.
pub enum FrameParse {
    /// The decoded frame and the position just past it.
    Matched(FrameModel, int),
    /// This alternative does not apply; the next one is tried.
    NoMatch,
    /// Bytes were missing or text did not decode: the whole decode fails.
    Failed,
}

/// Outcome of one frame parser.
#[derive(Debug, PartialEq, Eq)]
pub enum FrameParsed {
    Matched(Frame, usize),
    NoMatch,
    Failed,
}

/// A frame-size field under the given scheme: plain big-endian for
/// v2.3, syncsafe for v2.4.
pub open spec fn spec_read_size(b: Seq<u8>, at: int, sz: SizeScheme) -> u32
    recommends
        0 <= at,
        at + 4 <= b.len(),
{
    match sz {
        SizeScheme::V23 => spec_be_u32(b, at),
        SizeScheme::V24 => spec_syncsafe_decode(b.subrange(at, at + 4)),
    }
}

/// Whether the four id bytes wanted at `pos` mismatch within the bytes
/// that are present. Running out of bytes while every present byte
/// matches is not a mismatch but a hard failure.
pub open spec fn spec_id_mismatch(b: Seq<u8>, pos: int, id: Seq<u8>) -> bool {
    exists|k: int| pos <= k < pos + 4 && k < b.len() && #[trigger] b[k] != id[k - pos]
}

/// The id characters a frame gets from its four id bytes: their text
/// when they decode, the sentinel id otherwise. Sentinel-id frames are
/// dropped again on write.
pub open spec fn spec_frame_id(idb: Seq<u8>) -> Seq<char> {
    if valid_utf8(idb) {
        decode_utf8(idb)
    } else {
        "????"@
    }
}

pub open spec fn spec_id_txxx() -> Seq<u8> {
    seq![0x54u8, 0x58u8, 0x58u8, 0x58u8]
}

pub open spec fn spec_id_comm() -> Seq<u8> {
    seq![0x43u8, 0x4Fu8, 0x4Du8, 0x4Du8]
}

pub open spec fn spec_id_geob() -> Seq<u8> {
    seq![0x47u8, 0x45u8, 0x4Fu8, 0x42u8]
}

pub open spec fn spec_id_apic() -> Seq<u8> {
    seq![0x41u8, 0x50u8, 0x49u8, 0x43u8]
}

pub open spec fn spec_id_popm() -> Seq<u8> {
    seq![0x50u8, 0x4Fu8, 0x50u8, 0x4Du8]
}

/// Padding: a run of zero bytes reaching the end of the body.
pub open spec fn spec_parse_padding(b: Seq<u8>, pos: int) -> FrameParse {
    if pos < b.len() && (forall|k: int| pos <= k < b.len() ==> b[k] == 0) {
        FrameParse::Matched(
            FrameModel::Padding { size: (b.len() - pos) as u32 },
            b.len() as int,
        )
    } else {
        FrameParse::NoMatch
    }
}

/// A `TXXX` frame: encoding byte, then an encoded description and value
/// inside the declared size.
pub open spec fn spec_parse_extended_text(b: Seq<u8>, pos: int, sz: SizeScheme) -> FrameParse {
    let len = b.len() as int;
    if spec_id_mismatch(b, pos, spec_id_txxx()) {
        FrameParse::NoMatch
    } else if pos + 4 > len {
        FrameParse::Failed
    } else if pos + 8 > len {
        if sz is V23 {
            FrameParse::NoMatch
        } else {
            FrameParse::Failed
        }
    } else {
        let size = spec_read_size(b, pos + 4, sz);
        if pos + 10 > len {
            FrameParse::Failed
        } else {
            let flags = spec_be_u16(b, pos + 8);
            if size < 1 || pos + 10 + size > len {
                FrameParse::Failed
            } else {
                let enc = b[pos + 10];
                let dend = pos + 10 + size;
                match spec_parse_encoded(enc, b, pos + 11, dend) {
                    FieldParse::Matched(description, p1) => match spec_parse_encoded(
                        enc,
                        b,
                        p1,
                        dend,
                    ) {
                        FieldParse::Matched(value, _) => FrameParse::Matched(
                            FrameModel::ExtendedText { id: "TXXX"@, size, flags, description, value },
                            dend,
                        ),
                        FieldParse::NoMatch => FrameParse::NoMatch,
                        FieldParse::Failed => FrameParse::Failed,
                    },
                    FieldParse::NoMatch => FrameParse::NoMatch,
                    FieldParse::Failed => FrameParse::Failed,
                }
            }
        }
    }
}

/// A `COMM` frame: encoding byte, three raw language bytes, then an
/// encoded description and value inside the declared size.
pub open spec fn spec_parse_comment(b: Seq<u8>, pos: int, sz: SizeScheme) -> FrameParse {
    let len = b.len() as int;
    if spec_id_mismatch(b, pos, spec_id_comm()) {
        FrameParse::NoMatch
    } else if pos + 4 > len {
        FrameParse::Failed
    } else if pos + 8 > len {
        if sz is V23 {
            FrameParse::NoMatch
        } else {
            FrameParse::Failed
        }
    } else {
        let size = spec_read_size(b, pos + 4, sz);
        if pos + 10 > len {
            FrameParse::Failed
        } else {
            let flags = spec_be_u16(b, pos + 8);
            if pos + 14 > len {
                FrameParse::Failed
            } else {
                let enc = b[pos + 10];
                let langb = b.subrange(pos + 11, pos + 14);
                if !valid_utf8(langb) {
                    FrameParse::Failed
                } else if size < 4 || pos + 10 + size > len {
                    FrameParse::Failed
                } else {
                    let dend = pos + 10 + size;
                    match spec_parse_encoded(enc, b, pos + 14, dend) {
                        FieldParse::Matched(description, p1) => match spec_parse_encoded(
                            enc,
                            b,
                            p1,
                            dend,
                        ) {
                            FieldParse::Matched(value, _) => FrameParse::Matched(
                                FrameModel::Comment {
                                    id: "COMM"@,
                                    size,
                                    flags,
                                    language: decode_utf8(langb),
                                    description,
                                    value,
                                },
                                dend,
                            ),
                            FieldParse::NoMatch => FrameParse::NoMatch,
                            FieldParse::Failed => FrameParse::Failed,
                        },
                        FieldParse::NoMatch => FrameParse::NoMatch,
                        FieldParse::Failed => FrameParse::Failed,
                    }
                }
            }
        }
    }
}

/// A `GEOB` frame: encoding byte, Latin-1 MIME type, then an encoded
/// filename and description, then the object bytes up to the declared
/// size.
pub open spec fn spec_parse_object(b: Seq<u8>, pos: int, sz: SizeScheme) -> FrameParse {
    let len = b.len() as int;
    if spec_id_mismatch(b, pos, spec_id_geob()) {
        FrameParse::NoMatch
    } else if pos + 4 > len {
        FrameParse::Failed
    } else if pos + 8 > len {
        if sz is V23 {
            FrameParse::NoMatch
        } else {
            FrameParse::Failed
        }
    } else {
        let size = spec_read_size(b, pos + 4, sz);
        if pos + 10 > len {
            FrameParse::Failed
        } else {
            let flags = spec_be_u16(b, pos + 8);
            if pos + 11 > len {
                FrameParse::Failed
            } else {
                let enc = b[pos + 10];
                match spec_parse_utf8_field(b, pos + 11, len) {
                    None => FrameParse::Failed,
                    Some((mime_type, p1)) => match spec_parse_encoded(enc, b, p1, len) {
                        FieldParse::Matched(filename, p2) => match spec_parse_encoded(
                            enc,
                            b,
                            p2,
                            len,
                        ) {
                            FieldParse::Matched(description, p3) => {
                                if p3 - (pos + 10) > size || pos + 10 + size > len {
                                    FrameParse::Failed
                                } else {
                                    FrameParse::Matched(
                                        FrameModel::Object {
                                            id: "GEOB"@,
                                            size,
                                            flags,
                                            mime_type,
                                            filename,
                                            description,
                                            data: b.subrange(p3, pos + 10 + size),
                                        },
                                        pos + 10 + size,
                                    )
                                }
                            },
                            FieldParse::NoMatch => FrameParse::NoMatch,
                            FieldParse::Failed => FrameParse::Failed,
                        },
                        FieldParse::NoMatch => FrameParse::NoMatch,
                        FieldParse::Failed => FrameParse::Failed,
                    },
                }
            }
        }
    }
}

/// An `APIC` frame: encoding byte, Latin-1 MIME type, one kind byte,
/// then an encoded description, then the image bytes up to the declared
/// size.
pub open spec fn spec_parse_picture(b: Seq<u8>, pos: int, sz: SizeScheme) -> FrameParse {
    let len = b.len() as int;
    if spec_id_mismatch(b, pos, spec_id_apic()) {
        FrameParse::NoMatch
    } else if pos + 4 > len {
        FrameParse::Failed
    } else if pos + 8 > len {
        if sz is V23 {
            FrameParse::NoMatch
        } else {
            FrameParse::Failed
        }
    } else {
        let size = spec_read_size(b, pos + 4, sz);
        if pos + 10 > len {
            FrameParse::Failed
        } else {
            let flags = spec_be_u16(b, pos + 8);
            if pos + 11 > len {
                FrameParse::Failed
            } else {
                let enc = b[pos + 10];
                match spec_parse_utf8_field(b, pos + 11, len) {
                    None => FrameParse::Failed,
                    Some((mime_type, p1)) => {
                        if p1 >= len {
                            FrameParse::Failed
                        } else {
                            let kind = b[p1];
                            match spec_parse_encoded(enc, b, p1 + 1, len) {
                                FieldParse::Matched(description, p2) => {
                                    if p2 - (pos + 10) > size || pos + 10 + size > len {
                                        FrameParse::Failed
                                    } else {
                                        FrameParse::Matched(
                                            FrameModel::Picture {
                                                id: "APIC"@,
                                                size,
                                                flags,
                                                mime_type,
                                                kind,
                                                description,
                                                data: b.subrange(p2, pos + 10 + size),
                                            },
                                            pos + 10 + size,
                                        )
                                    }
                                },
                                FieldParse::NoMatch => FrameParse::NoMatch,
                                FieldParse::Failed => FrameParse::Failed,
                            }
                        }
                    },
                }
            }
        }
    }
}

/// A text frame: any id starting with `T` (plus the legacy grouping ids
/// starting with `G`), an encoding byte, and one encoded value inside
/// the declared size.
pub open spec fn spec_parse_text(b: Seq<u8>, pos: int, sz: SizeScheme) -> FrameParse {
    let len = b.len() as int;
    if pos >= len {
        FrameParse::Failed
    } else if b[pos] != 0x47 && b[pos] != 0x54 {
        FrameParse::NoMatch
    } else if pos + 4 > len {
        FrameParse::Failed
    } else if pos + 8 > len {
        if sz is V23 {
            FrameParse::NoMatch
        } else {
            FrameParse::Failed
        }
    } else {
        let size = spec_read_size(b, pos + 4, sz);
        if pos + 10 > len {
            FrameParse::Failed
        } else {
            let flags = spec_be_u16(b, pos + 8);
            if size < 1 || pos + 10 + size > len {
                FrameParse::Failed
            } else {
                let enc = b[pos + 10];
                match spec_parse_encoded(enc, b, pos + 11, pos + 10 + size) {
                    FieldParse::Matched(text, _) => FrameParse::Matched(
                        FrameModel::Text {
                            id: spec_frame_id(b.subrange(pos, pos + 4)),
                            size,
                            flags,
                            text,
                        },
                        pos + 10 + size,
                    ),
                    FieldParse::NoMatch => FrameParse::NoMatch,
                    FieldParse::Failed => FrameParse::Failed,
                }
            }
        }
    }
}

/// A `POPM` frame: Latin-1 email, one rating byte, and a play counter
/// that is read past and discarded.
pub open spec fn spec_parse_popularity(b: Seq<u8>, pos: int, sz: SizeScheme) -> FrameParse {
    let len = b.len() as int;
    if spec_id_mismatch(b, pos, spec_id_popm()) {
        FrameParse::NoMatch
    } else if pos + 4 > len {
        FrameParse::Failed
    } else if pos + 8 > len {
        if sz is V23 {
            FrameParse::NoMatch
        } else {
            FrameParse::Failed
        }
    } else {
        let size = spec_read_size(b, pos + 4, sz);
        if pos + 10 > len {
            FrameParse::Failed
        } else {
            let flags = spec_be_u16(b, pos + 8);
            match spec_parse_utf8_field(b, pos + 10, len) {
                None => FrameParse::Failed,
                Some((email, p1)) => {
                    if p1 >= len {
                        FrameParse::Failed
                    } else {
                        let rating = b[p1];
                        let email_len = spec_find_nul(b, pos + 10, len) - (pos + 10);
                        if email_len + 2 > size || p1 + 1 + (size - email_len - 2) > len {
                            FrameParse::Failed
                        } else {
                            FrameParse::Matched(
                                FrameModel::Popularity { id: "POPM"@, size, flags, email, rating },
                                p1 + 1 + (size - email_len - 2),
                            )
                        }
                    }
                },
            }
        }
    }
}

/// The fallback: any four id bytes, the declared size consumed verbatim.
pub open spec fn spec_parse_generic(b: Seq<u8>, pos: int, sz: SizeScheme) -> FrameParse {
    let len = b.len() as int;
    if pos + 4 > len {
        FrameParse::Failed
    } else if pos + 8 > len {
        if sz is V23 {
            FrameParse::NoMatch
        } else {
            FrameParse::Failed
        }
    } else {
        let size = spec_read_size(b, pos + 4, sz);
        if pos + 10 > len {
            FrameParse::Failed
        } else {
            let flags = spec_be_u16(b, pos + 8);
            if pos + 10 + size > len {
                FrameParse::Failed
            } else {
                FrameParse::Matched(
                    FrameModel::Generic {
                        id: spec_frame_id(b.subrange(pos, pos + 4)),
                        size,
                        flags,
                        data: b.subrange(pos + 10, pos + 10 + size),
                    },
                    pos + 10 + size,
                )
            }
        }
    }
}

/// One frame at `pos`: the alternatives in dispatch order, where a hard
/// failure anywhere (or no alternative left) fails the decode. The
/// popularity alternative takes part in v2.4 dispatch only.
pub open spec fn spec_parse_frame(b: Seq<u8>, pos: int, sz: SizeScheme) -> Option<
    (FrameModel, int),
> {
    match spec_parse_padding(b, pos) {
        FrameParse::Matched(f, p) => Some((f, p)),
        FrameParse::Failed => None,
        FrameParse::NoMatch => match spec_parse_extended_text(b, pos, sz) {
            FrameParse::Matched(f, p) => Some((f, p)),
            FrameParse::Failed => None,
            FrameParse::NoMatch => match spec_parse_comment(b, pos, sz) {
                FrameParse::Matched(f, p) => Some((f, p)),
                FrameParse::Failed => None,
                FrameParse::NoMatch => match spec_parse_object(b, pos, sz) {
                    FrameParse::Matched(f, p) => Some((f, p)),
                    FrameParse::Failed => None,
                    FrameParse::NoMatch => match spec_parse_picture(b, pos, sz) {
                        FrameParse::Matched(f, p) => Some((f, p)),
                        FrameParse::Failed => None,
                        FrameParse::NoMatch => match spec_parse_text(b, pos, sz) {
                            FrameParse::Matched(f, p) => Some((f, p)),
                            FrameParse::Failed => None,
                            FrameParse::NoMatch => match (if sz is V24 {
                                spec_parse_popularity(b, pos, sz)
                            } else {
                                FrameParse::NoMatch
                            }) {
                                FrameParse::Matched(f, p) => Some((f, p)),
                                FrameParse::Failed => None,
                                FrameParse::NoMatch => match spec_parse_generic(b, pos, sz) {
                                    FrameParse::Matched(f, p) => Some((f, p)),
                                    FrameParse::NoMatch => None,
                                    FrameParse::Failed => None,
                                },
                            },
                        },
                    },
                },
            },
        },
    }
}

/// The whole body from `pos` on: frames in sequence until the end.
pub open spec fn spec_parse_all(b: Seq<u8>, pos: int, sz: SizeScheme) -> Option<Seq<FrameModel>>
    recommends
        0 <= pos <= b.len(),
    decreases b.len() - pos,
{
    if pos == b.len() {
        Some(seq![])
    } else {
        match spec_parse_frame(b, pos, sz) {
            Some((f, p)) => if pos < p <= b.len() {
                match spec_parse_all(b, p, sz) {
                    Some(rest) => Some(seq![f] + rest),
                    None => None,
                }
            } else {
                None
            },
            None => None,
        }
    }
}

/// The fixed 10-byte header: the signature `"ID3"`, three single-byte
/// fields, and a syncsafe body size.
pub open spec fn spec_file_header(b: Seq<u8>) -> Option<Header> {
    if b.len() >= 10 && b[0] == 0x49 && b[1] == 0x44 && b[2] == 0x33 {
        Some(
            Header {
                version: b[3],
                revision: b[4],
                flags: b[5],
                tag_size: spec_syncsafe_decode(b.subrange(6, 10)),
            },
        )
    } else {
        None
    }
}

/// How an executable parse outcome realises a ghost one.
pub open spec fn frame_parse_matches(r: FrameParsed, s: FrameParse) -> bool {
    match r {
        FrameParsed::Matched(f, p) => s == FrameParse::Matched(f@, p as int),
        FrameParsed::NoMatch => s == FrameParse::NoMatch,
        FrameParsed::Failed => s == FrameParse::Failed,
    }
}

/// Bounds of a matched parse: it always advances and stays inside the
/// body.
pub open spec fn frame_parse_advances(r: FrameParsed, pos: int, len: int) -> bool {
    match r {
        FrameParsed::Matched(f, p) => pos < p <= len,
        FrameParsed::NoMatch => true,
        FrameParsed::Failed => true,
    }
}

/// Reads a v2.4 frame-size field: a syncsafe integer.
pub fn v24_len(input: &[u8], at: usize) -> (r: u32)
    requires
        at + 4 <= input@.len(),
    ensures
        r == spec_read_size(input@, at as int, SizeScheme::V24),
{
    crate::syncsafe::decode_syncsafe(input, at)
}

/// Reads a v2.3 frame-size field: a plain 32-bit big-endian value.
pub fn v23_len(input: &[u8], at: usize) -> (r: u32)
    requires
        at + 4 <= input@.len(),
    ensures
        r == spec_read_size(input@, at as int, SizeScheme::V23),
{
    crate::wire::be_u32(input, at)
}

/// Reads a frame-size field under the given scheme.
fn read_size(input: &[u8], at: usize, sz: SizeScheme) -> (r: u32)
    requires
        at + 4 <= input@.len(),
    ensures
        r == spec_read_size(input@, at as int, sz),
{
    match sz {
        SizeScheme::V23 => v23_len(input, at),
        SizeScheme::V24 => v24_len(input, at),
    }
}

enum IdMatch {
    Yes,
    No,
    Short,
}

/// Compares the four wanted id bytes with the bytes present at `pos`.
fn match_id(input: &[u8], pos: usize, id0: u8, id1: u8, id2: u8, id3: u8) -> (r: IdMatch)
    requires
        pos <= input@.len(),
    ensures
        ({
            let id = seq![id0, id1, id2, id3];
            let b = input@;
            match r {
                IdMatch::Yes => pos + 4 <= b.len() && !spec_id_mismatch(b, pos as int, id),
                IdMatch::No => spec_id_mismatch(b, pos as int, id),
                IdMatch::Short => pos + 4 > b.len() && !spec_id_mismatch(b, pos as int, id),
            }
        }),
{
    let ghost id: Seq<u8> = seq![id0, id1, id2, id3];
    let ghost b = input@;
    let n = input.len();
    let avail = n - pos;
    if avail >= 1 && input[pos] != id0 {
        proof {
            assert(b[pos as int] != id[0]);
        }
        return IdMatch::No;
    }
    if avail >= 2 && input[pos + 1] != id1 {
        proof {
            assert(b[pos + 1] != id[1]);
        }
        return IdMatch::No;
    }
    if avail >= 3 && input[pos + 2] != id2 {
        proof {
            assert(b[pos + 2] != id[2]);
        }
        return IdMatch::No;
    }
    if avail >= 4 && input[pos + 3] != id3 {
        proof {
            assert(b[pos + 3] != id[3]);
        }
        return IdMatch::No;
    }
    proof {
        assert forall|k: int| pos <= k < pos + 4 && k < b.len() implies b[k] == id[k - pos] by {
            if k == pos {
                assert(b[k] == id0);
            } else if k == pos + 1 {
                assert(b[k] == id1);
            } else if k == pos + 2 {
                assert(b[k] == id2);
            } else {
                assert(b[k] == id3);
            }
        }
    }
    if avail < 4 {
        IdMatch::Short
    } else {
        IdMatch::Yes
    }
}

/// Reads the four id bytes at `pos` as text, or the sentinel id.
fn frame_id(input: &[u8], pos: usize) -> (r: String)
    requires
        pos + 4 <= input@.len(),
    ensures
        r@ == spec_frame_id(input@.subrange(pos as int, pos + 4)),
{
    let _n: usize = input.len();
    let bytes = slice_to_vec(&input[pos..pos + 4]);
    match utf8_to_string(bytes) {
        Some(s) => s,
        None => String::from_str("????"),
    }
}

/// Parses the padding alternative: zero bytes to the end of the body.
pub fn padding(input: &[u8], pos: usize) -> (r: FrameParsed)
    requires
        pos <= input@.len(),
        input@.len() < 0x1_0000_0000,
    ensures
        frame_parse_matches(r, spec_parse_padding(input@, pos as int)),
        frame_parse_advances(r, pos as int, input@.len() as int),
{
    let n = input.len();
    if pos >= n {
        return FrameParsed::NoMatch;
    }
    let mut i: usize = pos;
    while i < n && input[i] == 0
        invariant
            pos <= i <= n,
            n == input@.len(),
            forall|k: int| pos <= k < i ==> input@[k] == 0,
        decreases n - i,
    {
        i += 1;
    }
    if i < n {
        proof {
            assert(input@[i as int] != 0);
        }
        return FrameParsed::NoMatch;
    }
    let size = (n - pos) as u32;
    FrameParsed::Matched(Frame::Padding { size }, n)
}

/// Parses one `TXXX` frame at `pos`.
pub fn extended_text_frame(input: &[u8], pos: usize, sz: SizeScheme) -> (r: FrameParsed)
    requires
        pos <= input@.len(),
    ensures
        frame_parse_matches(r, spec_parse_extended_text(input@, pos as int, sz)),
        frame_parse_advances(r, pos as int, input@.len() as int),
{
    let n = input.len();
    match match_id(input, pos, 0x54, 0x58, 0x58, 0x58) {
        IdMatch::No => {
            return FrameParsed::NoMatch;
        },
        IdMatch::Short => {
            return FrameParsed::Failed;
        },
        IdMatch::Yes => {},
    }
    if n - pos < 8 {
        return match sz {
            SizeScheme::V23 => FrameParsed::NoMatch,
            SizeScheme::V24 => FrameParsed::Failed,
        };
    }
    let size = read_size(input, pos + 4, sz);
    if n - pos < 10 {
        return FrameParsed::Failed;
    }
    let flags = crate::wire::be_u16(input, pos + 8);
    let size_us = size as usize;
    if size < 1 || size_us > n - (pos + 10) {
        return FrameParsed::Failed;
    }
    let enc = input[pos + 10];
    let dend = pos + 10 + size_us;
    let (description, p1) = match parse_encoded(enc, input, pos + 11, dend) {
        FieldParsed::Matched(s, p) => (s, p),
        FieldParsed::NoMatch => {
            return FrameParsed::NoMatch;
        },
        FieldParsed::Failed => {
            return FrameParsed::Failed;
        },
    };
    match parse_encoded(enc, input, p1, dend) {
        FieldParsed::Matched(value, _) => {
            let f = Frame::ExtendedText {
                id: String::from_str("TXXX"),
                size,
                flags,
                description,
                value,
            };
            FrameParsed::Matched(f, dend)
        },
        FieldParsed::NoMatch => FrameParsed::NoMatch,
        FieldParsed::Failed => FrameParsed::Failed,
    }
}

/// Parses one `COMM` frame at `pos`.
pub fn comment_frame(input: &[u8], pos: usize, sz: SizeScheme) -> (r: FrameParsed)
    requires
        pos <= input@.len(),
    ensures
        frame_parse_matches(r, spec_parse_comment(input@, pos as int, sz)),
        frame_parse_advances(r, pos as int, input@.len() as int),
{
    let n = input.len();
    match match_id(input, pos, 0x43, 0x4F, 0x4D, 0x4D) {
        IdMatch::No => {
            return FrameParsed::NoMatch;
        },
        IdMatch::Short => {
            return FrameParsed::Failed;
        },
        IdMatch::Yes => {},
    }
    if n - pos < 8 {
        return match sz {
            SizeScheme::V23 => FrameParsed::NoMatch,
            SizeScheme::V24 => FrameParsed::Failed,
        };
    }
    let size = read_size(input, pos + 4, sz);
    if n - pos < 10 {
        return FrameParsed::Failed;
    }
    let flags = crate::wire::be_u16(input, pos + 8);
    if n - pos < 14 {
        return FrameParsed::Failed;
    }
    let enc = input[pos + 10];
    let langb = slice_to_vec(&input[pos + 11..pos + 14]);
    let language = match utf8_to_string(langb) {
        Some(s) => s,
        None => {
            return FrameParsed::Failed;
        },
    };
    let size_us = size as usize;
    if size < 4 || size_us > n - (pos + 10) {
        return FrameParsed::Failed;
    }
    let dend = pos + 10 + size_us;
    let (description, p1) = match parse_encoded(enc, input, pos + 14, dend) {
        FieldParsed::Matched(s, p) => (s, p),
        FieldParsed::NoMatch => {
            return FrameParsed::NoMatch;
        },
        FieldParsed::Failed => {
            return FrameParsed::Failed;
        },
    };
    match parse_encoded(enc, input, p1, dend) {
        FieldParsed::Matched(value, _) => {
            let f = Frame::Comment {
                id: String::from_str("COMM"),
                size,
                flags,
                language,
                description,
                value,
            };
            FrameParsed::Matched(f, dend)
        },
        FieldParsed::NoMatch => FrameParsed::NoMatch,
        FieldParsed::Failed => FrameParsed::Failed,
    }
}

/// Parses one `GEOB` frame at `pos`.
pub fn object_frame(input: &[u8], pos: usize, sz: SizeScheme) -> (r: FrameParsed)
    requires
        pos <= input@.len(),
    ensures
        frame_parse_matches(r, spec_parse_object(input@, pos as int, sz)),
        frame_parse_advances(r, pos as int, input@.len() as int),
{
    let n = input.len();
    match match_id(input, pos, 0x47, 0x45, 0x4F, 0x42) {
        IdMatch::No => {
            return FrameParsed::NoMatch;
        },
        IdMatch::Short => {
            return FrameParsed::Failed;
        },
        IdMatch::Yes => {},
    }
    if n - pos < 8 {
        return match sz {
            SizeScheme::V23 => FrameParsed::NoMatch,
            SizeScheme::V24 => FrameParsed::Failed,
        };
    }
    let size = read_size(input, pos + 4, sz);
    if n - pos < 10 {
        return FrameParsed::Failed;
    }
    let flags = crate::wire::be_u16(input, pos + 8);
    if n - pos < 11 {
        return FrameParsed::Failed;
    }
    let enc = input[pos + 10];
    let (mime_type, p1) = match parse_utf8_field(input, pos + 11, n) {
        Some(x) => x,
        None => {
            return FrameParsed::Failed;
        },
    };
    let (filename, p2) = match parse_encoded(enc, input, p1, n) {
        FieldParsed::Matched(s, p) => (s, p),
        FieldParsed::NoMatch => {
            return FrameParsed::NoMatch;
        },
        FieldParsed::Failed => {
            return FrameParsed::Failed;
        },
    };
    let (description, p3) = match parse_encoded(enc, input, p2, n) {
        FieldParsed::Matched(s, p) => (s, p),
        FieldParsed::NoMatch => {
            return FrameParsed::NoMatch;
        },
        FieldParsed::Failed => {
            return FrameParsed::Failed;
        },
    };
    let size_us = size as usize;
    if p3 - (pos + 10) > size_us || size_us > n - (pos + 10) {
        return FrameParsed::Failed;
    }
    let data = slice_to_vec(&input[p3..pos + 10 + size_us]);
    let f = Frame::Object {
        id: String::from_str("GEOB"),
        size,
        flags,
        mime_type,
        filename,
        description,
        data,
    };
    FrameParsed::Matched(f, pos + 10 + size_us)
}

/// Parses one `APIC` frame at `pos`.
pub fn picture_frame(input: &[u8], pos: usize, sz: SizeScheme) -> (r: FrameParsed)
    requires
        pos <= input@.len(),
    ensures
        frame_parse_matches(r, spec_parse_picture(input@, pos as int, sz)),
        frame_parse_advances(r, pos as int, input@.len() as int),
{
    let n = input.len();
    match match_id(input, pos, 0x41, 0x50, 0x49, 0x43) {
        IdMatch::No => {
            return FrameParsed::NoMatch;
        },
        IdMatch::Short => {
            return FrameParsed::Failed;
        },
        IdMatch::Yes => {},
    }
    if n - pos < 8 {
        return match sz {
            SizeScheme::V23 => FrameParsed::NoMatch,
            SizeScheme::V24 => FrameParsed::Failed,
        };
    }
    let size = read_size(input, pos + 4, sz);
    if n - pos < 10 {
        return FrameParsed::Failed;
    }
    let flags = crate::wire::be_u16(input, pos + 8);
    if n - pos < 11 {
        return FrameParsed::Failed;
    }
    let enc = input[pos + 10];
    let (mime_type, p1) = match parse_utf8_field(input, pos + 11, n) {
        Some(x) => x,
        None => {
            return FrameParsed::Failed;
        },
    };
    if p1 >= n {
        return FrameParsed::Failed;
    }
    let kind = input[p1];
    let (description, p2) = match parse_encoded(enc, input, p1 + 1, n) {
        FieldParsed::Matched(s, p) => (s, p),
        FieldParsed::NoMatch => {
            return FrameParsed::NoMatch;
        },
        FieldParsed::Failed => {
            return FrameParsed::Failed;
        },
    };
    let size_us = size as usize;
    if p2 - (pos + 10) > size_us || size_us > n - (pos + 10) {
        return FrameParsed::Failed;
    }
    let data = slice_to_vec(&input[p2..pos + 10 + size_us]);
    let f = Frame::Picture {
        id: String::from_str("APIC"),
        size,
        flags,
        mime_type,
        kind,
        description,
        data,
    };
    FrameParsed::Matched(f, pos + 10 + size_us)
}

/// Parses one text frame at `pos`.
pub fn text_frame(input: &[u8], pos: usize, sz: SizeScheme) -> (r: FrameParsed)
    requires
        pos <= input@.len(),
    ensures
        frame_parse_matches(r, spec_parse_text(input@, pos as int, sz)),
        frame_parse_advances(r, pos as int, input@.len() as int),
{
    let n = input.len();
    if pos >= n {
        return FrameParsed::Failed;
    }
    let c0 = input[pos];
    if c0 != 0x47 && c0 != 0x54 {
        return FrameParsed::NoMatch;
    }
    if n - pos < 4 {
        return FrameParsed::Failed;
    }
    if n - pos < 8 {
        return match sz {
            SizeScheme::V23 => FrameParsed::NoMatch,
            SizeScheme::V24 => FrameParsed::Failed,
        };
    }
    let size = read_size(input, pos + 4, sz);
    if n - pos < 10 {
        return FrameParsed::Failed;
    }
    let flags = crate::wire::be_u16(input, pos + 8);
    let size_us = size as usize;
    if size < 1 || size_us > n - (pos + 10) {
        return FrameParsed::Failed;
    }
    let enc = input[pos + 10];
    match parse_encoded(enc, input, pos + 11, pos + 10 + size_us) {
        FieldParsed::Matched(text, _) => {
            let f = Frame::Text { id: frame_id(input, pos), size, flags, text };
            FrameParsed::Matched(f, pos + 10 + size_us)
        },
        FieldParsed::NoMatch => FrameParsed::NoMatch,
        FieldParsed::Failed => FrameParsed::Failed,
    }
}

/// Parses one `POPM` frame at `pos`.
pub fn popularity_frame(input: &[u8], pos: usize, sz: SizeScheme) -> (r: FrameParsed)
    requires
        pos <= input@.len(),
    ensures
        frame_parse_matches(r, spec_parse_popularity(input@, pos as int, sz)),
        frame_parse_advances(r, pos as int, input@.len() as int),
{
    let n = input.len();
    let ghost b = input@;
    match match_id(input, pos, 0x50, 0x4F, 0x50, 0x4D) {
        IdMatch::No => {
            return FrameParsed::NoMatch;
        },
        IdMatch::Short => {
            return FrameParsed::Failed;
        },
        IdMatch::Yes => {},
    }
    if n - pos < 8 {
        return match sz {
            SizeScheme::V23 => FrameParsed::NoMatch,
            SizeScheme::V24 => FrameParsed::Failed,
        };
    }
    let size = read_size(input, pos + 4, sz);
    if n - pos < 10 {
        return FrameParsed::Failed;
    }
    let flags = crate::wire::be_u16(input, pos + 8);
    let (email, p1) = match parse_utf8_field(input, pos + 10, n) {
        Some(x) => x,
        None => {
            return FrameParsed::Failed;
        },
    };
    if p1 >= n {
        return FrameParsed::Failed;
    }
    let rating = input[p1];
    let email_len = email.as_str().len();
    proof {
        let start: int = pos + 10;
        let nul = spec_find_nul(b, start, n as int);
        lemma_find_nul_props(b, start, n as int);
        let sub = b.subrange(start, nul);
        vstd::utf8::decode_utf8_encode_utf8(sub);
        assert(encode_utf8(email@) == sub);
        assert(email_len == nul - start);
    }
    let size_us = size as usize;
    if email_len + 2 > size_us {
        return FrameParsed::Failed;
    }
    let remaining = size_us - email_len - 2;
    if remaining > n - (p1 + 1) {
        return FrameParsed::Failed;
    }
    let f = Frame::Popularity { id: String::from_str("POPM"), size, flags, email, rating };
    FrameParsed::Matched(f, p1 + 1 + remaining)
}

/// Parses one frame of any other id at `pos`, kept verbatim.
pub fn generic_frame(input: &[u8], pos: usize, sz: SizeScheme) -> (r: FrameParsed)
    requires
        pos <= input@.len(),
    ensures
        frame_parse_matches(r, spec_parse_generic(input@, pos as int, sz)),
        frame_parse_advances(r, pos as int, input@.len() as int),
{
    let n = input.len();
    if n - pos < 4 {
        return FrameParsed::Failed;
    }
    if n - pos < 8 {
        return match sz {
            SizeScheme::V23 => FrameParsed::NoMatch,
            SizeScheme::V24 => FrameParsed::Failed,
        };
    }
    let size = read_size(input, pos + 4, sz);
    if n - pos < 10 {
        return FrameParsed::Failed;
    }
    let flags = crate::wire::be_u16(input, pos + 8);
    let size_us = size as usize;
    if size_us > n - (pos + 10) {
        return FrameParsed::Failed;
    }
    let data = slice_to_vec(&input[pos + 10..pos + 10 + size_us]);
    let f = Frame::Generic { id: frame_id(input, pos), size, flags, data };
    FrameParsed::Matched(f, pos + 10 + size_us)
}

/// Parses the first frame at `pos`, trying the alternatives in dispatch
/// order.
pub fn parse_frame(input: &[u8], pos: usize, sz: SizeScheme) -> (r: Option<(Frame, usize)>)
    requires
        pos <= input@.len(),
        input@.len() < 0x1_0000_0000,
    ensures
        match r {
            Some((f, p)) => spec_parse_frame(input@, pos as int, sz) == Some((f@, p as int)) && pos
                < p <= input@.len(),
            None => spec_parse_frame(input@, pos as int, sz) is None,
        },
{
    match padding(input, pos) {
        FrameParsed::Matched(f, p) => {
            return Some((f, p));
        },
        FrameParsed::Failed => {
            return None;
        },
        FrameParsed::NoMatch => {},
    }
    match extended_text_frame(input, pos, sz) {
        FrameParsed::Matched(f, p) => {
            return Some((f, p));
        },
        FrameParsed::Failed => {
            return None;
        },
        FrameParsed::NoMatch => {},
    }
    match comment_frame(input, pos, sz) {
        FrameParsed::Matched(f, p) => {
            return Some((f, p));
        },
        FrameParsed::Failed => {
            return None;
        },
        FrameParsed::NoMatch => {},
    }
    match object_frame(input, pos, sz) {
        FrameParsed::Matched(f, p) => {
            return Some((f, p));
        },
        FrameParsed::Failed => {
            return None;
        },
        FrameParsed::NoMatch => {},
    }
    match picture_frame(input, pos, sz) {
        FrameParsed::Matched(f, p) => {
            return Some((f, p));
        },
        FrameParsed::Failed => {
            return None;
        },
        FrameParsed::NoMatch => {},
    }
    match text_frame(input, pos, sz) {
        FrameParsed::Matched(f, p) => {
            return Some((f, p));
        },
        FrameParsed::Failed => {
            return None;
        },
        FrameParsed::NoMatch => {},
    }
    match sz {
        SizeScheme::V24 => {
            match popularity_frame(input, pos, sz) {
                FrameParsed::Matched(f, p) => {
                    return Some((f, p));
                },
                FrameParsed::Failed => {
                    return None;
                },
                FrameParsed::NoMatch => {},
            }
        },
        SizeScheme::V23 => {},
    }
    match generic_frame(input, pos, sz) {
        FrameParsed::Matched(f, p) => Some((f, p)),
        _ => None,
    }
}

/// The models of a frame list.
pub open spec fn spec_frames_view(frames: Seq<Frame>) -> Seq<FrameModel> {
    frames.map(|i: int, f: Frame| f@)
}

/// Decodes a whole tag body into its frame list.
#[verifier::rlimit(60)]
pub fn all_frames(input: &[u8], sz: SizeScheme) -> (r: Option<Vec<Frame>>)
    requires
        input@.len() < 0x1_0000_0000,
    ensures
        match r {
            Some(frames) => spec_parse_all(input@, 0, sz) == Some(spec_frames_view(frames@)),
            None => spec_parse_all(input@, 0, sz) is None,
        },
{
    let n = input.len();
    let mut frames: Vec<Frame> = Vec::new();
    let mut pos: usize = 0;
    while pos < n
        invariant
            pos <= n,
            n == input@.len(),
            n < 0x1_0000_0000,
            match spec_parse_all(input@, pos as int, sz) {
                Some(rest) => spec_parse_all(input@, 0, sz) == Some(
                    spec_frames_view(frames@) + rest,
                ),
                None => spec_parse_all(input@, 0, sz) is None,
            },
        decreases n - pos,
    {
        match parse_frame(input, pos, sz) {
            Some((f, p)) => {
                proof {
                    let b = input@;
                    match spec_parse_all(b, p as int, sz) {
                        Some(rest2) => {
                            assert(spec_parse_all(b, pos as int, sz) == Some(seq![f@] + rest2));
                            assert(spec_frames_view(frames@.push(f)) =~= spec_frames_view(frames@)
                                + seq![f@]);
                            assert(spec_frames_view(frames@) + (seq![f@] + rest2)
                                =~= spec_frames_view(frames@.push(f)) + rest2);
                        },
                        None => {
                            assert(spec_parse_all(b, pos as int, sz) is None);
                        },
                    }
                }
                frames.push(f);
                pos = p;
            },
            None => {
                proof {
                    assert(spec_parse_all(input@, pos as int, sz) is None);
                }
                return None;
            },
        }
    }
    proof {
        assert(spec_parse_all(input@, pos as int, sz) == Some(Seq::<FrameModel>::empty()));
        assert(spec_frames_view(frames@) + Seq::<FrameModel>::empty() =~= spec_frames_view(
            frames@,
        ));
    }
    Some(frames)
}

/// Parses the fixed 10-byte header; a missing signature reads as "no
/// tag".
pub fn file_header(input: &[u8]) -> (r: Option<Header>)
    ensures
        r == spec_file_header(input@),
{
    let n = input.len();
    if n < 10 || input[0] != 0x49 || input[1] != 0x44 || input[2] != 0x33 {
        return None;
    }
    let tag_size = crate::syncsafe::decode_syncsafe(input, 6);
    Some(Header { version: input[3], revision: input[4], flags: input[5], tag_size })
}

} // verus!
