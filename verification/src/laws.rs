//! The properties the library is held to, stated and proved over the
//! codec's and rewriter's specifications: the syncsafe round trip lives
//! in [`crate::syncsafe`]; the frame and tag round trips and the
//! padding-reuse guarantee live here.

use crate::decode::spec_find_nul;
use crate::decode::spec_parse_utf8_field;
use crate::decode::spec_parse_utf16_field;
use crate::decode::spec_utf16_scan;
use crate::decode::spec_id_mismatch;
use crate::decode::spec_id_txxx;
use crate::decode::spec_id_comm;
use crate::decode::spec_id_geob;
use crate::decode::spec_id_apic;
use crate::decode::spec_id_popm;
use crate::decode::spec_read_size;
use crate::decode::FieldParse;
use crate::decode::FrameParse;
use crate::encode::spec_encode_frame;
use crate::encode::spec_encode_frames;
use crate::encode::spec_frame_body;
use crate::encode::spec_frame_wire_size;
use crate::frames::FrameModel;
use crate::frames::SizeScheme;
use crate::text::lemma_units_le_bytes_len;
use crate::text::lemma_utf16_decode_encode;
use crate::text::lemma_utf16_encode_nonzero;
use crate::text::spec_units_le_bytes;
use crate::text::spec_utf16_encode;
use crate::wire::spec_le_u16;
use vstd::prelude::*;
use vstd::utf8::char_is_scalar;
use vstd::utf8::char_u32_cast;
use vstd::utf8::decode_utf8;
use vstd::utf8::encode_scalar;
use vstd::utf8::encode_utf8;
use vstd::utf8::encode_utf8_decode_utf8;
use vstd::utf8::encode_utf8_valid_utf8;
use vstd::utf8::has_width_1_encoding;
use vstd::utf8::has_width_2_encoding;
use vstd::utf8::has_width_3_encoding;
use vstd::utf8::is_scalar;
use vstd::utf8::valid_utf8;

verus! {

proof fn lemma_encode_scalar_nonzero(c: u32)
    requires
        is_scalar(c),
        c != 0,
    ensures
        forall|j: int| 0 <= j < encode_scalar(c).len() ==> #[trigger] encode_scalar(c)[j] != 0,
{
    if has_width_1_encoding(c) {
        let b0 = vstd::utf8::leading_byte_width_1(c);
        assert(b0 != 0) by (bit_vector)
            requires
                b0 == (c & 0x7F) as u8,
                0 < c < 0x80,
        ;
    } else {
        let last = vstd::utf8::last_continuation_byte(c);
        assert(last != 0) by (bit_vector)
            requires
                last == 0x80 | (c & 0x3F) as u8,
        ;
        if has_width_2_encoding(c) {
            let b0 = vstd::utf8::leading_byte_width_2(c);
            assert(b0 != 0) by (bit_vector)
                requires
                    b0 == 0xC0 | ((c >> 6) & 0x1F) as u8,
            ;
        } else {
            let mid = vstd::utf8::second_last_continuation_byte(c);
            assert(mid != 0) by (bit_vector)
                requires
                    mid == 0x80 | ((c >> 6) & 0x3F) as u8,
            ;
            if has_width_3_encoding(c) {
                let b0 = vstd::utf8::leading_byte_width_3(c);
                assert(b0 != 0) by (bit_vector)
                    requires
                        b0 == 0xE0 | ((c >> 12) & 0x0F) as u8,
                ;
            } else {
                let b0 = vstd::utf8::leading_byte_width_4(c);
                let third = vstd::utf8::third_last_continuation_byte(c);
                assert(b0 != 0 && third != 0) by (bit_vector)
                    requires
                        b0 == 0xF0 | ((c >> 18) & 0x7) as u8,
                        third == 0x80 | ((c >> 12) & 0x3F) as u8,
                ;
            }
        }
    }
}

/// The UTF-8 encoding of a text without NUL characters has no zero
/// byte.
pub proof fn lemma_utf8_encode_nonzero(s: Seq<char>)
    requires
        forall|i: int| 0 <= i < s.len() ==> s[i] != '\0',
    ensures
        forall|j: int| 0 <= j < encode_utf8(s).len() ==> #[trigger] encode_utf8(s)[j] != 0,
    decreases s.len(),
{
    if s.len() > 0 {
        let c = s[0] as u32;
        char_is_scalar(s[0]);
        if c == 0 {
            char_u32_cast(s[0], 0);
            assert((0u32 as char) == '\0');
        }
        lemma_encode_scalar_nonzero(c);
        lemma_utf8_encode_nonzero(s.drop_first());
        let head = encode_scalar(c);
        let tail = encode_utf8(s.drop_first());
        assert forall|j: int| 0 <= j < encode_utf8(s).len() implies #[trigger] encode_utf8(s)[j]
            != 0 by {
            if j < head.len() {
                assert(encode_utf8(s)[j] == head[j]);
            } else {
                assert(encode_utf8(s)[j] == tail[j - head.len()]);
            }
        }
    }
}

proof fn lemma_scan_terminated(b: Seq<u8>, from: int, end: int, units: Seq<u16>)
    requires
        0 <= from,
        from + 2 * units.len() + 2 <= end <= b.len(),
        forall|i: int| 0 <= i < units.len() ==> units[i] != 0,
        b.subrange(from, from + 2 * units.len() + 2) == spec_units_le_bytes(units) + seq![
            0u8,
            0u8,
        ],
    ensures
        spec_utf16_scan(b, from, end) == Some((units, from + 2 * units.len() + 2)),
    decreases units.len(),
{
    lemma_units_le_bytes_len(units);
    let w = b.subrange(from, from + 2 * units.len() + 2);
    if units.len() == 0 {
        assert(b[from] == w[0] && b[from + 1] == w[1]);
        assert(w[0] == 0 && w[1] == 0);
        let z0 = b[from];
        let z1 = b[from + 1];
        assert((((z1 as u16) << 8) | (z0 as u16)) == 0) by (bit_vector)
            requires
                z0 == 0,
                z1 == 0,
        ;
        assert(spec_le_u16(b, from) == 0);
    } else {
        let v = units[0];
        let lo = (v & 0xff) as u8;
        let hi = (v >> 8) as u8;
        assert(spec_units_le_bytes(units) == crate::wire::spec_u16_le_bytes(v)
            + spec_units_le_bytes(units.drop_first()));
        assert(b[from] == w[0] && b[from + 1] == w[1]);
        assert(w[0] == lo && w[1] == hi);
        assert((((hi as u16) << 8) | (lo as u16)) == v) by (bit_vector)
            requires
                lo == (v & 0xff) as u8,
                hi == (v >> 8) as u8,
        ;
        assert(spec_le_u16(b, from) == v);
        let rest = units.drop_first();
        lemma_units_le_bytes_len(rest);
        assert(b.subrange(from + 2, from + 2 + 2 * rest.len() + 2) =~= spec_units_le_bytes(rest)
            + seq![0u8, 0u8]) by {
            assert forall|j: int| 0 <= j < 2 * rest.len() + 2 implies b.subrange(
                from + 2,
                from + 2 + 2 * rest.len() + 2,
            )[j] == (spec_units_le_bytes(rest) + seq![0u8, 0u8])[j] by {
                assert(b.subrange(from + 2, from + 2 + 2 * rest.len() + 2)[j] == w[j + 2]);
                assert(w[j + 2] == (spec_units_le_bytes(units) + seq![0u8, 0u8])[j + 2]);
            }
        }
        lemma_scan_terminated(b, from + 2, end, rest);
        assert(seq![v] + rest =~= units);
    }
}

proof fn lemma_scan_to_end(b: Seq<u8>, from: int, end: int, units: Seq<u16>)
    requires
        0 <= from,
        end == from + 2 * units.len(),
        end <= b.len(),
        forall|i: int| 0 <= i < units.len() ==> units[i] != 0,
        b.subrange(from, end) == spec_units_le_bytes(units),
    ensures
        spec_utf16_scan(b, from, end) == Some((units, end)),
    decreases units.len(),
{
    lemma_units_le_bytes_len(units);
    let w = b.subrange(from, end);
    if units.len() == 0 {
        assert(units =~= Seq::<u16>::empty());
    } else {
        let v = units[0];
        let lo = (v & 0xff) as u8;
        let hi = (v >> 8) as u8;
        assert(spec_units_le_bytes(units) == crate::wire::spec_u16_le_bytes(v)
            + spec_units_le_bytes(units.drop_first()));
        assert(b[from] == w[0] && b[from + 1] == w[1]);
        assert(w[0] == lo && w[1] == hi);
        assert((((hi as u16) << 8) | (lo as u16)) == v) by (bit_vector)
            requires
                lo == (v & 0xff) as u8,
                hi == (v >> 8) as u8,
        ;
        assert(spec_le_u16(b, from) == v);
        let rest = units.drop_first();
        lemma_units_le_bytes_len(rest);
        assert(b.subrange(from + 2, end) =~= spec_units_le_bytes(rest)) by {
            assert forall|j: int| 0 <= j < 2 * rest.len() implies b.subrange(from + 2, end)[j]
                == spec_units_le_bytes(rest)[j] by {
                assert(b.subrange(from + 2, end)[j] == w[j + 2]);
                assert(w[j + 2] == spec_units_le_bytes(units)[j + 2]);
            }
        }
        lemma_scan_to_end(b, from + 2, end, rest);
        assert(seq![v] + rest =~= units);
    }
}

/// A terminated UTF-16 field written at `start` reads back as exactly
/// its text, consuming through the terminator.
pub proof fn lemma_utf16_field_terminated(b: Seq<u8>, start: int, end: int, s: Seq<char>)
    requires
        0 <= start,
        forall|i: int| 0 <= i < s.len() ==> s[i] != '\0',
        start + crate::encode::spec_utf16_terminated(s).len() <= end <= b.len(),
        b.subrange(start, start + crate::encode::spec_utf16_terminated(s).len())
            == crate::encode::spec_utf16_terminated(s),
    ensures
        spec_parse_utf16_field(b, start, end) == FieldParse::Matched(
            s,
            start + crate::encode::spec_utf16_terminated(s).len(),
        ),
{
    let units = spec_utf16_encode(s);
    lemma_units_le_bytes_len(units);
    let w = b.subrange(start, start + crate::encode::spec_utf16_terminated(s).len());
    assert(b[start] == w[0] && b[start + 1] == w[1]);
    assert(w[0] == 0xFF && w[1] == 0xFE);
    lemma_utf16_encode_nonzero(s);
    assert(b.subrange(start + 2, start + 2 + 2 * units.len() + 2) =~= spec_units_le_bytes(units)
        + seq![0u8, 0u8]) by {
        assert forall|j: int| 0 <= j < 2 * units.len() + 2 implies b.subrange(
            start + 2,
            start + 2 + 2 * units.len() + 2,
        )[j] == (spec_units_le_bytes(units) + seq![0u8, 0u8])[j] by {
            assert(b.subrange(start + 2, start + 2 + 2 * units.len() + 2)[j] == w[j + 2]);
        }
    }
    lemma_scan_terminated(b, start + 2, end, units);
    lemma_utf16_decode_encode(s);
}

/// An unterminated UTF-16 field that fills its window reads back as
/// exactly its text, consuming the whole window.
pub proof fn lemma_utf16_field_to_end(b: Seq<u8>, start: int, end: int, s: Seq<char>)
    requires
        0 <= start,
        forall|i: int| 0 <= i < s.len() ==> s[i] != '\0',
        end == start + crate::encode::spec_utf16_bytes(s).len(),
        end <= b.len(),
        b.subrange(start, end) == crate::encode::spec_utf16_bytes(s),
    ensures
        spec_parse_utf16_field(b, start, end) == FieldParse::Matched(s, end),
{
    let units = spec_utf16_encode(s);
    lemma_units_le_bytes_len(units);
    let w = b.subrange(start, end);
    assert(b[start] == w[0] && b[start + 1] == w[1]);
    assert(w[0] == 0xFF && w[1] == 0xFE);
    lemma_utf16_encode_nonzero(s);
    assert(b.subrange(start + 2, end) =~= spec_units_le_bytes(units)) by {
        assert forall|j: int| 0 <= j < 2 * units.len() implies b.subrange(start + 2, end)[j]
            == spec_units_le_bytes(units)[j] by {
            assert(b.subrange(start + 2, end)[j] == w[j + 2]);
        }
    }
    lemma_scan_to_end(b, start + 2, end, units);
    lemma_utf16_decode_encode(s);
}

/// A NUL-terminated UTF-8 field written at `start` reads back as
/// exactly its text, consuming through the terminator.
pub proof fn lemma_utf8_field_terminated(b: Seq<u8>, start: int, end: int, s: Seq<char>)
    requires
        0 <= start,
        forall|i: int| 0 <= i < s.len() ==> s[i] != '\0',
        start + encode_utf8(s).len() + 1 <= end <= b.len(),
        b.subrange(start, start + encode_utf8(s).len()) == encode_utf8(s),
        b[start + encode_utf8(s).len()] == 0,
    ensures
        spec_parse_utf8_field(b, start, end) == Some((s, start + encode_utf8(s).len() + 1)),
{
    let k = encode_utf8(s).len() as int;
    lemma_utf8_encode_nonzero(s);
    assert forall|j: int| start <= j < start + k implies b[j] != 0 by {
        assert(b[j] == b.subrange(start, start + k)[j - start]);
        assert(encode_utf8(s)[j - start] != 0);
    }
    crate::decode::lemma_find_nul_at(b, start, end, start + k);
    assert(spec_find_nul(b, start, end) == start + k);
    encode_utf8_valid_utf8(s);
    encode_utf8_decode_utf8(s);
}

/// An unterminated UTF-8 field that fills its window reads back as
/// exactly its text, consuming the whole window.
pub proof fn lemma_utf8_field_to_end(b: Seq<u8>, start: int, end: int, s: Seq<char>)
    requires
        0 <= start,
        forall|i: int| 0 <= i < s.len() ==> s[i] != '\0',
        end == start + encode_utf8(s).len(),
        end <= b.len(),
        b.subrange(start, end) == encode_utf8(s),
    ensures
        spec_parse_utf8_field(b, start, end) == Some((s, end)),
{
    let k = encode_utf8(s).len() as int;
    lemma_utf8_encode_nonzero(s);
    assert forall|j: int| start <= j < start + k implies b[j] != 0 by {
        assert(b[j] == b.subrange(start, start + k)[j - start]);
        assert(encode_utf8(s)[j - start] != 0);
    }
    crate::decode::lemma_find_nul_at(b, start, end, end);
    encode_utf8_valid_utf8(s);
    encode_utf8_decode_utf8(s);
}

/// Whether a text holds no NUL character (the frame grammar's string
/// terminator).
pub open spec fn spec_no_nul(s: Seq<char>) -> bool {
    forall|i: int| 0 <= i < s.len() ==> s[i] != '\0'
}

/// What a frame must satisfy for its encoding to read back as itself:
/// its id must re-match the same grammar alternative, its text fields
/// must hold no NUL character, and its written body must fit the
/// 28-bit syncsafe size. Padding is zero fill, never re-read as the
/// same pseudo-frame, and a sentinel-id frame is dropped on write.
pub open spec fn spec_round_trippable(f: FrameModel) -> bool {
    match f {
        FrameModel::ExtendedText { id, description, value, .. } => {
            &&& id == "TXXX"@
            &&& spec_no_nul(description)
            &&& spec_no_nul(value)
            &&& spec_frame_body(f).len() < 0x1000_0000
        },
        FrameModel::Comment { id, language, description, value, .. } => {
            &&& id == "COMM"@
            &&& encode_utf8(language).len() == 3
            &&& spec_no_nul(language)
            &&& spec_no_nul(description)
            &&& spec_no_nul(value)
            &&& spec_frame_body(f).len() < 0x1000_0000
        },
        FrameModel::Object { id, mime_type, filename, description, .. } => {
            &&& id == "GEOB"@
            &&& spec_no_nul(mime_type)
            &&& spec_no_nul(filename)
            &&& spec_no_nul(description)
            &&& spec_frame_body(f).len() < 0x1000_0000
        },
        FrameModel::Picture { id, mime_type, description, .. } => {
            &&& id == "APIC"@
            &&& spec_no_nul(mime_type)
            &&& spec_no_nul(description)
            &&& spec_frame_body(f).len() < 0x1000_0000
        },
        FrameModel::Text { id, text, .. } => {
            &&& encode_utf8(id).len() == 4
            &&& (encode_utf8(id)[0] == 0x54 || encode_utf8(id)[0] == 0x47)
            &&& encode_utf8(id) != spec_id_txxx()
            &&& encode_utf8(id) != spec_id_geob()
            &&& spec_no_nul(text)
            &&& spec_frame_body(f).len() < 0x1000_0000
        },
        FrameModel::Popularity { id, email, .. } => {
            &&& id == "POPM"@
            &&& spec_no_nul(email)
            &&& spec_frame_body(f).len() < 0x1000_0000
        },
        FrameModel::Generic { id, size, data, .. } => {
            &&& encode_utf8(id).len() == 4
            &&& (forall|i: int| 0 <= i < 4 ==> encode_utf8(id)[i] != 0)
            &&& encode_utf8(id)[0] != 0x54
            &&& encode_utf8(id)[0] != 0x47
            &&& encode_utf8(id) != spec_id_comm()
            &&& encode_utf8(id) != spec_id_apic()
            &&& encode_utf8(id) != spec_id_popm()
            &&& id != "????"@
            &&& size == data.len()
            &&& size < 0x1000_0000
        },
        FrameModel::Padding { .. } => false,
    }
}

/// The frame as it reads back after a write: the same fields, with the
/// size recomputed to the written body length (a generic frame keeps
/// its stored size, which it was also written with).
pub open spec fn spec_resized(f: FrameModel) -> FrameModel {
    match f {
        FrameModel::Generic { id, size, flags, data } => FrameModel::Generic {
            id,
            size,
            flags,
            data,
        },
        FrameModel::Comment { id, flags, language, description, value, .. } => {
            FrameModel::Comment {
                id,
                size: spec_frame_wire_size(f),
                flags,
                language,
                description,
                value,
            }
        },
        FrameModel::ExtendedText { id, flags, description, value, .. } => {
            FrameModel::ExtendedText {
                id,
                size: spec_frame_wire_size(f),
                flags,
                description,
                value,
            }
        },
        FrameModel::Text { id, flags, text, .. } => FrameModel::Text {
            id,
            size: spec_frame_wire_size(f),
            flags,
            text,
        },
        FrameModel::Popularity { id, flags, email, rating, .. } => FrameModel::Popularity {
            id,
            size: spec_frame_wire_size(f),
            flags,
            email,
            rating,
        },
        FrameModel::Object { id, flags, mime_type, filename, description, data, .. } => {
            FrameModel::Object {
                id,
                size: spec_frame_wire_size(f),
                flags,
                mime_type,
                filename,
                description,
                data,
            }
        },
        FrameModel::Picture { id, flags, mime_type, kind, description, data, .. } => {
            FrameModel::Picture {
                id,
                size: spec_frame_wire_size(f),
                flags,
                mime_type,
                kind,
                description,
                data,
            }
        },
        FrameModel::Padding { size } => FrameModel::Padding { size },
    }
}

/// The byte values of the four fixed frame ids and of the sentinel.
proof fn lemma_id_literal_bytes()
    ensures
        encode_utf8("TXXX"@) == spec_id_txxx(),
        encode_utf8("COMM"@) == spec_id_comm(),
        encode_utf8("GEOB"@) == spec_id_geob(),
        encode_utf8("APIC"@) == spec_id_apic(),
        encode_utf8("POPM"@) == spec_id_popm(),
        "TXXX"@ != "????"@,
        "COMM"@ != "????"@,
        "GEOB"@ != "????"@,
        "APIC"@ != "????"@,
        "POPM"@ != "????"@,
{
    reveal_strlit("TXXX");
    reveal_strlit("COMM");
    reveal_strlit("GEOB");
    reveal_strlit("APIC");
    reveal_strlit("POPM");
    reveal_strlit("????");
    assert(vstd::utf8::is_ascii_chars("TXXX"@));
    assert(vstd::utf8::is_ascii_chars("COMM"@));
    assert(vstd::utf8::is_ascii_chars("GEOB"@));
    assert(vstd::utf8::is_ascii_chars("APIC"@));
    assert(vstd::utf8::is_ascii_chars("POPM"@));
    vstd::utf8::is_ascii_chars_encode_utf8("TXXX"@);
    vstd::utf8::is_ascii_chars_encode_utf8("COMM"@);
    vstd::utf8::is_ascii_chars_encode_utf8("GEOB"@);
    vstd::utf8::is_ascii_chars_encode_utf8("APIC"@);
    vstd::utf8::is_ascii_chars_encode_utf8("POPM"@);
    assert("TXXX"@[0] != "????"@[0]);
    assert("COMM"@[0] != "????"@[0]);
    assert("GEOB"@[0] != "????"@[0]);
    assert("APIC"@[0] != "????"@[0]);
    assert("POPM"@[0] != "????"@[0]);
    assert(encode_utf8("TXXX"@) =~= spec_id_txxx());
    assert(encode_utf8("COMM"@) =~= spec_id_comm());
    assert(encode_utf8("GEOB"@) =~= spec_id_geob());
    assert(encode_utf8("APIC"@) =~= spec_id_apic());
    assert(encode_utf8("POPM"@) =~= spec_id_popm());
}

/// Four id bytes in place that differ from a wanted id give the clean
/// mismatch that lets dispatch move on.
proof fn lemma_mismatch_of_ne(b: Seq<u8>, pos: int, idb: Seq<u8>, want: Seq<u8>)
    requires
        0 <= pos,
        pos + 4 <= b.len(),
        idb.len() == 4,
        want.len() == 4,
        idb != want,
        b.subrange(pos, pos + 4) == idb,
    ensures
        spec_id_mismatch(b, pos, want),
{
    if forall|k: int| 0 <= k < 4 ==> #[trigger] idb[k] == want[k] {
        assert(idb =~= want);
        assert(false);
    }
    let k = choose|k: int| 0 <= k < 4 && #[trigger] idb[k] != want[k];
    assert(b[pos + k] == b.subrange(pos, pos + 4)[k]);
    assert(b[pos + k] != want[(pos + k) - pos]);
}

/// The common ten header bytes of an encoded frame, read back.
proof fn lemma_frame_prefix(b: Seq<u8>, pos: int, idb: Seq<u8>, ws: u32, flags: u16, body: Seq<u8>)
    requires
        0 <= pos,
        idb.len() == 4,
        ws < 0x1000_0000,
        pos + 10 + body.len() <= b.len(),
        b.subrange(pos, pos + 10 + body.len()) == idb + crate::syncsafe::spec_syncsafe_encode(ws)
            + crate::wire::spec_u16_be_bytes(flags) + body,
    ensures
        b.subrange(pos, pos + 4) == idb,
        !spec_id_mismatch(b, pos, idb),
        spec_read_size(b, pos + 4, SizeScheme::V24) == ws,
        crate::wire::spec_be_u16(b, pos + 8) == flags,
        b.subrange(pos + 10, pos + 10 + body.len()) == body,
        forall|j: int|
            0 <= j < 10 + body.len() ==> b[pos + j] == #[trigger] (idb
                + crate::syncsafe::spec_syncsafe_encode(ws) + crate::wire::spec_u16_be_bytes(flags)
                + body)[j],
{
    let enc = idb + crate::syncsafe::spec_syncsafe_encode(ws) + crate::wire::spec_u16_be_bytes(
        flags,
    ) + body;
    assert forall|j: int| 0 <= j < 10 + body.len() implies b[pos + j] == #[trigger] enc[j] by {
        assert(b[pos + j] == b.subrange(pos, pos + 10 + body.len())[j]);
    }
    let ss = crate::syncsafe::spec_syncsafe_encode(ws);
    let fl = crate::wire::spec_u16_be_bytes(flags);
    assert forall|j: int| 0 <= j < 4 implies b.subrange(pos, pos + 4)[j] == idb[j] by {
        assert(b[pos + j] == enc[j]);
        assert(enc[j] == idb[j]);
    }
    assert(b.subrange(pos, pos + 4) =~= idb);
    assert forall|k: int| pos <= k < pos + 4 && k < b.len() implies b[k] == idb[k - pos] by {
        assert(b[pos + (k - pos)] == enc[k - pos]);
        assert(enc[k - pos] == idb[k - pos]);
    }
    assert forall|j: int| 0 <= j < 4 implies b.subrange(pos + 4, pos + 8)[j] == ss[j] by {
        assert(b[pos + (4 + j)] == enc[4 + j]);
        assert(enc[4 + j] == ss[j]);
    }
    assert(b.subrange(pos + 4, pos + 8) =~= crate::syncsafe::spec_syncsafe_encode(ws));
    crate::syncsafe::lemma_syncsafe_round_trip(ws);
    let fhi = b[pos + 8];
    let flo = b[pos + 9];
    assert(b[pos + 8] == enc[8] && b[pos + 9] == enc[9]);
    assert(enc[8] == fl[0] && enc[9] == fl[1]);
    assert(fhi == (flags >> 8) as u8 && flo == (flags & 0xff) as u8);
    assert((((fhi as u16) << 8) | (flo as u16)) == flags) by (bit_vector)
        requires
            fhi == (flags >> 8) as u8,
            flo == (flags & 0xff) as u8,
    ;
    assert forall|j: int| 0 <= j < body.len() implies b.subrange(pos + 10, pos + 10 + body.len())[j]
        == body[j] by {
        assert(b[pos + (10 + j)] == enc[10 + j]);
        assert(enc[10 + j] == body[j]);
    }
    assert(b.subrange(pos + 10, pos + 10 + body.len()) =~= body);
}

/// Round trip of a `TXXX` frame through the v2.4 codec.
proof fn lemma_round_trip_extended_text(b: Seq<u8>, pos: int, f: FrameModel)
    requires
        f is ExtendedText,
        spec_round_trippable(f),
        0 <= pos,
        pos + spec_encode_frame(f).len() <= b.len(),
        b.subrange(pos, pos + spec_encode_frame(f).len() as int) == spec_encode_frame(f),
    ensures
        crate::decode::spec_parse_extended_text(b, pos, SizeScheme::V24) == FrameParse::Matched(
            spec_resized(f),
            pos + spec_encode_frame(f).len(),
        ),
{
    let body = spec_frame_body(f);
    let ws = spec_frame_wire_size(f);
    let flags = crate::encode::spec_frame_model_flags(f);
    let enc = spec_encode_frame(f);
    lemma_id_literal_bytes();
    assert(enc == spec_id_txxx() + crate::syncsafe::spec_syncsafe_encode(ws)
        + crate::wire::spec_u16_be_bytes(flags) + body);
    assert(ws == body.len());
    lemma_frame_prefix(b, pos, spec_id_txxx(), ws, flags, body);
    match f {
        FrameModel::ExtendedText { id, size, flags: fl, description, value } => {
            let dterm = crate::encode::spec_utf16_terminated(description);
            let vbytes = crate::encode::spec_utf16_bytes(value);
            assert(body == seq![1u8] + dterm + vbytes);
            let dend = pos + 10 + ws;
            assert(b[pos + 10] == enc[10]);
            assert(enc[10] == body[0] && body[0] == 1);
            assert(b.subrange(pos + 11, pos + 11 + dterm.len()) =~= dterm) by {
                assert forall|j: int|
                    0 <= j < dterm.len() implies b.subrange(pos + 11, pos + 11 + dterm.len())[j]
                    == dterm[j] by {
                    assert(b[pos + (11 + j)] == enc[11 + j]);
                    assert(enc[11 + j] == body[1 + j]);
                    assert(body[1 + j] == dterm[j]);
                }
            }
            lemma_utf16_field_terminated(b, pos + 11, dend, description);
            let p1 = pos + 11 + dterm.len();
            assert(dend == p1 + vbytes.len());
            assert(b.subrange(p1, dend) =~= vbytes) by {
                assert forall|j: int| 0 <= j < vbytes.len() implies b.subrange(p1, dend)[j]
                    == vbytes[j] by {
                    assert(b[pos + (1 + dterm.len() + 10 + j)] == enc[11 + dterm.len() + j]);
                    assert(enc[11 + dterm.len() + j] == body[1 + dterm.len() + j]);
                    assert(body[1 + dterm.len() + j] == vbytes[j]);
                }
            }
            lemma_utf16_field_to_end(b, p1, dend, value);
            assert(crate::decode::spec_parse_encoded(1u8, b, pos + 11, dend)
                == FieldParse::Matched(description, p1));
            assert(crate::decode::spec_parse_encoded(1u8, b, p1, dend) == FieldParse::Matched(
                value,
                dend,
            ));
            assert(crate::decode::spec_parse_extended_text(b, pos, SizeScheme::V24)
                == FrameParse::Matched(spec_resized(f), pos + enc.len()));
        },
        _ => {
            assert(false);
        },
    }
}

/// Round trip of a `COMM` frame through the v2.4 codec.
proof fn lemma_round_trip_comment(b: Seq<u8>, pos: int, f: FrameModel)
    requires
        f is Comment,
        spec_round_trippable(f),
        0 <= pos,
        pos + spec_encode_frame(f).len() <= b.len(),
        b.subrange(pos, pos + spec_encode_frame(f).len() as int) == spec_encode_frame(f),
    ensures
        crate::decode::spec_parse_comment(b, pos, SizeScheme::V24) == FrameParse::Matched(
            spec_resized(f),
            pos + spec_encode_frame(f).len(),
        ),
{
    let body = spec_frame_body(f);
    let ws = spec_frame_wire_size(f);
    let flags = crate::encode::spec_frame_model_flags(f);
    let enc = spec_encode_frame(f);
    lemma_id_literal_bytes();
    assert(enc == spec_id_comm() + crate::syncsafe::spec_syncsafe_encode(ws)
        + crate::wire::spec_u16_be_bytes(flags) + body);
    assert(ws == body.len());
    lemma_frame_prefix(b, pos, spec_id_comm(), ws, flags, body);
    match f {
        FrameModel::Comment { id, size, flags: fl, language, description, value } => {
            let langb = encode_utf8(language);
            let dterm = crate::encode::spec_utf16_terminated(description);
            let vbytes = crate::encode::spec_utf16_bytes(value);
            assert(body == seq![1u8] + langb + dterm + vbytes);
            lemma_units_le_bytes_len(spec_utf16_encode(description));
            lemma_units_le_bytes_len(spec_utf16_encode(value));
            assert(body.len() >= 4);
            let dend = pos + 10 + ws;
            assert(b[pos + 10] == enc[10]);
            assert(enc[10] == body[0] && body[0] == 1);
            assert(b.subrange(pos + 11, pos + 14) =~= langb) by {
                assert forall|j: int| 0 <= j < 3 implies b.subrange(pos + 11, pos + 14)[j]
                    == langb[j] by {
                    assert(b[pos + (11 + j)] == enc[11 + j]);
                    assert(enc[11 + j] == body[1 + j]);
                    assert(body[1 + j] == langb[j]);
                }
            }
            encode_utf8_valid_utf8(language);
            encode_utf8_decode_utf8(language);
            assert(b.subrange(pos + 14, pos + 14 + dterm.len()) =~= dterm) by {
                assert forall|j: int|
                    0 <= j < dterm.len() implies b.subrange(pos + 14, pos + 14 + dterm.len())[j]
                    == dterm[j] by {
                    assert(b[pos + (14 + j)] == enc[14 + j]);
                    assert(enc[14 + j] == body[4 + j]);
                    assert(body[4 + j] == dterm[j]);
                }
            }
            lemma_utf16_field_terminated(b, pos + 14, dend, description);
            let p1 = pos + 14 + dterm.len();
            assert(dend == p1 + vbytes.len());
            assert(b.subrange(p1, dend) =~= vbytes) by {
                assert forall|j: int| 0 <= j < vbytes.len() implies b.subrange(p1, dend)[j]
                    == vbytes[j] by {
                    assert(b[pos + (14 + dterm.len() + j)] == enc[14 + dterm.len() + j]);
                    assert(enc[14 + dterm.len() + j] == body[4 + dterm.len() + j]);
                    assert(body[4 + dterm.len() + j] == vbytes[j]);
                }
            }
            lemma_utf16_field_to_end(b, p1, dend, value);
            assert(crate::decode::spec_parse_encoded(1u8, b, pos + 14, dend)
                == FieldParse::Matched(description, p1));
            assert(crate::decode::spec_parse_encoded(1u8, b, p1, dend) == FieldParse::Matched(
                value,
                dend,
            ));
            assert(crate::decode::spec_parse_comment(b, pos, SizeScheme::V24)
                == FrameParse::Matched(spec_resized(f), pos + enc.len()));
        },
        _ => {
            assert(false);
        },
    }
}

/// Round trip of a `GEOB` frame through the v2.4 codec.
proof fn lemma_round_trip_object(b: Seq<u8>, pos: int, f: FrameModel)
    requires
        f is Object,
        spec_round_trippable(f),
        0 <= pos,
        pos + spec_encode_frame(f).len() <= b.len(),
        b.subrange(pos, pos + spec_encode_frame(f).len() as int) == spec_encode_frame(f),
    ensures
        crate::decode::spec_parse_object(b, pos, SizeScheme::V24) == FrameParse::Matched(
            spec_resized(f),
            pos + spec_encode_frame(f).len(),
        ),
{
    let body = spec_frame_body(f);
    let ws = spec_frame_wire_size(f);
    let flags = crate::encode::spec_frame_model_flags(f);
    let enc = spec_encode_frame(f);
    lemma_id_literal_bytes();
    assert(enc == spec_id_geob() + crate::syncsafe::spec_syncsafe_encode(ws)
        + crate::wire::spec_u16_be_bytes(flags) + body);
    assert(ws == body.len());
    lemma_frame_prefix(b, pos, spec_id_geob(), ws, flags, body);
    match f {
        FrameModel::Object { id, size, flags: fl, mime_type, filename, description, data } => {
            let mimeb = encode_utf8(mime_type);
            let fterm = crate::encode::spec_utf16_terminated(filename);
            let dterm = crate::encode::spec_utf16_terminated(description);
            assert(body == seq![1u8] + mimeb + seq![0u8] + fterm + dterm + data);
            lemma_units_le_bytes_len(spec_utf16_encode(filename));
            lemma_units_le_bytes_len(spec_utf16_encode(description));
            let len = b.len() as int;
            assert(b[pos + 10] == enc[10]);
            assert(enc[10] == body[0] && body[0] == 1);
            // MIME type and its NUL terminator
            assert(b.subrange(pos + 11, pos + 11 + mimeb.len()) =~= mimeb) by {
                assert forall|j: int|
                    0 <= j < mimeb.len() implies b.subrange(pos + 11, pos + 11 + mimeb.len())[j]
                    == mimeb[j] by {
                    assert(b[pos + (11 + j)] == enc[11 + j]);
                    assert(enc[11 + j] == body[1 + j]);
                    assert(body[1 + j] == mimeb[j]);
                }
            }
            assert(b[pos + (11 + mimeb.len())] == enc[11 + mimeb.len() as int]);
            assert(enc[11 + mimeb.len() as int] == body[1 + mimeb.len() as int]);
            assert(body[1 + mimeb.len() as int] == 0);
            lemma_utf8_field_terminated(b, pos + 11, len, mime_type);
            let p1 = pos + 12 + mimeb.len();
            // filename
            assert(b.subrange(p1, p1 + fterm.len()) =~= fterm) by {
                assert forall|j: int| 0 <= j < fterm.len() implies b.subrange(
                    p1,
                    p1 + fterm.len(),
                )[j] == fterm[j] by {
                    assert(b[pos + (12 + mimeb.len() + j)] == enc[12 + mimeb.len() + j]);
                    assert(enc[12 + mimeb.len() + j] == body[2 + mimeb.len() + j]);
                    assert(body[2 + mimeb.len() + j] == fterm[j]);
                }
            }
            lemma_utf16_field_terminated(b, p1, len, filename);
            let p2 = p1 + fterm.len();
            // description
            assert(b.subrange(p2, p2 + dterm.len()) =~= dterm) by {
                assert forall|j: int| 0 <= j < dterm.len() implies b.subrange(
                    p2,
                    p2 + dterm.len(),
                )[j] == dterm[j] by {
                    assert(b[pos + (12 + mimeb.len() + fterm.len() + j)] == enc[12 + mimeb.len()
                        + fterm.len() + j]);
                    assert(enc[12 + mimeb.len() + fterm.len() + j] == body[2 + mimeb.len()
                        + fterm.len() + j]);
                    assert(body[2 + mimeb.len() + fterm.len() + j] == dterm[j]);
                }
            }
            lemma_utf16_field_terminated(b, p2, len, description);
            let p3 = p2 + dterm.len();
            assert(p3 - (pos + 10) == body.len() - data.len());
            assert(b.subrange(p3, pos + 10 + ws) =~= data) by {
                assert forall|j: int| 0 <= j < data.len() implies b.subrange(p3, pos + 10 + ws)[j]
                    == data[j] by {
                    assert(b[pos + (2 + mimeb.len() + fterm.len() + dterm.len() + 10 + j)]
                        == enc[12 + mimeb.len() + fterm.len() + dterm.len() + j]);
                    assert(enc[12 + mimeb.len() + fterm.len() + dterm.len() + j] == body[2
                        + mimeb.len() + fterm.len() + dterm.len() + j]);
                    assert(body[2 + mimeb.len() + fterm.len() + dterm.len() + j] == data[j]);
                }
            }
            assert(crate::decode::spec_parse_utf8_field(b, pos + 11, len) == Some(
                (mime_type, p1),
            ));
            assert(crate::decode::spec_parse_encoded(1u8, b, p1, len) == FieldParse::Matched(
                filename,
                p2,
            ));
            assert(crate::decode::spec_parse_encoded(1u8, b, p2, len) == FieldParse::Matched(
                description,
                p3,
            ));
            assert(crate::decode::spec_parse_object(b, pos, SizeScheme::V24)
                == FrameParse::Matched(spec_resized(f), pos + enc.len()));
        },
        _ => {
            assert(false);
        },
    }
}

/// Round trip of an `APIC` frame through the v2.4 codec.
proof fn lemma_round_trip_picture(b: Seq<u8>, pos: int, f: FrameModel)
    requires
        f is Picture,
        spec_round_trippable(f),
        0 <= pos,
        pos + spec_encode_frame(f).len() <= b.len(),
        b.subrange(pos, pos + spec_encode_frame(f).len() as int) == spec_encode_frame(f),
    ensures
        crate::decode::spec_parse_picture(b, pos, SizeScheme::V24) == FrameParse::Matched(
            spec_resized(f),
            pos + spec_encode_frame(f).len(),
        ),
{
    let body = spec_frame_body(f);
    let ws = spec_frame_wire_size(f);
    let flags = crate::encode::spec_frame_model_flags(f);
    let enc = spec_encode_frame(f);
    lemma_id_literal_bytes();
    assert(enc == spec_id_apic() + crate::syncsafe::spec_syncsafe_encode(ws)
        + crate::wire::spec_u16_be_bytes(flags) + body);
    assert(ws == body.len());
    lemma_frame_prefix(b, pos, spec_id_apic(), ws, flags, body);
    match f {
        FrameModel::Picture { id, size, flags: fl, mime_type, kind, description, data } => {
            let mimeb = encode_utf8(mime_type);
            let dterm = crate::encode::spec_utf16_terminated(description);
            assert(body == seq![1u8] + mimeb + seq![0u8] + seq![kind] + dterm + data);
            lemma_units_le_bytes_len(spec_utf16_encode(description));
            let len = b.len() as int;
            assert(b[pos + 10] == enc[10]);
            assert(enc[10] == body[0] && body[0] == 1);
            assert(b.subrange(pos + 11, pos + 11 + mimeb.len()) =~= mimeb) by {
                assert forall|j: int|
                    0 <= j < mimeb.len() implies b.subrange(pos + 11, pos + 11 + mimeb.len())[j]
                    == mimeb[j] by {
                    assert(b[pos + (11 + j)] == enc[11 + j]);
                    assert(enc[11 + j] == body[1 + j]);
                    assert(body[1 + j] == mimeb[j]);
                }
            }
            assert(b[pos + (11 + mimeb.len())] == enc[11 + mimeb.len() as int]);
            assert(enc[11 + mimeb.len() as int] == body[1 + mimeb.len() as int]);
            assert(body[1 + mimeb.len() as int] == 0);
            lemma_utf8_field_terminated(b, pos + 11, len, mime_type);
            let p1 = pos + 12 + mimeb.len();
            assert(b[pos + (12 + mimeb.len())] == enc[12 + mimeb.len() as int]);
            assert(enc[12 + mimeb.len() as int] == body[2 + mimeb.len() as int]);
            assert(body[2 + mimeb.len() as int] == kind);
            assert(b.subrange(p1 + 1, p1 + 1 + dterm.len()) =~= dterm) by {
                assert forall|j: int| 0 <= j < dterm.len() implies b.subrange(
                    p1 + 1,
                    p1 + 1 + dterm.len(),
                )[j] == dterm[j] by {
                    assert(b[pos + (13 + mimeb.len() + j)] == enc[13 + mimeb.len() + j]);
                    assert(enc[13 + mimeb.len() + j] == body[3 + mimeb.len() + j]);
                    assert(body[3 + mimeb.len() + j] == dterm[j]);
                }
            }
            lemma_utf16_field_terminated(b, p1 + 1, len, description);
            let p2 = p1 + 1 + dterm.len();
            assert(p2 - (pos + 10) == body.len() - data.len());
            assert(b.subrange(p2, pos + 10 + ws) =~= data) by {
                assert forall|j: int| 0 <= j < data.len() implies b.subrange(p2, pos + 10 + ws)[j]
                    == data[j] by {
                    assert(b[pos + (13 + mimeb.len() + dterm.len() + j)] == enc[13 + mimeb.len()
                        + dterm.len() + j]);
                    assert(enc[13 + mimeb.len() + dterm.len() + j] == body[3 + mimeb.len()
                        + dterm.len() + j]);
                    assert(body[3 + mimeb.len() + dterm.len() + j] == data[j]);
                }
            }
            assert(crate::decode::spec_parse_utf8_field(b, pos + 11, len) == Some(
                (mime_type, p1),
            ));
            assert(crate::decode::spec_parse_encoded(1u8, b, p1 + 1, len) == FieldParse::Matched(
                description,
                p2,
            ));
            assert(crate::decode::spec_parse_picture(b, pos, SizeScheme::V24)
                == FrameParse::Matched(spec_resized(f), pos + enc.len()));
        },
        _ => {
            assert(false);
        },
    }
}

/// Round trip of a text frame through the v2.4 codec.
proof fn lemma_round_trip_text(b: Seq<u8>, pos: int, f: FrameModel)
    requires
        f is Text,
        spec_round_trippable(f),
        0 <= pos,
        pos + spec_encode_frame(f).len() <= b.len(),
        b.subrange(pos, pos + spec_encode_frame(f).len() as int) == spec_encode_frame(f),
    ensures
        crate::decode::spec_parse_text(b, pos, SizeScheme::V24) == FrameParse::Matched(
            spec_resized(f),
            pos + spec_encode_frame(f).len(),
        ),
{
    let body = spec_frame_body(f);
    let ws = spec_frame_wire_size(f);
    let flags = crate::encode::spec_frame_model_flags(f);
    let enc = spec_encode_frame(f);
    match f {
        FrameModel::Text { id, size, flags: fl, text } => {
            let idb = encode_utf8(id);
            lemma_id_literal_bytes();
            assert(id != "????"@) by {
                if id == "????"@ {
                    reveal_strlit("????");
                    assert(vstd::utf8::is_ascii_chars("????"@));
                    vstd::utf8::is_ascii_chars_encode_utf8("????"@);
                    assert(encode_utf8(id)[0] == '?' as u8);
                    assert(encode_utf8(id)[0] != 0x54 && encode_utf8(id)[0] != 0x47);
                }
            }
            assert(enc == idb + crate::syncsafe::spec_syncsafe_encode(ws)
                + crate::wire::spec_u16_be_bytes(flags) + body);
            assert(ws == body.len());
            lemma_frame_prefix(b, pos, idb, ws, flags, body);
            let tbytes = crate::encode::spec_utf16_bytes(text);
            assert(body == seq![1u8] + tbytes);
            lemma_units_le_bytes_len(spec_utf16_encode(text));
            let dend = pos + 10 + ws;
            assert(b[pos + 0] == enc[0]);
            assert(enc[0] == idb[0]);
            assert(b[pos + 10] == enc[10]);
            assert(enc[10] == body[0] && body[0] == 1);
            assert(b.subrange(pos + 11, dend) =~= tbytes) by {
                assert forall|j: int| 0 <= j < tbytes.len() implies b.subrange(pos + 11, dend)[j]
                    == tbytes[j] by {
                    assert(b[pos + (11 + j)] == enc[11 + j]);
                    assert(enc[11 + j] == body[1 + j]);
                    assert(body[1 + j] == tbytes[j]);
                }
            }
            lemma_utf16_field_to_end(b, pos + 11, dend, text);
            assert(crate::decode::spec_parse_encoded(1u8, b, pos + 11, dend)
                == FieldParse::Matched(text, dend));
            encode_utf8_valid_utf8(id);
            encode_utf8_decode_utf8(id);
            assert(crate::decode::spec_frame_id(b.subrange(pos, pos + 4)) == id);
            assert(crate::decode::spec_parse_text(b, pos, SizeScheme::V24) == FrameParse::Matched(
                spec_resized(f),
                pos + enc.len(),
            ));
        },
        _ => {
            assert(false);
        },
    }
}

/// Round trip of a `POPM` frame through the v2.4 codec.
proof fn lemma_round_trip_popularity(b: Seq<u8>, pos: int, f: FrameModel)
    requires
        f is Popularity,
        spec_round_trippable(f),
        0 <= pos,
        pos + spec_encode_frame(f).len() <= b.len(),
        b.subrange(pos, pos + spec_encode_frame(f).len() as int) == spec_encode_frame(f),
    ensures
        crate::decode::spec_parse_popularity(b, pos, SizeScheme::V24) == FrameParse::Matched(
            spec_resized(f),
            pos + spec_encode_frame(f).len(),
        ),
{
    let body = spec_frame_body(f);
    let ws = spec_frame_wire_size(f);
    let flags = crate::encode::spec_frame_model_flags(f);
    let enc = spec_encode_frame(f);
    lemma_id_literal_bytes();
    assert(enc == spec_id_popm() + crate::syncsafe::spec_syncsafe_encode(ws)
        + crate::wire::spec_u16_be_bytes(flags) + body);
    assert(ws == body.len());
    lemma_frame_prefix(b, pos, spec_id_popm(), ws, flags, body);
    match f {
        FrameModel::Popularity { id, size, flags: fl, email, rating } => {
            let emailb = encode_utf8(email);
            assert(body == emailb + seq![0u8] + seq![rating]);
            let len = b.len() as int;
            assert(b.subrange(pos + 10, pos + 10 + emailb.len()) =~= emailb) by {
                assert forall|j: int|
                    0 <= j < emailb.len() implies b.subrange(pos + 10, pos + 10 + emailb.len())[j]
                    == emailb[j] by {
                    assert(b[pos + (10 + j)] == enc[10 + j]);
                    assert(enc[10 + j] == body[j]);
                    assert(body[j] == emailb[j]);
                }
            }
            assert(b[pos + (10 + emailb.len())] == enc[10 + emailb.len() as int]);
            assert(enc[10 + emailb.len() as int] == body[emailb.len() as int]);
            assert(body[emailb.len() as int] == 0);
            lemma_utf8_field_terminated(b, pos + 10, len, email);
            let p1 = pos + 11 + emailb.len();
            assert(b[pos + (11 + emailb.len())] == enc[11 + emailb.len() as int]);
            assert(enc[11 + emailb.len() as int] == body[1 + emailb.len() as int]);
            assert(body[1 + emailb.len() as int] == rating);
            assert(crate::decode::spec_parse_utf8_field(b, pos + 10, len) == Some((email, p1)));
            assert(spec_find_nul(b, pos + 10, len) == pos + 10 + emailb.len());
            assert(crate::decode::spec_parse_popularity(b, pos, SizeScheme::V24)
                == FrameParse::Matched(spec_resized(f), pos + enc.len()));
        },
        _ => {
            assert(false);
        },
    }
}

/// Round trip of a generic frame through the v2.4 codec: it is kept
/// verbatim, stored size included.
proof fn lemma_round_trip_generic(b: Seq<u8>, pos: int, f: FrameModel)
    requires
        f is Generic,
        spec_round_trippable(f),
        0 <= pos,
        pos + spec_encode_frame(f).len() <= b.len(),
        b.subrange(pos, pos + spec_encode_frame(f).len() as int) == spec_encode_frame(f),
    ensures
        crate::decode::spec_parse_generic(b, pos, SizeScheme::V24) == FrameParse::Matched(
            spec_resized(f),
            pos + spec_encode_frame(f).len(),
        ),
{
    let body = spec_frame_body(f);
    let ws = spec_frame_wire_size(f);
    let flags = crate::encode::spec_frame_model_flags(f);
    let enc = spec_encode_frame(f);
    match f {
        FrameModel::Generic { id, size, flags: fl, data } => {
            let idb = encode_utf8(id);
            lemma_id_literal_bytes();
            assert(id != "????"@);
            assert(enc == idb + crate::syncsafe::spec_syncsafe_encode(ws)
                + crate::wire::spec_u16_be_bytes(flags) + body);
            assert(ws == size);
            assert(body == data);
            lemma_frame_prefix(b, pos, idb, ws, flags, body);
            encode_utf8_valid_utf8(id);
            encode_utf8_decode_utf8(id);
            assert(crate::decode::spec_frame_id(b.subrange(pos, pos + 4)) == id);
            assert(crate::decode::spec_parse_generic(b, pos, SizeScheme::V24)
                == FrameParse::Matched(spec_resized(f), pos + enc.len()));
        },
        _ => {
            assert(false);
        },
    }
}

/// Round trip of the frame codec: parsing an encoded frame back under
/// the v2.4 scheme the writer uses yields the same frame with its size
/// recomputed, and consumes exactly the frame's bytes, whatever
/// follows them.
pub proof fn lemma_frame_round_trip(b: Seq<u8>, pos: int, f: FrameModel)
    requires
        spec_round_trippable(f),
        0 <= pos,
        pos + spec_encode_frame(f).len() <= b.len(),
        b.subrange(pos, pos + spec_encode_frame(f).len() as int) == spec_encode_frame(f),
    ensures
        crate::decode::spec_parse_frame(b, pos, SizeScheme::V24) == Some(
            (spec_resized(f), pos + spec_encode_frame(f).len()),
        ),
{
    let enc = spec_encode_frame(f);
    let idb = encode_utf8(crate::encode::spec_frame_model_id(f));
    lemma_id_literal_bytes();
    assert(enc == idb + crate::syncsafe::spec_syncsafe_encode(spec_frame_wire_size(f))
        + crate::wire::spec_u16_be_bytes(crate::encode::spec_frame_model_flags(f))
        + spec_frame_body(f)) by {
        if f is Text || f is Generic {
        } else {
            assert(crate::encode::spec_frame_model_id(f) != "????"@) by {
                reveal_strlit("????");
                reveal_strlit("TXXX");
                reveal_strlit("COMM");
                reveal_strlit("GEOB");
                reveal_strlit("APIC");
                reveal_strlit("POPM");
                assert("TXXX"@[0] != "????"@[0]);
                assert("COMM"@[0] != "????"@[0]);
                assert("GEOB"@[0] != "????"@[0]);
                assert("APIC"@[0] != "????"@[0]);
                assert("POPM"@[0] != "????"@[0]);
            }
        }
        if f is Text {
            assert(crate::encode::spec_frame_model_id(f) != "????"@) by {
                match f {
                    FrameModel::Text { id, .. } => {
                        if id == "????"@ {
                            reveal_strlit("????");
                            assert(vstd::utf8::is_ascii_chars("????"@));
                            vstd::utf8::is_ascii_chars_encode_utf8("????"@);
                            assert(encode_utf8(id)[0] == '?' as u8);
                        }
                    },
                    _ => {},
                }
            }
        }
    }
    assert forall|j: int| 0 <= j < enc.len() implies b[pos + j] == #[trigger] enc[j] by {
        assert(b[pos + j] == b.subrange(pos, pos + enc.len() as int)[j]);
    }
    assert(b.subrange(pos, pos + 4) =~= idb) by {
        assert forall|j: int| 0 <= j < 4 implies b.subrange(pos, pos + 4)[j] == idb[j] by {
            assert(b[pos + j] == enc[j]);
            assert(enc[j] == idb[j]);
        }
    }
    assert(b[pos + 0] == enc[0]);
    assert(enc[0] == idb[0]);
    // padding never matches: the first id byte is not zero
    let first = idb[0];
    assert(first != 0) by {
        match f {
            FrameModel::Text { id, .. } => {},
            FrameModel::Generic { id, .. } => {},
            _ => {},
        }
    }
    assert(crate::decode::spec_parse_padding(b, pos) == FrameParse::NoMatch) by {
        assert(b[pos] != 0);
    }
    match f {
        FrameModel::ExtendedText { .. } => {
            lemma_round_trip_extended_text(b, pos, f);
        },
        FrameModel::Comment { .. } => {
            lemma_mismatch_of_ne(b, pos, idb, spec_id_txxx());
            lemma_round_trip_comment(b, pos, f);
        },
        FrameModel::Object { .. } => {
            lemma_mismatch_of_ne(b, pos, idb, spec_id_txxx());
            lemma_mismatch_of_ne(b, pos, idb, spec_id_comm());
            lemma_round_trip_object(b, pos, f);
        },
        FrameModel::Picture { .. } => {
            lemma_mismatch_of_ne(b, pos, idb, spec_id_txxx());
            lemma_mismatch_of_ne(b, pos, idb, spec_id_comm());
            lemma_mismatch_of_ne(b, pos, idb, spec_id_geob());
            lemma_round_trip_picture(b, pos, f);
        },
        FrameModel::Text { .. } => {
            lemma_mismatch_of_ne(b, pos, idb, spec_id_txxx());
            lemma_mismatch_of_ne(b, pos, idb, spec_id_comm());
            lemma_mismatch_of_ne(b, pos, idb, spec_id_geob());
            lemma_mismatch_of_ne(b, pos, idb, spec_id_apic());
            lemma_round_trip_text(b, pos, f);
        },
        FrameModel::Popularity { .. } => {
            lemma_mismatch_of_ne(b, pos, idb, spec_id_txxx());
            lemma_mismatch_of_ne(b, pos, idb, spec_id_comm());
            lemma_mismatch_of_ne(b, pos, idb, spec_id_geob());
            lemma_mismatch_of_ne(b, pos, idb, spec_id_apic());
            assert(crate::decode::spec_parse_text(b, pos, SizeScheme::V24)
                == FrameParse::NoMatch) by {
                assert(b[pos] == 0x50);
            }
            lemma_round_trip_popularity(b, pos, f);
        },
        FrameModel::Generic { .. } => {
            lemma_mismatch_of_ne(b, pos, idb, spec_id_txxx());
            lemma_mismatch_of_ne(b, pos, idb, spec_id_comm());
            lemma_mismatch_of_ne(b, pos, idb, spec_id_geob());
            lemma_mismatch_of_ne(b, pos, idb, spec_id_apic());
            lemma_mismatch_of_ne(b, pos, idb, spec_id_popm());
            assert(crate::decode::spec_parse_text(b, pos, SizeScheme::V24)
                == FrameParse::NoMatch) by {
                assert(b[pos] != 0x54 && b[pos] != 0x47);
            }
            lemma_round_trip_generic(b, pos, f);
        },
        FrameModel::Padding { .. } => {
            assert(false);
        },
    }
}

/// Padding reuse: when the re-encoded frames still fit strictly inside
/// the original body, the rendered tag body keeps exactly the original
/// length, so an edit within the slack never moves the audio payload
/// and never grows the tag.
pub proof fn lemma_padding_reuse(frames: Seq<FrameModel>, original: int)
    requires
        0 <= original,
        spec_encode_frames(frames).len() < original,
    ensures
        crate::tag::spec_render(frames, original).len() == 10 + original,
{
    let body = spec_encode_frames(frames);
    let pad = crate::tag::spec_padding_len(body.len() as int, original);
    assert(pad == original - body.len());
    assert(crate::tag::spec_render(frames, original).len() == 6 + 4 + body.len() + pad);
}

/// A run of encoded frames followed by zero fill reads back as the
/// resized frames plus one padding frame covering the fill.
#[verifier::rlimit(100)]
proof fn lemma_parse_all_of_encoded(b: Seq<u8>, pos: int, frames: Seq<FrameModel>)
    requires
        forall|i: int| 0 <= i < frames.len() ==> spec_round_trippable(#[trigger] frames[i]),
        0 <= pos,
        pos + spec_encode_frames(frames).len() < b.len(),
        b.len() < 0x1_0000_0000,
        b.subrange(pos, pos + spec_encode_frames(frames).len() as int) == spec_encode_frames(
            frames,
        ),
        forall|k: int| pos + spec_encode_frames(frames).len() <= k < b.len() ==> b[k] == 0,
    ensures
        crate::decode::spec_parse_all(b, pos, SizeScheme::V24) == Some(
            frames.map(|i: int, g: FrameModel| spec_resized(g)).push(
                FrameModel::Padding { size: (b.len() - pos - spec_encode_frames(frames).len()) as u32 },
            ),
        ),
    decreases frames.len(),
{
    let encs = spec_encode_frames(frames);
    if frames.len() == 0 {
        assert(encs.len() == 0);
        assert(pos < b.len());
        assert(forall|k: int| pos <= k < b.len() ==> b[k] == 0);
        assert(crate::decode::spec_parse_padding(b, pos) == FrameParse::Matched(
            FrameModel::Padding { size: (b.len() - pos) as u32 },
            b.len() as int,
        ));
        assert(crate::decode::spec_parse_frame(b, pos, SizeScheme::V24) == Some(
            (FrameModel::Padding { size: (b.len() - pos) as u32 }, b.len() as int),
        ));
        assert(crate::decode::spec_parse_all(b, b.len() as int, SizeScheme::V24) == Some(
            Seq::<FrameModel>::empty(),
        ));
        let padf = FrameModel::Padding { size: (b.len() - pos) as u32 };
        assert(seq![padf] + Seq::<FrameModel>::empty() =~= frames.map(
            |i: int, g: FrameModel| spec_resized(g),
        ).push(padf));
    } else {
        let f = frames[0];
        let rest = frames.drop_first();
        let e0 = spec_encode_frame(f);
        assert(encs == e0 + spec_encode_frames(rest));
        assert(b.subrange(pos, pos + e0.len() as int) =~= e0) by {
            assert forall|j: int|
                0 <= j < e0.len() implies b.subrange(pos, pos + e0.len() as int)[j] == e0[j] by {
                assert(b[pos + j] == b.subrange(pos, pos + encs.len() as int)[j]);
                assert(encs[j] == e0[j]);
            }
        }
        lemma_frame_round_trip(b, pos, f);
        // an encoded, round-trippable frame is at least its ten header bytes
        assert(e0.len() >= 10) by {
            assert(e0 == encode_utf8(crate::encode::spec_frame_model_id(f))
                + crate::syncsafe::spec_syncsafe_encode(spec_frame_wire_size(f))
                + crate::wire::spec_u16_be_bytes(crate::encode::spec_frame_model_flags(f))
                + spec_frame_body(f));
        }
        let p = pos + e0.len() as int;
        assert forall|i: int| 0 <= i < rest.len() implies spec_round_trippable(
            #[trigger] rest[i],
        ) by {
            assert(rest[i] == frames[i + 1]);
        }
        assert(b.subrange(p, p + spec_encode_frames(rest).len() as int) =~= spec_encode_frames(
            rest,
        )) by {
            assert forall|j: int|
                0 <= j < spec_encode_frames(rest).len() implies b.subrange(
                p,
                p + spec_encode_frames(rest).len() as int,
            )[j] == spec_encode_frames(rest)[j] by {
                assert(b[pos + (e0.len() + j)] == b.subrange(pos, pos + encs.len() as int)[e0.len()
                    + j]);
                assert(encs[e0.len() + j] == spec_encode_frames(rest)[j]);
            }
        }
        lemma_parse_all_of_encoded(b, p, rest);
        let padf = FrameModel::Padding { size: (b.len() - pos - encs.len()) as u32 };
        let mapped = frames.map(|i: int, g: FrameModel| spec_resized(g));
        let mapped_rest = rest.map(|i: int, g: FrameModel| spec_resized(g));
        assert(crate::decode::spec_parse_all(b, pos, SizeScheme::V24) == Some(
            seq![spec_resized(f)] + mapped_rest.push(padf),
        ));
        assert(seq![spec_resized(f)] + mapped_rest.push(padf) =~= mapped.push(padf)) by {
            assert(mapped.len() == 1 + mapped_rest.len());
            assert forall|i: int|
                0 <= i < mapped.push(padf).len() implies (seq![spec_resized(f)]
                + mapped_rest.push(padf))[i] == mapped.push(padf)[i] by {
                if i == 0 {
                    assert(mapped[0] == spec_resized(frames[0]));
                } else if i < mapped.len() {
                    assert(mapped_rest[i - 1] == spec_resized(rest[i - 1]));
                    assert(rest[i - 1] == frames[i]);
                    assert(mapped[i] == spec_resized(frames[i]));
                }
            }
        }
    }
}

/// Writing in place and writing to a new file hand the caller one and
/// the same byte block, rendered from the frames and the original body
/// length alone; re-reading it after either write yields the same
/// list: every frame back with its size recomputed, then one padding
/// frame covering the zero fill.
pub proof fn lemma_write_read_equivalence(frames: Seq<FrameModel>, original: u32)
    requires
        forall|i: int| 0 <= i < frames.len() ==> spec_round_trippable(#[trigger] frames[i]),
        spec_encode_frames(frames).len() + crate::tag::spec_padding_len(
            spec_encode_frames(frames).len() as int,
            original as int,
        ) < 0x1000_0000,
    ensures
        ({
            let rendered = crate::tag::spec_render(frames, original as int);
            let body = spec_encode_frames(frames);
            let pad = crate::tag::spec_padding_len(body.len() as int, original as int);
            let total = body.len() + pad;
            &&& crate::decode::spec_file_header(rendered) == Some(
                crate::frames::Header {
                    version: 4,
                    revision: 0,
                    flags: 0,
                    tag_size: total as u32,
                },
            )
            &&& crate::decode::spec_parse_all(
                rendered.subrange(10, 10 + total),
                0,
                SizeScheme::V24,
            ) == Some(
                frames.map(|i: int, g: FrameModel| spec_resized(g)).push(
                    FrameModel::Padding { size: pad as u32 },
                ),
            )
        }),
{
    let rendered = crate::tag::spec_render(frames, original as int);
    let body = spec_encode_frames(frames);
    let pad = crate::tag::spec_padding_len(body.len() as int, original as int);
    let total = body.len() + pad;
    assert(pad >= 1);
    let zeros = Seq::new(pad as nat, |i: int| 0u8);
    let ss = crate::syncsafe::spec_syncsafe_encode(((total % 0x1_0000_0000) as u32));
    assert(rendered == seq![0x49u8, 0x44u8, 0x33u8, 0x04u8, 0u8, 0u8] + ss + body + zeros);
    assert(rendered.len() == 10 + total);
    assert(rendered[0] == 0x49 && rendered[1] == 0x44 && rendered[2] == 0x33);
    assert(rendered[3] == 4 && rendered[4] == 0 && rendered[5] == 0);
    assert(rendered.subrange(6, 10) =~= ss) by {
        assert forall|j: int| 0 <= j < 4 implies rendered.subrange(6, 10)[j] == ss[j] by {
            assert(rendered[6 + j] == ss[j]);
        }
    }
    assert((total % 0x1_0000_0000) as u32 == total as u32);
    crate::syncsafe::lemma_syncsafe_round_trip(total as u32);
    let tagbody = rendered.subrange(10, 10 + total);
    assert forall|j: int| 0 <= j < total implies tagbody[j] == (body + zeros)[j] by {
        assert(rendered[10 + j] == ((seq![0x49u8, 0x44u8, 0x33u8, 0x04u8, 0u8, 0u8] + ss) + (body
            + zeros))[10 + j]);
    }
    assert(tagbody.subrange(0, body.len() as int) =~= body) by {
        assert forall|j: int| 0 <= j < body.len() implies tagbody.subrange(
            0,
            body.len() as int,
        )[j] == body[j] by {
            assert(tagbody[j] == (body + zeros)[j]);
        }
    }
    assert forall|k: int| body.len() <= k < tagbody.len() implies tagbody[k] == 0 by {
        assert(tagbody[k] == (body + zeros)[k]);
        assert((body + zeros)[k] == zeros[k - body.len()]);
    }
    lemma_parse_all_of_encoded(tagbody, 0, frames);
    assert((tagbody.len() - 0 - body.len()) as u32 == pad as u32);
}

/// The first text value a model frame list holds under `id` — the
/// model-level counterpart of the text getters' search.
pub open spec fn spec_model_text_of(frames: Seq<FrameModel>, id: Seq<char>) -> Option<Seq<char>>
    decreases frames.len(),
{
    if frames.len() == 0 {
        None
    } else if frames[0] matches FrameModel::Text { id: fid, .. } && fid == id {
        match frames[0] {
            FrameModel::Text { text, .. } => Some(text),
            _ => None,
        }
    } else {
        spec_model_text_of(frames.drop_first(), id)
    }
}

/// The first picture a model frame list stores under the given kind
/// byte — the model-level counterpart of the picture getter's search.
pub open spec fn spec_model_picture_of(frames: Seq<FrameModel>, kind: u8) -> Option<FrameModel>
    decreases frames.len(),
{
    if frames.len() == 0 {
        None
    } else if frames[0] matches FrameModel::Picture { kind: k, .. } && k == kind {
        Some(frames[0])
    } else {
        spec_model_picture_of(frames.drop_first(), kind)
    }
}

/// The text getters' search agrees with its model-level counterpart.
pub proof fn lemma_text_of_view(frames: Seq<crate::frames::Frame>, id: Seq<char>)
    ensures
        crate::tag::spec_text_of(frames, id) == spec_model_text_of(
            crate::decode::spec_frames_view(frames),
            id,
        ),
    decreases frames.len(),
{
    if frames.len() > 0 {
        lemma_text_of_view(frames.drop_first(), id);
        assert(crate::decode::spec_frames_view(frames).drop_first()
            =~= crate::decode::spec_frames_view(frames.drop_first()));
        assert(crate::decode::spec_frames_view(frames)[0] == frames[0]@);
    }
}

/// The picture getter's search agrees with its model-level counterpart.
pub proof fn lemma_picture_of_view(frames: Seq<crate::frames::Frame>, kind: u8)
    ensures
        ({
            let found = crate::tag::spec_attached_picture_of(frames, kind);
            let model = spec_model_picture_of(crate::decode::spec_frames_view(frames), kind);
            match found {
                Some(f) => model == Some(f@),
                None => model is None,
            }
        }),
    decreases frames.len(),
{
    if frames.len() > 0 {
        lemma_picture_of_view(frames.drop_first(), kind);
        assert(crate::decode::spec_frames_view(frames).drop_first()
            =~= crate::decode::spec_frames_view(frames.drop_first()));
        assert(crate::decode::spec_frames_view(frames)[0] == frames[0]@);
    }
}

proof fn lemma_model_text_of_at(
    list: Seq<FrameModel>,
    k: int,
    id: Seq<char>,
    size: u32,
    flags: u16,
    text: Seq<char>,
)
    requires
        0 <= k < list.len(),
        forall|j: int|
            0 <= j < k ==> !(#[trigger] list[j] matches FrameModel::Text { id: fid, .. } && fid
                == id),
        list[k] == (FrameModel::Text { id, size, flags, text }),
    ensures
        spec_model_text_of(list, id) == Some(text),
    decreases k,
{
    if k == 0 {
    } else {
        assert forall|j: int|
            0 <= j < k - 1 implies !(#[trigger] list.drop_first()[j] matches FrameModel::Text {
            id: fid,
            ..
        } && fid == id) by {
            assert(list.drop_first()[j] == list[j + 1]);
        }
        assert(list.drop_first()[k - 1] == list[k]);
        lemma_model_text_of_at(list.drop_first(), k - 1, id, size, flags, text);
    }
}

proof fn lemma_model_picture_of_at(list: Seq<FrameModel>, k: int, kind: u8)
    requires
        0 <= k < list.len(),
        forall|j: int|
            0 <= j < k ==> !(#[trigger] list[j] matches FrameModel::Picture { kind: kk, .. } && kk
                == kind),
        list[k] matches FrameModel::Picture { kind: kk, .. } && kk == kind,
    ensures
        spec_model_picture_of(list, kind) == Some(list[k]),
    decreases k,
{
    if k == 0 {
    } else {
        assert forall|j: int|
            0 <= j < k - 1 implies !(#[trigger] list.drop_first()[j] matches FrameModel::Picture {
            kind: kk,
            ..
        } && kk == kind) by {
            assert(list.drop_first()[j] == list[j + 1]);
        }
        assert(list.drop_first()[k - 1] == list[k]);
        lemma_model_picture_of_at(list.drop_first(), k - 1, kind);
    }
}

/// Editing then rewriting, for text frames: after the setter has
/// removed the old frame for `id` (so `kept` holds no text frame for
/// it) and appended the replacement, reading the rendered tag back
/// yields exactly the new text under `id` — the title set is the title
/// read.
pub proof fn lemma_set_text_write_read(
    kept: Seq<FrameModel>,
    id: Seq<char>,
    text: Seq<char>,
    original: u32,
)
    requires
        forall|i: int| 0 <= i < kept.len() ==> spec_round_trippable(#[trigger] kept[i]),
        forall|i: int|
            0 <= i < kept.len() ==> !(#[trigger] kept[i] matches FrameModel::Text { id: fid, .. }
                && fid == id),
        spec_round_trippable(FrameModel::Text { id, size: 0, flags: 0, text }),
        spec_encode_frames(kept.push(FrameModel::Text { id, size: 0, flags: 0, text })).len()
            + crate::tag::spec_padding_len(
            spec_encode_frames(kept.push(FrameModel::Text { id, size: 0, flags: 0, text })).len() as int,
            original as int,
        ) < 0x1000_0000,
    ensures
        ({
            let frames = kept.push(FrameModel::Text { id, size: 0, flags: 0, text });
            let rendered = crate::tag::spec_render(frames, original as int);
            let body = spec_encode_frames(frames);
            let total = body.len() + crate::tag::spec_padding_len(
                body.len() as int,
                original as int,
            );
            match crate::decode::spec_parse_all(
                rendered.subrange(10, 10 + total),
                0,
                SizeScheme::V24,
            ) {
                Some(models) => spec_model_text_of(models, id) == Some(text),
                None => false,
            }
        }),
{
    let newf = FrameModel::Text { id, size: 0, flags: 0, text };
    let frames = kept.push(newf);
    assert forall|i: int| 0 <= i < frames.len() implies spec_round_trippable(
        #[trigger] frames[i],
    ) by {
        if i < kept.len() {
            assert(frames[i] == kept[i]);
        }
    }
    lemma_write_read_equivalence(frames, original);
    let body = spec_encode_frames(frames);
    let pad = crate::tag::spec_padding_len(body.len() as int, original as int);
    let mapped = frames.map(|i: int, g: FrameModel| spec_resized(g));
    let models = mapped.push(FrameModel::Padding { size: pad as u32 });
    let k = kept.len() as int;
    assert forall|j: int|
        0 <= j < k implies !(#[trigger] models[j] matches FrameModel::Text { id: fid, .. } && fid
        == id) by {
        assert(models[j] == spec_resized(frames[j]));
        assert(frames[j] == kept[j]);
    }
    assert(mapped[k] == spec_resized(newf));
    assert(models[k] == (FrameModel::Text {
        id,
        size: spec_frame_wire_size(newf),
        flags: 0,
        text,
    }));
    lemma_model_text_of_at(models, k, id, spec_frame_wire_size(newf), 0, text);
}

/// Editing then rewriting, for pictures: after the setter has removed
/// the picture stored under `kind` (so `kept` holds none) and appended
/// the replacement, reading the rendered tag back yields a picture
/// frame under `kind` with exactly the new payload — a picture of N
/// bytes comes back with N bytes.
pub proof fn lemma_set_picture_write_read(
    kept: Seq<FrameModel>,
    kind: u8,
    mime_type: Seq<char>,
    description: Seq<char>,
    data: Seq<u8>,
    original: u32,
)
    requires
        forall|i: int| 0 <= i < kept.len() ==> spec_round_trippable(#[trigger] kept[i]),
        forall|i: int|
            0 <= i < kept.len() ==> !(#[trigger] kept[i] matches FrameModel::Picture {
                kind: kk,
                ..
            } && kk == kind),
        spec_round_trippable(
            FrameModel::Picture {
                id: "APIC"@,
                size: 0,
                flags: 0,
                mime_type,
                kind,
                description,
                data,
            },
        ),
        spec_encode_frames(
            kept.push(
                FrameModel::Picture {
                    id: "APIC"@,
                    size: 0,
                    flags: 0,
                    mime_type,
                    kind,
                    description,
                    data,
                },
            ),
        ).len() + crate::tag::spec_padding_len(
            spec_encode_frames(
                kept.push(
                    FrameModel::Picture {
                        id: "APIC"@,
                        size: 0,
                        flags: 0,
                        mime_type,
                        kind,
                        description,
                        data,
                    },
                ),
            ).len() as int,
            original as int,
        ) < 0x1000_0000,
    ensures
        ({
            let newf = FrameModel::Picture {
                id: "APIC"@,
                size: 0,
                flags: 0,
                mime_type,
                kind,
                description,
                data,
            };
            let frames = kept.push(newf);
            let rendered = crate::tag::spec_render(frames, original as int);
            let body = spec_encode_frames(frames);
            let total = body.len() + crate::tag::spec_padding_len(
                body.len() as int,
                original as int,
            );
            match crate::decode::spec_parse_all(
                rendered.subrange(10, 10 + total),
                0,
                SizeScheme::V24,
            ) {
                Some(models) => spec_model_picture_of(models, kind) == Some(spec_resized(newf))
                    && (spec_resized(newf) matches FrameModel::Picture { data: d, .. } && d
                    == data),
                None => false,
            }
        }),
{
    let newf = FrameModel::Picture {
        id: "APIC"@,
        size: 0,
        flags: 0,
        mime_type,
        kind,
        description,
        data,
    };
    let frames = kept.push(newf);
    assert forall|i: int| 0 <= i < frames.len() implies spec_round_trippable(
        #[trigger] frames[i],
    ) by {
        if i < kept.len() {
            assert(frames[i] == kept[i]);
        }
    }
    lemma_write_read_equivalence(frames, original);
    let body = spec_encode_frames(frames);
    let pad = crate::tag::spec_padding_len(body.len() as int, original as int);
    let mapped = frames.map(|i: int, g: FrameModel| spec_resized(g));
    let models = mapped.push(FrameModel::Padding { size: pad as u32 });
    let k = kept.len() as int;
    assert forall|j: int|
        0 <= j < k implies !(#[trigger] models[j] matches FrameModel::Picture { kind: kk, .. }
        && kk == kind) by {
        assert(models[j] == spec_resized(frames[j]));
        assert(frames[j] == kept[j]);
    }
    assert(mapped[k] == spec_resized(newf));
    assert(models[k] == spec_resized(newf));
    lemma_model_picture_of_at(models, k, kind);
}

} // verus!
