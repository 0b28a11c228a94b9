//! Text as the tag format stores it: UTF-8 and UTF-16 code units, the
//! NUL-terminated fields built from them, and small helpers for building
//! and comparing strings in verified code.
//!
//! UTF-8 is modelled by `vstd::utf8`. UTF-16 is modelled here:
//! [`spec_utf16_encode`] states the encoding directly, and the standard
//! library's conversions are trusted to match it.

use vstd::arithmetic::div_mod::lemma_fundamental_div_mod;
use vstd::prelude::*;
use vstd::utf8::char_is_scalar;
use vstd::utf8::char_u32_cast;
use vstd::utf8::decode_utf8;
use vstd::utf8::encode_utf8;
use vstd::utf8::encode_utf8_decode_utf8;
use vstd::utf8::is_ascii_chars;
use vstd::utf8::is_ascii_chars_encode_utf8;
use vstd::utf8::is_scalar;
use vstd::utf8::valid_utf8;

verus! {

/// The UTF-16 code units of one character: the scalar value itself below
/// 0x10000, a surrogate pair above.
pub open spec fn spec_utf16_units_of(c: char) -> Seq<u16> {
    let v = c as u32;
    if v < 0x10000 {
        seq![v as u16]
    } else {
        seq![
            (0xD800 + (v - 0x10000) / 0x400) as u16,
            (0xDC00 + (v - 0x10000) % 0x400) as u16,
        ]
    }
}

/// The UTF-16 encoding of a character sequence.
pub open spec fn spec_utf16_encode(s: Seq<char>) -> Seq<u16>
    decreases s.len(),
{
    if s.len() == 0 {
        seq![]
    } else {
        spec_utf16_units_of(s[0]) + spec_utf16_encode(s.drop_first())
    }
}

/// Shape of the code units of one character: a lone unit is never a
/// surrogate, and a pair is a high surrogate followed by a low one.
pub proof fn lemma_utf16_units_of_shape(c: char)
    ensures
        (c as u32) < 0x10000 ==> {
            let us = spec_utf16_units_of(c);
            &&& us.len() == 1
            &&& !(0xD800 <= us[0] < 0xE000)
            &&& us[0] == c as u32
        },
        (c as u32) >= 0x10000 ==> {
            let us = spec_utf16_units_of(c);
            &&& us.len() == 2
            &&& 0xD800 <= us[0] < 0xDC00
            &&& 0xDC00 <= us[1] < 0xE000
            &&& us[0] == 0xD800 + ((c as u32) - 0x10000) / 0x400
            &&& us[1] == 0xDC00 + ((c as u32) - 0x10000) % 0x400
        },
        c != '\0' ==> forall|i: int|
            0 <= i < spec_utf16_units_of(c).len() ==> spec_utf16_units_of(c)[i] != 0,
{
    char_is_scalar(c);
    let v = c as u32;
    if v >= 0x10000 {
        assert(v <= 0x10FFFF);
        let x = (v - 0x10000) as int;
        assert(0 <= x <= 0xFFFFF);
        assert(0 <= x / 0x400 <= 0x3FF && 0 <= x % 0x400 < 0x400) by (nonlinear_arith)
            requires
                0 <= x <= 0xFFFFF,
        ;
    } else {
        if v == 0 {
            char_u32_cast(c, 0);
            assert((0u32 as char) == '\0');
        }
    }
}

/// The encoding of a character sequence that holds no NUL character has
/// no zero code unit.
pub proof fn lemma_utf16_encode_nonzero(s: Seq<char>)
    requires
        forall|i: int| 0 <= i < s.len() ==> s[i] != '\0',
    ensures
        forall|j: int|
            0 <= j < spec_utf16_encode(s).len() ==> #[trigger] spec_utf16_encode(s)[j] != 0,
    decreases s.len(),
{
    if s.len() > 0 {
        lemma_utf16_units_of_shape(s[0]);
        lemma_utf16_encode_nonzero(s.drop_first());
        let head = spec_utf16_units_of(s[0]);
        let tail = spec_utf16_encode(s.drop_first());
        assert forall|j: int| 0 <= j < spec_utf16_encode(s).len() implies #[trigger] spec_utf16_encode(
            s,
        )[j] != 0 by {
            if j < head.len() {
                assert(spec_utf16_encode(s)[j] == head[j]);
            } else {
                assert(spec_utf16_encode(s)[j] == tail[j - head.len()]);
            }
        }
    }
}

/// No two distinct character sequences share a UTF-16 encoding.
pub proof fn lemma_utf16_encode_injective(a: Seq<char>, b: Seq<char>)
    requires
        spec_utf16_encode(a) == spec_utf16_encode(b),
    ensures
        a == b,
    decreases a.len(),
{
    let ea = spec_utf16_encode(a);
    let eb = spec_utf16_encode(b);
    if a.len() == 0 {
        if b.len() > 0 {
            lemma_utf16_units_of_shape(b[0]);
            assert(eb.len() > 0);
        }
        assert(a =~= b);
    } else if b.len() == 0 {
        lemma_utf16_units_of_shape(a[0]);
        assert(ea.len() > 0);
        assert(false);
    } else {
        let a0 = a[0];
        let b0 = b[0];
        lemma_utf16_units_of_shape(a0);
        lemma_utf16_units_of_shape(b0);
        let ua = spec_utf16_units_of(a0);
        let ub = spec_utf16_units_of(b0);
        assert(ea[0] == ua[0]);
        assert(eb[0] == ub[0]);
        let va = a0 as u32;
        let vb = b0 as u32;
        if va < 0x10000 && vb < 0x10000 {
            assert(va == vb);
            char_u32_cast(a0, va);
            char_u32_cast(b0, vb);
            assert(a0 == b0);
        } else if va >= 0x10000 && vb >= 0x10000 {
            assert(ea[1] == ua[1]);
            assert(eb[1] == ub[1]);
            let xa = (va - 0x10000) as int;
            let xb = (vb - 0x10000) as int;
            assert(xa / 0x400 == xb / 0x400 && xa % 0x400 == xb % 0x400);
            lemma_fundamental_div_mod(xa, 0x400);
            lemma_fundamental_div_mod(xb, 0x400);
            assert(xa == xb);
            char_u32_cast(a0, va);
            char_u32_cast(b0, vb);
            assert(a0 == b0);
        } else {
            // one lone unit, one high surrogate: the ranges are disjoint
            assert(false);
        }
        assert(ua == ub);
        let k = ua.len() as int;
        let ta = spec_utf16_encode(a.drop_first());
        let tb = spec_utf16_encode(b.drop_first());
        assert(ta =~= ea.subrange(k, ea.len() as int));
        assert(tb =~= eb.subrange(k, eb.len() as int));
        lemma_utf16_encode_injective(a.drop_first(), b.drop_first());
        assert(a.len() == b.len());
        assert forall|i: int| 0 <= i < a.len() implies a[i] == b[i] by {
            if i > 0 {
                assert(a[i] == a.drop_first()[i - 1]);
                assert(b[i] == b.drop_first()[i - 1]);
            }
        }
        assert(a =~= b);
    }
}

/// What decoding a unit sequence yields: the unique character sequence it
/// encodes, if there is one.
pub open spec fn spec_utf16_decode(units: Seq<u16>) -> Option<Seq<char>> {
    if exists|t: Seq<char>| units == spec_utf16_encode(t) {
        Some(choose|t: Seq<char>| units == spec_utf16_encode(t))
    } else {
        None
    }
}

/// Decoding inverts encoding.
pub proof fn lemma_utf16_decode_encode(t: Seq<char>)
    ensures
        spec_utf16_decode(spec_utf16_encode(t)) == Some(t),
{
    let units = spec_utf16_encode(t);
    assert(exists|s: Seq<char>| units == spec_utf16_encode(s));
    let w = choose|s: Seq<char>| units == spec_utf16_encode(s);
    lemma_utf16_encode_injective(w, t);
}

/// Relies on `str::encode_utf16`: the code units are the scalar values
/// below 0x10000 and surrogate pairs above, in order.
#[verifier::external_body]
fn encode_utf16_units(s: &str) -> (r: Vec<u16>)
    ensures
        r@ == spec_utf16_encode(s@),
{
    s.encode_utf16().collect()
}

/// Relies on `String::from_utf16`: it succeeds exactly on well-formed
/// UTF-16 and returns the character sequence the units encode.
#[verifier::external_body]
fn string_from_utf16(units: &Vec<u16>) -> (r: Option<String>)
    ensures
        r matches Some(s) ==> units@ == spec_utf16_encode(s@),
        r is Some <==> exists|t: Seq<char>| units@ == spec_utf16_encode(t),
{
    String::from_utf16(units).ok()
}

/// Relies on `String::from_utf8`: it succeeds exactly on valid UTF-8 and
/// decodes it.
#[verifier::external_body]
fn string_from_utf8(bytes: Vec<u8>) -> (r: Option<String>)
    ensures
        r is Some <==> valid_utf8(bytes@),
        r matches Some(s) ==> s@ == decode_utf8(bytes@),
{
    String::from_utf8(bytes).ok()
}

/// Builds the string holding exactly the characters the given units
/// encode, or reports that the units are not well-formed UTF-16.
pub fn utf16_to_string(units: &Vec<u16>) -> (r: Option<String>)
    ensures
        match r {
            Some(s) => spec_utf16_decode(units@) == Some(s@),
            None => spec_utf16_decode(units@) is None,
        },
{
    let r = string_from_utf16(units);
    proof {
        match &r {
            Some(s) => {
                lemma_utf16_decode_encode(s@);
            },
            None => {},
        }
    }
    r
}

/// Builds the string holding the UTF-16 encoding of `s`, as the two
/// little-endian bytes of each code unit.
pub fn utf16_le_bytes(s: &str) -> (r: Vec<u8>)
    ensures
        r@ == spec_units_le_bytes(spec_utf16_encode(s@)),
{
    let units = encode_utf16_units(s);
    let mut out: Vec<u8> = Vec::new();
    let mut i: usize = 0;
    while i < units.len()
        invariant
            i <= units@.len(),
            units@ == spec_utf16_encode(s@),
            out@ == spec_units_le_bytes(units@.take(i as int)),
        decreases units@.len() - i,
    {
        let u = units[i];
        out.push((u & 0xff) as u8);
        out.push((u >> 8) as u8);
        proof {
            lemma_units_le_bytes_concat(units@.take(i as int), seq![u]);
            assert(units@.take(i + 1) =~= units@.take(i as int) + seq![u]);
            let single = seq![u];
            assert(single.drop_first() =~= Seq::<u16>::empty());
            assert(spec_units_le_bytes(single) == crate::wire::spec_u16_le_bytes(u)
                + spec_units_le_bytes(Seq::<u16>::empty()));
            assert(spec_units_le_bytes(single) =~= seq![(u & 0xff) as u8, (u >> 8) as u8]);
            assert(out@ =~= spec_units_le_bytes(units@.take(i + 1)));
        }
        i += 1;
    }
    proof {
        assert(units@.take(units@.len() as int) =~= units@);
    }
    out
}

/// The little-endian byte stream of a unit sequence.
pub open spec fn spec_units_le_bytes(us: Seq<u16>) -> Seq<u8>
    decreases us.len(),
{
    if us.len() == 0 {
        seq![]
    } else {
        crate::wire::spec_u16_le_bytes(us[0]) + spec_units_le_bytes(us.drop_first())
    }
}

/// A unit sequence serialises to twice as many bytes.
pub proof fn lemma_units_le_bytes_len(us: Seq<u16>)
    ensures
        spec_units_le_bytes(us).len() == 2 * us.len(),
    decreases us.len(),
{
    if us.len() > 0 {
        lemma_units_le_bytes_len(us.drop_first());
    }
}

/// Byte serialisation of units distributes over concatenation.
pub proof fn lemma_units_le_bytes_concat(a: Seq<u16>, b: Seq<u16>)
    ensures
        spec_units_le_bytes(a + b) == spec_units_le_bytes(a) + spec_units_le_bytes(b),
    decreases a.len(),
{
    if a.len() == 0 {
        assert(a + b =~= b);
        assert(spec_units_le_bytes(a) + spec_units_le_bytes(b) =~= spec_units_le_bytes(b));
    } else {
        lemma_units_le_bytes_concat(a.drop_first(), b);
        assert((a + b).drop_first() =~= a.drop_first() + b);
        assert(spec_units_le_bytes(a + b) =~= spec_units_le_bytes(a) + spec_units_le_bytes(b));
    }
}

/// The characters that a byte sequence of ASCII values stands for.
pub open spec fn spec_ascii_chars(bytes: Seq<u8>) -> Seq<char> {
    bytes.map(|i: int, b: u8| b as char)
}

/// A byte sequence of ASCII values is valid UTF-8 and decodes to its own
/// characters.
pub proof fn lemma_ascii_bytes_utf8(bytes: Seq<u8>)
    requires
        forall|i: int| 0 <= i < bytes.len() ==> bytes[i] < 0x80,
    ensures
        valid_utf8(bytes),
        decode_utf8(bytes) == spec_ascii_chars(bytes),
{
    let chars = spec_ascii_chars(bytes);
    assert forall|i: int| 0 <= i < chars.len() implies '\0' <= #[trigger] chars[i] <= '\u{7f}' by {
        let b = bytes[i];
        assert(chars[i] == b as char);
        assert(b < 0x80);
    }
    assert(is_ascii_chars(chars));
    is_ascii_chars_encode_utf8(chars);
    assert forall|i: int| 0 <= i < bytes.len() implies encode_utf8(chars)[i] == bytes[i] by {
        assert(chars[i] as u8 == encode_utf8(chars)[i]);
        assert((bytes[i] as char) as u8 == bytes[i]);
    }
    assert(encode_utf8(chars) =~= bytes);
    vstd::utf8::encode_utf8_valid_utf8(chars);
    encode_utf8_decode_utf8(chars);
}

/// Builds the string whose characters are the given ASCII byte values.
pub fn ascii_to_string(bytes: Vec<u8>) -> (r: String)
    requires
        forall|i: int| 0 <= i < bytes@.len() ==> bytes@[i] < 0x80,
    ensures
        r@ == spec_ascii_chars(bytes@),
{
    proof {
        lemma_ascii_bytes_utf8(bytes@);
    }
    let ghost b = bytes@;
    match string_from_utf8(bytes) {
        Some(s) => s,
        None => {
            proof {
                assert(valid_utf8(b));
                assert(false);
            }
            String::new()
        },
    }
}

/// Builds the string holding exactly the characters that `bytes` encodes
/// in UTF-8, or reports that the bytes are not valid UTF-8.
pub fn utf8_to_string(bytes: Vec<u8>) -> (r: Option<String>)
    ensures
        match r {
            Some(s) => valid_utf8(bytes@) && s@ == decode_utf8(bytes@),
            None => !valid_utf8(bytes@),
        },
{
    string_from_utf8(bytes)
}

/// Whether two string slices hold the same characters.
pub fn str_eq(a: &str, b: &str) -> (r: bool)
    ensures
        r == (a@ == b@),
{
    let ab = a.as_bytes();
    let bb = b.as_bytes();
    proof {
        if a@ == b@ {
            assert(ab@ == bb@);
        }
    }
    if ab.len() != bb.len() {
        return false;
    }
    let n: usize = ab.len();
    let mut i: usize = 0;
    while i < n
        invariant
            i <= n,
            n == ab@.len() == bb@.len(),
            ab@ == encode_utf8(a@),
            bb@ == encode_utf8(b@),
            forall|j: int| 0 <= j < i ==> ab@[j] == bb@[j],
        decreases n - i,
    {
        if ab[i] != bb[i] {
            proof {
                if a@ == b@ {
                    assert(ab@ == bb@);
                    assert(ab@[i as int] == bb@[i as int]);
                }
            }
            return false;
        }
        i += 1;
    }
    proof {
        assert(ab@ =~= bb@);
        encode_utf8_decode_utf8(a@);
        encode_utf8_decode_utf8(b@);
    }
    true
}

/// Whether a string holds the same characters as a string slice.
pub fn string_eq(a: &String, b: &str) -> (r: bool)
    ensures
        r == (a@ == b@),
{
    str_eq(a.as_str(), b)
}

/// The decimal digits of `n`, as ASCII bytes, most significant first.
pub open spec fn spec_decimal_bytes(n: nat) -> Seq<u8>
    decreases n,
{
    if n < 10 {
        seq![(48 + n) as u8]
    } else {
        spec_decimal_bytes(n / 10) + seq![(48 + n % 10) as u8]
    }
}

/// Decimal digits are ASCII.
pub proof fn lemma_decimal_bytes_ascii(n: nat)
    ensures
        forall|i: int|
            0 <= i < spec_decimal_bytes(n).len() ==> 48 <= #[trigger] spec_decimal_bytes(n)[i]
                <= 57,
    decreases n,
{
    if n >= 10 {
        lemma_decimal_bytes_ascii(n / 10);
        let head = spec_decimal_bytes(n / 10);
        assert forall|i: int|
            0 <= i < spec_decimal_bytes(n).len() implies 48 <= #[trigger] spec_decimal_bytes(
            n,
        )[i] <= 57 by {
            if i < head.len() {
                assert(spec_decimal_bytes(n)[i] == head[i]);
            }
        }
    }
}

/// Appends the decimal digits of `n` to `out`.
pub fn push_decimal(out: &mut Vec<u8>, n: u64)
    ensures
        final(out)@ == old(out)@ + spec_decimal_bytes(n as nat),
    decreases n,
{
    if n >= 10 {
        push_decimal(out, n / 10);
    }
    out.push((48 + (n % 10)) as u8);
    proof {
        if n >= 10 {
            assert(out@ =~= old(out)@ + spec_decimal_bytes(n as nat));
        } else {
            assert(out@ =~= old(out)@ + spec_decimal_bytes(n as nat));
        }
    }
}

/// The decimal rendering of `n`.
pub fn decimal_string(n: u64) -> (r: String)
    ensures
        r@ == spec_ascii_chars(spec_decimal_bytes(n as nat)),
{
    let mut bytes: Vec<u8> = Vec::new();
    push_decimal(&mut bytes, n);
    proof {
        lemma_decimal_bytes_ascii(n as nat);
        assert(bytes@ =~= spec_decimal_bytes(n as nat));
    }
    ascii_to_string(bytes)
}

} // verus!
