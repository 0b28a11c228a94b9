//! The MPEG audio frame scanner: byte-level sync search, header decode,
//! the bitrate and frequency tables, and a resumable iterator over the
//! elementary stream.
//!
//! Audio data can coincidentally contain the two-byte sync pattern, so
//! a match whose header fails the stricter validation (a reserved
//! layer, or a bitrate or frequency code the tables do not support)
//! advances the scan by exactly one byte instead of ending it, and a
//! match whose frame runs past the end of the stream ends the scan
//! without emitting it.

use vstd::prelude::*;

verus! {

/// The MPEG version stored in a frame header.
#[derive(Debug, Clone, Copy, PartialEq, Eq, Structural)]
pub enum Version {
    Version25,
    Version2,
    Version1,
    Reserved,
}

/// The version a two-bit header code stands for.
pub open spec fn spec_version_of(code: u8) -> Version {
    if code == 0 {
        Version::Version25
    } else if code == 2 {
        Version::Version2
    } else if code == 3 {
        Version::Version1
    } else {
        Version::Reserved
    }
}

impl From<u8> for Version {
    fn from(version: u8) -> (r: Version) {
        match version {
            0 => Version::Version25,
            2 => Version::Version2,
            3 => Version::Version1,
            _ => Version::Reserved,
        }
    }
}

impl vstd::std_specs::convert::FromSpecImpl<u8> for Version {
    open spec fn obeys_from_spec() -> bool {
        true
    }

    open spec fn from_spec(v: u8) -> Version {
        spec_version_of(v)
    }
}

/// The layer stored in a frame header.
#[derive(Debug, Clone, Copy, PartialEq, Eq, Structural)]
pub enum Layer {
    Layer1,
    Layer2,
    Layer3,
    Reserved,
}

/// The layer a two-bit header code stands for.
pub open spec fn spec_layer_of(code: u8) -> Layer {
    if code == 1 {
        Layer::Layer3
    } else if code == 2 {
        Layer::Layer2
    } else if code == 3 {
        Layer::Layer1
    } else {
        Layer::Reserved
    }
}

impl From<u8> for Layer {
    fn from(version: u8) -> (r: Layer) {
        match version {
            1 => Layer::Layer3,
            2 => Layer::Layer2,
            3 => Layer::Layer1,
            _ => Layer::Reserved,
        }
    }
}

impl vstd::std_specs::convert::FromSpecImpl<u8> for Layer {
    open spec fn obeys_from_spec() -> bool {
        true
    }

    open spec fn from_spec(v: u8) -> Layer {
        spec_layer_of(v)
    }
}

/// Whether a frame carries a CRC after its header.
#[derive(Debug, Clone, Copy, PartialEq, Eq, Structural)]
pub enum Protection {
    Crc,
    Unprotected,
}

/// The protection a one-bit header code stands for: zero means a CRC
/// follows.
pub open spec fn spec_protection_of(code: u8) -> Protection {
    if code == 0 {
        Protection::Crc
    } else {
        Protection::Unprotected
    }
}

impl From<u8> for Protection {
    fn from(version: u8) -> (r: Protection) {
        match version {
            0 => Protection::Crc,
            _ => Protection::Unprotected,
        }
    }
}

impl vstd::std_specs::convert::FromSpecImpl<u8> for Protection {
    open spec fn obeys_from_spec() -> bool {
        true
    }

    open spec fn from_spec(v: u8) -> Protection {
        spec_protection_of(v)
    }
}

/// The bitrate in kbit/s for a four-bit header code. The table is
/// populated for MPEG version 1, layer 3; every other combination
/// resolves to zero and is rejected by the scanner.
pub open spec fn spec_bitrate_kbps(version: Version, layer: Layer, bitrate: u8) -> u32 {
    if version is Version1 && layer is Layer3 {
        if bitrate == 0x1 {
            32
        } else if bitrate == 0x2 {
            40
        } else if bitrate == 0x3 {
            48
        } else if bitrate == 0x4 {
            56
        } else if bitrate == 0x5 {
            64
        } else if bitrate == 0x6 {
            80
        } else if bitrate == 0x7 {
            96
        } else if bitrate == 0x8 {
            112
        } else if bitrate == 0x9 {
            128
        } else if bitrate == 0xA {
            160
        } else if bitrate == 0xB {
            192
        } else if bitrate == 0xC {
            224
        } else if bitrate == 0xD {
            256
        } else if bitrate == 0xE {
            320
        } else {
            0
        }
    } else {
        0
    }
}

/// Looks the bitrate code up in the table.
pub fn bitrate_to_kbps(version: &Version, layer: &Layer, bitrate: u8) -> (r: u32)
    ensures
        r == spec_bitrate_kbps(*version, *layer, bitrate),
        r <= 320,
{
    match (version, layer) {
        (Version::Version1, Layer::Layer3) => match bitrate {
            0x1 => 32,
            0x2 => 40,
            0x3 => 48,
            0x4 => 56,
            0x5 => 64,
            0x6 => 80,
            0x7 => 96,
            0x8 => 112,
            0x9 => 128,
            0xA => 160,
            0xB => 192,
            0xC => 224,
            0xD => 256,
            0xE => 320,
            _ => 0,
        },
        (_, _) => 0,
    }
}

/// The sampling frequency in Hz for a two-bit header code; populated
/// for MPEG version 1 only.
pub open spec fn spec_sampling_hz(version: Version, sampling: u8) -> u32 {
    if version is Version1 {
        if sampling == 0 {
            44100
        } else if sampling == 1 {
            48000
        } else if sampling == 2 {
            32000
        } else {
            0
        }
    } else {
        0
    }
}

/// Looks the frequency code up in the table.
pub fn sampling_to_hz(version: &Version, sampling: u8) -> (r: u32)
    ensures
        r == spec_sampling_hz(*version, sampling),
        r <= 48000,
{
    match version {
        Version::Version1 => match sampling {
            0 => 44100,
            1 => 48000,
            2 => 32000,
            _ => 0,
        },
        _ => 0,
    }
}

/// One decoded MPEG frame header. Produced by the scanner (or by
/// [`frame_header`]); never persisted.
#[derive(Debug, Clone, Copy, PartialEq, Eq, Structural)]
pub struct FrameHeader {
    pub version: Version,
    pub layer: Layer,
    pub crc: Protection,
    /// Bitrate in kbit/s, already resolved through the table.
    pub bitrate: u32,
    /// Sampling frequency in Hz, already resolved through the table.
    pub frequency: u32,
    /// The header's padding bit.
    pub padding: u8,
}

/// The frame length in bytes that a header's fields dictate.
pub open spec fn spec_frame_size(layer: Layer, bitrate: u32, frequency: u32, padding: u8) -> u32
    recommends
        !(layer is Reserved),
        0 < frequency,
        bitrate <= 320,
{
    match layer {
        Layer::Layer1 => (12 * bitrate * 1000 / (frequency as int) * 4) as u32,
        Layer::Layer2 => (144000 * bitrate / (frequency as int) + padding) as u32,
        Layer::Layer3 => (144000 * bitrate / (frequency as int) + padding) as u32,
        Layer::Reserved => 0,
    }
}

/// Computes the frame length in bytes: `12 * bitrate * 1000 / frequency
/// * 4` for layer 1, `144 * bitrate * 1000 / frequency` plus the
/// padding bit for layers 2 and 3. A reserved layer has no frame size,
/// and the tables never hand one on.
pub fn frame_size(layer: &Layer, bitrate: u32, frequency: u32, padding: u8) -> (r: u32)
    requires
        !(*layer is Reserved),
        0 < frequency,
        bitrate <= 320,
    ensures
        r == spec_frame_size(*layer, bitrate, frequency, padding),
{
    match layer {
        Layer::Layer1 => 12 * bitrate * 1000 / frequency * 4,
        Layer::Layer2 => 144000 * bitrate / frequency + padding as u32,
        Layer::Layer3 => 144000 * bitrate / frequency + padding as u32,
        Layer::Reserved => 0,
    }
}

impl FrameHeader {
    /// Whether the header's resolved fields are ones the tables
    /// support.
    pub open spec fn wf(&self) -> bool {
        &&& !(self.layer is Reserved)
        &&& 0 < self.frequency
        &&& self.bitrate <= 320
    }

    /// The length in bytes of the frame this header starts.
    pub fn frame_size(&self) -> (r: u32)
        requires
            self.wf(),
        ensures
            r == spec_frame_size(self.layer, self.bitrate, self.frequency, self.padding),
    {
        frame_size(&self.layer, self.bitrate, self.frequency, self.padding)
    }
}

/// The header whose four bytes start at `i`, fields resolved through
/// the tables.
pub open spec fn spec_header_at(b: Seq<u8>, i: int) -> FrameHeader
    recommends
        0 <= i,
        i + 4 <= b.len(),
{
    let b1 = b[i + 1];
    let b2 = b[i + 2];
    let version = spec_version_of(((b1 >> 3) & 3) as u8);
    let layer = spec_layer_of(((b1 >> 1) & 3) as u8);
    FrameHeader {
        version,
        layer,
        crc: spec_protection_of((b1 & 1) as u8),
        bitrate: spec_bitrate_kbps(version, layer, (b2 >> 4) as u8),
        frequency: spec_sampling_hz(version, ((b2 >> 2) & 3) as u8),
        padding: ((b2 >> 1) & 1) as u8,
    }
}

/// The stricter validation a sync match must pass before a frame is
/// emitted: the resolved fields must be ones the tables support.
pub open spec fn spec_header_valid(b: Seq<u8>, i: int) -> bool {
    &&& 0 <= i
    &&& i + 4 <= b.len()
    &&& spec_header_at(b, i).wf()
    &&& spec_header_at(b, i).bitrate > 0
}

/// Whether the two-byte sync pattern lies at `i`: an `0xFF` byte
/// followed by a byte whose top four bits are set.
pub open spec fn spec_sync_at(b: Seq<u8>, i: int) -> bool {
    &&& 0 <= i
    &&& i + 2 <= b.len()
    &&& b[i] == 0xFF
    &&& (b[i + 1] & 0xF0) == 0xF0
}

/// The next frame the scan yields from position `pos` on, with the
/// position just past that frame: the first sync match whose header
/// passes validation and whose whole frame lies inside the stream.
/// A failed validation moves the scan one byte onward; missing bytes
/// at the end of the stream end it.
pub open spec fn spec_scan_next(b: Seq<u8>, pos: int) -> Option<(FrameHeader, int)>
    recommends
        0 <= pos,
    decreases b.len() - pos,
        when 0 <= pos
{
    if pos + 2 > b.len() {
        None
    } else if !spec_sync_at(b, pos) {
        spec_scan_next(b, pos + 1)
    } else if pos + 4 > b.len() {
        None
    } else if !spec_header_valid(b, pos) {
        spec_scan_next(b, pos + 1)
    } else {
        let h = spec_header_at(b, pos);
        let size = spec_frame_size(h.layer, h.bitrate, h.frequency, h.padding) as int;
        if pos + size <= b.len() {
            Some((h, pos + size))
        } else {
            None
        }
    }
}

/// A resumable scanner over an in-memory MPEG elementary stream. It
/// never ends on a local mismatch and never drops bytes: a false sync
/// match advances the scan by one byte.
pub struct Mp3FrameParser {
    /// The stream bytes.
    pub data: Vec<u8>,
    /// The scan position: everything before it has been consumed.
    pub pos: usize,
}

impl Mp3FrameParser {
    /// Starts a scan at the head of the given stream bytes.
    pub fn new(data: Vec<u8>) -> (r: Mp3FrameParser)
        ensures
            r.data@ == data@,
            r.pos == 0,
    {
        Mp3FrameParser { data, pos: 0 }
    }

    /// Scans to the next valid frame header and past its frame.
    /// Yields exactly what [`spec_scan_next`] names; `None` means the
    /// stream is exhausted and the scanner stays so.
    pub fn next(&mut self) -> (r: Option<FrameHeader>)
        ensures
            final(self).data@ == old(self).data@,
            match r {
                Some(h) => spec_scan_next(old(self).data@, old(self).pos as int) == Some(
                    (h, final(self).pos as int),
                ),
                None => spec_scan_next(old(self).data@, old(self).pos as int) is None
                    && final(self).pos == old(self).data@.len(),
            },
    {
        let ghost b = self.data@;
        let n = self.data.len();
        let mut i: usize = self.pos;
        if i > n {
            i = n;
        }
        while n - i >= 2
            invariant
                i <= n,
                n == self.data@.len(),
                b == self.data@,
                self.pos == old(self).pos,
                self.data@ == old(self).data@,
                spec_scan_next(b, old(self).pos as int) == spec_scan_next(b, i as int),
            decreases n - i,
        {
            if self.data[i] == 0xFF && (self.data[i + 1] & 0xF0) == 0xF0 {
                if n - i < 4 {
                    proof {
                        assert(spec_scan_next(b, i as int) is None);
                    }
                    self.pos = n;
                    return None;
                }
                let b1 = self.data[i + 1];
                let b2 = self.data[i + 2];
                let version = Version::from((b1 >> 3) & 3);
                let layer = Layer::from((b1 >> 1) & 3);
                let crc = Protection::from(b1 & 1);
                let bitrate = bitrate_to_kbps(&version, &layer, b2 >> 4);
                let frequency = sampling_to_hz(&version, (b2 >> 2) & 3);
                let padding = (b2 >> 1) & 1;
                let reserved = match layer {
                    Layer::Reserved => true,
                    _ => false,
                };
                if reserved || bitrate == 0 || frequency == 0 {
                    proof {
                        assert(!spec_header_valid(b, i as int));
                        assert(spec_scan_next(b, i as int) == spec_scan_next(b, i + 1));
                    }
                    i += 1;
                } else {
                    let h = FrameHeader { version, layer, crc, bitrate, frequency, padding };
                    proof {
                        assert(h == spec_header_at(b, i as int));
                        assert(spec_header_valid(b, i as int));
                    }
                    let size = frame_size(&layer, bitrate, frequency, padding);
                    if size as usize > n - i {
                        proof {
                            assert(spec_scan_next(b, i as int) is None);
                        }
                        self.pos = n;
                        return None;
                    }
                    self.pos = i + size as usize;
                    proof {
                        assert(spec_scan_next(b, i as int) == Some((h, i + size as int)));
                    }
                    return Some(h);
                }
            } else {
                proof {
                    assert(!spec_sync_at(b, i as int));
                    assert(spec_scan_next(b, i as int) == spec_scan_next(b, i + 1));
                }
                i += 1;
            }
        }
        proof {
            assert(spec_scan_next(b, i as int) is None);
        }
        self.pos = n;
        None
    }
}

/// Index of the first `0xFF` byte at or after `from`, or the end.
pub open spec fn spec_find_ff(b: Seq<u8>, from: int) -> int
    recommends
        0 <= from <= b.len(),
    decreases b.len() - from,
{
    if from < b.len() {
        if b[from] == 0xFF {
            from
        } else {
            spec_find_ff(b, from + 1)
        }
    } else {
        b.len() as int
    }
}

proof fn lemma_find_ff_at(b: Seq<u8>, from: int, i: int)
    requires
        0 <= from <= i <= b.len(),
        forall|j: int| from <= j < i ==> b[j] != 0xFF,
        i < b.len() ==> b[i] == 0xFF,
    ensures
        spec_find_ff(b, from) == i,
    decreases i - from,
{
    if from < i {
        lemma_find_ff_at(b, from + 1, i);
    }
}

/// What [`frame_header`] reads: the header at the first `0xFF` byte,
/// provided the eleven-bit sync pattern holds, the tables support the
/// resolved fields, and the whole frame lies inside the input; the
/// position just past that frame.
pub open spec fn spec_frame_header(b: Seq<u8>) -> Option<(FrameHeader, int)> {
    let i = spec_find_ff(b, 0);
    if i + 2 <= b.len() && (b[i + 1] & 0xE0) == 0xE0 {
        if i + 4 <= b.len() && spec_header_valid(b, i) {
            let h = spec_header_at(b, i);
            let size = spec_frame_size(h.layer, h.bitrate, h.frequency, h.padding) as int;
            if i + size <= b.len() {
                Some((h, i + size))
            } else {
                None
            }
        } else {
            None
        }
    } else {
        None
    }
}

/// Decodes the frame at the first `0xFF` byte of `input`: the header,
/// and the position just past the whole frame, header and body. A
/// header the tables do not support has no frame length and reads as
/// `None`, as does a frame cut short by the end of the input.
pub fn frame_header(input: &[u8]) -> (r: Option<(FrameHeader, usize)>)
    ensures
        match r {
            Some((h, p)) => spec_frame_header(input@) == Some((h, p as int)),
            None => spec_frame_header(input@) is None,
        },
{
    let n = input.len();
    let mut i: usize = 0;
    while i < n && input[i] != 0xFF
        invariant
            i <= n,
            n == input@.len(),
            forall|j: int| 0 <= j < i ==> input@[j] != 0xFF,
        decreases n - i,
    {
        i += 1;
    }
    proof {
        lemma_find_ff_at(input@, 0, i as int);
    }
    if n - i < 2 || (input[i + 1] & 0xE0) != 0xE0 {
        return None;
    }
    if n - i < 4 {
        return None;
    }
    let b1 = input[i + 1];
    let b2 = input[i + 2];
    let version = Version::from((b1 >> 3) & 3);
    let layer = Layer::from((b1 >> 1) & 3);
    let crc = Protection::from(b1 & 1);
    let bitrate = bitrate_to_kbps(&version, &layer, b2 >> 4);
    let frequency = sampling_to_hz(&version, (b2 >> 2) & 3);
    let padding = (b2 >> 1) & 1;
    let reserved = match layer {
        Layer::Reserved => true,
        _ => false,
    };
    if reserved || bitrate == 0 || frequency == 0 {
        proof {
            assert(!spec_header_valid(input@, i as int));
        }
        return None;
    }
    let h = FrameHeader { version, layer, crc, bitrate, frequency, padding };
    proof {
        assert(h == spec_header_at(input@, i as int));
        assert(spec_header_valid(input@, i as int));
    }
    let size = frame_size(&layer, bitrate, frequency, padding);
    if size as usize > n - i {
        return None;
    }
    Some((h, i + size as usize))
}

} // verus!
