//! Data islands: the packets that carry audio and information about the
//! picture between the lines.
//!
//! A packet has a header of three bytes and four subpackets of seven
//! bytes, and each of the five is protected by a byte of parity. It is
//! sent in 32 symbols, framed by two guard symbols on either side. Every
//! symbol carries four bits on each lane, encoded with TERC4: lane 0 one
//! bit of the header and the sync signals, lanes 1 and 2 two bits of each
//! subpacket.

use vstd::prelude::*;

verus! {

/// The TERC4 symbols: ten bits for every value of four bits.
pub const TERC4_SYMBOLS: [u16; 16] = [
    0b1010011100,
    0b1001100011,
    0b1011100100,
    0b1011100010,
    0b0101110001,
    0b0100011110,
    0b0110001110,
    0b0100111100,
    0b1011001100,
    0b0100111001,
    0b0110011100,
    0b1011000110,
    0b1010001110,
    0b1001110001,
    0b0101100011,
    0b1011000011,
];

/// How the picture is meant to be scanned.
#[derive(Clone, Copy, PartialEq, Eq, Structural)]
pub enum ScanInfo {
    NoData,
    Overscan,
    Underscan,
}

/// The format of the pixels.
#[derive(Clone, Copy, PartialEq, Eq, Structural)]
pub enum PixelFormat {
    Rgb,
    Ycbcr422,
    Ycbcr444,
}

/// The colour space of the pixels.
#[derive(Clone, Copy, PartialEq, Eq, Structural)]
pub enum Colorimetry {
    NoData,
    Itu601,
    Itu709,
    Extended,
}

/// The aspect ratio of the picture.
#[derive(Clone, Copy, PartialEq, Eq, Structural)]
pub enum PictureAspectRatio {
    NoData,
    Ratio4_3,
    Ratio16_9,
}

/// The aspect ratio of the part of the picture that is in use.
#[derive(Clone, Copy, PartialEq, Eq, Structural)]
pub enum ActiveFormatAspectRatio {
    NoData,
    SameAsPar,
    Ratio4_3,
    Ratio16_9,
    Ratio14_9,
}

/// The range of the values of a channel.
#[derive(Clone, Copy, PartialEq, Eq, Structural)]
pub enum QuantizationRange {
    Default,
    Limited,
    Full,
}

/// The code of the video mode.
#[derive(Clone, Copy, PartialEq, Eq, Structural)]
pub enum VideoCode {
    Code640x480P60,
    Code720x480P60,
}

impl ScanInfo {
    /// The value of the field in an info frame.
    pub open spec fn value(self) -> u8 {
        match self {
            ScanInfo::NoData => 0,
            ScanInfo::Overscan => 1,
            ScanInfo::Underscan => 2,
        }
    }

    /// The value of the field in an info frame.
    pub fn code(self) -> (r: u8)
        ensures
            r == self.value(),
    {
        match self {
            ScanInfo::NoData => 0,
            ScanInfo::Overscan => 1,
            ScanInfo::Underscan => 2,
        }
    }
}

impl PixelFormat {
    /// The value of the field in an info frame.
    pub open spec fn value(self) -> u8 {
        match self {
            PixelFormat::Rgb => 0,
            PixelFormat::Ycbcr422 => 1,
            PixelFormat::Ycbcr444 => 2,
        }
    }

    /// The value of the field in an info frame.
    pub fn code(self) -> (r: u8)
        ensures
            r == self.value(),
    {
        match self {
            PixelFormat::Rgb => 0,
            PixelFormat::Ycbcr422 => 1,
            PixelFormat::Ycbcr444 => 2,
        }
    }
}

impl Colorimetry {
    /// The value of the field in an info frame.
    pub open spec fn value(self) -> u8 {
        match self {
            Colorimetry::NoData => 0,
            Colorimetry::Itu601 => 1,
            Colorimetry::Itu709 => 2,
            Colorimetry::Extended => 3,
        }
    }

    /// The value of the field in an info frame.
    pub fn code(self) -> (r: u8)
        ensures
            r == self.value(),
    {
        match self {
            Colorimetry::NoData => 0,
            Colorimetry::Itu601 => 1,
            Colorimetry::Itu709 => 2,
            Colorimetry::Extended => 3,
        }
    }
}

impl PictureAspectRatio {
    /// The value of the field in an info frame.
    pub open spec fn value(self) -> u8 {
        match self {
            PictureAspectRatio::NoData => 0,
            PictureAspectRatio::Ratio4_3 => 1,
            PictureAspectRatio::Ratio16_9 => 2,
        }
    }

    /// The value of the field in an info frame.
    pub fn code(self) -> (r: u8)
        ensures
            r == self.value(),
    {
        match self {
            PictureAspectRatio::NoData => 0,
            PictureAspectRatio::Ratio4_3 => 1,
            PictureAspectRatio::Ratio16_9 => 2,
        }
    }
}

impl ActiveFormatAspectRatio {
    /// The value that stands for the variant; for `NoData`, all bits set.
    pub open spec fn value(self) -> u8 {
        match self {
            ActiveFormatAspectRatio::NoData => 0xff,
            ActiveFormatAspectRatio::SameAsPar => 8,
            ActiveFormatAspectRatio::Ratio4_3 => 9,
            ActiveFormatAspectRatio::Ratio16_9 => 10,
            ActiveFormatAspectRatio::Ratio14_9 => 11,
        }
    }

    /// The value that stands for the variant.
    pub fn code(self) -> (r: u8)
        ensures
            r == self.value(),
    {
        match self {
            ActiveFormatAspectRatio::NoData => 0xff,
            ActiveFormatAspectRatio::SameAsPar => 8,
            ActiveFormatAspectRatio::Ratio4_3 => 9,
            ActiveFormatAspectRatio::Ratio16_9 => 10,
            ActiveFormatAspectRatio::Ratio14_9 => 11,
        }
    }
}

impl QuantizationRange {
    /// The value of the field in an info frame.
    pub open spec fn value(self) -> u8 {
        match self {
            QuantizationRange::Default => 0,
            QuantizationRange::Limited => 1,
            QuantizationRange::Full => 2,
        }
    }

    /// The value of the field in an info frame.
    pub fn code(self) -> (r: u8)
        ensures
            r == self.value(),
    {
        match self {
            QuantizationRange::Default => 0,
            QuantizationRange::Limited => 1,
            QuantizationRange::Full => 2,
        }
    }
}

impl VideoCode {
    /// The value of the field in an info frame.
    pub open spec fn value(self) -> u8 {
        match self {
            VideoCode::Code640x480P60 => 1,
            VideoCode::Code720x480P60 => 2,
        }
    }

    /// The value of the field in an info frame.
    pub fn code(self) -> (r: u8)
        ensures
            r == self.value(),
    {
        match self {
            VideoCode::Code640x480P60 => 1,
            VideoCode::Code720x480P60 => 2,
        }
    }
}

/// One step of the parity register: a shift by one bit, with the
/// generator added when a one falls out.
pub open spec fn bch_step(x: u8) -> u8 {
    if x & 1 == 1 {
        (x >> 1) ^ 0x83
    } else {
        x >> 1
    }
}

/// The parity register after a byte has been shifted through it.
pub open spec fn bch_byte(x: u8) -> u8 {
    bch_step(bch_step(bch_step(bch_step(bch_step(bch_step(bch_step(bch_step(x))))))))
}

/// The parity of a sequence of bytes: every byte is added to the register
/// and shifted through it.
pub open spec fn bch(bytes: Seq<u8>) -> u8
    decreases bytes.len(),
{
    if bytes.len() == 0 {
        0
    } else {
        bch_byte(bytes.last() ^ bch(bytes.drop_last()))
    }
}

/// Whether `x` has an odd number of ones, as 1 or 0.
pub open spec fn parity16(x: u16) -> int {
    ((x & 1) + ((x >> 1) & 1) + ((x >> 2) & 1) + ((x >> 3) & 1) + ((x >> 4) & 1) + ((x >> 5) & 1)
        + ((x >> 6) & 1) + ((x >> 7) & 1) + ((x >> 8) & 1) + ((x >> 9) & 1) + ((x >> 10) & 1) + ((x
        >> 11) & 1) + ((x >> 12) & 1) + ((x >> 13) & 1) + ((x >> 14) & 1) + ((x >> 15) & 1)) % 2
}

/// Whether `x` has an odd number of ones, as 1 or 0.
pub fn parity_u16(x: u16) -> (r: u8)
    ensures
        r == parity16(x),
{
    let a = x ^ (x >> 8);
    let a = a ^ (a >> 4);
    let a = a ^ (a >> 2);
    let a = a ^ (a >> 1);
    assert(({
        let a = x ^ (x >> 8);
        let a = a ^ (a >> 4);
        let a = a ^ (a >> 2);
        let a = a ^ (a >> 1);
        (a as u8) & 1
    }) == parity16(x)) by (bit_vector);
    #[verifier::truncate]
    (a as u8) & 1
}

/// Shifts a byte through the parity register.
pub fn bch_table_entry(x: u8) -> (r: u8)
    ensures
        r == bch_byte(x),
{
    let mut x = x;
    let mut i: u8 = 0;
    let ghost x0 = x;
    let ghost mut steps: Seq<u8> = seq![x];
    while i < 8
        invariant
            i <= 8,
            steps.len() == i + 1,
            steps[0] == x0,
            steps[i as int] == x,
            forall|k: int| 0 <= k < i ==> steps[k + 1] == bch_step(#[trigger] steps[k]),
        decreases 8 - i,
    {
        x = if x & 1 == 1 {
            (x >> 1) ^ 0x83
        } else {
            x >> 1
        };
        proof {
            steps = steps.push(x);
        }
        i += 1;
    }
    proof {
        assert(steps[1] == bch_step(steps[0]));
        assert(steps[2] == bch_step(steps[1]));
        assert(steps[3] == bch_step(steps[2]));
        assert(steps[4] == bch_step(steps[3]));
        assert(steps[5] == bch_step(steps[4]));
        assert(steps[6] == bch_step(steps[5]));
        assert(steps[7] == bch_step(steps[6]));
        assert(steps[8] == bch_step(steps[7]));
    }
    x
}

/// The table of the parity register: for every byte, the register after
/// the byte has been shifted through it.
pub fn mk_bch_table() -> (r: [u8; 256])
    ensures
        forall|i: int| 0 <= i < 256 ==> r@[i] == bch_byte(i as u8),
{
    let mut table = [0u8; 256];
    let mut i: usize = 0;
    while i < 256
        invariant
            i <= 256,
            forall|j: int| 0 <= j < i ==> table@[j] == bch_byte(j as u8),
        decreases 256 - i,
    {
        table[i] = bch_table_entry(i as u8);
        i += 1;
    }
    table
}

/// The parity of a sequence of bytes.
pub fn compute_bch(inp: &[u8]) -> (r: u8)
    ensures
        r == bch(inp@),
{
    let mut v: u8 = 0;
    let mut i: usize = 0;
    while i < inp.len()
        invariant
            i <= inp@.len(),
            v == bch(inp@.take(i as int)),
        decreases inp.len() - i,
    {
        proof {
            let next = inp@.take(i + 1);
            assert(next.drop_last() =~= inp@.take(i as int));
            assert(next.last() == inp@[i as int]);
        }
        v = bch_table_entry(inp[i] ^ v);
        i += 1;
    }
    assert(inp@.take(inp@.len() as int) =~= inp@);
    v
}

/// The nibble of the even bits of a byte: bit `k` of the nibble is bit
/// `2 k` of the byte.
pub open spec fn even_bits(x: u32) -> u32 {
    (x & 1) | ((x >> 1) & 2) | ((x >> 2) & 4) | ((x >> 3) & 8)
}

/// The nibble of the odd bits of a byte: bit `k` of the nibble is bit
/// `2 k + 1` of the byte.
pub open spec fn odd_bits(x: u32) -> u32 {
    ((x >> 1) & 1) | ((x >> 2) & 2) | ((x >> 3) & 4) | ((x >> 4) & 8)
}

/// The symbols of lanes 1 and 2 for a byte that holds the four bits of
/// lane 1 in its even bits and those of lane 2 in its odd bits, at their
/// places in a word of three symbols.
pub open spec fn terc4_pair(x: u32) -> u32 {
    ((TERC4_SYMBOLS@[even_bits(x) as int] as u32) << 10) | ((TERC4_SYMBOLS@[odd_bits(x) as int] as u32)
        << 20)
}

/// The symbols of lanes 1 and 2 for a byte of interleaved bits.
pub fn terc4_table_entry(i: usize) -> (r: u32)
    requires
        i < 256,
    ensures
        r == terc4_pair(i as u32),
{
    let j = (i & 0x81) | (i & 2) << 3 | (i & 4) >> 1 | (i & 8) << 2 | (i & 0x10) >> 2 | (i & 0x20)
        << 1 | (i & 0x40) >> 3;
    assert(j % 16 == even_bits(i as u32) && j / 16 == odd_bits(i as u32) && j < 256) by (bit_vector)
        requires
            i < 256,
            j == (i & 0x81) | (i & 2) << 3 | (i & 4) >> 1 | (i & 8) << 2 | (i & 0x10) >> 2 | (i
                & 0x20) << 1 | (i & 0x40) >> 3,
    ;
    let c1 = (TERC4_SYMBOLS[j % 16] as u32) << 10;
    let c2 = (TERC4_SYMBOLS[j / 16] as u32) << 20;
    c1 | c2
}

/// The table of the symbols of lanes 1 and 2 for every byte of
/// interleaved bits.
pub fn mk_terc4_table() -> (r: [u32; 256])
    ensures
        forall|i: int| 0 <= i < 256 ==> r@[i] == terc4_pair(i as u32),
{
    let mut table = [0u32; 256];
    let mut i: usize = 0;
    while i < 256
        invariant
            i <= 256,
            forall|j: int| 0 <= j < i ==> table@[j] == terc4_pair(j as u32),
        decreases 256 - i,
    {
        table[i] = terc4_table_entry(i);
        i += 1;
    }
    table
}

/// A packet of a data island: a header of three bytes and four
/// subpackets of seven, each followed by its parity.
#[derive(Clone, Copy)]
pub struct DataPacket {
    pub header: [u8; 4],
    pub subpacket: [[u8; 8]; 4],
}

/// Three bytes of header with their parity.
pub open spec fn header_bytes(h0: u8, h1: u8, h2: u8) -> Seq<u8> {
    seq![h0, h1, h2, bch(seq![h0, h1, h2])]
}

/// Seven bytes of a subpacket with their parity.
pub open spec fn subpacket_bytes(body: Seq<u8>) -> Seq<u8> {
    body.take(7).push(bch(body.take(7)))
}

/// The subpacket of a stereo sample of 16 bits: for each channel a
/// sample of 24 bits with the lowest byte empty; then, per channel, the
/// flags for validity, user data and channel status, which are clear, and
/// the parity of the sample, left first. With the block start flag the
/// code that marks a sample as present is not sent inverted.
pub open spec fn sample_bytes(left: i16, right: i16) -> Seq<u8> {
    seq![
        0u8,
        left as u16 as u8,
        ((left as u16) >> 8) as u8,
        0u8,
        right as u16 as u8,
        ((right as u16) >> 8) as u8,
        (((parity16(left as u16) as u8) << 3) | ((parity16(right as u16) as u8) << 7)) ^ 0x99u8,
    ]
}

/// The sum of the first `n` bytes of the bodies of the subpackets, seven
/// bytes to a subpacket.
pub open spec fn body_sum(subpackets: Seq<Seq<u8>>, n: int) -> int
    decreases n,
{
    if n <= 0 {
        0
    } else {
        body_sum(subpackets, n - 1) + subpackets[(n - 1) / 7][(n - 1) % 7]
    }
}

/// The checksum of an info frame: the byte that makes the sum of the
/// three bytes of the header and the bytes of the frame a multiple of
/// 256. The frame has one byte more than the third byte of the header
/// says, the checksum itself, and at most 28.
pub open spec fn info_frame_checksum(header: Seq<u8>, subpackets: Seq<Seq<u8>>) -> u8 {
    let n = if header[2] + 1 > 28 {
        28
    } else {
        header[2] + 1
    };
    let sum = header[0] + header[1] + header[2] + body_sum(subpackets, n);
    ((256 - sum % 256) % 256) as u8
}

/// The first subpacket of an info frame about audio: two channels of
/// 16-bit PCM at the given rate, placed front left and front right.
pub open spec fn audio_info_body(freq: u32) -> Seq<u8> {
    let rate: u8 = if freq == 48000 {
        3
    } else if freq == 44100 {
        2
    } else {
        0
    };
    seq![0u8, 0x11u8, (1 + 4 * rate) as u8, 0u8, 0u8, 0u8, 0u8, 0u8]
}

/// The first subpacket of an info frame about the picture, without its
/// checksum and parity.
pub open spec fn avi_info_body(
    s: ScanInfo,
    y: PixelFormat,
    c: Colorimetry,
    m: PictureAspectRatio,
    r: ActiveFormatAspectRatio,
    q: QuantizationRange,
    v: VideoCode,
) -> Seq<u8> {
    let a: u8 = if r != ActiveFormatAspectRatio::NoData {
        1
    } else {
        0
    };
    seq![
        0u8,
        s.value() | (a << 4) | (y.value() << 5),
        r.value() | (m.value() << 4) | (c.value() << 6),
        q.value() << 2,
        v.value(),
        0u8,
        0u8,
        0u8,
    ]
}

impl DataPacket {
    /// The four bytes of the header.
    pub open spec fn header_seq(&self) -> Seq<u8> {
        self.header@
    }

    /// The eight bytes of subpacket `i`.
    pub open spec fn subpacket_seq(&self, i: int) -> Seq<u8> {
        self.subpacket@[i]@
    }

    /// The four subpackets.
    pub open spec fn subpackets(&self) -> Seq<Seq<u8>> {
        Seq::new(4, |i: int| self.subpacket@[i]@)
    }

    /// A packet of zeros.
    pub fn new() -> (r: Self)
        ensures
            r.header_seq() == seq![0u8, 0u8, 0u8, 0u8],
            forall|i: int| 0 <= i < 4 ==> r.subpacket_seq(i) == Seq::new(8, |k: int| 0u8),
    {
        let r = DataPacket { header: [0; 4], subpacket: [[0; 8]; 4] };
        assert(r.header@ =~= seq![0u8, 0u8, 0u8, 0u8]);
        assert forall|i: int| 0 <= i < 4 implies r.subpacket_seq(i) == Seq::new(8, |k: int| 0u8) by {
            assert(r.subpacket@[i]@ =~= Seq::new(8, |k: int| 0u8));
        }
        r
    }

    /// Fills in the parity of the header.
    pub fn compute_header_parity(&mut self)
        ensures
            final(self).header_seq() == header_bytes(
                old(self).header@[0],
                old(self).header@[1],
                old(self).header@[2],
            ),
            final(self).subpacket == old(self).subpacket,
    {
        let head = [self.header[0], self.header[1], self.header[2]];
        assert(head@ =~= seq![self.header@[0], self.header@[1], self.header@[2]]);
        self.header[3] = compute_bch(head.as_slice());
        assert(self.header@ =~= header_bytes(
            old(self).header@[0],
            old(self).header@[1],
            old(self).header@[2],
        ));
    }

    /// Fills in the parity of subpacket `i`.
    pub fn compute_subpacket_parity(&mut self, i: usize)
        requires
            i < 4,
        ensures
            final(self).subpacket_seq(i as int) == subpacket_bytes(old(self).subpacket_seq(i as int)),
            forall|k: int| 0 <= k < 4 && k != i ==> final(self).subpacket_seq(k) == old(
                self,
            ).subpacket_seq(k),
            final(self).header == old(self).header,
    {
        let mut sub = self.subpacket[i];
        let body = [sub[0], sub[1], sub[2], sub[3], sub[4], sub[5], sub[6]];
        assert(body@ =~= sub@.take(7));
        sub[7] = compute_bch(body.as_slice());
        assert(sub@ =~= subpacket_bytes(old(self).subpacket_seq(i as int)));
        self.subpacket[i] = sub;
    }

    /// Fills in the checksum of an info frame: the first byte of the
    /// first subpacket.
    pub fn compute_info_frame_checksum(&mut self)
        ensures
            final(self).subpacket_seq(0) == old(self).subpacket_seq(0).update(
                0,
                info_frame_checksum(old(self).header_seq(), old(self).subpackets()),
            ),
            forall|k: int| 1 <= k < 4 ==> final(self).subpacket_seq(k) == old(self).subpacket_seq(k),
            final(self).header == old(self).header,
    {
        let mut s: u32 = self.header[0] as u32 + self.header[1] as u32 + self.header[2] as u32;
        let n: usize = if self.header[2] as usize + 1 > 28 {
            28
        } else {
            self.header[2] as usize + 1
        };
        let ghost packets = self.subpackets();
        let mut k: usize = 0;
        while k < n
            invariant
                k <= n <= 28,
                packets == self.subpackets(),
                *self == *old(self),
                s == self.header@[0] + self.header@[1] + self.header@[2] + body_sum(packets, k as int),
                s <= 255 * (3 + k),
            decreases n - k,
        {
            let sub = self.subpacket[k / 7];
            assert(packets[k as int / 7] == sub@);
            s = s + sub[k % 7] as u32;
            k += 1;
        }
        let mut first = self.subpacket[0];
        first[0] = ((256 - s % 256) % 256) as u8;
        self.subpacket[0] = first;
    }

    /// Makes the packet one with up to four stereo samples.
    ///
    /// `frame_count` counts down the samples to the next start of a block
    /// of 192: the sample that starts a block is flagged in the header,
    /// and the count starts over.
    pub fn set_audio(&mut self, audio: &[[i16; 2]], frame_count: &mut i32)
        requires
            audio@.len() <= 4,
            0 <= *old(frame_count),
        ensures
            final(self).header_seq() == header_bytes(
                2,
                ((1u32 << (audio@.len() as u32)) - 1) as u8,
                if *old(frame_count) < 4 {
                    ((1u32 << (*old(frame_count) as u32)) << 4) as u8
                } else {
                    0
                },
            ),
            forall|i: int|
                0 <= i < audio@.len() ==> final(self).subpacket_seq(i) == subpacket_bytes(
                    sample_bytes(audio@[i]@[0], audio@[i]@[1]),
                ),
            forall|i: int|
                audio@.len() <= i < 4 ==> final(self).subpacket_seq(i) == old(self).subpacket_seq(i),
            *final(frame_count) == if *old(frame_count) - audio@.len() < 0 {
                *old(frame_count) - audio@.len() + 192
            } else {
                *old(frame_count) - audio@.len()
            },
    {
        self.header[0] = 2;
        let n = audio.len();
        assert(1u32 << (n as u32) <= 16 && 1u32 << (n as u32) >= 1) by (bit_vector)
            requires
                n <= 4,
        ;
        let sample_present: u32 = (1u32 << (n as u32)) - 1;
        self.header[1] = sample_present as u8;
        let count = *frame_count;
        let b: u32 = if count < 4 {
            assert((1u32 << (count as u32)) << 4 < 256) by (bit_vector)
                requires
                    0 <= count < 4,
            ;
            1u32 << (count as u32)
        } else {
            0
        };
        self.header[2] = if count < 4 { (b << 4) as u8 } else { 0 };
        self.compute_header_parity();
        let mut i: usize = 0;
        while i < n
            invariant
                i <= n <= 4,
                n == audio@.len(),
                self.header@ == header_bytes(
                    2,
                    #[verifier::truncate]
                    (sample_present as u8),
                    if count < 4 {
                        #[verifier::truncate]
                        ((b << 4) as u8)
                    } else {
                        0
                    },
                ),
                forall|k: int|
                    0 <= k < i ==> self.subpacket_seq(k) == subpacket_bytes(
                        sample_bytes(audio@[k]@[0], audio@[k]@[1]),
                    ),
                forall|k: int| i <= k < 4 ==> self.subpacket_seq(k) == old(self).subpacket_seq(k),
            decreases n - i,
        {
            let ghost start = *self;
            let l = audio[i][0];
            let r = audio[i][1];
            let pl = parity_u16(#[verifier::truncate] (l as u16));
            let pr = parity_u16(#[verifier::truncate] (r as u16));
            let mut sub = self.subpacket[i];
            sub[0] = 0;
            sub[1] = #[verifier::truncate] ((#[verifier::truncate] (l as u16)) as u8);
            sub[2] = #[verifier::truncate] (((#[verifier::truncate] (l as u16)) >> 8) as u8);
            sub[3] = 0;
            sub[4] = #[verifier::truncate] ((#[verifier::truncate] (r as u16)) as u8);
            sub[5] = #[verifier::truncate] (((#[verifier::truncate] (r as u16)) >> 8) as u8);
            sub[6] = ((pl << 3) | (pr << 7)) ^ 0x99;
            assert(sub@.take(7) =~= sample_bytes(l, r));
            self.subpacket[i] = sub;
            let ghost before = *self;
            self.compute_subpacket_parity(i);
            proof {
                assert(before.subpacket_seq(i as int) == sub@);
                assert(sample_bytes(l, r).take(7) =~= sample_bytes(l, r));
                assert(subpacket_bytes(sample_bytes(l, r)) =~= subpacket_bytes(
                    before.subpacket_seq(i as int),
                ));
                assert(audio@[i as int]@[0] == l && audio@[i as int]@[1] == r);
                assert forall|k: int| 0 <= k < i + 1 implies self.subpacket_seq(k)
                    == subpacket_bytes(sample_bytes(audio@[k]@[0], audio@[k]@[1])) by {
                    if k < i {
                        assert(self.subpacket_seq(k) == before.subpacket_seq(k));
                        assert(before.subpacket_seq(k) == start.subpacket_seq(k));
                    }
                }
                assert forall|k: int| i + 1 <= k < 4 implies self.subpacket_seq(k) == old(
                    self,
                ).subpacket_seq(k) by {
                    assert(self.subpacket_seq(k) == before.subpacket_seq(k));
                    assert(before.subpacket_seq(k) == start.subpacket_seq(k));
                }
            }
            i += 1;
        }
        *frame_count = count - n as i32;
        if *frame_count < 0 {
            *frame_count = *frame_count + 192;
        }
    }

    /// Makes the packet one that tells the sink how to regain the audio
    /// clock: the same subpacket four times, with the cycle time stamp and
    /// the divider as numbers of 24 bits, the highest byte first.
    pub fn set_audio_clock_regeneration(&mut self, cts: u32, n: u32)
        ensures
            final(self).header_seq() == header_bytes(1, 0, 0),
            forall|i: int|
                0 <= i < 4 ==> final(self).subpacket_seq(i) == subpacket_bytes(
                    seq![
                        0u8,
                        (cts >> 16) as u8,
                        (cts >> 8) as u8,
                        cts as u8,
                        (n >> 16) as u8,
                        (n >> 8) as u8,
                        n as u8,
                    ],
                ),
    {
        self.header[0] = 1;
        self.header[1] = 0;
        self.header[2] = 0;
        self.compute_header_parity();
        let mut sub = self.subpacket[0];
        sub[0] = 0;
        sub[1] = #[verifier::truncate] ((cts >> 16) as u8);
        sub[2] = #[verifier::truncate] ((cts >> 8) as u8);
        sub[3] = #[verifier::truncate] (cts as u8);
        sub[4] = #[verifier::truncate] ((n >> 16) as u8);
        sub[5] = #[verifier::truncate] ((n >> 8) as u8);
        sub[6] = #[verifier::truncate] (n as u8);
        let ghost body = seq![
            0u8,
            (cts >> 16) as u8,
            (cts >> 8) as u8,
            cts as u8,
            (n >> 16) as u8,
            (n >> 8) as u8,
            n as u8,
        ];
        assert(sub@.take(7) =~= body);
        assert(body.take(7) =~= body);
        self.subpacket[0] = sub;
        self.compute_subpacket_parity(0);
        let first = self.subpacket[0];
        let mut i: usize = 1;
        while i < 4
            invariant
                1 <= i <= 4,
                first@ == subpacket_bytes(body),
                self.header@ == header_bytes(1, 0, 0),
                forall|k: int| 0 <= k < i ==> self.subpacket_seq(k) == subpacket_bytes(body),
            decreases 4 - i,
        {
            let ghost before = *self;
            self.subpacket[i] = first;
            proof {
                assert forall|k: int| 0 <= k < i + 1 implies self.subpacket_seq(k)
                    == subpacket_bytes(body) by {
                    if k < i {
                        assert(self.subpacket_seq(k) == before.subpacket_seq(k));
                    }
                }
            }
            i += 1;
        }
    }

    /// Sets all four subpackets to zero.
    fn clear_subpackets(&mut self)
        ensures
            final(self).header == old(self).header,
            forall|i: int| 0 <= i < 4 ==> final(self).subpacket_seq(i) == Seq::new(8, |k: int| 0u8),
    {
        self.subpacket = [[0; 8]; 4];
        assert forall|i: int| 0 <= i < 4 implies self.subpacket_seq(i) == Seq::new(8, |k: int| 0u8) by {
            assert(self.subpacket@[i]@ =~= Seq::new(8, |k: int| 0u8));
        }
    }

    /// Completes an info frame whose header is set and whose first
    /// subpacket is `body` but for its checksum and parity.
    fn finish_info_frame(&mut self, Ghost(body): Ghost<Seq<u8>>)
        requires
            body.len() == 8,
            body[0] == 0,
            old(self).subpacket_seq(0) == body,
            forall|i: int| 1 <= i < 4 ==> old(self).subpacket_seq(i) == Seq::new(8, |k: int| 0u8),
        ensures
            final(self).header == old(self).header,
            final(self).subpacket_seq(0) == subpacket_bytes(
                body.update(0, info_frame_checksum(old(self).header_seq(), info_frame_packets(body))),
            ),
            forall|i: int| 1 <= i < 4 ==> final(self).subpacket_seq(i) == Seq::new(8, |k: int| 0u8),
    {
        assert forall|i: int| 0 <= i < 4 implies self.subpackets()[i] == info_frame_packets(
            body,
        )[i] by {
            assert(self.subpackets()[i] == self.subpacket_seq(i));
        }
        assert(self.subpackets() =~= info_frame_packets(body));
        self.compute_info_frame_checksum();
        self.compute_subpacket_parity(0);
    }

    /// Makes the packet the info frame about audio: two channels of 16-bit
    /// PCM at `freq` samples a second, where that is 44100 or 48000.
    pub fn set_audio_info_frame(&mut self, freq: u32)
        ensures
            final(self).header_seq() == header_bytes(0x84, 1, 10),
            final(self).subpacket_seq(0) == subpacket_bytes(
                audio_info_body(freq).update(
                    0,
                    info_frame_checksum(
                        header_bytes(0x84, 1, 10),
                        info_frame_packets(audio_info_body(freq)),
                    ),
                ),
            ),
            forall|i: int| 1 <= i < 4 ==> final(self).subpacket_seq(i) == Seq::new(8, |k: int| 0u8),
    {
        self.header[0] = 0x84;
        self.header[1] = 1;
        self.header[2] = 10;
        self.compute_header_parity();
        let cc: u8 = 1;
        let ct: u8 = 1;
        let ss: u8 = 1;
        let sf: u8 = if freq == 48000 {
            3
        } else if freq == 44100 {
            2
        } else {
            0
        };
        self.clear_subpackets();
        let mut sub = self.subpacket[0];
        sub[1] = cc + 16 * ct;
        sub[2] = ss + 4 * sf;
        sub[4] = 0;
        sub[5] = 0;
        proof {
            let zeros = Seq::new(8, |k: int| 0u8);
            assert(self.subpacket_seq(0) == zeros);
            assert(forall|k: int| 0 <= k < 8 ==> self.subpacket@[0]@[k] == zeros[k]);
            assert(sub@ =~= audio_info_body(freq));
        }
        let ghost cleared = *self;
        self.subpacket[0] = sub;
        proof {
            assert forall|i: int| 1 <= i < 4 implies self.subpacket_seq(i) == Seq::new(
                8,
                |k: int| 0u8,
            ) by {
                assert(self.subpacket_seq(i) == cleared.subpacket_seq(i));
            }
        }
        self.finish_info_frame(Ghost(audio_info_body(freq)));
    }

    /// Makes the packet the info frame about the picture.
    pub fn set_avi_info_frame(
        &mut self,
        s: ScanInfo,
        y: PixelFormat,
        c: Colorimetry,
        m: PictureAspectRatio,
        r: ActiveFormatAspectRatio,
        q: QuantizationRange,
        v: VideoCode,
    )
        ensures
            final(self).header_seq() == header_bytes(0x82, 2, 13),
            final(self).subpacket_seq(0) == subpacket_bytes(
                avi_info_body(s, y, c, m, r, q, v).update(
                    0,
                    info_frame_checksum(
                        header_bytes(0x82, 2, 13),
                        info_frame_packets(avi_info_body(s, y, c, m, r, q, v)),
                    ),
                ),
            ),
            forall|i: int| 1 <= i < 4 ==> final(self).subpacket_seq(i) == Seq::new(8, |k: int| 0u8),
    {
        self.header[0] = 0x82;
        self.header[1] = 2;
        self.header[2] = 13;
        self.compute_header_parity();
        self.clear_subpackets();
        let a: u8 = match r {
            ActiveFormatAspectRatio::NoData => 0,
            _ => 1,
        };
        let mut sub = self.subpacket[0];
        sub[1] = s.code() | (a << 4) | (y.code() << 5);
        sub[2] = r.code() | (m.code() << 4) | (c.code() << 6);
        sub[3] = q.code() << 2;
        sub[4] = v.code();
        proof {
            let zeros = Seq::new(8, |k: int| 0u8);
            assert(self.subpacket_seq(0) == zeros);
            assert(forall|k: int| 0 <= k < 8 ==> self.subpacket@[0]@[k] == zeros[k]);
            assert(sub@ =~= avi_info_body(s, y, c, m, r, q, v));
        }
        let ghost cleared = *self;
        self.subpacket[0] = sub;
        proof {
            assert forall|i: int| 1 <= i < 4 implies self.subpacket_seq(i) == Seq::new(
                8,
                |k: int| 0u8,
            ) by {
                assert(self.subpacket_seq(i) == cleared.subpacket_seq(i));
            }
        }
        self.finish_info_frame(Ghost(avi_info_body(s, y, c, m, r, q, v)));
    }
}

/// Bit `k` of a byte, as 1 or 0.
pub open spec fn bit_of(x: u8, k: u32) -> u32 {
    ((x as u32) >> k) & 1
}

/// The four bits that lane 1, for `odd` 0, or lane 2, for `odd` 1, carries
/// in symbol `ix` of a packet: of every subpacket the bit with number
/// `2 ix + odd`, counted from the lowest bit of its first byte.
pub open spec fn lane_nibble(subpackets: Seq<Seq<u8>>, ix: int, odd: u32) -> u32 {
    let byte = ix / 4;
    let k = (2 * (ix % 4) + odd) as u32;
    bit_of(subpackets[0][byte], k) | (bit_of(subpackets[1][byte], k) << 1) | (bit_of(
        subpackets[2][byte],
        k,
    ) << 2) | (bit_of(subpackets[3][byte], k) << 3)
}

/// The bytes of the header as one word, the first byte lowest.
pub open spec fn header_word(header: Seq<u8>) -> u32 {
    (header[0] as u32) | ((header[1] as u32) << 8) | ((header[2] as u32) << 16) | ((
    header[3] as u32) << 24)
}

/// The four bits that lane 0 carries in symbol `ix` of a packet: the sync
/// signals in `hv`, a bit of the header, and a bit that is clear in the
/// first symbol only.
pub open spec fn lane0_nibble(header: Seq<u8>, hv: u8, ix: int) -> int {
    hv + 4 * ((header_word(header) >> (ix as u32)) & 1) + if ix == 0 {
        0int
    } else {
        8int
    }
}

/// Symbol `ix` of the 32 symbols of a packet, for all three lanes.
pub open spec fn island_symbol(header: Seq<u8>, subpackets: Seq<Seq<u8>>, hv: u8, ix: int) -> u32 {
    (TERC4_SYMBOLS@[lane0_nibble(header, hv, ix)] as u32) | ((TERC4_SYMBOLS@[lane_nibble(
        subpackets,
        ix,
        0,
    ) as int] as u32) << 10) | ((TERC4_SYMBOLS@[lane_nibble(subpackets, ix, 1) as int] as u32) << 20)
}

/// The guard symbol that frames a packet: on lane 0 the sync signals
/// with the two upper bits set, on lanes 1 and 2 a fixed pattern.
pub open spec fn guard_symbol(hv: u8) -> u32 {
    (TERC4_SYMBOLS@[hv + 12] as u32) | (0x133u32 << 10) | (0x133u32 << 20)
}

/// The bytes of the four subpackets at one place, after their bits have
/// been transposed, hold in each byte the bits of one symbol: lane 1 in
/// the even bits and lane 2 in the odd bits.
proof fn lemma_transpose(b0: u8, b1: u8, b2: u8, b3: u8, j: u32)
    by (bit_vector)
    requires
        j < 4,
    ensures
        ({
            let v = (b0 as u32) | ((b1 as u32) << 8) | ((b2 as u32) << 16) | ((b3 as u32) << 24);
            let t = (v ^ (v >> 6)) & 0xcc00cc;
            let v = v ^ t ^ (t << 6);
            let t = (v ^ (v >> 12)) & 0xf0f0;
            let v = v ^ t ^ (t << 12);
            let x = (v >> ((j * 8) as u32)) & 0xff;
            &&& x < 256
            &&& even_bits(x) == bit_of(b0, (2 * j) as u32) | (bit_of(b1, (2 * j) as u32) << 1) | (bit_of(b2, (2 * j) as u32)
                << 2) | (bit_of(b3, (2 * j) as u32) << 3)
            &&& odd_bits(x) == bit_of(b0, (2 * j + 1) as u32) | (bit_of(b1, (2 * j + 1) as u32) << 1) | (bit_of(
                b2,
                (2 * j + 1) as u32,
            ) << 2) | (bit_of(b3, (2 * j + 1) as u32) << 3)
        }),
{
}

impl DataPacket {
    /// Encodes the packet as the 36 words of a data island: two guard
    /// symbols, the 32 symbols of the packet, and two guard symbols. `hv`
    /// holds the state of the sync signals, horizontal in bit 0 and
    /// vertical in bit 1. What lies behind the 36 words stays as it is.
    pub fn encode(&self, hv: u8, result: &mut [u32])
        requires
            hv < 4,
            old(result)@.len() >= 36,
        ensures
            final(result)@.len() == old(result)@.len(),
            final(result)@[0] == guard_symbol(hv),
            final(result)@[1] == guard_symbol(hv),
            final(result)@[34] == guard_symbol(hv),
            final(result)@[35] == guard_symbol(hv),
            forall|ix: int|
                0 <= ix < 32 ==> #[trigger] final(result)@[ix + 2] == island_symbol(
                    self.header_seq(),
                    self.subpackets(),
                    hv,
                    ix,
                ),
            forall|k: int| 36 <= k < old(result)@.len() ==> final(result)@[k] == old(result)@[k],
    {
        let c0_base = hv as usize + 8;
        let c0_guard = TERC4_SYMBOLS[c0_base + 4];
        let gb = c0_guard as u32 | (0x133 << 10) | (0x133 << 20);
        result[0] = gb;
        result[1] = gb;
        result[34] = gb;
        result[35] = gb;
        let header = (self.header[0] as u32) | ((self.header[1] as u32) << 8) | ((
        self.header[2] as u32) << 16) | ((self.header[3] as u32) << 24);
        let mut i: usize = 0;
        while i < 8
            invariant
                i <= 8,
                hv < 4,
                c0_base == hv + 8,
                header == header_word(self.header_seq()),
                result@.len() == old(result)@.len(),
                result@.len() >= 36,
                result@[0] == guard_symbol(hv),
                result@[1] == guard_symbol(hv),
                result@[34] == guard_symbol(hv),
                result@[35] == guard_symbol(hv),
                forall|ix: int|
                    0 <= ix < 4 * i ==> #[trigger] result@[ix + 2] == island_symbol(
                        self.header_seq(),
                        self.subpackets(),
                        hv,
                        ix,
                    ),
                forall|k: int| 36 <= k < result@.len() ==> result@[k] == old(result)@[k],
            decreases 8 - i,
        {
            let b0 = self.subpacket[0][i];
            let b1 = self.subpacket[1][i];
            let b2 = self.subpacket[2][i];
            let b3 = self.subpacket[3][i];
            let v = b0 as u32 | ((b1 as u32) << 8) | ((b2 as u32) << 16) | ((b3 as u32) << 24);
            let t = (v ^ (v >> 6)) & 0xcc00cc;
            let v = v ^ t ^ (t << 6);
            let t = (v ^ (v >> 12)) & 0xf0f0;
            let v = v ^ t ^ (t << 12);
            let mut j: usize = 0;
            while j < 4
                invariant
                    j <= 4,
                    i < 8,
                    hv < 4,
                    c0_base == hv + 8,
                    header == header_word(self.header_seq()),
                    b0 == self.subpackets()[0][i as int],
                    b1 == self.subpackets()[1][i as int],
                    b2 == self.subpackets()[2][i as int],
                    b3 == self.subpackets()[3][i as int],
                    v == ({
                        let v = (b0 as u32) | ((b1 as u32) << 8) | ((b2 as u32) << 16) | ((
                        b3 as u32) << 24);
                        let t = (v ^ (v >> 6)) & 0xcc00cc;
                        let v = v ^ t ^ (t << 6);
                        let t = (v ^ (v >> 12)) & 0xf0f0;
                        v ^ t ^ (t << 12)
                    }),
                    result@.len() == old(result)@.len(),
                    result@.len() >= 36,
                    result@[0] == guard_symbol(hv),
                    result@[1] == guard_symbol(hv),
                    result@[34] == guard_symbol(hv),
                    result@[35] == guard_symbol(hv),
                    forall|ix: int|
                        0 <= ix < 4 * i + j ==> #[trigger] result@[ix + 2] == island_symbol(
                            self.header_seq(),
                            self.subpackets(),
                            hv,
                            ix,
                        ),
                    forall|k: int| 36 <= k < result@.len() ==> result@[k] == old(result)@[k],
                decreases 4 - j,
            {
                let ix = i * 4 + j;
                assert((header >> (ix as u32)) & 1 <= 1) by (bit_vector);
                let header_bit = ((header >> (ix as u32)) & 1) as usize;
                let first_off: usize = if ix == 0 { 8 } else { 0 };
                let c0 = TERC4_SYMBOLS[c0_base - first_off + header_bit * 4];
                let mut tmds = c0 as u32;
                proof {
                    lemma_transpose(b0, b1, b2, b3, j as u32);
                    assert(ix / 4 == i && ix % 4 == j);
                }
                let x = ((v >> ((j * 8) as u32)) & 0xff) as usize;
                tmds |= terc4_table_entry(x);
                let ghost before = result@;
                result[ix + 2] = tmds;
                proof {
                    let packets = self.subpackets();
                    let jj = j as u32;
                    assert((2 * (ix as int % 4) + 0) as u32 == (2 * jj) as u32);
                    assert((2 * (ix as int % 4) + 1) as u32 == (2 * jj + 1) as u32);
                    assert(((j * 8) as u32) == ((jj * 8) as u32));
                    assert(lane_nibble(packets, ix as int, 0) == even_bits(x as u32));
                    assert(lane_nibble(packets, ix as int, 1) == odd_bits(x as u32));
                    let a = c0 as u32;
                    let b = (TERC4_SYMBOLS@[even_bits(x as u32) as int] as u32) << 10;
                    let c = (TERC4_SYMBOLS@[odd_bits(x as u32) as int] as u32) << 20;
                    assert(a | (b | c) == (a | b) | c) by (bit_vector);
                    assert(c0_base - first_off + header_bit * 4 == lane0_nibble(
                        self.header_seq(),
                        hv,
                        ix as int,
                    ));
                    assert(tmds == island_symbol(self.header_seq(), self.subpackets(), hv, ix as int));
                    assert forall|k: int| 0 <= k < 4 * i + j + 1 implies #[trigger] result@[k + 2]
                        == island_symbol(self.header_seq(), self.subpackets(), hv, k) by {
                        if k < ix {
                            assert(result@[k + 2] == before[k + 2]);
                        }
                    }
                }
                j += 1;
            }
            i += 1;
        }
    }
}

/// The subpackets of an info frame whose first subpacket is `body`: the
/// others are empty.
pub open spec fn info_frame_packets(body: Seq<u8>) -> Seq<Seq<u8>> {
    Seq::new(
        4,
        |i: int|
            if i == 0 {
                body
            } else {
                Seq::new(8, |k: int| 0u8)
            },
    )
}

} // verus!
