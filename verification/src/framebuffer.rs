//! Pixel formats for frame buffers.

use vstd::prelude::*;

verus! {

/// Width of a frame buffer in pixels.
pub const WIDTH: usize = 320;

/// Height of a frame buffer in pixels.
pub const HEIGHT: usize = 240;

/// A pixel of eight bits: three bits of red from bit 0 on, three bits of
/// green from bit 3 on, and two bits of blue from bit 6 on.
#[derive(Clone, Copy, PartialEq, Eq, Structural)]
pub struct Rgb332 {
    bits: u8,
}

impl View for Rgb332 {
    type V = u8;

    /// The byte of the pixel.
    closed spec fn view(&self) -> u8 {
        self.bits
    }
}

/// No channel is larger than its bits allow.
proof fn lemma_channels(bits: u8)
    by (bit_vector)
    ensures
        bits & 7 <= 7,
        (bits >> 3) & 7 <= 7,
        bits >> 6 <= 3,
{
}

impl Rgb332 {
    /// The highest value of the red channel.
    pub const MAX_R: u8 = 0b111;

    /// The highest value of the green channel.
    pub const MAX_G: u8 = 0b111;

    /// The highest value of the blue channel.
    pub const MAX_B: u8 = 0b11;

    /// The red channel of a byte.
    pub open spec fn red_of(bits: u8) -> u8 {
        bits & 7
    }

    /// The green channel of a byte.
    pub open spec fn green_of(bits: u8) -> u8 {
        (bits >> 3) & 7
    }

    /// The blue channel of a byte.
    pub open spec fn blue_of(bits: u8) -> u8 {
        bits >> 6
    }

    /// The pixel with all channels at zero.
    pub fn new() -> (r: Self)
        ensures
            r@ == 0,
    {
        Rgb332 { bits: 0 }
    }

    /// The pixel of a byte.
    pub fn from_bytes(bytes: [u8; 1]) -> (r: Self)
        ensures
            r@ == bytes@[0],
    {
        Rgb332 { bits: bytes[0] }
    }

    /// The byte of the pixel.
    pub fn into_bytes(self) -> (r: [u8; 1])
        ensures
            r@ == seq![self@],
    {
        let r = [self.bits];
        assert(r@ =~= seq![self@]);
        r
    }

    /// The red channel.
    pub fn r(&self) -> (r: u8)
        ensures
            r == Self::red_of(self@),
            r <= Self::MAX_R,
    {
        proof {
            lemma_channels(self.bits);
        }
        self.bits & 7
    }

    /// The green channel.
    pub fn g(&self) -> (r: u8)
        ensures
            r == Self::green_of(self@),
            r <= Self::MAX_G,
    {
        proof {
            lemma_channels(self.bits);
        }
        (self.bits >> 3) & 7
    }

    /// The blue channel.
    pub fn b(&self) -> (r: u8)
        ensures
            r == Self::blue_of(self@),
            r <= Self::MAX_B,
    {
        proof {
            lemma_channels(self.bits);
        }
        self.bits >> 6
    }
}

/// A frame buffer. It has no pixels of its own: those lie where the
/// hardware reads them.
pub struct FrameBuffer {}

} // verus!
