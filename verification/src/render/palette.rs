//! Palettes that turn packed pixels into transfer words by table lookup.
//!
//! A palette is indexed by the bits of two pixels at once and holds the
//! finished transfer word for every such pair, so that scan-out never has
//! to assemble or encode one. For a serialiser that encodes TMDS itself, a
//! transfer word carries two pixels of 16 bits, the first in its lower
//! half. For a lane that is fed with symbols, it carries the pair of TMDS
//! symbols of the levels of the two pixels on that lane, chosen so that
//! every pair is balanced.

use vstd::prelude::*;
use crate::dvi::tmds::{balanced_near, pair_bits, pair_discrepancy, TmdsPair};
use crate::render::{rgb, xrgb, xrgb555};

verus! {

/// The transfer word of two pixels: `first` in bits 0..16, `second` in bits
/// 16..32.
pub open spec fn pixel_pair(first: u32, second: u32) -> u32 {
    first | (second << 16)
}

/// The channel that lane `lane` carries of a colour `0xRRGGBB`: blue on
/// lane 0, green on lane 1 and red on lane 2.
pub open spec fn channel(color: u32, lane: u32) -> u8 {
    (color >> (8 * lane)) as u8
}

/// The channel that a lane carries of a colour `0xRRGGBB`.
pub fn lane_channel(color: u32, lane: u32) -> (r: u8)
    requires
        lane < 3,
    ensures
        r == channel(color, lane),
{
    #[verifier::truncate]
    ((color >> (8 * lane)) as u8)
}

/// A palette for pixels of one bit: four words, indexed by two pixels.
#[derive(Clone, Copy)]
pub struct Palette1bpp([u32; 4]);

/// A palette for pixels of four bits: 256 words, indexed by two pixels.
#[derive(Clone, Copy)]
pub struct Palette4bppFast([u32; 256]);

impl View for Palette1bpp {
    type V = Seq<u32>;

    /// The four words of the palette.
    closed spec fn view(&self) -> Seq<u32> {
        self.0@
    }
}

impl View for Palette4bppFast {
    type V = Seq<u32>;

    /// The 256 words of the palette.
    closed spec fn view(&self) -> Seq<u32> {
        self.0@
    }
}

impl Palette1bpp {
    /// The word for two one-bit pixels, the first in bit 0 of `index`: a
    /// pixel shows `fg` where its bit is set and `bg` where it is clear.
    pub open spec fn entry(bg: u32, fg: u32, index: int) -> u32 {
        pixel_pair(
            if index % 2 == 1 {
                fg
            } else {
                bg
            },
            if index / 2 == 1 {
                fg
            } else {
                bg
            },
        )
    }

    /// A palette of two colours, each a pixel of 16 bits as [`rgb`] makes
    /// them.
    pub fn new(bg: u32, fg: u32) -> (r: Self)
        ensures
            r@.len() == 4,
            forall|i: int| 0 <= i < 4 ==> r@[i] == Self::entry(bg, fg, i),
    {
        Self([bg | (bg << 16), fg | (bg << 16), bg | (fg << 16), fg | (fg << 16)])
    }

    /// A palette of two colours of the form `0xRRGGBB`.
    pub fn new_rgb(bg: u32, fg: u32) -> (r: Self)
        ensures
            r@.len() == 4,
            forall|i: int|
                0 <= i < 4 ==> r@[i] == Self::entry(xrgb555(bg) as u32, xrgb555(fg) as u32, i),
    {
        Self::new(xrgb(bg), xrgb(fg))
    }

    /// The four words of the palette of two colours.
    pub open spec fn entries(bg: u32, fg: u32) -> Seq<u32> {
        Seq::new(4, |i: int| Self::entry(bg, fg, i))
    }

    /// The four words of the palette of black and white.
    pub open spec fn black_and_white_words() -> Seq<u32> {
        Seq::new(4, |i: int| Self::entry(0, 0x7fff, i))
    }

    /// The palette of black and white.
    pub fn black_and_white() -> (r: Self)
        ensures
            r@.len() == 4,
            forall|i: int| 0 <= i < 4 ==> r@[i] == Self::entry(0, 0x7fff, i),
    {
        Self::new(rgb(0, 0, 0), rgb(255, 255, 255))
    }

    /// The word of a lane for two one-bit pixels, the first in bit 0 of
    /// `index`: the pair of TMDS symbols of the levels of the two pixels,
    /// each level replaced by the nearest one whose symbol is balanced in
    /// itself.
    pub open spec fn tmds_entry(bg: u8, fg: u8, index: int) -> u32 {
        pair_bits(
            balanced_near(
                if index % 2 == 1 {
                    fg
                } else {
                    bg
                },
            ),
            balanced_near(
                if index / 2 == 1 {
                    fg
                } else {
                    bg
                },
            ),
        )
    }

    /// A palette of two levels of one lane, or of grey, encoded as pairs
    /// of TMDS symbols that leave no discrepancy behind.
    pub fn new_tmds(bg: u8, fg: u8) -> (r: Self)
        ensures
            r@.len() == 4,
            forall|i: int| 0 <= i < 4 ==> r@[i] == Self::tmds_entry(bg, fg, i),
    {
        Self(
            [
                TmdsPair::encode_balanced_near(bg, bg).raw(),
                TmdsPair::encode_balanced_near(fg, bg).raw(),
                TmdsPair::encode_balanced_near(bg, fg).raw(),
                TmdsPair::encode_balanced_near(fg, fg).raw(),
            ],
        )
    }

    /// The palettes of the three lanes for two colours of the form
    /// `0xRRGGBB`, encoded as pairs of TMDS symbols.
    pub fn new_tmds_rgb(bg: u32, fg: u32) -> (r: [Self; 3])
        ensures
            forall|lane: int, i: int|
                0 <= lane < 3 && 0 <= i < 4 ==> (#[trigger] r@[lane]@[i]) == Self::tmds_entry(
                    channel(bg, lane as u32),
                    channel(fg, lane as u32),
                    i,
                ),
    {
        [
            Self::new_tmds(lane_channel(bg, 0), lane_channel(fg, 0)),
            Self::new_tmds(lane_channel(bg, 1), lane_channel(fg, 1)),
            Self::new_tmds(lane_channel(bg, 2), lane_channel(fg, 2)),
        ]
    }

    /// The four words of the palette.
    pub fn words(&self) -> (r: &[u32; 4])
        ensures
            r@ == self@,
    {
        &self.0
    }
}

impl Palette4bppFast {
    /// The word for two four-bit pixels, the first in the low nibble of
    /// `index`: each pixel shows the colour of `colors` that it names.
    pub open spec fn entry(colors: Seq<u32>, index: int) -> u32 {
        pixel_pair(xrgb555(colors[index % 16]) as u32, xrgb555(colors[index / 16]) as u32)
    }

    /// A palette of sixteen colours of the form `0xRRGGBB`.
    pub fn new(colors: &[u32; 16]) -> (r: Self)
        ensures
            r@.len() == 256,
            forall|i: int| 0 <= i < 256 ==> r@[i] == Self::entry(colors@, i),
    {
        let mut a = [0u32; 256];
        let mut i: usize = 0;
        while i < 256
            invariant
                i <= 256,
                forall|j: int| 0 <= j < i ==> a@[j] == Self::entry(colors@, j),
            decreases 256 - i,
        {
            a[i] = xrgb(colors[i % 16]) | (xrgb(colors[i / 16]) << 16);
            i += 1;
        }
        Self(a)
    }

    /// The word of a lane for two four-bit pixels, the first in the low
    /// nibble of `index`: the pair of TMDS symbols of the levels that the
    /// pixels name, each level replaced by the nearest one whose symbol is
    /// balanced in itself.
    pub open spec fn tmds_entry(levels: Seq<u8>, index: int) -> u32 {
        pair_bits(balanced_near(levels[index % 16]), balanced_near(levels[index / 16]))
    }

    /// A palette of sixteen levels of one lane, or of grey, encoded as
    /// pairs of TMDS symbols that leave no discrepancy behind.
    pub fn new_tmds(levels: &[u8; 16]) -> (r: Self)
        ensures
            r@.len() == 256,
            forall|i: int| 0 <= i < 256 ==> r@[i] == Self::tmds_entry(levels@, i),
    {
        let mut a = [0u32; 256];
        let mut i: usize = 0;
        while i < 256
            invariant
                i <= 256,
                forall|j: int| 0 <= j < i ==> a@[j] == Self::tmds_entry(levels@, j),
            decreases 256 - i,
        {
            a[i] = TmdsPair::encode_balanced_near(levels[i % 16], levels[i / 16]).raw();
            i += 1;
        }
        Self(a)
    }

    /// The palette of lane `lane` for sixteen colours of the form
    /// `0xRRGGBB`, encoded as pairs of TMDS symbols.
    pub fn new_tmds_lane(colors: &[u32; 16], lane: u32) -> (r: Self)
        requires
            lane < 3,
        ensures
            r@.len() == 256,
            forall|i: int|
                0 <= i < 256 ==> r@[i] == pair_bits(
                    balanced_near(channel(colors@[i % 16], lane)),
                    balanced_near(channel(colors@[i / 16], lane)),
                ),
    {
        let mut levels = [0u8; 16];
        let mut k: usize = 0;
        while k < 16
            invariant
                k <= 16,
                lane < 3,
                forall|j: int| 0 <= j < k ==> levels@[j] == channel(colors@[j], lane),
            decreases 16 - k,
        {
            levels[k] = lane_channel(colors[k], lane);
            k += 1;
        }
        Self::new_tmds(&levels)
    }

    /// The 256 words of the palette.
    pub fn words(&self) -> (r: &[u32; 256])
        ensures
            r@ == self@,
    {
        &self.0
    }
}

/// Every word of a palette of TMDS pairs is balanced: the pair leaves no
/// discrepancy behind, whatever the levels of the palette are.
pub proof fn lemma_tmds_palette_balanced(b0: u8, b1: u8)
    ensures
        pair_discrepancy(balanced_near(b0), balanced_near(b1)) == 0,
{
    crate::dvi::tmds::lemma_balanced_near(b0, b0);
    crate::dvi::tmds::lemma_balanced_near(b1, b1);
    crate::dvi::tmds::lemma_balanced_pair(balanced_near(b0), balanced_near(b1));
}

} // verus!
