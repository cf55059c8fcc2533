//! Bit-packed fonts with glyphs of varying width.

use vstd::prelude::*;

verus! {

/// A font whose glyphs lie side by side in rows of bits.
///
/// Every row of the font takes `stride` words. The glyph of a character
/// starts at the same bit of every row and is as wide in each; it lies
/// within one word, so that a glyph has at most 32 columns.
pub struct Font {
    bits: Vec<u32>,
    stride: u32,
    height: u32,
    first: u8,
    widths: Vec<u8>,
    offsets: Vec<u16>,
}

/// Whether glyphs with the given widths and places each lie within one
/// word of a row, for the characters from `first` on.
pub open spec fn glyphs_ok(first: u8, widths: Seq<u8>, offsets: Seq<u16>) -> bool {
    &&& widths.len() == offsets.len()
    &&& first + widths.len() <= 256
    &&& forall|g: int| 0 <= g < widths.len() ==> (#[trigger] offsets[g]) % 32 + widths[g] <= 32
}

impl Font {
    /// The rows of the font, one after the other.
    pub closed spec fn bits(&self) -> Seq<u32> {
        self.bits@
    }

    /// Number of words from one row to the next.
    pub closed spec fn stride(&self) -> u32 {
        self.stride
    }

    /// Number of rows.
    pub closed spec fn height(&self) -> u32 {
        self.height
    }

    /// The character of the first glyph.
    pub closed spec fn first(&self) -> u8 {
        self.first
    }

    /// The width of every glyph in pixels.
    pub closed spec fn widths(&self) -> Seq<u8> {
        self.widths@
    }

    /// The bit of a row at which every glyph starts.
    pub closed spec fn offsets(&self) -> Seq<u16> {
        self.offsets@
    }

    /// The invariant of a font: every glyph lies within one word.
    pub open spec fn wf(&self) -> bool {
        glyphs_ok(self.first(), self.widths(), self.offsets())
    }

    /// Whether the font has a glyph for the character `c`.
    pub open spec fn has_glyph(&self, c: u8) -> bool {
        self.first() <= c < self.first() + self.widths().len()
    }

    /// Whether the font has a glyph for every byte of `text`.
    pub open spec fn covers(&self, text: Seq<u8>) -> bool {
        forall|i: int| 0 <= i < text.len() ==> self.has_glyph(#[trigger] text[i])
    }

    /// The width in pixels of the first `n` characters of `text`.
    pub open spec fn pen(&self, text: Seq<u8>, n: int) -> int
        decreases n,
    {
        if n <= 0 {
            0
        } else {
            self.pen(text, n - 1) + self.widths()[text[n - 1] - self.first()]
        }
    }

    /// A font from its parts, or `None` if some glyph does not lie within
    /// one word or the parts do not agree in the number of glyphs.
    pub fn new(
        bits: Vec<u32>,
        stride: u32,
        height: u32,
        first: u8,
        widths: Vec<u8>,
        offsets: Vec<u16>,
    ) -> (r: Option<Self>)
        ensures
            r.is_some() == glyphs_ok(first, widths@, offsets@),
            r.is_some() ==> {
                let font = r.unwrap();
                &&& font.wf()
                &&& font.bits() == bits@
                &&& font.stride() == stride
                &&& font.height() == height
                &&& font.first() == first
                &&& font.widths() == widths@
                &&& font.offsets() == offsets@
            },
    {
        if widths.len() != offsets.len() || widths.len() > 256 - first as usize {
            return None;
        }
        let mut g: usize = 0;
        while g < widths.len()
            invariant
                g <= widths.len(),
                widths.len() == offsets.len(),
                forall|j: int| 0 <= j < g ==> (#[trigger] offsets@[j]) % 32 + widths@[j] <= 32,
            decreases widths.len() - g,
        {
            if offsets[g] % 32 + widths[g] as u16 > 32 {
                return None;
            }
            g += 1;
        }
        Some(Font { bits, stride, height, first, widths, offsets })
    }

    /// Number of rows.
    pub fn rows(&self) -> (r: u32)
        ensures
            r == self.height(),
    {
        self.height
    }

    /// Whether the font has a glyph for the character `c`.
    pub fn contains(&self, c: u8) -> (r: bool)
        ensures
            r == self.has_glyph(c),
    {
        self.first <= c && ((c - self.first) as usize) < self.widths.len()
    }

    /// The width of the glyph of `c`.
    pub fn glyph_width(&self, c: u8) -> (r: u8)
        requires
            self.wf(),
            self.has_glyph(c),
        ensures
            r == self.widths()[c - self.first()],
            r <= 32,
    {
        let g = (c - self.first) as usize;
        assert(self.offsets@[g as int] % 32 + self.widths@[g as int] <= 32);
        self.widths[g]
    }

    /// The bit of a row at which the glyph of `c` starts.
    pub fn glyph_offset(&self, c: u8) -> (r: u16)
        requires
            self.wf(),
            self.has_glyph(c),
        ensures
            r == self.offsets()[c - self.first()],
            r % 32 + self.widths()[c - self.first()] <= 32,
    {
        let g = (c - self.first) as usize;
        self.offsets[g]
    }

    /// The rows of the font.
    pub fn words(&self) -> (r: &[u32])
        ensures
            r@ == self.bits(),
    {
        self.bits.as_slice()
    }

    /// Number of words from one row to the next.
    pub fn row_stride(&self) -> (r: u32)
        ensures
            r == self.stride(),
    {
        self.stride
    }
}

} // verus!
