//! Test pictures: colour bars and a plane of tiles, each with a line of
//! text that counts the frames.

pub mod conway;

use vstd::prelude::*;
use crate::demo::conway::{alive, life_rule, neighbours, GameOfLife, BOARD_CELLS, BOARD_HEIGHT};
use crate::render::font::Font;
use crate::render::palette::{Palette1bpp, Palette4bppFast};
use crate::render::renderlist::{
    lemma_pen_bound, text_records, tile_end, tile_records, RenderlistBuilder, DATA_LIMIT,
};
use crate::render::{rgb, rgb555};
use crate::render::stripes::{lemma_program_push, total_height, Stripe};
use crate::scanlist::{ScanlistBuilder, SCAN_PAL_1BPP, SCAN_PAL_4BPP, SCAN_SOLID};

verus! {

/// Width of the pictures in pixels.
pub const FRAME_WIDTH: u32 = 640;

/// Height of the pictures in rows.
pub const FRAME_HEIGHT: u32 = 480;

/// A tile of sixteen by sixteen pixels of four bits: two words to a row.
pub const TILE_DATA: [u32; 32] = [
    0x44444444,
    0x44454444,
    0x54545444,
    0x44455454,
    0x55555555,
    0x55555555,
    0x74754444,
    0x74747474,
    0x44454444,
    0x44444444,
    0x44454644,
    0x44444444,
    0x44454644,
    0x44444444,
    0x44454444,
    0x44444444,
    0x44454444,
    0x44444444,
    0x44455454,
    0x54444444,
    0x55555555,
    0x55555555,
    0x74747474,
    0x74754474,
    0x44444444,
    0x44454444,
    0x44444444,
    0x44454444,
    0x66444444,
    0x44454444,
    0x44444444,
    0x44454444,
];

/// The sixteen colours of the tiles, as `0xRRGGBB`.
pub const PALETTE: [u32; 16] = [
    0x000000,
    0xffffff,
    0x9d9d9d,
    0xe06f8b,
    0xbe2633,
    0x493c2b,
    0xa46422,
    0xeb8931,
    0xf7e26b,
    0xa3ce27,
    0x44891a,
    0x2f484e,
    0x1b2632,
    0x5784,
    0x31a2f2,
    0xb2dcef,
];

/// The text before the number of the frame: "Hello pico-dvi-rs, frame ".
pub const LABEL: [u8; 25] = [
    72, 101, 108, 108, 111, 32, 112, 105, 99, 111, 45, 100, 118, 105, 45, 114, 115, 44, 32, 102,
    114, 97, 109, 101, 32,
];

/// A counter of frames.
pub struct Counter {
    count: u32,
}

impl View for Counter {
    type V = u32;

    /// Number of frames counted, modulo `2^32`.
    closed spec fn view(&self) -> u32 {
        self.count
    }
}

impl Counter {
    /// A counter at zero.
    pub fn new() -> (r: Self)
        ensures
            r@ == 0,
    {
        Counter { count: 0 }
    }

    /// Counts a frame. Returns whether the light is to be toggled, which
    /// it is on every fifteenth frame.
    pub fn count(&mut self) -> (toggle: bool)
        ensures
            toggle == (old(self)@ % 15 == 0),
            final(self)@ == if old(self)@ == u32::MAX {
                0
            } else {
                old(self)@ + 1
            },
    {
        let toggle = self.count % 15 == 0;
        self.count = if self.count == u32::MAX { 0 } else { self.count + 1 };
        toggle
    }

    /// Number of frames counted.
    pub fn value(&self) -> (r: u32)
        ensures
            r == self@,
    {
        self.count
    }
}

/// The decimal digits of a number as characters.
pub open spec fn decimal(n: nat) -> Seq<u8>
    decreases n,
{
    if n < 10 {
        seq![(48 + n) as u8]
    } else {
        decimal(n / 10).push((48 + n % 10) as u8)
    }
}

/// Whether all of `text` are printable characters of ASCII.
pub open spec fn printable(text: Seq<u8>) -> bool {
    forall|i: int| 0 <= i < text.len() ==> 32 <= #[trigger] text[i] < 127
}

/// A number has at most ten digits, all of them printable.
pub proof fn lemma_decimal(n: nat)
    requires
        n <= u32::MAX,
    ensures
        1 <= decimal(n).len() <= 10,
        printable(decimal(n)),
        n < 10 ==> decimal(n).len() == 1,
        n < 100 ==> decimal(n).len() <= 2,
        n < 1000 ==> decimal(n).len() <= 3,
        n < 10_000 ==> decimal(n).len() <= 4,
        n < 100_000 ==> decimal(n).len() <= 5,
        n < 1_000_000 ==> decimal(n).len() <= 6,
        n < 10_000_000 ==> decimal(n).len() <= 7,
        n < 100_000_000 ==> decimal(n).len() <= 8,
        n < 1_000_000_000 ==> decimal(n).len() <= 9,
    decreases n,
{
    if n >= 10 {
        lemma_decimal(n / 10);
    }
}

/// Appends the decimal digits of `n` to `buf`.
pub fn push_decimal(buf: &mut Vec<u8>, n: u32)
    ensures
        final(buf)@ == old(buf)@ + decimal(n as nat),
{
    let mut digits = [0u8; 10];
    let mut len: usize = 0;
    let mut rest = n;
    let ghost mut tail: Seq<u8> = Seq::empty();
    proof {
        lemma_decimal(n as nat);
        assert(decimal(n as nat) + tail =~= decimal(n as nat));
    }
    loop
        invariant_except_break
            decimal(n as nat) == decimal(rest as nat) + tail,
            decimal(rest as nat).len() + len <= 10,
        invariant
            len == tail.len(),
            len <= 10,
            forall|i: int| 0 <= i < len ==> digits@[i] == tail[len - 1 - i],
        ensures
            decimal(n as nat) == tail,
        decreases rest,
    {
        proof {
            lemma_decimal(rest as nat);
        }
        let digit = 48 + (rest % 10) as u8;
        digits[len] = digit;
        proof {
            let longer = seq![digit] + tail;
            if rest >= 10 {
                assert(decimal(rest as nat) == decimal((rest / 10) as nat).push(digit));
                assert(decimal((rest / 10) as nat) + longer =~= decimal(rest as nat) + tail);
            } else {
                assert(decimal(rest as nat) =~= seq![digit]);
                assert(longer =~= decimal(rest as nat) + tail);
            }
            assert forall|i: int| 0 <= i < len + 1 implies digits@[i] == longer[len - i] by {
                if i < len {
                    assert(longer[len - i] == tail[len - 1 - i]);
                }
            }
            tail = longer;
        }
        len += 1;
        if rest < 10 {
            break ;
        }
        rest = rest / 10;
    }
    let mut i: usize = len;
    while i > 0
        invariant
            i <= len <= 10,
            len == tail.len(),
            forall|k: int| 0 <= k < len ==> digits@[k] == tail[len - 1 - k],
            buf@ == old(buf)@ + tail.take(len - i),
        decreases i,
    {
        i -= 1;
        buf.push(digits[i]);
        assert(buf@ =~= old(buf)@ + tail.take(len - i));
    }
    assert(tail.take(len as int) =~= tail);
}

/// The label of a frame: "Hello pico-dvi-rs, frame " and the number of
/// the frame.
pub fn frame_label(count: u32) -> (r: Vec<u8>)
    ensures
        r@ == LABEL@ + decimal(count as nat),
        r@.len() <= 35,
        printable(r@),
{
    let mut r: Vec<u8> = Vec::new();
    let mut i: usize = 0;
    while i < 25
        invariant
            i <= 25,
            r@ == LABEL@.take(i as int),
        decreases 25 - i,
    {
        r.push(LABEL[i]);
        i += 1;
        assert(r@ =~= LABEL@.take(i as int));
    }
    assert(LABEL@.take(25) =~= LABEL@);
    push_decimal(&mut r, count);
    proof {
        lemma_decimal(count as nat);
        assert(printable(LABEL@)) by {
            assert forall|i: int| 0 <= i < 25 implies 32 <= #[trigger] LABEL@[i] < 127 by {
                lemma_label(i);
            }
        }
    }
    r
}

/// The characters of the label are printable.
proof fn lemma_label(i: int)
    requires
        0 <= i < 25,
    ensures
        32 <= LABEL@[i] < 127,
{
    if i < 8 {
    } else if i < 16 {
    } else {
    }
}

/// The instructions of a stripe of solid runs, each given by its number
/// of pixels and its colour.
pub open spec fn bar_words(bars: Seq<(u32, u32)>) -> Seq<u32> {
    Seq::new(
        3 * bars.len(),
        |i: int|
            if i % 3 == 0 {
                SCAN_SOLID
            } else if i % 3 == 1 {
                bars[i / 3].0
            } else {
                bars[i / 3].1
            },
    )
}

/// Adds a stripe of solid runs to a scan list.
pub fn solid_stripe(sb: &mut ScanlistBuilder, height: u32, bars: &[(u32, u32)])
    requires
        old(sb).wf(),
        old(sb).open().is_none(),
        old(sb).room() >= 3 + 3 * bars@.len(),
    ensures
        final(sb).wf(),
        final(sb).open().is_none(),
        final(sb).done() == old(sb).done().push(Stripe { height, body: bar_words(bars@) }),
        final(sb).data() == old(sb).data(),
        final(sb).room() == old(sb).room() - 3 - 3 * bars@.len(),
{
    sb.begin_stripe(height);
    let mut i: usize = 0;
    assert(bar_words(bars@.take(0)) =~= Seq::<u32>::empty());
    while i < bars.len()
        invariant
            i <= bars@.len(),
            sb.wf(),
            sb.done() == old(sb).done(),
            sb.data() == old(sb).data(),
            sb.open() == Some(Stripe { height, body: bar_words(bars@.take(i as int)) }),
            sb.room() == old(sb).room() - 3 - 3 * i,
            old(sb).room() >= 3 + 3 * bars@.len(),
        decreases bars.len() - i,
    {
        let (count, color) = bars[i];
        sb.solid(count, color);
        proof {
            let before = bar_words(bars@.take(i as int));
            let after = bar_words(bars@.take(i + 1));
            assert(after =~= before + seq![SCAN_SOLID, count, color]);
        }
        i += 1;
    }
    assert(bars@.take(bars@.len() as int) =~= bars@);
    sb.end_stripe();
}

/// Whether the font has a glyph for every printable character of ASCII.
pub open spec fn font_is_complete(font: &Font) -> bool {
    &&& font.wf()
    &&& font.first() <= 32
    &&& font.first() + font.widths().len() >= 127
}

/// The width that a line of text takes in a scan list: its width in
/// pixels, made even, and at most the width of the picture.
pub open spec fn label_width(pen: int) -> int {
    if pen + pen % 2 > FRAME_WIDTH {
        FRAME_WIDTH as int
    } else {
        pen + pen % 2
    }
}

/// The stripe of a render list that draws a line of text with a font
/// whose rows lie at `source` in the data of the list.
pub open spec fn text_render_stripe(font: &Font, text: Seq<u8>, source: int) -> Stripe {
    Stripe { height: font.height(), body: text_records(font, text, text.len() as int, source) }
}

/// The stripe of a scan list that shows a line of text in the colours of
/// a palette at `at` in the data of the list, with the colour
/// `background` to the right of it.
pub open spec fn text_scan_stripe(font: &Font, text: Seq<u8>, at: int, background: u32) -> Stripe {
    Stripe {
        height: font.height(),
        body: seq![
            SCAN_PAL_1BPP,
            label_width(font.pen(text, text.len() as int)) as u32,
            at as u32,
            SCAN_SOLID,
            (FRAME_WIDTH - label_width(font.pen(text, text.len() as int))) as u32,
            background,
        ],
    }
}

/// Adds a stripe with a line of text to both lists: the render list
/// draws the text, and the scan list shows it in the colours of
/// `palette`, with `background` to the right of it.
pub fn text_stripes(
    rb: &mut RenderlistBuilder,
    sb: &mut ScanlistBuilder,
    font: &Font,
    text: &[u8],
    palette: &Palette1bpp,
    background: u32,
)
    requires
        old(rb).wf(),
        old(rb).open().is_none(),
        old(sb).wf(),
        old(sb).open().is_none(),
        font_is_complete(font),
        printable(text@),
        text@.len() <= 0x100_0000,
        old(rb).room() >= 3 + 4 * text@.len(),
        old(rb).holds_source(font.bits()) || old(rb).data_room() >= font.bits().len(),
        old(sb).room() >= 9,
        old(sb).data().len() + 4 <= u32::MAX,
    ensures
        final(rb).wf(),
        final(rb).open().is_none(),
        final(rb).done() == old(rb).done().push(
            text_render_stripe(font, text@, final(rb).source()),
        ),
        final(rb).holds_source(font.bits()),
        final(rb).source() == old(rb).stored_at(font.bits()),
        final(rb).data() == old(rb).stored_data(font.bits()),
        final(rb).width() == old(rb).width(),
        final(rb).x() == 0,
        final(rb).room() == old(rb).room() - 3 - 4 * text@.len(),
        final(rb).data_room() == DATA_LIMIT - old(rb).stored_data(font.bits()).len(),
        final(rb).data_room() >= old(rb).data_room() - font.bits().len(),
        final(sb).wf(),
        final(sb).open().is_none(),
        final(sb).done() == old(sb).done().push(
            text_scan_stripe(font, text@, old(sb).data().len() as int, background),
        ),
        final(sb).data() == old(sb).data() + palette@,
        final(sb).room() == old(sb).room() - 9,
{
    proof {
        lemma_pen_bound(font, text@, text@.len() as int);
        assert(font.covers(text@)) by {
            assert forall|i: int| 0 <= i < text@.len() implies font.has_glyph(
                #[trigger] text@[i],
            ) by {}
        }
        crate::render::renderlist::lemma_text_records_len(
            font,
            text@,
            text@.len() as int,
            0,
        );
    }
    let height = font.rows();
    rb.begin_stripe(height);
    let width = rb.text_bytes(font, text);
    proof {
        crate::render::renderlist::lemma_text_records_len(
            font,
            text@,
            text@.len() as int,
            rb.source(),
        );
        assert(Seq::<u32>::empty() + text_records(
            font,
            text@,
            text@.len() as int,
            rb.source(),
        ) =~= text_records(font, text@, text@.len() as int, rb.source()));
    }
    rb.end_stripe();
    let even = width + width % 2;
    let width = if even > FRAME_WIDTH { FRAME_WIDTH } else { even };
    sb.begin_stripe(height);
    sb.pal_1bpp(width, palette);
    sb.solid(FRAME_WIDTH - width, background);
    proof {
        let at = old(sb).data().len() as u32;
        assert(Seq::<u32>::empty() + seq![SCAN_PAL_1BPP, width, at] + seq![
            SCAN_SOLID,
            (FRAME_WIDTH - width) as u32,
            background,
        ] =~= seq![
            SCAN_PAL_1BPP,
            width,
            at,
            SCAN_SOLID,
            (FRAME_WIDTH - width) as u32,
            background,
        ]);
    }
    sb.end_stripe();
}

/// The upper bars of the test picture: grey, yellow, cyan, green,
/// magenta, red and blue.
pub open spec fn top_bars() -> Seq<(u32, u32)> {
    seq![
        (92u32, rgb555(0xc0, 0xc0, 0xc0) as u32),
        (90u32, rgb555(0xc0, 0xc0, 0) as u32),
        (92u32, rgb555(0, 0xc0, 0xc0) as u32),
        (92u32, rgb555(0, 0xc0, 0) as u32),
        (92u32, rgb555(0xc0, 0, 0xc0) as u32),
        (90u32, rgb555(0xc0, 0, 0) as u32),
        (92u32, rgb555(0, 0, 0xc0) as u32),
    ]
}

/// The narrow bars below them: the colours in reverse, every other one
/// replaced by black.
pub open spec fn middle_bars() -> Seq<(u32, u32)> {
    seq![
        (92u32, rgb555(0, 0, 0xc0) as u32),
        (90u32, rgb555(0x13, 0x13, 0x13) as u32),
        (92u32, rgb555(0xc0, 0, 0xc0) as u32),
        (92u32, rgb555(0x13, 0x13, 0x13) as u32),
        (92u32, rgb555(0, 0xc0, 0xc0) as u32),
        (90u32, rgb555(0x13, 0x13, 0x13) as u32),
        (92u32, rgb555(0xc0, 0xc0, 0xc0) as u32),
    ]
}

/// The bars at the bottom: dark blue, white, purple, and black with the
/// three bars that lie just below, at and just above it.
pub open spec fn bottom_bars() -> Seq<(u32, u32)> {
    seq![
        (114u32, rgb555(0, 0x21, 0x4c) as u32),
        (114u32, rgb555(0xff, 0xff, 0xff) as u32),
        (114u32, rgb555(0x32, 0, 0x6a) as u32),
        (116u32, rgb555(0x13, 0x13, 0x13) as u32),
        (30u32, rgb555(0x09, 0x09, 0x09) as u32),
        (30u32, rgb555(0x13, 0x13, 0x13) as u32),
        (30u32, rgb555(0x1d, 0x1d, 0x1d) as u32),
        (92u32, rgb555(0x13, 0x13, 0x13) as u32),
    ]
}

/// Adds the test picture of colour bars to both lists, with the label of
/// frame `count` in the rows at the bottom.
pub fn colorbars(rb: &mut RenderlistBuilder, sb: &mut ScanlistBuilder, font: &Font, count: u32)
    requires
        old(rb).wf(),
        old(rb).open().is_none(),
        old(sb).wf(),
        old(sb).open().is_none(),
        font_is_complete(font),
        0 < font.height() <= 120,
        old(rb).room() >= 200,
        old(rb).data_room() >= font.bits().len(),
        old(sb).room() >= 100,
        old(sb).data().len() + 4 <= u32::MAX,
    ensures
        final(rb).wf(),
        final(rb).open().is_none(),
        final(rb).done() == old(rb).done().push(
            Stripe { height: (FRAME_HEIGHT - font.height()) as u32, body: Seq::empty() },
        ).push(
            text_render_stripe(font, LABEL@ + decimal(count as nat), final(rb).source()),
        ),
        final(rb).holds_source(font.bits()),
        final(rb).source() == old(rb).stored_at(font.bits()),
        final(rb).data() == old(rb).stored_data(font.bits()),
        final(rb).width() == old(rb).width(),
        final(rb).room() >= old(rb).room() - 200,
        final(rb).data_room() >= old(rb).data_room() - font.bits().len(),
        final(sb).wf(),
        final(sb).open().is_none(),
        final(sb).done() == old(sb).done().push(
            Stripe { height: 320, body: bar_words(top_bars()) },
        ).push(Stripe { height: 40, body: bar_words(middle_bars()) }).push(
            Stripe { height: (120 - font.height()) as u32, body: bar_words(bottom_bars()) },
        ).push(
            text_scan_stripe(font, LABEL@ + decimal(count as nat), old(sb).data().len() as int, 0),
        ),
        final(sb).data() == old(sb).data() + Palette1bpp::black_and_white_words(),
        final(sb).room() >= old(sb).room() - 100,
        total_height(final(rb).done()) == total_height(old(rb).done()) + FRAME_HEIGHT,
        total_height(final(sb).done()) == total_height(old(sb).done()) + FRAME_HEIGHT,
{
    let font_height = font.rows();
    rb.begin_stripe(FRAME_HEIGHT - font_height);
    rb.end_stripe();
    let top = [
        (92u32, rgb(0xc0, 0xc0, 0xc0)),
        (90u32, rgb(0xc0, 0xc0, 0)),
        (92u32, rgb(0, 0xc0, 0xc0)),
        (92u32, rgb(0, 0xc0, 0)),
        (92u32, rgb(0xc0, 0, 0xc0)),
        (90u32, rgb(0xc0, 0, 0)),
        (92u32, rgb(0, 0, 0xc0)),
    ];
    assert(top@ =~= top_bars());
    solid_stripe(sb, 320, top.as_slice());
    let middle = [
        (92u32, rgb(0, 0, 0xc0)),
        (90u32, rgb(0x13, 0x13, 0x13)),
        (92u32, rgb(0xc0, 0, 0xc0)),
        (92u32, rgb(0x13, 0x13, 0x13)),
        (92u32, rgb(0, 0xc0, 0xc0)),
        (90u32, rgb(0x13, 0x13, 0x13)),
        (92u32, rgb(0xc0, 0xc0, 0xc0)),
    ];
    assert(middle@ =~= middle_bars());
    solid_stripe(sb, 40, middle.as_slice());
    let bottom = [
        (114u32, rgb(0, 0x21, 0x4c)),
        (114u32, rgb(0xff, 0xff, 0xff)),
        (114u32, rgb(0x32, 0, 0x6a)),
        (116u32, rgb(0x13, 0x13, 0x13)),
        (30u32, rgb(0x09, 0x09, 0x09)),
        (30u32, rgb(0x13, 0x13, 0x13)),
        (30u32, rgb(0x1d, 0x1d, 0x1d)),
        (92u32, rgb(0x13, 0x13, 0x13)),
    ];
    assert(bottom@ =~= bottom_bars());
    solid_stripe(sb, 120 - font_height, bottom.as_slice());
    let label = frame_label(count);
    let palette = Palette1bpp::black_and_white();
    assert(palette@ =~= Palette1bpp::black_and_white_words());
    text_stripes(rb, sb, font, label.as_slice(), &palette, rgb(0, 0, 0));
    proof {
        let r0 = old(rb).done();
        let r1 = r0.push(
            Stripe { height: (FRAME_HEIGHT - font.height()) as u32, body: Seq::empty() },
        );
        lemma_program_push(r0, 0, r1.last());
        lemma_program_push(r1, 0, rb.done().last());
        let s0 = old(sb).done();
        let s1 = s0.push(Stripe { height: 320, body: bar_words(top_bars()) });
        let s2 = s1.push(Stripe { height: 40, body: bar_words(middle_bars()) });
        let s3 = s2.push(
            Stripe { height: (120 - font.height()) as u32, body: bar_words(bottom_bars()) },
        );
        lemma_program_push(s0, 0, s1.last());
        lemma_program_push(s1, 0, s2.last());
        lemma_program_push(s2, 0, s3.last());
        lemma_program_push(s3, 0, sb.done().last());
    }
}

/// How far the plane of tiles is moved to the left and up in frame
/// `count`: it goes round a square with sides of 60 pixels in 240 frames.
pub open spec fn tile_offset(count: u32) -> (int, int) {
    let frame = count % 240;
    if frame < 60 {
        (frame as int, 0)
    } else if frame < 120 {
        (60, frame - 60)
    } else if frame < 180 {
        (180 - frame, 60)
    } else {
        (0, 240 - frame)
    }
}

/// Number of tiles in a row of the picture when the first tile starts at
/// its pixel `first`.
pub open spec fn row_tiles(first: int) -> int {
    if first == 0 {
        40
    } else {
        41
    }
}

/// The instructions that draw tile `j` of a row whose first tile starts
/// at its pixel `first`: the rest of the first tile, whole tiles after it,
/// and of the last what the width of the picture has room for.
pub open spec fn tile_at(first: int, j: int, at: int) -> Seq<u32> {
    if j <= 0 {
        tile_records(0, first, 16, at)
    } else {
        let x = 16 - first + 16 * (j - 1);
        let end = if FRAME_WIDTH - x < 16 {
            FRAME_WIDTH - x
        } else {
            16
        };
        tile_records(x, 0, end, at)
    }
}

/// The instructions that draw the first `n` tiles of such a row.
pub open spec fn tiles_upto(first: int, n: int, at: int) -> Seq<u32>
    decreases n,
{
    if n <= 0 {
        Seq::empty()
    } else {
        tiles_upto(first, n - 1, at) + tile_at(first, n - 1, at)
    }
}

/// The instructions that draw a row of tiles across the picture, from a
/// tile that lies at `at` in the data of the list.
pub open spec fn tile_row_records(first: int, at: int) -> Seq<u32> {
    tiles_upto(first, row_tiles(first), at)
}

/// Adds a row of tiles to the open stripe of a render list: the first
/// tile from its pixel `first` on, and whole tiles after it up to the
/// width of the picture.
fn tile_row(rb: &mut RenderlistBuilder, tile: &[u32], first: u32)
    requires
        old(rb).wf(),
        old(rb).open().is_some(),
        old(rb).width() == FRAME_WIDTH,
        old(rb).x() == 0,
        first < 16,
        tile@.len() <= 32,
        old(rb).room() >= 5128,
        old(rb).data_room() >= 20512,
    ensures
        final(rb).extends(old(rb), tile_row_records(first as int, final(rb).source())),
        final(rb).holds_source(tile@),
        final(rb).source() == old(rb).stored_at(tile@),
        final(rb).data() == old(rb).stored_data(tile@),
        final(rb).x() == FRAME_WIDTH,
        final(rb).room() >= old(rb).room() - 5128,
        final(rb).data_room() >= old(rb).data_room() - 20512,
{
    rb.tile64(tile, first, 16);
    let ghost at = rb.source();
    let ghost body0 = old(rb).open().unwrap().body;
    let ghost mut j: int = 1;
    proof {
        reveal_with_fuel(tiles_upto, 2);
        assert(body0 + tile_records(0, first as int, 16, at) =~= body0 + tiles_upto(
            first as int,
            1,
            at,
        ));
    }
    let mut x = 16 - first;
    while x < FRAME_WIDTH
        invariant
            1 <= x <= FRAME_WIDTH,
            first < 16,
            tile@.len() <= 32,
            1 <= j <= row_tiles(first as int),
            x == if 16 - first + 16 * (j - 1) < FRAME_WIDTH {
                16 - first + 16 * (j - 1)
            } else {
                FRAME_WIDTH as int
            },
            x == FRAME_WIDTH ==> j == row_tiles(first as int),
            rb.extends(old(rb), tiles_upto(first as int, j, at)),
            rb.holds_source(tile@),
            rb.source() == at,
            at == old(rb).stored_at(tile@),
            rb.data() == old(rb).stored_data(tile@),
            body0 == old(rb).open().unwrap().body,
            rb.width() == FRAME_WIDTH,
            rb.x() == x,
            rb.room() >= old(rb).room() - 8 - 8 * x,
            rb.data_room() >= old(rb).data_room() - 32 - 32 * x,
            old(rb).room() >= 5128,
            old(rb).data_room() >= 20512,
        decreases FRAME_WIDTH - x,
    {
        let width = if FRAME_WIDTH - x < 16 { FRAME_WIDTH - x } else { 16 };
        let ghost before = *rb;
        rb.tile64(tile, 0, width);
        proof {
            let so_far = tiles_upto(first as int, j, at);
            let more = tile_at(first as int, j, at);
            assert(tile_end(x as int, FRAME_WIDTH as int, 0, width as int) == width);
            assert(tiles_upto(first as int, j + 1, at) == so_far + more);
            assert(body0 + so_far + more =~= body0 + (so_far + more));
            assert(rb.data().subrange(0, old(rb).data().len() as int) =~= before.data().subrange(
                0,
                old(rb).data().len() as int,
            ));
            j = j + 1;
        }
        x += width;
    }
}

/// The rows of the tile from row `top` on: what the first stripe of the
/// plane draws from.
pub open spec fn tile_source(top: int) -> Seq<u32> {
    TILE_DATA@.subrange(2 * top, 32)
}

/// The stripes of the plane of tiles from row `y` of the picture on,
/// where a row of tiles starts there: stripes of sixteen rows, and one
/// with the rows that are left of the `rows` of the plane.
pub open spec fn tile_stripes_from(y: int, rows: int, first: int, at: int) -> Seq<Stripe>
    decreases rows - y,
{
    if y >= rows {
        Seq::empty()
    } else {
        let h = if rows - y < 16 {
            rows - y
        } else {
            16
        };
        seq![Stripe { height: h as u32, body: tile_row_records(first, at) }] + tile_stripes_from(
            y + h,
            rows,
            first,
            at,
        )
    }
}

/// The stripes of the plane of tiles in frame `count`, `rows` rows high:
/// a first stripe with the rows of a tile that the plane has not moved
/// out of the picture, drawn from a tile at `at` in the data of the list,
/// and the stripes below it, drawn from the whole tile at `at_rest`.
pub open spec fn tile_stripes(count: u32, rows: int, at: int, at_rest: int) -> Seq<Stripe> {
    let first = tile_offset(count).0 % 16;
    let top = tile_offset(count).1 % 16;
    let h = if rows < 16 - top {
        rows
    } else {
        16 - top
    };
    seq![Stripe { height: h as u32, body: tile_row_records(first, at) }] + tile_stripes_from(
        h,
        rows,
        first,
        at_rest,
    )
}

/// Where the whole tile lies in the data of a list after the first
/// stripe of the plane has been added to the builder `rb`: where the
/// first stripe draws from, if that is the whole tile, and else behind
/// what the first stripe draws from.
pub open spec fn tile_rest_at(rb: &RenderlistBuilder, count: u32) -> int {
    let top = tile_offset(count).1 % 16;
    if top == 0 {
        rb.stored_at(tile_source(top))
    } else {
        rb.stored_data(tile_source(top)).len() as int
    }
}

/// The stripes that the plane of tiles adds to the builder `rb`.
pub open spec fn tile_picture(rb: &RenderlistBuilder, count: u32, rows: int) -> Seq<Stripe> {
    tile_stripes(
        count,
        rows,
        rb.stored_at(tile_source(tile_offset(count).1 % 16)),
        tile_rest_at(rb, count),
    )
}

/// Whether `words` lie at `at` in `data`.
pub open spec fn lies_at(data: Seq<u32>, at: int, words: Seq<u32>) -> bool {
    &&& 0 <= at
    &&& at + words.len() <= data.len()
    &&& data.subrange(at, at + words.len()) == words
}

/// Words stay where they lie when data is added behind them.
proof fn lemma_lies_at(data: Seq<u32>, longer: Seq<u32>, at: int, words: Seq<u32>)
    requires
        lies_at(data, at, words),
        data.len() <= longer.len(),
        longer.subrange(0, data.len() as int) == data,
    ensures
        lies_at(longer, at, words),
{
    assert forall|i: int| 0 <= i < words.len() implies longer[at + i] == words[i] by {
        assert(longer.subrange(0, data.len() as int)[at + i] == data[at + i]);
        assert(data.subrange(at, at + words.len())[i] == data[at + i]);
    }
    assert(longer.subrange(at, at + words.len()) =~= words);
}

/// Adds the test picture of a plane of tiles to both lists, moved as
/// frame `count` has it, with the label of the frame in the rows at the
/// bottom. The render list has to be one for the width of the picture.
pub fn tiles(
    rb: &mut RenderlistBuilder,
    sb: &mut ScanlistBuilder,
    font: &Font,
    palette: &Palette4bppFast,
    count: u32,
)
    requires
        old(rb).wf(),
        old(rb).open().is_none(),
        old(rb).width() == FRAME_WIDTH,
        old(rb).x() == 0,
        old(sb).wf(),
        old(sb).open().is_none(),
        font_is_complete(font),
        0 < font.height() < FRAME_HEIGHT,
        old(rb).room() >= 0x40_0000,
        old(rb).data_room() >= 0x100_0000 + font.bits().len(),
        old(sb).room() >= 20,
        old(sb).data().len() + 260 <= u32::MAX,
        palette@.len() == 256,
    ensures
        final(rb).wf(),
        final(rb).open().is_none(),
        final(rb).width() == FRAME_WIDTH,
        final(rb).x() == 0,
        final(rb).holds_source(font.bits()),
        final(rb).done() == (old(rb).done() + tile_picture(
            old(rb),
            count,
            FRAME_HEIGHT - font.height(),
        )).push(
            text_render_stripe(font, LABEL@ + decimal(count as nat), final(rb).source()),
        ),
        lies_at(
            final(rb).data(),
            old(rb).stored_at(tile_source(tile_offset(count).1 % 16)),
            tile_source(tile_offset(count).1 % 16),
        ),
        FRAME_HEIGHT - font.height() > 16 - tile_offset(count).1 % 16 ==> lies_at(
            final(rb).data(),
            tile_rest_at(old(rb), count),
            TILE_DATA@,
        ),
        final(rb).room() >= old(rb).room() - 0x40_0000,
        final(rb).data_room() >= old(rb).data_room() - 0x100_0000 - font.bits().len(),
        final(sb).wf(),
        final(sb).open().is_none(),
        final(sb).done() == old(sb).done().push(
            Stripe {
                height: (FRAME_HEIGHT - font.height()) as u32,
                body: seq![SCAN_PAL_4BPP, FRAME_WIDTH, old(sb).data().len() as u32],
            },
        ).push(
            text_scan_stripe(
                font,
                LABEL@ + decimal(count as nat),
                old(sb).data().len() as int + 256,
                0,
            ),
        ),
        final(sb).data() == old(sb).data() + palette@ + Palette1bpp::black_and_white_words(),
        final(sb).room() == old(sb).room() - 15,
        total_height(final(rb).done()) == total_height(old(rb).done()) + FRAME_HEIGHT,
        total_height(final(sb).done()) == total_height(old(sb).done()) + FRAME_HEIGHT,
{
    let anim_frame = count % 240;
    let (x_off, y_off) = if anim_frame < 60 {
        (anim_frame, 0)
    } else if anim_frame < 120 {
        (60, anim_frame - 60)
    } else if anim_frame < 180 {
        (180 - anim_frame, 60)
    } else {
        (0, 240 - anim_frame)
    };
    let tile_data = TILE_DATA;
    let font_height = font.rows();
    let tiled_height = FRAME_HEIGHT - font_height;
    let mut y: u32 = 0;
    let ghost first = (x_off % 16) as int;
    let ghost top = (y_off % 16) as int;
    let ghost at = rb.stored_at(tile_source(top));
    let ghost at_rest = tile_rest_at(old(rb), count);
    let ghost all = tile_picture(old(rb), count, tiled_height as int);
    let ghost mut drawn: Seq<Stripe> = Seq::empty();
    let ghost r_start = old(rb).done();
    proof {
        assert(rb.done() =~= r_start + drawn);
        assert(TILE_DATA@.subrange(0, 32) =~= TILE_DATA@);
    }
    while y < tiled_height
        invariant
            y <= tiled_height < FRAME_HEIGHT,
            tiled_height == FRAME_HEIGHT - font.height(),
            x_off <= 60,
            y_off <= 60,
            first == x_off % 16,
            top == y_off % 16,
            first == tile_offset(count).0 % 16,
            top == tile_offset(count).1 % 16,
            tile_data@ == TILE_DATA@,
            TILE_DATA@.subrange(0, 32) == TILE_DATA@,
            at == old(rb).stored_at(tile_source(top)),
            at_rest == tile_rest_at(old(rb), count),
            all == tile_picture(old(rb), count, tiled_height as int),
            r_start == old(rb).done(),
            rb.done() == r_start + drawn,
            y == 0 ==> drawn.len() == 0 && *rb == *old(rb),
            y > 0 ==> all == drawn + tile_stripes_from(y as int, tiled_height as int, first, at_rest),
            y > 0 ==> rb.stored_at(TILE_DATA@) == at_rest,
            y > 0 ==> lies_at(rb.data(), at, tile_source(top)),
            y > 16 - top ==> lies_at(rb.data(), at_rest, TILE_DATA@),
            y > 0 ==> y >= 16 - top || y == tiled_height,
            rb.wf(),
            rb.open().is_none(),
            rb.width() == FRAME_WIDTH,
            rb.x() == 0,
            total_height(rb.done()) == total_height(old(rb).done()) + y,
            rb.room() >= old(rb).room() - 5136 * y,
            rb.data_room() >= old(rb).data_room() - 20512 * y,
            old(rb).room() >= 0x40_0000,
            old(rb).data_room() >= 0x100_0000 + font.bits().len(),
        decreases tiled_height - y,
    {
        let ystart = if y == 0 { y_off % 16 } else { 0 };
        let this_height = if tiled_height - y < 16 - ystart {
            tiled_height - y
        } else {
            16 - ystart
        };
        rb.begin_stripe(this_height);
        let tile_top = vstd::slice::slice_subrange(tile_data.as_slice(), ystart as usize * 2, 32);
        let ghost opened = *rb;
        tile_row(rb, tile_top, x_off % 16);
        let ghost before = rb.done();
        let ghost drawn0 = drawn;
        rb.end_stripe();
        proof {
            lemma_program_push(before, 0, rb.done().last());
            let stripe = rb.done().last();
            assert(stripe.body =~= tile_row_records(first, rb.source()));
            drawn = drawn0.push(stripe);
            assert(rb.done() =~= r_start + drawn);
            if y == 0 {
                assert(tile_top@ == tile_source(top));
                assert(rb.source() == at);
                assert(all =~= drawn + tile_stripes_from(
                    this_height as int,
                    tiled_height as int,
                    first,
                    at_rest,
                ));
                if top != 0 {
                    assert(tile_source(top).len() != TILE_DATA@.len());
                }
            } else {
                assert(tile_top@ == TILE_DATA@);
                assert(rb.source() == at_rest);
                assert(all =~= drawn + tile_stripes_from(
                    y + this_height,
                    tiled_height as int,
                    first,
                    at_rest,
                ));
                lemma_lies_at(opened.data(), rb.data(), at, tile_source(top));
                if y > 16 - top {
                    lemma_lies_at(opened.data(), rb.data(), at_rest, TILE_DATA@);
                }
            }
        }
        y += this_height;
    }
    let ghost tiled = rb.done();
    let ghost tiled_data = rb.data();
    sb.begin_stripe(tiled_height);
    sb.pal_4bpp(FRAME_WIDTH, palette);
    proof {
        assert(Seq::<u32>::empty() + seq![
            SCAN_PAL_4BPP,
            FRAME_WIDTH,
            old(sb).data().len() as u32,
        ] =~= seq![SCAN_PAL_4BPP, FRAME_WIDTH, old(sb).data().len() as u32]);
    }
    sb.end_stripe();
    let label = frame_label(count);
    let bw = Palette1bpp::black_and_white();
    assert(bw@ =~= Palette1bpp::black_and_white_words());
    text_stripes(rb, sb, font, label.as_slice(), &bw, rgb(0, 0, 0));
    proof {
        lemma_program_push(tiled, 0, rb.done().last());
        assert(tile_stripes_from(tiled_height as int, tiled_height as int, first, at_rest)
            =~= Seq::<Stripe>::empty());
        assert(all =~= drawn);
        assert(rb.data().subrange(0, tiled_data.len() as int) =~= tiled_data);
        lemma_lies_at(tiled_data, rb.data(), at, tile_source(top));
        if tiled_height > 16 - top {
            lemma_lies_at(tiled_data, rb.data(), at_rest, TILE_DATA@);
        }
        let s0 = old(sb).done();
        let s1 = s0.push(
            Stripe {
                height: (FRAME_HEIGHT - font.height()) as u32,
                body: seq![SCAN_PAL_4BPP, FRAME_WIDTH, old(sb).data().len() as u32],
            },
        );
        lemma_program_push(s0, 0, s1.last());
        lemma_program_push(s1, 0, sb.done().last());
    }
}

/// Number of frames after which the demo starts over.
pub const DEMO_FRAMES: u32 = 600;

/// The pictures of the demo.
#[derive(Clone, Copy, PartialEq, Eq, Structural)]
pub enum Scene {
    Colorbars,
    Tiles,
    Life,
}

/// The picture that frame `frame` of a round of the demo shows: colour
/// bars for 120 frames, tiles for 240, and the Game of Life for 240.
pub open spec fn scene_of(frame: u32) -> Scene {
    if frame < 120 {
        Scene::Colorbars
    } else if frame < 360 {
        Scene::Tiles
    } else {
        Scene::Life
    }
}

/// The state of the demo: the number of frames shown, the place in the
/// round, and the board of the Game of Life.
pub struct Demo {
    counter: Counter,
    frame: u32,
    game: GameOfLife,
}

impl Demo {
    /// Number of frames shown, modulo `2^32`.
    pub closed spec fn count(&self) -> u32 {
        self.counter@
    }

    /// The place in the round.
    pub closed spec fn frame(&self) -> u32 {
        self.frame
    }

    /// The board of the Game of Life.
    pub closed spec fn game(&self) -> GameOfLife {
        self.game
    }

    /// The invariant of the state: the place lies within a round.
    pub closed spec fn wf(&self) -> bool {
        self.frame < DEMO_FRAMES
    }

    /// The place lies within a round.
    pub proof fn lemma_frame_in_round(&self)
        requires
            self.wf(),
        ensures
            self.frame() < DEMO_FRAMES,
    {
    }

    /// The demo before its first frame, with a board for the Game of
    /// Life.
    pub fn new(game: GameOfLife) -> (r: Self)
        ensures
            r.wf(),
            r.count() == 0,
            r.frame() == 0,
            r.game() == game,
    {
        Demo { counter: Counter::new(), frame: 0, game }
    }

    /// The picture that the next frame shows.
    pub fn scene(&self) -> (r: Scene)
        ensures
            r == scene_of(self.frame()),
    {
        if self.frame < 120 {
            Scene::Colorbars
        } else if self.frame < 360 {
            Scene::Tiles
        } else {
            Scene::Life
        }
    }
}

/// Adds the next frame of the demo to both lists, and moves the demo on
/// by a frame. The label of a frame shows the number of frames up to and
/// including it. In every fifth frame of the Game of Life, the first of
/// them included, the board moves on by a generation before it is shown,
/// unless it has reached the highest age that can be counted.
///
/// Returns whether the light is to be toggled.
pub fn demo(
    state: &mut Demo,
    rb: &mut RenderlistBuilder,
    sb: &mut ScanlistBuilder,
    font: &Font,
    palette: &Palette4bppFast,
) -> (toggle: bool)
    requires
        old(state).wf(),
        old(rb).wf(),
        old(rb).open().is_none(),
        old(rb).width() == FRAME_WIDTH,
        old(rb).x() == 0,
        old(sb).wf(),
        old(sb).open().is_none(),
        font_is_complete(font),
        0 < font.height(),
        2 * font.height() <= 135,
        old(rb).room() >= 0x40_0000,
        old(rb).data_room() >= 0x100_0000 + 2 * font.bits().len(),
        old(sb).room() >= 100,
        old(sb).data().len() + 260 <= u32::MAX,
        palette@.len() == 256,
    ensures
        final(state).wf(),
        toggle == (old(state).count() % 15 == 0),
        final(state).count() == if old(state).count() == u32::MAX {
            0
        } else {
            old(state).count() + 1
        },
        final(state).frame() == (old(state).frame() + 1) % (DEMO_FRAMES as int),
        ({
            let ticks = scene_of(old(state).frame()) == Scene::Life && (old(state).frame() - 360) % 5
                == 0 && old(state).game().age() < u32::MAX;
            &&& final(state).game().age() == if ticks {
                old(state).game().age() + 1
            } else {
                old(state).game().age() as int
            }
            &&& forall|x: int, y: int|
                0 <= x < BOARD_CELLS && 0 <= y < BOARD_HEIGHT ==> alive(
                    final(state).game().cells(),
                    x,
                    y,
                ) == if ticks {
                    life_rule(
                        alive(old(state).game().cells(), x, y),
                        neighbours(old(state).game().cells(), x, y),
                    )
                } else {
                    alive(old(state).game().cells(), x, y)
                }
        }),
        final(rb).wf(),
        final(rb).open().is_none(),
        final(rb).width() == FRAME_WIDTH,
        final(sb).wf(),
        final(sb).open().is_none(),
        total_height(final(rb).done()) == total_height(old(rb).done()) + FRAME_HEIGHT,
        total_height(final(sb).done()) == total_height(old(sb).done()) + FRAME_HEIGHT,
        match scene_of(old(state).frame()) {
            Scene::Colorbars => final(rb).done() == old(rb).done().push(
                Stripe { height: (FRAME_HEIGHT - font.height()) as u32, body: Seq::empty() },
            ).push(
                text_render_stripe(
                    font,
                    LABEL@ + decimal(final(state).count() as nat),
                    old(rb).stored_at(font.bits()),
                ),
            ),
            Scene::Tiles => {
                &&& final(rb).done() == (old(rb).done() + tile_picture(
                    old(rb),
                    final(state).count(),
                    FRAME_HEIGHT - font.height(),
                )).push(
                    text_render_stripe(
                        font,
                        LABEL@ + decimal(final(state).count() as nat),
                        final(rb).source(),
                    ),
                )
                &&& final(rb).holds_source(font.bits())
                &&& lies_at(
                    final(rb).data(),
                    old(rb).stored_at(tile_source(tile_offset(final(state).count()).1 % 16)),
                    tile_source(tile_offset(final(state).count()).1 % 16),
                )
                &&& FRAME_HEIGHT - font.height() > 16 - tile_offset(final(state).count()).1 % 16
                    ==> lies_at(
                    final(rb).data(),
                    tile_rest_at(old(rb), final(state).count()),
                    TILE_DATA@,
                )
            },
            Scene::Life => final(rb).done() == old(rb).done() + final(state).game().render_stripes(
                font,
                final(state).count(),
                old(rb).stored_at(final(state).game().cells()),
                final(rb).source(),
            ),
        },
        match scene_of(old(state).frame()) {
            Scene::Colorbars => final(sb).done() == old(sb).done().push(
                Stripe { height: 320, body: bar_words(top_bars()) },
            ).push(Stripe { height: 40, body: bar_words(middle_bars()) }).push(
                Stripe { height: (120 - font.height()) as u32, body: bar_words(bottom_bars()) },
            ).push(
                text_scan_stripe(
                    font,
                    LABEL@ + decimal(final(state).count() as nat),
                    old(sb).data().len() as int,
                    0,
                ),
            ),
            Scene::Tiles => final(sb).done() == old(sb).done().push(
                Stripe {
                    height: (FRAME_HEIGHT - font.height()) as u32,
                    body: seq![SCAN_PAL_4BPP, FRAME_WIDTH, old(sb).data().len() as u32],
                },
            ).push(
                text_scan_stripe(
                    font,
                    LABEL@ + decimal(final(state).count() as nat),
                    old(sb).data().len() as int + 256,
                    0,
                ),
            ),
            Scene::Life => final(sb).done() == old(sb).done() + final(state).game().scan_stripes(
                font,
                final(state).count(),
                old(sb).data().len() as int,
            ),
        },
{
    let toggle = state.counter.count();
    let count = state.counter.value();
    if state.frame < 120 {
        colorbars(rb, sb, font, count);
    } else if state.frame < 360 {
        tiles(rb, sb, font, palette, count);
    } else {
        if (state.frame - 360) % 5 == 0 && state.game.generation() < u32::MAX {
            state.game.tick();
        }
        state.game.render(rb, sb, font, count);
    }
    state.frame = if state.frame + 1 == DEMO_FRAMES { 0 } else { state.frame + 1 };
    toggle
}

} // verus!
