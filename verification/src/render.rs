//! Picture generation: colours and palettes, the display list of a frame,
//! and the primitives that hand work and frames from one party to the next.

pub mod font;
pub mod palette;
pub mod queue;
pub mod renderlist;
pub mod scheduler;
pub mod stripes;
pub mod swapcell;
pub mod text;

use vstd::prelude::*;
use crate::render::renderlist::{render_output, RenderView, Renderlist, RenderlistBuilder};
use crate::render::stripes::{row_in_stripe, stripe_of_row, total_height, Stripe, StripeCursor};
use crate::render::swapcell::SwapCell;
use crate::scanlist::{scan_output, written, ScanView, Scanlist, ScanlistBuilder, SCAN_SOLID};

verus! {

/// Size of a line buffer in words.
pub const LINE_BUF_SIZE: usize = 256;

/// The 15-bit colour of three 8-bit channels: the upper five bits of blue
/// in bits 0..5, of green in bits 5..10 and of red in bits 10..15.
pub open spec fn rgb555(r: u8, g: u8, b: u8) -> int {
    (b / 8) + 32 * (g / 8) + 1024 * (r / 8)
}

/// The 15-bit colour of a 24-bit colour `0xRRGGBB`; bits above the 24th
/// are ignored.
pub open spec fn xrgb555(color: u32) -> int {
    rgb555(((color / 0x1_0000) % 256) as u8, ((color / 0x100) % 256) as u8, (color % 256) as u8)
}

/// Packs three 8-bit channels into a pixel.
pub fn rgb(r: u8, g: u8, b: u8) -> (c: u32)
    ensures
        c == rgb555(r, g, b),
        c < 0x8000,
{
    assert(((b as u32) >> 3) | (((g as u32) & 0xf8) << 2) | (((r as u32) & 0xf8) << 7) == (b / 8)
        + 32 * (g / 8) + 1024 * (r / 8)) by (bit_vector);
    (b as u32 >> 3) | ((g as u32 & 0xf8) << 2) | ((r as u32 & 0xf8) << 7)
}

/// Packs a 24-bit colour of the form `0xRRGGBB` into a pixel.
///
/// Where the channels are at hand one by one, use [`rgb`].
pub fn xrgb(color: u32) -> (c: u32)
    ensures
        c == xrgb555(color),
        c < 0x8000,
{
    assert((color >> 16) as u8 == (color / 0x1_0000) % 256 && (color >> 8) as u8 == (color / 0x100)
        % 256 && color as u8 == color % 256) by (bit_vector);
    rgb(
        #[verifier::truncate]
        ((color >> 16) as u8),
        #[verifier::truncate]
        ((color >> 8) as u8),
        #[verifier::truncate]
        (color as u8),
    )
}

/// A line buffer: the pixels of one picture row as the render list leaves
/// them, packed into words from the lowest bit up.
#[derive(Clone, Copy)]
pub struct LineBuf {
    buf: [u32; LINE_BUF_SIZE],
}

impl View for LineBuf {
    type V = Seq<u32>;

    /// The words of the buffer.
    closed spec fn view(&self) -> Seq<u32> {
        self.buf@
    }
}

impl LineBuf {
    /// A buffer of zeros.
    pub fn zero() -> (r: Self)
        ensures
            r@.len() == LINE_BUF_SIZE,
            forall|i: int| 0 <= i < LINE_BUF_SIZE ==> r@[i] == 0,
    {
        let buf = [0; LINE_BUF_SIZE];
        LineBuf { buf }
    }

    /// A buffer that starts with `words`, as far as they fit, and is zero
    /// after them.
    pub fn from_words(words: &[u32]) -> (r: Self)
        ensures
            r@.len() == LINE_BUF_SIZE,
            forall|i: int|
                0 <= i < LINE_BUF_SIZE ==> r@[i] == if i < words@.len() {
                    words@[i]
                } else {
                    0
                },
    {
        let mut buf = [0; LINE_BUF_SIZE];
        let mut i: usize = 0;
        while i < LINE_BUF_SIZE && i < words.len()
            invariant
                i <= LINE_BUF_SIZE,
                i <= words@.len(),
                forall|j: int|
                    0 <= j < LINE_BUF_SIZE ==> buf@[j] == if j < i {
                        words@[j]
                    } else {
                        0
                    },
            decreases LINE_BUF_SIZE - i,
        {
            buf[i] = words[i];
            i += 1;
        }
        LineBuf { buf }
    }

    /// A line buffer has `LINE_BUF_SIZE` words.
    pub proof fn lemma_len(&self)
        ensures
            self@.len() == LINE_BUF_SIZE,
    {
    }

    /// The words of the buffer.
    pub fn words(&self) -> (r: &[u32; LINE_BUF_SIZE])
        ensures
            r@ == self@,
            r@.len() == LINE_BUF_SIZE,
    {
        &self.buf
    }

    /// Replaces word `i` of the buffer.
    pub fn set(&mut self, i: usize, word: u32)
        requires
            i < LINE_BUF_SIZE,
        ensures
            final(self)@ == old(self)@.update(i as int, word),
    {
        self.buf[i] = word;
    }
}

/// A complete display list: the program that renders the rows of a frame
/// into a line buffer, and the program that turns the line buffer into
/// transfer words. Both describe the same number of rows.
pub struct DisplayList {
    render: Renderlist,
    scan: Scanlist,
}

impl DisplayList {
    #[verifier::type_invariant]
    spec fn well_formed(self) -> bool {
        total_height(self.render@.stripes) == total_height(self.scan@.stripes)
    }

    /// The render list.
    pub closed spec fn render(&self) -> RenderView {
        self.render@
    }

    /// The scan list.
    pub closed spec fn scan(&self) -> ScanView {
        self.scan@
    }

    /// Number of rows of the frame.
    pub open spec fn height(&self) -> int {
        total_height(self.scan().stripes)
    }

    /// Whether this is the display list of `height` rows of `width` black
    /// pixels: a render list that draws nothing, and a scan list of one
    /// solid run.
    pub open spec fn is_black(&self, width: u32, height: u32) -> bool {
        &&& self.render().stripes == seq![Stripe { height, body: Seq::empty() }]
        &&& self.render().data == Seq::<u32>::empty()
        &&& self.render().width == width
        &&& self.scan().stripes == seq![Stripe { height, body: seq![SCAN_SOLID, width, 0u32] }]
        &&& self.scan().data == Seq::<u32>::empty()
        &&& self.height() == height
    }

    /// The line buffer after picture row `row` has been rendered into
    /// `line`.
    pub open spec fn rendered(&self, row: int, line: Seq<u32>) -> Seq<u32> {
        let stripes = self.render().stripes;
        render_output(
            stripes[stripe_of_row(stripes, row)].body,
            self.render().data,
            row_in_stripe(stripes, row),
            line,
        )
    }

    /// The transfer words of picture row `row` for a line buffer `line`.
    pub open spec fn scanned(&self, row: int, line: Seq<u32>) -> Seq<u32> {
        let stripes = self.scan().stripes;
        scan_output(stripes[stripe_of_row(stripes, row)].body, self.scan().data, line)
    }

    /// A display list that shows `height` rows of `width` black pixels.
    pub fn new(width: u32, height: u32) -> (r: Self)
        ensures
            r.is_black(width, height),
    {
        let mut rb = RenderlistBuilder::new(width);
        let mut sb = ScanlistBuilder::new(width, height);
        rb.begin_stripe(height);
        rb.end_stripe();
        sb.begin_stripe(height);
        let black = rgb(0, 0, 0);
        sb.solid(width, black);
        sb.end_stripe();
        let render = rb.build();
        let scan = sb.build();
        proof {
            let r = Stripe { height, body: Seq::<u32>::empty() };
            let s = Stripe { height, body: seq![SCAN_SOLID, width, 0u32] };
            assert(Seq::<Stripe>::empty().push(r) =~= seq![r]);
            assert(Seq::<u32>::empty() + seq![SCAN_SOLID, width, 0u32] =~= seq![
                SCAN_SOLID,
                width,
                0u32,
            ]);
            assert(Seq::<Stripe>::empty().push(s) =~= seq![s]);
            reveal_with_fuel(crate::render::stripes::rows_before, 2);
        }
        DisplayList { render, scan }
    }

    /// The display list of two lists, if they describe the same number of
    /// rows; else `None`.
    pub fn pair(render: Renderlist, scan: Scanlist) -> (r: Option<Self>)
        ensures
            r.is_some() == (total_height(render@.stripes) == total_height(scan@.stripes)),
            r.is_some() ==> r.unwrap().render() == render@ && r.unwrap().scan() == scan@,
    {
        let (_, render_rows) = render.walk();
        let (_, scan_rows) = scan.walk();
        if render_rows == scan_rows {
            Some(DisplayList { render, scan })
        } else {
            None
        }
    }

    /// The two lists.
    pub fn into_lists(self) -> (r: (Renderlist, Scanlist))
        ensures
            r.0@ == self.render(),
            r.1@ == self.scan(),
            total_height(r.0@.stripes) == total_height(r.1@.stripes),
    {
        proof {
            use_type_invariant(&self);
        }
        (self.render, self.scan)
    }

    /// The render list.
    pub fn render_list(&self) -> (r: &Renderlist)
        ensures
            r@ == self.render(),
            total_height(r@.stripes) == self.height(),
    {
        proof {
            use_type_invariant(self);
        }
        &self.render
    }

    /// The scan list.
    pub fn scan_list(&self) -> (r: &Scanlist)
        ensures
            r@ == self.scan(),
    {
        &self.scan
    }
}

/// Puts a first display list into the cell for the client to take. It
/// shows nothing: the client only uses its storage.
pub fn init_display_swapcell(cell: &mut SwapCell<DisplayList>, width: u32)
    ensures
        final(cell)@.taken().is_some(),
        final(cell)@.taken().unwrap().is_black(width, 0),
{
    cell.set_for_client(DisplayList::new(width, 0));
}

/// Starts a display list in the storage of the one that waits in the cell
/// for the client, or returns `None` if none waits there; the client then
/// has to wait for the system to hand one back.
pub fn start_display_list(cell: &mut SwapCell<DisplayList>) -> (r: Option<
    (RenderlistBuilder, ScanlistBuilder),
>)
    ensures
        r.is_some() == old(cell)@.taken().is_some(),
        final(cell)@ == old(cell)@.after_take(),
        r.is_some() ==> {
            let (rb, sb) = r.unwrap();
            &&& rb.wf()
            &&& rb.done() == Seq::<Stripe>::empty()
            &&& rb.open().is_none()
            &&& rb.data() == Seq::<u32>::empty()
            &&& rb.width() == old(cell)@.taken().unwrap().render().width
            &&& rb.x() == 0
            &&& rb.room() == u32::MAX
            &&& rb.data_room() == crate::render::renderlist::DATA_LIMIT
            &&& sb.wf()
            &&& sb.done() == Seq::<Stripe>::empty()
            &&& sb.open().is_none()
            &&& sb.data() == Seq::<u32>::empty()
            &&& sb.x() == 0
            &&& sb.room() == u32::MAX
        },
{
    match cell.try_take() {
        Some(display_list) => {
            let (render, scan) = display_list.into_lists();
            let rb = RenderlistBuilder::recycle(render);
            let sb = ScanlistBuilder::recycle(scan);
            Some((rb, sb))
        },
        None => None,
    }
}

/// Completes a display list and publishes it for the system.
///
/// The two lists have to describe the same number of rows.
pub fn end_display_list(cell: &mut SwapCell<DisplayList>, rb: RenderlistBuilder, sb: ScanlistBuilder)
    requires
        rb.wf(),
        rb.open().is_none(),
        sb.wf(),
        sb.open().is_none(),
        total_height(rb.done()) == total_height(sb.done()),
    ensures
        final(cell)@.swaps(),
        final(cell)@.value.is_some(),
        final(cell)@.value.unwrap().render() == (RenderView {
            stripes: rb.done(),
            data: rb.data(),
            width: rb.width() as u32,
        }),
        final(cell)@.value.unwrap().scan() == (ScanView { stripes: sb.done(), data: sb.data() }),
{
    let render = rb.build();
    let scan = sb.build();
    let display_list = DisplayList { render, scan };
    cell.set_for_system(display_list);
}

/// The state of scan-out within a frame: the display list that is shown
/// and the place in each of its two programs of the row that comes next.
pub struct ScanRender {
    display_list: DisplayList,
    render_cursor: StripeCursor,
    scan_cursor: StripeCursor,
    last_y: u32,
}

impl ScanRender {
    /// The display list that is shown.
    pub closed spec fn display_list(&self) -> DisplayList {
        self.display_list
    }

    /// The picture row that comes next.
    pub closed spec fn row(&self) -> int {
        self.display_list.scan.picture_row(self.scan_cursor)
    }

    /// The row number that was last asked for.
    pub closed spec fn last_y(&self) -> u32 {
        self.last_y
    }

    /// The invariant of the state: both places are places in the programs
    /// of the display list, and both stand for the same picture row.
    pub closed spec fn wf(&self) -> bool {
        &&& self.display_list.render.holds(self.render_cursor)
        &&& self.display_list.scan.holds(self.scan_cursor)
        &&& self.display_list.render.picture_row(self.render_cursor)
            == self.display_list.scan.picture_row(self.scan_cursor)
    }

    /// The row that comes next is a row of the display list, or the end
    /// of it.
    pub proof fn lemma_row_in_picture(&self)
        requires
            self.wf(),
        ensures
            0 <= self.row() <= self.display_list().height(),
    {
        self.display_list.scan.lemma_cursor_locates(self.scan_cursor);
    }

    /// Scan-out of a black picture of 640 by 480 pixels, before its first
    /// row.
    pub fn new() -> (r: Self)
        ensures
            r.wf(),
            r.row() == 0,
            r.last_y() == 0,
            r.display_list().is_black(640, 480),
    {
        let display_list = DisplayList::new(640, 480);
        let render_cursor = display_list.render.start();
        let scan_cursor = display_list.scan.start();
        ScanRender { display_list, render_cursor, scan_cursor, last_y: 0 }
    }

    /// Produces the transfer words of the next row of the frame.
    ///
    /// A row number that is not larger than the last starts a frame: the
    /// display list that waits in the cell for the system, if any, is
    /// swapped in, and the display list that is then shown starts over.
    /// After that the row that comes next is rendered into `line_buf` and
    /// from there turned into words in `video_buf`. When the display list
    /// has no more rows, both buffers stay as they are.
    ///
    /// Returns whether the display list was swapped; the client that
    /// waits for the cell should then be woken.
    pub fn render_scanline(
        &mut self,
        cell: &mut SwapCell<DisplayList>,
        line_buf: &mut LineBuf,
        video_buf: &mut [u32],
        y: u32,
    ) -> (swapped: bool)
        requires
            old(self).wf(),
        ensures
            final(self).wf(),
            final(self).last_y() == y,
            swapped == (y <= old(self).last_y() && old(cell)@.swaps()),
            final(cell)@ == if y <= old(self).last_y() {
                old(cell)@.after_swap(old(self).display_list())
            } else {
                old(cell)@
            },
            final(self).display_list() == if y <= old(self).last_y() {
                old(cell)@.swapped_out(old(self).display_list())
            } else {
                old(self).display_list()
            },
            ({
                let row = if y <= old(self).last_y() {
                    0
                } else {
                    old(self).row()
                };
                let shown = final(self).display_list();
                if row < shown.height() {
                    &&& final(line_buf)@ == shown.rendered(row, old(line_buf)@)
                    &&& final(video_buf)@ == written(
                        old(video_buf)@,
                        shown.scanned(row, final(line_buf)@),
                    )
                    &&& final(self).row() == row + 1
                } else {
                    &&& final(line_buf)@ == old(line_buf)@
                    &&& final(video_buf)@ == old(video_buf)@
                    &&& final(self).row() == row
                }
            }),
    {
        let swapped = self.begin_line(cell, y);
        self.render_row(line_buf, video_buf);
        swapped
    }

    /// The first half of [`ScanRender::render_scanline`], which alone
    /// needs the cell: a row number that is not larger than the last
    /// starts a frame, with the display list that waits in the cell for
    /// the system, if any, and from its first row.
    ///
    /// Returns whether the display list was swapped.
    pub fn begin_line(&mut self, cell: &mut SwapCell<DisplayList>, y: u32) -> (swapped: bool)
        requires
            old(self).wf(),
        ensures
            final(self).wf(),
            final(self).last_y() == y,
            swapped == (y <= old(self).last_y() && old(cell)@.swaps()),
            final(cell)@ == if y <= old(self).last_y() {
                old(cell)@.after_swap(old(self).display_list())
            } else {
                old(cell)@
            },
            final(self).display_list() == if y <= old(self).last_y() {
                old(cell)@.swapped_out(old(self).display_list())
            } else {
                old(self).display_list()
            },
            final(self).row() == if y <= old(self).last_y() {
                0
            } else {
                old(self).row()
            },
    {
        let mut swapped = false;
        if y <= self.last_y {
            swapped = cell.try_swap_by_system(&mut self.display_list);
            self.render_cursor = self.display_list.render.start();
            self.scan_cursor = self.display_list.scan.start();
        }
        self.last_y = y;
        swapped
    }

    /// The second half of [`ScanRender::render_scanline`]: the row that
    /// comes next is rendered into `line_buf` and from there turned into
    /// words in `video_buf`. When the display list has no more rows, both
    /// buffers stay as they are.
    ///
    /// Returns whether a row was produced.
    pub fn render_row(&mut self, line_buf: &mut LineBuf, video_buf: &mut [u32]) -> (produced: bool)
        requires
            old(self).wf(),
        ensures
            final(self).wf(),
            final(self).last_y() == old(self).last_y(),
            final(self).display_list() == old(self).display_list(),
            produced == (old(self).row() < old(self).display_list().height()),
            ({
                let row = old(self).row();
                let shown = old(self).display_list();
                if produced {
                    &&& final(line_buf)@ == shown.rendered(row, old(line_buf)@)
                    &&& final(video_buf)@ == written(
                        old(video_buf)@,
                        shown.scanned(row, final(line_buf)@),
                    )
                    &&& final(self).row() == row + 1
                } else {
                    &&& final(line_buf)@ == old(line_buf)@
                    &&& final(video_buf)@ == old(video_buf)@
                    &&& final(self).row() == row
                }
            }),
    {
        proof {
            use_type_invariant(&self.display_list);
            self.display_list.render.lemma_cursor_locates(self.render_cursor);
            self.display_list.scan.lemma_cursor_locates(self.scan_cursor);
        }
        if !self.display_list.render.at_end(&self.render_cursor) {
            self.display_list.render.render(&self.render_cursor, line_buf);
            self.display_list.render.advance(&mut self.render_cursor);
            self.display_list.scan.scan(&self.scan_cursor, line_buf, video_buf);
            self.display_list.scan.advance(&mut self.scan_cursor);
            true
        } else {
            false
        }
    }
}

} // verus!
