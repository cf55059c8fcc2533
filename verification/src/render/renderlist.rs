//! Render lists: the programs that fill a line buffer with the pixels of a
//! picture row.
//!
//! A render list is a program of stripes. The instructions of a stripe
//! assemble the words of a row from left to right: each takes a word of
//! source data for the row, shifts the pixels it wants to their place, and
//! adds them to the word that is being assembled or completes it. Every
//! instruction takes four words: the operation, the place of its source in
//! the data of the list, the number of words from one row of the source to
//! the next, and the shifts.

use vstd::prelude::*;
use vstd::string::StringSliceAdditionalSpecFns;
use crate::render::font::Font;
use crate::render::stripes::{
    fits,
    row_in_stripe, stripe_of_row,
    program_words, rows_before, start_of, total_height, Stripe, StripeBuffer, StripeCursor,
    StripeProgram, STOP,
};
use crate::render::LineBuf;

verus! {

/// Adds pixels to the word that is being assembled.
pub const RENDER_BLIT_SIMPLE: u32 = 1;

/// Adds pixels to the word that is being assembled and completes it.
pub const RENDER_BLIT_OUT: u32 = 2;

/// Adds pixels that complete the word and begin the next.
pub const RENDER_BLIT_STRADDLE: u32 = 3;

/// Adds pixels that complete the word and begin the next, and completes
/// that too.
pub const RENDER_BLIT_STRADDLE_OUT: u32 = 4;

/// Copies two words of source to two words of the line.
pub const RENDER_BLIT_64_ALIGNED: u32 = 5;

/// Adds two words of source to the line at a place within a word.
pub const RENDER_BLIT_64_STRADDLE: u32 = 6;

/// Number of words that the data of a list can hold.
pub const DATA_LIMIT: usize = 0x4000_0000;

/// Number of words from one row of a tile to the next: a row of a tile has
/// sixteen pixels of four bits.
pub const TILE_STRIDE: u32 = 2;

/// Whether `body` is a sequence of render instructions.
pub open spec fn render_body_ok(body: Seq<u32>) -> bool {
    &&& body.len() % 4 == 0
    &&& forall|j: int|
        0 <= j < body.len() / 4 ==> RENDER_BLIT_SIMPLE <= #[trigger] body[4 * j]
            <= RENDER_BLIT_64_STRADDLE
}

/// Whether all of `stripes` hold render instructions.
pub open spec fn render_stripes_ok(stripes: Seq<Stripe>) -> bool {
    forall|k: int| 0 <= k < stripes.len() ==> render_body_ok(#[trigger] stripes[k].body)
}

/// The operation for pixels that end at bit or pixel `next` of a word
/// with room for `full`: they begin the next word if they go beyond it,
/// and complete the word if they reach its end or if they are the last of
/// a run.
pub open spec fn blit_op(next: int, full: int, last: bool) -> u32 {
    if next > full {
        if last {
            RENDER_BLIT_STRADDLE_OUT
        } else {
            RENDER_BLIT_STRADDLE
        }
    } else if next == full || last {
        RENDER_BLIT_OUT
    } else {
        RENDER_BLIT_SIMPLE
    }
}

/// The shifts for `width` bits that lie at bit `offset` of a source word
/// and go to bit `x` of the line, one shift to a byte.
///
/// Where the bits fit the word of the line they are moved down to bit 0,
/// up to the top of the word, which drops what lies above them in the
/// source, and down to their place. Where they go beyond it they are moved
/// down to bit 0 and up to their place for the word that they complete;
/// for the word that they begin they are moved up to the top and down to
/// bit 0.
pub open spec fn blit_shifts(offset: int, width: int, x: int) -> int {
    let next = x + width;
    if next > 32 {
        offset + 0x100 * x + 0x1_0000 * (32 - (offset + width)) + 0x100_0000 * (64 - next)
    } else {
        offset + 0x100 * (32 - width) + 0x1_0000 * (32 - next)
    }
}

/// The instruction that draws a row of the glyph of `c` with the pen at
/// pixel `pen`, for a font whose rows lie at `at` in the data.
pub open spec fn glyph_record(font: &Font, c: u8, pen: int, at: int, last: bool) -> Seq<u32> {
    let width = font.widths()[c - font.first()] as int;
    let offset = font.offsets()[c - font.first()] as int;
    seq![
        blit_op(pen % 32 + width, 32, last),
        (at + offset / 32) as u32,
        font.stride(),
        blit_shifts(offset % 32, width, pen % 32) as u32,
    ]
}

/// The instructions that draw a row of the first `n` characters of
/// `text`, one for each character. The last character of the text
/// completes the word that it ends in.
pub open spec fn text_records(font: &Font, text: Seq<u8>, n: int, at: int) -> Seq<u32>
    decreases n,
{
    if n <= 0 {
        Seq::empty()
    } else {
        text_records(font, text, n - 1, at) + glyph_record(
            font,
            text[n - 1],
            font.pen(text, n - 1),
            at,
            n == text.len(),
        )
    }
}

/// The instruction that draws the pixels `start..end` of a word of eight
/// pixels of four bits, with the pen at pixel `x`.
pub open spec fn slice_record(x: int, start: int, end: int, source: int) -> Seq<u32> {
    let pen = 4 * (x % 8);
    let width = 4 * (end - start);
    seq![
        blit_op(pen + width, 32, false),
        source as u32,
        TILE_STRIDE,
        blit_shifts(4 * start, width, pen) as u32,
    ]
}

/// The instructions that copy `words` words of a row of a bitmap to the
/// line, one instruction to a word.
pub open spec fn bitmap_records(source: int, words: int, stride: u32) -> Seq<u32> {
    Seq::new(
        (4 * words) as nat,
        |i: int|
            if i % 4 == 0 {
                RENDER_BLIT_OUT
            } else if i % 4 == 1 {
                (source + i / 4) as u32
            } else if i % 4 == 2 {
                stride
            } else {
                0u32
            },
    )
}

/// The pixel up to which a tile is drawn: `end`, or less where the line
/// ends before it.
pub open spec fn tile_end(x: int, width: int, start: int, end: int) -> int {
    if x + (end - start) >= width {
        width - x + start
    } else {
        end
    }
}

/// The instructions that draw the pixels `start..end` of a row of a tile
/// of sixteen pixels, with the pen at pixel `x`: one instruction for a
/// whole tile, and else one for each of its two words, as far as pixels of
/// it are drawn.
pub open spec fn tile_records(x: int, start: int, end: int, at: int) -> Seq<u32> {
    if start == 0 && end == 16 {
        if x % 8 == 0 {
            seq![RENDER_BLIT_64_ALIGNED, at as u32, TILE_STRIDE, 0u32]
        } else {
            seq![
                RENDER_BLIT_64_STRADDLE,
                at as u32,
                TILE_STRIDE,
                (4 * (x % 8) + 0x100 * (32 - 4 * (x % 8))) as u32,
            ]
        }
    } else {
        let low_end = if end < 8 {
            end
        } else {
            8
        };
        let low = if start < 8 {
            slice_record(x, start, low_end, at)
        } else {
            Seq::empty()
        };
        let x_high = if start < 8 {
            x + (low_end - start)
        } else {
            x
        };
        let high_start = if start > 8 {
            start - 8
        } else {
            0
        };
        let high = if end > 8 {
            slice_record(x_high, high_start, end - 8, at + 1)
        } else {
            Seq::empty()
        };
        low + high
    }
}

/// `w` shifted up by `s` bits; by 32 bits or more, nothing is left.
pub open spec fn shl(w: u32, s: u32) -> u32 {
    if s < 32 {
        w << s
    } else {
        0
    }
}

/// `w` shifted down by `s` bits; by 32 bits or more, nothing is left.
pub open spec fn shr(w: u32, s: u32) -> u32 {
    if s < 32 {
        w >> s
    } else {
        0
    }
}

/// The word of the data at `at`; beyond the data there are zeros.
pub open spec fn fetch(data: Seq<u32>, at: int) -> u32 {
    if 0 <= at < data.len() {
        data[at]
    } else {
        0
    }
}

/// The state of the interpreter within a row: the word that is being
/// assembled, the place in the line that it goes to, and the line.
pub struct RenderState {
    pub acc: u32,
    pub pos: int,
    pub line: Seq<u32>,
}

impl RenderState {
    /// The state at the left of a row.
    pub open spec fn begin(line: Seq<u32>) -> Self {
        RenderState { acc: 0, pos: 0, line }
    }

    /// Adds bits to the word that is being assembled.
    pub open spec fn add(self, bits: u32) -> Self {
        RenderState { acc: self.acc | bits, pos: self.pos, line: self.line }
    }

    /// Completes the word and starts the next with `bits`.
    pub open spec fn carry(self, bits: u32) -> Self {
        RenderState { acc: bits, pos: self.pos + 1, line: self.store().line }
    }

    /// Completes the word: it is written to the line, if the line reaches
    /// that far, and the next word starts empty.
    pub open spec fn store(self) -> Self {
        RenderState {
            acc: 0,
            pos: self.pos + 1,
            line: if 0 <= self.pos < self.line.len() {
                self.line.update(self.pos, self.acc)
            } else {
                self.line
            },
        }
    }
}

/// The state after one instruction in row `y` of a stripe.
///
/// The instruction reads the word of its source for the row, and the
/// 64-bit operations the word after it too. The shifts apply in the order
/// of their bytes: down, up and down again for pixels that fit the word of
/// the line; down and up for the part that completes a word, then up and
/// down for the part that begins the next.
pub open spec fn render_op(
    opcode: u32,
    source: u32,
    stride: u32,
    shifts: u32,
    data: Seq<u32>,
    y: int,
    st: RenderState,
) -> RenderState {
    let at = source + y * stride;
    let w = fetch(data, at);
    let w1 = fetch(data, at + 1);
    let s0 = shifts & 0xff;
    let s1 = (shifts >> 8) & 0xff;
    let s2 = (shifts >> 16) & 0xff;
    let s3 = (shifts >> 24) & 0xff;
    if opcode == RENDER_BLIT_SIMPLE {
        st.add(shr(shl(shr(w, s0), s1), s2))
    } else if opcode == RENDER_BLIT_OUT {
        st.add(shr(shl(shr(w, s0), s1), s2)).store()
    } else if opcode == RENDER_BLIT_STRADDLE {
        st.add(shl(shr(w, s0), s1)).carry(shr(shl(w, s2), s3))
    } else if opcode == RENDER_BLIT_STRADDLE_OUT {
        st.add(shl(shr(w, s0), s1)).carry(shr(shl(w, s2), s3)).store()
    } else if opcode == RENDER_BLIT_64_ALIGNED {
        st.add(w).carry(w1).store()
    } else {
        st.add(shl(w, s0)).carry(shr(w, s1) | shl(w1, s0)).carry(shr(w1, s1))
    }
}

/// The state after the instructions of `body` from word `i` on.
pub open spec fn render_from(body: Seq<u32>, i: int, data: Seq<u32>, y: int, st: RenderState) -> RenderState
    decreases body.len() - i,
{
    if i < 0 || i + 4 > body.len() {
        st
    } else {
        render_from(
            body,
            i + 4,
            data,
            y,
            render_op(body[i], body[i + 1], body[i + 2], body[i + 3], data, y, st),
        )
    }
}

/// The line buffer after row `y` of a stripe with instructions `body` has
/// been rendered into `line`. A word that is not complete when the
/// instructions end is not written.
pub open spec fn render_output(body: Seq<u32>, data: Seq<u32>, y: int, line: Seq<u32>) -> Seq<u32> {
    render_from(body, 0, data, y, RenderState::begin(line)).line
}

/// What a render list holds: its stripes, the source data that they draw
/// from, and the width of the picture.
pub struct RenderView {
    pub stripes: Seq<Stripe>,
    pub data: Seq<u32>,
    pub width: u32,
}

/// A display list for rendering.
pub struct Renderlist {
    program: StripeProgram,
    data: Vec<u32>,
    width: u32,
}

/// A builder for render lists.
pub struct RenderlistBuilder {
    v: StripeBuffer,
    data: Vec<u32>,
    width: u32,
    x: u32,
    last_at: usize,
    last_len: usize,
}

impl View for Renderlist {
    type V = RenderView;

    closed spec fn view(&self) -> RenderView {
        RenderView { stripes: self.program@, data: self.data@, width: self.width }
    }
}

impl RenderlistBuilder {
    /// The stripes that are complete.
    pub closed spec fn done(&self) -> Seq<Stripe> {
        self.v.done()
    }

    /// The stripe that is being built.
    pub closed spec fn open(&self) -> Option<Stripe> {
        self.v.open()
    }

    /// The source data that has been stored.
    pub closed spec fn data(&self) -> Seq<u32> {
        self.data@
    }

    /// The width of the picture in pixels.
    pub closed spec fn width(&self) -> int {
        self.width as int
    }

    /// The pixel of the row at which the next tile is drawn.
    pub closed spec fn x(&self) -> int {
        self.x as int
    }

    /// The place in the data of the source that was stored last.
    pub closed spec fn source(&self) -> int {
        self.last_at as int
    }

    /// Number of words that can still be added to the program.
    pub closed spec fn room(&self) -> int {
        self.v.room()
    }

    /// Number of words that can still be added to the data.
    pub closed spec fn data_room(&self) -> int {
        DATA_LIMIT - self.data@.len()
    }

    /// The invariant of a builder: the program is one of render
    /// instructions.
    pub closed spec fn wf(&self) -> bool {
        &&& self.v.wf()
        &&& render_stripes_ok(self.v.done())
        &&& self.v.open().is_some() ==> render_body_ok(self.v.open().unwrap().body)
        &&& self.data@.len() <= DATA_LIMIT
        &&& self.last_at + self.last_len <= self.data@.len()
    }

    /// The sizes that the invariant bounds: the room is what the words of
    /// the stripes leave of the indices that a word of 32 bits can hold,
    /// the data stay within their limit, and the source that was stored
    /// last lies within the data.
    pub proof fn lemma_sizes(&self)
        requires
            self.wf(),
        ensures
            self.room() == u32::MAX - program_words(self.done(), 0).len() - match self.open() {
                Some(s) => s.len(),
                None => 0,
            },
            fits(self.done()),
            self.data_room() == DATA_LIMIT - self.data().len(),
            self.data().len() <= DATA_LIMIT,
            0 <= self.source(),
            0 <= self.source_len(),
            self.source() + self.source_len() <= self.data().len(),
    {
        self.v.lemma_room_left();
    }

    /// Whether the builder is what `old` is after `records` have been
    /// added to its open stripe. Source data is only ever added.
    pub open spec fn extends(&self, old: &Self, records: Seq<u32>) -> bool {
        &&& self.wf()
        &&& self.done() == old.done()
        &&& self.open() == Some(
            Stripe {
                height: old.open().unwrap().height,
                body: old.open().unwrap().body + records,
            },
        )
        &&& self.room() == old.room() - records.len()
        &&& self.width() == old.width()
        &&& old.data().len() <= self.data().len()
        &&& self.data().subrange(0, old.data().len() as int) == old.data()
    }

    /// Number of words of the source that was stored last.
    pub closed spec fn source_len(&self) -> int {
        self.last_len as int
    }

    /// Whether `words` are the source that was stored last.
    pub open spec fn holds_source(&self, words: Seq<u32>) -> bool {
        &&& 0 <= self.source()
        &&& self.source_len() == words.len()
        &&& self.source() + words.len() <= self.data().len()
        &&& self.data().subrange(self.source(), self.source() + words.len()) == words
    }

    /// The place in the data at which `words` lie after they have been
    /// stored: where they are if they are the source that was stored last,
    /// and else behind the data.
    pub open spec fn stored_at(&self, words: Seq<u32>) -> int {
        if self.holds_source(words) {
            self.source()
        } else {
            self.data().len() as int
        }
    }

    /// The data after `words` have been stored: as it is if they are the
    /// source that was stored last, and else with the words added.
    pub open spec fn stored_data(&self, words: Seq<u32>) -> Seq<u32> {
        if self.holds_source(words) {
            self.data()
        } else {
            self.data() + words
        }
    }

    /// A builder for an empty list for a picture of `width` pixels.
    pub fn new(width: u32) -> (r: Self)
        ensures
            r.wf(),
            r.done() == Seq::<Stripe>::empty(),
            r.open().is_none(),
            r.data() == Seq::<u32>::empty(),
            r.width() == width,
            r.x() == 0,
            r.room() == u32::MAX,
            r.data_room() == DATA_LIMIT,
    {
        RenderlistBuilder {
            v: StripeBuffer::new(),
            data: Vec::new(),
            width,
            x: 0,
            last_at: 0,
            last_len: 0,
        }
    }

    /// A builder for an empty list in the storage of a list that is no
    /// longer needed, for a picture of the same width.
    pub fn recycle(renderlist: Renderlist) -> (r: Self)
        ensures
            r.wf(),
            r.done() == Seq::<Stripe>::empty(),
            r.open().is_none(),
            r.data() == Seq::<u32>::empty(),
            r.width() == renderlist@.width,
            r.x() == 0,
            r.room() == u32::MAX,
            r.data_room() == DATA_LIMIT,
    {
        let mut data = renderlist.data;
        data.clear();
        RenderlistBuilder {
            v: StripeBuffer::recycle(renderlist.program),
            data,
            width: renderlist.width,
            x: 0,
            last_at: 0,
            last_len: 0,
        }
    }

    /// Whether enough room is left for `words` more words of program and
    /// `data` more words of data.
    pub fn has_room(&self, words: usize, data: usize) -> (r: bool)
        requires
            self.wf(),
        ensures
            r == (self.room() >= words && self.data_room() >= data),
    {
        self.v.has_room(words) && data <= DATA_LIMIT - self.data.len()
    }

    /// Opens a stripe of `height` rows.
    pub fn begin_stripe(&mut self, height: u32)
        requires
            old(self).wf(),
            old(self).open().is_none(),
            old(self).room() >= 3,
        ensures
            final(self).wf(),
            final(self).done() == old(self).done(),
            final(self).open() == Some(Stripe { height, body: Seq::empty() }),
            final(self).data() == old(self).data(),
            final(self).width() == old(self).width(),
            final(self).x() == old(self).x(),
            final(self).source() == old(self).source(),
            final(self).source_len() == old(self).source_len(),
            final(self).room() == old(self).room() - 3,
            final(self).data_room() == old(self).data_room(),
    {
        self.v.begin_stripe(height);
    }

    /// Completes the open stripe. The next stripe starts at the left
    /// again.
    pub fn end_stripe(&mut self)
        requires
            old(self).wf(),
            old(self).open().is_some(),
        ensures
            final(self).wf(),
            final(self).done() == old(self).done().push(old(self).open().unwrap()),
            final(self).open().is_none(),
            final(self).data() == old(self).data(),
            final(self).width() == old(self).width(),
            final(self).x() == 0,
            final(self).source() == old(self).source(),
            final(self).source_len() == old(self).source_len(),
            final(self).room() == old(self).room(),
            final(self).data_room() == old(self).data_room(),
    {
        self.v.end_stripe();
        self.x = 0;
    }

    /// The finished list.
    pub fn build(self) -> (r: Renderlist)
        requires
            self.wf(),
            self.open().is_none(),
        ensures
            r@.stripes == self.done(),
            r@.data == self.data(),
            r@.width == self.width(),
            fits(r@.stripes),
            r@.data.len() <= DATA_LIMIT,
    {
        let program = self.v.build();
        proof {
            use_type_invariant(&program);
        }
        Renderlist { program, data: self.data, width: self.width }
    }

    /// Adds an instruction to the open stripe.
    fn op(&mut self, opcode: u32, source: u32, stride: u32, shifts: u32)
        requires
            old(self).wf(),
            old(self).open().is_some(),
            old(self).room() >= 4,
            RENDER_BLIT_SIMPLE <= opcode <= RENDER_BLIT_64_STRADDLE,
        ensures
            final(self).extends(old(self), seq![opcode, source, stride, shifts]),
            final(self).data() == old(self).data(),
            final(self).x() == old(self).x(),
            final(self).source() == old(self).source(),
            final(self).source_len() == old(self).source_len(),
    {
        let ghost before = self.v.open().unwrap().body;
        self.v.push(opcode);
        self.v.push(source);
        self.v.push(stride);
        self.v.push(shifts);
        proof {
            let after = self.v.open().unwrap().body;
            assert(after =~= before + seq![opcode, source, stride, shifts]);
            let n = before.len() / 4;
            assert forall|j: int| 0 <= j < after.len() / 4 implies RENDER_BLIT_SIMPLE
                <= #[trigger] after[4 * j] <= RENDER_BLIT_64_STRADDLE by {
                if j < n {
                    assert(after[4 * j] == before[4 * j]);
                }
            }
            assert(self.data@.subrange(0, self.data@.len() as int) =~= self.data@);
        }
    }

    /// Whether the source that was stored last is `words`.
    fn stored_last(&self, words: &[u32]) -> (r: bool)
        requires
            self.wf(),
        ensures
            r == self.holds_source(words@),
    {
        if words.len() != self.last_len {
            return false;
        }
        let mut i: usize = 0;
        while i < words.len()
            invariant
                self.wf(),
                words@.len() == self.last_len,
                i <= words@.len(),
                forall|j: int| 0 <= j < i ==> self.data@[self.last_at + j] == words@[j],
            decreases words.len() - i,
        {
            if self.data[self.last_at + i] != words[i] {
                assert(self.data@.subrange(self.last_at as int, self.last_at + words@.len())[i as int]
                    != words@[i as int]);
                return false;
            }
            i += 1;
        }
        assert(self.data@.subrange(self.last_at as int, self.last_at + words@.len()) =~= words@);
        true
    }

    /// Stores source data with the list, unless it is what was stored
    /// last.
    fn store(&mut self, words: &[u32])
        requires
            old(self).wf(),
            old(self).holds_source(words@) || old(self).data_room() >= words@.len(),
        ensures
            final(self).wf(),
            final(self).done() == old(self).done(),
            final(self).open() == old(self).open(),
            final(self).room() == old(self).room(),
            final(self).width() == old(self).width(),
            final(self).x() == old(self).x(),
            final(self).holds_source(words@),
            final(self).source() == old(self).stored_at(words@),
            final(self).data() == old(self).stored_data(words@),
            old(self).data().len() <= final(self).data().len(),
            final(self).data().subrange(0, old(self).data().len() as int) == old(self).data(),
            final(self).data_room() == DATA_LIMIT - old(self).stored_data(words@).len(),
            final(self).data_room() >= old(self).data_room() - words@.len(),
    {
        if self.stored_last(words) {
            assert(self.data@.subrange(0, self.data@.len() as int) =~= self.data@);
            return ;
        }
        let at = self.data.len();
        self.data.extend_from_slice(words);
        self.last_at = at;
        self.last_len = words.len();
        assert(self.data@ =~= old(self).data@ + words@);
        assert(self.data@.subrange(at as int, at + words@.len()) =~= words@);
        assert(self.data@.subrange(0, at as int) =~= old(self).data@);
    }

    /// Adds an instruction that copies one word of `array` to the line:
    /// for row `y` of the stripe, word `y * stride`.
    ///
    /// The array is copied into the list.
    pub fn blit(&mut self, array: &[u32], stride: u32)
        requires
            old(self).wf(),
            old(self).open().is_some(),
            old(self).room() >= 4,
            old(self).holds_source(array@) || old(self).data_room() >= array@.len(),
        ensures
            final(self).extends(
                old(self),
                seq![RENDER_BLIT_OUT, final(self).source() as u32, stride, 0u32],
            ),
            final(self).holds_source(array@),
            final(self).source() == old(self).stored_at(array@),
            final(self).data() == old(self).stored_data(array@),
            final(self).x() == old(self).x(),
            final(self).data_room() == DATA_LIMIT - old(self).stored_data(array@).len(),
            final(self).data_room() >= old(self).data_room() - array@.len(),
    {
        self.store(array);
        self.op(RENDER_BLIT_OUT, self.last_at as u32, stride, 0);
    }

    /// Adds the instructions that copy the first `words` words of every
    /// row of a bitmap to the line: for row `y` of the stripe, the words
    /// from `y * stride` on.
    ///
    /// The bitmap is copied into the list, unless it is the source that
    /// the instruction before it drew from.
    pub fn blit_1bpp(&mut self, array: &[u32], words: u32, stride: u32)
        requires
            old(self).wf(),
            old(self).open().is_some(),
            old(self).room() >= 4 * words,
            old(self).holds_source(array@) || old(self).data_room() >= array@.len(),
        ensures
            final(self).extends(
                old(self),
                bitmap_records(final(self).source(), words as int, stride),
            ),
            final(self).holds_source(array@),
            final(self).source() == old(self).stored_at(array@),
            final(self).data() == old(self).stored_data(array@),
            final(self).x() == old(self).x(),
            final(self).data_room() == DATA_LIMIT - old(self).stored_data(array@).len(),
            final(self).data_room() >= old(self).data_room() - array@.len(),
    {
        self.store(array);
        let ghost stored = *self;
        let ghost body0 = self.open().unwrap().body;
        let source = self.last_at as u32;
        let mut k: u32 = 0;
        proof {
            assert(body0 + bitmap_records(source as int, 0, stride) =~= body0);
            self.v.lemma_room();
        }
        while k < words
            invariant
                k <= words,
                self.wf(),
                self.done() == stored.done(),
                self.open().is_some(),
                stored.open().is_some(),
                self.open().unwrap().height == stored.open().unwrap().height,
                self.open().unwrap().body == body0 + bitmap_records(source as int, k as int, stride),
                self.room() == stored.room() - 4 * k,
                stored.room() >= 4 * words,
                stored.room() <= u32::MAX,
                self.width() == stored.width(),
                self.data() == stored.data(),
                self.x() == stored.x(),
                self.source() == stored.source(),
                self.source_len() == stored.source_len(),
                source == stored.source(),
                source <= DATA_LIMIT,
            decreases words - k,
        {
            self.op(RENDER_BLIT_OUT, source + k, stride, 0);
            proof {
                assert(bitmap_records(source as int, k + 1, stride) =~= bitmap_records(
                    source as int,
                    k as int,
                    stride,
                ) + seq![RENDER_BLIT_OUT, (source + k) as u32, stride, 0u32]);
                assert(self.open().unwrap().body =~= body0 + bitmap_records(
                    source as int,
                    k + 1,
                    stride,
                ));
            }
            k += 1;
        }
        proof {
            let old_len = old(self).data().len() as int;
            assert(self.data().subrange(0, old_len) =~= stored.data().subrange(0, old_len));
            assert(self.open() =~= Some(
                Stripe {
                    height: old(self).open().unwrap().height,
                    body: old(self).open().unwrap().body + bitmap_records(
                        source as int,
                        words as int,
                        stride,
                    ),
                },
            ));
        }
    }

    /// Adds the instruction for the pixels `start..end` of a word of eight
    /// pixels of source, and moves the pen on by their number.
    fn tile_slice(&mut self, source: u32, start: u32, end: u32)
        requires
            old(self).wf(),
            old(self).open().is_some(),
            old(self).room() >= 4,
            start <= end <= 8,
            old(self).x() + (end - start) <= u32::MAX,
        ensures
            final(self).extends(
                old(self),
                slice_record(old(self).x(), start as int, end as int, source as int),
            ),
            final(self).data() == old(self).data(),
            final(self).x() == old(self).x() + (end - start),
            final(self).source() == old(self).source(),
            final(self).source_len() == old(self).source_len(),
    {
        let pen = 4 * (self.x % 8);
        let from = 4 * start;
        let width = 4 * (end - start);
        let next = pen + width;
        let op = if next > 32 {
            RENDER_BLIT_STRADDLE
        } else if next == 32 {
            RENDER_BLIT_OUT
        } else {
            RENDER_BLIT_SIMPLE
        };
        let mut shifts = from;
        if next > 32 {
            shifts += 0x100 * pen;
            shifts += 0x1_0000 * (32 - (from + width));
            shifts += 0x100_0000 * (64 - next);
        } else {
            shifts += 0x100 * (32 - width);
            shifts += 0x1_0000 * (32 - next);
        }
        self.op(op, source, TILE_STRIDE, shifts);
        self.x += end - start;
    }

    /// Adds the instructions that draw the pixels `start..end` of a tile:
    /// sixteen pixels of four bits to a row, two words of `tile` for every
    /// row of the stripe. A tile that goes beyond the width of the picture
    /// is cut off there.
    ///
    /// The tile is copied into the list, unless it is the source that the
    /// instruction before it drew from.
    #[verifier::spinoff_prover]
    #[verifier::rlimit(40)]
    pub fn tile64(&mut self, tile: &[u32], start: u32, end: u32)
        requires
            old(self).wf(),
            old(self).open().is_some(),
            old(self).room() >= 8,
            old(self).holds_source(tile@) || old(self).data_room() >= tile@.len(),
            start <= end <= 16,
            old(self).x() <= old(self).width(),
        ensures
            final(self).extends(
                old(self),
                tile_records(
                    old(self).x(),
                    start as int,
                    tile_end(old(self).x(), old(self).width(), start as int, end as int),
                    final(self).source(),
                ),
            ),
            final(self).holds_source(tile@),
            final(self).source() == old(self).stored_at(tile@),
            final(self).data() == old(self).stored_data(tile@),
            final(self).x() == old(self).x() + (tile_end(
                old(self).x(),
                old(self).width(),
                start as int,
                end as int,
            ) - start),
            final(self).x() <= final(self).width(),
            final(self).data_room() == DATA_LIMIT - old(self).stored_data(tile@).len(),
            final(self).data_room() >= old(self).data_room() - tile@.len(),
    {
        let mut end = end;
        if self.x as u64 + (end - start) as u64 >= self.width as u64 {
            end = self.width - self.x + start;
        }
        self.store(tile);
        let ghost stored = *self;
        let source = self.last_at as u32;
        if start == 0 && end == 16 {
            let offset = self.x % 8;
            if offset == 0 {
                self.op(RENDER_BLIT_64_ALIGNED, source, TILE_STRIDE, 0);
            } else {
                let off4 = offset * 4;
                let shift = off4 + 0x100 * (32 - off4);
                self.op(RENDER_BLIT_64_STRADDLE, source, TILE_STRIDE, shift);
            }
            self.x += 16;
        } else {
            let ghost x0 = self.x as int;
            let ghost low_end: int = if end < 8 { end as int } else { 8 };
            if start < 8 {
                self.tile_slice(source, start, if end < 8 { end } else { 8 });
            }
            let ghost mid = *self;
            if end > 8 {
                self.tile_slice(source + 1, if start > 8 { start - 8 } else { 0 }, end - 8);
            }
            proof {
                let low = if start < 8 {
                    slice_record(x0, start as int, low_end, source as int)
                } else {
                    Seq::empty()
                };
                let high = if end > 8 {
                    slice_record(
                        mid.x(),
                        if start > 8 {
                            start - 8
                        } else {
                            0
                        },
                        end - 8,
                        source + 1,
                    )
                } else {
                    Seq::empty()
                };
                let body0 = stored.open().unwrap().body;
                assert(self.open().unwrap().body =~= body0 + (low + high));
            }
        }
        proof {
            let old_len = old(self).data().len() as int;
            assert(self.data().subrange(0, old_len) =~= stored.data().subrange(0, old_len));
        }
    }

    /// Adds the instructions that draw a line of text, given as the bytes
    /// of its characters, from the left of the line buffer, one pixel to a
    /// bit, and returns its width in pixels.
    ///
    /// The rows of the font are copied into the list, unless they are the
    /// source that the instruction before them drew from.
    pub fn text_bytes(&mut self, font: &Font, bytes: &[u8]) -> (width: u32)
        requires
            old(self).wf(),
            old(self).open().is_some(),
            font.wf(),
            font.covers(bytes@),
            old(self).room() >= 4 * bytes@.len(),
            old(self).holds_source(font.bits()) || old(self).data_room() >= font.bits().len(),
            font.pen(bytes@, bytes@.len() as int) <= u32::MAX,
        ensures
            final(self).extends(
                old(self),
                text_records(
                    font,
                    bytes@,
                    bytes@.len() as int,
                    final(self).source(),
                ),
            ),
            final(self).holds_source(font.bits()),
            final(self).source() == old(self).stored_at(font.bits()),
            final(self).data() == old(self).stored_data(font.bits()),
            final(self).x() == old(self).x(),
            width == font.pen(bytes@, bytes@.len() as int),
            final(self).data_room() == DATA_LIMIT - old(self).stored_data(font.bits()).len(),
            final(self).data_room() >= old(self).data_room() - font.bits().len(),
    {
        self.store(font.words());
        let ghost stored = *self;
        let ghost body0 = self.open().unwrap().body;
        let source = self.last_at as u32;
        let n = bytes.len();
        let mut x: u32 = 0;
        let mut i: usize = 0;
        proof {
            assert(body0 + text_records(font, bytes@, 0, source as int) =~= body0);
            lemma_pen_monotonic(font, bytes@, 0, n as int);
        }
        while i < n
            invariant
                n == bytes@.len(),
                i <= n,
                font.wf(),
                font.covers(bytes@),
                font.pen(bytes@, n as int) <= u32::MAX,
                x == font.pen(bytes@, i as int),
                self.wf(),
                self.done() == stored.done(),
                self.open().is_some(),
                stored.open().is_some(),
                self.open().unwrap().height == stored.open().unwrap().height,
                self.open().unwrap().body == body0 + text_records(
                    font,
                    bytes@,
                    i as int,
                    source as int,
                ),
                self.room() == stored.room() - 4 * i,
                stored.room() >= 4 * n,
                self.width() == stored.width(),
                self.data() == stored.data(),
                self.x() == stored.x(),
                self.source() == stored.source(),
                self.source_len() == stored.source_len(),
                source == stored.source(),
                source <= DATA_LIMIT,
            decreases n - i,
        {
            let c = bytes[i];
            let width = font.glyph_width(c) as u32;
            let offset = font.glyph_offset(c) as u32;
            let last = i + 1 == n;
            let at = x % 32;
            let from = offset % 32;
            let next = at + width;
            let op = if next > 32 {
                if last {
                    RENDER_BLIT_STRADDLE_OUT
                } else {
                    RENDER_BLIT_STRADDLE
                }
            } else if next == 32 || last {
                RENDER_BLIT_OUT
            } else {
                RENDER_BLIT_SIMPLE
            };
            let mut shifts = from;
            if next > 32 {
                shifts += 0x100 * at;
                shifts += 0x1_0000 * (32 - (from + width));
                shifts += 0x100_0000 * (64 - next);
            } else {
                shifts += 0x100 * (32 - width);
                shifts += 0x1_0000 * (32 - next);
            }
            let ghost before = self.open().unwrap().body;
            self.op(op, source + offset / 32, font.row_stride(), shifts);
            proof {
                lemma_pen_monotonic(font, bytes@, i + 1, n as int);
                let record = glyph_record(font, c, x as int, source as int, last);
                assert(record =~= seq![op, (source + offset / 32) as u32, font.stride(), shifts]);
                assert(text_records(font, bytes@, i + 1, source as int) == text_records(
                    font,
                    bytes@,
                    i as int,
                    source as int,
                ) + record);
                assert(self.open().unwrap().body =~= body0 + text_records(
                    font,
                    bytes@,
                    i + 1,
                    source as int,
                ));
            }
            x += width;
            i += 1;
        }
        proof {
            let old_len = old(self).data().len() as int;
            assert(self.data().subrange(0, old_len) =~= stored.data().subrange(0, old_len));
            lemma_text_records_len(font, bytes@, n as int, source as int);
            assert(self.open() =~= Some(
                Stripe {
                    height: old(self).open().unwrap().height,
                    body: old(self).open().unwrap().body + text_records(
                        font,
                        bytes@,
                        n as int,
                        source as int,
                    ),
                },
            ));
        }
        x
    }

    /// Adds the instructions that draw a line of text from the left of the
    /// line buffer, one pixel to a bit, and returns its width in pixels.
    ///
    /// The rows of the font are copied into the list, unless they are the
    /// source that the instruction before them drew from.
    pub fn text(&mut self, font: &Font, text: &str) -> (width: u32)
        requires
            old(self).wf(),
            old(self).open().is_some(),
            font.wf(),
            font.covers(text.spec_bytes()),
            old(self).room() >= 4 * text.spec_bytes().len(),
            old(self).holds_source(font.bits()) || old(self).data_room() >= font.bits().len(),
            font.pen(text.spec_bytes(), text.spec_bytes().len() as int) <= u32::MAX,
        ensures
            final(self).extends(
                old(self),
                text_records(
                    font,
                    text.spec_bytes(),
                    text.spec_bytes().len() as int,
                    final(self).source(),
                ),
            ),
            final(self).holds_source(font.bits()),
            final(self).source() == old(self).stored_at(font.bits()),
            final(self).data() == old(self).stored_data(font.bits()),
            final(self).x() == old(self).x(),
            width == font.pen(text.spec_bytes(), text.spec_bytes().len() as int),
            final(self).data_room() == DATA_LIMIT - old(self).stored_data(font.bits()).len(),
            final(self).data_room() >= old(self).data_room() - font.bits().len(),
    {
        self.text_bytes(font, text.as_bytes())
    }
}

/// The bytes of the shifts of an instruction are the shifts that it was
/// made from.
pub proof fn lemma_shift_bytes(s0: u32, s1: u32, s2: u32, s3: u32)
    by (bit_vector)
    requires
        s0 < 256,
        s1 < 256,
        s2 < 256,
        s3 < 256,
    ensures
        ({
            let shifts = (s0 + 0x100 * s1 + 0x1_0000 * s2 + 0x100_0000 * s3) as u32;
            &&& s0 + 0x100 * s1 + 0x1_0000 * s2 + 0x100_0000 * s3 <= 0xffff_ffff
            &&& shifts & 0xff == s0
            &&& (shifts >> 8) & 0xff == s1
            &&& (shifts >> 16) & 0xff == s2
            &&& (shifts >> 24) & 0xff == s3
        }),
{
}

/// The `width` bits at bit `offset` of `w`, at bit 0.
pub open spec fn field(w: u32, offset: u32, width: u32) -> u32 {
    if width >= 32 {
        w >> offset
    } else {
        (w >> offset) & (((1u32 << width) - 1) as u32)
    }
}

/// The part of a field of bits that lies in the word of the pen when the
/// field is placed at bit `pen`.
pub open spec fn placed_low(bits: u32, pen: u32) -> u32 {
    bits << pen
}

/// The part of a field of bits that lies in the word after that of the
/// pen when the field is placed at bit `pen`.
pub open spec fn placed_high(bits: u32, pen: u32) -> u32 {
    if pen == 0 {
        0
    } else {
        bits >> ((32 - pen) as u32)
    }
}

/// The three shifts for bits that fit the word of the line leave exactly
/// those bits, at their place.
pub proof fn lemma_blit_fits(w: u32, offset: u32, width: u32, pen: u32)
    by (bit_vector)
    requires
        offset + width <= 32,
        pen + width <= 32,
    ensures
        shr(shl(shr(w, offset), (32 - width) as u32), (32 - (pen + width)) as u32) == placed_low(
            field(w, offset, width),
            pen,
        ),
        placed_high(field(w, offset, width), pen) == 0,
{
}

/// The two pairs of shifts for bits that go beyond the word of the line
/// leave the part in the word that they complete and the part in the word
/// that they begin.
pub proof fn lemma_blit_straddles(w: u32, offset: u32, width: u32, pen: u32)
    requires
        offset + width <= 32,
        pen < 32,
        pen + width > 32,
    ensures
        shl(shr(w, offset), pen) == placed_low(field(w, offset, width), pen),
        shr(shl(w, (32 - (offset + width)) as u32), (64 - (pen + width)) as u32) == placed_high(
            field(w, offset, width),
            pen,
        ),
{
    lemma_straddle_low(w >> offset, width, pen);
    let up = (32 - (offset + width)) as u32;
    let top = (32 - width) as u32;
    let down = (32 - pen) as u32;
    lemma_top_aligned(w, offset, width);
    lemma_shift_twice(w << up, top, down);
    assert((64 - (pen + width)) as u32 == top + down);
}

/// Moving bits up to the pen drops what lies more than `width` bits above
/// them, when the pen is so high that `width` bits do not fit.
proof fn lemma_straddle_low(v: u32, width: u32, pen: u32)
    by (bit_vector)
    requires
        width <= 32,
        pen < 32,
        pen + width > 32,
    ensures
        v << pen == (if width >= 32 {
            v
        } else {
            v & (((1u32 << width) - 1) as u32)
        }) << pen,
{
}

/// A field that is moved up to the top of its word and down to bit 0 is
/// left alone.
proof fn lemma_top_aligned(w: u32, offset: u32, width: u32)
    by (bit_vector)
    requires
        0 < width,
        offset + width <= 32,
    ensures
        (w << ((32 - (offset + width)) as u32)) >> ((32 - width) as u32) == field(w, offset, width),
{
}

/// Two shifts down are one shift by their sum.
proof fn lemma_shift_twice(x: u32, a: u32, b: u32)
    by (bit_vector)
    requires
        a + b < 32,
    ensures
        (x >> a) >> b == x >> ((a + b) as u32),
{
}

/// What an instruction for `width` bits at bit `offset` of its source
/// does with the pen at bit `pen` of the word that is being assembled:
/// the bits are added at the pen. Bits that go beyond the word complete
/// it and begin the next; bits that reach its end, or end a run, complete
/// it.
pub proof fn lemma_blit_op(
    source: u32,
    stride: u32,
    offset: u32,
    width: u32,
    pen: u32,
    last: bool,
    data: Seq<u32>,
    y: int,
    st: RenderState,
)
    requires
        offset + width <= 32,
        pen < 32,
    ensures
        ({
            let opcode = blit_op(pen + width, 32, last);
            let shifts = blit_shifts(offset as int, width as int, pen as int) as u32;
            let bits = field(fetch(data, source + y * stride), offset, width);
            let low = placed_low(bits, pen);
            let high = placed_high(bits, pen);
            let after = render_op(opcode, source, stride, shifts, data, y, st);
            if pen + width > 32 {
                if last {
                    after == st.add(low).carry(high).store()
                } else {
                    after == st.add(low).carry(high)
                }
            } else if pen + width == 32 || last {
                after == st.add(low).store()
            } else {
                after == st.add(low)
            }
        }),
{
    let w = fetch(data, source + y * stride);
    if pen + width > 32 {
        lemma_blit_straddles(w, offset, width, pen);
        lemma_shift_bytes(
            offset,
            pen,
            (32 - (offset + width)) as u32,
            (64 - (pen + width)) as u32,
        );
    } else {
        lemma_blit_fits(w, offset, width, pen);
        lemma_shift_bytes(offset, (32 - width) as u32, (32 - (pen + width)) as u32, 0);
    }
}

/// Every character takes one instruction of four words.
pub proof fn lemma_text_records_len(font: &Font, text: Seq<u8>, n: int, at: int)
    requires
        0 <= n,
    ensures
        text_records(font, text, n, at).len() == 4 * n,
    decreases n,
{
    if n > 0 {
        lemma_text_records_len(font, text, n - 1, at);
    }
}

/// No glyph is wider than 32 pixels, so `n` characters are at most `32 n`
/// pixels wide.
pub proof fn lemma_pen_bound(font: &Font, text: Seq<u8>, n: int)
    requires
        font.wf(),
        font.covers(text),
        0 <= n <= text.len(),
    ensures
        0 <= font.pen(text, n) <= 32 * n,
    decreases n,
{
    if n > 0 {
        lemma_pen_bound(font, text, n - 1);
        let g = text[n - 1] - font.first();
        assert(font.has_glyph(text[n - 1]));
        assert(font.offsets()[g] % 32 + font.widths()[g] <= 32);
    }
}

/// The pen only moves to the right.
pub proof fn lemma_pen_monotonic(font: &Font, text: Seq<u8>, i: int, n: int)
    requires
        0 <= i <= n,
    ensures
        0 <= font.pen(text, i) <= font.pen(text, n),
    decreases n,
{
    if i < n {
        lemma_pen_monotonic(font, text, i, n - 1);
    } else if n > 0 {
        lemma_pen_monotonic(font, text, n - 1, n - 1);
    }
}

impl Renderlist {
    /// The invariant of a list: its program is one of render
    /// instructions.
    #[verifier::type_invariant]
    pub closed spec fn wf(&self) -> bool {
        &&& self.program.wf()
        &&& render_stripes_ok(self.program@)
        &&& self.data@.len() <= DATA_LIMIT
    }

    /// The words of the program.
    pub fn get(&self) -> (r: &[u32])
        ensures
            r@ == program_words(self@.stripes, 0),
            fits(self@.stripes),
    {
        proof {
            use_type_invariant(self);
        }
        self.program.words()
    }

    /// The source data of the list.
    pub fn data(&self) -> (r: &[u32])
        ensures
            r@ == self@.data,
            r@.len() <= DATA_LIMIT,
    {
        proof {
            use_type_invariant(self);
        }
        self.data.as_slice()
    }

    /// The width of the picture in pixels.
    pub fn width(&self) -> (r: u32)
        ensures
            r == self@.width,
    {
        self.width
    }

    /// Walks the stripes by the indices in their headers and returns how
    /// many there are and how many rows they have together.
    pub fn walk(&self) -> (r: (usize, u64))
        ensures
            r.0 == self@.stripes.len(),
            r.1 == total_height(self@.stripes),
    {
        proof {
            use_type_invariant(self);
        }
        self.program.walk()
    }

    /// The word of the data at `at`, or zero beyond the data.
    fn fetch(&self, at: u64) -> (r: u32)
        ensures
            r == fetch(self@.data, at as int),
    {
        if at < self.data.len() as u64 {
            self.data[at as usize]
        } else {
            0
        }
    }

    /// `w` shifted up by `s` bits.
    fn shl(w: u32, s: u32) -> (r: u32)
        ensures
            r == shl(w, s),
    {
        if s < 32 {
            w << s
        } else {
            0
        }
    }

    /// `w` shifted down by `s` bits.
    fn shr(w: u32, s: u32) -> (r: u32)
        ensures
            r == shr(w, s),
    {
        if s < 32 {
            w >> s
        } else {
            0
        }
    }

    /// Writes a complete word to the line, if the line reaches that far.
    fn store(line: &mut LineBuf, pos: usize, acc: u32)
        ensures
            final(line)@ == (RenderState { acc, pos: pos as int, line: old(line)@ }).store().line,
            final(line)@.len() == crate::render::LINE_BUF_SIZE,
    {
        proof {
            line.lemma_len();
        }
        if pos < crate::render::LINE_BUF_SIZE {
            line.set(pos, acc);
        }
    }

    /// Renders a row of the stripe that the cursor is in into `line`: the
    /// row of the cursor.
    #[verifier::spinoff_prover]
    pub fn render(&self, cursor: &StripeCursor, line: &mut LineBuf)
        requires
            self.holds(*cursor),
            cursor.index() < self@.stripes.len(),
        ensures
            final(line)@ == render_output(
                self@.stripes[cursor.index()].body,
                self@.data,
                cursor.row(),
                old(line)@,
            ),
    {
        proof {
            use_type_invariant(self);
        }
        let ghost body = self@.stripes[cursor.index()].body;
        let ghost data = self@.data;
        let ghost target = render_from(body, 0, data, cursor.row(), RenderState::begin(line@));
        let y = cursor.stripe_row() as u64;
        let mut acc: u32 = 0;
        let mut pos: usize = 0;
        let mut i: usize = 0;
        proof {
            use_type_invariant(&self.program);
            self.program.lemma_stripe_fits(cursor.index());
            line.lemma_len();
        }
        loop
            invariant
                self.wf(),
                self.holds(*cursor),
                cursor.index() < self@.stripes.len(),
                body == self@.stripes[cursor.index()].body,
                data == self@.data,
                render_body_ok(body),
                body.len() + 3 <= u32::MAX,
                y == cursor.row(),
                i % 4 == 0,
                i <= body.len(),
                2 * i >= 4 * pos,
                line@.len() == crate::render::LINE_BUF_SIZE,
                render_from(
                    body,
                    i as int,
                    data,
                    y as int,
                    RenderState { acc, pos: pos as int, line: line@ },
                ) == target,
            ensures
                line@ == target.line,
            decreases body.len() - i,
        {
            let opcode = self.program.body_word(cursor, i);
            if opcode == STOP {
                proof {
                    if i < body.len() {
                        assert(body[4 * (i as int / 4)] == body[i as int]);
                    }
                }
                break ;
            }
            proof {
                assert(i < body.len());
                assert(body[4 * (i as int / 4)] == body[i as int]);
            }
            let source = self.program.body_word(cursor, i + 1);
            let stride = self.program.body_word(cursor, i + 2);
            let shifts = self.program.body_word(cursor, i + 3);
            assert(y * stride <= 0xffff_ffff * 0xffff_ffff) by (nonlinear_arith)
                requires
                    0 <= y <= 0xffff_ffff,
                    0 <= stride <= 0xffff_ffff,
            ;
            let at = source as u64 + y * stride as u64;
            let w = self.fetch(at);
            let s0 = shifts & 0xff;
            let s1 = (shifts >> 8) & 0xff;
            let s2 = (shifts >> 16) & 0xff;
            let s3 = (shifts >> 24) & 0xff;
            if opcode == RENDER_BLIT_SIMPLE {
                acc |= Self::shr(Self::shl(Self::shr(w, s0), s1), s2);
            } else if opcode == RENDER_BLIT_OUT {
                acc |= Self::shr(Self::shl(Self::shr(w, s0), s1), s2);
                Self::store(line, pos, acc);
                pos += 1;
                acc = 0;
            } else if opcode == RENDER_BLIT_STRADDLE {
                acc |= Self::shl(Self::shr(w, s0), s1);
                Self::store(line, pos, acc);
                pos += 1;
                acc = Self::shr(Self::shl(w, s2), s3);
            } else if opcode == RENDER_BLIT_STRADDLE_OUT {
                acc |= Self::shl(Self::shr(w, s0), s1);
                Self::store(line, pos, acc);
                acc = Self::shr(Self::shl(w, s2), s3);
                Self::store(line, pos + 1, acc);
                pos += 2;
                acc = 0;
            } else if opcode == RENDER_BLIT_64_ALIGNED {
                let w1 = self.fetch(at + 1);
                acc |= w;
                Self::store(line, pos, acc);
                acc = w1;
                Self::store(line, pos + 1, acc);
                pos += 2;
                acc = 0;
            } else {
                let w1 = self.fetch(at + 1);
                acc |= Self::shl(w, s0);
                Self::store(line, pos, acc);
                acc = Self::shr(w, s1) | Self::shl(w1, s0);
                Self::store(line, pos + 1, acc);
                pos += 2;
                acc = Self::shr(w1, s1);
            }
            i = i + 4;
        }
    }

    /// Whether `cursor` is a place in the program of this list.
    pub open spec fn holds(&self, cursor: StripeCursor) -> bool {
        &&& 0 <= cursor.index() <= self@.stripes.len()
        &&& cursor.pc() == start_of(self@.stripes, cursor.index())
        &&& cursor.index() < self@.stripes.len() ==> 0 <= cursor.row()
            < self@.stripes[cursor.index()].height
        &&& cursor.index() == self@.stripes.len() ==> cursor.row() == 0
    }

    /// The row of the picture that a cursor stands for.
    pub open spec fn picture_row(&self, cursor: StripeCursor) -> int {
        rows_before(self@.stripes, cursor.index()) + cursor.row()
    }

    /// A cursor stands in the stripe that its picture row lies in.
    pub proof fn lemma_cursor_locates(&self, cursor: StripeCursor)
        requires
            self.holds(cursor),
        ensures
            0 <= self.picture_row(cursor) <= total_height(self@.stripes),
            stripe_of_row(self@.stripes, self.picture_row(cursor)) == cursor.index(),
            row_in_stripe(self@.stripes, self.picture_row(cursor)) == cursor.row(),
            cursor.index() < self@.stripes.len() <==> self.picture_row(cursor) < total_height(
                self@.stripes,
            ),
    {
        self.program.lemma_cursor_locates(cursor);
    }

    /// The cursor at the first row of the picture.
    pub fn start(&self) -> (r: StripeCursor)
        ensures
            self.holds(r),
            self.picture_row(r) == 0,
    {
        proof {
            use_type_invariant(self);
        }
        self.program.start()
    }

    /// Whether the cursor has run past the last row.
    pub fn at_end(&self, cursor: &StripeCursor) -> (r: bool)
        requires
            self.holds(*cursor),
        ensures
            r == (cursor.index() == self@.stripes.len()),
            r == (self.picture_row(*cursor) == total_height(self@.stripes)),
    {
        proof {
            use_type_invariant(self);
        }
        self.program.at_end(cursor)
    }

    /// Moves the cursor on by one row.
    pub fn advance(&self, cursor: &mut StripeCursor)
        requires
            self.holds(*old(cursor)),
            old(cursor).index() < self@.stripes.len(),
        ensures
            self.holds(*final(cursor)),
            self.picture_row(*final(cursor)) == self.picture_row(*old(cursor)) + 1,
    {
        proof {
            use_type_invariant(self);
        }
        self.program.advance(cursor)
    }
}

} // verus!
