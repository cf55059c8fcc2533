//! Scan lists: the programs that turn a line buffer, or a constant, into
//! the transfer words of a picture row.
//!
//! A scan list is a program of stripes. The instructions of a stripe say,
//! from left to right, how the pixels of each of its rows come about: a
//! run of one colour, or a run of pixels from the line buffer that a
//! palette turns into colours. Every instruction takes three words: the
//! operation, the number of pixels, and the colour or the place of the
//! palette in the data of the list.

use vstd::prelude::*;
use crate::dvi::tmds::TmdsPair;
use crate::render::palette::{pixel_pair, Palette1bpp, Palette4bppFast};
use crate::render::LineBuf;
use crate::render::stripes::{
    row_in_stripe, stripe_of_row,
    total_height, Stripe, StripeBuffer, StripeCursor, StripeProgram, STOP,
};

verus! {

/// A run of one colour.
pub const SCAN_SOLID: u32 = 1;

/// A run of pixels of one bit through a palette of four words.
pub const SCAN_PAL_1BPP: u32 = 2;

/// A run of pixels of four bits through a palette of 256 words.
pub const SCAN_PAL_4BPP: u32 = 3;

/// A run of one transfer word: a pair of TMDS symbols for a lane.
pub const SCAN_SOLID_TMDS: u32 = 4;

/// Number of words that the palette of an operation takes in the data of
/// a list; 0 for an operation without palette.
pub open spec fn palette_len(opcode: u32) -> int {
    if opcode == SCAN_PAL_1BPP {
        4
    } else if opcode == SCAN_PAL_4BPP {
        256
    } else {
        0
    }
}

/// Whether `body` is a sequence of scan instructions whose palettes lie
/// within data of `data_len` words.
pub open spec fn scan_body_ok(body: Seq<u32>, data_len: int) -> bool {
    &&& body.len() % 3 == 0
    &&& forall|j: int|
        0 <= j < body.len() / 3 ==> {
            &&& SCAN_SOLID <= #[trigger] body[3 * j] <= SCAN_SOLID_TMDS
            &&& palette_len(body[3 * j]) > 0 ==> body[3 * j + 2] + palette_len(body[3 * j])
                <= data_len
        }
}

/// Whether all of `stripes` hold scan instructions.
pub open spec fn scan_stripes_ok(stripes: Seq<Stripe>, data_len: int) -> bool {
    forall|k: int| 0 <= k < stripes.len() ==> scan_body_ok(#[trigger] stripes[k].body, data_len)
}

/// Number of bits that an operation reads from the line buffer for every
/// pixel.
pub open spec fn bits_per_pixel(opcode: u32) -> int {
    if opcode == SCAN_PAL_1BPP {
        1
    } else if opcode == SCAN_PAL_4BPP {
        4
    } else {
        0
    }
}

/// The bits of `line` from bit `bit` on, as far as they lie in the same
/// word and under `mask`. Beyond the end of the line there are zeros.
pub open spec fn line_field(line: Seq<u32>, bit: int, mask: u32) -> u32 {
    if 0 <= bit / 32 < line.len() {
        (line[bit / 32] >> ((bit % 32) as u32)) & mask
    } else {
        0
    }
}

/// The place in its palette of the word for the two pixels that start at
/// bit `bit` of the line: the first pixel in the low bits of the index.
pub open spec fn pair_index(opcode: u32, line: Seq<u32>, bit: int) -> int {
    if opcode == SCAN_PAL_1BPP {
        line_field(line, bit, 1) + 2 * line_field(line, bit + 1, 1)
    } else {
        line_field(line, bit, 0xf) + 16 * line_field(line, bit + 4, 0xf)
    }
}

/// The `k`-th transfer word that an instruction produces when it starts to
/// read the line at bit `in_bit`. A solid run of a colour repeats the
/// colour in both pixels of the word; a solid run of a pair of symbols
/// repeats the pair; a palette run looks the word up for its two pixels.
pub open spec fn op_word(
    opcode: u32,
    arg: u32,
    data: Seq<u32>,
    line: Seq<u32>,
    in_bit: int,
    k: int,
) -> u32 {
    if opcode == SCAN_SOLID {
        pixel_pair(arg, arg)
    } else if opcode == SCAN_SOLID_TMDS {
        arg
    } else {
        data[arg + pair_index(opcode, line, in_bit + 2 * k * bits_per_pixel(opcode))]
    }
}

/// The transfer words that an instruction produces: one for every two
/// pixels of its run.
pub open spec fn op_output(
    opcode: u32,
    count: u32,
    arg: u32,
    data: Seq<u32>,
    line: Seq<u32>,
    in_bit: int,
) -> Seq<u32> {
    Seq::new((count / 2) as nat, |k: int| op_word(opcode, arg, data, line, in_bit, k))
}

/// The transfer words that the instructions of `body` from word `i` on
/// produce, one instruction after the other, when the next pixel is read
/// from bit `in_bit` of the line. Every run through a palette moves on in
/// the line by its pixels.
pub open spec fn scan_from(body: Seq<u32>, i: int, data: Seq<u32>, line: Seq<u32>, in_bit: int) -> Seq<
    u32,
>
    decreases body.len() - i,
{
    if i < 0 || i + 3 > body.len() {
        Seq::empty()
    } else {
        op_output(body[i], body[i + 1], body[i + 2], data, line, in_bit) + scan_from(
            body,
            i + 3,
            data,
            line,
            in_bit + body[i + 1] * bits_per_pixel(body[i]),
        )
    }
}

/// The transfer words of a row of a stripe with instructions `body`.
pub open spec fn scan_output(body: Seq<u32>, data: Seq<u32>, line: Seq<u32>) -> Seq<u32> {
    scan_from(body, 0, data, line, 0)
}

/// A buffer after `produced` has been written to it from its start, as far
/// as it fits.
pub open spec fn written(before: Seq<u32>, produced: Seq<u32>) -> Seq<u32> {
    Seq::new(
        before.len(),
        |i: int|
            if i < produced.len() {
                produced[i]
            } else {
                before[i]
            },
    )
}

/// What a scan list holds: its stripes, and the palettes that they use.
pub struct ScanView {
    pub stripes: Seq<Stripe>,
    pub data: Seq<u32>,
}

/// A display list for video scan-out.
///
/// The application builds a scan list and hands it to the display system.
/// Two of them go back and forth: while one is scanned out, the
/// application builds the other.
pub struct Scanlist {
    program: StripeProgram,
    data: Vec<u32>,
}

/// A builder for scan lists.
pub struct ScanlistBuilder {
    v: StripeBuffer,
    data: Vec<u32>,
    x: u32,
}

impl View for Scanlist {
    type V = ScanView;

    closed spec fn view(&self) -> ScanView {
        ScanView { stripes: self.program@, data: self.data@ }
    }
}

impl ScanlistBuilder {
    /// The stripes that are complete.
    pub closed spec fn done(&self) -> Seq<Stripe> {
        self.v.done()
    }

    /// The stripe that is being built.
    pub closed spec fn open(&self) -> Option<Stripe> {
        self.v.open()
    }

    /// The palettes that have been stored.
    pub closed spec fn data(&self) -> Seq<u32> {
        self.data@
    }

    /// Number of pixels that the instructions of the open stripe cover, as
    /// far as a word of 32 bits can tell.
    pub closed spec fn x(&self) -> int {
        self.x as int
    }

    /// Number of words that can still be added to the program.
    pub closed spec fn room(&self) -> int {
        self.v.room()
    }

    /// The invariant of a builder: the program is one of scan
    /// instructions.
    pub closed spec fn wf(&self) -> bool {
        &&& self.v.wf()
        &&& scan_stripes_ok(self.v.done(), self.data@.len() as int)
        &&& self.v.open().is_some() ==> scan_body_ok(
            self.v.open().unwrap().body,
            self.data@.len() as int,
        )
        &&& self.data@.len() <= u32::MAX
    }

    /// The sizes that the invariant bounds: the room is what the words of
    /// the stripes leave of the indices that a word of 32 bits can hold,
    /// and a word of 32 bits can hold every index of the palettes.
    pub proof fn lemma_sizes(&self)
        requires
            self.wf(),
        ensures
            self.room() == u32::MAX - crate::render::stripes::program_words(self.done(), 0).len()
                - match self.open() {
                Some(s) => s.len(),
                None => 0,
            },
            crate::render::stripes::fits(self.done()),
            self.data().len() <= u32::MAX,
    {
        self.v.lemma_room_left();
    }

    /// Whether the builder is what `old` is after an instruction has been
    /// added to its open stripe: three more words, `count` more pixels.
    pub open spec fn extends(&self, old: &Self, opcode: u32, count: u32, arg: u32) -> bool {
        &&& self.wf()
        &&& self.done() == old.done()
        &&& self.open() == Some(
            Stripe {
                height: old.open().unwrap().height,
                body: old.open().unwrap().body + seq![opcode, count, arg],
            },
        )
        &&& self.room() == old.room() - 3
        &&& self.x() == if old.x() + count > u32::MAX {
            u32::MAX as int
        } else {
            old.x() + count
        }
    }

    /// A builder for an empty list. Neither the width nor the height of
    /// the picture restricts what is built.
    pub fn new(_width: u32, _height: u32) -> (r: Self)
        ensures
            r.wf(),
            r.done() == Seq::<Stripe>::empty(),
            r.open().is_none(),
            r.data() == Seq::<u32>::empty(),
            r.x() == 0,
            r.room() == u32::MAX,
    {
        ScanlistBuilder { v: StripeBuffer::new(), data: Vec::new(), x: 0 }
    }

    /// A builder for an empty list in the storage of a list that is no
    /// longer needed.
    pub fn recycle(scanlist: Scanlist) -> (r: Self)
        ensures
            r.wf(),
            r.done() == Seq::<Stripe>::empty(),
            r.open().is_none(),
            r.data() == Seq::<u32>::empty(),
            r.x() == 0,
            r.room() == u32::MAX,
    {
        let mut data = scanlist.data;
        data.clear();
        ScanlistBuilder { v: StripeBuffer::recycle(scanlist.program), data, x: 0 }
    }

    /// The finished list.
    pub fn build(self) -> (r: Scanlist)
        requires
            self.wf(),
            self.open().is_none(),
        ensures
            r@.stripes == self.done(),
            r@.data == self.data(),
            crate::render::stripes::fits(r@.stripes),
            r@.data.len() <= u32::MAX,
    {
        let program = self.v.build();
        proof {
            use_type_invariant(&program);
        }
        Scanlist { program, data: self.data }
    }

    /// Whether enough room is left for `words` more words of program.
    pub fn has_room(&self, words: usize) -> (r: bool)
        requires
            self.wf(),
        ensures
            r == (self.room() >= words),
    {
        self.v.has_room(words)
    }

    /// Opens a stripe of `height` rows.
    pub fn begin_stripe(&mut self, height: u32)
        requires
            old(self).wf(),
            old(self).open().is_none(),
            old(self).room() >= 3,
        ensures
            final(self).wf(),
            final(self).done() == old(self).done(),
            final(self).open() == Some(Stripe { height, body: Seq::empty() }),
            final(self).data() == old(self).data(),
            final(self).room() == old(self).room() - 3,
            final(self).x() == 0,
    {
        self.v.begin_stripe(height);
        self.x = 0;
    }

    /// Completes the open stripe.
    pub fn end_stripe(&mut self)
        requires
            old(self).wf(),
            old(self).open().is_some(),
        ensures
            final(self).wf(),
            final(self).done() == old(self).done().push(old(self).open().unwrap()),
            final(self).open().is_none(),
            final(self).data() == old(self).data(),
            final(self).room() == old(self).room(),
            final(self).x() == old(self).x(),
    {
        self.v.end_stripe();
    }

    /// Adds an instruction of three words to the open stripe.
    fn op(&mut self, opcode: u32, count: u32, arg: u32)
        requires
            old(self).wf(),
            old(self).open().is_some(),
            old(self).room() >= 3,
            SCAN_SOLID <= opcode <= SCAN_SOLID_TMDS,
            palette_len(opcode) > 0 ==> arg + palette_len(opcode) <= old(self).data().len(),
        ensures
            final(self).extends(old(self), opcode, count, arg),
            final(self).data() == old(self).data(),
    {
        let ghost before = self.v.open().unwrap().body;
        self.v.push(opcode);
        self.v.push(count);
        self.v.push(arg);
        self.x = self.x.saturating_add(count);
        proof {
            let after = self.v.open().unwrap().body;
            assert(after =~= before + seq![opcode, count, arg]);
            let n = before.len() / 3;
            assert forall|j: int| 0 <= j < after.len() / 3 implies {
                &&& SCAN_SOLID <= #[trigger] after[3 * j] <= SCAN_SOLID_TMDS
                &&& palette_len(after[3 * j]) > 0 ==> after[3 * j + 2] + palette_len(after[3 * j])
                    <= self.data@.len()
            } by {
                if j < n {
                    assert(after[3 * j] == before[3 * j]);
                    assert(after[3 * j + 2] == before[3 * j + 2]);
                }
            }
        }
    }

    /// Adds a run of `count` pixels of one colour.
    pub fn solid(&mut self, count: u32, color: u32)
        requires
            old(self).wf(),
            old(self).open().is_some(),
            old(self).room() >= 3,
        ensures
            final(self).extends(old(self), SCAN_SOLID, count, color),
            final(self).data() == old(self).data(),
    {
        self.op(SCAN_SOLID, count, color);
    }

    /// Adds a run of `count` symbols of one lane that repeats a pair of
    /// TMDS symbols.
    pub fn solid_tmds(&mut self, count: u32, pair: TmdsPair)
        requires
            old(self).wf(),
            old(self).open().is_some(),
            old(self).room() >= 3,
        ensures
            final(self).extends(old(self), SCAN_SOLID_TMDS, count, pair@),
            final(self).data() == old(self).data(),
    {
        self.op(SCAN_SOLID_TMDS, count, pair.raw());
    }

    /// Stores the words of a palette with the list and returns their
    /// place.
    fn store(&mut self, words: &[u32]) -> (at: u32)
        requires
            old(self).wf(),
            old(self).data().len() + words@.len() <= u32::MAX,
        ensures
            final(self).wf(),
            final(self).done() == old(self).done(),
            final(self).open() == old(self).open(),
            final(self).room() == old(self).room(),
            final(self).x() == old(self).x(),
            at == old(self).data().len(),
            final(self).data() == old(self).data() + words@,
    {
        let at = self.data.len() as u32;
        self.data.extend_from_slice(words);
        assert(self.data@ =~= old(self).data@ + words@);
        at
    }

    /// Adds a run of `count` pixels that are read from the line buffer with
    /// one bit each and shown in the colours of `palette`.
    ///
    /// The palette is copied into the list.
    pub fn pal_1bpp(&mut self, count: u32, palette: &Palette1bpp)
        requires
            old(self).wf(),
            old(self).open().is_some(),
            old(self).room() >= 3,
            old(self).data().len() + 4 <= u32::MAX,
        ensures
            final(self).extends(
                old(self),
                SCAN_PAL_1BPP,
                count,
                old(self).data().len() as u32,
            ),
            final(self).data() == old(self).data() + palette@,
    {
        let at = self.store(palette.words().as_slice());
        self.op(SCAN_PAL_1BPP, count, at);
    }

    /// Adds a run of `count` pixels that are read from the line buffer with
    /// four bits each and shown in the colours of `palette`.
    ///
    /// The palette is copied into the list.
    pub fn pal_4bpp(&mut self, count: u32, palette: &Palette4bppFast)
        requires
            old(self).wf(),
            old(self).open().is_some(),
            old(self).room() >= 3,
            old(self).data().len() + 256 <= u32::MAX,
        ensures
            final(self).extends(
                old(self),
                SCAN_PAL_4BPP,
                count,
                old(self).data().len() as u32,
            ),
            final(self).data() == old(self).data() + palette@,
    {
        let at = self.store(palette.words().as_slice());
        self.op(SCAN_PAL_4BPP, count, at);
    }
}

impl Scanlist {
    /// The invariant of a list: its program is one of scan instructions.
    #[verifier::type_invariant]
    pub closed spec fn wf(&self) -> bool {
        &&& self.program.wf()
        &&& scan_stripes_ok(self.program@, self.data@.len() as int)
        &&& self.data@.len() <= u32::MAX
    }

    /// The words of the program.
    pub fn get(&self) -> (r: &[u32])
        ensures
            r@ == crate::render::stripes::program_words(self@.stripes, 0),
            crate::render::stripes::fits(self@.stripes),
    {
        proof {
            use_type_invariant(self);
        }
        self.program.words()
    }

    /// The palettes of the list.
    pub fn data(&self) -> (r: &[u32])
        ensures
            r@ == self@.data,
            r@.len() <= u32::MAX,
    {
        proof {
            use_type_invariant(self);
        }
        self.data.as_slice()
    }

    /// Whether `cursor` is a place in the program of this list.
    pub open spec fn holds(&self, cursor: StripeCursor) -> bool {
        &&& 0 <= cursor.index() <= self@.stripes.len()
        &&& cursor.pc() == crate::render::stripes::start_of(self@.stripes, cursor.index())
        &&& cursor.index() < self@.stripes.len() ==> 0 <= cursor.row()
            < self@.stripes[cursor.index()].height
        &&& cursor.index() == self@.stripes.len() ==> cursor.row() == 0
    }

    /// The row of the picture that a cursor stands for.
    pub open spec fn picture_row(&self, cursor: StripeCursor) -> int {
        crate::render::stripes::rows_before(self@.stripes, cursor.index()) + cursor.row()
    }

    /// A cursor stands in the stripe that its picture row lies in.
    pub proof fn lemma_cursor_locates(&self, cursor: StripeCursor)
        requires
            self.holds(cursor),
        ensures
            0 <= self.picture_row(cursor) <= total_height(self@.stripes),
            stripe_of_row(self@.stripes, self.picture_row(cursor)) == cursor.index(),
            row_in_stripe(self@.stripes, self.picture_row(cursor)) == cursor.row(),
            cursor.index() < self@.stripes.len() <==> self.picture_row(cursor) < total_height(
                self@.stripes,
            ),
    {
        self.program.lemma_cursor_locates(cursor);
    }

    /// The cursor at the first row of the picture.
    pub fn start(&self) -> (r: StripeCursor)
        ensures
            self.holds(r),
            self.picture_row(r) == 0,
    {
        proof {
            use_type_invariant(self);
        }
        self.program.start()
    }

    /// Whether the cursor has run past the last row.
    pub fn at_end(&self, cursor: &StripeCursor) -> (r: bool)
        requires
            self.holds(*cursor),
        ensures
            r == (cursor.index() == self@.stripes.len()),
            r == (self.picture_row(*cursor) == total_height(self@.stripes)),
    {
        proof {
            use_type_invariant(self);
        }
        self.program.at_end(cursor)
    }

    /// Moves the cursor on by one row.
    pub fn advance(&self, cursor: &mut StripeCursor)
        requires
            self.holds(*old(cursor)),
            old(cursor).index() < self@.stripes.len(),
        ensures
            self.holds(*final(cursor)),
            self.picture_row(*final(cursor)) == self.picture_row(*old(cursor)) + 1,
    {
        proof {
            use_type_invariant(self);
        }
        self.program.advance(cursor)
    }

    /// Serialises a row of the stripe that the cursor is in: the transfer
    /// words that its instructions produce from `line` are written to
    /// `out` from its start. Words that do not fit are left out, and what
    /// lies behind the words that were produced stays as it is.
    #[verifier::spinoff_prover]
    pub fn scan(&self, cursor: &StripeCursor, line: &LineBuf, out: &mut [u32])
        requires
            self.holds(*cursor),
            cursor.index() < self@.stripes.len(),
        ensures
            final(out)@ == written(
                old(out)@,
                scan_output(self@.stripes[cursor.index()].body, self@.data, line@),
            ),
    {
        proof {
            use_type_invariant(self);
        }
        let ghost body = self@.stripes[cursor.index()].body;
        let ghost data = self@.data;
        let ghost full = scan_output(body, data, line@);
        let ghost mut prefix: Seq<u32> = Seq::empty();
        let ghost mut in_bit: int = 0;
        let words = line.words();
        let palettes = self.data.as_slice();
        let palette_words = palettes.len();
        let mut i: usize = 0;
        let mut pos: usize = 0;
        let mut bit: usize = 0;
        proof {
            assert(prefix + scan_from(body, 0, data, line@, 0) =~= full);
            assert(scan_body_ok(body, data.len() as int));
            use_type_invariant(&self.program);
            self.program.lemma_stripe_fits(cursor.index());
            line.lemma_len();
        }
        loop
            invariant
                self.wf(),
                self.holds(*cursor),
                cursor.index() < self@.stripes.len(),
                body == self@.stripes[cursor.index()].body,
                data == self@.data,
                palettes@ == data,
                palette_words == data.len(),
                scan_body_ok(body, data.len() as int),
                words@ == line@,
                line@.len() == crate::render::LINE_BUF_SIZE,
                i % 3 == 0,
                i <= body.len(),
                body.len() + 3 <= u32::MAX,
                prefix + scan_from(body, i as int, data, line@, in_bit) == full,
                out@.len() == old(out)@.len(),
                pos == if prefix.len() < out@.len() {
                    prefix.len()
                } else {
                    out@.len()
                },
                out@ == written(old(out)@, prefix),
                0 <= in_bit,
                bit == if in_bit < 8192 {
                    in_bit
                } else {
                    8192
                },
            ensures
                out@ == written(old(out)@, full),
            decreases body.len() - i,
        {
            let opcode = self.program.body_word(cursor, i);
            if opcode == STOP || pos >= out.len() {
                proof {
                    if opcode == STOP {
                        if i < body.len() {
                            assert(body[3 * (i as int / 3)] == body[i as int]);
                        }
                        assert(scan_from(body, i as int, data, line@, in_bit) =~= Seq::<
                            u32,
                        >::empty());
                        assert(prefix =~= full);
                    } else {
                        assert(written(old(out)@, prefix) =~= written(old(out)@, full));
                    }
                }
                break ;
            }
            proof {
                assert(i < body.len());
                assert(body[3 * (i as int / 3)] == body[i as int]);
                assert(body[3 * (i as int / 3) + 2] == body[i + 2]);
            }
            let count = self.program.body_word(cursor, i + 1);
            let arg = self.program.body_word(cursor, i + 2);
            let ghost produced = op_output(opcode, count, arg, data, line@, in_bit);
            let pairs = (count / 2) as usize;
            let room = out.len() - pos;
            let n = if pairs < room { pairs } else { room };
            let mut k: usize = 0;
            while k < n
                invariant
                    self.wf(),
                    data == self@.data,
                    words@ == line@,
                    line@.len() == crate::render::LINE_BUF_SIZE,
                    SCAN_SOLID <= opcode <= SCAN_SOLID_TMDS,
                    palette_len(opcode) > 0 ==> arg + palette_len(opcode) <= data.len(),
                    palettes@ == data,
                    palette_words == data.len(),
                    out@.len() <= usize::MAX,
                    produced == op_output(opcode, count, arg, data, line@, in_bit),
                    k <= n <= count / 2,
                    n <= out@.len() - pos,
                    pos == prefix.len(),
                    pos + n <= out@.len(),
                    out@.len() == old(out)@.len(),
                    out@ == written(old(out)@, prefix + produced.take(k as int)),
                    0 <= in_bit,
                    bit == if in_bit < 8192 {
                        in_bit
                    } else {
                        8192
                    },
                decreases n - k,
            {
                let word = if opcode == SCAN_SOLID {
                    arg | (arg << 16)
                } else if opcode == SCAN_SOLID_TMDS {
                    arg
                } else if opcode == SCAN_PAL_1BPP {
                    let first = Self::field(words, bit as u64 + 2 * k as u64, 1, Ghost(in_bit + 2 * k));
                    let second = Self::field(
                        words,
                        bit as u64 + 2 * k as u64 + 1,
                        1,
                        Ghost(in_bit + 2 * k + 1),
                    );
                    palettes[arg as usize + (first + 2 * second) as usize]
                } else {
                    let first = Self::field(
                        words,
                        bit as u64 + 8 * k as u64,
                        0xf,
                        Ghost(in_bit + 8 * k),
                    );
                    let second = Self::field(
                        words,
                        bit as u64 + 8 * k as u64 + 4,
                        0xf,
                        Ghost(in_bit + 8 * k + 4),
                    );
                    palettes[arg as usize + (first + 16 * second) as usize]
                };
                proof {
                    let bpp = bits_per_pixel(opcode);
                    if opcode == SCAN_PAL_1BPP {
                        assert(bpp == 1);
                        assert(2 * k * bpp == 2 * k) by (nonlinear_arith)
                            requires
                                bpp == 1,
                        ;
                    } else if opcode == SCAN_PAL_4BPP {
                        assert(bpp == 4);
                        assert(2 * k * bpp == 8 * k) by (nonlinear_arith)
                            requires
                                bpp == 4,
                        ;
                    }
                    assert(produced[k as int] == op_word(opcode, arg, data, line@, in_bit, k as int));
                    assert(word == produced[k as int]);
                    let before = prefix + produced.take(k as int);
                    let after = prefix + produced.take(k + 1);
                    assert(after =~= before.push(word));
                    assert(written(old(out)@, before).update(pos + k, word) =~= written(
                        old(out)@,
                        after,
                    ));
                }
                out[pos + k] = word;
                k += 1;
            }
            proof {
                let next_bit = in_bit + count * bits_per_pixel(opcode);
                let bpp = bits_per_pixel(opcode);
                assert(bpp == if opcode == SCAN_PAL_1BPP {
                    1int
                } else if opcode == SCAN_PAL_4BPP {
                    4int
                } else {
                    0int
                });
                assert(count * bpp == if opcode == SCAN_PAL_1BPP {
                    count as int
                } else if opcode == SCAN_PAL_4BPP {
                    4 * count
                } else {
                    0int
                }) by (nonlinear_arith)
                    requires
                        bpp == if opcode == SCAN_PAL_1BPP {
                            1int
                        } else if opcode == SCAN_PAL_4BPP {
                            4int
                        } else {
                            0int
                        },
                ;
                let rest = scan_from(body, i + 3, data, line@, next_bit);
                assert(scan_from(body, i as int, data, line@, in_bit) == produced + rest);
                assert(prefix + (produced + rest) =~= (prefix + produced) + rest);
                if n == pairs {
                    assert(produced.take(n as int) =~= produced);
                } else {
                    assert(written(old(out)@, prefix + produced.take(n as int)) =~= written(
                        old(out)@,
                        prefix + produced,
                    ));
                }
                prefix = prefix + produced;
                in_bit = next_bit;
            }
            pos = pos + n;
            let moved: u64 = if opcode == SCAN_PAL_1BPP {
                count as u64
            } else if opcode == SCAN_PAL_4BPP {
                4 * count as u64
            } else {
                0
            };
            bit = if bit as u64 + moved < 8192 {
                (bit as u64 + moved) as usize
            } else {
                8192
            };
            i = i + 3;
        }
    }

    /// The bits of the line from the given bit on, under `mask`. The place
    /// is given as it is counted, without bound, and as the least of it and
    /// a number beyond the end of the line.
    fn field(
        words: &[u32; crate::render::LINE_BUF_SIZE],
        bit: u64,
        mask: u32,
        Ghost(at): Ghost<int>,
    ) -> (r: u32)
        requires
            0 <= at,
            mask == 1 || mask == 0xf,
            bit >= 8192 ==> at >= 8192,
            bit < 8192 ==> at == bit,
        ensures
            r == line_field(words@, at, mask),
            r <= mask,
    {
        if bit < 8192 {
            let word = words[(bit / 32) as usize];
            let shift = (bit % 32) as u32;
            proof {
                lemma_field_range(words@, at, mask);
            }
            (word >> shift) & mask
        } else {
            0
        }
    }

    /// Walks the stripes by the indices in their headers and returns how
    /// many there are and how many rows they have together.
    pub fn walk(&self) -> (r: (usize, u64))
        ensures
            r.0 == self@.stripes.len(),
            r.1 == total_height(self@.stripes),
    {
        proof {
            use_type_invariant(self);
        }
        self.program.walk()
    }
}

/// Output position `i` of a sequence of transfer words: the lower half of
/// a word comes first.
pub open spec fn position(words: Seq<u32>, i: int) -> u32 {
    if i % 2 == 0 {
        words[i / 2] & 0xffff
    } else {
        words[i / 2] >> 16
    }
}

/// The halves of a transfer word are the two pixels that it was made of.
pub proof fn lemma_pixel_pair(first: u32, second: u32)
    by (bit_vector)
    requires
        first < 0x1_0000,
        second < 0x1_0000,
    ensures
        pixel_pair(first, second) & 0xffff == first,
        pixel_pair(first, second) >> 16 == second,
{
}

/// A run through a palette of two colours shows every pixel of the line
/// in the colour of its bit: of the `k`-th word of the run, the lower
/// half is the colour of pixel `2 k` of the run and the upper half that
/// of pixel `2 k + 1`, the foreground where the bit of the pixel is set
/// and the background where it is clear.
pub proof fn lemma_pal_1bpp_shows_bits(
    bg: u32,
    fg: u32,
    arg: u32,
    data: Seq<u32>,
    line: Seq<u32>,
    in_bit: int,
    k: int,
)
    requires
        bg < 0x1_0000,
        fg < 0x1_0000,
        0 <= k,
        0 <= in_bit,
        arg + 4 <= data.len(),
        data.subrange(arg as int, arg + 4) == Palette1bpp::entries(bg, fg),
    ensures
        ({
            let word = op_word(SCAN_PAL_1BPP, arg, data, line, in_bit, k);
            &&& word & 0xffff == if line_field(line, in_bit + 2 * k, 1) == 1 {
                fg
            } else {
                bg
            }
            &&& word >> 16 == if line_field(line, in_bit + 2 * k + 1, 1) == 1 {
                fg
            } else {
                bg
            }
        }),
{
    let first = line_field(line, in_bit + 2 * k, 1);
    let second = line_field(line, in_bit + 2 * k + 1, 1);
    lemma_field_range(line, in_bit + 2 * k, 1);
    lemma_field_range(line, in_bit + 2 * k + 1, 1);
    let index = first + 2 * second;
    assert(2 * k * bits_per_pixel(SCAN_PAL_1BPP) == 2 * k) by (nonlinear_arith)
        requires
            bits_per_pixel(SCAN_PAL_1BPP) == 1,
    ;
    assert(pair_index(SCAN_PAL_1BPP, line, in_bit + 2 * k) == index);
    assert(data.subrange(arg as int, arg + 4)[index] == data[arg + index]);
    assert(Palette1bpp::entries(bg, fg)[index] == Palette1bpp::entry(bg, fg, index));
    lemma_pixel_pair(bg, bg);
    lemma_pixel_pair(fg, bg);
    lemma_pixel_pair(bg, fg);
    lemma_pixel_pair(fg, fg);
}

/// A field of the line is at most its mask.
pub proof fn lemma_field_range(line: Seq<u32>, bit: int, mask: u32)
    ensures
        line_field(line, bit, mask) <= mask,
{
    if 0 <= bit / 32 < line.len() {
        let word = line[bit / 32];
        let shift = (bit % 32) as u32;
        assert((word >> shift) & mask <= mask) by (bit_vector);
    }
}

/// A run through a palette of sixteen colours shows every pixel of the
/// line in the colour that its four bits name: of the `k`-th word of the
/// run, the lower half is the colour of pixel `2 k` of the run and the
/// upper half that of pixel `2 k + 1`.
pub proof fn lemma_pal_4bpp_shows_colors(
    colors: Seq<u32>,
    arg: u32,
    data: Seq<u32>,
    line: Seq<u32>,
    in_bit: int,
    k: int,
)
    requires
        colors.len() == 16,
        0 <= k,
        0 <= in_bit,
        arg + 256 <= data.len(),
        forall|i: int| 0 <= i < 256 ==> #[trigger] data[arg + i] == Palette4bppFast::entry(colors, i),
    ensures
        ({
            let word = op_word(SCAN_PAL_4BPP, arg, data, line, in_bit, k);
            &&& word & 0xffff == crate::render::xrgb555(
                colors[line_field(line, in_bit + 8 * k, 0xf) as int],
            )
            &&& word >> 16 == crate::render::xrgb555(
                colors[line_field(line, in_bit + 8 * k + 4, 0xf) as int],
            )
        }),
{
    let first = line_field(line, in_bit + 8 * k, 0xf);
    let second = line_field(line, in_bit + 8 * k + 4, 0xf);
    lemma_field_range(line, in_bit + 8 * k, 0xf);
    lemma_field_range(line, in_bit + 8 * k + 4, 0xf);
    let index = first + 16 * second;
    assert(2 * k * bits_per_pixel(SCAN_PAL_4BPP) == 8 * k) by (nonlinear_arith)
        requires
            bits_per_pixel(SCAN_PAL_4BPP) == 4,
    ;
    assert(pair_index(SCAN_PAL_4BPP, line, in_bit + 8 * k) == index);
    assert(data[arg + index] == Palette4bppFast::entry(colors, index));
    assert(index % 16 == first && index / 16 == second);
    lemma_pixel_pair(
        crate::render::xrgb555(colors[first as int]) as u32,
        crate::render::xrgb555(colors[second as int]) as u32,
    );
}

/// A stripe of two solid runs, of an even number of pixels each, turns
/// into as many output positions as the runs have pixels: those of the
/// first run show its colour, and those after them the colour of the
/// second. Neither the line buffer nor the data of the list matter.
pub proof fn lemma_two_solid_runs(
    count1: u32,
    color1: u32,
    count2: u32,
    color2: u32,
    data: Seq<u32>,
    line: Seq<u32>,
)
    requires
        count1 % 2 == 0,
        count2 % 2 == 0,
        color1 < 0x1_0000,
        color2 < 0x1_0000,
    ensures
        ({
            let body = seq![SCAN_SOLID, count1, color1, SCAN_SOLID, count2, color2];
            let out = scan_output(body, data, line);
            &&& scan_body_ok(body, data.len() as int)
            &&& 2 * out.len() == count1 + count2
            &&& forall|i: int| 0 <= i < count1 ==> #[trigger] position(out, i) == color1
            &&& forall|i: int| count1 <= i < count1 + count2 ==> #[trigger] position(out, i) == color2
        }),
{
    let body = seq![SCAN_SOLID, count1, color1, SCAN_SOLID, count2, color2];
    let out = scan_output(body, data, line);
    let first = op_output(SCAN_SOLID, count1, color1, data, line, 0);
    let second = op_output(SCAN_SOLID, count2, color2, data, line, 0);
    reveal_with_fuel(scan_from, 3);
    assert(count1 * bits_per_pixel(SCAN_SOLID) == 0);
    assert(count2 * bits_per_pixel(SCAN_SOLID) == 0);
    assert(scan_from(body, 6, data, line, 0) =~= Seq::<u32>::empty());
    assert(out =~= first + second);
    lemma_pixel_pair(color1, color1);
    lemma_pixel_pair(color2, color2);
    assert forall|j: int| 0 <= j < body.len() / 3 implies {
        &&& SCAN_SOLID <= #[trigger] body[3 * j] <= SCAN_SOLID_TMDS
        &&& palette_len(body[3 * j]) > 0 ==> body[3 * j + 2] + palette_len(body[3 * j]) <= data.len()
    } by {
        assert(j == 0 || j == 1);
    }
    assert forall|i: int| 0 <= i < count1 implies #[trigger] position(out, i) == color1 by {
        assert(out[i / 2] == first[i / 2]);
    }
    assert forall|i: int| count1 <= i < count1 + count2 implies #[trigger] position(out, i)
        == color2 by {
        assert(out[i / 2] == second[i / 2 - count1 / 2]);
    }
}

/// Symbol `i` of a sequence of transfer words that hold pairs of TMDS
/// symbols: the first symbol of a pair is in the lower ten bits.
pub open spec fn symbol_at(words: Seq<u32>, i: int) -> u32 {
    if i % 2 == 0 {
        words[i / 2] & 0x3ff
    } else {
        words[i / 2] >> 10
    }
}

/// A stripe of two solid runs of TMDS pairs, of an even number of symbols
/// each, turns into as many symbols as the runs have: those of the first
/// run are the symbols of its pair in turn, and those after them the
/// symbols of the pair of the second.
pub proof fn lemma_two_tmds_runs(
    count1: u32,
    first1: u32,
    second1: u32,
    count2: u32,
    first2: u32,
    second2: u32,
    data: Seq<u32>,
    line: Seq<u32>,
)
    requires
        count1 % 2 == 0,
        count2 % 2 == 0,
        first1 < 1024,
        second1 < 1024,
        first2 < 1024,
        second2 < 1024,
    ensures
        ({
            let pair1 = crate::dvi::tmds::pack_bits(first1, second1);
            let pair2 = crate::dvi::tmds::pack_bits(first2, second2);
            let body = seq![SCAN_SOLID_TMDS, count1, pair1, SCAN_SOLID_TMDS, count2, pair2];
            let out = scan_output(body, data, line);
            &&& scan_body_ok(body, data.len() as int)
            &&& 2 * out.len() == count1 + count2
            &&& forall|i: int|
                0 <= i < count1 ==> #[trigger] symbol_at(out, i) == if i % 2 == 0 {
                    first1
                } else {
                    second1
                }
            &&& forall|i: int|
                count1 <= i < count1 + count2 ==> #[trigger] symbol_at(out, i) == if i % 2 == 0 {
                    first2
                } else {
                    second2
                }
        }),
{
    let pair1 = crate::dvi::tmds::pack_bits(first1, second1);
    let pair2 = crate::dvi::tmds::pack_bits(first2, second2);
    let body = seq![SCAN_SOLID_TMDS, count1, pair1, SCAN_SOLID_TMDS, count2, pair2];
    let out = scan_output(body, data, line);
    let first = op_output(SCAN_SOLID_TMDS, count1, pair1, data, line, 0);
    let second = op_output(SCAN_SOLID_TMDS, count2, pair2, data, line, 0);
    reveal_with_fuel(scan_from, 3);
    assert(count1 * bits_per_pixel(SCAN_SOLID_TMDS) == 0);
    assert(count2 * bits_per_pixel(SCAN_SOLID_TMDS) == 0);
    assert(scan_from(body, 6, data, line, 0) =~= Seq::<u32>::empty());
    assert(out =~= first + second);
    crate::dvi::tmds::lemma_pack_unpack(first1, second1);
    crate::dvi::tmds::lemma_pack_unpack(first2, second2);
    assert forall|j: int| 0 <= j < body.len() / 3 implies {
        &&& SCAN_SOLID <= #[trigger] body[3 * j] <= SCAN_SOLID_TMDS
        &&& palette_len(body[3 * j]) > 0 ==> body[3 * j + 2] + palette_len(body[3 * j])
            <= data.len()
    } by {
        assert(j == 0 || j == 1);
    }
    assert forall|i: int| 0 <= i < count1 implies #[trigger] symbol_at(out, i) == if i % 2 == 0 {
        first1
    } else {
        second1
    } by {
        assert(out[i / 2] == first[i / 2]);
    }
    assert forall|i: int| count1 <= i < count1 + count2 implies #[trigger] symbol_at(out, i) == if i
        % 2 == 0 {
        first2
    } else {
        second2
    } by {
        assert(out[i / 2] == second[i / 2 - count1 / 2]);
    }
}

} // verus!
