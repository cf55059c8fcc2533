//! Signal generation: symbol encoding, line timing and transfer chains.

pub mod audio;
pub mod chains;
pub mod data_island;
pub mod dma;
pub mod pinout;
pub mod timing;
pub mod tmds;

use vstd::prelude::*;
use crate::dvi::timing::{
    DviTiming, DviTimingLineState, DviTimingState, SYNC_LINE_ONLY_WORDS, SYNC_LINE_WORDS,
};
use crate::render::queue::Queue;
use crate::render::swapcell::SwapCell;
use crate::render::{DisplayList, LineBuf, ScanRender};
use crate::scanlist::written;

verus! {

/// Bits per pixel of the line buffers that are sent.
pub const BPP: usize = 16;

/// How many times each picture row is sent. Only 1 is supported.
pub const VERTICAL_REPEAT: usize = 1;

/// A command word of the serialiser: an operation in bits 12 to 15 and the
/// number of words that it covers below.
pub open spec fn hstx_command(op: u32, len: u32) -> u32 {
    (op << 12) | len
}

/// A command word can be taken apart again while the length fits in twelve
/// bits.
pub proof fn lemma_hstx_command(op: u32, len: u32)
    by (bit_vector)
    requires
        op < 16,
        len < 4096,
    ensures
        hstx_command(op, len) >> 12 == op,
        hstx_command(op, len) & 0xfff == len,
        hstx_command(op, len) == op * 4096 + len,
{
}

/// The next `len` words are sent as they are.
pub fn hstx_cmd_raw(len: u32) -> (r: u32)
    ensures
        r == hstx_command(0, len),
{
    (0 << 12) | len
}

/// The next word is sent as it is, `len` times.
pub fn hstx_cmd_raw_repeat(len: u32) -> (r: u32)
    ensures
        r == hstx_command(1, len),
{
    (1 << 12) | len
}

/// The next `len` words are pixels to be TMDS encoded.
pub fn hstx_cmd_tmds(len: u32) -> (r: u32)
    ensures
        r == hstx_command(2, len),
{
    (2 << 12) | len
}

/// The next word are pixels to be TMDS encoded, `len` times.
pub fn hstx_cmd_tmds_repeat(len: u32) -> (r: u32)
    ensures
        r == hstx_command(3, len),
{
    (3 << 12) | len
}

/// A command that does nothing.
pub fn hstx_cmd_nop() -> (r: u32)
    ensures
        r == hstx_command(15, 0),
{
    proof {
        lemma_hstx_command(15, 0);
    }
    0xf000
}

/// The additional time, in lines, that is allowed for producing a line.
///
/// Where a line is always produced in less than the time of a line this is
/// 0; where it sometimes takes longer, a slack of 1 avoids artefacts.
pub const VIDEO_PIPELINE_SLACK: u32 = 0;

/// Number of buffers for lines that are ready to be sent.
pub const N_VIDEO_BUFFERS: usize = 2;

/// Number of slots of the queue of lines to produce: the next power of two
/// above the number of buffers, so that the queue has room for a line for
/// each buffer.
pub const LINE_QUEUE_SIZE: usize = 4;

/// The pixels of the line that is sent in place of a line that was not
/// produced in time.
pub const ERR_PIXELS: u32 = 0x7c00_7c00;

/// What the interrupt handler shares with the core that produces the
/// lines: the queue of lines to produce, and the buffers that they are
/// produced into.
///
/// A buffer is lent to the producer from the moment its line is put on the
/// queue until the producer gives it back.
pub struct DviOut {
    line_queue: Queue<LINE_QUEUE_SIZE>,
    line_lent: [bool; N_VIDEO_BUFFERS],
    video_lines: Vec<Vec<u32>>,
}

/// The right to write to a buffer that has been lent.
pub struct LineGuard {
    buf_ix: usize,
}

impl LineGuard {
    /// The number of the buffer.
    pub closed spec fn buf_ix(&self) -> int {
        self.buf_ix as int
    }

    /// The number of the buffer.
    pub fn index(&self) -> (r: usize)
        ensures
            r == self.buf_ix(),
    {
        self.buf_ix
    }
}

impl DviOut {
    /// The lines that wait to be produced, the oldest first.
    pub closed spec fn queue(&self) -> Seq<u32> {
        self.line_queue@
    }

    /// Which buffers are lent to the producer.
    pub closed spec fn lent(&self) -> Seq<bool> {
        self.line_lent@
    }

    /// The words of buffer `i`: a command word and the pixels of a line.
    pub closed spec fn line(&self, i: int) -> Seq<u32> {
        self.video_lines@[i]@
    }

    /// The invariant: every line on the queue has its buffer lent to it,
    /// and no two of them share a buffer.
    pub closed spec fn wf(&self) -> bool {
        &&& self.video_lines@.len() == N_VIDEO_BUFFERS
        &&& forall|i: int|
            0 <= i < self.line_queue@.len() ==> self.line_lent@[(#[trigger] self.line_queue@[i])
                as int % 2]
        &&& forall|i: int, j: int|
            0 <= i < j < self.line_queue@.len() ==> (#[trigger] self.line_queue@[i]) % 2 != (
            #[trigger] self.line_queue@[j]) % 2
    }

    /// There is a flag for each buffer, every line on the queue has its
    /// buffer lent to it, and the lines on the queue have buffers of their
    /// own: so at most one line waits for each buffer.
    pub proof fn lemma_queue_holds_buffers(&self)
        requires
            self.wf(),
        ensures
            self.lent().len() == N_VIDEO_BUFFERS,
            self.queue().len() <= N_VIDEO_BUFFERS,
            forall|i: int|
                0 <= i < self.queue().len() ==> self.lent()[(#[trigger] self.queue()[i]) as int
                    % 2],
            forall|i: int, j: int|
                0 <= i < j < self.queue().len() ==> (#[trigger] self.queue()[i]) % 2 != (
                #[trigger] self.queue()[j]) % 2,
    {
        let q = self.queue();
        if q.len() > 2 {
            let a = q[0] % 2;
            let b = q[1] % 2;
            let c = q[2] % 2;
            assert(a != b && a != c && b != c);
        }
    }

    /// Whether buffer `buf_ix` belongs to no line on the queue.
    pub open spec fn off_queue(&self, buf_ix: int) -> bool {
        forall|i: int| 0 <= i < self.queue().len() ==> (#[trigger] self.queue()[i]) % 2 != buf_ix
    }

    /// Nothing queued, nothing lent, and buffers without words.
    pub fn new() -> (r: Self)
        ensures
            r.wf(),
            r.queue() == Seq::<u32>::empty(),
            r.lent() == seq![false, false],
            r.line(0) == Seq::<u32>::empty(),
            r.line(1) == Seq::<u32>::empty(),
    {
        let mut video_lines: Vec<Vec<u32>> = Vec::new();
        video_lines.push(Vec::new());
        video_lines.push(Vec::new());
        let r = DviOut { line_queue: Queue::new(), line_lent: [false, false], video_lines };
        assert(r.line_lent@ =~= seq![false, false]);
        r
    }

    /// Takes the line that has waited longest off the queue, with the
    /// right to write to its buffer; `None` if no line waits.
    pub fn get_line(&mut self) -> (r: Option<(u32, LineGuard)>)
        requires
            old(self).wf(),
        ensures
            final(self).wf(),
            final(self).lent() == old(self).lent(),
            final(self).line(0) == old(self).line(0),
            final(self).line(1) == old(self).line(1),
            old(self).queue().len() == 0 ==> r.is_none() && final(self).queue() == old(
                self,
            ).queue(),
            old(self).queue().len() > 0 ==> {
                &&& r.is_some()
                &&& r.unwrap().0 == old(self).queue()[0]
                &&& r.unwrap().1.buf_ix() == r.unwrap().0 % 2
                &&& final(self).queue() == old(self).queue().drop_first()
                &&& final(self).lent()[r.unwrap().1.buf_ix()]
                &&& final(self).off_queue(r.unwrap().1.buf_ix())
            },
    {
        match self.line_queue.try_take() {
            Some(line_ix) => {
                let buf_ix = line_ix as usize % N_VIDEO_BUFFERS;
                proof {
                    assert(old(self).line_queue@[0] == line_ix);
                    assert forall|i: int| 0 <= i < self.line_queue@.len() implies {
                        &&& self.line_lent@[(#[trigger] self.line_queue@[i]) as int % 2]
                        &&& self.line_queue@[i] % 2 != buf_ix
                    } by {
                        assert(self.line_queue@[i] == old(self).line_queue@[i + 1]);
                    }
                    assert forall|i: int, j: int| 0 <= i < j < self.line_queue@.len() implies (
                    #[trigger] self.line_queue@[i]) % 2 != (#[trigger] self.line_queue@[j])
                        % 2 by {
                        assert(self.line_queue@[i] == old(self).line_queue@[i + 1]);
                        assert(self.line_queue@[j] == old(self).line_queue@[j + 1]);
                    }
                }
                Some((line_ix, LineGuard { buf_ix }))
            },
            None => None,
        }
    }

    /// Gives a buffer back: it is no longer lent.
    pub fn release(&mut self, guard: LineGuard)
        requires
            old(self).wf(),
            guard.buf_ix() < N_VIDEO_BUFFERS,
            old(self).off_queue(guard.buf_ix()),
        ensures
            final(self).wf(),
            final(self).queue() == old(self).queue(),
            final(self).lent() == old(self).lent().update(guard.buf_ix(), false),
            final(self).line(0) == old(self).line(0),
            final(self).line(1) == old(self).line(1),
    {
        self.line_lent[guard.buf_ix] = false;
        proof {
            assert forall|i: int| 0 <= i < self.line_queue@.len() implies self.line_lent@[(
            #[trigger] self.line_queue@[i]) as int % 2] by {
                assert(old(self).queue()[i] % 2 != guard.buf_ix());
            }
        }
    }

    /// Copies the words of a line that was produced elsewhere into the
    /// buffer of `guard`, behind its command word, as far as they fit.
    pub fn store(&mut self, guard: &LineGuard, pixels: &[u32])
        requires
            old(self).wf(),
            guard.buf_ix() < N_VIDEO_BUFFERS,
            old(self).line(guard.buf_ix()).len() >= 1,
        ensures
            final(self).wf(),
            final(self).queue() == old(self).queue(),
            final(self).lent() == old(self).lent(),
            final(self).line(1 - guard.buf_ix()) == old(self).line(1 - guard.buf_ix()),
            final(self).line(guard.buf_ix()).len() == old(self).line(guard.buf_ix()).len(),
            final(self).line(guard.buf_ix())[0] == old(self).line(guard.buf_ix())[0],
            final(self).line(guard.buf_ix()).subrange(
                1,
                old(self).line(guard.buf_ix()).len() as int,
            ) == written(
                old(self).line(guard.buf_ix()).subrange(
                    1,
                    old(self).line(guard.buf_ix()).len() as int,
                ),
                pixels@,
            ),
    {
        let ghost before = self.video_lines@[guard.buf_ix()]@;
        let line: &mut Vec<u32> = &mut self.video_lines[guard.buf_ix];
        let room = line.len() - 1;
        let n = if pixels.len() < room { pixels.len() } else { room };
        let mut i: usize = 0;
        while i < n
            invariant
                i <= n,
                n <= pixels@.len(),
                n + 1 <= line@.len(),
                line@.len() == before.len(),
                forall|k: int| 0 <= k < i ==> line@[k + 1] == pixels@[k],
                forall|k: int| i < k < line@.len() ==> line@[k] == before[k],
                line@[0] == before[0],
            decreases n - i,
        {
            line[i + 1] = pixels[i];
            i += 1;
        }
        assert(line@.subrange(1, before.len() as int) =~= written(
            before.subrange(1, before.len() as int),
            pixels@,
        ));
    }

    /// Produces line `y` into the buffer of `guard`, behind its command
    /// word.
    pub fn render(
        &mut self,
        guard: &LineGuard,
        scan_render: &mut ScanRender,
        cell: &mut SwapCell<DisplayList>,
        line_buf: &mut LineBuf,
        y: u32,
    ) -> (swapped: bool)
        requires
            old(self).wf(),
            old(scan_render).wf(),
            guard.buf_ix() < N_VIDEO_BUFFERS,
            old(self).line(guard.buf_ix()).len() >= 1,
        ensures
            final(self).wf(),
            final(scan_render).wf(),
            final(self).queue() == old(self).queue(),
            final(self).lent() == old(self).lent(),
            final(self).line(1 - guard.buf_ix()) == old(self).line(1 - guard.buf_ix()),
            final(self).line(guard.buf_ix()).len() == old(self).line(guard.buf_ix()).len(),
            final(self).line(guard.buf_ix())[0] == old(self).line(guard.buf_ix())[0],
            final(scan_render).last_y() == y,
            swapped == (y <= old(scan_render).last_y() && old(cell)@.swaps()),
            final(cell)@ == if y <= old(scan_render).last_y() {
                old(cell)@.after_swap(old(scan_render).display_list())
            } else {
                old(cell)@
            },
            final(scan_render).display_list() == if y <= old(scan_render).last_y() {
                old(cell)@.swapped_out(old(scan_render).display_list())
            } else {
                old(scan_render).display_list()
            },
            ({
                let row = if y <= old(scan_render).last_y() {
                    0
                } else {
                    old(scan_render).row()
                };
                let shown = final(scan_render).display_list();
                let pixels = old(self).line(guard.buf_ix()).subrange(
                    1,
                    old(self).line(guard.buf_ix()).len() as int,
                );
                if row < shown.height() {
                    &&& final(line_buf)@ == shown.rendered(row, old(line_buf)@)
                    &&& final(self).line(guard.buf_ix()).subrange(
                        1,
                        old(self).line(guard.buf_ix()).len() as int,
                    ) == written(pixels, shown.scanned(row, final(line_buf)@))
                    &&& final(scan_render).row() == row + 1
                } else {
                    &&& final(line_buf)@ == old(line_buf)@
                    &&& final(self).line(guard.buf_ix()) == old(self).line(guard.buf_ix())
                    &&& final(scan_render).row() == row
                }
            }),
    {
        let line: &mut Vec<u32> = &mut self.video_lines[guard.buf_ix];
        let (_head, pixels) = line.as_mut_slice().split_at_mut(1);
        scan_render.render_scanline(cell, line_buf, pixels, y)
    }
}

/// The words that a DMA channel is pointed at.
#[derive(Clone, Copy, PartialEq, Eq, Structural)]
pub enum LineSource {
    /// The command list for the blanking part of a line.
    SyncPulse { vsync: bool },
    /// The command list for the active part of a line without picture.
    SyncLineOnly { vsync: bool },
    /// The line that stands in for a line that was not produced in time.
    ErrLine,
    /// A buffer with a line of the picture.
    VideoLine { buf_ix: usize },
}

/// What the interrupt handler has to do for one interrupt.
#[derive(Clone, Copy)]
pub struct IrqAction {
    /// The DMA channel that has completed: its interrupt is to be cleared,
    /// and it is to be pointed at `source`.
    pub channel: usize,
    /// The words that the channel sends when its turn comes again.
    pub source: LineSource,
    /// The line that was put on the queue, if one was: the producer is to
    /// be woken.
    pub queued: Option<u32>,
}

/// The state of the interrupt handler.
///
/// Two DMA channels take turns: one sends the blanking part of a line
/// while the other sends its active part, and each interrupts when it is
/// done, to be pointed at what it sends next.
pub struct DviInst {
    timing: DviTiming,
    dma_pong: bool,
    timing_state: DviTimingState,
    sync_pulse_vsync_off: [u32; SYNC_LINE_WORDS],
    sync_pulse_vsync_on: [u32; SYNC_LINE_WORDS],
    sync_line_only_vsync_off: [u32; SYNC_LINE_ONLY_WORDS],
    sync_line_only_vsync_on: [u32; SYNC_LINE_ONLY_WORDS],
    err_line: [u32; SYNC_LINE_ONLY_WORDS],
    missed: [bool; N_VIDEO_BUFFERS],
}

/// The command list that sends the pixels of [`ERR_PIXELS`] for a whole
/// line, the last sixteen one by one.
pub open spec fn err_line_words(t: DviTiming) -> Seq<u32> {
    seq![
        hstx_command(3, (t.h_active_pixels - 16) as u32),
        ERR_PIXELS,
        hstx_command(2, 16),
        ERR_PIXELS,
        ERR_PIXELS,
        ERR_PIXELS,
        ERR_PIXELS,
        ERR_PIXELS,
        ERR_PIXELS,
        ERR_PIXELS,
        ERR_PIXELS,
    ]
}

/// A buffer for a line of the picture before anything is drawn: the
/// command for a line of pixels, and pixels with all bits set.
pub open spec fn blank_video_line(t: DviTiming) -> Seq<u32> {
    seq![hstx_command(2, t.h_active_pixels)] + Seq::new(
        (t.h_active_pixels / 2) as nat,
        |i: int| 0xffff_ffffu32,
    )
}

impl DviInst {
    /// The video mode.
    pub closed spec fn timing(&self) -> DviTiming {
        self.timing
    }

    /// Which of the two channels interrupts next: the one that sends the
    /// active part of the lines, if set.
    pub closed spec fn dma_pong(&self) -> bool {
        self.dma_pong
    }

    /// The line counter.
    pub closed spec fn v_ctr(&self) -> int {
        self.timing_state@
    }

    /// Which buffers were found lent when their next line was due.
    pub closed spec fn missed(&self) -> Seq<bool> {
        self.missed@
    }

    /// The invariant: the line counter lies within the frame, and the
    /// command lists are those of the video mode.
    pub closed spec fn wf(&self) -> bool {
        &&& self.timing.valid()
        &&& self.timing.h_back_porch >= 8
        &&& self.timing.h_active_pixels >= 16
        &&& 0 <= self.timing_state@ < self.timing.frame_lines()
        &&& self.sync_pulse_vsync_off@ == self.timing.sync_pulse_words(false)
        &&& self.sync_pulse_vsync_on@ == self.timing.sync_pulse_words(true)
        &&& self.sync_line_only_vsync_off@ == self.timing.sync_line_only_words(false)
        &&& self.sync_line_only_vsync_on@ == self.timing.sync_line_only_words(true)
        &&& self.err_line@ == err_line_words(self.timing)
    }

    /// There is a flag for each buffer, the video mode is valid, and the
    /// line counter lies within the frame.
    pub proof fn lemma_counter_in_frame(&self)
        requires
            self.wf(),
        ensures
            self.missed().len() == N_VIDEO_BUFFERS,
            self.timing().valid(),
            self.timing().h_back_porch >= 8,
            self.timing().h_active_pixels >= 16,
            0 <= self.v_ctr() < self.timing().frame_lines(),
    {
    }

    /// The words that `source` stands for.
    pub open spec fn source_words(&self, out: &DviOut, source: LineSource) -> Seq<u32> {
        match source {
            LineSource::SyncPulse { vsync } => self.timing().sync_pulse_words(vsync),
            LineSource::SyncLineOnly { vsync } => self.timing().sync_line_only_words(vsync),
            LineSource::ErrLine => err_line_words(self.timing()),
            LineSource::VideoLine { buf_ix } => out.line(buf_ix as int),
        }
    }

    /// What the channel that sent the active part of a line sends next,
    /// when the line counter is `v_ctr`: in the picture the buffer of the
    /// row, or the line that stands in for it if the buffer is lent or
    /// was found lent when the row was due; else a line without picture.
    pub open spec fn active_source(&self, out: &DviOut) -> LineSource {
        let state = self.timing().line_state(self.v_ctr());
        if state == DviTimingLineState::Active {
            let row = match self.timing().scanline_index(self.v_ctr(), 0) {
                Some(y) => y,
                None => 0,
            };
            let buf_ix = row % 2;
            if self.missed()[buf_ix] || out.lent()[buf_ix] {
                LineSource::ErrLine
            } else {
                LineSource::VideoLine { buf_ix: buf_ix as usize }
            }
        } else {
            LineSource::SyncLineOnly { vsync: state == DviTimingLineState::Sync }
        }
    }

    /// The row that is due to be produced when the line counter is
    /// `v_ctr`: the row that is sent after the slack of the pipeline and
    /// the time that the other buffers give.
    pub open spec fn row_due(&self) -> Option<int> {
        self.timing().scanline_index(self.v_ctr(), VIDEO_PIPELINE_SLACK + 1)
    }

    /// The state for a video mode, with the first line set up, and the
    /// buffers of `out` made ready for lines of the mode.
    pub fn new(timing: DviTiming, out: &mut DviOut) -> (r: Self)
        requires
            old(out).wf(),
            timing.valid(),
            timing.h_back_porch >= 8,
            timing.h_active_pixels >= 16,
            timing.frame_lines() > 1,
            timing.h_active_pixels / 2 < usize::MAX,
        ensures
            r.wf(),
            r.timing() == timing,
            !r.dma_pong(),
            r.v_ctr() == 1,
            r.missed() == seq![false, false],
            final(out).wf(),
            final(out).queue() == old(out).queue(),
            final(out).lent() == old(out).lent(),
            final(out).line(0) == blank_video_line(timing),
            final(out).line(1) == blank_video_line(timing),
    {
        let sync_pulse_vsync_off = timing.make_sync_pulse(false);
        let sync_pulse_vsync_on = timing.make_sync_pulse(true);
        let sync_line_only_vsync_off = timing.make_sync_line_only(false);
        let sync_line_only_vsync_on = timing.make_sync_line_only(true);
        let mut err_line = [ERR_PIXELS; SYNC_LINE_ONLY_WORDS];
        err_line[0] = hstx_cmd_tmds_repeat(timing.h_active_pixels - 16);
        err_line[2] = hstx_cmd_tmds(16);
        assert(err_line@ =~= err_line_words(timing));

        let pixels = (timing.h_active_pixels / 2) as usize;
        let mut i: usize = 0;
        while i < N_VIDEO_BUFFERS
            invariant
                i <= N_VIDEO_BUFFERS,
                pixels == timing.h_active_pixels / 2,
                pixels < usize::MAX,
                out.wf(),
                out.queue() == old(out).queue(),
                out.lent() == old(out).lent(),
                forall|j: int| 0 <= j < i ==> out.line(j) == blank_video_line(timing),
            decreases N_VIDEO_BUFFERS - i,
        {
            let mut buf: Vec<u32> = Vec::new();
            buf.push(hstx_cmd_tmds(timing.h_active_pixels));
            let mut k: usize = 0;
            while k < pixels
                invariant
                    k <= pixels,
                    buf@.len() == k + 1,
                    buf@[0] == hstx_command(2, timing.h_active_pixels),
                    forall|j: int| 1 <= j <= k ==> buf@[j] == 0xffff_ffffu32,
                decreases pixels - k,
            {
                buf.push(0xffff_ffff);
                k += 1;
            }
            assert(buf@ =~= blank_video_line(timing));
            let ghost before = *out;
            out.video_lines[i] = buf;
            proof {
                assert forall|j: int| 0 <= j < i implies out.line(j) == blank_video_line(
                    timing,
                ) by {
                    assert(out.line(j) == before.line(j));
                }
            }
            i += 1;
        }

        DviInst {
            timing,
            dma_pong: false,
            timing_state: DviTimingState::new(1),
            sync_pulse_vsync_off,
            sync_pulse_vsync_on,
            sync_line_only_vsync_off,
            sync_line_only_vsync_on,
            err_line,
            missed: [false; N_VIDEO_BUFFERS],
        }
    }

    /// The line counter.
    pub fn line_counter(&self) -> (r: u32)
        ensures
            r == self.v_ctr(),
    {
        self.timing_state.v_ctr()
    }

    /// The words that `source` stands for, as they lie in memory.
    pub fn line_words<'a>(&'a self, out: &'a DviOut, source: LineSource) -> (r: &'a [u32])
        requires
            self.wf(),
            out.wf(),
            source matches LineSource::VideoLine { buf_ix } ==> buf_ix < N_VIDEO_BUFFERS,
        ensures
            r@ == self.source_words(out, source),
    {
        match source {
            LineSource::SyncPulse { vsync } => {
                if vsync {
                    self.sync_pulse_vsync_on.as_slice()
                } else {
                    self.sync_pulse_vsync_off.as_slice()
                }
            },
            LineSource::SyncLineOnly { vsync } => {
                if vsync {
                    self.sync_line_only_vsync_on.as_slice()
                } else {
                    self.sync_line_only_vsync_off.as_slice()
                }
            },
            LineSource::ErrLine => self.err_line.as_slice(),
            LineSource::VideoLine { buf_ix } => out.video_lines[buf_ix].as_slice(),
        }
    }

    /// Handles the interrupt of the channel whose turn it is.
    ///
    /// The channel that has sent the blanking part of a line is pointed at
    /// the blanking part of the next line. The channel that has sent the
    /// active part of a line is pointed at the active part of the next
    /// line; then the row that is due is put on the queue, unless its
    /// buffer is still lent, which is remembered as a miss, and the line
    /// counter moves on.
    pub fn on_irq(&mut self, out: &mut DviOut) -> (r: IrqAction)
        requires
            old(self).wf(),
            old(out).wf(),
        ensures
            final(self).wf(),
            final(out).wf(),
            final(self).timing() == old(self).timing(),
            final(self).dma_pong() == !old(self).dma_pong(),
            final(out).line(0) == old(out).line(0),
            final(out).line(1) == old(out).line(1),
            r.channel == if old(self).dma_pong() {
                1usize
            } else {
                0usize
            },
            !old(self).dma_pong() ==> {
                &&& r.source == LineSource::SyncPulse {
                    vsync: old(self).timing().line_state(old(self).v_ctr())
                        == DviTimingLineState::Sync,
                }
                &&& r.queued.is_none()
                &&& final(self).v_ctr() == old(self).v_ctr()
                &&& final(self).missed() == old(self).missed()
                &&& final(out).queue() == old(out).queue()
                &&& final(out).lent() == old(out).lent()
            },
            old(self).dma_pong() ==> {
                &&& r.source == old(self).active_source(old(out))
                &&& final(self).v_ctr() == old(self).timing().next_count(old(self).v_ctr())
                &&& match old(self).row_due() {
                    Some(y) => {
                        let was_lent = old(out).lent()[y % 2];
                        &&& final(self).missed() == old(self).missed().update(y % 2, was_lent)
                        &&& final(out).lent() == old(out).lent().update(y % 2, true)
                        &&& final(out).queue() == if was_lent {
                            old(out).queue()
                        } else {
                            old(out).queue().push(y as u32)
                        }
                        &&& r.queued == if was_lent {
                            None
                        } else {
                            Some(y as u32)
                        }
                    },
                    None => {
                        &&& final(self).missed() == old(self).missed()
                        &&& final(out).lent() == old(out).lent()
                        &&& final(out).queue() == old(out).queue()
                        &&& r.queued.is_none()
                    },
                }
            },
    {
        let channel: usize = if self.dma_pong { 1 } else { 0 };
        self.dma_pong = !self.dma_pong;
        let state = self.timing_state.v_state(&self.timing);
        if self.dma_pong {
            let source = match state {
                DviTimingLineState::Sync => LineSource::SyncPulse { vsync: true },
                _ => LineSource::SyncPulse { vsync: false },
            };
            IrqAction { channel, source, queued: None }
        } else {
            let source = match state {
                DviTimingLineState::Active => {
                    let y = match self.timing_state.v_scanline_index(&self.timing, 0) {
                        Some(y) => y,
                        None => 0,
                    };
                    let buf_ix = (y as usize / VERTICAL_REPEAT) % N_VIDEO_BUFFERS;
                    if self.missed[buf_ix] || out.line_lent[buf_ix] {
                        LineSource::ErrLine
                    } else {
                        LineSource::VideoLine { buf_ix }
                    }
                },
                DviTimingLineState::Sync => LineSource::SyncLineOnly { vsync: true },
                _ => LineSource::SyncLineOnly { vsync: false },
            };
            let offset = VIDEO_PIPELINE_SLACK + ((N_VIDEO_BUFFERS - 1) * VERTICAL_REPEAT) as u32;
            let mut queued = None;
            match self.timing_state.v_scanline_index(&self.timing, offset) {
                Some(y) => {
                    let buf_ix = y as usize % N_VIDEO_BUFFERS;
                    let missed = out.line_lent[buf_ix];
                    if !missed {
                        proof {
                            let q = out.line_queue@;
                            if q.len() >= 2 {
                                assert(out.line_lent@[q[0] as int % 2]);
                                assert(out.line_lent@[q[1] as int % 2]);
                                assert(q[0] % 2 != q[1] % 2);
                            }
                        }
                        let ghost before = out.line_queue@;
                        out.line_queue.push_unchecked(y);
                        out.line_lent[buf_ix] = true;
                        queued = Some(y);
                        proof {
                            assert forall|i: int| 0 <= i < out.line_queue@.len() implies out.line_lent@[(
                            #[trigger] out.line_queue@[i]) as int % 2] by {
                                if i < before.len() {
                                    assert(out.line_queue@[i] == before[i]);
                                    assert(old(out).line_lent@[before[i] as int % 2]);
                                }
                            }
                            assert forall|i: int, j: int|
                                0 <= i < j < out.line_queue@.len() implies (
                            #[trigger] out.line_queue@[i]) % 2 != (#[trigger] out.line_queue@[j])
                                % 2 by {
                                assert(out.line_queue@[i] == before[i]);
                                assert(old(out).line_lent@[before[i] as int % 2]);
                                if j < before.len() {
                                    assert(out.line_queue@[j] == before[j]);
                                }
                            }
                        }
                    }
                    self.missed[buf_ix] = missed;
                    assert(out.line_lent@ =~= old(out).line_lent@.update(y as int % 2, true));
                },
                None => {},
            }
            self.timing_state.advance(&self.timing);
            IrqAction { channel, source, queued }
        }
    }
}

/// Produces the line that has waited longest on the queue, if one waits:
/// the line is taken off the queue, produced into its buffer, and the
/// buffer is given back. Returns whether a line was produced, and whether
/// a new display list was swapped in for it.
pub fn produce_line(
    out: &mut DviOut,
    scan_render: &mut ScanRender,
    cell: &mut SwapCell<DisplayList>,
    line_buf: &mut LineBuf,
) -> (r: Option<bool>)
    requires
        old(out).wf(),
        old(scan_render).wf(),
        old(out).line(0).len() >= 1,
        old(out).line(1).len() >= 1,
    ensures
        final(out).wf(),
        final(scan_render).wf(),
        r.is_some() == (old(out).queue().len() > 0),
        r.is_some() ==> {
            let y = old(out).queue()[0];
            let buf_ix = y as int % 2;
            let restart = y <= old(scan_render).last_y();
            let row = if restart {
                0
            } else {
                old(scan_render).row()
            };
            let shown = final(scan_render).display_list();
            let pixels = old(out).line(buf_ix).subrange(1, old(out).line(buf_ix).len() as int);
            &&& final(out).queue() == old(out).queue().drop_first()
            &&& final(out).lent() == old(out).lent().update(buf_ix, false)
            &&& final(out).line(1 - buf_ix) == old(out).line(1 - buf_ix)
            &&& final(out).line(buf_ix)[0] == old(out).line(buf_ix)[0]
            &&& final(scan_render).last_y() == y
            &&& r.unwrap() == (restart && old(cell)@.swaps())
            &&& final(cell)@ == if restart {
                old(cell)@.after_swap(old(scan_render).display_list())
            } else {
                old(cell)@
            }
            &&& shown == if restart {
                old(cell)@.swapped_out(old(scan_render).display_list())
            } else {
                old(scan_render).display_list()
            }
            &&& if row < shown.height() {
                &&& final(line_buf)@ == shown.rendered(row, old(line_buf)@)
                &&& final(out).line(buf_ix).subrange(1, old(out).line(buf_ix).len() as int)
                    == written(pixels, shown.scanned(row, final(line_buf)@))
                &&& final(scan_render).row() == row + 1
            } else {
                &&& final(line_buf)@ == old(line_buf)@
                &&& final(out).line(buf_ix) == old(out).line(buf_ix)
                &&& final(scan_render).row() == row
            }
        },
        r.is_none() ==> {
            &&& final(out).queue() == old(out).queue()
            &&& final(out).lent() == old(out).lent()
            &&& final(out).line(0) == old(out).line(0)
            &&& final(out).line(1) == old(out).line(1)
            &&& final(cell)@ == old(cell)@
            &&& final(line_buf)@ == old(line_buf)@
            &&& final(scan_render).display_list() == old(scan_render).display_list()
            &&& final(scan_render).row() == old(scan_render).row()
            &&& final(scan_render).last_y() == old(scan_render).last_y()
        },
        final(out).line(0).len() == old(out).line(0).len(),
        final(out).line(1).len() == old(out).line(1).len(),
{
    match out.get_line() {
        Some((y, guard)) => {
            let swapped = out.render(&guard, scan_render, cell, line_buf, y);
            out.release(guard);
            Some(swapped)
        },
        None => None,
    }
}

} // verus!
