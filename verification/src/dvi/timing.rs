//! Video mode timing and the state machine that follows the scan position
//! line by line.

use vstd::prelude::*;
use crate::dvi::data_island::{guard_symbol, island_symbol, DataPacket};
use crate::dvi::tmds::{control_bits, TmdsSymbol};
use crate::dvi::{hstx_cmd_raw, hstx_cmd_raw_repeat, hstx_command};

verus! {

/// Number of words at the end of a sync period that are sent one by one,
/// so that the next command is fetched in time.
pub const SYNC_TRAILING_RAW: usize = 8;

/// Length in words of the command list for the blanking part of a line.
pub const SYNC_LINE_WORDS: usize = 15;

/// Length in words of the command list for a line without picture.
pub const SYNC_LINE_ONLY_WORDS: usize = 11;

/// Length in words of the command list for the blanking part of a line
/// that carries a data island.
pub const SYNC_DATA_ISLAND_LEN: usize = 56;

/// The guard symbols that precede a line of the picture after a data
/// island.
pub const VIDEO_GUARD: u32 = 0x2cc | (0x133 << 10) | (0x2cc << 20);

/// Three control symbols side by side, one for each lane: lane 0 in bits
/// 0..10, lane 1 in bits 10..20, lane 2 in bits 20..30.
pub open spec fn lanes3(lane0: u32, lane1: u32, lane2: u32) -> u32 {
    lane0 | (lane1 << 10) | (lane2 << 20)
}

/// The static configuration of a video mode: widths of the porches, the
/// sync pulse and the active region, horizontally in pixels and vertically
/// in lines, and the serial bit clock.
#[derive(Clone, Copy)]
pub struct DviTiming {
    pub h_sync_polarity: bool,
    pub h_front_porch: u32,
    pub h_sync_width: u32,
    pub h_back_porch: u32,
    pub h_active_pixels: u32,
    pub v_sync_polarity: bool,
    pub v_front_porch: u32,
    pub v_sync_width: u32,
    pub v_back_porch: u32,
    pub v_active_lines: u32,
    /// Serial bit clock in kilohertz.
    pub bit_clk_khz: u32,
}

/// The region of the frame that a line belongs to.
#[derive(Clone, Copy, PartialEq, Eq, Structural)]
pub enum DviTimingLineState {
    FrontPorch,
    Sync,
    BackPorch,
    Active,
}

impl Default for DviTimingLineState {
    fn default() -> (r: Self)
        ensures
            r == DviTimingLineState::FrontPorch,
    {
        DviTimingLineState::FrontPorch
    }
}

impl DviTiming {
    /// Number of lines of a frame that carry no picture.
    pub open spec fn blanking_lines(&self) -> int {
        self.v_front_porch + self.v_sync_width + self.v_back_porch
    }

    /// Number of lines of a whole frame.
    pub open spec fn frame_lines(&self) -> int {
        self.blanking_lines() + self.v_active_lines
    }

    /// Number of pixel clocks of a whole line.
    pub open spec fn line_pixels(&self) -> int {
        self.h_front_porch + self.h_sync_width + self.h_back_porch + self.h_active_pixels
    }

    /// A timing is usable when its line counter and its pixel counter fit
    /// the registers that hold them.
    pub open spec fn valid(&self) -> bool {
        &&& self.frame_lines() <= u32::MAX
        &&& self.line_pixels() <= u32::MAX
    }

    /// The region that line `v_count` of a frame lies in: the front porch
    /// comes first, then the sync pulse, the back porch and the picture.
    pub open spec fn line_state(&self, v_count: int) -> DviTimingLineState {
        if v_count < self.v_front_porch {
            DviTimingLineState::FrontPorch
        } else if v_count < self.v_front_porch + self.v_sync_width {
            DviTimingLineState::Sync
        } else if v_count < self.blanking_lines() {
            DviTimingLineState::BackPorch
        } else {
            DviTimingLineState::Active
        }
    }

    /// The line counter that follows `v_count`: one more, starting over
    /// when the frame is complete.
    pub open spec fn next_count(&self, v_count: int) -> int {
        if v_count + 1 == self.frame_lines() {
            0
        } else {
            v_count + 1
        }
    }

    /// The line counter after `n` lines, starting from `v_count`.
    pub open spec fn count_after(&self, v_count: int, n: nat) -> int
        decreases n,
    {
        if n == 0 {
            v_count
        } else {
            self.count_after(self.next_count(v_count), (n - 1) as nat)
        }
    }

    /// The picture row of the line that lies `offset` lines after
    /// `v_count`, if that line lies in the picture of the same frame.
    pub open spec fn scanline_index(&self, v_count: int, offset: int) -> Option<int> {
        let y = v_count + offset - self.blanking_lines();
        if 0 <= y < self.v_active_lines {
            Some(y)
        } else {
            None
        }
    }

    /// The standard 640 by 480 mode at 60 Hz.
    pub fn vga() -> (r: Self)
        ensures
            r.valid(),
            r.frame_lines() == 525,
            r.line_pixels() == 800,
            r == (DviTiming {
                h_sync_polarity: false,
                h_front_porch: 16,
                h_sync_width: 96,
                h_back_porch: 48,
                h_active_pixels: 640,
                v_sync_polarity: false,
                v_front_porch: 10,
                v_sync_width: 2,
                v_back_porch: 33,
                v_active_lines: 480,
                bit_clk_khz: 252000,
            }),
    {
        DviTiming {
            h_sync_polarity: false,
            h_front_porch: 16,
            h_sync_width: 96,
            h_back_porch: 48,
            h_active_pixels: 640,
            v_sync_polarity: false,
            v_front_porch: 10,
            v_sync_width: 2,
            v_back_porch: 33,
            v_active_lines: 480,
            bit_clk_khz: 252000,
        }
    }

    /// The word that all three lanes send during blanking: lane 0 carries
    /// the two sync signals, each asserted when it equals its polarity, and
    /// the other lanes carry the idle control symbol.
    pub open spec fn sync_word(&self, h_sync: bool, v_sync: bool) -> u32 {
        lanes3(
            control_bits(h_sync == self.h_sync_polarity, v_sync == self.v_sync_polarity),
            control_bits(false, false),
            control_bits(false, false),
        )
    }

    /// The command list for the blanking part of a line: the front porch,
    /// the sync pulse and the back porch, whose last eight words are sent
    /// one by one.
    pub open spec fn sync_pulse_words(&self, v_sync: bool) -> Seq<u32> {
        let off = self.sync_word(false, v_sync);
        let on = self.sync_word(true, v_sync);
        seq![
            hstx_command(1, self.h_front_porch),
            off,
            hstx_command(1, self.h_sync_width),
            on,
            hstx_command(1, (self.h_back_porch - 8) as u32),
            off,
            hstx_command(0, 8),
            off,
            off,
            off,
            off,
            off,
            off,
            off,
            off,
        ]
    }

    /// The command list for the active part of a line that shows no
    /// picture: sync off throughout, the last eight words sent one by one.
    pub open spec fn sync_line_only_words(&self, v_sync: bool) -> Seq<u32> {
        let off = self.sync_word(false, v_sync);
        seq![
            hstx_command(1, (self.h_active_pixels - 8) as u32),
            off,
            hstx_command(0, 8),
            off,
            off,
            off,
            off,
            off,
            off,
            off,
            off,
        ]
    }

    /// The word that all three lanes send during blanking for a state of the
    /// two sync signals.
    pub fn tmds3_for_sync(&self, h_sync: bool, v_sync: bool) -> (r: u32)
        ensures
            r == self.sync_word(h_sync, v_sync),
    {
        let h_bit = h_sync == self.h_sync_polarity;
        let v_bit = v_sync == self.v_sync_polarity;
        let tmds_lane_0 = TmdsSymbol::control(h_bit, v_bit).raw();
        let tmds_lane_1 = TmdsSymbol::control(false, false).raw();
        let tmds_lane_2 = TmdsSymbol::control(false, false).raw();
        tmds_lane_0 | (tmds_lane_1 << 10) | (tmds_lane_2 << 20)
    }

    /// The command list for the blanking part of a line.
    pub fn make_sync_pulse(&self, v_sync: bool) -> (r: [u32; SYNC_LINE_WORDS])
        requires
            self.h_back_porch >= 8,
        ensures
            r@ == self.sync_pulse_words(v_sync),
    {
        let h_sync_off = self.tmds3_for_sync(false, v_sync);
        let mut line = [h_sync_off; SYNC_LINE_WORDS];
        line[0] = hstx_cmd_raw_repeat(self.h_front_porch);
        line[2] = hstx_cmd_raw_repeat(self.h_sync_width);
        line[3] = self.tmds3_for_sync(true, v_sync);
        line[4] = hstx_cmd_raw_repeat(self.h_back_porch - 8);
        line[6] = hstx_cmd_raw(8);
        line
    }

    /// The command list for the active part of a line without picture.
    pub fn make_sync_line_only(&self, v_sync: bool) -> (r: [u32; SYNC_LINE_ONLY_WORDS])
        requires
            self.h_active_pixels >= 8,
        ensures
            r@ == self.sync_line_only_words(v_sync),
    {
        let h_sync_off = self.tmds3_for_sync(false, v_sync);
        let mut line = [h_sync_off; SYNC_LINE_ONLY_WORDS];
        line[0] = hstx_cmd_raw_repeat(self.h_active_pixels - 8);
        line[2] = hstx_cmd_raw(8);
        line
    }

    /// The state of the sync signals during a data island of a line of
    /// region `state`, horizontal in bit 0 and vertical in bit 1.
    pub open spec fn island_hv(&self, state: DviTimingLineState) -> u8 {
        ((if self.h_sync_polarity {
            1int
        } else {
            0int
        }) + (if (state == DviTimingLineState::Sync) == self.v_sync_polarity {
            2int
        } else {
            0int
        })) as u8
    }

    /// Word `i` of the command list for the blanking part of a line of
    /// region `state` that carries a packet, where `before` is the list
    /// with its commands in place.
    ///
    /// The packet takes the place of the sync pulse: the front porch ends
    /// with the preamble that announces it, and its 36 symbols are sent
    /// with horizontal sync on. In the picture the back porch ends with
    /// the preamble and the guard symbols for a line of pixels.
    pub open spec fn island_word(
        &self,
        state: DviTimingLineState,
        header: Seq<u8>,
        subpackets: Seq<Seq<u8>>,
        before: Seq<u32>,
        i: int,
    ) -> u32 {
        let v_sync = state == DviTimingLineState::Sync;
        let off = self.sync_word(false, v_sync);
        let on = self.sync_word(true, v_sync);
        let vid_preamble = off ^ (0x3ffu32 << 10);
        let hv = self.island_hv(state);
        if i == 1 || i == 44 {
            off
        } else if i == 3 {
            vid_preamble ^ (0x3ffu32 << 20)
        } else if i == 5 || i == 6 || i == 39 || i == 40 {
            guard_symbol(hv)
        } else if 7 <= i < 39 {
            island_symbol(header, subpackets, hv, i - 7)
        } else if i == 42 {
            on
        } else if 46 <= i < 54 {
            if state == DviTimingLineState::Active {
                vid_preamble
            } else {
                off
            }
        } else if 54 <= i < 56 {
            if state == DviTimingLineState::Active {
                VIDEO_GUARD
            } else {
                off
            }
        } else {
            before[i]
        }
    }

    /// Puts the commands of a blanking period with a data island in
    /// place: eight words before the end of the front porch the preamble
    /// begins, the first 36 words of the sync pulse are the packet, and
    /// the last ten words of the back porch are sent one by one.
    pub fn init_data_island(&self, line: &mut [u32; SYNC_DATA_ISLAND_LEN])
        requires
            self.h_front_porch >= 8,
            self.h_sync_width >= 36,
            self.h_back_porch >= 10,
        ensures
            final(line)@ == old(line)@.update(0, hstx_command(1, (self.h_front_porch - 8) as u32))
                .update(2, hstx_command(1, 8)).update(4, hstx_command(0, 36)).update(
                41,
                hstx_command(1, (self.h_sync_width - 36) as u32),
            ).update(43, hstx_command(1, (self.h_back_porch - 10) as u32)).update(
                45,
                hstx_command(0, 10),
            ),
    {
        line[0] = hstx_cmd_raw_repeat(self.h_front_porch - 8);
        line[2] = hstx_cmd_raw_repeat(8);
        line[4] = hstx_cmd_raw(36);
        line[41] = hstx_cmd_raw_repeat(self.h_sync_width - 36);
        line[43] = hstx_cmd_raw_repeat(self.h_back_porch - 10);
        line[45] = hstx_cmd_raw(10);
    }

    /// Fills in the words of a blanking period that carries `packet`, for
    /// a line of region `state`. The commands stay as they are.
    pub fn encode_data_island(
        &self,
        line: &mut [u32; SYNC_DATA_ISLAND_LEN],
        state: DviTimingLineState,
        packet: &DataPacket,
    )
        ensures
            forall|i: int|
                0 <= i < SYNC_DATA_ISLAND_LEN ==> #[trigger] final(line)@[i] == self.island_word(
                    state,
                    packet.header_seq(),
                    packet.subpackets(),
                    old(line)@,
                    i,
                ),
    {
        let v_sync = state == DviTimingLineState::Sync;
        let h_bit: u8 = if self.h_sync_polarity { 1 } else { 0 };
        let v_bit: u8 = if v_sync == self.v_sync_polarity { 1 } else { 0 };
        let hv = h_bit + 2 * v_bit;
        let mut island = [0u32; 36];
        packet.encode(hv, &mut island);
        let mut i: usize = 0;
        while i < 36
            invariant
                i <= 36,
                forall|k: int| 0 <= k < i ==> #[trigger] line@[k + 5] == island@[k],
                forall|k: int|
                    0 <= k < SYNC_DATA_ISLAND_LEN && !(5 <= k < 5 + i) ==> line@[k] == old(line)@[k],
            decreases 36 - i,
        {
            line[i + 5] = island[i];
            i += 1;
        }
        let ghost copied = line@;
        proof {
            assert forall|j: int| 5 <= j < 41 implies copied[j] == island@[j - 5] by {
                assert(copied[(j - 5) + 5] == island@[j - 5]);
            }
        }
        let sync_off = self.tmds3_for_sync(false, v_sync);
        let sync_on = self.tmds3_for_sync(true, v_sync);
        let vid_preamble = sync_off ^ (0x3ff << 10);
        let data_preamble = vid_preamble ^ (0x3ff << 20);
        line[1] = sync_off;
        line[3] = data_preamble;
        line[42] = sync_on;
        line[44] = sync_off;
        let active = state == DviTimingLineState::Active;
        proof {
            assert forall|j: int| 0 <= j < 46 implies line@[j] == if j == 1 || j == 44 {
                sync_off
            } else if j == 3 {
                data_preamble
            } else if j == 42 {
                sync_on
            } else if 5 <= j < 41 {
                island@[j - 5]
            } else {
                old(line)@[j]
            } by {
                if !(j == 1 || j == 44 || j == 3 || j == 42) {
                    assert(line@[j] == copied[j]);
                }
            }
        }
        let mut k: usize = 46;
        while k < 56
            invariant
                46 <= k <= 56,
                forall|j: int|
                    46 <= j < k ==> line@[j] == if !active {
                        sync_off
                    } else if j < 54 {
                        vid_preamble
                    } else {
                        VIDEO_GUARD
                    },
                forall|j: int| 0 <= j < 46 ==> line@[j] == if j == 1 || j == 44 {
                    sync_off
                } else if j == 3 {
                    data_preamble
                } else if j == 42 {
                    sync_on
                } else if 5 <= j < 41 {
                    island@[j - 5]
                } else {
                    old(line)@[j]
                },
            decreases 56 - k,
        {
            line[k] = if !active {
                sync_off
            } else if k < 54 {
                vid_preamble
            } else {
                VIDEO_GUARD
            };
            k += 1;
        }
        proof {
            assert forall|i: int| 0 <= i < SYNC_DATA_ISLAND_LEN implies #[trigger] line@[i]
                == self.island_word(
                state,
                packet.header_seq(),
                packet.subpackets(),
                old(line)@,
                i,
            ) by {
                if 7 <= i < 39 {
                    assert(island@[(i - 7) + 2] == island_symbol(
                        packet.header_seq(),
                        packet.subpackets(),
                        hv,
                        i - 7,
                    ));
                }
            }
        }
    }

    /// Fills in the words of a blanking period that carries a packet of
    /// zeros, for a line of region `state`.
    pub fn encode_data_island_empty(
        &self,
        line: &mut [u32; SYNC_DATA_ISLAND_LEN],
        state: DviTimingLineState,
    )
        ensures
            forall|i: int|
                0 <= i < SYNC_DATA_ISLAND_LEN ==> #[trigger] final(line)@[i] == self.island_word(
                    state,
                    seq![0u8, 0u8, 0u8, 0u8],
                    Seq::new(4, |k: int| Seq::new(8, |b: int| 0u8)),
                    old(line)@,
                    i,
                ),
    {
        let packet = DataPacket::new();
        proof {
            let zeros = Seq::new(4, |k: int| Seq::new(8, |b: int| 0u8));
            assert forall|i: int| 0 <= i < 4 implies packet.subpackets()[i] == zeros[i] by {
                assert(packet.subpacket_seq(i) == Seq::new(8, |k: int| 0u8));
                assert(zeros[i] =~= Seq::new(8, |k: int| 0u8));
            }
            assert(packet.subpackets() =~= zeros);
        }
        self.encode_data_island(line, state, &packet);
    }

    /// Number of lines of a whole frame.
    pub fn total_lines(&self) -> (r: u32)
        requires
            self.valid(),
        ensures
            r == self.frame_lines(),
    {
        self.v_front_porch + self.v_sync_width + self.v_back_porch + self.v_active_lines
    }

    /// The region that line `v_count` of a frame lies in.
    pub fn state_for_v_count(&self, v_count: u32) -> (r: DviTimingLineState)
        requires
            self.valid(),
        ensures
            r == self.line_state(v_count as int),
    {
        let mut y = v_count;
        if y < self.v_front_porch {
            return DviTimingLineState::FrontPorch;
        }
        y -= self.v_front_porch;
        if y < self.v_sync_width {
            return DviTimingLineState::Sync;
        }
        y -= self.v_sync_width;
        if y < self.v_back_porch {
            DviTimingLineState::BackPorch
        } else {
            DviTimingLineState::Active
        }
    }
}

/// The scan position: a counter of lines within the frame, advanced once
/// for every line that is sent.
pub struct DviTimingState {
    v_ctr: u32,
}

impl View for DviTimingState {
    type V = int;

    /// The line counter.
    closed spec fn view(&self) -> int {
        self.v_ctr as int
    }
}

impl DviTimingState {
    /// A scan position at line `init_value`.
    pub fn new(init_value: u32) -> (r: Self)
        ensures
            r@ == init_value,
    {
        DviTimingState { v_ctr: init_value }
    }

    /// Moves on to the next line of the frame.
    pub fn advance(&mut self, timing: &DviTiming)
        requires
            timing.valid(),
            old(self)@ < u32::MAX,
        ensures
            final(self)@ == timing.next_count(old(self)@),
    {
        self.v_ctr += 1;
        if self.v_ctr == timing.total_lines() {
            self.v_ctr = 0;
        }
    }

    /// The region of the frame that the current line lies in.
    pub fn v_state(&self, timing: &DviTiming) -> (r: DviTimingLineState)
        requires
            timing.valid(),
        ensures
            r == timing.line_state(self@),
    {
        timing.state_for_v_count(self.v_ctr)
    }

    /// The picture row of the line that lies `offset` lines ahead, or
    /// `None` where that line is not a picture line of the current frame.
    ///
    /// The offset is the slack of the pipeline: it lets rendering run ahead
    /// of the line that is being sent.
    pub fn v_scanline_index(&self, timing: &DviTiming, offset: u32) -> (r: Option<u32>)
        requires
            timing.valid(),
        ensures
            r.is_some() == timing.scanline_index(self@, offset as int).is_some(),
            r.is_some() ==> timing.scanline_index(self@, offset as int) == Some(r.unwrap() as int),
    {
        let inactive = timing.v_front_porch + timing.v_sync_width + timing.v_back_porch;
        let ahead = self.v_ctr as u64 + offset as u64;
        if ahead < inactive as u64 {
            return None;
        }
        let y = ahead - inactive as u64;
        if y < timing.v_active_lines as u64 {
            Some(y as u32)
        } else {
            None
        }
    }

    /// The line counter.
    pub fn v_ctr(&self) -> (r: u32)
        ensures
            r == self@,
    {
        self.v_ctr
    }
}

/// Within a frame, `n` lines on the counter has moved `n` places round the
/// frame.
pub proof fn lemma_count_after(timing: DviTiming, v_count: int, n: nat)
    requires
        0 <= v_count < timing.frame_lines(),
    ensures
        timing.count_after(v_count, n) == (v_count + n) % timing.frame_lines(),
    decreases n,
{
    let total = timing.frame_lines();
    if n == 0 {
        vstd::arithmetic::div_mod::lemma_small_mod(v_count as nat, total as nat);
    } else {
        let next = timing.next_count(v_count);
        lemma_count_after(timing, next, (n - 1) as nat);
        if v_count + 1 == total {
            vstd::arithmetic::div_mod::lemma_mod_add_multiples_vanish(n - 1, total);
            assert(v_count + n == total + (n - 1));
        } else {
            assert(next + (n - 1) == v_count + n);
        }
    }
}

/// The line counter is periodic: after as many lines as the frame has, it
/// is back where it started, and so is the region that it lies in.
pub proof fn lemma_frame_periodic(timing: DviTiming, v_count: int)
    requires
        0 <= v_count < timing.frame_lines(),
    ensures
        timing.count_after(v_count, timing.frame_lines() as nat) == v_count,
        timing.line_state(timing.count_after(v_count, timing.frame_lines() as nat))
            == timing.line_state(v_count),
{
    let total = timing.frame_lines();
    lemma_count_after(timing, v_count, total as nat);
    vstd::arithmetic::div_mod::lemma_mod_add_multiples_vanish(v_count, total);
    vstd::arithmetic::div_mod::lemma_small_mod(v_count as nat, total as nat);
}

/// Without offset, a line of the frame has a picture row exactly when it
/// lies in the active region, and the row is then its distance from the end
/// of blanking. So every blanking line has none.
pub proof fn lemma_scanline_index_active(timing: DviTiming, v_count: int)
    requires
        0 <= v_count < timing.frame_lines(),
    ensures
        timing.scanline_index(v_count, 0).is_some() <==> timing.line_state(v_count)
            == DviTimingLineState::Active,
        timing.scanline_index(v_count, 0).is_some() ==> timing.scanline_index(v_count, 0) == Some(
            v_count - timing.blanking_lines(),
        ),
{
}

/// Over one frame every picture row is met exactly once: row `y` on line
/// `blanking_lines() + y` and on no other.
pub proof fn lemma_scanline_index_once(timing: DviTiming, y: int)
    requires
        0 <= y < timing.v_active_lines,
    ensures
        0 <= timing.blanking_lines() + y < timing.frame_lines(),
        timing.scanline_index(timing.blanking_lines() + y, 0) == Some(y),
        forall|v_count: int|
            timing.scanline_index(v_count, 0) == Some(y) ==> v_count == timing.blanking_lines()
                + y,
{
}

/// The picture rows come in increasing order: a later line of the frame
/// has a larger row.
pub proof fn lemma_scanline_index_increasing(timing: DviTiming, first: int, second: int)
    requires
        first < second,
        timing.scanline_index(first, 0).is_some(),
        timing.scanline_index(second, 0).is_some(),
    ensures
        timing.scanline_index(first, 0).unwrap() < timing.scanline_index(second, 0).unwrap(),
{
}

} // verus!
