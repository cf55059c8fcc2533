//! The schedule of the data islands of a frame: which line carries which
//! packet, and how many samples of audio each line adds.
//!
//! Samples are collected line by line and sent on the even lines. At
//! 44100 samples a second and 31500 lines a second, seven samples come to
//! five lines: a sample for every line, and one more on two lines of five.
//! The first odd lines of a frame tell the sink about the audio, the
//! picture and the audio clock.

use vstd::prelude::*;
use crate::dvi::timing::{DviTiming, DviTimingLineState, SYNC_DATA_ISLAND_LEN};
use crate::dvi::data_island::{
    audio_info_body, avi_info_body, header_bytes, info_frame_checksum, info_frame_packets,
    sample_bytes, subpacket_bytes, ActiveFormatAspectRatio, Colorimetry, DataPacket,
    PictureAspectRatio, PixelFormat, QuantizationRange, ScanInfo, VideoCode,
};

verus! {

/// Number of samples that can wait to be sent: as many as a packet
/// carries.
pub const AUDIO_BUF: usize = 4;

/// Samples of audio a second.
pub const AUDIO_RATE: u32 = 44_100;

/// The cycle time stamp that the sink is given to regain the audio clock.
pub const AUDIO_CTS: u32 = 28000;

/// The divider that the sink is given to regain the audio clock.
pub const AUDIO_N: u32 = 6272;

/// Number of samples in a block of audio.
pub const AUDIO_BLOCK: i32 = 192;

/// What a line of the frame carries in its data island.
#[derive(Clone, Copy, PartialEq, Eq, Structural)]
pub enum LinePacket {
    /// The samples that wait.
    Samples,
    /// The info frame about the audio.
    AudioInfoFrame,
    /// The info frame about the picture.
    AviInfoFrame,
    /// How to regain the audio clock.
    ClockRegeneration,
    /// No packet.
    Nothing,
}

/// What line `y` of the frame carries: samples on the even lines, and on
/// lines 1, 3 and 5 what the sink has to know.
pub open spec fn packet_on_line(y: u32) -> LinePacket {
    if y % 2 == 0 {
        LinePacket::Samples
    } else if y == 1 {
        LinePacket::AudioInfoFrame
    } else if y == 3 {
        LinePacket::AviInfoFrame
    } else if y == 5 {
        LinePacket::ClockRegeneration
    } else {
        LinePacket::Nothing
    }
}

/// Number of samples that line `y` adds: two on the third and the fifth
/// line of every five, and one on the others.
pub open spec fn samples_on_line(y: u32) -> nat {
    if y % 5 == 2 || y % 5 == 4 {
        2
    } else {
        1
    }
}

/// The samples that wait after line `y` has added its samples, each with
/// `sample` for the left and for the right channel.
pub open spec fn queued(waiting: Seq<(i16, i16)>, y: u32, sample: i16) -> Seq<(i16, i16)> {
    waiting + Seq::new(samples_on_line(y), |i: int| (sample, sample))
}

/// The number of samples up to the next start of a block, after `n`
/// samples have been sent.
pub open spec fn count_after(count: int, n: int) -> int {
    if count - n < 0 {
        count - n + AUDIO_BLOCK
    } else {
        count - n
    }
}

/// Whether packet `p` is one with `samples`, made from the packet
/// `before`, when `count` samples are left to the next start of a block:
/// the header flags the samples that are there and the one that starts a
/// block, and the subpackets without a sample are as before.
pub open spec fn carries_samples(
    p: DataPacket,
    before: DataPacket,
    samples: Seq<(i16, i16)>,
    count: int,
) -> bool {
    &&& p.header_seq() == header_bytes(
        2,
        ((1u32 << (samples.len() as u32)) - 1) as u8,
        if count < 4 {
            ((1u32 << (count as u32)) << 4) as u8
        } else {
            0
        },
    )
    &&& forall|i: int|
        0 <= i < samples.len() ==> p.subpacket_seq(i) == subpacket_bytes(
            sample_bytes(samples[i].0, samples[i].1),
        )
    &&& forall|i: int| samples.len() <= i < 4 ==> p.subpacket_seq(i) == before.subpacket_seq(i)
}

/// Whether packet `p` is an info frame with the header bytes `kind`,
/// `version` and `len`, whose first subpacket is `body` with the checksum
/// of the frame in its first byte.
pub open spec fn is_info_frame(p: DataPacket, kind: u8, version: u8, len: u8, body: Seq<u8>) -> bool {
    &&& p.header_seq() == header_bytes(kind, version, len)
    &&& p.subpacket_seq(0) == subpacket_bytes(
        body.update(
            0,
            info_frame_checksum(header_bytes(kind, version, len), info_frame_packets(body)),
        ),
    )
    &&& forall|i: int| 1 <= i < 4 ==> p.subpacket_seq(i) == Seq::new(8, |k: int| 0u8)
}

/// Whether packet `p` tells the sink how to regain the audio clock from
/// the cycle time stamp `cts` and the divider `n`.
pub open spec fn is_clock_regeneration(p: DataPacket, cts: u32, n: u32) -> bool {
    &&& p.header_seq() == header_bytes(1, 0, 0)
    &&& forall|i: int|
        0 <= i < 4 ==> p.subpacket_seq(i) == subpacket_bytes(
            seq![
                0u8,
                (cts >> 16) as u8,
                (cts >> 8) as u8,
                cts as u8,
                (n >> 16) as u8,
                (n >> 8) as u8,
                n as u8,
            ],
        )
}

/// The first subpacket of the info frame about the picture that is sent:
/// an underscanned picture in RGB, 640 by 480 pixels, 4:3, with the full
/// range of levels.
pub open spec fn picture_info_body() -> Seq<u8> {
    avi_info_body(
        ScanInfo::Underscan,
        PixelFormat::Rgb,
        Colorimetry::Itu601,
        PictureAspectRatio::Ratio4_3,
        ActiveFormatAspectRatio::SameAsPar,
        QuantizationRange::Full,
        VideoCode::Code640x480P60,
    )
}

/// The samples that wait to be sent, and the place in the block of
/// samples.
pub struct AudioState {
    audio_buf: [[i16; 2]; AUDIO_BUF],
    audio_ix: usize,
    frame_count: i32,
}

impl AudioState {
    /// The samples that wait, the oldest first: left and right.
    pub closed spec fn waiting(&self) -> Seq<(i16, i16)> {
        Seq::new(self.audio_ix as nat, |i: int| (self.audio_buf@[i]@[0], self.audio_buf@[i]@[1]))
    }

    /// Number of samples up to the next start of a block.
    pub closed spec fn frame_count(&self) -> int {
        self.frame_count as int
    }

    /// The invariant of the state: the samples that wait fit a packet,
    /// and the place lies within a block.
    pub closed spec fn wf(&self) -> bool {
        &&& self.audio_ix <= AUDIO_BUF
        &&& 0 <= self.frame_count < AUDIO_BLOCK
    }

    /// The samples that wait fit a packet, and the place lies within a
    /// block.
    pub proof fn lemma_bounds(&self)
        requires
            self.wf(),
        ensures
            self.waiting().len() <= AUDIO_BUF,
            0 <= self.frame_count() < AUDIO_BLOCK,
    {
    }

    /// No samples waiting, at the start of a block.
    pub fn new() -> (r: Self)
        ensures
            r.wf(),
            r.waiting() == Seq::<(i16, i16)>::empty(),
            r.frame_count() == 0,
    {
        let r = AudioState { audio_buf: [[0; 2]; AUDIO_BUF], audio_ix: 0, frame_count: 0 };
        assert(r.waiting() =~= Seq::<(i16, i16)>::empty());
        r
    }

    /// Whether the samples of line `y` can be taken in.
    ///
    /// They can whenever the lines of a frame come in turn: an even line
    /// leaves no sample waiting, and no two odd lines follow each other.
    pub fn has_room(&self, y: u32) -> (r: bool)
        requires
            self.wf(),
        ensures
            r == (self.waiting().len() + samples_on_line(y) <= AUDIO_BUF),
            self.waiting().len() <= 2 ==> r,
    {
        let n: usize = if y % 5 == 2 || y % 5 == 4 { 2 } else { 1 };
        self.audio_ix + n <= AUDIO_BUF
    }
}

/// Line `y` of the frame: takes in the samples of the line, each with
/// `sample` on both channels, and makes `packet` the packet that the line
/// carries. Returns whether the line carries one.
///
/// An even line sends the samples that wait. Of the odd lines, line 1
/// sends the info frame about the audio, line 3 the one about the
/// picture and line 5 how to regain the audio clock; the others send
/// nothing and leave the packet as it is.
pub fn audio_step(state: &mut AudioState, y: u32, sample: i16, packet: &mut DataPacket) -> (sent:
    bool)
    requires
        old(state).wf(),
        old(state).waiting().len() + samples_on_line(y) <= AUDIO_BUF,
    ensures
        final(state).wf(),
        sent == (packet_on_line(y) != LinePacket::Nothing),
        final(state).waiting() == if y % 2 == 0 {
            Seq::<(i16, i16)>::empty()
        } else {
            queued(old(state).waiting(), y, sample)
        },
        final(state).frame_count() == if y % 2 == 0 {
            count_after(
                old(state).frame_count(),
                queued(old(state).waiting(), y, sample).len() as int,
            )
        } else {
            old(state).frame_count()
        },
        match packet_on_line(y) {
            LinePacket::Samples => carries_samples(
                *final(packet),
                *old(packet),
                queued(old(state).waiting(), y, sample),
                old(state).frame_count(),
            ),
            LinePacket::AudioInfoFrame => is_info_frame(
                *final(packet),
                0x84,
                1,
                10,
                audio_info_body(AUDIO_RATE),
            ),
            LinePacket::AviInfoFrame => is_info_frame(
                *final(packet),
                0x82,
                2,
                13,
                picture_info_body(),
            ),
            LinePacket::ClockRegeneration => is_clock_regeneration(
                *final(packet),
                AUDIO_CTS,
                AUDIO_N,
            ),
            LinePacket::Nothing => *final(packet) == *old(packet),
        },
{
    let n: usize = if y % 5 == 2 || y % 5 == 4 { 2 } else { 1 };
    let first = state.audio_ix;
    let ghost all = queued(old(state).waiting(), y, sample);
    let mut i: usize = 0;
    while i < n
        invariant
            i <= n,
            n == samples_on_line(y),
            first == old(state).audio_ix,
            first + n <= AUDIO_BUF,
            state.audio_ix == first,
            state.frame_count == old(state).frame_count,
            forall|k: int| 0 <= k < first ==> state.audio_buf@[k] == old(state).audio_buf@[k],
            forall|k: int|
                first <= k < first + i ==> state.audio_buf@[k]@[0] == sample
                    && state.audio_buf@[k]@[1] == sample,
        decreases n - i,
    {
        state.audio_buf[first + i] = [sample, sample];
        i += 1;
    }
    state.audio_ix = first + n;
    assert(state.waiting() =~= all);
    if y % 2 == 0 {
        let buf = state.audio_buf;
        let mut count = state.frame_count;
        let samples = vstd::slice::slice_subrange(buf.as_slice(), 0, state.audio_ix);
        packet.set_audio(samples, &mut count);
        state.frame_count = count;
        state.audio_ix = 0;
        assert(state.waiting() =~= Seq::<(i16, i16)>::empty());
        true
    } else if y == 1 {
        packet.set_audio_info_frame(AUDIO_RATE);
        true
    } else if y == 3 {
        packet.set_avi_info_frame(
            ScanInfo::Underscan,
            PixelFormat::Rgb,
            Colorimetry::Itu601,
            PictureAspectRatio::Ratio4_3,
            ActiveFormatAspectRatio::SameAsPar,
            QuantizationRange::Full,
            VideoCode::Code640x480P60,
        );
        true
    } else if y == 5 {
        packet.set_audio_clock_regeneration(AUDIO_CTS, AUDIO_N);
        true
    } else {
        false
    }
}

/// The header of the packet that line `y` carries when `samples` wait
/// after the line has added its own and `count` samples are left to the
/// next start of a block; zeros for a line without a packet.
pub open spec fn line_header(y: u32, samples: Seq<(i16, i16)>, count: int) -> Seq<u8> {
    match packet_on_line(y) {
        LinePacket::Samples => header_bytes(
            2,
            ((1u32 << (samples.len() as u32)) - 1) as u8,
            if count < 4 {
                ((1u32 << (count as u32)) << 4) as u8
            } else {
                0
            },
        ),
        LinePacket::AudioInfoFrame => header_bytes(0x84, 1, 10),
        LinePacket::AviInfoFrame => header_bytes(0x82, 2, 13),
        LinePacket::ClockRegeneration => header_bytes(1, 0, 0),
        LinePacket::Nothing => Seq::new(4, |k: int| 0u8),
    }
}

/// The first subpacket of an info frame with the header bytes `kind`,
/// `version` and `len`: `body` with the checksum of the frame in its first
/// byte, and its parity.
pub open spec fn info_subpacket(kind: u8, version: u8, len: u8, body: Seq<u8>) -> Seq<u8> {
    subpacket_bytes(
        body.update(
            0,
            info_frame_checksum(header_bytes(kind, version, len), info_frame_packets(body)),
        ),
    )
}

/// Subpacket `i` of the packet that line `y` carries when `samples` wait
/// after the line has added its own; zeros where the packet has nothing.
pub open spec fn line_subpacket(y: u32, samples: Seq<(i16, i16)>, i: int) -> Seq<u8> {
    match packet_on_line(y) {
        LinePacket::Samples => if i < samples.len() {
            subpacket_bytes(sample_bytes(samples[i].0, samples[i].1))
        } else {
            Seq::new(8, |k: int| 0u8)
        },
        LinePacket::AudioInfoFrame => if i == 0 {
            info_subpacket(0x84, 1, 10, audio_info_body(AUDIO_RATE))
        } else {
            Seq::new(8, |k: int| 0u8)
        },
        LinePacket::AviInfoFrame => if i == 0 {
            info_subpacket(0x82, 2, 13, picture_info_body())
        } else {
            Seq::new(8, |k: int| 0u8)
        },
        LinePacket::ClockRegeneration => subpacket_bytes(
            seq![
                0u8,
                (AUDIO_CTS >> 16) as u8,
                (AUDIO_CTS >> 8) as u8,
                AUDIO_CTS as u8,
                (AUDIO_N >> 16) as u8,
                (AUDIO_N >> 8) as u8,
                AUDIO_N as u8,
            ],
        ),
        LinePacket::Nothing => Seq::new(8, |k: int| 0u8),
    }
}

/// The four subpackets of the packet that line `y` carries.
pub open spec fn line_subpackets(y: u32, samples: Seq<(i16, i16)>) -> Seq<Seq<u8>> {
    Seq::new(4, |i: int| line_subpacket(y, samples, i))
}

/// Whether the blanking part of line `y` of the frame carries a data
/// island: it does where the line has a packet, and, with an empty
/// packet, on every line of the picture.
pub open spec fn has_island(t: &DviTiming, y: u32) -> bool {
    packet_on_line(y) != LinePacket::Nothing || t.line_state(y as int) == DviTimingLineState::Active
}

/// Line `y` of the frame: takes in the samples of the line, each with
/// `sample` on both channels, and fills in the words of the blanking part
/// of the line with the data island that the line carries. The commands
/// in `line` stay as they are. Returns whether the line carries a data
/// island; if not, `line` stays as it is.
pub fn island_line(
    t: &DviTiming,
    state: &mut AudioState,
    line: &mut [u32; SYNC_DATA_ISLAND_LEN],
    y: u32,
    sample: i16,
) -> (with_island: bool)
    requires
        t.valid(),
        old(state).wf(),
        old(state).waiting().len() + samples_on_line(y) <= AUDIO_BUF,
    ensures
        final(state).wf(),
        final(state).waiting() == if y % 2 == 0 {
            Seq::<(i16, i16)>::empty()
        } else {
            queued(old(state).waiting(), y, sample)
        },
        final(state).frame_count() == if y % 2 == 0 {
            count_after(
                old(state).frame_count(),
                queued(old(state).waiting(), y, sample).len() as int,
            )
        } else {
            old(state).frame_count()
        },
        with_island == has_island(t, y),
        with_island ==> forall|i: int|
            0 <= i < SYNC_DATA_ISLAND_LEN ==> #[trigger] final(line)@[i] == t.island_word(
                t.line_state(y as int),
                line_header(y, queued(old(state).waiting(), y, sample), old(state).frame_count()),
                line_subpackets(y, queued(old(state).waiting(), y, sample)),
                old(line)@,
                i,
            ),
        !with_island ==> final(line)@ == old(line)@,
{
    let region = t.state_for_v_count(y);
    let mut packet = DataPacket::new();
    let ghost samples = queued(old(state).waiting(), y, sample);
    let ghost count = old(state).frame_count();
    let sent = audio_step(state, y, sample, &mut packet);
    proof {
        assert(packet.header_seq() =~= line_header(y, samples, count));
        assert forall|i: int| 0 <= i < 4 implies packet.subpackets()[i] == line_subpacket(
            y,
            samples,
            i,
        ) by {
            assert(packet.subpackets()[i] == packet.subpacket_seq(i));
        }
        assert(packet.subpackets() =~= line_subpackets(y, samples));
    }
    if sent {
        t.encode_data_island(line, region, &packet);
        true
    } else if region == DviTimingLineState::Active {
        proof {
            assert(line_header(y, samples, count) =~= seq![0u8, 0u8, 0u8, 0u8]);
            assert(line_subpackets(y, samples) =~= Seq::new(
                4,
                |k: int| Seq::new(8, |b: int| 0u8),
            ));
        }
        t.encode_data_island_empty(line, region);
        true
    } else {
        false
    }
}

} // verus!
