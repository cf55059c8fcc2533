//! Transfer descriptors for the DMA chains that feed the serialiser.
//!
//! A control channel copies descriptors, one after the other, into the
//! registers of a data channel; every descriptor then moves one run of
//! words to the transmit FIFO of a lane and hands back to the control
//! channel. The layout of a descriptor and of its control word is that of
//! the hardware.

use vstd::prelude::*;
use crate::dvi::timing::{DviTiming, DviTimingLineState};

verus! {

/// The fields of a channel control word.
pub struct DmaCtrlFields {
    /// Bit 0: the channel is enabled.
    pub enable: bool,
    /// Bit 1: the channel is scheduled before the others.
    pub high_priority: bool,
    /// Bits 2..4: size of a transfer, as a power of two in bytes.
    pub data_size: u32,
    /// Bit 4: the read address moves on with every transfer.
    pub read_increment: bool,
    /// Bit 5: the write address moves on with every transfer.
    pub write_increment: bool,
    /// Bits 6..10: size of the address ring, as a power of two in bytes.
    pub ring_size: u32,
    /// Bit 10: the ring applies to the write address, not the read address.
    pub ring_write: bool,
    /// Bits 11..15: the channel that is started when this one completes.
    pub chain_to: u32,
    /// Bits 15..21: the request signal that paces the transfers.
    pub data_request: u32,
    /// Bit 21: completion raises no interrupt.
    pub irq_quiet: bool,
    /// Bits 22..32.
    pub upper: u32,
}

/// The control word taken apart.
pub open spec fn ctrl_fields(raw: u32) -> DmaCtrlFields {
    DmaCtrlFields {
        enable: raw & 1 == 1,
        high_priority: (raw >> 1) & 1 == 1,
        data_size: (raw >> 2) & 3,
        read_increment: (raw >> 4) & 1 == 1,
        write_increment: (raw >> 5) & 1 == 1,
        ring_size: (raw >> 6) & 0xf,
        ring_write: (raw >> 10) & 1 == 1,
        chain_to: (raw >> 11) & 0xf,
        data_request: (raw >> 15) & 0x3f,
        irq_quiet: (raw >> 21) & 1 == 1,
        upper: raw >> 22,
    }
}

/// The control word that a channel has before anything is chosen: enabled,
/// transfers of 32 bits, a read address that moves on, and no pacing.
pub open spec fn default_ctrl() -> DmaCtrlFields {
    DmaCtrlFields {
        enable: true,
        high_priority: false,
        data_size: 2,
        read_increment: true,
        write_increment: false,
        ring_size: 0,
        ring_write: false,
        chain_to: 0,
        data_request: 0x3f,
        irq_quiet: false,
        upper: 0,
    }
}

/// The control word of a DMA channel.
///
/// `chain_to` has to be set: the default names channel 0, and a channel
/// that chains to itself does not chain at all.
#[derive(Clone, Copy)]
pub struct DmaChannelConfig(u32);

impl View for DmaChannelConfig {
    type V = u32;

    /// The control word as it is written to the register.
    closed spec fn view(&self) -> u32 {
        self.0
    }
}

impl Default for DmaChannelConfig {
    fn default() -> (r: Self)
        ensures
            r@ == 0x1f8019,
            r.fields() == default_ctrl(),
    {
        let r = DmaChannelConfig(0x1f8019);
        assert(ctrl_fields(0x1f8019) == default_ctrl()) by {
            let x = 0x1f8019u32;
            assert(x & 1 == 1 && (x >> 1) & 1 == 0 && (x >> 2) & 3 == 2 && (x >> 4) & 1 == 1 && (x
                >> 5) & 1 == 0 && (x >> 6) & 0xf == 0 && (x >> 10) & 1 == 0 && (x >> 11) & 0xf == 0
                && (x >> 15) & 0x3f == 0x3f && (x >> 21) & 1 == 0 && x >> 22 == 0)
                by (bit_vector)
                requires
                    x == 0x1f8019u32,
            ;
        }
        r
    }
}

/// What replacing one field of a control word leaves alone, and what it
/// puts in place: `new` is `old` with the bits under `mask` replaced by
/// `value`, shifted to the field's place.
proof fn lemma_replace_field(old: u32, new: u32, value: u32, shift: u32, mask: u32)
    by (bit_vector)
    requires
        new == (old & !mask) | (value << shift),
        (shift == 4 && mask == 0x10 && value < 2) || (shift == 5 && mask == 0x20 && value < 2) || (
        shift == 6 && mask == 0x3c0 && value < 16) || (shift == 10 && mask == 0x400 && value < 2)
            || (shift == 11 && mask == 0x7800 && value < 16) || (shift == 15 && mask == 0x1f8000
            && value < 64) || (shift == 21 && mask == 0x20_0000 && value < 2),
    ensures
        new & 1 == old & 1,
        (new >> 1) & 1 == (old >> 1) & 1,
        (new >> 2) & 3 == (old >> 2) & 3,
        (new >> 4) & 1 == if shift == 4 { value } else { (old >> 4) & 1 },
        (new >> 5) & 1 == if shift == 5 { value } else { (old >> 5) & 1 },
        (new >> 6) & 0xf == if shift == 6 { value } else { (old >> 6) & 0xf },
        (new >> 10) & 1 == if shift == 10 { value } else { (old >> 10) & 1 },
        (new >> 11) & 0xf == if shift == 11 { value } else { (old >> 11) & 0xf },
        (new >> 15) & 0x3f == if shift == 15 { value } else { (old >> 15) & 0x3f },
        (new >> 21) & 1 == if shift == 21 { value } else { (old >> 21) & 1 },
        new >> 22 == old >> 22,
{
}

impl DmaChannelConfig {
    /// The control word taken apart.
    pub open spec fn fields(&self) -> DmaCtrlFields {
        ctrl_fields(self@)
    }

    /// The control word as it is written to the register.
    pub fn bits(&self) -> (r: u32)
        ensures
            r == self@,
    {
        self.0
    }

    /// Chooses whether the read address moves on with every transfer.
    pub fn read_increment(self, incr: bool) -> (r: Self)
        ensures
            r.fields() == (DmaCtrlFields { read_increment: incr, ..self.fields() }),
    {
        let value: u32 = if incr { 1 } else { 0 };
        let mut bits = self.0 & !0x10;
        bits |= value << 4;
        proof {
            lemma_replace_field(self.0, bits, value, 4, 0x10);
        }
        Self(bits)
    }

    /// Chooses whether the write address moves on with every transfer.
    pub fn write_increment(self, incr: bool) -> (r: Self)
        ensures
            r.fields() == (DmaCtrlFields { write_increment: incr, ..self.fields() }),
    {
        let value: u32 = if incr { 1 } else { 0 };
        let mut bits = self.0 & !0x20;
        bits |= value << 5;
        proof {
            lemma_replace_field(self.0, bits, value, 5, 0x20);
        }
        Self(bits)
    }

    /// Wraps one of the two addresses within a ring of `2^ring_size`
    /// bytes: the write address if `ring_sel` is set, else the read
    /// address. A size of 0 is no ring.
    pub fn ring(self, ring_sel: bool, ring_size: u32) -> (r: Self)
        requires
            ring_size < 16,
        ensures
            r.fields() == (DmaCtrlFields {
                ring_write: ring_sel,
                ring_size: ring_size,
                ..self.fields()
            }),
    {
        let select: u32 = if ring_sel { 1 } else { 0 };
        let sized = (self.0 & !0x3c0) | (ring_size << 6);
        let bits = (sized & !0x400) | (select << 10);
        proof {
            lemma_replace_field(self.0, sized, ring_size, 6, 0x3c0);
            lemma_replace_field(sized, bits, select, 10, 0x400);
        }
        Self(bits)
    }

    /// Names the channel that is started when this one completes.
    pub fn chain_to(self, chan: u8) -> (r: Self)
        requires
            chan < 16,
        ensures
            r.fields() == (DmaCtrlFields { chain_to: chan as u32, ..self.fields() }),
    {
        let mut bits = self.0 & !0x7800;
        bits |= (chan as u32) << 11;
        proof {
            lemma_replace_field(self.0, bits, chan as u32, 11, 0x7800);
        }
        Self(bits)
    }

    /// Names the request signal that paces the transfers.
    pub fn data_request(self, dreq: u8) -> (r: Self)
        requires
            dreq < 64,
        ensures
            r.fields() == (DmaCtrlFields { data_request: dreq as u32, ..self.fields() }),
    {
        let mut bits = self.0 & !0x1f8000;
        bits |= (dreq as u32) << 15;
        proof {
            lemma_replace_field(self.0, bits, dreq as u32, 15, 0x1f8000);
        }
        Self(bits)
    }

    /// Chooses whether completion stays without an interrupt.
    pub fn irq_quiet(self, quiet: bool) -> (r: Self)
        ensures
            r.fields() == (DmaCtrlFields { irq_quiet: quiet, ..self.fields() }),
    {
        let value: u32 = if quiet { 1 } else { 0 };
        let mut bits = self.0 & !0x20_0000;
        bits |= value << 21;
        proof {
            lemma_replace_field(self.0, bits, value, 21, 0x20_0000);
        }
        Self(bits)
    }
}

/// Address of the register block of DMA channel `channel`.
pub open spec fn channel_registers(channel: u8) -> int {
    0x5000_0000 + 0x40 * channel
}

/// Address of the register that shows how many transfers a channel
/// reloads when it is started again.
pub open spec fn channel_reload_count(channel: u8) -> int {
    0x5000_0804 + 0x40 * channel
}

/// The DMA resources of one lane: the channel that moves the data, the
/// channel that loads its descriptors, and the transmit FIFO that the data
/// goes to with the request signal that paces it.
#[derive(Clone, Copy)]
pub struct DviLaneDmaCfg {
    control_channel: u8,
    data_channel: u8,
    tx_fifo: u32,
    dreq: u8,
}

/// What is written to the four registers of a channel to start it.
#[derive(Clone, Copy)]
pub struct DmaChannelProgram {
    pub read_addr: u32,
    pub write_addr: u32,
    pub transfer_count: u32,
    pub ctrl: u32,
}

impl DviLaneDmaCfg {
    #[verifier::type_invariant]
    spec fn well_formed(self) -> bool {
        self.control_channel < 16 && self.data_channel < 16 && self.dreq < 64
    }

    /// Number of the channel that loads the descriptors.
    pub closed spec fn control_channel(&self) -> u8 {
        self.control_channel
    }

    /// Number of the channel that moves the data.
    pub closed spec fn data_channel(&self) -> u8 {
        self.data_channel
    }

    /// Address of the transmit FIFO of the lane.
    pub closed spec fn tx_fifo(&self) -> u32 {
        self.tx_fifo
    }

    /// The request signal of the transmit FIFO.
    pub closed spec fn dreq(&self) -> u8 {
        self.dreq
    }

    /// The resources of a lane. Channel numbers have four bits and request
    /// signals six.
    pub fn new(control_channel: u8, data_channel: u8, tx_fifo: u32, dreq: u8) -> (r: Self)
        requires
            control_channel < 16,
            data_channel < 16,
            dreq < 64,
        ensures
            r.control_channel() == control_channel,
            r.data_channel() == data_channel,
            r.tx_fifo() == tx_fifo,
            r.dreq() == dreq,
    {
        DviLaneDmaCfg { control_channel, data_channel, tx_fifo, dreq }
    }

    /// The program for the control channel that makes the data channel work
    /// through the descriptors at `blocks`.
    ///
    /// The control channel copies four words at a time to the registers of
    /// the data channel, which the last of them starts. Its write address
    /// wraps within those 16 bytes, and it chains to itself, which is to say
    /// that it stops after every descriptor until the data channel chains
    /// back to it.
    pub fn load_op(&self, blocks: u32) -> (r: DmaChannelProgram)
        ensures
            r.read_addr == blocks,
            r.write_addr == channel_registers(self.data_channel()),
            r.transfer_count == 4,
            ctrl_fields(r.ctrl) == (DmaCtrlFields {
                chain_to: self.control_channel() as u32,
                ring_write: true,
                ring_size: 4,
                read_increment: true,
                write_increment: true,
                ..default_ctrl()
            }),
    {
        proof {
            use_type_invariant(self);
        }
        let cfg = DmaChannelConfig::default().chain_to(self.control_channel).ring(
            true,
            4,
        ).read_increment(true).write_increment(true);
        DmaChannelProgram {
            read_addr: blocks,
            write_addr: 0x5000_0000 + 0x40 * self.data_channel as u32,
            transfer_count: 4,
            ctrl: cfg.bits(),
        }
    }

    /// Address of the register to watch until the data channel has taken a
    /// descriptor: it then shows the descriptor's transfer count.
    pub fn wait_for_load_register(&self) -> (r: u32)
        ensures
            r == channel_reload_count(self.data_channel()),
    {
        proof {
            use_type_invariant(self);
        }
        0x5000_0804 + 0x40 * self.data_channel as u32
    }
}

/// The DMA resources of the three lanes.
#[derive(Clone, Copy)]
pub struct DmaChannels {
    pub lane0: DviLaneDmaCfg,
    pub lane1: DviLaneDmaCfg,
    pub lane2: DviLaneDmaCfg,
}

/// The bit of channel `channel` in a mask of channels.
pub open spec fn channel_bit(channel: u8) -> u32 {
    1u32 << (channel as u32)
}

impl DmaChannels {
    /// The resources of the three lanes.
    pub fn new(lane0: DviLaneDmaCfg, lane1: DviLaneDmaCfg, lane2: DviLaneDmaCfg) -> (r: Self)
        ensures
            r.lane0 == lane0,
            r.lane1 == lane1,
            r.lane2 == lane2,
    {
        DmaChannels { lane0, lane1, lane2 }
    }

    /// The lane with the given number.
    pub fn lane(&self, lane: usize) -> (r: &DviLaneDmaCfg)
        requires
            lane < 3,
        ensures
            *r == self.lane_cfg(lane as int),
    {
        if lane == 0 {
            &self.lane0
        } else if lane == 1 {
            &self.lane1
        } else {
            &self.lane2
        }
    }

    /// The lane with the given number.
    pub open spec fn lane_cfg(&self, lane: int) -> DviLaneDmaCfg {
        if lane == 0 {
            self.lane0
        } else if lane == 1 {
            self.lane1
        } else {
            self.lane2
        }
    }

    /// The programs that make the three lanes work through the descriptor
    /// lists at the given addresses.
    pub fn load_op(&self, blocks: [u32; 3]) -> (r: [DmaChannelProgram; 3])
        ensures
            forall|lane: int|
                0 <= lane < 3 ==> {
                    &&& (#[trigger] r@[lane]).read_addr == blocks@[lane]
                    &&& r@[lane].write_addr == channel_registers(
                        self.lane_cfg(lane).data_channel(),
                    )
                    &&& r@[lane].transfer_count == 4
                    &&& ctrl_fields(r@[lane].ctrl) == (DmaCtrlFields {
                        chain_to: self.lane_cfg(lane).control_channel() as u32,
                        ring_write: true,
                        ring_size: 4,
                        read_increment: true,
                        write_increment: true,
                        ..default_ctrl()
                    })
                },
    {
        [
            self.lane0.load_op(blocks[0]),
            self.lane1.load_op(blocks[1]),
            self.lane2.load_op(blocks[2]),
        ]
    }

    /// The mask of channels to trigger at once so that the three lanes
    /// start together: the three control channels.
    pub fn start(&self) -> (r: u32)
        ensures
            r == channel_bit(self.lane0.control_channel()) | channel_bit(
                self.lane1.control_channel(),
            ) | channel_bit(self.lane2.control_channel()),
    {
        proof {
            use_type_invariant(&self.lane0);
            use_type_invariant(&self.lane1);
            use_type_invariant(&self.lane2);
        }
        let mut mask: u32 = 0;
        mask |= 1u32 << (self.lane0.control_channel as u32);
        mask |= 1u32 << (self.lane1.control_channel as u32);
        mask |= 1u32 << (self.lane2.control_channel as u32);
        assert(0u32 | channel_bit(self.lane0.control_channel) == channel_bit(
            self.lane0.control_channel,
        )) by (bit_vector);
        mask
    }
}

/// One transfer descriptor: a small block of memory that the control
/// channel copies into the registers of the data channel.
#[derive(Clone, Copy)]
pub struct DmaControlBlock {
    read_addr: u32,
    write_addr: u32,
    transfer_count: u32,
    config: DmaChannelConfig,
}

impl Default for DmaControlBlock {
    fn default() -> (r: Self)
        ensures
            r.read_addr() == 0,
            r.write_addr() == 0,
            r.transfer_count() == 0,
            r.ctrl() == default_ctrl(),
    {
        DmaControlBlock {
            read_addr: 0,
            write_addr: 0,
            transfer_count: 0,
            config: DmaChannelConfig::default(),
        }
    }
}

impl DmaControlBlock {
    /// Address that the data is read from.
    pub closed spec fn read_addr(&self) -> u32 {
        self.read_addr
    }

    /// Address that the data is written to.
    pub closed spec fn write_addr(&self) -> u32 {
        self.write_addr
    }

    /// Number of words that are moved.
    pub closed spec fn transfer_count(&self) -> u32 {
        self.transfer_count
    }

    /// The control word, taken apart.
    pub closed spec fn ctrl(&self) -> DmaCtrlFields {
        self.config.fields()
    }

    /// The control word as it is stored.
    pub closed spec fn ctrl_word(&self) -> u32 {
        self.config@
    }

    /// What a descriptor for a lane looks like: it moves `transfer_count`
    /// words from `read_addr` to the transmit FIFO of the lane, paced by
    /// the FIFO, and then wakes the control channel of the lane. The read
    /// address wraps within `2^read_ring` bytes, so that a ring of one word
    /// repeats that word.
    pub open spec fn describes(
        &self,
        read_addr: u32,
        dma_cfg: DviLaneDmaCfg,
        transfer_count: u32,
        read_ring: u32,
        irq_on_finish: bool,
    ) -> bool {
        &&& self.read_addr() == read_addr
        &&& self.write_addr() == dma_cfg.tx_fifo()
        &&& self.transfer_count() == transfer_count
        &&& self.ctrl() == (DmaCtrlFields {
            ring_write: false,
            ring_size: read_ring,
            data_request: dma_cfg.dreq() as u32,
            chain_to: dma_cfg.control_channel() as u32,
            irq_quiet: !irq_on_finish,
            ..default_ctrl()
        })
    }

    /// Fills in the descriptor for a run of `transfer_count` words at
    /// `read_addr` on the lane of `dma_cfg`.
    pub fn set(
        &mut self,
        read_addr: u32,
        dma_cfg: &DviLaneDmaCfg,
        transfer_count: u32,
        read_ring: u32,
        irq_on_finish: bool,
    )
        requires
            read_ring < 16,
        ensures
            final(self).describes(read_addr, *dma_cfg, transfer_count, read_ring, irq_on_finish),
    {
        proof {
            use_type_invariant(dma_cfg);
        }
        self.read_addr = read_addr;
        self.write_addr = dma_cfg.tx_fifo;
        self.transfer_count = transfer_count;
        self.config = DmaChannelConfig::default().ring(false, read_ring).data_request(
            dma_cfg.dreq,
        ).chain_to(dma_cfg.control_channel).irq_quiet(!irq_on_finish);
    }

    /// Whether this descriptor is `before` with the read address replaced
    /// by `buf`.
    pub open spec fn repoints(&self, before: DmaControlBlock, buf: u32) -> bool {
        &&& self.read_addr() == buf
        &&& self.write_addr() == before.write_addr()
        &&& self.transfer_count() == before.transfer_count()
        &&& self.ctrl_word() == before.ctrl_word()
        &&& self.ctrl() == before.ctrl()
    }

    /// Points the descriptor at other data, leaving the rest as it is.
    pub fn update_buf(&mut self, buf: u32)
        ensures
            final(self).repoints(*old(self), buf),
    {
        self.read_addr = buf;
    }

    /// The four words of the descriptor in the order of the registers that
    /// they are copied to: read address, write address, transfer count, and
    /// the control word, whose register starts the channel.
    pub fn words(&self) -> (r: [u32; 4])
        ensures
            r@ == seq![self.read_addr(), self.write_addr(), self.transfer_count(), self.ctrl_word()],
            ctrl_fields(r@[3]) == self.ctrl(),
    {
        [self.read_addr, self.write_addr, self.transfer_count, self.config.bits()]
    }
}

/// Number of symbols that one transfer word carries on a lane.
pub const DVI_SYMBOLS_PER_WORD: u32 = 2;

/// The ring that makes a descriptor repeat one word: `2^2` bytes.
pub const REPEAT_RING: u32 = 2;

/// The place in the table of control symbols of the word for a state of
/// the two sync signals.
pub open spec fn ctrl_index(h_sync: bool, v_sync: bool) -> int {
    (if h_sync { 1int } else { 0int }) + (if v_sync { 2int } else { 0int })
}

/// What the three lanes send in the active region of a line.
pub enum ActiveRegion {
    /// What they send in the porches: the line carries no picture.
    Blank,
    /// One word each, over and over: the words at the three addresses.
    Filled(Seq<u32>),
    /// A row of pixels each, read from the three addresses on.
    Pixels(Seq<u32>),
}

impl ActiveRegion {
    /// The address that the descriptor of the active region of lane
    /// `lane` reads from, where `blank` is the address of the symbol of
    /// the porches of the lane.
    pub open spec fn source(self, lane: int, blank: u32) -> u32 {
        match self {
            ActiveRegion::Blank => blank,
            ActiveRegion::Filled(words) => words[lane],
            ActiveRegion::Pixels(rows) => rows[lane],
        }
    }

    /// The ring of the read address of the descriptors of the active
    /// region: none for pixels, and else the ring that repeats a word.
    pub open spec fn ring(self) -> u32 {
        match self {
            ActiveRegion::Pixels(_) => 0,
            _ => REPEAT_RING,
        }
    }

    /// What the lanes send in the active region of a line of region
    /// `line_state`, before pixels are at hand: outside the picture
    /// nothing, and in the picture pixels to come, or, for a line that
    /// stands in for one without pixels, the words at `empty`.
    pub open spec fn of_line(line_state: DviTimingLineState, has_data: bool, empty: Seq<u32>) -> Self {
        if line_state != DviTimingLineState::Active {
            ActiveRegion::Blank
        } else if has_data {
            ActiveRegion::Pixels(seq![0u32, 0u32, 0u32])
        } else {
            ActiveRegion::Filled(empty)
        }
    }
}

/// The descriptor chains of the three lanes for one line of a given
/// region of the frame.
///
/// Lane 0 carries the sync signals and so has a descriptor for each of the
/// front porch, the sync pulse and the back porch, and one for the active
/// region. Lanes 1 and 2 send the same symbol throughout blanking and need
/// one descriptor for it, and one for the active region.
#[derive(Clone, Copy)]
pub struct DviScanlineDmaList {
    lane0: [DmaControlBlock; 4],
    lane1: [DmaControlBlock; 2],
    lane2: [DmaControlBlock; 2],
}

impl Default for DviScanlineDmaList {
    fn default() -> (r: Self)
        ensures
            r.blocks(0).len() == 4,
            r.blocks(1).len() == 2,
            r.blocks(2).len() == 2,
            forall|lane: int, i: int|
                0 <= lane < 3 && 0 <= i < r.blocks(lane).len() ==> {
                    &&& (#[trigger] r.blocks(lane)[i]).read_addr() == 0
                    &&& r.blocks(lane)[i].write_addr() == 0
                    &&& r.blocks(lane)[i].transfer_count() == 0
                    &&& r.blocks(lane)[i].ctrl() == default_ctrl()
                },
    {
        let b = DmaControlBlock::default();
        DviScanlineDmaList { lane0: [b, b, b, b], lane1: [b, b], lane2: [b, b] }
    }
}

impl DviScanlineDmaList {
    /// The descriptors of a lane, in the order in which they are worked
    /// through.
    pub closed spec fn blocks(&self, lane: int) -> Seq<DmaControlBlock> {
        if lane == 0 {
            self.lane0@
        } else if lane == 1 {
            self.lane1@
        } else {
            self.lane2@
        }
    }

    /// Number of words that a lane sends for one line.
    pub open spec fn words_sent(&self, lane: int) -> int {
        if lane == 0 {
            self.blocks(0)[0].transfer_count() + self.blocks(0)[1].transfer_count()
                + self.blocks(0)[2].transfer_count() + self.blocks(0)[3].transfer_count()
        } else {
            self.blocks(lane)[0].transfer_count() + self.blocks(lane)[1].transfer_count()
        }
    }

    /// Whether the list is the one for a line of region `line_state`.
    ///
    /// Every descriptor but the last of a lane repeats one control symbol:
    /// on lane 0 the symbol with horizontal sync off during the porches and
    /// on during the pulse, vertical sync being on in the sync region; on
    /// lanes 1 and 2 the idle symbol. The last descriptor of a lane covers
    /// the active region and sends what `region` says. The descriptor of
    /// lane 0's back porch, and no other, raises the interrupt that marks
    /// the line.
    pub open spec fn describes(
        &self,
        t: DviTiming,
        dma_cfg: DmaChannels,
        line_state: DviTimingLineState,
        ctrl_syms: Seq<u32>,
        region: ActiveRegion,
    ) -> bool {
        let v_sync = (line_state == DviTimingLineState::Sync) == t.v_sync_polarity;
        let off = ctrl_syms[ctrl_index(!t.h_sync_polarity, v_sync)];
        let on = ctrl_syms[ctrl_index(t.h_sync_polarity, v_sync)];
        let idle = ctrl_syms[0];
        let ring = region.ring();
        let blanking = (t.h_front_porch + t.h_sync_width + t.h_back_porch) / 2;
        &&& self.blocks(0).len() == 4
        &&& self.blocks(1).len() == 2
        &&& self.blocks(2).len() == 2
        &&& self.blocks(0)[0].describes(off, dma_cfg.lane0, t.h_front_porch / 2, 2, false)
        &&& self.blocks(0)[1].describes(on, dma_cfg.lane0, t.h_sync_width / 2, 2, false)
        &&& self.blocks(0)[2].describes(off, dma_cfg.lane0, t.h_back_porch / 2, 2, true)
        &&& self.blocks(0)[3].describes(
            region.source(0, off),
            dma_cfg.lane0,
            t.h_active_pixels / 2,
            ring,
            false,
        )
        &&& self.blocks(1)[0].describes(idle, dma_cfg.lane1, blanking as u32, 2, false)
        &&& self.blocks(1)[1].describes(
            region.source(1, idle),
            dma_cfg.lane1,
            t.h_active_pixels / 2,
            ring,
            false,
        )
        &&& self.blocks(2)[0].describes(idle, dma_cfg.lane2, blanking as u32, 2, false)
        &&& self.blocks(2)[1].describes(
            region.source(2, idle),
            dma_cfg.lane2,
            t.h_active_pixels / 2,
            ring,
            false,
        )
    }

    /// The descriptors of a lane as they lie in memory.
    pub fn lane(&self, lane: usize) -> (r: &[DmaControlBlock])
        requires
            lane < 3,
        ensures
            r@ == self.blocks(lane as int),
    {
        if lane == 0 {
            self.lane0.as_slice()
        } else if lane == 1 {
            self.lane1.as_slice()
        } else {
            self.lane2.as_slice()
        }
    }

    /// Builds the chains for a line of region `line_state`.
    ///
    /// `ctrl_syms` holds the addresses of the four control symbol words,
    /// the word for horizontal sync at index 1 and for vertical sync at
    /// index 2 of a sum. A line of the picture either has pixels, and the
    /// descriptors of its active region read from address 0 until
    /// [`Self::update_scanline`] points them at a row of pixels, or it
    /// stands in for a line without pixels and repeats on every lane the
    /// word at the address in `empty`.
    pub fn setup_scanline(
        &mut self,
        t: &DviTiming,
        dma_cfg: &DmaChannels,
        line_state: DviTimingLineState,
        has_data: bool,
        ctrl_syms: &[u32; 4],
        empty: &[u32; 3],
    )
        requires
            t.valid(),
        ensures
            final(self).describes(
                *t,
                *dma_cfg,
                line_state,
                ctrl_syms@,
                ActiveRegion::of_line(line_state, has_data, empty@),
            ),
    {
        let v_bit: usize = if (line_state == DviTimingLineState::Sync) == t.v_sync_polarity {
            2
        } else {
            0
        };
        let h_on: usize = if t.h_sync_polarity { 1 } else { 0 };
        let sym_hsync_off = ctrl_syms[(1 - h_on) + v_bit];
        let sym_hsync_on = ctrl_syms[h_on + v_bit];
        let sym_no_sync = ctrl_syms[0];
        let picture = line_state == DviTimingLineState::Active;
        let ring: u32 = if picture && has_data { 0 } else { REPEAT_RING };
        let blanking = (t.h_front_porch + t.h_sync_width + t.h_back_porch)
            / DVI_SYMBOLS_PER_WORD;
        let active = t.h_active_pixels / DVI_SYMBOLS_PER_WORD;

        let mut front = DmaControlBlock::default();
        front.set(
            sym_hsync_off,
            &dma_cfg.lane0,
            t.h_front_porch / DVI_SYMBOLS_PER_WORD,
            REPEAT_RING,
            false,
        );
        let mut pulse = DmaControlBlock::default();
        pulse.set(
            sym_hsync_on,
            &dma_cfg.lane0,
            t.h_sync_width / DVI_SYMBOLS_PER_WORD,
            REPEAT_RING,
            false,
        );
        let mut back = DmaControlBlock::default();
        back.set(
            sym_hsync_off,
            &dma_cfg.lane0,
            t.h_back_porch / DVI_SYMBOLS_PER_WORD,
            REPEAT_RING,
            true,
        );
        let mut line0 = DmaControlBlock::default();
        let source0 = if !picture {
            sym_hsync_off
        } else if has_data {
            0
        } else {
            empty[0]
        };
        line0.set(source0, &dma_cfg.lane0, active, ring, false);
        self.lane0 = [front, pulse, back, line0];

        let mut blank1 = DmaControlBlock::default();
        blank1.set(sym_no_sync, &dma_cfg.lane1, blanking, REPEAT_RING, false);
        let mut line1 = DmaControlBlock::default();
        let source1 = if !picture {
            sym_no_sync
        } else if has_data {
            0
        } else {
            empty[1]
        };
        line1.set(source1, &dma_cfg.lane1, active, ring, false);
        self.lane1 = [blank1, line1];

        let mut blank2 = DmaControlBlock::default();
        blank2.set(sym_no_sync, &dma_cfg.lane2, blanking, REPEAT_RING, false);
        let mut line2 = DmaControlBlock::default();
        let source2 = if !picture {
            sym_no_sync
        } else if has_data {
            0
        } else {
            empty[2]
        };
        line2.set(source2, &dma_cfg.lane2, active, ring, false);
        self.lane2 = [blank2, line2];
    }

    /// Points the active region of the three lanes at a line of pixels:
    /// lane 0 at `buf`, and each further lane `stride` bytes on. Nothing
    /// else of the chains changes, so this is all that a picture line
    /// costs.
    pub fn update_scanline(&mut self, buf: u32, stride: u32)
        requires
            buf + 2 * stride <= u32::MAX,
        ensures
            forall|t: DviTiming, dma_cfg: DmaChannels, ctrl_syms: Seq<u32>, rows: Seq<u32>|
                #[trigger] old(self).describes(
                    t,
                    dma_cfg,
                    DviTimingLineState::Active,
                    ctrl_syms,
                    ActiveRegion::Pixels(rows),
                ) ==> final(self).describes(
                    t,
                    dma_cfg,
                    DviTimingLineState::Active,
                    ctrl_syms,
                    ActiveRegion::Pixels(
                        seq![buf, (buf + stride) as u32, (buf + 2 * stride) as u32],
                    ),
                ),
            final(self).blocks(0) == old(self).blocks(0).update(3, final(self).blocks(0)[3]),
            final(self).blocks(1) == old(self).blocks(1).update(1, final(self).blocks(1)[1]),
            final(self).blocks(2) == old(self).blocks(2).update(1, final(self).blocks(2)[1]),
            final(self).blocks(0)[3].repoints(old(self).blocks(0)[3], buf),
            final(self).blocks(1)[1].repoints(old(self).blocks(1)[1], (buf + stride) as u32),
            final(self).blocks(2)[1].repoints(old(self).blocks(2)[1], (buf + 2 * stride) as u32),
    {
        let mut line0 = self.lane0[3];
        line0.update_buf(buf);
        self.lane0[3] = line0;
        let mut line1 = self.lane1[1];
        line1.update_buf(buf + stride);
        self.lane1[1] = line1;
        let mut line2 = self.lane2[1];
        line2.update_buf(buf + 2 * stride);
        self.lane2[1] = line2;
    }
}

/// The descriptors of a lane cover one whole line: where the widths of a
/// timing are even, the words that every lane sends carry as many symbols
/// as the line has pixel clocks. And a line raises one interrupt: the
/// descriptor of lane 0's back porch is the only one that is not quiet.
pub proof fn lemma_chain_covers_line(
    list: DviScanlineDmaList,
    t: DviTiming,
    dma_cfg: DmaChannels,
    line_state: DviTimingLineState,
    ctrl_syms: Seq<u32>,
    region: ActiveRegion,
)
    requires
        t.valid(),
        list.describes(t, dma_cfg, line_state, ctrl_syms, region),
        t.h_front_porch % 2 == 0,
        t.h_sync_width % 2 == 0,
        t.h_back_porch % 2 == 0,
        t.h_active_pixels % 2 == 0,
    ensures
        forall|lane: int| 0 <= lane < 3 ==> 2 * #[trigger] list.words_sent(lane) == t.line_pixels(),
        forall|lane: int, i: int|
            0 <= lane < 3 && 0 <= i < list.blocks(lane).len() ==> (!(#[trigger] list.blocks(
                lane,
            )[i]).ctrl().irq_quiet <==> lane == 0 && i == 2),
{
}

} // verus!
