use pico_dvi::dvi::chains::{DviChains, LineChain};
use pico_dvi::dvi::dma::{
    DmaChannelConfig, DmaChannels, DmaControlBlock, DviLaneDmaCfg, DviScanlineDmaList,
};
use pico_dvi::dvi::pinout::{differential_pins, DifferentialPins, DviPair, DviPinout, DviPolarity};
use pico_dvi::dvi::timing::{DviTiming, DviTimingLineState};

#[test]
fn default_control_word() {
    assert_eq!(DmaChannelConfig::default().bits(), 0x1f8019);
}

#[test]
fn control_word_setters_replace_their_field() {
    let c = DmaChannelConfig::default();
    assert_eq!(c.read_increment(false).bits(), 0x1f8009);
    assert_eq!(c.write_increment(true).bits(), 0x1f8039);
    assert_eq!(c.ring(true, 4).bits(), 0x1f8019 | 1 << 10 | 4 << 6);
    assert_eq!(c.ring(true, 4).ring(false, 2).bits(), 0x1f8019 | 2 << 6);
    assert_eq!(c.chain_to(5).bits(), 0x1f8019 | 5 << 11);
    assert_eq!(c.chain_to(5).chain_to(0).bits(), 0x1f8019);
    assert_eq!(c.data_request(0).bits(), 0x19);
    assert_eq!(c.data_request(1).bits(), 0x19 | 1 << 15);
    assert_eq!(c.irq_quiet(true).bits(), 0x1f8019 | 1 << 21);
    assert_eq!(c.irq_quiet(true).irq_quiet(false).bits(), 0x1f8019);
}

fn channels() -> DmaChannels {
    DmaChannels::new(
        DviLaneDmaCfg::new(0, 1, 0x5020_0010, 0),
        DviLaneDmaCfg::new(2, 3, 0x5020_0014, 1),
        DviLaneDmaCfg::new(4, 5, 0x5020_0018, 2),
    )
}

#[test]
fn control_block_words() {
    let ch = channels();
    let mut b = DmaControlBlock::default();
    assert_eq!(b.words(), [0, 0, 0, 0x1f8019]);
    b.set(0x2000_0100, &ch.lane1, 320, 0, false);
    let ctrl = 1 | 2 << 2 | 1 << 4 | 2 << 11 | 1 << 15 | 1 << 21;
    assert_eq!(b.words(), [0x2000_0100, 0x5020_0014, 320, ctrl]);
    b.update_buf(0x2000_0800);
    assert_eq!(b.words(), [0x2000_0800, 0x5020_0014, 320, ctrl]);
    b.set(0x1000_0000, &ch.lane0, 8, 2, true);
    assert_eq!(b.words(), [0x1000_0000, 0x5020_0010, 8, 1 | 2 << 2 | 1 << 4 | 2 << 6]);
}

#[test]
fn load_op_programs_the_control_channels() {
    let ch = channels();
    let p = ch.load_op([0x2000_0000, 0x2000_0040, 0x2000_0060]);
    let ctrl = |chain: u32| 1 | 2 << 2 | 1 << 4 | 1 << 5 | 4 << 6 | 1 << 10 | chain << 11 | 0x3f << 15;
    assert_eq!(p[0].read_addr, 0x2000_0000);
    assert_eq!(p[0].write_addr, 0x5000_0040);
    assert_eq!(p[0].transfer_count, 4);
    assert_eq!(p[0].ctrl, ctrl(0));
    assert_eq!(p[1].read_addr, 0x2000_0040);
    assert_eq!(p[1].write_addr, 0x5000_00c0);
    assert_eq!(p[1].ctrl, ctrl(2));
    assert_eq!(p[2].write_addr, 0x5000_0140);
    assert_eq!(p[2].ctrl, ctrl(4));
    assert_eq!(ch.start(), 0b10101);
    assert_eq!(ch.lane(2).wait_for_load_register(), 0x5000_0804 + 0x40 * 5);
}

fn counts(list: &DviScanlineDmaList, lane: usize) -> Vec<u32> {
    list.lane(lane).iter().map(|b| b.words()[2]).collect()
}

fn sources(list: &DviScanlineDmaList, lane: usize) -> Vec<u32> {
    list.lane(lane).iter().map(|b| b.words()[0]).collect()
}

#[test]
fn scanline_chains_cover_one_line() {
    let t = DviTiming::vga();
    let ch = channels();
    let syms = [0x100, 0x104, 0x108, 0x10c];
    for state in [
        DviTimingLineState::FrontPorch,
        DviTimingLineState::Sync,
        DviTimingLineState::BackPorch,
        DviTimingLineState::Active,
    ] {
        let mut list = DviScanlineDmaList::default();
        list.setup_scanline(&t, &ch, state, true, &syms, &[0x200, 0x204, 0x208]);
        assert_eq!(counts(&list, 0), vec![8, 48, 24, 320]);
        assert_eq!(counts(&list, 1), vec![80, 320]);
        assert_eq!(counts(&list, 2), vec![80, 320]);
        for lane in 0..3 {
            assert_eq!(2 * counts(&list, lane).iter().sum::<u32>(), 800);
        }
        let mut loud = Vec::new();
        for lane in 0..3 {
            for (i, b) in list.lane(lane).iter().enumerate() {
                if b.words()[3] & (1 << 21) == 0 {
                    loud.push((lane, i));
                }
            }
        }
        assert_eq!(loud, vec![(0, 2)]);
    }
}

#[test]
fn scanline_chain_symbols() {
    let t = DviTiming::vga();
    let ch = channels();
    let syms = [0x100, 0x104, 0x108, 0x10c];
    let mut list = DviScanlineDmaList::default();
    let empty = [0x200, 0x204, 0x208];
    list.setup_scanline(&t, &ch, DviTimingLineState::FrontPorch, false, &syms, &empty);
    // Negative polarities: outside the pulses both signals are asserted.
    assert_eq!(sources(&list, 0), vec![0x10c, 0x108, 0x10c, 0x10c]);
    assert_eq!(sources(&list, 1), vec![0x100, 0x100]);
    list.setup_scanline(&t, &ch, DviTimingLineState::Sync, true, &syms, &empty);
    assert_eq!(sources(&list, 0), vec![0x104, 0x100, 0x104, 0x104]);
    list.setup_scanline(&t, &ch, DviTimingLineState::Active, false, &syms, &empty);
    assert_eq!(sources(&list, 0), vec![0x10c, 0x108, 0x10c, 0x200]);
    assert_eq!(sources(&list, 1), vec![0x100, 0x204]);
    assert_eq!(sources(&list, 2), vec![0x100, 0x208]);
    assert_eq!((list.lane(2)[1].words()[3] >> 6) & 0xf, 2);
    list.setup_scanline(&t, &ch, DviTimingLineState::Active, true, &syms, &empty);
    assert_eq!(sources(&list, 0), vec![0x10c, 0x108, 0x10c, 0]);
    assert_eq!(sources(&list, 2), vec![0x100, 0]);
    let ring = |w: u32| (w >> 6) & 0xf;
    assert_eq!(ring(list.lane(0)[0].words()[3]), 2);
    assert_eq!(ring(list.lane(0)[3].words()[3]), 0);
    list.update_scanline(0x2000_0000, 0x500);
    assert_eq!(sources(&list, 0), vec![0x10c, 0x108, 0x10c, 0x2000_0000]);
    assert_eq!(sources(&list, 1), vec![0x100, 0x2000_0500]);
    assert_eq!(sources(&list, 2), vec![0x100, 0x2000_0a00]);
    assert_eq!(counts(&list, 0), vec![8, 48, 24, 320]);
}

#[test]
fn pin_configuration_words() {
    let p = DviPinout::new([DviPair::D0, DviPair::Clk, DviPair::D2, DviPair::D1], DviPolarity::Pos);
    assert_eq!(p.cfg_bits(0), 0 | 1 << 8);
    assert_eq!(p.cfg_bits(1), 0 | 1 << 8 | 1 << 16);
    assert_eq!(p.cfg_bits(2), 1 << 17);
    assert_eq!(p.cfg_bits(3), 1 << 17 | 1 << 16);
    assert_eq!(p.cfg_bits(4), 20 | 21 << 8);
    assert_eq!(p.cfg_bits(5), 20 | 21 << 8 | 1 << 16);
    assert_eq!(p.cfg_bits(6), 10 | 11 << 8);
    assert_eq!(p.cfg_bits(7), 10 | 11 << 8 | 1 << 16);
    let n = DviPinout::new([DviPair::D2, DviPair::Clk, DviPair::D1, DviPair::D0], DviPolarity::Neg);
    assert_eq!(n.cfg_bits(0), 20 | 21 << 8 | 1 << 16);
    assert_eq!(n.cfg_bits(1), 20 | 21 << 8);
    assert_eq!(n.cfg_bits(2), 1 << 17 | 1 << 16);
}

#[test]
fn chains_follow_the_frame() {
    let t = DviTiming {
        h_sync_polarity: false,
        h_front_porch: 16,
        h_sync_width: 96,
        h_back_porch: 48,
        h_active_pixels: 640,
        v_sync_polarity: false,
        v_front_porch: 1,
        v_sync_width: 2,
        v_back_porch: 1,
        v_active_lines: 3,
        bit_clk_khz: 252_000,
    };
    let mut chains = DviChains::new(t, channels(), [0x100, 0x104, 0x108, 0x10c], [0x200, 0x204, 0x208]);
    assert!(chains.start() == LineChain::VblankNoSync);
    assert_eq!(chains.active_words(), 320);
    assert_eq!(chains.scanline(0), None);
    assert_eq!(chains.scanline(4), Some(0));
    let mut got = Vec::new();
    for line in 1..=14u32 {
        // The pixels of every picture line but row 1 are at hand.
        let row = chains.scanline(1);
        let pixels = match row {
            Some(1) | None => None,
            Some(y) => Some((0x2000_0000 + 0x1000 * y, 0x500)),
        };
        let chain = chains.on_line_boundary(pixels);
        got.push(chain);
        assert_eq!(chains.scanline(0), row);
        if chain == LineChain::Active {
            let y = row.unwrap();
            assert_eq!(
                sources(chains.chain(chain), 0)[3],
                0x2000_0000 + 0x1000 * y,
                "line {line}"
            );
            assert_eq!(sources(chains.chain(chain), 2)[1], 0x2000_0a00 + 0x1000 * y);
        }
    }
    let frame = [
        LineChain::VblankSync,
        LineChain::VblankSync,
        LineChain::VblankNoSync,
        LineChain::Active,
        LineChain::Error,
        LineChain::Active,
        LineChain::VblankNoSync,
    ];
    assert!(got[..7] == frame);
    assert!(got[7..] == frame);
    assert_eq!(sources(chains.chain(LineChain::Error), 0)[3], 0x200);
    assert_eq!(
        sources(chains.chain(LineChain::VblankSync), 0),
        vec![0x104, 0x100, 0x104, 0x104]
    );
    assert_eq!(
        sources(chains.chain(LineChain::VblankNoSync), 0),
        vec![0x10c, 0x108, 0x10c, 0x10c]
    );
}

#[test]
fn differential_pins_lie_side_by_side() {
    assert!(differential_pins(12, 13) == Some(DifferentialPins { base: 12, invert: false }));
    assert!(differential_pins(13, 12) == Some(DifferentialPins { base: 12, invert: true }));
    assert!(differential_pins(0, 1) == Some(DifferentialPins { base: 0, invert: false }));
    assert!(differential_pins(255, 254) == Some(DifferentialPins { base: 254, invert: true }));
    assert!(differential_pins(12, 14).is_none());
    assert!(differential_pins(12, 12).is_none());
    assert!(differential_pins(0, 255).is_none());
}
