use pico_dvi::dvi::timing::{DviTiming, DviTimingLineState, DviTimingState};
use pico_dvi::dvi::{
    hstx_cmd_nop, hstx_cmd_raw, hstx_cmd_raw_repeat, hstx_cmd_tmds, hstx_cmd_tmds_repeat,
};

fn small() -> DviTiming {
    DviTiming {
        h_sync_polarity: true,
        h_front_porch: 8,
        h_sync_width: 16,
        h_back_porch: 24,
        h_active_pixels: 64,
        v_sync_polarity: true,
        v_front_porch: 2,
        v_sync_width: 3,
        v_back_porch: 4,
        v_active_lines: 5,
        bit_clk_khz: 1000,
    }
}

#[test]
fn vga_timing_values() {
    let t = DviTiming::vga();
    assert_eq!(t.total_lines(), 525);
    assert_eq!(t.h_front_porch + t.h_sync_width + t.h_back_porch + t.h_active_pixels, 800);
    assert!(!t.h_sync_polarity);
    assert!(!t.v_sync_polarity);
    assert_eq!(t.bit_clk_khz, 252_000);
}

#[test]
fn line_states_follow_the_regions() {
    let t = small();
    let want = [
        DviTimingLineState::FrontPorch,
        DviTimingLineState::FrontPorch,
        DviTimingLineState::Sync,
        DviTimingLineState::Sync,
        DviTimingLineState::Sync,
        DviTimingLineState::BackPorch,
        DviTimingLineState::BackPorch,
        DviTimingLineState::BackPorch,
        DviTimingLineState::BackPorch,
        DviTimingLineState::Active,
        DviTimingLineState::Active,
        DviTimingLineState::Active,
        DviTimingLineState::Active,
        DviTimingLineState::Active,
    ];
    for (v, w) in want.iter().enumerate() {
        assert!(t.state_for_v_count(v as u32) == *w, "line {v}");
        assert!(DviTimingState::new(v as u32).v_state(&t) == *w);
    }
    assert!(DviTimingLineState::default() == DviTimingLineState::FrontPorch);
}

#[test]
fn advance_is_periodic() {
    let t = small();
    for start in 0..t.total_lines() {
        let mut s = DviTimingState::new(start);
        let state = s.v_state(&t);
        for _ in 0..t.total_lines() {
            s.advance(&t);
        }
        assert_eq!(s.v_ctr(), start);
        assert!(s.v_state(&t) == state);
    }
    let mut s = DviTimingState::new(13);
    s.advance(&t);
    assert_eq!(s.v_ctr(), 0);
    s.advance(&t);
    assert_eq!(s.v_ctr(), 1);
}

#[test]
fn advance_from_outside_the_frame_counts_on() {
    let t = small();
    let mut s = DviTimingState::new(14);
    s.advance(&t);
    assert_eq!(s.v_ctr(), 15);
}

#[test]
fn scanline_index_over_one_frame() {
    let t = small();
    let mut s = DviTimingState::new(0);
    let mut seen = Vec::new();
    for _ in 0..t.total_lines() {
        let ix = s.v_scanline_index(&t, 0);
        if s.v_state(&t) == DviTimingLineState::Active {
            seen.push(ix.unwrap());
        } else {
            assert_eq!(ix, None);
        }
        s.advance(&t);
    }
    assert_eq!(seen, vec![0, 1, 2, 3, 4]);
}

#[test]
fn scanline_index_with_offset() {
    let t = small();
    assert_eq!(DviTimingState::new(7).v_scanline_index(&t, 2), Some(0));
    assert_eq!(DviTimingState::new(8).v_scanline_index(&t, 0), None);
    assert_eq!(DviTimingState::new(8).v_scanline_index(&t, 1), Some(0));
    assert_eq!(DviTimingState::new(13).v_scanline_index(&t, 0), Some(4));
    assert_eq!(DviTimingState::new(13).v_scanline_index(&t, 1), None);
    assert_eq!(DviTimingState::new(u32::MAX).v_scanline_index(&t, u32::MAX), None);
    let vga = DviTiming::vga();
    assert_eq!(DviTimingState::new(45).v_scanline_index(&vga, 0), Some(0));
    assert_eq!(DviTimingState::new(44).v_scanline_index(&vga, 0), None);
    assert_eq!(DviTimingState::new(524).v_scanline_index(&vga, 0), Some(479));
}

#[test]
fn hstx_commands() {
    assert_eq!(hstx_cmd_raw(8), 8);
    assert_eq!(hstx_cmd_raw_repeat(16), 0x1010);
    assert_eq!(hstx_cmd_tmds(640), 0x2280);
    assert_eq!(hstx_cmd_tmds_repeat(624), 0x3270);
    assert_eq!(hstx_cmd_nop(), 0xf000);
}

#[test]
fn sync_words_of_vga() {
    let t = DviTiming::vga();
    let idle = 0x354 << 10 | 0x354 << 20;
    // Both polarities are negative: a sync signal that is off is asserted.
    assert_eq!(t.tmds3_for_sync(false, false), 0x2ab | idle);
    assert_eq!(t.tmds3_for_sync(true, false), 0x154 | idle);
    assert_eq!(t.tmds3_for_sync(false, true), 0xab | idle);
    assert_eq!(t.tmds3_for_sync(true, true), 0x354 | idle);
}

#[test]
fn sync_pulse_of_vga() {
    let t = DviTiming::vga();
    let off = t.tmds3_for_sync(false, false);
    let on = t.tmds3_for_sync(true, false);
    let line = t.make_sync_pulse(false);
    assert_eq!(
        line,
        [
            0x1000 | 16,
            off,
            0x1000 | 96,
            on,
            0x1000 | 40,
            off,
            8,
            off,
            off,
            off,
            off,
            off,
            off,
            off,
            off
        ]
    );
    let von = t.make_sync_pulse(true);
    assert_eq!(von[1], t.tmds3_for_sync(false, true));
    assert_eq!(von[3], t.tmds3_for_sync(true, true));
}

#[test]
fn sync_line_only_of_vga() {
    let t = DviTiming::vga();
    let off = t.tmds3_for_sync(false, true);
    let line = t.make_sync_line_only(true);
    assert_eq!(line, [0x1000 | 632, off, 8, off, off, off, off, off, off, off, off]);
}
