use pico_dvi::dvi::audio::{audio_step, island_line, AudioState};
use pico_dvi::dvi::timing::{DviTiming, DviTimingLineState};
use pico_dvi::dvi::data_island::{
    ActiveFormatAspectRatio, Colorimetry, DataPacket, PictureAspectRatio, PixelFormat,
    QuantizationRange, ScanInfo, VideoCode,
};

fn same(a: &DataPacket, b: &DataPacket) -> bool {
    a.header == b.header && a.subpacket == b.subpacket
}

#[test]
fn audio_lines_add_seven_samples_in_five() {
    let mut state = AudioState::new();
    let mut sent_samples = 0u32;
    for y in 0..525u32 {
        assert!(state.has_room(y));
        let mut p = DataPacket::new();
        let sent = audio_step(&mut state, y, 0, &mut p);
        if y % 2 == 0 {
            assert!(sent);
            assert_eq!(p.header[0], 2);
            sent_samples += (p.header[1] & 0xf).count_ones();
        }
    }
    // 525 lines at seven samples to five lines.
    assert_eq!(sent_samples, 735);
}

#[test]
fn audio_samples_wait_for_an_even_line() {
    let mut state = AudioState::new();
    let mut p = DataPacket::new();
    // Line 7 adds two samples and sends nothing.
    let before = p;
    assert!(!audio_step(&mut state, 7, -5, &mut p));
    assert!(same(&p, &before));
    // Line 8 adds one and sends the three.
    assert!(audio_step(&mut state, 8, 9, &mut p));
    let mut want = DataPacket::new();
    let mut frame_count = 0;
    want.set_audio(&[[-5, -5], [-5, -5], [9, 9]], &mut frame_count);
    assert!(same(&p, &want));
    assert_eq!(p.header[1], 0b111);
    // The first sample starts a block.
    assert_eq!(p.header[2], 0b0001 << 4);
    // Line 10 sends its one sample, 189 samples before the next block.
    let mut p = DataPacket::new();
    assert!(audio_step(&mut state, 10, 1, &mut p));
    let mut want = DataPacket::new();
    let mut frame_count = 189;
    want.set_audio(&[[1, 1]], &mut frame_count);
    assert!(same(&p, &want));
    assert_eq!(p.header[1], 0b1);
    assert_eq!(p.header[2], 0);
}

#[test]
fn audio_room_is_for_four_samples() {
    let mut state = AudioState::new();
    let mut p = DataPacket::new();
    // Odd lines only: two samples, then one, then no room for two more.
    assert!(state.has_room(7));
    audio_step(&mut state, 7, 0, &mut p);
    assert!(state.has_room(11));
    audio_step(&mut state, 11, 0, &mut p);
    assert!(!state.has_room(17));
    assert!(state.has_room(13));
    audio_step(&mut state, 13, 0, &mut p);
    assert!(!state.has_room(15));
}

#[test]
fn first_odd_lines_describe_the_signal() {
    let mut state = AudioState::new();
    let mut p = DataPacket::new();
    assert!(audio_step(&mut state, 1, 0, &mut p));
    let mut want = DataPacket::new();
    want.set_audio_info_frame(44_100);
    assert!(same(&p, &want));

    let mut state = AudioState::new();
    assert!(audio_step(&mut state, 3, 0, &mut p));
    let mut want = DataPacket::new();
    want.set_avi_info_frame(
        ScanInfo::Underscan,
        PixelFormat::Rgb,
        Colorimetry::Itu601,
        PictureAspectRatio::Ratio4_3,
        ActiveFormatAspectRatio::SameAsPar,
        QuantizationRange::Full,
        VideoCode::Code640x480P60,
    );
    assert!(same(&p, &want));

    let mut state = AudioState::new();
    assert!(audio_step(&mut state, 5, 0, &mut p));
    let mut want = DataPacket::new();
    want.set_audio_clock_regeneration(28000, 6272);
    assert!(same(&p, &want));
    assert_eq!(p.subpacket[0][..7], [0, 0, 0x6d, 0x60, 0, 0x18, 0x80]);
}

#[test]
fn lines_with_and_without_a_data_island() {
    let t = DviTiming::vga();
    let mut commands = [0u32; 56];
    t.init_data_island(&mut commands);
    let mut state = AudioState::new();
    let mut waiting = AudioState::new();
    let mut frame_count = 0;
    let mut samples: Vec<[i16; 2]> = Vec::new();
    for y in 0..525u32 {
        let region = t.state_for_v_count(y);
        let sample = (y as i16).wrapping_mul(37);
        let mut line = commands;
        let with_island = island_line(&t, &mut state, &mut line, y, sample);
        // What the line is made of, step by step.
        let mut p = DataPacket::new();
        let sent = audio_step(&mut waiting, y, sample, &mut p);
        let mut want = commands;
        if sent {
            t.encode_data_island(&mut want, region, &p);
        } else if region == DviTimingLineState::Active {
            t.encode_data_island_empty(&mut want, region);
        }
        assert_eq!(with_island, sent || region == DviTimingLineState::Active, "line {y}");
        assert_eq!(line, want, "line {y}");
        if !with_island {
            assert_eq!(line, commands);
        }
        // The samples of the even lines are those that were collected.
        let n = if y % 5 == 2 || y % 5 == 4 { 2 } else { 1 };
        for _ in 0..n {
            samples.push([sample, sample]);
        }
        if y % 2 == 0 {
            let mut q = DataPacket::new();
            q.set_audio(&samples, &mut frame_count);
            assert!(same(&p, &q), "line {y}");
            samples.clear();
        }
    }
    // Odd lines beyond the fifth carry a data island only in the picture.
    let first_active = (0..525).find(|y| t.state_for_v_count(*y) == DviTimingLineState::Active);
    let first_active = first_active.unwrap();
    assert!(first_active > 7);
    let mut state = AudioState::new();
    let mut line = commands;
    assert!(!island_line(&t, &mut state, &mut line, 7, 0));
    let mut state = AudioState::new();
    assert!(island_line(&t, &mut state, &mut line, first_active | 1, 0));
}
