use pico_dvi::dvi::data_island::{
    compute_bch, mk_bch_table, mk_terc4_table, parity_u16, ActiveFormatAspectRatio, Colorimetry,
    DataPacket, PictureAspectRatio, PixelFormat, QuantizationRange, ScanInfo, VideoCode,
    TERC4_SYMBOLS,
};
use pico_dvi::dvi::timing::{DviTiming, DviTimingLineState};

const BCH_TABLE: [u8; 256] = [
    0x00, 0xd9, 0xb5, 0x6c, 0x6d, 0xb4, 0xd8, 0x01, 0xda, 0x03, 0x6f, 0xb6, 0xb7, 0x6e, 0x02, 0xdb,
    0xb3, 0x6a, 0x06, 0xdf, 0xde, 0x07, 0x6b, 0xb2, 0x69, 0xb0, 0xdc, 0x05, 0x04, 0xdd, 0xb1, 0x68,
    0x61, 0xb8, 0xd4, 0x0d, 0x0c, 0xd5, 0xb9, 0x60, 0xbb, 0x62, 0x0e, 0xd7, 0xd6, 0x0f, 0x63, 0xba,
    0xd2, 0x0b, 0x67, 0xbe, 0xbf, 0x66, 0x0a, 0xd3, 0x08, 0xd1, 0xbd, 0x64, 0x65, 0xbc, 0xd0, 0x09,
    0xc2, 0x1b, 0x77, 0xae, 0xaf, 0x76, 0x1a, 0xc3, 0x18, 0xc1, 0xad, 0x74, 0x75, 0xac, 0xc0, 0x19,
    0x71, 0xa8, 0xc4, 0x1d, 0x1c, 0xc5, 0xa9, 0x70, 0xab, 0x72, 0x1e, 0xc7, 0xc6, 0x1f, 0x73, 0xaa,
    0xa3, 0x7a, 0x16, 0xcf, 0xce, 0x17, 0x7b, 0xa2, 0x79, 0xa0, 0xcc, 0x15, 0x14, 0xcd, 0xa1, 0x78,
    0x10, 0xc9, 0xa5, 0x7c, 0x7d, 0xa4, 0xc8, 0x11, 0xca, 0x13, 0x7f, 0xa6, 0xa7, 0x7e, 0x12, 0xcb,
    0x83, 0x5a, 0x36, 0xef, 0xee, 0x37, 0x5b, 0x82, 0x59, 0x80, 0xec, 0x35, 0x34, 0xed, 0x81, 0x58,
    0x30, 0xe9, 0x85, 0x5c, 0x5d, 0x84, 0xe8, 0x31, 0xea, 0x33, 0x5f, 0x86, 0x87, 0x5e, 0x32, 0xeb,
    0xe2, 0x3b, 0x57, 0x8e, 0x8f, 0x56, 0x3a, 0xe3, 0x38, 0xe1, 0x8d, 0x54, 0x55, 0x8c, 0xe0, 0x39,
    0x51, 0x88, 0xe4, 0x3d, 0x3c, 0xe5, 0x89, 0x50, 0x8b, 0x52, 0x3e, 0xe7, 0xe6, 0x3f, 0x53, 0x8a,
    0x41, 0x98, 0xf4, 0x2d, 0x2c, 0xf5, 0x99, 0x40, 0x9b, 0x42, 0x2e, 0xf7, 0xf6, 0x2f, 0x43, 0x9a,
    0xf2, 0x2b, 0x47, 0x9e, 0x9f, 0x46, 0x2a, 0xf3, 0x28, 0xf1, 0x9d, 0x44, 0x45, 0x9c, 0xf0, 0x29,
    0x20, 0xf9, 0x95, 0x4c, 0x4d, 0x94, 0xf8, 0x21, 0xfa, 0x23, 0x4f, 0x96, 0x97, 0x4e, 0x22, 0xfb,
    0x93, 0x4a, 0x26, 0xff, 0xfe, 0x27, 0x4b, 0x92, 0x49, 0x90, 0xfc, 0x25, 0x24, 0xfd, 0x91, 0x48,
];

fn bch(bytes: &[u8]) -> u8 {
    bytes.iter().fold(0, |v, b| BCH_TABLE[(b ^ v) as usize])
}

fn terc4_table() -> [u32; 256] {
    let mut table = [0; 256];
    for i in 0..256usize {
        let j = (i & 0x81)
            | (i & 2) << 3
            | (i & 4) >> 1
            | (i & 8) << 2
            | (i & 0x10) >> 2
            | (i & 0x20) << 1
            | (i & 0x40) >> 3;
        table[i] = (TERC4_SYMBOLS[j % 16] as u32) << 10 | (TERC4_SYMBOLS[j / 16] as u32) << 20;
    }
    table
}

#[test]
fn bch_table_is_the_shift_register() {
    assert_eq!(mk_bch_table(), BCH_TABLE);
}

#[test]
fn bch_of_bytes() {
    assert_eq!(compute_bch(&[]), 0);
    assert_eq!(compute_bch(&[1]), 0xd9);
    assert_eq!(compute_bch(&[0x84, 1, 10]), bch(&[0x84, 1, 10]));
    let bytes: Vec<u8> = (0..40u32).map(|i| (i * 37 + 11) as u8).collect();
    for n in 0..bytes.len() {
        assert_eq!(compute_bch(&bytes[..n]), bch(&bytes[..n]));
    }
}

#[test]
fn parity_of_words() {
    assert_eq!(parity_u16(0), 0);
    assert_eq!(parity_u16(1), 1);
    assert_eq!(parity_u16(0x8001), 0);
    assert_eq!(parity_u16(0xffff), 0);
    assert_eq!(parity_u16(0x7fff), 1);
    for x in [0x1234u16, 0xbeef, 0x0100, 0x8000] {
        assert_eq!(parity_u16(x) as u32, x.count_ones() % 2);
    }
}

#[test]
fn terc4_table_splits_even_and_odd_bits() {
    let table = mk_terc4_table();
    assert_eq!(table, terc4_table());
    assert_eq!(table[0], 0x29c << 10 | 0x29c << 20);
    // 0b0110_0011: even bits 0b1001 -> symbol 9, odd bits 0b0101 -> symbol 5.
    assert_eq!(table[0x63], 0x139 << 10 | 0x11e << 20);
}

#[test]
fn field_codes() {
    assert_eq!(ScanInfo::Underscan.code(), 2);
    assert_eq!(PixelFormat::Ycbcr444.code(), 2);
    assert_eq!(Colorimetry::Extended.code(), 3);
    assert_eq!(PictureAspectRatio::Ratio16_9.code(), 2);
    assert_eq!(ActiveFormatAspectRatio::NoData.code(), 0xff);
    assert_eq!(ActiveFormatAspectRatio::SameAsPar.code(), 8);
    assert_eq!(ActiveFormatAspectRatio::Ratio14_9.code(), 11);
    assert_eq!(QuantizationRange::Full.code(), 2);
    assert_eq!(VideoCode::Code640x480P60.code(), 1);
    assert_eq!(VideoCode::Code720x480P60.code(), 2);
}

#[test]
fn audio_clock_regeneration_packet() {
    let mut p = DataPacket::new();
    p.set_audio_clock_regeneration(28000, 6272);
    assert_eq!(p.header, [1, 0, 0, bch(&[1, 0, 0])]);
    let body = [0, 0x00, 0x6d, 0x60, 0x00, 0x18, 0x80];
    for sub in p.subpacket {
        assert_eq!(sub[..7], body);
        assert_eq!(sub[7], bch(&body));
    }
}

#[test]
fn audio_info_frame_packet() {
    for (freq, sf) in [(48000u32, 3u8), (44100, 2), (32000, 0)] {
        let mut p = DataPacket::new();
        p.subpacket[2][3] = 0x55;
        p.set_audio_info_frame(freq);
        assert_eq!(p.header, [0x84, 1, 10, bch(&[0x84, 1, 10])]);
        let sum = 0x84u32 + 1 + 10 + 0x11 + (1 + 4 * sf as u32);
        let checksum = (sum as u8).wrapping_neg();
        let body = [checksum, 0x11, 1 | sf << 2, 0, 0, 0, 0];
        assert_eq!(p.subpacket[0][..7], body);
        assert_eq!(p.subpacket[0][7], bch(&body));
        assert_eq!(p.subpacket[1], [0; 8]);
        assert_eq!(p.subpacket[2], [0; 8]);
        assert_eq!(p.subpacket[3], [0; 8]);
        let total: u32 = p.header[..3].iter().map(|b| *b as u32).sum::<u32>()
            + p.subpacket[0][..7].iter().map(|b| *b as u32).sum::<u32>();
        assert_eq!(total % 256, 0);
    }
}

#[test]
fn avi_info_frame_packet() {
    let mut p = DataPacket::new();
    p.set_avi_info_frame(
        ScanInfo::Underscan,
        PixelFormat::Rgb,
        Colorimetry::Itu601,
        PictureAspectRatio::Ratio4_3,
        ActiveFormatAspectRatio::SameAsPar,
        QuantizationRange::Full,
        VideoCode::Code640x480P60,
    );
    assert_eq!(p.header, [0x82, 2, 13, bch(&[0x82, 2, 13])]);
    let b1 = 2 | 1 << 4;
    let b2 = 8 | 1 << 4 | 1 << 6;
    let b3 = 2 << 2;
    let sum = 0x82u32 + 2 + 13 + b1 + b2 + b3 + 1;
    let body = [(sum as u8).wrapping_neg(), b1 as u8, b2 as u8, b3 as u8, 1, 0, 0];
    assert_eq!(p.subpacket[0][..7], body);
    assert_eq!(p.subpacket[0][7], bch(&body));
    assert_eq!(p.subpacket[1], [0; 8]);

    let mut q = DataPacket::new();
    q.set_avi_info_frame(
        ScanInfo::NoData,
        PixelFormat::Ycbcr422,
        Colorimetry::NoData,
        PictureAspectRatio::NoData,
        ActiveFormatAspectRatio::NoData,
        QuantizationRange::Default,
        VideoCode::Code720x480P60,
    );
    assert_eq!(q.subpacket[0][1], 1 << 5);
    assert_eq!(q.subpacket[0][2], 0xff);
    assert_eq!(q.subpacket[0][4], 2);
}

#[test]
fn info_frame_checksum_covers_the_length_in_the_header() {
    let mut p = DataPacket::new();
    p.header = [1, 2, 8, 0];
    p.subpacket[0] = [0, 1, 2, 3, 4, 5, 6, 99];
    p.subpacket[1] = [10, 20, 30, 40, 50, 60, 70, 99];
    p.compute_info_frame_checksum();
    // Nine bytes: seven of the first subpacket and two of the second.
    let sum = 1 + 2 + 8 + (1 + 2 + 3 + 4 + 5 + 6) + 10 + 20;
    assert_eq!(p.subpacket[0][0], (256 - sum) as u8);
    assert_eq!(p.subpacket[0][1..], [1, 2, 3, 4, 5, 6, 99]);
    let mut q = DataPacket::new();
    q.header = [0, 0, 200, 0];
    q.subpacket = [[1; 8]; 4];
    q.compute_info_frame_checksum();
    assert_eq!(q.subpacket[0][0], (256 - (200 + 28) % 256) as u8);
}

#[test]
fn parity_bytes() {
    let mut p = DataPacket::new();
    p.header = [9, 8, 7, 0];
    p.subpacket[2] = [1, 2, 3, 4, 5, 6, 7, 0];
    p.compute_header_parity();
    p.compute_subpacket_parity(2);
    assert_eq!(p.header[3], bch(&[9, 8, 7]));
    assert_eq!(p.subpacket[2][7], bch(&[1, 2, 3, 4, 5, 6, 7]));
    assert_eq!(p.subpacket[0], [0; 8]);
}

#[test]
fn audio_sample_packet() {
    let mut p = DataPacket::new();
    let mut frame_count = 2;
    p.set_audio(&[[0x1234, -2], [-32768, 0x0101], [7, 7]], &mut frame_count);
    assert_eq!(frame_count, 2 - 3 + 192);
    assert_eq!(p.header, [2, 0b111, 0b100 << 4, bch(&[2, 0b111, 0b100 << 4])]);
    let want = |l: i16, r: i16| {
        let pl = (l as u16).count_ones() as u8 & 1;
        let pr = (r as u16).count_ones() as u8 & 1;
        let body =
            [0, l as u8, (l >> 8) as u8, 0, r as u8, (r >> 8) as u8, (pl << 3 | pr << 7) ^ 0x99];
        let mut sub = [0u8; 8];
        sub[..7].copy_from_slice(&body);
        sub[7] = bch(&body);
        sub
    };
    assert_eq!(p.subpacket[0], want(0x1234, -2));
    // Both samples have an odd number of ones.
    assert_eq!(p.subpacket[0][..7], [0, 0x34, 0x12, 0, 0xfe, 0xff, 0x11]);
    assert_eq!(p.subpacket[1], want(-32768, 0x0101));
    assert_eq!(p.subpacket[2], want(7, 7));
    assert_eq!(p.subpacket[3], [0; 8]);

    let mut q = DataPacket::new();
    let mut frame_count = 100;
    q.set_audio(&[[1, 1]], &mut frame_count);
    assert_eq!(frame_count, 99);
    assert_eq!(q.header[..3], [2, 1, 0]);
    let mut frame_count = 500;
    q.set_audio(&[], &mut frame_count);
    assert_eq!(frame_count, 500);
    assert_eq!(q.header[..3], [2, 0, 0]);
}

/// The encoding by transposition and table lookup.
fn encode(p: &DataPacket, hv: u8, result: &mut [u32]) {
    let table = terc4_table();
    let c0_base = hv as usize + 8;
    let gb = TERC4_SYMBOLS[c0_base + 4] as u32 | (0x133 << 10) | (0x133 << 20);
    result[0] = gb;
    result[1] = gb;
    result[34] = gb;
    result[35] = gb;
    let header = u32::from_le_bytes(p.header);
    for i in 0..8 {
        let v = p.subpacket[0][i] as u32
            | ((p.subpacket[1][i] as u32) << 8)
            | ((p.subpacket[2][i] as u32) << 16)
            | ((p.subpacket[3][i] as u32) << 24);
        let t = (v ^ (v >> 6)) & 0xcc00cc;
        let v = v ^ t ^ (t << 6);
        let t = (v ^ (v >> 12)) & 0xf0f0;
        let v = v ^ t ^ (t << 12);
        for j in 0..4 {
            let ix = i * 4 + j;
            let header_bit = ((header >> ix) & 1) as usize;
            let first_off = (ix == 0) as usize * 8;
            let c0 = TERC4_SYMBOLS[c0_base - first_off + header_bit * 4];
            result[ix + 2] = c0 as u32 | table[((v >> (j * 8)) & 0xff) as usize];
        }
    }
}

/// Symbol `ix` bit by bit: lane 1 sends bit `2 ix` of every subpacket and
/// lane 2 bit `2 ix + 1`.
fn symbol(p: &DataPacket, hv: u8, ix: usize) -> u32 {
    let bit = |k: usize, n: usize| ((p.subpacket[k][n / 8] >> (n % 8)) & 1) as usize;
    let nibble = |n: usize| bit(0, n) | bit(1, n) << 1 | bit(2, n) << 2 | bit(3, n) << 3;
    let header = u32::from_le_bytes(p.header);
    let lane0 = hv as usize | (((header >> ix) & 1) as usize) << 2 | ((ix != 0) as usize) << 3;
    TERC4_SYMBOLS[lane0] as u32
        | (TERC4_SYMBOLS[nibble(2 * ix)] as u32) << 10
        | (TERC4_SYMBOLS[nibble(2 * ix + 1)] as u32) << 20
}

#[test]
fn encode_sends_two_bits_of_every_subpacket_per_symbol() {
    let mut p = DataPacket::new();
    p.header = [0x84, 0x01, 0x0a, 0x5c];
    for k in 0..4 {
        for i in 0..8 {
            p.subpacket[k][i] = (k * 67 + i * 29 + 5) as u8 ^ 0xa5;
        }
    }
    for hv in 0..4u8 {
        let mut got = [7u32; 40];
        let mut want = [7u32; 40];
        p.encode(hv, &mut got);
        encode(&p, hv, &mut want);
        assert_eq!(got, want);
        for ix in 0..32 {
            assert_eq!(got[ix + 2], symbol(&p, hv, ix));
        }
        assert_eq!(got[36..], [7, 7, 7, 7]);
    }
}

fn timing() -> DviTiming {
    DviTiming::vga()
}

#[test]
fn data_island_commands() {
    let mut line = [5u32; 56];
    timing().init_data_island(&mut line);
    let mut want = [5u32; 56];
    want[0] = 0x1000 | 8;
    want[2] = 0x1000 | 8;
    want[4] = 36;
    want[41] = 0x1000 | 60;
    want[43] = 0x1000 | 38;
    want[45] = 10;
    assert_eq!(line, want);
}

#[test]
fn data_island_line() {
    let t = timing();
    let mut p = DataPacket::new();
    p.set_audio_info_frame(44100);
    for state in [DviTimingLineState::Active, DviTimingLineState::Sync, DviTimingLineState::BackPorch]
    {
        let v_sync = state == DviTimingLineState::Sync;
        let hv = (v_sync == t.v_sync_polarity) as u8 * 2;
        let mut line = [0u32; 56];
        t.init_data_island(&mut line);
        let commands = line;
        t.encode_data_island(&mut line, state, &p);
        let off = t.tmds3_for_sync(false, v_sync);
        let on = t.tmds3_for_sync(true, v_sync);
        let vid = off ^ (0x3ff << 10);
        for i in [0, 2, 4, 41, 43, 45] {
            assert_eq!(line[i], commands[i]);
        }
        assert_eq!(line[1], off);
        assert_eq!(line[3], vid ^ (0x3ff << 20));
        let mut island = [0u32; 36];
        encode(&p, hv, &mut island);
        assert_eq!(line[5..41], island);
        assert_eq!(line[42], on);
        assert_eq!(line[44], off);
        if state == DviTimingLineState::Active {
            assert_eq!(line[46..54], [vid; 8]);
            assert_eq!(line[54..56], [0x2cc | 0x133 << 10 | 0x2cc << 20; 2]);
        } else {
            assert_eq!(line[46..56], [off; 10]);
        }
    }
}

#[test]
fn empty_data_island_line() {
    let t = timing();
    let state = DviTimingLineState::Active;
    let mut line = [0u32; 56];
    t.init_data_island(&mut line);
    t.encode_data_island_empty(&mut line, state);
    let hv = (false == t.v_sync_polarity) as usize * 2 + t.h_sync_polarity as usize;
    let gb = TERC4_SYMBOLS[hv + 12] as u32 | (0x133 << 10) | (0x133 << 20);
    assert_eq!(line[5..7], [gb; 2]);
    assert_eq!(line[7], TERC4_SYMBOLS[hv] as u32 | (0x29c << 10) | (0x29c << 20));
    assert_eq!(line[8..39], [TERC4_SYMBOLS[hv + 8] as u32 | (0x29c << 10) | (0x29c << 20); 31]);
    assert_eq!(line[39..41], [gb; 2]);
    let mut other = [0u32; 56];
    t.init_data_island(&mut other);
    t.encode_data_island(&mut other, state, &DataPacket::new());
    assert_eq!(line, other);
}
