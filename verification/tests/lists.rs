use pico_dvi::render::font::Font;
use pico_dvi::render::palette::{Palette1bpp, Palette4bppFast};
use pico_dvi::render::renderlist::RenderlistBuilder;
use pico_dvi::render::{
    end_display_list, init_display_swapcell, rgb, start_display_list, xrgb, DisplayList, LineBuf,
    ScanRender,
};
use pico_dvi::render::swapcell::SwapCell;
use pico_dvi::scanlist::ScanlistBuilder;

const RED: u32 = 0x7c00;
const BLACK: u32 = 0;

#[test]
fn colours() {
    assert_eq!(rgb(0, 0, 0), 0);
    assert_eq!(rgb(255, 255, 255), 0x7fff);
    assert_eq!(rgb(255, 0, 0), 0x7c00);
    assert_eq!(rgb(0, 255, 0), 0x03e0);
    assert_eq!(rgb(0, 0, 255), 0x001f);
    assert_eq!(rgb(0xc0, 0x21, 0x4c), (0x4c >> 3) | (0x20 << 2) | (0xc0 << 7));
    assert_eq!(rgb(7, 7, 7), 0);
    assert_eq!(xrgb(0xff0000), 0x7c00);
    assert_eq!(xrgb(0x00ffff), 0x03ff);
    assert_eq!(xrgb(0x303030), rgb(0x30, 0x30, 0x30));
    assert_eq!(xrgb(0xab12_3456), rgb(0x12, 0x34, 0x56));
}

#[test]
fn palette_1bpp_is_indexed_by_two_pixels() {
    let p = Palette1bpp::new(0x11, 0x22);
    assert_eq!(p.words(), &[0x0011_0011, 0x0011_0022, 0x0022_0011, 0x0022_0022]);
    let q = Palette1bpp::new_rgb(0x800080, 0xffffff);
    let bg = xrgb(0x800080);
    assert_eq!(q.words(), &[bg | bg << 16, 0x7fff | bg << 16, bg | 0x7fff << 16, 0x7fff_7fff]);
    assert_eq!(Palette1bpp::black_and_white().words(), &[0, 0x7fff, 0x7fff_0000, 0x7fff_7fff]);
}

#[test]
fn palette_4bpp_is_indexed_by_two_pixels() {
    let mut colors = [0u32; 16];
    for (i, c) in colors.iter_mut().enumerate() {
        *c = (i as u32) * 0x101010;
    }
    let p = Palette4bppFast::new(&colors);
    for i in 0..256usize {
        assert_eq!(p.words()[i], xrgb(colors[i % 16]) | xrgb(colors[i / 16]) << 16);
    }
    assert_eq!(p.words()[0x21], xrgb(0x101010) | xrgb(0x202020) << 16);
}

#[test]
fn scan_list_words() {
    let mut sb = ScanlistBuilder::new(640, 480);
    sb.begin_stripe(100);
    sb.solid(100, RED);
    sb.solid(540, BLACK);
    sb.end_stripe();
    sb.begin_stripe(380);
    sb.pal_1bpp(32, &Palette1bpp::new(1, 2));
    sb.end_stripe();
    let list = sb.build();
    assert_eq!(
        list.get(),
        &[100, 9, 1, 100, RED, 1, 540, BLACK, 0, 380, 15, 2, 32, 0, 0]
    );
    assert_eq!(list.data(), &[0x0001_0001, 0x0001_0002, 0x0002_0001, 0x0002_0002]);
    assert_eq!(list.walk(), (2, 480));
}

#[test]
fn walker_visits_two_stripes() {
    for (h1, h2) in [(1u32, 1u32), (100, 380), (0, 5), (7, 0), (u32::MAX, u32::MAX)] {
        let mut rb = RenderlistBuilder::new(640);
        rb.begin_stripe(h1);
        rb.blit(&[1, 2, 3], 1);
        rb.end_stripe();
        rb.begin_stripe(h2);
        rb.end_stripe();
        let list = rb.build();
        assert_eq!(list.walk(), (2, h1 as u64 + h2 as u64));
        assert_eq!(list.get()[1], 7);
        assert_eq!(list.get()[8], 10);
        let mut sb = ScanlistBuilder::new(640, 480);
        sb.begin_stripe(h1);
        sb.solid(640, 0);
        sb.end_stripe();
        sb.begin_stripe(h2);
        sb.solid(10, 1);
        sb.solid(630, 2);
        sb.end_stripe();
        assert_eq!(sb.build().walk(), (2, h1 as u64 + h2 as u64));
    }
    assert_eq!(RenderlistBuilder::new(1).build().walk(), (0, 0));
}

#[test]
fn solid_runs_serialise_to_their_colours() {
    let mut sb = ScanlistBuilder::new(640, 1);
    sb.begin_stripe(1);
    sb.solid(100, RED);
    sb.solid(540, BLACK);
    sb.end_stripe();
    let list = sb.build();
    let cursor = list.start();
    let line = LineBuf::zero();
    let mut out = vec![0xdead_beefu32; 330];
    list.scan(&cursor, &line, &mut out);
    let positions: Vec<u32> =
        out[..320].iter().flat_map(|w| [w & 0xffff, w >> 16]).collect();
    assert_eq!(positions.len(), 640);
    assert!(positions[..100].iter().all(|p| *p == RED));
    assert!(positions[100..].iter().all(|p| *p == BLACK));
    assert!(out[320..].iter().all(|w| *w == 0xdead_beef));
}

#[test]
fn scan_stops_at_the_end_of_the_buffer() {
    let mut sb = ScanlistBuilder::new(640, 1);
    sb.begin_stripe(1);
    sb.solid(100, 5);
    sb.solid(u32::MAX, 6);
    sb.solid(8, 7);
    sb.end_stripe();
    let list = sb.build();
    let mut out = vec![0u32; 60];
    list.scan(&list.start(), &LineBuf::zero(), &mut out);
    assert!(out[..50].iter().all(|w| *w == 0x0005_0005));
    assert!(out[50..].iter().all(|w| *w == 0x0006_0006));
}

#[test]
fn palette_runs_look_pixels_up() {
    let pal1 = Palette1bpp::new(0xa, 0xb);
    let mut colors = [0u32; 16];
    for (i, c) in colors.iter_mut().enumerate() {
        *c = (i as u32) << 3;
    }
    let pal4 = Palette4bppFast::new(&colors);
    let mut sb = ScanlistBuilder::new(64, 1);
    sb.begin_stripe(1);
    sb.solid(4, 9);
    sb.pal_1bpp(36, &pal1);
    sb.pal_4bpp(8, &pal4);
    sb.end_stripe();
    let list = sb.build();
    // 36 one-bit pixels, then eight nibbles from bit 36 on.
    let line = LineBuf::from_words(&[0x8000_0005, 0x7654_321f, 0x0000_0008]);
    let mut out = vec![0u32; 2 + 18 + 4];
    list.scan(&list.start(), &line, &mut out);
    assert_eq!(out[0], 0x0009_0009);
    assert_eq!(out[1], 0x0009_0009);
    assert_eq!(out[2], 0x000a_000b);
    assert_eq!(out[3], 0x000a_000b);
    assert_eq!(out[4], 0x000a_000a);
    assert_eq!(out[17], 0x000b_000a);
    assert_eq!(out[18], 0x000b_000b);
    assert_eq!(out[19], 0x000b_000b);
    assert_eq!(out[20], pal4.words()[0x21]);
    assert_eq!(out[21], pal4.words()[0x43]);
    assert_eq!(out[22], pal4.words()[0x65]);
    assert_eq!(out[23], pal4.words()[0x87]);
}

#[test]
fn blit_copies_the_word_of_the_row() {
    let mut rb = RenderlistBuilder::new(64);
    rb.begin_stripe(3);
    rb.blit(&[0x11, 0x12, 0x21, 0x22, 0x31, 0x32], 2);
    rb.blit(&[0x11, 0x12, 0x21, 0x22, 0x31, 0x32][1..], 2);
    rb.end_stripe();
    let list = rb.build();
    assert_eq!(list.get(), &[3, 11, 2, 0, 2, 0, 2, 6, 2, 0, 0]);
    assert_eq!(list.data().len(), 11);
    let mut cursor = list.start();
    for row in 0..3u32 {
        assert_eq!(cursor.stripe_row(), row);
        let mut line = LineBuf::from_words(&[9, 9, 9]);
        list.render(&cursor, &mut line);
        assert_eq!(line.words()[..3], [0x11 + 0x10 * row, 0x12 + 0x10 * row, 9]);
        list.advance(&mut cursor);
    }
    assert!(list.at_end(&cursor));
}

fn font() -> Font {
    // Four glyphs of widths 3, 5, 32 and 4 for the characters 'a' to 'd',
    // two rows of two words each.
    let bits = vec![0b1010_0101 | 0xf << 28, 0xdead_beef, 0b0110_1011 | 0x9 << 28, 0x1234_5678];
    Font::new(bits, 2, 2, b'a', vec![3, 5, 32, 4], vec![0, 3, 32, 28]).unwrap()
}

#[test]
fn font_rejects_glyphs_across_words() {
    assert!(Font::new(vec![], 1, 1, b' ', vec![4], vec![30]).is_none());
    assert!(Font::new(vec![], 1, 1, b' ', vec![4, 4], vec![0]).is_none());
    assert!(Font::new(vec![], 1, 1, 255, vec![1, 1], vec![0, 1]).is_none());
    let f = font();
    assert!(f.contains(b'a') && f.contains(b'd'));
    assert!(!f.contains(b'e') && !f.contains(b' '));
    assert_eq!(f.glyph_width(b'c'), 32);
    assert_eq!(f.glyph_offset(b'd'), 28);
    assert_eq!(f.rows(), 2);
}

#[test]
fn text_places_glyphs_side_by_side() {
    let f = font();
    let mut rb = RenderlistBuilder::new(640);
    rb.begin_stripe(2);
    let width = rb.text(&f, "abdcab");
    rb.end_stripe();
    assert_eq!(width, 3 + 5 + 4 + 32 + 3 + 5);
    let list = rb.build();
    assert_eq!(list.walk(), (1, 2));
    let ops: Vec<u32> = list.get()[2..].chunks(4).map(|r| r[0]).collect();
    // simple, simple, simple, straddle, simple, out, stop
    assert_eq!(ops, vec![1, 1, 1, 3, 1, 2, 0]);
    let mut cursor = list.start();
    let rows: [[u64; 4]; 2] =
        [[0b101, 0b10100, 0xf, 0xdead_beef], [0b011, 0b01101, 0x9, 0x1234_5678]];
    for glyphs in rows {
        let [a, b, d, c] = glyphs;
        let want: u64 =
            a | b << 3 | d << 8 | c << 12 | a << 44 | b << 47;
        let mut line = LineBuf::zero();
        list.render(&cursor, &mut line);
        assert_eq!(line.words()[0], want as u32);
        assert_eq!(line.words()[1], (want >> 32) as u32);
        assert_eq!(line.words()[2], 0);
        list.advance(&mut cursor);
    }
}

#[test]
fn text_that_ends_across_words_writes_both() {
    let f = font();
    let mut rb = RenderlistBuilder::new(640);
    rb.begin_stripe(1);
    let width = rb.text(&f, "cb");
    rb.end_stripe();
    assert_eq!(width, 37);
    let mut rb2 = RenderlistBuilder::new(640);
    rb2.begin_stripe(1);
    assert_eq!(rb2.text(&f, "dc"), 36);
    rb2.end_stripe();
    let list = rb2.build();
    assert_eq!(list.get()[2], 1);
    assert_eq!(list.get()[6], 4);
    let mut line = LineBuf::from_words(&[7, 7, 7]);
    list.render(&list.start(), &mut line);
    let want: u64 = 0xf | 0xdead_beef << 4;
    assert_eq!(line.words()[..3], [want as u32, (want >> 32) as u32, 7]);
    assert_eq!(rb.build().get()[2], 2);
}

#[test]
fn empty_text_adds_nothing() {
    let f = font();
    let mut rb = RenderlistBuilder::new(640);
    rb.begin_stripe(1);
    assert_eq!(rb.text(&f, ""), 0);
    rb.end_stripe();
    assert_eq!(rb.build().get(), &[1, 3, 0]);
}

#[test]
fn whole_tiles_copy_sixteen_pixels() {
    let tile = [0x7654_3210, 0xfedc_ba98, 0x1111_1111, 0x2222_2222];
    let mut rb = RenderlistBuilder::new(48);
    rb.begin_stripe(2);
    rb.tile64(&tile, 0, 16);
    rb.tile64(&tile, 0, 16);
    rb.end_stripe();
    let list = rb.build();
    assert_eq!(list.get(), &[2, 11, 5, 0, 2, 0, 5, 0, 2, 0, 0]);
    assert_eq!(list.data(), &tile);
    let mut cursor = list.start();
    let mut line = LineBuf::zero();
    list.render(&cursor, &mut line);
    assert_eq!(line.words()[..5], [0x7654_3210, 0xfedc_ba98, 0x7654_3210, 0xfedc_ba98, 0]);
    list.advance(&mut cursor);
    list.render(&cursor, &mut line);
    assert_eq!(line.words()[..5], [0x1111_1111, 0x2222_2222, 0x1111_1111, 0x2222_2222, 0]);
}

#[test]
fn shifted_tiles_join_up() {
    let tile = [0x7654_3210, 0xfedc_ba98];
    let mut rb = RenderlistBuilder::new(640);
    rb.begin_stripe(1);
    rb.tile64(&tile, 5, 16);
    rb.tile64(&tile, 0, 16);
    rb.tile64(&tile, 0, 5);
    rb.end_stripe();
    let list = rb.build();
    let ops: Vec<u32> = list.get()[2..].chunks(4).map(|r| r[0]).collect();
    assert_eq!(ops, vec![1, 3, 6, 2, 0]);
    let mut line = LineBuf::zero();
    list.render(&list.start(), &mut line);
    // Pixels 5..16, then 0..16, then 0..5: 32 pixels in four words.
    assert_eq!(line.words()[0], 0xcba9_8765);
    assert_eq!(line.words()[1], 0x4321_0fed);
    assert_eq!(line.words()[2], 0xcba9_8765);
    assert_eq!(line.words()[3], 0x4321_0fed);
    assert_eq!(line.words()[4], 0);
}

#[test]
fn tiles_are_cut_at_the_width() {
    let tile = [0x7654_3210, 0xfedc_ba98];
    let mut rb = RenderlistBuilder::new(24);
    rb.begin_stripe(1);
    rb.tile64(&tile, 0, 16);
    rb.tile64(&tile, 0, 16);
    rb.tile64(&tile, 0, 16);
    rb.end_stripe();
    let list = rb.build();
    let ops: Vec<u32> = list.get()[2..].chunks(4).map(|r| r[0]).collect();
    // A whole tile, its first word alone, and a tile of which nothing is left.
    assert_eq!(ops, vec![5, 2, 1, 0]);
    let mut line = LineBuf::zero();
    list.render(&list.start(), &mut line);
    assert_eq!(line.words()[..4], [0x7654_3210, 0xfedc_ba98, 0x7654_3210, 0]);
}

#[test]
fn display_list_of_black() {
    let dl = DisplayList::new(640, 480);
    assert_eq!(dl.render_list().get(), &[480, 3, 0]);
    assert_eq!(dl.render_list().width(), 640);
    assert_eq!(dl.scan_list().get(), &[480, 6, 1, 640, 0, 0]);
}

#[test]
fn display_list_needs_equal_heights() {
    let lists = |r: u32, s: u32| {
        let mut rb = RenderlistBuilder::new(8);
        rb.begin_stripe(r);
        rb.end_stripe();
        let mut sb = ScanlistBuilder::new(8, s);
        sb.begin_stripe(s / 2);
        sb.end_stripe();
        sb.begin_stripe(s - s / 2);
        sb.end_stripe();
        (rb.build(), sb.build())
    };
    let (r, s) = lists(10, 10);
    assert!(DisplayList::pair(r, s).is_some());
    let (r, s) = lists(10, 11);
    assert!(DisplayList::pair(r, s).is_none());
}

#[test]
fn display_lists_go_round_through_the_cell() {
    let mut cell = SwapCell::new();
    assert!(start_display_list(&mut cell).is_none());
    init_display_swapcell(&mut cell, 64);
    let (mut rb, mut sb) = start_display_list(&mut cell).unwrap();
    assert!(start_display_list(&mut cell).is_none());
    rb.begin_stripe(2);
    rb.blit(&[0x5, 0x6], 1);
    rb.end_stripe();
    sb.begin_stripe(1);
    sb.solid(4, RED);
    sb.end_stripe();
    sb.begin_stripe(1);
    sb.pal_1bpp(4, &Palette1bpp::new(1, 2));
    sb.end_stripe();
    end_display_list(&mut cell, rb, sb);
    assert!(cell.ready_for_system());

    let mut sr = ScanRender::new();
    let mut line = LineBuf::zero();
    let mut video = vec![0xffu32; 3];
    assert!(sr.render_scanline(&mut cell, &mut line, &mut video, 0));
    assert_eq!(video, vec![RED | RED << 16, RED | RED << 16, 0xff]);
    assert_eq!(line.words()[0], 5);
    assert!(!sr.render_scanline(&mut cell, &mut line, &mut video, 1));
    assert_eq!(line.words()[0], 6);
    assert_eq!(video, vec![0x0002_0001, 0x0001_0002, 0xff]);
    // No more rows: nothing changes.
    video[0] = 1;
    assert!(!sr.render_scanline(&mut cell, &mut line, &mut video, 2));
    assert_eq!(video, vec![1, 0x0001_0002, 0xff]);
    // The next frame shows the same list again, and the client has the
    // list that was shown before.
    assert!(!sr.render_scanline(&mut cell, &mut line, &mut video, 0));
    assert_eq!(video[0], RED | RED << 16);
    let (rb, _sb) = start_display_list(&mut cell).unwrap();
    assert_eq!(rb.build().width(), 640);
}

#[test]
fn tmds_palettes_hold_balanced_pairs() {
    use_tmds_palettes();
}

fn use_tmds_palettes() {
    let near = pico_dvi::dvi::tmds::TmdsSymbol::balanced_near;
    let pair = |a: u8, b: u8| pico_dvi::dvi::tmds::TmdsPair::encode_pair(near(a), near(b)).raw();
    let p = Palette1bpp::new_tmds(0x00, 0xff);
    assert_eq!(p.words(), &[pair(0, 0), pair(255, 0), pair(0, 255), pair(255, 255)]);
    for w in p.words() {
        assert_eq!(w.count_ones(), 10);
        assert!(*w < 1 << 20);
    }
    let lanes = Palette1bpp::new_tmds_rgb(0x102030, 0xa0b0c0);
    assert_eq!(lanes[0].words()[1], pair(0xc0, 0x30));
    assert_eq!(lanes[1].words()[1], pair(0xb0, 0x20));
    assert_eq!(lanes[2].words()[2], pair(0x10, 0xa0));
    let mut levels = [0u8; 16];
    for (i, l) in levels.iter_mut().enumerate() {
        *l = (i * 17) as u8;
    }
    let q = Palette4bppFast::new_tmds(&levels);
    for i in 0..256usize {
        assert_eq!(q.words()[i], pair(levels[i % 16], levels[i / 16]));
        assert_eq!(q.words()[i].count_ones(), 10);
    }
    let mut colors = [0u32; 16];
    for (i, c) in colors.iter_mut().enumerate() {
        *c = (i as u32) * 0x010203;
    }
    let green = Palette4bppFast::new_tmds_lane(&colors, 1);
    assert_eq!(green.words()[0xf1], pair(0x02, 0x1e));
}

#[test]
fn solid_runs_of_tmds_pairs() {
    let red = pico_dvi::dvi::tmds::TmdsPair::encode_balanced_approx(0xff);
    let black = pico_dvi::dvi::tmds::TmdsPair::encode_balanced_approx(0x00);
    assert!(red.raw() != black.raw());
    let mut sb = ScanlistBuilder::new(640, 1);
    sb.begin_stripe(1);
    sb.solid_tmds(100, red);
    sb.solid_tmds(540, black);
    sb.end_stripe();
    let list = sb.build();
    assert_eq!(list.get(), &[1, 9, 4, 100, red.raw(), 4, 540, black.raw(), 0]);
    let mut out = vec![0u32; 320];
    list.scan(&list.start(), &LineBuf::zero(), &mut out);
    let symbols: Vec<u32> = out.iter().flat_map(|w| [w & 0x3ff, w >> 10]).collect();
    assert_eq!(symbols.len(), 640);
    let (d, r0) = pico_dvi::dvi::tmds::TmdsSymbol::encode(0, 0xff);
    let (_, r1) = pico_dvi::dvi::tmds::TmdsSymbol::encode(d, 0xfe);
    let (d, b0) = pico_dvi::dvi::tmds::TmdsSymbol::encode(0, 0x00);
    let (_, b1) = pico_dvi::dvi::tmds::TmdsSymbol::encode(d, 0x01);
    for (i, s) in symbols.iter().enumerate() {
        let want = match (i < 100, i % 2 == 0) {
            (true, true) => r0.raw(),
            (true, false) => r1.raw(),
            (false, true) => b0.raw(),
            (false, false) => b1.raw(),
        };
        assert_eq!(*s, want, "symbol {i}");
    }
}
