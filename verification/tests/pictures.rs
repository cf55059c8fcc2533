use pico_dvi::clock::{configure_sys_clock, init_clocks, ClockCfg};
use pico_dvi::console::{display_console, Console};
use pico_dvi::demo::conway::{age_label, GameOfLife};
use pico_dvi::demo::{
    colorbars, demo, frame_label, push_decimal, solid_stripe, text_stripes, tiles, Counter, Demo,
    Scene, PALETTE, TILE_DATA,
};
use pico_dvi::framebuffer::Rgb332;
use pico_dvi::render::font::Font;
use pico_dvi::render::palette::{Palette1bpp, Palette4bppFast};
use pico_dvi::render::renderlist::RenderlistBuilder;
use pico_dvi::render::{rgb, xrgb, DisplayList, LineBuf};
use pico_dvi::scanlist::ScanlistBuilder;

/// A font of 8 by 8 pixels for all printable characters: every glyph is a
/// box with the code of its character in its middle rows.
fn font() -> Font {
    let n = 95;
    let stride = n * 8 / 32 + 1;
    let mut bits = vec![0u32; stride * 8];
    for g in 0..n {
        for row in 0..8 {
            let pattern: u32 = if row == 0 || row == 7 { 0xff } else { 0x81 | (g as u32 + 32) & 0x7e };
            let bit = g * 8;
            bits[row * stride + bit / 32] |= pattern << (bit % 32);
        }
    }
    Font::new(
        bits,
        stride as u32,
        8,
        b' ',
        vec![8; n],
        (0..n).map(|g| (g * 8) as u16).collect(),
    )
    .unwrap()
}

#[test]
fn pll_settings_for_the_bit_clock() {
    // 252 MHz: 1512 MHz / 6 / 1.
    assert!(
        configure_sys_clock(252_000)
            == Some(ClockCfg { vco_freq: 1_512_000, post_div1: 6, post_div2: 1 })
    );
    // 126 MHz: the fastest oscillator that divides is preferred.
    assert!(
        configure_sys_clock(126_000)
            == Some(ClockCfg { vco_freq: 1_512_000, post_div1: 6, post_div2: 2 })
    );
    // 150 MHz: 1500 / 5 / 2 beats 1200 / 4 / 2 and 900 / 6 / 1.
    assert!(
        configure_sys_clock(150_000)
            == Some(ClockCfg { vco_freq: 1_500_000, post_div1: 5, post_div2: 2 })
    );
    assert!(configure_sys_clock(251_750).is_none());
    assert!(configure_sys_clock(0).is_none());
    assert!(configure_sys_clock(u32::MAX).is_none());
    assert!(
        configure_sys_clock(1_596_000)
            == Some(ClockCfg { vco_freq: 1_596_000, post_div1: 1, post_div2: 1 })
    );
    assert!(configure_sys_clock(1_608_000).is_none());
}

#[test]
fn pll_settings_are_the_first_in_search_order() {
    // The search of every feedback divider from high to low, then of the
    // post dividers from high to low.
    for requested in [16_000u32, 48_000, 125_000, 133_000, 200_000, 250_000, 300_000, 756_000] {
        let mut want = None;
        'search: for fb in (16..=320u32).rev() {
            let vco = fb * 12_000;
            if vco < 750_000 {
                break;
            }
            if vco > 1_600_000 {
                continue;
            }
            for p1 in (1..=7u32).rev() {
                for p2 in (1..=p1).rev() {
                    if vco % (p1 * p2) == 0 && vco / (p1 * p2) == requested {
                        want = Some(ClockCfg { vco_freq: vco, post_div1: p1, post_div2: p2 });
                        break 'search;
                    }
                }
            }
        }
        assert!(configure_sys_clock(requested) == want, "{requested}");
    }
}

#[test]
fn clock_plan_falls_back_to_150_mhz() {
    let plan = init_clocks(126_000, 1);
    assert_eq!(plan.sys_khz, 126_000);
    assert_eq!(plan.hstx_khz, 126_000);
    assert_eq!(plan.pll_sys.vco_freq_khz, 1_512_000);
    assert_eq!((plan.pll_sys.refdiv, plan.pll_sys.post_div1, plan.pll_sys.post_div2), (1, 6, 2));
    let plan = init_clocks(252_000, 2);
    assert_eq!(plan.sys_khz, 252_000);
    assert_eq!(plan.hstx_khz, 126_000);
    let plan = init_clocks(251_750, 2);
    assert_eq!(plan.sys_khz, 150_000);
    assert_eq!(plan.hstx_khz, 75_000);
    assert_eq!(plan.pll_sys.vco_freq_khz, 1_500_000);
    assert_eq!((plan.pll_sys.refdiv, plan.pll_sys.post_div1, plan.pll_sys.post_div2), (1, 5, 2));
}

#[test]
fn counter_toggles_every_fifteenth_frame() {
    let mut c = Counter::new();
    let toggles: Vec<bool> = (0..31).map(|_| c.count()).collect();
    for (i, t) in toggles.iter().enumerate() {
        assert_eq!(*t, i % 15 == 0);
    }
    assert_eq!(c.value(), 31);
}

#[test]
fn decimal_digits() {
    for n in [0u32, 7, 10, 99, 100, 12345, 1_000_000, u32::MAX] {
        let mut buf = vec![b'x'];
        push_decimal(&mut buf, n);
        assert_eq!(String::from_utf8(buf).unwrap(), format!("x{n}"));
    }
    assert_eq!(String::from_utf8(frame_label(42)).unwrap(), "Hello pico-dvi-rs, frame 42");
    assert_eq!(String::from_utf8(age_label(7)).unwrap(), "Conway's Game of life, age: 7");
}

fn heights(code: &[u32]) -> Vec<u32> {
    let mut pc = 0;
    let mut out = Vec::new();
    while pc < code.len() {
        out.push(code[pc]);
        pc = code[pc + 1] as usize;
    }
    out
}

#[test]
fn colorbars_picture() {
    let f = font();
    let mut rb = RenderlistBuilder::new(640);
    let mut sb = ScanlistBuilder::new(640, 480);
    colorbars(&mut rb, &mut sb, &f, 123);
    let render = rb.build();
    let scan = sb.build();
    assert_eq!(heights(render.get()), vec![472, 8]);
    assert_eq!(heights(scan.get()), vec![320, 40, 112, 8]);
    assert_eq!(scan.walk(), (4, 480));
    let code = scan.get();
    assert_eq!(code[2..5], [1, 92, rgb(0xc0, 0xc0, 0xc0)]);
    assert_eq!(code[20..23], [1, 92, rgb(0, 0, 0xc0)]);
    // The label has 28 characters of 8 pixels.
    let text = &code[code.len() - 7..];
    assert_eq!(text, &[2, 224, 0, 1, 416, 0, 0]);
    let dl = DisplayList::pair(render, scan).unwrap();
    // Row 0 of the picture: seven bars.
    let mut line = LineBuf::zero();
    let mut out = vec![0u32; 320];
    let cursor = dl.scan_list().start();
    dl.scan_list().scan(&cursor, &line, &mut out);
    let bar = |i: usize| out[i] & 0xffff;
    assert_eq!(bar(0), rgb(0xc0, 0xc0, 0xc0));
    assert_eq!(bar(46), rgb(0xc0, 0xc0, 0));
    assert_eq!(bar(319), rgb(0, 0, 0xc0));
    // Row 472 is the top row of the text: all glyphs have their top row set.
    let mut rc = dl.render_list().start();
    dl.render_list().advance(&mut rc);
    for _ in 0..471 {
        dl.render_list().advance(&mut rc);
    }
    assert_eq!(rc.stripe_row(), 0);
    dl.render_list().render(&rc, &mut line);
    assert_eq!(line.words()[..8], [u32::MAX; 7][..].iter().chain(&[0]).copied().collect::<Vec<_>>()[..]);
}

#[test]
fn tiles_picture() {
    let f = font();
    let palette = Palette4bppFast::new(&PALETTE);
    for count in [0u32, 17, 75, 130, 200, 239] {
        let mut rb = RenderlistBuilder::new(640);
        let mut sb = ScanlistBuilder::new(640, 480);
        tiles(&mut rb, &mut sb, &f, &palette, count);
        let render = rb.build();
        let scan = sb.build();
        assert_eq!(render.walk().1, 480);
        assert_eq!(heights(scan.get()), vec![472, 8]);
        assert_eq!(scan.get()[2..5], [3, 640, 0]);
        let hs = heights(render.get());
        assert_eq!(*hs.last().unwrap(), 8);
        let y_off = if (60..120).contains(&count) {
            count - 60
        } else if (120..180).contains(&count) {
            60
        } else if count >= 180 {
            240 - count
        } else {
            0
        };
        assert_eq!(hs[0], 16 - y_off % 16);
        assert!(hs[1..hs.len() - 2].iter().all(|h| *h == 16));
        // The tile is stored once for the first stripe and once for the rest.
        assert!(render.data().len() <= 64 + f.words().len());
        // The first stripe draws from the rows of the tile that are left, and
        // the others from the whole tile behind them.
        let first = if count < 60 {
            count % 16
        } else if count < 120 {
            60 % 16
        } else if count < 180 {
            (180 - count) % 16
        } else {
            0
        };
        let top = (y_off % 16) as usize;
        let code = render.get();
        assert_eq!(render.data()[..32 - 2 * top], TILE_DATA[2 * top..]);
        // A row that starts in the second half of a tile starts with the
        // second word of the tile.
        let word = if first >= 8 { 1 } else { 0 };
        assert_eq!(code[3], word);
        let second = code[1] as usize;
        let rest_at = if top == 0 { 0 } else { 32 - 2 * top };
        assert_eq!(code[second + 3] as usize, rest_at + word as usize);
        assert_eq!(render.data()[rest_at..rest_at + 32], TILE_DATA);
        // Whole tiles take one instruction, and tiles that are cut one for
        // each half that is drawn.
        let records = (second - 3) / 4;
        let want = if first == 0 {
            40
        } else {
            // The first and the last tile are cut.
            let head = if first < 8 { 2 } else { 1 };
            let tail = if first <= 8 { 1 } else { 2 };
            head + 39 + tail
        };
        assert_eq!(records, want, "frame {count}");
        // Every row of tiles fills 640 pixels of four bits.
        let x_off = if count < 60 {
            count
        } else if count < 120 {
            60
        } else if count < 180 {
            180 - count
        } else {
            0
        };
        let mut line = LineBuf::from_words(&[0xdead_beef; 90]);
        let mut cursor = render.start();
        render.advance(&mut cursor);
        for _ in 0..hs[0] {
            render.advance(&mut cursor);
        }
        assert_eq!(cursor.stripe_row(), 1);
        render.render(&cursor, &mut line);
        let pixel = |x: usize| (line.words()[x / 8] >> (4 * (x % 8))) & 0xf;
        let tile = |x: usize| (TILE_DATA[2 + (x % 16) / 8] >> (4 * (x % 8))) & 0xf;
        for x in 0..640 {
            assert_eq!(pixel(x), tile(x + x_off as usize % 16), "pixel {x} of frame {count}");
        }
    }
}

#[test]
fn life_follows_the_rule() {
    let mut game = GameOfLife::empty();
    // A glider, and three cells at the right edge of the board.
    for (x, y) in [(1, 0), (2, 1), (0, 2), (1, 2), (2, 2), (447, 100), (447, 101), (447, 102)] {
        game.set(x, y, true);
    }
    assert!(game.get(2, 1) && !game.get(3, 1));
    game.set(3, 3, true);
    game.set(3, 3, false);
    let count = |g: &GameOfLife| {
        let mut n = 0;
        for y in 0..210 {
            for x in 0..448 {
                n += g.get(x, y) as u32;
            }
        }
        n
    };
    assert_eq!(count(&game), 8);
    for generation in 1..=8u32 {
        let mut want = Vec::new();
        for y in 0..210i32 {
            for x in 0..448i32 {
                let mut n = 0;
                for dy in -1..=1 {
                    for dx in -1..=1 {
                        if (dx, dy) != (0, 0) && x + dx >= 0 && y + dy >= 0 {
                            n += game.get((x + dx) as usize, (y + dy) as usize) as u32;
                        }
                    }
                }
                want.push(n == 3 || (n == 2 && game.get(x as usize, y as usize)));
            }
        }
        game.tick();
        assert_eq!(game.generation(), generation);
        for y in 0..210 {
            for x in 0..448 {
                assert_eq!(game.get(x, y), want[y * 448 + x], "cell {x}, {y}");
            }
        }
    }
    // After four generations a glider has moved by one cell; after eight by two.
    for (x, y) in [(3, 2), (4, 3), (2, 4), (3, 4), (4, 4)] {
        assert!(game.get(x, y));
    }
    // The cells at the edge have no neighbours beyond it and have died out.
    assert_eq!(count(&game), 5);
}

#[test]
fn life_picture() {
    let f = font();
    let mut game = GameOfLife::empty();
    game.set(0, 0, true);
    game.set(33, 0, true);
    game.set(419, 209, true);
    let mut rb = RenderlistBuilder::new(640);
    let mut sb = ScanlistBuilder::new(640, 480);
    game.render(&mut rb, &mut sb, &f, 5);
    let render = rb.build();
    let scan = sb.build();
    assert_eq!(heights(render.get()), vec![135, 210, 119, 8, 8]);
    assert_eq!(heights(scan.get()), vec![135, 210, 119, 8, 8]);
    let bg = xrgb(0x800080);
    assert_eq!(scan.get()[..6], [135, 6, 1, 640, bg, 0]);
    assert_eq!(scan.get()[6..18], [210, 18, 1, 110, bg, 2, 420, 0, 1, 110, bg, 0]);
    assert_eq!(scan.data()[..4], *Palette1bpp::new_rgb(0x303030, 0x00ffff).words());
    assert_eq!(scan.data()[4..8], *Palette1bpp::new_rgb(0x800080, 0xffffff).words());
    assert_eq!(render.data()[..2940], *game.words());
    // The first and the last row of the board.
    let mut cursor = render.start();
    for _ in 0..135 {
        render.advance(&mut cursor);
    }
    let mut line = LineBuf::zero();
    render.render(&cursor, &mut line);
    assert_eq!(line.words()[..15], [1, 2, 0, 0, 0, 0, 0, 0, 0, 0, 0, 0, 0, 0, 0]);
    for _ in 0..209 {
        render.advance(&mut cursor);
    }
    assert_eq!(cursor.stripe_row(), 209);
    render.render(&cursor, &mut line);
    assert_eq!(line.words()[13], 1 << 3);
    assert_eq!(line.words()[..13], [0; 13]);
}

#[test]
fn demo_goes_round_its_pictures() {
    let f = font();
    let palette = Palette4bppFast::new(&PALETTE);
    let mut game = GameOfLife::empty();
    for (x, y) in [(10, 10), (11, 10), (12, 10)] {
        game.set(x, y, true);
    }
    let mut state = Demo::new(game);
    let mut ages = Vec::new();
    for frame in 0..601u32 {
        let scene = state.scene();
        assert!(
            scene
                == if frame % 600 < 120 {
                    Scene::Colorbars
                } else if frame % 600 < 360 {
                    Scene::Tiles
                } else {
                    Scene::Life
                }
        );
        let mut rb = RenderlistBuilder::new(640);
        let mut sb = ScanlistBuilder::new(640, 480);
        let toggle = demo(&mut state, &mut rb, &mut sb, &f, &palette);
        assert_eq!(toggle, frame % 15 == 0);
        let render = rb.build();
        let scan = sb.build();
        assert_eq!(render.walk().1, 480);
        assert_eq!(scan.walk().1, 480);
        if scene == Scene::Life {
            // The age is the last number of the first line of text.
            ages.push(render.data().len());
        }
        assert!(DisplayList::pair(render, scan).is_some());
    }
    assert_eq!(ages.len(), 240);
}

#[test]
fn console_keeps_the_last_characters() {
    let mut c = Console::new();
    assert_eq!(c.written(), 0);
    c.write_string("ab");
    c.write_string("");
    c.write_string("cde");
    assert_eq!(c.written(), 8);
    let got: Vec<u8> = (0..9).map(|i| c.get_byte(i)).collect();
    assert_eq!(got, b"ab\n\ncde\n\0");
    assert_eq!(c.get_byte(4096 + 4), b'c');
    let long = "x".repeat(5000);
    c.write_string(&long);
    assert_eq!(c.written(), 8 + 5001);
    // The ring holds the last 4096 characters: the end of the line.
    assert_eq!(c.get_byte(5008), b'\n');
    assert_eq!(c.get_byte(5007), b'x');
    assert_eq!(c.get_byte(5009), b'x');
}

fn console_lines(c: &Console, f: &Font) -> (Vec<u32>, Vec<u32>) {
    let mut rb = RenderlistBuilder::new(640);
    let mut sb = ScanlistBuilder::new(640, 480);
    display_console(c, &mut rb, &mut sb, f);
    let render = rb.build();
    let scan = sb.build();
    assert_eq!(render.walk().1, 480);
    assert_eq!(scan.walk().1, 480);
    assert_eq!(heights(render.get()), heights(scan.get()));
    // The widths of the lines of text in the scan list.
    let code = scan.get();
    let mut widths = Vec::new();
    let mut pc = 0;
    while pc < code.len() {
        if code[pc + 2] == 2 {
            widths.push(code[pc + 3]);
        }
        pc = code[pc + 1] as usize;
    }
    (heights(render.get()), widths)
}

#[test]
fn console_picture_shows_the_last_lines() {
    let f = font();
    let mut c = Console::new();
    let (hs, widths) = console_lines(&c, &f);
    assert_eq!(hs, vec![480]);
    assert!(widths.is_empty());
    c.write_string("hello");
    c.write_string("");
    c.write_string("a\u{7}b");
    let (hs, widths) = console_lines(&c, &f);
    assert_eq!(hs, vec![8, 8, 8, 456]);
    assert_eq!(widths, vec![40, 0, 16]);
    for i in 0..100 {
        c.write_string(&"y".repeat(i % 30));
    }
    let (hs, widths) = console_lines(&c, &f);
    assert_eq!(hs, vec![8; 60]);
    let want: Vec<u32> = (40..100).map(|i| 8 * (i % 30)).collect();
    assert_eq!(widths, want);
    // A line that is too long is cut at the width of the picture.
    c.write_string(&"z".repeat(100));
    let (_, widths) = console_lines(&c, &f);
    assert_eq!(widths[59], 640);
    assert_eq!(widths[58], 8 * (99 % 30));
    // Lines that are longer than the ring: what is left of the last is shown.
    c.write_string(&"w".repeat(5000));
    let (hs, widths) = console_lines(&c, &f);
    assert_eq!(hs, vec![8, 472]);
    assert_eq!(widths, vec![640]);
}

#[test]
fn stripe_helpers() {
    let f = font();
    let mut rb = RenderlistBuilder::new(640);
    let mut sb = ScanlistBuilder::new(640, 480);
    solid_stripe(&mut sb, 5, &[(10, 1), (20, 2)]);
    solid_stripe(&mut sb, 6, &[]);
    text_stripes(&mut rb, &mut sb, &f, b"abc", &Palette1bpp::new(3, 4), 9);
    let scan = sb.build();
    assert_eq!(
        scan.get(),
        &[5, 9, 1, 10, 1, 1, 20, 2, 0, 6, 12, 0, 8, 21, 2, 24, 0, 1, 616, 9, 0]
    );
    assert_eq!(scan.data(), Palette1bpp::new(3, 4).words());
    assert_eq!(heights(rb.build().get()), vec![8]);
}

#[test]
fn rgb332_channels() {
    let p = Rgb332::from_bytes([0b10_011_101]);
    assert_eq!((p.r(), p.g(), p.b()), (0b101, 0b011, 0b10));
    assert_eq!(p.into_bytes(), [0b10_011_101]);
    let z = Rgb332::new();
    assert_eq!((z.r(), z.g(), z.b()), (0, 0, 0));
    let w = Rgb332::from_bytes([0xff]);
    assert_eq!((w.r(), w.g(), w.b()), (Rgb332::MAX_R, Rgb332::MAX_G, Rgb332::MAX_B));
}

fn live_cells(game: &GameOfLife) -> Vec<(usize, usize)> {
    let mut cells = Vec::new();
    for y in 0..210 {
        for x in 0..448 {
            if game.get(x, y) {
                cells.push((x, y));
            }
        }
    }
    cells
}

#[test]
fn life_seed_places_patterns() {
    let game = GameOfLife::new(".*.\n..*\n***\n").unwrap();
    assert_eq!(game.generation(), 0);
    assert_eq!(live_cells(&game), vec![(211, 105), (212, 106), (210, 107), (211, 107), (212, 107)]);
    let game = GameOfLife::new("#P -1 -1\r\n.*.\r\n..*\r\n***").unwrap();
    assert_eq!(live_cells(&game), vec![(210, 104), (211, 105), (209, 106), (210, 106), (211, 106)]);
    let game = GameOfLife::new("\n#P  -210 -105 \n*\n\n.*\n#P 237 +104\n*\n").unwrap();
    assert_eq!(live_cells(&game), vec![(0, 0), (1, 1), (447, 209)]);
    // A pattern that is put where another one lies replaces it.
    let game = GameOfLife::new("#P 0 0\n***\n#P 1 0\n.\n").unwrap();
    assert_eq!(live_cells(&game), vec![(210, 105), (212, 105)]);
    // A row may span several words.
    let row = format!("#P -210 0\n{}\n", "*".repeat(448));
    let game = GameOfLife::new(&row).unwrap();
    assert_eq!(live_cells(&game).len(), 448);
    assert!(GameOfLife::new("").unwrap().words().iter().all(|w| *w == 0));
}

#[test]
fn life_seed_rejects_what_it_does_not_know() {
    for bad in [
        "#Life 1.05\n",
        ".*o\n",
        "#P 1\n*\n",
        "#P 1  2\n*\n",
        "#P 1 x\n",
        "#P\n",
        "#P 99999999999 0\n",
        "#P -2147483649 0\n",
        "#P 1 2 3\n",
        "#P 237 0\n**\n",
        "#P -211 0\n*\n",
        "#P 0 105\n*\n",
        "#P 0 -106\n*\n",
        "#P 0 104\n*\n*\n",
        " *\n",
        "*\r\r\n",
    ] {
        assert!(GameOfLife::new(bad).is_none(), "{bad:?}");
    }
    assert!(GameOfLife::new("#P 2147483647 -2147483648\n").is_some());
    assert!(GameOfLife::new("#P 0 104\n*\n").is_some());
}

#[test]
fn console_picture_is_its_lines_of_text() {
    let f = font();
    let mut c = Console::new();
    c.write_string("ab");
    c.write_string("c~\u{1}d");
    let mut rb = RenderlistBuilder::new(640);
    let mut sb = ScanlistBuilder::new(640, 480);
    display_console(&c, &mut rb, &mut sb, &f);

    let bw = Palette1bpp::black_and_white();
    let mut want_rb = RenderlistBuilder::new(640);
    let mut want_sb = ScanlistBuilder::new(640, 480);
    text_stripes(&mut want_rb, &mut want_sb, &f, b"ab", &bw, rgb(0, 0, 0));
    text_stripes(&mut want_rb, &mut want_sb, &f, b"c~d", &bw, rgb(0, 0, 0));
    want_rb.begin_stripe(464);
    want_rb.end_stripe();
    want_sb.begin_stripe(464);
    want_sb.solid(640, rgb(0, 0, 0));
    want_sb.end_stripe();

    let (render, want_render) = (rb.build(), want_rb.build());
    assert_eq!(render.get(), want_render.get());
    assert_eq!(render.data(), want_render.data());
    assert_eq!(render.data(), f.words());
    let (scan, want_scan) = (sb.build(), want_sb.build());
    assert_eq!(scan.get(), want_scan.get());
    assert_eq!(scan.data(), want_scan.data());
    assert_eq!(scan.data().len(), 8);
}
