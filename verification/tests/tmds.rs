use pico_dvi::dvi::tmds::{TmdsPair, TmdsSymbol};

fn ones(x: u32) -> u32 {
    x.count_ones()
}

/// Bit-serial encoder written from the DVI description, used as an oracle.
fn serial_encode(cnt: i32, byte: u8) -> (i32, u32) {
    let d: Vec<u32> = (0..8).map(|i| ((byte >> i) & 1) as u32).collect();
    let n1: u32 = d.iter().sum();
    let xnor = n1 > 4 || (n1 == 4 && d[0] == 0);
    let mut q = [0u32; 9];
    q[0] = d[0];
    for i in 1..8 {
        q[i] = if xnor { 1 ^ (q[i - 1] ^ d[i]) } else { q[i - 1] ^ d[i] };
    }
    q[8] = if xnor { 0 } else { 1 };
    let low: u32 = q[..8].iter().sum();
    let invert = if cnt == 0 || low == 4 { q[8] == 0 } else { (cnt > 0) == (low > 4) };
    let mut sym = 0u32;
    for i in 0..8 {
        let bit = if invert { 1 ^ q[i] } else { q[i] };
        sym |= bit << i;
    }
    sym |= q[8] << 8;
    if invert {
        sym |= 1 << 9;
    }
    (cnt + ones(sym) as i32 - 5, sym)
}

#[test]
fn encode() {
    // Known symbols of the encoding, from a discrepancy of zero.
    let (d, s) = TmdsSymbol::encode(0, 0x00);
    assert_eq!(s.raw(), 0x100);
    assert_eq!(d, -4);
    let (d, s) = TmdsSymbol::encode(0, 0xff);
    assert_eq!(s.raw(), 0x200);
    assert_eq!(d, -4);
    let (d, s) = TmdsSymbol::encode(0, 0x01);
    assert_eq!(s.raw(), 0x1ff);
    assert_eq!(d, 4);
    let (d, s) = TmdsSymbol::encode(0, 0x10);
    assert_eq!(s.raw(), 0x1f0);
    assert_eq!(d, 0);
}

#[test]
fn encode_matches_serial_definition() {
    for cnt in -4..=4 {
        for byte in 0..=255u8 {
            let (d, s) = TmdsSymbol::encode(cnt, byte);
            let (ed, es) = serial_encode(cnt, byte);
            assert_eq!(s.raw(), es, "symbol for {byte} at {cnt}");
            assert_eq!(d, ed, "discrepancy for {byte} at {cnt}");
        }
    }
}

#[test]
fn encode_from_zero_ones_and_discrepancy() {
    let mut balanced = 0;
    for byte in 0..=255u8 {
        let (d, s) = TmdsSymbol::encode(0, byte);
        let n = ones(s.raw());
        assert!((1..=9).contains(&n));
        assert_eq!(d, n as i32 - 5);
        assert!((-4..=4).contains(&d));
        if (4..=6).contains(&n) {
            balanced += 1;
        }
    }
    assert_eq!(balanced, 148);
}

#[test]
fn encode_keeps_discrepancy_bounded() {
    for cnt in -4..=4 {
        for byte in 0..=255u8 {
            let (d, _) = TmdsSymbol::encode(cnt, byte);
            assert!((-4..=4).contains(&d));
        }
    }
}

#[test]
fn encode_far_from_zero_moves_back() {
    let (d, _) = TmdsSymbol::encode(i32::MAX, 0xff);
    assert!(d <= i32::MAX && d >= i32::MAX - 5);
    let (d, _) = TmdsSymbol::encode(i32::MIN, 0x00);
    assert_eq!(d, i32::MIN + 5);
}

#[test]
fn control_symbols() {
    assert_eq!(TmdsSymbol::control(false, false).raw(), 0x354);
    assert_eq!(TmdsSymbol::control(true, false).raw(), 0xab);
    assert_eq!(TmdsSymbol::control(false, true).raw(), 0x154);
    assert_eq!(TmdsSymbol::control(true, true).raw(), 0x2ab);
}

#[test]
fn pair_packs_first_symbol_low() {
    let a = TmdsSymbol::control(true, false);
    let b = TmdsSymbol::control(false, true);
    let p = TmdsPair::new(a, b);
    assert_eq!(p.raw(), 0xab | (0x154 << 10));
    assert_eq!(p.raw() & 0x3ff, a.raw());
    assert_eq!(p.raw() >> 10, b.raw());
    assert_eq!(TmdsPair::double(a).raw(), 0xab | (0xab << 10));
}

#[test]
fn encode_pair_discrepancy_chains_the_two_symbols() {
    for (b0, b1) in [(0u8, 0u8), (0, 1), (0x10, 0x10), (0xff, 0x00), (0x55, 0xaa), (7, 200)] {
        let (pair, d) = TmdsPair::encode_pair_discrepancy(b0, b1);
        let (d0, s0) = TmdsSymbol::encode(0, b0);
        let (d1, s1) = TmdsSymbol::encode(d0, b1);
        assert_eq!(pair.raw(), s0.raw() | (s1.raw() << 10));
        assert_eq!(d, d1);
    }
    let (pair, d) = TmdsPair::encode_pair_discrepancy(0x00, 0x00);
    assert_eq!(pair.raw(), 0x100 | (0x3ff << 10));
    assert_eq!(d, 1);
}

#[test]
fn encode_pair_of_balanced_bytes() {
    let pair = TmdsPair::encode_pair(0x10, 0x10);
    assert_eq!(pair.raw(), 0x1f0 | (0x1f0 << 10));
}

#[test]
fn balanced_approx_is_the_pair_with_the_low_bit_neighbour() {
    for byte in 0..=255u8 {
        let approx = TmdsPair::encode_balanced_approx(byte);
        let (pair, d) = TmdsPair::encode_pair_discrepancy(byte, byte ^ 1);
        assert_eq!(d, 0);
        assert_eq!(approx.raw(), pair.raw());
        assert_eq!(approx.raw(), TmdsPair::encode_pair(byte, byte ^ 1).raw());
    }
}

#[test]
fn bytes_that_are_balanced_in_themselves() {
    let balanced: Vec<u8> = (0..=255u8).filter(|b| TmdsSymbol::is_balanced(*b)).collect();
    assert_eq!(balanced.len(), 52);
    for b in &balanced {
        let (d, s) = TmdsSymbol::encode(0, *b);
        assert_eq!(d, 0);
        assert_eq!(ones(s.raw()), 5);
        assert_eq!(TmdsSymbol::balanced_near(*b), *b);
    }
    assert!(TmdsSymbol::is_balanced(0x10));
    assert!(!TmdsSymbol::is_balanced(0x00));
    assert!(!TmdsSymbol::is_balanced(0xff));
}

#[test]
fn nearest_balanced_byte() {
    let balanced: Vec<u8> = (0..=255u8).filter(|b| TmdsSymbol::is_balanced(*b)).collect();
    for byte in 0..=255u8 {
        let near = TmdsSymbol::balanced_near(byte);
        let want = balanced
            .iter()
            .copied()
            .min_by_key(|b| ((*b as i32 - byte as i32).abs(), *b))
            .unwrap();
        assert_eq!(near, want, "nearest to {byte}");
    }
    for (b0, b1) in [(0u8, 255u8), (255, 0), (3, 200), (128, 127)] {
        let pair = TmdsPair::encode_balanced_near(b0, b1);
        let n0 = TmdsSymbol::balanced_near(b0);
        let n1 = TmdsSymbol::balanced_near(b1);
        let (want, d) = TmdsPair::encode_pair_discrepancy(n0, n1);
        assert_eq!(d, 0);
        assert_eq!(pair.raw(), want.raw());
        assert_eq!(ones(pair.raw()), 10);
    }
}
