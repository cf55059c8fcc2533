//! TMDS encoding for DVI: one 10-bit symbol for each 8-bit sample, chosen so
//! that transitions are few and the running excess of ones over zeros stays
//! small.

use vstd::prelude::*;

verus! {

/// Number of one bits among the eight bits of `x`.
pub open spec fn ones8(x: u8) -> int {
    (x & 1) + ((x >> 1) & 1) + ((x >> 2) & 1) + ((x >> 3) & 1) + ((x >> 4) & 1) + ((x >> 5) & 1)
        + ((x >> 6) & 1) + ((x >> 7) & 1)
}

/// Number of one bits among the low ten bits of `x`.
pub open spec fn ones10(x: u32) -> int {
    (x & 1) + ((x >> 1) & 1) + ((x >> 2) & 1) + ((x >> 3) & 1) + ((x >> 4) & 1) + ((x >> 5) & 1)
        + ((x >> 6) & 1) + ((x >> 7) & 1) + ((x >> 8) & 1) + ((x >> 9) & 1)
}

/// `u8::count_ones` of the standard library: the number of ones in the
/// binary representation of its argument.
pub assume_specification[ u8::count_ones ](x: u8) -> (r: u32)
    ensures
        r == ones8(x),
;

/// The serial XOR transform: output bit 0 is input bit 0, and every later
/// output bit is the input bit XORed with the previous output bit.
pub open spec fn xor_chain(byte: u8) -> u8 {
    let q0 = byte & 1;
    let q1 = (q0 ^ (byte >> 1)) & 1;
    let q2 = (q1 ^ (byte >> 2)) & 1;
    let q3 = (q2 ^ (byte >> 3)) & 1;
    let q4 = (q3 ^ (byte >> 4)) & 1;
    let q5 = (q4 ^ (byte >> 5)) & 1;
    let q6 = (q5 ^ (byte >> 6)) & 1;
    let q7 = (q6 ^ (byte >> 7)) & 1;
    q0 | (q1 << 1) | (q2 << 2) | (q3 << 3) | (q4 << 4) | (q5 << 5) | (q6 << 6) | (q7 << 7)
}

/// The serial XNOR transform: as [`xor_chain`], with every XOR complemented.
pub open spec fn xnor_chain(byte: u8) -> u8 {
    let q0 = byte & 1;
    let q1 = (!(q0 ^ (byte >> 1))) & 1;
    let q2 = (!(q1 ^ (byte >> 2))) & 1;
    let q3 = (!(q2 ^ (byte >> 3))) & 1;
    let q4 = (!(q3 ^ (byte >> 4))) & 1;
    let q5 = (!(q4 ^ (byte >> 5))) & 1;
    let q6 = (!(q5 ^ (byte >> 6))) & 1;
    let q7 = (!(q6 ^ (byte >> 7))) & 1;
    q0 | (q1 << 1) | (q2 << 2) | (q3 << 3) | (q4 << 4) | (q5 << 5) | (q6 << 6) | (q7 << 7)
}

/// Whether the XNOR transform gives fewer transitions than XOR: the byte has
/// more than four ones, or exactly four and a zero in its lowest bit.
pub open spec fn uses_xnor(byte: u8) -> bool {
    ones8(byte) > 4 || (ones8(byte) == 4 && byte & 1 == 0)
}

/// The nine-bit transition-minimised word: the chained byte, with bit 8 set
/// when the chain is XOR and clear when it is XNOR.
pub open spec fn transition_minimized(byte: u8) -> u32 {
    if uses_xnor(byte) {
        xnor_chain(byte) as u32
    } else {
        (xor_chain(byte) as u32) | 0x100
    }
}

/// Whether the low byte of the transition-minimised word `qm` is sent
/// inverted, given the running discrepancy before the symbol.
///
/// With nothing to correct (no discrepancy, or a byte that is balanced in
/// itself) the inversion only compensates for bit 8. Otherwise the byte is
/// inverted exactly when it would push the discrepancy further from zero.
pub open spec fn inverts(discrepancy: int, qm: u32) -> bool {
    let low = ones8((qm & 0xff) as u8);
    if discrepancy == 0 || low == 4 {
        qm >> 8 == 0
    } else {
        (discrepancy > 0) == (low > 4)
    }
}

/// The ten bits that encode `byte` when the running discrepancy is
/// `discrepancy`: bit 9 tells whether the low byte was inverted.
pub open spec fn symbol_bits(discrepancy: int, byte: u8) -> u32 {
    let qm = transition_minimized(byte);
    if inverts(discrepancy, qm) {
        qm ^ 0x2ff
    } else {
        qm
    }
}

/// The running discrepancy after `byte` has been sent: a symbol of ten bits
/// is balanced at five ones, and every one beyond that counts up.
pub open spec fn next_discrepancy(discrepancy: int, byte: u8) -> int {
    discrepancy + ones10(symbol_bits(discrepancy, byte)) - 5
}

/// The two symbols of a pair, packed as they are serialised: the first in
/// bits 0..10, the second in bits 10..20.
pub open spec fn pack_bits(first: u32, second: u32) -> u32 {
    first | (second << 10)
}

/// The packed pair that encodes `b0` and then `b1`, starting without
/// discrepancy.
pub open spec fn pair_bits(b0: u8, b1: u8) -> u32 {
    pack_bits(symbol_bits(0, b0), symbol_bits(next_discrepancy(0, b0), b1))
}

/// The discrepancy left over after `b0` and then `b1` have been sent,
/// starting without discrepancy.
pub open spec fn pair_discrepancy(b0: u8, b1: u8) -> int {
    next_discrepancy(next_discrepancy(0, b0), b1)
}

/// The ten bits of the control symbol for a state of the two sync signals.
/// The symbols for horizontal sync on and off are complements of each
/// other.
pub open spec fn control_bits(h_sync: bool, v_sync: bool) -> u32 {
    if v_sync {
        if h_sync {
            0x2ab
        } else {
            0x154
        }
    } else {
        if h_sync {
            0xab
        } else {
            0x354
        }
    }
}

/// A single TMDS symbol: ten bits for one eight-bit sample.
#[derive(Clone, Copy)]
pub struct TmdsSymbol(u32);

/// A pair of TMDS symbols, packed two to a word and laid out for
/// serialisation.
#[derive(Clone, Copy)]
pub struct TmdsPair(u32);

/// The carry-less products that the encoder computes are the serial chains.
proof fn lemma_chain(byte: u8)
    by (bit_vector)
    ensures
        ({
            let m1 = ((byte as u32) << 1) ^ (byte as u32);
            let m2 = (m1 << 2) ^ m1;
            let m3 = (m2 << 4) ^ m2;
            &&& m3 & 0xff == xor_chain(byte) as u32
            &&& (m3 & 0xff) ^ 0xaa == xnor_chain(byte) as u32
            &&& (m3 & 0xff) ^ 0x100 == (xor_chain(byte) as u32) | 0x100
            &&& ((m3 & 0xff) & 1 == 0) == (byte & 1 == 0)
            &&& (xnor_chain(byte) as u32) < 512
            &&& ((xor_chain(byte) as u32) | 0x100) < 512
        }),
{
}

/// How the ones of a symbol follow from those of the nine-bit word.
proof fn lemma_symbol_ones(qm: u32)
    by (bit_vector)
    requires
        qm < 512,
    ensures
        ones10(qm) == ones8((qm & 0xff) as u8) + ((qm >> 8) & 1),
        ones10(qm ^ 0x2ff) == (8 - ones8((qm & 0xff) as u8)) + ((qm >> 8) & 1) + 1,
        0 <= ones8((qm & 0xff) as u8) <= 8,
        (qm >> 8) & 1 <= 1,
        (qm >> 8 == 0) == ((qm >> 8) & 1 == 0),
        qm ^ 0x2ff < 1024,
        qm as u8 == (qm & 0xff) as u8,
{
}

/// The transition-minimised word has nine bits.
proof fn lemma_transition_minimized_bound(byte: u8)
    ensures
        transition_minimized(byte) < 512,
{
    lemma_chain(byte);
}

impl View for TmdsSymbol {
    type V = u32;

    /// The ten bits of the symbol.
    closed spec fn view(&self) -> u32 {
        self.0
    }
}

impl TmdsSymbol {
    #[verifier::type_invariant]
    spec fn well_formed(self) -> bool {
        self.0 < 1024
    }

    /// The control symbol that is sent during blanking for the given state
    /// of the two sync signals.
    pub fn control(h_sync: bool, v_sync: bool) -> (r: Self)
        ensures
            r@ == control_bits(h_sync, v_sync),
    {
        if v_sync {
            if h_sync {
                TmdsSymbol(0x2ab)
            } else {
                TmdsSymbol(0x154)
            }
        } else {
            if h_sync {
                TmdsSymbol(0xab)
            } else {
                TmdsSymbol(0x354)
            }
        }
    }

    /// Encodes one byte, given the running discrepancy, and returns the
    /// discrepancy after the symbol together with the symbol.
    pub fn encode(discrepancy: i32, byte: u8) -> (r: (i32, Self))
        ensures
            r.1@ == symbol_bits(discrepancy as int, byte),
            r.0 == next_discrepancy(discrepancy as int, byte),
    {
        let byte_ones = byte.count_ones();

        // XOR-ing each bit with the previous output bit is a carry-less
        // multiplication by 255, done here as 3 * 5 * 17.
        let byte_mul = ((byte as u32) << 1) ^ byte as u32;
        let byte_mul = (byte_mul << 2) ^ byte_mul;
        let byte_mul = (byte_mul << 4) ^ byte_mul;
        let mut byte_encoded = byte_mul & 0xff;

        let should_xnor = byte_ones > 4 || (byte_ones == 4 && (byte_encoded & 1) == 0);

        if should_xnor {
            // XNOR differs from XOR in every other bit
            byte_encoded ^= 0xaa
        } else {
            // Bit 8 marks XOR
            byte_encoded ^= 0x100
        };
        proof {
            lemma_chain(byte);
            lemma_transition_minimized_bound(byte);
            lemma_symbol_ones(byte_encoded);
        }
        assert(byte_encoded == transition_minimized(byte));

        let encoded_ones = u8::count_ones(#[verifier::truncate] (byte_encoded as u8));

        let should_invert = if discrepancy == 0 || encoded_ones == 4 {
            (byte_encoded >> 8) == 0
        } else {
            (discrepancy > 0) == (encoded_ones > 4)
        };

        let bit_8 = (byte_encoded >> 8) & 1;
        let symbol_ones = if should_invert {
            // Invert the low byte and set bit 9
            byte_encoded ^= 0x2ff;

            (8 - encoded_ones) + bit_8 + 1
        } else {
            encoded_ones + bit_8
        };

        let discrepancy = discrepancy + (symbol_ones as i32 - 5);

        (discrepancy, TmdsSymbol(byte_encoded))
    }

    /// The ten bits of the symbol.
    pub fn raw(self) -> (r: u32)
        ensures
            r == self@,
            r < 1024,
    {
        proof {
            use_type_invariant(&self);
        }
        self.0
    }
}

impl View for TmdsPair {
    type V = u32;

    /// The twenty bits of the pair.
    closed spec fn view(&self) -> u32 {
        self.0
    }
}

impl TmdsPair {
    #[verifier::type_invariant]
    spec fn well_formed(self) -> bool {
        self.0 < 0x10_0000
    }

    /// Packs two symbols, the first to be sent in the low bits.
    pub fn new(sym0: TmdsSymbol, sym1: TmdsSymbol) -> (r: Self)
        ensures
            r@ == pack_bits(sym0@, sym1@),
    {
        let a = sym0.raw();
        let b = sym1.raw();
        proof {
            lemma_pack_unpack(a, b);
        }
        TmdsPair(a | (b << 10))
    }

    /// The pair that sends `symbol` twice.
    pub fn double(symbol: TmdsSymbol) -> (r: Self)
        ensures
            r@ == pack_bits(symbol@, symbol@),
    {
        Self::new(symbol, symbol)
    }

    /// Encodes a pair of bytes that balance each other.
    ///
    /// The bytes must be chosen so that no discrepancy is left after the
    /// second; [`Self::encode_pair_discrepancy`] tells whether they are.
    pub fn encode_pair(b0: u8, b1: u8) -> (r: Self)
        requires
            pair_discrepancy(b0, b1) == 0,
        ensures
            r@ == pair_bits(b0, b1),
    {
        let (pair, _discrepancy) = Self::encode_pair_discrepancy(b0, b1);
        pair
    }

    /// Encodes a pair of bytes, returning the pair and the discrepancy that
    /// it leaves.
    pub fn encode_pair_discrepancy(b0: u8, b1: u8) -> (r: (Self, i32))
        ensures
            r.0@ == pair_bits(b0, b1),
            r.1 == pair_discrepancy(b0, b1),
    {
        let (discrepancy, symbol_0) = TmdsSymbol::encode(0, b0);
        let (discrepancy, symbol_1) = TmdsSymbol::encode(discrepancy, b1);

        (Self::new(symbol_0, symbol_1), discrepancy)
    }

    /// Encodes a byte and its neighbour in the lowest bit as one pair.
    ///
    /// Two values that differ only in the least significant bit balance each
    /// other, so the pair can stand for two copies of `byte` in arbitrary
    /// data at the cost of one bit of precision.
    pub fn encode_balanced_approx(byte: u8) -> (r: Self)
        ensures
            r@ == pair_bits(byte, byte ^ 1),
    {
        proof {
            lemma_low_bit_neighbours_balance(byte);
        }
        Self::encode_pair(byte, byte ^ 1)
    }

    /// The packed bits of the pair.
    pub fn raw(self) -> (r: u32)
        ensures
            r == self@,
            r < 0x10_0000,
    {
        proof {
            use_type_invariant(&self);
        }
        self.0
    }
}

/// A symbol carries its discrepancy with it: the discrepancy after a symbol
/// is the one before, plus the symbol's ones beyond five. From a discrepancy
/// of zero any byte leaves at most four either way, and a discrepancy that
/// is not zero is never pushed further out: it stays, or moves towards zero
/// by at most five.
pub proof fn lemma_discrepancy_step(discrepancy: int, byte: u8)
    ensures
        next_discrepancy(discrepancy, byte) == discrepancy + ones10(symbol_bits(discrepancy, byte))
            - 5,
        symbol_bits(discrepancy, byte) < 1024,
        discrepancy == 0 ==> -4 <= next_discrepancy(discrepancy, byte) <= 4,
        discrepancy > 0 ==> discrepancy - 5 <= next_discrepancy(discrepancy, byte) <= discrepancy,
        discrepancy < 0 ==> discrepancy <= next_discrepancy(discrepancy, byte) <= discrepancy + 5,
{
    let qm = transition_minimized(byte);
    lemma_transition_minimized_bound(byte);
    lemma_symbol_ones(qm);
}

/// A running discrepancy that lies within four of zero stays there,
/// whatever bytes are sent.
pub proof fn lemma_discrepancy_bounded(discrepancy: int, byte: u8)
    requires
        -4 <= discrepancy <= 4,
    ensures
        -4 <= next_discrepancy(discrepancy, byte) <= 4,
{
    lemma_discrepancy_step(discrepancy, byte);
}

/// Encoding from a discrepancy of zero: the symbol has between one and nine
/// ones, and it has four, five or six of them exactly when the chained byte
/// has three, four or five.
pub proof fn lemma_encode_from_zero(byte: u8)
    ensures
        1 <= ones10(symbol_bits(0, byte)) <= 9,
        next_discrepancy(0, byte) == ones10(symbol_bits(0, byte)) - 5,
        -4 <= next_discrepancy(0, byte) <= 4,
        (4 <= ones10(symbol_bits(0, byte)) <= 6) <==> (3 <= ones8(
            (transition_minimized(byte) & 0xff) as u8,
        ) <= 5),
{
    let qm = transition_minimized(byte);
    lemma_transition_minimized_bound(byte);
    lemma_symbol_ones(qm);
}

/// Two bytes that differ only in their lowest bit leave no discrepancy
/// behind when they are sent as a pair.
pub proof fn lemma_low_bit_neighbours_balance(byte: u8)
    by (bit_vector)
    ensures
        pair_discrepancy(byte, byte ^ 1) == 0,
{
}

/// Each symbol of a packed pair can be read back from its ten bits.
pub proof fn lemma_pack_unpack(first: u32, second: u32)
    by (bit_vector)
    requires
        first < 1024,
        second < 1024,
    ensures
        pack_bits(first, second) & 0x3ff == first,
        pack_bits(first, second) >> 10 == second,
        pack_bits(first, second) == first + second * 1024,
{
}

/// Whether the symbol of a byte is balanced in itself: sent without
/// discrepancy before it, it leaves none behind.
pub open spec fn self_balanced(byte: u8) -> bool {
    next_discrepancy(0, byte) == 0
}

/// The byte at distance `k` or more from `byte` that is nearest to it
/// among those that are balanced in themselves, the lower one if there
/// are two; `byte` itself if there is none.
pub open spec fn balanced_from(byte: u8, k: int) -> u8
    decreases 256 - k,
{
    if k < 0 || k > 255 {
        byte
    } else if byte - k >= 0 && self_balanced((byte - k) as u8) {
        (byte - k) as u8
    } else if byte + k <= 255 && self_balanced((byte + k) as u8) {
        (byte + k) as u8
    } else {
        balanced_from(byte, k + 1)
    }
}

/// The byte nearest to `byte` that is balanced in itself, the lower one
/// if there are two.
pub open spec fn balanced_near(byte: u8) -> u8 {
    balanced_from(byte, 0)
}

/// Some bytes are balanced in themselves.
proof fn lemma_balanced_byte()
    by (bit_vector)
    ensures
        self_balanced(0x10),
{
}

/// Bytes that are balanced in themselves balance each other: any two of
/// them make a pair that leaves no discrepancy behind.
pub proof fn lemma_balanced_pair(b0: u8, b1: u8)
    requires
        self_balanced(b0),
        self_balanced(b1),
    ensures
        pair_discrepancy(b0, b1) == 0,
{
}

/// The nearest balanced byte is balanced, and no balanced byte is nearer.
pub proof fn lemma_balanced_near(byte: u8, other: u8)
    ensures
        self_balanced(balanced_near(byte)),
        self_balanced(other) ==> {
            let near = balanced_near(byte);
            let d = if near >= byte {
                near - byte
            } else {
                byte - near
            };
            let e = if other >= byte {
                other - byte
            } else {
                byte - other
            };
            d < e || (d == e && near <= other)
        },
{
    lemma_balanced_byte();
    lemma_balanced_from(byte, 0, 0x10);
    if self_balanced(other) {
        lemma_balanced_from(byte, 0, other);
    }
}

/// The search from distance `k` on finds the nearest of the balanced
/// bytes at that distance or beyond.
proof fn lemma_balanced_from(byte: u8, k: int, other: u8)
    requires
        0 <= k <= 256,
        self_balanced(other),
        other >= byte + k || other <= byte - k,
    ensures
        self_balanced(balanced_from(byte, k)),
        ({
            let near = balanced_from(byte, k);
            let d = if near >= byte {
                near - byte
            } else {
                byte - near
            };
            let e = if other >= byte {
                other - byte
            } else {
                byte - other
            };
            k <= d && (d < e || (d == e && near <= other))
        }),
    decreases 256 - k,
{
    if k <= 255 {
        if byte - k >= 0 && self_balanced((byte - k) as u8) {
        } else if byte + k <= 255 && self_balanced((byte + k) as u8) {
        } else {
            lemma_balanced_from(byte, k + 1, other);
        }
    }
}

impl TmdsSymbol {
    /// Whether the symbol of a byte is balanced in itself.
    pub fn is_balanced(byte: u8) -> (r: bool)
        ensures
            r == self_balanced(byte),
    {
        let (discrepancy, _symbol) = Self::encode(0, byte);
        discrepancy == 0
    }

    /// The byte nearest to `byte` whose symbol is balanced in itself, the
    /// lower one if there are two.
    pub fn balanced_near(byte: u8) -> (r: u8)
        ensures
            r == balanced_near(byte),
            self_balanced(r),
    {
        let mut k: u8 = 0;
        proof {
            lemma_balanced_near(byte, 0x10);
        }
        loop
            invariant
                balanced_from(byte, k as int) == balanced_near(byte),
                self_balanced(balanced_near(byte)),
            decreases 256 - k,
        {
            if byte >= k && Self::is_balanced(byte - k) {
                return byte - k;
            }
            if k <= 255 - byte && Self::is_balanced(byte + k) {
                return byte + k;
            }
            if k == 255 {
                assert(balanced_from(byte, 256) == byte);
                return byte;
            }
            k += 1;
        }
    }
}

impl TmdsPair {
    /// The pair of two bytes, each replaced by the nearest byte that is
    /// balanced in itself, so that the pair is balanced whatever the bytes
    /// are.
    pub fn encode_balanced_near(b0: u8, b1: u8) -> (r: Self)
        ensures
            r@ == pair_bits(balanced_near(b0), balanced_near(b1)),
            pair_discrepancy(balanced_near(b0), balanced_near(b1)) == 0,
    {
        let n0 = TmdsSymbol::balanced_near(b0);
        let n1 = TmdsSymbol::balanced_near(b1);
        proof {
            lemma_balanced_pair(n0, n1);
        }
        Self::encode_pair(n0, n1)
    }
}

} // verus!
