//! Assignment of the serialiser's output pins to the DVI signal pairs.

use vstd::prelude::*;

verus! {

/// The signal that a pair of adjacent pins carries.
#[derive(Clone, Copy, PartialEq, Eq, Structural)]
pub enum DviPair {
    D0,
    D1,
    D2,
    Clk,
}

/// Polarity of the lower of the two pins in a pair.
#[derive(Clone, Copy, PartialEq, Eq, Structural)]
pub enum DviPolarity {
    Pos,
    Neg,
}

/// Which signal each of the four pin pairs carries, and which pin of a
/// pair is the positive one.
#[derive(Clone, Copy)]
pub struct DviPinout {
    pins: [DviPair; 4],
    polarity: DviPolarity,
}

/// The bit of a pin configuration word that inverts the output.
pub const PIN_INVERT: u32 = 0x1_0000;

/// The bit of a pin configuration word that selects the clock generator.
pub const PIN_CLOCK: u32 = 0x2_0000;

/// The lane number of a data pair.
pub open spec fn lane_of(pair: DviPair) -> int {
    match pair {
        DviPair::D0 => 0,
        DviPair::D1 => 1,
        DviPair::D2 => 2,
        DviPair::Clk => 3,
    }
}

/// The configuration word of a pin that carries `pair`, before inversion.
///
/// A clock pin only has the clock bit set. A data pin of lane `n` shifts
/// out bit `10 n` of the output word in the first half of a clock cycle
/// (bits 0 to 4 of the word), and bit `10 n + 1` in the second half (bits 8
/// to 12).
pub open spec fn pair_select(pair: DviPair) -> int {
    match pair {
        DviPair::Clk => PIN_CLOCK as int,
        _ => 10 * lane_of(pair) + 256 * (10 * lane_of(pair) + 1),
    }
}

impl DviPinout {
    /// The signal carried by pair `i`.
    pub closed spec fn pair(&self, i: int) -> DviPair {
        self.pins@[i]
    }

    /// The polarity of the lower pin of every pair.
    pub closed spec fn polarity(&self) -> DviPolarity {
        self.polarity
    }

    /// The configuration word of pin `pin`: the selection for the pair that
    /// the pin belongs to, inverted on the pin of the pair that carries the
    /// negative signal.
    pub open spec fn pin_word(&self, pin: int) -> int {
        let inverted = (pin % 2 == 0) != (self.polarity() == DviPolarity::Pos);
        pair_select(self.pair(pin / 2)) + if inverted {
            PIN_INVERT as int
        } else {
            0
        }
    }

    /// A pinout with the given pairs, from the lowest pins up.
    pub fn new(pins: [DviPair; 4], polarity: DviPolarity) -> (r: Self)
        ensures
            forall|i: int| 0 <= i < 4 ==> r.pair(i) == pins@[i],
            r.polarity() == polarity,
    {
        Self { pins, polarity }
    }

    /// The configuration word of one of the eight pins.
    pub fn cfg_bits(&self, pin: usize) -> (r: u32)
        requires
            pin < 8,
        ensures
            r == self.pin_word(pin as int),
    {
        let pair = self.pins[pin / 2];
        let mut bits: u32 = match pair {
            DviPair::Clk => PIN_CLOCK,
            DviPair::D0 => Self::data_select(0),
            DviPair::D1 => Self::data_select(1),
            DviPair::D2 => Self::data_select(2),
        };
        let negative: usize = match self.polarity {
            DviPolarity::Pos => 0,
            DviPolarity::Neg => 1,
        };
        if pin % 2 != negative {
            bits += PIN_INVERT;
        }
        bits
    }

    /// The two bit selections of a data pin of lane `lane`.
    fn data_select(lane: u32) -> (r: u32)
        requires
            lane < 3,
        ensures
            r == 10 * lane + 256 * (10 * lane + 1),
            r < 0x1_0000,
    {
        let perm = lane * 10;
        perm + 256 * (perm + 1)
    }
}

/// How a lane is wired to a pair of pins: the lower of the two pins,
/// and whether it carries the negative signal, so that the outputs have to
/// be inverted.
#[derive(Clone, Copy, PartialEq, Eq, Structural)]
pub struct DifferentialPins {
    pub base: u8,
    pub invert: bool,
}

/// The wiring of a lane whose signals go to the pins with the given
/// numbers, or `None` if the pins do not lie side by side.
pub fn differential_pins(positive_id: u8, negative_id: u8) -> (r: Option<DifferentialPins>)
    ensures
        r == if positive_id + 1 == negative_id {
            Some(DifferentialPins { base: positive_id, invert: false })
        } else if negative_id + 1 == positive_id {
            Some(DifferentialPins { base: negative_id, invert: true })
        } else {
            None
        },
{
    if positive_id < negative_id {
        if negative_id - positive_id == 1 {
            Some(DifferentialPins { base: positive_id, invert: false })
        } else {
            None
        }
    } else if positive_id - negative_id == 1 {
        Some(DifferentialPins { base: negative_id, invert: true })
    } else {
        None
    }
}

} // verus!
