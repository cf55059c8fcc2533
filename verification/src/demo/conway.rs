//! Conway's Game of Life on a board of one bit per cell.

use vstd::prelude::*;
use vstd::slice::slice_subrange;
use vstd::string::StringSliceAdditionalSpecFns;
use crate::demo::{
    decimal, font_is_complete, frame_label, push_decimal, solid_stripe, text_render_stripe,
    text_scan_stripe, text_stripes, bar_words, printable, lemma_decimal, FRAME_HEIGHT,
    FRAME_WIDTH, LABEL,
};
use crate::render::font::Font;
use crate::render::palette::Palette1bpp;
use crate::render::renderlist::{bitmap_records, RenderlistBuilder};
use crate::render::stripes::{lemma_program_push, total_height, Stripe};
use crate::render::{rgb, xrgb, xrgb555};
use crate::scanlist::{ScanlistBuilder, SCAN_PAL_1BPP, SCAN_SOLID};

verus! {

/// Colour of the text, as `0xRRGGBB`.
pub const TEXT: u32 = 0xffffff;

/// Colour of what lies round the board.
pub const BACKGROUND: u32 = 0x800080;

/// Colour of a cell that is alive.
pub const ALIVE: u32 = 0x00ffff;

/// Colour of a cell that is not.
pub const DEAD: u32 = 0x303030;

/// Number of rows above and below the board.
pub const PADDING_ROWS: u32 = 135;

/// Number of pixels to the left and to the right of the board.
pub const PADDING_PIXELS: u32 = 110;

/// The text before the age of the board: "Conway's Game of life, age: ".
pub const AGE_LABEL: [u8; 28] = [
    67, 111, 110, 119, 97, 121, 39, 115, 32, 71, 97, 109, 101, 32, 111, 102, 32, 108, 105, 102,
    101, 44, 32, 97, 103, 101, 58, 32,
];

/// Width of the part of the board that is shown, in cells.
pub const BOARD_WIDTH: usize = 420;

/// Height of the board in cells.
pub const BOARD_HEIGHT: usize = 210;

/// Number of words in a row of the board. All bits of a word are cells,
/// so the board is a little wider than what is shown of it.
pub const BOARD_WIDTH_WORDS: usize = 14;

/// Number of words of the board.
pub const BOARD_WORDS: usize = 2940;

/// Number of cells in a row of the board.
pub const BOARD_CELLS: usize = 448;

/// A board of the Game of Life with its age in generations.
pub struct GameOfLife {
    age: u32,
    universe: [u32; BOARD_WORDS],
}

/// Bit `i` of a word, as 1 or 0.
pub open spec fn bit(w: u32, i: u32) -> u32 {
    (w >> i) & 1
}

/// Whether the cell in column `x` of row `y` is alive. Beyond the board
/// nothing lives.
pub open spec fn alive(cells: Seq<u32>, x: int, y: int) -> bool {
    &&& 0 <= x < BOARD_CELLS
    &&& 0 <= y < BOARD_HEIGHT
    &&& bit(cells[y * BOARD_WIDTH_WORDS + x / 32], (x % 32) as u32) == 1
}

/// 1 for a cell that is alive, 0 for one that is not.
pub open spec fn one(cells: Seq<u32>, x: int, y: int) -> int {
    if alive(cells, x, y) {
        1
    } else {
        0
    }
}

/// Number of the eight neighbours of a cell that are alive.
pub open spec fn neighbours(cells: Seq<u32>, x: int, y: int) -> int {
    one(cells, x - 1, y - 1) + one(cells, x, y - 1) + one(cells, x + 1, y - 1) + one(
        cells,
        x - 1,
        y,
    ) + one(cells, x + 1, y) + one(cells, x - 1, y + 1) + one(cells, x, y + 1) + one(
        cells,
        x + 1,
        y + 1,
    )
}

/// The board with the cell in column `x` of row `y` made alive, or not
/// alive.
pub open spec fn set_cell(cells: Seq<u32>, x: int, y: int, lives: bool) -> Seq<u32> {
    let at = y * BOARD_WIDTH_WORDS + x / 32;
    let mask = 1u32 << ((x % 32) as u32);
    cells.update(
        at,
        if lives {
            cells[at] | mask
        } else {
            cells[at] & !mask
        },
    )
}

/// The rule of the game: a cell is alive in the next generation if three
/// of its neighbours are alive, or if two are and it is alive itself.
pub open spec fn life_rule(alive: bool, neighbours: int) -> bool {
    neighbours == 3 || (alive && neighbours == 2)
}

/// The word in which every cell has its left neighbour at its own place:
/// the word moved up by a bit, with the top bit of the word to its left.
pub open spec fn from_left(left: u32, w: u32) -> u32 {
    (w << 1) | (left >> 31)
}

/// The word in which every cell has its right neighbour at its own place:
/// the word moved down by a bit, with the lowest bit of the word to its
/// right.
pub open spec fn from_right(w: u32, right: u32) -> u32 {
    (w >> 1) | (right << 31)
}

/// The next generation of 32 cells at once, from the eight words of their
/// neighbours and the word of the cells themselves.
///
/// The neighbours are counted by adding their words bit by bit: the three
/// of the row above, the three of the row below and the two beside give
/// sums of two bits each, which are added up to a count whose two lower
/// bits are `ones` and `twos`, and which is four or more where `more` is
/// set.
pub open spec fn life_word(
    ul: u32,
    uc: u32,
    ur: u32,
    ml: u32,
    mc: u32,
    mr: u32,
    dl: u32,
    dc: u32,
    dr: u32,
) -> u32 {
    let s0 = ul ^ uc ^ ur;
    let c0 = (ul & uc) | (ul & ur) | (uc & ur);
    let s1 = dl ^ dc ^ dr;
    let c1 = (dl & dc) | (dl & dr) | (dc & dr);
    let s2 = ml ^ mr;
    let c2 = ml & mr;
    let ones = s0 ^ s1 ^ s2;
    let k0 = (s0 & s1) | (s0 & s2) | (s1 & s2);
    let t1 = c0 ^ c1 ^ c2;
    let k1 = (c0 & c1) | (c0 & c2) | (c1 & c2);
    let twos = t1 ^ k0;
    let k2 = t1 & k0;
    let more = k1 | k2;
    twos & !more & (ones | mc)
}

/// Every bit of the next generation of a word follows the rule of the
/// game for the bits of its neighbours.
pub proof fn lemma_life_word(
    ul: u32,
    uc: u32,
    ur: u32,
    ml: u32,
    mc: u32,
    mr: u32,
    dl: u32,
    dc: u32,
    dr: u32,
    i: u32,
)
    by (bit_vector)
    requires
        i < 32,
    ensures
        ({
            let n = bit(ul, i) + bit(uc, i) + bit(ur, i) + bit(ml, i) + bit(mr, i) + bit(dl, i)
                + bit(dc, i) + bit(dr, i);
            bit(life_word(ul, uc, ur, ml, mc, mr, dl, dc, dr), i) == if n == 3 || (bit(mc, i) == 1
                && n == 2) {
                1u32
            } else {
                0u32
            }
        }),
{
}

/// The bits of a word that is moved by a bit are the bits of its
/// neighbours.
pub proof fn lemma_moved(left: u32, w: u32, right: u32, i: u32)
    by (bit_vector)
    requires
        i < 32,
    ensures
        bit(from_left(left, w), i) == if i == 0 {
            bit(left, 31)
        } else {
            bit(w, (i - 1) as u32)
        },
        bit(from_right(w, right), i) == if i == 31 {
            bit(right, 0)
        } else {
            bit(w, (i + 1) as u32)
        },
{
}

/// Word `wx` of row `y` of a board; beyond the board, zero.
pub open spec fn word(cells: Seq<u32>, wx: int, y: int) -> u32 {
    if 0 <= wx < BOARD_WIDTH_WORDS && 0 <= y < BOARD_HEIGHT {
        cells[y * BOARD_WIDTH_WORDS + wx]
    } else {
        0
    }
}

/// Word `wx` of row `y` of the next generation of a board.
pub open spec fn next_word(cells: Seq<u32>, wx: int, y: int) -> u32 {
    life_word(
        from_left(word(cells, wx - 1, y - 1), word(cells, wx, y - 1)),
        word(cells, wx, y - 1),
        from_right(word(cells, wx, y - 1), word(cells, wx + 1, y - 1)),
        from_left(word(cells, wx - 1, y), word(cells, wx, y)),
        word(cells, wx, y),
        from_right(word(cells, wx, y), word(cells, wx + 1, y)),
        from_left(word(cells, wx - 1, y + 1), word(cells, wx, y + 1)),
        word(cells, wx, y + 1),
        from_right(word(cells, wx, y + 1), word(cells, wx + 1, y + 1)),
    )
}

/// A bit is 0 or 1, and the bits of zero are 0.
proof fn lemma_bit(w: u32, i: u32)
    by (bit_vector)
    requires
        i < 32,
    ensures
        bit(w, i) == 0 || bit(w, i) == 1,
        bit(0, i) == 0,
{
}

/// Whether a cell is alive is a bit of the word that it lies in.
pub proof fn lemma_cell_bit(cells: Seq<u32>, x: int, y: int)
    requires
        -1 <= x <= BOARD_CELLS,
    ensures
        0 <= x < BOARD_CELLS ==> one(cells, x, y) == bit(word(cells, x / 32, y), (x % 32) as u32),
        x == -1 ==> one(cells, x, y) == bit(word(cells, -1, y), 31),
        x == BOARD_CELLS ==> one(cells, x, y) == bit(word(cells, BOARD_WIDTH_WORDS as int, y), 0),
{
    lemma_bit(0, 31);
    lemma_bit(0, 0);
    if 0 <= x < BOARD_CELLS {
        lemma_bit(word(cells, x / 32, y), (x % 32) as u32);
    }
}

/// The words of the next generation hold the cells that the rule of the
/// game gives.
pub proof fn lemma_next_word(cells: Seq<u32>, x: int, y: int)
    requires
        0 <= x < BOARD_CELLS,
        0 <= y < BOARD_HEIGHT,
    ensures
        bit(next_word(cells, x / 32, y), (x % 32) as u32) == if life_rule(
            alive(cells, x, y),
            neighbours(cells, x, y),
        ) {
            1u32
        } else {
            0u32
        },
{
    let wx = x / 32;
    let i = (x % 32) as u32;
    lemma_life_word(
        from_left(word(cells, wx - 1, y - 1), word(cells, wx, y - 1)),
        word(cells, wx, y - 1),
        from_right(word(cells, wx, y - 1), word(cells, wx + 1, y - 1)),
        from_left(word(cells, wx - 1, y), word(cells, wx, y)),
        word(cells, wx, y),
        from_right(word(cells, wx, y), word(cells, wx + 1, y)),
        from_left(word(cells, wx - 1, y + 1), word(cells, wx, y + 1)),
        word(cells, wx, y + 1),
        from_right(word(cells, wx, y + 1), word(cells, wx + 1, y + 1)),
        i,
    );
    lemma_moved(word(cells, wx - 1, y - 1), word(cells, wx, y - 1), word(cells, wx + 1, y - 1), i);
    lemma_moved(word(cells, wx - 1, y), word(cells, wx, y), word(cells, wx + 1, y), i);
    lemma_moved(word(cells, wx - 1, y + 1), word(cells, wx, y + 1), word(cells, wx + 1, y + 1), i);
    lemma_cell_bit(cells, x - 1, y - 1);
    lemma_cell_bit(cells, x, y - 1);
    lemma_cell_bit(cells, x + 1, y - 1);
    lemma_cell_bit(cells, x - 1, y);
    lemma_cell_bit(cells, x, y);
    lemma_cell_bit(cells, x + 1, y);
    lemma_cell_bit(cells, x - 1, y + 1);
    lemma_cell_bit(cells, x, y + 1);
    lemma_cell_bit(cells, x + 1, y + 1);
    if i == 0 {
        assert((x - 1) / 32 == wx - 1 && (x - 1) % 32 == 31 || x == 0);
    } else {
        assert((x - 1) / 32 == wx && (x - 1) % 32 == i - 1);
    }
    if i == 31 {
        assert((x + 1) / 32 == wx + 1 && (x + 1) % 32 == 0);
    } else {
        assert((x + 1) / 32 == wx && (x + 1) % 32 == i + 1);
    }
}

impl GameOfLife {
    /// The words of the board, row by row.
    pub closed spec fn cells(&self) -> Seq<u32> {
        self.universe@
    }

    /// Number of generations that the board has gone through.
    pub closed spec fn age(&self) -> u32 {
        self.age
    }

    /// A board on which nothing lives.
    pub fn empty() -> (r: Self)
        ensures
            r.age() == 0,
            r.cells().len() == BOARD_WORDS,
            forall|x: int, y: int| !alive(r.cells(), x, y),
    {
        let r = GameOfLife { age: 0, universe: [0; BOARD_WORDS] };
        proof {
            assert forall|x: int, y: int| !alive(r.cells(), x, y) by {
                if 0 <= x < BOARD_CELLS && 0 <= y < BOARD_HEIGHT {
                    lemma_bit(0, (x % 32) as u32);
                    assert(0 <= y * BOARD_WIDTH_WORDS + x / 32 < BOARD_WORDS);
                }
            }
        }
        r
    }

    /// Number of generations that the board has gone through.
    pub fn generation(&self) -> (r: u32)
        ensures
            r == self.age(),
    {
        self.age
    }

    /// The words of the board, row by row.
    pub fn words(&self) -> (r: &[u32; BOARD_WORDS])
        ensures
            r@ == self.cells(),
    {
        &self.universe
    }

    /// Whether the cell in column `x` of row `y` is alive.
    pub fn get(&self, x: usize, y: usize) -> (r: bool)
        ensures
            r == alive(self.cells(), x as int, y as int),
    {
        if x < BOARD_CELLS && y < BOARD_HEIGHT {
            (self.universe[y * BOARD_WIDTH_WORDS + x / 32] >> (x % 32) as u32) & 1 == 1
        } else {
            false
        }
    }

    /// Makes the cell in column `x` of row `y` alive, or not alive.
    pub fn set(&mut self, x: usize, y: usize, lives: bool)
        requires
            x < BOARD_CELLS,
            y < BOARD_HEIGHT,
        ensures
            final(self).age() == old(self).age(),
            final(self).cells() == set_cell(old(self).cells(), x as int, y as int, lives),
            forall|cx: int, cy: int|
                alive(final(self).cells(), cx, cy) == if cx == x && cy == y {
                    lives
                } else {
                    alive(old(self).cells(), cx, cy)
                },
    {
        let at = y * BOARD_WIDTH_WORDS + x / 32;
        let i = (x % 32) as u32;
        let w = self.universe[at];
        let updated = if lives { w | (1u32 << i) } else { w & !(1u32 << i) };
        self.universe[at] = updated;
        proof {
            assert forall|cx: int, cy: int|
                alive(self.cells(), cx, cy) == if cx == x && cy == y {
                    lives
                } else {
                    alive(old(self).cells(), cx, cy)
                } by {
                if 0 <= cx < BOARD_CELLS && 0 <= cy < BOARD_HEIGHT {
                    let other = cy * BOARD_WIDTH_WORDS + cx / 32;
                    let j = (cx % 32) as u32;
                    if other == at {
                        assert(cy == y && cx / 32 == x / 32);
                        assert(bit(w | (1u32 << i), j) == if j == i {
                            1u32
                        } else {
                            bit(w, j)
                        } && bit(w & !(1u32 << i), j) == if j == i {
                            0u32
                        } else {
                            bit(w, j)
                        }) by (bit_vector)
                            requires
                                i < 32,
                                j < 32,
                        ;
                    }
                }
            }
        }
    }

    /// Word `wx` of row `y`; beyond the board, zero.
    fn word_at(&self, wx: i32, y: i32) -> (r: u32)
        requires
            -1 <= wx <= BOARD_WIDTH_WORDS,
            -1 <= y <= BOARD_HEIGHT,
        ensures
            r == word(self.cells(), wx as int, y as int),
    {
        if 0 <= wx && wx < BOARD_WIDTH_WORDS as i32 && 0 <= y && y < BOARD_HEIGHT as i32 {
            self.universe[(y * BOARD_WIDTH_WORDS as i32 + wx) as usize]
        } else {
            0
        }
    }

    /// The three words that give a cell of word `wx` of row `y` its left
    /// neighbour, itself and its right neighbour.
    fn window(&self, wx: i32, y: i32) -> (r: (u32, u32, u32))
        requires
            0 <= wx < BOARD_WIDTH_WORDS,
            -1 <= y <= BOARD_HEIGHT,
        ensures
            r.0 == from_left(
                word(self.cells(), wx - 1, y as int),
                word(self.cells(), wx as int, y as int),
            ),
            r.1 == word(self.cells(), wx as int, y as int),
            r.2 == from_right(
                word(self.cells(), wx as int, y as int),
                word(self.cells(), wx + 1, y as int),
            ),
    {
        let left = self.word_at(wx - 1, y);
        let w = self.word_at(wx, y);
        let right = self.word_at(wx + 1, y);
        ((w << 1) | (left >> 31), w, (w >> 1) | (right << 31))
    }

    /// Row `y` of the next generation.
    fn next_row(&self, y: usize) -> (r: [u32; BOARD_WIDTH_WORDS])
        requires
            y < BOARD_HEIGHT,
        ensures
            forall|wx: int|
                0 <= wx < BOARD_WIDTH_WORDS ==> r@[wx] == next_word(self.cells(), wx, y as int),
    {
        let mut line = [0u32; BOARD_WIDTH_WORDS];
        let mut wx: usize = 0;
        while wx < BOARD_WIDTH_WORDS
            invariant
                wx <= BOARD_WIDTH_WORDS,
                y < BOARD_HEIGHT,
                forall|k: int| 0 <= k < wx ==> line@[k] == next_word(self.cells(), k, y as int),
            decreases BOARD_WIDTH_WORDS - wx,
        {
            let (ul, uc, ur) = self.window(wx as i32, y as i32 - 1);
            let (ml, mc, mr) = self.window(wx as i32, y as i32);
            let (dl, dc, dr) = self.window(wx as i32, y as i32 + 1);
            let s0 = ul ^ uc ^ ur;
            let c0 = (ul & uc) | (ul & ur) | (uc & ur);
            let s1 = dl ^ dc ^ dr;
            let c1 = (dl & dc) | (dl & dr) | (dc & dr);
            let s2 = ml ^ mr;
            let c2 = ml & mr;
            let ones = s0 ^ s1 ^ s2;
            let k0 = (s0 & s1) | (s0 & s2) | (s1 & s2);
            let t1 = c0 ^ c1 ^ c2;
            let k1 = (c0 & c1) | (c0 & c2) | (c1 & c2);
            let twos = t1 ^ k0;
            let k2 = t1 & k0;
            let more = k1 | k2;
            line[wx] = twos & !more & (ones | mc);
            wx += 1;
        }
        line
    }

    /// Replaces row `y` of the board.
    fn write_row(&mut self, y: usize, line: &[u32; BOARD_WIDTH_WORDS])
        requires
            y < BOARD_HEIGHT,
        ensures
            final(self).age() == old(self).age(),
            forall|wx: int, cy: int|
                0 <= wx < BOARD_WIDTH_WORDS && 0 <= cy < BOARD_HEIGHT ==> word(
                    final(self).cells(),
                    wx,
                    cy,
                ) == if cy == y {
                    line@[wx]
                } else {
                    word(old(self).cells(), wx, cy)
                },
    {
        let mut wx: usize = 0;
        while wx < BOARD_WIDTH_WORDS
            invariant
                wx <= BOARD_WIDTH_WORDS,
                y < BOARD_HEIGHT,
                self.age == old(self).age,
                forall|k: int, cy: int|
                    0 <= k < BOARD_WIDTH_WORDS && 0 <= cy < BOARD_HEIGHT ==> word(
                        self.cells(),
                        k,
                        cy,
                    ) == if cy == y && k < wx {
                        line@[k]
                    } else {
                        word(old(self).cells(), k, cy)
                    },
            decreases BOARD_WIDTH_WORDS - wx,
        {
            let ghost before = self.cells();
            self.universe[y * BOARD_WIDTH_WORDS + wx] = line[wx];
            proof {
                assert forall|k: int, cy: int|
                    0 <= k < BOARD_WIDTH_WORDS && 0 <= cy < BOARD_HEIGHT implies word(
                    self.cells(),
                    k,
                    cy,
                ) == if cy == y && k < wx + 1 {
                    line@[k]
                } else {
                    word(old(self).cells(), k, cy)
                } by {
                    assert(word(before, k, cy) == if cy == y && k < wx {
                        line@[k]
                    } else {
                        word(old(self).cells(), k, cy)
                    });
                    if cy * BOARD_WIDTH_WORDS + k != y * BOARD_WIDTH_WORDS + wx {
                        assert(self.cells()[cy * BOARD_WIDTH_WORDS + k] == before[cy
                            * BOARD_WIDTH_WORDS + k]);
                    } else {
                        assert(cy == y && k == wx);
                    }
                }
            }
            wx += 1;
        }
    }

    /// Moves the board on by one generation: every cell of the board
    /// lives or not as the rule of the game says for its eight
    /// neighbours.
    pub fn tick(&mut self)
        requires
            old(self).age() < u32::MAX,
        ensures
            final(self).age() == old(self).age() + 1,
            forall|x: int, y: int|
                0 <= x < BOARD_CELLS && 0 <= y < BOARD_HEIGHT ==> alive(final(self).cells(), x, y)
                    == life_rule(
                    alive(old(self).cells(), x, y),
                    neighbours(old(self).cells(), x, y),
                ),
    {
        self.age += 1;
        let ghost start = self.cells();
        let mut previous_new_line = [0u32; BOARD_WIDTH_WORDS];
        let mut y: usize = 0;
        while y < BOARD_HEIGHT
            invariant
                y <= BOARD_HEIGHT,
                self.age == old(self).age + 1,
                start == old(self).cells(),
                forall|wx: int, cy: int|
                    0 <= wx < BOARD_WIDTH_WORDS && 0 <= cy < BOARD_HEIGHT ==> word(
                        self.cells(),
                        wx,
                        cy,
                    ) == if cy < y - 1 {
                        next_word(start, wx, cy)
                    } else {
                        word(start, wx, cy)
                    },
                y > 0 ==> forall|wx: int|
                    0 <= wx < BOARD_WIDTH_WORDS ==> previous_new_line@[wx] == next_word(
                        start,
                        wx,
                        y - 1,
                    ),
            decreases BOARD_HEIGHT - y,
        {
            let new_line = self.next_row(y);
            proof {
                assert forall|wx: int| 0 <= wx < BOARD_WIDTH_WORDS implies new_line@[wx]
                    == next_word(start, wx, y as int) by {
                    lemma_same_window(self.cells(), start, wx, y as int);
                }
            }
            if y > 0 {
                self.write_row(y - 1, &previous_new_line);
            }
            previous_new_line = new_line;
            y += 1;
        }
        self.write_row(BOARD_HEIGHT - 1, &previous_new_line);
        proof {
            assert forall|x: int, y: int| 0 <= x < BOARD_CELLS && 0 <= y < BOARD_HEIGHT implies alive(
                self.cells(),
                x,
                y,
            ) == life_rule(alive(start, x, y), neighbours(start, x, y)) by {
                lemma_next_word(start, x, y);
                assert(word(self.cells(), x / 32, y) == next_word(start, x / 32, y));
                lemma_cell_bit(self.cells(), x, y);
            }
        }
    }
}

/// The next generation of a word depends only on the three rows round
/// it.
pub proof fn lemma_same_window(a: Seq<u32>, b: Seq<u32>, wx: int, y: int)
    requires
        0 <= wx < BOARD_WIDTH_WORDS,
        0 <= y < BOARD_HEIGHT,
        forall|k: int, cy: int|
            0 <= k < BOARD_WIDTH_WORDS && y - 1 <= cy <= y + 1 && 0 <= cy < BOARD_HEIGHT
                ==> #[trigger] word(a, k, cy) == word(b, k, cy),
    ensures
        next_word(a, wx, y) == next_word(b, wx, y),
{
    assert forall|k: int, cy: int| y - 1 <= cy <= y + 1 && wx - 1 <= k <= wx + 1 implies word(a, k, cy)
        == word(b, k, cy) by {
        if 0 <= k < BOARD_WIDTH_WORDS && 0 <= cy < BOARD_HEIGHT {
            assert(word(a, k, cy) == word(b, k, cy));
        }
    }
}

/// The characters of the label of the age are printable.
proof fn lemma_age_label(i: int)
    requires
        0 <= i < 28,
    ensures
        32 <= AGE_LABEL@[i] < 127,
{
    if i < 8 {
    } else if i < 16 {
    } else if i < 24 {
    } else {
    }
}

/// The label of the age of a board: "Conway's Game of life, age: " and
/// the number of generations.
pub fn age_label(age: u32) -> (r: Vec<u8>)
    ensures
        r@ == AGE_LABEL@ + decimal(age as nat),
        r@.len() <= 38,
        printable(r@),
{
    let mut r: Vec<u8> = Vec::new();
    let mut i: usize = 0;
    while i < 28
        invariant
            i <= 28,
            r@ == AGE_LABEL@.take(i as int),
        decreases 28 - i,
    {
        r.push(AGE_LABEL[i]);
        i += 1;
        assert(r@ =~= AGE_LABEL@.take(i as int));
    }
    assert(AGE_LABEL@.take(28) =~= AGE_LABEL@);
    push_decimal(&mut r, age);
    proof {
        lemma_decimal(age as nat);
        assert(printable(AGE_LABEL@)) by {
            assert forall|i: int| 0 <= i < 28 implies 32 <= #[trigger] AGE_LABEL@[i] < 127 by {
                lemma_age_label(i);
            }
        }
    }
    r
}

impl GameOfLife {
    /// The stripes of the render list of the picture of a board, for a
    /// font whose rows lie at `font_at` in the data of the list and a
    /// board that lies at `board_at`: nothing above the board, the rows
    /// of the board, nothing below it, and two lines of text.
    pub open spec fn render_stripes(
        &self,
        font: &Font,
        count: u32,
        board_at: int,
        font_at: int,
    ) -> Seq<Stripe> {
        seq![
            Stripe { height: PADDING_ROWS, body: Seq::empty() },
            Stripe {
                height: BOARD_HEIGHT as u32,
                body: bitmap_records(
                    board_at,
                    BOARD_WIDTH_WORDS as int,
                    BOARD_WIDTH_WORDS as u32,
                ),
            },
            Stripe { height: (PADDING_ROWS - 2 * font.height()) as u32, body: Seq::empty() },
            text_render_stripe(font, AGE_LABEL@ + decimal(self.age() as nat), font_at),
            text_render_stripe(font, LABEL@ + decimal(count as nat), font_at),
        ]
    }

    /// The stripes of the scan list of the picture of a board, when the
    /// data of the list has `at` words before them: the background above
    /// the board; the board in the colours of its cells, with the
    /// background to its left and right; the background below it; the
    /// age of the board; and the label of the frame, white on black.
    pub open spec fn scan_stripes(&self, font: &Font, count: u32, at: int) -> Seq<Stripe> {
        let bg = xrgb555(BACKGROUND) as u32;
        seq![
            Stripe { height: PADDING_ROWS, body: bar_words(seq![(FRAME_WIDTH, bg)]) },
            Stripe {
                height: BOARD_HEIGHT as u32,
                body: seq![
                    SCAN_SOLID,
                    PADDING_PIXELS,
                    bg,
                    SCAN_PAL_1BPP,
                    BOARD_WIDTH as u32,
                    at as u32,
                    SCAN_SOLID,
                    PADDING_PIXELS,
                    bg,
                ],
            },
            Stripe {
                height: (PADDING_ROWS - 2 * font.height()) as u32,
                body: bar_words(seq![(FRAME_WIDTH, bg)]),
            },
            text_scan_stripe(font, AGE_LABEL@ + decimal(self.age() as nat), at + 4, bg),
            text_scan_stripe(font, LABEL@ + decimal(count as nat), at + 8, 0),
        ]
    }

    /// Adds the picture of the board to both lists, with the age of the
    /// board and the label of frame `count` in the rows at the bottom.
    pub fn render(
        &self,
        rb: &mut RenderlistBuilder,
        sb: &mut ScanlistBuilder,
        font: &Font,
        count: u32,
    )
        requires
            old(rb).wf(),
            old(rb).open().is_none(),
            old(sb).wf(),
            old(sb).open().is_none(),
            font_is_complete(font),
            0 < font.height(),
            2 * font.height() <= PADDING_ROWS,
            old(rb).room() >= 400,
            old(rb).data_room() >= BOARD_WORDS + 2 * font.bits().len(),
            old(sb).room() >= 100,
            old(sb).data().len() + 12 <= u32::MAX,
        ensures
            final(rb).wf(),
            final(rb).open().is_none(),
            final(rb).done() == old(rb).done() + self.render_stripes(
                font,
                count,
                old(rb).stored_at(self.cells()),
                final(rb).source(),
            ),
            final(rb).holds_source(font.bits()),
            final(rb).width() == old(rb).width(),
            final(rb).room() >= old(rb).room() - 400,
            final(rb).data_room() >= old(rb).data_room() - BOARD_WORDS - 2 * font.bits().len(),
            old(rb).data().len() <= final(rb).data().len(),
            final(rb).data().subrange(
                old(rb).stored_at(self.cells()),
                old(rb).stored_at(self.cells()) + BOARD_WORDS,
            ) == self.cells(),
            final(sb).wf(),
            final(sb).open().is_none(),
            final(sb).done() == old(sb).done() + self.scan_stripes(
                font,
                count,
                old(sb).data().len() as int,
            ),
            final(sb).data() == old(sb).data() + Palette1bpp::entries(
                xrgb555(DEAD) as u32,
                xrgb555(ALIVE) as u32,
            ) + Palette1bpp::entries(xrgb555(BACKGROUND) as u32, xrgb555(TEXT) as u32)
                + Palette1bpp::black_and_white_words(),
            final(sb).room() >= old(sb).room() - 100,
            total_height(final(rb).done()) == total_height(old(rb).done()) + FRAME_HEIGHT,
            total_height(final(sb).done()) == total_height(old(sb).done()) + FRAME_HEIGHT,
    {
        let background = xrgb(BACKGROUND);
        let font_height = font.rows();
        let ghost r0 = rb.done();
        let ghost s0 = sb.done();
        let ghost at = sb.data().len() as int;
        let ghost board_at = rb.stored_at(self.cells());

        rb.begin_stripe(PADDING_ROWS);
        rb.end_stripe();
        let whole = [(FRAME_WIDTH, background)];
        assert(whole@ =~= seq![(FRAME_WIDTH, background)]);
        solid_stripe(sb, PADDING_ROWS, whole.as_slice());

        rb.begin_stripe(BOARD_HEIGHT as u32);
        rb.blit_1bpp(self.universe.as_slice(), BOARD_WIDTH_WORDS as u32, BOARD_WIDTH_WORDS as u32);
        proof {
            assert(Seq::<u32>::empty() + bitmap_records(
                board_at,
                BOARD_WIDTH_WORDS as int,
                BOARD_WIDTH_WORDS as u32,
            ) =~= bitmap_records(board_at, BOARD_WIDTH_WORDS as int, BOARD_WIDTH_WORDS as u32));
        }
        rb.end_stripe();
        let ghost with_board = rb.data();
        sb.begin_stripe(BOARD_HEIGHT as u32);
        sb.solid(PADDING_PIXELS, background);
        let cells = Palette1bpp::new_rgb(DEAD, ALIVE);
        sb.pal_1bpp(BOARD_WIDTH as u32, &cells);
        sb.solid(PADDING_PIXELS, background);
        proof {
            assert(Seq::<u32>::empty() + seq![SCAN_SOLID, PADDING_PIXELS, background] + seq![
                SCAN_PAL_1BPP,
                BOARD_WIDTH as u32,
                at as u32,
            ] + seq![SCAN_SOLID, PADDING_PIXELS, background] =~= seq![
                SCAN_SOLID,
                PADDING_PIXELS,
                background,
                SCAN_PAL_1BPP,
                BOARD_WIDTH as u32,
                at as u32,
                SCAN_SOLID,
                PADDING_PIXELS,
                background,
            ]);
            assert(cells@ =~= Palette1bpp::entries(xrgb555(DEAD) as u32, xrgb555(ALIVE) as u32));
        }
        sb.end_stripe();

        rb.begin_stripe(PADDING_ROWS - font_height * 2);
        rb.end_stripe();
        solid_stripe(sb, PADDING_ROWS - font_height * 2, whole.as_slice());

        let age = age_label(self.age);
        let text_palette = Palette1bpp::new_rgb(BACKGROUND, TEXT);
        assert(text_palette@ =~= Palette1bpp::entries(
            xrgb555(BACKGROUND) as u32,
            xrgb555(TEXT) as u32,
        ));
        text_stripes(rb, sb, font, age.as_slice(), &text_palette, background);
        let label = frame_label(count);
        let bw = Palette1bpp::black_and_white();
        assert(bw@ =~= Palette1bpp::black_and_white_words());
        text_stripes(rb, sb, font, label.as_slice(), &bw, rgb(0, 0, 0));
        proof {
            let rs = self.render_stripes(font, count, board_at, rb.source());
            assert(rb.done() =~= r0 + rs);
            let ss = self.scan_stripes(font, count, at);
            assert(sb.done() =~= s0 + ss);
            let r1 = r0.push(rs[0]);
            let r2 = r1.push(rs[1]);
            let r3 = r2.push(rs[2]);
            let r4 = r3.push(rs[3]);
            lemma_program_push(r0, 0, rs[0]);
            lemma_program_push(r1, 0, rs[1]);
            lemma_program_push(r2, 0, rs[2]);
            lemma_program_push(r3, 0, rs[3]);
            lemma_program_push(r4, 0, rs[4]);
            assert(r4.push(rs[4]) =~= r0 + rs);
            let s1 = s0.push(ss[0]);
            let s2 = s1.push(ss[1]);
            let s3 = s2.push(ss[2]);
            let s4 = s3.push(ss[3]);
            lemma_program_push(s0, 0, ss[0]);
            lemma_program_push(s1, 0, ss[1]);
            lemma_program_push(s2, 0, ss[2]);
            lemma_program_push(s3, 0, ss[3]);
            lemma_program_push(s4, 0, ss[4]);
            assert(s4.push(ss[4]) =~= s0 + ss);
            assert(rb.data().subrange(board_at, board_at + BOARD_WORDS) =~= with_board.subrange(
                board_at,
                board_at + BOARD_WORDS,
            ));
        }
    }
}

/// The column in which a pattern starts that has no position of its own.
pub const CENTER_X: usize = 210;

/// The row in which a pattern starts that has no position of its own.
pub const CENTER_Y: usize = 105;

/// The place of the end of the line that starts at `from`: the place of
/// the next newline, or the end of the text.
pub open spec fn line_end(text: Seq<u8>, from: int) -> int
    decreases text.len() - from,
{
    if from < 0 || from >= text.len() {
        text.len() as int
    } else if text[from] == 10 {
        from
    } else {
        line_end(text, from + 1)
    }
}

/// The line that starts at `from`, without the carriage return before its
/// newline, if it has one.
pub open spec fn line_at(text: Seq<u8>, from: int) -> Seq<u8> {
    let end = line_end(text, from);
    if from < end < text.len() && text[end - 1] == 13 {
        text.subrange(from, end - 1)
    } else {
        text.subrange(from, end)
    }
}

/// Whether a character is a blank: a space, a tab, a carriage return, a
/// vertical tab or a form feed.
pub open spec fn is_blank(c: u8) -> bool {
    c == 32 || c == 9 || c == 13 || c == 11 || c == 12
}

/// The value of a sequence of digits.
pub open spec fn digits_value(s: Seq<u8>) -> int
    decreases s.len(),
{
    if s.len() == 0 {
        0
    } else {
        10 * digits_value(s.drop_last()) + (s.last() - 48)
    }
}

/// Whether all of `s` are digits, and at least one.
pub open spec fn is_digits(s: Seq<u8>) -> bool {
    s.len() > 0 && forall|i: int| 0 <= i < s.len() ==> 48 <= #[trigger] s[i] <= 57
}

/// The number that `s` is the decimal notation of: digits, with a sign
/// before them or none, for a number of 32 bits.
pub open spec fn number(s: Seq<u8>) -> Option<int> {
    let signed = s.len() > 0 && (s[0] == 45 || s[0] == 43);
    let digits = if signed {
        s.drop_first()
    } else {
        s
    };
    let value = if s.len() > 0 && s[0] == 45 {
        -digits_value(digits)
    } else {
        digits_value(digits)
    };
    if is_digits(digits) && i32::MIN <= value <= i32::MAX {
        Some(value)
    } else {
        None
    }
}

/// Number of blanks at the start of `s`.
pub open spec fn blanks_before(s: Seq<u8>) -> int
    decreases s.len(),
{
    if s.len() > 0 && is_blank(s[0]) {
        1 + blanks_before(s.drop_first())
    } else {
        0
    }
}

/// Number of blanks at the end of `s`.
pub open spec fn blanks_after(s: Seq<u8>) -> int
    decreases s.len(),
{
    if s.len() > 0 && is_blank(s.last()) {
        1 + blanks_after(s.drop_last())
    } else {
        0
    }
}

/// `s` without the blanks at its start and at its end.
pub open spec fn trimmed(s: Seq<u8>) -> Seq<u8> {
    if blanks_before(s) >= s.len() {
        Seq::empty()
    } else {
        s.subrange(blanks_before(s), s.len() - blanks_after(s))
    }
}

/// The place of the first space in `s`, or its length if it has none.
pub open spec fn first_space(s: Seq<u8>) -> int
    decreases s.len(),
{
    if s.len() == 0 || s[0] == 32 {
        0
    } else {
        1 + first_space(s.drop_first())
    }
}

/// The position that a line of the form `#P x y` gives: two numbers with
/// one space between them, relative to the middle of the board.
pub open spec fn position(line: Seq<u8>) -> Option<(int, int)> {
    let rest = trimmed(line.skip(2));
    let space = first_space(rest);
    if space < rest.len() {
        match (number(rest.take(space)), number(rest.skip(space + 1))) {
            (Some(x), Some(y)) => Some((CENTER_X + x, CENTER_Y + y)),
            _ => None,
        }
    } else {
        None
    }
}

/// Whether a line gives a position: it starts with `#P`.
pub open spec fn is_position(line: Seq<u8>) -> bool {
    line.len() >= 2 && line[0] == 35 && line[1] == 80
}

/// Whether a line is a row of a pattern: dots for cells that are not
/// alive and stars for cells that are.
pub open spec fn is_pattern(line: Seq<u8>) -> bool {
    forall|i: int| 0 <= i < line.len() ==> (#[trigger] line[i]) == 46 || line[i] == 42
}

/// The board with the first `n` cells of a row of a pattern put in row
/// `y` from column `x` on.
pub open spec fn with_row(cells: Seq<u32>, x: int, y: int, line: Seq<u8>, n: int) -> Seq<u32>
    decreases n,
{
    if n <= 0 {
        cells
    } else {
        set_cell(with_row(cells, x, y, line, n - 1), x + n - 1, y, line[n - 1] == 42)
    }
}

/// The board that the lines of `text` from place `from` on describe, when
/// the next row of a pattern goes to row `y` from column `x` on of the
/// board `cells`.
///
/// An empty line is passed over. A line that gives a position sets the
/// place of the next row. A row of a pattern is put on the board, if it
/// lies on it, and the next row goes below it. Any other line makes the
/// text one that describes no board.
pub open spec fn seed_from(text: Seq<u8>, from: int, x: int, y: int, cells: Seq<u32>) -> Option<
    Seq<u32>,
>
    decreases text.len() + 1 - from,
{
    if from < 0 || from >= text.len() {
        Some(cells)
    } else {
        let line = line_at(text, from);
        let next = if from <= line_end(text, from) <= text.len() {
            line_end(text, from) + 1
        } else {
            from + 1
        };
        if line.len() == 0 {
            seed_from(text, next, x, y, cells)
        } else if is_position(line) {
            match position(line) {
                Some((px, py)) => seed_from(text, next, px, py, cells),
                None => None,
            }
        } else if is_pattern(line) && 0 <= x && x + line.len() <= BOARD_CELLS && 0 <= y
            < BOARD_HEIGHT {
            seed_from(text, next, x, y + 1, with_row(cells, x, y, line, line.len() as int))
        } else {
            None
        }
    }
}

/// The end of a line lies at or behind its start.
pub proof fn lemma_line_end(text: Seq<u8>, from: int)
    requires
        0 <= from <= text.len(),
    ensures
        from <= line_end(text, from) <= text.len(),
        line_end(text, from) < text.len() ==> text[line_end(text, from)] == 10,
        forall|i: int| from <= i < line_end(text, from) ==> text[i] != 10,
    decreases text.len() - from,
{
    if from < text.len() && text[from] != 10 {
        lemma_line_end(text, from + 1);
    }
}

/// The digits of a number so far are worth no more than all of them.
proof fn lemma_digits_grow(s: Seq<u8>, i: int)
    requires
        is_digits(s),
        0 <= i <= s.len(),
    ensures
        0 <= digits_value(s.take(i)) <= digits_value(s),
    decreases s.len() - i,
{
    if i < s.len() {
        lemma_digits_grow(s, i + 1);
        assert(s.take(i + 1).drop_last() =~= s.take(i));
        lemma_digits_nonnegative(s.take(i));
    } else {
        assert(s.take(i) =~= s);
        lemma_digits_nonnegative(s);
    }
}

/// The value of digits is not negative.
proof fn lemma_digits_nonnegative(s: Seq<u8>)
    requires
        forall|i: int| 0 <= i < s.len() ==> 48 <= #[trigger] s[i] <= 57,
    ensures
        0 <= digits_value(s),
    decreases s.len(),
{
    if s.len() > 0 {
        lemma_digits_nonnegative(s.drop_last());
    }
}

/// Whether a character is a blank.
fn blank(c: u8) -> (r: bool)
    ensures
        r == is_blank(c),
{
    c == 32 || c == 9 || c == 13 || c == 11 || c == 12
}

/// The place of the end of the line that starts at `from`.
fn find_line_end(text: &[u8], from: usize) -> (r: usize)
    requires
        from <= text@.len(),
    ensures
        r == line_end(text@, from as int),
        from <= r <= text@.len(),
{
    let mut i = from;
    while i < text.len() && text[i] != 10
        invariant
            from <= i <= text@.len(),
            line_end(text@, from as int) == line_end(text@, i as int),
        decreases text@.len() - i,
    {
        i += 1;
    }
    i
}

/// The number that `s` is the decimal notation of.
#[verifier::loop_isolation(false)]
fn parse_number(s: &[u8]) -> (r: Option<i32>)
    ensures
        r.is_some() == number(s@).is_some(),
        r.is_some() ==> r.unwrap() == number(s@).unwrap(),
{
    let n = s.len();
    let negative = n > 0 && s[0] == 45;
    let start: usize = if n > 0 && (s[0] == 45 || s[0] == 43) { 1 } else { 0 };
    let ghost digits = s@.skip(start as int);
    proof {
        if start == 1 {
            assert(s@.drop_first() =~= digits);
        } else {
            assert(s@ =~= digits);
        }
    }
    if start == n {
        assert(digits.len() == 0);
        return None;
    }
    let mut value: i64 = 0;
    let mut i: usize = start;
    assert(digits.take(0) =~= Seq::<u8>::empty());
    while i < n
        invariant
            start <= i <= n,
            start < n,
            digits == s@.skip(start as int),
            forall|k: int| 0 <= k < i - start ==> 48 <= #[trigger] digits[k] <= 57,
            value == digits_value(digits.take(i - start)),
            0 <= value <= 0x8000_0000,
        decreases n - i,
    {
        let c = s[i];
        if c < 48 || c > 57 {
            assert(digits[i - start] == c);
            assert(!is_digits(digits));
            return None;
        }
        proof {
            let longer = digits.take(i - start + 1);
            assert(longer.drop_last() =~= digits.take(i - start));
            assert(longer.last() == c);
        }
        value = 10 * value + (c - 48) as i64;
        i += 1;
        if value > 0x8000_0000 {
            proof {
                if is_digits(digits) {
                    lemma_digits_grow(digits, i - start);
                }
            }
            return None;
        }
    }
    proof {
        assert(digits.take(n - start) =~= digits);
        assert(is_digits(digits));
    }
    let signed = if negative { -value } else { value };
    if signed < -0x8000_0000 || signed > 0x7fff_ffff {
        None
    } else {
        Some(signed as i32)
    }
}

/// Number of blanks at the start of `s`.
fn count_blanks_before(s: &[u8]) -> (r: usize)
    ensures
        r == blanks_before(s@),
        r <= s@.len(),
{
    let mut i: usize = 0;
    assert(s@.skip(0) =~= s@);
    while i < s.len() && blank(s[i])
        invariant
            i <= s@.len(),
            blanks_before(s@) == i + blanks_before(s@.skip(i as int)),
        decreases s@.len() - i,
    {
        proof {
            assert(s@.skip(i as int).drop_first() =~= s@.skip(i + 1));
            assert(s@.skip(i as int)[0] == s@[i as int]);
        }
        i += 1;
    }
    proof {
        if i < s.len() {
            assert(s@.skip(i as int)[0] == s@[i as int]);
        }
    }
    i
}

/// Number of blanks at the end of `s`.
fn count_blanks_after(s: &[u8]) -> (r: usize)
    ensures
        r == blanks_after(s@),
        r <= s@.len(),
{
    let n = s.len();
    let mut j: usize = n;
    assert(s@.take(n as int) =~= s@);
    while j > 0 && blank(s[j - 1])
        invariant
            j <= n,
            n == s@.len(),
            blanks_after(s@) == (n - j) + blanks_after(s@.take(j as int)),
        decreases j,
    {
        proof {
            assert(s@.take(j as int).drop_last() =~= s@.take(j - 1));
            assert(s@.take(j as int).last() == s@[j - 1]);
        }
        j -= 1;
    }
    proof {
        if j > 0 {
            assert(s@.take(j as int).last() == s@[j - 1]);
        }
    }
    n - j
}

/// The place of the first space in `s`, or its length.
fn find_space(s: &[u8]) -> (r: usize)
    ensures
        r == first_space(s@),
        r <= s@.len(),
{
    let mut i: usize = 0;
    assert(s@.skip(0) =~= s@);
    while i < s.len() && s[i] != 32
        invariant
            i <= s@.len(),
            first_space(s@) == i + first_space(s@.skip(i as int)),
        decreases s@.len() - i,
    {
        proof {
            assert(s@.skip(i as int).drop_first() =~= s@.skip(i + 1));
            assert(s@.skip(i as int)[0] == s@[i as int]);
        }
        i += 1;
    }
    proof {
        if i < s.len() {
            assert(s@.skip(i as int)[0] == s@[i as int]);
        }
    }
    i
}

/// The position that a line of the form `#P x y` gives.
fn parse_position(line: &[u8]) -> (r: Option<(i64, i64)>)
    requires
        line@.len() >= 2,
    ensures
        r.is_some() == position(line@).is_some(),
        r.is_some() ==> r.unwrap().0 == position(line@).unwrap().0 && r.unwrap().1 == position(
            line@,
        ).unwrap().1,
{
    let tail = slice_subrange(line, 2, line.len());
    assert(tail@ =~= line@.skip(2));
    let before = count_blanks_before(tail);
    if before >= tail.len() {
        assert(first_space(Seq::<u8>::empty()) == 0);
        return None;
    }
    let after = count_blanks_after(tail);
    proof {
        lemma_blanks_apart(tail@);
    }
    let rest = slice_subrange(tail, before, tail.len() - after);
    assert(rest@ =~= trimmed(tail@));
    let space = find_space(rest);
    if space >= rest.len() {
        return None;
    }
    let first = slice_subrange(rest, 0, space);
    let second = slice_subrange(rest, space + 1, rest.len());
    assert(first@ =~= rest@.take(space as int));
    assert(second@ =~= rest@.skip(space + 1));
    match parse_number(first) {
        Some(x) => match parse_number(second) {
            Some(y) => Some((CENTER_X as i64 + x as i64, CENTER_Y as i64 + y as i64)),
            None => None,
        },
        None => None,
    }
}

/// The blanks at the start and at the end of a sequence that has other
/// characters do not meet.
proof fn lemma_blanks_apart(s: Seq<u8>)
    requires
        blanks_before(s) < s.len(),
    ensures
        blanks_before(s) + blanks_after(s) < s.len(),
        0 <= blanks_after(s),
        0 <= blanks_before(s),
    decreases s.len(),
{
    lemma_blanks_counts(s);
    if s.len() > 0 && is_blank(s.last()) {
        let shorter = s.drop_last();
        lemma_blanks_counts(shorter);
        lemma_blanks_prefix(s);
        if blanks_before(shorter) < shorter.len() {
            lemma_blanks_apart(shorter);
        }
    }
}

/// Blanks are counted from zero up to the length.
proof fn lemma_blanks_counts(s: Seq<u8>)
    ensures
        0 <= blanks_before(s) <= s.len(),
        0 <= blanks_after(s) <= s.len(),
        blanks_before(s) < s.len() ==> !is_blank(s[blanks_before(s)]),
        forall|i: int| 0 <= i < blanks_before(s) ==> is_blank(#[trigger] s[i]),
    decreases s.len(),
{
    if s.len() > 0 {
        lemma_blanks_counts(s.drop_first());
        lemma_blanks_counts(s.drop_last());
        if is_blank(s[0]) {
            let rest = s.drop_first();
            assert forall|i: int| 0 <= i < blanks_before(s) implies is_blank(#[trigger] s[i]) by {
                if i > 0 {
                    assert(s[i] == rest[i - 1]);
                }
            }
            if blanks_before(s) < s.len() {
                assert(s[blanks_before(s)] == rest[blanks_before(rest)]);
            }
        }
    }
}

/// Dropping the last character leaves the blanks at the start as they
/// are, unless all that is left are blanks.
proof fn lemma_blanks_prefix(s: Seq<u8>)
    requires
        s.len() > 0,
        blanks_before(s) < s.len(),
    ensures
        blanks_before(s.drop_last()) == if blanks_before(s) < s.len() - 1 {
            blanks_before(s)
        } else {
            s.len() - 1
        },
    decreases s.len(),
{
    let shorter = s.drop_last();
    if s.len() == 1 {
        assert(shorter.len() == 0);
        assert(blanks_before(shorter) == 0);
        lemma_blanks_counts(s.drop_first());
        assert(!is_blank(s[0]));
    } else if is_blank(s[0]) {
        let rest = s.drop_first();
        assert(shorter[0] == s[0]);
        assert(shorter.drop_first() =~= rest.drop_last());
        assert(blanks_before(s) == 1 + blanks_before(rest));
        lemma_blanks_prefix(rest);
        assert(blanks_before(shorter) == 1 + blanks_before(shorter.drop_first()));
    } else {
        assert(shorter[0] == s[0]);
        assert(blanks_before(s) == 0);
        assert(blanks_before(shorter) == 0);
    }
}

impl GameOfLife {
    /// The board that a text describes, at age zero, or `None` if the text
    /// describes none.
    ///
    /// The text consists of rows of patterns, dots for cells that are not
    /// alive and stars for cells that are, and of lines of the form
    /// `#P x y`, which say where on the board the rows after them go,
    /// relative to its middle. The rows of a pattern go one below the
    /// other. A pattern that is put where another one lies replaces it.
    #[verifier::loop_isolation(false)]
    pub fn new(universe_seed: &str) -> (r: Option<Self>)
        ensures
            r.is_some() == seed_from(
                universe_seed.spec_bytes(),
                0,
                CENTER_X as int,
                CENTER_Y as int,
                Seq::new(BOARD_WORDS as nat, |i: int| 0u32),
            ).is_some(),
            r.is_some() ==> r.unwrap().age() == 0 && Some(r.unwrap().cells()) == seed_from(
                universe_seed.spec_bytes(),
                0,
                CENTER_X as int,
                CENTER_Y as int,
                Seq::new(BOARD_WORDS as nat, |i: int| 0u32),
            ),
    {
        let text = universe_seed.as_bytes();
        let mut game = GameOfLife { age: 0, universe: [0; BOARD_WORDS] };
        assert(game.universe@ =~= Seq::new(BOARD_WORDS as nat, |i: int| 0u32));
        let ghost target = seed_from(text@, 0, CENTER_X as int, CENTER_Y as int, game.cells());
        let mut x: i64 = CENTER_X as i64;
        let mut y: i64 = CENTER_Y as i64;
        let mut from: usize = 0;
        while from < text.len()
            invariant
                from <= text@.len() + 1,
                text@ == universe_seed.spec_bytes(),
                game.age == 0,
                -0x1_0000_0000 <= x <= 0x1_0000_0000,
                -0x1_0000_0000 <= y <= 0x1_0000_0000,
                seed_from(text@, from as int, x as int, y as int, game.cells()) == target,
            decreases text@.len() + 1 - from,
        {
            let end = find_line_end(text, from);
            let stop = if from < end && end < text.len() && text[end - 1] == 13 {
                end - 1
            } else {
                end
            };
            let line = slice_subrange(text, from, stop);
            assert(line@ =~= line_at(text@, from as int));
            let ghost before = game.cells();
            let ghost here = seed_from(text@, from as int, x as int, y as int, before);
            let ghost next = end + 1;
            assert(here == target);
            if line.len() == 0 {
            } else if line.len() >= 2 && line[0] == 35 && line[1] == 80 {
                match parse_position(line) {
                    Some((px, py)) => {
                        x = px;
                        y = py;
                    },
                    None => {
                        assert(is_position(line@));
                        assert(here.is_none());
                        return None;
                    },
                }
            } else {
                let mut k: usize = 0;
                while k < line.len()
                    invariant
                        k <= line@.len(),
                        forall|i: int| 0 <= i < k ==> (#[trigger] line@[i]) == 46 || line@[i] == 42,
                    decreases line@.len() - k,
                {
                    if line[k] != 46 && line[k] != 42 {
                        assert(!is_pattern(line@));
                        assert(!is_position(line@));
                        assert(here.is_none());
                        return None;
                    }
                    k += 1;
                }
                assert(is_pattern(line@));
                if line.len() > BOARD_CELLS || x < 0 || x + line.len() as i64 > BOARD_CELLS as i64
                    || y < 0 || y >= BOARD_HEIGHT as i64 {
                    assert(!is_position(line@));
                    assert(here.is_none());
                    return None;
                }
                let mut k: usize = 0;
                while k < line.len()
                    invariant
                        k <= line@.len(),
                        0 <= x,
                        x + line@.len() <= BOARD_CELLS,
                        0 <= y < BOARD_HEIGHT,
                        game.age == 0,
                        game.cells() == with_row(before, x as int, y as int, line@, k as int),
                    decreases line@.len() - k,
                {
                    game.set(x as usize + k, y as usize, line[k] == 42);
                    k += 1;
                }
                assert(!is_position(line@));
                assert(here == seed_from(text@, next, x as int, y + 1, game.cells()));
                y += 1;
            }
            assert(here == seed_from(text@, next, x as int, y as int, game.cells()));
            from = if end < text.len() { end + 1 } else { end };
            assert(seed_from(text@, next, x as int, y as int, game.cells()) == seed_from(
                text@,
                from as int,
                x as int,
                y as int,
                game.cells(),
            ));
        }
        Some(game)
    }
}

} // verus!
