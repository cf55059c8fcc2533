//! What the instructions for a line of text draw: the rows of the glyphs
//! of its characters, side by side.

use vstd::prelude::*;
use crate::render::font::Font;
use crate::render::renderlist::{
    fetch, field, glyph_record, lemma_blit_op, lemma_pen_monotonic, lemma_text_records_len,
    placed_high, placed_low, render_from, render_op, render_output, text_records, RenderState,
};

verus! {

/// Bit `j` of a word, as 1 or 0.
pub open spec fn bit_at(w: u32, j: u32) -> u32 {
    (w >> j) & 1
}

/// Pixel `p` of a line of one bit to a pixel.
pub open spec fn line_pixel(line: Seq<u32>, p: int) -> u32 {
    bit_at(line[p / 32], (p % 32) as u32)
}

/// Pixel `c` of row `y` of the glyph of character `ch`, for a font whose
/// rows lie at `at` in `data`.
pub open spec fn glyph_pixel(font: &Font, data: Seq<u32>, at: int, ch: u8, y: int, c: int) -> u32 {
    let offset = font.offsets()[ch - font.first()] as int;
    bit_at(fetch(data, at + offset / 32 + y * font.stride()), (offset % 32 + c) as u32)
}

/// The bits of a field that is placed at the pen are the bits of the
/// word that it was taken from, and the bits beside it are clear.
proof fn lemma_placed_bits(w: u32, offset: u32, width: u32, pen: u32, j: u32)
    by (bit_vector)
    requires
        offset + width <= 32,
        pen < 32,
        j < 32,
    ensures
        bit_at(placed_low(field(w, offset, width), pen), j) == if pen <= j && j - pen < width {
            bit_at(w, (offset + j - pen) as u32)
        } else {
            0u32
        },
        bit_at(placed_high(field(w, offset, width), pen), j) == if pen + width > 32 && j + 32 - pen
            < width {
            bit_at(w, (offset + j + 32 - pen) as u32)
        } else {
            0u32
        },
{
}

/// The bits of two words taken together.
proof fn lemma_or_bits(a: u32, b: u32, j: u32)
    by (bit_vector)
    requires
        j < 32,
    ensures
        bit_at(a | b, j) == bit_at(a, j) | bit_at(b, j),
        bit_at(a, j) <= 1,
        bit_at(0, j) == 0,
{
}

/// The instructions of two sequences one after the other do what the
/// first do and then the second.
pub proof fn lemma_render_concat(
    first: Seq<u32>,
    second: Seq<u32>,
    i: int,
    data: Seq<u32>,
    y: int,
    st: RenderState,
)
    requires
        first.len() % 4 == 0,
        0 <= i <= first.len(),
        i % 4 == 0,
    ensures
        render_from(first + second, i, data, y, st) == render_from(
            second,
            0,
            data,
            y,
            render_from(first, i, data, y, st),
        ),
    decreases first.len() - i,
{
    let both = first + second;
    if i + 4 > first.len() {
        assert(i == first.len());
        lemma_render_shift(first, second, 0, data, y, st);
    } else {
        assert(both[i] == first[i] && both[i + 1] == first[i + 1] && both[i + 2] == first[i + 2]
            && both[i + 3] == first[i + 3]);
        let next = render_op(first[i], first[i + 1], first[i + 2], first[i + 3], data, y, st);
        lemma_render_concat(first, second, i + 4, data, y, next);
    }
}

/// The instructions of a sequence do the same wherever in a longer
/// sequence they stand.
proof fn lemma_render_shift(
    first: Seq<u32>,
    second: Seq<u32>,
    i: int,
    data: Seq<u32>,
    y: int,
    st: RenderState,
)
    requires
        0 <= i <= second.len(),
    ensures
        render_from(first + second, first.len() + i, data, y, st) == render_from(
            second,
            i,
            data,
            y,
            st,
        ),
    decreases second.len() - i,
{
    let both = first + second;
    if i + 4 <= second.len() {
        let at = first.len() + i;
        assert(both[at] == second[i] && both[at + 1] == second[i + 1] && both[at + 2] == second[i
            + 2] && both[at + 3] == second[i + 3]);
        let next = render_op(second[i], second[i + 1], second[i + 2], second[i + 3], data, y, st);
        lemma_render_shift(first, second, i + 4, data, y, next);
    }
}

/// The state of the interpreter after the instructions for the first `m`
/// characters of a text, in row `y`, from the left of `line`.
pub open spec fn text_state(
    font: &Font,
    text: Seq<u8>,
    m: int,
    at: int,
    data: Seq<u32>,
    y: int,
    line: Seq<u32>,
) -> RenderState {
    render_from(text_records(font, text, m, at), 0, data, y, RenderState::begin(line))
}

/// Every character is drawn after the ones before it.
pub proof fn lemma_text_step(
    font: &Font,
    text: Seq<u8>,
    m: int,
    at: int,
    data: Seq<u32>,
    y: int,
    line: Seq<u32>,
)
    requires
        0 <= m < text.len(),
    ensures
        ({
            let record = glyph_record(font, text[m], font.pen(text, m), at, m + 1 == text.len());
            text_state(font, text, m + 1, at, data, y, line) == render_op(
                record[0],
                record[1],
                record[2],
                record[3],
                data,
                y,
                text_state(font, text, m, at, data, y, line),
            )
        }),
{
    let before = text_records(font, text, m, at);
    let record = glyph_record(font, text[m], font.pen(text, m), at, m + 1 == text.len());
    lemma_text_records_len(font, text, m, at);
    let st = text_state(font, text, m, at, data, y, line);
    lemma_render_concat(before, record, 0, data, y, RenderState::begin(line));
    assert(text_records(font, text, m + 1, at) == before + record);
    assert(render_from(record, 4, data, y, render_op(
        record[0],
        record[1],
        record[2],
        record[3],
        data,
        y,
        st,
    )) == render_op(record[0], record[1], record[2], record[3], data, y, st));
}

/// The width of the glyph of character `k` of a text.
pub open spec fn width_of(font: &Font, text: Seq<u8>, k: int) -> int {
    font.widths()[text[k] - font.first()] as int
}

/// The place in the line of pixel `c` of character `k` of a text.
pub open spec fn place(font: &Font, text: Seq<u8>, k: int, c: int) -> int {
    font.pen(text, k) + c
}

/// A pixel of the row that is being assembled: of a word that is
/// complete, a pixel of the line; else a bit of the word that is being
/// assembled.
pub open spec fn drawn_pixel(st: RenderState, p: int) -> u32 {
    if p / 32 < st.pos {
        line_pixel(st.line, p)
    } else {
        bit_at(st.acc, (p % 32) as u32)
    }
}

/// Whether pixel `c` of character `k` of a text has been drawn.
pub open spec fn pixel_drawn(
    font: &Font,
    text: Seq<u8>,
    at: int,
    data: Seq<u32>,
    y: int,
    st: RenderState,
    k: int,
    c: int,
) -> bool {
    drawn_pixel(st, font.pen(text, k) + c) == glyph_pixel(font, data, at, text[k], y, c)
}

/// Whether pixel `c` of character `k` of a text is in a line.
pub open spec fn pixel_shown(
    font: &Font,
    text: Seq<u8>,
    at: int,
    data: Seq<u32>,
    y: int,
    line: Seq<u32>,
    k: int,
    c: int,
) -> bool {
    line_pixel(line, font.pen(text, k) + c) == glyph_pixel(font, data, at, text[k], y, c)
}

/// Whether `st` is a state in which the first `m` characters of a text
/// have been drawn and nothing else: the pen stands behind them, the word
/// that is being assembled is clear from the pen on, and the words of the
/// line from that word on are as they were.
pub open spec fn text_drawn(
    font: &Font,
    text: Seq<u8>,
    m: int,
    at: int,
    data: Seq<u32>,
    y: int,
    line: Seq<u32>,
    st: RenderState,
) -> bool {
    &&& st.pos == font.pen(text, m) / 32
    &&& st.line.len() == line.len()
    &&& forall|j: u32| font.pen(text, m) % 32 <= j < 32 ==> #[trigger] bit_at(st.acc, j) == 0
    &&& forall|k: int, c: int|
        0 <= k < m && 0 <= c < width_of(font, text, k) ==> #[trigger] pixel_drawn(
            font,
            text,
            at,
            data,
            y,
            st,
            k,
            c,
        )
    &&& forall|w: int| st.pos <= w < line.len() ==> #[trigger] st.line[w] == line[w]
}

/// The last word of the line that the instructions for a text write: the
/// word in which its last character ends, or, if that character ends with
/// a word, that word.
pub open spec fn last_word(font: &Font, text: Seq<u8>) -> int {
    let start = font.pen(text, text.len() - 1);
    if start % 32 + width_of(font, text, text.len() - 1) > 32 {
        start / 32 + 1
    } else {
        start / 32
    }
}

/// Whether the characters of a text are in `shown`, a line that was
/// `line` before: every pixel of every glyph, the words behind the text
/// as they were, and the last word of the text clear behind it.
pub open spec fn text_shown(
    font: &Font,
    text: Seq<u8>,
    at: int,
    data: Seq<u32>,
    y: int,
    line: Seq<u32>,
    shown: Seq<u32>,
) -> bool {
    let end = font.pen(text, text.len() as int);
    &&& shown.len() == line.len()
    &&& forall|k: int, c: int|
        0 <= k < text.len() && 0 <= c < width_of(font, text, k) ==> #[trigger] pixel_shown(
            font,
            text,
            at,
            data,
            y,
            shown,
            k,
            c,
        )
    &&& forall|w: int| last_word(font, text) < w < line.len() ==> #[trigger] shown[w] == line[w]
    &&& forall|p: int|
        end <= p < 32 * line.len() && p / 32 <= last_word(font, text) ==> #[trigger] line_pixel(
            shown,
            p,
        ) == 0
}

/// The field of bits of row `y` of the glyph of character `m` of a text.
pub open spec fn glyph_bits(font: &Font, text: Seq<u8>, m: int, at: int, data: Seq<u32>, y: int) -> u32 {
    let offset = font.offsets()[text[m] - font.first()] as int;
    field(
        fetch(data, at + offset / 32 + y * font.stride()),
        (offset % 32) as u32,
        width_of(font, text, m) as u32,
    )
}

/// The word of the pen after character `m` of a text has been added to
/// it.
pub open spec fn merged_word(
    font: &Font,
    text: Seq<u8>,
    m: int,
    at: int,
    data: Seq<u32>,
    y: int,
    acc: u32,
) -> u32 {
    acc | placed_low(glyph_bits(font, text, m, at, data, y), (font.pen(text, m) % 32) as u32)
}

/// The part of character `m` of a text that lies in the word behind that
/// of the pen.
pub open spec fn carried_word(
    font: &Font,
    text: Seq<u8>,
    m: int,
    at: int,
    data: Seq<u32>,
    y: int,
) -> u32 {
    placed_high(glyph_bits(font, text, m, at, data, y), (font.pen(text, m) % 32) as u32)
}

/// Whether character `m` of a text goes beyond the word of the pen.
pub open spec fn straddles(font: &Font, text: Seq<u8>, m: int) -> bool {
    font.pen(text, m) % 32 + width_of(font, text, m) > 32
}

/// The state after the instruction for character `m` of a text.
pub open spec fn glyph_state(
    font: &Font,
    text: Seq<u8>,
    m: int,
    at: int,
    data: Seq<u32>,
    y: int,
    st: RenderState,
) -> RenderState {
    let record = glyph_record(font, text[m], font.pen(text, m), at, m + 1 == text.len());
    render_op(record[0], record[1], record[2], record[3], data, y, st)
}

/// What the instruction for a character does to the state, and where the
/// pixels that have been drawn lie after it: in the line as before, in the
/// word of the pen, or in the word behind it.
#[verifier::spinoff_prover]
pub proof fn lemma_glyph_pixels(
    font: &Font,
    text: Seq<u8>,
    m: int,
    at: int,
    data: Seq<u32>,
    y: int,
    line: Seq<u32>,
    st: RenderState,
)
    requires
        font.wf(),
        font.covers(text),
        0 <= m < text.len(),
        0 <= at <= 0x4000_0000,
        text_drawn(font, text, m, at, data, y, line, st),
    ensures
        ({
            let last = m + 1 == text.len();
            let merged = merged_word(font, text, m, at, data, y, st.acc);
            let high = carried_word(font, text, m, at, data, y);
            let pos = font.pen(text, m) / 32;
            let end = font.pen(text, m + 1);
            let added = RenderState { acc: merged, pos: st.pos, line: st.line };
            &&& glyph_state(font, text, m, at, data, y, st) == if straddles(font, text, m) {
                if last {
                    added.carry(high).store()
                } else {
                    added.carry(high)
                }
            } else if end % 32 == 0 && end > font.pen(text, m) || last {
                added.store()
            } else {
                added
            }
            &&& end == font.pen(text, m) + width_of(font, text, m)
            &&& 0 <= font.pen(text, m) <= end <= font.pen(text, text.len() as int)
            &&& forall|j: u32|
                j < 32 && j >= end - 32 * pos ==> #[trigger] bit_at(merged, j) == 0
            &&& forall|j: u32| j < 32 && j + 32 >= end - 32 * pos ==> #[trigger] bit_at(high, j) == 0
            &&& forall|k: int, c: int|
                0 <= k <= m && 0 <= c < width_of(font, text, k) ==> {
                    let p = #[trigger] place(font, text, k, c);
                    &&& 0 <= p < end
                    &&& p / 32 <= pos + 1
                    &&& p / 32 == pos ==> bit_at(merged, (p % 32) as u32) == glyph_pixel(
                        font,
                        data,
                        at,
                        text[k],
                        y,
                        c,
                    )
                    &&& p / 32 == pos + 1 ==> straddles(font, text, m) && bit_at(
                        high,
                        (p % 32) as u32,
                    ) == glyph_pixel(font, data, at, text[k], y, c)
                    &&& p / 32 < pos ==> line_pixel(st.line, p) == glyph_pixel(
                        font,
                        data,
                        at,
                        text[k],
                        y,
                        c,
                    )
                }
        }),
{
    let last = m + 1 == text.len();
    let ch = text[m];
    assert(font.has_glyph(ch));
    let g = ch - font.first();
    let width = font.widths()[g] as u32;
    let offset = font.offsets()[g] as int;
    let from = (offset % 32) as u32;
    assert((#[trigger] font.offsets()[g]) % 32 + font.widths()[g] <= 32);
    let start = font.pen(text, m);
    let end = font.pen(text, m + 1);
    assert(end == start + width);
    lemma_pen_monotonic(font, text, m + 1, text.len() as int);
    lemma_pen_monotonic(font, text, 0, m);
    let pen = (start % 32) as u32;
    let pos = start / 32;
    let source = (at + offset / 32) as u32;
    lemma_blit_op(source, font.stride(), from, width, pen, last, data, y, st);
    let w = fetch(data, source + y * font.stride());
    let bits = field(w, from, width);
    let low = placed_low(bits, pen);
    let high = placed_high(bits, pen);
    let merged = st.acc | low;
    assert(bits == glyph_bits(font, text, m, at, data, y));
    assert forall|j: u32| j < 32 implies bit_at(merged, j) == (if j < pen {
        bit_at(st.acc, j)
    } else if j - pen < width {
        bit_at(w, (from + j - pen) as u32)
    } else {
        0u32
    }) && bit_at(high, j) == (if pen + width > 32 && j + 32 - pen < width {
        bit_at(w, (from + j + 32 - pen) as u32)
    } else {
        0u32
    }) by {
        lemma_placed_bits(w, from, width, pen, j);
        lemma_or_bits(st.acc, low, j);
        if j >= pen {
            assert(bit_at(st.acc, j) == 0);
        }
        assert(bit_at(st.acc, j) | 0 == bit_at(st.acc, j) && 0 | bit_at(low, j) == bit_at(low, j))
            by (bit_vector);
    }
    assert forall|k: int, c: int| 0 <= k <= m && 0 <= c < width_of(font, text, k) implies {
        let p = #[trigger] place(font, text, k, c);
        &&& 0 <= p < end
        &&& p / 32 <= pos + 1
        &&& p / 32 == pos ==> bit_at(merged, (p % 32) as u32) == glyph_pixel(
            font,
            data,
            at,
            text[k],
            y,
            c,
        )
        &&& p / 32 == pos + 1 ==> straddles(font, text, m) && bit_at(high, (p % 32) as u32)
            == glyph_pixel(font, data, at, text[k], y, c)
        &&& p / 32 < pos ==> line_pixel(st.line, p) == glyph_pixel(font, data, at, text[k], y, c)
    } by {
        let p = font.pen(text, k) + c;
        lemma_pen_monotonic(font, text, 0, k);
        if k < m {
            lemma_pen_monotonic(font, text, k + 1, m);
            assert(pixel_drawn(font, text, at, data, y, st, k, c));
        }
    }
}

/// What drawing a character does: if the characters before it have been
/// drawn, then so has it. With the last character of a text, all of the
/// text is in the line.
#[verifier::spinoff_prover]
pub proof fn lemma_glyph_drawn(
    font: &Font,
    text: Seq<u8>,
    m: int,
    at: int,
    data: Seq<u32>,
    y: int,
    line: Seq<u32>,
    st: RenderState,
)
    requires
        font.wf(),
        font.covers(text),
        0 <= m < text.len(),
        0 <= at <= 0x4000_0000,
        font.pen(text, text.len() as int) <= 32 * line.len(),
        text_drawn(font, text, m, at, data, y, line, st),
    ensures
        m + 1 < text.len() ==> text_drawn(
            font,
            text,
            m + 1,
            at,
            data,
            y,
            line,
            glyph_state(font, text, m, at, data, y, st),
        ),
        m + 1 == text.len() ==> text_shown(
            font,
            text,
            at,
            data,
            y,
            line,
            glyph_state(font, text, m, at, data, y, st).line,
        ),
{
    lemma_glyph_pixels(font, text, m, at, data, y, line, st);
    let last = m + 1 == text.len();
    let after = glyph_state(font, text, m, at, data, y, st);
    let merged = merged_word(font, text, m, at, data, y, st.acc);
    let high = carried_word(font, text, m, at, data, y);
    let pos = font.pen(text, m) / 32;
    let end = font.pen(text, m + 1);
    if last {
        let shown = after.line;
        assert forall|k: int, c: int|
            0 <= k < text.len() && 0 <= c < width_of(font, text, k) implies #[trigger] pixel_shown(
            font,
            text,
            at,
            data,
            y,
            shown,
            k,
            c,
        ) by {
            let p = place(font, text, k, c);
            assert(0 <= p < end && p / 32 <= pos + 1);
        }
        assert(last_word(font, text) == if straddles(font, text, m) {
            pos + 1
        } else {
            pos
        });
        assert forall|p: int|
            end <= p < 32 * line.len() && p / 32 <= last_word(font, text) implies #[trigger] line_pixel(
            shown,
            p,
        ) == 0 by {
            let j = (p % 32) as u32;
            assert(p / 32 >= pos);
            if p / 32 == pos {
                assert(bit_at(merged, j) == 0);
            } else {
                assert(bit_at(high, j) == 0);
            }
        }
    } else {
        assert forall|k: int, c: int|
            0 <= k < m + 1 && 0 <= c < width_of(font, text, k) implies #[trigger] pixel_drawn(
            font,
            text,
            at,
            data,
            y,
            after,
            k,
            c,
        ) by {
            let p = place(font, text, k, c);
            assert(0 <= p < end && p / 32 <= pos + 1);
        }
        assert forall|j: u32| end % 32 <= j < 32 implies #[trigger] bit_at(after.acc, j) == 0 by {
            if straddles(font, text, m) {
                assert(bit_at(high, j) == 0);
            } else if end % 32 == 0 && end > font.pen(text, m) {
                lemma_or_bits(0, 0, j);
            } else {
                assert(bit_at(merged, j) == 0);
            }
        }
    }
}

/// Before the last character of a text, the characters so far have been
/// drawn and nothing else.
pub proof fn lemma_text_drawn(
    font: &Font,
    text: Seq<u8>,
    m: int,
    at: int,
    data: Seq<u32>,
    y: int,
    line: Seq<u32>,
)
    requires
        font.wf(),
        font.covers(text),
        0 <= m < text.len(),
        0 <= at <= 0x4000_0000,
        font.pen(text, text.len() as int) <= 32 * line.len(),
    ensures
        text_drawn(font, text, m, at, data, y, line, text_state(font, text, m, at, data, y, line)),
    decreases m,
{
    if m == 0 {
        let st = text_state(font, text, 0, at, data, y, line);
        assert(st == RenderState::begin(line));
        assert forall|j: u32| 0 <= j < 32 implies #[trigger] bit_at(st.acc, j) == 0 by {
            lemma_or_bits(0, 0, j);
        }
    } else {
        lemma_text_drawn(font, text, m - 1, at, data, y, line);
        lemma_text_step(font, text, m - 1, at, data, y, line);
        lemma_glyph_drawn(
            font,
            text,
            m - 1,
            at,
            data,
            y,
            line,
            text_state(font, text, m - 1, at, data, y, line),
        );
    }
}

/// The instructions for a line of text draw the text: rendering row `y`
/// of a stripe that consists of them leaves every pixel of that row of
/// every glyph in the line, at the place of the glyph; the word in which
/// the text ends is clear behind it, and the words after it are as they
/// were.
pub proof fn lemma_text_renders(
    font: &Font,
    text: Seq<u8>,
    at: int,
    data: Seq<u32>,
    y: int,
    line: Seq<u32>,
)
    requires
        font.wf(),
        font.covers(text),
        text.len() > 0,
        0 <= at <= 0x4000_0000,
        font.pen(text, text.len() as int) <= 32 * line.len(),
    ensures
        text_shown(
            font,
            text,
            at,
            data,
            y,
            line,
            render_output(text_records(font, text, text.len() as int, at), data, y, line),
        ),
{
    let m = text.len() - 1;
    lemma_text_drawn(font, text, m, at, data, y, line);
    lemma_text_step(font, text, m, at, data, y, line);
    lemma_glyph_drawn(
        font,
        text,
        m,
        at,
        data,
        y,
        line,
        text_state(font, text, m, at, data, y, line),
    );
}

/// Pixel `c` of row `y` of the glyph of character `ch` of a font.
pub open spec fn font_pixel(font: &Font, ch: u8, y: int, c: int) -> u32 {
    let offset = font.offsets()[ch - font.first()] as int;
    bit_at(fetch(font.bits(), offset / 32 + y * font.stride()), (offset % 32 + c) as u32)
}

/// Where the rows of a font lie in the data of a list, the pixels that
/// are drawn from the data are those of the font, for the rows that the
/// font has.
pub proof fn lemma_glyph_from_font(font: &Font, data: Seq<u32>, at: int, ch: u8, y: int, c: int)
    requires
        0 <= at,
        at + font.bits().len() <= data.len(),
        data.subrange(at, at + font.bits().len()) == font.bits(),
        0 <= font.offsets()[ch - font.first()] / 32 + y * font.stride() < font.bits().len(),
    ensures
        glyph_pixel(font, data, at, ch, y, c) == font_pixel(font, ch, y, c),
{
    let i = font.offsets()[ch - font.first()] / 32 + y * font.stride();
    assert(data.subrange(at, at + font.bits().len())[i] == data[at + i]);
}

} // verus!
