//! A console: a ring of the characters that were written last, and the
//! picture that shows the last lines of it.

use vstd::prelude::*;
use vstd::string::StringSliceAdditionalSpecFns;
use crate::demo::{
    font_is_complete, printable, text_render_stripe, text_scan_stripe, text_stripes, FRAME_HEIGHT,
    FRAME_WIDTH,
};
use crate::render::font::Font;
use crate::render::palette::Palette1bpp;
use crate::render::renderlist::RenderlistBuilder;
use crate::render::{rgb, rgb555};
use crate::render::stripes::{lemma_program_push, total_height, Stripe};
use crate::scanlist::{ScanlistBuilder, SCAN_SOLID};

verus! {

/// Number of characters that the console keeps.
pub const BUFFER_SIZE: usize = 4096;

/// The character that ends a line.
pub const NEWLINE: u8 = 10;

/// Number of characters of a line that are shown at most.
pub const LINE_CHARS: usize = 640;

/// The characters that were written last, in a ring, and the number of
/// characters written so far.
pub struct Console {
    buffer: [u8; BUFFER_SIZE],
    ix: u32,
}

/// A ring after `bytes` have been written to it from place `at` on, each
/// to the place after the one before, round the ring.
pub open spec fn ring_write(ring: Seq<u8>, at: int, bytes: Seq<u8>) -> Seq<u8>
    decreases bytes.len(),
{
    if bytes.len() == 0 {
        ring
    } else {
        ring_write(ring, at, bytes.drop_last()).update(
            (at + bytes.len() - 1) % (BUFFER_SIZE as int),
            bytes.last(),
        )
    }
}

impl Console {
    /// The ring of characters.
    pub closed spec fn ring(&self) -> Seq<u8> {
        self.buffer@
    }

    /// Number of characters written so far, modulo `2^32`.
    pub closed spec fn ix(&self) -> u32 {
        self.ix
    }

    /// A console to which nothing has been written.
    pub fn new() -> (r: Self)
        ensures
            r.ix() == 0,
            r.ring() == Seq::new(BUFFER_SIZE as nat, |i: int| 0u8),
    {
        let r = Console { buffer: [0; BUFFER_SIZE], ix: 0 };
        assert(r.buffer@ =~= Seq::new(BUFFER_SIZE as nat, |i: int| 0u8));
        r
    }

    /// Writes a line: the characters of `s` and the character that ends
    /// a line.
    pub fn write_string(&mut self, s: &str)
        ensures
            final(self).ring() == ring_write(
                old(self).ring(),
                old(self).ix() as int,
                s.spec_bytes().push(NEWLINE),
            ),
            final(self).ix() == (old(self).ix() + s.spec_bytes().len() + 1) % 0x1_0000_0000,
    {
        let bytes = s.as_bytes();
        let n = bytes.len();
        let ix = self.ix;
        let mut i: usize = 0;
        let mut at: usize = ix as usize % BUFFER_SIZE;
        let mut next: u32 = ix;
        assert(bytes@.take(0) =~= Seq::<u8>::empty());
        while i < n
            invariant
                i <= n,
                n == bytes@.len(),
                bytes@ == s.spec_bytes(),
                ix == old(self).ix,
                at == (ix + i) % (BUFFER_SIZE as int),
                next == (ix + i) % 0x1_0000_0000,
                self.ring() == ring_write(old(self).ring(), ix as int, bytes@.take(i as int)),
                self.ix == ix,
            decreases n - i,
        {
            self.buffer[at] = bytes[i];
            proof {
                let longer = bytes@.take(i + 1);
                assert(longer.drop_last() =~= bytes@.take(i as int));
                assert(longer.last() == bytes@[i as int]);
            }
            at = if at + 1 == BUFFER_SIZE { 0 } else { at + 1 };
            next = if next == u32::MAX { 0 } else { next + 1 };
            i += 1;
        }
        self.buffer[at] = NEWLINE;
        proof {
            let all = bytes@.push(NEWLINE);
            assert(all.drop_last() =~= bytes@);
            assert(bytes@.take(n as int) =~= bytes@);
        }
        self.ix = if next == u32::MAX { 0 } else { next + 1 };
    }

    /// The character at place `ix` of the ring, counted round it.
    pub fn get_byte(&self, ix: usize) -> (r: u8)
        ensures
            r == self.ring()[ix as int % (BUFFER_SIZE as int)],
    {
        self.buffer[ix % BUFFER_SIZE]
    }

    /// Number of characters written so far, modulo `2^32`.
    pub fn written(&self) -> (r: u32)
        ensures
            r == self.ix(),
    {
        self.ix
    }
}

/// Number of line ends among the `k` characters that stand before the
/// last character of `text`.
pub open spec fn line_ends(text: Seq<u8>, k: int) -> int
    decreases k,
{
    if k <= 0 {
        0
    } else {
        line_ends(text, k - 1) + if text[text.len() - 1 - k] == NEWLINE {
            1int
        } else {
            0int
        }
    }
}

/// Number of characters at the end of `text` that make up its last
/// `lines` lines: the least number from `k` on before which `lines` lines
/// have ended, and all of the text if there is none.
pub open spec fn shown_len(text: Seq<u8>, lines: int, k: int) -> int
    decreases text.len() - k,
{
    if k >= text.len() {
        text.len() as int
    } else if line_ends(text, k) >= lines {
        k
    } else {
        shown_len(text, lines, k + 1)
    }
}

/// Number of characters before the first line end of `text`.
pub open spec fn first_line_len(text: Seq<u8>) -> int
    decreases text.len(),
{
    if text.len() == 0 || text[0] == NEWLINE {
        0
    } else {
        1 + first_line_len(text.drop_first())
    }
}

/// What is shown of a line: its printable characters, as far as a line
/// of the picture has room for them.
pub open spec fn visible(line: Seq<u8>) -> Seq<u8>
    decreases line.len(),
{
    if line.len() == 0 {
        Seq::empty()
    } else {
        let shown = visible(line.drop_last());
        if 32 <= line.last() < 127 && shown.len() < LINE_CHARS {
            shown.push(line.last())
        } else {
            shown
        }
    }
}

/// What is shown of the lines of `text`, the first line first, when
/// `room` rows of the picture are left and a line takes `row` of them.
pub open spec fn lines_shown(text: Seq<u8>, room: int, row: int) -> Seq<Seq<u8>>
    decreases text.len(),
{
    if text.len() == 0 || room < row {
        Seq::empty()
    } else {
        let n = first_line_len(text);
        let rest = if 0 <= n < text.len() {
            text.skip(n + 1)
        } else {
            Seq::empty()
        };
        seq![visible(text.take(n))] + lines_shown(rest, room - row, row)
    }
}

/// The stripes of a render list that draw `lines` with a font whose rows
/// lie at `source` in the data of the list, and leave the `below` rows
/// under them as they are.
pub open spec fn console_render_stripes(
    font: &Font,
    lines: Seq<Seq<u8>>,
    source: int,
    below: int,
) -> Seq<Stripe> {
    Seq::new(lines.len(), |i: int| text_render_stripe(font, lines[i], source)) + if below > 0 {
        seq![Stripe { height: below as u32, body: Seq::empty() }]
    } else {
        Seq::empty()
    }
}

/// The stripes of a scan list that show `lines` in white on black, with
/// the palette of line `i` at `at + 4 * i` in the data of the list, and
/// `below` rows of black under them.
pub open spec fn console_scan_stripes(
    font: &Font,
    lines: Seq<Seq<u8>>,
    at: int,
    below: int,
) -> Seq<Stripe> {
    Seq::new(lines.len(), |i: int| text_scan_stripe(font, lines[i], at + 4 * i, rgb555(0, 0, 0) as u32))
        + if below > 0 {
        seq![
            Stripe {
                height: below as u32,
                body: seq![SCAN_SOLID, FRAME_WIDTH, rgb555(0, 0, 0) as u32],
            },
        ]
    } else {
        Seq::empty()
    }
}

/// A line without line ends ends where the text or the line ends.
proof fn lemma_first_line(text: Seq<u8>, j: int)
    requires
        0 <= j <= text.len(),
        forall|i: int| 0 <= i < j ==> text[i] != NEWLINE,
        j == text.len() || text[j] == NEWLINE,
    ensures
        first_line_len(text) == j,
    decreases j,
{
    if j > 0 {
        let rest = text.drop_first();
        assert forall|i: int| 0 <= i < j - 1 implies rest[i] != NEWLINE by {
            assert(rest[i] == text[i + 1]);
        }
        lemma_first_line(rest, j - 1);
    }
}

impl Console {
    /// The characters that the console still holds, the oldest first:
    /// all that were written, or the last that the ring has room for.
    pub open spec fn held(&self) -> Seq<u8> {
        let n = if self.ix() < BUFFER_SIZE - 1 {
            self.ix() as int
        } else {
            BUFFER_SIZE - 1
        };
        Seq::new(n as nat, |i: int| self.ring()[(self.ix() - n + i) % (BUFFER_SIZE as int)])
    }

    /// The characters that are shown when `lines` lines fit the picture:
    /// the last `lines` lines of those that the console holds.
    pub open spec fn shown(&self, lines: int) -> Seq<u8> {
        self.held().skip(self.held().len() - shown_len(self.held(), lines, 0))
    }

    /// What the picture shows, line by line, with a font of `row` rows.
    pub open spec fn shown_lines(&self, row: int) -> Seq<Seq<u8>> {
        lines_shown(self.shown(FRAME_HEIGHT as int / row), FRAME_HEIGHT as int, row)
    }
}

/// Adds the picture of the console to both lists: the lines that were
/// written last, as many as fit the picture, one stripe of the height of
/// the font to a line, white on black; and black below them.
///
/// Of a line, the characters are shown that are printable and fit the
/// width of the picture.
pub fn display_console(
    console: &Console,
    rb: &mut RenderlistBuilder,
    sb: &mut ScanlistBuilder,
    font: &Font,
)
    requires
        old(rb).wf(),
        old(rb).open().is_none(),
        old(sb).wf(),
        old(sb).open().is_none(),
        font_is_complete(font),
        0 < font.height() <= FRAME_HEIGHT,
        old(rb).room() >= 0x20_0000,
        old(rb).holds_source(font.bits()) || old(rb).data_room() >= font.bits().len(),
        old(sb).room() >= 0x2000,
        old(sb).data().len() + 0x1000 <= u32::MAX,
    ensures
        final(rb).wf(),
        final(rb).open().is_none(),
        final(rb).width() == old(rb).width(),
        final(sb).wf(),
        final(sb).open().is_none(),
        final(rb).done() == old(rb).done() + console_render_stripes(
            font,
            console.shown_lines(font.height() as int),
            old(rb).stored_at(font.bits()),
            FRAME_HEIGHT - console.shown_lines(font.height() as int).len() * font.height(),
        ),
        final(rb).data() == if console.shown_lines(font.height() as int).len() > 0 {
            old(rb).stored_data(font.bits())
        } else {
            old(rb).data()
        },
        final(sb).done() == old(sb).done() + console_scan_stripes(
            font,
            console.shown_lines(font.height() as int),
            old(sb).data().len() as int,
            FRAME_HEIGHT - console.shown_lines(font.height() as int).len() * font.height(),
        ),
        final(sb).data() == old(sb).data() + Seq::new(
            4 * console.shown_lines(font.height() as int).len(),
            |i: int| Palette1bpp::black_and_white_words()[i % 4],
        ),
        0 <= FRAME_HEIGHT - console.shown_lines(font.height() as int).len() * font.height(),
        total_height(final(rb).done()) == total_height(old(rb).done()) + FRAME_HEIGHT,
        total_height(final(sb).done()) == total_height(old(sb).done()) + FRAME_HEIGHT,
        final(rb).room() >= old(rb).room() - 0x20_0000,
        final(sb).room() >= old(sb).room() - 0x2000,
{
    let font_height = font.rows();
    let n_lines = FRAME_HEIGHT / font_height;
    let end = console.written();
    let avail: u32 = if end < BUFFER_SIZE as u32 - 1 { end } else { BUFFER_SIZE as u32 - 1 };
    let ghost text = console.held();
    // Look back for the start of the first line that is shown.
    let mut k: u32 = 0;
    let mut found: u32 = 0;
    assert(FRAME_HEIGHT / font_height >= 1) by (nonlinear_arith)
        requires
            0 < font_height <= FRAME_HEIGHT,
    ;
    while k < avail
        invariant_except_break
            found < n_lines,
            found == line_ends(text, k - 1),
        invariant
            k <= avail < BUFFER_SIZE,
            avail <= end,
            end == console.ix(),
            text == console.held(),
            text.len() == avail,
            shown_len(text, n_lines as int, 0) == shown_len(text, n_lines as int, k as int),
        ensures
            k == shown_len(text, n_lines as int, 0),
        decreases avail - k,
    {
        let b = console.get_byte((end - k - 1) as usize);
        assert(b == text[text.len() - 1 - k]);
        if b == NEWLINE && k > 0 {
            found += 1;
            if found == n_lines {
                break ;
            }
        }
        k += 1;
    }
    let bw = Palette1bpp::black_and_white();
    let black = rgb(0, 0, 0);
    let mut height = FRAME_HEIGHT;
    let mut line: Vec<u8> = Vec::new();
    let mut lines: u32 = 0;
    let ghost all = lines_shown(text.skip(text.len() - k), FRAME_HEIGHT as int, font_height as int);
    let ghost mut drawn: Seq<Seq<u8>> = Seq::empty();
    let ghost source = rb.stored_at(font.bits());
    let ghost at = sb.data().len() as int;
    proof {
        assert(all =~= drawn + all);
        assert(rb.done() =~= old(rb).done() + Seq::new(
            0,
            |i: int| text_render_stripe(font, drawn[i], source),
        ));
        assert(sb.done() =~= old(sb).done() + Seq::new(
            0,
            |i: int| text_scan_stripe(font, drawn[i], at + 4 * i, black as u32),
        ));
        assert(sb.data() =~= old(sb).data() + Seq::new(0, |i: int| bw@[i % 4]));
    }
    while k > 0 && height >= font_height
        invariant
            k <= avail < BUFFER_SIZE,
            avail <= end,
            end == console.ix(),
            text == console.held(),
            text.len() == avail,
            font_height == font.height(),
            0 < font_height <= FRAME_HEIGHT,
            height <= FRAME_HEIGHT,
            height == FRAME_HEIGHT - lines * font_height,
            lines <= FRAME_HEIGHT - height,
            font_is_complete(font),
            bw@ == Palette1bpp::black_and_white_words(),
            bw@.len() == 4,
            black == rgb555(0, 0, 0),
            source == old(rb).stored_at(font.bits()),
            at == old(sb).data().len(),
            drawn.len() == lines,
            all == drawn + lines_shown(text.skip(text.len() - k), height as int, font_height as int),
            rb.wf(),
            rb.open().is_none(),
            rb.width() == old(rb).width(),
            rb.done() == old(rb).done() + Seq::new(
                drawn.len(),
                |i: int| text_render_stripe(font, drawn[i], source),
            ),
            lines == 0 ==> rb.data() == old(rb).data() && rb.stored_at(font.bits()) == source,
            lines > 0 ==> rb.holds_source(font.bits()) && rb.source() == source && rb.data() == old(
                rb,
            ).stored_data(font.bits()),
            sb.wf(),
            sb.open().is_none(),
            sb.done() == old(sb).done() + Seq::new(
                drawn.len(),
                |i: int| text_scan_stripe(font, drawn[i], at + 4 * i, black as u32),
            ),
            sb.data() == old(sb).data() + Seq::new(4 * drawn.len(), |i: int| bw@[i % 4]),
            total_height(rb.done()) == total_height(old(rb).done()) + (FRAME_HEIGHT - height),
            total_height(sb.done()) == total_height(old(sb).done()) + (FRAME_HEIGHT - height),
            rb.room() >= old(rb).room() - 2563 * lines,
            old(rb).room() >= 0x20_0000,
            rb.holds_source(font.bits()) || rb.data_room() >= font.bits().len(),
            sb.room() >= old(sb).room() - 9 * lines,
            old(sb).room() >= 0x2000,
            old(sb).data().len() + 0x1000 <= u32::MAX,
        decreases k,
    {
        line.clear();
        let ghost k0 = k;
        let ghost rest = text.skip(text.len() - k0);
        let mut ended = false;
        proof {
            assert(rest.take(0) =~= Seq::<u8>::empty());
        }
        while k > 0 && !ended
            invariant
                k <= k0,
                0 < k0,
                k0 <= avail < BUFFER_SIZE,
                avail <= end,
                end == console.ix(),
                text == console.held(),
                text.len() == avail,
                rest == text.skip(text.len() - k0),
                printable(line@),
                line@.len() <= LINE_CHARS,
                !ended ==> line@ == visible(rest.take(k0 - k)),
                !ended ==> forall|i: int| 0 <= i < k0 - k ==> rest[i] != NEWLINE,
                ended ==> k < k0 && rest[k0 - k - 1] == NEWLINE && line@ == visible(
                    rest.take(k0 - k - 1),
                ) && forall|i: int| 0 <= i < k0 - k - 1 ==> rest[i] != NEWLINE,
            decreases k + if ended { 0int } else { 1int },
        {
            let b = console.get_byte((end - k) as usize);
            assert(b == rest[k0 - k]) by {
                assert(rest[k0 - k] == text[text.len() - k]);
            }
            k -= 1;
            if b == NEWLINE {
                ended = true;
            } else {
                proof {
                    let longer = rest.take(k0 - k);
                    assert(longer.drop_last() =~= rest.take(k0 - k - 1));
                    assert(longer.last() == b);
                }
                if 32 <= b && b < 127 && line.len() < LINE_CHARS {
                    let ghost before = line@;
                    line.push(b);
                    assert forall|i: int| 0 <= i < line@.len() implies 32 <= #[trigger] line@[i]
                        < 127 by {
                        if i < before.len() {
                            assert(line@[i] == before[i]);
                        }
                    }
                }
            }
        }
        let ghost r0 = rb.done();
        let ghost s0 = sb.done();
        let ghost d0 = sb.data();
        let ghost drawn0 = drawn;
        proof {
            // The line that was read is the first of those that were left.
            let n = if ended { k0 - k - 1 } else { k0 - k };
            lemma_first_line(rest, n);
            let left = if n < rest.len() {
                rest.skip(n + 1)
            } else {
                Seq::empty()
            };
            assert(left =~= text.skip(text.len() - k));
            assert(lines_shown(rest, height as int, font_height as int) == seq![
                visible(rest.take(n)),
            ] + lines_shown(left, height - font_height, font_height as int));
            drawn = drawn0.push(line@);
            assert(all =~= drawn + lines_shown(
                text.skip(text.len() - k),
                height - font_height,
                font_height as int,
            ));
        }
        text_stripes(rb, sb, font, line.as_slice(), &bw, black);
        proof {
            lemma_program_push(r0, 0, rb.done().last());
            lemma_program_push(s0, 0, sb.done().last());
            assert(rb.done() =~= old(rb).done() + Seq::new(
                drawn.len(),
                |i: int| text_render_stripe(font, drawn[i], source),
            ));
            assert(sb.done() =~= old(sb).done() + Seq::new(
                drawn.len(),
                |i: int| text_scan_stripe(font, drawn[i], at + 4 * i, black as u32),
            ));
            assert(sb.data() =~= old(sb).data() + Seq::new(4 * drawn.len(), |i: int| bw@[i % 4]));
            assert((lines + 1) * font_height == lines * font_height + font_height)
                by (nonlinear_arith);
        }
        height -= font_height;
        lines += 1;
    }
    proof {
        assert(lines_shown(text.skip(text.len() - k), height as int, font_height as int)
            =~= Seq::<Seq<u8>>::empty());
        assert(all =~= drawn);
        assert(all == console.shown_lines(font.height() as int));
    }
    if height > 0 {
        let ghost r0 = rb.done();
        let ghost s0 = sb.done();
        rb.begin_stripe(height);
        rb.end_stripe();
        sb.begin_stripe(height);
        sb.solid(FRAME_WIDTH, black);
        sb.end_stripe();
        proof {
            lemma_program_push(r0, 0, rb.done().last());
            lemma_program_push(s0, 0, sb.done().last());
            assert(Seq::<u32>::empty() + seq![SCAN_SOLID, FRAME_WIDTH, black as u32] =~= seq![
                SCAN_SOLID,
                FRAME_WIDTH,
                black as u32,
            ]);
        }
    }
    proof {
        assert(rb.done() =~= old(rb).done() + console_render_stripes(
            font,
            drawn,
            source,
            height as int,
        ));
        assert(sb.done() =~= old(sb).done() + console_scan_stripes(font, drawn, at, height as int));
    }
}

} // verus!
