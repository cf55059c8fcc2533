//! The shape that render lists and scan lists share: a program of stripes.
//!
//! A stripe is a run of picture rows that are produced by the same
//! instructions. In memory it is a header of two words, the number of rows
//! and the index of the word after the stripe, followed by the words of its
//! instructions and a word that stops the interpreter. The index is filled
//! in when the stripe is complete, and lets a reader step over a stripe
//! without looking at its instructions.

use vstd::prelude::*;

verus! {

/// The word that ends the instructions of a stripe. No instruction starts
/// with it.
pub const STOP: u32 = 0;

/// A stripe: its number of rows and the words of its instructions.
pub struct Stripe {
    pub height: u32,
    pub body: Seq<u32>,
}

impl Stripe {
    /// Number of words that the stripe takes in a program.
    pub open spec fn len(self) -> int {
        self.body.len() as int + 3
    }

    /// The words of the stripe when it starts at index `base` of a
    /// program.
    pub open spec fn words(self, base: int) -> Seq<u32> {
        seq![self.height, (base + self.len()) as u32] + self.body + seq![STOP]
    }

    /// The words of the stripe while it is still being built.
    pub open spec fn open_words(self) -> Seq<u32> {
        seq![self.height, 0u32] + self.body
    }
}

/// The words of a program of stripes that starts at index `base`.
pub open spec fn program_words(stripes: Seq<Stripe>, base: int) -> Seq<u32>
    decreases stripes.len(),
{
    if stripes.len() == 0 {
        Seq::empty()
    } else {
        stripes[0].words(base) + program_words(stripes.drop_first(), base + stripes[0].len())
    }
}

/// The index at which stripe `k` of a program starts; for `k` the number
/// of stripes, the length of the program.
pub open spec fn start_of(stripes: Seq<Stripe>, k: int) -> int
    decreases k,
{
    if k <= 0 {
        0
    } else {
        start_of(stripes, k - 1) + stripes[k - 1].len()
    }
}

/// Number of rows that lie before stripe `k`; for `k` the number of
/// stripes, the number of rows of the program.
pub open spec fn rows_before(stripes: Seq<Stripe>, k: int) -> int
    decreases k,
{
    if k <= 0 {
        0
    } else {
        rows_before(stripes, k - 1) + stripes[k - 1].height
    }
}

/// Number of rows that a program describes.
pub open spec fn total_height(stripes: Seq<Stripe>) -> int {
    rows_before(stripes, stripes.len() as int)
}

/// The stripes of a program can be found one after the other: the words
/// from `start_of(k)` on are those of the stripes from `k` on.
pub proof fn lemma_program_suffix(stripes: Seq<Stripe>, k: int)
    requires
        0 <= k <= stripes.len(),
    ensures
        0 <= start_of(stripes, k) <= program_words(stripes, 0).len(),
        3 * k <= start_of(stripes, k),
        program_words(stripes, 0).subrange(
            start_of(stripes, k),
            program_words(stripes, 0).len() as int,
        ) == program_words(stripes.skip(k), start_of(stripes, k)),
        start_of(stripes, stripes.len() as int) == program_words(stripes, 0).len(),
    decreases stripes.len() - k,
{
    lemma_program_split(stripes, 0, k);
    let head = program_words(stripes.take(k), 0);
    let tail = program_words(stripes.skip(k), start_of(stripes, k));
    assert(stripes.take(stripes.len() as int) =~= stripes);
    lemma_program_split(stripes, 0, stripes.len() as int);
    assert(stripes.skip(stripes.len() as int) =~= Seq::<Stripe>::empty());
    assert(program_words(stripes, 0) =~= program_words(stripes, 0) + Seq::<u32>::empty());
    assert((head + tail).subrange(head.len() as int, (head + tail).len() as int) =~= tail);
    lemma_start_of_bounds(stripes, k);
}

/// Every stripe takes at least three words.
pub proof fn lemma_start_of_bounds(stripes: Seq<Stripe>, k: int)
    requires
        0 <= k <= stripes.len(),
    ensures
        3 * k <= start_of(stripes, k),
        forall|j: int| 0 <= j <= k ==> start_of(stripes, j) <= start_of(stripes, k),
    decreases k,
{
    if k > 0 {
        lemma_start_of_bounds(stripes, k - 1);
    }
}

/// A program is the words of its first `k` stripes followed by those of
/// the rest, and the first `k` stripes take `start_of(k)` words.
pub proof fn lemma_program_split(stripes: Seq<Stripe>, base: int, k: int)
    requires
        0 <= k <= stripes.len(),
    ensures
        program_words(stripes, base) == program_words(stripes.take(k), base) + program_words(
            stripes.skip(k),
            base + start_of(stripes, k),
        ),
        program_words(stripes.take(k), base).len() == start_of(stripes, k),
    decreases k,
{
    if k == 0 {
        assert(stripes.take(0) =~= Seq::<Stripe>::empty());
        assert(stripes.skip(0) =~= stripes);
        assert(program_words(stripes, base) =~= Seq::<u32>::empty() + program_words(stripes, base));
    } else {
        lemma_program_split(stripes, base, k - 1);
        let front = stripes.take(k - 1);
        let mid = stripes.skip(k - 1);
        let at = base + start_of(stripes, k - 1);
        assert(mid[0] == stripes[k - 1]);
        assert(mid.drop_first() =~= stripes.skip(k));
        assert(stripes.take(k) =~= front.push(stripes[k - 1]));
        lemma_program_push(front, base, stripes[k - 1]);
        lemma_start_of_prefix(stripes, k - 1, k - 1);
        assert(program_words(stripes, base) =~= program_words(stripes.take(k), base)
            + program_words(stripes.skip(k), base + start_of(stripes, k)));
    }
}

/// The start of a stripe depends only on the stripes before it.
pub proof fn lemma_start_of_prefix(stripes: Seq<Stripe>, n: int, k: int)
    requires
        0 <= k <= n <= stripes.len(),
    ensures
        start_of(stripes.take(n), k) == start_of(stripes, k),
        rows_before(stripes.take(n), k) == rows_before(stripes, k),
    decreases k,
{
    if k > 0 {
        lemma_start_of_prefix(stripes, n, k - 1);
    }
}

/// A stripe that is added to a program comes after the words that are
/// there.
pub proof fn lemma_program_push(stripes: Seq<Stripe>, base: int, stripe: Stripe)
    ensures
        program_words(stripes.push(stripe), base) == program_words(stripes, base) + stripe.words(
            base + start_of(stripes, stripes.len() as int),
        ),
        program_words(stripes, base).len() == start_of(stripes, stripes.len() as int),
        start_of(stripes.push(stripe), stripes.len() as int + 1) == start_of(
            stripes,
            stripes.len() as int,
        ) + stripe.len(),
        rows_before(stripes.push(stripe), stripes.len() as int + 1) == rows_before(
            stripes,
            stripes.len() as int,
        ) + stripe.height,
    decreases stripes.len(),
{
    let pushed = stripes.push(stripe);
    assert(pushed.take(stripes.len() as int) =~= stripes);
    lemma_start_of_prefix(pushed, stripes.len() as int, stripes.len() as int);
    if stripes.len() == 0 {
        assert(pushed.drop_first() =~= Seq::<Stripe>::empty());
        assert(program_words(pushed.drop_first(), base + stripe.len()) =~= Seq::<u32>::empty());
        assert(pushed[0] == stripe);
        assert(program_words(pushed, base) =~= stripe.words(base));
        assert(program_words(stripes, base) + stripe.words(base) =~= stripe.words(base));
    } else {
        let rest = stripes.drop_first();
        lemma_program_push(rest, base + stripes[0].len(), stripe);
        assert(pushed.drop_first() =~= rest.push(stripe));
        lemma_start_of_shift(stripes, stripes.len() as int);
        assert(program_words(pushed, base) =~= program_words(stripes, base) + stripe.words(
            base + start_of(stripes, stripes.len() as int),
        ));
    }
}

/// Counting from the second stripe leaves out the length of the first.
pub proof fn lemma_start_of_shift(stripes: Seq<Stripe>, k: int)
    requires
        1 <= k <= stripes.len(),
    ensures
        start_of(stripes, k) == stripes[0].len() + start_of(stripes.drop_first(), k - 1),
    decreases k,
{
    if k > 1 {
        lemma_start_of_shift(stripes, k - 1);
        assert(stripes.drop_first()[k - 2] == stripes[k - 1]);
    } else {
        assert(start_of(stripes, 0) == 0);
        assert(start_of(stripes.drop_first(), 0) == 0);
    }
}

/// The rows of a program are those of its stripes taken together: a
/// stripe that is added adds its rows.
pub proof fn lemma_total_height_push(stripes: Seq<Stripe>, stripe: Stripe)
    ensures
        total_height(stripes.push(stripe)) == total_height(stripes) + stripe.height,
{
    lemma_program_push(stripes, 0, stripe);
}

/// A program of two stripes has the rows of both.
pub proof fn lemma_two_stripes(first: Stripe, second: Stripe)
    ensures
        seq![first, second].len() == 2,
        total_height(seq![first, second]) == first.height + second.height,
{
    reveal_with_fuel(rows_before, 3);
}

/// Where the words of stripe `k` lie in a program.
pub proof fn lemma_stripe_at(stripes: Seq<Stripe>, k: int)
    requires
        0 <= k < stripes.len(),
    ensures
        0 <= start_of(stripes, k),
        start_of(stripes, k + 1) == start_of(stripes, k) + stripes[k].len(),
        start_of(stripes, k + 1) <= program_words(stripes, 0).len(),
        program_words(stripes, 0)[start_of(stripes, k)] == stripes[k].height,
        program_words(stripes, 0)[start_of(stripes, k) + 1] == start_of(stripes, k + 1) as u32,
        forall|i: int|
            0 <= i < stripes[k].body.len() ==> #[trigger] program_words(stripes, 0)[start_of(
                stripes,
                k,
            ) + 2 + i] == stripes[k].body[i],
        program_words(stripes, 0)[start_of(stripes, k) + 2 + stripes[k].body.len()] == STOP,
{
    lemma_program_suffix(stripes, k);
    lemma_program_suffix(stripes, k + 1);
    lemma_start_of_bounds(stripes, k);
    let whole = program_words(stripes, 0);
    let at = start_of(stripes, k);
    let rest = stripes.skip(k);
    let tail = program_words(rest, at);
    assert(rest[0] == stripes[k]);
    let own = stripes[k].words(at);
    assert(tail == own + program_words(rest.drop_first(), at + stripes[k].len()));
    assert(own.len() == stripes[k].len());
    assert forall|i: int| 0 <= i < own.len() implies whole[at + i] == own[i] by {
        assert(whole.subrange(at, whole.len() as int)[i] == tail[i]);
    }
    assert(whole[at] == own[0]);
    assert(whole[at + 1] == own[1]);
    assert forall|i: int| 0 <= i < stripes[k].body.len() implies #[trigger] whole[at + 2 + i]
        == stripes[k].body[i] by {
        assert(whole[at + (2 + i)] == own[2 + i]);
    }
    assert(whole[at + (2 + stripes[k].body.len())] == own[2 + stripes[k].body.len() as int]);
}

/// Whether a word of 32 bits can hold every index of the program, its
/// length included.
pub open spec fn fits(stripes: Seq<Stripe>) -> bool {
    program_words(stripes, 0).len() <= u32::MAX
}

/// In a program that fits, the second word of a stripe is the index at
/// which the next stripe starts, or the length of the program for the
/// last: the interpreter steps over a stripe by reading that word.
pub proof fn lemma_end_offset(stripes: Seq<Stripe>, k: int)
    requires
        fits(stripes),
        0 <= k < stripes.len(),
    ensures
        0 <= start_of(stripes, k) < start_of(stripes, k + 1) <= program_words(stripes, 0).len(),
        stripes[k].len() <= u32::MAX,
        program_words(stripes, 0)[start_of(stripes, k) + 1] as int == start_of(stripes, k + 1),
{
    lemma_stripe_at(stripes, k);
}

/// A program of stripes while it is built: the stripes that are complete,
/// and the one that is open, if any.
pub struct StripeBuffer {
    code: Vec<u32>,
    stripe_start: usize,
    done: Ghost<Seq<Stripe>>,
    open: Ghost<Option<Stripe>>,
}

impl StripeBuffer {
    /// The stripes that are complete.
    pub closed spec fn done(&self) -> Seq<Stripe> {
        self.done@
    }

    /// The stripe that is being built.
    pub closed spec fn open(&self) -> Option<Stripe> {
        self.open@
    }

    /// Number of words that can still be added. Indices within a program
    /// are held in words of 32 bits, so a program has fewer words than
    /// that.
    pub closed spec fn room(&self) -> int {
        u32::MAX - self.code.len() - if self.open@.is_some() {
            1int
        } else {
            0int
        }
    }

    /// The invariant of the buffer: its words are those of the complete
    /// stripes, followed by those of the open one.
    pub closed spec fn wf(&self) -> bool {
        &&& self.code@ == program_words(self.done@, 0) + match self.open@ {
            Some(s) => s.open_words(),
            None => Seq::empty(),
        }
        &&& self.stripe_start == start_of(self.done@, self.done@.len() as int)
        &&& self.room() >= 0
    }

    /// No program has more room than an empty one.
    pub proof fn lemma_room(&self)
        ensures
            self.room() <= u32::MAX,
    {
    }

    /// The room is what the words of the stripes leave of the indices
    /// that a word of 32 bits can hold, so the complete stripes fit.
    pub proof fn lemma_room_left(&self)
        requires
            self.wf(),
        ensures
            self.room() == u32::MAX - program_words(self.done(), 0).len() - match self.open() {
                Some(s) => s.len(),
                None => 0,
            },
            fits(self.done()),
    {
    }

    /// An empty program.
    pub fn new() -> (r: Self)
        ensures
            r.wf(),
            r.done() == Seq::<Stripe>::empty(),
            r.open().is_none(),
            r.room() == u32::MAX,
    {
        let r = StripeBuffer {
            code: Vec::new(),
            stripe_start: 0,
            done: Ghost(Seq::empty()),
            open: Ghost(None),
        };
        assert(r.code@ =~= program_words(r.done@, 0) + Seq::<u32>::empty());
        r
    }

    /// An empty program in the storage of a program that is no longer
    /// needed.
    pub fn recycle(program: StripeProgram) -> (r: Self)
        ensures
            r.wf(),
            r.done() == Seq::<Stripe>::empty(),
            r.open().is_none(),
            r.room() == u32::MAX,
    {
        let mut code = program.code;
        code.clear();
        let r = StripeBuffer {
            code,
            stripe_start: 0,
            done: Ghost(Seq::empty()),
            open: Ghost(None),
        };
        assert(r.code@ =~= program_words(r.done@, 0) + Seq::<u32>::empty());
        r
    }

    /// Whether enough room is left for `words` more words.
    pub fn has_room(&self, words: usize) -> (r: bool)
        requires
            self.wf(),
        ensures
            r == (self.room() >= words),
    {
        let reserve: usize = if self.stripe_start < self.code.len() { 1 } else { 0 };
        proof {
            lemma_program_push(self.done@, 0, Stripe { height: 0, body: Seq::empty() });
        }
        let used = self.code.len() as u64 + reserve as u64;
        words as u64 <= 0xffff_ffff - used
    }

    /// Opens a stripe of `height` rows.
    pub fn begin_stripe(&mut self, height: u32)
        requires
            old(self).wf(),
            old(self).open().is_none(),
            old(self).room() >= 3,
        ensures
            final(self).wf(),
            final(self).done() == old(self).done(),
            final(self).open() == Some(Stripe { height, body: Seq::empty() }),
            final(self).room() == old(self).room() - 3,
    {
        self.code.push(height);
        self.code.push(0);
        proof {
            let stripe = Stripe { height, body: Seq::empty() };
            self.open = Ghost(Some(stripe));
            assert(self.code@ =~= program_words(self.done@, 0) + stripe.open_words());
        }
    }

    /// Adds a word to the instructions of the open stripe.
    pub fn push(&mut self, word: u32)
        requires
            old(self).wf(),
            old(self).open().is_some(),
            old(self).room() >= 1,
        ensures
            final(self).wf(),
            final(self).done() == old(self).done(),
            final(self).open() == Some(
                Stripe {
                    height: old(self).open().unwrap().height,
                    body: old(self).open().unwrap().body.push(word),
                },
            ),
            final(self).room() == old(self).room() - 1,
    {
        self.code.push(word);
        proof {
            let before = self.open@.unwrap();
            let stripe = Stripe { height: before.height, body: before.body.push(word) };
            self.open = Ghost(Some(stripe));
            assert(self.code@ =~= program_words(self.done@, 0) + stripe.open_words());
        }
    }

    /// Completes the open stripe: the stop word is added and the index of
    /// the word after it is filled into the header.
    pub fn end_stripe(&mut self)
        requires
            old(self).wf(),
            old(self).open().is_some(),
        ensures
            final(self).wf(),
            final(self).done() == old(self).done().push(old(self).open().unwrap()),
            final(self).open().is_none(),
            final(self).room() == old(self).room(),
    {
        proof {
            lemma_program_push(self.done@, 0, self.open@.unwrap());
        }
        self.code.push(STOP);
        let len = self.code.len();
        self.code.set(self.stripe_start + 1, len as u32);
        self.stripe_start = len;
        proof {
            let stripe = self.open@.unwrap();
            let before = self.done@;
            self.done = Ghost(before.push(stripe));
            self.open = Ghost(None);
            assert(self.code@ =~= program_words(before, 0) + stripe.words(
                start_of(before, before.len() as int),
            ));
            assert(self.code@ =~= program_words(self.done@, 0) + Seq::<u32>::empty());
        }
    }

    /// The finished program.
    pub fn build(self) -> (r: StripeProgram)
        requires
            self.wf(),
            self.open().is_none(),
        ensures
            r@ == self.done(),
            fits(r@),
    {
        assert(self.code@ =~= program_words(self.done@, 0));
        StripeProgram { code: self.code, stripes: self.done }
    }
}

/// A complete program of stripes.
pub struct StripeProgram {
    code: Vec<u32>,
    stripes: Ghost<Seq<Stripe>>,
}

/// A place in a program: a row of a stripe.
pub struct StripeCursor {
    pc: usize,
    row: u32,
    index: Ghost<int>,
}

impl StripeCursor {
    /// The number of the stripe that the cursor is in.
    pub closed spec fn index(&self) -> int {
        self.index@
    }

    /// The row within the stripe.
    pub closed spec fn row(&self) -> int {
        self.row as int
    }

    /// The row within the stripe.
    pub fn stripe_row(&self) -> (r: u32)
        ensures
            r == self.row(),
    {
        self.row
    }

    /// A copy of the cursor.
    pub fn duplicate(&self) -> (r: Self)
        ensures
            r.index() == self.index(),
            r.row() == self.row(),
            r.pc() == self.pc(),
    {
        StripeCursor { pc: self.pc, row: self.row, index: Ghost(self.index@) }
    }

    /// The index in the program at which the stripe of the cursor starts.
    pub closed spec fn pc(&self) -> int {
        self.pc as int
    }
}

impl View for StripeProgram {
    type V = Seq<Stripe>;

    /// The stripes of the program.
    closed spec fn view(&self) -> Seq<Stripe> {
        self.stripes@
    }
}

impl StripeProgram {
    /// The invariant of a program: its words are those of its stripes.
    #[verifier::type_invariant]
    pub closed spec fn wf(&self) -> bool {
        &&& self.code@ == program_words(self.stripes@, 0)
        &&& self.code.len() <= u32::MAX
    }

    /// Whether `cursor` is a place in this program: the start of one of
    /// its stripes with one of the rows of that stripe, or the end of the
    /// program.
    pub open spec fn holds(&self, cursor: StripeCursor) -> bool {
        &&& 0 <= cursor.index() <= self@.len()
        &&& cursor.pc() == start_of(self@, cursor.index())
        &&& cursor.index() < self@.len() ==> 0 <= cursor.row() < self@[cursor.index()].height
        &&& cursor.index() == self@.len() ==> cursor.row() == 0
    }

    /// The row of the picture that a cursor stands for.
    pub open spec fn picture_row(&self, cursor: StripeCursor) -> int {
        rows_before(self@, cursor.index()) + cursor.row()
    }

    /// A program has fewer words than a word of 32 bits can count, and so
    /// has each of its stripes.
    pub proof fn lemma_stripe_fits(&self, k: int)
        requires
            self.wf(),
            0 <= k < self@.len(),
        ensures
            self@[k].len() <= u32::MAX,
    {
        lemma_stripe_at(self@, k);
        lemma_start_of_bounds(self@, k);
    }

    /// A cursor stands in the stripe that its picture row lies in.
    pub proof fn lemma_cursor_locates(&self, cursor: StripeCursor)
        requires
            self.holds(cursor),
        ensures
            0 <= self.picture_row(cursor) <= total_height(self@),
            stripe_of_row(self@, self.picture_row(cursor)) == cursor.index(),
            row_in_stripe(self@, self.picture_row(cursor)) == cursor.row(),
            cursor.index() < self@.len() <==> self.picture_row(cursor) < total_height(self@),
    {
        lemma_locate(self@, 0, cursor.index(), self.picture_row(cursor));
        lemma_rows_before_monotonic(self@, 0, cursor.index());
        if cursor.index() < self@.len() {
            lemma_rows_before_monotonic(self@, cursor.index() + 1, self@.len() as int);
        }
    }

    /// The words of the program.
    pub fn words(&self) -> (r: &[u32])
        ensures
            r@ == program_words(self@, 0),
            fits(self@),
    {
        proof {
            use_type_invariant(self);
        }
        self.code.as_slice()
    }

    /// Steps over stripes without rows, from the start of stripe `index`.
    fn settle(&self, pc: usize, Ghost(index): Ghost<int>) -> (r: StripeCursor)
        requires
            0 <= index <= self@.len(),
            pc == start_of(self@, index),
        ensures
            self.holds(r),
            r.row() == 0,
            index <= r.index(),
            rows_before(self@, r.index()) == rows_before(self@, index),
    {
        proof {
            use_type_invariant(self);
        }
        let mut pc = pc;
        let ghost mut k = index;
        proof {
            lemma_program_suffix(self@, self@.len() as int);
            if k < self@.len() {
                lemma_stripe_at(self@, k);
            }
        }
        while pc < self.code.len() && self.code[pc] == 0
            invariant
                self.wf(),
                0 <= index <= k <= self@.len(),
                pc == start_of(self@, k),
                start_of(self@, self@.len() as int) == self.code.len(),
                rows_before(self@, k) == rows_before(self@, index),
                k < self@.len() ==> pc < self.code.len(),
            decreases self.code.len() - pc,
        {
            proof {
                if k == self@.len() {
                    assert(false);
                }
                lemma_stripe_at(self@, k);
            }
            pc = self.code[pc + 1] as usize;
            proof {
                k = k + 1;
                if k < self@.len() {
                    lemma_stripe_at(self@, k);
                }
            }
        }
        proof {
            if k < self@.len() {
                lemma_stripe_at(self@, k);
            }
        }
        StripeCursor { pc, row: 0, index: Ghost(k) }
    }

    /// The cursor at the first row of the picture.
    pub fn start(&self) -> (r: StripeCursor)
        ensures
            self.holds(r),
            self.picture_row(r) == 0,
    {
        proof {
            use_type_invariant(self);
        }
        self.settle(0, Ghost(0))
    }

    /// Whether the cursor has run past the last row.
    pub fn at_end(&self, cursor: &StripeCursor) -> (r: bool)
        requires
            self.holds(*cursor),
        ensures
            r == (cursor.index() == self@.len()),
            r == (self.picture_row(*cursor) == total_height(self@)),
    {
        proof {
            use_type_invariant(self);
        }
        proof {
            lemma_program_suffix(self@, self@.len() as int);
            if cursor.index() < self@.len() {
                lemma_stripe_at(self@, cursor.index());
                lemma_rows_before_monotonic(self@, cursor.index() + 1, self@.len() as int);
            }
        }
        cursor.pc >= self.code.len()
    }

    /// Moves the cursor on by one row: to the next row of its stripe, or,
    /// when the stripe has no more, to the next stripe that has rows.
    pub fn advance(&self, cursor: &mut StripeCursor)
        requires
            self.holds(*old(cursor)),
            old(cursor).index() < self@.len(),
        ensures
            self.holds(*final(cursor)),
            self.picture_row(*final(cursor)) == self.picture_row(*old(cursor)) + 1,
    {
        proof {
            use_type_invariant(self);
        }
        proof {
            lemma_stripe_at(self@, cursor.index@);
            lemma_program_suffix(self@, self@.len() as int);
        }
        let height = self.code[cursor.pc];
        if cursor.row + 1 == height {
            let next = self.code[cursor.pc + 1] as usize;
            let settled = self.settle(next, Ghost(cursor.index@ + 1));
            *cursor = settled;
        } else {
            cursor.row = cursor.row + 1;
        }
    }

    /// Number of rows of the stripe that the cursor is in.
    pub fn stripe_height(&self, cursor: &StripeCursor) -> (r: u32)
        requires
            self.holds(*cursor),
            cursor.index() < self@.len(),
        ensures
            r == self@[cursor.index()].height,
    {
        proof {
            use_type_invariant(self);
        }
        proof {
            lemma_stripe_at(self@, cursor.index@);
            lemma_program_suffix(self@, self@.len() as int);
        }
        self.code[cursor.pc]
    }

    /// Word `i` of the instructions of the stripe that the cursor is in;
    /// the stop word where `i` is their length.
    pub fn body_word(&self, cursor: &StripeCursor, i: usize) -> (r: u32)
        requires
            self.holds(*cursor),
            cursor.index() < self@.len(),
            i <= self@[cursor.index()].body.len(),
        ensures
            r == if i < self@[cursor.index()].body.len() {
                self@[cursor.index()].body[i as int]
            } else {
                STOP
            },
    {
        proof {
            use_type_invariant(self);
        }
        proof {
            lemma_stripe_at(self@, cursor.index@);
            lemma_program_suffix(self@, self@.len() as int);
        }
        self.code[cursor.pc + 2 + i]
    }

    /// Walks the stripes by the indices in their headers and returns how
    /// many there are and how many rows they have together.
    pub fn walk(&self) -> (r: (usize, u64))
        ensures
            r.0 == self@.len(),
            r.1 == total_height(self@),
    {
        proof {
            use_type_invariant(self);
        }
        let mut pc: usize = 0;
        let mut count: usize = 0;
        let mut rows: u64 = 0;
        proof {
            lemma_program_suffix(self@, self@.len() as int);
            lemma_start_of_bounds(self@, self@.len() as int);
        }
        while pc < self.code.len()
            invariant
                self.wf(),
                0 <= count <= self@.len(),
                pc == start_of(self@, count as int),
                start_of(self@, self@.len() as int) == self.code.len(),
                rows == rows_before(self@, count as int),
                rows <= count * 0xffff_ffff,
                3 * count <= pc,
                count < self@.len() ==> pc < self.code.len(),
            decreases self.code.len() - pc,
        {
            proof {
                if count == self@.len() {
                    assert(false);
                }
                lemma_stripe_at(self@, count as int);
                lemma_start_of_bounds(self@, count + 1);
            }
            rows = rows + self.code[pc] as u64;
            pc = self.code[pc + 1] as usize;
            count = count + 1;
            proof {
                if count < self@.len() {
                    lemma_stripe_at(self@, count as int);
                }
            }
        }
        proof {
            if count < self@.len() {
                lemma_stripe_at(self@, count as int);
            }
        }
        (count, rows)
    }
}

/// The number of the stripe that picture row `row` lies in, looking from
/// stripe `k` on; the number of stripes if the row lies in none.
pub open spec fn locate_from(stripes: Seq<Stripe>, k: int, row: int) -> int
    decreases stripes.len() - k,
{
    if k >= stripes.len() || row < rows_before(stripes, k + 1) {
        k
    } else {
        locate_from(stripes, k + 1, row)
    }
}

/// The number of the stripe that picture row `row` lies in; the number of
/// stripes if the picture has no such row.
pub open spec fn stripe_of_row(stripes: Seq<Stripe>, row: int) -> int {
    locate_from(stripes, 0, row)
}

/// The row within its stripe of picture row `row`.
pub open spec fn row_in_stripe(stripes: Seq<Stripe>, row: int) -> int {
    row - rows_before(stripes, stripe_of_row(stripes, row))
}

/// A row that lies within stripe `k` is found there, from wherever before
/// it the search starts.
pub proof fn lemma_locate(stripes: Seq<Stripe>, j: int, k: int, row: int)
    requires
        0 <= j <= k <= stripes.len(),
        rows_before(stripes, k) <= row,
        k < stripes.len() ==> row < rows_before(stripes, k + 1),
    ensures
        locate_from(stripes, j, row) == k,
    decreases k - j,
{
    if j < k {
        lemma_rows_before_monotonic(stripes, j + 1, k);
        lemma_locate(stripes, j + 1, k, row);
    }
}

/// Later stripes have at least as many rows before them.
pub proof fn lemma_rows_before_monotonic(stripes: Seq<Stripe>, j: int, k: int)
    requires
        0 <= j <= k <= stripes.len(),
    ensures
        rows_before(stripes, j) <= rows_before(stripes, k),
    decreases k - j,
{
    if j < k {
        lemma_rows_before_monotonic(stripes, j, k - 1);
    }
}

} // verus!
