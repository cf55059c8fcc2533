//! A bounded queue of line numbers.

use vstd::prelude::*;

verus! {

/// A first-in, first-out queue of `u32` values in a ring of `SIZE` slots.
///
/// One slot always stays free, so the queue holds up to `SIZE - 1` values.
/// It is meant for one producer and one consumer: the producer only moves
/// the write index and the consumer only the read index.
pub struct Queue<const SIZE: usize> {
    rd_ix: u32,
    wr_ix: u32,
    buf: [u32; SIZE],
}

impl<const SIZE: usize> View for Queue<SIZE> {
    type V = Seq<u32>;

    /// The values in the queue, the oldest first.
    closed spec fn view(&self) -> Seq<u32> {
        Seq::new(
            ((self.wr_ix + SIZE - self.rd_ix) % (SIZE as int)) as nat,
            |i: int| self.buf@[(self.rd_ix + i) % (SIZE as int)],
        )
    }
}

impl<const SIZE: usize> Queue<SIZE> {
    #[verifier::type_invariant]
    spec fn well_formed(self) -> bool {
        &&& 0 < SIZE <= u32::MAX
        &&& self.rd_ix < SIZE
        &&& self.wr_ix < SIZE
    }

    /// Number of values that the queue can hold.
    pub open spec fn capacity() -> int {
        SIZE - 1
    }

    /// An empty queue.
    pub fn new() -> (r: Self)
        requires
            0 < SIZE <= u32::MAX,
        ensures
            r@ == Seq::<u32>::empty(),
    {
        let r = Queue { rd_ix: 0, wr_ix: 0, buf: [0; SIZE] };
        proof {
            lemma_ring(SIZE as int, 0, 0);
        }
        assert(r@ =~= Seq::<u32>::empty());
        r
    }

    /// Appends a value to a queue that is not full.
    ///
    /// Nothing checks for room at run time: the producer has to know that
    /// there is some, for instance because the ring is larger than the
    /// number of values that can be pending at once.
    pub fn push_unchecked(&mut self, val: u32)
        requires
            old(self)@.len() < Self::capacity(),
        ensures
            final(self)@ == old(self)@.push(val),
    {
        proof {
            use_type_invariant(&*self);
        }
        let wr_ix = self.wr_ix;
        let next = (wr_ix + 1) % SIZE as u32;
        self.buf[wr_ix as usize] = val;
        self.wr_ix = next;
        proof {
            let n = SIZE as int;
            let rd = self.rd_ix as int;
            let before = old(self)@;
            lemma_ring(n, rd, wr_ix as int);
            assert(self@.len() == before.len() + 1);
            assert forall|i: int| 0 <= i < self@.len() implies self@[i] == before.push(val)[i] by {
                lemma_ring_slot(n, rd, wr_ix as int, i);
            }
            assert(self@ =~= before.push(val));
        }
    }

    /// The oldest value, which stays in the queue, or `None` if the queue
    /// is empty.
    pub fn peek(&self) -> (r: Option<u32>)
        ensures
            r == if self@.len() > 0 {
                Some(self@[0])
            } else {
                None
            },
    {
        proof {
            use_type_invariant(self);
            lemma_ring(SIZE as int, self.rd_ix as int, self.wr_ix as int);
            vstd::arithmetic::div_mod::lemma_small_mod(self.rd_ix as nat, SIZE as nat);
        }
        if self.rd_ix == self.wr_ix {
            None
        } else {
            Some(self.buf[self.rd_ix as usize])
        }
    }

    /// Drops the oldest value of a queue that is not empty.
    pub fn remove(&mut self)
        requires
            old(self)@.len() > 0,
        ensures
            final(self)@ == old(self)@.drop_first(),
    {
        proof {
            use_type_invariant(&*self);
        }
        let rd_ix = self.rd_ix;
        let next = (rd_ix + 1) % SIZE as u32;
        self.rd_ix = next;
        proof {
            let n = SIZE as int;
            let wr = self.wr_ix as int;
            let before = old(self)@;
            lemma_ring(n, rd_ix as int, wr);
            lemma_ring(n, next as int, wr);
            assert(self@.len() == before.len() - 1);
            assert forall|i: int| 0 <= i < self@.len() implies self@[i] == before.drop_first()[i] by {
                lemma_ring_next(n, rd_ix as int, i);
            }
            assert(self@ =~= before.drop_first());
        }
    }

    /// Takes the oldest value out of the queue, or returns `None` and
    /// leaves the queue as it is if it is empty.
    pub fn try_take(&mut self) -> (r: Option<u32>)
        ensures
            old(self)@.len() > 0 ==> r == Some(old(self)@[0]) && final(self)@ == old(
                self,
            )@.drop_first(),
            old(self)@.len() == 0 ==> r.is_none() && final(self)@ == old(self)@,
    {
        let item = self.peek();
        if item.is_some() {
            self.remove();
        }
        item
    }

    /// The oldest value of a queue that is not empty, which stays in the
    /// queue. Whoever calls this has waited for a value to be there.
    pub fn peek_blocking(&self) -> (r: u32)
        requires
            self@.len() > 0,
        ensures
            r == self@[0],
    {
        proof {
            use_type_invariant(self);
            lemma_ring(SIZE as int, self.rd_ix as int, self.wr_ix as int);
            vstd::arithmetic::div_mod::lemma_small_mod(self.rd_ix as nat, SIZE as nat);
        }
        self.buf[self.rd_ix as usize]
    }

    /// Takes the oldest value out of a queue that is not empty. Whoever
    /// calls this has waited for a value to be there.
    pub fn take_blocking(&mut self) -> (r: u32)
        requires
            old(self)@.len() > 0,
        ensures
            r == old(self)@[0],
            final(self)@ == old(self)@.drop_first(),
    {
        let item = self.peek_blocking();
        self.remove();
        item
    }

    /// Number of values in the queue.
    pub fn len(&self) -> (r: usize)
        ensures
            r == self@.len(),
            r <= Self::capacity(),
    {
        proof {
            use_type_invariant(self);
            lemma_ring(SIZE as int, self.rd_ix as int, self.wr_ix as int);
        }
        ((self.wr_ix as u64 + SIZE as u64 - self.rd_ix as u64) % SIZE as u64) as usize
    }
}

/// The distance from the read index to the write index round a ring of `n`
/// slots, and how it changes when either index moves on by one.
proof fn lemma_ring(n: int, rd: int, wr: int)
    requires
        0 < n,
        0 <= rd < n,
        0 <= wr < n,
    ensures
        (wr + n - rd) % n == if wr >= rd {
            wr - rd
        } else {
            wr + n - rd
        },
        0 <= (wr + n - rd) % n < n,
        (wr + n - rd) % n == 0 <==> rd == wr,
        0 <= (wr + 1) % n < n,
        0 <= (rd + 1) % n < n,
        (wr + n - rd) % n < n - 1 ==> ((wr + 1) % n + n - rd) % n == (wr + n - rd) % n + 1,
        rd != wr ==> (wr + n - (rd + 1) % n) % n == (wr + n - rd) % n - 1,
{
    if wr >= rd {
        vstd::arithmetic::div_mod::lemma_mod_add_multiples_vanish(wr - rd, n);
        vstd::arithmetic::div_mod::lemma_small_mod((wr - rd) as nat, n as nat);
    } else {
        vstd::arithmetic::div_mod::lemma_small_mod((wr + n - rd) as nat, n as nat);
    }
    let wr1 = if wr + 1 == n { 0 } else { wr + 1 };
    let rd1 = if rd + 1 == n { 0 } else { rd + 1 };
    lemma_wrap(n, wr);
    lemma_wrap(n, rd);
    if wr1 >= rd {
        vstd::arithmetic::div_mod::lemma_mod_add_multiples_vanish(wr1 - rd, n);
        vstd::arithmetic::div_mod::lemma_small_mod((wr1 - rd) as nat, n as nat);
    } else {
        vstd::arithmetic::div_mod::lemma_small_mod((wr1 + n - rd) as nat, n as nat);
    }
    if wr >= rd1 {
        vstd::arithmetic::div_mod::lemma_mod_add_multiples_vanish(wr - rd1, n);
        vstd::arithmetic::div_mod::lemma_small_mod((wr - rd1) as nat, n as nat);
    } else {
        vstd::arithmetic::div_mod::lemma_small_mod((wr + n - rd1) as nat, n as nat);
    }
}

/// An index that moves on by one wraps to 0 at the end of the ring.
proof fn lemma_wrap(n: int, ix: int)
    requires
        0 < n,
        0 <= ix < n,
    ensures
        (ix + 1) % n == if ix + 1 == n {
            0
        } else {
            ix + 1
        },
{
    if ix + 1 == n {
        vstd::arithmetic::div_mod::lemma_mod_self_0(n);
    } else {
        vstd::arithmetic::div_mod::lemma_small_mod((ix + 1) as nat, n as nat);
    }
}

/// The slot of the `i`-th value is the write index exactly when `i` is the
/// number of values in the queue.
proof fn lemma_ring_slot(n: int, rd: int, wr: int, i: int)
    requires
        0 < n,
        0 <= rd < n,
        0 <= wr < n,
        0 <= i <= (wr + n - rd) % n,
    ensures
        0 <= (rd + i) % n < n,
        (rd + i) % n == wr <==> i == (wr + n - rd) % n,
{
    lemma_ring(n, rd, wr);
    if rd + i < n {
        vstd::arithmetic::div_mod::lemma_small_mod((rd + i) as nat, n as nat);
    } else {
        vstd::arithmetic::div_mod::lemma_mod_add_multiples_vanish(rd + i - n, n);
        vstd::arithmetic::div_mod::lemma_small_mod((rd + i - n) as nat, n as nat);
    }
}

/// Counting from the slot after the read index is counting one further
/// from the read index.
proof fn lemma_ring_next(n: int, rd: int, i: int)
    requires
        0 < n,
        0 <= rd < n,
        0 <= i,
    ensures
        ((rd + 1) % n + i) % n == (rd + (i + 1)) % n,
{
    lemma_wrap(n, rd);
    if rd + 1 == n {
        vstd::arithmetic::div_mod::lemma_mod_add_multiples_vanish(i, n);
        assert(rd + (i + 1) == n + i);
    }
}

/// The queue after the values of `items` have been pushed in order.
pub open spec fn push_all(queue: Seq<u32>, items: Seq<u32>) -> Seq<u32>
    decreases items.len(),
{
    if items.len() == 0 {
        queue
    } else {
        push_all(queue.push(items[0]), items.drop_first())
    }
}

/// The queue after `n` values have been taken.
pub open spec fn take_n(queue: Seq<u32>, n: nat) -> Seq<u32>
    decreases n,
{
    if n == 0 {
        queue
    } else {
        take_n(queue.drop_first(), (n - 1) as nat)
    }
}

/// Pushing appends in order.
pub proof fn lemma_push_all(queue: Seq<u32>, items: Seq<u32>)
    ensures
        push_all(queue, items) == queue + items,
    decreases items.len(),
{
    if items.len() == 0 {
        assert(queue + items =~= queue);
    } else {
        lemma_push_all(queue.push(items[0]), items.drop_first());
        assert(queue.push(items[0]) + items.drop_first() =~= queue + items);
    }
}

/// Taking removes from the front.
pub proof fn lemma_take_n(queue: Seq<u32>, n: nat)
    requires
        n <= queue.len(),
    ensures
        take_n(queue, n) == queue.subrange(n as int, queue.len() as int),
    decreases n,
{
    if n == 0 {
        assert(queue.subrange(0, queue.len() as int) =~= queue);
    } else {
        lemma_take_n(queue.drop_first(), (n - 1) as nat);
        assert(queue.drop_first().subrange(n - 1, queue.len() - 1) =~= queue.subrange(
            n as int,
            queue.len() as int,
        ));
    }
}

/// First in, first out: when the values of `items` are pushed to an empty
/// queue, the `i`-th value that is taken is the `i`-th that was pushed.
pub proof fn lemma_fifo(items: Seq<u32>, i: nat)
    requires
        i < items.len(),
    ensures
        take_n(push_all(Seq::empty(), items), i).len() > 0,
        take_n(push_all(Seq::empty(), items), i)[0] == items[i as int],
{
    lemma_push_all(Seq::empty(), items);
    assert(Seq::<u32>::empty() + items =~= items);
    lemma_take_n(items, i);
}

/// After `p` pushes and `q` removals, `q` being at most `p`, a queue that
/// was empty holds `p - q` values.
pub proof fn lemma_len_after(items: Seq<u32>, q: nat)
    requires
        q <= items.len(),
    ensures
        take_n(push_all(Seq::empty(), items), q).len() == items.len() - q,
{
    lemma_push_all(Seq::empty(), items);
    assert(Seq::<u32>::empty() + items =~= items);
    lemma_take_n(items, q);
}

} // verus!
