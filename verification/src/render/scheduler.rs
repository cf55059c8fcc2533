//! The scheduler that hands the rendering of every picture row to a core
//! ahead of the time at which the row is sent.
//!
//! Rows are rendered into a small number of line buffers, row `y` into
//! buffer `y` modulo their number. A buffer is pending from the moment a
//! row is assigned to it until that row has been rendered; while it is
//! pending it belongs to the core that renders, and nobody else touches
//! it. The scheduler never waits: a row whose buffer is still pending, or
//! for which no core has time, is given up.

use vstd::prelude::*;
use crate::render::queue::Queue;
use crate::render::stripes::StripeCursor;
use crate::render::swapcell::SwapCell;
use crate::render::{DisplayList, LineBuf};
use crate::scanlist::written;

verus! {

/// What became of the row that was to be scheduled.
#[derive(Clone, Copy, PartialEq, Eq, Structural)]
pub enum LineAction {
    /// The buffer of the row is still pending from an earlier row: the row
    /// is given up.
    Skipped,
    /// The row was put on the queue of the second core.
    Queued,
    /// The queue is full: the number of the buffer has to be sent through
    /// the mailbox to the other core.
    Mailbox,
    /// Neither the queue nor the mailbox has room: the row is given up.
    Dropped,
}

/// What [`LineScheduler::schedule_next_line`] did.
#[derive(Clone, Copy)]
pub struct Scheduled {
    /// Whether a new display list was swapped in; the client that waits
    /// for the cell should then be woken.
    pub swapped: bool,
    /// What became of the row.
    pub action: LineAction,
    /// The number of the buffer of the row.
    pub slot: u32,
}

/// The scheduler of a frame: the display list that is shown, the places in
/// it of the rows that come next, and the state of every line buffer.
pub struct LineScheduler<const SIZE: usize> {
    display_list: DisplayList,
    render_cursor: StripeCursor,
    scan_cursor: StripeCursor,
    pending: Vec<bool>,
    assigned: Vec<bool>,
    jobs: Vec<Option<StripeCursor>>,
    queue: Queue<SIZE>,
    max_queued: usize,
}

impl<const SIZE: usize> LineScheduler<SIZE> {
    /// The display list that is shown.
    pub closed spec fn display_list(&self) -> DisplayList {
        self.display_list
    }

    /// Number of line buffers.
    pub closed spec fn buffers(&self) -> int {
        self.pending@.len() as int
    }

    /// Which buffers wait to be rendered into.
    pub closed spec fn pending(&self) -> Seq<bool> {
        self.pending@
    }

    /// Which buffers hold, or will hold, the row that was last scheduled
    /// for them.
    pub closed spec fn assigned(&self) -> Seq<bool> {
        self.assigned@
    }

    /// The buffers on the queue of the second core, the oldest first.
    pub closed spec fn queue(&self) -> Seq<u32> {
        self.queue@
    }

    /// Number of rows that the queue of the second core is given at most.
    pub closed spec fn max_queued(&self) -> int {
        self.max_queued as int
    }

    /// The picture row that is scheduled next.
    pub closed spec fn row(&self) -> int {
        self.display_list.render.picture_row(self.render_cursor)
    }

    /// The picture row that is scanned next.
    pub closed spec fn scan_row(&self) -> int {
        self.display_list.scan.picture_row(self.scan_cursor)
    }

    /// The picture row that is to be rendered into buffer `slot`, if one
    /// is.
    pub closed spec fn job(&self, slot: int) -> Option<int> {
        match self.jobs@[slot] {
            Some(cursor) => Some(self.display_list.render.picture_row(cursor)),
            None => None,
        }
    }

    /// The invariant of the scheduler. Every buffer on the queue is
    /// pending and is there once, and the rows that are to be rendered are
    /// rows of the display list that is shown.
    pub closed spec fn wf(&self) -> bool {
        &&& 0 < self.pending@.len() <= u32::MAX
        &&& self.assigned@.len() == self.pending@.len()
        &&& self.jobs@.len() == self.pending@.len()
        &&& self.max_queued < SIZE
        &&& self.display_list.render.holds(self.render_cursor)
        &&& self.display_list.scan.holds(self.scan_cursor)
        &&& forall|s: int|
            0 <= s < self.jobs@.len() && (#[trigger] self.jobs@[s]).is_some() ==> {
                &&& self.display_list.render.holds(self.jobs@[s].unwrap())
                &&& self.jobs@[s].unwrap().index() < self.display_list.render@.stripes.len()
            }
        &&& forall|i: int|
            0 <= i < self.queue@.len() ==> (#[trigger] self.queue@[i]) < self.pending@.len()
                && self.pending@[self.queue@[i] as int]
        &&& forall|i: int, j: int|
            0 <= i < j < self.queue@.len() ==> #[trigger] self.queue@[i] != #[trigger] self.queue@[j]
    }

    /// There is a flag of either kind for each buffer, every buffer on
    /// the queue is pending, and no buffer is on the queue twice: no
    /// buffer is given to two rows at a time.
    pub proof fn lemma_queue_holds_buffers(&self)
        requires
            self.wf(),
        ensures
            0 < self.buffers(),
            self.pending().len() == self.buffers(),
            self.assigned().len() == self.buffers(),
            self.max_queued() < SIZE,
            forall|i: int|
                0 <= i < self.queue().len() ==> (#[trigger] self.queue()[i]) < self.buffers()
                    && self.pending()[self.queue()[i] as int],
            forall|i: int, j: int|
                0 <= i < j < self.queue().len() ==> #[trigger] self.queue()[i]
                    != #[trigger] self.queue()[j],
            0 <= self.row() <= crate::render::stripes::total_height(
                self.display_list().render().stripes,
            ),
            0 <= self.scan_row() <= self.display_list().height(),
    {
        self.display_list.render.lemma_cursor_locates(self.render_cursor);
        self.display_list.scan.lemma_cursor_locates(self.scan_cursor);
    }

    /// A scheduler for `buffers` line buffers that shows a black picture
    /// of 640 by 480 pixels and gives the queue of the second core at
    /// most `max_queued` rows at a time.
    pub fn new(buffers: u32, max_queued: usize) -> (r: Self)
        requires
            0 < buffers,
            max_queued < SIZE <= u32::MAX,
        ensures
            r.wf(),
            r.buffers() == buffers,
            r.max_queued() == max_queued,
            r.pending() == Seq::new(buffers as nat, |i: int| false),
            r.assigned() == Seq::new(buffers as nat, |i: int| false),
            r.queue() == Seq::<u32>::empty(),
            forall|s: int| 0 <= s < buffers ==> r.job(s).is_none(),
            r.row() == 0,
            r.scan_row() == 0,
            r.display_list().is_black(640, 480),
    {
        let display_list = DisplayList::new(640, 480);
        let render_cursor = display_list.render.start();
        let scan_cursor = display_list.scan.start();
        let mut pending: Vec<bool> = Vec::new();
        let mut assigned: Vec<bool> = Vec::new();
        let mut jobs: Vec<Option<StripeCursor>> = Vec::new();
        let mut i: u32 = 0;
        while i < buffers
            invariant
                i <= buffers,
                pending@ == Seq::new(i as nat, |i: int| false),
                assigned@ == Seq::new(i as nat, |i: int| false),
                jobs@.len() == i,
                forall|s: int| 0 <= s < i ==> (#[trigger] jobs@[s]).is_none(),
            decreases buffers - i,
        {
            pending.push(false);
            assigned.push(false);
            jobs.push(None);
            i += 1;
            assert(pending@ =~= Seq::new(i as nat, |i: int| false));
            assert(assigned@ =~= Seq::new(i as nat, |i: int| false));
        }
        LineScheduler {
            display_list,
            render_cursor,
            scan_cursor,
            pending,
            assigned,
            jobs,
            queue: Queue::new(),
            max_queued,
        }
    }

    /// Whether the buffer of row `y` holds that row: the row was assigned
    /// and has been rendered.
    pub fn is_line_available(&self, y: u32) -> (r: bool)
        requires
            self.wf(),
        ensures
            r == (self.assigned()[y as int % self.buffers()] && !self.pending()[y as int
                % self.buffers()]),
    {
        let slot = (y % self.pending.len() as u32) as usize;
        self.assigned[slot] && !self.pending[slot]
    }

    /// Schedules the rendering of the next picture row, which goes to the
    /// buffer of `y`.
    ///
    /// With row 0 a frame starts: the display list that waits in the cell
    /// for the system, if any, is swapped in, and the display list that
    /// is then shown starts over. Rows of the display list before that
    /// are to be rendered no more.
    ///
    /// The row is then taken from the display list, and the place in it
    /// moves on. If its buffer is still pending, the row is skipped.
    /// Otherwise it goes to the queue of the second core while that holds
    /// fewer rows than it is given at most, else to the mailbox if
    /// `mailbox_ready` says that it has room, and else it is dropped. A
    /// row that is skipped or dropped leaves its buffer unassigned.
    pub fn schedule_next_line(
        &mut self,
        cell: &mut SwapCell<DisplayList>,
        y: u32,
        mailbox_ready: bool,
    ) -> (r: Scheduled)
        requires
            old(self).wf(),
        ensures
            final(self).wf(),
            final(self).buffers() == old(self).buffers(),
            final(self).max_queued() == old(self).max_queued(),
            r.slot == y as int % old(self).buffers(),
            r.swapped == (y == 0 && old(cell)@.swaps()),
            final(cell)@ == if y == 0 {
                old(cell)@.after_swap(old(self).display_list())
            } else {
                old(cell)@
            },
            final(self).display_list() == if y == 0 {
                old(cell)@.swapped_out(old(self).display_list())
            } else {
                old(self).display_list()
            },
            final(self).scan_row() == if y == 0 {
                0
            } else {
                old(self).scan_row()
            },
            ({
                let slot = r.slot as int;
                let row = if y == 0 {
                    0
                } else {
                    old(self).row()
                };
                let in_picture = row < final(self).display_list().height();
                let taken = r.action == LineAction::Queued || r.action == LineAction::Mailbox;
                &&& final(self).row() == if in_picture {
                    row + 1
                } else {
                    row
                }
                &&& r.action == if old(self).pending()[slot] {
                    LineAction::Skipped
                } else if old(self).queue().len() < old(self).max_queued() {
                    LineAction::Queued
                } else if mailbox_ready {
                    LineAction::Mailbox
                } else {
                    LineAction::Dropped
                }
                &&& final(self).assigned() == old(self).assigned().update(slot, taken)
                &&& final(self).pending() == if taken {
                    old(self).pending().update(slot, true)
                } else {
                    old(self).pending()
                }
                &&& final(self).queue() == if r.action == LineAction::Queued {
                    old(self).queue().push(r.slot)
                } else {
                    old(self).queue()
                }
                &&& r.action == LineAction::Mailbox ==> forall|i: int|
                    0 <= i < final(self).queue().len() ==> final(self).queue()[i] != r.slot
                &&& forall|s: int|
                    0 <= s < final(self).buffers() ==> #[trigger] final(self).job(s) == if s
                        == slot && taken {
                        if in_picture {
                            Some(row)
                        } else {
                            None
                        }
                    } else if y == 0 {
                        None
                    } else {
                        old(self).job(s)
                    }
            }),
    {
        let n = self.pending.len();
        let mut swapped = false;
        if y == 0 {
            swapped = cell.try_swap_by_system(&mut self.display_list);
            self.render_cursor = self.display_list.render.start();
            self.scan_cursor = self.display_list.scan.start();
            let mut s: usize = 0;
            while s < n
                invariant
                    s <= n,
                    n == self.jobs@.len(),
                    forall|t: int| 0 <= t < s ==> (#[trigger] self.jobs@[t]).is_none(),
                    self.pending == old(self).pending,
                    self.assigned == old(self).assigned,
                    self.queue == old(self).queue,
                    self.max_queued == old(self).max_queued,
                    self.display_list.render.holds(self.render_cursor),
                    self.display_list.scan.holds(self.scan_cursor),
                    self.display_list.render.picture_row(self.render_cursor) == 0,
                    self.display_list.scan.picture_row(self.scan_cursor) == 0,
                    self.display_list == old(cell)@.swapped_out(old(self).display_list()),
                decreases n - s,
            {
                self.jobs[s] = None;
                s += 1;
            }
        }
        proof {
            use_type_invariant(&self.display_list);
            self.display_list.render.lemma_cursor_locates(self.render_cursor);
        }
        let ghost base = *self;
        let slot = (y % n as u32) as usize;
        let job = if self.display_list.render.at_end(&self.render_cursor) {
            None
        } else {
            let job = self.render_cursor.duplicate();
            self.display_list.render.advance(&mut self.render_cursor);
            Some(job)
        };
        let ghost moved = *self;
        let action = if self.pending[slot] {
            self.assigned[slot] = false;
            LineAction::Skipped
        } else if self.queue.len() < self.max_queued {
            self.jobs[slot] = job;
            self.pending[slot] = true;
            self.assigned[slot] = true;
            self.queue.push_unchecked(slot as u32);
            LineAction::Queued
        } else if mailbox_ready {
            self.jobs[slot] = job;
            self.pending[slot] = true;
            self.assigned[slot] = true;
            LineAction::Mailbox
        } else {
            self.assigned[slot] = false;
            LineAction::Dropped
        };
        proof {
            assert forall|i: int| 0 <= i < self.queue@.len() implies (#[trigger] self.queue@[i])
                < self.pending@.len() && self.pending@[self.queue@[i] as int] by {
                if i < moved.queue@.len() {
                    assert(self.queue@[i] == moved.queue@[i]);
                }
            }
            assert forall|i: int, j: int| 0 <= i < j < self.queue@.len() implies #[trigger] self.queue@[i]
                != #[trigger] self.queue@[j] by {
                if j < moved.queue@.len() {
                    assert(self.queue@[i] == moved.queue@[i]);
                    assert(self.queue@[j] == moved.queue@[j]);
                } else if action == LineAction::Queued {
                    assert(self.queue@[i] == moved.queue@[i]);
                    assert(moved.pending@[moved.queue@[i] as int]);
                }
            }
        }
        Scheduled { swapped, action, slot: slot as u32 }
    }

    /// Takes the buffer that has waited longest off the queue of the
    /// second core, or returns `None` if the queue is empty. The buffer
    /// stays pending until its row has been rendered.
    pub fn take_queued(&mut self) -> (r: Option<u32>)
        requires
            old(self).wf(),
        ensures
            final(self).wf(),
            old(self).queue().len() > 0 ==> r == Some(old(self).queue()[0]) && final(self).queue()
                == old(self).queue().drop_first(),
            old(self).queue().len() == 0 ==> r.is_none() && final(self).queue() == old(
                self,
            ).queue(),
            r.is_some() ==> r.unwrap() < final(self).buffers() && final(self).pending()[r.unwrap() as int],
            r.is_some() ==> forall|i: int|
                0 <= i < final(self).queue().len() ==> final(self).queue()[i] != r.unwrap(),
            final(self).buffers() == old(self).buffers(),
            final(self).max_queued() == old(self).max_queued(),
            final(self).pending() == old(self).pending(),
            final(self).assigned() == old(self).assigned(),
            final(self).display_list() == old(self).display_list(),
            final(self).row() == old(self).row(),
            final(self).scan_row() == old(self).scan_row(),
            forall|s: int| 0 <= s < final(self).buffers() ==> final(self).job(s) == old(self).job(s),
    {
        let r = self.queue.try_take();
        proof {
            if r.is_some() {
                assert(old(self).queue@[0] < self.pending@.len());
                assert forall|i: int| 0 <= i < self.queue@.len() implies (#[trigger] self.queue@[i])
                    < self.pending@.len() && self.pending@[self.queue@[i] as int] by {
                    assert(self.queue@[i] == old(self).queue@[i + 1]);
                }
                assert forall|i: int, j: int| 0 <= i < j < self.queue@.len() implies #[trigger] self.queue@[i]
                    != #[trigger] self.queue@[j] by {
                    assert(self.queue@[i] == old(self).queue@[i + 1]);
                    assert(self.queue@[j] == old(self).queue@[j + 1]);
                }
            }
        }
        r
    }

    /// Renders the row that is to be rendered into buffer `slot` into
    /// `line`, the line buffer of that number, and marks the buffer as no
    /// longer pending. Where no row is to be rendered, the line buffer
    /// stays as it is.
    ///
    /// The buffer must have been taken from the queue or received through
    /// the mailbox.
    pub fn render_line(&mut self, slot: u32, line: &mut LineBuf)
        requires
            old(self).wf(),
            slot < old(self).buffers(),
            forall|i: int| 0 <= i < old(self).queue().len() ==> old(self).queue()[i] != slot,
        ensures
            final(self).wf(),
            final(line)@ == match old(self).job(slot as int) {
                Some(row) => old(self).display_list().rendered(row, old(line)@),
                None => old(line)@,
            },
            final(self).pending() == old(self).pending().update(slot as int, false),
            final(self).job(slot as int).is_none(),
            forall|s: int|
                0 <= s < final(self).buffers() && s != slot ==> final(self).job(s) == old(
                    self,
                ).job(s),
            final(self).buffers() == old(self).buffers(),
            final(self).max_queued() == old(self).max_queued(),
            final(self).assigned() == old(self).assigned(),
            final(self).queue() == old(self).queue(),
            final(self).display_list() == old(self).display_list(),
            final(self).row() == old(self).row(),
            final(self).scan_row() == old(self).scan_row(),
    {
        let mut job: Option<StripeCursor> = None;
        core::mem::swap(&mut self.jobs[slot as usize], &mut job);
        match job {
            Some(cursor) => {
                proof {
                    self.display_list.render.lemma_cursor_locates(cursor);
                }
                self.display_list.render.render(&cursor, line);
            },
            None => {},
        }
        self.pending[slot as usize] = false;
        proof {
            assert forall|i: int| 0 <= i < self.queue@.len() implies (#[trigger] self.queue@[i])
                < self.pending@.len() && self.pending@[self.queue@[i] as int] by {
                assert(old(self).queue()[i] != slot);
                assert(old(self).pending@[old(self).queue@[i] as int]);
            }
            assert forall|s: int|
                0 <= s < self.jobs@.len() && (#[trigger] self.jobs@[s]).is_some() implies {
                &&& self.display_list.render.holds(self.jobs@[s].unwrap())
                &&& self.jobs@[s].unwrap().index() < self.display_list.render@.stripes.len()
            } by {
                assert(self.jobs@[s] == old(self).jobs@[s]);
            }
        }
    }

    /// The work of the second core, one row at a time: takes the buffer
    /// that has waited longest off the queue and renders its row into it.
    /// Returns the number of the buffer, or `None` if the queue is empty;
    /// the second core then waits for the scheduler to wake it.
    ///
    /// `lines` holds the line buffers, as many as the scheduler was made
    /// for.
    pub fn render_queued(&mut self, lines: &mut Vec<LineBuf>) -> (r: Option<u32>)
        requires
            old(self).wf(),
            old(lines)@.len() == old(self).buffers(),
        ensures
            final(self).wf(),
            final(lines)@.len() == old(lines)@.len(),
            r.is_some() == (old(self).queue().len() > 0),
            r.is_none() ==> {
                &&& final(lines)@ == old(lines)@
                &&& final(self).queue() == old(self).queue()
                &&& final(self).pending() == old(self).pending()
                &&& forall|s: int|
                    0 <= s < final(self).buffers() ==> final(self).job(s) == old(self).job(s)
            },
            r.is_some() ==> {
                let slot = old(self).queue()[0] as int;
                &&& r.unwrap() == slot
                &&& slot < old(self).buffers()
                &&& final(self).queue() == old(self).queue().drop_first()
                &&& final(self).pending() == old(self).pending().update(slot, false)
                &&& final(self).job(slot).is_none()
                &&& forall|s: int|
                    0 <= s < final(self).buffers() && s != slot ==> final(self).job(s) == old(
                        self,
                    ).job(s)
                &&& forall|s: int|
                    0 <= s < old(lines)@.len() && s != slot ==> final(lines)@[s] == old(lines)@[s]
                &&& final(lines)@[slot]@ == match old(self).job(slot) {
                    Some(row) => old(self).display_list().rendered(row, old(lines)@[slot]@),
                    None => old(lines)@[slot]@,
                }
            },
            final(self).buffers() == old(self).buffers(),
            final(self).max_queued() == old(self).max_queued(),
            final(self).assigned() == old(self).assigned(),
            final(self).display_list() == old(self).display_list(),
            final(self).row() == old(self).row(),
            final(self).scan_row() == old(self).scan_row(),
    {
        match self.take_queued() {
            Some(slot) => {
                let mut line = lines[slot as usize];
                self.render_line(slot, &mut line);
                lines[slot as usize] = line;
                Some(slot)
            },
            None => None,
        }
    }

    /// Turns the line buffer of the row that is scanned next into the
    /// transfer words of that row, if `available` says that the buffer
    /// holds the row, and moves on to the next row. When the display list
    /// has no more rows, or the buffer does not hold the row, `video_buf`
    /// stays as it is.
    pub fn scan_line(&mut self, line: &LineBuf, video_buf: &mut [u32], available: bool)
        requires
            old(self).wf(),
        ensures
            final(self).wf(),
            ({
                let row = old(self).scan_row();
                let shown = old(self).display_list();
                if row < shown.height() {
                    &&& final(self).scan_row() == row + 1
                    &&& final(video_buf)@ == if available {
                        written(old(video_buf)@, shown.scanned(row, line@))
                    } else {
                        old(video_buf)@
                    }
                } else {
                    &&& final(self).scan_row() == row
                    &&& final(video_buf)@ == old(video_buf)@
                }
            }),
            final(self).buffers() == old(self).buffers(),
            final(self).max_queued() == old(self).max_queued(),
            final(self).pending() == old(self).pending(),
            final(self).assigned() == old(self).assigned(),
            final(self).queue() == old(self).queue(),
            final(self).display_list() == old(self).display_list(),
            final(self).row() == old(self).row(),
            forall|s: int| 0 <= s < final(self).buffers() ==> final(self).job(s) == old(self).job(s),
    {
        proof {
            self.display_list.scan.lemma_cursor_locates(self.scan_cursor);
        }
        if !self.display_list.scan.at_end(&self.scan_cursor) {
            if available {
                self.display_list.scan.scan(&self.scan_cursor, line, video_buf);
            }
            self.display_list.scan.advance(&mut self.scan_cursor);
        }
    }
}

} // verus!
