//! A cell that hands one value back and forth between two parties.

use vstd::prelude::*;

verus! {

/// Who may take the value of a [`SwapCell`].
#[derive(Clone, Copy, PartialEq, Eq, Structural)]
pub enum SwapState {
    /// The cell is empty.
    Taken,
    /// The cell holds a value for the client.
    ReadyForClient,
    /// The cell holds a value for the system.
    ReadyForSystem,
}

/// What a [`SwapCell`] holds: the slot and the party that it is ready for.
pub struct SwapView<T> {
    pub state: SwapState,
    pub value: Option<T>,
}

impl<T> SwapView<T> {
    /// The empty cell.
    pub open spec fn empty() -> Self {
        SwapView { state: SwapState::Taken, value: None }
    }

    /// The cell after `val` has been published for the client.
    pub open spec fn for_client(val: T) -> Self {
        SwapView { state: SwapState::ReadyForClient, value: Some(val) }
    }

    /// The cell after `val` has been published for the system.
    pub open spec fn for_system(val: T) -> Self {
        SwapView { state: SwapState::ReadyForSystem, value: Some(val) }
    }

    /// What an attempt of the client to take the value returns.
    pub open spec fn taken(self) -> Option<T> {
        if self.state == SwapState::ReadyForClient {
            self.value
        } else {
            None
        }
    }

    /// The cell after an attempt of the client to take the value.
    pub open spec fn after_take(self) -> Self {
        if self.state == SwapState::ReadyForClient {
            Self::empty()
        } else {
            self
        }
    }

    /// Whether an attempt of the system to swap succeeds.
    pub open spec fn swaps(self) -> bool {
        self.state == SwapState::ReadyForSystem
    }

    /// The cell after an attempt of the system to swap `slot` in.
    pub open spec fn after_swap(self, slot: T) -> Self {
        if self.swaps() {
            Self::for_client(slot)
        } else {
            self
        }
    }

    /// What the system holds after an attempt to swap `slot` in.
    pub open spec fn swapped_out(self, slot: T) -> T {
        if self.swaps() {
            self.value.unwrap()
        } else {
            slot
        }
    }
}

/// A single slot through which a client and the system pass a value to each
/// other: the client publishes a finished value for the system, and the
/// system swaps it for the one that it is done with, which the client then
/// takes back to use again.
///
/// Exactly one party stands on each side.
pub struct SwapCell<T> {
    state: SwapState,
    value: Option<T>,
}

impl<T> View for SwapCell<T> {
    type V = SwapView<T>;

    closed spec fn view(&self) -> SwapView<T> {
        SwapView { state: self.state, value: self.value }
    }
}

impl<T> SwapCell<T> {
    #[verifier::type_invariant]
    spec fn well_formed(self) -> bool {
        (self.state == SwapState::Taken) == self.value.is_none()
    }

    /// An empty cell.
    pub fn new() -> (r: Self)
        ensures
            r@ == SwapView::<T>::empty(),
    {
        SwapCell { state: SwapState::Taken, value: None }
    }

    /// Makes a value available for the client.
    pub fn set_for_client(&mut self, val: T)
        ensures
            final(self)@ == SwapView::for_client(val),
    {
        *self = SwapCell { state: SwapState::ReadyForClient, value: Some(val) };
    }

    /// Makes a value available for the system.
    pub fn set_for_system(&mut self, val: T)
        ensures
            final(self)@ == SwapView::for_system(val),
    {
        *self = SwapCell { state: SwapState::ReadyForSystem, value: Some(val) };
    }

    /// Whether a value waits for the client.
    pub fn ready_for_client(&self) -> (r: bool)
        ensures
            r == (self@.state == SwapState::ReadyForClient),
            r == self@.taken().is_some(),
    {
        proof {
            use_type_invariant(self);
        }
        self.state == SwapState::ReadyForClient
    }

    /// Whether a value waits for the system.
    pub fn ready_for_system(&self) -> (r: bool)
        ensures
            r == self@.swaps(),
    {
        self.state == SwapState::ReadyForSystem
    }

    /// Takes the value if it is ready for the client, leaving the cell
    /// empty. Otherwise returns `None` and leaves the cell as it is: the
    /// client then has to wait for the next value to be published.
    pub fn try_take(&mut self) -> (r: Option<T>)
        ensures
            r == old(self)@.taken(),
            final(self)@ == old(self)@.after_take(),
            r.is_some() == (old(self)@.state == SwapState::ReadyForClient),
    {
        proof {
            use_type_invariant(&*self);
        }
        if self.state == SwapState::ReadyForClient {
            let mut taken = SwapCell { state: SwapState::Taken, value: None };
            core::mem::swap(self, &mut taken);
            taken.value
        } else {
            None
        }
    }

    /// Takes the value of a cell that is ready for the client, leaving the
    /// cell empty. Whoever calls this has waited for the cell to be ready.
    pub fn take_blocking(&mut self) -> (r: T)
        requires
            old(self)@.state == SwapState::ReadyForClient,
        ensures
            Some(r) == old(self)@.taken(),
            final(self)@ == old(self)@.after_take(),
    {
        proof {
            use_type_invariant(&*self);
        }
        let mut taken = SwapCell { state: SwapState::Taken, value: None };
        core::mem::swap(self, &mut taken);
        taken.value.unwrap()
    }

    /// Swaps the value for `slot` where one is ready for the system.
    pub fn swap_by_system(&mut self, slot: &mut T)
        requires
            old(self)@.swaps(),
        ensures
            *final(slot) == old(self)@.swapped_out(*old(slot)),
            final(self)@ == old(self)@.after_swap(*old(slot)),
    {
        proof {
            use_type_invariant(&*self);
        }
        let mut held = SwapCell { state: SwapState::Taken, value: None };
        core::mem::swap(self, &mut held);
        let mut value = held.value.unwrap();
        core::mem::swap(&mut value, slot);
        *self = SwapCell { state: SwapState::ReadyForClient, value: Some(value) };
    }

    /// Swaps the value for `slot` if one is ready for the system.
    ///
    /// Returns `true` if the values were swapped; what was in `slot` is
    /// then ready for the client, who should be woken. Otherwise nothing
    /// changes.
    pub fn try_swap_by_system(&mut self, slot: &mut T) -> (r: bool)
        ensures
            r == old(self)@.swaps(),
            *final(slot) == old(self)@.swapped_out(*old(slot)),
            final(self)@ == old(self)@.after_swap(*old(slot)),
    {
        if self.ready_for_system() {
            self.swap_by_system(slot);
            true
        } else {
            false
        }
    }
}

/// A value that is published for the client is taken exactly once: the
/// first attempt returns it, and every further attempt returns nothing and
/// changes nothing, until the next value is published.
pub proof fn lemma_taken_once<T>(val: T, next: T)
    ensures
        SwapView::for_client(val).taken() == Some(val),
        SwapView::for_client(val).after_take().taken().is_none(),
        SwapView::for_client(val).after_take().after_take() == SwapView::for_client(
            val,
        ).after_take(),
        SwapView::for_client(next).taken() == Some(next),
{
}

/// A value that is published for the system reaches the system with its
/// next attempt to swap, and what the system gave for it then waits for the
/// client. Until the client publishes again the system keeps what it has.
pub proof fn lemma_swapped_once<T>(published: T, held: T)
    ensures
        SwapView::for_system(published).swaps(),
        SwapView::for_system(published).swapped_out(held) == published,
        SwapView::for_system(published).after_swap(held).taken() == Some(held),
        !SwapView::for_system(published).after_swap(held).swaps(),
        !SwapView::<T>::empty().swaps(),
        SwapView::<T>::empty().taken().is_none(),
{
}

} // verus!
