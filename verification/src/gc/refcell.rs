//! A cell whose borrows are tracked at run time, so the collector can tell
//! whether its contents are being written.
//!
//! Borrows are handed out as guards: a [`GcRef`] for shared access and a
//! [`GcMut`] for exclusive access. Each guard carries the identity of the
//! cell that made it, and only that cell reads through it or takes it back,
//! with [`GcRefCell::release`] or [`GcRefCell::release_mut`], which restores
//! the counter.

use vstd::prelude::*;

verus! {

/// Observable borrow state of a [`GcRefCell`].
#[derive(Debug, Clone, PartialEq, Eq, Structural)]
pub enum BorrowState {
    Unused,
    Reading,
    Writing,
}

/// The counter value meaning "not borrowed". Positive values count shared
/// borrows, a negative value marks an exclusive borrow.
const UNUSED: isize = 0;

/// A cell that counts its outstanding borrows.
pub struct GcRefCell<T> {
    borrow: isize,
    value: T,
    id: Ghost<int>,
}

/// The error of a shared borrow while the cell is written.
#[derive(Debug)]
pub struct GcBorrowError {}

/// The error of an exclusive borrow while the cell is read or written.
#[derive(Debug)]
pub struct GcBorrowMutError {}

/// A shared borrow of a [`GcRefCell`]. Only a cell can make one.
pub struct GcRef {
    sealed: (),
    cell: Ghost<int>,
}

/// An exclusive borrow of a [`GcRefCell`]. Only a cell can make one.
pub struct GcMut {
    sealed: (),
    cell: Ghost<int>,
}

impl GcRef {
    /// The identity of the cell that made this guard.
    pub closed spec fn cell_id(&self) -> int {
        self.cell@
    }
}

impl GcMut {
    /// The identity of the cell that made this guard.
    pub closed spec fn cell_id(&self) -> int {
        self.cell@
    }
}

/// The identity of a new cell. Callers learn nothing of it, so no two cells
/// are known to share one.
proof fn fresh_cell_id() -> (id: int) {
    0
}

/// The model of a cell: its borrow counter and its contents.
pub struct CellView<T> {
    pub borrow: int,
    pub value: T,
}

/// The borrow state that a counter value stands for.
pub open spec fn state_of(borrow: int) -> BorrowState {
    if borrow < 0 {
        BorrowState::Writing
    } else if borrow > 0 {
        BorrowState::Reading
    } else {
        BorrowState::Unused
    }
}

impl<T> View for GcRefCell<T> {
    type V = CellView<T>;

    closed spec fn view(&self) -> CellView<T> {
        CellView { borrow: self.borrow as int, value: self.value }
    }
}

impl<T> GcRefCell<T> {
    /// The identity of the cell, which its guards carry.
    pub closed spec fn id(&self) -> int {
        self.id@
    }

    /// The counter stays within the values that borrows can produce.
    pub closed spec fn wf(&self) -> bool {
        self.borrow >= -1
    }

    /// The counter is well formed exactly when its model is at least -1.
    pub proof fn lemma_wf_view(&self)
        ensures
            self.wf() <==> self@.borrow >= -1,
    {
    }

    /// A cell holding `value`, not borrowed.
    pub fn new(value: T) -> (cell: Self)
        ensures
            cell.wf(),
            cell@.borrow == 0,
            cell@.value == value,
    {
        let ghost id = fresh_cell_id();
        GcRefCell { borrow: UNUSED, value, id: Ghost(id) }
    }

    /// The current borrow state.
    pub fn state(&self) -> (state: BorrowState)
        ensures
            state == state_of(self@.borrow),
    {
        let borrow = self.borrow;
        if borrow < UNUSED {
            BorrowState::Writing
        } else if borrow > UNUSED {
            BorrowState::Reading
        } else {
            BorrowState::Unused
        }
    }

    /// Take a shared borrow; fails while the cell is written.
    pub fn try_borrow(&mut self) -> (res: Result<GcRef, GcBorrowError>)
        requires
            old(self).wf(),
            old(self)@.borrow < isize::MAX,
        ensures
            final(self).wf(),
            final(self)@.value == old(self)@.value,
            res is Ok <==> old(self)@.borrow >= 0,
            res is Ok ==> final(self)@.borrow == old(self)@.borrow + 1,
            res matches Ok(g) ==> g.cell_id() == old(self).id(),
            final(self).id() == old(self).id(),
            res is Err ==> final(self)@.borrow == old(self)@.borrow,
    {
        if self.borrow < UNUSED {
            return Err(GcBorrowError {});
        }
        self.borrow = self.borrow + 1;
        Ok(GcRef { sealed: (), cell: self.id })
    }

    /// Take a shared borrow of a cell that is not written.
    pub fn borrow(&mut self) -> (guard: GcRef)
        requires
            old(self).wf(),
            0 <= old(self)@.borrow < isize::MAX,
        ensures
            final(self).wf(),
            final(self)@.value == old(self)@.value,
            final(self)@.borrow == old(self)@.borrow + 1,
            guard.cell_id() == old(self).id(),
            final(self).id() == old(self).id(),
    {
        match self.try_borrow() {
            Ok(guard) => guard,
            Err(_) => {
                assert(false);
                GcRef { sealed: (), cell: self.id }
            },
        }
    }

    /// Take an exclusive borrow; fails while the cell is read or written.
    pub fn try_borrow_mut(&mut self) -> (res: Result<GcMut, GcBorrowMutError>)
        requires
            old(self).wf(),
        ensures
            final(self).wf(),
            final(self)@.value == old(self)@.value,
            res is Ok <==> old(self)@.borrow == 0,
            res is Ok ==> final(self)@.borrow == -1,
            res matches Ok(g) ==> g.cell_id() == old(self).id(),
            final(self).id() == old(self).id(),
            res is Err ==> final(self)@.borrow == old(self)@.borrow,
    {
        if self.borrow < UNUSED || self.borrow > UNUSED {
            return Err(GcBorrowMutError {});
        }
        self.borrow = self.borrow - 1;
        Ok(GcMut { sealed: (), cell: self.id })
    }

    /// Take an exclusive borrow of a cell that is not borrowed.
    pub fn borrow_mut(&mut self) -> (guard: GcMut)
        requires
            old(self).wf(),
            old(self)@.borrow == 0,
        ensures
            final(self).wf(),
            final(self)@.value == old(self)@.value,
            final(self)@.borrow == -1,
            guard.cell_id() == old(self).id(),
            final(self).id() == old(self).id(),
    {
        match self.try_borrow_mut() {
            Ok(guard) => guard,
            Err(_) => {
                assert(false);
                GcMut { sealed: (), cell: self.id }
            },
        }
    }

    /// Give back a shared borrow.
    pub fn release(&mut self, guard: GcRef)
        requires
            old(self).wf(),
            old(self)@.borrow > 0,
            guard.cell_id() == old(self).id(),
        ensures
            final(self).id() == old(self).id(),
            final(self).wf(),
            final(self)@.value == old(self)@.value,
            final(self)@.borrow == old(self)@.borrow - 1,
    {
        self.borrow = self.borrow - 1;
    }

    /// Give back an exclusive borrow.
    pub fn release_mut(&mut self, guard: GcMut)
        requires
            old(self).wf(),
            old(self)@.borrow == -1,
            guard.cell_id() == old(self).id(),
        ensures
            final(self).id() == old(self).id(),
            final(self).wf(),
            final(self)@.value == old(self)@.value,
            final(self)@.borrow == 0,
    {
        self.borrow = self.borrow + 1;
    }

    /// The contents, read without taking a borrow.
    pub(crate) fn peek(&self) -> (value: &T)
        ensures
            *value == self@.value,
    {
        &self.value
    }

    /// Read the contents through a shared borrow.
    pub fn get(&self, guard: &GcRef) -> (value: &T)
        requires
            self@.borrow > 0,
            guard.cell_id() == self.id(),
        ensures
            *value == self@.value,
    {
        &self.value
    }

    /// Read the contents through an exclusive borrow.
    pub fn get_write(&self, guard: &GcMut) -> (value: &T)
        requires
            self@.borrow == -1,
            guard.cell_id() == self.id(),
        ensures
            *value == self@.value,
    {
        &self.value
    }

    /// Write the contents through an exclusive borrow.
    pub fn get_mut(&mut self, guard: &GcMut) -> (value: &mut T)
        requires
            old(self)@.borrow == -1,
            guard.cell_id() == old(self).id(),
        ensures
            final(self).id() == old(self).id(),
            *value == old(self)@.value,
            final(self)@.value == *final(value),
            final(self)@.borrow == old(self)@.borrow,
            final(self).wf() == old(self).wf(),
    {
        &mut self.value
    }
}

} // verus!
