//! The abstract state of a slotted vector, and what each operation makes of it.

use vstd::prelude::*;

verus! {

/// Abstract state of a slotted vector.
#[verifier::ext_equal]
pub struct Slots<T> {
    /// One entry per index ever handed out: `Some(v)` where the slot holds
    /// `v`, `None` where it is vacant.
    pub cells: Seq<Option<T>>,
    /// The vacant indices in the order in which insertions will reuse them:
    /// the most recently vacated slot comes first.
    pub vacant: Seq<int>,
}

/// One state-changing operation of a slotted vector.
pub enum Op<T> {
    /// Insert a value.
    Push(T),
    /// Remove the value at an index.
    Pop(int),
    /// Overwrite the value at an index through a mutable reference.
    Write(int, T),
}

impl<T> Slots<T> {
    /// `vacant` lists exactly the indices of the empty cells, each of them once.
    pub open spec fn wf(self) -> bool {
        &&& forall|k: int|
            0 <= k < self.vacant.len() ==> 0 <= #[trigger] self.vacant[k] < self.cells.len()
                && self.cells[self.vacant[k]] is None
        &&& self.vacant.no_duplicates()
        &&& forall|i: int|
            0 <= i < self.cells.len() && (#[trigger] self.cells[i]) is None ==> self.vacant.contains(
                i,
            )
    }

    /// The state of a freshly created vector: no slot was ever handed out.
    pub open spec fn empty() -> Self {
        Slots { cells: Seq::empty(), vacant: Seq::empty() }
    }

    /// Exclusive upper bound of the indices that were ever handed out.
    pub open spec fn upper_bound(self) -> nat {
        self.cells.len()
    }

    /// The value stored at `index`, or `None` where `index` is out of bounds
    /// or its slot is vacant.
    pub open spec fn get(self, index: int) -> Option<T> {
        if 0 <= index < self.cells.len() {
            self.cells[index]
        } else {
            None
        }
    }

    /// Whether `index` currently holds a value.
    pub open spec fn occupied(self, index: int) -> bool {
        self.get(index) is Some
    }

    /// The index at which the next insertion places its value: the most
    /// recently vacated slot, or a fresh slot at the end where none is vacant.
    pub open spec fn next_index(self) -> int {
        if self.vacant.len() > 0 {
            self.vacant[0]
        } else {
            self.cells.len() as int
        }
    }

    /// The state after inserting `value`.
    pub open spec fn push(self, value: T) -> Self {
        if self.vacant.len() > 0 {
            Slots {
                cells: self.cells.update(self.vacant[0], Some(value)),
                vacant: self.vacant.drop_first(),
            }
        } else {
            Slots { cells: self.cells.push(Some(value)), vacant: self.vacant }
        }
    }

    /// The state after removing the value at `index`. Nothing changes where
    /// `index` holds no value.
    pub open spec fn pop(self, index: int) -> Self {
        if self.occupied(index) {
            Slots {
                cells: self.cells.update(index, None),
                vacant: seq![index] + self.vacant,
            }
        } else {
            self
        }
    }

    /// The state after overwriting the value at `index` in place. Nothing
    /// changes where `index` holds no value.
    pub open spec fn write(self, index: int, value: T) -> Self {
        if self.occupied(index) {
            Slots { cells: self.cells.update(index, Some(value)), vacant: self.vacant }
        } else {
            self
        }
    }

    /// The state after inserting `values` one after the other, first to last.
    pub open spec fn push_all(self, values: Seq<T>) -> Self
        decreases values.len(),
    {
        if values.len() == 0 {
            self
        } else {
            self.push_all(values.drop_last()).push(values.last())
        }
    }

    /// The state after removing the indices `0, 1, ..., count - 1`, in
    /// ascending order.
    pub open spec fn pop_below(self, count: nat) -> Self
        decreases count,
    {
        if count == 0 {
            self
        } else {
            self.pop_below((count - 1) as nat).pop(count - 1)
        }
    }

    /// The state after one operation.
    pub open spec fn apply(self, op: Op<T>) -> Self {
        match op {
            Op::Push(value) => self.push(value),
            Op::Pop(index) => self.pop(index),
            Op::Write(index, value) => self.write(index, value),
        }
    }

    /// The state after the operations `ops`, carried out first to last.
    pub open spec fn run(self, ops: Seq<Op<T>>) -> Self
        decreases ops.len(),
    {
        if ops.len() == 0 {
            self
        } else {
            self.run(ops.drop_last()).apply(ops.last())
        }
    }
}

} // verus!
