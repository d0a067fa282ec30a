//! The shared memory that the lock protocols act on: a vector of machine
//! words, changed only by single atomic operations.
use vstd::prelude::*;

verus! {

/// The word that stands for a null pointer.  Cell 0 of every lock's memory
/// is a fixed variable of the lock, so no node is ever allocated there.
pub const NULL: usize = 0;

/// One atomic operation on the shared memory.
///
/// The cell arguments are indices into the memory; `Alloc` appends a
/// two-word node and yields the index of its first word.
#[derive(Clone, Copy, Debug, PartialEq, Eq)]
pub enum MemOp {
    /// Read a cell.
    Load(usize),
    /// Write a value into a cell; yields 0.
    Store(usize, usize),
    /// Write a value into a cell and yield the value it held.
    Swap(usize, usize),
    /// Or a value into a cell and yield the value it held.
    FetchOr(usize, usize),
    /// Add a value to a cell, wrapping around, and yield the value it held.
    FetchAdd(usize, usize),
    /// Write `new` into the cell if it holds `current`; yields the value it held.
    CompareExchange(usize, usize, usize),
    /// Allocate a node whose two words hold the given values; yields its index.
    Alloc(usize, usize),
    /// Back off for a while without touching memory; yields 0.
    Snooze,
}

/// Addition on machine words, wrapping around at `usize::MAX`.
pub open spec fn wrap_add(x: usize, y: usize) -> usize {
    if x + y <= usize::MAX {
        (x + y) as usize
    } else {
        (x + y - usize::MAX - 1) as usize
    }
}

/// `op` names only cells that exist, and an allocation still fits.
pub open spec fn op_ok(cells: Seq<usize>, op: MemOp) -> bool {
    match op {
        MemOp::Load(c) => c < cells.len(),
        MemOp::Store(c, _) => c < cells.len(),
        MemOp::Swap(c, _) => c < cells.len(),
        MemOp::FetchOr(c, _) => c < cells.len(),
        MemOp::FetchAdd(c, _) => c < cells.len(),
        MemOp::CompareExchange(c, _, _) => c < cells.len(),
        MemOp::Alloc(_, _) => cells.len() + 2 <= usize::MAX,
        MemOp::Snooze => true,
    }
}

/// What `op` yields when applied to `cells`.
pub open spec fn op_result(cells: Seq<usize>, op: MemOp) -> usize {
    match op {
        MemOp::Load(c) => cells[c as int],
        MemOp::Store(_, _) => 0,
        MemOp::Swap(c, _) => cells[c as int],
        MemOp::FetchOr(c, _) => cells[c as int],
        MemOp::FetchAdd(c, _) => cells[c as int],
        MemOp::CompareExchange(c, _, _) => cells[c as int],
        MemOp::Alloc(_, _) => cells.len() as usize,
        MemOp::Snooze => 0,
    }
}

/// The memory after `op` is applied to `cells`.
pub open spec fn op_effect(cells: Seq<usize>, op: MemOp) -> Seq<usize> {
    match op {
        MemOp::Load(_) => cells,
        MemOp::Store(c, v) => cells.update(c as int, v),
        MemOp::Swap(c, v) => cells.update(c as int, v),
        MemOp::FetchOr(c, v) => cells.update(c as int, cells[c as int] | v),
        MemOp::FetchAdd(c, v) => cells.update(c as int, wrap_add(cells[c as int], v)),
        MemOp::CompareExchange(c, cur, new) => if cells[c as int] == cur {
            cells.update(c as int, new)
        } else {
            cells
        },
        MemOp::Alloc(a, b) => cells.push(a).push(b),
        MemOp::Snooze => cells,
    }
}

/// A shared memory of machine words.
pub struct Memory {
    cells: Vec<usize>,
}

impl View for Memory {
    type V = Seq<usize>;

    closed spec fn view(&self) -> Seq<usize> {
        self.cells@
    }
}

impl Memory {
    /// A memory of `len` cells that all hold 0.
    pub fn new(len: usize) -> (m: Memory)
        ensures
            m@ == Seq::new(len as nat, |i: int| 0usize),
    {
        let mut cells: Vec<usize> = Vec::new();
        while cells.len() < len
            invariant
                cells.len() <= len,
                forall|i: int| 0 <= i < cells.len() ==> cells@[i] == 0,
            decreases len - cells.len(),
        {
            cells.push(0);
        }
        let m = Memory { cells };
        assert(m@ =~= Seq::new(len as nat, |i: int| 0usize));
        m
    }

    /// A memory never holds more cells than a machine word can count.
    pub proof fn lemma_len_bound(&self)
        ensures
            self@.len() <= usize::MAX,
    {
        assert(self.cells@.len() == self.cells.len());
    }

    /// The number of cells.
    pub fn len(&self) -> (n: usize)
        ensures
            n == self@.len(),
    {
        self.cells.len()
    }

    /// The value of cell `c`.
    pub fn read(&self, c: usize) -> (v: usize)
        requires
            c < self@.len(),
        ensures
            v == self@[c as int],
    {
        self.cells[c]
    }

    /// Writes `v` into cell `c`.
    pub fn write(&mut self, c: usize, v: usize)
        requires
            c < old(self)@.len(),
        ensures
            final(self)@ == old(self)@.update(c as int, v),
    {
        self.cells.set(c, v);
    }

    /// Applies one atomic operation and yields what it yields.
    pub fn apply(&mut self, op: MemOp) -> (r: usize)
        requires
            op_ok(old(self)@, op),
        ensures
            r == op_result(old(self)@, op),
            final(self)@ == op_effect(old(self)@, op),
    {
        match op {
            MemOp::Load(c) => self.cells[c],
            MemOp::Store(c, v) => {
                self.cells.set(c, v);
                0
            },
            MemOp::Swap(c, v) => {
                let prev = self.cells[c];
                self.cells.set(c, v);
                prev
            },
            MemOp::FetchOr(c, v) => {
                let prev = self.cells[c];
                self.cells.set(c, prev | v);
                prev
            },
            MemOp::FetchAdd(c, v) => {
                let prev = self.cells[c];
                let next = if prev <= usize::MAX - v {
                    prev + v
                } else {
                    v - (usize::MAX - prev) - 1
                };
                self.cells.set(c, next);
                prev
            },
            MemOp::CompareExchange(c, cur, new) => {
                let prev = self.cells[c];
                if prev == cur {
                    self.cells.set(c, new);
                }
                prev
            },
            MemOp::Alloc(a, b) => {
                let at = self.cells.len();
                self.cells.push(a);
                self.cells.push(b);
                at
            },
            MemOp::Snooze => 0,
        }
    }
}

/// A flag word that holds 1 keeps holding 1 when 1 is or-ed into it, and a
/// flag word that holds 0 becomes 1.
pub proof fn lemma_or_one(x: usize)
    requires
        x <= 1,
    ensures
        x | 1usize == 1usize,
{
    assert(x <= 1 ==> x | 1usize == 1usize) by (bit_vector);
}

} // verus!
