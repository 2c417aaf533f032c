use vstd::prelude::*;

verus! {

/// The error of a move that would need one cell more than the tape may hold.
#[derive(Debug, Clone, Copy, PartialEq, Eq, Structural)]
pub struct MaxSizeExceeded;

impl MaxSizeExceeded {
    /// The text shown for this error.
    pub fn message(&self) -> (text: &'static str)
        ensures
            text@ == "The maximum size specified when creating the tape would be exceededby the operation."@,
    {
        "The maximum size specified when creating the tape would be exceededby the operation."
    }
}

/// The mathematical content of a [`Tape`].
///
/// `right[i]` is the cell at address `i` (so `right[0]` is the origin) and
/// `left[i]` is the cell at address `-i - 1`. Cells outside both sequences
/// have never been visited and read as zero.
pub struct TapeView {
    pub left: Seq<u8>,
    pub right: Seq<u8>,
    pub pointer: int,
    pub max_size: nat,
}

impl TapeView {
    /// A tape as it is before the first instruction: one zero cell at the
    /// origin, with the pointer on it.
    pub open spec fn fresh(max_size: nat) -> TapeView {
        TapeView { left: Seq::empty(), right: seq![0u8], pointer: 0, max_size }
    }

    /// The number of cells that have been allocated.
    pub open spec fn allocated(self) -> nat {
        self.left.len() + self.right.len()
    }

    /// The invariant of a tape: the origin exists, the allocated cells stay
    /// within the cap, and the pointer is on an allocated cell.
    pub open spec fn wf(self) -> bool {
        &&& self.right.len() >= 1
        &&& self.allocated() <= self.max_size
        &&& -self.left.len() <= self.pointer < self.right.len()
    }

    /// The byte at address `at` of the unbounded logical tape.
    pub open spec fn cell(self, at: int) -> u8 {
        if 0 <= at < self.right.len() {
            self.right[at]
        } else if -self.left.len() <= at < 0 {
            self.left[-at - 1]
        } else {
            0
        }
    }

    /// The byte under the pointer.
    pub open spec fn current(self) -> u8 {
        self.cell(self.pointer)
    }

    /// This tape with the byte under the pointer replaced by `value`.
    pub open spec fn with_current(self, value: u8) -> TapeView {
        if self.pointer >= 0 {
            TapeView { right: self.right.update(self.pointer, value), ..self }
        } else {
            TapeView { left: self.left.update(-self.pointer - 1, value), ..self }
        }
    }

    /// No further cell may be allocated.
    pub open spec fn full(self) -> bool {
        self.allocated() >= self.max_size
    }

    /// The pointer is on the leftmost allocated cell.
    pub open spec fn at_left_edge(self) -> bool {
        self.pointer == -self.left.len()
    }

    /// The pointer is on the rightmost allocated cell.
    pub open spec fn at_right_edge(self) -> bool {
        self.pointer == self.right.len() - 1
    }

    /// The tape after a move to the left, or `None` where the move needs a
    /// new cell and the tape is full.
    pub open spec fn moved_left(self) -> Option<TapeView> {
        if !self.at_left_edge() {
            Some(TapeView { pointer: self.pointer - 1, ..self })
        } else if self.full() {
            None
        } else {
            Some(TapeView { left: self.left.push(0u8), pointer: self.pointer - 1, ..self })
        }
    }

    /// The tape after a move to the right, or `None` where the move needs a
    /// new cell and the tape is full.
    pub open spec fn moved_right(self) -> Option<TapeView> {
        if !self.at_right_edge() {
            Some(TapeView { pointer: self.pointer + 1, ..self })
        } else if self.full() {
            None
        } else {
            Some(TapeView { right: self.right.push(0u8), pointer: self.pointer + 1, ..self })
        }
    }
}

/// The byte after `value` in 8-bit wraparound arithmetic.
pub open spec fn wrapping_succ(value: u8) -> u8 {
    if value == 255 {
        0
    } else {
        (value + 1) as u8
    }
}

/// The byte before `value` in 8-bit wraparound arithmetic.
pub open spec fn wrapping_pred(value: u8) -> u8 {
    if value == 0 {
        255
    } else {
        (value - 1) as u8
    }
}

/// The machine's memory: byte cells addressed by a signed pointer, allocated
/// on first visit and capped at `max_size` cells in total.
pub struct Tape {
    left: Vec<u8>,
    right: Vec<u8>,
    pointer: i64,
    max_size: usize,
}

impl View for Tape {
    type V = TapeView;

    closed spec fn view(&self) -> TapeView {
        TapeView {
            left: self.left@,
            right: self.right@,
            pointer: self.pointer as int,
            max_size: self.max_size as nat,
        }
    }
}

impl Tape {
    /// The tape's invariant, with the bound that lets every allocated cell
    /// have an address in `i64`.
    pub open spec fn wf(&self) -> bool {
        &&& self@.wf()
        &&& self@.max_size <= i64::MAX
    }

    /// A tape of one zero cell that may grow to `max_size` cells.
    pub fn new(max_size: usize) -> (tape: Tape)
        requires
            1 <= max_size <= i64::MAX,
        ensures
            tape.wf(),
            tape@ == TapeView::fresh(max_size as nat),
    {
        let tape = Tape { left: Vec::new(), right: vec![0], pointer: 0, max_size };
        assert(tape@.right =~= seq![0u8]);
        tape
    }

    /// The signed address of the cell under the pointer.
    pub fn pointer(&self) -> (pointer: i64)
        ensures
            pointer == self@.pointer,
    {
        self.pointer
    }

    /// The cap on the number of allocated cells.
    pub fn max_size(&self) -> (max_size: usize)
        ensures
            max_size == self@.max_size,
    {
        self.max_size
    }

    /// The number of cells allocated so far.
    pub fn len(&self) -> (len: usize)
        requires
            self.wf(),
        ensures
            len == self@.allocated(),
    {
        self.left.len() + self.right.len()
    }

    /// A move to the left would succeed: the cell there is allocated, or the
    /// tape has room for it.
    pub fn can_move_left(&self) -> (can: bool)
        requires
            self.wf(),
        ensures
            can == self@.moved_left() is Some,
    {
        self.pointer > 0 || self.left.len() > (-self.pointer) as usize || self.left.len()
            + self.right.len() < self.max_size
    }

    /// A move to the right would succeed: the cell there is allocated, or
    /// the tape has room for it.
    pub fn can_move_right(&self) -> (can: bool)
        requires
            self.wf(),
        ensures
            can == self@.moved_right() is Some,
    {
        self.pointer < 0 || self.right.len() - 1 > self.pointer as usize || self.left.len()
            + self.right.len() < self.max_size
    }

    /// The cell under the pointer.
    pub fn val(&self) -> (cell: &u8)
        requires
            self.wf(),
        ensures
            *cell == self@.current(),
    {
        if self.pointer < 0 {
            let p: usize = (-(self.pointer + 1)) as usize;
            &self.left[p]
        } else {
            let p: usize = self.pointer as usize;
            &self.right[p]
        }
    }

    /// The cell under the pointer, for writing: what the caller leaves in it
    /// is the new content of that cell, and nothing else changes.
    pub fn val_mut(&mut self) -> (cell: &mut u8)
        requires
            old(self).wf(),
        ensures
            *cell == old(self)@.current(),
            final(self)@ == old(self)@.with_current(*final(cell)),
            final(self).wf(),
    {
        if self.pointer < 0 {
            let p: usize = (-(self.pointer + 1)) as usize;
            &mut self.left[p]
        } else {
            let p: usize = self.pointer as usize;
            &mut self.right[p]
        }
    }

    /// Overwrites the cell under the pointer.
    pub fn write(&mut self, c: u8)
        requires
            old(self).wf(),
        ensures
            final(self).wf(),
            final(self)@ == old(self)@.with_current(c),
    {
        *self.val_mut() = c;
    }

    /// The byte under the pointer.
    pub fn read(&self) -> (value: u8)
        requires
            self.wf(),
        ensures
            value == self@.current(),
    {
        *self.val()
    }

    /// Adds one to the cell under the pointer; 255 becomes 0.
    pub fn increment(&mut self)
        requires
            old(self).wf(),
        ensures
            final(self).wf(),
            final(self)@ == old(self)@.with_current(wrapping_succ(old(self)@.current())),
    {
        let value = self.val().wrapping_add(1);
        *self.val_mut() = value;
    }

    /// Subtracts one from the cell under the pointer; 0 becomes 255.
    pub fn decrement(&mut self)
        requires
            old(self).wf(),
        ensures
            final(self).wf(),
            final(self)@ == old(self)@.with_current(wrapping_pred(old(self)@.current())),
    {
        let value = self.val().wrapping_sub(1);
        *self.val_mut() = value;
    }

    /// Moves the pointer one cell to the left. A cell that has not been
    /// visited before is allocated as zero; where that would exceed the cap
    /// the move fails and the tape is unchanged.
    pub fn move_left(&mut self) -> (result: Result<(), MaxSizeExceeded>)
        requires
            old(self).wf(),
        ensures
            final(self).wf(),
            match old(self)@.moved_left() {
                Some(moved) => result is Ok && final(self)@ == moved,
                None => result is Err && final(self)@ == old(self)@,
            },
    {
        if self.pointer <= 0 && self.left.len() <= (-self.pointer) as usize {
            if self.left.len() + self.right.len() >= self.max_size {
                return Err(MaxSizeExceeded);
            } else {
                self.left.push(0);
            }
        }
        self.pointer -= 1;
        Ok(())
    }

    /// Moves the pointer one cell to the right. A cell that has not been
    /// visited before is allocated as zero; where that would exceed the cap
    /// the move fails and the tape is unchanged.
    pub fn move_right(&mut self) -> (result: Result<(), MaxSizeExceeded>)
        requires
            old(self).wf(),
        ensures
            final(self).wf(),
            match old(self)@.moved_right() {
                Some(moved) => result is Ok && final(self)@ == moved,
                None => result is Err && final(self)@ == old(self)@,
            },
    {
        if self.pointer >= 0 && self.right.len() - 1 <= self.pointer as usize {
            if self.right.len() + self.left.len() >= self.max_size {
                return Err(MaxSizeExceeded);
            } else {
                self.right.push(0);
            }
        }
        self.pointer += 1;
        Ok(())
    }
}

} // verus!
