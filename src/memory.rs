use vstd::prelude::*;

verus! {

/// Why a pointer move or an indexed access into a [`Memory`] failed.
#[derive(Clone, Copy, Debug, PartialEq, Eq, Structural)]
pub enum AddressingError {
    /// The pointer would move below the first cell of a fixed memory.
    Underflow,
    /// The pointer would move past the last cell of a fixed memory.
    Overflow,
    /// An index (first) that is not below the length (second).
    OutOfBounds(usize, usize),
}

/// The abstract value of a [`Memory`]: its default cell value (present only
/// for an expanding memory), its cells and its pointer.
pub struct MemoryState<T> {
    pub default_value: Option<T>,
    pub cells: Seq<T>,
    pub pointer: int,
}

impl<T> MemoryState<T> {
    /// The pointer addresses a cell; only a fixed memory with no cells at all
    /// has none to address, and then it stays at zero.
    pub open spec fn wf(self) -> bool {
        &&& 0 <= self.pointer
        &&& self.pointer < self.cells.len() || (self.cells.len() == 0 && self.pointer == 0
            && self.default_value is None)
    }

    pub open spec fn is_expanding(self) -> bool {
        self.default_value is Some
    }

    /// The value under the pointer.
    pub open spec fn current(self) -> T {
        self.cells[self.pointer]
    }

    /// `n` copies of `v`.
    pub open spec fn fill(v: T, n: int) -> Seq<T> {
        Seq::new(n as nat, |_i: int| v)
    }

    /// What moving the pointer by `offset` gives: an expanding memory grows by
    /// copies of its default value at the end that the pointer falls off; a
    /// fixed memory refuses the move.
    pub open spec fn moved(self, offset: int) -> Result<MemoryState<T>, AddressingError> {
        let target = self.pointer + offset;
        if target < 0 {
            match self.default_value {
                Some(d) => Ok(
                    MemoryState {
                        default_value: self.default_value,
                        cells: Self::fill(d, -target) + self.cells,
                        pointer: 0,
                    },
                ),
                None => Err(AddressingError::Underflow),
            }
        } else if target >= self.cells.len() {
            match self.default_value {
                Some(d) => Ok(
                    MemoryState {
                        default_value: self.default_value,
                        cells: self.cells + Self::fill(d, target - self.cells.len() + 1),
                        pointer: target,
                    },
                ),
                None => Err(AddressingError::Overflow),
            }
        } else {
            Ok(MemoryState { pointer: target, ..self })
        }
    }
}

/// A sequence of cells with a pointer into it. An expanding memory grows
/// whenever its pointer moves beyond either end; a fixed one never changes
/// its length.
pub struct Memory<T> {
    default_value: Option<T>,
    data: Vec<T>,
    pointer: usize,
}

impl<T> View for Memory<T> {
    type V = MemoryState<T>;

    closed spec fn view(&self) -> MemoryState<T> {
        MemoryState {
            default_value: self.default_value,
            cells: self.data@,
            pointer: self.pointer as int,
        }
    }
}

impl<T> Memory<T> {
    /// A memory of one cell holding `default_value`, growing with copies of it.
    pub fn expanding(default_value: T) -> (r: Self)
        where
            T: Copy,
        ensures
            r@ == (MemoryState {
                default_value: Some(default_value),
                cells: seq![default_value],
                pointer: 0,
            }),
            r@.wf(),
    {
        let mut data: Vec<T> = Vec::new();
        data.push(default_value);
        Memory { default_value: Some(default_value), data, pointer: 0 }
    }

    /// A memory that holds exactly `data`, and never grows.
    pub fn fixed(data: Vec<T>) -> (r: Self)
        where
            T: Copy,
        ensures
            r@ == (MemoryState { default_value: None, cells: data@, pointer: 0 }),
            r@.wf(),
    {
        Memory { default_value: None, data, pointer: 0 }
    }

    pub fn get_pointer(&self) -> (r: usize)
        ensures
            r == self@.pointer,
    {
        self.pointer
    }

    /// Puts the pointer on the cell at `pointer`, which must exist.
    pub fn set_pointer(&mut self, pointer: usize)
        requires
            pointer < old(self)@.cells.len(),
        ensures
            final(self)@ == (MemoryState { pointer: pointer as int, ..old(self)@ }),
    {
        self.pointer = pointer;
    }
    /// Moves the pointer by `offset`, growing an expanding memory as needed;
    /// on a fixed memory a move outside the cells fails and changes nothing.
    pub fn move_pointer(&mut self, offset: isize) -> (r: Result<(), AddressingError>)
        where
            T: Copy,
        requires
            old(self)@.wf(),
        ensures
            final(self)@.wf(),
            match old(self)@.moved(offset as int) {
                Ok(s) => r is Ok && final(self)@ == s,
                Err(e) => r == Err::<(), AddressingError>(e) && final(self)@ == old(self)@,
            },
    {
        let target: i128 = self.pointer as i128 + offset as i128;
        if target < 0 {
            match self.default_value {
                Some(d) => {
                    let count: usize = (-target) as usize;
                    let mut cells: Vec<T> = Vec::new();
                    let mut i: usize = 0;
                    while i < count
                        invariant
                            i <= count,
                            cells@ == MemoryState::fill(d, i as int),
                        decreases count - i,
                    {
                        cells.push(d);
                        i = i + 1;
                        assert(cells@ =~= MemoryState::fill(d, i as int));
                    }
                    cells.append(&mut self.data);
                    self.data = cells;
                    self.pointer = 0;
                },
                None => {
                    return Err(AddressingError::Underflow);
                },
            }
        } else if target >= self.data.len() as i128 {
            match self.default_value {
                Some(d) => {
                    let count: usize = (target - self.data.len() as i128 + 1) as usize;
                    let ghost start = self.data@;
                    let mut i: usize = 0;
                    while i < count
                        invariant
                            i <= count,
                            self.data@ == start + MemoryState::fill(d, i as int),
                            self.default_value == Some(d),
                        decreases count - i,
                    {
                        self.data.push(d);
                        i = i + 1;
                        assert(self.data@ =~= start + MemoryState::fill(d, i as int));
                    }
                    let len: usize = self.data.len();
                    assert(target < len);
                    self.pointer = target as usize;
                },
                None => {
                    return Err(AddressingError::Overflow);
                },
            }
        } else {
            self.pointer = target as usize;
        }
        Ok(())
    }

    /// Moves the pointer one cell to the right.
    pub fn next(&mut self) -> (r: Result<(), AddressingError>)
        where
            T: Copy,
        requires
            old(self)@.wf(),
        ensures
            final(self)@.wf(),
            match old(self)@.moved(1) {
                Ok(s) => r is Ok && final(self)@ == s,
                Err(e) => r == Err::<(), AddressingError>(e) && final(self)@ == old(self)@,
            },
    {
        self.move_pointer(1)
    }

    /// Moves the pointer one cell to the left.
    pub fn prev(&mut self) -> (r: Result<(), AddressingError>)
        where
            T: Copy,
        requires
            old(self)@.wf(),
        ensures
            final(self)@.wf(),
            match old(self)@.moved(-1) {
                Ok(s) => r is Ok && final(self)@ == s,
                Err(e) => r == Err::<(), AddressingError>(e) && final(self)@ == old(self)@,
            },
    {
        self.move_pointer(-1)
    }

    /// The cell at `index`, if there is one.
    pub fn get_at(&self, index: usize) -> (r: Result<&T, AddressingError>)
        ensures
            match r {
                Ok(v) => index < self@.cells.len() && *v == self@.cells[index as int],
                Err(e) => index >= self@.cells.len() && e == AddressingError::OutOfBounds(
                    index,
                    self@.cells.len() as usize,
                ),
            },
    {
        if index < self.data.len() {
            Ok(&self.data[index])
        } else {
            Err(AddressingError::OutOfBounds(index, self.data.len()))
        }
    }

    /// Overwrites the cell at `index`, if there is one; otherwise changes nothing.
    pub fn set_at(&mut self, index: usize, value: T) -> (r: Result<(), AddressingError>)
        ensures
            index < old(self)@.cells.len() ==> r is Ok && final(self)@ == (MemoryState {
                cells: old(self)@.cells.update(index as int, value),
                ..old(self)@
            }),
            index >= old(self)@.cells.len() ==> r == Err::<(), AddressingError>(
                AddressingError::OutOfBounds(index, old(self)@.cells.len() as usize),
            ) && final(self)@ == old(self)@,
    {
        if index < self.data.len() {
            self.data.set(index, value);
            Ok(())
        } else {
            Err(AddressingError::OutOfBounds(index, self.data.len()))
        }
    }

    /// The cell under the pointer, if there is one.
    pub fn get_at_pointer(&self) -> (r: Result<&T, AddressingError>)
        ensures
            match r {
                Ok(v) => self@.pointer < self@.cells.len() && *v == self@.current(),
                Err(e) => self@.pointer >= self@.cells.len() && e == AddressingError::OutOfBounds(
                    self@.pointer as usize,
                    self@.cells.len() as usize,
                ),
            },
    {
        self.get_at(self.pointer)
    }

    /// Overwrites the cell under the pointer, if there is one.
    pub fn set_at_pointer(&mut self, value: T) -> (r: Result<(), AddressingError>)
        ensures
            old(self)@.pointer < old(self)@.cells.len() ==> r is Ok && final(self)@ == (
            MemoryState { cells: old(self)@.cells.update(old(self)@.pointer, value), ..old(self)@ }),
            old(self)@.pointer >= old(self)@.cells.len() ==> r == Err::<(), AddressingError>(
                AddressingError::OutOfBounds(
                    old(self)@.pointer as usize,
                    old(self)@.cells.len() as usize,
                ),
            ) && final(self)@ == old(self)@,
    {
        let p = self.pointer;
        self.set_at(p, value)
    }
}

/// Moving the pointer of an expanding memory by some offset and back by the
/// same offset lands on the cell it started from: the old cells sit unchanged
/// as one block inside the new ones, shifted by the number of cells added in
/// front, and the pointer addresses the same cell of that block as before.
pub proof fn lemma_move_and_back<T>(m: MemoryState<T>, offset: int)
    requires
        m.wf(),
        m.is_expanding(),
    ensures
        m.moved(offset) is Ok,
        m.moved(offset)->Ok_0.wf(),
        m.moved(offset)->Ok_0.moved(-offset) is Ok,
        ({
            let back = m.moved(offset)->Ok_0.moved(-offset)->Ok_0;
            let shift = back.pointer - m.pointer;
            &&& back.wf()
            &&& 0 <= shift
            &&& back.cells.subrange(shift, shift + m.cells.len()) == m.cells
            &&& back.current() == m.current()
        }),
{
    let there = m.moved(offset)->Ok_0;
    let back = there.moved(-offset)->Ok_0;
    let shift = back.pointer - m.pointer;
    assert(back.cells.subrange(shift, shift + m.cells.len()) =~= m.cells);
}

} // verus!
