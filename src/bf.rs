use crate::memory::{AddressingError, Memory, MemoryState};
use vstd::prelude::*;

verus! {

/// Relies on `char::from_u32`: it returns the character with the given code
/// when that code is a Unicode scalar value, and `None` otherwise.
pub assume_specification[ char::from_u32 ](i: u32) -> (r: Option<char>)
    ensures
        is_scalar(i as int) ==> r == Some(i as char),
        !is_scalar(i as int) ==> r is None,
;

/// Why a run stopped short of the end of the program.
#[derive(Clone, Copy, Debug, PartialEq, Eq, Structural)]
pub enum ExecutionError {
    /// An access into the tape or the instruction store went out of bounds.
    Addressing(AddressingError),
    /// `+` on the largest cell value; the tape position.
    ArithmeticOverflow(usize),
    /// `-` on the smallest cell value; the tape position.
    ArithmeticUnderflow(usize),
    /// `.` on a cell that holds no Unicode scalar value; that value.
    InvalidOutputValue(i128),
    /// `]` with no open `[` before it; the instruction position.
    UnbalancedLoop(usize),
    /// A symbol outside the command alphabet in the instruction store.
    InvalidInstruction(char),
}

/// How a run ended without an error.
#[derive(Clone, Copy, Debug, PartialEq, Eq, Structural)]
pub enum Status {
    /// The instruction pointer ran past the last instruction.
    Finished,
    /// The program has instructions left to execute.
    Running,
}

/// The abstract state of an interpreter.
pub struct EngineState {
    /// The data tape, an expanding memory with default zero.
    pub tape: MemoryState<i128>,
    /// The instruction store, a fixed memory of command symbols.
    pub program: MemoryState<char>,
    /// The characters not yet read, front first.
    pub input: Seq<char>,
    /// Open loops, innermost last: the position of the `[` and the tape
    /// position current when it ran. A `]` tests the cell at that recorded
    /// index, which is kept as it was even when the tape later grows on the
    /// left.
    pub loops: Seq<(usize, usize)>,
    /// The characters written so far.
    pub output: Seq<char>,
    /// The instruction pointer has run past the last instruction.
    pub finished: bool,
}

/// The eight command symbols; every other character is a comment.
pub open spec fn is_command(c: char) -> bool {
    c == '<' || c == '>' || c == '+' || c == '-' || c == '.' || c == ',' || c == '['
        || c == ']'
}

/// The command symbols of `code`, in order.
pub open spec fn commands(code: Seq<char>) -> Seq<char>
    decreases code.len(),
{
    if code.len() == 0 {
        Seq::empty()
    } else if is_command(code.last()) {
        commands(code.drop_last()).push(code.last())
    } else {
        commands(code.drop_last())
    }
}

/// `v` is a Unicode scalar value: a code point that is not a surrogate.
pub open spec fn is_scalar(v: int) -> bool {
    (0 <= v <= 0xD7FF) || (0xE000 <= v <= 0x10FFFF)
}

/// The state in which a run of `code` on `input` starts.
pub open spec fn initial(code: Seq<char>, input: Seq<char>) -> EngineState {
    EngineState {
        tape: MemoryState { default_value: Some(0i128), cells: seq![0i128], pointer: 0 },
        program: MemoryState { default_value: None, cells: commands(code), pointer: 0 },
        input,
        loops: Seq::empty(),
        output: Seq::empty(),
        finished: commands(code).len() == 0,
    }
}

/// What the instruction under the pointer does, before the pointer advances.
pub open spec fn dispatched(s: EngineState) -> Result<EngineState, ExecutionError> {
    let ip = s.program.pointer;
    let tp = s.tape.pointer;
    let v = s.tape.current();
    let c = s.program.current();
    if c == '<' {
        Ok(EngineState { tape: s.tape.moved(-1)->Ok_0, ..s })
    } else if c == '>' {
        Ok(EngineState { tape: s.tape.moved(1)->Ok_0, ..s })
    } else if c == '+' {
        if v == i128::MAX {
            Err(ExecutionError::ArithmeticOverflow(tp as usize))
        } else {
            Ok(
                EngineState {
                    tape: MemoryState { cells: s.tape.cells.update(tp, (v + 1) as i128), ..s.tape },
                    ..s
                },
            )
        }
    } else if c == '-' {
        if v == i128::MIN {
            Err(ExecutionError::ArithmeticUnderflow(tp as usize))
        } else {
            Ok(
                EngineState {
                    tape: MemoryState { cells: s.tape.cells.update(tp, (v - 1) as i128), ..s.tape },
                    ..s
                },
            )
        }
    } else if c == '.' {
        if is_scalar(v as int) {
            Ok(EngineState { output: s.output.push(v as char), ..s })
        } else {
            Err(ExecutionError::InvalidOutputValue(v))
        }
    } else if c == ',' {
        if s.input.len() == 0 {
            Ok(
                EngineState {
                    tape: MemoryState { cells: s.tape.cells.update(tp, 0i128), ..s.tape },
                    ..s
                },
            )
        } else {
            Ok(
                EngineState {
                    tape: MemoryState {
                        cells: s.tape.cells.update(tp, (s.input[0] as u32) as i128),
                        ..s.tape
                    },
                    input: s.input.drop_first(),
                    ..s
                },
            )
        }
    } else if c == '[' {
        Ok(EngineState { loops: s.loops.push((ip as usize, tp as usize)), ..s })
    } else if c == ']' {
        if s.loops.len() == 0 {
            Err(ExecutionError::UnbalancedLoop(ip as usize))
        } else if s.tape.cells[s.loops.last().1 as int] > 0 {
            Ok(
                EngineState {
                    program: MemoryState { pointer: s.loops.last().0 as int, ..s.program },
                    ..s
                },
            )
        } else {
            Ok(EngineState { loops: s.loops.drop_last(), ..s })
        }
    } else {
        Err(ExecutionError::InvalidInstruction(c))
    }
}

/// `s` with the instruction pointer advanced; running past the last
/// instruction finishes the run.
pub open spec fn advanced(s: EngineState) -> EngineState {
    match s.program.moved(1) {
        Ok(p) => EngineState { program: p, ..s },
        Err(_) => EngineState { finished: true, ..s },
    }
}

/// One step: execute the current instruction, then advance.
pub open spec fn stepped(s: EngineState) -> Result<EngineState, ExecutionError> {
    match dispatched(s) {
        Ok(t) => Ok(advanced(t)),
        Err(e) => Err(e),
    }
}

/// The status of a state in which no error was raised.
pub open spec fn status_of(s: EngineState) -> Status {
    if s.finished {
        Status::Finished
    } else {
        Status::Running
    }
}

/// At most `fuel` steps from `s`: the state reached and how the run ended.
/// A step that fails leaves the state it started from.
pub open spec fn ran(s: EngineState, fuel: nat) -> (EngineState, Result<Status, ExecutionError>)
    decreases fuel,
{
    if s.finished || fuel == 0 {
        (s, Ok(status_of(s)))
    } else {
        match stepped(s) {
            Ok(t) => ran(t, (fuel - 1) as nat),
            Err(e) => (s, Err(e)),
        }
    }
}

impl EngineState {
    pub open spec fn wf(self) -> bool {
        &&& self.tape.wf()
        &&& self.tape.is_expanding()
        &&& self.program.wf()
        &&& self.program.default_value is None
        &&& !self.finished ==> self.program.pointer < self.program.cells.len()
        &&& forall|i: int|
            0 <= i < self.loops.len() ==> {
                &&& (#[trigger] self.loops[i]).0 < self.program.cells.len()
                &&& self.loops[i].1 < self.tape.cells.len()
            }
    }
}

/// An interpreter: the data tape, the instruction store, the input still to
/// be read, the open loops and the output written so far.
pub struct Brainfuck {
    tape: Memory<i128>,
    instruction: Memory<char>,
    input: Vec<char>,
    loop_start: Vec<(usize, usize)>,
    output: Vec<char>,
    finished: bool,
}

impl View for Brainfuck {
    type V = EngineState;

    closed spec fn view(&self) -> EngineState {
        EngineState {
            tape: self.tape@,
            program: self.instruction@,
            input: self.input@,
            loops: self.loop_start@,
            output: self.output@,
            finished: self.finished,
        }
    }
}

impl Brainfuck {
    /// An interpreter for the commands in `code`, to read from `input`.
    pub fn new(code: &String, input: &String) -> (r: Self)
        ensures
            r@ == initial(code@, input@),
            r@.wf(),
    {
        let mut program: Vec<char> = Vec::new();
        for c in it: code.as_str().chars()
            invariant
                it.seq() == code@,
                program@ == commands(code@.subrange(0, it.index() as int)),
        {
            assert(code@.subrange(0, it.index() + 1).drop_last() =~= code@.subrange(
                0,
                it.index() as int,
            ));
            if c == '<' || c == '>' || c == '+' || c == '-' || c == '.' || c == ',' || c == '['
                || c == ']' {
                program.push(c);
            }
        }
        assert(code@.subrange(0, code@.len() as int) =~= code@);
        let mut queue: Vec<char> = Vec::new();
        for c in it: input.as_str().chars()
            invariant
                it.seq() == input@,
                queue@ == input@.subrange(0, it.index() as int),
        {
            queue.push(c);
            assert(queue@ =~= input@.subrange(0, it.index() + 1));
        }
        assert(queue@ =~= input@);
        let finished = program.len() == 0;
        Brainfuck {
            tape: Memory::expanding(0),
            instruction: Memory::fixed(program),
            input: queue,
            loop_start: Vec::new(),
            output: Vec::new(),
            finished,
        }
    }

    /// Executes one instruction and advances past it. A failing instruction
    /// changes nothing; a finished interpreter stays as it is.
    pub fn step(&mut self) -> (r: Result<Status, ExecutionError>)
        requires
            old(self)@.wf(),
        ensures
            final(self)@.wf(),
            old(self)@.finished ==> r == Ok::<Status, ExecutionError>(Status::Finished)
                && final(self)@ == old(self)@,
            !old(self)@.finished ==> match stepped(old(self)@) {
                Ok(t) => final(self)@ == t && r == Ok::<Status, ExecutionError>(status_of(t)),
                Err(e) => final(self)@ == old(self)@ && r == Err::<Status, ExecutionError>(e),
            },
    {
        if self.finished {
            return Ok(Status::Finished);
        }
        let ip = self.instruction.get_pointer();
        let tp = self.tape.get_pointer();
        let c: char = match self.instruction.get_at_pointer() {
            Ok(c) => *c,
            Err(e) => {
                return Err(ExecutionError::Addressing(e));
            },
        };
        let v: i128 = match self.tape.get_at_pointer() {
            Ok(v) => *v,
            Err(e) => {
                return Err(ExecutionError::Addressing(e));
            },
        };
        let ghost s = self@;
        if c == '<' {
            if let Err(e) = self.tape.prev() {
                return Err(ExecutionError::Addressing(e));
            }
            assert(dispatched(s) == Ok::<EngineState, ExecutionError>(self@));
        } else if c == '>' {
            if let Err(e) = self.tape.next() {
                return Err(ExecutionError::Addressing(e));
            }
            assert(dispatched(s) == Ok::<EngineState, ExecutionError>(self@));
        } else if c == '+' || c == '-' {
            let w: i128 = if c == '+' {
                if v == i128::MAX {
                    return Err(ExecutionError::ArithmeticOverflow(tp));
                }
                v + 1
            } else {
                if v == i128::MIN {
                    return Err(ExecutionError::ArithmeticUnderflow(tp));
                }
                v - 1
            };
            if let Err(e) = self.tape.set_at_pointer(w) {
                return Err(ExecutionError::Addressing(e));
            }
            assert(dispatched(s) == Ok::<EngineState, ExecutionError>(self@));
        } else if c == '.' {
            if v < 0 || v > u32::MAX as i128 {
                return Err(ExecutionError::InvalidOutputValue(v));
            }
            match char::from_u32(v as u32) {
                Some(ch) => self.output.push(ch),
                None => {
                    return Err(ExecutionError::InvalidOutputValue(v));
                },
            }
            assert(dispatched(s) == Ok::<EngineState, ExecutionError>(self@));
        } else if c == ',' {
            let w: i128 = if self.input.len() == 0 {
                0
            } else {
                let ch: char = self.input.remove(0);
                let code: u32 = #[verifier::truncate] (ch as u32);
                code as i128
            };
            if let Err(e) = self.tape.set_at_pointer(w) {
                return Err(ExecutionError::Addressing(e));
            }
            assert(dispatched(s) == Ok::<EngineState, ExecutionError>(self@));
        } else if c == '[' {
            self.loop_start.push((ip, tp));
            assert(dispatched(s) == Ok::<EngineState, ExecutionError>(self@));
        } else if c == ']' {
            let n: usize = self.loop_start.len();
            if n == 0 {
                return Err(ExecutionError::UnbalancedLoop(ip));
            }
            let (start, cell) = self.loop_start[n - 1];
            let x: i128 = match self.tape.get_at(cell) {
                Ok(x) => *x,
                Err(e) => {
                    return Err(ExecutionError::Addressing(e));
                },
            };
            if x > 0 {
                self.instruction.set_pointer(start);
            } else {
                self.loop_start.pop();
            }
            assert(dispatched(s) == Ok::<EngineState, ExecutionError>(self@));
        } else {
            return Err(ExecutionError::InvalidInstruction(c));
        }
        match self.instruction.next() {
            Ok(()) => {},
            Err(AddressingError::Overflow) => {
                self.finished = true;
            },
            Err(e) => {
                return Err(ExecutionError::Addressing(e));
            },
        }
        if self.finished {
            Ok(Status::Finished)
        } else {
            Ok(Status::Running)
        }
    }
    /// Runs at most `max_steps` steps: stops early when the program finishes
    /// or an instruction fails, in which case the state is the one before
    /// that instruction.
    pub fn exec(&mut self, max_steps: u64) -> (r: Result<Status, ExecutionError>)
        requires
            old(self)@.wf(),
        ensures
            final(self)@.wf(),
            (final(self)@, r) == ran(old(self)@, max_steps as nat),
    {
        let ghost start = self@;
        let mut count: u64 = 0;
        while count < max_steps
            invariant
                count <= max_steps,
                self@.wf(),
                start == old(self)@,
                ran(start, max_steps as nat) == ran(self@, (max_steps - count) as nat),
            decreases max_steps - count,
        {
            if self.finished {
                assert(ran(self@, (max_steps - count) as nat) == (self@, Ok::<
                    Status,
                    ExecutionError,
                >(Status::Finished)));
                return Ok(Status::Finished);
            }
            let ghost before = self@;
            assert(ran(before, (max_steps - count) as nat) == match stepped(before) {
                Ok(t) => ran(t, (max_steps - count - 1) as nat),
                Err(e) => (before, Err(e)),
            });
            match self.step() {
                Ok(_) => {},
                Err(e) => {
                    return Err(e);
                },
            }
            count = count + 1;
        }
        if self.finished {
            Ok(Status::Finished)
        } else {
            Ok(Status::Running)
        }
    }

    /// The characters written so far.
    pub fn output(&self) -> (r: &Vec<char>)
        ensures
            r@ == self@.output,
    {
        &self.output
    }

    /// Hands out the characters written so far and forgets them.
    pub fn take_output(&mut self) -> (r: Vec<char>)
        requires
            old(self)@.wf(),
        ensures
            final(self)@.wf(),
            r@ == old(self)@.output,
            final(self)@ == (EngineState { output: Seq::empty(), ..old(self)@ }),
    {
        let mut taken: Vec<char> = Vec::new();
        taken.append(&mut self.output);
        taken
    }

    /// The data tape.
    pub fn tape(&self) -> (r: &Memory<i128>)
        ensures
            r@ == self@.tape,
    {
        &self.tape
    }

    /// The input characters not yet read.
    pub fn remaining_input(&self) -> (r: &Vec<char>)
        ensures
            r@ == self@.input,
    {
        &self.input
    }

    /// Whether the instruction pointer has run past the last instruction.
    pub fn is_finished(&self) -> (r: bool)
        ensures
            r == self@.finished,
    {
        self.finished
    }
}

proof fn lemma_commands_of_comments(code: Seq<char>)
    requires
        forall|i: int| 0 <= i < code.len() ==> !is_command(#[trigger] code[i]),
    ensures
        commands(code) == Seq::<char>::empty(),
    decreases code.len(),
{
    if code.len() > 0 {
        lemma_commands_of_comments(code.drop_last());
    }
}

proof fn lemma_commands_of_commands(code: Seq<char>)
    requires
        forall|i: int| 0 <= i < code.len() ==> is_command(#[trigger] code[i]),
    ensures
        commands(code) == code,
    decreases code.len(),
{
    if code.len() > 0 {
        lemma_commands_of_commands(code.drop_last());
        assert(code.drop_last().push(code.last()) =~= code);
    }
}

/// A program with no command symbols in it finishes at once, whatever the
/// input and the step budget, and writes nothing.
pub proof fn lemma_comments_only(code: Seq<char>, input: Seq<char>, fuel: nat)
    requires
        forall|i: int| 0 <= i < code.len() ==> !is_command(#[trigger] code[i]),
    ensures
        commands(code).len() == 0,
        ran(initial(code, input), fuel) == (initial(code, input), Ok::<Status, ExecutionError>(
            Status::Finished,
        )),
        initial(code, input).output.len() == 0,
{
    lemma_commands_of_comments(code);
}

/// `n` increments followed by one output.
pub open spec fn increments_then_output(n: nat) -> Seq<char> {
    Seq::new(n, |_i: int| '+').push('.')
}

/// The state of a run of `increments_then_output(code.len() - 1)` after `k`
/// of its increments.
spec fn counted_to(code: Seq<char>, input: Seq<char>, k: int) -> EngineState {
    EngineState {
        tape: MemoryState { default_value: Some(0i128), cells: seq![k as i128], pointer: 0 },
        program: MemoryState { default_value: None, cells: code, pointer: k },
        input,
        loops: Seq::empty(),
        output: Seq::empty(),
        finished: false,
    }
}

proof fn lemma_count_up(n: nat, input: Seq<char>, k: nat, fuel: nat)
    requires
        k <= n <= i128::MAX,
        fuel >= n - k,
    ensures
        ran(counted_to(increments_then_output(n), input, k as int), fuel) == ran(
            counted_to(increments_then_output(n), input, n as int),
            (fuel - (n - k)) as nat,
        ),
    decreases n - k,
{
    let code = increments_then_output(n);
    if k < n {
        let s = counted_to(code, input, k as int);
        assert(s.program.current() == '+');
        assert(stepped(s) == Ok::<EngineState, ExecutionError>(
            counted_to(code, input, k + 1int),
        )) by {
            assert(seq![k as i128].update(0, (k + 1) as i128) =~= seq![(k + 1) as i128]);
        }
        lemma_count_up(n, input, (k + 1) as nat, (fuel - 1) as nat);
    }
}

/// `n` increments and an output write the character whose code is `n` and
/// finish; when `n` is no Unicode scalar value the output fails on `n`
/// instead, with nothing wrapped around.
pub proof fn lemma_increments_then_output(n: nat, input: Seq<char>, fuel: nat)
    requires
        n <= i128::MAX,
        fuel > n,
    ensures
        ({
            let r = ran(initial(increments_then_output(n), input), fuel);
            &&& is_scalar(n as int) ==> r.1 == Ok::<Status, ExecutionError>(Status::Finished)
                && r.0.output == seq![n as char]
            &&& !is_scalar(n as int) ==> r.1 == Err::<Status, ExecutionError>(
                ExecutionError::InvalidOutputValue(n as i128),
            )
        }),
{
    let code = increments_then_output(n);
    lemma_commands_of_commands(code);
    assert(initial(code, input) == counted_to(code, input, 0));
    lemma_count_up(n, input, 0, fuel);
    let s = counted_to(code, input, n as int);
    let rest = (fuel - n) as nat;
    assert(s.program.current() == '.');
    assert(s.tape.current() == n as i128);
    assert(ran(s, rest) == match stepped(s) {
        Ok(t) => ran(t, (rest - 1) as nat),
        Err(e) => (s, Err(e)),
    });
    if is_scalar(n as int) {
        let t = stepped(s)->Ok_0;
        assert(stepped(s) is Ok);
        assert(t.finished);
        assert(t.output == seq![n as char]);
    }
}

/// Decrementing never wraps: `-` on the smallest cell value fails with an
/// underflow at that tape position, and on any other value lowers it by one.
pub proof fn lemma_decrement_never_wraps(s: EngineState)
    requires
        s.wf(),
        !s.finished,
        s.program.current() == '-',
    ensures
        s.tape.current() == i128::MIN ==> stepped(s) == Err::<EngineState, ExecutionError>(
            ExecutionError::ArithmeticUnderflow(s.tape.pointer as usize),
        ),
        s.tape.current() != i128::MIN ==> stepped(s) is Ok && stepped(s)->Ok_0.tape.current()
            == s.tape.current() - 1,
{
}

/// `]` with no open loop fails on its own position, whatever the tape holds.
pub proof fn lemma_unmatched_close(s: EngineState)
    requires
        s.wf(),
        !s.finished,
        s.program.current() == ']',
        s.loops.len() == 0,
    ensures
        stepped(s) == Err::<EngineState, ExecutionError>(
            ExecutionError::UnbalancedLoop(s.program.pointer as usize),
        ),
{
}

/// A lone `[` is no error: it opens a loop and the run finishes.
pub proof fn lemma_unmatched_open(input: Seq<char>, fuel: nat)
    requires
        fuel >= 1,
    ensures
        ran(initial(seq!['['], input), fuel).1 == Ok::<Status, ExecutionError>(Status::Finished),
        ran(initial(seq!['['], input), fuel).0.loops == seq![(0usize, 0usize)],
{
    lemma_commands_of_commands(seq!['[']);
    let s = initial(seq!['['], input);
    assert(stepped(s) is Ok);
    let t = stepped(s)->Ok_0;
    assert(t.finished);
    assert(t.loops =~= seq![(0usize, 0usize)]);
    assert(ran(s, fuel) == ran(t, (fuel - 1) as nat));
}

/// `,.` copies the first input character to the output and consumes it; on
/// empty input it writes the character with code zero.
pub proof fn lemma_read_then_write(input: Seq<char>, fuel: nat)
    requires
        fuel >= 2,
    ensures
        ({
            let r = ran(initial(seq![',', '.'], input), fuel);
            &&& r.1 == Ok::<Status, ExecutionError>(Status::Finished)
            &&& input.len() > 0 ==> r.0.output == seq![input[0]] && r.0.input == input.drop_first()
            &&& input.len() == 0 ==> r.0.output == seq![0u32 as char] && r.0.input.len() == 0
        }),
{
    lemma_commands_of_commands(seq![',', '.']);
    let s = initial(seq![',', '.'], input);
    assert(s.program.current() == ',');
    assert(stepped(s) is Ok);
    let t = stepped(s)->Ok_0;
    assert(!t.finished);
    assert(t.program.current() == '.');
    if input.len() > 0 {
        let c = input[0];
        vstd::utf8::char_is_scalar(c);
        vstd::utf8::char_u32_cast(c, #[verifier::truncate] (c as u32));
        assert(t.tape.current() == (c as u32) as i128);
        assert(((c as u32) as i128) as char == c);
    }
    assert(stepped(t) is Ok);
    let u = stepped(t)->Ok_0;
    assert(u.finished);
    assert(ran(s, fuel) == ran(t, (fuel - 1) as nat));
    assert(ran(t, (fuel - 1) as nat) == ran(u, (fuel - 2) as nat));
}

} // verus!
