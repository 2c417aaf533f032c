use crate::instruction::{parse, Instruction};
use vstd::prelude::*;

verus! {

/// The error of a loop jump that finds no partner for its bracket.
#[derive(Debug)]
pub struct MismatchedParen {
    pub message: &'static str,
}

impl MismatchedParen {
    /// The error of a `BeginLoop` that nothing closes.
    pub open spec fn no_closing() -> MismatchedParen {
        MismatchedParen { message: "found no matching closing parenthesis" }
    }

    /// The error of an `EndLoop` that nothing opens.
    pub open spec fn no_opening() -> MismatchedParen {
        MismatchedParen { message: "found no matching opening parenthesis" }
    }
}

/// What one decoding cycle reports.
#[derive(Copy, Clone, Debug, PartialEq, Eq, Structural)]
pub enum ProgramStepResult {
    /// The instruction that was consumed.
    Step(Instruction),
    /// The program counter is at the end of the program.
    Terminate,
}

/// The nesting depth gained over `source[first..=last]`: the number of
/// `BeginLoop` in that range minus the number of `EndLoop`.
pub open spec fn nesting(source: Seq<Instruction>, first: int, last: int) -> int
    decreases last - first + 1,
{
    if last < first {
        0
    } else {
        nesting(source, first, last - 1) + source[last].bracket_weight()
    }
}

/// `close` is the first position from `open` on at which the depth gained
/// since `open` is back at zero.
pub open spec fn is_matching_close(source: Seq<Instruction>, open: int, close: int) -> bool {
    &&& 0 <= open <= close < source.len()
    &&& nesting(source, open, close) == 0
    &&& forall|k: int| open <= k < close ==> nesting(source, open, k) != 0
}

/// `open` is the first position from `close` down at which the depth gained
/// up to `close` is back at zero.
pub open spec fn is_matching_open(source: Seq<Instruction>, open: int, close: int) -> bool {
    &&& 0 <= open <= close < source.len()
    &&& nesting(source, open, close) == 0
    &&& forall|k: int| open < k <= close ==> nesting(source, k, close) != 0
}

/// Some position closes the loop that opens at `open`.
pub open spec fn has_matching_close(source: Seq<Instruction>, open: int) -> bool {
    exists|close: int| is_matching_close(source, open, close)
}

/// Some position opens the loop that closes at `close`.
pub open spec fn has_matching_open(source: Seq<Instruction>, close: int) -> bool {
    exists|open: int| is_matching_open(source, open, close)
}

/// The position that closes the loop opening at `open`, where there is one.
pub open spec fn matching_close(source: Seq<Instruction>, open: int) -> int {
    choose|close: int| is_matching_close(source, open, close)
}

/// The position that opens the loop closing at `close`, where there is one.
pub open spec fn matching_open(source: Seq<Instruction>, close: int) -> int {
    choose|open: int| is_matching_open(source, open, close)
}

/// The mathematical content of a [`Program`].
pub struct ProgramView {
    pub source: Seq<Instruction>,
    pub pc: int,
}

impl ProgramView {
    /// The invariant of a program: the counter is an index into the
    /// instructions, or their number.
    pub open spec fn wf(self) -> bool {
        0 <= self.pc <= self.source.len()
    }

    /// The counter is at the end: nothing is left to decode.
    pub open spec fn terminated(self) -> bool {
        self.pc >= self.source.len()
    }

    /// This program with the counter at `pc`.
    pub open spec fn at(self, pc: int) -> ProgramView {
        ProgramView { pc, ..self }
    }

    /// One decoding cycle against the value of the current cell: the program
    /// after it and what it reports, or the bracket that has no partner.
    ///
    /// A `BeginLoop` jumps forward where the cell is zero, an `EndLoop` jumps
    /// back where it is not; a jump lands on the partner bracket, not behind
    /// it, and fails where there is no partner. Every other cycle advances by
    /// one. Every cycle that does not fail reports the instruction at the
    /// counter, a loop marker as well as any other.
    pub open spec fn step(self, cell_value: u8) -> Result<
        (ProgramView, ProgramStepResult),
        MismatchedParen,
    > {
        if self.terminated() {
            Ok((self, ProgramStepResult::Terminate))
        } else {
            match self.source[self.pc] {
                Instruction::BeginLoop => {
                    if cell_value != 0 {
                        Ok((self.at(self.pc + 1), ProgramStepResult::Step(Instruction::BeginLoop)))
                    } else if has_matching_close(self.source, self.pc) {
                        Ok(
                            (
                                self.at(matching_close(self.source, self.pc)),
                                ProgramStepResult::Step(Instruction::BeginLoop),
                            ),
                        )
                    } else {
                        Err(MismatchedParen::no_closing())
                    }
                },
                Instruction::EndLoop => {
                    if cell_value == 0 {
                        Ok((self.at(self.pc + 1), ProgramStepResult::Step(Instruction::EndLoop)))
                    } else if has_matching_open(self.source, self.pc) {
                        Ok(
                            (
                                self.at(matching_open(self.source, self.pc)),
                                ProgramStepResult::Step(Instruction::EndLoop),
                            ),
                        )
                    } else {
                        Err(MismatchedParen::no_opening())
                    }
                },
                other => Ok((self.at(self.pc + 1), ProgramStepResult::Step(other))),
            }
        }
    }
}

/// At most one position closes the loop that opens at `open`.
pub proof fn lemma_matching_close_unique(source: Seq<Instruction>, open: int, close: int)
    requires
        is_matching_close(source, open, close),
    ensures
        has_matching_close(source, open),
        matching_close(source, open) == close,
{
    let chosen = matching_close(source, open);
    assert(is_matching_close(source, open, chosen));
    if chosen < close {
        assert(nesting(source, open, chosen) != 0);
    } else if close < chosen {
        assert(nesting(source, open, close) != 0);
    }
}

/// At most one position opens the loop that closes at `close`.
pub proof fn lemma_matching_open_unique(source: Seq<Instruction>, open: int, close: int)
    requires
        is_matching_open(source, open, close),
    ensures
        has_matching_open(source, close),
        matching_open(source, close) == open,
{
    let chosen = matching_open(source, close);
    assert(is_matching_open(source, chosen, close));
    if chosen < open {
        assert(nesting(source, open, close) != 0);
    } else if open < chosen {
        assert(nesting(source, chosen, close) != 0);
    }
}

/// The depth gained over a range is the weight of its first instruction plus
/// the depth gained over the rest.
pub proof fn lemma_nesting_front(source: Seq<Instruction>, first: int, last: int)
    requires
        first <= last,
    ensures
        nesting(source, first, last) == source[first].bracket_weight() + nesting(
            source,
            first + 1,
            last,
        ),
    decreases last - first,
{
    if first < last {
        lemma_nesting_front(source, first, last - 1);
    } else {
        assert(nesting(source, first, first - 1) == 0);
        assert(nesting(source, first + 1, first) == 0);
    }
}

/// A decoding cycle keeps the instructions and leaves the counter within
/// them.
pub proof fn lemma_decoding_keeps_program(program: ProgramView, cell_value: u8)
    requires
        program.wf(),
    ensures
        program.step(cell_value) matches Ok((next, _)) ==> next.wf() && next.source
            == program.source,
        program.step(cell_value) matches Ok((next, report)) ==> (report
            == ProgramStepResult::Terminate <==> program.terminated()),
{
    if !program.terminated() {
        if has_matching_close(program.source, program.pc) {
            assert(is_matching_close(
                program.source,
                program.pc,
                matching_close(program.source, program.pc),
            ));
        }
        if has_matching_open(program.source, program.pc) {
            assert(is_matching_open(
                program.source,
                matching_open(program.source, program.pc),
                program.pc,
            ));
        }
    }
}

/// The brackets of `source` are balanced: no prefix closes more loops than
/// it opens, and the whole opens as many as it closes.
pub open spec fn balanced(source: Seq<Instruction>) -> bool {
    &&& nesting(source, 0, source.len() - 1) == 0
    &&& forall|k: int| 0 <= k < source.len() ==> nesting(source, 0, k) >= 0
}

/// The depth gained over a range is the sum of the depths gained over its
/// two parts.
pub proof fn lemma_nesting_split(source: Seq<Instruction>, first: int, middle: int, last: int)
    requires
        first <= middle <= last + 1,
    ensures
        nesting(source, first, last) == nesting(source, first, middle - 1) + nesting(
            source,
            middle,
            last,
        ),
    decreases last - middle + 1,
{
    if middle <= last {
        lemma_nesting_split(source, first, middle, last - 1);
    }
}

/// Where the depth gained since `open` has stayed positive up to `k` and is
/// not positive at the end, some position from `k` on brings it back to zero.
proof fn lemma_find_close(source: Seq<Instruction>, open: int, k: int)
    requires
        0 <= open <= k < source.len(),
        source[open] == Instruction::BeginLoop,
        nesting(source, open, source.len() - 1) <= 0,
        forall|j: int| open <= j < k ==> nesting(source, open, j) > 0,
    ensures
        has_matching_close(source, open),
    decreases source.len() - k,
{
    if k == open {
        assert(nesting(source, open, open - 1) == 0);
    } else {
        assert(nesting(source, open, k - 1) > 0);
    }
    if nesting(source, open, k) == 0 {
        assert(is_matching_close(source, open, k));
    } else {
        lemma_find_close(source, open, k + 1);
    }
}

/// Where the depth gained up to `close` has stayed negative down to `k` and
/// is not negative from the start, some position from `k` down brings it
/// back to zero.
proof fn lemma_find_open(source: Seq<Instruction>, close: int, k: int)
    requires
        0 <= k <= close < source.len(),
        source[close] == Instruction::EndLoop,
        nesting(source, 0, close) >= 0,
        forall|j: int| k < j <= close ==> nesting(source, j, close) < 0,
    ensures
        has_matching_open(source, close),
    decreases k,
{
    lemma_nesting_front(source, k, close);
    if k == close {
        assert(nesting(source, close + 1, close) == 0);
    } else {
        assert(nesting(source, k + 1, close) < 0);
    }
    if nesting(source, k, close) == 0 {
        assert(is_matching_open(source, k, close));
    } else {
        lemma_find_open(source, close, k - 1);
    }
}

/// In a balanced program every bracket has its partner.
pub proof fn lemma_balanced_brackets_match(source: Seq<Instruction>, at: int)
    requires
        balanced(source),
        0 <= at < source.len(),
    ensures
        source[at] == Instruction::BeginLoop ==> has_matching_close(source, at),
        source[at] == Instruction::EndLoop ==> has_matching_open(source, at),
{
    if source[at] == Instruction::BeginLoop {
        lemma_nesting_split(source, 0, at, source.len() - 1);
        if at > 0 {
            assert(nesting(source, 0, at - 1) >= 0);
        }
        lemma_find_close(source, at, at);
    }
    if source[at] == Instruction::EndLoop {
        assert(nesting(source, 0, at) >= 0);
        lemma_find_open(source, at, at);
    }
}

/// Decoding a balanced program never fails, whatever the counter and the
/// cell value, and reports `Terminate` exactly at the end of the program.
pub proof fn lemma_balanced_program_decodes(program: ProgramView, cell_value: u8)
    requires
        program.wf(),
        balanced(program.source),
    ensures
        program.step(cell_value) is Ok,
        program.step(cell_value) matches Ok((_, report)) && (report == ProgramStepResult::Terminate
            <==> program.terminated()),
{
    if !program.terminated() {
        lemma_balanced_brackets_match(program.source, program.pc);
    }
}

/// The parsed instruction sequence with its program counter.
pub struct Program {
    pc: usize,
    source: Vec<Instruction>,
}

impl View for Program {
    type V = ProgramView;

    closed spec fn view(&self) -> ProgramView {
        ProgramView { source: self.source@, pc: self.pc as int }
    }
}

impl Program {
    /// The program's invariant.
    pub open spec fn wf(&self) -> bool {
        self@.wf()
    }

    /// The program counter: the index of the instruction to decode next, or
    /// the number of instructions once the program has terminated.
    pub fn pc(&self) -> (pc: usize)
        ensures
            pc == self@.pc,
    {
        self.pc
    }

    /// The instructions, in order.
    pub fn source(&self) -> (source: &Vec<Instruction>)
        ensures
            source@ == self@.source,
    {
        &self.source
    }

    /// Decodes source text: the eight symbols become instructions, every
    /// other character is dropped. The counter starts at the first
    /// instruction.
    pub fn parse_source(code: &str) -> (program: Program)
        ensures
            program.wf(),
            program@ == (ProgramView { source: parse(code@), pc: 0 }),
    {
        let ghost decode = |a: char| Instruction::decode(a);
        let mut source: Vec<Instruction> = Vec::new();
        for a in chars: code.chars()
            invariant
                chars.seq() == code@,
                decode == (|a: char| Instruction::decode(a)),
                source@ == code@.take(chars.index()).filter_map(decode),
        {
            proof {
                code@.lemma_filter_map_take_succ(decode, chars.index());
            }
            match Instruction::from_char(a) {
                Some(instruction) => {
                    source.push(instruction);
                },
                None => {},
            }
        }
        assert(code@.take(code@.len() as int) =~= code@);
        Program { source, pc: 0 }
    }

    /// The position that closes the loop opening at the counter: the scan
    /// goes forward and counts the nesting depth until it is back at zero.
    fn find_close(&self) -> (close: Option<usize>)
        requires
            self.wf(),
            !self@.terminated(),
            self@.source[self@.pc] == Instruction::BeginLoop,
        ensures
            match close {
                Some(close) => is_matching_close(self@.source, self@.pc, close as int),
                None => !has_matching_close(self@.source, self@.pc),
            },
    {
        let ghost source = self.source@;
        let pc = self.pc;
        let len = self.source.len();
        let mut depth: usize = 0;
        let mut i: usize = pc;
        while i < len
            invariant
                source == self.source@,
                len == source.len(),
                pc == self.pc,
                pc <= i <= len,
                pc < len,
                source[pc as int] == Instruction::BeginLoop,
                depth == nesting(source, pc as int, i - 1),
                depth <= i - pc,
                i > pc ==> depth >= 1,
                forall|k: int| pc <= k < i ==> nesting(source, pc as int, k) != 0,
            decreases len - i,
        {
            match self.source[i] {
                Instruction::BeginLoop => {
                    depth += 1;
                },
                Instruction::EndLoop => {
                    depth -= 1;
                },
                _ => {},
            }
            if depth == 0 {
                return Some(i);
            }
            i += 1;
        }
        None
    }

    /// The position that opens the loop closing at the counter: the scan
    /// goes backward and counts the nesting depth until it is back at zero.
    fn find_open(&self) -> (open: Option<usize>)
        requires
            self.wf(),
            !self@.terminated(),
            self@.source[self@.pc] == Instruction::EndLoop,
        ensures
            match open {
                Some(open) => is_matching_open(self@.source, open as int, self@.pc),
                None => !has_matching_open(self@.source, self@.pc),
            },
    {
        let ghost source = self.source@;
        let pc = self.pc;
        let len = self.source.len();
        let mut depth: usize = 0;
        let mut i: usize = pc + 1;
        while i > 0
            invariant
                source == self.source@,
                len == source.len(),
                pc == self.pc,
                0 <= i <= pc + 1,
                pc < len,
                source[pc as int] == Instruction::EndLoop,
                depth == -nesting(source, i as int, pc as int),
                depth <= pc + 1 - i,
                i <= pc ==> depth >= 1,
                forall|k: int| i <= k <= pc ==> nesting(source, k, pc as int) != 0,
            decreases i,
        {
            i -= 1;
            proof {
                lemma_nesting_front(source, i as int, pc as int);
            }
            match self.source[i] {
                Instruction::EndLoop => {
                    depth += 1;
                },
                Instruction::BeginLoop => {
                    depth -= 1;
                },
                _ => {},
            }
            if depth == 0 {
                return Some(i);
            }
        }
        None
    }

    /// Decodes the instruction at the counter against `cell_value`, the
    /// value of the current cell, and changes nothing: the report of the
    /// cycle with the counter that it leads to, or the bracket that has no
    /// partner.
    pub fn decode(&self, cell_value: u8) -> (result: Result<
        (usize, ProgramStepResult),
        MismatchedParen,
    >)
        requires
            self.wf(),
        ensures
            balanced(self@.source) ==> result is Ok,
            match self@.step(cell_value) {
                Ok((next, report)) => result matches Ok((pc, reported)) && pc == next.pc
                    && reported == report,
                Err(error) => result matches Err(found) && found == error,
            },
    {
        proof {
            if balanced(self@.source) {
                lemma_balanced_program_decodes(self@, cell_value);
            }
        }
        if self.pc >= self.source.len() {
            return Ok((self.pc, ProgramStepResult::Terminate));
        }
        match self.source[self.pc] {
            Instruction::BeginLoop => {
                if cell_value == 0 {
                    match self.find_close() {
                        Some(close) => {
                            proof {
                                lemma_matching_close_unique(
                                    self@.source,
                                    self@.pc,
                                    close as int,
                                );
                            }
                            Ok((close, ProgramStepResult::Step(Instruction::BeginLoop)))
                        },
                        None => Err(
                            MismatchedParen { message: "found no matching closing parenthesis" },
                        ),
                    }
                } else {
                    Ok((self.pc + 1, ProgramStepResult::Step(Instruction::BeginLoop)))
                }
            },
            Instruction::EndLoop => {
                if cell_value != 0 {
                    match self.find_open() {
                        Some(open) => {
                            proof {
                                lemma_matching_open_unique(self@.source, open as int, self@.pc);
                            }
                            Ok((open, ProgramStepResult::Step(Instruction::EndLoop)))
                        },
                        None => Err(
                            MismatchedParen { message: "found no matching opening parenthesis" },
                        ),
                    }
                } else {
                    Ok((self.pc + 1, ProgramStepResult::Step(Instruction::EndLoop)))
                }
            },
            other => Ok((self.pc + 1, ProgramStepResult::Step(other))),
        }
    }

    /// Decodes the instruction at the counter and advances, resolving a loop
    /// marker against `cell_value`, the value of the current cell.
    ///
    /// At the end of the program the report is `Terminate` and nothing
    /// changes. A failed bracket search leaves the program unchanged.
    pub fn execute_command(&mut self, cell_value: u8) -> (result: Result<
        ProgramStepResult,
        MismatchedParen,
    >)
        requires
            old(self).wf(),
        ensures
            final(self).wf(),
            final(self)@.source == old(self)@.source,
            balanced(old(self)@.source) ==> result is Ok,
            match old(self)@.step(cell_value) {
                Ok((next, report)) => result == Ok::<ProgramStepResult, MismatchedParen>(report)
                    && final(self)@ == next,
                Err(error) => result == Err::<ProgramStepResult, MismatchedParen>(error)
                    && final(self)@ == old(self)@,
            },
    {
        proof {
            lemma_decoding_keeps_program(self@, cell_value);
        }
        match self.decode(cell_value) {
            Ok((pc, report)) => {
                self.pc = pc;
                Ok(report)
            },
            Err(error) => Err(error),
        }
    }
}

} // verus!
