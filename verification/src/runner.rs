use crate::instruction::{parse, Instruction};
use crate::laws::{
    lemma_balanced_run_finds_every_bracket, lemma_bracket_failure_is_located,
    lemma_run_counts_its_steps,
};
use crate::program::{balanced, MismatchedParen, Program, ProgramStepResult, ProgramView};
use crate::tape::{wrapping_pred, wrapping_succ, MaxSizeExceeded, Tape, TapeView};
use vstd::prelude::*;

verus! {

/// `std::io::Error`, the error of the two I/O capabilities. It is carried
/// through unread: nothing is assumed of what such a value holds.
#[verifier::external_type_specification]
#[verifier::external_body]
pub struct ExIoError(std::io::Error);

/// Why a step failed.
#[derive(Debug)]
pub enum RunError {
    /// A loop jump found no partner for its bracket.
    MismatchedParen(MismatchedParen),
    /// A move needed a cell beyond the tape's cap.
    MaxSizeExceeded(MaxSizeExceeded),
    /// An I/O capability failed.
    Io(std::io::Error),
}

/// How a run that did not fail ended.
#[derive(Copy, Clone, Debug, PartialEq, Eq, Structural)]
pub enum RunResult {
    /// The run paused at its halt threshold after this many steps; the
    /// program has not terminated.
    StepCount(u64),
    /// The program counter reached the end of the program.
    Terminate,
}

/// What the two capabilities answer when a step calls on them: `read` is the
/// answer of the input capability, `written` that of the output capability.
/// A step looks at the one its instruction calls, if any.
pub struct IoOutcome {
    pub read: Result<u8, std::io::Error>,
    pub written: Result<(), std::io::Error>,
}

/// How a run ended, with the number of steps it completed.
pub enum RunOutcome {
    /// The halt threshold was reached after this many steps.
    Paused(nat),
    /// The program counter reached the end of the program.
    Terminated,
    /// A step failed after this many steps had been completed.
    Failed(nat, RunError),
}

impl RunOutcome {
    /// The same ending with `steps` more completed steps in front of it.
    pub open spec fn after(self, steps: nat) -> RunOutcome {
        match self {
            RunOutcome::Paused(n) => RunOutcome::Paused(n + steps),
            RunOutcome::Terminated => RunOutcome::Terminated,
            RunOutcome::Failed(n, error) => RunOutcome::Failed(n + steps, error),
        }
    }

    /// The ending that a result of `run` stands for.
    pub open spec fn of(result: Result<RunResult, (u64, RunError)>) -> RunOutcome {
        match result {
            Ok(RunResult::StepCount(n)) => RunOutcome::Paused(n as nat),
            Ok(RunResult::Terminate) => RunOutcome::Terminated,
            Err((n, error)) => RunOutcome::Failed(n as nat, error),
        }
    }
}

/// The mathematical content of a [`Runner`]: everything but its two
/// capabilities.
pub struct RunnerView {
    pub tape: TapeView,
    pub program: ProgramView,
    pub step_count: nat,
    pub next_halt: Option<nat>,
}

impl RunnerView {
    /// A runner before its first step.
    pub open spec fn initial(max_size: nat, source: Seq<Instruction>) -> RunnerView {
        RunnerView {
            tape: TapeView::fresh(max_size),
            program: ProgramView { source, pc: 0 },
            step_count: 0,
            next_halt: None,
        }
    }

    /// The invariant of a runner: that of its tape and of its program.
    pub open spec fn wf(self) -> bool {
        &&& self.tape.wf()
        &&& self.program.wf()
    }

    /// The instruction that the next step would consume, where there is one
    /// and its brackets match.
    pub open spec fn pending(self) -> Option<Instruction> {
        match self.program.step(self.tape.current()) {
            Ok((_, ProgramStepResult::Step(instruction))) => Some(instruction),
            _ => None,
        }
    }

    /// The next step can complete and be counted: there is an instruction to
    /// consume, its bracket has a partner where it jumps, and the tape lets
    /// a move through. (An `Output` or `Input` completes where its capability
    /// succeeds.)
    pub open spec fn can_complete(self) -> bool {
        match self.pending() {
            Some(Instruction::Left) => self.tape.moved_left() is Some,
            Some(Instruction::Right) => self.tape.moved_right() is Some,
            Some(_) => true,
            None => false,
        }
    }

    /// The state after a completed step that left `program` and `tape`: the
    /// step is counted.
    pub open spec fn completed(self, program: ProgramView, tape: TapeView) -> RunnerView {
        RunnerView { tape, program, step_count: self.step_count + 1, ..self }
    }

    /// One step, given what the capabilities answer: the state after it and
    /// what it reports.
    ///
    /// The current cell decides the decoding cycle of the program. A step
    /// that terminates or finds a bracket unmatched changes nothing. A step
    /// that fails on the tape or on I/O has consumed its instruction and
    /// changed nothing else. Every other step applies its instruction and is
    /// counted; a loop marker applies nothing.
    pub open spec fn step(self, io: IoOutcome) -> (RunnerView, Result<ProgramStepResult, RunError>) {
        match self.program.step(self.tape.current()) {
            Err(error) => (self, Err(RunError::MismatchedParen(error))),
            Ok((_, ProgramStepResult::Terminate)) => (self, Ok(ProgramStepResult::Terminate)),
            Ok((program, ProgramStepResult::Step(instruction))) => {
                let after: Result<TapeView, RunError> = match instruction {
                    Instruction::Left => match self.tape.moved_left() {
                        Some(tape) => Ok(tape),
                        None => Err(RunError::MaxSizeExceeded(MaxSizeExceeded)),
                    },
                    Instruction::Right => match self.tape.moved_right() {
                        Some(tape) => Ok(tape),
                        None => Err(RunError::MaxSizeExceeded(MaxSizeExceeded)),
                    },
                    Instruction::Increment => Ok(
                        self.tape.with_current(wrapping_succ(self.tape.current())),
                    ),
                    Instruction::Decrement => Ok(
                        self.tape.with_current(wrapping_pred(self.tape.current())),
                    ),
                    Instruction::Output => match io.written {
                        Ok(_) => Ok(self.tape),
                        Err(error) => Err(RunError::Io(error)),
                    },
                    Instruction::Input => match io.read {
                        Ok(byte) => Ok(self.tape.with_current(byte)),
                        Err(error) => Err(RunError::Io(error)),
                    },
                    Instruction::BeginLoop => Ok(self.tape),
                    Instruction::EndLoop => Ok(self.tape),
                };
                match after {
                    Ok(tape) => (
                        self.completed(program, tape),
                        Ok(ProgramStepResult::Step(instruction)),
                    ),
                    Err(error) => (RunnerView { program, ..self }, Err(error)),
                }
            },
        }
    }

    /// The step count that no run passes: the halt threshold where one is
    /// set, and the largest count that the counter can hold otherwise.
    pub open spec fn limit(self) -> nat {
        match self.next_halt {
            Some(halt) => halt,
            None => u64::MAX as nat,
        }
    }

    /// A run from this state pauses at once: the step count is at the halt
    /// threshold, or there is no threshold and the counter could not count
    /// the step that comes next.
    pub open spec fn halted(self) -> bool {
        match self.next_halt {
            Some(halt) => self.step_count >= halt,
            None => self.step_count >= u64::MAX && self.can_complete(),
        }
    }

    /// A run: steps are taken until the state is halted, the program
    /// terminates or a step fails. `io(n)` is what the capabilities answer to
    /// the step that is taken at step count `n`.
    pub open spec fn run(self, io: spec_fn(nat) -> IoOutcome) -> (RunnerView, RunOutcome)
        decreases self.limit() - self.step_count,
    {
        if self.halted() {
            (self, RunOutcome::Paused(0))
        } else {
            let (next, report) = self.step(io(self.step_count));
            match report {
                Err(error) => (next, RunOutcome::Failed(0, error)),
                Ok(ProgramStepResult::Terminate) => (next, RunOutcome::Terminated),
                Ok(ProgramStepResult::Step(_)) => {
                    let (end, outcome) = next.run(io);
                    (end, outcome.after(1))
                },
            }
        }
    }

    /// The state after `count` more completed steps, where the run from this
    /// state completes that many before it ends.
    pub open spec fn after_steps(self, io: spec_fn(nat) -> IoOutcome, count: nat) -> Option<
        RunnerView,
    >
        decreases count,
    {
        if count == 0 {
            Some(self)
        } else if self.halted() {
            None
        } else {
            match self.step(io(self.step_count)) {
                (next, Ok(ProgramStepResult::Step(_))) => next.after_steps(
                    io,
                    (count - 1) as nat,
                ),
                _ => None,
            }
        }
    }

    /// This state with the halt threshold replaced.
    pub open spec fn with_halt(self, next_halt: Option<nat>) -> RunnerView {
        RunnerView { next_halt, ..self }
    }

    /// The halt threshold of a run of at most `steps` steps: that many past
    /// the steps taken so far. Where the counter cannot hold that number, the
    /// counter itself ends the run first, and there is no threshold.
    pub open spec fn budget(self, steps: nat) -> Option<nat> {
        if self.step_count + steps <= u64::MAX {
            Some(self.step_count + steps)
        } else {
            None
        }
    }

    /// A run of at most `steps` steps: the threshold is set, the run is made,
    /// and the threshold is cleared.
    pub open spec fn run_for(self, steps: nat, io: spec_fn(nat) -> IoOutcome) -> (
        RunnerView,
        RunOutcome,
    ) {
        let (end, outcome) = self.with_halt(self.budget(steps)).run(io);
        (end.with_halt(None), outcome)
    }

    /// Runs of at most `steps` steps each, one after the other for as long
    /// as they pause: the first and at most `rounds` more.
    pub open spec fn run_in_rounds(
        self,
        steps: nat,
        io: spec_fn(nat) -> IoOutcome,
        rounds: nat,
    ) -> (RunnerView, RunOutcome)
        decreases rounds,
    {
        let (end, outcome) = self.run_for(steps, io);
        if rounds > 0 && outcome is Paused {
            end.run_in_rounds(steps, io, (rounds - 1) as nat)
        } else {
            (end, outcome)
        }
    }
}

/// `io` is an answer that the capabilities can give to the next step from
/// `state`: it meets the contract of the capability that the step calls.
pub open spec fn step_admits<
    I: Fn() -> Result<u8, std::io::Error>,
    O: Fn(u8) -> Result<(), std::io::Error>,
>(state: RunnerView, io: IoOutcome, input: I, output: O) -> bool {
    match state.pending() {
        Some(Instruction::Output) => output.ensures((state.tape.current(),), io.written),
        Some(Instruction::Input) => input.ensures((), io.read),
        _ => true,
    }
}

/// `io` holds answers that the capabilities can give to every step of the
/// run from `state`.
pub open spec fn run_admits<
    I: Fn() -> Result<u8, std::io::Error>,
    O: Fn(u8) -> Result<(), std::io::Error>,
>(state: RunnerView, io: spec_fn(nat) -> IoOutcome, input: I, output: O) -> bool
    decreases state.limit() - state.step_count,
{
    if state.halted() {
        true
    } else {
        let (next, report) = state.step(io(state.step_count));
        &&& step_admits(state, io(state.step_count), input, output)
        &&& report matches Ok(ProgramStepResult::Step(_)) ==> run_admits(next, io, input, output)
    }
}

/// `io` and `log` give the same answers at the step counts from `from` up to
/// `to`, exclusive.
spec fn same_answers(
    io: spec_fn(nat) -> IoOutcome,
    log: spec_fn(nat) -> IoOutcome,
    from: nat,
    to: nat,
) -> bool {
    forall|n: nat| from <= n < to ==> #[trigger] io(n) == log(n)
}

/// The execution driver: one tape and one program, a count of the steps
/// taken, an optional halt threshold, and the two I/O capabilities.
pub struct Runner<
    I: Fn() -> Result<u8, std::io::Error>,
    O: Fn(u8) -> Result<(), std::io::Error>,
> {
    tape: Tape,
    program: Program,
    step_count: u64,
    next_halt: Option<u64>,
    input: I,
    output: O,
}

impl<I: Fn() -> Result<u8, std::io::Error>, O: Fn(u8) -> Result<(), std::io::Error>> Runner<I, O> {
    /// The mathematical content of this runner; `runner@` is short for it.
    /// The capabilities are no part of it: see `input_cap` and `output_cap`.
    pub closed spec fn view(&self) -> RunnerView {
        RunnerView {
            tape: self.tape@,
            program: self.program@,
            step_count: self.step_count as nat,
            next_halt: match self.next_halt {
                Some(halt) => Some(halt as nat),
                None => None,
            },
        }
    }

    /// The input capability: it yields the next byte, and 0 at the end of
    /// the input.
    pub closed spec fn input_cap(&self) -> I {
        self.input
    }

    /// The output capability: it takes one byte.
    pub closed spec fn output_cap(&self) -> O {
        self.output
    }

    /// The runner's invariant: its tape and program are well formed, its
    /// numbers are within their machine types, and both capabilities may be
    /// called at any time, the output with any byte.
    pub open spec fn wf(&self) -> bool {
        &&& self@.wf()
        &&& self@.tape.max_size <= i64::MAX
        &&& self@.step_count <= u64::MAX
        &&& self@.limit() <= u64::MAX
        &&& self.input_cap().requires(())
        &&& forall|byte: u8| #[trigger] self.output_cap().requires((byte,))
    }

    /// A runner for `code` on a fresh tape of at most `max_size` cells.
    pub fn new(max_size: usize, code: &str, input: I, output: O) -> (runner: Self)
        requires
            1 <= max_size <= i64::MAX,
            input.requires(()),
            forall|byte: u8| #[trigger] output.requires((byte,)),
        ensures
            runner.wf(),
            runner@ == RunnerView::initial(max_size as nat, parse(code@)),
            runner.input_cap() == input,
            runner.output_cap() == output,
    {
        Self {
            tape: Tape::new(max_size),
            program: Program::parse_source(code),
            step_count: 0,
            next_halt: None,
            input,
            output,
        }
    }

    /// The tape.
    pub fn tape(&self) -> (tape: &Tape)
        ensures
            tape@ == self@.tape,
            self.wf() ==> tape.wf(),
    {
        &self.tape
    }

    /// The program.
    pub fn program(&self) -> (program: &Program)
        ensures
            program@ == self@.program,
            self.wf() ==> program.wf(),
    {
        &self.program
    }

    /// The number of steps completed since the runner was made.
    pub fn step_count(&self) -> (step_count: u64)
        ensures
            step_count == self@.step_count,
    {
        self.step_count
    }

    /// The halt threshold, where one is set.
    pub fn next_halt(&self) -> (next_halt: Option<u64>)
        ensures
            match next_halt {
                Some(halt) => self@.next_halt == Some(halt as nat),
                None => self@.next_halt is None,
            },
    {
        self.next_halt
    }

    /// The next step can complete and be counted; `step` asks for room in
    /// the counter only then.
    pub fn can_complete(&self) -> (can: bool)
        requires
            self.wf(),
        ensures
            can == self@.can_complete(),
    {
        match self.program.decode(self.tape.read()) {
            Ok((_, ProgramStepResult::Step(Instruction::Left))) => self.tape.can_move_left(),
            Ok((_, ProgramStepResult::Step(Instruction::Right))) => self.tape.can_move_right(),
            Ok((_, ProgramStepResult::Step(_))) => true,
            _ => false,
        }
    }

    /// Takes one step: decodes the next instruction against the current
    /// cell and applies it to the tape or to a capability. `Output` hands
    /// the current cell to the output capability; `Input` writes what the
    /// input capability yields into the current cell.
    ///
    /// Whatever the capabilities answer, the new state and the report are
    /// those of [`RunnerView::step`] on an answer that they can give. Where
    /// the step can complete, the counter must have room to count it; a step
    /// that terminates or fails on a bracket or on the tape needs none.
    pub fn step(&mut self) -> (result: Result<ProgramStepResult, RunError>)
        requires
            old(self).wf(),
            old(self)@.step_count < u64::MAX || !old(self)@.can_complete(),
        ensures
            final(self).wf(),
            final(self).input_cap() == old(self).input_cap(),
            final(self).output_cap() == old(self).output_cap(),
            exists|io: IoOutcome|
                step_admits(old(self)@, io, old(self).input_cap(), old(self).output_cap())
                    && #[trigger] old(self)@.step(io) == (final(self)@, result),
            balanced(old(self)@.program.source) ==> !(result matches Err(
                RunError::MismatchedParen(_),
            )),
            ({
                let before = old(self)@;
                let after = final(self)@;
                let off_the_edge = {
                    ||| before.pending() == Some(Instruction::Left)
                        && before.tape.moved_left() is None
                    ||| before.pending() == Some(Instruction::Right)
                        && before.tape.moved_right() is None
                };
                &&& (result matches Err(RunError::MaxSizeExceeded(_))) == off_the_edge
                &&& if result matches Ok(ProgramStepResult::Step(_)) {
                    &&& before.can_complete()
                    &&& after.step_count == before.step_count + 1
                } else {
                    &&& after.tape == before.tape
                    &&& after.step_count == before.step_count
                }
            }),
    {
        let ghost quiet = IoOutcome { read: Ok(0u8), written: Ok(()) };
        assert(self.input_cap() == self.input && self.output_cap() == self.output);
        let cell = self.tape.read();
        match self.program.execute_command(cell) {
            Err(error) => {
                assert(old(self)@.step(quiet).1 is Err);
                Err(RunError::MismatchedParen(error))
            },
            Ok(ProgramStepResult::Terminate) => {
                assert(old(self)@.step(quiet).1 is Ok);
                Ok(ProgramStepResult::Terminate)
            },
            Ok(ProgramStepResult::Step(instruction)) => {
                let ghost mut io = quiet;
                match instruction {
                    Instruction::Left => {
                        if let Err(error) = self.tape.move_left() {
                            assert(old(self)@.step(quiet).1 is Err);
                            return Err(RunError::MaxSizeExceeded(error));
                        }
                    },
                    Instruction::Right => {
                        if let Err(error) = self.tape.move_right() {
                            assert(old(self)@.step(quiet).1 is Err);
                            return Err(RunError::MaxSizeExceeded(error));
                        }
                    },
                    Instruction::Increment => {
                        self.tape.increment();
                    },
                    Instruction::Decrement => {
                        self.tape.decrement();
                    },
                    Instruction::Output => {
                        let written = (self.output)(self.tape.read());
                        proof {
                            io = IoOutcome { read: Ok(0u8), written };
                        }
                        if let Err(error) = written {
                            assert(old(self)@.step(io).1 is Err);
                            return Err(RunError::Io(error));
                        }
                    },
                    Instruction::Input => {
                        let read = (self.input)();
                        proof {
                            io = IoOutcome { read, written: Ok(()) };
                        }
                        match read {
                            Ok(byte) => {
                                self.tape.write(byte);
                            },
                            Err(error) => {
                                assert(old(self)@.step(io).1 is Err);
                                return Err(RunError::Io(error));
                            },
                        }
                    },
                    Instruction::BeginLoop => {},
                    Instruction::EndLoop => {},
                }
                self.step_count += 1;
                assert(old(self)@.step(io).1 is Ok);
                Ok(ProgramStepResult::Step(instruction))
            },
        }
    }

    /// Runs for at most `steps` steps: sets the halt threshold `steps` past
    /// the steps taken so far, runs, and clears the threshold. A run that
    /// pauses has taken exactly `steps` steps, unless the counter holds its
    /// largest value; the next call goes on from there.
    pub fn run_for(&mut self, steps: u64) -> (result: Result<RunResult, (u64, RunError)>)
        requires
            old(self).wf(),
        ensures
            final(self).wf(),
            final(self).input_cap() == old(self).input_cap(),
            final(self).output_cap() == old(self).output_cap(),
            exists|io: spec_fn(nat) -> IoOutcome|
                run_admits(
                    old(self)@.with_halt(old(self)@.budget(steps as nat)),
                    io,
                    old(self).input_cap(),
                    old(self).output_cap(),
                ) && #[trigger] old(self)@.run_for(steps as nat, io) == (
                    final(self)@,
                    RunOutcome::of(result),
                ),
            final(self)@.next_halt is None,
            ({
                let before = old(self)@;
                let after = final(self)@;
                match result {
                    Ok(RunResult::StepCount(n)) => {
                        &&& after.step_count == before.step_count + n
                        &&& n == steps || after.step_count == u64::MAX
                    },
                    Ok(RunResult::Terminate) => after.program.terminated(),
                    Err((n, error)) => {
                        &&& after.step_count == before.step_count + n
                        &&& balanced(before.program.source) ==> !(error is MismatchedParen)
                        &&& error matches RunError::MismatchedParen(unmatched)
                            ==> after.program.step(after.tape.current()) == Err::<
                            (ProgramView, ProgramStepResult),
                            MismatchedParen,
                        >(unmatched)
                    },
                }
            }),
    {
        self.next_halt = if steps <= u64::MAX - self.step_count {
            Some(self.step_count + steps)
        } else {
            None
        };
        assert(self.output_cap() == old(self).output_cap());
        let ghost budgeted = self@;
        let result = self.run();
        let ghost ran = self@;
        self.next_halt = None;
        proof {
            let io = choose|io: spec_fn(nat) -> IoOutcome|
                run_admits(budgeted, io, self.input_cap(), self.output_cap())
                    && #[trigger] budgeted.run(io) == (ran, RunOutcome::of(result));
            assert(old(self)@.run_for(steps as nat, io) == (self@, RunOutcome::of(result)));
        }
        result
    }

    /// Steps until the program terminates, a step fails, or the step count
    /// is at the halt threshold. Without a threshold the run pauses only
    /// where the counter holds its largest value and could not count the
    /// step that comes next.
    ///
    /// On a pause and on a failure the result holds the number of steps that
    /// this call completed. Whatever the capabilities answer, the new state
    /// and the result are those of [`RunnerView::run`] on answers that they
    /// can give.
    pub fn run(&mut self) -> (result: Result<RunResult, (u64, RunError)>)
        requires
            old(self).wf(),
        ensures
            final(self).wf(),
            final(self).input_cap() == old(self).input_cap(),
            final(self).output_cap() == old(self).output_cap(),
            exists|io: spec_fn(nat) -> IoOutcome|
                run_admits(old(self)@, io, old(self).input_cap(), old(self).output_cap())
                    && #[trigger] old(self)@.run(io) == (final(self)@, RunOutcome::of(result)),
            final(self)@.next_halt == old(self)@.next_halt,
            ({
                let before = old(self)@;
                let after = final(self)@;
                match result {
                    Ok(RunResult::StepCount(n)) => {
                        &&& after.step_count == before.step_count + n
                        &&& after.halted()
                        &&& !before.halted() ==> after.step_count == before.limit()
                    },
                    Ok(RunResult::Terminate) => after.program.terminated(),
                    Err((n, error)) => {
                        &&& after.step_count == before.step_count + n
                        &&& balanced(before.program.source) ==> !(error is MismatchedParen)
                        &&& error matches RunError::MismatchedParen(unmatched)
                            ==> after.program.step(after.tape.current()) == Err::<
                            (ProgramView, ProgramStepResult),
                            MismatchedParen,
                        >(unmatched)
                    },
                }
            }),
    {
        let ghost start = self@;
        let ghost input = self.input_cap();
        let ghost output = self.output_cap();
        let ghost mut log: spec_fn(nat) -> IoOutcome = |n: nat|
            IoOutcome { read: Ok(0u8), written: Ok(()) };
        let mut iteration_steps: u64 = 0;
        loop
            invariant
                self.wf(),
                self.input_cap() == input,
                self.output_cap() == output,
                start == old(self)@,
                start.wf(),
                input == old(self).input_cap(),
                output == old(self).output_cap(),
                self@.next_halt == start.next_halt,
                self@.step_count == start.step_count + iteration_steps,
                forall|io: spec_fn(nat) -> IoOutcome| #[trigger]
                    same_answers(io, log, start.step_count, self@.step_count) ==> {
                        &&& start.run(io) == (self@.run(io).0, self@.run(io).1.after(
                            iteration_steps as nat,
                        ))
                        &&& run_admits(self@, io, input, output) ==> run_admits(
                            start,
                            io,
                            input,
                            output,
                        )
                    },
            decreases u64::MAX - self.step_count,
        {
            let halted = match self.next_halt {
                Some(halt_point) => self.step_count >= halt_point,
                None => self.step_count == u64::MAX && self.can_complete(),
            };
            if halted {
                proof {
                    assert(self@.halted());
                    assert(same_answers(log, log, start.step_count, self@.step_count));
                    lemma_run_counts_its_steps(start, log);
                }
                return Ok(RunResult::StepCount(iteration_steps));
            }
            let ghost before = self@;
            let ghost earlier = log;
            let stepped = self.step();
            proof {
                let answer = choose|io: IoOutcome|
                    step_admits(before, io, input, output) && #[trigger] before.step(io) == (
                        self@,
                        stepped,
                    );
                log = |n: nat| if n == before.step_count { answer } else { earlier(n) };
                assert(same_answers(log, earlier, start.step_count, before.step_count));
                assert forall|io: spec_fn(nat) -> IoOutcome| #[trigger]
                    same_answers(io, log, start.step_count, before.step_count + 1) implies {
                    &&& start.run(io) == (before.run(io).0, before.run(io).1.after(
                        iteration_steps as nat,
                    ))
                    &&& run_admits(before, io, input, output) ==> run_admits(
                        start,
                        io,
                        input,
                        output,
                    )
                    &&& io(before.step_count) == answer
                } by {
                    assert(same_answers(io, earlier, start.step_count, before.step_count));
                    assert(io(before.step_count) == log(before.step_count));
                }
            }
            match stepped {
                Err(error) => {
                    proof {
                        assert(same_answers(log, log, start.step_count, before.step_count + 1));
                        lemma_run_counts_its_steps(start, log);
                        lemma_bracket_failure_is_located(start, log);
                        if balanced(start.program.source) {
                            lemma_balanced_run_finds_every_bracket(start, log);
                        }
                    }
                    return Err((iteration_steps, error));
                },
                Ok(ProgramStepResult::Terminate) => {
                    proof {
                        assert(same_answers(log, log, start.step_count, before.step_count + 1));
                        lemma_run_counts_its_steps(start, log);
                    }
                    return Ok(RunResult::Terminate);
                },
                Ok(ProgramStepResult::Step(_)) => {
                    iteration_steps += 1;
                },
            }
        }
    }
}

} // verus!
