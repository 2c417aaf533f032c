use crate::instruction::Instruction;
use crate::program::{
    balanced, has_matching_close, has_matching_open, lemma_balanced_program_decodes,
    lemma_decoding_keeps_program, MismatchedParen, ProgramStepResult, ProgramView,
};
use crate::runner::{IoOutcome, RunError, RunOutcome, RunnerView};
use crate::tape::{wrapping_pred, wrapping_succ, MaxSizeExceeded, TapeView};
use vstd::prelude::*;

verus! {

/// Incrementing and decrementing wrap around the ends of the byte range and
/// undo each other.
pub proof fn lemma_cells_wrap_around(value: u8)
    ensures
        wrapping_succ(255) == 0,
        wrapping_pred(0) == 255,
        wrapping_succ(value) == (value + 1) % 256,
        wrapping_pred(value) == (value - 1) % 256,
        wrapping_pred(wrapping_succ(value)) == value,
        wrapping_succ(wrapping_pred(value)) == value,
{
}

/// No operation on a well-formed tape allocates beyond the cap or moves the
/// pointer off the allocated cells, none changes the cap, and a move that
/// fails is a move off the edge of a full tape.
pub proof fn lemma_tape_stays_within_cap(tape: TapeView, value: u8)
    requires
        tape.wf(),
    ensures
        tape.with_current(value).wf(),
        tape.with_current(value).max_size == tape.max_size,
        tape.with_current(value).current() == value,
        tape.moved_left() matches Some(moved) ==> moved.wf() && moved.max_size == tape.max_size
            && moved.allocated() <= tape.max_size && moved.pointer == tape.pointer - 1,
        tape.moved_right() matches Some(moved) ==> moved.wf() && moved.max_size == tape.max_size
            && moved.allocated() <= tape.max_size && moved.pointer == tape.pointer + 1,
        tape.moved_left() is None <==> tape.at_left_edge() && tape.allocated() == tape.max_size,
        tape.moved_right() is None <==> tape.at_right_edge() && tape.allocated() == tape.max_size,
{
}

/// The tape is a line of cells that all start at zero: a move changes no
/// cell, whether or not it allocates one, and a write changes the cell under
/// the pointer and no other.
pub proof fn lemma_cells_stay_in_place(tape: TapeView, value: u8, at: int)
    requires
        tape.wf(),
    ensures
        tape.moved_left() matches Some(moved) ==> moved.cell(at) == tape.cell(at),
        tape.moved_right() matches Some(moved) ==> moved.cell(at) == tape.cell(at),
        tape.with_current(value).cell(at) == if at == tape.pointer {
            value
        } else {
            tape.cell(at)
        },
        TapeView::fresh(tape.max_size).cell(at) == 0,
{
}

/// A move off the edge of a full tape fails the step, whatever the
/// capabilities answer: the step reports the size error, has consumed the
/// instruction, and leaves the tape, the step count and the threshold as they
/// were. Such a step cannot complete, so it needs no room in the counter.
pub proof fn lemma_move_off_a_full_tape_fails(state: RunnerView, io: IoOutcome)
    requires
        state.wf(),
        state.tape.full(),
        state.pending() == Some(Instruction::Right) && state.tape.at_right_edge()
            || state.pending() == Some(Instruction::Left) && state.tape.at_left_edge(),
    ensures
        !state.can_complete(),
        state.step(io) == (
            RunnerView { program: state.program.at(state.program.pc + 1), ..state },
            Err::<ProgramStepResult, RunError>(RunError::MaxSizeExceeded(MaxSizeExceeded)),
        ),
{
}

/// A step completes only where `can_complete` says so, and then it is
/// counted.
pub proof fn lemma_completed_steps_could_complete(state: RunnerView, io: IoOutcome)
    ensures
        state.step(io).1 matches Ok(ProgramStepResult::Step(_)) ==> state.can_complete()
            && state.step(io).0.step_count == state.step_count + 1,
{
}

/// Whatever the capabilities answer, a step from a well-formed state leaves a
/// well-formed state with the same instructions, the same cap and the same
/// halt threshold; the allocated cells stay within the cap. A step that fails
/// or terminates leaves the tape and the step count as they were; any other
/// step counts once.
pub proof fn lemma_step_keeps_invariant(state: RunnerView, io: IoOutcome)
    requires
        state.wf(),
    ensures
        ({
            let (next, report) = state.step(io);
            &&& next.wf()
            &&& next.program.source == state.program.source
            &&& next.tape.max_size == state.tape.max_size
            &&& next.tape.allocated() <= next.tape.max_size
            &&& next.next_halt == state.next_halt
            &&& report matches Ok(ProgramStepResult::Step(_)) ==> next.step_count
                == state.step_count + 1
            &&& !(report matches Ok(ProgramStepResult::Step(_))) ==> next.tape == state.tape
                && next.step_count == state.step_count
        }),
{
    lemma_decoding_keeps_program(state.program, state.tape.current());
    lemma_tape_stays_within_cap(state.tape, 0);
}

/// Whatever the capabilities answer, a run from a well-formed state ends in
/// a well-formed state with the same instructions, the same cap and the same
/// halt threshold: at no point of a run do the allocated cells exceed the
/// cap.
pub proof fn lemma_run_keeps_invariant(state: RunnerView, io: spec_fn(nat) -> IoOutcome)
    requires
        state.wf(),
    ensures
        ({
            let (end, _) = state.run(io);
            &&& end.wf()
            &&& end.program.source == state.program.source
            &&& end.tape.max_size == state.tape.max_size
            &&& end.tape.allocated() <= end.tape.max_size
            &&& end.next_halt == state.next_halt
        }),
    decreases state.limit() - state.step_count,
{
    if !state.halted() {
        let (next, report) = state.step(io(state.step_count));
        lemma_step_keeps_invariant(state, io(state.step_count));
        if report matches Ok(ProgramStepResult::Step(_)) {
            lemma_run_keeps_invariant(next, io);
        }
    }
}

/// A run of a balanced program never fails on a bracket, whatever the
/// capabilities answer. It ends with `Terminated` only with the counter at
/// the end of the program, and a run that starts there, not yet at its
/// threshold, ends with `Terminated` at once. Without a threshold it pauses
/// only where the step counter holds its largest value and a step that would
/// have to be counted comes next.
pub proof fn lemma_balanced_run_finds_every_bracket(
    state: RunnerView,
    io: spec_fn(nat) -> IoOutcome,
)
    requires
        state.wf(),
        balanced(state.program.source),
    ensures
        !(state.run(io).1 matches RunOutcome::Failed(_, RunError::MismatchedParen(_))),
        state.run(io).1 is Terminated ==> state.run(io).0.program.terminated(),
        state.program.terminated() && !state.halted() ==> state.run(io) == (
            state,
            RunOutcome::Terminated,
        ),
        state.program.terminated() && state.next_halt is None ==> !state.halted(),
        state.next_halt is None && state.run(io).1 is Paused ==> {
            let end = state.run(io).0;
            &&& end.step_count >= u64::MAX
            &&& end.can_complete()
        },
        !state.halted() ==> !(state.step(io(state.step_count)).1 matches Err(
            RunError::MismatchedParen(_),
        )),
    decreases state.limit() - state.step_count,
{
    if !state.halted() {
        let (next, report) = state.step(io(state.step_count));
        lemma_balanced_program_decodes(state.program, state.tape.current());
        lemma_step_keeps_invariant(state, io(state.step_count));
        if report matches Ok(ProgramStepResult::Step(_)) {
            lemma_balanced_run_finds_every_bracket(next, io);
        }
    }
}

/// The number of steps that a run reports is the number by which the step
/// count has grown. A run pauses only at its threshold, and no later than
/// there; it terminates only with the counter at the end of the program.
pub proof fn lemma_run_counts_its_steps(state: RunnerView, io: spec_fn(nat) -> IoOutcome)
    ensures
        ({
            let (end, outcome) = state.run(io);
            match outcome {
                RunOutcome::Paused(n) => end.step_count == state.step_count + n && end.halted()
                    && (!state.halted() ==> end.step_count == state.limit()),
                RunOutcome::Failed(n, _) => end.step_count == state.step_count + n,
                RunOutcome::Terminated => end.step_count >= state.step_count
                    && end.program.terminated() && !end.halted(),
            }
        }),
    decreases state.limit() - state.step_count,
{
    if !state.halted() {
        let (next, report) = state.step(io(state.step_count));
        if report matches Ok(ProgramStepResult::Step(_)) {
            lemma_run_counts_its_steps(next, io);
        }
    }
}

/// A run goes through every state that it reaches: where `count` steps
/// complete from `state`, the run from `state` ends as the run from the state
/// reached does, with `count` steps more to report.
pub proof fn lemma_run_goes_through(state: RunnerView, io: spec_fn(nat) -> IoOutcome, count: nat)
    requires
        state.after_steps(io, count) is Some,
    ensures
        ({
            let reached = state.after_steps(io, count)->0;
            &&& reached.step_count == state.step_count + count
            &&& state.run(io) == (reached.run(io).0, reached.run(io).1.after(count))
        }),
    decreases count,
{
    if count == 0 {
        assert(state.run(io).1.after(0) == state.run(io).1);
    } else {
        let (next, _) = state.step(io(state.step_count));
        lemma_run_goes_through(next, io, (count - 1) as nat);
        let reached = state.after_steps(io, count)->0;
        assert(reached.run(io).1.after((count - 1) as nat).after(1) == reached.run(io).1.after(
            count,
        ));
    }
}

/// A bracket without a partner fails the run that reaches it with a cell
/// value that calls for the jump. Where `count` steps complete and lead to
/// such a bracket, short of the threshold if there is one, the run fails on
/// it, reports `count` completed steps and ends in the state in which the
/// bracket was reached.
pub proof fn lemma_unmatched_bracket_fails(
    state: RunnerView,
    io: spec_fn(nat) -> IoOutcome,
    count: nat,
)
    requires
        state.after_steps(io, count) is Some,
        !state.after_steps(io, count)->0.program.terminated(),
        state.next_halt matches Some(halt) ==> state.step_count + count < halt,
    ensures
        ({
            let reached = state.after_steps(io, count)->0;
            let source = reached.program.source;
            let pc = reached.program.pc;
            &&& source[pc] == Instruction::BeginLoop && reached.tape.current() == 0
                && !has_matching_close(source, pc) ==> state.run(io) == (
                reached,
                RunOutcome::Failed(count, RunError::MismatchedParen(MismatchedParen::no_closing())),
            )
            &&& source[pc] == Instruction::EndLoop && reached.tape.current() != 0
                && !has_matching_open(source, pc) ==> state.run(io) == (
                reached,
                RunOutcome::Failed(count, RunError::MismatchedParen(MismatchedParen::no_opening())),
            )
        }),
{
    lemma_run_goes_through(state, io, count);
    lemma_steps_keep_threshold(state, io, count);
}

/// The steps of a run leave the halt threshold as it was.
pub proof fn lemma_steps_keep_threshold(
    state: RunnerView,
    io: spec_fn(nat) -> IoOutcome,
    count: nat,
)
    requires
        state.after_steps(io, count) is Some,
    ensures
        state.after_steps(io, count)->0.next_halt == state.next_halt,
    decreases count,
{
    if count > 0 {
        let (next, _) = state.step(io(state.step_count));
        lemma_steps_keep_threshold(next, io, (count - 1) as nat);
    }
}

/// A run that fails on a bracket reports the steps completed before the
/// failing decode, and ends in the state in which that decode failed.
pub proof fn lemma_bracket_failure_is_located(state: RunnerView, io: spec_fn(nat) -> IoOutcome)
    ensures
        state.run(io).1 matches RunOutcome::Failed(n, RunError::MismatchedParen(error)) ==> {
            let end = state.run(io).0;
            &&& end.step_count == state.step_count + n
            &&& end.program.step(end.tape.current()) == Err::<
                (ProgramView, ProgramStepResult),
                MismatchedParen,
            >(error)
        },
    decreases state.limit() - state.step_count,
{
    if !state.halted() {
        let (next, report) = state.step(io(state.step_count));
        if report matches Ok(ProgramStepResult::Step(_)) {
            lemma_bracket_failure_is_located(next, io);
        }
    }
}

/// Once a step has reported `Terminate`, every later step does, and nothing
/// changes any more.
pub proof fn lemma_terminate_is_absorbing(state: RunnerView, io: IoOutcome, later: IoOutcome)
    requires
        state.step(io).1 == Ok::<ProgramStepResult, RunError>(ProgramStepResult::Terminate),
    ensures
        state.step(io).0 == state,
        state.step(later) == (state, Ok::<ProgramStepResult, RunError>(ProgramStepResult::Terminate)),
{
}

/// A run leaves the halt threshold as it found it.
pub proof fn lemma_run_keeps_threshold(state: RunnerView, io: spec_fn(nat) -> IoOutcome)
    ensures
        state.run(io).0.next_halt == state.next_halt,
    decreases state.limit() - state.step_count,
{
    if !state.halted() {
        let (next, report) = state.step(io(state.step_count));
        if report matches Ok(ProgramStepResult::Step(_)) {
            lemma_run_keeps_threshold(next, io);
        }
    }
}

/// A halt threshold does not change what a run does before it reaches the
/// threshold. Where a run without a threshold terminates or fails, the same
/// run under the threshold `halt` either ends in the same state and the same
/// way before the threshold, or pauses at it in a state from which the run
/// without a threshold goes on to the same end.
pub proof fn lemma_run_under_threshold(state: RunnerView, halt: nat, io: spec_fn(nat) -> IoOutcome)
    requires
        state.next_halt is None,
        state.step_count <= halt <= u64::MAX,
        !(state.run(io).1 is Paused),
    ensures
        ({
            let (end, outcome) = state.run(io);
            let (bounded_end, bounded_outcome) = state.with_halt(Some(halt)).run(io);
            if end.step_count < halt {
                &&& bounded_outcome == outcome
                &&& bounded_end == end.with_halt(Some(halt))
            } else {
                let resumed = bounded_end.with_halt(None);
                &&& bounded_outcome == RunOutcome::Paused((halt - state.step_count) as nat)
                &&& resumed.step_count == halt
                &&& resumed.run(io).0 == end
                &&& resumed.run(io).1.after((halt - state.step_count) as nat) == outcome
            }
        }),
    decreases halt - state.step_count,
{
    let bounded = state.with_halt(Some(halt));
    lemma_run_counts_its_steps(state, io);
    if state.step_count == halt {
        assert(bounded.halted());
        assert(bounded.with_halt(None) == state);
        assert(state.run(io).1.after(0) == state.run(io).1);
    } else {
        let answer = io(state.step_count);
        let (next, report) = state.step(answer);
        assert(bounded.step(answer) == (next.with_halt(Some(halt)), report));
        assert(!bounded.halted());
        match report {
            Ok(ProgramStepResult::Step(_)) => {
                assert(next.next_halt is None);
                lemma_run_under_threshold(next, halt, io);
                lemma_run_counts_its_steps(next, io);
                let end = state.run(io).0;
                if end.step_count >= halt {
                    let resumed = next.with_halt(Some(halt)).run(io).0.with_halt(None);
                    let rest = (halt - next.step_count) as nat;
                    assert(resumed.run(io).1.after(rest).after(1) == resumed.run(io).1.after(
                        (halt - state.step_count) as nat,
                    ));
                }
            },
            _ => {},
        }
    }
}

/// Budgeting observes a run and does not change it. Where a run without a
/// threshold terminates or fails, runs of at most `steps` steps each,
/// repeated while they pause, end in the same state (the same tape, pointer,
/// program counter and step count) and in the same way, whatever the budget:
/// `rounds` of them pause after `steps` steps each, and the next one ends as
/// the single run does, with the steps of the rounds before it left out of
/// its report.
pub proof fn lemma_budgeted_runs_reach_the_same_end(
    state: RunnerView,
    steps: nat,
    io: spec_fn(nat) -> IoOutcome,
) -> (rounds: nat)
    requires
        state.next_halt is None,
        steps >= 1,
        !(state.run(io).1 is Paused),
    ensures
        ({
            let (end, outcome) = state.run_in_rounds(steps, io, rounds);
            &&& state.run(io) == (end, outcome.after(rounds * steps))
            &&& state.run(io).1 is Terminated ==> state.run_in_rounds(steps, io, rounds)
                == state.run(io)
        }),
    decreases state.run(io).0.step_count - state.step_count,
{
    let (end, outcome) = state.run(io);
    lemma_run_counts_its_steps(state, io);
    lemma_run_keeps_threshold(state, io);
    match state.budget(steps) {
        None => {
            // no threshold fits the counter: the first run is the single run
            assert(state.with_halt(None) == state);
            assert(state.run_for(steps, io) == (end, outcome));
            0
        },
        Some(halt) => {
            lemma_run_under_threshold(state, halt, io);
            let (bounded_end, bounded_outcome) = state.with_halt(Some(halt)).run(io);
            if end.step_count < halt {
                // the first run ends as the single run does
                assert(state.run_for(steps, io) == (end, outcome));
                0
            } else {
                // the first run pauses after `steps` steps; the rest follows from there
                let resumed = bounded_end.with_halt(None);
                assert(state.run_for(steps, io) == (resumed, bounded_outcome));
                let rest = lemma_budgeted_runs_reach_the_same_end(resumed, steps, io);
                assert((rest + 1) * steps == rest * steps + steps) by (nonlinear_arith);
                rest + 1
            }
        },
    }
}

} // verus!
