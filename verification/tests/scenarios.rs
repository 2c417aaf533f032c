use bf_machine::{Instruction, ProgramStepResult, RunError, RunResult, Runner};
use std::cell::RefCell;
use std::io::Error;

fn end_of_input() -> Result<u8, Error> {
    // an input capability at the end of its stream yields zero
    Ok(0)
}

fn discard(_byte: u8) -> Result<(), Error> {
    Ok(())
}

#[test]
fn three_increments_then_output_records_three() {
    let recorded = RefCell::new(Vec::new());
    let mut runner = Runner::new(30000, "+++.", end_of_input, |byte| {
        recorded.borrow_mut().push(byte);
        Ok(())
    });
    assert!(matches!(runner.run(), Ok(RunResult::Terminate)));
    assert_eq!(*recorded.borrow(), vec![3]);
}

#[test]
fn clear_loop_terminates_with_a_zero_cell() {
    let mut runner = Runner::new(30000, "+[-]", end_of_input, discard);
    let mut reports = Vec::new();
    loop {
        match runner.step() {
            Ok(ProgramStepResult::Step(instruction)) => reports.push(instruction),
            Ok(ProgramStepResult::Terminate) => break,
            Err(_) => panic!("the clear loop failed"),
        }
    }
    assert_eq!(
        reports,
        vec![
            Instruction::Increment,
            Instruction::BeginLoop,
            Instruction::Decrement,
            Instruction::EndLoop,
        ]
    );
    assert_eq!(runner.tape().read(), 0);
    assert_eq!(runner.step_count(), 4);
    assert_eq!(runner.program().pc(), 4);

    let mut whole = Runner::new(30000, "+[-]", end_of_input, discard);
    assert!(matches!(whole.run(), Ok(RunResult::Terminate)));
    assert_eq!(whole.tape().read(), 0);
    assert_eq!(whole.step_count(), 4);
}

#[test]
fn clear_loop_repeats_while_the_cell_is_not_zero() {
    let mut runner = Runner::new(30000, "++[-]", end_of_input, discard);
    let mut reports = Vec::new();
    loop {
        match runner.step() {
            Ok(ProgramStepResult::Step(instruction)) => reports.push(instruction),
            Ok(ProgramStepResult::Terminate) => break,
            Err(_) => panic!("the clear loop failed"),
        }
    }
    assert_eq!(
        reports,
        vec![
            Instruction::Increment,
            Instruction::Increment,
            Instruction::BeginLoop,
            Instruction::Decrement,
            Instruction::EndLoop,
            Instruction::BeginLoop,
            Instruction::Decrement,
            Instruction::EndLoop,
        ]
    );
    assert_eq!(runner.tape().read(), 0);
}

#[test]
fn input_at_end_of_stream_outputs_zero() {
    let recorded = RefCell::new(Vec::new());
    let mut runner = Runner::new(30000, ",.", end_of_input, |byte| {
        recorded.borrow_mut().push(byte);
        Ok(())
    });
    assert!(matches!(runner.run(), Ok(RunResult::Terminate)));
    assert_eq!(*recorded.borrow(), vec![0]);
}

#[test]
fn input_at_end_of_stream_overwrites_the_cell_with_zero() {
    let recorded = RefCell::new(Vec::new());
    let mut runner = Runner::new(30000, "+++,.", end_of_input, |byte| {
        recorded.borrow_mut().push(byte);
        Ok(())
    });
    assert!(matches!(runner.run(), Ok(RunResult::Terminate)));
    assert_eq!(*recorded.borrow(), vec![0]);
}

#[test]
fn lone_open_bracket_fails_on_a_zero_cell() {
    let mut runner = Runner::new(30000, "[", end_of_input, discard);
    match runner.run() {
        Err((steps, RunError::MismatchedParen(error))) => {
            assert_eq!(steps, 0);
            assert_eq!(error.message, "found no matching closing parenthesis");
        },
        _ => panic!("an unmatched bracket was matched"),
    }
    assert_eq!(runner.step_count(), 0);
}

#[test]
fn lone_open_bracket_reached_with_a_zero_cell_fails_later() {
    let mut runner = Runner::new(30000, "+-[", end_of_input, discard);
    match runner.run() {
        Err((steps, RunError::MismatchedParen(error))) => {
            assert_eq!(steps, 2);
            assert_eq!(error.message, "found no matching closing parenthesis");
        },
        _ => panic!("an unmatched bracket was matched"),
    }
    assert_eq!(runner.step_count(), 2);
    assert_eq!(runner.program().pc(), 2);
}

#[test]
fn unmatched_open_bracket_is_not_noticed_with_a_nonzero_cell() {
    let mut runner = Runner::new(30000, "+[", end_of_input, discard);
    assert!(matches!(runner.run(), Ok(RunResult::Terminate)));
    assert_eq!(runner.step_count(), 2);
}

#[test]
fn unmatched_close_bracket_fails_after_the_steps_before_it() {
    let mut runner = Runner::new(30000, "+>+<]", end_of_input, discard);
    match runner.run() {
        Err((steps, RunError::MismatchedParen(error))) => {
            assert_eq!(steps, 4);
            assert_eq!(error.message, "found no matching opening parenthesis");
        },
        _ => panic!("an unmatched bracket was matched"),
    }
    assert_eq!(runner.step_count(), 4);
}

#[test]
fn move_right_on_a_tape_of_one_cell_fails() {
    let mut runner = Runner::new(1, ">", end_of_input, discard);
    match runner.run() {
        Err((steps, RunError::MaxSizeExceeded(_))) => assert_eq!(steps, 0),
        _ => panic!("the tape grew past its cap"),
    }
    assert_eq!(runner.tape().pointer(), 0);
    assert_eq!(runner.tape().len(), 1);
    assert_eq!(runner.step_count(), 0);
}

#[test]
fn tape_never_grows_past_its_cap_during_a_run() {
    let mut runner = Runner::new(5, "+[>+]", end_of_input, discard);
    loop {
        let before = (runner.tape().pointer(), runner.tape().len());
        match runner.step() {
            Ok(ProgramStepResult::Step(_)) => assert!(runner.tape().len() <= 5),
            Ok(ProgramStepResult::Terminate) => panic!("the walk to the right ended"),
            Err(RunError::MaxSizeExceeded(_)) => {
                assert_eq!((runner.tape().pointer(), runner.tape().len()), before);
                break;
            },
            Err(_) => panic!("the wrong failure"),
        }
    }
    assert_eq!(runner.tape().len(), 5);
    assert_eq!(runner.tape().pointer(), 4);
    assert_eq!(runner.tape().read(), 1);
}

#[test]
fn balanced_program_runs_to_the_end() {
    let recorded = RefCell::new(Vec::new());
    // 8 * 8 + 1 = 65
    let mut runner = Runner::new(30000, "++++++++[>++++++++<-]>+.", end_of_input, |byte| {
        recorded.borrow_mut().push(byte);
        Ok(())
    });
    assert!(matches!(runner.run(), Ok(RunResult::Terminate)));
    assert_eq!(*recorded.borrow(), vec![65]);
    assert_eq!(runner.program().pc(), runner.program().source().len());
    assert_eq!(runner.tape().pointer(), 1);
}

#[test]
fn nested_loops_multiply() {
    let recorded = RefCell::new(Vec::new());
    // 2 * 3 * 4 = 24
    let mut runner = Runner::new(30000, "++[>+++[>++++<-]<-]>>.", end_of_input, |byte| {
        recorded.borrow_mut().push(byte);
        Ok(())
    });
    assert!(matches!(runner.run(), Ok(RunResult::Terminate)));
    assert_eq!(*recorded.borrow(), vec![24]);
}

#[test]
fn budgeted_runs_end_where_a_single_run_ends() {
    let source = "++++[>+++[>++<-]<-]>>.<<<+>,";
    let single_output = RefCell::new(Vec::new());
    let mut single = Runner::new(64, source, || Ok(9), |byte| {
        single_output.borrow_mut().push(byte);
        Ok(())
    });
    assert!(matches!(single.run(), Ok(RunResult::Terminate)));
    assert_eq!(*single_output.borrow(), vec![24]);

    for budget in [1u64, 2, 3, 7, 10, 1000] {
        let output = RefCell::new(Vec::new());
        let mut budgeted = Runner::new(64, source, || Ok(9), |byte| {
            output.borrow_mut().push(byte);
            Ok(())
        });
        let mut paused_steps = 0;
        loop {
            match budgeted.run_for(budget) {
                Ok(RunResult::StepCount(steps)) => {
                    assert_eq!(steps, budget);
                    paused_steps += steps;
                },
                Ok(RunResult::Terminate) => break,
                Err(_) => panic!("a budgeted run failed"),
            }
        }
        assert!(paused_steps <= single.step_count());
        assert!(single.step_count() - paused_steps <= budget);
        assert_eq!(budgeted.step_count(), single.step_count());
        assert_eq!(budgeted.program().pc(), single.program().pc());
        assert_eq!(budgeted.tape().pointer(), single.tape().pointer());
        assert_eq!(budgeted.tape().len(), single.tape().len());
        assert_eq!(budgeted.tape().read(), single.tape().read());
        assert_eq!(*output.borrow(), *single_output.borrow());
    }
}
