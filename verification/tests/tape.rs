use bf_machine::{MaxSizeExceeded, Tape};

#[test]
fn new_tape_is_one_zero_cell_at_the_origin() {
    let tape = Tape::new(16);
    assert_eq!(tape.read(), 0);
    assert_eq!(tape.pointer(), 0);
    assert_eq!(tape.len(), 1);
    assert_eq!(tape.max_size(), 16);
}

#[test]
fn write_then_read_gives_the_byte_back() {
    let mut tape = Tape::new(4);
    tape.write(200);
    assert_eq!(tape.read(), 200);
    assert_eq!(*tape.val(), 200);
    assert_eq!(tape.len(), 1);
}

#[test]
fn val_mut_writes_through_to_the_current_cell() {
    let mut tape = Tape::new(4);
    *tape.val_mut() = 17;
    assert_eq!(tape.read(), 17);
    assert_eq!(tape.move_right(), Ok(()));
    *tape.val_mut() = 99;
    assert_eq!(tape.read(), 99);
    assert_eq!(tape.move_left(), Ok(()));
    assert_eq!(tape.read(), 17);
}

#[test]
fn increment_wraps_from_255_to_0() {
    let mut tape = Tape::new(1);
    tape.write(255);
    tape.increment();
    assert_eq!(tape.read(), 0);
}

#[test]
fn decrement_wraps_from_0_to_255() {
    let mut tape = Tape::new(1);
    tape.decrement();
    assert_eq!(tape.read(), 255);
}

#[test]
fn increment_and_decrement_undo_each_other_for_every_byte() {
    let mut tape = Tape::new(1);
    for byte in 0..=255u8 {
        tape.write(byte);
        tape.increment();
        assert_eq!(tape.read(), byte.wrapping_add(1));
        tape.decrement();
        assert_eq!(tape.read(), byte);
        tape.decrement();
        assert_eq!(tape.read(), byte.wrapping_sub(1));
    }
}

#[test]
fn increment_counts_up_by_one() {
    let mut tape = Tape::new(1);
    tape.increment();
    tape.increment();
    tape.increment();
    assert_eq!(tape.read(), 3);
    tape.decrement();
    assert_eq!(tape.read(), 2);
}

#[test]
fn move_right_allocates_a_zero_cell() {
    let mut tape = Tape::new(3);
    tape.write(5);
    assert_eq!(tape.move_right(), Ok(()));
    assert_eq!(tape.pointer(), 1);
    assert_eq!(tape.read(), 0);
    assert_eq!(tape.len(), 2);
}

#[test]
fn move_left_allocates_a_zero_cell_at_a_negative_address() {
    let mut tape = Tape::new(3);
    tape.write(5);
    assert_eq!(tape.move_left(), Ok(()));
    assert_eq!(tape.pointer(), -1);
    assert_eq!(tape.read(), 0);
    assert_eq!(tape.len(), 2);
    tape.write(9);
    assert_eq!(tape.move_left(), Ok(()));
    assert_eq!(tape.pointer(), -2);
    assert_eq!(tape.read(), 0);
    assert_eq!(tape.len(), 3);
    assert_eq!(tape.move_right(), Ok(()));
    assert_eq!(tape.read(), 9);
    assert_eq!(tape.move_right(), Ok(()));
    assert_eq!(tape.read(), 5);
    assert_eq!(tape.pointer(), 0);
}

#[test]
fn cells_keep_their_content_on_both_sides_of_the_origin() {
    let mut tape = Tape::new(7);
    for step in 0..3u8 {
        assert_eq!(tape.move_left(), Ok(()));
        tape.write(10 + step);
    }
    for _ in 0..3 {
        assert_eq!(tape.move_right(), Ok(()));
    }
    for step in 0..3u8 {
        assert_eq!(tape.move_right(), Ok(()));
        tape.write(20 + step);
    }
    assert_eq!(tape.len(), 7);
    assert_eq!(tape.pointer(), 3);
    for _ in 0..6 {
        assert_eq!(tape.move_left(), Ok(()));
    }
    assert_eq!(tape.pointer(), -3);
    let mut seen = Vec::new();
    for _ in 0..6 {
        seen.push(tape.read());
        assert_eq!(tape.move_right(), Ok(()));
    }
    seen.push(tape.read());
    assert_eq!(seen, vec![12, 11, 10, 0, 20, 21, 22]);
}

#[test]
fn move_right_past_the_cap_fails_and_changes_nothing() {
    let mut tape = Tape::new(2);
    tape.write(1);
    assert_eq!(tape.move_right(), Ok(()));
    tape.write(2);
    assert_eq!(tape.move_right(), Err(MaxSizeExceeded));
    assert_eq!(tape.pointer(), 1);
    assert_eq!(tape.read(), 2);
    assert_eq!(tape.len(), 2);
    assert_eq!(tape.max_size(), 2);
}

#[test]
fn move_left_past_the_cap_fails_and_changes_nothing() {
    let mut tape = Tape::new(2);
    tape.write(1);
    assert_eq!(tape.move_left(), Ok(()));
    tape.write(2);
    assert_eq!(tape.move_left(), Err(MaxSizeExceeded));
    assert_eq!(tape.pointer(), -1);
    assert_eq!(tape.read(), 2);
    assert_eq!(tape.len(), 2);
}

#[test]
fn the_cap_counts_both_sides_together() {
    let mut tape = Tape::new(3);
    assert_eq!(tape.move_left(), Ok(()));
    assert_eq!(tape.move_right(), Ok(()));
    assert_eq!(tape.move_right(), Ok(()));
    assert_eq!(tape.len(), 3);
    assert_eq!(tape.move_right(), Err(MaxSizeExceeded));
    assert_eq!(tape.move_left(), Ok(()));
    assert_eq!(tape.move_left(), Ok(()));
    assert_eq!(tape.pointer(), -1);
    assert_eq!(tape.move_left(), Err(MaxSizeExceeded));
    assert_eq!(tape.len(), 3);
}

#[test]
fn moving_onto_allocated_cells_never_fails_on_a_full_tape() {
    let mut tape = Tape::new(3);
    assert_eq!(tape.move_right(), Ok(()));
    assert_eq!(tape.move_right(), Ok(()));
    for _ in 0..10 {
        assert_eq!(tape.move_left(), Ok(()));
        assert_eq!(tape.move_left(), Ok(()));
        assert_eq!(tape.move_right(), Ok(()));
        assert_eq!(tape.move_right(), Ok(()));
        assert!(tape.len() <= tape.max_size());
    }
    assert_eq!(tape.len(), 3);
}

#[test]
fn a_tape_of_one_cell_cannot_move() {
    let mut tape = Tape::new(1);
    assert_eq!(tape.move_right(), Err(MaxSizeExceeded));
    assert_eq!(tape.move_left(), Err(MaxSizeExceeded));
    assert_eq!(tape.pointer(), 0);
    assert_eq!(tape.len(), 1);
}

#[test]
fn size_error_has_its_message() {
    assert_eq!(
        MaxSizeExceeded.message(),
        "The maximum size specified when creating the tape would be exceededby the operation."
    );
}

#[test]
fn can_move_says_whether_a_move_would_succeed() {
    let mut tape = Tape::new(2);
    assert!(tape.can_move_left());
    assert!(tape.can_move_right());
    assert_eq!(tape.move_right(), Ok(()));
    // full, at the right edge: only the way back is open
    assert!(tape.can_move_left());
    assert!(!tape.can_move_right());
    assert_eq!(tape.move_right(), Err(MaxSizeExceeded));
    assert_eq!(tape.move_left(), Ok(()));
    // full, at the left edge
    assert!(!tape.can_move_left());
    assert!(tape.can_move_right());
    assert_eq!(tape.move_left(), Err(MaxSizeExceeded));
    assert_eq!(tape.len(), 2);

    let one = Tape::new(1);
    assert!(!one.can_move_left());
    assert!(!one.can_move_right());
}

#[test]
fn can_move_left_on_the_negative_side() {
    let mut tape = Tape::new(3);
    assert_eq!(tape.move_left(), Ok(()));
    assert_eq!(tape.move_left(), Ok(()));
    assert!(!tape.can_move_left());
    assert!(tape.can_move_right());
    assert_eq!(tape.move_right(), Ok(()));
    assert!(tape.can_move_left());
    assert!(tape.can_move_right());
    assert_eq!(tape.pointer(), -1);
}
