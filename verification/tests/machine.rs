use vexide_panic::backtrace::Backtrace;
use vexide_panic::capture::{Capture, Progress, Reply, Request};
use vexide_panic::unwind::UnwindError;

fn pending(progress: Progress) -> Capture {
    match progress {
        Progress::Pending(capture) => capture,
        Progress::Finished(outcome) => panic!("the capture ended early: {:?}", outcome),
    }
}

fn finished(progress: Progress) -> Result<Backtrace, UnwindError> {
    match progress {
        Progress::Finished(outcome) => outcome,
        Progress::Pending(capture) => panic!("the capture goes on: {:?}", capture),
    }
}

fn stepping() -> Capture {
    let capture = pending(Capture::new().advance(Reply::Context(Ok(()))));
    pending(capture.advance(Reply::Cursor(Ok(()))))
}

fn record(capture: Capture, ip: usize, signal: bool) -> Capture {
    let capture = pending(capture.advance(Reply::Step(true)));
    let capture = pending(capture.advance(Reply::InstructionPointer(Ok(ip))));
    pending(capture.advance(Reply::SignalFrame(signal)))
}

#[test]
fn capture_starts_by_asking_for_the_context() {
    assert_eq!(Capture::new().request(), Request::Context);
}

#[test]
fn questions_follow_the_order_of_the_walk() {
    let capture = Capture::new();
    let capture = pending(capture.advance(Reply::Context(Ok(()))));
    assert_eq!(capture.request(), Request::Cursor);
    let capture = pending(capture.advance(Reply::Cursor(Ok(()))));
    assert_eq!(capture.request(), Request::Step);
    let capture = pending(capture.advance(Reply::Step(true)));
    assert_eq!(capture.request(), Request::InstructionPointer);
    let capture = pending(capture.advance(Reply::InstructionPointer(Ok(0x41))));
    assert_eq!(capture.request(), Request::SignalFrame);
    let capture = pending(capture.advance(Reply::SignalFrame(false)));
    assert_eq!(capture.request(), Request::Step);
    assert_eq!(finished(capture.advance(Reply::Step(false))), Ok(Backtrace { frames: vec![0x40] }));
}

#[test]
fn top_of_stack_right_away_gives_no_frames() {
    assert_eq!(finished(stepping().advance(Reply::Step(false))), Ok(Backtrace { frames: Vec::new() }));
}

#[test]
fn machine_records_frames_in_the_order_visited() {
    let capture = record(stepping(), 0x1001, false);
    let capture = record(capture, 0x2000, true);
    let capture = record(capture, 0x3001, false);
    assert_eq!(
        finished(capture.advance(Reply::Step(false))),
        Ok(Backtrace { frames: vec![0x1000, 0x2000, 0x3000] })
    );
}

#[test]
fn machine_ends_on_a_context_failure() {
    let outcome = finished(Capture::new().advance(Reply::Context(Err(UnwindError::NoMemory))));
    assert_eq!(outcome, Err(UnwindError::NoMemory));
}

#[test]
fn machine_ends_on_a_cursor_failure() {
    let capture = pending(Capture::new().advance(Reply::Context(Ok(()))));
    let outcome = finished(capture.advance(Reply::Cursor(Err(UnwindError::BadVersion))));
    assert_eq!(outcome, Err(UnwindError::BadVersion));
}

#[test]
fn machine_ends_on_a_register_failure_and_drops_what_it_recorded() {
    let capture = record(stepping(), 0x1001, false);
    let capture = pending(capture.advance(Reply::Step(true)));
    let outcome = finished(capture.advance(Reply::InstructionPointer(Err(UnwindError::BadRegister))));
    assert_eq!(outcome, Err(UnwindError::BadRegister));
}

#[test]
fn answer_to_another_question_changes_nothing() {
    let replies = [
        Reply::Context(Ok(())),
        Reply::Context(Err(UnwindError::NoInfo)),
        Reply::Cursor(Ok(())),
        Reply::Cursor(Err(UnwindError::NoInfo)),
        Reply::Step(true),
        Reply::Step(false),
        Reply::InstructionPointer(Ok(0x99)),
        Reply::InstructionPointer(Err(UnwindError::NoInfo)),
        Reply::SignalFrame(true),
        Reply::SignalFrame(false),
    ];
    let mut capture = record(stepping(), 0x1001, false);
    capture = pending(capture.advance(Reply::Step(true)));
    capture = pending(capture.advance(Reply::InstructionPointer(Ok(0x2001))));
    assert_eq!(capture.request(), Request::SignalFrame);
    for reply in replies {
        if matches!(reply, Reply::SignalFrame(_)) {
            continue;
        }
        capture = pending(capture.advance(reply));
        assert_eq!(capture.request(), Request::SignalFrame);
    }
    let capture = pending(capture.advance(Reply::SignalFrame(false)));
    assert_eq!(
        finished(capture.advance(Reply::Step(false))),
        Ok(Backtrace { frames: vec![0x1000, 0x2000] })
    );
}

#[test]
fn unasked_answers_before_the_context_are_ignored() {
    let mut capture = Capture::new();
    for reply in [Reply::Cursor(Err(UnwindError::NoInfo)), Reply::Step(false), Reply::SignalFrame(true)] {
        capture = pending(capture.advance(reply));
        assert_eq!(capture.request(), Request::Context);
    }
}

#[test]
fn instruction_pointer_is_held_until_the_signal_answer() {
    let capture = pending(stepping().advance(Reply::Step(true)));
    let capture = pending(capture.advance(Reply::InstructionPointer(Ok(0))));
    let capture = pending(capture.advance(Reply::SignalFrame(true)));
    let capture = pending(capture.advance(Reply::Step(true)));
    let capture = pending(capture.advance(Reply::InstructionPointer(Ok(0))));
    let capture = pending(capture.advance(Reply::SignalFrame(false)));
    assert_eq!(
        finished(capture.advance(Reply::Step(false))),
        Ok(Backtrace { frames: vec![0, usize::MAX] })
    );
}

#[test]
fn record_without_room_ends_the_capture_as_out_of_memory() {
    let capture = record(stepping(), 0x1001, false);
    let capture = pending(capture.advance(Reply::Step(true)));
    let capture = pending(capture.advance(Reply::InstructionPointer(Ok(0x2001))));
    let outcome = finished(capture.advance_with(Reply::SignalFrame(false), false));
    assert_eq!(outcome, Err(UnwindError::NoMemory));
    assert_eq!(Backtrace::or_empty(outcome), Backtrace::empty());
}

#[test]
fn record_with_room_goes_on() {
    let capture = pending(stepping().advance(Reply::Step(true)));
    let capture = pending(capture.advance(Reply::InstructionPointer(Ok(0x2001))));
    let capture = pending(capture.advance_with(Reply::SignalFrame(false), true));
    assert_eq!(capture.request(), Request::Step);
    assert_eq!(
        finished(capture.advance_with(Reply::Step(false), true)),
        Ok(Backtrace { frames: vec![0x2000] })
    );
}

#[test]
fn room_matters_only_for_a_record() {
    let capture = pending(Capture::new().advance_with(Reply::Context(Ok(())), false));
    assert_eq!(capture.request(), Request::Cursor);
    let capture = pending(capture.advance_with(Reply::Cursor(Ok(())), false));
    assert_eq!(capture.request(), Request::Step);
    let capture = pending(capture.advance_with(Reply::Step(true), false));
    assert_eq!(capture.request(), Request::InstructionPointer);
    let capture = pending(capture.advance_with(Reply::SignalFrame(true), false));
    assert_eq!(capture.request(), Request::InstructionPointer);
    let capture = pending(capture.advance_with(Reply::InstructionPointer(Ok(0x31)), false));
    assert_eq!(capture.request(), Request::SignalFrame);
    let capture = pending(capture.advance_with(Reply::SignalFrame(false), true));
    assert_eq!(
        finished(capture.advance_with(Reply::Step(false), false)),
        Ok(Backtrace { frames: vec![0x30] })
    );
}

#[test]
fn failures_without_room_are_returned_as_they_came() {
    let outcome = finished(Capture::new().advance_with(Reply::Context(Err(UnwindError::BadValue)), false));
    assert_eq!(outcome, Err(UnwindError::BadValue));
    let capture = pending(stepping().advance(Reply::Step(true)));
    let outcome = finished(
        capture.advance_with(Reply::InstructionPointer(Err(UnwindError::StopUnwinding)), false),
    );
    assert_eq!(outcome, Err(UnwindError::StopUnwinding));
}

#[test]
fn machine_keeps_its_records_while_it_grows() {
    let mut capture = stepping();
    for depth in 0..5000usize {
        capture = record(capture, depth * 2 + 1, false);
    }
    let backtrace = finished(capture.advance(Reply::Step(false))).unwrap();
    assert_eq!(backtrace.frames.len(), 5000);
    for (depth, address) in backtrace.frames.iter().enumerate() {
        assert_eq!(*address, depth * 2);
    }
}
