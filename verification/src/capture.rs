//! A capture in progress: what to ask of the unwinder next, and what follows
//! from each answer.

use vstd::prelude::*;
use crate::backtrace::Backtrace;
use crate::unwind::{record_address, recorded_address, UnwindError};

verus! {

/// What a capture asks of the unwinder.
#[derive(Debug, Clone, Copy, PartialEq, Eq, Structural)]
pub enum Request {
    /// Snapshot the machine state into an unwind context.
    Context,
    /// Bind a cursor to the context.
    Cursor,
    /// Move the cursor to the caller's frame.
    Step,
    /// Read the instruction pointer of the cursor's frame.
    InstructionPointer,
    /// Say whether the cursor's frame is a signal frame.
    SignalFrame,
}

/// What the unwinder answers.
#[derive(Debug, Clone, Copy)]
pub enum Reply {
    /// Whether the context was made.
    Context(Result<(), UnwindError>),
    /// Whether the cursor was made.
    Cursor(Result<(), UnwindError>),
    /// Whether a caller's frame is now current; `false` at the top of the stack.
    Step(bool),
    /// The instruction pointer, or why it could not be read.
    InstructionPointer(Result<usize, UnwindError>),
    /// Whether the frame is a signal frame.
    SignalFrame(bool),
}

/// A capture in progress, as contracts see it.
pub struct CaptureState {
    /// The addresses recorded so far, innermost first.
    pub frames: Seq<usize>,
    /// The question that is out.
    pub pending: Request,
    /// The instruction pointer last read.
    pub ip: usize,
}

/// Where a capture stands after an answer, as contracts see it.
pub enum ProgressState {
    /// The capture goes on.
    Pending(CaptureState),
    /// The capture is over.
    Finished(Result<Seq<usize>, UnwindError>),
}

impl CaptureState {
    /// A capture before its first question is answered.
    pub open spec fn initial() -> CaptureState {
        CaptureState { frames: Seq::empty(), pending: Request::Context, ip: 0 }
    }

    /// The capture with another question out.
    pub open spec fn asking(self, pending: Request) -> CaptureState {
        CaptureState { pending, ..self }
    }

    /// Whether `reply` brings an address to record, for which the capture
    /// needs memory.
    pub open spec fn records(self, reply: Reply) -> bool {
        self.pending == Request::SignalFrame && reply is SignalFrame
    }

    /// What follows from `reply`, where `room` says whether memory for one
    /// more address can be had.
    ///
    /// A failure to make the context or the cursor, or to read an
    /// instruction pointer, ends the capture with that failure and drops
    /// what was recorded. The top of the stack ends it with the addresses
    /// recorded. An instruction pointer is held until the unwinder has said
    /// whether its frame is a signal frame, and then recorded; without room
    /// for it the capture ends as out of memory. An answer to a question
    /// that is not out changes nothing.
    pub open spec fn next(self, reply: Reply, room: bool) -> ProgressState {
        match (self.pending, reply) {
            (Request::Context, Reply::Context(Ok(_))) => ProgressState::Pending(
                self.asking(Request::Cursor),
            ),
            (Request::Context, Reply::Context(Err(e))) => ProgressState::Finished(Err(e)),
            (Request::Cursor, Reply::Cursor(Ok(_))) => ProgressState::Pending(
                self.asking(Request::Step),
            ),
            (Request::Cursor, Reply::Cursor(Err(e))) => ProgressState::Finished(Err(e)),
            (Request::Step, Reply::Step(true)) => ProgressState::Pending(
                self.asking(Request::InstructionPointer),
            ),
            (Request::Step, Reply::Step(false)) => ProgressState::Finished(Ok(self.frames)),
            (Request::InstructionPointer, Reply::InstructionPointer(Ok(ip))) => {
                ProgressState::Pending(
                    CaptureState { frames: self.frames, pending: Request::SignalFrame, ip },
                )
            },
            (Request::InstructionPointer, Reply::InstructionPointer(Err(e))) => {
                ProgressState::Finished(Err(e))
            },
            (Request::SignalFrame, Reply::SignalFrame(signal)) => if room {
                ProgressState::Pending(
                    CaptureState {
                        frames: self.frames.push(recorded_address(self.ip, signal)),
                        pending: Request::Step,
                        ip: self.ip,
                    },
                )
            } else {
                ProgressState::Finished(Err(UnwindError::NoMemory))
            },
            _ => ProgressState::Pending(self),
        }
    }
}

/// An instruction pointer is asked for only after a step has reached a
/// frame: the frame on which the cursor was made is never read.
pub proof fn lemma_reads_follow_steps(before: CaptureState, reply: Reply, room: bool)
    requires
        before.pending != Request::InstructionPointer,
        before.next(reply, room) matches ProgressState::Pending(after) && after.pending
            == Request::InstructionPointer,
    ensures
        before.pending == Request::Step,
        reply == Reply::Step(true),
{
}

/// An answer never takes a recorded address away or changes one: a capture
/// that goes on has what it had, and at most one address more at the end.
pub proof fn lemma_records_are_kept(before: CaptureState, reply: Reply, room: bool)
    requires
        before.next(reply, room) is Pending,
    ensures
        ({
            let after = before.next(reply, room)->Pending_0;
            after.frames == before.frames || (before.records(reply) && after.frames.drop_last()
                == before.frames)
        }),
{
    let after = before.next(reply, room)->Pending_0;
    if after.frames != before.frames {
        assert(after.frames.drop_last() =~= before.frames);
    }
}

/// A capture ends well only at the top of the stack, and then with exactly
/// the addresses it has recorded.
pub proof fn lemma_finishes_at_top(before: CaptureState, reply: Reply, room: bool)
    requires
        before.next(reply, room) matches ProgressState::Finished(outcome) && outcome is Ok,
    ensures
        before.pending == Request::Step,
        reply == Reply::Step(false),
        before.next(reply, room) == ProgressState::Finished(Ok(before.frames)),
{
}

/// Memory matters only where an address is recorded: any other answer has
/// the same effect with and without room.
pub proof fn lemma_room_is_for_records(before: CaptureState, reply: Reply)
    requires
        !before.records(reply),
    ensures
        before.next(reply, true) == before.next(reply, false),
{
}

/// A capture in progress.
///
/// It starts by asking for the unwind context. Its owner puts each
/// [`request`](Capture::request) to the unwinder and hands the answer to
/// [`advance`](Capture::advance), until that returns the outcome.
#[derive(Debug)]
pub struct Capture {
    frames: Vec<usize>,
    pending: Request,
    ip: usize,
}

/// Where a capture stands after an answer.
#[derive(Debug)]
pub enum Progress {
    /// The capture goes on: it has another question.
    Pending(Capture),
    /// The capture is over: the backtrace, or the unwinder's failure.
    Finished(Result<Backtrace, UnwindError>),
}

/// An outcome with the backtrace taken by its view.
pub open spec fn outcome_view(outcome: Result<Backtrace, UnwindError>) -> Result<
    Seq<usize>,
    UnwindError,
> {
    match outcome {
        Ok(backtrace) => Ok(backtrace@),
        Err(e) => Err(e),
    }
}

impl View for Capture {
    type V = CaptureState;

    closed spec fn view(&self) -> CaptureState {
        CaptureState { frames: self.frames@, pending: self.pending, ip: self.ip }
    }
}

impl View for Progress {
    type V = ProgressState;

    open spec fn view(&self) -> ProgressState {
        match *self {
            Progress::Pending(capture) => ProgressState::Pending(capture@),
            Progress::Finished(outcome) => ProgressState::Finished(outcome_view(outcome)),
        }
    }
}

impl Capture {
    /// Starts a capture: nothing is recorded, and the context is asked for.
    pub fn new() -> (capture: Capture)
        ensures
            capture@ == CaptureState::initial(),
    {
        Capture { frames: Vec::new(), pending: Request::Context, ip: 0 }
    }

    /// The question to put to the unwinder next.
    pub fn request(&self) -> (request: Request)
        ensures
            request == self@.pending,
    {
        self.pending
    }

    /// Takes the unwinder's answer and says where the capture stands.
    ///
    /// Where the answer brings an address to record, the capture first asks
    /// for the memory to hold it. If there is none, the capture ends as out
    /// of memory.
    pub fn advance(self, reply: Reply) -> (progress: Progress)
        ensures
            progress@ == self@.next(reply, true) || progress@ == self@.next(reply, false),
            !self@.records(reply) ==> progress@ == self@.next(reply, true),
    {
        let mut capture = self;
        let room = match (capture.pending, reply) {
            (Request::SignalFrame, Reply::SignalFrame(_)) => has_room(&mut capture.frames, 1),
            _ => true,
        };
        capture.advance_with(reply, room)
    }

    /// Takes the unwinder's answer, and with it the word on whether memory
    /// for one more address is there, and says where the capture stands.
    pub fn advance_with(self, reply: Reply, room: bool) -> (progress: Progress)
        ensures
            progress@ == self@.next(reply, room),
    {
        let mut capture = self;
        match (capture.pending, reply) {
            (Request::Context, Reply::Context(Ok(_))) => {
                capture.pending = Request::Cursor;
                Progress::Pending(capture)
            },
            (Request::Context, Reply::Context(Err(e))) => Progress::Finished(Err(e)),
            (Request::Cursor, Reply::Cursor(Ok(_))) => {
                capture.pending = Request::Step;
                Progress::Pending(capture)
            },
            (Request::Cursor, Reply::Cursor(Err(e))) => Progress::Finished(Err(e)),
            (Request::Step, Reply::Step(true)) => {
                capture.pending = Request::InstructionPointer;
                Progress::Pending(capture)
            },
            (Request::Step, Reply::Step(false)) => Progress::Finished(
                Ok(Backtrace { frames: capture.frames }),
            ),
            (Request::InstructionPointer, Reply::InstructionPointer(Ok(ip))) => {
                capture.ip = ip;
                capture.pending = Request::SignalFrame;
                Progress::Pending(capture)
            },
            (Request::InstructionPointer, Reply::InstructionPointer(Err(e))) => {
                Progress::Finished(Err(e))
            },
            (Request::SignalFrame, Reply::SignalFrame(signal)) => {
                if room {
                    let address = record_address(capture.ip, signal);
                    capture.frames.push(address);
                    capture.pending = Request::Step;
                    Progress::Pending(capture)
                } else {
                    Progress::Finished(Err(UnwindError::NoMemory))
                }
            },
            _ => Progress::Pending(capture),
        }
    }
}

/// `Vec::try_reserve` of the standard library, asked for room for
/// `additional` more elements. It says whether the memory is there; whatever
/// it says, the vector holds the elements it held, in their order.
#[verifier::external_body]
fn has_room(frames: &mut Vec<usize>, additional: usize) -> (room: bool)
    ensures
        final(frames)@ == old(frames)@,
{
    frames.try_reserve(additional).is_ok()
}

} // verus!
