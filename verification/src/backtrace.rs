//! The captured backtrace.

use vstd::prelude::*;
use crate::capture::{outcome_view, Capture, CaptureState, Progress, Reply, Request};
use crate::render::{render, rendered};
use crate::unwind::{
    addresses, callers, captured, captured_or_empty, failure_at, lemma_collected_fails, sound,
    UnwindError, Walk,
};

verus! {

/// A captured stack backtrace: the recorded address of each frame, from the
/// call site closest to the point of capture outwards.
///
/// The addresses are plain numbers. They are never followed, only shown, so
/// that a symbolizer can later turn them into function names and lines.
#[derive(Debug)]
pub struct Backtrace {
    /// The recorded address of each frame, innermost first.
    pub frames: Vec<usize>,
}

impl View for Backtrace {
    type V = Seq<usize>;

    open spec fn view(&self) -> Seq<usize> {
        self.frames@
    }
}

impl Clone for Backtrace {
    /// A copy holds the same addresses in the same order.
    fn clone(&self) -> (copy: Backtrace)
        ensures
            copy@ == self@,
    {
        Backtrace { frames: self.frames.clone() }
    }
}

impl PartialEq for Backtrace {
    /// Two backtraces are equal when they hold the same addresses in the
    /// same order.
    fn eq(&self, other: &Backtrace) -> (equal: bool) {
        if self.frames.len() != other.frames.len() {
            return false;
        }
        let mut index: usize = 0;
        while index < self.frames.len()
            invariant
                self.frames@.len() == other.frames@.len(),
                index <= self.frames@.len(),
                forall|i: int| 0 <= i < index ==> self.frames@[i] == other.frames@[i],
            decreases self.frames@.len() - index,
        {
            if self.frames[index] != other.frames[index] {
                return false;
            }
            index = index + 1;
        }
        assert(self@ =~= other@);
        true
    }
}

impl Eq for Backtrace {

}

impl vstd::std_specs::cmp::PartialEqSpecImpl for Backtrace {
    open spec fn obeys_eq_spec() -> bool {
        true
    }

    open spec fn eq_spec(&self, other: &Backtrace) -> bool {
        self@ == other@
    }
}

/// How far a capture along `walk` is from its end when the cursor stands on
/// frame `position` and `pending` is out: every answer makes it less.
spec fn remaining(walk: Walk, position: int, pending: Request) -> int {
    3 * (walk.frames@.len() - position) + match pending {
        Request::Context => 4int,
        Request::Cursor => 3int,
        Request::InstructionPointer => 2int,
        Request::SignalFrame => 1int,
        Request::Step => 0int,
    }
}

/// What holds of a capture along `walk` whose cursor stands on frame
/// `position`: it has recorded the visited frames below the cursor's, and the
/// question that is out fits the place.
spec fn on_course(walk: Walk, position: int, capture: CaptureState) -> bool {
    let visited = callers(walk.frames@);
    match capture.pending {
        Request::Context => position == 0 && capture.frames.len() == 0,
        Request::Cursor => position == 0 && capture.frames.len() == 0 && walk.context is Ok,
        Request::Step => {
            &&& walk.context is Ok
            &&& walk.cursor is Ok
            &&& 0 <= position <= visited.len()
            &&& sound(visited.take(position), walk.room)
            &&& capture.frames == addresses(visited.take(position))
        },
        Request::InstructionPointer => {
            &&& walk.context is Ok
            &&& walk.cursor is Ok
            &&& 1 <= position <= visited.len()
            &&& sound(visited.take(position - 1), walk.room)
            &&& capture.frames == addresses(visited.take(position - 1))
        },
        Request::SignalFrame => {
            &&& walk.context is Ok
            &&& walk.cursor is Ok
            &&& 1 <= position <= visited.len()
            &&& sound(visited.take(position - 1), walk.room)
            &&& capture.frames == addresses(visited.take(position - 1))
            &&& visited[position - 1].ip == Ok::<usize, UnwindError>(capture.ip)
        },
    }
}

impl Backtrace {
    /// A backtrace without frames: what a target without unwind tables has
    /// to show, and what is left of a capture that failed.
    pub fn empty() -> (backtrace: Backtrace)
        ensures
            backtrace@ == Seq::<usize>::empty(),
    {
        Backtrace { frames: Vec::new() }
    }

    /// Captures a backtrace along `walk`.
    ///
    /// The capture asks for the context, then for the cursor, then steps from
    /// frame to frame until the unwinder reports the top of the stack. The
    /// first frame of the walk is stepped over unread. Any failure ends the
    /// capture and is returned as it came; nothing recorded before it is.
    ///
    /// The walk answers for the allocator too: a capture that has an address
    /// to record when the walk's memory is used up fails as out of memory.
    pub fn try_capture(walk: &Walk) -> (outcome: Result<Backtrace, UnwindError>)
        ensures
            outcome_view(outcome) == captured(*walk),
    {
        let mut capture = Capture::new();
        let mut position: usize = 0;
        loop
            invariant
                on_course(*walk, position as int, capture@),
            decreases remaining(*walk, position as int, capture@.pending),
        {
            let ghost visited = callers(walk.frames@);
            let reply = match capture.request() {
                Request::Context => Reply::Context(walk.context),
                Request::Cursor => Reply::Cursor(walk.cursor),
                Request::Step => {
                    if walk.frames.len() - position > 1 {
                        position = position + 1;
                        Reply::Step(true)
                    } else {
                        Reply::Step(false)
                    }
                },
                Request::InstructionPointer => Reply::InstructionPointer(walk.frames[position].ip),
                Request::SignalFrame => Reply::SignalFrame(walk.frames[position].signal),
            };
            // The frame under the cursor is the `position`-th that is visited.
            let room = position <= walk.room;
            let ghost before = capture@;
            match capture.advance_with(reply, room) {
                Progress::Pending(next) => {
                    proof {
                        if position >= 1 {
                            assert(visited[position - 1] == walk.frames@[position as int]);
                        }
                        if before.pending == Request::Cursor {
                            assert(next@.frames =~= addresses(visited.take(0)));
                        }
                        if before.pending == Request::SignalFrame {
                            let seen = visited.take(position as int);
                            assert(seen.take(position - 1) == visited.take(position - 1));
                            assert forall|i: int| 0 <= i < seen.len() implies (#[trigger] failure_at(
                                seen,
                                walk.room,
                                i,
                            )) is None by {
                                if i < position - 1 {
                                    assert(failure_at(visited.take(position - 1), walk.room, i)
                                        is None);
                                }
                            }
                            assert(next@.frames == addresses(seen));
                        }
                    }
                    capture = next;
                },
                Progress::Finished(outcome) => {
                    proof {
                        if before.pending == Request::Step {
                            assert(visited.take(position as int) == visited);
                        } else if before.pending == Request::InstructionPointer
                            || before.pending == Request::SignalFrame {
                            assert(visited[position - 1] == walk.frames@[position as int]);
                            lemma_collected_fails(visited, walk.room, position - 1);
                        }
                    }
                    return outcome;
                },
            }
        }
    }

    /// The backtrace of an attempt, or one without frames if the attempt
    /// failed: a failure to capture is never passed on.
    pub fn or_empty(attempt: Result<Backtrace, UnwindError>) -> (backtrace: Backtrace)
        ensures
            backtrace@ == (match attempt {
                Ok(captured) => captured@,
                Err(_) => Seq::<usize>::empty(),
            }),
    {
        match attempt {
            Ok(captured) => captured,
            Err(_) => Backtrace::empty(),
        }
    }

    /// Captures a backtrace along `walk` and never fails.
    ///
    /// The backtrace holds the recorded address of every frame above the
    /// walk's first, innermost first, if the context and the cursor can be
    /// made, every instruction pointer can be read and every address finds
    /// room. If the capture fails in any of these, the backtrace has no
    /// frames: nothing of the failure is passed on, and nothing recorded
    /// before it is kept.
    pub fn capture(walk: &Walk) -> (backtrace: Backtrace)
        ensures
            backtrace@ == captured_or_empty(*walk),
            captured(*walk) matches Ok(frames) ==> backtrace@ == frames,
            captured(*walk) is Err ==> backtrace@.len() == 0,
    {
        Backtrace::or_empty(Backtrace::try_capture(walk))
    }

    /// The backtrace as text: a header line, one line for each frame with
    /// its index and its address, and a closing note on how to turn the
    /// addresses into function names.
    pub fn to_string(&self) -> (text: String)
        ensures
            text@ == rendered(self@),
    {
        render(&self.frames)
    }
}

/// Rendering is stable: two texts of backtraces that hold the same
/// addresses are the same, character for character.
pub proof fn lemma_to_string_stable(
    backtrace: Backtrace,
    again: Backtrace,
    first: String,
    second: String,
)
    requires
        backtrace@ == again@,
        first@ == rendered(backtrace@),
        second@ == rendered(again@),
    ensures
        first@ == second@,
{
}

} // verus!
