//! What the unwinder tells a capture: its failures, and the frames of a call
//! stack as it reports them.

use vstd::prelude::*;

verus! {

/// Why the unwinder gave up. A capture never looks inside: it hands the
/// value on to its caller as it came.
#[derive(Debug, Clone, Copy, PartialEq, Eq, Structural)]
pub enum UnwindError {
    /// Unspecified or general failure.
    Unspecified,
    /// Out of memory.
    NoMemory,
    /// The register does not exist or cannot be read in this frame.
    BadRegister,
    /// The register cannot be written.
    WriteToReadOnlyRegister,
    /// The unwinder was told to stop.
    StopUnwinding,
    /// The instruction pointer of a frame is not valid.
    InvalidIP,
    /// The frame is not valid.
    BadFrame,
    /// Unsupported operation or bad value.
    BadValue,
    /// The unwind tables have a version that is not supported.
    BadVersion,
    /// No unwind tables were found.
    NoInfo,
    /// A failure with a code that has no name.
    Unknown {
        /// The code as the unwinder gave it.
        code: i32,
    },
}

/// One frame of a call stack, as the unwinder reports it.
#[derive(Debug, Clone, Copy)]
pub struct Frame {
    /// The frame's instruction pointer, or why it could not be read.
    pub ip: Result<usize, UnwindError>,
    /// Whether the frame was entered by a trap and not by a call.
    pub signal: bool,
}

/// Everything a capture would be answered along one call stack: by the
/// unwinder, and by the allocator where it asks for memory.
///
/// `frames` starts with the frame in which the unwind context was taken, the
/// capture routine's own, and goes on caller by caller to the outermost.
#[derive(Debug)]
pub struct Walk {
    /// Whether the machine state could be snapshotted.
    pub context: Result<(), UnwindError>,
    /// Whether a cursor could be bound to the snapshot.
    pub cursor: Result<(), UnwindError>,
    /// The frames, innermost first.
    pub frames: Vec<Frame>,
    /// For how many addresses there is memory.
    pub room: usize,
}

/// The address that stands in the backtrace for a frame whose instruction
/// pointer is `ip`.
///
/// A frame entered by a call holds a return address, which points behind the
/// call: one less lies within the calling instruction. A signal frame holds
/// the address of the faulting instruction itself and is kept as it is.
/// Addresses are machine words, so one less than zero is the largest word.
pub open spec fn recorded_address(ip: usize, signal: bool) -> usize {
    if signal {
        ip
    } else if ip == 0 {
        usize::MAX
    } else {
        (ip - 1) as usize
    }
}

/// The frames that a capture visits: all but the first, which belongs to the
/// capture routine itself.
pub open spec fn callers(frames: Seq<Frame>) -> Seq<Frame> {
    if frames.len() == 0 {
        frames
    } else {
        frames.drop_first()
    }
}

/// Why the visit of frame `i` ends the capture, if it does: the frame's
/// instruction pointer cannot be read, or it can and no memory is left to
/// record its address. The memory holds `room` addresses, and every frame
/// before `i` has taken one.
pub open spec fn failure_at(frames: Seq<Frame>, room: usize, i: int) -> Option<UnwindError> {
    match frames[i].ip {
        Err(e) => Some(e),
        Ok(_) => if i < room {
            None
        } else {
            Some(UnwindError::NoMemory)
        },
    }
}

/// Whether the visit of every frame goes well.
pub open spec fn sound(frames: Seq<Frame>, room: usize) -> bool {
    forall|i: int| 0 <= i < frames.len() ==> (#[trigger] failure_at(frames, room, i)) is None
}

/// Whether `i` is the first frame at which the visit fails.
pub open spec fn is_first_failure(frames: Seq<Frame>, room: usize, i: int) -> bool {
    &&& 0 <= i < frames.len()
    &&& failure_at(frames, room, i) is Some
    &&& sound(frames.take(i), room)
}

/// The recorded address of each frame, in the frames' order.
pub open spec fn addresses(frames: Seq<Frame>) -> Seq<usize> {
    Seq::new(frames.len(), |i: int| recorded_address(frames[i].ip->Ok_0, frames[i].signal))
}

/// Visiting `frames` one by one with memory for `room` addresses: the
/// recorded addresses if every visit goes well, else the failure of the
/// first that does not.
pub open spec fn collected(frames: Seq<Frame>, room: usize) -> Result<Seq<usize>, UnwindError> {
    if sound(frames, room) {
        Ok(addresses(frames))
    } else {
        Err(failure_at(frames, room, choose|i: int| is_first_failure(frames, room, i))->0)
    }
}

/// What a capture along `walk` comes to.
///
/// It fails as the context does, else as the cursor does, else as the first
/// visited frame does whose instruction pointer cannot be read, or as out of
/// memory at the first whose address finds no room. Otherwise it holds the
/// recorded address of every visited frame, innermost first.
pub open spec fn captured(walk: Walk) -> Result<Seq<usize>, UnwindError> {
    match walk.context {
        Err(e) => Err(e),
        Ok(_) => match walk.cursor {
            Err(e) => Err(e),
            Ok(_) => collected(callers(walk.frames@), walk.room),
        },
    }
}

/// What is left of a capture along `walk` when its failure is not passed
/// on: the addresses it comes to, or none.
pub open spec fn captured_or_empty(walk: Walk) -> Seq<usize> {
    match captured(walk) {
        Ok(frames) => frames,
        Err(_) => Seq::empty(),
    }
}

/// The address to record for a frame: `ip` as it is for a signal frame, one
/// less for any other.
pub fn record_address(ip: usize, signal: bool) -> (address: usize)
    ensures
        address == recorded_address(ip, signal),
        signal ==> address == ip,
        !signal && ip > 0 ==> address == ip - 1,
{
    if signal {
        ip
    } else {
        ip.wrapping_sub(1)
    }
}

/// At most one frame is the first at which the visit fails.
pub proof fn lemma_first_failure_unique(frames: Seq<Frame>, room: usize, i: int, j: int)
    requires
        is_first_failure(frames, room, i),
        is_first_failure(frames, room, j),
    ensures
        i == j,
{
    if i < j {
        assert(failure_at(frames.take(j), room, i) is None);
    } else if j < i {
        assert(failure_at(frames.take(i), room, j) is None);
    }
}

/// If the visit first fails at frame `i`, collecting fails as that visit
/// does.
pub proof fn lemma_collected_fails(frames: Seq<Frame>, room: usize, i: int)
    requires
        is_first_failure(frames, room, i),
    ensures
        collected(frames, room) == Err::<Seq<usize>, UnwindError>(failure_at(frames, room, i)->0),
{
    assert(failure_at(frames, room, i) is Some);
    let j = choose|j: int| is_first_failure(frames, room, j);
    lemma_first_failure_unique(frames, room, i, j);
}

/// Every address of a capture is the instruction pointer of its frame,
/// adjusted: unchanged where the frame is a signal frame, one less where it
/// is not.
pub proof fn lemma_captured_addresses(walk: Walk, i: int)
    requires
        captured(walk) is Ok,
        0 <= i < captured(walk)->Ok_0.len(),
    ensures
        i + 1 < walk.frames@.len(),
        walk.frames@[i + 1].ip is Ok,
        walk.frames@[i + 1].signal ==> captured(walk)->Ok_0[i] == walk.frames@[i + 1].ip->Ok_0,
        !walk.frames@[i + 1].signal && walk.frames@[i + 1].ip->Ok_0 > 0 ==> captured(
            walk,
        )->Ok_0[i] == walk.frames@[i + 1].ip->Ok_0 - 1,
        !walk.frames@[i + 1].signal && walk.frames@[i + 1].ip->Ok_0 == 0 ==> captured(
            walk,
        )->Ok_0[i] == usize::MAX,
{
    let visited = callers(walk.frames@);
    assert(visited[i] == walk.frames@[i + 1]);
    assert(failure_at(visited, walk.room, i) is None);
}

/// A capture keeps the order of the stack: of two visited frames, the one
/// nearer to the point of capture stands first, and a frame's caller stands
/// right behind it.
pub proof fn lemma_captured_in_stack_order(walk: Walk, inner: int, outer: int)
    requires
        captured(walk) is Ok,
        1 <= inner < outer < walk.frames@.len(),
    ensures
        outer - 1 < captured(walk)->Ok_0.len(),
        captured(walk)->Ok_0[inner - 1] == recorded_address(
            walk.frames@[inner].ip->Ok_0,
            walk.frames@[inner].signal,
        ),
        captured(walk)->Ok_0[outer - 1] == recorded_address(
            walk.frames@[outer].ip->Ok_0,
            walk.frames@[outer].signal,
        ),
{
    let visited = callers(walk.frames@);
    assert(visited[inner - 1] == walk.frames@[inner]);
    assert(visited[outer - 1] == walk.frames@[outer]);
}

/// The first frame of the stack, which is the capture routine's own, has no
/// part in a capture: exactly that one frame is left out, and whatever it
/// holds, the outcome is the same.
pub proof fn lemma_captured_skips_own_frame(walk: Walk, other: Walk)
    requires
        walk.context == other.context,
        walk.cursor == other.cursor,
        walk.room == other.room,
        walk.frames@.len() >= 1,
        other.frames@.len() >= 1,
        walk.frames@.drop_first() == other.frames@.drop_first(),
    ensures
        captured(walk) == captured(other),
        captured(walk) is Ok ==> captured(walk)->Ok_0.len() == walk.frames@.len() - 1,
{
}

/// A capture that fails to make the context or the cursor fails with that
/// failure, whatever the stack holds.
pub proof fn lemma_captured_without_cursor(walk: Walk)
    ensures
        walk.context is Err ==> captured(walk) == Err::<Seq<usize>, UnwindError>(
            walk.context->Err_0,
        ),
        walk.context is Ok && walk.cursor is Err ==> captured(walk) == Err::<
            Seq<usize>,
            UnwindError,
        >(walk.cursor->Err_0),
{
}

/// A capture fails at the first visited frame at which the visit fails:
/// with the frame's own failure where its instruction pointer cannot be
/// read, as out of memory where its address finds no room. What it recorded
/// before is not returned.
pub proof fn lemma_captured_fails_at(walk: Walk, i: int)
    requires
        walk.context is Ok,
        walk.cursor is Ok,
        is_first_failure(callers(walk.frames@), walk.room, i),
    ensures
        walk.frames@[i + 1].ip is Err ==> captured(walk) == Err::<Seq<usize>, UnwindError>(
            walk.frames@[i + 1].ip->Err_0,
        ),
        walk.frames@[i + 1].ip is Ok ==> i >= walk.room && captured(walk) == Err::<
            Seq<usize>,
            UnwindError,
        >(UnwindError::NoMemory),
{
    lemma_collected_fails(callers(walk.frames@), walk.room, i);
    assert(callers(walk.frames@)[i] == walk.frames@[i + 1]);
}

/// With memory for every visited frame, how much more there is makes no
/// difference, and the capture fails only as the unwinder does.
pub proof fn lemma_captured_with_room(walk: Walk, other: Walk)
    requires
        walk.context == other.context,
        walk.cursor == other.cursor,
        walk.frames@ == other.frames@,
        walk.room >= callers(walk.frames@).len(),
        other.room >= callers(walk.frames@).len(),
    ensures
        captured(walk) == captured(other),
{
    let visited = callers(walk.frames@);
    assert forall|i: int| 0 <= i < visited.len() implies failure_at(visited, walk.room, i)
        == failure_at(visited, other.room, i) by {}
    assert forall|i: int| is_first_failure(visited, walk.room, i) == is_first_failure(
        visited,
        other.room,
        i,
    ) by {
        if 0 <= i < visited.len() {
            let before = visited.take(i);
            assert forall|j: int| 0 <= j < before.len() implies failure_at(before, walk.room, j)
                == failure_at(before, other.room, j) by {}
            if sound(before, walk.room) {
                assert forall|j: int| 0 <= j < before.len() implies (#[trigger] failure_at(
                    before,
                    other.room,
                    j,
                )) is None by {
                    assert(failure_at(before, walk.room, j) is None);
                }
            }
            if sound(before, other.room) {
                assert forall|j: int| 0 <= j < before.len() implies (#[trigger] failure_at(
                    before,
                    walk.room,
                    j,
                )) is None by {
                    assert(failure_at(before, other.room, j) is None);
                }
            }
        }
    }
    if sound(visited, walk.room) {
        assert forall|i: int| 0 <= i < visited.len() implies (#[trigger] failure_at(
            visited,
            other.room,
            i,
        )) is None by {
            assert(failure_at(visited, walk.room, i) is None);
        }
    } else if sound(visited, other.room) {
        assert forall|i: int| 0 <= i < visited.len() implies (#[trigger] failure_at(
            visited,
            walk.room,
            i,
        )) is None by {
            assert(failure_at(visited, other.room, i) is None);
        }
    } else {
        let i = choose|i: int| is_first_failure(visited, walk.room, i);
        let j = choose|j: int| is_first_failure(visited, other.room, j);
        lemma_first_failure_exists(visited, walk.room);
        lemma_first_failure_exists(visited, other.room);
        assert(is_first_failure(visited, other.room, i));
        lemma_first_failure_unique(visited, other.room, i, j);
    }
}

/// Where not every visit goes well, one is the first that does not.
pub proof fn lemma_first_failure_exists(frames: Seq<Frame>, room: usize)
    requires
        !sound(frames, room),
    ensures
        exists|i: int| is_first_failure(frames, room, i),
    decreases frames.len(),
{
    let last = frames.len() - 1;
    if frames.len() == 0 {
        assert(sound(frames, room));
    } else if sound(frames.drop_last(), room) {
        assert(frames.take(last) =~= frames.drop_last());
        if failure_at(frames, room, last) is None {
            assert forall|i: int| 0 <= i < frames.len() implies (#[trigger] failure_at(
                frames,
                room,
                i,
            )) is None by {
                if i < last {
                    assert(failure_at(frames.drop_last(), room, i) is None);
                }
            }
        }
        assert(is_first_failure(frames, room, last));
    } else {
        lemma_first_failure_exists(frames.drop_last(), room);
        let i = choose|i: int| is_first_failure(frames.drop_last(), room, i);
        assert(frames.take(i) =~= frames.drop_last().take(i));
        assert(is_first_failure(frames, room, i));
    }
}

} // verus!
