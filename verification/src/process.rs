//! Child processes: what became of them, how long to wait for them, and how much of their
//! output to keep.
use vstd::prelude::*;

verus! {

/// How much of each output stream of a child is kept, in bytes.
pub const MAX_STREAM_BYTES: usize = 1048576;

/// How long to wait for the output of a child that has exited, in milliseconds.
pub const DRAIN_GRACE_MILLIS: u64 = 500;

/// How long to sleep between two looks at a child, in milliseconds.
pub const POLL_MILLIS: u64 = 10;

/// How long to sleep between two looks at a reader, in milliseconds.
pub const DRAIN_POLL_MILLIS: u64 = 5;

/// What a child process left behind.
#[derive(Debug, Clone, PartialEq, Eq)]
pub struct RawOutput {
    /// The exit code, where the child exited by itself.
    pub code: Option<i32>,
    /// The exit status as the platform words it.
    pub status: String,
    pub stdout: Vec<u8>,
    pub stderr: Vec<u8>,
}

impl RawOutput {
    /// The child exited with code zero.
    pub open spec fn ok(self) -> bool {
        self.code == Some(0i32)
    }

    /// Whether the child exited with code zero.
    pub fn success(&self) -> (r: bool)
        ensures
            r == self.ok(),
    {
        match self.code {
            Some(code) => code == 0,
            None => false,
        }
    }
}

/// What became of an attempt to run a command.
#[derive(Debug)]
pub enum Spawned {
    /// The binary is not on the search path.
    NotFound { reason: String },
    /// The command could not be run or watched.
    Failed { reason: String },
    /// The command overran its deadline.
    TimedOut,
    /// The command ran to its end.
    Finished(RawOutput),
}

// ---------------------------------------------------------------------------
// Keeping output
// ---------------------------------------------------------------------------
/// A buffer that keeps the first bytes of a stream.
#[derive(Debug)]
pub struct CappedBuffer {
    bytes: Vec<u8>,
    cap: usize,
}

/// All chunks of a stream, one after the other.
pub open spec fn stream(chunks: Seq<Seq<u8>>) -> Seq<u8>
    decreases chunks.len(),
{
    if chunks.len() == 0 {
        Seq::empty()
    } else {
        stream(chunks.drop_last()) + chunks.last()
    }
}

/// The first `cap` bytes.
pub open spec fn capped(bytes: Seq<u8>, cap: nat) -> Seq<u8> {
    if bytes.len() <= cap {
        bytes
    } else {
        bytes.take(cap as int)
    }
}

impl View for CappedBuffer {
    type V = Seq<u8>;

    closed spec fn view(&self) -> Seq<u8> {
        self.bytes@
    }
}

impl CappedBuffer {
    /// How many bytes the buffer keeps at most.
    pub closed spec fn limit(self) -> nat {
        self.cap as nat
    }

    /// The buffer holds no more than it may.
    pub open spec fn wf(self) -> bool {
        self@.len() <= self.limit()
    }

    /// An empty buffer for up to `cap` bytes.
    pub fn new(cap: usize) -> (b: CappedBuffer)
        ensures
            b.wf(),
            b@ == Seq::<u8>::empty(),
            b.limit() == cap,
    {
        CappedBuffer { bytes: Vec::new(), cap }
    }

    /// Keeps of a chunk what still fits. Returns whether the buffer is full, so that
    /// reading may stop.
    pub fn push(&mut self, chunk: &Vec<u8>) -> (full: bool)
        requires
            old(self).wf(),
        ensures
            final(self).wf(),
            final(self).limit() == old(self).limit(),
            final(self)@ == capped(old(self)@ + chunk@, old(self).limit()),
            full == (final(self)@.len() == final(self).limit()),
    {
        let ghost before = self.bytes@;
        let room = self.cap - self.bytes.len();
        let take = if chunk.len() < room {
            chunk.len()
        } else {
            room
        };
        let mut i: usize = 0;
        while i < take
            invariant
                i <= take <= chunk@.len(),
                self.bytes@ == before + chunk@.take(i as int),
                self.cap == old(self).cap,
                before == old(self).bytes@,
            decreases take - i,
        {
            self.bytes.push(chunk[i]);
            assert(self.bytes@ == before + chunk@.take(i + 1));
            i += 1;
        }
        assert(before + chunk@.take(take as int) == capped(before + chunk@, self.cap as nat));
        self.bytes.len() == self.cap
    }

    /// The bytes that were kept.
    pub fn into_bytes(self) -> (r: Vec<u8>)
        ensures
            r@ == self@,
    {
        self.bytes
    }
}

/// A buffer that holds the first bytes of a stream holds the first bytes of the stream
/// after every further chunk, whatever the chunks are cut into.
pub proof fn capped_stream_grows(chunks: Seq<Seq<u8>>, chunk: Seq<u8>, cap: nat)
    ensures
        capped(capped(stream(chunks), cap) + chunk, cap) == capped(
            stream(chunks.push(chunk)),
            cap,
        ),
{
    let whole = stream(chunks);
    assert(chunks.push(chunk).drop_last() == chunks);
    assert(stream(chunks.push(chunk)) == whole + chunk);
    if whole.len() > cap {
        assert((whole.take(cap as int) + chunk).take(cap as int) =~= whole.take(cap as int));
        assert((whole + chunk).take(cap as int) =~= whole.take(cap as int));
        if chunk.len() == 0 {
            assert(whole.take(cap as int) + chunk =~= whole.take(cap as int));
        }
    }
}

/// Once a buffer is full, no further chunk changes it, so a reader that stops there keeps
/// what one that read on would keep.
pub proof fn full_buffer_stays(held: Seq<u8>, chunk: Seq<u8>, cap: nat)
    requires
        held.len() == cap,
    ensures
        capped(held + chunk, cap) == held,
{
    if chunk.len() > 0 {
        assert((held + chunk).take(cap as int) =~= held);
    } else {
        assert(held + chunk =~= held);
    }
}

// ---------------------------------------------------------------------------
// Waiting
// ---------------------------------------------------------------------------
/// What a look at a child shows.
#[derive(Debug, Clone, Copy, PartialEq, Eq, Structural)]
pub enum ChildState {
    /// The child has exited.
    Exited,
    /// The child is still running.
    Running,
    /// The child could not be looked at.
    Unknown,
}

/// What to do after a look at a child.
#[derive(Debug, Clone, Copy, PartialEq, Eq, Structural)]
pub enum WatchStep {
    /// Wait for the readers and take what they have.
    Collect,
    /// Kill and reap the child, and report that it overran.
    TimeOut,
    /// Kill and reap the child, and report that it could not be looked at.
    GiveUp,
    /// Sleep, then look again.
    Sleep,
}

/// What to do with a child `elapsed` after its start, under a deadline. A child that has
/// exited is collected even where the deadline has passed.
pub fn watch_step(
    state: ChildState,
    elapsed_millis: u64,
    timeout_millis: u64,
) -> (step: WatchStep)
    ensures
        state == ChildState::Exited <==> step == WatchStep::Collect,
        state == ChildState::Unknown <==> step == WatchStep::GiveUp,
        state == ChildState::Running && elapsed_millis >= timeout_millis <==> step
            == WatchStep::TimeOut,
        state == ChildState::Running && elapsed_millis < timeout_millis <==> step
            == WatchStep::Sleep,
{
    match state {
        ChildState::Exited => WatchStep::Collect,
        ChildState::Unknown => WatchStep::GiveUp,
        ChildState::Running => if elapsed_millis >= timeout_millis {
            WatchStep::TimeOut
        } else {
            WatchStep::Sleep
        },
    }
}

/// Whether to go on waiting for a reader: it has not finished, and the grace has not run
/// out.
pub fn keep_waiting(finished: bool, elapsed_millis: u64, grace_millis: u64) -> (r: bool)
    ensures
        r == (!finished && elapsed_millis < grace_millis),
{
    !finished && elapsed_millis < grace_millis
}

/// A child that has exited is collected, whatever the time; one that cannot be looked at is given
/// up; one that runs is slept for before its deadline and timed out from it on.
pub proof fn child_is_watched_to_its_deadline(
    state: ChildState,
    elapsed_millis: u64,
    timeout_millis: u64,
    step: WatchStep,
)
    requires
        call_ensures(watch_step, (state, elapsed_millis, timeout_millis), step),
    ensures
        state == ChildState::Exited ==> step == WatchStep::Collect,
        state == ChildState::Unknown ==> step == WatchStep::GiveUp,
        state == ChildState::Running && elapsed_millis < timeout_millis ==> step
            == WatchStep::Sleep,
        state == ChildState::Running && elapsed_millis >= timeout_millis ==> step
            == WatchStep::TimeOut,
{
}

/// A reader that has finished is not waited for, nor one whose grace has run out; every other is.
pub proof fn reader_is_waited_for(finished: bool, elapsed_millis: u64, grace_millis: u64, r: bool)
    requires
        call_ensures(keep_waiting, (finished, elapsed_millis, grace_millis), r),
    ensures
        finished ==> !r,
        elapsed_millis >= grace_millis ==> !r,
        !finished && elapsed_millis < grace_millis ==> r,
{
}

/// A chunk is kept as long as there is room: what was held stays, what follows are the first bytes of
/// the chunk, and no more is left out than what there is no room for. The buffer is full exactly
/// where it holds as much as it may.
pub proof fn chunk_is_kept(b: &mut CappedBuffer, chunk: Vec<u8>, full: bool, i: int)
    requires
        old(b).wf(),
        call_ensures(CappedBuffer::push, (b, &chunk), full),
    ensures
        final(b).limit() == old(b).limit(),
        final(b)@.len() == if old(b)@.len() + chunk@.len() <= old(b).limit() {
            old(b)@.len() + chunk@.len()
        } else {
            old(b).limit()
        },
        0 <= i < old(b)@.len() ==> final(b)@[i] == old(b)@[i],
        0 <= i && old(b)@.len() + i < final(b)@.len() ==> final(b)@[old(b)@.len() + i] == chunk@[i],
        full == (final(b)@.len() == old(b).limit()),
{
}

/// A run succeeded exactly where the exit code is zero; without an exit code it did not.
pub proof fn zero_is_success(output: RawOutput, r: bool)
    requires
        call_ensures(RawOutput::success, (&output,), r),
    ensures
        r <==> output.code == Some(0i32),
{
}

/// What was kept is what is handed out.
pub proof fn kept_bytes_are_handed_out(b: CappedBuffer, cap: usize, empty: CappedBuffer, r: Vec<u8>)
    requires
        call_ensures(CappedBuffer::into_bytes, (b,), r),
        call_ensures(CappedBuffer::new, (cap,), empty),
    ensures
        r@ == b@,
        empty@.len() == 0,
        empty.limit() == cap,
{
}

} // verus!
