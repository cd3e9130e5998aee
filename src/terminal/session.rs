use vstd::prelude::*;

use crate::escape::{filter_dangerous_escapes, filtered, strip_bell, without_bell};
use crate::terminal::shell::Platform;
use crate::text::{chars_of, contains, contains_chars, decode_lossy, lossy_text};

verus! {

/// The size of the buffer each read of the PTY fills.
pub const READ_BUFFER_SIZE: usize = 4096;

/// How long the reader waits before it tries again after a read that would block.
pub const RETRY_DELAY_MS: u64 = 10;

/// How long `close` waits for the reader thread before it abandons it.
pub const JOIN_GRACE_MS: u64 = 500;

/// The lifecycle of a session.
#[derive(Clone, Copy, Debug, PartialEq, Eq, Structural)]
pub enum SessionState {
    Spawning,
    Running,
    Closing,
    Closed,
}

/// What moves a session along its lifecycle.
#[derive(Clone, Copy, Debug, PartialEq, Eq, Structural)]
pub enum SessionEvent {
    /// The PTY, the child process and the reader thread are all in place.
    Established,
    /// Creation failed before the session was registered.
    SpawnFailed,
    /// `close` was called.
    CloseRequested,
    /// The child is dead and the handles are released.
    TornDown,
}

/// The state a session moves to on an event, or `None` where the event cannot happen there.
pub open spec fn next_state_spec(s: SessionState, e: SessionEvent) -> Option<SessionState> {
    match (s, e) {
        (SessionState::Spawning, SessionEvent::Established) => Some(SessionState::Running),
        (SessionState::Spawning, SessionEvent::SpawnFailed) => Some(SessionState::Closed),
        (SessionState::Running, SessionEvent::CloseRequested) => Some(SessionState::Closing),
        (SessionState::Closing, SessionEvent::TornDown) => Some(SessionState::Closed),
        _ => None,
    }
}

/// The lifecycle's transition function.
pub fn next_state(s: SessionState, e: SessionEvent) -> (r: Option<SessionState>)
    ensures
        r == next_state_spec(s, e),
{
    match (s, e) {
        (SessionState::Spawning, SessionEvent::Established) => Some(SessionState::Running),
        (SessionState::Spawning, SessionEvent::SpawnFailed) => Some(SessionState::Closed),
        (SessionState::Running, SessionEvent::CloseRequested) => Some(SessionState::Closing),
        (SessionState::Closing, SessionEvent::TornDown) => Some(SessionState::Closed),
        _ => None,
    }
}

/// `Closed` is terminal: no event leads out of it.
pub proof fn lemma_closed_is_final(e: SessionEvent)
    ensures
        next_state_spec(SessionState::Closed, e) is None,
{
}

/// What a non-blocking wait on the child reported.
#[derive(Clone, Copy, Debug, PartialEq, Eq, Structural)]
pub enum ChildStatus {
    Running,
    Exited,
    WaitFailed,
}

/// Whether the reader goes on to read: only while no stop was asked for and the child
/// is known to be alive.
pub fn should_read(stop_requested: bool, child: ChildStatus) -> (r: bool)
    ensures
        r == (!stop_requested && child == ChildStatus::Running),
{
    !stop_requested && child == ChildStatus::Running
}

/// The end of a read of the PTY.
pub enum ReadOutcome {
    /// `n` bytes were read, `n` possibly 0.
    Bytes(Vec<u8>),
    /// The read failed with this message.
    Failed(String),
}

/// What the reader thread does after a read.
pub enum ReaderAction {
    /// Emit this text as a `terminal-output` event for the session.
    Emit(String),
    /// Nothing is left to emit; read again.
    Continue,
    /// Sleep for `RETRY_DELAY_MS` and read again.
    Retry,
    /// Leave the loop.
    Stop,
}

/// The text that a chunk of raw PTY output becomes: decoded lossily, without BEL,
/// and filtered.
pub open spec fn chunk_text(b: Seq<u8>) -> Seq<char> {
    filtered(without_bell(lossy_text(b)))
}

/// A read error that only says the read would block.
pub open spec fn is_would_block(message: Seq<char>) -> bool {
    contains(message, "would block"@)
}

/// Turns a non-empty chunk of raw output into the text to emit, if any is left.
pub fn process_chunk(bytes: &[u8]) -> (r: Option<String>)
    ensures
        r is None <==> chunk_text(bytes@).len() == 0,
        r is Some ==> r->Some_0@ == chunk_text(bytes@),
{
    let decoded = decode_lossy(bytes);
    let quiet = strip_bell(decoded.as_str());
    let text = filter_dangerous_escapes(quiet.as_str());
    if text.as_str().is_empty() {
        None
    } else {
        Some(text)
    }
}

/// The reader's decision on the end of one read: an empty read is the end of the
/// stream; a non-empty one is emitted where text is left after filtering; a read that
/// would block is tried again; any other failure ends the stream.
pub fn reader_action(outcome: &ReadOutcome) -> (r: ReaderAction)
    ensures
        outcome is Bytes && outcome->Bytes_0@.len() == 0 ==> r is Stop,
        outcome is Bytes && outcome->Bytes_0@.len() > 0 && chunk_text(outcome->Bytes_0@).len()
            == 0 ==> r is Continue,
        outcome is Bytes && outcome->Bytes_0@.len() > 0 && chunk_text(outcome->Bytes_0@).len()
            > 0 ==> r is Emit && r->Emit_0@ == chunk_text(outcome->Bytes_0@),
        outcome is Failed && is_would_block(outcome->Failed_0@) ==> r is Retry,
        outcome is Failed && !is_would_block(outcome->Failed_0@) ==> r is Stop,
{
    match outcome {
        ReadOutcome::Bytes(b) => {
            if b.len() == 0 {
                ReaderAction::Stop
            } else {
                match process_chunk(b.as_slice()) {
                    Some(text) => ReaderAction::Emit(text),
                    None => ReaderAction::Continue,
                }
            }
        },
        ReadOutcome::Failed(m) => {
            let msg = chars_of(m.as_str());
            let pattern = chars_of("would block");
            if contains_chars(&msg, &pattern) {
                ReaderAction::Retry
            } else {
                ReaderAction::Stop
            }
        },
    }
}

/// One step of tearing a session down.
#[derive(Clone, Copy, Debug, PartialEq, Eq, Structural)]
pub enum CloseStep {
    /// Set the flag that asks the reader thread to leave its loop.
    RequestStop,
    /// Kill the whole process tree, grandchildren included.
    KillTree,
    /// Force-kill the child process.
    KillChild,
    /// Wait for the child to exit.
    WaitChild,
    /// Drop the writer and the master, which unblocks a pending read.
    ReleaseHandles,
    /// Join the reader thread, for at most `JOIN_GRACE_MS`.
    JoinReader,
}

/// The steps of `close`, in order. On Windows a known process tree is killed as well.
pub open spec fn close_plan_spec(platform: Platform, pid: u32) -> Seq<CloseStep> {
    if platform == Platform::Windows && pid > 0 {
        seq![
            CloseStep::RequestStop,
            CloseStep::KillTree,
            CloseStep::KillChild,
            CloseStep::WaitChild,
            CloseStep::ReleaseHandles,
            CloseStep::JoinReader,
        ]
    } else {
        seq![
            CloseStep::RequestStop,
            CloseStep::KillChild,
            CloseStep::WaitChild,
            CloseStep::ReleaseHandles,
            CloseStep::JoinReader,
        ]
    }
}

/// The steps that close a session whose shell has process id `pid` (0 where unknown).
pub fn close_plan(platform: Platform, pid: u32) -> (r: Vec<CloseStep>)
    ensures
        r@ == close_plan_spec(platform, pid),
{
    let mut steps: Vec<CloseStep> = Vec::new();
    steps.push(CloseStep::RequestStop);
    if platform == Platform::Windows && pid > 0 {
        steps.push(CloseStep::KillTree);
    }
    steps.push(CloseStep::KillChild);
    steps.push(CloseStep::WaitChild);
    steps.push(CloseStep::ReleaseHandles);
    steps.push(CloseStep::JoinReader);
    proof {
        assert(steps@ =~= close_plan_spec(platform, pid));
    }
    steps
}

/// The child is killed and waited for before its handles go, and the reader is joined
/// last: no handle outlives a dead process's teardown, and stop is asked for first.
pub proof fn lemma_close_order(platform: Platform, pid: u32)
    ensures
        close_plan_spec(platform, pid)[0] == CloseStep::RequestStop,
        close_plan_spec(platform, pid).last() == CloseStep::JoinReader,
        forall|i: int, j: int|
            0 <= i < close_plan_spec(platform, pid).len() && 0 <= j < close_plan_spec(
                platform,
                pid,
            ).len() && close_plan_spec(platform, pid)[i] == CloseStep::WaitChild
                && close_plan_spec(platform, pid)[j] == CloseStep::ReleaseHandles ==> i < j,
{
}

} // verus!
