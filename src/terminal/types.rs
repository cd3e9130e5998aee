use vstd::prelude::*;

use crate::text::join;

verus! {

/// One filtered chunk of a session's output, tagged with the session's id.
pub struct TerminalOutput {
    pub terminal_id: String,
    pub data: String,
}

/// A terminal's size in character cells.
#[derive(Clone, Copy, Debug, PartialEq, Eq, Structural)]
pub struct TerminalSize {
    pub rows: u16,
    pub cols: u16,
}

/// What the host learns of a session: its id, the shell's process id and its name.
pub struct TerminalInfo {
    pub terminal_id: String,
    pub pid: u32,
    pub process_name: String,
}

/// The failures of the terminal commands; each carries the detail shown to the user.
pub enum TerminalError {
    UnsupportedShell(String),
    PtyOpenFailed(String),
    SpawnFailed(String),
    WriterUnavailable(String),
    ReaderUnavailable(String),
    SessionNotFound(String),
    WriteFailed(String),
    /// The bytes were written but could not be flushed to the shell.
    FlushFailed(String),
    ResizeFailed(String),
}

pub const DEFAULT_ROWS: u16 = 24;

pub const DEFAULT_COLS: u16 = 80;

/// The size a new terminal opens with: the one asked for, else 24 rows of 80 columns.
pub fn initial_size(requested: Option<TerminalSize>) -> (r: TerminalSize)
    ensures
        r == (match requested {
            Some(s) => s,
            None => TerminalSize { rows: DEFAULT_ROWS, cols: DEFAULT_COLS },
        }),
{
    match requested {
        Some(s) => s,
        None => TerminalSize { rows: DEFAULT_ROWS, cols: DEFAULT_COLS },
    }
}

/// The text shown for an error: a fixed lead for its kind, then its detail.
pub open spec fn error_message(e: TerminalError) -> Seq<char> {
    match e {
        TerminalError::UnsupportedShell(d) => d@,
        TerminalError::PtyOpenFailed(d) => "Failed to open PTY: "@ + d@,
        TerminalError::SpawnFailed(d) => "Failed to spawn command: "@ + d@,
        TerminalError::WriterUnavailable(d) => "Failed to take master writer: "@ + d@,
        TerminalError::ReaderUnavailable(d) => "Failed to clone master reader: "@ + d@,
        TerminalError::SessionNotFound(id) => "Terminal not found: "@ + id@,
        TerminalError::WriteFailed(d) => "Failed to write to terminal: "@ + d@,
        TerminalError::FlushFailed(d) => "Failed to flush terminal: "@ + d@,
        TerminalError::ResizeFailed(d) => "Failed to resize terminal: "@ + d@,
    }
}

impl TerminalError {
    /// The descriptive string that the failing command hands to the user.
    pub fn message(&self) -> (r: String)
        ensures
            r@ == error_message(*self),
    {
        match self {
            TerminalError::UnsupportedShell(d) => d.clone(),
            TerminalError::PtyOpenFailed(d) => join("Failed to open PTY: ", d.as_str()),
            TerminalError::SpawnFailed(d) => join("Failed to spawn command: ", d.as_str()),
            TerminalError::WriterUnavailable(d) => join(
                "Failed to take master writer: ",
                d.as_str(),
            ),
            TerminalError::ReaderUnavailable(d) => join(
                "Failed to clone master reader: ",
                d.as_str(),
            ),
            TerminalError::SessionNotFound(id) => join("Terminal not found: ", id.as_str()),
            TerminalError::WriteFailed(d) => join("Failed to write to terminal: ", d.as_str()),
            TerminalError::FlushFailed(d) => join("Failed to flush terminal: ", d.as_str()),
            TerminalError::ResizeFailed(d) => join("Failed to resize terminal: ", d.as_str()),
        }
    }
}

} // verus!
