use vstd::prelude::*;

use crate::text::{file_name, file_name_of, str_eq};

verus! {

/// A cursor position in the editor.
#[derive(Clone, Copy, Debug, PartialEq, Eq, Structural)]
pub struct CursorPosition {
    pub line: u32,
    pub column: u32,
}

/// A selected range of text.
#[derive(Clone, Copy, Debug, PartialEq, Eq, Structural)]
pub struct Selection {
    pub start_line: u32,
    pub start_column: u32,
    pub end_line: u32,
    pub end_column: u32,
}

/// A folded range of lines.
#[derive(Clone, Copy, Debug, PartialEq, Eq, Structural)]
pub struct FoldedRegion {
    pub start_line: u32,
    pub end_line: u32,
}

/// A tab open in the editor.
#[derive(Clone, Debug)]
pub struct OpenTab {
    pub path: String,
    pub is_pinned: bool,
    pub is_preview: bool,
}

/// Whether a panel shows, and its size where one was set.
#[derive(Clone, Copy, Debug, PartialEq, Eq, Structural)]
pub struct PanelState {
    pub visible: bool,
    pub width: Option<u32>,
    pub height: Option<u32>,
}

impl Default for PanelState {
    fn default() -> (r: Self)
        ensures
            r == (PanelState { visible: true, width: None, height: None }),
    {
        PanelState { visible: true, width: None, height: None }
    }
}

/// The panels of the window.
#[derive(Clone, Debug)]
pub struct PanelsState {
    pub sidebar: PanelState,
    pub terminal: PanelState,
    pub ai_panel: PanelState,
    pub bottom_panel_tab: String,
}

/// The panels of a fresh workspace: a 256-wide sidebar, a hidden 300-high terminal, a
/// hidden 400-wide AI panel, and the problems tab below.
pub open spec fn is_default_panels(p: PanelsState) -> bool {
    &&& p.sidebar == (PanelState { visible: true, width: Some(256), height: None })
    &&& p.terminal == (PanelState { visible: false, width: None, height: Some(300) })
    &&& p.ai_panel == (PanelState { visible: false, width: Some(400), height: None })
    &&& p.bottom_panel_tab@ == "problems"@
}

impl Default for PanelsState {
    fn default() -> (r: Self)
        ensures
            is_default_panels(r),
    {
        PanelsState {
            sidebar: PanelState { visible: true, width: Some(256), height: None },
            terminal: PanelState { visible: false, width: None, height: Some(300) },
            ai_panel: PanelState { visible: false, width: Some(400), height: None },
            bottom_panel_tab: "problems".to_owned(),
        }
    }
}

/// The panels of a fresh workspace.
pub fn default_panels_state() -> (r: PanelsState)
    ensures
        is_default_panels(r),
{
    PanelsState::default()
}

/// A workspace opened recently.
#[derive(Clone, Debug)]
pub struct RecentWorkspace {
    pub path: String,
    pub name: String,
    pub last_opened: i64,
}

/// Where the window was and how large, to restore it.
#[derive(Clone, Copy, Debug, PartialEq, Eq, Structural)]
pub struct WindowState {
    pub x: Option<i32>,
    pub y: Option<i32>,
    pub width: u32,
    pub height: u32,
    pub maximized: bool,
}

impl Default for WindowState {
    fn default() -> (r: Self)
        ensures
            r == (WindowState { x: None, y: None, width: 1280, height: 720, maximized: false }),
    {
        WindowState { x: None, y: None, width: 1280, height: 720, maximized: false }
    }
}

/// What changed in a session, as broadcast to the windows.
#[derive(Clone, Copy, Debug, PartialEq, Eq, Structural)]
pub enum SessionEventType {
    WorkspaceOpened,
    WorkspaceClosed,
    TabOpened,
    TabClosed,
    ActiveFileChanged,
    EditorStateChanged,
    PanelStateChanged,
    SessionRestored,
    SessionSaved,
}

/// The most recent workspaces that are remembered.
pub const MAX_RECENT_WORKSPACES: usize = 10;

/// The entries that are not for `path`.
pub open spec fn other_workspaces(s: Seq<RecentWorkspace>, path: Seq<char>) -> Seq<RecentWorkspace> {
    s.filter(|w: RecentWorkspace| w.path@ != path)
}

/// The name shown for a workspace: the last component of its path, else the path.
pub open spec fn workspace_name(path: Seq<char>) -> Seq<char> {
    match file_name_of(path) {
        Some(n) => n,
        None => path,
    }
}

fn take_others(recent: &mut Vec<RecentWorkspace>, path: &str) -> (r: Vec<RecentWorkspace>)
    ensures
        r@ == other_workspaces(old(recent)@, path@),
        final(recent)@.len() == 0,
{
    let ghost orig = recent@;
    let mut out: Vec<RecentWorkspace> = Vec::new();
    let mut k: usize = 0;
    let n = recent.len();
    while recent.len() > 0
        invariant
            k <= n,
            n == orig.len(),
            recent@ == orig.subrange(k as int, n as int),
            out@ == other_workspaces(orig.subrange(0, k as int), path@),
        decreases recent.len(),
    {
        let w = recent.remove(0);
        proof {
            let pre = orig.subrange(0, k as int);
            assert(orig.subrange(0, k + 1) == pre.push(w));
            pre.lemma_filter_push(w, |x: RecentWorkspace| x.path@ != path@);
            assert(recent@ == orig.subrange(k + 1, n as int));
        }
        if !str_eq(w.path.as_str(), path) {
            out.push(w);
        }
        k = k + 1;
    }
    proof {
        assert(orig.subrange(0, n as int) == orig);
    }
    out
}

/// Puts `path`, opened at `now`, first among the recent workspaces, without an older entry
/// for it, keeps at most `MAX_RECENT_WORKSPACES`, and makes it the last workspace.
pub fn add_recent_workspace(
    recent: &mut Vec<RecentWorkspace>,
    last_workspace: &mut Option<String>,
    path: &str,
    now: i64,
)
    ensures
        final(recent)@.len() == if 1 + other_workspaces(old(recent)@, path@).len()
            <= MAX_RECENT_WORKSPACES {
            1 + other_workspaces(old(recent)@, path@).len()
        } else {
            MAX_RECENT_WORKSPACES as nat
        },
        final(recent)@[0].path@ == path@,
        final(recent)@[0].name@ == workspace_name(path@),
        final(recent)@[0].last_opened == now,
        forall|k: int| 1 <= k < final(recent)@.len() ==> #[trigger] final(recent)@[k]
            == other_workspaces(old(recent)@, path@)[k - 1],
        (*final(last_workspace)) is Some && (*final(last_workspace))->Some_0@ == path@,
{
    let name = match file_name(path) {
        Some(n) => n,
        None => path.to_owned(),
    };
    let entry = RecentWorkspace { path: path.to_owned(), name, last_opened: now };
    let others = take_others(recent, path);
    let mut list: Vec<RecentWorkspace> = Vec::new();
    list.push(entry);
    let mut rest = others;
    list.append(&mut rest);
    if list.len() > MAX_RECENT_WORKSPACES {
        list.truncate(MAX_RECENT_WORKSPACES);
    }
    *recent = list;
    *last_workspace = Some(path.to_owned());
}

/// Forgets `path` among the recent workspaces; where it was the last workspace, the first
/// one left (if any) takes its place.
pub fn remove_recent_workspace(
    recent: &mut Vec<RecentWorkspace>,
    last_workspace: &mut Option<String>,
    path: &str,
)
    ensures
        final(recent)@ == other_workspaces(old(recent)@, path@),
        !((*old(last_workspace)) is Some && (*old(last_workspace))->Some_0@ == path@)
            ==> *final(last_workspace) == *old(last_workspace),
        (*old(last_workspace)) is Some && (*old(last_workspace))->Some_0@ == path@
            && final(recent)@.len() > 0 ==> (*final(last_workspace)) is Some
            && (*final(last_workspace))->Some_0@ == final(recent)@[0].path@,
        (*old(last_workspace)) is Some && (*old(last_workspace))->Some_0@ == path@
            && final(recent)@.len() == 0 ==> (*final(last_workspace)) is None,
{
    let others = take_others(recent, path);
    *recent = others;
    let was_last = match last_workspace {
        Some(l) => str_eq(l.as_str(), path),
        None => false,
    };
    if was_last {
        if recent.len() > 0 {
            *last_workspace = Some(recent[0].path.clone());
        } else {
            *last_workspace = None;
        }
    }
}

} // verus!
