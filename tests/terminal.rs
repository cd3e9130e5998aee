use code_terminal::terminal::registry::{Session, SessionRegistry};
use code_terminal::terminal::session::{
    close_plan, next_state, process_chunk, reader_action, should_read, ChildStatus, CloseStep,
    ReadOutcome, ReaderAction, SessionEvent, SessionState,
};
use code_terminal::terminal::shell::{get_process_name, get_shell_command, get_workspace, Platform};
use code_terminal::terminal::types::{initial_size, TerminalError, TerminalSize};

fn session(pid: u32, name: &str, handle: u8) -> Session<u8> {
    Session { pid, process_name: name.to_string(), handle }
}

#[test]
fn linux_runs_bash() {
    for kind in [None, Some("bash")] {
        let c = get_shell_command(Platform::Linux, kind, Some("/work"), Some("/here")).ok().unwrap();
        assert_eq!(c.program, "/bin/bash");
        assert!(c.args.is_empty());
        assert_eq!(c.cwd, "/work");
        assert_eq!(get_process_name(Platform::Linux, kind), "bash");
    }
}

#[test]
fn kinds_the_host_lacks_are_refused() {
    for (platform, kind) in [
        (Platform::Linux, "zsh"),
        (Platform::Linux, "cmd"),
        (Platform::MacOs, "cmd"),
        (Platform::Windows, "zsh"),
    ] {
        match get_shell_command(platform, Some(kind), None, None) {
            Err(TerminalError::UnsupportedShell(msg)) => assert_eq!(
                msg,
                format!("Terminal type is not supported on this platform: {}", kind)
            ),
            _ => panic!("expected UnsupportedShell"),
        }
    }
}

#[test]
fn macos_defaults_to_zsh() {
    let c = get_shell_command(Platform::MacOs, None, None, Some("/here")).ok().unwrap();
    assert_eq!(c.program, "/bin/zsh");
    assert_eq!(c.cwd, "/here");
    let b = get_shell_command(Platform::MacOs, Some("bash"), None, None).ok().unwrap();
    assert_eq!(b.program, "/bin/bash");
    assert_eq!(b.cwd, ".");
    assert_eq!(get_process_name(Platform::MacOs, None), "zsh");
    assert_eq!(get_process_name(Platform::MacOs, Some("bash")), "bash");
}

#[test]
fn windows_shells() {
    let p = get_shell_command(Platform::Windows, None, Some("C:\\w"), None).ok().unwrap();
    let named = get_shell_command(Platform::Windows, Some("powershell"), None, None).ok().unwrap();
    assert_eq!(named.program, "powershell.exe");
    assert_eq!(p.program, "powershell.exe");
    assert_eq!(p.args, vec!["-NoExit".to_string(), "-NoLogo".to_string()]);
    let c = get_shell_command(Platform::Windows, Some("cmd"), None, None).ok().unwrap();
    assert_eq!(c.program, "cmd.exe");
    assert!(c.args.is_empty());
    assert_eq!(get_process_name(Platform::Windows, Some("cmd")), "cmd.exe");
    assert_eq!(get_process_name(Platform::Windows, Some("git-bash")), "bash.exe");
    assert_eq!(get_process_name(Platform::Windows, None), "powershell.exe");
}

#[test]
fn git_bash_on_windows_is_unsupported() {
    for kind in ["bash", "git-bash"] {
        match get_shell_command(Platform::Windows, Some(kind), None, None) {
            Err(TerminalError::UnsupportedShell(msg)) => assert!(msg.contains("Git Bash")),
            _ => panic!("expected UnsupportedShell"),
        }
    }
}

#[test]
fn workspace_falls_back() {
    assert_eq!(get_workspace(Some("/a"), Some("/b")), "/a");
    assert_eq!(get_workspace(None, Some("/b")), "/b");
    assert_eq!(get_workspace(None, None), ".");
}

#[test]
fn platform_names() {
    assert_eq!(Platform::from_os_name("linux"), Some(Platform::Linux));
    assert_eq!(Platform::from_os_name("macos"), Some(Platform::MacOs));
    assert_eq!(Platform::from_os_name("windows"), Some(Platform::Windows));
    assert_eq!(Platform::from_os_name("plan9"), None);
}

#[test]
fn default_size_is_24_by_80() {
    assert_eq!(initial_size(None), TerminalSize { rows: 24, cols: 80 });
    let s = TerminalSize { rows: 40, cols: 120 };
    assert_eq!(initial_size(Some(s)), s);
}

#[test]
fn error_messages() {
    assert_eq!(TerminalError::SessionNotFound("abc".to_string()).message(), "Terminal not found: abc");
    assert_eq!(TerminalError::WriteFailed("broken pipe".to_string()).message(), "Failed to write to terminal: broken pipe");
    assert_eq!(TerminalError::ResizeFailed("x".to_string()).message(), "Failed to resize terminal: x");
    assert_eq!(TerminalError::FlushFailed("x".to_string()).message(), "Failed to flush terminal: x");
    assert_eq!(TerminalError::PtyOpenFailed("x".to_string()).message(), "Failed to open PTY: x");
    assert_eq!(TerminalError::SpawnFailed("x".to_string()).message(), "Failed to spawn command: x");
    assert_eq!(TerminalError::WriterUnavailable("x".to_string()).message(), "Failed to take master writer: x");
    assert_eq!(TerminalError::ReaderUnavailable("x".to_string()).message(), "Failed to clone master reader: x");
    assert_eq!(TerminalError::UnsupportedShell("no".to_string()).message(), "no");
}

#[test]
fn close_twice_reports_session_not_found() {
    let mut reg: SessionRegistry<u8> = SessionRegistry::new();
    assert!(reg.insert("t1".to_string(), session(42, "bash", 7)).is_none());
    let first = reg.remove("t1");
    assert_eq!(first.ok().unwrap().handle, 7);
    match reg.remove("t1") {
        Err(TerminalError::SessionNotFound(id)) => assert_eq!(id, "t1"),
        _ => panic!("expected SessionNotFound"),
    }
}

#[test]
fn info_after_close_is_not_found() {
    let mut reg: SessionRegistry<u8> = SessionRegistry::new();
    reg.insert("a".to_string(), session(10, "zsh", 1));
    reg.insert("b".to_string(), session(11, "bash", 2));
    let info = reg.info("a").ok().unwrap();
    assert_eq!(info.terminal_id, "a");
    assert_eq!(info.pid, 10);
    assert_eq!(info.process_name, "zsh");
    assert!(reg.remove("a").is_ok());
    assert!(matches!(reg.info("a"), Err(TerminalError::SessionNotFound(_))));
    assert!(matches!(reg.get("a"), Err(TerminalError::SessionNotFound(_))));
    assert_eq!(*reg.get("b").ok().unwrap(), 2);
    assert_eq!(reg.len(), 1);
}

#[test]
fn insert_under_taken_id_hands_back_the_old_session() {
    let mut reg: SessionRegistry<u8> = SessionRegistry::new();
    reg.insert("a".to_string(), session(1, "bash", 1));
    let old = reg.insert("a".to_string(), session(2, "bash", 2)).unwrap();
    assert_eq!(old.pid, 1);
    assert_eq!(reg.len(), 1);
    assert_eq!(*reg.get("a").ok().unwrap(), 2);
}

#[test]
fn register_mints_distinct_ids() {
    let mut reg: SessionRegistry<u8> = SessionRegistry::new();
    let a = reg.register(session(1, "bash", 1)).ok().unwrap();
    let b = reg.register(session(2, "bash", 2)).ok().unwrap();
    assert_eq!(a.len(), 36);
    assert_ne!(a, b);
    assert!(reg.contains(&a) && reg.contains(&b));
    assert_eq!(reg.len(), 2);
}

#[test]
fn reader_stops_on_request_or_exit() {
    assert!(should_read(false, ChildStatus::Running));
    assert!(!should_read(true, ChildStatus::Running));
    assert!(!should_read(false, ChildStatus::Exited));
    assert!(!should_read(false, ChildStatus::WaitFailed));
}

#[test]
fn reader_actions() {
    assert!(matches!(reader_action(&ReadOutcome::Bytes(vec![])), ReaderAction::Stop));
    match reader_action(&ReadOutcome::Bytes(b"hi\x07\n".to_vec())) {
        ReaderAction::Emit(t) => assert_eq!(t, "hi\n"),
        _ => panic!("expected Emit"),
    }
    assert!(matches!(reader_action(&ReadOutcome::Bytes(vec![7])), ReaderAction::Continue));
    assert!(matches!(
        reader_action(&ReadOutcome::Failed("operation would block".to_string())),
        ReaderAction::Retry
    ));
    assert!(matches!(
        reader_action(&ReadOutcome::Failed("input/output error".to_string())),
        ReaderAction::Stop
    ));
}

#[test]
fn chunk_is_decoded_lossily_and_filtered() {
    assert_eq!(process_chunk(b"ok\x1b[?3h!"), Some("ok!".to_string()));
    assert_eq!(process_chunk(&[0x61, 0xff, 0x62]), Some("a\u{fffd}b".to_string()));
    assert_eq!(process_chunk(b"\x07\x1b[?5l"), None);
}

#[test]
fn close_steps_in_order() {
    assert_eq!(
        close_plan(Platform::Linux, 42),
        vec![
            CloseStep::RequestStop,
            CloseStep::KillChild,
            CloseStep::WaitChild,
            CloseStep::ReleaseHandles,
            CloseStep::JoinReader
        ]
    );
    assert_eq!(close_plan(Platform::Windows, 42)[1], CloseStep::KillTree);
    assert_eq!(close_plan(Platform::Windows, 0).len(), 5);
}

#[test]
fn lifecycle_transitions() {
    assert_eq!(next_state(SessionState::Spawning, SessionEvent::Established), Some(SessionState::Running));
    assert_eq!(next_state(SessionState::Running, SessionEvent::CloseRequested), Some(SessionState::Closing));
    assert_eq!(next_state(SessionState::Closing, SessionEvent::TornDown), Some(SessionState::Closed));
    assert_eq!(next_state(SessionState::Spawning, SessionEvent::SpawnFailed), Some(SessionState::Closed));
    assert_eq!(next_state(SessionState::Closed, SessionEvent::CloseRequested), None);
}

#[test]
fn register_as_refuses_only_a_taken_id() {
    let mut reg: SessionRegistry<u8> = SessionRegistry::new();
    assert_eq!(reg.register_as("id-1".to_string(), session(1, "bash", 1)).ok().unwrap(), "id-1");
    let back = reg.register_as("id-1".to_string(), session(2, "bash", 2)).err().unwrap();
    assert_eq!(back.handle, 2);
    assert_eq!(*reg.get("id-1").ok().unwrap(), 1);
    assert_eq!(reg.len(), 1);
    assert!(reg.register(session(3, "zsh", 3)).is_ok());
    assert_eq!(reg.len(), 2);
}
