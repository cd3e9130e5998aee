use vstd::prelude::*;

use crate::terminal::types::TerminalError;
use crate::text::{join, str_eq};

verus! {

/// The host platforms whose shells the resolver knows.
#[derive(Clone, Copy, Debug, PartialEq, Eq, Structural)]
pub enum Platform {
    Windows,
    MacOs,
    Linux,
}

/// A ready-to-spawn shell: executable, arguments and working directory.
pub struct ShellCommand {
    pub program: String,
    pub args: Vec<String>,
    pub cwd: String,
}

/// The platform that an OS name (as `std::env::consts::OS` gives it) stands for.
pub open spec fn platform_of(name: Seq<char>) -> Option<Platform> {
    if name == "windows"@ {
        Some(Platform::Windows)
    } else if name == "macos"@ {
        Some(Platform::MacOs)
    } else if name == "linux"@ {
        Some(Platform::Linux)
    } else {
        None
    }
}

/// The requested terminal kind is the given one.
pub open spec fn kind_is(kind: Option<Seq<char>>, name: Seq<char>) -> bool {
    kind == Some(name)
}

/// The kinds each host offers: the native shell (no kind), and cmd or PowerShell on
/// Windows, zsh or bash on macOS, bash on Linux.
pub open spec fn supported(platform: Platform, kind: Option<Seq<char>>) -> bool {
    kind is None || match platform {
        Platform::Windows => kind_is(kind, "cmd"@) || kind_is(kind, "powershell"@),
        Platform::MacOs => kind_is(kind, "zsh"@) || kind_is(kind, "bash"@),
        Platform::Linux => kind_is(kind, "bash"@),
    }
}

/// A kind the host does not offer is refused.
pub open spec fn unsupported(platform: Platform, kind: Option<Seq<char>>) -> bool {
    !supported(platform, kind)
}

/// Git Bash over ConPTY is known to be broken on Windows.
pub open spec fn git_bash_on_windows(platform: Platform, kind: Option<Seq<char>>) -> bool {
    platform == Platform::Windows && (kind_is(kind, "bash"@) || kind_is(kind, "git-bash"@))
}

pub const GIT_BASH_REFUSAL: &'static str = "Git Bash is currently not supported due to ConPTY compatibility issues. Please use PowerShell or CMD instead.";

/// What the user is told of a refused kind.
pub open spec fn refusal(platform: Platform, kind: Option<Seq<char>>) -> Seq<char> {
    if git_bash_on_windows(platform, kind) {
        GIT_BASH_REFUSAL@
    } else {
        "Terminal type is not supported on this platform: "@ + kind->Some_0
    }
}

/// The executable that a request resolves to, where it is supported.
pub open spec fn shell_program(platform: Platform, kind: Option<Seq<char>>) -> Seq<char> {
    match platform {
        Platform::Windows => if kind_is(kind, "cmd"@) {
            "cmd.exe"@
        } else {
            "powershell.exe"@
        },
        Platform::MacOs => if kind_is(kind, "bash"@) {
            "/bin/bash"@
        } else {
            "/bin/zsh"@
        },
        Platform::Linux => "/bin/bash"@,
    }
}

/// The arguments the resolved shell is started with.
pub open spec fn shell_args(platform: Platform, kind: Option<Seq<char>>) -> Seq<Seq<char>> {
    if platform == Platform::Windows && !kind_is(kind, "cmd"@) {
        seq!["-NoExit"@, "-NoLogo"@]
    } else {
        Seq::empty()
    }
}

/// The name shown for a session's process.
pub open spec fn process_name_of(platform: Platform, kind: Option<Seq<char>>) -> Seq<char> {
    match platform {
        Platform::Windows => if kind_is(kind, "cmd"@) {
            "cmd.exe"@
        } else if kind_is(kind, "bash"@) || kind_is(kind, "git-bash"@) {
            "bash.exe"@
        } else {
            "powershell.exe"@
        },
        Platform::MacOs => if kind_is(kind, "bash"@) {
            "bash"@
        } else {
            "zsh"@
        },
        Platform::Linux => "bash"@,
    }
}

/// The working directory: the one asked for, else the current one, else ".".
pub open spec fn workspace_of(
    workspace_path: Option<Seq<char>>,
    current_dir: Option<Seq<char>>,
) -> Seq<char> {
    match workspace_path {
        Some(w) => w,
        None => match current_dir {
            Some(c) => c,
            None => "."@,
        },
    }
}

pub open spec fn opt_view(s: Option<&str>) -> Option<Seq<char>> {
    match s {
        Some(v) => Some(v@),
        None => None,
    }
}

pub open spec fn strings_view(v: Seq<String>) -> Seq<Seq<char>> {
    v.map_values(|s: String| s@)
}

fn kind_matches(kind: Option<&str>, name: &str) -> (r: bool)
    ensures
        r == kind_is(opt_view(kind), name@),
{
    match kind {
        Some(k) => str_eq(k, name),
        None => false,
    }
}

impl Platform {
    /// The platform that an OS name stands for, if it is one the resolver knows.
    pub fn from_os_name(name: &str) -> (r: Option<Platform>)
        ensures
            r == platform_of(name@),
    {
        if str_eq(name, "windows") {
            Some(Platform::Windows)
        } else if str_eq(name, "macos") {
            Some(Platform::MacOs)
        } else if str_eq(name, "linux") {
            Some(Platform::Linux)
        } else {
            None
        }
    }
}

/// The working directory for a new session.
pub fn get_workspace(workspace_path: Option<&str>, current_dir: Option<&str>) -> (r: String)
    ensures
        r@ == workspace_of(opt_view(workspace_path), opt_view(current_dir)),
{
    match workspace_path {
        Some(w) => w.to_owned(),
        None => match current_dir {
            Some(c) => c.to_owned(),
            None => ".".to_owned(),
        },
    }
}

/// Maps a terminal kind and a working directory to the shell to spawn on `platform`;
/// with no kind, the platform's native shell. A kind the platform cannot run is refused.
pub fn get_shell_command(
    platform: Platform,
    terminal_type: Option<&str>,
    workspace_path: Option<&str>,
    current_dir: Option<&str>,
) -> (r: Result<ShellCommand, TerminalError>)
    ensures
        unsupported(platform, opt_view(terminal_type)) <==> r is Err,
        r is Err ==> r->Err_0 is UnsupportedShell && r->Err_0->UnsupportedShell_0@ == refusal(
            platform,
            opt_view(terminal_type),
        ),
        r is Ok ==> r->Ok_0.program@ == shell_program(platform, opt_view(terminal_type)),
        r is Ok ==> strings_view(r->Ok_0.args@) == shell_args(platform, opt_view(terminal_type)),
        r is Ok ==> r->Ok_0.cwd@ == workspace_of(opt_view(workspace_path), opt_view(current_dir)),
{
    proof {
        reveal_strlit("cmd");
        reveal_strlit("bash");
        reveal_strlit("git-bash");
        reveal_strlit("zsh");
        reveal_strlit("powershell");
        assert("cmd"@.len() != "bash"@.len());
        assert("cmd"@.len() != "git-bash"@.len());
        assert("cmd"@.len() != "powershell"@.len());
        assert("cmd"@[0] != "zsh"@[0]);
        assert("zsh"@.len() != "bash"@.len());
        assert("powershell"@.len() != "bash"@.len());
        assert("powershell"@.len() != "git-bash"@.len());
    }
    let supported_kind = match terminal_type {
        None => true,
        Some(_) => match platform {
            Platform::Windows => kind_matches(terminal_type, "cmd") || kind_matches(
                terminal_type,
                "powershell",
            ),
            Platform::MacOs => kind_matches(terminal_type, "zsh") || kind_matches(
                terminal_type,
                "bash",
            ),
            Platform::Linux => kind_matches(terminal_type, "bash"),
        },
    };
    if !supported_kind {
        let is_git_bash = platform == Platform::Windows && (kind_matches(terminal_type, "bash")
            || kind_matches(terminal_type, "git-bash"));
        let message = if is_git_bash {
            GIT_BASH_REFUSAL.to_owned()
        } else {
            match terminal_type {
                Some(k) => join("Terminal type is not supported on this platform: ", k),
                None => "Terminal type is not supported on this platform: ".to_owned(),
            }
        };
        return Err(TerminalError::UnsupportedShell(message));
    }
    let cwd = get_workspace(workspace_path, current_dir);
    match platform {
        Platform::Windows => {
            if kind_matches(terminal_type, "cmd") {
                let args: Vec<String> = Vec::new();
                proof {
                    assert(strings_view(args@) =~= Seq::<Seq<char>>::empty());
                }
                Ok(ShellCommand { program: "cmd.exe".to_owned(), args, cwd })
            } else {
                let args: Vec<String> = vec!["-NoExit".to_owned(), "-NoLogo".to_owned()];
                proof {
                    assert(strings_view(args@) =~= seq!["-NoExit"@, "-NoLogo"@]);
                }
                Ok(ShellCommand { program: "powershell.exe".to_owned(), args, cwd })
            }
        },
        Platform::MacOs => {
            let program = if kind_matches(terminal_type, "bash") {
                "/bin/bash".to_owned()
            } else {
                "/bin/zsh".to_owned()
            };
            let args: Vec<String> = Vec::new();
            proof {
                assert(strings_view(args@) =~= Seq::<Seq<char>>::empty());
            }
            Ok(ShellCommand { program, args, cwd })
        },
        Platform::Linux => {
            let args: Vec<String> = Vec::new();
            proof {
                assert(strings_view(args@) =~= Seq::<Seq<char>>::empty());
            }
            Ok(ShellCommand { program: "/bin/bash".to_owned(), args, cwd })
        },
    }
}

/// The name shown for the process of a session of the given kind.
pub fn get_process_name(platform: Platform, terminal_type: Option<&str>) -> (r: String)
    ensures
        r@ == process_name_of(platform, opt_view(terminal_type)),
{
    match platform {
        Platform::Windows => {
            if kind_matches(terminal_type, "cmd") {
                "cmd.exe".to_owned()
            } else if kind_matches(terminal_type, "bash") || kind_matches(
                terminal_type,
                "git-bash",
            ) {
                "bash.exe".to_owned()
            } else {
                "powershell.exe".to_owned()
            }
        },
        Platform::MacOs => {
            if kind_matches(terminal_type, "bash") {
                "bash".to_owned()
            } else {
                "zsh".to_owned()
            }
        },
        Platform::Linux => "bash".to_owned(),
    }
}

} // verus!
