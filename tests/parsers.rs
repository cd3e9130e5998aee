use code_terminal::git::get_avatar_url;
use code_terminal::problems::parse_typescript_line;
use code_terminal::git::extract_github_username;
use code_terminal::ports::{
    merge_port_lists, parse_linux_process_info, parse_lsof_output, parse_netstat_output,
    parse_netstat_process_info, parse_ss_output, parse_u32, PortInfo,
};
use code_terminal::problems::{is_supported_extension, normalize_path, parse_ts_code_and_message};
use code_terminal::replace_case::preserve_case;

fn chars(s: &str) -> Vec<char> {
    s.chars().collect()
}

#[test]
fn u32_parsing_follows_std() {
    for s in ["0", "42", "+7", "4294967295", "", "+", "-1", "4294967296", "12a", " 1"] {
        let v = chars(s);
        assert_eq!(parse_u32(&v, 0, v.len()), s.parse::<u32>().ok(), "input {:?}", s);
    }
}

#[test]
fn ss_process_column() {
    let (pid, name) = parse_linux_process_info("users:((\"sshd\",pid=1234,fd=3))");
    assert_eq!(pid, Some(1234));
    assert_eq!(name.as_deref(), Some("sshd"));
    let (pid, name) = parse_linux_process_info("users:((\"ssh\",pid=1,fd=12),(\"ssh\",pid=5678,fd=13))");
    assert_eq!(pid, Some(1));
    assert_eq!(name.as_deref(), Some("ssh"));
    assert_eq!(parse_linux_process_info("nothing here"), (None, None));
    assert_eq!(parse_linux_process_info("pid=77"), (None, None));
}

#[test]
fn netstat_process_column() {
    assert_eq!(parse_netstat_process_info("-"), (None, None));
    assert_eq!(
        parse_netstat_process_info("1234/node"),
        (Some(1234), Some("node".to_string()))
    );
    assert_eq!(
        parse_netstat_process_info("12/a/b"),
        (Some(12), Some("a/b".to_string()))
    );
    assert_eq!(parse_netstat_process_info("99"), (Some(99), None));
    assert_eq!(parse_netstat_process_info("x/y"), (None, Some("y".to_string())));
}

#[test]
fn ts_code_and_message() {
    assert_eq!(
        parse_ts_code_and_message("TS2304: Cannot find name 'x'."),
        (Some("TS2304".to_string()), "Cannot find name 'x'.".to_string())
    );
    assert_eq!(
        parse_ts_code_and_message("no code: here"),
        (None, "no code: here".to_string())
    );
    assert_eq!(parse_ts_code_and_message("plain"), (None, "plain".to_string()));
}

#[test]
fn paths_are_made_relative() {
    assert_eq!(normalize_path("C:\\proj\\src\\a.ts", "C:\\proj"), "src/a.ts");
    assert_eq!(normalize_path("/home/u/p//x.ts", "/home/u/p"), "x.ts");
    assert_eq!(normalize_path("other/x.ts", "/home/u/p"), "other/x.ts");
}

#[test]
fn supported_extensions() {
    for e in ["js", "jsx", "ts", "tsx", "mjs", "cjs", "mts", "cts"] {
        assert!(is_supported_extension(e));
    }
    assert!(!is_supported_extension("rs"));
    assert!(!is_supported_extension(""));
}

#[test]
fn case_is_preserved() {
    assert_eq!(preserve_case("world", "HELLO"), "WORLD");
    assert_eq!(preserve_case("World", "hello"), "world");
    assert_eq!(preserve_case("world", "Hello"), "World");
    assert_eq!(preserve_case("world", "hElLo"), "world");
    assert_eq!(preserve_case("world", ""), "world");
    assert_eq!(preserve_case("world", "123"), "world");
    assert_eq!(preserve_case("", "Hello"), "");
}

#[test]
fn github_user_from_remote() {
    assert_eq!(extract_github_username("git@github.com:octo/repo.git").as_deref(), Some("octo"));
    assert_eq!(extract_github_username("https://github.com/octo/repo").as_deref(), Some("octo"));
    assert_eq!(extract_github_username("https://github.com/octo").as_deref(), Some("octo"));
    assert_eq!(extract_github_username("https://gitlab.com/octo/repo"), None);
    assert_eq!(extract_github_username("https://github.com"), None);
    assert_eq!(
        extract_github_username("https://github.com/a github.com/b").as_deref(),
        Some("a ")
    );
}

#[test]
fn typescript_lines() {
    let mut id = 7u32;
    let p = parse_typescript_line(
        "  src/app.ts(12,5): error TS2304: Cannot find name 'x'.  ",
        "/proj",
        &mut id,
    )
    .unwrap();
    assert_eq!(p.id, 7);
    assert_eq!(id, 8);
    assert_eq!(p.problem_type, "error");
    assert_eq!(p.path, "src/app.ts");
    assert_eq!(p.file, "app.ts");
    assert_eq!((p.line, p.column), (12, 5));
    assert_eq!(p.code.as_deref(), Some("TS2304"));
    assert_eq!(p.message, "Cannot find name 'x'.");
    assert_eq!(p.source, "ts");

    let w = parse_typescript_line("/proj/lib/b.ts(1, 2): warning TS6133: unused", "/proj", &mut id).unwrap();
    assert_eq!(w.problem_type, "warning");
    assert_eq!(w.path, "lib/b.ts");
    assert_eq!((w.line, w.column), (1, 2));
    assert_eq!(id, 9);

    assert!(parse_typescript_line("", "/proj", &mut id).is_none());
    assert!(parse_typescript_line("Found 2 errors.", "/proj", &mut id).is_none());
    assert!(parse_typescript_line("a.ts(3): error TS1: x", "/proj", &mut id).is_none());
    assert!(parse_typescript_line("a.ts(3,4): note TS1: x", "/proj", &mut id).is_none());
    assert_eq!(id, 9);
}

#[test]
fn avatar_urls() {
    assert_eq!(
        get_avatar_url("123+octo@users.noreply.github.com", "Octo Cat", false, None).as_deref(),
        Some("https://github.com/octo.png?size=40")
    );
    assert_eq!(
        get_avatar_url("octo@users.noreply.github.com", "Octo Cat", false, None).as_deref(),
        Some("https://github.com/octo.png?size=40")
    );
    assert_eq!(
        get_avatar_url("me@example.com", "Me Too", true, Some("gh")).as_deref(),
        Some("https://github.com/gh.png?size=40")
    );
    assert_eq!(
        get_avatar_url("me@example.com", "  solo ", false, Some("gh")).as_deref(),
        Some("https://github.com/solo.png?size=40")
    );
    assert_eq!(
        get_avatar_url(" A@B.com ", "Two Words", false, None).as_deref(),
        Some("https://www.gravatar.com/avatar/357a20e8c56e69d6f9734d23ef9517e8?s=40&d=retro")
    );
}

#[test]
fn lsof_listing() {
    let out = b"COMMAND   PID USER   FD   TYPE DEVICE SIZE/OFF NODE NAME\n\
node    4242 me   23u  IPv4 0x1      0t0  TCP *:3000 (LISTEN)\n\
node    4242 me   24u  IPv6 0x2      0t0  TCP [::1]:3000 (LISTEN)\n\
short line\n\
postgres 77 me 5u IPv4 0x3 0t0 TCP 127.0.0.1:5432 (LISTEN)\n\
zero 1 me 5u IPv4 0x3 0t0 TCP 127.0.0.1:0 (LISTEN)\n";
    let ports = parse_lsof_output(out, "TCP", "LISTEN").unwrap();
    assert_eq!(ports.len(), 2);
    assert_eq!(ports[0].port, 3000);
    assert_eq!(ports[0].pid, Some(4242));
    assert_eq!(ports[0].process_name.as_deref(), Some("node"));
    assert_eq!(ports[0].local_address, "*:3000");
    assert_eq!(ports[0].protocol, "TCP");
    assert_eq!(ports[0].state, "LISTEN");
    assert_eq!(ports[1].port, 5432);
    assert_eq!(ports[1].local_address, "127.0.0.1:5432");
    assert!(parse_lsof_output(b"", "UDP", "").unwrap().is_empty());
}

fn port(p: u16, proto: &str) -> PortInfo {
    PortInfo {
        port: p,
        protocol: proto.to_string(),
        pid: None,
        process_name: None,
        local_address: String::new(),
        state: String::new(),
    }
}

#[test]
fn port_lists_merge_sorted_and_unique() {
    let merged = merge_port_lists(
        Some(vec![port(8080, "TCP"), port(22, "TCP"), port(22, "TCP")]),
        Some(vec![port(53, "UDP"), port(22, "UDP")]),
    )
    .unwrap();
    let keys: Vec<(u16, &str)> = merged.iter().map(|p| (p.port, p.protocol.as_str())).collect();
    assert_eq!(keys, vec![(22, "TCP"), (22, "UDP"), (53, "UDP"), (8080, "TCP")]);
    assert_eq!(
        merge_port_lists(None, Some(vec![])).unwrap_err(),
        "Failed to get port information (may require sudo)"
    );
}

#[test]
fn ss_listing() {
    let out = b"Netid State  Recv-Q Send-Q Local Address:Port Peer Address:Port Process\n\
tcp   LISTEN 0      128    0.0.0.0:22         0.0.0.0:*     users:((\"sshd\",pid=812,fd=3))\n\
udp   UNCONN 0      0      127.0.0.53%lo:53   0.0.0.0:*\n\
tcp   LISTEN 0      128    [::]:22            [::]:*        users:((\"sshd\",pid=812,fd=4))\n\
tcp   LISTEN 0      511    127.0.0.1:8080     0.0.0.0:*     users:((\"node\",pid=9,fd=20))\n";
    let ports = parse_ss_output(out);
    let keys: Vec<(u16, &str)> = ports.iter().map(|p| (p.port, p.protocol.as_str())).collect();
    assert_eq!(keys, vec![(22, "TCP"), (53, "UDP"), (8080, "TCP")]);
    assert_eq!(ports[0].pid, Some(812));
    assert_eq!(ports[0].process_name.as_deref(), Some("sshd"));
    assert_eq!(ports[0].local_address, "0.0.0.0:22");
    assert_eq!(ports[1].pid, None);
    assert_eq!(ports[2].process_name.as_deref(), Some("node"));
    assert!(ports.iter().all(|p| p.state == "LISTEN"));
}

#[test]
fn netstat_listing() {
    let out = b"Active Internet connections (only servers)\n\
Proto Recv-Q Send-Q Local Address Foreign Address State PID/Program name\n\
tcp        0      0 0.0.0.0:5432  0.0.0.0:*  LISTEN  77/postgres\n\
tcp6       0      0 :::80         :::*       LISTEN  -\n\
udp        0      0 0.0.0.0:68    0.0.0.0:*          501/dhclient\n";
    let ports = parse_netstat_output(out);
    let keys: Vec<(u16, &str)> = ports.iter().map(|p| (p.port, p.protocol.as_str())).collect();
    assert_eq!(keys, vec![(68, "UDP"), (80, "TCP"), (5432, "TCP")]);
    assert_eq!(ports[0].pid, Some(501));
    assert_eq!(ports[1].pid, None);
    assert_eq!(ports[2].process_name.as_deref(), Some("postgres"));
}
