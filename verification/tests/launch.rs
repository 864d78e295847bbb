use mobiletunnel::host::ipv6_stripped;
use mobiletunnel::launch::{
    check_command, check_request, command_line, copied_server_command, installed_server_command,
    location_with, look_again, make_pid_file_location, make_self_location, pick_local_port,
    pid_file_command, reconnecting_ssh_command, run_as_server_args, scp_command,
    server_arg_string, server_pid, server_port, ssh_command, stderr_log_name, CommandLine,
    LaunchError, OutputError, PidLookup,
};
use mobiletunnel::processes::{file_name, is_old_server, process_matches, ProcessInfo};
use mobiletunnel::server_check_port::{check_server_port, ServerCheck};
use mobiletunnel::ssh_runner::{
    next_ssh_action, next_ssh_loop_action, RunSshResult, SshAction, SshEvent, SshLoopAction,
    SshLoopEvent,
};
use mobiletunnel::text::{
    chars_of, decimal_string, parse_u16, parse_u32, remove_all, same_text, split, starts_with,
    trim, NumberError,
};

fn strings(words: &[&str]) -> Vec<String> {
    words.iter().map(|w| w.to_string()).collect()
}

fn words(command: &CommandLine) -> Vec<String> {
    let mut all = vec![command.program.clone()];
    all.extend(command.args.iter().cloned());
    all
}

#[test]
fn ipv6_brackets() {
    assert_eq!(ipv6_stripped("[::1]"), "::1");
    assert_eq!(ipv6_stripped("::1"), "::1");
    assert_eq!(ipv6_stripped("[::1"), "::1");
    assert_eq!(ipv6_stripped("::1]"), "::1");
    assert_eq!(ipv6_stripped("[[x]]"), "[x]");
    assert_eq!(ipv6_stripped("["), "");
    assert_eq!(ipv6_stripped("]"), "");
    assert_eq!(ipv6_stripped(""), "");
}

#[test]
fn numbers_are_written() {
    assert_eq!(decimal_string(0), "0");
    assert_eq!(decimal_string(10), "10");
    assert_eq!(decimal_string(u64::MAX), "18446744073709551615");
}

#[test]
fn numbers_are_read_as_std_reads_them() {
    for s in [
        "", "+", "-", "0", "00", "+7", "-7", "65535", "65536", "655360x", "6553x6", "4294967295",
        "4294967296", " 1", "1 ", "++1", "1+", "１", "000000000000000000001",
    ] {
        match (parse_u16(s), s.parse::<u16>()) {
            (Ok(a), Ok(b)) => assert_eq!(a, b),
            (Err(a), Err(b)) => assert_eq!(a.to_string(), b.to_string(), "{:?}", s),
            _ => panic!("{:?}", s),
        }
        match (parse_u32(s), s.parse::<u32>()) {
            (Ok(a), Ok(b)) => assert_eq!(a, b),
            (Err(a), Err(b)) => assert_eq!(a.to_string(), b.to_string(), "{:?}", s),
            _ => panic!("{:?}", s),
        }
    }
    assert_eq!(parse_u16(""), Err(NumberError::Empty));
    assert_eq!(parse_u16("x"), Err(NumberError::InvalidDigit));
    assert_eq!(parse_u16("70000"), Err(NumberError::TooLarge));
}

#[test]
fn written_numbers_are_read() {
    for n in [0u16, 1, 9, 10, 22, 8022, 65535] {
        assert_eq!(parse_u16(&decimal_string(n as u64)), Ok(n));
    }
}

#[test]
fn white_space_is_trimmed_as_std_trims_it() {
    for s in ["", " ", "  a b ", "\n1234\n", "\u{2003}x\u{3000}", "\u{200b}x", "x\u{85}\u{a0}"] {
        assert_eq!(trim(s), s.trim());
    }
    for u in (0..0x3100u32).filter_map(char::from_u32) {
        assert_eq!(trim(&u.to_string()).is_empty(), u.is_whitespace());
    }
}

#[test]
fn texts_are_split_and_compared() {
    for s in ["", " ", "ssh", "ssh -i key", "a  b ", " a"] {
        let expected: Vec<String> = s.split(' ').map(|x| x.to_string()).collect();
        assert_eq!(split(s, ' '), expected);
    }
    assert!(same_text("ab", "ab"));
    assert!(!same_text("ab", "ac"));
    assert!(!same_text("ab", "abc"));
    assert!(starts_with("BAD 1", "BAD"));
    assert!(starts_with("BAD", ""));
    assert!(!starts_with("BA", "BAD"));
    assert!(!starts_with("GOOD 1", "BAD"));
    assert_eq!(chars_of("äö"), vec!['ä', 'ö']);
}

#[test]
fn occurrences_are_removed() {
    for (s, p) in [("server (deleted)", " (deleted)"), ("aaa", "aa"), ("abab", "ab"), ("", "x")] {
        assert_eq!(remove_all(s, p), s.replace(p, ""));
    }
    assert_eq!(remove_all(" (deleted)x (deleted)", " (deleted)"), "x");
}

#[test]
fn check_requests() {
    let check = |args: &[&str]| check_request(&strings(args));
    assert_eq!(check(&["exe", "check-server-pid", "17"]), Ok(Some(17)));
    assert_eq!(check(&["exe", "check-server-pid"]), Ok(None));
    assert_eq!(check(&["exe", "check-server-pid", "17", "x"]), Ok(None));
    assert_eq!(check(&["exe", "--check", "17"]), Ok(None));
    assert_eq!(
        check(&["exe", "check-server-pid", "x"]),
        Err(LaunchError::NotANumber(NumberError::InvalidDigit))
    );
    // What is asked for over ssh is what is understood.
    let command = check_command("/tmp/mobiletunnel", 4321);
    assert_eq!(command, "/tmp/mobiletunnel check-server-pid 4321");
    assert_eq!(check_request(&split(&command, ' ')), Ok(Some(4321)));
}

#[test]
fn server_arguments_are_split_into_words() {
    assert_eq!(
        run_as_server_args("exe".to_string(), "--target-port=22 --name='a b' c\\ d \"e f\""),
        Ok(strings(&["exe", "--target-port=22", "--name=a b", "c d", "e f"]))
    );
    assert_eq!(run_as_server_args("exe".to_string(), ""), Ok(strings(&["exe"])));
    assert_eq!(
        run_as_server_args("exe".to_string(), "it's"),
        Err(LaunchError::MismatchedQuotes)
    );
}

#[test]
fn launch_error_texts() {
    assert_eq!(LaunchError::MismatchedQuotes.to_string(), "Mismatched quotes");
    assert_eq!(LaunchError::NoServerPid.to_string(), "no server pid found");
    assert_eq!(
        LaunchError::NotANumber(NumberError::Empty).to_string(),
        "cannot parse integer from empty string"
    );
}

#[test]
fn locations() {
    let (path, base) = location_with("/tmp/", "mobiletunnel", "me", "abc");
    assert_eq!(path, "/tmp/mobiletunnel_me_abc");
    assert_eq!(base, "mobiletunnel_me");
    assert_eq!(location_with("/var/tmp", "b", "u", "r").0, "/var/tmp/b_u_r");
    assert_eq!(location_with("", "b", "u", "r").0, "b_u_r");
    assert_eq!(location_with("/tmp", "/b", "u", "r").0, "/b_u_r");
    for dir in ["/tmp/", "/tmp", "", ".", "a//"] {
        for base in ["b", "/b"] {
            assert_eq!(
                location_with(dir, base, "u", "r").0,
                std::path::Path::new(dir).join(format!("{}_u_r", base)).to_str().unwrap()
            );
        }
    }
}

#[test]
fn random_locations() {
    let (a, base) = make_pid_file_location("/tmp/", "me").unwrap();
    let (b, _) = make_pid_file_location("/tmp/", "me").unwrap();
    assert_eq!(base, "mobiletunnel_pid_me");
    assert_ne!(a, b);
    let random = a.strip_prefix("/tmp/mobiletunnel_pid_me_").unwrap();
    assert_eq!(random.len(), 15);
    assert!(random.chars().all(|c| c.is_ascii_alphanumeric()));
    let (c, base) = make_self_location("/opt", "me").unwrap();
    assert_eq!(base, "mobiletunnel_me");
    assert!(c.starts_with("/opt/mobiletunnel_me_"));
    assert_eq!(c.len(), "/opt/mobiletunnel_me_".len() + 15);
}

#[test]
fn local_ports() {
    for _ in 0..1000 {
        let port = pick_local_port();
        assert!((24000..32000).contains(&port));
    }
}

#[test]
fn commands() {
    assert_eq!(words(&command_line("ssh")), strings(&["ssh"]));
    assert_eq!(words(&command_line("ssh -i k")), strings(&["ssh", "-i", "k"]));
    assert_eq!(words(&command_line("")), strings(&[""]));
    assert_eq!(words(&ssh_command("ssh -p 2", "host")), strings(&["ssh", "-p", "2", "host"]));
    assert_eq!(
        words(&scp_command("scp -C", "/bin/exe", "host", "/tmp/x")),
        strings(&["scp", "-C", "/bin/exe", "host:/tmp/x"])
    );
    assert_eq!(
        words(&reconnecting_ssh_command(
            "ssh -o A=2",
            24001,
            40000,
            "host",
            "exe check-server-pid 5".to_string()
        )),
        strings(&[
            "ssh",
            "-o",
            "A=2",
            "-L localhost:24001:localhost:40000",
            "host",
            "exe check-server-pid 5"
        ])
    );
}

#[test]
fn remote_command_lines() {
    let args = server_arg_string(22, "/tmp/pid");
    assert_eq!(
        args,
        "--target-port=22 --target-host=localhost --bind-port=0 --daemonize=/tmp/pid --kill-old"
    );
    assert_eq!(
        copied_server_command(false, "/tmp/exe", "ARGS", "base_me", 500),
        " /tmp/exe --local-port 0 --target-port 0 --target-host 0 \
         --run-as-server=\"ARGS --kill-old-base=base_me --window=500\""
    );
    assert_eq!(
        copied_server_command(true, "/tmp/exe", "ARGS", "base_me", 500),
        "RUST_LOG=debug /tmp/exe --local-port 0 --target-port 0 --target-host 0 \
         --run-as-server=\"ARGS --kill-old-base=base_me --window=500\""
    );
    assert_eq!(installed_server_command("server", "ARGS"), "server ARGS");
    assert_eq!(pid_file_command("/tmp/pid"), "cat /tmp/pid");
    assert_eq!(stderr_log_name("/var/tmp/m", "me", 77), "/var/tmp/m_me_77_stderr.log");
}

#[test]
fn server_output() {
    assert_eq!(server_port(b"40000"), Ok(40000));
    assert_eq!(server_port(b"40000\n"), Err(OutputError::NotANumber(NumberError::InvalidDigit)));
    assert_eq!(server_port(b""), Err(OutputError::NotANumber(NumberError::Empty)));
    assert_eq!(server_pid(b""), Ok(PidLookup::NotYet));
    assert_eq!(server_pid(b"1234\n"), Ok(PidLookup::Found(1234)));
    assert_eq!(server_pid(b" \n"), Err(OutputError::NotANumber(NumberError::Empty)));
    assert_eq!(
        server_pid(b"99999999999"),
        Err(OutputError::NotANumber(NumberError::TooLarge))
    );
    assert_eq!(server_pid("\u{2003}7\u{3000}".as_bytes()), Ok(PidLookup::Found(7)));
    assert!(matches!(server_port(&[b'1', 0xff]), Err(OutputError::NotUtf8(_))));
    assert!(matches!(server_pid(&[0xe2, 0x82]), Err(OutputError::NotUtf8(_))));
    assert_eq!(look_again(19), Ok(()));
    assert_eq!(look_again(20), Err(LaunchError::NoServerPid));
}

fn process(pid: u32, exe_name: Option<&str>) -> ProcessInfo {
    ProcessInfo {
        pid,
        is_thread: false,
        exe_name: exe_name.map(|x| x.to_string()),
        uid: Some(1000),
    }
}

#[test]
fn file_names_are_those_of_std() {
    for path in [
        "", "/", ".", "..", "a", "./a", "/usr/bin/exe", "exe/", "exe/.", "exe//./", "exe/..", "a b/c",
        "./", "..a", "a/...", "//x",
    ] {
        let expected = std::path::Path::new(path).file_name().map(|x| x.to_str().unwrap());
        assert_eq!(file_name(path).as_deref(), expected, "{:?}", path);
    }
}

#[test]
fn processes_are_matched_by_file_name() {
    assert!(process_matches("/usr/bin/exe", &process(1, Some("exe"))));
    assert!(!process_matches("/usr/bin/exe", &process(1, Some("other"))));
    assert!(!process_matches("/usr/bin/exe", &process(1, None)));
    assert!(!process_matches("/", &process(1, None)));
}

#[test]
fn old_servers() {
    let old = |p: &ProcessInfo| is_old_server(p, 10, 1000, "server");
    assert!(old(&process(11, Some("server"))));
    assert!(old(&process(11, Some("server (deleted)"))));
    assert!(!old(&process(10, Some("server"))));
    assert!(!old(&process(11, Some("server2"))));
    assert!(!old(&process(11, None)));
    let mut thread = process(11, Some("server"));
    thread.is_thread = true;
    assert!(!old(&thread));
    let mut other_user = process(11, Some("server"));
    other_user.uid = Some(0);
    assert!(!old(&other_user));
    other_user.uid = None;
    assert!(!old(&other_user));
}

#[test]
fn server_checks() {
    let list = vec![process(1, Some("init")), process(5, Some("exe")), process(6, Some("sh"))];
    assert!(check_server_port("./exe", &list, 5));
    assert!(!check_server_port("./exe", &list, 6));
    assert!(!check_server_port("./exe", &list, 7));
    let mut reversed = list.clone();
    reversed.reverse();
    assert!(check_server_port("./exe", &reversed, 5));
    let mut check = ServerCheck::new();
    assert_eq!(check.next_line("exe", &list, 5), "GOOD 1");
    assert_eq!(check.next_line("exe", &list, 5), "GOOD 2");
    assert_eq!(check.next_line("exe", &list, 6), "BAD 3");
    assert_eq!(check.reports(), 3);
}

#[test]
fn ssh_connections() {
    let line = |s: &str| next_ssh_action(SshEvent::Line(Some(s.to_string())));
    assert_eq!(line("BAD 3"), SshAction::Finish(RunSshResult::ServerDied));
    assert_eq!(line("GOOD 3"), SshAction::Wait);
    assert_eq!(line(""), SshAction::Wait);
    assert_eq!(next_ssh_action(SshEvent::Line(None)), SshAction::Wait);
    assert_eq!(next_ssh_action(SshEvent::Exited), SshAction::Finish(RunSshResult::SshDied));
    assert_eq!(next_ssh_action(SshEvent::TimedOut), SshAction::Kill);
    assert_eq!(next_ssh_action(SshEvent::Cancelled), SshAction::Kill);
}

#[test]
fn ssh_loop() {
    assert_eq!(next_ssh_loop_action(SshLoopEvent::Started), SshLoopAction::CheckCancelled);
    let checked = |cancelled| next_ssh_loop_action(SshLoopEvent::Checked { cancelled });
    assert_eq!(checked(true), SshLoopAction::Return);
    assert_eq!(checked(false), SshLoopAction::Run);
    let finished = |result| next_ssh_loop_action(SshLoopEvent::Finished(result));
    assert_eq!(finished(RunSshResult::ServerDied), SshLoopAction::Return);
    assert_eq!(finished(RunSshResult::SshDied), SshLoopAction::Start);
}
