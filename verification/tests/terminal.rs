use ssh_go::place::Platform;
use ssh_go::pty::{
    exit_code, find_password_prompt, pty_size, raw_terminal, run, run_on, Event, InsideSession,
    Mode, Opts, PromptWatcher, Session, TerminalSession,
};

#[test]
fn finds_password_prompt_case_insensitively() {
    assert_eq!(find_password_prompt(b"user@host's password:"), Some(21));
    assert_eq!(find_password_prompt(b"Password:"), Some(9));
    assert_eq!(find_password_prompt(b"no prompt here"), None);
}

#[test]
fn keeps_bytes_that_follow_the_prompt() {
    let acc = b"password:hello";
    let end = find_password_prompt(acc).unwrap();
    assert_eq!(&acc[end..], b"hello");
}

#[test]
fn the_first_of_two_prompts_is_found() {
    assert_eq!(find_password_prompt(b"xPASSWORD:password:"), Some(10));
    assert_eq!(find_password_prompt(b""), None);
    assert_eq!(find_password_prompt(b"password"), None);
}

#[test]
fn watcher_finds_a_prompt_cut_into_reads() {
    let mut w = PromptWatcher::new();
    assert!(w.feed(b"me@host's pass").is_none());
    assert!(w.feed(b"wor").is_none());
    assert_eq!(w.feed(b"d: rest"), Some(b" rest".to_vec()));
}

#[test]
fn watcher_drops_old_bytes_and_still_finds_the_prompt() {
    let mut w = PromptWatcher::new();
    for _ in 0..5 {
        assert!(w.feed(&[b'x'; 4096]).is_none());
    }
    // 20480 bytes were fed; the oldest 8192 are gone.
    assert_eq!(w.kept.len(), 12288);
    assert!(w.feed(b"Pass").is_none());
    assert_eq!(w.feed(b"word:!"), Some(b"!".to_vec()));
}

#[test]
fn watcher_keeps_just_as_much_as_it_may() {
    let mut w = PromptWatcher::new();
    assert!(w.feed(&[b'x'; 16384]).is_none());
    assert_eq!(w.kept.len(), 16384);
    assert!(w.feed(b"y").is_none());
    assert_eq!(w.kept.len(), 16385 - 8192);
}

#[test]
fn inside_session_types_the_password_and_proxies_the_rest() {
    let mut s = InsideSession::new("s3cret");

    let e = s.step(Event::Data(b"Warning\nuser@h's pass".to_vec()));
    assert!(e.to_child.is_empty() && e.to_stdout.is_empty() && e.to_stderr.is_empty() && !e.ended);

    let e = s.step(Event::Data(b"word:hello".to_vec()));
    assert_eq!(e.to_child, b"s3cret\n");
    assert_eq!(e.to_stdout, b"hello");
    assert!(e.to_stderr.is_empty() && !e.ended && !e.silence_echo);

    let e = s.step(Event::Data(b"password:again".to_vec()));
    assert!(e.to_child.is_empty());
    assert_eq!(e.to_stdout, b"password:again");

    let e = s.step(Event::Closed);
    assert!(e.ended && e.to_stdout.is_empty() && e.to_stderr.is_empty());
}

#[test]
fn inside_session_shows_what_was_said_without_a_prompt() {
    let mut s = InsideSession::new("s3cret");
    s.step(Event::Data(b"Connection ".to_vec()));
    s.step(Event::Data(b"refused\n".to_vec()));

    let e = s.step(Event::Closed);

    assert!(e.ended);
    assert_eq!(e.to_stderr, b"Connection refused\n");
    assert!(e.to_child.is_empty() && e.to_stdout.is_empty());
}

#[test]
fn terminal_session_answers_and_drops_leading_blanks() {
    let mut s = TerminalSession::new("p\u{e4}ss");

    let e = s.step(Event::Quiet);
    assert!(!e.ended && e.to_child.is_empty());

    let e = s.step(Event::Data(b"password: ".to_vec()));
    assert!(e.silence_echo);
    assert_eq!(e.to_child, "p\u{e4}ss\n".as_bytes());
    assert!(e.to_stdout.is_empty() && e.to_stderr.is_empty());

    let e = s.step(Event::Data(b"\r\n".to_vec()));
    assert!(e.to_stderr.is_empty());
    let e = s.step(Event::Data(b"\nPermission denied\r\n".to_vec()));
    assert_eq!(e.to_stderr, b"Permission denied\r\n");
    let e = s.step(Event::Data(b"\r\nmore".to_vec()));
    assert_eq!(e.to_stderr, b"\r\nmore");
    assert!(s.step(Event::Closed).ended);
}

#[test]
fn terminal_session_stops_waiting_when_the_child_is_gone() {
    let mut s = TerminalSession::new("x");
    let e = s.step(Event::Gone);
    assert!(!e.ended && e.to_child.is_empty());

    let e = s.step(Event::Data(b"\npassword:".to_vec()));
    assert!(e.to_child.is_empty());
    assert_eq!(e.to_stderr, b"password:");
}

#[test]
fn terminal_session_goes_on_after_a_failed_read() {
    let mut s = TerminalSession::new("x");
    assert!(!s.step(Event::Closed).ended);
    assert!(s.step(Event::Closed).ended);
}

#[test]
fn only_commands_on_unix_keep_their_streams() {
    for mode in [Mode::Shell, Mode::Tunnel, Mode::Command] {
        for platform in [Platform::Unix, Platform::Windows] {
            let s = run_on(platform, "pw", Opts { mode, forward_stdin: true });
            let terminal = matches!(s, Session::Terminal(_));
            assert_eq!(terminal, platform == Platform::Unix && mode == Mode::Command);
        }
    }
}

#[test]
fn sessions_inside_know_their_kind() {
    match run("pw", Opts { mode: Mode::Shell, forward_stdin: true }) {
        Session::Inside { session, raw, interactive, forward_stdin } => {
            assert_eq!(session.password, "pw");
            assert!(!raw && interactive && forward_stdin);
        }
        Session::Terminal(_) => panic!("a shell runs inside the pseudo-terminal"),
    }
    match run("pw", Opts { mode: Mode::Tunnel, forward_stdin: false }) {
        Session::Inside { raw, interactive, forward_stdin, .. } => {
            assert!(raw && !interactive && !forward_stdin);
        }
        Session::Terminal(_) => panic!("a tunnel runs inside the pseudo-terminal"),
    }
}

#[test]
fn a_command_runs_the_way_its_platform_has() {
    let s = run("pw", Opts { mode: Mode::Command, forward_stdin: true });
    assert_eq!(matches!(s, Session::Terminal(_)), std::path::MAIN_SEPARATOR == '/');
}

#[test]
fn sizes_and_codes_have_defaults() {
    assert_eq!(pty_size(true, Some((120, 40))), (120, 40));
    assert_eq!(pty_size(true, None), (80, 24));
    assert_eq!(pty_size(false, Some((120, 40))), (80, 24));
    assert_eq!(exit_code(Some(3)), 3);
    assert_eq!(exit_code(None), 255);
    assert!(raw_terminal(true, true));
    assert!(!raw_terminal(true, false));
    assert!(!raw_terminal(false, true));
}
