use ssh_go::config::{Auth, Server};
use ssh_go::place::{Home, Local, Platform};
use ssh_go::pty::Mode;
use ssh_go::ssh::{
    apply_connect_options, base_opts, connect, connect_on, force_password_opts, no_tty_requested,
    print_command, print_command_on, run_command, run_command_on, Launch, NO_TTY_ENV,
};

fn server(auth: Option<Auth>) -> Server {
    Server {
        alias: "testpw".to_string(),
        host: "127.0.0.1".to_string(),
        port: 22,
        user: "tester".to_string(),
        auth,
    }
}

fn password() -> Option<Auth> {
    Some(Auth::Password("dummy-pw".to_string()))
}

fn key(path: &str) -> Option<Auth> {
    Some(Auth::Key(path.to_string()))
}

fn home(path: &str) -> Option<Home> {
    Some(Home {
        text: path.to_string(),
        bytes: path.as_bytes().to_vec(),
    })
}

fn unix() -> Local {
    Local {
        home: home("/home/me"),
        platform: Platform::Unix,
    }
}

fn strings(parts: &[&str]) -> Vec<String> {
    parts.iter().map(|p| p.to_string()).collect()
}

fn args_of(launch: &Launch) -> Vec<String> {
    match launch {
        Launch::Direct { args } => args.clone(),
        Launch::WithPassword { args, .. } => args.clone(),
    }
}

const BASE: [&str; 8] = [
    "-p",
    "22",
    "-o",
    "StrictHostKeyChecking=no",
    "-o",
    "ServerAliveInterval=60",
    "-o",
    "ServerAliveCountMax=3",
];

const FORCED: [&str; 6] = [
    "-o",
    "PubkeyAuthentication=no",
    "-o",
    "PreferredAuthentications=password,keyboard-interactive",
    "-o",
    "NumberOfPasswordPrompts=1",
];

fn expected(pieces: &[&[&str]]) -> Vec<String> {
    let mut all = strings(&BASE);
    for piece in pieces {
        all.extend(strings(piece));
    }
    all
}

#[test]
fn parses_no_tty_environment_flag() {
    assert_eq!(NO_TTY_ENV, "SGO_NO_TTY");
    assert!(!no_tty_requested(None));
    assert!(no_tty_requested(Some("true")));
    assert!(!no_tty_requested(Some("0")));
}

#[test]
fn no_tty_words_are_trimmed_and_ignore_case() {
    assert!(no_tty_requested(Some("1")));
    assert!(no_tty_requested(Some(" YES\n")));
    assert!(no_tty_requested(Some("\u{a0}On\u{3000}")));
    assert!(!no_tty_requested(Some("")));
    assert!(!no_tty_requested(Some("truely")));
    assert!(!no_tty_requested(Some("t rue")));
    assert!(!no_tty_requested(Some("2")));
}

#[test]
fn options_are_appended_in_order() {
    assert_eq!(base_opts(65535)[1], "65535");
    assert_eq!(base_opts(22), strings(&BASE));
    let mut args = strings(&["first"]);
    apply_connect_options(&mut args, false);
    assert_eq!(args, strings(&["first"]));
    apply_connect_options(&mut args, true);
    assert_eq!(args, strings(&["first", "-T"]));
    let mut forced = Vec::new();
    force_password_opts(&mut forced);
    assert_eq!(forced, strings(&FORCED));
}

#[test]
fn connecting_with_a_password_forces_a_prompt() {
    match connect_on(&unix(), &server(password()), false) {
        Launch::WithPassword {
            args,
            password,
            opts,
        } => {
            assert_eq!(args, expected(&[&FORCED, &["tester@127.0.0.1"]]));
            assert_eq!(password, "dummy-pw");
            assert_eq!(opts.mode, Mode::Shell);
            assert!(opts.forward_stdin);
        }
        Launch::Direct { .. } => panic!("a password has to be typed"),
    }
}

#[test]
fn connecting_without_a_remote_terminal_is_a_data_pipe() {
    match connect(&server(password()), Some("on")) {
        Launch::WithPassword { args, opts, .. } => {
            assert_eq!(args, expected(&[&["-T"], &FORCED, &["tester@127.0.0.1"]]));
            assert_eq!(opts.mode, Mode::Command);
            assert!(opts.forward_stdin);
        }
        Launch::Direct { .. } => panic!("a password has to be typed"),
    }
}

#[test]
fn connecting_with_a_key_or_nothing_runs_directly() {
    let with_key = connect_on(&unix(), &server(key("~/.ssh/id_rsa")), false);
    assert!(matches!(with_key, Launch::Direct { .. }));
    assert_eq!(
        args_of(&with_key),
        expected(&[&["-i", "/home/me/.ssh/id_rsa", "tester@127.0.0.1"]])
    );
    let plain = connect(&server(None), None);
    assert!(matches!(plain, Launch::Direct { .. }));
    assert_eq!(args_of(&plain), expected(&[&["tester@127.0.0.1"]]));
}

#[test]
fn passes_several_arguments_through_as_a_quoted_argv() {
    let parts = strings(&["grep", "hello world", "*.mp4"]);
    let launch = run_command(&server(password()), &parts, false, None);
    assert_eq!(
        args_of(&launch).last().unwrap(),
        "grep 'hello world' '*.mp4'"
    );
}

#[test]
fn passes_a_single_argument_to_the_remote_shell_verbatim() {
    let parts = strings(&["df -h | grep /var"]);
    let launch = run_command(&server(password()), &parts, false, None);
    assert_eq!(args_of(&launch).last().unwrap(), "df -h | grep /var");
}

#[test]
fn piped_input_is_forwarded_and_a_terminal_is_not() {
    let parts = strings(&["cat"]);
    match run_command_on(&unix(), &server(password()), &parts, false, false) {
        Launch::WithPassword { args, opts, .. } => {
            assert!(!args.contains(&"-n".to_string()));
            assert!(opts.forward_stdin);
            assert_eq!(opts.mode, Mode::Command);
        }
        Launch::Direct { .. } => panic!("a password has to be typed"),
    }
    match run_command_on(&unix(), &server(password()), &parts, true, true) {
        Launch::WithPassword { args, opts, .. } => {
            assert_eq!(
                args,
                expected(&[&["-n", "-T"], &FORCED, &["tester@127.0.0.1", "cat"]])
            );
            assert!(!opts.forward_stdin);
        }
        Launch::Direct { .. } => panic!("a password has to be typed"),
    }
}

#[test]
fn commands_without_a_password_never_ask() {
    let parts = strings(&["uptime"]);
    let with_key = run_command_on(&unix(), &server(key("/keys/a b")), &parts, false, false);
    assert_eq!(
        args_of(&with_key),
        expected(&[&[
            "-o",
            "BatchMode=yes",
            "-i",
            "/keys/a b",
            "tester@127.0.0.1",
            "uptime"
        ]])
    );
    let plain = run_command(&server(None), &parts, true, Some("no"));
    assert!(matches!(plain, Launch::Direct { .. }));
    assert_eq!(
        args_of(&plain),
        expected(&[&["-n", "-o", "BatchMode=yes", "tester@127.0.0.1", "uptime"]])
    );
}

#[test]
fn the_password_is_no_argument() {
    let parts = strings(&["true"]);
    let mut other = server(Some(Auth::Password("another".to_string())));
    let first = server(password());
    let a = args_of(&run_command(&first, &parts, false, None));
    let b = args_of(&run_command(&other, &parts, false, None));
    assert_eq!(a, b);
    assert!(a.iter().all(|arg| !arg.contains("dummy-pw")));
    other.alias = "elsewhere".to_string();
    assert_eq!(
        args_of(&connect(&first, None)),
        args_of(&connect(&other, None))
    );
}

#[test]
fn printed_commands_are_quoted_for_the_shell() {
    let printed = print_command_on(&unix(), &server(key("~/my keys/id")));
    assert_eq!(
        printed.line,
        "ssh -p 22 -o StrictHostKeyChecking=no -o ServerAliveInterval=60 \
         -o ServerAliveCountMax=3 -i '/home/me/my keys/id' tester@127.0.0.1"
    );
    assert!(printed.note.is_none());
    let windows = Local {
        home: home("C:\\Users\\it's me"),
        platform: Platform::Windows,
    };
    let shown = print_command_on(&windows, &server(key("~/id")));
    assert!(shown
        .line
        .ends_with("-i 'C:\\Users\\it''s me\\id' tester@127.0.0.1"));
}

#[test]
fn printed_commands_leave_the_password_out() {
    let printed = print_command(&server(password()));
    assert_eq!(
        printed.line,
        "ssh -p 22 -o StrictHostKeyChecking=no -o ServerAliveInterval=60 \
         -o ServerAliveCountMax=3 tester@127.0.0.1"
    );
    assert_eq!(
        printed.note.unwrap(),
        "Note: password auth — ssh will prompt for the password."
    );
    assert!(print_command(&server(None)).note.is_none());
}
