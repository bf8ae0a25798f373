//! The command lines that `ssh` is run with.

use vstd::prelude::*;
use vstd::string::*;

use crate::config::{opt_str, opt_string, Auth, Server};
use crate::place::{expand_path_on, expanded_path, local, Local, Platform};
use crate::pty::{Mode, Opts};
use crate::quote::{
    build_remote_command, each_escaped, escaped, is_plain, is_safe,
    law_escaped_words_are_a_command, lemma_ssh_is_a_command, remote_command, shell_command,
    shell_escape_on,
};
use crate::text::{
    ascii_lower, decimal, decimal_string, is_digit, is_white, join, join_with,
    law_decimal_port_reads_back, law_trimming_keeps_the_core, lemma_decimal_is_digits, port_value,
    same_text, texts, trim_lower, trimmed,
};

verus! {

/// Appends one argument.
pub(crate) fn push_arg(args: &mut Vec<String>, arg: &str)
    ensures
        texts(final(args)@) == texts(old(args)@).push(arg@),
{
    let ghost before = args@;
    args.push(arg.to_owned());
    assert(texts(args@) =~= texts(before).push(arg@));
}

/// The options given to every connection.
pub open spec fn base_opts_text(port: u16) -> Seq<Seq<char>> {
    seq![
        "-p"@,
        decimal(port as nat),
        "-o"@,
        "StrictHostKeyChecking=no"@,
        "-o"@,
        "ServerAliveInterval=60"@,
        "-o"@,
        "ServerAliveCountMax=3"@,
    ]
}

/// The options given to every connection.
pub fn base_opts(port: u16) -> (r: Vec<String>)
    ensures
        texts(r@) == base_opts_text(port),
{
    let mut r: Vec<String> = Vec::new();
    push_arg(&mut r, "-p");
    push_arg(&mut r, decimal_string(port as u64).as_str());
    push_arg(&mut r, "-o");
    push_arg(&mut r, "StrictHostKeyChecking=no");
    push_arg(&mut r, "-o");
    push_arg(&mut r, "ServerAliveInterval=60");
    push_arg(&mut r, "-o");
    push_arg(&mut r, "ServerAliveCountMax=3");
    assert(texts(r@) =~= base_opts_text(port));
    r
}

/// The options that leave no way to authenticate but a password asked for once,
/// so that there is a prompt to answer.
pub open spec fn force_password_text() -> Seq<Seq<char>> {
    seq![
        "-o"@,
        "PubkeyAuthentication=no"@,
        "-o"@,
        "PreferredAuthentications=password,keyboard-interactive"@,
        "-o"@,
        "NumberOfPasswordPrompts=1"@,
    ]
}

/// Appends the options that force password authentication.
pub fn force_password_opts(args: &mut Vec<String>)
    ensures
        texts(final(args)@) == texts(old(args)@) + force_password_text(),
{
    let ghost before = texts(args@);
    push_arg(args, "-o");
    push_arg(args, "PubkeyAuthentication=no");
    push_arg(args, "-o");
    push_arg(args, "PreferredAuthentications=password,keyboard-interactive");
    push_arg(args, "-o");
    push_arg(args, "NumberOfPasswordPrompts=1");
    assert(texts(args@) =~= before + force_password_text());
}

/// The variable that asks for sessions without a remote terminal.
pub const NO_TTY_ENV: &'static str = "SGO_NO_TTY";

/// Whether a value of the variable asks for no remote terminal.
pub open spec fn no_tty_value(value: Option<Seq<char>>) -> bool {
    match value {
        Some(v) => {
            let t = ascii_lower(trimmed(v));
            t == "1"@ || t == "true"@ || t == "yes"@ || t == "on"@
        },
        None => false,
    }
}

/// Whether a value of the variable asks for no remote terminal.
pub fn no_tty_requested(value: Option<&str>) -> (r: bool)
    ensures
        r == no_tty_value(opt_str(value)),
{
    match value {
        Some(v) => {
            let t = trim_lower(v);
            same_text(t.as_str(), "1") || same_text(t.as_str(), "true") || same_text(
                t.as_str(),
                "yes",
            ) || same_text(t.as_str(), "on")
        },
        None => false,
    }
}

/// The option for a session without a remote terminal.
pub open spec fn no_tty_text(no_tty: bool) -> Seq<Seq<char>> {
    if no_tty {
        seq!["-T"@]
    } else {
        Seq::empty()
    }
}

/// Appends the option for a session without a remote terminal, where one is
/// asked for.
pub fn apply_connect_options(args: &mut Vec<String>, no_tty: bool)
    ensures
        texts(final(args)@) == texts(old(args)@) + no_tty_text(no_tty),
{
    let ghost before = texts(args@);
    if no_tty {
        push_arg(args, "-T");
    }
    assert(texts(args@) =~= before + no_tty_text(no_tty));
}

/// How to run `ssh`.
#[derive(Debug)]
pub enum Launch {
    /// With the streams and the terminal of this process.
    Direct { args: Vec<String> },
    /// With a pseudo-terminal into which the password is typed.
    WithPassword { args: Vec<String>, password: String, opts: Opts },
}

/// The contents of a `Launch`.
pub struct LaunchView {
    pub args: Seq<Seq<char>>,
    /// The password to type and how to run the session, where there is one.
    pub password: Option<(Seq<char>, Opts)>,
}

impl View for Launch {
    type V = LaunchView;

    open spec fn view(&self) -> LaunchView {
        match self {
            Launch::Direct { args } => LaunchView { args: texts(args@), password: None },
            Launch::WithPassword { args, password, opts } => LaunchView {
                args: texts(args@),
                password: Some((password@, *opts)),
            },
        }
    }
}

/// The password that a server is saved with.
pub open spec fn saved_password(server: Server) -> Option<Seq<char>> {
    match server.auth {
        Some(Auth::Password(p)) => Some(p@),
        _ => None,
    }
}

/// How a password, if there is one, goes with the options of a session.
pub open spec fn with_opts(password: Option<Seq<char>>, opts: Opts) -> Option<(Seq<char>, Opts)> {
    match password {
        Some(p) => Some((p, opts)),
        None => None,
    }
}

/// The options that say how to authenticate, where a password is forced and a
/// key is named by its path.
pub open spec fn auth_opts_text(
    server: Server,
    home: Option<Seq<char>>,
    platform: Platform,
) -> Seq<Seq<char>> {
    match server.auth {
        Some(Auth::Password(_)) => force_password_text(),
        Some(Auth::Key(path)) => seq!["-i"@, expanded_path(path@, home, platform)],
        None => Seq::empty(),
    }
}

/// Appends the options that say how to authenticate.
pub(crate) fn apply_auth(args: &mut Vec<String>, local: &Local, server: &Server)
    ensures
        texts(final(args)@) == texts(old(args)@) + auth_opts_text(
            *server,
            local.home_text(),
            local.platform,
        ),
{
    let ghost before = texts(args@);
    match &server.auth {
        Some(Auth::Password(_)) => force_password_opts(args),
        Some(Auth::Key(path)) => {
            push_arg(args, "-i");
            push_arg(args, expand_path_on(local, path.as_str()).as_str());
        },
        None => {},
    }
    assert(texts(args@) =~= before + auth_opts_text(*server, local.home_text(), local.platform));
}

/// Hands the arguments over for the way in which a server authenticates.
pub(crate) fn launch(args: Vec<String>, server: &Server, opts: Opts) -> (r: Launch)
    ensures
        r@ == (LaunchView {
            args: texts(args@),
            password: with_opts(saved_password(*server), opts),
        }),
{
    match &server.auth {
        Some(Auth::Password(p)) => Launch::WithPassword { args, password: p.clone(), opts },
        _ => Launch::Direct { args },
    }
}

/// How to connect to a server with a remote shell.
pub open spec fn connect_view(
    server: Server,
    home: Option<Seq<char>>,
    platform: Platform,
    no_tty: bool,
) -> LaunchView {
    LaunchView {
        args: base_opts_text(server.port) + no_tty_text(no_tty) + auth_opts_text(
            server,
            home,
            platform,
        ) + seq![server.destination_text()],
        password: with_opts(
            saved_password(server),
            Opts {
                mode: if no_tty {
                    Mode::Command
                } else {
                    Mode::Shell
                },
                forward_stdin: true,
            },
        ),
    }
}

/// How to connect to a server from `local`.
pub fn connect_on(local: &Local, server: &Server, no_tty: bool) -> (r: Launch)
    ensures
        r@ == connect_view(*server, local.home_text(), local.platform, no_tty),
{
    let mut args = base_opts(server.port);
    apply_connect_options(&mut args, no_tty);
    apply_auth(&mut args, local, server);
    push_arg(&mut args, server.destination().as_str());
    // Without a remote terminal the session is a plain data pipe.
    let mode = if no_tty {
        Mode::Command
    } else {
        Mode::Shell
    };
    let r = launch(args, server, Opts { mode, forward_stdin: true });
    assert(r@.args =~= connect_view(*server, local.home_text(), local.platform, no_tty).args);
    r
}

/// How to connect to a server from the machine that the program runs on, given
/// the value of the variable that asks for no remote terminal. Only the path of
/// a key depends on the machine.
pub fn connect(server: &Server, no_tty: Option<&str>) -> (r: Launch)
    ensures
        exists|home: Option<Seq<char>>, platform: Platform|
            r@ == #[trigger] connect_view(*server, home, platform, no_tty_value(opt_str(no_tty))),
        !(server.auth matches Some(Auth::Key(_))) ==> r@ == connect_view(
            *server,
            None,
            Platform::Unix,
            no_tty_value(opt_str(no_tty)),
        ),
{
    let here = local();
    let r = connect_on(&here, server, no_tty_requested(no_tty));
    assert(r@ == connect_view(
        *server,
        here.home_text(),
        here.platform,
        no_tty_value(opt_str(no_tty)),
    ));
    r
}

/// The options that keep `ssh` from asking anything where no password is
/// stored, then those that say how to authenticate.
pub open spec fn batch_opts_text(
    server: Server,
    home: Option<Seq<char>>,
    platform: Platform,
) -> Seq<Seq<char>> {
    match server.auth {
        Some(Auth::Password(_)) => auth_opts_text(server, home, platform),
        _ => seq!["-o"@, "BatchMode=yes"@] + auth_opts_text(server, home, platform),
    }
}

/// The option that keeps `ssh` off standard input.
pub open spec fn stdin_text(stdin_is_terminal: bool) -> Seq<Seq<char>> {
    if stdin_is_terminal {
        seq!["-n"@]
    } else {
        Seq::empty()
    }
}

/// Appends the options that keep `ssh` from asking anything where no password
/// is stored, then those that say how to authenticate.
fn apply_batch(args: &mut Vec<String>, local: &Local, server: &Server)
    ensures
        texts(final(args)@) == texts(old(args)@) + batch_opts_text(
            *server,
            local.home_text(),
            local.platform,
        ),
{
    let ghost before = texts(args@);
    match &server.auth {
        Some(Auth::Password(_)) => {},
        _ => {
            push_arg(args, "-o");
            push_arg(args, "BatchMode=yes");
            assert(texts(args@) =~= before + seq!["-o"@, "BatchMode=yes"@]);
        },
    }
    apply_auth(args, local, server);
    assert(texts(args@) =~= before + batch_opts_text(*server, local.home_text(), local.platform));
}

/// How to run a single command on a server. A terminal's keystrokes belong to
/// the user, so standard input is forwarded only where it is no terminal.
pub open spec fn command_view(
    server: Server,
    home: Option<Seq<char>>,
    platform: Platform,
    parts: Seq<Seq<char>>,
    stdin_is_terminal: bool,
    no_tty: bool,
) -> LaunchView {
    LaunchView {
        args: base_opts_text(server.port) + stdin_text(stdin_is_terminal) + no_tty_text(no_tty)
            + batch_opts_text(server, home, platform) + seq![
            server.destination_text(),
            remote_command(parts),
        ],
        password: with_opts(
            saved_password(server),
            Opts { mode: Mode::Command, forward_stdin: !stdin_is_terminal },
        ),
    }
}

/// How to run a single command on a server from `local`.
pub fn run_command_on(
    local: &Local,
    server: &Server,
    command_parts: &[String],
    stdin_is_terminal: bool,
    no_tty: bool,
) -> (r: Launch)
    ensures
        r@ == command_view(
            *server,
            local.home_text(),
            local.platform,
            texts(command_parts@),
            stdin_is_terminal,
            no_tty,
        ),
{
    let command = build_remote_command(command_parts);
    let mut args = base_opts(server.port);
    let ghost base = texts(args@);
    if stdin_is_terminal {
        push_arg(&mut args, "-n");
    }
    assert(texts(args@) =~= base + stdin_text(stdin_is_terminal));
    apply_connect_options(&mut args, no_tty);
    apply_batch(&mut args, local, server);
    let ghost opts = texts(args@);
    push_arg(&mut args, server.destination().as_str());
    push_arg(&mut args, command.as_str());
    assert(texts(args@) =~= opts + seq![server.destination_text(), command@]);
    launch(args, server, Opts { mode: Mode::Command, forward_stdin: !stdin_is_terminal })
}

/// How to run a single command on a server from the machine that the program
/// runs on. Only the path of a key depends on the machine.
pub fn run_command(
    server: &Server,
    command_parts: &[String],
    stdin_is_terminal: bool,
    no_tty: Option<&str>,
) -> (r: Launch)
    ensures
        exists|home: Option<Seq<char>>, platform: Platform|
            r@ == #[trigger] command_view(
                *server,
                home,
                platform,
                texts(command_parts@),
                stdin_is_terminal,
                no_tty_value(opt_str(no_tty)),
            ),
        !(server.auth matches Some(Auth::Key(_))) ==> r@ == command_view(
            *server,
            None,
            Platform::Unix,
            texts(command_parts@),
            stdin_is_terminal,
            no_tty_value(opt_str(no_tty)),
        ),
{
    let here = local();
    let r = run_command_on(
        &here,
        server,
        command_parts,
        stdin_is_terminal,
        no_tty_requested(no_tty),
    );
    assert(r@ == command_view(
        *server,
        here.home_text(),
        here.platform,
        texts(command_parts@),
        stdin_is_terminal,
        no_tty_value(opt_str(no_tty)),
    ));
    r
}

/// A command line to show, and what to say beside it.
#[derive(Debug)]
pub struct Printed {
    pub line: String,
    pub note: Option<String>,
}

/// The words of the command that connects to a server as another program would
/// run it: without the options that only make sense where the password is typed
/// for the user.
pub open spec fn printed_words(
    server: Server,
    home: Option<Seq<char>>,
    platform: Platform,
) -> Seq<Seq<char>> {
    seq!["ssh"@] + base_opts_text(server.port) + (match server.auth {
        Some(Auth::Key(path)) => seq!["-i"@, expanded_path(path@, home, platform)],
        _ => Seq::empty(),
    }) + seq![server.destination_text()]
}

/// The line that is printed for the shell of a platform.
pub open spec fn printed_line(
    server: Server,
    home: Option<Seq<char>>,
    platform: Platform,
) -> Seq<char> {
    join_with(
        seq!["ssh"@] + base_opts_text(server.port) + (match server.auth {
            Some(Auth::Key(path)) => seq![
                "-i"@,
                escaped(platform, expanded_path(path@, home, platform)),
            ],
            _ => Seq::empty(),
        }) + seq![escaped(platform, server.destination_text())],
        " "@,
    )
}

/// What is said beside the line: a password cannot be part of it.
pub open spec fn printed_note(server: Server) -> Option<Seq<char>> {
    match server.auth {
        Some(Auth::Password(_)) => Some(
            "Note: password auth — ssh will prompt for the password."@,
        ),
        _ => None,
    }
}

/// The command that connects to a server, for the shell of `local`.
pub fn print_command_on(local: &Local, server: &Server) -> (r: Printed)
    ensures
        r.line@ == printed_line(*server, local.home_text(), local.platform),
        opt_string(r.note) == printed_note(*server),
{
    let mut parts: Vec<String> = Vec::new();
    push_arg(&mut parts, "ssh");
    let mut opts = base_opts(server.port);
    let ghost first = parts@;
    let ghost second = opts@;
    parts.append(&mut opts);
    assert(texts(parts@) =~= texts(first) + texts(second));
    let mut note: Option<String> = None;
    match &server.auth {
        Some(Auth::Key(path)) => {
            push_arg(&mut parts, "-i");
            let key = expand_path_on(local, path.as_str());
            push_arg(&mut parts, shell_escape_on(local.platform, key.as_str()).as_str());
        },
        Some(Auth::Password(_)) => {
            note = Some("Note: password auth — ssh will prompt for the password.".to_owned());
        },
        None => {},
    }
    let destination = server.destination();
    push_arg(&mut parts, shell_escape_on(local.platform, destination.as_str()).as_str());
    assert(texts(parts@) =~= seq!["ssh"@] + base_opts_text(server.port) + (match server.auth {
        Some(Auth::Key(path)) => seq![
            "-i"@,
            escaped(
                local.platform,
                expanded_path(path@, local.home_text(), local.platform),
            ),
        ],
        _ => Seq::empty(),
    }) + seq![escaped(local.platform, server.destination_text())]);
    Printed { line: join(parts.as_slice(), " "), note }
}

/// The command that connects to a server, for the shell of the machine that the
/// program runs on. Only the path of a key and the quotes of the line depend on
/// the machine.
pub fn print_command(server: &Server) -> (r: Printed)
    ensures
        exists|home: Option<Seq<char>>, platform: Platform|
            r.line@ == #[trigger] printed_line(*server, home, platform),
        !(server.auth matches Some(Auth::Key(_))) && is_safe(
            Platform::Unix,
            server.destination_text(),
        ) ==> r.line@ == printed_line(*server, None, Platform::Unix),
        opt_string(r.note) == printed_note(*server),
{
    let here = local();
    let r = print_command_on(&here, server);
    assert(r.line@ == printed_line(*server, here.home_text(), here.platform));
    r
}

proof fn lemma_decimal_is_safe(n: nat)
    ensures
        is_safe(Platform::Unix, decimal(n)),
{
    lemma_decimal_is_digits(n);
    assert forall|i: int| 0 <= i < decimal(n).len() implies is_plain(#[trigger] decimal(n)[i]) by {
        assert(is_digit(decimal(n)[i]));
    }
}

proof fn lemma_base_opts_are_safe(port: u16)
    ensures
        forall|i: int|
            0 <= i < base_opts_text(port).len() ==> is_safe(
                Platform::Unix,
                #[trigger] base_opts_text(port)[i],
            ),
        is_safe(Platform::Unix, "ssh"@),
        is_safe(Platform::Unix, "-i"@),
{
    reveal_strlit("ssh");
    reveal_strlit("-i");
    reveal_strlit("-p");
    reveal_strlit("-o");
    reveal_strlit("StrictHostKeyChecking=no");
    reveal_strlit("ServerAliveInterval=60");
    reveal_strlit("ServerAliveCountMax=3");
    lemma_decimal_is_safe(port as nat);
    assert(is_safe(Platform::Unix, "-p"@));
    assert(is_safe(Platform::Unix, "-o"@));
    assert(is_safe(Platform::Unix, "StrictHostKeyChecking=no"@));
    assert(is_safe(Platform::Unix, "ServerAliveInterval=60"@));
    assert(is_safe(Platform::Unix, "ServerAliveCountMax=3"@));
}

/// The line printed on Unix, given to a POSIX shell, runs `ssh` with exactly
/// the options, the key path and the destination of the server.
pub proof fn law_printed_command_reads_back(server: Server, home: Option<Seq<char>>)
    ensures
        shell_command(printed_line(server, home, Platform::Unix)) == Some(
            printed_words(server, home, Platform::Unix),
        ),
{
    let words = printed_words(server, home, Platform::Unix);
    lemma_ssh_is_a_command();
    lemma_base_opts_are_safe(server.port);
    let written = seq!["ssh"@] + base_opts_text(server.port) + (match server.auth {
        Some(Auth::Key(path)) => seq![
            "-i"@,
            escaped(Platform::Unix, expanded_path(path@, home, Platform::Unix)),
        ],
        _ => Seq::empty(),
    }) + seq![escaped(Platform::Unix, server.destination_text())];
    assert forall|i: int| 0 <= i < words.len() implies #[trigger] written[i] == escaped(
        Platform::Unix,
        words[i],
    ) by {
        if 1 <= i < 9 {
            assert(words[i] == base_opts_text(server.port)[i - 1]);
        }
    }
    assert(written =~= each_escaped(Platform::Unix, words));
    law_escaped_words_are_a_command(words);
}

/// Whether two servers are the same but for their stored passwords.
pub open spec fn same_but_password(a: Server, b: Server) -> bool {
    &&& a.host@ == b.host@
    &&& a.port == b.port
    &&& a.user@ == b.user@
    &&& a.auth matches Some(Auth::Password(_))
    &&& b.auth matches Some(Auth::Password(_))
}

/// The arguments of `ssh` do not depend on the password, so it never stands on
/// a command line; it is handed on to be typed, as it is.
pub proof fn law_password_is_no_argument(
    a: Server,
    b: Server,
    home: Option<Seq<char>>,
    platform: Platform,
    parts: Seq<Seq<char>>,
    stdin_is_terminal: bool,
    no_tty: bool,
)
    requires
        same_but_password(a, b),
    ensures
        connect_view(a, home, platform, no_tty).args == connect_view(b, home, platform, no_tty).args,
        command_view(a, home, platform, parts, stdin_is_terminal, no_tty).args == command_view(
            b,
            home,
            platform,
            parts,
            stdin_is_terminal,
            no_tty,
        ).args,
        printed_line(a, home, platform) == printed_line(b, home, platform),
        connect_view(a, home, platform, no_tty).password matches Some(p) && p.0
            == saved_password(a)->0,
        command_view(a, home, platform, parts, stdin_is_terminal, no_tty).password matches Some(p)
            && p.0 == saved_password(a)->0,
{
}

/// The remote command is the last argument of `ssh` and the destination the one
/// before it; and `ssh` is kept off standard input exactly where that is a
/// terminal, which is exactly where it is not forwarded.
pub proof fn law_command_arguments(
    server: Server,
    home: Option<Seq<char>>,
    platform: Platform,
    parts: Seq<Seq<char>>,
    stdin_is_terminal: bool,
    no_tty: bool,
)
    ensures
        ({
            let v = command_view(server, home, platform, parts, stdin_is_terminal, no_tty);
            let n = v.args.len();
            &&& n >= 12
            &&& v.args[n - 1] == remote_command(parts)
            &&& v.args[n - 2] == server.destination_text()
            &&& stdin_is_terminal <==> v.args[8] == "-n"@
            &&& v.password matches Some(p) ==> p.1.forward_stdin == !stdin_is_terminal
        }),
{
    reveal_strlit("-n");
    reveal_strlit("-T");
    reveal_strlit("-o");
    assert("-n"@[1] != "-T"@[1]);
    assert("-n"@[1] != "-o"@[1]);
    let v = command_view(server, home, platform, parts, stdin_is_terminal, no_tty);
    if !stdin_is_terminal {
        assert(v.args[8] == "-T"@ || v.args[8] == "-o"@);
    }
}

/// Among the options of a command, which stand in front of the destination, the
/// one that keeps `ssh` off standard input is found exactly where that is a
/// terminal. A key whose path has the same text as that option is left out.
pub proof fn law_stdin_is_left_alone_on_a_terminal(
    server: Server,
    home: Option<Seq<char>>,
    platform: Platform,
    parts: Seq<Seq<char>>,
    stdin_is_terminal: bool,
    no_tty: bool,
)
    requires
        server.auth matches Some(Auth::Key(path)) ==> expanded_path(path@, home, platform)
            != "-n"@,
    ensures
        ({
            let v = command_view(server, home, platform, parts, stdin_is_terminal, no_tty);
            v.args.take(v.args.len() - 2).contains("-n"@) <==> stdin_is_terminal
        }),
{
    reveal_strlit("-n");
    reveal_strlit("-T");
    reveal_strlit("-i");
    reveal_strlit("-o");
    reveal_strlit("-p");
    reveal_strlit("BatchMode=yes");
    reveal_strlit("StrictHostKeyChecking=no");
    reveal_strlit("ServerAliveInterval=60");
    reveal_strlit("ServerAliveCountMax=3");
    reveal_strlit("PubkeyAuthentication=no");
    reveal_strlit("PreferredAuthentications=password,keyboard-interactive");
    reveal_strlit("NumberOfPasswordPrompts=1");
    let n = "-n"@;
    assert(n.len() == 2 && n[0] == '-' && n[1] == 'n');
    let base = base_opts_text(server.port);
    let stdin = stdin_text(stdin_is_terminal);
    let tty = no_tty_text(no_tty);
    let batch = batch_opts_text(server, home, platform);
    assert(decimal(server.port as nat) != n) by {
        lemma_decimal_is_digits(server.port as nat);
        assert(is_digit(decimal(server.port as nat)[0]));
    }
    assert("-T"@[1] == 'T' && "-o"@[1] == 'o' && "-p"@[1] == 'p' && "-i"@[1] == 'i');
    assert forall|i: int| 0 <= i < base.len() implies #[trigger] base[i] != n by {}
    assert forall|i: int| 0 <= i < tty.len() implies #[trigger] tty[i] != n by {}
    assert forall|i: int| 0 <= i < batch.len() implies #[trigger] batch[i] != n by {
        let auth = auth_opts_text(server, home, platform);
        assert forall|k: int| 0 <= k < auth.len() implies #[trigger] auth[k] != n by {}
        if !(server.auth matches Some(Auth::Password(_))) && i >= 2 {
            assert(batch[i] == auth[i - 2]);
        }
    }
    let v = command_view(server, home, platform, parts, stdin_is_terminal, no_tty);
    let opts = v.args.take(v.args.len() - 2);
    assert(opts =~= base + stdin + tty + batch);
    if stdin_is_terminal {
        assert(opts[8] == n);
    } else {
        assert forall|i: int| 0 <= i < opts.len() implies #[trigger] opts[i] != n by {
            if i < 8 {
                assert(opts[i] == base[i]);
            } else if i < 8 + tty.len() {
                assert(opts[i] == tty[i - 8]);
            } else {
                assert(opts[i] == batch[i - 8 - tty.len()]);
            }
        }
    }
}

/// What a `Launch` is said to hold is what it holds: its arguments as they are, and
/// a password where there is one to type.
pub proof fn law_launch_is_what_it_holds(launch: Launch)
    ensures
        match launch {
            Launch::Direct { args } => {
                &&& launch@.password is None
                &&& launch@.args.len() == args@.len()
                &&& forall|i: int| 0 <= i < args@.len() ==> #[trigger] launch@.args[i] == args@[i]@
            },
            Launch::WithPassword { args, password, opts } => {
                &&& launch@.password == Some((password@, opts))
                &&& launch@.args.len() == args@.len()
                &&& forall|i: int| 0 <= i < args@.len() ==> #[trigger] launch@.args[i] == args@[i]@
            },
        },
{
}

/// A connection goes to the saved port: the first two arguments name it, and the
/// number read back from the second is that port. The next six are the options that
/// every connection has, and the last argument is the saved user at the saved host.
pub proof fn law_connection_goes_to_the_server(
    server: Server,
    home: Option<Seq<char>>,
    platform: Platform,
    no_tty: bool,
)
    ensures
        ({
            let args = connect_view(server, home, platform, no_tty).args;
            let n = args.len();
            &&& n >= 9
            &&& args[0] == "-p"@
            &&& args[1] == decimal(server.port as nat)
            &&& port_value(args[1]) == Some(server.port)
            &&& args[2] == "-o"@ && args[3] == "StrictHostKeyChecking=no"@
            &&& args[4] == "-o"@ && args[5] == "ServerAliveInterval=60"@
            &&& args[6] == "-o"@ && args[7] == "ServerAliveCountMax=3"@
            &&& args[n - 1] == server.user@ + "@"@ + server.host@
        }),
{
    law_decimal_port_reads_back(server.port);
}

/// Between the common options and the destination, a connection has `-T` first and
/// exactly where no remote terminal is asked for, then what says how to
/// authenticate and nothing else: for a password the three options that leave no
/// other way, for a key `-i` and its expanded path.
pub proof fn law_connection_authenticates_as_saved(
    server: Server,
    home: Option<Seq<char>>,
    platform: Platform,
    no_tty: bool,
)
    ensures
        ({
            let v = connect_view(server, home, platform, no_tty);
            let args = v.args;
            let m = if no_tty {
                9int
            } else {
                8int
            };
            let mode = if no_tty {
                Mode::Command
            } else {
                Mode::Shell
            };
            &&& no_tty ==> args[8] == "-T"@
            &&& match server.auth {
                Some(Auth::Password(p)) => {
                    &&& args.len() == m + 7
                    &&& args[m] == "-o"@ && args[m + 1] == "PubkeyAuthentication=no"@
                    &&& args[m + 2] == "-o"@ && args[m + 3]
                        == "PreferredAuthentications=password,keyboard-interactive"@
                    &&& args[m + 4] == "-o"@ && args[m + 5] == "NumberOfPasswordPrompts=1"@
                    &&& v.password == Some((p@, Opts { mode, forward_stdin: true }))
                },
                Some(Auth::Key(path)) => {
                    &&& args.len() == m + 3
                    &&& args[m] == "-i"@ && args[m + 1] == expanded_path(path@, home, platform)
                    &&& v.password is None
                },
                None => args.len() == m + 1 && v.password is None,
            }
        }),
{
}

/// A command runs at the saved port, user and host, with the options that every
/// connection has; behind the destination stands the command line and nothing else.
pub proof fn law_command_goes_to_the_server(
    server: Server,
    home: Option<Seq<char>>,
    platform: Platform,
    parts: Seq<Seq<char>>,
    stdin_is_terminal: bool,
    no_tty: bool,
)
    ensures
        ({
            let args = command_view(server, home, platform, parts, stdin_is_terminal, no_tty).args;
            let n = args.len();
            &&& n >= 10
            &&& args[0] == "-p"@
            &&& args[1] == decimal(server.port as nat)
            &&& port_value(args[1]) == Some(server.port)
            &&& args[2] == "-o"@ && args[3] == "StrictHostKeyChecking=no"@
            &&& args[4] == "-o"@ && args[5] == "ServerAliveInterval=60"@
            &&& args[6] == "-o"@ && args[7] == "ServerAliveCountMax=3"@
            &&& args[n - 2] == server.user@ + "@"@ + server.host@
            &&& args[n - 1] == remote_command(parts)
        }),
{
    law_decimal_port_reads_back(server.port);
}

/// Between the common options and the destination, a command has `-n` exactly where
/// standard input is a terminal, `-T` exactly where no remote terminal is asked for,
/// then what says how to authenticate and nothing else. Without a password `ssh` is
/// told not to ask; with one it is run for a command, with standard input forwarded
/// exactly where that is no terminal.
pub proof fn law_command_authenticates_as_saved(
    server: Server,
    home: Option<Seq<char>>,
    platform: Platform,
    parts: Seq<Seq<char>>,
    stdin_is_terminal: bool,
    no_tty: bool,
)
    ensures
        ({
            let v = command_view(server, home, platform, parts, stdin_is_terminal, no_tty);
            let args = v.args;
            let t = if stdin_is_terminal {
                9int
            } else {
                8int
            };
            let m = if no_tty {
                t + 1
            } else {
                t
            };
            &&& stdin_is_terminal ==> args[8] == "-n"@
            &&& no_tty ==> args[t] == "-T"@
            &&& match server.auth {
                Some(Auth::Password(p)) => {
                    &&& args.len() == m + 8
                    &&& args[m] == "-o"@ && args[m + 1] == "PubkeyAuthentication=no"@
                    &&& args[m + 2] == "-o"@ && args[m + 3]
                        == "PreferredAuthentications=password,keyboard-interactive"@
                    &&& args[m + 4] == "-o"@ && args[m + 5] == "NumberOfPasswordPrompts=1"@
                    &&& v.password == Some(
                        (p@, Opts { mode: Mode::Command, forward_stdin: !stdin_is_terminal }),
                    )
                },
                Some(Auth::Key(path)) => {
                    &&& args.len() == m + 6
                    &&& args[m] == "-o"@ && args[m + 1] == "BatchMode=yes"@
                    &&& args[m + 2] == "-i"@ && args[m + 3] == expanded_path(path@, home, platform)
                    &&& v.password is None
                },
                None => {
                    &&& args.len() == m + 4
                    &&& args[m] == "-o"@ && args[m + 1] == "BatchMode=yes"@
                    &&& v.password is None
                },
            }
        }),
{
}

/// The printed line is `ssh`, the saved port, the common options, the path of a key
/// where there is one, and user at host, each written for the shell and with single
/// spaces between them. There is a note exactly where a password is stored.
pub proof fn law_printed_line_connects_to_the_server(
    server: Server,
    home: Option<Seq<char>>,
    platform: Platform,
)
    ensures
        ({
            let words = seq![
                "ssh"@,
                "-p"@,
                decimal(server.port as nat),
                "-o"@,
                "StrictHostKeyChecking=no"@,
                "-o"@,
                "ServerAliveInterval=60"@,
                "-o"@,
                "ServerAliveCountMax=3"@,
            ];
            let target = escaped(platform, server.user@ + "@"@ + server.host@);
            &&& match server.auth {
                Some(Auth::Key(path)) => printed_line(server, home, platform) == join_with(
                    words.push("-i"@).push(
                        escaped(platform, expanded_path(path@, home, platform)),
                    ).push(target),
                    " "@,
                ),
                _ => printed_line(server, home, platform) == join_with(words.push(target), " "@),
            }
            &&& printed_note(server) == (match server.auth {
                Some(Auth::Password(_)) => Some(
                    "Note: password auth — ssh will prompt for the password."@,
                ),
                _ => None,
            })
        }),
{
    let words = seq![
        "ssh"@,
        "-p"@,
        decimal(server.port as nat),
        "-o"@,
        "StrictHostKeyChecking=no"@,
        "-o"@,
        "ServerAliveInterval=60"@,
        "-o"@,
        "ServerAliveCountMax=3"@,
    ];
    let target = escaped(platform, server.destination_text());
    let all = seq!["ssh"@] + base_opts_text(server.port);
    assert(all =~= words);
    match server.auth {
        Some(Auth::Key(path)) => {
            let key = escaped(platform, expanded_path(path@, home, platform));
            assert(all + seq!["-i"@, key] + seq![target] =~= words.push("-i"@).push(key).push(
                target,
            ));
        },
        _ => {
            assert(all + Seq::<Seq<char>>::empty() + seq![target] =~= words.push(target));
        },
    }
}

/// The line printed on Unix, given to a POSIX shell, runs `ssh` with the saved port,
/// the key where there is one, and user at host as its last argument.
pub proof fn law_printed_line_runs_ssh(server: Server, home: Option<Seq<char>>)
    ensures
        ({
            let run = shell_command(printed_line(server, home, Platform::Unix));
            &&& run is Some
            &&& ({
                let words = run->0;
                let n = words.len();
                &&& n >= 10
                &&& words[0] == "ssh"@
                &&& words[1] == "-p"@
                &&& port_value(words[2]) == Some(server.port)
                &&& words[n - 1] == server.user@ + "@"@ + server.host@
                &&& match server.auth {
                    Some(Auth::Key(path)) => n == 12 && words[9] == "-i"@ && words[10]
                        == expanded_path(path@, home, Platform::Unix),
                    _ => n == 10,
                }
            })
        }),
{
    law_printed_command_reads_back(server, home);
    law_decimal_port_reads_back(server.port);
}

/// No remote terminal is asked for exactly by the words 1, true, yes and on, in small
/// letters or capitals, with white space around them or not; and never where the
/// variable is unset.
pub proof fn law_no_terminal_by_words(a: Seq<char>, core: Seq<char>, b: Seq<char>)
    requires
        forall|i: int| 0 <= i < a.len() ==> is_white(#[trigger] a[i]),
        forall|i: int| 0 <= i < b.len() ==> is_white(#[trigger] b[i]),
        core.len() > 0 ==> !is_white(core[0]) && !is_white(core[core.len() - 1]),
    ensures
        !no_tty_value(None),
        no_tty_value(Some(a + core + b)) <==> {
            ||| core == seq!['1']
            ||| core.len() == 4 && (core[0] == 't' || core[0] == 'T') && (core[1] == 'r' || core[1]
                == 'R') && (core[2] == 'u' || core[2] == 'U') && (core[3] == 'e' || core[3] == 'E')
            ||| core.len() == 3 && (core[0] == 'y' || core[0] == 'Y') && (core[1] == 'e' || core[1]
                == 'E') && (core[2] == 's' || core[2] == 'S')
            ||| core.len() == 2 && (core[0] == 'o' || core[0] == 'O') && (core[1] == 'n' || core[1]
                == 'N')
        },
{
    law_trimming_keeps_the_core(a, core, b);
    reveal_strlit("1");
    reveal_strlit("true");
    reveal_strlit("yes");
    reveal_strlit("on");
    let t = ascii_lower(core);
    assert(t == "1"@ <==> core == seq!['1']) by {
        if core == seq!['1'] {
            assert(t =~= "1"@);
        }
        if t == "1"@ {
            assert(t.len() == 1 && t[0] == '1');
            assert(core =~= seq!['1']);
        }
    }
    assert(t == "true"@ <==> t.len() == 4 && t[0] == 't' && t[1] == 'r' && t[2] == 'u' && t[3]
        == 'e') by {
        if t.len() == 4 && t[0] == 't' && t[1] == 'r' && t[2] == 'u' && t[3] == 'e' {
            assert(t =~= "true"@);
        }
    }
    assert(t == "yes"@ <==> t.len() == 3 && t[0] == 'y' && t[1] == 'e' && t[2] == 's') by {
        if t.len() == 3 && t[0] == 'y' && t[1] == 'e' && t[2] == 's' {
            assert(t =~= "yes"@);
        }
    }
    assert(t == "on"@ <==> t.len() == 2 && t[0] == 'o' && t[1] == 'n') by {
        if t.len() == 2 && t[0] == 'o' && t[1] == 'n' {
            assert(t =~= "on"@);
        }
    }
}

} // verus!
