//! Port forwards: what is asked for, and the command that opens them.

use vstd::prelude::*;
use vstd::string::*;

use crate::config::{Auth, Server};
use crate::place::{expanded_path, local, Local, Platform};
use crate::pty::{Mode, Opts};
use crate::quote::{
    each_escaped, escaped, law_escaped_words_are_a_command, lemma_ssh_is_a_command, shell_command,
    shell_escape_on,
};
use crate::ssh::{
    apply_auth, auth_opts_text, launch, push_arg, same_but_password, saved_password, with_opts,
    Launch, LaunchView,
};
use crate::text::{
    around, decimal, decimal_string, is_digit, join, join_with, law_decimal_port_reads_back,
    law_pieces_make_the_text, law_ports_are_digits, lemma_decimal_is_digits, lemma_split_last,
    lemma_split_one, parse_port, port_value, split, split_on, texts,
};

verus! {

/// What is forwarded where.
#[derive(Debug, PartialEq, Eq)]
pub enum TunnelMode {
    /// A port of this machine, to a host and port that the server reaches.
    Local { local_port: u16, remote_host: String, remote_port: u16 },
    /// A port of the server, to a host and port that this machine reaches.
    Reverse { remote_port: u16, local_host: String, local_port: u16 },
    /// A SOCKS5 proxy on a port of this machine.
    Dynamic { port: u16 },
}

/// The contents of a `TunnelMode`.
pub enum TunnelView {
    Local { local_port: u16, remote_host: Seq<char>, remote_port: u16 },
    Reverse { remote_port: u16, local_host: Seq<char>, local_port: u16 },
    Dynamic { port: u16 },
}

impl View for TunnelMode {
    type V = TunnelView;

    open spec fn view(&self) -> TunnelView {
        match self {
            TunnelMode::Local { local_port, remote_host, remote_port } => TunnelView::Local {
                local_port: *local_port,
                remote_host: remote_host@,
                remote_port: *remote_port,
            },
            TunnelMode::Reverse { remote_port, local_host, local_port } => TunnelView::Reverse {
                remote_port: *remote_port,
                local_host: local_host@,
                local_port: *local_port,
            },
            TunnelMode::Dynamic { port } => TunnelView::Dynamic { port: *port },
        }
    }
}

/// A port, a host and a port with colons between them.
pub open spec fn forward_text(from: u16, host: Seq<char>, to: u16) -> Seq<char> {
    decimal(from as nat) + ":"@ + host + ":"@ + decimal(to as nat)
}

/// A forward in words.
pub open spec fn described(mode: TunnelView) -> Seq<char> {
    match mode {
        TunnelView::Local { local_port, remote_host, remote_port } => "localhost:"@ + decimal(
            local_port as nat,
        ) + " -> "@ + remote_host + ":"@ + decimal(remote_port as nat) + " (local forward)"@,
        TunnelView::Reverse { remote_port, local_host, local_port } => "server:"@ + decimal(
            remote_port as nat,
        ) + " -> "@ + local_host + ":"@ + decimal(local_port as nat) + " (reverse forward)"@,
        TunnelView::Dynamic { port } => "SOCKS5 proxy on localhost:"@ + decimal(port as nat),
    }
}

/// The arguments of `ssh` that ask for a forward.
pub open spec fn forward_args(mode: TunnelView) -> Seq<Seq<char>> {
    match mode {
        TunnelView::Local { local_port, remote_host, remote_port } => seq![
            "-L"@,
            forward_text(local_port, remote_host, remote_port),
        ],
        TunnelView::Reverse { remote_port, local_host, local_port } => seq![
            "-R"@,
            forward_text(remote_port, local_host, local_port),
        ],
        TunnelView::Dynamic { port } => seq!["-D"@, decimal(port as nat)],
    }
}

fn forward_string(from: u16, host: &str, to: u16) -> (r: String)
    ensures
        r@ == forward_text(from, host@, to),
{
    let mut r = decimal_string(from as u64);
    r.append(":");
    r.append(host);
    r.append(":");
    r.append(decimal_string(to as u64).as_str());
    r
}

fn described_forward(start: &str, from: u16, host: &str, to: u16, kind: &str) -> (r: String)
    ensures
        r@ == start@ + decimal(from as nat) + " -> "@ + host@ + ":"@ + decimal(to as nat) + kind@,
{
    let mut r = start.to_owned();
    r.append(decimal_string(from as u64).as_str());
    r.append(" -> ");
    r.append(host);
    r.append(":");
    r.append(decimal_string(to as u64).as_str());
    r.append(kind);
    r
}

impl TunnelMode {
    /// Says in words what is forwarded where.
    pub fn describe(&self) -> (r: String)
        ensures
            r@ == described(self@),
    {
        match self {
            TunnelMode::Local { local_port, remote_host, remote_port } => described_forward(
                "localhost:",
                *local_port,
                remote_host.as_str(),
                *remote_port,
                " (local forward)",
            ),
            TunnelMode::Reverse { remote_port, local_host, local_port } => described_forward(
                "server:",
                *remote_port,
                local_host.as_str(),
                *local_port,
                " (reverse forward)",
            ),
            TunnelMode::Dynamic { port } => {
                let mut r = "SOCKS5 proxy on localhost:".to_owned();
                r.append(decimal_string(*port as u64).as_str());
                r
            },
        }
    }

    /// Appends the arguments that ask for the forward.
    pub fn apply(&self, args: &mut Vec<String>)
        ensures
            texts(final(args)@) == texts(old(args)@) + forward_args(self@),
    {
        let ghost before = texts(args@);
        match self {
            TunnelMode::Local { local_port, remote_host, remote_port } => {
                push_arg(args, "-L");
                push_arg(
                    args,
                    forward_string(*local_port, remote_host.as_str(), *remote_port).as_str(),
                );
            },
            TunnelMode::Reverse { remote_port, local_host, local_port } => {
                push_arg(args, "-R");
                push_arg(
                    args,
                    forward_string(*remote_port, local_host.as_str(), *local_port).as_str(),
                );
            },
            TunnelMode::Dynamic { port } => {
                push_arg(args, "-D");
                push_arg(args, decimal_string(*port as u64).as_str());
            },
        }
        assert(texts(args@) =~= before + forward_args(self@));
    }
}

/// What is said of a text that is no port number.
pub open spec fn bad_port(text: Seq<char>) -> Seq<char> {
    "invalid port: "@ + text
}

/// What is said of a port spec with too many parts.
pub open spec fn bad_spec(spec: Seq<char>) -> Seq<char> {
    "invalid port spec \""@ + spec
        + "\" — expected PORT, LOCAL:REMOTE, or LOCAL:HOST:REMOTE"@
}

/// The local forward that a port spec asks for: PORT, LOCAL:REMOTE or
/// LOCAL:HOST:REMOTE. Of two bad ports the first is complained of.
pub open spec fn local_spec(spec: Seq<char>) -> Result<TunnelView, Seq<char>> {
    let parts = split_on(spec, ':');
    if parts.len() > 3 {
        Err(bad_spec(spec))
    } else {
        let first = parts[0];
        let last = parts.last();
        match (port_value(first), port_value(last)) {
            (None, _) => Err(bad_port(first)),
            (_, None) => Err(bad_port(last)),
            (Some(l), Some(r)) => Ok(
                TunnelView::Local {
                    local_port: l,
                    remote_host: if parts.len() == 3 {
                        parts[1]
                    } else {
                        "localhost"@
                    },
                    remote_port: r,
                },
            ),
        }
    }
}

/// The contents of a parsed forward or of what is said instead.
pub open spec fn parsed(r: Result<TunnelMode, String>) -> Result<TunnelView, Seq<char>> {
    match r {
        Ok(m) => Ok(m@),
        Err(e) => Err(e@),
    }
}

fn port_error(text: &str) -> (r: String)
    ensures
        r@ == bad_port(text@),
{
    let mut r = "invalid port: ".to_owned();
    r.append(text);
    r
}

/// Reads a port spec as a local forward.
pub fn parse_local_spec(spec: &str) -> (r: Result<TunnelMode, String>)
    ensures
        parsed(r) == local_spec(spec@),
{
    let parts = split(spec, ':');
    assert(texts(parts@).len() == parts@.len());
    let n: usize = parts.len();
    if n > 3 {
        let mut e = "invalid port spec \"".to_owned();
        e.append(spec);
        e.append("\" — expected PORT, LOCAL:REMOTE, or LOCAL:HOST:REMOTE");
        return Err(e);
    }
    assert(texts(parts@)[0] == parts@[0]@);
    assert(texts(parts@)[n - 1] == parts@[n - 1]@);
    let local_port: u16 = match parse_port(parts[0].as_str()) {
        Some(p) => p,
        None => {
            return Err(port_error(parts[0].as_str()));
        },
    };
    let remote_port: u16 = match parse_port(parts[n - 1].as_str()) {
        Some(p) => p,
        None => {
            return Err(port_error(parts[n - 1].as_str()));
        },
    };
    let remote_host = if n == 3 {
        assert(texts(parts@)[1] == parts@[1]@);
        parts[1].clone()
    } else {
        "localhost".to_owned()
    };
    Ok(TunnelMode::Local { local_port, remote_host, remote_port })
}

/// The reverse forward that a port spec asks for: PORT or REMOTE:LOCAL.
pub open spec fn reverse_spec(spec: Seq<char>) -> Result<TunnelView, Seq<char>> {
    let parts = split_on(spec, ':');
    if parts.len() > 2 {
        Err("invalid reverse spec \""@ + spec + "\" — expected PORT or REMOTE:LOCAL"@)
    } else {
        match (port_value(parts[0]), port_value(parts.last())) {
            (None, _) => Err("invalid port: \""@ + parts[0] + "\""@),
            (_, None) => Err("invalid port: \""@ + parts.last() + "\""@),
            (Some(remote_port), Some(local_port)) => Ok(
                TunnelView::Reverse { remote_port, local_host: "localhost"@, local_port },
            ),
        }
    }
}

/// The forward that a port spec asks for, given the flags beside it.
pub open spec fn tunnel_spec(spec: Seq<char>, dynamic: bool, reverse: bool) -> Result<
    TunnelView,
    Seq<char>,
> {
    if dynamic && reverse {
        Err("-d and -r cannot be used together"@)
    } else if dynamic {
        match port_value(spec) {
            Some(port) => Ok(TunnelView::Dynamic { port }),
            None => Err("invalid port for dynamic forward: \""@ + spec + "\""@),
        }
    } else if reverse {
        reverse_spec(spec)
    } else {
        local_spec(spec)
    }
}

/// Reads a port spec as a reverse forward.
pub fn parse_reverse_spec(spec: &str) -> (r: Result<TunnelMode, String>)
    ensures
        parsed(r) == reverse_spec(spec@),
{
    let parts = split(spec, ':');
    assert(texts(parts@).len() == parts@.len());
    let n: usize = parts.len();
    if n > 2 {
        return Err(
            around(
                "invalid reverse spec \"",
                spec,
                "\" — expected PORT or REMOTE:LOCAL",
            ),
        );
    }
    assert(texts(parts@)[0] == parts@[0]@);
    assert(texts(parts@)[n - 1] == parts@[n - 1]@);
    let remote_port: u16 = match parse_port(parts[0].as_str()) {
        Some(p) => p,
        None => {
            return Err(around("invalid port: \"", parts[0].as_str(), "\""));
        },
    };
    let local_port: u16 = match parse_port(parts[n - 1].as_str()) {
        Some(p) => p,
        None => {
            return Err(around("invalid port: \"", parts[n - 1].as_str(), "\""));
        },
    };
    Ok(TunnelMode::Reverse { remote_port, local_host: "localhost".to_owned(), local_port })
}

/// Reads a port spec and the flags beside it as a forward.
pub fn parse_tunnel(spec: &str, dynamic: bool, reverse: bool) -> (r: Result<TunnelMode, String>)
    ensures
        parsed(r) == tunnel_spec(spec@, dynamic, reverse),
{
    if dynamic && reverse {
        return Err("-d and -r cannot be used together".to_owned());
    }
    if dynamic {
        match parse_port(spec) {
            Some(port) => Ok(TunnelMode::Dynamic { port }),
            None => Err(around("invalid port for dynamic forward: \"", spec, "\"")),
        }
    } else if reverse {
        parse_reverse_spec(spec)
    } else {
        parse_local_spec(spec)
    }
}

/// How much `ssh` says of itself: nothing, or more with each step up to three.
pub type Verbosity = u8;

/// The option that asks `ssh` to say more.
pub open spec fn verbose_text(verbose: Verbosity) -> Seq<Seq<char>> {
    if verbose == 0 {
        Seq::empty()
    } else if verbose == 1 {
        seq!["-v"@]
    } else if verbose == 2 {
        seq!["-vv"@]
    } else {
        seq!["-vvv"@]
    }
}

/// The options given to every tunnel.
pub open spec fn tunnel_base_text(port: u16, verbose: Verbosity) -> Seq<Seq<char>> {
    seq![
        "-N"@,
        "-p"@,
        decimal(port as nat),
        "-o"@,
        "StrictHostKeyChecking=no"@,
        "-o"@,
        "ServerAliveInterval=60"@,
        "-o"@,
        "ServerAliveCountMax=3"@,
        "-o"@,
        "ExitOnForwardFailure=yes"@,
    ] + verbose_text(verbose)
}

/// The options given to every tunnel.
pub fn tunnel_base(server: &Server, verbose: Verbosity) -> (r: Vec<String>)
    ensures
        texts(r@) == tunnel_base_text(server.port, verbose),
{
    let mut r: Vec<String> = Vec::new();
    push_arg(&mut r, "-N");
    push_arg(&mut r, "-p");
    push_arg(&mut r, decimal_string(server.port as u64).as_str());
    push_arg(&mut r, "-o");
    push_arg(&mut r, "StrictHostKeyChecking=no");
    push_arg(&mut r, "-o");
    push_arg(&mut r, "ServerAliveInterval=60");
    push_arg(&mut r, "-o");
    push_arg(&mut r, "ServerAliveCountMax=3");
    push_arg(&mut r, "-o");
    push_arg(&mut r, "ExitOnForwardFailure=yes");
    if verbose == 1 {
        push_arg(&mut r, "-v");
    } else if verbose == 2 {
        push_arg(&mut r, "-vv");
    } else if verbose > 2 {
        push_arg(&mut r, "-vvv");
    }
    assert(texts(r@) =~= tunnel_base_text(server.port, verbose));
    r
}

/// How to open a tunnel: no shell and no use for standard input.
pub open spec fn tunnel_view(
    server: Server,
    home: Option<Seq<char>>,
    platform: Platform,
    mode: TunnelView,
    verbose: Verbosity,
) -> LaunchView {
    LaunchView {
        args: tunnel_base_text(server.port, verbose) + forward_args(mode) + auth_opts_text(
            server,
            home,
            platform,
        ) + seq![server.destination_text()],
        password: with_opts(
            saved_password(server),
            Opts { mode: Mode::Tunnel, forward_stdin: false },
        ),
    }
}

/// The line that shows how `ssh` is run, for the shell of a platform.
pub open spec fn logged_line(platform: Platform, args: Seq<Seq<char>>) -> Seq<char> {
    join_with(seq!["ssh"@] + each_escaped(platform, args), " "@)
}

/// The line that shows where a tunnel goes.
pub open spec fn logged_server(server: Server) -> Seq<char> {
    server.destination_text() + " via port "@ + decimal(server.port as nat)
}

/// How to open a tunnel, and what to show of it.
#[derive(Debug)]
pub struct Tunnel {
    pub launch: Launch,
    pub server_line: String,
    pub command_line: String,
}

/// Whether a tunnel is the one asked for.
pub open spec fn opens(
    tunnel: Tunnel,
    server: Server,
    home: Option<Seq<char>>,
    platform: Platform,
    mode: TunnelView,
    verbose: Verbosity,
) -> bool {
    &&& tunnel.launch@ == tunnel_view(server, home, platform, mode, verbose)
    &&& tunnel.server_line@ == logged_server(server)
    &&& tunnel.command_line@ == logged_line(platform, tunnel.launch@.args)
}

/// The line that shows how `ssh` is run, for the shell of a platform.
pub fn log_command(platform: Platform, args: &[String]) -> (r: String)
    ensures
        r@ == logged_line(platform, texts(args@)),
{
    let mut words: Vec<String> = Vec::new();
    push_arg(&mut words, "ssh");
    let mut i: usize = 0;
    assert(texts(words@) =~= seq!["ssh"@] + each_escaped(platform, texts(args@)).take(0));
    while i < args.len()
        invariant
            i <= args.len(),
            texts(words@) == seq!["ssh"@] + each_escaped(platform, texts(args@)).take(i as int),
        decreases args.len() - i,
    {
        push_arg(&mut words, shell_escape_on(platform, args[i].as_str()).as_str());
        i = i + 1;
        assert(texts(words@) =~= seq!["ssh"@] + each_escaped(platform, texts(args@)).take(
            i as int,
        ));
    }
    assert(each_escaped(platform, texts(args@)).take(args@.len() as int) =~= each_escaped(
        platform,
        texts(args@),
    ));
    join(words.as_slice(), " ")
}

/// How to open a tunnel from `local`.
pub fn open_on(local: &Local, server: &Server, mode: &TunnelMode, verbose: Verbosity) -> (r: Tunnel)
    ensures
        opens(r, *server, local.home_text(), local.platform, mode@, verbose),
{
    let mut args = tunnel_base(server, verbose);
    mode.apply(&mut args);
    apply_auth(&mut args, local, server);
    push_arg(&mut args, server.destination().as_str());
    assert(texts(args@) =~= tunnel_view(
        *server,
        local.home_text(),
        local.platform,
        mode@,
        verbose,
    ).args);
    let command_line = log_command(local.platform, args.as_slice());
    let mut server_line = server.destination();
    server_line.append(" via port ");
    server_line.append(decimal_string(server.port as u64).as_str());
    Tunnel {
        launch: launch(args, server, Opts { mode: Mode::Tunnel, forward_stdin: false }),
        server_line,
        command_line,
    }
}

/// How to open a tunnel from the machine that the program runs on. Only the path
/// of a key and the quotes of the shown line depend on the machine.
pub fn open(server: &Server, mode: &TunnelMode, verbose: Verbosity) -> (r: Tunnel)
    ensures
        exists|home: Option<Seq<char>>, platform: Platform| #[trigger]
            opens(r, *server, home, platform, mode@, verbose),
        !(server.auth matches Some(Auth::Key(_))) ==> r.launch@ == tunnel_view(
            *server,
            None,
            Platform::Unix,
            mode@,
            verbose,
        ),
{
    let here = local();
    let r = open_on(&here, server, mode, verbose);
    assert(opens(r, *server, here.home_text(), here.platform, mode@, verbose));
    r
}

proof fn lemma_decimal_has_no_colon(n: nat)
    ensures
        !decimal(n).contains(':'),
{
    lemma_decimal_is_digits(n);
    if decimal(n).contains(':') {
        let k = choose|k: int| 0 <= k < decimal(n).len() && decimal(n)[k] == ':';
        assert(is_digit(decimal(n)[k]));
    }
}

/// Every port is a port spec: that port of this machine, to the same port of the
/// server.
pub proof fn law_single_port_spec(port: u16)
    ensures
        local_spec(decimal(port as nat)) == Ok::<_, Seq<char>>(
            TunnelView::Local { local_port: port, remote_host: "localhost"@, remote_port: port },
        ),
        reverse_spec(decimal(port as nat)) == Ok::<_, Seq<char>>(
            TunnelView::Reverse { remote_port: port, local_host: "localhost"@, local_port: port },
        ),
{
    lemma_decimal_has_no_colon(port as nat);
    lemma_split_one(decimal(port as nat), ':');
    law_decimal_port_reads_back(port);
}

/// Every two ports with a colon between them are a port spec.
pub proof fn law_two_port_spec(first: u16, second: u16)
    ensures
        ({
            let spec = decimal(first as nat) + ":"@ + decimal(second as nat);
            &&& local_spec(spec) == Ok::<_, Seq<char>>(
                TunnelView::Local {
                    local_port: first,
                    remote_host: "localhost"@,
                    remote_port: second,
                },
            )
            &&& reverse_spec(spec) == Ok::<_, Seq<char>>(
                TunnelView::Reverse {
                    remote_port: first,
                    local_host: "localhost"@,
                    local_port: second,
                },
            )
        }),
{
    reveal_strlit(":");
    let a = decimal(first as nat);
    let b = decimal(second as nat);
    lemma_decimal_has_no_colon(first as nat);
    lemma_decimal_has_no_colon(second as nat);
    assert(a + ":"@ + b =~= a.push(':') + b);
    lemma_split_one(a, ':');
    lemma_split_last(a, b, ':');
    law_decimal_port_reads_back(first);
    law_decimal_port_reads_back(second);
}

/// What `ssh` is given for a local forward is itself a port spec for that
/// forward, unless the host holds a colon.
pub proof fn law_local_forward_reads_back(local_port: u16, host: Seq<char>, remote_port: u16)
    requires
        !host.contains(':'),
    ensures
        local_spec(forward_text(local_port, host, remote_port)) == Ok::<_, Seq<char>>(
            TunnelView::Local { local_port, remote_host: host, remote_port },
        ),
{
    reveal_strlit(":");
    let a = decimal(local_port as nat);
    let b = decimal(remote_port as nat);
    lemma_decimal_has_no_colon(local_port as nat);
    lemma_decimal_has_no_colon(remote_port as nat);
    let ab = a.push(':') + host;
    assert(forward_text(local_port, host, remote_port) =~= ab.push(':') + b);
    lemma_split_one(a, ':');
    lemma_split_last(a, host, ':');
    lemma_split_last(ab, b, ':');
    law_decimal_port_reads_back(local_port);
    law_decimal_port_reads_back(remote_port);
}

/// The line that is shown on Unix, given to a POSIX shell, runs `ssh` with
/// exactly the arguments of the tunnel.
pub proof fn law_logged_command_reads_back(args: Seq<Seq<char>>)
    ensures
        shell_command(logged_line(Platform::Unix, args)) == Some(seq!["ssh"@] + args),
{
    let words = seq!["ssh"@] + args;
    lemma_ssh_is_a_command();
    assert(seq!["ssh"@] + each_escaped(Platform::Unix, args) =~= each_escaped(
        Platform::Unix,
        words,
    ));
    law_escaped_words_are_a_command(words);
}

/// Neither the arguments of a tunnel nor the lines shown of it depend on the
/// password; it is handed on to be typed, as it is.
pub proof fn law_tunnel_password_is_no_argument(
    a: Server,
    b: Server,
    home: Option<Seq<char>>,
    platform: Platform,
    mode: TunnelView,
    verbose: Verbosity,
)
    requires
        same_but_password(a, b),
    ensures
        tunnel_view(a, home, platform, mode, verbose).args == tunnel_view(
            b,
            home,
            platform,
            mode,
            verbose,
        ).args,
        logged_server(a) == logged_server(b),
        tunnel_view(a, home, platform, mode, verbose).password matches Some(p) && p.0
            == saved_password(a)->0,
{
}

/// A tunnel goes through the saved port of the server to the saved user at the saved
/// host, runs nothing there, and ends where its forward fails.
pub proof fn law_tunnel_goes_through_the_server(
    server: Server,
    home: Option<Seq<char>>,
    platform: Platform,
    mode: TunnelView,
    verbose: Verbosity,
)
    ensures
        ({
            let args = tunnel_view(server, home, platform, mode, verbose).args;
            let n = args.len();
            &&& n >= 14
            &&& args[0] == "-N"@
            &&& args[1] == "-p"@ && args[2] == decimal(server.port as nat)
            &&& port_value(args[2]) == Some(server.port)
            &&& args[3] == "-o"@ && args[4] == "StrictHostKeyChecking=no"@
            &&& args[5] == "-o"@ && args[6] == "ServerAliveInterval=60"@
            &&& args[7] == "-o"@ && args[8] == "ServerAliveCountMax=3"@
            &&& args[9] == "-o"@ && args[10] == "ExitOnForwardFailure=yes"@
            &&& args[n - 1] == server.user@ + "@"@ + server.host@
        }),
{
    law_decimal_port_reads_back(server.port);
}

/// Behind the options of every tunnel stand how much `ssh` is to say, the forward,
/// how to authenticate, the destination, and nothing else. A local forward is `-L`
/// with the local port, the remote host and the remote port; a reverse one `-R` with
/// the remote port, the local host and the local port; a dynamic one `-D` with its
/// port.
pub proof fn law_tunnel_forwards_as_asked(
    server: Server,
    home: Option<Seq<char>>,
    platform: Platform,
    mode: TunnelView,
    verbose: Verbosity,
)
    ensures
        ({
            let v = tunnel_view(server, home, platform, mode, verbose);
            let args = v.args;
            let f = if verbose == 0 {
                11int
            } else {
                12int
            };
            &&& verbose == 1 ==> args[11] == "-v"@
            &&& verbose == 2 ==> args[11] == "-vv"@
            &&& verbose >= 3 ==> args[11] == "-vvv"@
            &&& match mode {
                TunnelView::Local { local_port, remote_host, remote_port } => {
                    &&& args[f] == "-L"@
                    &&& args[f + 1] == decimal(local_port as nat) + ":"@ + remote_host + ":"@
                        + decimal(remote_port as nat)
                },
                TunnelView::Reverse { remote_port, local_host, local_port } => {
                    &&& args[f] == "-R"@
                    &&& args[f + 1] == decimal(remote_port as nat) + ":"@ + local_host + ":"@
                        + decimal(local_port as nat)
                },
                TunnelView::Dynamic { port } => {
                    &&& args[f] == "-D"@
                    &&& args[f + 1] == decimal(port as nat)
                },
            }
            &&& match server.auth {
                Some(Auth::Password(p)) => {
                    &&& args.len() == f + 9
                    &&& args[f + 2] == "-o"@ && args[f + 3] == "PubkeyAuthentication=no"@
                    &&& args[f + 4] == "-o"@ && args[f + 5]
                        == "PreferredAuthentications=password,keyboard-interactive"@
                    &&& args[f + 6] == "-o"@ && args[f + 7] == "NumberOfPasswordPrompts=1"@
                    &&& v.password == Some(
                        (p@, Opts { mode: Mode::Tunnel, forward_stdin: false }),
                    )
                },
                Some(Auth::Key(path)) => {
                    &&& args.len() == f + 5
                    &&& args[f + 2] == "-i"@ && args[f + 3] == expanded_path(path@, home, platform)
                    &&& v.password is None
                },
                None => args.len() == f + 3 && v.password is None,
            }
        }),
{
}

/// Of the three options that ask for a forward a tunnel has exactly the one for its
/// kind, directly in front of what is forwarded. A key whose path has the text of
/// such an option is left out.
pub proof fn law_tunnel_has_one_forward(
    server: Server,
    home: Option<Seq<char>>,
    platform: Platform,
    mode: TunnelView,
    verbose: Verbosity,
    i: int,
)
    requires
        0 <= i < tunnel_view(server, home, platform, mode, verbose).args.len(),
        server.auth matches Some(Auth::Key(path)) ==> {
            let key = expanded_path(path@, home, platform);
            key != "-L"@ && key != "-R"@ && key != "-D"@
        },
    ensures
        ({
            let args = tunnel_view(server, home, platform, mode, verbose).args;
            let f = if verbose == 0 {
                11int
            } else {
                12int
            };
            &&& args[i] == "-L"@ <==> i == f && mode is Local
            &&& args[i] == "-R"@ <==> i == f && mode is Reverse
            &&& args[i] == "-D"@ <==> i == f && mode is Dynamic
        }),
{
    let args = tunnel_view(server, home, platform, mode, verbose).args;
    let n = args.len();
    let f = if verbose == 0 {
        11int
    } else {
        12int
    };
    law_tunnel_goes_through_the_server(server, home, platform, mode, verbose);
    law_tunnel_forwards_as_asked(server, home, platform, mode, verbose);
    lemma_forward_options(args[i]);
    lemma_no_forward_option();
    if i == 2 {
        lemma_decimal_is_no_option(server.port as nat);
    } else if i == f + 1 {
        match mode {
            TunnelView::Local { local_port, remote_host, remote_port } => {
                lemma_forward_is_no_option(local_port, remote_host, remote_port);
            },
            TunnelView::Reverse { remote_port, local_host, local_port } => {
                lemma_forward_is_no_option(remote_port, local_host, local_port);
            },
            TunnelView::Dynamic { port } => {
                lemma_decimal_is_no_option(port as nat);
            },
        }
    } else if i == n - 1 {
        lemma_destination_is_no_option(server.user@, server.host@);
    } else if i < 11 {
        assert(i == 0 || i == 1 || i == 3 || i == 4 || i == 5 || i == 6 || i == 7 || i == 8 || i == 9
            || i == 10);
    } else if i > f + 1 {
        match server.auth {
            Some(Auth::Password(_)) => {
                assert(i == f + 2 || i == f + 3 || i == f + 4 || i == f + 5 || i == f + 6 || i == f
                    + 7);
            },
            Some(Auth::Key(_)) => {
                assert(i == f + 2 || i == f + 3);
            },
            None => {},
        }
    } else {
        assert(i == 11 || i == f);
    }
}

/// Whether a text has the shape of an option that asks for a forward.
spec fn forward_option(s: Seq<char>) -> bool {
    s.len() == 2 && s[0] == '-' && (s[1] == 'L' || s[1] == 'R' || s[1] == 'D')
}

proof fn lemma_forward_options(s: Seq<char>)
    ensures
        s == "-L"@ || s == "-R"@ || s == "-D"@ ==> forward_option(s),
        "-L"@ != "-R"@,
        "-L"@ != "-D"@,
        "-R"@ != "-D"@,
{
    reveal_strlit("-L");
    reveal_strlit("-R");
    reveal_strlit("-D");
    assert("-L"@[1] == 'L' && "-R"@[1] == 'R' && "-D"@[1] == 'D');
}

proof fn lemma_no_forward_option()
    ensures
        !forward_option("-N"@),
        !forward_option("-p"@),
        !forward_option("-o"@),
        !forward_option("-i"@),
        !forward_option("-v"@),
        !forward_option("-vv"@),
        !forward_option("-vvv"@),
        !forward_option("StrictHostKeyChecking=no"@),
        !forward_option("ServerAliveInterval=60"@),
        !forward_option("ServerAliveCountMax=3"@),
        !forward_option("ExitOnForwardFailure=yes"@),
        !forward_option("PubkeyAuthentication=no"@),
        !forward_option("PreferredAuthentications=password,keyboard-interactive"@),
        !forward_option("NumberOfPasswordPrompts=1"@),
{
    reveal_strlit("-N");
    reveal_strlit("-p");
    reveal_strlit("-o");
    reveal_strlit("-i");
    reveal_strlit("-v");
    reveal_strlit("-vv");
    reveal_strlit("-vvv");
    reveal_strlit("StrictHostKeyChecking=no");
    reveal_strlit("ServerAliveInterval=60");
    reveal_strlit("ServerAliveCountMax=3");
    reveal_strlit("ExitOnForwardFailure=yes");
    reveal_strlit("PubkeyAuthentication=no");
    reveal_strlit("PreferredAuthentications=password,keyboard-interactive");
    reveal_strlit("NumberOfPasswordPrompts=1");
}

proof fn lemma_decimal_is_no_option(n: nat)
    ensures
        !forward_option(decimal(n)),
{
    lemma_decimal_is_digits(n);
    assert(is_digit(decimal(n)[0]));
}

proof fn lemma_forward_is_no_option(from: u16, host: Seq<char>, to: u16)
    ensures
        !forward_option(decimal(from as nat) + ":"@ + host + ":"@ + decimal(to as nat)),
{
    lemma_decimal_is_digits(from as nat);
    assert(is_digit(decimal(from as nat)[0]));
    let t = decimal(from as nat) + ":"@ + host + ":"@ + decimal(to as nat);
    assert(t[0] == decimal(from as nat)[0]);
}

proof fn lemma_destination_is_no_option(user: Seq<char>, host: Seq<char>)
    ensures
        !forward_option(user + "@"@ + host),
{
    reveal_strlit("@");
    let t = user + "@"@ + host;
    assert(t[user.len() as int] == '@');
}

/// What is shown of a tunnel names the saved user, host and port, and is the very
/// command that is run: on Unix a POSIX shell reads `ssh` and the arguments of the
/// tunnel in it.
pub proof fn law_tunnel_shows_what_it_runs(
    tunnel: Tunnel,
    server: Server,
    home: Option<Seq<char>>,
    platform: Platform,
    mode: TunnelView,
    verbose: Verbosity,
)
    requires
        opens(tunnel, server, home, platform, mode, verbose),
    ensures
        tunnel.launch@ == tunnel_view(server, home, platform, mode, verbose),
        tunnel.server_line@ == server.user@ + "@"@ + server.host@ + " via port "@ + decimal(
            server.port as nat,
        ),
        platform == Platform::Unix ==> shell_command(tunnel.command_line@) == Some(
            seq!["ssh"@] + tunnel.launch@.args,
        ),
        tunnel.command_line@ == join_with(
            seq!["ssh"@] + Seq::new(
                tunnel.launch@.args.len(),
                |i: int| escaped(platform, tunnel.launch@.args[i]),
            ),
            " "@,
        ),
{
    law_logged_command_reads_back(tunnel.launch@.args);
    assert(each_escaped(platform, tunnel.launch@.args) =~= Seq::new(
        tunnel.launch@.args.len(),
        |i: int| escaped(platform, tunnel.launch@.args[i]),
    ));
}

/// A forward is described by its ends, the one that listens first, and by its kind.
pub proof fn law_forwards_are_described(a: u16, host: Seq<char>, b: u16)
    ensures
        described(TunnelView::Local { local_port: a, remote_host: host, remote_port: b })
            == "localhost:"@ + decimal(a as nat) + " -> "@ + host + ":"@ + decimal(b as nat)
            + " (local forward)"@,
        described(TunnelView::Reverse { remote_port: a, local_host: host, local_port: b })
            == "server:"@ + decimal(a as nat) + " -> "@ + host + ":"@ + decimal(b as nat)
            + " (reverse forward)"@,
        described(TunnelView::Dynamic { port: a }) == "SOCKS5 proxy on localhost:"@ + decimal(
            a as nat,
        ),
{
}

/// A forward that was parsed has the contents it is said to have.
pub proof fn law_forward_is_what_it_holds(mode: TunnelMode)
    ensures
        match mode {
            TunnelMode::Local { local_port, remote_host, remote_port } => mode@
                == (TunnelView::Local { local_port, remote_host: remote_host@, remote_port }),
            TunnelMode::Reverse { remote_port, local_host, local_port } => mode@
                == (TunnelView::Reverse { remote_port, local_host: local_host@, local_port }),
            TunnelMode::Dynamic { port } => mode@ == (TunnelView::Dynamic { port }),
        },
        parsed(Ok(mode)) == Ok::<_, Seq<char>>(mode@),
{
}

/// A text without a colon is a port spec exactly where it is a port. Then a local
/// forward goes to the same port of the server, a reverse one back to the same port
/// here, and a dynamic one listens on it.
pub proof fn law_one_part_spec(a: Seq<char>)
    requires
        !a.contains(':'),
    ensures
        match port_value(a) {
            Some(p) => {
                &&& tunnel_spec(a, false, false) == Ok::<_, Seq<char>>(
                    TunnelView::Local { local_port: p, remote_host: "localhost"@, remote_port: p },
                )
                &&& tunnel_spec(a, false, true) == Ok::<_, Seq<char>>(
                    TunnelView::Reverse { remote_port: p, local_host: "localhost"@, local_port: p },
                )
                &&& tunnel_spec(a, true, false) == Ok::<_, Seq<char>>(TunnelView::Dynamic { port: p })
            },
            None => {
                &&& tunnel_spec(a, false, false) == Err::<TunnelView, _>("invalid port: "@ + a)
                &&& tunnel_spec(a, false, true) == Err::<TunnelView, _>(
                    "invalid port: \""@ + a + "\""@,
                )
                &&& tunnel_spec(a, true, false) == Err::<TunnelView, _>(
                    "invalid port for dynamic forward: \""@ + a + "\""@,
                )
            },
        },
{
    lemma_split_one(a, ':');
}

/// Two texts with a colon between them: the first port listens and the second is
/// forwarded to, on the server's side for a local forward and on this side for a
/// reverse one. The first bad port is complained of, and a dynamic forward takes no
/// second.
pub proof fn law_two_part_spec(a: Seq<char>, b: Seq<char>)
    requires
        !a.contains(':'),
        !b.contains(':'),
    ensures
        ({
            let spec = a.push(':') + b;
            let local = tunnel_spec(spec, false, false);
            let reverse = tunnel_spec(spec, false, true);
            &&& match (port_value(a), port_value(b)) {
                (Some(p), Some(q)) => {
                    &&& local == Ok::<_, Seq<char>>(
                        TunnelView::Local {
                            local_port: p,
                            remote_host: "localhost"@,
                            remote_port: q,
                        },
                    )
                    &&& reverse == Ok::<_, Seq<char>>(
                        TunnelView::Reverse {
                            remote_port: p,
                            local_host: "localhost"@,
                            local_port: q,
                        },
                    )
                },
                (Some(_), None) => {
                    &&& local == Err::<TunnelView, _>("invalid port: "@ + b)
                    &&& reverse == Err::<TunnelView, _>("invalid port: \""@ + b + "\""@)
                },
                (None, _) => {
                    &&& local == Err::<TunnelView, _>("invalid port: "@ + a)
                    &&& reverse == Err::<TunnelView, _>("invalid port: \""@ + a + "\""@)
                },
            }
            &&& tunnel_spec(spec, true, false) == Err::<TunnelView, _>(
                "invalid port for dynamic forward: \""@ + spec + "\""@,
            )
        }),
{
    let spec = a.push(':') + b;
    lemma_split_one(a, ':');
    lemma_split_last(a, b, ':');
    if port_value(spec) is Some {
        law_ports_are_digits(spec);
        assert(spec[a.len() as int] == ':');
    }
}

/// Three texts with colons between them: a port that listens here, a host and a port
/// that the server reaches. A reverse forward takes no three.
pub proof fn law_three_part_spec(a: Seq<char>, host: Seq<char>, b: Seq<char>)
    requires
        !a.contains(':'),
        !host.contains(':'),
        !b.contains(':'),
    ensures
        ({
            let spec = (a.push(':') + host).push(':') + b;
            let local = tunnel_spec(spec, false, false);
            &&& match (port_value(a), port_value(b)) {
                (Some(p), Some(q)) => local == Ok::<_, Seq<char>>(
                    TunnelView::Local { local_port: p, remote_host: host, remote_port: q },
                ),
                (Some(_), None) => local == Err::<TunnelView, _>("invalid port: "@ + b),
                (None, _) => local == Err::<TunnelView, _>("invalid port: "@ + a),
            }
            &&& tunnel_spec(spec, false, true) == Err::<TunnelView, _>(
                "invalid reverse spec \""@ + spec + "\" — expected PORT or REMOTE:LOCAL"@,
            )
        }),
{
    lemma_split_one(a, ':');
    lemma_split_last(a, host, ':');
    lemma_split_last(a.push(':') + host, b, ':');
}

/// Four or more texts with colons between them are no port spec, and both flags
/// together never are.
pub proof fn law_too_many_parts(
    a: Seq<char>,
    b: Seq<char>,
    c: Seq<char>,
    d: Seq<char>,
)
    requires
        !b.contains(':'),
        !c.contains(':'),
        !d.contains(':'),
    ensures
        ({
            let spec = ((a.push(':') + b).push(':') + c).push(':') + d;
            &&& tunnel_spec(spec, false, false) == Err::<TunnelView, _>(
                "invalid port spec \""@ + spec
                    + "\" — expected PORT, LOCAL:REMOTE, or LOCAL:HOST:REMOTE"@,
            )
            &&& tunnel_spec(spec, false, true) == Err::<TunnelView, _>(
                "invalid reverse spec \""@ + spec + "\" — expected PORT or REMOTE:LOCAL"@,
            )
        }),
        tunnel_spec(a, true, true) == Err::<TunnelView, _>("-d and -r cannot be used together"@),
{
    law_pieces_make_the_text(a, ':');
    lemma_split_last(a, b, ':');
    lemma_split_last(a.push(':') + b, c, ':');
    lemma_split_last((a.push(':') + b).push(':') + c, d, ':');
}

/// What is said in place of a forward is said as it is.
pub proof fn law_complaints_are_kept(e: String)
    ensures
        parsed(Err(e)) == Err::<TunnelView, _>(e@),
{
}

} // verus!
