use ssh_go::config::{Auth, Server};
use ssh_go::place::{Home, Local, Platform};
use ssh_go::pty::Mode;
use ssh_go::ssh::Launch;
use ssh_go::tunnel::{
    log_command, open, open_on, parse_local_spec, parse_tunnel, tunnel_base, TunnelMode,
};

fn server(auth: Option<Auth>) -> Server {
    Server {
        alias: "prod".to_string(),
        host: "10.0.0.1".to_string(),
        port: 2222,
        user: "me".to_string(),
        auth,
    }
}

fn local_mode(local_port: u16, host: &str, remote_port: u16) -> TunnelMode {
    TunnelMode::Local {
        local_port,
        remote_host: host.to_string(),
        remote_port,
    }
}

#[test]
fn parses_local_tunnel_specs() {
    assert_eq!(
        parse_local_spec("8080").unwrap(),
        TunnelMode::Local {
            local_port: 8080,
            remote_host: "localhost".to_string(),
            remote_port: 8080,
        }
    );
    assert_eq!(
        parse_local_spec("8080:9090").unwrap(),
        TunnelMode::Local {
            local_port: 8080,
            remote_host: "localhost".to_string(),
            remote_port: 9090,
        }
    );
    assert_eq!(
        parse_local_spec("8080:db.internal:5432").unwrap(),
        TunnelMode::Local {
            local_port: 8080,
            remote_host: "db.internal".to_string(),
            remote_port: 5432,
        }
    );
}

#[test]
fn rejects_invalid_local_tunnel_specs() {
    assert!(parse_local_spec("not-a-port").is_err());
    assert!(parse_local_spec("8080:9090:too:many").is_err());
}

#[test]
fn bad_local_specs_are_named() {
    assert_eq!(parse_local_spec("x").unwrap_err(), "invalid port: x");
    assert_eq!(parse_local_spec("x:y").unwrap_err(), "invalid port: x");
    assert_eq!(parse_local_spec("1:h:").unwrap_err(), "invalid port: ");
    assert_eq!(parse_local_spec("").unwrap_err(), "invalid port: ");
    assert_eq!(parse_local_spec("65536").unwrap_err(), "invalid port: 65536");
    assert_eq!(
        parse_local_spec("a:b:c:d").unwrap_err(),
        "invalid port spec \"a:b:c:d\" — expected PORT, LOCAL:REMOTE, or LOCAL:HOST:REMOTE"
    );
}

#[test]
fn ports_are_read_like_unsigned_integers() {
    for text in [
        "0", "7", "+7", "007", "65535", "+65535", "000065535", "65536", "99999999999999999999", "-0", "-1", "+", "",
        " 7", "7 ", "++7", "1_0", "0x10", "\u{0661}",
    ] {
        let expected = text.parse::<u16>().ok();
        assert_eq!(ssh_go::text::parse_port(text), expected);
    }
}

#[test]
fn an_empty_host_is_kept() {
    assert_eq!(parse_local_spec("1::2").unwrap(), local_mode(1, "", 2));
}

#[test]
fn flags_choose_the_kind_of_tunnel() {
    assert_eq!(parse_tunnel("8080", false, false).unwrap(), local_mode(8080, "localhost", 8080));
    assert_eq!(parse_tunnel("1080", true, false).unwrap(), TunnelMode::Dynamic { port: 1080 });
    assert_eq!(
        parse_tunnel("8080", false, true).unwrap(),
        TunnelMode::Reverse {
            remote_port: 8080,
            local_host: "localhost".to_string(),
            local_port: 8080,
        }
    );
    assert_eq!(
        parse_tunnel("80:8080", false, true).unwrap(),
        TunnelMode::Reverse {
            remote_port: 80,
            local_host: "localhost".to_string(),
            local_port: 8080,
        }
    );
}

#[test]
fn bad_flags_and_specs_are_named() {
    assert_eq!(
        parse_tunnel("1", true, true).unwrap_err(),
        "-d and -r cannot be used together"
    );
    assert_eq!(
        parse_tunnel("1:2", true, false).unwrap_err(),
        "invalid port for dynamic forward: \"1:2\""
    );
    assert_eq!(parse_tunnel("x", false, true).unwrap_err(), "invalid port: \"x\"");
    assert_eq!(parse_tunnel("x:y", false, true).unwrap_err(), "invalid port: \"x\"");
    assert_eq!(parse_tunnel("1:y", false, true).unwrap_err(), "invalid port: \"y\"");
    assert_eq!(
        parse_tunnel("1:h:2", false, true).unwrap_err(),
        "invalid reverse spec \"1:h:2\" — expected PORT or REMOTE:LOCAL"
    );
    assert_eq!(parse_tunnel("x", false, false).unwrap_err(), "invalid port: x");
}

#[test]
fn tunnels_are_described() {
    assert_eq!(
        local_mode(8080, "db", 5432).describe(),
        "localhost:8080 -> db:5432 (local forward)"
    );
    assert_eq!(
        parse_tunnel("80:8080", false, true).unwrap().describe(),
        "server:80 -> localhost:8080 (reverse forward)"
    );
    assert_eq!(
        TunnelMode::Dynamic { port: 1080 }.describe(),
        "SOCKS5 proxy on localhost:1080"
    );
}

#[test]
fn tunnels_become_arguments() {
    let mut args = vec!["x".to_string()];
    local_mode(8080, "db", 5432).apply(&mut args);
    TunnelMode::Reverse {
        remote_port: 80,
        local_host: "localhost".to_string(),
        local_port: 8080,
    }
    .apply(&mut args);
    TunnelMode::Dynamic { port: 0 }.apply(&mut args);
    assert_eq!(args, ["x", "-L", "8080:db:5432", "-R", "80:localhost:8080", "-D", "0"]);
}

#[test]
fn a_local_forward_reads_back() {
    let mut args: Vec<String> = Vec::new();
    let mode = local_mode(65535, "db.internal", 1);
    mode.apply(&mut args);
    assert_eq!(parse_local_spec(&args[1]).unwrap(), mode);
}

#[test]
fn verbosity_stops_at_three() {
    let s = server(None);
    assert_eq!(
        tunnel_base(&s, 0),
        [
            "-N", "-p", "2222", "-o", "StrictHostKeyChecking=no", "-o", "ServerAliveInterval=60", "-o",
            "ServerAliveCountMax=3", "-o", "ExitOnForwardFailure=yes",
        ]
    );
    assert_eq!(tunnel_base(&s, 1).last().unwrap(), "-v");
    assert_eq!(tunnel_base(&s, 2).last().unwrap(), "-vv");
    assert_eq!(tunnel_base(&s, 3).last().unwrap(), "-vvv");
    assert_eq!(tunnel_base(&s, 255).last().unwrap(), "-vvv");
}

#[test]
fn a_tunnel_with_a_key_runs_directly() {
    let here = Local {
        home: Some(Home {
            text: "/home/me".to_string(),
            bytes: b"/home/me".to_vec(),
        }),
        platform: Platform::Unix,
    };
    let s = server(Some(Auth::Key("~/my keys/id".to_string())));
    let t = open_on(&here, &s, &TunnelMode::Dynamic { port: 1080 }, 0);
    assert_eq!(t.server_line, "me@10.0.0.1 via port 2222");
    assert_eq!(
        t.command_line,
        "ssh -N -p 2222 -o StrictHostKeyChecking=no -o ServerAliveInterval=60 -o ServerAliveCountMax=3 \
         -o ExitOnForwardFailure=yes -D 1080 -i '/home/me/my keys/id' me@10.0.0.1"
    );
    match t.launch {
        Launch::Direct { args } => {
            assert_eq!(args[11..], ["-D", "1080", "-i", "/home/me/my keys/id", "me@10.0.0.1"]);
        }
        Launch::WithPassword { .. } => panic!("there is no password"),
    }
}

#[test]
fn a_tunnel_with_a_password_never_shows_it() {
    let s = server(Some(Auth::Password("hunter2".to_string())));
    let t = open(&s, &local_mode(1, "h", 2), 1);
    assert!(!t.command_line.contains("hunter2"));
    assert!(!t.server_line.contains("hunter2"));
    match t.launch {
        Launch::WithPassword { args, password, opts } => {
            assert_eq!(password, "hunter2");
            assert_eq!(opts.mode, Mode::Tunnel);
            assert!(!opts.forward_stdin);
            assert_eq!(
                args[11..],
                [
                    "-v",
                    "-L",
                    "1:h:2",
                    "-o",
                    "PubkeyAuthentication=no",
                    "-o",
                    "PreferredAuthentications=password,keyboard-interactive",
                    "-o",
                    "NumberOfPasswordPrompts=1",
                    "me@10.0.0.1",
                ]
            );
        }
        Launch::Direct { .. } => panic!("the password is to be typed"),
    }
}

#[test]
fn a_tunnel_without_auth_only_names_the_server() {
    let t = open(&server(None), &TunnelMode::Dynamic { port: 9 }, 0);
    match t.launch {
        Launch::Direct { args } => assert_eq!(args[11..], ["-D", "9", "me@10.0.0.1"]),
        Launch::WithPassword { .. } => panic!("there is no password"),
    }
}

#[test]
fn logged_arguments_are_quoted() {
    let args = vec!["a b".to_string(), "it's".to_string()];
    assert_eq!(log_command(Platform::Unix, &args), "ssh 'a b' 'it'\\''s'");
    assert_eq!(log_command(Platform::Windows, &args), "ssh 'a b' 'it''s'");
    assert_eq!(log_command(Platform::Unix, &[]), "ssh");
}
