use ssh_go::config::{
    config_dir, config_dir_on, config_path, config_path_on, strip_bom, Auth, Server, CONFIG_DIR_ENV,
};
use ssh_go::place::{
    expand_path, expand_path_on, join_path_segments, local_of, platform_of, push_bytes,
    push_segment, Home, Local, Platform,
};

fn home(path: &str) -> Option<Home> {
    Some(Home {
        text: path.to_string(),
        bytes: path.as_bytes().to_vec(),
    })
}

fn unix() -> Local {
    Local {
        home: home("/home/me"),
        platform: Platform::Unix,
    }
}

fn windows() -> Local {
    Local {
        home: home("C:\\Users\\me"),
        platform: Platform::Windows,
    }
}

fn homeless() -> Local {
    Local {
        home: None,
        platform: Platform::Unix,
    }
}

#[test]
fn expands_tilde_to_home_directory() {
    let home = dirs::home_dir().expect("home directory should exist for tests");

    assert_eq!(expand_path("~"), home.display().to_string());
    assert_eq!(
        expand_path("~/.ssh/id_rsa"),
        dirs::home_dir()
            .unwrap()
            .join(".ssh")
            .join("id_rsa")
            .display()
            .to_string()
    );
    assert_eq!(
        expand_path("~\\.ssh\\id_rsa"),
        dirs::home_dir()
            .unwrap()
            .join(".ssh")
            .join("id_rsa")
            .display()
            .to_string()
    );
}

#[test]
fn other_paths_stay_as_they_are() {
    assert_eq!(expand_path("/etc/key"), "/etc/key");
    assert_eq!(expand_path("~other/key"), "~other/key");
    assert_eq!(expand_path(""), "");
    assert_eq!(expand_path("a/~/b"), "a/~/b");
    assert_eq!(expand_path_on(&homeless(), "~"), "~");
    assert_eq!(expand_path_on(&homeless(), "~/key"), "~/key");
}

#[test]
fn slashes_and_backslashes_are_alike_behind_a_tilde() {
    assert_eq!(expand_path_on(&unix(), "~/a\\b"), "/home/me/a/b");
    assert_eq!(expand_path_on(&unix(), "~\\a/b"), "/home/me/a/b");
    assert_eq!(expand_path_on(&unix(), "~//a//"), "/home/me/a");
    assert_eq!(expand_path_on(&unix(), "~/"), "/home/me");
    assert_eq!(
        expand_path_on(&windows(), "~/.ssh/id_rsa"),
        "C:\\Users\\me\\.ssh\\id_rsa"
    );
}

#[test]
fn segments_join_as_paths_of_this_system_do() {
    let here = platform_of(std::path::MAIN_SEPARATOR);
    for base in ["/home/me", "/", "", "rel", "/home/me/"] {
        for part in ["x", "a b", ".", "..", "x:y"] {
            assert_eq!(
                push_segment(here, base, part),
                std::path::Path::new(base).join(part).display().to_string()
            );
        }
    }
}

#[test]
fn drives_are_respected_on_windows_only() {
    assert_eq!(push_segment(Platform::Windows, "C:", "x"), "C:x");
    assert_eq!(push_segment(Platform::Windows, "C:\\", "x"), "C:\\x");
    assert_eq!(push_segment(Platform::Windows, "C:/", "x"), "C:/x");
    assert_eq!(push_segment(Platform::Windows, "C:\\a", "D:x"), "D:x");
    assert_eq!(push_segment(Platform::Unix, "/a", "D:x"), "/a/D:x");
    assert_eq!(push_segment(Platform::Unix, "a\\", "x"), "a\\/x");
    assert_eq!(
        join_path_segments(Platform::Windows, "C:\\a", "b\\D:\\c"),
        "D:c"
    );
}

#[test]
fn verbatim_paths_are_resolved_on_windows() {
    let push = |base: &str, part: &str| push_segment(Platform::Windows, base, part);
    assert_eq!(push("\\\\?\\C:\\a", "b"), "\\\\?\\C:\\a\\b");
    assert_eq!(push("\\\\?\\C:\\a\\", "b"), "\\\\?\\C:\\a\\b");
    assert_eq!(push("\\\\?\\C:\\a\\\\b", "c"), "\\\\?\\C:\\a\\b\\c");
    assert_eq!(push("\\\\?\\C:\\a/", "b"), "\\\\?\\C:\\a/\\b");
    assert_eq!(push("\\\\?\\C:\\a", "."), "\\\\?\\C:\\a");
    assert_eq!(push("\\\\?\\C:\\a", ".."), "\\\\?\\C:\\");
    assert_eq!(push("\\\\?\\C:\\", ".."), "\\\\?\\C:\\");
    assert_eq!(push("\\\\?\\C:", "x"), "\\\\?\\C:\\x");
    assert_eq!(
        push("\\\\?\\UNC\\srv\\share", ".."),
        "\\\\?\\UNC\\srv\\share"
    );
    assert_eq!(
        push("\\\\?\\UNC\\srv\\share\\a", "b"),
        "\\\\?\\UNC\\srv\\share\\a\\b"
    );
    assert_eq!(push("\\\\?\\C:\\a", "D:x"), "D:x");
    assert_eq!(
        join_path_segments(Platform::Windows, "\\\\?\\C:\\a", "b/../c"),
        "\\\\?\\C:\\a\\c"
    );
    assert_eq!(
        push_segment(Platform::Unix, "\\\\?\\C:", ".."),
        "\\\\?\\C:/.."
    );
}

#[test]
fn bytes_that_are_no_unicode_are_kept() {
    assert_eq!(
        push_bytes(Platform::Unix, b"/home/\xff\xfe", b"x"),
        b"/home/\xff\xfe/x"
    );
    let here = Local {
        home: Some(Home {
            text: "/home/\u{fffd}".to_string(),
            bytes: b"/home/\xff".to_vec(),
        }),
        platform: Platform::Unix,
    };
    assert_eq!(
        config_path_on(&here, None).unwrap(),
        b"/home/\xff/.ssh-go/servers.json"
    );
    assert_eq!(expand_path_on(&here, "~/k"), "/home/\u{fffd}/k");
}

#[test]
fn separators_tell_platforms_apart() {
    assert_eq!(platform_of('\\'), Platform::Windows);
    assert_eq!(platform_of('/'), Platform::Unix);
}

#[test]
fn a_machine_is_its_home_and_its_separator() {
    let here = local_of(home("C:\\Users\\me"), '\\');
    assert_eq!(here.home.unwrap().text, "C:\\Users\\me");
    assert_eq!(here.platform, Platform::Windows);
    let bare = local_of(None, '/');
    assert!(bare.home.is_none());
    assert_eq!(bare.platform, Platform::Unix);
}

#[test]
fn the_variable_names_the_configuration_directory() {
    assert_eq!(CONFIG_DIR_ENV, "SGO_CONFIG_DIR");
    assert_eq!(config_dir(Some("/tmp/x")).unwrap(), b"/tmp/x");
    assert_eq!(config_dir(Some("/tmp/\u{e9}")).unwrap(), "/tmp/\u{e9}".as_bytes());
    assert_eq!(
        config_path_on(&unix(), Some("/tmp/x")).unwrap(),
        b"/tmp/x/servers.json"
    );
    assert_eq!(
        config_path_on(&homeless(), Some(" /tmp/x/")).unwrap(),
        b" /tmp/x/servers.json"
    );
}

#[test]
fn a_blank_variable_is_ignored() {
    for var in [None, Some(""), Some(" \t\n")] {
        assert_eq!(config_dir_on(&unix(), var).unwrap(), b"/home/me/.ssh-go");
        assert_eq!(
            config_path_on(&windows(), var).unwrap(),
            b"C:\\Users\\me\\.ssh-go\\servers.json"
        );
        assert!(config_dir_on(&homeless(), var).is_none());
        assert!(config_path_on(&homeless(), var).is_none());
        assert_eq!(
            config_path(var),
            dirs::home_dir().map(|h| h
                .join(".ssh-go")
                .join("servers.json")
                .into_os_string()
                .into_encoded_bytes())
        );
    }
}

#[test]
fn parses_servers_with_utf8_bom() {
    let data = "\u{feff}[{\"alias\":\"prod\",\"host\":\"127.0.0.1\",\"port\":22,\"user\":\"root\",\"auth\":null}]";
    let servers: serde_json::Value = serde_json::from_str(strip_bom(data)).unwrap();

    assert_eq!(servers.as_array().unwrap().len(), 1);
    assert_eq!(servers[0]["alias"], "prod");
}

#[test]
fn one_leading_mark_is_dropped() {
    assert_eq!(strip_bom("[]"), "[]");
    assert_eq!(strip_bom(""), "");
    assert_eq!(strip_bom("\u{feff}"), "");
    assert_eq!(strip_bom("\u{feff}\u{feff}[]"), "\u{feff}[]");
    assert_eq!(strip_bom("[\u{feff}]"), "[\u{feff}]");
}

#[test]
fn servers_are_shown_without_their_password() {
    let mut server = Server {
        alias: "prod".to_string(),
        host: "10.0.0.1".to_string(),
        port: 2222,
        user: "me".to_string(),
        auth: None,
    };
    assert_eq!(server.to_string(), "prod (me@10.0.0.1:2222) [auth: none]");
    assert_eq!(server.destination(), "me@10.0.0.1");
    server.auth = Some(Auth::Key("~/.ssh/id".to_string()));
    assert_eq!(
        server.to_string(),
        "prod (me@10.0.0.1:2222) [auth: ~/.ssh/id]"
    );
    server.auth = Some(Auth::Password("hunter2".to_string()));
    assert_eq!(
        server.to_string(),
        "prod (me@10.0.0.1:2222) [auth: password]"
    );
}
