use ssh_go::place::Platform;
use ssh_go::quote::{
    build_remote_command, is_shell_safe, posix_quote, shell_escape, shell_escape_on,
};

#[test]
fn shell_escape_quotes_values_with_spaces_or_quotes() {
    assert_eq!(shell_escape("simple-value_1"), "simple-value_1");
    assert_eq!(shell_escape_on(Platform::Windows, "a b'c"), "'a b''c'");
    assert_eq!(shell_escape_on(Platform::Unix, "a b'c"), "'a b'\\''c'");
    if std::path::MAIN_SEPARATOR == '\\' {
        assert_eq!(shell_escape("a b'c"), "'a b''c'");
    } else {
        assert_eq!(shell_escape("a b'c"), "'a b'\\''c'");
    }
}

#[test]
fn single_command_part_reaches_the_remote_shell_untouched() {
    let parts = vec!["df -h | grep /var".to_string()];
    assert_eq!(build_remote_command(&parts), "df -h | grep /var");
}

#[test]
fn multiple_command_parts_are_quoted_individually() {
    let parts = vec![
        "grep".to_string(),
        "hello world".to_string(),
        "/var/log/app.log".to_string(),
    ];
    assert_eq!(
        build_remote_command(&parts),
        "grep 'hello world' /var/log/app.log"
    );
}

#[test]
fn quoting_survives_the_characters_a_shell_would_eat() {
    assert_eq!(posix_quote("$HOME"), "'$HOME'");
    assert_eq!(posix_quote("*.mp4"), "'*.mp4'");
    assert_eq!(posix_quote("a'b"), "'a'\\''b'");
    assert_eq!(posix_quote("`id`"), "'`id`'");
    assert_eq!(posix_quote(""), "''");
    assert_eq!(posix_quote("plain-value_1"), "plain-value_1");
}

#[test]
fn no_command_parts_make_an_empty_command() {
    assert_eq!(build_remote_command(&[]), "");
}

#[test]
fn every_plain_character_is_safe() {
    let plain = "azAZ09-_./:@=+,%";
    assert!(is_shell_safe(Platform::Unix, plain));
    assert!(is_shell_safe(Platform::Windows, plain));
    assert!(!is_shell_safe(Platform::Unix, ""));
    assert!(!is_shell_safe(Platform::Windows, ""));
    for c in [' ', '\'', '"', '$', '`', '*', '?', '~', '!', '#', '&', '|', ';', '\n', '\u{e9}'] {
        let word: String = c.to_string();
        assert!(!is_shell_safe(Platform::Unix, &word));
        assert!(!is_shell_safe(Platform::Windows, &word));
    }
}

#[test]
fn backslash_is_safe_on_windows_only() {
    assert_eq!(shell_escape_on(Platform::Windows, "C:\\key"), "C:\\key");
    assert_eq!(shell_escape_on(Platform::Unix, "C:\\key"), "'C:\\key'");
}

#[test]
fn a_quote_alone_is_quoted() {
    assert_eq!(posix_quote("'"), "''\\'''");
    assert_eq!(shell_escape_on(Platform::Windows, "'"), "''''");
}
