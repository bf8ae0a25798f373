use ssh_go::config::Server;
use ssh_go::matcher::{match_lowered, match_positions, match_servers};

fn server(alias: &str, host: &str) -> Server {
    Server {
        alias: alias.to_string(),
        host: host.to_string(),
        port: 22,
        user: "root".to_string(),
        auth: None,
    }
}

#[test]
fn exact_alias_match_has_highest_priority() {
    let servers = vec![server("prod", "10.0.0.10"), server("prod-db", "prod")];

    let matched = match_servers(&servers, "prod");

    assert_eq!(matched.len(), 1);
    assert_eq!(matched[0].alias, "prod");
}

#[test]
fn falls_back_through_suffix_alias_and_host_substring() {
    let servers = vec![
        server("web", "192.168.1.42"),
        server("prod-db", "10.0.0.15"),
        server("cache", "172.16.20.30"),
    ];

    assert_eq!(match_servers(&servers, ".42")[0].alias, "web");
    assert_eq!(match_servers(&servers, "DB")[0].alias, "prod-db");
    assert_eq!(match_servers(&servers, "16.20")[0].alias, "cache");
}

#[test]
fn returns_empty_when_nothing_matches() {
    let servers = vec![server("prod", "10.0.0.10")];

    assert!(match_servers(&servers, "missing").is_empty());
}

#[test]
fn exact_alias_keeps_case() {
    let servers = vec![server("prod-db", "h1"), server("Prod", "h2"), server("PROD", "h3")];

    assert_eq!(match_positions(&servers, "Prod"), vec![1]);
    assert_eq!(match_positions(&servers, "pROD"), vec![0, 1, 2]);
}

#[test]
fn an_alias_in_another_case_is_only_an_alias_part() {
    let servers = vec![server("PROD", "10.0.0.1"), server("prod-db", "10.0.0.2")];

    let aliases: Vec<&str> = match_servers(&servers, "prod")
        .iter()
        .map(|s| s.alias.as_str())
        .collect();
    assert_eq!(aliases, vec!["PROD", "prod-db"]);
}

#[test]
fn case_is_ignored_beyond_ascii() {
    let servers = vec![server("\u{c9}COLE", "h1"), server("x", "h2")];

    assert_eq!(match_positions(&servers, "\u{e9}cole"), vec![0]);
    assert_eq!(match_positions(&servers, "\u{c9}C"), vec![0]);
}

#[test]
fn host_matches_keep_case() {
    let servers = vec![server("a", "Web.example"), server("b", "web.example")];

    assert_eq!(match_positions(&servers, "web.e"), vec![1]);
    assert_eq!(match_positions(&servers, "Web.example"), vec![0]);
}

#[test]
fn suffix_goes_before_alias_part() {
    let servers = vec![server("node42", "10.0.0.1"), server("x", "10.0.0.42")];

    assert_eq!(match_positions(&servers, "42"), vec![1]);
}

#[test]
fn alias_part_goes_before_host_part() {
    let servers = vec![server("x", "10.77.0.1"), server("n77x", "10.0.0.2")];

    assert_eq!(match_positions(&servers, "77"), vec![1]);
}

#[test]
fn all_servers_of_the_winning_tier_are_kept_in_order() {
    let servers = vec![
        server("web-1", "10.0.0.1"),
        server("db", "10.0.0.2"),
        server("web-2", "10.0.0.3"),
    ];

    let aliases: Vec<&str> = match_servers(&servers, "WEB").iter().map(|s| s.alias.as_str()).collect();
    assert_eq!(aliases, vec!["web-1", "web-2"]);
}

#[test]
fn empty_query_selects_every_server() {
    let servers = vec![server("a", "h1"), server("b", "h2")];

    assert_eq!(match_positions(&servers, ""), vec![0, 1]);
    assert!(match_positions(&[], "").is_empty());
}

#[test]
fn lowered_aliases_decide_the_alias_part_only() {
    let servers = vec![server("A", "h1"), server("B", "h2")];
    let lowered = vec!["xq".to_string(), "q".to_string()];

    assert_eq!(match_lowered(&servers, &lowered, "zzz", "q"), vec![0, 1]);
    assert_eq!(match_lowered(&servers, &lowered, "B", "q"), vec![1]);
    assert_eq!(match_lowered(&servers, &lowered, "h1", "zzz"), vec![0]);
}
