use ssh_go::commands::{
    add_server, address, list_rows, pick_server, remove_server, replace_server, resolve_positions,
    resolve_single, verbose_note, Resolution,
};
use ssh_go::config::{Auth, Server};
use ssh_go::form::{Answer, Question, ServerForm, Stage};

fn server(alias: &str, host: &str) -> Server {
    Server {
        alias: alias.to_string(),
        host: host.to_string(),
        port: 22,
        user: "root".to_string(),
        auth: None,
    }
}

fn aliases(servers: &[Server]) -> Vec<&str> {
    servers.iter().map(|s| s.alias.as_str()).collect()
}

#[test]
fn no_server_saved_is_said_first() {
    match pick_server(&[], "prod") {
        Resolution::NoServers { message } => {
            assert_eq!(message, "No servers configured. Use `sgo add` to add one.")
        }
        other => panic!("{:?}", other),
    }
    match resolve_single(&[], "prod") {
        Resolution::NoMatch { message } => assert_eq!(message, "No server matching \"prod\""),
        other => panic!("{:?}", other),
    }
}

#[test]
fn one_match_is_settled_at_once() {
    let servers = vec![server("web", "10.0.0.1"), server("prod", "10.0.0.2")];
    let r = pick_server(&servers, "prod");
    assert!(matches!(r, Resolution::One { index: 1 }));
    assert_eq!(r.settle(7), Some(1));
    assert_eq!(r.settle_answer(None), Some(1));
    match pick_server(&servers, "nothing") {
        Resolution::NoMatch { message } => {
            assert_eq!(message, "No server matching \"nothing\"");
        }
        other => panic!("{:?}", other),
    }
    assert_eq!(pick_server(&servers, "nothing").settle(0), None);
    assert_eq!(pick_server(&servers, "nothing").settle_answer(None), None);
}

#[test]
fn several_matches_are_chosen_among() {
    let servers = vec![
        server("prod-a", "10.0.0.1"),
        server("web", "10.0.0.2"),
        server("prod-b", "10.0.0.3"),
    ];
    let r = resolve_single(&servers, "prod");
    match &r {
        Resolution::Many {
            note,
            positions,
            items,
        } => {
            assert_eq!(note, "Multiple servers match \"prod\":");
            assert_eq!(positions, &vec![0usize, 2]);
            assert_eq!(
                items,
                &vec![
                    "prod-a (root@10.0.0.1:22) [auth: none]".to_string(),
                    "prod-b (root@10.0.0.3:22) [auth: none]".to_string(),
                ]
            );
        }
        other => panic!("{:?}", other),
    }
    assert_eq!(r.settle(0), Some(0));
    assert_eq!(r.settle(1), Some(2));
    assert_eq!(r.settle(2), None);
    assert_eq!(r.settle_answer(Some(1)), Some(2));
    assert_eq!(r.settle_answer(Some(2)), None);
    assert_eq!(r.settle_answer(None), None);
    assert!(matches!(
        resolve_positions(&servers, vec![2], "x"),
        Resolution::One { index: 2 }
    ));
}

#[test]
fn equal_servers_are_told_apart_by_position() {
    let servers = vec![server("same", "h"), server("same", "h")];
    let r = resolve_single(&servers, "same");
    assert_eq!(r.settle(1), Some(1));
}

#[test]
fn lists_number_the_servers_from_one() {
    let mut servers = vec![
        server("a", "h1"),
        server("b", "h2"),
        server("c", "h3"),
    ];
    servers[1].auth = Some(Auth::Key("~/id".to_string()));
    servers[2].auth = Some(Auth::Password("secret".to_string()));
    let rows = list_rows(&servers);
    assert_eq!(rows.len(), 3);
    assert_eq!(rows[0].number, "[1]");
    assert_eq!(rows[0].alias, "a");
    assert_eq!(rows[0].address, "root@h1:22");
    assert_eq!(rows[0].auth, "none");
    assert_eq!(rows[1].number, "[2]");
    assert_eq!(rows[1].auth, "key: ~/id");
    assert_eq!(rows[2].auth, "password");
    assert_eq!(address(&servers[2]), "root@h3:22");
    assert!(list_rows(&[]).is_empty());
}

#[test]
fn verbosity_is_noted_only_where_there_is_some() {
    assert_eq!(verbose_note(0), None);
    assert_eq!(verbose_note(1).unwrap(), "ssh verbose level = 1");
    assert_eq!(verbose_note(255).unwrap(), "ssh verbose level = 255");
}

#[test]
fn saved_servers_change_only_where_asked() {
    let mut servers = vec![server("a", "1"), server("b", "2")];
    add_server(&mut servers, server("c", "3"));
    assert_eq!(aliases(&servers), vec!["a", "b", "c"]);
    replace_server(&mut servers, 1, server("d", "4"));
    assert_eq!(aliases(&servers), vec!["a", "d", "c"]);
    assert!(!remove_server(&mut servers, 0, 1));
    assert_eq!(aliases(&servers), vec!["a", "d", "c"]);
    assert!(remove_server(&mut servers, 0, 0));
    assert_eq!(aliases(&servers), vec!["d", "c"]);
}

fn text(s: &str) -> Answer {
    Answer::Text(s.to_string())
}

#[test]
fn a_new_server_is_asked_for_step_by_step() {
    let mut form = ServerForm::new();
    match form.ask(None) {
        Question::Text { prompt, default } => {
            assert_eq!(prompt, "Alias");
            assert!(default.is_none());
        }
        other => panic!("{:?}", other),
    }
    form.answer(text("prod"));
    match form.ask(None) {
        Question::Text { prompt, default } => {
            assert_eq!(prompt, "Host (IP or hostname)");
            assert!(default.is_none());
        }
        other => panic!("{:?}", other),
    }
    form.answer(text("10.0.0.1"));
    match form.ask(None) {
        Question::Port { prompt, port } => {
            assert_eq!(prompt, "Port");
            assert_eq!(port, 22);
        }
        other => panic!("{:?}", other),
    }
    // An answer of another kind changes nothing.
    form.answer(text("80"));
    assert_eq!(form.stage(), Stage::Port);
    form.answer(Answer::Port(2222));
    match form.ask(None) {
        Question::Text { prompt, default } => {
            assert_eq!(prompt, "Username");
            assert_eq!(default.unwrap(), "root");
        }
        other => panic!("{:?}", other),
    }
    form.answer(text("me"));
    match form.ask(None) {
        Question::Choice {
            prompt,
            items,
            chosen,
        } => {
            assert_eq!(prompt, "Authentication method");
            assert_eq!(items, vec!["Password", "SSH Key", "None"]);
            assert_eq!(chosen, 0);
        }
        other => panic!("{:?}", other),
    }
    form.answer(Answer::Choice(0));
    match form.ask(None) {
        Question::Secret { prompt } => assert_eq!(prompt, "Password"),
        other => panic!("{:?}", other),
    }
    form.answer(text("hunter2"));
    assert!(matches!(form.ask(None), Question::Nothing));
    let made = form.finish().unwrap();
    assert_eq!(made.alias, "prod");
    assert_eq!(made.host, "10.0.0.1");
    assert_eq!(made.port, 2222);
    assert_eq!(made.user, "me");
    assert!(matches!(made.auth, Some(Auth::Password(p)) if p == "hunter2"));
}

fn accept_all(old: &Server) -> Option<Server> {
    let mut form = ServerForm::new();
    for _ in 0..6 {
        match form.ask(Some(old)) {
            Question::Text { default, .. } => form.answer(Answer::Text(default.unwrap())),
            Question::Port { port, .. } => form.answer(Answer::Port(port)),
            Question::Choice { chosen, .. } => form.answer(Answer::Choice(chosen)),
            Question::Secret { .. } => return None,
            Question::Nothing => {}
        }
    }
    form.finish()
}

#[test]
fn accepting_what_is_offered_keeps_a_server() {
    let mut old = server("prod", "10.0.0.1");
    let kept = accept_all(&old).unwrap();
    assert_eq!(format!("{:?}", kept), format!("{:?}", old));
    old.auth = Some(Auth::Key("/k".to_string()));
    let kept = accept_all(&old).unwrap();
    assert_eq!(format!("{:?}", kept), format!("{:?}", old));
    old.auth = Some(Auth::Password("p".to_string()));
    assert!(accept_all(&old).is_none());
}

#[test]
fn editing_offers_what_there_is() {
    let mut old = server("prod", "10.0.0.1");
    old.auth = Some(Auth::Password("p".to_string()));
    let mut form = ServerForm::new();
    form.answer(text("x"));
    match form.ask(Some(&old)) {
        Question::Text { prompt, default } => {
            assert_eq!(prompt, "Host");
            assert_eq!(default.unwrap(), "10.0.0.1");
        }
        other => panic!("{:?}", other),
    }
    form.answer(text("y"));
    form.answer(Answer::Port(1));
    form.answer(text("z"));
    assert!(matches!(
        form.ask(Some(&old)),
        Question::Choice { chosen: 0, .. }
    ));
    form.answer(Answer::Choice(1));
    match form.ask(Some(&old)) {
        Question::Text { prompt, default } => {
            assert_eq!(prompt, "Key file path");
            assert_eq!(default.unwrap(), "~/.ssh/id_rsa");
        }
        other => panic!("{:?}", other),
    }
    form.answer(text("/key"));
    let made = form.finish().unwrap();
    assert!(matches!(made.auth, Some(Auth::Key(k)) if k == "/key"));
}

#[test]
fn an_unfinished_form_makes_no_server() {
    let mut form = ServerForm::new();
    form.answer(text("x"));
    form.answer(text("y"));
    form.answer(Answer::Port(1));
    form.answer(text("z"));
    form.answer(Answer::Choice(1));
    assert_eq!(form.stage(), Stage::Key);
    assert!(form.finish().is_none());
    let mut none = ServerForm::new();
    none.answer(text("x"));
    none.answer(text("y"));
    none.answer(Answer::Port(1));
    none.answer(text("z"));
    none.answer(Answer::Choice(2));
    assert_eq!(none.stage(), Stage::Complete);
    assert!(none.finish().unwrap().auth.is_none());
}
