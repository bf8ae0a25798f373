//! The questions that describe a server, one after the other.

use vstd::prelude::*;
use vstd::string::*;

use crate::config::{opt_string, Auth, AuthView, Server, ServerView};
use crate::ssh::push_arg;
use crate::text::texts;

verus! {

/// What is asked next.
#[derive(Debug)]
pub enum Question {
    /// A line of text.
    Text { prompt: String, default: Option<String> },
    /// A port number.
    Port { prompt: String, port: u16 },
    /// One of several items, by its place.
    Choice { prompt: String, items: Vec<String>, chosen: usize },
    /// A line of text that is not shown.
    Secret { prompt: String },
    /// Nothing: the form is complete.
    Nothing,
}

/// The contents of a `Question`.
pub enum QuestionView {
    Text { prompt: Seq<char>, default: Option<Seq<char>> },
    Port { prompt: Seq<char>, port: u16 },
    Choice { prompt: Seq<char>, items: Seq<Seq<char>>, chosen: int },
    Secret { prompt: Seq<char> },
    Nothing,
}

impl View for Question {
    type V = QuestionView;

    open spec fn view(&self) -> QuestionView {
        match self {
            Question::Text { prompt, default } => QuestionView::Text {
                prompt: prompt@,
                default: opt_string(*default),
            },
            Question::Port { prompt, port } => QuestionView::Port {
                prompt: prompt@,
                port: *port,
            },
            Question::Choice { prompt, items, chosen } => QuestionView::Choice {
                prompt: prompt@,
                items: texts(items@),
                chosen: *chosen as int,
            },
            Question::Secret { prompt } => QuestionView::Secret { prompt: prompt@ },
            Question::Nothing => QuestionView::Nothing,
        }
    }
}

/// What the user answered.
#[derive(Debug)]
pub enum Answer {
    Text(String),
    Port(u16),
    Choice(usize),
}

/// The contents of an `Answer`.
pub enum AnswerView {
    Text(Seq<char>),
    Port(u16),
    Choice(int),
}

impl View for Answer {
    type V = AnswerView;

    open spec fn view(&self) -> AnswerView {
        match self {
            Answer::Text(t) => AnswerView::Text(t@),
            Answer::Port(p) => AnswerView::Port(*p),
            Answer::Choice(c) => AnswerView::Choice(*c as int),
        }
    }
}

/// The answers so far. They are given in the order of the fields.
#[derive(Debug)]
pub struct ServerForm {
    pub alias: Option<String>,
    pub host: Option<String>,
    pub port: Option<u16>,
    pub user: Option<String>,
    /// The place of the way to authenticate: a password, a key, or none.
    pub method: Option<usize>,
    /// The password or the path of the key.
    pub secret: Option<String>,
}

/// The contents of a `ServerForm`.
pub struct FormView {
    pub alias: Option<Seq<char>>,
    pub host: Option<Seq<char>>,
    pub port: Option<u16>,
    pub user: Option<Seq<char>>,
    pub method: Option<int>,
    pub secret: Option<Seq<char>>,
}

impl View for ServerForm {
    type V = FormView;

    open spec fn view(&self) -> FormView {
        FormView {
            alias: opt_string(self.alias),
            host: opt_string(self.host),
            port: self.port,
            user: opt_string(self.user),
            method: match self.method {
                Some(m) => Some(m as int),
                None => None,
            },
            secret: opt_string(self.secret),
        }
    }
}

/// What a form is about at the moment.
#[derive(Debug, Clone, Copy, PartialEq, Eq, Structural)]
pub enum Stage {
    Alias,
    Host,
    Port,
    User,
    Method,
    Password,
    Key,
    Complete,
}

impl FormView {
    /// What the form is about at the moment: the first answer that is missing.
    pub open spec fn stage(self) -> Stage {
        if self.alias is None {
            Stage::Alias
        } else if self.host is None {
            Stage::Host
        } else if self.port is None {
            Stage::Port
        } else if self.user is None {
            Stage::User
        } else {
            match (self.method, self.secret) {
                (None, _) => Stage::Method,
                (Some(m), None) if m == 0 => Stage::Password,
                (Some(m), None) if m == 1 => Stage::Key,
                _ => Stage::Complete,
            }
        }
    }

    /// The form with one more answer. An answer of another kind than was asked
    /// for changes nothing.
    pub open spec fn with(self, answer: AnswerView) -> FormView {
        match (self.stage(), answer) {
            (Stage::Alias, AnswerView::Text(t)) => FormView { alias: Some(t), ..self },
            (Stage::Host, AnswerView::Text(t)) => FormView { host: Some(t), ..self },
            (Stage::Port, AnswerView::Port(p)) => FormView { port: Some(p), ..self },
            (Stage::User, AnswerView::Text(t)) => FormView { user: Some(t), ..self },
            (Stage::Method, AnswerView::Choice(c)) => FormView { method: Some(c), ..self },
            (Stage::Password, AnswerView::Text(t)) => FormView { secret: Some(t), ..self },
            (Stage::Key, AnswerView::Text(t)) => FormView { secret: Some(t), ..self },
            _ => self,
        }
    }

    /// The server that a complete form describes.
    pub open spec fn server(self) -> Option<ServerView> {
        if self.stage() is Complete {
            Some(
                ServerView {
                    alias: self.alias->0,
                    host: self.host->0,
                    port: self.port->0,
                    user: self.user->0,
                    auth: if self.method == Some(0int) {
                        Some(AuthView::Password(self.secret->0))
                    } else if self.method == Some(1int) {
                        Some(AuthView::Key(self.secret->0))
                    } else {
                        None
                    },
                },
            )
        } else {
            None
        }
    }
}

/// A form without answers.
pub open spec fn blank_form() -> FormView {
    FormView { alias: None, host: None, port: None, user: None, method: None, secret: None }
}

/// The place of a server's way to authenticate among the ways offered.
pub open spec fn method_of(auth: Option<AuthView>) -> int {
    match auth {
        Some(AuthView::Password(_)) => 0,
        Some(AuthView::Key(_)) => 1,
        None => 2,
    }
}

/// The key path offered for a server.
pub open spec fn key_offered(old: Option<ServerView>) -> Seq<char> {
    match old {
        Some(s) => match s.auth {
            Some(AuthView::Key(k)) => k,
            _ => "~/.ssh/id_rsa"@,
        },
        None => "~/.ssh/id_rsa"@,
    }
}

/// The question of a stage, with what a server that is edited has already as the
/// default.
pub open spec fn question(stage: Stage, old: Option<ServerView>) -> QuestionView {
    match stage {
        Stage::Alias => QuestionView::Text {
            prompt: "Alias"@,
            default: match old {
                Some(s) => Some(s.alias),
                None => None,
            },
        },
        Stage::Host => match old {
            Some(s) => QuestionView::Text { prompt: "Host"@, default: Some(s.host) },
            None => QuestionView::Text { prompt: "Host (IP or hostname)"@, default: None },
        },
        Stage::Port => QuestionView::Port {
            prompt: "Port"@,
            port: match old {
                Some(s) => s.port,
                None => 22,
            },
        },
        Stage::User => QuestionView::Text {
            prompt: "Username"@,
            default: match old {
                Some(s) => Some(s.user),
                None => Some("root"@),
            },
        },
        Stage::Method => QuestionView::Choice {
            prompt: "Authentication method"@,
            items: seq!["Password"@, "SSH Key"@, "None"@],
            chosen: match old {
                Some(s) => method_of(s.auth),
                None => 0,
            },
        },
        Stage::Password => QuestionView::Secret { prompt: "Password"@ },
        Stage::Key => QuestionView::Text {
            prompt: "Key file path"@,
            default: Some(key_offered(old)),
        },
        Stage::Complete => QuestionView::Nothing,
    }
}

/// The contents of an optional server.
pub open spec fn opt_server(s: Option<&Server>) -> Option<ServerView> {
    match s {
        Some(s) => Some(s@),
        None => None,
    }
}

impl ServerForm {
    /// A form without answers.
    pub fn new() -> (r: ServerForm)
        ensures
            r@ == blank_form(),
    {
        ServerForm { alias: None, host: None, port: None, user: None, method: None, secret: None }
    }

    /// What the form is about at the moment.
    pub fn stage(&self) -> (r: Stage)
        ensures
            r == self@.stage(),
    {
        if self.alias.is_none() {
            return Stage::Alias;
        }
        if self.host.is_none() {
            return Stage::Host;
        }
        if self.port.is_none() {
            return Stage::Port;
        }
        if self.user.is_none() {
            return Stage::User;
        }
        match self.method {
            None => Stage::Method,
            Some(m) => if self.secret.is_some() {
                Stage::Complete
            } else if m == 0 {
                Stage::Password
            } else if m == 1 {
                Stage::Key
            } else {
                Stage::Complete
            },
        }
    }

    /// What is asked next, for a new server or for one that is edited.
    pub fn ask(&self, old: Option<&Server>) -> (r: Question)
        ensures
            r@ == question(self@.stage(), opt_server(old)),
    {
        match self.stage() {
            Stage::Alias => Question::Text {
                prompt: "Alias".to_owned(),
                default: match old {
                    Some(s) => Some(s.alias.clone()),
                    None => None,
                },
            },
            Stage::Host => match old {
                Some(s) => Question::Text {
                    prompt: "Host".to_owned(),
                    default: Some(s.host.clone()),
                },
                None => Question::Text {
                    prompt: "Host (IP or hostname)".to_owned(),
                    default: None,
                },
            },
            Stage::Port => Question::Port {
                prompt: "Port".to_owned(),
                port: match old {
                    Some(s) => s.port,
                    None => 22,
                },
            },
            Stage::User => Question::Text {
                prompt: "Username".to_owned(),
                default: match old {
                    Some(s) => Some(s.user.clone()),
                    None => Some("root".to_owned()),
                },
            },
            Stage::Method => {
                let mut items: Vec<String> = Vec::new();
                push_arg(&mut items, "Password");
                push_arg(&mut items, "SSH Key");
                push_arg(&mut items, "None");
                assert(texts(items@) =~= seq!["Password"@, "SSH Key"@, "None"@]);
                let chosen: usize = match old {
                    Some(s) => match &s.auth {
                        Some(Auth::Password(_)) => 0,
                        Some(Auth::Key(_)) => 1,
                        None => 2,
                    },
                    None => 0,
                };
                Question::Choice { prompt: "Authentication method".to_owned(), items, chosen }
            },
            Stage::Password => Question::Secret { prompt: "Password".to_owned() },
            Stage::Key => {
                let offered = match old {
                    Some(s) => match &s.auth {
                        Some(Auth::Key(k)) => k.clone(),
                        _ => "~/.ssh/id_rsa".to_owned(),
                    },
                    None => "~/.ssh/id_rsa".to_owned(),
                };
                Question::Text { prompt: "Key file path".to_owned(), default: Some(offered) }
            },
            Stage::Complete => Question::Nothing,
        }
    }

    /// Takes in an answer.
    pub fn answer(&mut self, answer: Answer)
        ensures
            final(self)@ == old(self)@.with(answer@),
    {
        match (self.stage(), answer) {
            (Stage::Alias, Answer::Text(t)) => {
                self.alias = Some(t);
            },
            (Stage::Host, Answer::Text(t)) => {
                self.host = Some(t);
            },
            (Stage::Port, Answer::Port(p)) => {
                self.port = Some(p);
            },
            (Stage::User, Answer::Text(t)) => {
                self.user = Some(t);
            },
            (Stage::Method, Answer::Choice(c)) => {
                self.method = Some(c);
            },
            (Stage::Password, Answer::Text(t)) => {
                self.secret = Some(t);
            },
            (Stage::Key, Answer::Text(t)) => {
                self.secret = Some(t);
            },
            _ => {},
        }
    }

    /// The server that the form describes, once it is complete.
    pub fn finish(self) -> (r: Option<Server>)
        ensures
            match r {
                Some(s) => self@.server() == Some(s@),
                None => self@.server() is None,
            },
    {
        if self.stage() != Stage::Complete {
            return None;
        }
        match (self.alias, self.host, self.port, self.user, self.method) {
            (Some(alias), Some(host), Some(port), Some(user), Some(method)) => {
                let auth = match self.secret {
                    Some(t) => if method == 0 {
                        Some(Auth::Password(t))
                    } else if method == 1 {
                        Some(Auth::Key(t))
                    } else {
                        None
                    },
                    None => None,
                };
                Some(Server { alias, host, port, user, auth })
            },
            _ => None,
        }
    }
}

/// A form with several answers, one after the other.
pub open spec fn filled(form: FormView, answers: Seq<AnswerView>) -> FormView
    decreases answers.len(),
{
    if answers.len() == 0 {
        form
    } else {
        filled(form, answers.drop_last()).with(answers.last())
    }
}

/// The answers that describe a server.
pub open spec fn answers_for(server: ServerView) -> Seq<AnswerView> {
    seq![
        AnswerView::Text(server.alias),
        AnswerView::Text(server.host),
        AnswerView::Port(server.port),
        AnswerView::Text(server.user),
        AnswerView::Choice(method_of(server.auth)),
    ] + (match server.auth {
        Some(AuthView::Password(p)) => seq![AnswerView::Text(p)],
        Some(AuthView::Key(k)) => seq![AnswerView::Text(k)],
        None => Seq::empty(),
    })
}

proof fn lemma_first_answers(server: ServerView)
    ensures
        ({
            let a = answers_for(server);
            let first = a.take(5);
            filled(blank_form(), first) == (FormView {
                alias: Some(server.alias),
                host: Some(server.host),
                port: Some(server.port),
                user: Some(server.user),
                method: Some(method_of(server.auth)),
                secret: None,
            })
        }),
{
    let a = answers_for(server).take(5);
    assert(a.drop_last() =~= a.take(4));
    assert(a.take(4).drop_last() =~= a.take(3));
    assert(a.take(3).drop_last() =~= a.take(2));
    assert(a.take(2).drop_last() =~= a.take(1));
    assert(a.take(1).drop_last() =~= a.take(0));
    let f0 = blank_form();
    assert(filled(f0, a.take(0)) == f0);
    let f1 = filled(f0, a.take(1));
    assert(f1 == f0.with(a[0]));
    let f2 = filled(f0, a.take(2));
    assert(f2 == f1.with(a[1]));
    let f3 = filled(f0, a.take(3));
    assert(f3 == f2.with(a[2]));
    let f4 = filled(f0, a.take(4));
    assert(f4 == f3.with(a[3]));
    assert(filled(f0, a) == f4.with(a[4]));
}

/// The answers that describe a server lead to exactly that server.
pub proof fn law_answers_make_the_server(server: ServerView)
    ensures
        filled(blank_form(), answers_for(server)).server() == Some(server),
{
    lemma_first_answers(server);
    let a = answers_for(server);
    if server.auth is None {
        assert(a.take(5) =~= a);
    } else {
        assert(a.drop_last() =~= a.take(5));
    }
}

/// The answer that accepts what a question offers.
pub open spec fn accepted(q: QuestionView) -> AnswerView {
    match q {
        QuestionView::Text { default: Some(t), .. } => AnswerView::Text(t),
        QuestionView::Port { port, .. } => AnswerView::Port(port),
        QuestionView::Choice { chosen, .. } => AnswerView::Choice(chosen),
        _ => AnswerView::Text(Seq::empty()),
    }
}

/// A form in which the user accepted what was offered for a server that is
/// edited, several times in a row.
pub open spec fn accepting(form: FormView, old: ServerView, times: nat) -> FormView
    decreases times,
{
    if times == 0 {
        form
    } else {
        let before = accepting(form, old, (times - 1) as nat);
        before.with(accepted(question(before.stage(), Some(old))))
    }
}

/// Editing a server and accepting all that is offered leaves it as it was. A
/// stored password is never offered, so this is said of the other servers.
pub proof fn law_accepting_all_keeps_the_server(old: ServerView)
    requires
        !(old.auth matches Some(AuthView::Password(_))),
    ensures
        accepting(blank_form(), old, 6).server() == Some(old),
{
    reveal_with_fuel(accepting, 7);
    let f1 = accepting(blank_form(), old, 1);
    let f2 = accepting(blank_form(), old, 2);
    let f3 = accepting(blank_form(), old, 3);
    let f4 = accepting(blank_form(), old, 4);
    let f5 = accepting(blank_form(), old, 5);
    assert(f1.stage() is Host);
    assert(f2.stage() is Port);
    assert(f3.stage() is User);
    assert(f4.stage() is Method);
    assert(f5.method == Some(method_of(old.auth)));
}

/// No question shows a stored password.
pub proof fn law_password_is_never_offered(stage: Stage, a: ServerView, b: ServerView)
    requires
        a.alias == b.alias,
        a.host == b.host,
        a.port == b.port,
        a.user == b.user,
        a.auth matches Some(AuthView::Password(_)),
        b.auth matches Some(AuthView::Password(_)),
    ensures
        question(stage, Some(a)) == question(stage, Some(b)),
{
}

/// What is asked of a new server, and what is offered: no alias and no host, port 22,
/// the user root, a password first of the three ways, and the common path of a key.
pub proof fn law_questions_for_a_new_server()
    ensures
        question(Stage::Alias, None) == (QuestionView::Text { prompt: "Alias"@, default: None }),
        question(Stage::Host, None) == (QuestionView::Text {
            prompt: "Host (IP or hostname)"@,
            default: None,
        }),
        question(Stage::Port, None) == (QuestionView::Port { prompt: "Port"@, port: 22 }),
        question(Stage::User, None) == (QuestionView::Text {
            prompt: "Username"@,
            default: Some("root"@),
        }),
        question(Stage::Method, None) == (QuestionView::Choice {
            prompt: "Authentication method"@,
            items: seq!["Password"@, "SSH Key"@, "None"@],
            chosen: 0,
        }),
        question(Stage::Password, None) == (QuestionView::Secret { prompt: "Password"@ }),
        question(Stage::Key, None) == (QuestionView::Text {
            prompt: "Key file path"@,
            default: Some("~/.ssh/id_rsa"@),
        }),
        question(Stage::Complete, None) is Nothing,
{
}

/// What is asked of a server that is edited, and what is offered: what it has. A key
/// is offered to one without as to a new server.
pub proof fn law_questions_for_an_edited_server(old: ServerView)
    ensures
        question(Stage::Alias, Some(old)) == (QuestionView::Text {
            prompt: "Alias"@,
            default: Some(old.alias),
        }),
        question(Stage::Host, Some(old)) == (QuestionView::Text {
            prompt: "Host"@,
            default: Some(old.host),
        }),
        question(Stage::Port, Some(old)) == (QuestionView::Port { prompt: "Port"@, port: old.port }),
        question(Stage::User, Some(old)) == (QuestionView::Text {
            prompt: "Username"@,
            default: Some(old.user),
        }),
        question(Stage::Method, Some(old)) == (QuestionView::Choice {
            prompt: "Authentication method"@,
            items: seq!["Password"@, "SSH Key"@, "None"@],
            chosen: match old.auth {
                Some(AuthView::Password(_)) => 0,
                Some(AuthView::Key(_)) => 1,
                None => 2,
            },
        }),
        question(Stage::Password, Some(old)) == (QuestionView::Secret { prompt: "Password"@ }),
        question(Stage::Key, Some(old)) == (QuestionView::Text {
            prompt: "Key file path"@,
            default: match old.auth {
                Some(AuthView::Key(path)) => Some(path),
                _ => Some("~/.ssh/id_rsa"@),
            },
        }),
        question(Stage::Complete, Some(old)) is Nothing,
{
}

/// A form asks for alias, host, port, user and way to authenticate, in this order,
/// then for a password or a key where that way needs one, and for nothing more.
pub proof fn law_questions_come_in_order(form: FormView)
    ensures
        form.stage() == Stage::Alias <==> form.alias is None,
        form.stage() == Stage::Host <==> form.alias is Some && form.host is None,
        form.stage() == Stage::Port <==> form.alias is Some && form.host is Some && form.port is None,
        form.stage() == Stage::User <==> form.alias is Some && form.host is Some && form.port is Some
            && form.user is None,
        form.stage() == Stage::Method ==> form.user is Some && form.method is None,
        form.stage() == Stage::Password ==> form.method == Some(0int) && form.secret is None,
        form.stage() == Stage::Key ==> form.method == Some(1int) && form.secret is None,
        form.stage() == Stage::Complete <==> form.alias is Some && form.host is Some
            && form.port is Some && form.user is Some && form.method is Some && (form.secret is Some
            || (form.method != Some(0int) && form.method != Some(1int))),
{
}

/// Each answer is taken in for what was asked, and nothing that was answered before
/// is changed by it.
pub proof fn law_answers_are_kept(
    alias: Seq<char>,
    host: Seq<char>,
    port: u16,
    user: Seq<char>,
    method: int,
    secret: Seq<char>,
)
    ensures
        ({
            let text = |t: Seq<char>| AnswerView::Text(t);
            let f1 = blank_form().with(text(alias));
            let f2 = f1.with(text(host));
            let f3 = f2.with(AnswerView::Port(port));
            let f4 = f3.with(text(user));
            let f5 = f4.with(AnswerView::Choice(method));
            let f6 = f5.with(text(secret));
            &&& blank_form().stage() == Stage::Alias
            &&& f1.stage() == Stage::Host
            &&& f2.stage() == Stage::Port
            &&& f3.stage() == Stage::User
            &&& f4.stage() == Stage::Method
            &&& method == 0 ==> f5.stage() == Stage::Password && f6.server() == Some(
                ServerView { alias, host, port, user, auth: Some(AuthView::Password(secret)) },
            )
            &&& method == 1 ==> f5.stage() == Stage::Key && f6.server() == Some(
                ServerView { alias, host, port, user, auth: Some(AuthView::Key(secret)) },
            )
            &&& method != 0 && method != 1 ==> f5.stage() == Stage::Complete && f5.server() == Some(
                ServerView { alias, host, port, user, auth: None },
            )
        }),
{
}

/// An answer of another kind than was asked for, or one that nothing asked for,
/// changes nothing; and there is a server only once nothing more is asked.
pub proof fn law_other_answers_change_nothing(form: FormView, answer: AnswerView)
    ensures
        !(answer is Text) && (form.stage() == Stage::Alias || form.stage() == Stage::Host
            || form.stage() == Stage::User || form.stage() == Stage::Password || form.stage()
            == Stage::Key) ==> form.with(answer) == form,
        !(answer is Port) && form.stage() == Stage::Port ==> form.with(answer) == form,
        !(answer is Choice) && form.stage() == Stage::Method ==> form.with(answer) == form,
        form.stage() == Stage::Complete ==> form.with(answer) == form,
        form.server() is Some <==> form.stage() == Stage::Complete,
{
}

/// Questions and answers go by what they hold.
pub proof fn law_questions_and_answers_are_what_they_hold(q: Question, a: Answer)
    ensures
        match q {
            Question::Text { prompt, default } => q@ matches QuestionView::Text {
                prompt: p,
                default: d,
            } && p == prompt@ && (match default {
                Some(t) => d == Some(t@),
                None => d is None,
            }),
            Question::Port { prompt, port } => q@ == (QuestionView::Port { prompt: prompt@, port }),
            Question::Choice { prompt, items, chosen } => q@ matches QuestionView::Choice {
                prompt: p,
                items: v,
                chosen: c,
            } && p == prompt@ && c == chosen && v.len() == items@.len() && forall|i: int|
                0 <= i < items@.len() ==> #[trigger] v[i] == items@[i]@,
            Question::Secret { prompt } => q@ == (QuestionView::Secret { prompt: prompt@ }),
            Question::Nothing => q@ is Nothing,
        },
        match a {
            Answer::Text(t) => a@ == AnswerView::Text(t@),
            Answer::Port(p) => a@ == AnswerView::Port(p),
            Answer::Choice(c) => a@ == AnswerView::Choice(c as int),
        },
{
}

/// A form goes by the answers that it holds.
pub proof fn law_form_is_what_it_holds(form: ServerForm)
    ensures
        form@.port == form.port,
        match (form.alias, form.host, form.user, form.secret) {
            (Some(a), Some(h), Some(u), Some(s)) => form@.alias == Some(a@) && form@.host == Some(h@)
                && form@.user == Some(u@) && form@.secret == Some(s@),
            _ => true,
        },
        form.alias is None <==> form@.alias is None,
        form.host is None <==> form@.host is None,
        form.user is None <==> form@.user is None,
        form.secret is None <==> form@.secret is None,
        form.method is None <==> form@.method is None,
        form.method matches Some(m) ==> form@.method == Some(m as int),
{
}

/// A server that is edited is offered as it is, and none where there is none.
pub proof fn law_edited_server_is_the_one_given(old: Option<&Server>)
    ensures
        old is None <==> opt_server(old) is None,
        old matches Some(s) ==> opt_server(old) == Some(s@),
{
}

} // verus!
