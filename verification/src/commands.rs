//! What the commands decide: which server is meant, what is asked of the user,
//! and what becomes of the saved servers.

use vstd::prelude::*;
use vstd::string::*;

use crate::config::{opt_string, Auth, Server};
use crate::matcher::{
    as_ints, law_strongest_tier_wins, match_positions, selected, server_matches, winning_tier,
};
use crate::text::{around, decimal, decimal_string};

verus! {

/// Which server a query means.
#[derive(Debug)]
pub enum Resolution {
    /// No server is saved.
    NoServers { message: String },
    /// No server matches.
    NoMatch { message: String },
    /// One server matches; it is saved at this position.
    One { index: usize },
    /// Several match, and the user is to choose among these lines.
    Many { note: String, positions: Vec<usize>, items: Vec<String> },
}

/// What is said where no server is saved.
pub open spec fn no_servers_text() -> Seq<char> {
    "No servers configured. Use `sgo add` to add one."@
}

/// What is said where no server matches.
pub open spec fn no_match_text(query: Seq<char>) -> Seq<char> {
    "No server matching \""@ + query + "\""@
}

/// What is said where several servers match.
pub open spec fn many_text(query: Seq<char>) -> Seq<char> {
    "Multiple servers match \""@ + query + "\":"@
}

/// Whether a resolution is the right one for the servers at some positions.
pub open spec fn resolves(
    r: Resolution,
    servers: Seq<Server>,
    at: Seq<int>,
    query: Seq<char>,
) -> bool {
    match r {
        Resolution::NoServers { .. } => false,
        Resolution::NoMatch { message } => at.len() == 0 && message@ == no_match_text(query),
        Resolution::One { index } => at == seq![index as int],
        Resolution::Many { note, positions, items } => {
            &&& at.len() > 1
            &&& note@ == many_text(query)
            &&& as_ints(positions@) == at
            &&& items@.len() == at.len()
            &&& forall|k: int| 0 <= k < at.len() ==> (#[trigger] items@[k])@ == servers[at[k]].shown()
        },
    }
}

/// Resolves a query that selects the servers at `positions`.
pub fn resolve_positions(servers: &[Server], positions: Vec<usize>, query: &str) -> (r: Resolution)
    requires
        forall|k: int| 0 <= k < positions@.len() ==> (#[trigger] positions@[k]) < servers@.len(),
    ensures
        resolves(r, servers@, as_ints(positions@), query@),
{
    if positions.len() == 0 {
        return Resolution::NoMatch { message: around("No server matching \"", query, "\"") };
    }
    if positions.len() == 1 {
        assert(as_ints(positions@) =~= seq![positions@[0] as int]);
        return Resolution::One { index: positions[0] };
    }
    let mut items: Vec<String> = Vec::new();
    let mut i: usize = 0;
    while i < positions.len()
        invariant
            i <= positions.len(),
            items@.len() == i,
            forall|k: int|
                0 <= k < positions@.len() ==> (#[trigger] positions@[k]) < servers@.len(),
            forall|k: int|
                0 <= k < i ==> (#[trigger] items@[k])@ == servers@[positions@[k] as int].shown(),
        decreases positions.len() - i,
    {
        items.push(servers[positions[i]].to_string());
        i = i + 1;
    }
    Resolution::Many { note: around("Multiple servers match \"", query, "\":"), positions, items }
}

/// Resolves a query to one of the saved servers, or to a choice among several.
pub fn resolve_single(servers: &[Server], query: &str) -> (r: Resolution)
    ensures
        resolves(r, servers@, selected(servers@, query@), query@),
{
    let positions = match_positions(servers, query);
    resolve_positions(servers, positions, query)
}

/// Resolves a query for a command that first looks whether there is any server
/// at all.
pub fn pick_server(servers: &[Server], query: &str) -> (r: Resolution)
    ensures
        servers@.len() == 0 ==> (r matches Resolution::NoServers { message } && message@
            == no_servers_text()),
        servers@.len() > 0 ==> resolves(r, servers@, selected(servers@, query@), query@),
{
    if servers.len() == 0 {
        return Resolution::NoServers {
            message: "No servers configured. Use `sgo add` to add one.".to_owned(),
        };
    }
    resolve_single(servers, query)
}

/// The position that a resolution leads to, given the line that the user chose
/// where there was a choice.
pub open spec fn outcome(r: Resolution, choice: int) -> Option<int> {
    match r {
        Resolution::One { index } => Some(index as int),
        Resolution::Many { positions, .. } if 0 <= choice < positions@.len() => Some(
            positions@[choice] as int,
        ),
        _ => None,
    }
}

/// The position that a resolution leads to, given what the user chose where
/// there was a choice: none where the choice was cancelled.
pub open spec fn answered(r: Resolution, choice: Option<int>) -> Option<int> {
    match (r, choice) {
        (_, Some(c)) => outcome(r, c),
        (Resolution::One { index }, None) => Some(index as int),
        _ => None,
    }
}

/// A choice as a mathematical number.
pub open spec fn as_choice(choice: Option<usize>) -> Option<int> {
    match choice {
        Some(c) => Some(c as int),
        None => None,
    }
}

impl Resolution {
    /// The position of the server that is meant, given the line that the user
    /// chose where there was a choice.
    pub fn settle(&self, choice: usize) -> (r: Option<usize>)
        ensures
            match r {
                Some(i) => outcome(*self, choice as int) == Some(i as int),
                None => outcome(*self, choice as int) is None,
            },
    {
        match self {
            Resolution::One { index } => Some(*index),
            Resolution::Many { positions, .. } => if choice < positions.len() {
                Some(positions[choice])
            } else {
                None
            },
            _ => None,
        }
    }

    /// The position of the server that is meant, given what the user chose where
    /// there was a choice: nothing where the choice was cancelled.
    pub fn settle_answer(&self, choice: Option<usize>) -> (r: Option<usize>)
        ensures
            match r {
                Some(i) => answered(*self, as_choice(choice)) == Some(i as int),
                None => answered(*self, as_choice(choice)) is None,
            },
            choice is None && self is Many ==> r is None,
    {
        match choice {
            Some(c) => self.settle(c),
            None => match self {
                Resolution::One { index } => Some(*index),
                _ => None,
            },
        }
    }
}

/// Whatever the user chooses, the server that a query leads to is a saved one
/// that matches in the strongest way in which any does.
pub proof fn law_settled_server_matches(
    r: Resolution,
    servers: Seq<Server>,
    query: Seq<char>,
    choice: int,
)
    requires
        resolves(r, servers, selected(servers, query), query),
    ensures
        outcome(r, choice) matches Some(i) ==> server_matches(
            servers,
            i,
            query,
            winning_tier(servers, query),
        ),
{
    law_strongest_tier_wins(servers, query);
    let at = selected(servers, query);
    if let Some(i) = outcome(r, choice) {
        match r {
            Resolution::One { index } => {
                assert(at[0] == i);
            },
            Resolution::Many { positions, .. } => {
                assert(as_ints(positions@)[choice] == i);
                assert(at[choice] == i);
            },
            _ => {},
        }
        assert(at.contains(i));
    }
}

/// Every server that a query selects can be settled on.
pub proof fn law_every_match_can_be_chosen(
    r: Resolution,
    servers: Seq<Server>,
    query: Seq<char>,
    i: int,
)
    requires
        resolves(r, servers, selected(servers, query), query),
        selected(servers, query).contains(i),
    ensures
        exists|choice: int| outcome(r, choice) == Some(i),
{
    let at = selected(servers, query);
    let k = choose|k: int| 0 <= k < at.len() && at[k] == i;
    match r {
        Resolution::Many { positions, .. } => {
            assert(as_ints(positions@)[k] == at[k]);
        },
        _ => {},
    }
    assert(outcome(r, k) == Some(i));
}

/// One line of the list of saved servers, in pieces.
#[derive(Debug)]
pub struct ListRow {
    /// The number of the server in brackets, counted from one.
    pub number: String,
    pub alias: String,
    /// User, host and port.
    pub address: String,
    pub auth: String,
}

/// Whether a row shows a server at a position.
pub open spec fn row_shows(row: ListRow, server: Server, i: int) -> bool {
    &&& row.number@ == "["@ + decimal((i + 1) as nat) + "]"@
    &&& row.alias@ == server.alias@
    &&& row.address@ == server.destination_text() + ":"@ + decimal(server.port as nat)
    &&& row.auth@ == (match server.auth {
        Some(Auth::Password(_)) => "password"@,
        Some(Auth::Key(path)) => "key: "@ + path@,
        None => "none"@,
    })
}

/// User, host and port of a server.
pub fn address(server: &Server) -> (r: String)
    ensures
        r@ == server.destination_text() + ":"@ + decimal(server.port as nat),
{
    let mut r = server.destination();
    r.append(":");
    r.append(decimal_string(server.port as u64).as_str());
    r
}

/// The list of saved servers, in the order in which they are saved.
pub fn list_rows(servers: &[Server]) -> (r: Vec<ListRow>)
    ensures
        r@.len() == servers@.len(),
        forall|i: int| 0 <= i < r@.len() ==> row_shows(#[trigger] r@[i], servers@[i], i),
{
    let mut r: Vec<ListRow> = Vec::new();
    let mut i: usize = 0;
    while i < servers.len()
        invariant
            i <= servers.len(),
            r@.len() == i,
            forall|k: int| 0 <= k < i ==> row_shows(#[trigger] r@[k], servers@[k], k),
        decreases servers.len() - i,
    {
        let s = &servers[i];
        let auth = match &s.auth {
            Some(Auth::Password(_)) => "password".to_owned(),
            Some(Auth::Key(path)) => {
                let mut t = "key: ".to_owned();
                t.append(path.as_str());
                t
            },
            None => "none".to_owned(),
        };
        let number = around("[", decimal_string(i as u64 + 1).as_str(), "]");
        r.push(ListRow { number, alias: s.alias.clone(), address: address(s), auth });
        i = i + 1;
    }
    r
}

/// What is said of the verbosity of a tunnel.
pub fn verbose_note(verbose: u8) -> (r: Option<String>)
    ensures
        opt_string(r) == (if verbose == 0 {
            None
        } else {
            Some("ssh verbose level = "@ + decimal(verbose as nat))
        }),
{
    if verbose == 0 {
        None
    } else {
        let mut r = "ssh verbose level = ".to_owned();
        r.append(decimal_string(verbose as u64).as_str());
        Some(r)
    }
}

/// Saves one more server behind the others.
pub fn add_server(servers: &mut Vec<Server>, server: Server)
    ensures
        final(servers)@ == old(servers)@.push(server),
{
    servers.push(server);
}

/// Puts a server in the place of the one at `index`; the others stay as they
/// are.
pub fn replace_server(servers: &mut Vec<Server>, index: usize, server: Server)
    requires
        index < old(servers)@.len(),
    ensures
        final(servers)@ == old(servers)@.update(index as int, server),
{
    servers[index] = server;
}

/// Removes the server at `index` if the user chose the first of yes and no; says
/// whether it did. The others stay as they are, in their order.
pub fn remove_server(servers: &mut Vec<Server>, index: usize, choice: usize) -> (r: bool)
    requires
        index < old(servers)@.len(),
    ensures
        r == (choice == 0),
        final(servers)@ == (if choice == 0 {
            old(servers)@.remove(index as int)
        } else {
            old(servers)@
        }),
{
    if choice == 0 {
        servers.remove(index);
        true
    } else {
        false
    }
}

/// What a query comes to is settled by the servers that it selects, and by what a
/// user is told and shown: with none of them there is no match, with one it is that
/// one, and with several the user chooses among all of them, in their order, each
/// shown in full.
pub proof fn law_resolution_follows_the_selection(
    r: Resolution,
    servers: Seq<Server>,
    at: Seq<int>,
    query: Seq<char>,
)
    requires
        resolves(r, servers, at, query),
    ensures
        !(r is NoServers),
        r is NoMatch <==> at.len() == 0,
        r is One <==> at.len() == 1,
        r is Many <==> at.len() >= 2,
        r matches Resolution::NoMatch { message } ==> message@ == "No server matching \""@ + query
            + "\""@,
        r matches Resolution::One { index } ==> index == at[0],
        r matches Resolution::Many { note, positions, items } ==> {
            &&& note@ == "Multiple servers match \""@ + query + "\":"@
            &&& positions@.len() == at.len() && items@.len() == at.len()
            &&& forall|k: int|
                0 <= k < at.len() ==> (#[trigger] positions@[k]) == at[k] && items@[k]@
                    == servers[at[k]].shown()
        },
        no_servers_text() == "No servers configured. Use `sgo add` to add one."@,
{
    if let Resolution::One { index } = r {
        assert(at.len() == 1 && at[0] == index);
    }
    if let Resolution::Many { note, positions, items } = r {
        assert(as_ints(positions@).len() == at.len());
        assert forall|k: int| 0 <= k < at.len() implies (#[trigger] positions@[k]) == at[k]
            && items@[k]@ == servers[at[k]].shown() by {
            assert(as_ints(positions@)[k] == positions@[k] as int);
            assert(items@[k]@ == servers[at[k]].shown());
        }
    }
}

/// The server that is settled on is the one selected where there is one, whatever is
/// chosen, and the chosen one where there are several; a choice that is cancelled, or
/// is none of those offered, settles nothing.
pub proof fn law_the_chosen_server_is_settled_on(
    r: Resolution,
    servers: Seq<Server>,
    at: Seq<int>,
    query: Seq<char>,
    choice: int,
)
    requires
        resolves(r, servers, at, query),
    ensures
        at.len() == 0 ==> outcome(r, choice) is None && answered(r, Some(choice)) is None
            && answered(r, None) is None,
        at.len() == 1 ==> outcome(r, choice) == Some(at[0]) && answered(r, Some(choice)) == Some(
            at[0],
        ) && answered(r, None) == Some(at[0]),
        at.len() > 1 ==> answered(r, None) is None,
        at.len() > 1 && 0 <= choice < at.len() ==> outcome(r, choice) == Some(at[choice])
            && answered(r, Some(choice)) == Some(at[choice]),
        at.len() > 1 && !(0 <= choice < at.len()) ==> outcome(r, choice) is None && answered(
            r,
            Some(choice),
        ) is None,
{
    law_resolution_follows_the_selection(r, servers, at, query);
}

/// A row of the list has the number of the server counted from one in square
/// brackets, its alias, user, host and port, and how it authenticates, without the
/// password.
pub proof fn law_row_shows_the_server(row: ListRow, server: Server, i: int)
    requires
        0 <= i,
        row_shows(row, server, i),
    ensures
        row.number@ == "["@ + decimal((i + 1) as nat) + "]"@,
        row.alias@ == server.alias@,
        row.address@ == server.user@ + "@"@ + server.host@ + ":"@ + decimal(server.port as nat),
        match server.auth {
            Some(Auth::Password(_)) => row.auth@ == "password"@,
            Some(Auth::Key(path)) => row.auth@ == "key: "@ + path@,
            None => row.auth@ == "none"@,
        },
{
}

/// A choice is the number that was chosen, and none where none was.
pub proof fn law_choice_is_the_number(choice: Option<usize>)
    ensures
        choice is None <==> as_choice(choice) is None,
        choice matches Some(c) ==> as_choice(choice) == Some(c as int),
{
}

} // verus!
