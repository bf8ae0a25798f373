//! Saved servers, how they are shown, and where they are kept.

use vstd::prelude::*;
use vstd::string::*;
use vstd::utf8::{encode_utf8, is_ascii_chars_encode_utf8};

use crate::place::{
    law_byte_entries_on_unix, local, push_bytes, pushed_bytes, Local, Platform,
};
use crate::text::{blank, chars_of, decimal, decimal_string, is_blank, is_white};

verus! {

/// A saved server.
#[derive(Debug, Clone)]
pub struct Server {
    pub alias: String,
    pub host: String,
    pub port: u16,
    pub user: String,
    pub auth: Option<Auth>,
}

/// How to authenticate. A server without one is left to `ssh` itself.
#[derive(Debug, Clone)]
pub enum Auth {
    Password(String),
    /// The path of a key file.
    Key(String),
}

/// The contents of an `Auth`.
pub enum AuthView {
    Password(Seq<char>),
    Key(Seq<char>),
}

/// The contents of a `Server`.
pub struct ServerView {
    pub alias: Seq<char>,
    pub host: Seq<char>,
    pub port: u16,
    pub user: Seq<char>,
    pub auth: Option<AuthView>,
}

impl View for Server {
    type V = ServerView;

    open spec fn view(&self) -> ServerView {
        ServerView {
            alias: self.alias@,
            host: self.host@,
            port: self.port,
            user: self.user@,
            auth: match self.auth {
                Some(Auth::Password(p)) => Some(AuthView::Password(p@)),
                Some(Auth::Key(k)) => Some(AuthView::Key(k@)),
                None => None,
            },
        }
    }
}

/// What a list shows of the way to authenticate: never the password.
pub open spec fn auth_text(auth: Option<Auth>) -> Seq<char> {
    match auth {
        Some(Auth::Password(_)) => "password"@,
        Some(Auth::Key(path)) => path@,
        None => "none"@,
    }
}

impl Server {
    /// The name of the account as `ssh` takes it: user, at sign, host.
    pub open spec fn destination_text(&self) -> Seq<char> {
        self.user@ + "@"@ + self.host@
    }

    /// The server as it is shown: alias, address and way to authenticate.
    pub open spec fn shown(&self) -> Seq<char> {
        self.alias@ + " ("@ + self.destination_text() + ":"@ + decimal(self.port as nat)
            + ") [auth: "@ + auth_text(self.auth) + "]"@
    }

    /// Where `ssh` connects to.
    pub fn destination(&self) -> (r: String)
        ensures
            r@ == self.destination_text(),
    {
        let mut r = self.user.clone();
        r.append("@");
        r.append(self.host.as_str());
        r
    }

    /// One line for a person to recognise the server by.
    pub fn to_string(&self) -> (r: String)
        ensures
            r@ == self.shown(),
    {
        let mut r = self.alias.clone();
        r.append(" (");
        r.append(self.destination().as_str());
        r.append(":");
        r.append(decimal_string(self.port as u64).as_str());
        r.append(") [auth: ");
        match &self.auth {
            Some(Auth::Password(_)) => r.append("password"),
            Some(Auth::Key(path)) => r.append(path.as_str()),
            None => r.append("none"),
        }
        r.append("]");
        r
    }
}

/// The line that shows a server does not depend on its password.
pub proof fn law_shown_server_hides_password(a: Server, b: Server)
    requires
        a.alias@ == b.alias@,
        a.host@ == b.host@,
        a.port == b.port,
        a.user@ == b.user@,
        a.auth matches Some(Auth::Password(_)),
        b.auth matches Some(Auth::Password(_)),
    ensures
        a.shown() == b.shown(),
{
}

/// The variable that names another configuration directory.
pub const CONFIG_DIR_ENV: &'static str = "SGO_CONFIG_DIR";

/// The directory that holds the saved servers, in the encoding of the system: the
/// one that the variable names, unless it is unset or blank, else one in the home
/// directory. There is none where neither is known.
pub open spec fn config_dir_bytes(
    var: Option<Seq<char>>,
    home: Option<Seq<u8>>,
    platform: Platform,
) -> Option<Seq<u8>> {
    match (var, home) {
        (Some(v), _) if !is_blank(v) => Some(encode_utf8(v)),
        (_, Some(h)) => Some(pushed_bytes(platform, h, encode_utf8(".ssh-go"@))),
        _ => None,
    }
}

/// The file that holds the saved servers, in the encoding of the system.
pub open spec fn config_path_bytes(
    var: Option<Seq<char>>,
    home: Option<Seq<u8>>,
    platform: Platform,
) -> Option<Seq<u8>> {
    match config_dir_bytes(var, home, platform) {
        Some(d) => Some(pushed_bytes(platform, d, encode_utf8("servers.json"@))),
        None => None,
    }
}

/// The text behind an optional string slice.
pub open spec fn opt_str(s: Option<&str>) -> Option<Seq<char>> {
    match s {
        Some(t) => Some(t@),
        None => None,
    }
}

/// The text behind an optional string.
pub open spec fn opt_string(s: Option<String>) -> Option<Seq<char>> {
    match s {
        Some(t) => Some(t@),
        None => None,
    }
}

/// The bytes behind an optional vector.
pub open spec fn opt_bytes(v: Option<Vec<u8>>) -> Option<Seq<u8>> {
    match v {
        Some(b) => Some(b@),
        None => None,
    }
}

/// The configuration directory on `local`, given the value of the variable.
pub fn config_dir_on(local: &Local, var: Option<&str>) -> (r: Option<Vec<u8>>)
    ensures
        opt_bytes(r) == config_dir_bytes(opt_str(var), local.home_bytes(), local.platform),
{
    if let Some(v) = var {
        if !blank(v) {
            return Some(vstd::slice::slice_to_vec(v.as_bytes()));
        }
    }
    match &local.home {
        Some(h) => Some(push_bytes(local.platform, h.bytes.as_slice(), ".ssh-go".as_bytes())),
        None => None,
    }
}

/// The configuration file on `local`, given the value of the variable.
pub fn config_path_on(local: &Local, var: Option<&str>) -> (r: Option<Vec<u8>>)
    ensures
        opt_bytes(r) == config_path_bytes(opt_str(var), local.home_bytes(), local.platform),
{
    match config_dir_on(local, var) {
        Some(d) => Some(push_bytes(local.platform, d.as_slice(), "servers.json".as_bytes())),
        None => None,
    }
}

/// The configuration directory on the machine that the program runs on. A value
/// of the variable that is not blank settles it; otherwise it lies in the home
/// directory, which the machine decides.
pub fn config_dir(var: Option<&str>) -> (r: Option<Vec<u8>>)
    ensures
        exists|home: Option<Seq<u8>>, platform: Platform|
            opt_bytes(r) == #[trigger] config_dir_bytes(opt_str(var), home, platform),
        var matches Some(v) ==> (!is_blank(v@) ==> opt_bytes(r) == Some(encode_utf8(v@))),
{
    let here = local();
    let r = config_dir_on(&here, var);
    assert(opt_bytes(r) == config_dir_bytes(opt_str(var), here.home_bytes(), here.platform));
    r
}

/// The configuration file on the machine that the program runs on.
pub fn config_path(var: Option<&str>) -> (r: Option<Vec<u8>>)
    ensures
        exists|home: Option<Seq<u8>>, platform: Platform|
            opt_bytes(r) == #[trigger] config_path_bytes(opt_str(var), home, platform),
        var matches Some(v) ==> (!is_blank(v@) ==> r is Some),
{
    let here = local();
    let r = config_path_on(&here, var);
    assert(opt_bytes(r) == config_path_bytes(opt_str(var), here.home_bytes(), here.platform));
    r
}

/// A text without the byte order mark that it may start with.
pub open spec fn without_bom(s: Seq<char>) -> Seq<char> {
    if s.len() > 0 && s[0] == '\u{feff}' {
        s.skip(1)
    } else {
        s
    }
}

/// Drops one leading byte order mark.
pub fn strip_bom(data: &str) -> (r: &str)
    ensures
        r@ == without_bom(data@),
{
    let v: Vec<char> = chars_of(data);
    if v.len() > 0 && v[0] == '\u{feff}' {
        let r = data.substring_char(1, v.len());
        assert(r@ =~= data@.skip(1));
        r
    } else {
        data
    }
}

/// A server goes by what it holds: each field as it is, and the password or the path
/// of the key.
pub proof fn law_server_is_what_it_holds(server: Server)
    ensures
        server@.alias == server.alias@,
        server@.host == server.host@,
        server@.port == server.port,
        server@.user == server.user@,
        match server.auth {
            Some(Auth::Password(p)) => server@.auth == Some(AuthView::Password(p@)),
            Some(Auth::Key(k)) => server@.auth == Some(AuthView::Key(k@)),
            None => server@.auth is None,
        },
{
}

/// A server is shown by its alias, then user, host and port in brackets, then how it
/// authenticates: the word `password`, the path of the key, or the word `none`.
pub proof fn law_server_is_shown_in_full(server: Server)
    ensures
        ({
            let place = server.user@ + "@"@ + server.host@;
            let way = match server.auth {
                Some(Auth::Password(_)) => "password"@,
                Some(Auth::Key(path)) => path@,
                None => "none"@,
            };
            &&& server.destination_text() == place
            &&& server.shown() == server.alias@ + " ("@ + place + ":"@ + decimal(
                server.port as nat,
            ) + ") [auth: "@ + way + "]"@
        }),
{
}

/// A byte order mark in front of a text is dropped, once; any other text stays.
pub proof fn law_one_mark_is_dropped(text: Seq<char>)
    ensures
        without_bom(seq!['\u{feff}'] + text) == text,
        text.len() == 0 || text[0] as int != 0xfeff ==> without_bom(text) == text,
{
    assert((seq!['\u{feff}'] + text).skip(1) =~= text);
}

/// A value of the variable that holds anything but white space is the configuration
/// directory, as it is; any other value counts as none.
pub proof fn law_variable_names_the_directory(
    value: Seq<char>,
    home: Option<Seq<u8>>,
    platform: Platform,
)
    ensures
        (exists|i: int| 0 <= i < value.len() && !is_white(#[trigger] value[i]))
            ==> config_dir_bytes(Some(value), home, platform) == Some(encode_utf8(value)),
        (forall|i: int| 0 <= i < value.len() ==> is_white(#[trigger] value[i])) ==> {
            &&& config_dir_bytes(Some(value), home, platform) == config_dir_bytes(
                None,
                home,
                platform,
            )
            &&& config_path_bytes(Some(value), home, platform) == config_path_bytes(
                None,
                home,
                platform,
            )
        },
        config_dir_bytes(None, None, platform) is None,
        config_path_bytes(None, None, platform) is None,
{
}

/// On Unix, and without a variable, the servers are in `.ssh-go/servers.json` below
/// the home directory, whatever its bytes are.
pub proof fn law_servers_are_kept_below_home(home: Seq<u8>)
    requires
        home.len() > 0,
        home[home.len() - 1] != 47,
    ensures
        config_dir_bytes(None, Some(home), Platform::Unix) == Some(
            home + encode_utf8("/.ssh-go"@),
        ),
        config_path_bytes(None, Some(home), Platform::Unix) == Some(
            home + encode_utf8("/.ssh-go/servers.json"@),
        ),
{
    let a = ".ssh-go"@;
    let b = "servers.json"@;
    let sa = "/.ssh-go"@;
    let all = "/.ssh-go/servers.json"@;
    reveal_strlit(".ssh-go");
    reveal_strlit("servers.json");
    reveal_strlit("/.ssh-go");
    reveal_strlit("/.ssh-go/servers.json");
    is_ascii_chars_encode_utf8(a);
    is_ascii_chars_encode_utf8(b);
    is_ascii_chars_encode_utf8(sa);
    is_ascii_chars_encode_utf8(all);
    law_byte_entries_on_unix(home, encode_utf8(a));
    let dir = home + seq![47u8] + encode_utf8(a);
    assert(sa =~= seq!['/'] + a);
    assert(all =~= seq!['/'] + a + seq!['/'] + b);
    assert(encode_utf8(sa) =~= seq![47u8] + encode_utf8(a)) by {
        assert forall|i: int| 0 <= i < sa.len() implies #[trigger] encode_utf8(sa)[i] == (seq![47u8]
            + encode_utf8(a))[i] by {
            assert(sa[i] as u8 == encode_utf8(sa)[i]);
            if i > 0 {
                assert(sa[i] == a[i - 1]);
                assert(a[i - 1] as u8 == encode_utf8(a)[i - 1]);
            }
        }
    }
    assert(dir =~= home + encode_utf8(sa));
    assert(dir[dir.len() - 1] != 47) by {
        assert(a[6] == 'o');
        assert(a[6] as u8 == encode_utf8(a)[6]);
    }
    law_byte_entries_on_unix(dir, encode_utf8(b));
    assert(encode_utf8(all) =~= seq![47u8] + encode_utf8(a) + seq![47u8] + encode_utf8(b)) by {
        let parts = seq![47u8] + encode_utf8(a) + seq![47u8] + encode_utf8(b);
        assert forall|i: int| 0 <= i < all.len() implies #[trigger] encode_utf8(all)[i]
            == parts[i] by {
            assert(all[i] as u8 == encode_utf8(all)[i]);
            if 1 <= i < 8 {
                assert(all[i] == a[i - 1]);
                assert(a[i - 1] as u8 == encode_utf8(a)[i - 1]);
            } else if i > 8 {
                assert(all[i] == b[i - 9]);
                assert(b[i - 9] as u8 == encode_utf8(b)[i - 9]);
            }
        }
    }
    assert(dir + seq![47u8] + encode_utf8(b) =~= home + encode_utf8(all));
}

/// The file lies in the directory, under the same name, wherever that is: two
/// settings with one directory have one file.
pub proof fn law_file_lies_in_the_directory(
    a: Option<Seq<char>>,
    b: Option<Seq<char>>,
    home: Option<Seq<u8>>,
    other: Option<Seq<u8>>,
    platform: Platform,
)
    ensures
        config_dir_bytes(a, home, platform) == config_dir_bytes(b, other, platform)
            ==> config_path_bytes(a, home, platform) == config_path_bytes(b, other, platform),
        match config_dir_bytes(a, home, platform) {
            Some(dir) => config_path_bytes(a, home, platform) == Some(
                pushed_bytes(platform, dir, encode_utf8("servers.json"@)),
            ),
            None => config_path_bytes(a, home, platform) is None,
        },
{
}

/// Without a variable the directory is `.ssh-go` in the home directory, on every
/// platform.
pub proof fn law_directory_lies_in_home(home: Seq<u8>, platform: Platform)
    ensures
        config_dir_bytes(None, Some(home), platform) == Some(
            pushed_bytes(platform, home, encode_utf8(".ssh-go"@)),
        ),
{
}

/// A value that may be missing is there exactly where it is given, and is then what
/// was given.
pub proof fn law_optional_values_are_kept(
    a: Option<&str>,
    b: Option<String>,
    c: Option<Vec<u8>>,
)
    ensures
        a is None <==> opt_str(a) is None,
        b is None <==> opt_string(b) is None,
        c is None <==> opt_bytes(c) is None,
        a matches Some(t) ==> opt_str(a) == Some(t@),
        b matches Some(t) ==> opt_string(b) == Some(t@),
        c matches Some(v) ==> opt_bytes(c) == Some(v@),
{
}

} // verus!
