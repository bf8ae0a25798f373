//! Quoting words for a shell, and how a POSIX shell reads them back.

use vstd::prelude::*;
use vstd::string::*;

use crate::place::{platform, Platform};
use crate::text::{chars_of, join, join_with, texts};

verus! {

/// The characters that a word may hold without being quoted.
pub open spec fn is_plain(c: char) -> bool {
    ||| 'a' <= c && c <= 'z'
    ||| 'A' <= c && c <= 'Z'
    ||| '0' <= c && c <= '9'
    ||| c == '-'
    ||| c == '_'
    ||| c == '.'
    ||| c == '/'
    ||| c == ':'
    ||| c == '@'
    ||| c == '='
    ||| c == '+'
    ||| c == ','
    ||| c == '%'
}

/// Whether a word needs no quotes on a platform.
pub open spec fn is_safe(platform: Platform, s: Seq<char>) -> bool {
    s.len() > 0 && forall|i: int|
        0 <= i < s.len() ==> is_plain(#[trigger] s[i]) || (platform is Windows && s[i] == '\\')
}

/// A text with every single quote replaced.
pub open spec fn quotes_replaced(s: Seq<char>, with: Seq<char>) -> Seq<char>
    decreases s.len(),
{
    if s.len() == 0 {
        Seq::empty()
    } else if s.last() == '\'' {
        quotes_replaced(s.drop_last(), with) + with
    } else {
        quotes_replaced(s.drop_last(), with).push(s.last())
    }
}

/// What stands for a single quote inside single quotes: on Unix the quotes are
/// closed, an escaped quote follows and they are opened again; on Windows the
/// quote is doubled.
pub open spec fn inner_quote(platform: Platform) -> Seq<char> {
    match platform {
        Platform::Unix => seq!['\'', '\\', '\'', '\''],
        Platform::Windows => seq!['\'', '\''],
    }
}

/// A word as it is written for the shell of a platform: as it is where that is
/// safe, else in single quotes.
pub open spec fn escaped(platform: Platform, s: Seq<char>) -> Seq<char> {
    if is_safe(platform, s) {
        s
    } else {
        seq!['\''] + quotes_replaced(s, inner_quote(platform)) + seq!['\'']
    }
}

fn plain(c: char) -> (r: bool)
    ensures
        r == is_plain(c),
{
    ('a' <= c && c <= 'z') || ('A' <= c && c <= 'Z') || ('0' <= c && c <= '9') || c == '-' || c
        == '_' || c == '.' || c == '/' || c == ':' || c == '@' || c == '=' || c == '+' || c == ','
        || c == '%'
}

/// Whether a word needs no quotes on a platform.
pub fn is_shell_safe(platform: Platform, s: &str) -> (r: bool)
    ensures
        r == is_safe(platform, s@),
{
    let v: Vec<char> = chars_of(s);
    let windows = platform == Platform::Windows;
    let mut i: usize = 0;
    while i < v.len()
        invariant
            i <= v.len(),
            v@ == s@,
            windows == (platform is Windows),
            forall|k: int|
                0 <= k < i ==> is_plain(#[trigger] v@[k]) || (platform is Windows && v@[k] == '\\'),
        decreases v.len() - i,
    {
        if !(plain(v[i]) || (windows && v[i] == '\\')) {
            assert(!(is_plain(s@[i as int]) || (platform is Windows && s@[i as int] == '\\')));
            return false;
        }
        i = i + 1;
    }
    v.len() > 0
}

/// Writes a word for the shell of a platform.
pub fn shell_escape_on(platform: Platform, s: &str) -> (r: String)
    ensures
        r@ == escaped(platform, s@),
{
    if is_shell_safe(platform, s) {
        return s.to_owned();
    }
    let v: Vec<char> = chars_of(s);
    let windows = platform == Platform::Windows;
    let mut r = String::new();
    r.push('\'');
    let ghost with = inner_quote(platform);
    let mut i: usize = 0;
    assert(r@ =~= seq!['\''] + quotes_replaced(v@.take(0), with));
    while i < v.len()
        invariant
            i <= v.len(),
            v@ == s@,
            windows == (platform is Windows),
            with == inner_quote(platform),
            r@ == seq!['\''] + quotes_replaced(v@.take(i as int), with),
        decreases v.len() - i,
    {
        assert(v@.take(i + 1).drop_last() =~= v@.take(i as int));
        if v[i] == '\'' {
            r.push('\'');
            if !windows {
                r.push('\\');
                r.push('\'');
            }
            r.push('\'');
        } else {
            r.push(v[i]);
        }
        assert(r@ =~= seq!['\''] + quotes_replaced(v@.take(i + 1), with));
        i = i + 1;
    }
    assert(v@.take(v@.len() as int) =~= s@);
    r.push('\'');
    assert(r@ =~= escaped(platform, s@));
    r
}

/// Writes a word for the shell of the machine that the program runs on.
pub fn shell_escape(s: &str) -> (r: String)
    ensures
        exists|platform: Platform| r@ == #[trigger] escaped(platform, s@),
        is_safe(Platform::Unix, s@) ==> r@ == s@,
{
    let p = platform();
    let r = shell_escape_on(p, s);
    assert(r@ == escaped(p, s@));
    r
}

/// Quotes one argument for the remote shell. Always POSIX: the shell on the far
/// end is the server's, whatever the client happens to run.
pub fn posix_quote(s: &str) -> (r: String)
    ensures
        r@ == escaped(Platform::Unix, s@),
{
    shell_escape_on(Platform::Unix, s)
}

/// Each of several words written for the shell of a platform.
pub open spec fn each_escaped(platform: Platform, parts: Seq<Seq<char>>) -> Seq<Seq<char>> {
    Seq::new(parts.len(), |i: int| escaped(platform, parts[i]))
}

/// Writes several words for the shell of a platform, with spaces between them.
pub fn escape_all(platform: Platform, parts: &[String]) -> (r: String)
    ensures
        r@ == join_with(each_escaped(platform, texts(parts@)), " "@),
{
    let mut quoted: Vec<String> = Vec::new();
    let mut i: usize = 0;
    while i < parts.len()
        invariant
            i <= parts.len(),
            quoted@.len() == i,
            forall|k: int| 0 <= k < i ==> (#[trigger] quoted@[k])@ == escaped(platform, parts@[k]@),
        decreases parts.len() - i,
    {
        quoted.push(shell_escape_on(platform, parts[i].as_str()));
        i = i + 1;
    }
    assert(texts(quoted@) =~= each_escaped(platform, texts(parts@)));
    join(quoted.as_slice(), " ")
}

/// The command line that the remote shell is given.
pub open spec fn remote_command(parts: Seq<Seq<char>>) -> Seq<char> {
    if parts.len() == 1 {
        parts[0]
    } else {
        join_with(each_escaped(Platform::Unix, parts), " "@)
    }
}

/// Builds the command line for the remote shell. One part is passed through
/// verbatim, so that pipes, redirects and globs are the remote shell's to
/// interpret; several parts are quoted one by one, so that the remote command
/// receives exactly those.
pub fn build_remote_command(parts: &[String]) -> (r: String)
    ensures
        r@ == remote_command(texts(parts@)),
{
    if parts.len() == 1 {
        parts[0].clone()
    } else {
        escape_all(Platform::Unix, parts)
    }
}

/// Where a POSIX shell is inside the word that it reads.
pub enum Quoting {
    /// Outside quotes.
    Open,
    /// Between single quotes.
    Single,
    /// Just behind a backslash.
    Backslash,
}

/// A POSIX shell in the middle of a line.
#[verifier::ext_equal]
pub struct Reading {
    /// The words read to their end.
    pub words: Seq<Seq<char>>,
    /// The word being read.
    pub word: Option<Seq<char>>,
    pub quoting: Quoting,
    /// Whether the line held only plain words so far: nothing that the shell
    /// would expand, run or redirect.
    pub literal: bool,
    /// Whether no character of the first word was quoted so far.
    pub bare: bool,
}

/// A POSIX shell before the first character of a line.
pub open spec fn fresh() -> Reading {
    Reading { words: Seq::empty(), word: None, quoting: Quoting::Open, literal: true, bare: true }
}

/// The word being read with one more character.
pub open spec fn grown(word: Option<Seq<char>>, c: char) -> Option<Seq<char>> {
    match word {
        Some(w) => Some(w.push(c)),
        None => Some(seq![c]),
    }
}

/// The word being read, begun where it was not.
pub open spec fn begun(word: Option<Seq<char>>) -> Option<Seq<char>> {
    match word {
        Some(w) => Some(w),
        None => Some(Seq::empty()),
    }
}

/// The characters that are more than themselves to a POSIX shell where they stand
/// outside quotes: those that separate words or commands, that redirect or group,
/// that begin an expansion, a pattern, a comment or a home directory, and the
/// marks of lists and of history that common shells add.
pub open spec fn is_special(c: char) -> bool {
    ||| c == ' '
    ||| c == '\t'
    ||| c == '\n'
    ||| c == '|'
    ||| c == '&'
    ||| c == ';'
    ||| c == '<'
    ||| c == '>'
    ||| c == '('
    ||| c == ')'
    ||| c == '$'
    ||| c == '`'
    ||| c == '\\'
    ||| c == '"'
    ||| c == '\''
    ||| c == '*'
    ||| c == '?'
    ||| c == '['
    ||| c == ']'
    ||| c == '#'
    ||| c == '~'
    ||| c == '{'
    ||| c == '}'
    ||| c == '^'
    ||| c == '!'
}

/// One character read by a POSIX shell.
pub open spec fn read_char(r: Reading, c: char) -> Reading {
    match r.quoting {
        Quoting::Single => if c == '\'' {
            Reading { quoting: Quoting::Open, ..r }
        } else {
            Reading { word: grown(r.word, c), ..r }
        },
        Quoting::Backslash => Reading {
            word: grown(r.word, c),
            quoting: Quoting::Open,
            literal: r.literal && c != '\n',
            ..r
        },
        Quoting::Open => if c == ' ' {
            match r.word {
                Some(w) => Reading { words: r.words.push(w), word: None, ..r },
                None => r,
            }
        } else if c == '\'' {
            Reading {
                word: begun(r.word),
                quoting: Quoting::Single,
                bare: r.bare && r.words.len() > 0,
                ..r
            }
        } else if c == '\\' {
            Reading {
                word: begun(r.word),
                quoting: Quoting::Backslash,
                bare: r.bare && r.words.len() > 0,
                ..r
            }
        } else {
            Reading { word: grown(r.word, c), literal: r.literal && !is_special(c), ..r }
        },
    }
}

/// A stretch of a line read by a POSIX shell.
pub open spec fn read(r: Reading, s: Seq<char>) -> Reading
    decreases s.len(),
{
    if s.len() == 0 {
        r
    } else {
        read_char(read(r, s.drop_last()), s.last())
    }
}

/// The words that a POSIX shell reads in a line, where it reads nothing but
/// words: `None` where a quote is left open, or where a character outside
/// quotes would be more than itself. What the shell then does with the words is
/// another matter: see `shell_command`.
pub open spec fn shell_words(line: Seq<char>) -> Option<Seq<Seq<char>>> {
    let r = read(fresh(), line);
    if r.literal && r.quoting is Open {
        match r.word {
            Some(w) => Some(r.words.push(w)),
            None => Some(r.words),
        }
    } else {
        None
    }
}

/// Whether a text is a name as variables have it.
pub open spec fn is_name(s: Seq<char>) -> bool {
    &&& s.len() > 0
    &&& !('0' <= s[0] && s[0] <= '9')
    &&& forall|i: int|
        0 <= i < s.len() ==> {
            let c = #[trigger] s[i];
            ||| 'a' <= c && c <= 'z'
            ||| 'A' <= c && c <= 'Z'
            ||| '0' <= c && c <= '9'
            ||| c == '_'
        }
}

/// Whether a POSIX shell takes an unquoted word in front of a command for an
/// assignment: a name, an equals sign and a value.
pub open spec fn is_assignment(s: Seq<char>) -> bool {
    exists|k: int| 0 <= k < s.len() && #[trigger] s[k] == '=' && is_name(s.take(k))
}

/// The words of POSIX that are part of the shell's grammar where they stand
/// unquoted in front of a command.
pub open spec fn is_reserved(s: Seq<char>) -> bool {
    ||| s == "!"@
    ||| s == "{"@
    ||| s == "}"@
    ||| s == "case"@
    ||| s == "do"@
    ||| s == "done"@
    ||| s == "elif"@
    ||| s == "else"@
    ||| s == "esac"@
    ||| s == "fi"@
    ||| s == "for"@
    ||| s == "if"@
    ||| s == "in"@
    ||| s == "then"@
    ||| s == "until"@
    ||| s == "while"@
}

/// The name and the arguments of the command that a POSIX shell runs for a
/// line, where the line is one command of plain words: `None` where it is not,
/// or where its first word is an assignment or a part of the grammar.
pub open spec fn shell_command(line: Seq<char>) -> Option<Seq<Seq<char>>> {
    match shell_words(line) {
        Some(words) => if words.len() > 0 && read(fresh(), line).bare && (is_assignment(words[0])
            || is_reserved(words[0])) {
            None
        } else {
            Some(words)
        },
        None => None,
    }
}

/// Whether a word, escaped for a POSIX shell and put in front, is the name of
/// the command: it is quoted, or neither an assignment nor a part of the
/// grammar.
pub open spec fn is_command_name(s: Seq<char>) -> bool {
    is_safe(Platform::Unix, s) ==> !is_assignment(s) && !is_reserved(s)
}

pub(crate) proof fn lemma_read_concat(r: Reading, a: Seq<char>, b: Seq<char>)
    ensures
        read(r, a + b) == read(read(r, a), b),
    decreases b.len(),
{
    if b.len() == 0 {
        assert(a + b =~= a);
    } else {
        assert((a + b).drop_last() =~= a + b.drop_last());
        lemma_read_concat(r, a, b.drop_last());
    }
}

pub(crate) proof fn lemma_read_one(r: Reading, c: char)
    ensures
        read(r, seq![c]) == read_char(r, c),
{
    assert(seq![c].drop_last() =~= Seq::<char>::empty());
    assert(read(r, seq![c].drop_last()) == r);
}

proof fn lemma_read_plain(words: Seq<Seq<char>>, bare: bool, s: Seq<char>)
    requires
        forall|i: int| 0 <= i < s.len() ==> is_plain(#[trigger] s[i]),
    ensures
        read(Reading { words, word: None, quoting: Quoting::Open, literal: true, bare }, s) == (Reading {
            words,
            word: if s.len() == 0 {
                None
            } else {
                Some(s)
            },
            quoting: Quoting::Open,
            literal: true,
            bare,
        }),
    decreases s.len(),
{
    if s.len() > 0 {
        lemma_read_plain(words, bare, s.drop_last());
        assert(is_plain(s.last()));
        assert(s.drop_last().push(s.last()) =~= s);
        assert(seq![s.last()] =~= s.drop_last().push(s.last()) || s.len() > 1);
    }
}

proof fn lemma_read_quoted(words: Seq<Seq<char>>, bare: bool, s: Seq<char>)
    requires
        bare ==> words.len() > 0,
    ensures
        read(
            Reading {
                words,
                word: Some(Seq::empty()),
                quoting: Quoting::Single,
                literal: true,
                bare,
            },
            quotes_replaced(s, inner_quote(Platform::Unix)),
        ) == (Reading { words, word: Some(s), quoting: Quoting::Single, literal: true, bare }),
    decreases s.len(),
{
    let start = Reading {
        words,
        word: Some(Seq::empty()),
        quoting: Quoting::Single,
        literal: true,
        bare,
    };
    let with = inner_quote(Platform::Unix);
    if s.len() == 0 {
        assert(s =~= Seq::<char>::empty());
    } else {
        let front = s.drop_last();
        lemma_read_quoted(words, bare, front);
        let r0 = read(start, quotes_replaced(front, with));
        assert(front.push(s.last()) =~= s);
        if s.last() == '\'' {
            lemma_read_concat(start, quotes_replaced(front, with), with);
            let r1 = read_char(r0, '\'');
            let r2 = read_char(r1, '\\');
            let r3 = read_char(r2, '\'');
            let r4 = read_char(r3, '\'');
            assert(with.drop_last() =~= seq!['\'', '\\', '\'']);
            assert(with.drop_last().drop_last() =~= seq!['\'', '\\']);
            assert(with.drop_last().drop_last().drop_last() =~= seq!['\'']);
            lemma_read_one(r0, '\'');
            assert(read(r0, seq!['\'', '\\']) == r2);
            assert(read(r0, seq!['\'', '\\', '\'']) == r3);
            assert(read(r0, with) == r4);
        } else {
            assert(quotes_replaced(s, with).drop_last() =~= quotes_replaced(front, with));
        }
    }
}

/// A shell that is between two words reads an escaped word as that word.
pub(crate) proof fn lemma_read_escaped(words: Seq<Seq<char>>, bare: bool, s: Seq<char>)
    ensures
        read(
            Reading { words, word: None, quoting: Quoting::Open, literal: true, bare },
            escaped(Platform::Unix, s),
        ) == (Reading {
            words,
            word: Some(s),
            quoting: Quoting::Open,
            literal: true,
            bare: bare && (words.len() > 0 || is_safe(Platform::Unix, s)),
        }),
{
    let start = Reading { words, word: None, quoting: Quoting::Open, literal: true, bare };
    if is_safe(Platform::Unix, s) {
        lemma_read_plain(words, bare, s);
    } else {
        let body = quotes_replaced(s, inner_quote(Platform::Unix));
        lemma_read_concat(start, seq!['\''] + body, seq!['\'']);
        lemma_read_concat(start, seq!['\''], body);
        lemma_read_one(start, '\'');
        lemma_read_quoted(words, bare && words.len() > 0, s);
        lemma_read_one(read(start, seq!['\''] + body), '\'');
    }
}

proof fn lemma_read_escaped_list(parts: Seq<Seq<char>>)
    requires
        parts.len() > 0,
    ensures
        read(fresh(), join_with(each_escaped(Platform::Unix, parts), " "@)) == (Reading {
            words: parts.drop_last(),
            word: Some(parts.last()),
            quoting: Quoting::Open,
            literal: true,
            bare: is_safe(Platform::Unix, parts[0]),
        }),
    decreases parts.len(),
{
    reveal_strlit(" ");
    let quoted = each_escaped(Platform::Unix, parts);
    let last = escaped(Platform::Unix, parts.last());
    if parts.len() == 1 {
        lemma_read_escaped(Seq::empty(), true, parts[0]);
        assert(parts.drop_last() =~= Seq::<Seq<char>>::empty());
    } else {
        let front = parts.drop_last();
        lemma_read_escaped_list(front);
        assert(quoted.drop_last() =~= each_escaped(Platform::Unix, front));
        let head = join_with(quoted.drop_last(), " "@);
        assert(" "@ =~= seq![' ']);
        lemma_read_concat(fresh(), head + " "@, last);
        lemma_read_concat(fresh(), head, " "@);
        lemma_read_one(read(fresh(), head), ' ');
        assert(front.drop_last().push(front.last()) =~= front);
        lemma_read_escaped(front, is_safe(Platform::Unix, parts[0]), parts.last());
    }
}

/// Words that are escaped for a POSIX shell and put on one line are read by it
/// as exactly those words: none is split, expanded or dropped.
pub proof fn law_escaped_words_read_back(parts: Seq<Seq<char>>)
    ensures
        shell_words(join_with(each_escaped(Platform::Unix, parts), " "@)) == Some(parts),
{
    if parts.len() == 0 {
        assert(parts =~= Seq::<Seq<char>>::empty());
    } else {
        lemma_read_escaped_list(parts);
        assert(parts.drop_last().push(parts.last()) =~= parts);
    }
}

/// Words that are escaped for a POSIX shell and put on one line make it run the
/// first with the others as its arguments. Left out are first words that need no
/// quotes and are an assignment or a part of the shell's grammar.
pub proof fn law_escaped_words_are_a_command(parts: Seq<Seq<char>>)
    requires
        parts.len() > 0 ==> is_command_name(parts[0]),
    ensures
        shell_command(join_with(each_escaped(Platform::Unix, parts), " "@)) == Some(parts),
{
    law_escaped_words_read_back(parts);
    if parts.len() > 0 {
        lemma_read_escaped_list(parts);
    }
}

/// `ssh` is the name of a command.
pub(crate) proof fn lemma_ssh_is_a_command()
    ensures
        is_command_name("ssh"@),
        is_safe(Platform::Unix, "ssh"@),
{
    reveal_strlit("ssh");
    reveal_strlit("!");
    reveal_strlit("{");
    reveal_strlit("}");
    reveal_strlit("case");
    reveal_strlit("do");
    reveal_strlit("done");
    reveal_strlit("elif");
    reveal_strlit("else");
    reveal_strlit("esac");
    reveal_strlit("fi");
    reveal_strlit("for");
    reveal_strlit("if");
    reveal_strlit("in");
    reveal_strlit("then");
    reveal_strlit("until");
    reveal_strlit("while");
    let s = "ssh"@;
    assert(s[0] == 's' && s.len() == 3);
    assert("for"@[0] == 'f');
    assert forall|k: int| 0 <= k < s.len() implies #[trigger] s[k] != '=' by {
        assert(k == 0 || k == 1 || k == 2);
    }
    assert(is_plain(s[0]) && is_plain(s[1]) && is_plain(s[2]));
}

/// A word that is escaped for a POSIX shell is read by it as that one word.
pub proof fn law_escaped_word_reads_back(s: Seq<char>)
    ensures
        shell_words(escaped(Platform::Unix, s)) == Some(seq![s]),
{
    lemma_read_escaped(Seq::empty(), true, s);
    assert(Seq::<Seq<char>>::empty().push(s) =~= seq![s]);
}

/// The remote shell reads several command parts as exactly those words, and runs
/// the first with the others as its arguments. It does not run a first part that
/// needs no quotes and is an assignment or a part of its grammar.
pub proof fn law_several_parts_arrive_unchanged(parts: Seq<Seq<char>>)
    requires
        parts.len() != 1,
    ensures
        shell_words(remote_command(parts)) == Some(parts),
        (parts.len() > 0 ==> is_command_name(parts[0])) ==> shell_command(remote_command(parts))
            == Some(parts),
{
    law_escaped_words_read_back(parts);
    if parts.len() > 0 ==> is_command_name(parts[0]) {
        law_escaped_words_are_a_command(parts);
    }
}

/// A single command part is the remote command line, whatever it holds.
pub proof fn law_single_part_is_verbatim(part: Seq<char>)
    ensures
        remote_command(seq![part]) == part,
{
}

/// A word with a character in it that is more than itself to a shell never goes
/// unquoted: what is written for it starts and ends with a single quote, on Unix
/// and on Windows alike.
pub proof fn law_special_words_are_quoted(platform: Platform, s: Seq<char>, i: int)
    requires
        0 <= i < s.len(),
        ({
            let c = s[i];
            ||| c == ' ' || c == '\t' || c == '\n' || c == '\r'
            ||| c == '|' || c == '&' || c == ';' || c == '<' || c == '>' || c == '(' || c == ')'
            ||| c == '$' || c == '`' || c == '"' || c == '\'' || c == '*' || c == '?' || c == '['
            ||| c == ']' || c == '#' || c == '~' || c == '{' || c == '}' || c == '!' || c == '^'
            ||| platform == Platform::Unix && c == '\\'
            ||| c as int >= 127 || (c as int) < 32
        }),
    ensures
        escaped(platform, s).len() >= 2,
        escaped(platform, s)[0] == '\'',
        escaped(platform, s)[escaped(platform, s).len() - 1] == '\'',
{
    assert(!(is_plain(s[i]) || (platform is Windows && s[i] == '\\')));
}

/// An empty word is written as two quotes.
pub proof fn law_empty_word_is_quoted(platform: Platform)
    ensures
        escaped(platform, Seq::empty()) == seq!['\'', '\''],
{
    let e = Seq::<char>::empty();
    assert(quotes_replaced(e, inner_quote(platform)) =~= e);
    assert(escaped(platform, e) =~= seq!['\'', '\'']);
}

/// A word of letters, digits and the ten marks that are nothing but themselves to
/// a shell is written as it is.
pub proof fn law_plain_words_stay(platform: Platform, s: Seq<char>)
    requires
        s.len() > 0,
        forall|i: int|
            0 <= i < s.len() ==> {
                let n = #[trigger] s[i] as int;
                // letters and digits
                ||| 97 <= n <= 122 || 65 <= n <= 90 || 48 <= n <= 57
                // percent, plus, comma, minus, dot, slash
                ||| n == 37 || 43 <= n <= 47
                // colon, equals, at, underscore
                ||| n == 58 || n == 61 || n == 64 || n == 95
            },
    ensures
        escaped(platform, s) == s,
{
    assert forall|i: int| 0 <= i < s.len() implies is_plain(#[trigger] s[i]) by {
        let n = s[i] as int;
    }
}

proof fn lemma_nothing_replaced(s: Seq<char>, with: Seq<char>)
    requires
        forall|i: int| 0 <= i < s.len() ==> #[trigger] s[i] != '\'',
    ensures
        quotes_replaced(s, with) == s,
    decreases s.len(),
{
    if s.len() > 0 {
        assert(s[s.len() - 1] == s.last());
        assert forall|i: int| 0 <= i < s.drop_last().len() implies #[trigger] s.drop_last()[i]
            != '\'' by {
            assert(s[i] != '\'');
        }
        lemma_nothing_replaced(s.drop_last(), with);
        assert(s.drop_last().push(s.last()) =~= s);
    } else {
        assert(quotes_replaced(s, with) =~= s);
    }
}

proof fn lemma_replaced_concat(a: Seq<char>, b: Seq<char>, with: Seq<char>)
    ensures
        quotes_replaced(a + b, with) == quotes_replaced(a, with) + quotes_replaced(b, with),
    decreases b.len(),
{
    if b.len() == 0 {
        assert(a + b =~= a);
        assert(quotes_replaced(a, with) + quotes_replaced(b, with) =~= quotes_replaced(a, with));
    } else {
        assert((a + b).drop_last() =~= a + b.drop_last());
        assert((a + b).last() == b.last());
        lemma_replaced_concat(a, b.drop_last(), with);
        assert(quotes_replaced(a + b, with) =~= quotes_replaced(a, with) + quotes_replaced(b, with));
    }
}

/// A word that needs quotes and holds none is written between two quotes as it
/// is.
pub proof fn law_quoted_word_is_kept(platform: Platform, s: Seq<char>)
    requires
        escaped(platform, s) != s,
        forall|i: int| 0 <= i < s.len() ==> #[trigger] s[i] != '\'',
    ensures
        escaped(platform, s) == seq!['\''] + s + seq!['\''],
{
    lemma_nothing_replaced(s, inner_quote(platform));
}

/// A single quote between two texts without one is written as four characters on
/// Unix and as two on Windows, between the texts as they are.
pub proof fn law_quote_is_written_between(a: Seq<char>, b: Seq<char>)
    requires
        forall|i: int| 0 <= i < a.len() ==> #[trigger] a[i] != '\'',
        forall|i: int| 0 <= i < b.len() ==> #[trigger] b[i] != '\'',
    ensures
        ({
            let q = seq!['\''];
            &&& escaped(Platform::Unix, a + q + b) == q + a + seq!['\'', '\\', '\'', '\''] + b + q
            &&& escaped(Platform::Windows, a + q + b) == q + a + seq!['\'', '\''] + b + q
        }),
{
    let q = seq!['\''];
    let word = a + q + b;
    assert(word[a.len() as int] == '\'');
    assert(q.drop_last() =~= Seq::<char>::empty());
    let unix = inner_quote(Platform::Unix);
    let windows = inner_quote(Platform::Windows);
    lemma_one_quote_replaced(a, b, unix);
    lemma_one_quote_replaced(a, b, windows);
    assert(escaped(Platform::Unix, word) =~= q + a + unix + b + q);
    assert(escaped(Platform::Windows, word) =~= q + a + windows + b + q);
}

proof fn lemma_one_quote_replaced(a: Seq<char>, b: Seq<char>, with: Seq<char>)
    requires
        forall|i: int| 0 <= i < a.len() ==> #[trigger] a[i] != '\'',
        forall|i: int| 0 <= i < b.len() ==> #[trigger] b[i] != '\'',
    ensures
        quotes_replaced(a + seq!['\''] + b, with) == a + with + b,
{
    let q = seq!['\''];
    lemma_nothing_replaced(a, with);
    lemma_nothing_replaced(b, with);
    lemma_replaced_concat(a + q, b, with);
    lemma_replaced_concat(a, q, with);
    assert(q.drop_last() =~= Seq::<char>::empty());
    assert(quotes_replaced(q.drop_last(), with) =~= Seq::<char>::empty());
    assert(quotes_replaced(q, with) =~= with);
}

/// The word that a Windows shell reads between single quotes, in which two quotes
/// stand for one: `None` where a single one is left over.
pub open spec fn undoubled(s: Seq<char>) -> Option<Seq<char>>
    decreases s.len(),
{
    if s.len() == 0 {
        Some(Seq::empty())
    } else if s[0] != '\'' {
        match undoubled(s.skip(1)) {
            Some(t) => Some(seq![s[0]] + t),
            None => None,
        }
    } else if s.len() >= 2 && s[1] == '\'' {
        match undoubled(s.skip(2)) {
            Some(t) => Some(seq!['\''] + t),
            None => None,
        }
    } else {
        None
    }
}

proof fn lemma_undoubled_front(c: char, t: Seq<char>)
    ensures
        undoubled(quotes_replaced(seq![c] + t, seq!['\'', '\''])) == (match undoubled(
            quotes_replaced(t, seq!['\'', '\'']),
        ) {
            Some(w) => Some(seq![c] + w),
            None => None,
        }),
{
    let with = seq!['\'', '\''];
    let one = seq![c];
    lemma_replaced_concat(one, t, with);
    assert(one.drop_last() =~= Seq::<char>::empty());
    assert(quotes_replaced(one.drop_last(), with) =~= Seq::<char>::empty());
    let rest = quotes_replaced(t, with);
    if c == '\'' {
        assert(quotes_replaced(one, with) =~= with);
        assert((with + rest).skip(2) =~= rest);
    } else {
        assert(quotes_replaced(one, with) =~= one);
        assert((one + rest).skip(1) =~= rest);
    }
}

proof fn lemma_undoubled_back(s: Seq<char>)
    ensures
        undoubled(quotes_replaced(s, seq!['\'', '\''])) == Some(s),
    decreases s.len(),
{
    if s.len() == 0 {
        assert(s =~= Seq::<char>::empty());
    } else {
        lemma_undoubled_back(s.skip(1));
        lemma_undoubled_front(s[0], s.skip(1));
        assert(seq![s[0]] + s.skip(1) =~= s);
    }
}

/// A word that is written with quotes for Windows starts and ends with one, and
/// what a Windows shell reads between them is the word.
pub proof fn law_windows_word_reads_back(s: Seq<char>)
    requires
        escaped(Platform::Windows, s) != s,
    ensures
        ({
            let e = escaped(Platform::Windows, s);
            &&& e.len() >= 2
            &&& e[0] == '\'' && e[e.len() - 1] == '\''
            &&& undoubled(e.subrange(1, e.len() - 1)) == Some(s)
        }),
{
    let e = escaped(Platform::Windows, s);
    lemma_undoubled_back(s);
    assert(e.subrange(1, e.len() - 1) =~= quotes_replaced(s, seq!['\'', '\'']));
}

/// One more part of a command is one more word behind a single space, written for
/// a POSIX shell on its own; the words before it stay as they are.
pub proof fn law_parts_are_written_one_by_one(parts: Seq<Seq<char>>, last: Seq<char>)
    requires
        parts.len() > 0,
    ensures
        remote_command(parts.push(last)) == (if parts.len() == 1 {
            escaped(Platform::Unix, parts[0])
        } else {
            remote_command(parts)
        }) + seq![' '] + escaped(Platform::Unix, last),
{
    reveal_strlit(" ");
    assert(" "@ =~= seq![' ']);
    let all = each_escaped(Platform::Unix, parts.push(last));
    let before = each_escaped(Platform::Unix, parts);
    assert(all.drop_last() =~= before);
    assert(all.last() == escaped(Platform::Unix, last));
    assert(join_with(all, " "@) == join_with(before, " "@) + " "@ + all.last());
    if parts.len() == 1 {
        assert(join_with(before, " "@) == before[0]);
    }
}

/// On Windows a backslash among plain characters needs no quotes.
pub proof fn law_backslashes_stay_on_windows(s: Seq<char>)
    requires
        s.len() > 0,
        forall|i: int|
            0 <= i < s.len() ==> #[trigger] s[i] == '\\' || escaped(
                Platform::Windows,
                seq![s[i]],
            ) == seq![s[i]],
    ensures
        escaped(Platform::Windows, s) == s,
{
    assert forall|i: int| 0 <= i < s.len() implies is_plain(#[trigger] s[i]) || s[i] == '\\' by {
        let one = seq![s[i]];
        if s[i] != '\\' && !is_plain(s[i]) {
            assert(!is_safe(Platform::Windows, one)) by {
                assert(one[0] == s[i]);
            }
            assert(escaped(Platform::Windows, one).len() >= 2);
        }
    }
}

} // verus!
