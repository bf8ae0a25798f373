//! The machine that the program runs on: its home directory, its kind of
//! system, and the paths built from them.

use vstd::prelude::*;
use vstd::string::*;

use crate::text::{
    chars_of, join, join_with, law_pieces_make_the_text, lemma_split_last, lemma_split_one, same_text,
    split, split_on, texts,
};

verus! {

/// The two kinds of system that differ in how paths are put together, how a
/// shell reads quotes, and which terminals there are.
#[derive(Debug, Clone, Copy, PartialEq, Eq, Structural)]
pub enum Platform {
    Unix,
    Windows,
}

/// The path of a home directory.
#[derive(Debug, Clone)]
pub struct Home {
    /// The path as it is shown. What is no Unicode in it is replaced.
    pub text: String,
    /// The path in the encoding of the system, to find the directory by.
    pub bytes: Vec<u8>,
}

/// What the library needs to know of the machine it runs on.
#[derive(Debug, Clone)]
pub struct Local {
    /// The home directory, where there is one.
    pub home: Option<Home>,
    pub platform: Platform,
}

impl Local {
    /// The home directory as it is shown.
    pub open spec fn home_text(&self) -> Option<Seq<char>> {
        match self.home {
            Some(h) => Some(h.text@),
            None => None,
        }
    }

    /// The home directory in the encoding of the system.
    pub open spec fn home_bytes(&self) -> Option<Seq<u8>> {
        match self.home {
            Some(h) => Some(h.bytes@),
            None => None,
        }
    }
}

/// `dirs::home_dir`, as it is shown and in the encoding of the system. It reads
/// the environment and the system's list of users, so nothing is claimed of its
/// result.
#[verifier::external_body]
fn home_dir() -> (r: Option<Home>) {
    match dirs::home_dir() {
        Some(p) => Some(
            Home { text: p.display().to_string(), bytes: p.into_os_string().into_encoded_bytes() },
        ),
        None => None,
    }
}

/// `std::path::MAIN_SEPARATOR`, the character that separates the components of
/// a path on this system. It differs from system to system, so nothing is
/// claimed of it.
#[verifier::external_body]
fn main_separator() -> (r: char) {
    std::path::MAIN_SEPARATOR
}

/// The platform whose paths are separated by `separator`.
pub fn platform_of(separator: char) -> (r: Platform)
    ensures
        r == (if separator == '\\' {
            Platform::Windows
        } else {
            Platform::Unix
        }),
{
    if separator == '\\' {
        Platform::Windows
    } else {
        Platform::Unix
    }
}

/// The platform that the program runs on.
pub(crate) fn platform() -> (r: Platform) {
    platform_of(main_separator())
}

/// The machine that the program runs on.
pub(crate) fn local() -> (r: Local) {
    local_of(home_dir(), main_separator())
}

/// The machine with this home directory whose paths are separated by
/// `separator`.
pub fn local_of(home: Option<Home>, separator: char) -> (r: Local)
    ensures
        r.home == home,
        r.platform == (if separator == '\\' {
            Platform::Windows
        } else {
            Platform::Unix
        }),
{
    Local { home, platform: platform_of(separator) }
}

/// The character put between two components of a path.
pub open spec fn separator(platform: Platform) -> char {
    match platform {
        Platform::Unix => '/',
        Platform::Windows => '\\',
    }
}

/// Whether `c` separates the components of a path.
pub open spec fn is_separator(platform: Platform, c: char) -> bool {
    c == '/' || (platform is Windows && c == '\\')
}

/// Whether a text starts with a drive letter and a colon.
pub open spec fn has_drive(s: Seq<char>) -> bool {
    &&& s.len() >= 2
    &&& s[1] == ':'
    &&& ('a' <= s[0] && s[0] <= 'z') || ('A' <= s[0] && s[0] <= 'Z')
}

/// Whether a path starts with `\\?\`. On Windows such a path is taken as it is:
/// only backslashes separate its components, and `.` and `..` mean nothing in it.
pub open spec fn is_verbatim(s: Seq<char>) -> bool {
    s.len() >= 4 && s[0] == '\\' && s[1] == '\\' && s[2] == '?' && s[3] == '\\'
}

/// How many of the pieces between the backslashes behind `\\?\` are the volume
/// and no component: the first, or `UNC`, a server and a share.
pub open spec fn volume_len(pieces: Seq<Seq<char>>) -> int {
    if pieces.len() >= 2 && pieces[0] == "UNC"@ {
        if pieces.len() >= 3 && pieces[2].len() > 0 {
            3
        } else {
            2
        }
    } else {
        1
    }
}

/// The pieces that are not empty.
pub open spec fn components(pieces: Seq<Seq<char>>) -> Seq<Seq<char>>
    decreases pieces.len(),
{
    if pieces.len() == 0 {
        pieces
    } else if pieces.last().len() == 0 {
        components(pieces.drop_last())
    } else {
        components(pieces.drop_last()).push(pieces.last())
    }
}

/// Components with one more, where `.` stays in place and `..` takes the last one
/// away.
pub open spec fn resolved(components: Seq<Seq<char>>, part: Seq<char>) -> Seq<Seq<char>> {
    if part == "."@ {
        components
    } else if part == ".."@ {
        if components.len() > 0 && components.last() != "."@ && components.last() != ".."@ {
            components.drop_last()
        } else {
            components
        }
    } else {
        components.push(part)
    }
}

/// The path of the entry `part` of a directory whose path starts with `\\?\`.
pub open spec fn verbatim_pushed(base: Seq<char>, part: Seq<char>) -> Seq<char> {
    let pieces = split_on(base.skip(4), '\\');
    let n = volume_len(pieces);
    let volume = base.take(4) + join_with(pieces.take(n), "\\"@);
    let inside = resolved(components(pieces.skip(n)), part);
    if inside.len() > 0 || pieces.len() > n {
        volume.push('\\') + join_with(inside, "\\"@)
    } else {
        volume
    }
}

/// The path of the entry `part` of the directory `base`, where `part` is one
/// component. On Windows a part with a drive replaces the base, and nothing
/// separates a part from a base that is a bare drive.
pub open spec fn pushed(platform: Platform, base: Seq<char>, part: Seq<char>) -> Seq<char> {
    if platform is Windows && has_drive(part) {
        part
    } else if platform is Windows && is_verbatim(base) && part.len() > 0 {
        verbatim_pushed(base, part)
    } else if base.len() == 0 || is_separator(platform, base.last()) || (platform is Windows
        && base.len() == 2 && has_drive(base)) {
        base + part
    } else {
        base.push(separator(platform)) + part
    }
}

fn drive_first(v: &Vec<char>) -> (r: bool)
    ensures
        r == has_drive(v@),
{
    v.len() >= 2 && v[1] == ':' && (('a' <= v[0] && v[0] <= 'z') || ('A' <= v[0] && v[0] <= 'Z'))
}

fn verbatim_first(v: &Vec<char>) -> (r: bool)
    ensures
        r == is_verbatim(v@),
{
    v.len() >= 4 && v[0] == '\\' && v[1] == '\\' && v[2] == '?' && v[3] == '\\'
}

fn volume_pieces(pieces: &Vec<String>) -> (r: usize)
    requires
        pieces@.len() > 0,
    ensures
        r == volume_len(texts(pieces@)),
        r <= pieces@.len(),
{
    assert(texts(pieces@).len() == pieces@.len());
    if pieces.len() >= 2 && same_text(pieces[0].as_str(), "UNC") {
        if pieces.len() >= 3 && !pieces[2].as_str().is_empty() {
            3
        } else {
            2
        }
    } else {
        1
    }
}

fn components_from(pieces: &Vec<String>, from: usize) -> (r: Vec<String>)
    requires
        from <= pieces@.len(),
    ensures
        texts(r@) == components(texts(pieces@).skip(from as int)),
{
    let ghost rest = texts(pieces@).skip(from as int);
    let mut r: Vec<String> = Vec::new();
    let mut i: usize = from;
    assert(rest.take(0) =~= Seq::<Seq<char>>::empty());
    assert(texts(r@) =~= components(rest.take(0)));
    while i < pieces.len()
        invariant
            from <= i <= pieces.len(),
            rest == texts(pieces@).skip(from as int),
            texts(r@) == components(rest.take(i - from)),
        decreases pieces.len() - i,
    {
        assert(rest.take(i + 1 - from).drop_last() =~= rest.take(i - from));
        assert(rest.take(i + 1 - from).last() == pieces@[i as int]@);
        if !pieces[i].as_str().is_empty() {
            let ghost before = r@;
            r.push(pieces[i].clone());
            assert(texts(r@) =~= texts(before).push(pieces@[i as int]@));
        }
        i = i + 1;
    }
    assert(rest.take(rest.len() as int) =~= rest);
    r
}

fn resolve(components: &mut Vec<String>, part: &str)
    ensures
        texts(final(components)@) == resolved(texts(old(components)@), part@),
{
    let ghost before = components@;
    if same_text(part, ".") {
        return;
    }
    if same_text(part, "..") {
        let n: usize = components.len();
        if n > 0 && !same_text(components[n - 1].as_str(), ".") && !same_text(
            components[n - 1].as_str(),
            "..",
        ) {
            components.pop();
            assert(texts(components@) =~= texts(before).drop_last());
        }
        return;
    }
    components.push(part.to_owned());
    assert(texts(components@) =~= texts(before).push(part@));
}

fn push_verbatim(base: &str, part: &str) -> (r: String)
    requires
        is_verbatim(base@),
    ensures
        r@ == verbatim_pushed(base@, part@),
{
    let v: Vec<char> = chars_of(base);
    let rest = base.substring_char(4, v.len());
    assert(rest@ =~= base@.skip(4));
    let pieces: Vec<String> = split(rest, '\\');
    let n: usize = volume_pieces(&pieces);
    let mut r = base.substring_char(0, 4).to_owned();
    assert(r@ =~= base@.take(4));
    let head = vstd::slice::slice_subrange(pieces.as_slice(), 0, n);
    assert(texts(head@) =~= texts(pieces@).take(n as int));
    r.append(join(head, "\\").as_str());
    let mut inside = components_from(&pieces, n);
    resolve(&mut inside, part);
    assert(texts(inside@).len() == inside@.len());
    if inside.len() > 0 || pieces.len() > n {
        r.push('\\');
        r.append(join(inside.as_slice(), "\\").as_str());
    }
    r
}

/// The path of the entry `part` of the directory `base`.
pub fn push_segment(platform: Platform, base: &str, part: &str) -> (r: String)
    ensures
        r@ == pushed(platform, base@, part@),
{
    let b: Vec<char> = chars_of(base);
    let p: Vec<char> = chars_of(part);
    let windows = platform == Platform::Windows;
    if windows && drive_first(&p) {
        return part.to_owned();
    }
    if windows && verbatim_first(&b) && p.len() > 0 {
        return push_verbatim(base, part);
    }
    let mut r = base.to_owned();
    let joined = b.len() == 0 || b[b.len() - 1] == '/' || (windows && b[b.len() - 1] == '\\') || (
    windows && b.len() == 2 && drive_first(&b));
    if !joined {
        if windows {
            r.push('\\');
        } else {
            r.push('/');
        }
    }
    r.append(part);
    r
}

/// Bytes with one character for each, of the same number.
pub open spec fn wide(bytes: Seq<u8>) -> Seq<char> {
    Seq::new(bytes.len(), |i: int| bytes[i] as char)
}

/// Characters with one byte for each, of the same number.
pub open spec fn narrow(chars: Seq<char>) -> Seq<u8> {
    Seq::new(chars.len(), |i: int| chars[i] as u8)
}

/// The path of the entry `part` of the directory `base`, both in the encoding of
/// the system. It has ASCII in it as it is, and nothing else matters here.
pub open spec fn pushed_bytes(platform: Platform, base: Seq<u8>, part: Seq<u8>) -> Seq<u8> {
    narrow(pushed(platform, wide(base), wide(part)))
}

fn widen(bytes: &[u8]) -> (r: String)
    ensures
        r@ == wide(bytes@),
{
    let mut r = String::new();
    let mut i: usize = 0;
    assert(r@ =~= wide(bytes@).take(0));
    while i < bytes.len()
        invariant
            i <= bytes.len(),
            r@ == wide(bytes@).take(i as int),
        decreases bytes.len() - i,
    {
        r.push(bytes[i] as char);
        assert(r@ =~= wide(bytes@).take(i + 1));
        i = i + 1;
    }
    assert(r@ =~= wide(bytes@));
    r
}

fn narrowed(s: &str) -> (r: Vec<u8>)
    ensures
        r@ == narrow(s@),
{
    let v: Vec<char> = chars_of(s);
    let mut r: Vec<u8> = Vec::new();
    let mut i: usize = 0;
    while i < v.len()
        invariant
            i <= v.len(),
            v@ == s@,
            r@ == narrow(s@).take(i as int),
        decreases v.len() - i,
    {
        r.push(v[i] as u8);
        assert(r@ =~= narrow(s@).take(i + 1));
        i = i + 1;
    }
    assert(r@ =~= narrow(s@));
    r
}

/// The path of the entry `part` of the directory `base`, both in the encoding of
/// the system.
pub fn push_bytes(platform: Platform, base: &[u8], part: &[u8]) -> (r: Vec<u8>)
    ensures
        r@ == pushed_bytes(platform, base@, part@),
{
    narrowed(push_segment(platform, widen(base).as_str(), widen(part).as_str()).as_str())
}

/// A backslash turned into a slash; any other character as it is.
pub open spec fn slashed_char(c: char) -> char {
    if c == '\\' {
        '/'
    } else {
        c
    }
}

/// A text with every backslash turned into a slash.
pub open spec fn slashed(s: Seq<char>) -> Seq<char> {
    Seq::new(s.len(), |i: int| slashed_char(s[i]))
}

/// `base` with the parts pushed onto it one by one; empty parts are skipped.
pub open spec fn pushed_all(platform: Platform, base: Seq<char>, parts: Seq<Seq<char>>) -> Seq<char>
    decreases parts.len(),
{
    if parts.len() == 0 {
        base
    } else if parts.last().len() == 0 {
        pushed_all(platform, base, parts.drop_last())
    } else {
        pushed(platform, pushed_all(platform, base, parts.drop_last()), parts.last())
    }
}

/// `base` followed by the components of `rest`, which slashes and backslashes
/// separate on every platform.
pub open spec fn joined_path(platform: Platform, base: Seq<char>, rest: Seq<char>) -> Seq<char> {
    pushed_all(platform, base, split_on(slashed(rest), '/'))
}

fn with_slashes(s: &str) -> (r: String)
    ensures
        r@ == slashed(s@),
{
    let v: Vec<char> = chars_of(s);
    let mut r = String::new();
    let mut i: usize = 0;
    assert(r@ =~= slashed(s@).take(0));
    while i < v.len()
        invariant
            i <= v.len(),
            v@ == s@,
            r@ == slashed(s@).take(i as int),
        decreases v.len() - i,
    {
        if v[i] == '\\' {
            r.push('/');
        } else {
            r.push(v[i]);
        }
        assert(r@ =~= slashed(s@).take(i + 1));
        i = i + 1;
    }
    assert(r@ =~= slashed(s@));
    r
}

/// Appends the components of `rest` to the directory `base`.
pub fn join_path_segments(platform: Platform, base: &str, rest: &str) -> (r: String)
    ensures
        r@ == joined_path(platform, base@, rest@),
{
    let flat = with_slashes(rest);
    let parts: Vec<String> = split(flat.as_str(), '/');
    let mut r = base.to_owned();
    let mut i: usize = 0;
    assert(texts(parts@).take(0) =~= Seq::<Seq<char>>::empty());
    while i < parts.len()
        invariant
            i <= parts.len(),
            r@ == pushed_all(platform, base@, texts(parts@).take(i as int)),
        decreases parts.len() - i,
    {
        assert(texts(parts@).take(i + 1).drop_last() =~= texts(parts@).take(i as int));
        if !parts[i].as_str().is_empty() {
            r = push_segment(platform, r.as_str(), parts[i].as_str());
        }
        i = i + 1;
    }
    assert(texts(parts@).take(parts@.len() as int) =~= texts(parts@));
    r
}

/// Whether a path starts with a tilde and a slash or backslash.
pub open spec fn under_home(path: Seq<char>) -> bool {
    path.len() >= 2 && path[0] == '~' && (path[1] == '/' || path[1] == '\\')
}

/// A path with a leading tilde replaced by the home directory, where there is
/// one.
pub open spec fn expanded_path(
    path: Seq<char>,
    home: Option<Seq<char>>,
    platform: Platform,
) -> Seq<char> {
    match home {
        Some(h) => if path == seq!['~'] {
            h
        } else if under_home(path) {
            joined_path(platform, h, path.skip(2))
        } else {
            path
        },
        None => path,
    }
}

/// Replaces a leading tilde by the home directory of `local`.
pub fn expand_path_on(local: &Local, path: &str) -> (r: String)
    ensures
        r@ == expanded_path(path@, local.home_text(), local.platform),
{
    let v: Vec<char> = chars_of(path);
    match &local.home {
        Some(h) => {
            if v.len() == 1 && v[0] == '~' {
                assert(path@ =~= seq!['~']);
                return h.text.clone();
            }
            if v.len() >= 2 && v[0] == '~' && (v[1] == '/' || v[1] == '\\') {
                let rest = path.substring_char(2, v.len());
                assert(rest@ =~= path@.skip(2));
                return join_path_segments(local.platform, h.text.as_str(), rest);
            }
            path.to_owned()
        },
        None => path.to_owned(),
    }
}

/// Replaces a leading tilde by the home directory of the machine that the
/// program runs on. Which directory that is, the machine decides.
pub fn expand_path(path: &str) -> (r: String)
    ensures
        exists|home: Option<Seq<char>>, platform: Platform|
            r@ == #[trigger] expanded_path(path@, home, platform),
        path@ != seq!['~'] && !under_home(path@) ==> r@ == path@,
{
    let here = local();
    let r = expand_path_on(&here, path);
    assert(r@ == expanded_path(path@, here.home_text(), here.platform));
    r
}

/// Whether every character has the number of a byte.
spec fn is_narrow(s: Seq<char>) -> bool {
    forall|i: int| 0 <= i < s.len() ==> #[trigger] s[i] <= '\u{ff}'
}

/// Whether every character of every text has the number of a byte.
spec fn all_narrow(v: Seq<Seq<char>>) -> bool {
    forall|i: int| 0 <= i < v.len() ==> is_narrow(#[trigger] v[i])
}

proof fn lemma_split_is_narrow(s: Seq<char>, sep: char)
    requires
        is_narrow(s),
    ensures
        all_narrow(split_on(s, sep)),
        split_on(s, sep).len() > 0,
    decreases s.len(),
{
    if s.len() > 0 {
        lemma_split_is_narrow(s.drop_last(), sep);
        let before = split_on(s.drop_last(), sep);
        assert(is_narrow(before.last().push(s.last()))) by {
            assert(is_narrow(before[before.len() - 1]));
            assert(s[s.len() - 1] <= '\u{ff}');
        }
    }
}

proof fn lemma_join_is_narrow(parts: Seq<Seq<char>>, sep: Seq<char>)
    requires
        all_narrow(parts),
        is_narrow(sep),
    ensures
        is_narrow(join_with(parts, sep)),
    decreases parts.len(),
{
    if parts.len() > 1 {
        lemma_join_is_narrow(parts.drop_last(), sep);
        assert(is_narrow(parts[parts.len() - 1]));
    }
}

proof fn lemma_components_are_narrow(pieces: Seq<Seq<char>>)
    requires
        all_narrow(pieces),
    ensures
        all_narrow(components(pieces)),
    decreases pieces.len(),
{
    if pieces.len() > 0 {
        lemma_components_are_narrow(pieces.drop_last());
        assert(is_narrow(pieces[pieces.len() - 1]));
    }
}

proof fn lemma_byte_char(c: char)
    requires
        c <= '\u{ff}',
    ensures
        (c as u8) as char == c,
{
}

proof fn lemma_pushed_is_narrow(platform: Platform, base: Seq<char>, part: Seq<char>)
    requires
        is_narrow(base),
        is_narrow(part),
    ensures
        is_narrow(pushed(platform, base, part)),
{
    if platform is Windows && is_verbatim(base) && part.len() > 0 {
        reveal_strlit("\\");
        let pieces = split_on(base.skip(4), '\\');
        let n = volume_len(pieces);
        lemma_split_is_narrow(base.skip(4), '\\');
        lemma_join_is_narrow(pieces.take(n), "\\"@);
        lemma_components_are_narrow(pieces.skip(n));
        lemma_join_is_narrow(resolved(components(pieces.skip(n)), part), "\\"@);
    }
}

/// Putting paths together in the encoding of the system is putting them together
/// byte by byte: none is changed or lost.
pub proof fn law_bytes_are_kept(platform: Platform, base: Seq<u8>, part: Seq<u8>)
    ensures
        wide(pushed_bytes(platform, base, part)) == pushed(platform, wide(base), wide(part)),
{
    let p = pushed(platform, wide(base), wide(part));
    lemma_pushed_is_narrow(platform, wide(base), wide(part));
    assert forall|i: int| 0 <= i < p.len() implies #[trigger] wide(narrow(p))[i] == p[i] by {
        lemma_byte_char(p[i]);
    }
    assert(wide(narrow(p)) =~= p);
}

/// Slashes and backslashes mean the same behind a tilde.
pub proof fn law_slashes_and_backslashes_alike(
    a: Seq<char>,
    b: Seq<char>,
    home: Seq<char>,
    platform: Platform,
)
    requires
        under_home(a),
        slashed(a) == slashed(b),
    ensures
        expanded_path(a, Some(home), platform) == expanded_path(b, Some(home), platform),
{
    assert(a.len() == slashed(a).len() && b.len() == slashed(b).len());
    assert forall|i: int| 0 <= i < a.len() implies slashed_char(#[trigger] a[i]) == slashed_char(
        b[i],
    ) by {
        assert(slashed(a)[i] == slashed_char(a[i]));
        assert(slashed(b)[i] == slashed_char(b[i]));
    }
    assert(slashed_char(a[0]) == slashed_char(b[0]));
    assert(slashed_char(a[1]) == slashed_char(b[1]));
    assert(slashed(a.skip(2)) =~= slashed(b.skip(2)));
}

proof fn lemma_pushing_extends(base: Seq<char>, parts: Seq<Seq<char>>)
    ensures
        base.is_prefix_of(pushed_all(Platform::Unix, base, parts)),
    decreases parts.len(),
{
    if parts.len() > 0 {
        lemma_pushing_extends(base, parts.drop_last());
    }
}

/// On Unix a path behind a tilde leads to a place whose path starts with that of
/// the home directory.
pub proof fn law_expansion_starts_at_home(path: Seq<char>, home: Seq<char>)
    requires
        path == seq!['~'] || under_home(path),
    ensures
        home.is_prefix_of(expanded_path(path, Some(home), Platform::Unix)),
{
    lemma_pushing_extends(home, split_on(slashed(path.skip(2)), '/'));
}

/// A path is replaced only where it is a tilde, or starts with one and a slash or
/// backslash, and there is a home directory; a tilde alone is that directory, and so
/// it is with one slash or backslash behind it.
pub proof fn law_only_the_tilde_is_replaced(
    path: Seq<char>,
    home: Option<Seq<char>>,
    platform: Platform,
)
    ensures
        home is None ==> expanded_path(path, home, platform) == path,
        path.len() == 0 || path[0] != '~' ==> expanded_path(path, home, platform) == path,
        path.len() > 1 && path[1] != '/' && path[1] != '\\' ==> expanded_path(path, home, platform)
            == path,
        home matches Some(h) ==> {
            &&& expanded_path(seq!['~'], home, platform) == h
            &&& expanded_path(seq!['~', '/'], home, platform) == h
            &&& expanded_path(seq!['~', '\\'], home, platform) == h
        },
{
    if let Some(h) = home {
        let a = seq!['~', '/'];
        let b = seq!['~', '\\'];
        assert(seq!['~'].len() == 1);
        assert(a.len() == 2 && b.len() == 2);
        let none = Seq::<char>::empty();
        assert(slashed(a.skip(2)) =~= none);
        assert(slashed(b.skip(2)) =~= none);
        let one = split_on(none, '/');
        assert(one.drop_last() =~= Seq::<Seq<char>>::empty());
        assert(pushed_all(platform, h, one.drop_last()) == h);
        assert(pushed_all(platform, h, one) == h);
    }
}

/// A slash or backslash at the end of a path behind a tilde changes nothing.
pub proof fn law_trailing_separators_are_dropped(
    path: Seq<char>,
    sep: char,
    home: Seq<char>,
    platform: Platform,
)
    requires
        path.len() >= 2,
        path[0] == '~',
        path[1] == '/' || path[1] == '\\',
        sep == '/' || sep == '\\',
    ensures
        expanded_path(path.push(sep), Some(home), platform) == expanded_path(
            path,
            Some(home),
            platform,
        ),
{
    let r = slashed(path.skip(2));
    let longer = slashed(path.push(sep).skip(2));
    assert(longer =~= r.push('/'));
    assert(longer.drop_last() =~= r);
    assert(split_on(longer, '/').drop_last() =~= split_on(r, '/'));
}

/// A name at the end of a path behind a tilde is an entry of the directory that the
/// path in front of it leads to: on Unix the name stands behind that path and one
/// slash, and on Windows behind one backslash.
pub proof fn law_names_are_entries(
    path: Seq<char>,
    name: Seq<char>,
    home: Seq<char>,
    platform: Platform,
)
    requires
        path.len() >= 2,
        path[0] == '~',
        path[1] == '/' || path[1] == '\\',
        path[path.len() - 1] == '/' || path[path.len() - 1] == '\\',
        name.len() > 0,
        forall|i: int| 0 <= i < name.len() ==> #[trigger] name[i] != '/' && name[i] != '\\',
    ensures
        ({
            let dir = expanded_path(path, Some(home), platform);
            let full = expanded_path(path + name, Some(home), platform);
            let last = dir[dir.len() - 1];
            &&& platform == Platform::Unix ==> full == (if dir.len() == 0 || last == '/' {
                dir + name
            } else {
                dir + seq!['/'] + name
            })
            // but for names and directories with a drive, and for paths that are
            // taken as they are
            &&& platform == Platform::Windows && name.len() < 2 && dir.len() > 2 && dir[0] != '\\'
                ==> full == (if last == '/' || last == '\\' {
                dir + name
            } else {
                dir + seq!['\\'] + name
            })
            &&& platform == Platform::Windows && name.len() >= 2 && name[1] != ':' && dir.len() > 2
                && dir[0] != '\\' ==> full == (if last == '/' || last == '\\' {
                dir + name
            } else {
                dir + seq!['\\'] + name
            })
        }),
{
    let r = slashed(path.skip(2));
    let n = slashed(name);
    assert(n =~= name);
    assert(!name.contains('/')) by {
        if name.contains('/') {
            let k = choose|k: int| 0 <= k < name.len() && name[k] == '/';
            assert(name[k] != '/');
        }
    }
    let longer = slashed((path + name).skip(2));
    assert(longer =~= r + name);
    let none = Seq::<char>::empty();
    if r.len() == 0 {
        assert(r =~= none);
        assert(longer =~= name);
        lemma_split_one(name, '/');
        let one = split_on(none, '/');
        assert(one.drop_last() =~= Seq::<Seq<char>>::empty());
        assert(seq![name].drop_last() =~= Seq::<Seq<char>>::empty());
        assert(pushed_all(platform, home, one.drop_last()) == home);
        assert(pushed_all(platform, home, one) == home);
        assert(pushed_all(platform, home, seq![name]) == pushed(platform, home, name));
    } else {
        let r0 = r.drop_last();
        assert(r[r.len() - 1] == slashed_char(path[path.len() - 1]));
        assert(r.last() == '/');
        assert(r0.push('/') =~= r);
        lemma_split_last(r0, name, '/');
        lemma_split_last(r0, none, '/');
        assert(r0.push('/') + none =~= r);
        let before = split_on(r0, '/');
        assert(before.push(name).drop_last() =~= before);
        assert(before.push(none).drop_last() =~= before);
    }
    let dir = expanded_path(path, Some(home), platform);
    assert(expanded_path(path + name, Some(home), platform) == pushed(platform, dir, name));
    assert(dir + seq!['/'] + name =~= dir.push('/') + name);
    assert(dir + seq!['\\'] + name =~= dir.push('\\') + name);
}

/// An entry of a directory on Unix has the path of the directory, one slash unless
/// that ends with one or is empty, and its name.
pub proof fn law_entries_on_unix(base: Seq<char>, part: Seq<char>)
    ensures
        pushed(Platform::Unix, base, part) == (if base.len() == 0 || base[base.len() - 1] == '/' {
            base + part
        } else {
            base + seq!['/'] + part
        }),
{
    assert(base + seq!['/'] + part =~= base.push('/') + part);
}

/// On Windows a name with a drive is a path of its own, and stands right behind a
/// bare drive; any other stands behind one backslash unless the directory ends with
/// a slash or backslash. Left out are directories that start with two backslashes, a
/// question mark and a backslash.
pub proof fn law_entries_on_windows(base: Seq<char>, part: Seq<char>)
    requires
        base.len() < 4 || base[0] != '\\' || base[1] != '\\' || base[2] != '?' || base[3] != '\\',
    ensures
        ({
            let letter = |c: char| ('a' <= c && c <= 'z') || ('A' <= c && c <= 'Z');
            let full = pushed(Platform::Windows, base, part);
            if part.len() >= 2 && part[1] == ':' && letter(part[0]) {
                full == part
            } else if base.len() == 0 || base[base.len() - 1] == '/' || base[base.len() - 1] == '\\'
                || (base.len() == 2 && base[1] == ':' && letter(base[0])) {
                full == base + part
            } else {
                full == base + seq!['\\'] + part
            }
        }),
{
    assert(base + seq!['\\'] + part =~= base.push('\\') + part);
}

/// In a directory whose path starts with two backslashes, a question mark and a
/// backslash, a name stands behind the path of the directory itself and a
/// backslash, and the path keeps its start.
pub proof fn law_entries_of_verbatim_paths(base: Seq<char>, part: Seq<char>)
    requires
        base.len() >= 4,
        base[0] == '\\' && base[1] == '\\' && base[2] == '?' && base[3] == '\\',
        part.len() > 0,
        part != "."@,
        part != ".."@,
        part.len() >= 2 ==> part[1] != ':',
    ensures
        ({
            let here = pushed(Platform::Windows, base, "."@);
            let full = pushed(Platform::Windows, base, part);
            &&& here.len() >= 4 && here.take(4) == base.take(4)
            &&& full == here + part || full == here + seq!['\\'] + part
            &&& (seq!['\\'] + part).is_suffix_of(full)
        }),
{
    reveal_strlit(".");
    reveal_strlit("\\");
    let glue = "\\"@;
    assert(glue =~= seq!['\\']);
    let pieces = split_on(base.skip(4), '\\');
    let n = volume_len(pieces);
    let volume = base.take(4) + join_with(pieces.take(n), glue);
    let inside = components(pieces.skip(n));
    let here = pushed(Platform::Windows, base, "."@);
    let full = pushed(Platform::Windows, base, part);
    assert(inside.push(part).drop_last() =~= inside);
    assert(full == volume.push('\\') + join_with(inside.push(part), glue));
    if inside.len() == 0 {
        assert(inside.push(part) =~= seq![part]);
        assert(join_with(inside.push(part), glue) == part);
        assert(join_with(inside, glue) =~= Seq::<char>::empty());
        assert(full =~= volume + seq!['\\'] + part);
        if pieces.len() > n {
            assert(here =~= volume.push('\\'));
            assert(full =~= here + part);
        } else {
            assert(here == volume);
        }
    } else {
        assert(join_with(inside.push(part), glue) == join_with(inside, glue) + glue + part);
        assert(full =~= here + seq!['\\'] + part);
    }
    assert(here.take(4) =~= base.take(4));
    let tail = seq!['\\'] + part;
    assert(tail =~= full.subrange(full.len() - tail.len(), full.len() as int));
}

/// Reading bytes as characters and back gives the bytes.
pub(crate) proof fn lemma_narrow_wide(bytes: Seq<u8>)
    ensures
        narrow(wide(bytes)) == bytes,
{
    assert forall|i: int| 0 <= i < bytes.len() implies #[trigger] narrow(wide(bytes))[i]
        == bytes[i] by {
        lemma_char_byte(bytes[i]);
    }
    assert(narrow(wide(bytes)) =~= bytes);
}

proof fn lemma_char_byte(b: u8)
    ensures
        (b as char) as u8 == b,
{
}

/// An entry of a directory on Unix has the bytes of the directory, one slash unless
/// that ends with one or is empty, and the bytes of its name, whatever they are.
pub proof fn law_byte_entries_on_unix(base: Seq<u8>, part: Seq<u8>)
    ensures
        pushed_bytes(Platform::Unix, base, part) == (if base.len() == 0 || base[base.len() - 1]
            == 47 {
            base + part
        } else {
            base + seq![47u8] + part
        }),
{
    lemma_narrow_wide(base + part);
    lemma_narrow_wide(base + seq![47u8] + part);
    law_entries_on_unix(wide(base), wide(part));
    assert(wide(base + part) =~= wide(base) + wide(part));
    assert(wide(base + seq![47u8] + part) =~= wide(base) + seq!['/'] + wide(part));
    if base.len() > 0 {
        lemma_char_byte(base[base.len() - 1]);
        assert(wide(base)[base.len() - 1] == base[base.len() - 1] as char);
        assert(base[base.len() - 1] as char == '/' <==> base[base.len() - 1] == 47);
    }
}

proof fn lemma_join_concat(a: Seq<Seq<char>>, b: Seq<Seq<char>>, sep: Seq<char>)
    requires
        a.len() > 0,
        b.len() > 0,
    ensures
        join_with(a + b, sep) == join_with(a, sep) + sep + join_with(b, sep),
    decreases b.len(),
{
    assert((a + b).drop_last() =~= a + b.drop_last());
    if b.len() == 1 {
        assert((a + b).drop_last() =~= a);
    } else {
        lemma_join_concat(a, b.drop_last(), sep);
        assert(join_with(a + b, sep) =~= join_with(a, sep) + sep + join_with(b, sep));
    }
}

proof fn lemma_all_are_components(pieces: Seq<Seq<char>>)
    requires
        forall|i: int| 0 <= i < pieces.len() ==> (#[trigger] pieces[i]).len() > 0,
    ensures
        components(pieces) == pieces,
    decreases pieces.len(),
{
    if pieces.len() > 0 {
        assert(pieces[pieces.len() - 1].len() > 0);
        assert forall|i: int| 0 <= i < pieces.drop_last().len() implies (
        #[trigger] pieces.drop_last()[i]).len() > 0 by {
            assert(pieces[i].len() > 0);
        }
        lemma_all_are_components(pieces.drop_last());
        assert(pieces.drop_last().push(pieces.last()) =~= pieces);
    }
}

/// No piece is empty where no two separators meet and none stands at an end.
proof fn lemma_no_empty_piece(s: Seq<char>, sep: char)
    requires
        s.len() > 0,
        s[0] != sep,
        forall|i: int| 0 <= i < s.len() - 1 ==> #[trigger] s[i] != sep || s[i + 1] != sep,
    ensures
        split_on(s, sep).len() > 0,
        forall|i: int|
            0 <= i < split_on(s, sep).len() - 1 ==> (#[trigger] split_on(s, sep)[i]).len() > 0,
        split_on(s, sep).last().len() == 0 <==> s.last() == sep,
    decreases s.len(),
{
    let pieces = split_on(s, sep);
    let front = s.drop_last();
    let before = split_on(front, sep);
    if front.len() == 0 {
        assert(s.len() == 1);
        assert(before =~= seq![Seq::<char>::empty()]);
        assert(pieces.len() == 1);
    } else {
        assert forall|i: int| 0 <= i < front.len() - 1 implies #[trigger] front[i] != sep || front[i
            + 1] != sep by {
            assert(s[i] != sep || s[i + 1] != sep);
        }
        lemma_no_empty_piece(front, sep);
        assert(s[s.len() - 2] != sep || s[s.len() - 2 + 1] != sep);
        assert(front.last() == s[s.len() - 2]);
        if s.last() == sep {
            assert forall|i: int| 0 <= i < pieces.len() - 1 implies (#[trigger] pieces[i]).len()
                > 0 by {
                assert(pieces[i] == before[i]);
            }
        } else {
            assert forall|i: int| 0 <= i < pieces.len() - 1 implies (#[trigger] pieces[i]).len()
                > 0 by {
                assert(pieces[i] == before[i]);
            }
        }
    }
}

/// A directory whose path starts with two backslashes, a question mark and a
/// backslash, and in which no two backslashes meet behind that nor one ends it, is
/// itself the entry that `.` names.
pub proof fn law_verbatim_directory_is_itself(base: Seq<char>)
    requires
        base.len() > 4,
        base[0] == '\\' && base[1] == '\\' && base[2] == '?' && base[3] == '\\',
        base[4] != '\\',
        base[base.len() - 1] != '\\',
        forall|i: int| 4 <= i < base.len() - 1 ==> #[trigger] base[i] != '\\' || base[i + 1] != '\\',
    ensures
        pushed(Platform::Windows, base, "."@) == base,
{
    reveal_strlit(".");
    reveal_strlit("\\");
    let glue = "\\"@;
    assert(glue =~= seq!['\\']);
    let body = base.skip(4);
    let pieces = split_on(body, '\\');
    assert forall|i: int| 0 <= i < body.len() - 1 implies #[trigger] body[i] != '\\' || body[i + 1]
        != '\\' by {
        assert(base[i + 4] != '\\' || base[i + 4 + 1] != '\\');
    }
    lemma_no_empty_piece(body, '\\');
    law_pieces_make_the_text(body, '\\');
    let n = volume_len(pieces);
    let head = pieces.take(n);
    let tail = pieces.skip(n);
    assert forall|i: int| 0 <= i < tail.len() implies (#[trigger] tail[i]).len() > 0 by {
        assert(tail[i] == pieces[i + n]);
        if i + n < pieces.len() - 1 {
            assert(pieces[i + n].len() > 0);
        }
    }
    lemma_all_are_components(tail);
    assert(!has_drive("."@));
    let volume = base.take(4) + join_with(head, glue);
    assert(base =~= base.take(4) + body);
    if tail.len() > 0 {
        assert(pieces =~= head + tail);
        lemma_join_concat(head, tail, glue);
        assert(volume.push('\\') + join_with(tail, glue) =~= base);
    } else {
        assert(pieces =~= head);
        assert(volume =~= base);
    }
}

/// In such a directory, below the volume, `..` leads back from a name to the
/// directory that the name stands in.
pub proof fn law_verbatim_directory_leads_back(base: Seq<char>, name: Seq<char>, at: int)
    requires
        4 < at < base.len() - 1,
        base[0] == '\\' && base[1] == '\\' && base[2] == '?' && base[3] == '\\',
        base[4] != '\\' && base[4] != 'U',
        base[base.len() - 1] != '\\',
        base[at] == '\\',
        forall|i: int| 4 <= i < base.len() - 1 ==> #[trigger] base[i] != '\\' || base[i + 1] != '\\',
        name.len() > 0,
        name != "."@,
        name != ".."@,
        forall|i: int| 0 <= i < name.len() ==> #[trigger] name[i] != '\\',
    ensures
        pushed(Platform::Windows, base + seq!['\\'] + name, ".."@) == base,
{
    reveal_strlit("..");
    reveal_strlit(".");
    reveal_strlit("\\");
    reveal_strlit("UNC");
    let glue = "\\"@;
    assert(glue =~= seq!['\\']);
    let full = base + seq!['\\'] + name;
    let body = base.skip(4);
    let pieces = split_on(body, '\\');
    assert(!name.contains('\\')) by {
        if name.contains('\\') {
            let k = choose|k: int| 0 <= k < name.len() && name[k] == '\\';
            assert(name[k] != '\\');
        }
    }
    assert(full.skip(4) =~= body.push('\\') + name);
    lemma_split_last(body, name, '\\');
    let longer = pieces.push(name);
    law_pieces_make_the_text(body, '\\');
    assert forall|i: int| 0 <= i < body.len() - 1 implies #[trigger] body[i] != '\\' || body[i + 1]
        != '\\' by {
        assert(base[i + 4] != '\\' || base[i + 4 + 1] != '\\');
    }
    lemma_no_empty_piece(body, '\\');
    lemma_first_piece(body, '\\');
    assert(longer[0] == pieces[0]);
    assert(pieces[0][0] == base[4]);
    assert("UNC"@[0] == 'U');
    assert(volume_len(longer) == 1 && volume_len(pieces) == 1);
    if pieces.len() == 1 {
        assert(join_with(pieces, seq!['\\']) == pieces[0]);
        assert(body == pieces[0]);
        assert(pieces[0][at - 4] == '\\');
        assert(split_on(body, '\\')[0][at - 4] != '\\');
    }
    let tail = pieces.skip(1);
    assert(longer.skip(1) =~= tail.push(name));
    assert forall|i: int| 0 <= i < tail.len() implies (#[trigger] tail[i]).len() > 0 by {
        assert(tail[i] == pieces[i + 1]);
        if i + 1 < pieces.len() - 1 {
            assert(pieces[i + 1].len() > 0);
        }
    }
    lemma_all_are_components(tail);
    assert(tail.push(name).drop_last() =~= tail);
    assert(components(tail.push(name)) == tail.push(name));
    assert(!has_drive(".."@));
    assert("."@.len() == 1 && ".."@.len() == 2);
    assert(tail.push(name).last() == name);
    assert(resolved(tail.push(name), ".."@) == tail);
    assert(longer.take(1) =~= pieces.take(1));
    assert(pieces =~= pieces.take(1) + tail);
    lemma_join_concat(pieces.take(1), tail, glue);
    let volume = base.take(4) + join_with(pieces.take(1), glue);
    assert(full.take(4) =~= base.take(4));
    assert(base =~= base.take(4) + body);
    assert(volume.push('\\') + join_with(tail, glue) =~= base);
}

proof fn lemma_first_piece(s: Seq<char>, sep: char)
    requires
        s.len() > 0,
        s[0] != sep,
    ensures
        split_on(s, sep).len() > 0,
        split_on(s, sep)[0].len() > 0,
        split_on(s, sep)[0][0] == s[0],
    decreases s.len(),
{
    if s.len() == 1 {
        let none = s.drop_last();
        assert(none.len() == 0);
        assert(split_on(none, sep) =~= seq![Seq::<char>::empty()]);
    } else {
        lemma_first_piece(s.drop_last(), sep);
    }
}

/// A machine has the home directory that it is said to have, as it is shown and as
/// the system writes it.
pub proof fn law_home_is_what_is_held(local: Local)
    ensures
        local.home is None ==> local.home_text() is None && local.home_bytes() is None,
        local.home matches Some(h) ==> local.home_text() == Some(h.text@) && local.home_bytes()
            == Some(h.bytes@),
{
}

} // verus!
