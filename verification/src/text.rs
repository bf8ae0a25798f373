//! Strings as sequences of characters, and the small string operations that
//! the rest of the library is built from.

use vstd::prelude::*;
use vstd::string::*;

verus! {

/// `String::push` appends one character.
pub assume_specification[ String::push ](s: &mut String, c: char)
    ensures
        final(s)@ == old(s)@.push(c),
;

/// The contents of a list of strings.
pub open spec fn texts(v: Seq<String>) -> Seq<Seq<char>> {
    Seq::new(v.len(), |i: int| v[i]@)
}

/// The characters of a string.
pub fn chars_of(s: &str) -> (r: Vec<char>)
    ensures
        r@ == s@,
{
    let mut r: Vec<char> = Vec::new();
    for c in it: s.chars()
        invariant
            r@ == s@.take(it.index() as int),
            it.seq() == s@,
    {
        r.push(c);
        assert(s@.take(it.index() as int).push(c) =~= s@.take(it.index() + 1));
    }
    assert(s@.take(s@.len() as int) =~= s@);
    r
}

/// Whether two strings hold the same characters.
pub fn same_text(a: &str, b: &str) -> (r: bool)
    ensures
        r == (a@ == b@),
{
    let x: Vec<char> = chars_of(a);
    let y: Vec<char> = chars_of(b);
    if x.len() != y.len() {
        return false;
    }
    let mut i: usize = 0;
    while i < x.len()
        invariant
            i <= x.len(),
            x.len() == y.len(),
            x@ == a@,
            y@ == b@,
            forall|k: int| 0 <= k < i ==> x@[k] == y@[k],
        decreases x.len() - i,
    {
        if x[i] != y[i] {
            return false;
        }
        i = i + 1;
    }
    assert(a@ =~= b@);
    true
}

/// The decimal digit with value `d`.
pub open spec fn digit(d: nat) -> char {
    (('0' as u32) + d) as char
}

/// A number written in decimal, without leading zeros.
pub open spec fn decimal(n: nat) -> Seq<char>
    decreases n,
{
    if n < 10 {
        seq![digit(n)]
    } else {
        decimal(n / 10).push(digit(n % 10))
    }
}

fn digit_char(d: u64) -> (c: char)
    requires
        d < 10,
    ensures
        c == digit(d as nat),
{
    (48u8 + d as u8) as char
}

/// Writes a number in decimal.
pub fn decimal_string(n: u64) -> (r: String)
    ensures
        r@ == decimal(n as nat),
    decreases n,
{
    if n < 10 {
        let mut r = String::new();
        r.push(digit_char(n));
        assert(r@ =~= seq![digit(n as nat)]);
        r
    } else {
        let mut r = decimal_string(n / 10);
        r.push(digit_char(n % 10));
        r
    }
}

/// Whether `c` is one of the ten decimal digits.
pub open spec fn is_digit(c: char) -> bool {
    '0' <= c && c <= '9'
}

/// The number that a run of decimal digits stands for.
pub open spec fn digits_value(s: Seq<char>) -> nat
    decreases s.len(),
{
    if s.len() == 0 {
        0
    } else {
        digits_value(s.drop_last()) * 10 + (s.last() as u32 - '0' as u32) as nat
    }
}

/// The digits of a number that may carry a leading plus sign.
pub open spec fn unsigned_digits(s: Seq<char>) -> Seq<char> {
    if s.len() > 0 && s[0] == '+' {
        s.skip(1)
    } else {
        s
    }
}

/// The port number that a text stands for: an optional plus sign, at least one
/// decimal digit and nothing else, with a value that fits in 16 bits.
pub open spec fn port_value(s: Seq<char>) -> Option<u16> {
    let d = unsigned_digits(s);
    if d.len() > 0 && (forall|i: int| 0 <= i < d.len() ==> is_digit(#[trigger] d[i]))
        && digits_value(d) <= u16::MAX {
        Some(digits_value(d) as u16)
    } else {
        None
    }
}

proof fn lemma_digits_value_grows(s: Seq<char>, i: int)
    requires
        0 <= i <= s.len(),
        forall|k: int| 0 <= k < s.len() ==> is_digit(#[trigger] s[k]),
    ensures
        digits_value(s.take(i)) <= digits_value(s),
    decreases s.len() - i,
{
    if i == s.len() {
        assert(s.take(i) =~= s);
    } else {
        lemma_digits_value_grows(s, i + 1);
        assert(s.take(i + 1).drop_last() =~= s.take(i));
    }
}

/// Reads a port number.
pub fn parse_port(s: &str) -> (r: Option<u16>)
    ensures
        r == port_value(s@),
{
    let v: Vec<char> = chars_of(s);
    let ghost d = unsigned_digits(s@);
    let start: usize = if v.len() > 0 && v[0] == '+' {
        1
    } else {
        0
    };
    assert(d =~= v@.skip(start as int));
    if v.len() == start {
        return None;
    }
    let mut n: u32 = 0;
    let mut i: usize = start;
    assert(d.take(0) =~= Seq::<char>::empty());
    while i < v.len()
        invariant
            start <= i <= v.len(),
            start <= 1,
            v@ == s@,
            d == v@.skip(start as int),
            d == unsigned_digits(s@),
            forall|k: int| 0 <= k < i - start ==> is_digit(#[trigger] d[k]),
            n == digits_value(d.take(i - start)),
            n <= u16::MAX,
        decreases v.len() - i,
    {
        let c: char = v[i];
        assert(c == d[i - start]);
        if c < '0' || c > '9' {
            assert(!is_digit(d[i - start]));
            return None;
        }
        assert(d.take(i + 1 - start).drop_last() =~= d.take(i - start));
        n = n * 10 + (c as u32 - 48);
        i = i + 1;
        if n > 65535 {
            proof {
                if forall|k: int| 0 <= k < d.len() ==> is_digit(#[trigger] d[k]) {
                    lemma_digits_value_grows(d, i - start);
                }
            }
            return None;
        }
    }
    assert(d.take(d.len() as int) =~= d);
    Some(n as u16)
}

proof fn lemma_decimal_digits(n: nat)
    ensures
        decimal(n).len() > 0,
        forall|i: int| 0 <= i < decimal(n).len() ==> is_digit(#[trigger] decimal(n)[i]),
        digits_value(decimal(n)) == n,
    decreases n,
{
    if n < 10 {
        assert(seq![digit(n)].drop_last() =~= Seq::<char>::empty());
        assert(digits_value(seq![digit(n)].drop_last()) == 0);
    } else {
        lemma_decimal_digits(n / 10);
        assert(decimal(n).drop_last() =~= decimal(n / 10));
    }
}

/// Reading back a port number that was written in decimal gives the same
/// number.
pub proof fn law_decimal_port_reads_back(port: u16)
    ensures
        port_value(decimal(port as nat)) == Some(port),
{
    lemma_decimal_digits(port as nat);
    assert(is_digit(decimal(port as nat)[0]));
    assert(unsigned_digits(decimal(port as nat)) == decimal(port as nat));
}

/// A decimal number holds nothing but digits.
pub proof fn lemma_decimal_is_digits(n: nat)
    ensures
        decimal(n).len() > 0,
        forall|i: int| 0 <= i < decimal(n).len() ==> is_digit(#[trigger] decimal(n)[i]),
{
    lemma_decimal_digits(n);
}

/// The pieces of `s` between the occurrences of `sep`: one more piece than
/// there are separators.
pub open spec fn split_on(s: Seq<char>, sep: char) -> Seq<Seq<char>>
    decreases s.len(),
{
    if s.len() == 0 {
        seq![Seq::empty()]
    } else {
        let before = split_on(s.drop_last(), sep);
        if s.last() == sep {
            before.push(Seq::empty())
        } else {
            before.drop_last().push(before.last().push(s.last()))
        }
    }
}

/// Splits a string at every occurrence of a character.
pub fn split(s: &str, sep: char) -> (r: Vec<String>)
    ensures
        texts(r@) == split_on(s@, sep),
        r@.len() > 0,
{
    let v: Vec<char> = chars_of(s);
    let mut r: Vec<String> = Vec::new();
    let mut piece = String::new();
    let mut i: usize = 0;
    assert(texts(r@).push(piece@) =~= split_on(v@.take(0), sep));
    while i < v.len()
        invariant
            i <= v.len(),
            v@ == s@,
            texts(r@).push(piece@) == split_on(v@.take(i as int), sep),
        decreases v.len() - i,
    {
        let ghost before = texts(r@).push(piece@);
        assert(v@.take(i + 1).drop_last() =~= v@.take(i as int));
        if v[i] == sep {
            r.push(piece);
            piece = String::new();
            assert(texts(r@) =~= before);
        } else {
            piece.push(v[i]);
            assert(before.drop_last() =~= texts(r@));
        }
        i = i + 1;
    }
    assert(v@.take(v.len() as int) =~= v@);
    let ghost done = r@;
    let ghost last = piece@;
    r.push(piece);
    assert(texts(r@) =~= texts(done).push(last));
    r
}

/// A list of texts with `sep` between neighbours.
pub open spec fn join_with(parts: Seq<Seq<char>>, sep: Seq<char>) -> Seq<char>
    decreases parts.len(),
{
    if parts.len() == 0 {
        Seq::empty()
    } else if parts.len() == 1 {
        parts[0]
    } else {
        join_with(parts.drop_last(), sep) + sep + parts.last()
    }
}

/// Joins strings with a separator between neighbours.
pub fn join(parts: &[String], sep: &str) -> (r: String)
    ensures
        r@ == join_with(texts(parts@), sep@),
{
    let mut r = String::new();
    let mut i: usize = 0;
    assert(texts(parts@).take(0) =~= Seq::<Seq<char>>::empty());
    while i < parts.len()
        invariant
            i <= parts.len(),
            r@ == join_with(texts(parts@).take(i as int), sep@),
        decreases parts.len() - i,
    {
        assert(texts(parts@).take(i + 1).drop_last() =~= texts(parts@).take(i as int));
        if i > 0 {
            r.append(sep);
        } else {
            assert(parts@[0]@ =~= r@ + parts@[0]@);
        }
        r.append(parts[i].as_str());
        i = i + 1;
    }
    assert(texts(parts@).take(parts@.len() as int) =~= texts(parts@));
    r
}

/// A text between two others.
pub(crate) fn around(before: &str, text: &str, after: &str) -> (r: String)
    ensures
        r@ == before@ + text@ + after@,
{
    let mut r = before.to_owned();
    r.append(text);
    r.append(after);
    r
}

/// Whether `needle` occurs in `hay` at position `at`.
pub open spec fn occurs_at(hay: Seq<char>, needle: Seq<char>, at: int) -> bool {
    0 <= at && at + needle.len() <= hay.len() && hay.subrange(at, at + needle.len()) == needle
}

/// Whether `needle` occurs somewhere in `hay`.
pub open spec fn contains_text(hay: Seq<char>, needle: Seq<char>) -> bool {
    exists|at: int| occurs_at(hay, needle, at)
}

fn holds_at(hay: &Vec<char>, needle: &Vec<char>, at: usize) -> (r: bool)
    requires
        at + needle.len() <= hay.len(),
    ensures
        r == occurs_at(hay@, needle@, at as int),
{
    let mut i: usize = 0;
    while i < needle.len()
        invariant
            i <= needle.len(),
            at + needle.len() <= hay.len(),
            forall|k: int| 0 <= k < i ==> hay@[at + k] == needle@[k],
        decreases needle.len() - i,
    {
        if hay[at + i] != needle[i] {
            assert(hay@.subrange(at as int, at + needle@.len())[i as int] != needle@[i as int]);
            return false;
        }
        i = i + 1;
    }
    assert(hay@.subrange(at as int, at + needle@.len()) =~= needle@);
    true
}

/// Whether a string contains another.
pub fn contains(hay: &str, needle: &str) -> (r: bool)
    ensures
        r == contains_text(hay@, needle@),
{
    let h: Vec<char> = chars_of(hay);
    let n: Vec<char> = chars_of(needle);
    if n.len() > h.len() {
        return false;
    }
    let mut i: usize = 0;
    while i <= h.len() - n.len()
        invariant
            n.len() <= h.len(),
            i <= h.len() - n.len() + 1,
            h@ == hay@,
            n@ == needle@,
            forall|k: int| 0 <= k < i ==> !occurs_at(hay@, needle@, k),
        decreases h.len() + 1 - i,
    {
        if holds_at(&h, &n, i) {
            return true;
        }
        if i == h.len() - n.len() {
            return false;
        }
        i = i + 1;
    }
    false
}

/// Whether a string ends with another.
pub fn ends_with(hay: &str, tail: &str) -> (r: bool)
    ensures
        r == tail@.is_suffix_of(hay@),
{
    let h: Vec<char> = chars_of(hay);
    let n: Vec<char> = chars_of(tail);
    if n.len() > h.len() {
        return false;
    }
    holds_at(&h, &n, h.len() - n.len())
}

/// The characters with the Unicode property White_Space.
pub open spec fn is_white(c: char) -> bool {
    ||| '\u{9}' <= c && c <= '\u{d}'
    ||| c == ' '
    ||| c == '\u{85}'
    ||| c == '\u{a0}'
    ||| c == '\u{1680}'
    ||| '\u{2000}' <= c && c <= '\u{200a}'
    ||| c == '\u{2028}'
    ||| c == '\u{2029}'
    ||| c == '\u{202f}'
    ||| c == '\u{205f}'
    ||| c == '\u{3000}'
}

/// Whether a character is white space.
pub fn white(c: char) -> (r: bool)
    ensures
        r == is_white(c),
{
    ('\u{9}' <= c && c <= '\u{d}') || c == ' ' || c == '\u{85}' || c == '\u{a0}' || c
        == '\u{1680}' || ('\u{2000}' <= c && c <= '\u{200a}') || c == '\u{2028}' || c == '\u{2029}'
        || c == '\u{202f}' || c == '\u{205f}' || c == '\u{3000}'
}

/// Whether a text is empty or all white space.
pub open spec fn is_blank(s: Seq<char>) -> bool {
    forall|i: int| 0 <= i < s.len() ==> is_white(#[trigger] s[i])
}

/// Whether a string is empty or all white space.
pub fn blank(s: &str) -> (r: bool)
    ensures
        r == is_blank(s@),
{
    let v: Vec<char> = chars_of(s);
    let mut i: usize = 0;
    while i < v.len()
        invariant
            i <= v.len(),
            v@ == s@,
            forall|k: int| 0 <= k < i ==> is_white(#[trigger] v@[k]),
        decreases v.len() - i,
    {
        if !white(v[i]) {
            assert(!is_white(s@[i as int]));
            return false;
        }
        i = i + 1;
    }
    true
}

/// A text without the white space at its two ends.
pub open spec fn trimmed(s: Seq<char>) -> Seq<char>
    decreases s.len(),
{
    if s.len() == 0 {
        s
    } else if is_white(s[0]) {
        trimmed(s.skip(1))
    } else if is_white(s.last()) {
        trimmed(s.drop_last())
    } else {
        s
    }
}

/// An ASCII capital letter made small; any other character as it is.
pub open spec fn ascii_small(c: char) -> char {
    if 'A' <= c && c <= 'Z' {
        (c as u32 + 32) as char
    } else {
        c
    }
}

/// A text with its ASCII capital letters made small.
pub open spec fn ascii_lower(s: Seq<char>) -> Seq<char> {
    Seq::new(s.len(), |i: int| ascii_small(s[i]))
}

fn small(c: char) -> (r: char)
    ensures
        r == ascii_small(c),
{
    if 'A' <= c && c <= 'Z' {
        (c as u8 + 32) as char
    } else {
        c
    }
}

/// Trims white space at both ends and makes ASCII capital letters small.
pub fn trim_lower(s: &str) -> (r: String)
    ensures
        r@ == ascii_lower(trimmed(s@)),
{
    let v: Vec<char> = chars_of(s);
    let mut from: usize = 0;
    let mut to: usize = v.len();
    assert(v@.subrange(0, v@.len() as int) =~= s@);
    while from < to && white(v[from])
        invariant
            from <= to <= v.len(),
            trimmed(v@.subrange(from as int, to as int)) == trimmed(s@),
        decreases to - from,
    {
        assert(v@.subrange(from as int, to as int).skip(1) =~= v@.subrange(from + 1, to as int));
        from = from + 1;
    }
    while from < to && white(v[to - 1])
        invariant
            from <= to <= v.len(),
            from < to ==> !is_white(v@[from as int]),
            trimmed(v@.subrange(from as int, to as int)) == trimmed(s@),
        decreases to - from,
    {
        assert(v@.subrange(from as int, to as int).drop_last() =~= v@.subrange(
            from as int,
            to - 1,
        ));
        to = to - 1;
    }
    let ghost core = v@.subrange(from as int, to as int);
    assert(trimmed(core) == core);
    let mut r = String::new();
    let mut i: usize = from;
    assert(r@ =~= ascii_lower(core).take(0));
    while i < to
        invariant
            from <= i <= to <= v.len(),
            core == v@.subrange(from as int, to as int),
            r@ == ascii_lower(core).take(i - from),
        decreases to - i,
    {
        r.push(small(v[i]));
        assert(r@ =~= ascii_lower(core).take(i + 1 - from));
        i = i + 1;
    }
    assert(r@ =~= ascii_lower(core));
    r
}

/// A text without the separator is one piece.
pub(crate) proof fn lemma_split_one(s: Seq<char>, sep: char)
    requires
        !s.contains(sep),
    ensures
        split_on(s, sep) == seq![s],
    decreases s.len(),
{
    if s.len() == 0 {
        assert(s =~= Seq::<char>::empty());
    } else {
        let front = s.drop_last();
        assert(s.contains(s.last())) by {
            assert(s[s.len() - 1] == s.last());
        }
        assert(!front.contains(sep)) by {
            if front.contains(sep) {
                let k = choose|k: int| 0 <= k < front.len() && front[k] == sep;
                assert(s[k] == sep);
            }
        }
        lemma_split_one(front, sep);
        assert(front.push(s.last()) =~= s);
        assert(split_on(s, sep) =~= seq![s]);
    }
}

/// What stands behind the last separator is the last piece.
pub(crate) proof fn lemma_split_last(a: Seq<char>, b: Seq<char>, sep: char)
    requires
        !b.contains(sep),
    ensures
        split_on(a.push(sep) + b, sep) == split_on(a, sep).push(b),
    decreases b.len(),
{
    let s = a.push(sep) + b;
    if b.len() == 0 {
        assert(s =~= a.push(sep));
        assert(s.drop_last() =~= a);
        assert(b =~= Seq::<char>::empty());
    } else {
        let front = b.drop_last();
        assert(b.contains(b.last())) by {
            assert(b[b.len() - 1] == b.last());
        }
        assert(!front.contains(sep)) by {
            if front.contains(sep) {
                let k = choose|k: int| 0 <= k < front.len() && front[k] == sep;
                assert(b[k] == sep);
            }
        }
        lemma_split_last(a, front, sep);
        assert(s.drop_last() =~= a.push(sep) + front);
        assert(front.push(b.last()) =~= b);
        assert(split_on(s, sep) =~= split_on(a, sep).push(b));
    }
}

/// The list of contents has each string at its place, with each of its
/// characters.
pub proof fn law_texts_are_the_strings(v: Seq<String>, i: int)
    requires
        0 <= i < v.len(),
    ensures
        texts(v).len() == v.len(),
        texts(v)[i] == v[i]@,
{
}

/// A number in decimal is written one digit behind the other: the digits from
/// zero to nine are the characters from 48 to 57, and one more digit behind a
/// number is ten times that number and the digit.
pub proof fn law_decimal_digit_by_digit(n: nat, d: nat)
    requires
        d < 10,
    ensures
        decimal(d) == seq![(48 + d) as char],
        n > 0 ==> decimal(10 * n + d) == decimal(n).push((48 + d) as char),
{
    if n > 0 {
        assert((10 * n + d) / 10 == n);
        assert((10 * n + d) % 10 == d);
    }
}

/// Different numbers are written differently.
pub proof fn law_decimal_tells_numbers_apart(a: nat, b: nat)
    requires
        decimal(a) == decimal(b),
    ensures
        a == b,
{
    lemma_decimal_digits(a);
    lemma_decimal_digits(b);
}

/// Digits are read from left to right: one more of them makes ten times the
/// number and the digit.
pub proof fn law_digits_are_read_in_order(s: Seq<char>, d: nat)
    requires
        d < 10,
    ensures
        digits_value(Seq::<char>::empty()) == 0,
        digits_value(s.push((48 + d) as char)) == 10 * digits_value(s) + d,
{
    assert(s.push((48 + d) as char).drop_last() =~= s);
}

/// A run of digits is a port exactly where its number is below 65536, with or
/// without one plus sign in front; it is then that number.
pub proof fn law_digits_are_a_port(s: Seq<char>)
    requires
        s.len() > 0,
        forall|i: int| 0 <= i < s.len() ==> '0' <= #[trigger] s[i] && s[i] <= '9',
    ensures
        match port_value(s) {
            Some(p) => p == digits_value(s),
            None => digits_value(s) >= 65536,
        },
        port_value(seq!['+'] + s) == port_value(s),
{
    assert(s[0] != '+');
    assert((seq!['+'] + s).skip(1) =~= s);
    assert forall|i: int| 0 <= i < s.len() implies is_digit(#[trigger] s[i]) by {}
}

/// Whatever is read as a port holds nothing but digits, at least one, behind a
/// plus sign at most.
pub proof fn law_ports_are_digits(s: Seq<char>)
    requires
        port_value(s) is Some,
    ensures
        s.len() > 0,
        s[s.len() - 1] != '+',
        forall|i: int|
            0 <= i < s.len() ==> ('0' <= #[trigger] s[i] && s[i] <= '9') || (i == 0 && s[i] == '+'),
{
    let d = unsigned_digits(s);
    assert forall|i: int| 0 <= i < s.len() implies ('0' <= #[trigger] s[i] && s[i] <= '9') || (i
        == 0 && s[i] == '+') by {
        if s[0] == '+' {
            if i > 0 {
                assert(is_digit(d[i - 1]));
            }
        } else {
            assert(is_digit(d[i]));
        }
    }
    if s[0] == '+' {
        assert(is_digit(d[d.len() - 1]));
    }
}

/// The pieces of a text are those without the separator that, with one separator
/// between each two, are the text.
pub proof fn law_pieces_make_the_text(s: Seq<char>, sep: char)
    ensures
        split_on(s, sep).len() > 0,
        join_with(split_on(s, sep), seq![sep]) == s,
        forall|i: int, k: int|
            0 <= i < split_on(s, sep).len() && 0 <= k < split_on(s, sep)[i].len() ==> (
            #[trigger] split_on(s, sep)[i][k]) != sep,
    decreases s.len(),
{
    let pieces = split_on(s, sep);
    let glue = seq![sep];
    if s.len() == 0 {
        assert(join_with(pieces, glue) =~= s);
    } else {
        law_pieces_make_the_text(s.drop_last(), sep);
        let before = split_on(s.drop_last(), sep);
        assert(s.drop_last().push(s.last()) =~= s);
        if s.last() == sep {
            assert(pieces.drop_last() =~= before);
            assert(join_with(pieces, glue) =~= s);
        } else {
            assert(pieces.drop_last() =~= before.drop_last());
            if before.len() == 1 {
                assert(join_with(before, glue) == before[0]);
                assert(join_with(pieces, glue) =~= s);
            } else {
                assert(join_with(pieces, glue) =~= s);
            }
            assert forall|i: int, k: int|
                0 <= i < pieces.len() && 0 <= k < pieces[i].len() implies (#[trigger] pieces[i][k])
                != sep by {
                if i < pieces.len() - 1 {
                    assert(pieces[i] == before[i]);
                    assert(before[i][k] != sep);
                } else if k < pieces[i].len() - 1 {
                    assert(before[i][k] != sep);
                }
            }
        }
    }
}

/// Joining puts one separator in front of every text but the first, and nothing
/// else between them.
pub proof fn law_joining_text_by_text(parts: Seq<Seq<char>>, last: Seq<char>, sep: Seq<char>)
    ensures
        join_with(Seq::<Seq<char>>::empty(), sep) == Seq::<char>::empty(),
        join_with(seq![last], sep) == last,
        parts.len() > 0 ==> join_with(parts.push(last), sep) == join_with(parts, sep) + sep + last,
{
    if parts.len() > 0 {
        assert(parts.push(last).drop_last() =~= parts);
    }
}

/// A text contains another exactly where it is that text with something, or
/// nothing, in front and behind.
pub proof fn law_contained_text_has_a_place(hay: Seq<char>, needle: Seq<char>)
    ensures
        contains_text(hay, needle) <==> exists|a: Seq<char>, b: Seq<char>|
            hay == #[trigger] (a + needle + b),
{
    if contains_text(hay, needle) {
        let at = choose|at: int| occurs_at(hay, needle, at);
        let a = hay.take(at);
        let b = hay.skip(at + needle.len());
        assert(hay =~= a + needle + b);
    }
    if exists|a: Seq<char>, b: Seq<char>| hay == #[trigger] (a + needle + b) {
        let (a, b) = choose|a: Seq<char>, b: Seq<char>| hay == #[trigger] (a + needle + b);
        assert(hay.subrange(a.len() as int, (a.len() + needle.len()) as int) =~= needle);
        assert(occurs_at(hay, needle, a.len() as int));
    }
}

/// White space is what Unicode calls so, by the numbers of the characters.
pub proof fn law_white_space_by_number(c: char)
    ensures
        is_white(c) <==> {
            let n = c as int;
            ||| 9 <= n <= 13
            ||| n == 32
            ||| n == 133
            ||| n == 160
            ||| n == 5760
            ||| 8192 <= n <= 8202
            ||| n == 8232
            ||| n == 8233
            ||| n == 8239
            ||| n == 8287
            ||| n == 12288
        },
{
}

proof fn lemma_trimmed_blank(s: Seq<char>)
    requires
        forall|i: int| 0 <= i < s.len() ==> is_white(#[trigger] s[i]),
    ensures
        trimmed(s) == Seq::<char>::empty(),
    decreases s.len(),
{
    if s.len() > 0 {
        assert(is_white(s[0]));
        assert forall|i: int| 0 <= i < s.skip(1).len() implies is_white(#[trigger] s.skip(1)[i]) by {
            assert(is_white(s[i + 1]));
        }
        lemma_trimmed_blank(s.skip(1));
    } else {
        assert(s =~= Seq::<char>::empty());
    }
}

/// Trimming takes the white space in front and behind away and nothing else.
pub proof fn law_trimming_keeps_the_core(a: Seq<char>, core: Seq<char>, b: Seq<char>)
    requires
        forall|i: int| 0 <= i < a.len() ==> is_white(#[trigger] a[i]),
        forall|i: int| 0 <= i < b.len() ==> is_white(#[trigger] b[i]),
        core.len() > 0 ==> !is_white(core[0]) && !is_white(core[core.len() - 1]),
    ensures
        trimmed(a + core + b) == core,
    decreases a.len() + b.len(),
{
    let s = a + core + b;
    if core.len() == 0 {
        assert forall|i: int| 0 <= i < s.len() implies is_white(#[trigger] s[i]) by {
            if i < a.len() {
                assert(s[i] == a[i]);
            } else {
                assert(s[i] == b[i - a.len()]);
            }
        }
        lemma_trimmed_blank(s);
        assert(core =~= Seq::<char>::empty());
    } else if a.len() > 0 {
        assert(s[0] == a[0] && is_white(a[0]));
        assert(s.skip(1) =~= a.skip(1) + core + b);
        assert forall|i: int| 0 <= i < a.skip(1).len() implies is_white(#[trigger] a.skip(1)[i]) by {
            assert(is_white(a[i + 1]));
        }
        law_trimming_keeps_the_core(a.skip(1), core, b);
    } else if b.len() > 0 {
        assert(s[0] == core[0]);
        assert(s.last() == b[b.len() - 1] && is_white(b[b.len() - 1]));
        assert(s.drop_last() =~= a + core + b.drop_last());
        assert forall|i: int| 0 <= i < b.drop_last().len() implies is_white(
            #[trigger] b.drop_last()[i],
        ) by {
            assert(is_white(b[i]));
        }
        law_trimming_keeps_the_core(a, core, b.drop_last());
    } else {
        assert(s =~= core);
    }
}

/// A text is blank exactly where nothing is left of it when it is trimmed.
pub proof fn law_blank_is_trimmed_away(s: Seq<char>)
    ensures
        is_blank(s) <==> trimmed(s).len() == 0,
    decreases s.len(),
{
    if is_blank(s) {
        lemma_trimmed_blank(s);
    } else {
        let k = choose|k: int| 0 <= k < s.len() && !is_white(#[trigger] s[k]);
        if is_white(s[0]) {
            assert(!is_white(s.skip(1)[k - 1]));
            law_blank_is_trimmed_away(s.skip(1));
        } else if is_white(s.last()) {
            assert(!is_white(s.drop_last()[k]));
            law_blank_is_trimmed_away(s.drop_last());
        }
    }
}

/// Making ASCII capitals small keeps the length and every other character, and
/// turns A to Z, the characters from 65 to 90, into those 32 further on.
pub proof fn law_small_letters_by_number(s: Seq<char>, i: int)
    requires
        0 <= i < s.len(),
    ensures
        ascii_lower(s).len() == s.len(),
        65 <= s[i] as int <= 90 ==> ascii_lower(s)[i] as int == s[i] as int + 32,
        !(65 <= s[i] as int <= 90) ==> ascii_lower(s)[i] == s[i],
{
}

} // verus!
