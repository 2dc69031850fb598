//! Character-level helpers and the pattern engine.

use vstd::prelude::*;
use vstd::string::*;
use vstd::utf8::{decode_utf8, valid_utf8};

verus! {

/// The lower-case form of an ASCII letter; any other character is itself.
pub open spec fn lower(c: char) -> char {
    if 'A' <= c && c <= 'Z' {
        ((c as u8 + 32) as u8) as char
    } else {
        c
    }
}

/// A string with its ASCII letters in lower case.
pub open spec fn folded(s: Seq<char>) -> Seq<char> {
    Seq::new(s.len(), |i: int| lower(s[i]))
}

/// Whether two names are equal up to the case of their ASCII letters.
pub open spec fn same_name(a: Seq<char>, b: Seq<char>) -> bool {
    folded(a) == folded(b)
}

/// Whether `c` is a decimal digit or one of the letters `a` to `f`.
pub open spec fn is_lower_hex(c: char) -> bool {
    ('0' <= c && c <= '9') || ('a' <= c && c <= 'f')
}

/// The characters of a string, in order.
pub fn chars_of(s: &str) -> (v: Vec<char>)
    ensures
        v@ == s@,
{
    let mut v: Vec<char> = Vec::new();
    for c in it: s.chars()
        invariant
            it.seq() == s@,
            v@ == it.seq().take(it.index() as int),
    {
        v.push(c);
    }
    v
}

fn lower_exec(c: char) -> (r: char)
    ensures
        r == lower(c),
{
    if 'A' <= c && c <= 'Z' {
        ((c as u8) + 32) as char
    } else {
        c
    }
}

/// Compares two names without regard to the case of ASCII letters.
pub fn names_match(a: &str, b: &str) -> (r: bool)
    ensures
        r == same_name(a@, b@),
{
    let x = chars_of(a);
    let y = chars_of(b);
    if x.len() != y.len() {
        assert(folded(a@).len() != folded(b@).len());
        return false;
    }
    let mut i: usize = 0;
    while i < x.len()
        invariant
            x@ == a@,
            y@ == b@,
            x.len() == y.len(),
            i <= x.len(),
            forall|j: int| 0 <= j < i ==> lower(a@[j]) == lower(b@[j]),
        decreases x.len() - i,
    {
        if lower_exec(x[i]) != lower_exec(y[i]) {
            assert(folded(a@)[i as int] != folded(b@)[i as int]);
            return false;
        }
        i += 1;
    }
    assert(folded(a@) =~= folded(b@));
    true
}

/// Whether `part` stands in `text` at `i` and no lower-case hex digit
/// follows it there.
pub open spec fn ends_at(part: Seq<char>, text: Seq<char>, i: int) -> bool {
    &&& 0 <= i
    &&& i + part.len() <= text.len()
    &&& text.subrange(i, i + part.len()) == part
    &&& i + part.len() < text.len() ==> !is_lower_hex(text[i + part.len()])
}

/// Whether `part` stands somewhere in `text` with no lower-case hex digit
/// right after it.
pub open spec fn ends_in(part: Seq<char>, text: Seq<char>) -> bool {
    exists|i: int| ends_at(part, text, i)
}

/// Group 1 of the leftmost match of `pattern` in `text`, as the `regex` crate
/// finds it; `None` where the pattern does not compile, nothing matches, or
/// the group took no part in the match.
pub uninterp spec fn first_group_of(pattern: Seq<char>, text: Seq<char>) -> Option<Seq<char>>;

/// Compiles `pattern` with `regex::Regex::new`, searches `text` with
/// `Regex::captures` and copies out group 1. The result is a function of the
/// two strings alone.
#[verifier::external_body]
pub(crate) fn first_group(pattern: &str, text: &str) -> (r: Option<String>)
    ensures
        r.deep_view() == first_group_of(pattern@, text@),
{
    match regex::Regex::new(pattern) {
        Ok(re) => match re.captures(text) {
            Some(caps) => caps.get(1).map(|m| String::from(m.as_str())),
            None => None,
        },
        Err(_) => None,
    }
}

/// `text` with every match of `pattern` replaced by `replacement` as it is
/// written, the matches taken from the left and not overlapping, as the
/// `regex` crate finds them; `text` itself where the pattern does not
/// compile.
pub uninterp spec fn each_replaced(
    pattern: Seq<char>,
    text: Seq<char>,
    replacement: Seq<char>,
) -> Seq<char>;

/// Compiles `pattern` with `regex::Regex::new` and calls
/// `Regex::replace_all` with the replacement as `regex::NoExpand`, so that
/// nothing in it is read as a reference to a group. The result is a function
/// of the three strings alone.
#[verifier::external_body]
pub(crate) fn replace_each(pattern: &str, text: &str, replacement: &str) -> (r: String)
    ensures
        r@ == each_replaced(pattern@, text@, replacement@),
{
    match regex::Regex::new(pattern) {
        Ok(re) => re.replace_all(text, regex::NoExpand(replacement)).into_owned(),
        Err(_) => String::from(text),
    }
}

/// Compares two strings character by character.
pub fn same_text(a: &str, b: &str) -> (r: bool)
    ensures
        r == (a@ == b@),
{
    let x = chars_of(a);
    let y = chars_of(b);
    same_chars(&x, &y)
}

/// Compares two character sequences.
pub fn same_chars(x: &Vec<char>, y: &Vec<char>) -> (r: bool)
    ensures
        r == (x@ == y@),
{
    if x.len() != y.len() {
        return false;
    }
    let mut i: usize = 0;
    while i < x.len()
        invariant
            x.len() == y.len(),
            i <= x.len(),
            forall|j: int| 0 <= j < i ==> x@[j] == y@[j],
        decreases x.len() - i,
    {
        if x[i] != y[i] {
            return false;
        }
        i += 1;
    }
    assert(x@ =~= y@);
    true
}

/// The pieces that `rest` adds to a piece `cur` already begun: a separator
/// ends a piece, and empty pieces are left out.
pub open spec fn pieces(rest: Seq<char>, cur: Seq<char>) -> Seq<Seq<char>>
    decreases rest.len(),
{
    let done = if cur.len() > 0 {
        seq![cur]
    } else {
        Seq::empty()
    };
    if rest.len() == 0 {
        done
    } else if rest[0] == '/' {
        done + pieces(rest.drop_first(), Seq::empty())
    } else {
        pieces(rest.drop_first(), cur.push(rest[0]))
    }
}

/// The non-empty segments of a path, in order.
pub open spec fn segments(path: Seq<char>) -> Seq<Seq<char>> {
    pieces(path, Seq::empty())
}

/// The sequences that a vector of character vectors stands for.
pub open spec fn rows(v: Seq<Vec<char>>) -> Seq<Seq<char>> {
    Seq::new(v.len(), |i: int| v[i]@)
}

/// Splits a path at its separators and leaves out the empty segments.
pub fn split_segments(path: &str) -> (r: Vec<Vec<char>>)
    ensures
        rows(r@) == segments(path@),
{
    let c = chars_of(path);
    let mut out: Vec<Vec<char>> = Vec::new();
    let mut cur: Vec<char> = Vec::new();
    let mut i: usize = 0;
    assert(c@.skip(0) =~= c@);
    while i < c.len()
        invariant
            c@ == path@,
            i <= c.len(),
            segments(path@) == rows(out@) + pieces(c@.skip(i as int), cur@),
        decreases c.len() - i,
    {
        assert(c@.skip(i as int).drop_first() =~= c@.skip(i + 1));
        if c[i] == '/' {
            if cur.len() > 0 {
                out.push(cur);
                cur = Vec::new();
            } else {
                assert(cur@ =~= Seq::<char>::empty());
            }
        } else {
            cur.push(c[i]);
        }
        i += 1;
    }
    if cur.len() > 0 {
        out.push(cur);
    }
    out
}

/// `s` with every occurrence of `from` replaced by `to`, the occurrences
/// taken from the left and not overlapping. An empty `from` occurs nowhere.
pub open spec fn replaced(s: Seq<char>, from: Seq<char>, to: Seq<char>) -> Seq<char>
    decreases s.len(),
{
    if from.len() == 0 || s.len() < from.len() {
        s
    } else if s.take(from.len() as int) == from {
        to + replaced(s.skip(from.len() as int), from, to)
    } else {
        seq![s[0]] + replaced(s.skip(1), from, to)
    }
}

fn occurs_at(c: &Vec<char>, i: usize, from: &Vec<char>) -> (r: bool)
    requires
        i + from.len() <= c.len(),
    ensures
        r == (c@.skip(i as int).take(from.len() as int) == from@),
{
    let ghost window = c@.skip(i as int).take(from.len() as int);
    let mut j: usize = 0;
    while j < from.len()
        invariant
            i + from.len() <= c.len(),
            j <= from.len(),
            window == c@.skip(i as int).take(from.len() as int),
            forall|k: int| 0 <= k < j ==> window[k] == from@[k],
        decreases from.len() - j,
    {
        if c[i + j] != from[j] {
            return false;
        }
        j += 1;
    }
    assert(window =~= from@);
    true
}

/// Looks for a place in `text` where `part` stands and no lower-case hex
/// digit follows it.
pub fn contains_ended(text: &Vec<char>, part: &Vec<char>) -> (r: bool)
    ensures
        r == ends_in(part@, text@),
{
    let n = text.len();
    let m = part.len();
    if m > n {
        return false;
    }
    let mut i: usize = 0;
    loop
        invariant
            n == text.len(),
            m == part.len(),
            m <= n,
            i <= n - m,
            forall|j: int| 0 <= j < i ==> !ends_at(part@, text@, j),
        decreases n - m - i,
    {
        assert(text@.skip(i as int).take(m as int) =~= text@.subrange(i as int, i + m));
        if occurs_at(text, i, part) {
            if i + m == n {
                assert(ends_at(part@, text@, i as int));
                return true;
            }
            let next = text[i + m];
            if !(('0' <= next && next <= '9') || ('a' <= next && next <= 'f')) {
                assert(ends_at(part@, text@, i as int));
                return true;
            }
        }
        if i == n - m {
            return false;
        }
        i += 1;
    }
}

/// Replaces every occurrence of `from` in `s` by `to`. An empty `from`
/// occurs nowhere.
pub fn replace_all(s: &str, from: &Vec<char>, to: &str) -> (r: String)
    ensures
        r@ == replaced(s@, from@, to@),
{
    let c = chars_of(s);
    let n = c.len();
    let m = from.len();
    if m == 0 {
        return String::from_str(s);
    }
    let mut out = String::new();
    let mut kept: usize = 0;
    let mut i: usize = 0;
    assert(c@.skip(0) =~= c@);
    while i < n && n - i >= m
        invariant
            c@ == s@,
            n == c.len(),
            m == from.len(),
            m > 0,
            kept <= i <= n,
            replaced(s@, from@, to@) == out@ + s@.subrange(kept as int, i as int) + replaced(
                c@.skip(i as int),
                from@,
                to@,
            ),
        decreases n - i,
    {
        if occurs_at(&c, i, from) {
            out.append(s.substring_char(kept, i));
            out.append(to);
            assert(c@.skip(i as int).skip(m as int) =~= c@.skip(i + m));
            i += m;
            kept = i;
        } else {
            assert(c@.skip(i as int).skip(1) =~= c@.skip(i + 1));
            i += 1;
        }
    }
    out.append(s.substring_char(kept, n));
    out
}

/// The text that bytes spell in UTF-8. Calls `std::str::from_utf8`, which
/// succeeds exactly on well-formed UTF-8 and then yields the decoded text.
#[verifier::external_body]
pub(crate) fn utf8_text(bytes: &[u8]) -> (r: Option<String>)
    ensures
        r is Some <==> valid_utf8(bytes@),
        r is Some ==> r->0@ == decode_utf8(bytes@),
{
    match std::str::from_utf8(bytes) {
        Ok(s) => Some(String::from(s)),
        Err(_) => None,
    }
}

/// What an optional byte vector stands for.
pub open spec fn bytes_of(r: Option<Vec<u8>>) -> Option<Seq<u8>> {
    match r {
        Some(v) => Some(v@),
        None => None,
    }
}

/// The last segment of a path: what follows its last separator, or all of
/// it where it has none.
pub open spec fn last_segment(path: Seq<char>) -> Seq<char>
    decreases path.len(),
{
    if path.len() == 0 || path.last() == '/' {
        Seq::empty()
    } else {
        last_segment(path.drop_last()).push(path.last())
    }
}

/// Whether `text` ends with `part`.
pub open spec fn ends_with(text: Seq<char>, part: Seq<char>) -> bool {
    part.len() <= text.len() && text.skip(text.len() - part.len()) == part
}

/// Finds where the last segment of a path begins: behind its last separator.
pub fn last_segment_start(path: &Vec<char>) -> (start: usize)
    ensures
        start <= path.len(),
        path@.skip(start as int) == last_segment(path@),
        forall|j: int| start <= j < path.len() ==> path@[j] != '/',
        start > 0 ==> path@[start - 1] == '/',
{
    let n = path.len();
    let mut start: usize = n;
    assert(path@.take(n as int) =~= path@);
    assert(last_segment(path@) =~= last_segment(path@.take(n as int)) + path@.skip(n as int));
    while start > 0 && path[start - 1] != '/'
        invariant
            n == path.len(),
            start <= n,
            last_segment(path@) == last_segment(path@.take(start as int)) + path@.skip(start as int),
            forall|j: int| start <= j < n ==> path@[j] != '/',
        decreases start,
    {
        let ghost head = path@.take(start as int);
        assert(head.drop_last() =~= path@.take(start - 1));
        assert(head.last() == path@[start - 1]);
        assert(last_segment(head) == last_segment(path@.take(start - 1)).push(path@[start - 1]));
        assert(last_segment(head) + path@.skip(start as int) =~= last_segment(
            path@.take(start - 1),
        ) + path@.skip(start - 1));
        start -= 1;
    }
    assert(last_segment(path@.take(start as int)) =~= Seq::<char>::empty()) by {
        if start > 0 {
            assert(path@.take(start as int).last() == path@[start - 1]);
        }
    }
    assert(last_segment(path@) =~= path@.skip(start as int));
    start
}

} // verus!
