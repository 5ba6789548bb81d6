//! What a request carries in its cookies.

use crate::cookie::{Cookie, Theme as PageTheme};
use crate::text::same_text;
use vstd::prelude::*;
use vstd::string::{StrSliceExecFns, StringExecFns};

verus! {

/// Whether `i` is where `s` is cut at `c`: at the first `c`, or at the end
/// where there is none.
pub open spec fn is_cut(s: Seq<char>, c: char, i: int) -> bool {
    &&& 0 <= i <= s.len()
    &&& i < s.len() ==> s[i] == c
    &&& forall|k: int| 0 <= k < i ==> s[k] != c
}

/// Where `s` is cut at `c`.
pub open spec fn cut(s: Seq<char>, c: char) -> int {
    choose|i: int| is_cut(s, c, i)
}

/// A text is cut at one place only.
pub proof fn lemma_cut(s: Seq<char>, c: char, i: int)
    requires
        is_cut(s, c, i),
    ensures
        cut(s, c) == i,
{
    let j = cut(s, c);
    assert(is_cut(s, c, j));
    if j < i {
        assert(s[j] != c);
    } else if i < j {
        assert(s[i] != c);
    }
}

/// The value of the cookie `name` in the cookie header `header`.
///
/// The header is a list of pairs, parted by `;`. A pair is a name and a
/// value, parted by `=`; the value ends at a further `=`. The first pair
/// with the name, to the letter, gives the value. Nothing is trimmed: a
/// blank after the `;` belongs to the name.
pub open spec fn cookie_in(header: Seq<char>, name: Seq<char>) -> Option<Seq<char>>
    decreases header.len(),
{
    let end = cut(header, ';');
    let pair = header.take(end);
    let eq = cut(pair, '=');
    if eq < pair.len() && pair.take(eq) == name {
        let rest = pair.skip(eq + 1);
        Some(rest.take(cut(rest, '=')))
    } else if 0 <= end < header.len() {
        cookie_in(header.skip(end + 1), name)
    } else {
        None
    }
}

/// The first place at or after `from` and before `to` where `text` has
/// `c`, or `to`.
fn find_from(text: &str, from: usize, to: usize, c: char) -> (at: usize)
    requires
        from <= to <= text@.len(),
    ensures
        from <= at <= to,
        is_cut(text@.subrange(from as int, to as int), c, at - from),
{
    let mut at: usize = from;
    while at < to && text.get_char(at) != c
        invariant
            from <= at <= to <= text@.len(),
            forall|k: int| from <= k < at ==> text@[k] != c,
        decreases to - at,
    {
        at = at + 1;
    }
    at
}

/// Reads the value of a cookie from a cookie header.
pub fn cookie_value(header: &str, wanted: Cookie) -> (r: Option<String>)
    ensures
        match cookie_in(header@, wanted.name()) {
            Some(value) => r is Some && r->0@ == value,
            None => r is None,
        },
{
    let n: usize = header.unicode_len();
    let mut start: usize = 0;
    assert(header@.skip(0) =~= header@);
    loop
        invariant
            start <= n,
            n == header@.len(),
            cookie_in(header@, wanted.name()) == cookie_in(
                header@.skip(start as int),
                wanted.name(),
            ),
        decreases n - start,
    {
        let ghost tail = header@.skip(start as int);
        let end: usize = find_from(header, start, n, ';');
        let eq: usize = find_from(header, start, end, '=');
        proof {
            assert(header@.subrange(start as int, n as int) =~= tail);
            lemma_cut(tail, ';', end - start);
            assert(header@.subrange(start as int, end as int) =~= tail.take(end - start));
            lemma_cut(tail.take(end - start), '=', eq - start);
        }
        if eq < end {
            let name = header.substring_char(start, eq);
            proof {
                assert(header@.subrange(start as int, eq as int) =~= tail.take(end - start).take(
                    eq - start,
                ));
            }
            if same_text(name, wanted.as_str()) {
                let stop: usize = find_from(header, eq + 1, end, '=');
                proof {
                    let rest = tail.take(end - start).skip(eq - start + 1);
                    assert(header@.subrange(eq + 1, end as int) =~= rest);
                    lemma_cut(rest, '=', stop - eq - 1);
                    assert(header@.subrange(eq + 1, stop as int) =~= rest.take(stop - eq - 1));
                }
                return Some(String::from_str(header.substring_char(eq + 1, stop)));
            }
        }
        if end >= n {
            return None;
        }
        proof {
            assert(tail.skip(end - start + 1) =~= header@.skip(end + 1));
        }
        start = end + 1;
    }
}

/// The request carries no cookie of the name asked for.
#[derive(Clone, Copy, Debug, PartialEq, Eq, Structural)]
pub enum Error {
    KeyNotFound,
}

/// The session token of a request.
#[derive(Debug, PartialEq, Eq)]
pub struct Token(pub String);

impl Token {
    /// The token that the cookie header of a request carries. A request
    /// without the header, or without the cookie in it, has none.
    pub fn from_cookies(header: Option<&str>) -> (r: Result<Token, Error>)
        ensures
            match header {
                Some(text) => match cookie_in(text@, Cookie::TOKEN.name()) {
                    Some(value) => r is Ok && r->Ok_0.0@ == value,
                    None => r == Err::<Token, Error>(Error::KeyNotFound),
                },
                None => r == Err::<Token, Error>(Error::KeyNotFound),
            },
    {
        match header {
            Some(text) => match cookie_value(text, Cookie::TOKEN) {
                Some(value) => Ok(Token(value)),
                None => Err(Error::KeyNotFound),
            },
            None => Err(Error::KeyNotFound),
        }
    }
}

/// The theme that a request asks for.
#[derive(Clone, Copy, Debug, PartialEq, Eq, Structural)]
pub struct Theme(pub PageTheme);

/// The theme that a cookie value names; the light one where it names none.
pub open spec fn theme_named(value: Seq<char>) -> PageTheme {
    if value == PageTheme::Dark.name() {
        PageTheme::Dark
    } else {
        PageTheme::Light
    }
}

impl Theme {
    /// The theme that the cookie header of a request asks for: the one that
    /// the theme cookie names, and the light one where the header, the
    /// cookie or a known name is missing.
    pub fn from_cookies(header: Option<&str>) -> (r: Theme)
        ensures
            r.0 == match header {
                Some(text) => match cookie_in(text@, Cookie::THEME.name()) {
                    Some(value) => theme_named(value),
                    None => PageTheme::Light,
                },
                None => PageTheme::Light,
            },
    {
        match header {
            Some(text) => match cookie_value(text, Cookie::THEME) {
                Some(value) => match PageTheme::try_from(value.as_str()) {
                    Ok(theme) => Theme(theme),
                    Err(_) => Theme(PageTheme::Light),
                },
                None => Theme(PageTheme::Light),
            },
            None => Theme(PageTheme::Light),
        }
    }
}

} // verus!
