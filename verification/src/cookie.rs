//! The cookies that the service knows, and the themes of its pages.

use crate::text::same_text;
use vstd::prelude::*;
use vstd::string::StringExecFns;

verus! {

/// A text that names neither what was asked for.
#[derive(Clone, Copy, Debug, PartialEq, Eq, Structural)]
pub struct ParseError;

/// The cookies of the service.
#[allow(non_camel_case_types)]
#[derive(Clone, Copy, Debug, PartialEq, Eq, Structural)]
pub enum Cookie {
    /// Carries the session token.
    TOKEN,
    /// Carries the theme that the user chose.
    THEME,
}

impl Cookie {
    /// The name of the cookie as it stands in a request.
    pub open spec fn name(self) -> Seq<char> {
        match self {
            Cookie::TOKEN => "token"@,
            Cookie::THEME => "theme"@,
        }
    }

    /// The name of the cookie as it stands in a request.
    pub fn as_str(&self) -> (s: &'static str)
        ensures
            s@ == self.name(),
    {
        match self {
            Cookie::TOKEN => "token",
            Cookie::THEME => "theme",
        }
    }

    /// The name of the cookie, as a text of its own.
    pub fn to_text(&self) -> (s: String)
        ensures
            s@ == self.name(),
    {
        String::from_str(self.as_str())
    }

    /// The two cookies have different names.
    pub proof fn lemma_names_differ()
        ensures
            Cookie::TOKEN.name() != Cookie::THEME.name(),
    {
        reveal_strlit("token");
        reveal_strlit("theme");
        assert("token"@[1] != "theme"@[1]);
    }

    /// The cookie that `value` names: `token` or `theme`, to the letter.
    pub fn try_from(value: &str) -> (r: Result<Cookie, ParseError>)
        ensures
            value@ == Cookie::TOKEN.name() ==> r == Ok::<Cookie, ParseError>(Cookie::TOKEN),
            value@ == Cookie::THEME.name() ==> r == Ok::<Cookie, ParseError>(Cookie::THEME),
            value@ != Cookie::TOKEN.name() && value@ != Cookie::THEME.name() ==> r == Err::<
                Cookie,
                ParseError,
            >(ParseError),
    {
        proof {
            Cookie::lemma_names_differ();
        }
        if same_text(value, "token") {
            Ok(Cookie::TOKEN)
        } else if same_text(value, "theme") {
            Ok(Cookie::THEME)
        } else {
            Err(ParseError)
        }
    }
}

/// The themes of the pages.
#[derive(Clone, Copy, Debug, PartialEq, Eq, Structural)]
pub enum Theme {
    Dark,
    Light,
}

impl Theme {
    /// The name of the theme as it stands in a cookie.
    pub open spec fn name(self) -> Seq<char> {
        match self {
            Theme::Dark => "dark"@,
            Theme::Light => "light"@,
        }
    }

    /// The name of the theme as it stands in a cookie.
    pub fn as_str(&self) -> (s: &'static str)
        ensures
            s@ == self.name(),
    {
        match self {
            Theme::Dark => "dark",
            Theme::Light => "light",
        }
    }

    /// The name of the theme, as a text of its own.
    pub fn to_text(&self) -> (s: String)
        ensures
            s@ == self.name(),
    {
        String::from_str(self.as_str())
    }

    /// The two themes have different names.
    pub proof fn lemma_names_differ()
        ensures
            Theme::Dark.name() != Theme::Light.name(),
    {
        reveal_strlit("dark");
        reveal_strlit("light");
        assert("dark"@.len() != "light"@.len());
    }

    /// The theme that `value` names: `dark` or `light`, to the letter.
    pub fn try_from(value: &str) -> (r: Result<Theme, ParseError>)
        ensures
            value@ == Theme::Dark.name() ==> r == Ok::<Theme, ParseError>(Theme::Dark),
            value@ == Theme::Light.name() ==> r == Ok::<Theme, ParseError>(Theme::Light),
            value@ != Theme::Dark.name() && value@ != Theme::Light.name() ==> r == Err::<
                Theme,
                ParseError,
            >(ParseError),
    {
        proof {
            Theme::lemma_names_differ();
        }
        if same_text(value, "dark") {
            Ok(Theme::Dark)
        } else if same_text(value, "light") {
            Ok(Theme::Light)
        } else {
            Err(ParseError)
        }
    }
}

} // verus!
