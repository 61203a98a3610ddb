//! Uniform resource identifiers, as plain text components.

use crate::parsers::scanning::is_scheme_char;
use crate::text::to_chars;

use vstd::prelude::*;

verus! {

/// A URI: its text, and its components, each as the text that stands for
/// it.
#[derive(Clone, Debug, PartialEq, Eq, Hash)]
pub struct Uri {
    pub text: String,
    pub scheme: String,
    pub authority: Option<String>,
    pub username: Option<String>,
    pub password: Option<String>,
    pub host: Option<String>,
    pub port: Option<u16>,
    pub path: String,
    pub query: Option<String>,
    pub fragment: Option<String>,
}

/// What a `Uri` holds.
pub struct UriView {
    pub text: Seq<char>,
    pub scheme: Seq<char>,
    pub authority: Option<Seq<char>>,
    pub username: Option<Seq<char>>,
    pub password: Option<Seq<char>>,
    pub host: Option<Seq<char>>,
    pub port: Option<u16>,
    pub path: Seq<char>,
    pub query: Option<Seq<char>>,
    pub fragment: Option<Seq<char>>,
}

/// The text of an optional string.
pub open spec fn opt_text(o: Option<String>) -> Option<Seq<char>> {
    match o {
        Some(s) => Some(s@),
        None => None,
    }
}

impl View for Uri {
    type V = UriView;

    open spec fn view(&self) -> UriView {
        UriView {
            text: self.text@,
            scheme: self.scheme@,
            authority: opt_text(self.authority),
            username: opt_text(self.username),
            password: opt_text(self.password),
            host: opt_text(self.host),
            port: self.port,
            path: self.path@,
            query: opt_text(self.query),
            fragment: opt_text(self.fragment),
        }
    }
}

/// The components that `uriparse` finds in `text`, if `text` is a URI.
pub uninterp spec fn uriparse_uri(text: Seq<char>) -> Option<UriView>;

/// Whether `c` is an ASCII letter.
pub open spec fn is_ascii_letter(c: char) -> bool {
    let n = c as u32;
    (0x61 <= n <= 0x7a) || (0x41 <= n <= 0x5a)
}

/// Whether `text` begins with a scheme of `n` characters and its `:`: a
/// letter, then letters, digits, `+`, `.` and `-`.
pub open spec fn scheme_ends_at(text: Seq<char>, n: int) -> bool {
    &&& 1 <= n < text.len()
    &&& is_ascii_letter(text[0])
    &&& forall|k: int| 0 <= k < n ==> is_scheme_char(#[trigger] text[k])
    &&& text[n] == ':'
}

/// Whether `text` begins with a scheme and its `:`.
pub open spec fn has_scheme(text: Seq<char>) -> bool {
    exists|n: int| scheme_ends_at(text, n)
}

/// What `text` spells as a URI: nothing where it does not begin with a
/// scheme, and otherwise what `uriparse` finds in it.
pub open spec fn parsed_uri(text: Seq<char>) -> Option<UriView> {
    if has_scheme(text) {
        uriparse_uri(text)
    } else {
        None
    }
}

/// Calls `uriparse::URI::try_from` on the text and hands back the URI and
/// its parts as text: the scheme by its `as_str`, the whole and the other
/// parts by their `Display`, the port as the number. Nothing where
/// `uriparse` rejects the text. The result depends on the text alone. The text must begin with a
/// scheme and its `:`. On a text without one, `uriparse` fails in a way of
/// its own where the first segment of the path holds a `:`, and finds no
/// URI otherwise.
#[verifier::external_body]
pub(crate) fn parse_uri_text(text: &str) -> (r: Option<Uri>)
    requires
        has_scheme(text@),
    ensures
        match r {
            Some(u) => uriparse_uri(text@) == Some(u@),
            None => uriparse_uri(text@) is None,
        },
{
    let u = uriparse::URI::try_from(text).ok()?;
    Some(Uri {
        text: u.to_string(),
        scheme: u.scheme().as_str().to_string(),
        authority: u.authority().map(ToString::to_string),
        username: u.username().map(ToString::to_string),
        password: u.password().map(ToString::to_string),
        host: u.host().map(ToString::to_string),
        port: u.port(),
        path: u.path().to_string(),
        query: u.query().map(ToString::to_string),
        fragment: u.fragment().map(ToString::to_string),
    })
}

/// Tells whether the text begins with a scheme and its `:`.
pub fn begins_with_scheme(text: &[char]) -> (r: bool)
    ensures
        r == has_scheme(text@),
{
    let len = text.len();
    if len == 0 {
        return false;
    }
    let first = text[0] as u32;
    if !((0x61 <= first && first <= 0x7a) || (0x41 <= first && first <= 0x5a)) {
        return false;
    }
    let mut i: usize = 0;
    while i < len
        invariant
            i <= len,
            len == text@.len(),
            is_ascii_letter(text@[0]),
            forall|k: int| 0 <= k < i ==> is_scheme_char(#[trigger] text@[k]),
        decreases len - i,
    {
        let c = text[i];
        let n = c as u32;
        if c == ':' {
            proof {
                assert(scheme_ends_at(text@, i as int));
            }
            return true;
        }
        if !((0x61 <= n && n <= 0x7a) || (0x41 <= n && n <= 0x5a) || (0x30 <= n && n <= 0x39)
            || c == '+' || c == '.' || c == '-') {
            proof {
                assert forall|m: int| !scheme_ends_at(text@, m) by {
                    if scheme_ends_at(text@, m) {
                        if m > i {
                            assert(is_scheme_char(text@[i as int]));
                        } else if m < i {
                            assert(is_scheme_char(text@[m]));
                        }
                    }
                }
            }
            return false;
        }
        i += 1;
    }
    proof {
        assert forall|m: int| !scheme_ends_at(text@, m) by {
            if scheme_ends_at(text@, m) {
                assert(is_scheme_char(text@[m]));
            }
        }
    }
    false
}

/// A copy of an optional string.
pub fn clone_opt_string(o: &Option<String>) -> (r: Option<String>)
    ensures
        opt_text(r) == opt_text(*o),
{
    match o {
        Some(s) => Some(s.clone()),
        None => None,
    }
}

impl Uri {
    /// The URI that `text` spells, if it spells one.
    pub fn parse(text: &str) -> (r: Option<Uri>)
        ensures
            match r {
                Some(u) => parsed_uri(text@) == Some(u@),
                None => parsed_uri(text@) is None,
            },
    {
        let chars = to_chars(text);
        if begins_with_scheme(chars.as_slice()) {
            parse_uri_text(text)
        } else {
            None
        }
    }

    /// A copy with the same components.
    pub fn duplicate(&self) -> (r: Uri)
        ensures
            r@ == self@,
    {
        Uri {
            text: self.text.clone(),
            scheme: self.scheme.clone(),
            authority: clone_opt_string(&self.authority),
            username: clone_opt_string(&self.username),
            password: clone_opt_string(&self.password),
            host: clone_opt_string(&self.host),
            port: self.port,
            path: self.path.clone(),
            query: clone_opt_string(&self.query),
            fragment: clone_opt_string(&self.fragment),
        }
    }

    /// The whole URI.
    pub fn text(&self) -> (r: &str)
        ensures
            r@ == self.text@,
    {
        self.text.as_str()
    }

    pub fn scheme(&self) -> (r: &str)
        ensures
            r@ == self.scheme@,
    {
        self.scheme.as_str()
    }

    pub fn username(&self) -> (r: Option<&str>)
        ensures
            match r {
                Some(s) => self.username matches Some(a) && s@ == a@,
                None => self.username is None,
            },
    {
        match &self.username {
            Some(a) => Some(a.as_str()),
            None => None,
        }
    }

    pub fn password(&self) -> (r: Option<&str>)
        ensures
            match r {
                Some(s) => self.password matches Some(a) && s@ == a@,
                None => self.password is None,
            },
    {
        match &self.password {
            Some(a) => Some(a.as_str()),
            None => None,
        }
    }

    pub fn path(&self) -> (r: &str)
        ensures
            r@ == self.path@,
    {
        self.path.as_str()
    }

    pub fn authority(&self) -> (r: Option<&str>)
        ensures
            match r {
                Some(s) => self.authority matches Some(a) && s@ == a@,
                None => self.authority is None,
            },
    {
        match &self.authority {
            Some(a) => Some(a.as_str()),
            None => None,
        }
    }

    pub fn host(&self) -> (r: Option<&str>)
        ensures
            match r {
                Some(s) => self.host matches Some(a) && s@ == a@,
                None => self.host is None,
            },
    {
        match &self.host {
            Some(a) => Some(a.as_str()),
            None => None,
        }
    }

    pub fn port(&self) -> (r: Option<u16>)
        ensures
            r == self.port,
    {
        self.port
    }

    pub fn query(&self) -> (r: Option<&str>)
        ensures
            match r {
                Some(s) => self.query matches Some(a) && s@ == a@,
                None => self.query is None,
            },
    {
        match &self.query {
            Some(a) => Some(a.as_str()),
            None => None,
        }
    }

    pub fn fragment(&self) -> (r: Option<&str>)
        ensures
            match r {
                Some(s) => self.fragment matches Some(a) && s@ == a@,
                None => self.fragment is None,
            },
    {
        match &self.fragment {
            Some(a) => Some(a.as_str()),
            None => None,
        }
    }
}

} // verus!
